use vstd::prelude::*;

use crate::cache_mode::CacheMode;
use crate::cons::Cons;
use crate::slot::NextSlot;
use vstd::std_specs::cmp::PartialEqSpec;

verus! {

/// The nodes of one list, kept in a vector and linked by index.
///
/// A node never moves while it is in the chain, so its index names its `next`
/// slot for as long as the node lives, which is what the tail cache remembers.
/// The entries freed by removals are listed in `vacant` and used again.
/// A slot is named by `Option<usize>`: `None` for the head slot, `Some(i)` for
/// the `next` slot of node `i`.
pub(crate) struct Arena<T, C> {
    head_slot: NextSlot,
    nodes: Vec<Option<Cons<T>>>,
    vacant: Vec<usize>,
    cache_mode: C,
    chain: Ghost<Seq<usize>>,
}

impl<T, C: CacheMode> View for Arena<T, C> {
    type V = Seq<T>;

    closed spec fn view(&self) -> Seq<T> {
        Seq::new(self.chain@.len(), |k: int| self.val_of(self.chain@[k]))
    }
}

impl<T, C: CacheMode> Arena<T, C> {
    /// Entry `i` holds a node.
    spec fn live(&self, i: usize) -> bool {
        (i as int) < self.nodes@.len() && self.nodes@[i as int] is Some
    }

    /// What the `next` slot of node `i` holds.
    spec fn next_of(&self, i: usize) -> Option<usize> {
        match self.nodes@[i as int] {
            Some(c) => c.next@,
            None => None,
        }
    }

    /// The value of node `i`.
    spec fn val_of(&self, i: usize) -> T {
        self.nodes@[i as int]->Some_0.val
    }

    /// The arena indices of the nodes, in chain order.
    pub(crate) closed spec fn ids(&self) -> Seq<usize> {
        self.chain@
    }

    /// The `k`-th node of the chain links to the `k+1`-th, the last to nothing.
    spec fn link_ok(&self, k: int) -> bool {
        self.next_of(self.chain@[k]) == if k + 1 < self.chain@.len() {
            Some(self.chain@[k + 1])
        } else {
            None
        }
    }

    /// The slot after the first `k` nodes of the chain.
    pub(crate) closed spec fn slot_at(&self, k: int) -> Option<usize> {
        if k == 0 {
            None
        } else {
            Some(self.chain@[k - 1])
        }
    }

    /// What a slot holds.
    spec fn held_by(&self, slot: Option<usize>) -> Option<usize> {
        match slot {
            None => self.head_slot@,
            Some(i) => self.next_of(i),
        }
    }

    /// The invariant, except that node `loose` (if any) is live but in no chain.
    spec fn inv(&self, loose: Option<usize>) -> bool {
        let ids = self.chain@;
        &&& ids.no_duplicates()
        &&& forall|k: int| 0 <= k < ids.len() ==> #[trigger] self.live(ids[k])
        &&& forall|i: usize| #[trigger]
            self.live(i) ==> ids.contains(i) || loose == Some(i)
        &&& self.vacant@.no_duplicates()
        &&& forall|j: int|
            0 <= j < self.vacant@.len() ==> (#[trigger] self.vacant@[j] as int) < self.nodes@.len()
                && self.nodes@[self.vacant@[j] as int] is None
        &&& ids.len() + self.vacant@.len() + (if loose is Some { 1int } else { 0 })
            == self.nodes@.len()
        &&& self.head_slot@ == (if ids.len() == 0 {
            None::<usize>
        } else {
            Some(ids[0])
        })
        &&& forall|k: int| 0 <= k < ids.len() ==> #[trigger] self.link_ok(k)
        &&& match loose {
            Some(i) => self.live(i) && self.next_of(i) is None && !ids.contains(i),
            None => true,
        }
    }

    /// The arena is a single acyclic chain and the cache agrees with it.
    pub(crate) closed spec fn well_formed(&self) -> bool {
        &&& self.inv(None)
        &&& C::keeps_len() ==> self.cache_mode.len_view() == self.chain@.len()
    }

    proof fn lemma_slot(&self, loose: Option<usize>, k: int)
        requires
            self.inv(loose),
            0 <= k <= self.chain@.len(),
        ensures
            self.held_by(self.slot_at(k)) == if k < self.chain@.len() {
                Some(self.chain@[k])
            } else {
                None
            },
            k > 0 ==> self.live(self.chain@[k - 1]),
    {
        if k > 0 {
            assert(self.link_ok(k - 1));
            assert(self.live(self.chain@[k - 1]));
        }
    }

    /// An empty arena.
    pub(crate) fn new() -> (r: Self)
        ensures
            r.well_formed(),
            r@ == Seq::<T>::empty(),
            r.ids() == Seq::<usize>::empty(),
    {
        let r = Arena {
            head_slot: NextSlot::new(),
            nodes: Vec::new(),
            vacant: Vec::new(),
            cache_mode: C::new(),
            chain: Ghost(Seq::empty()),
        };
        assert(r@ =~= Seq::<T>::empty());
        r
    }

    /// What a slot holds.
    fn held(&self, slot: Option<usize>) -> (r: Option<usize>)
        requires
            slot matches Some(i) ==> (i as int) < self.nodes@.len(),
        ensures
            r == self.held_by(slot),
    {
        match slot {
            None => self.head_slot.get(),
            Some(i) => match &self.nodes[i] {
                Some(c) => c.next.get(),
                None => None,
            },
        }
    }

    /// Where a probe for the end of the chain starts: the slot that the cache
    /// remembers, if it is still empty, or else the head slot.
    fn start_slot(&self) -> (r: Option<usize>)
        requires
            self.well_formed(),
        ensures
            r is None || (self.chain@.len() > 0 && r == Some(self.chain@.last())),
    {
        match self.cache_mode.tail_slot_opt() {
            Some(t) => {
                if t < self.nodes.len() {
                    match &self.nodes[t] {
                        Some(c) => {
                            if c.next.get().is_none() {
                                proof {
                                    assert(self.live(t));
                                    let k = choose|k: int|
                                        0 <= k < self.chain@.len() && self.chain@[k] == t;
                                    assert(self.link_ok(k));
                                }
                                return Some(t);
                            }
                        },
                        None => {},
                    }
                }
                None
            },
            None => None,
        }
    }

    /// Tries to fill a slot with `idx`; on a full slot nothing changes and the
    /// occupant comes back.
    fn try_link(&mut self, slot: Option<usize>, idx: usize) -> (r: Result<usize, (usize, usize)>)
        requires
            slot matches Some(i) ==> old(self).live(i),
        ensures
            final(self).chain == old(self).chain,
            final(self).vacant == old(self).vacant,
            final(self).cache_mode == old(self).cache_mode,
            final(self).nodes@.len() == old(self).nodes@.len(),
            forall|j: usize| #[trigger] final(self).live(j) == old(self).live(j),
            forall|j: usize|
                (j as int) < old(self).nodes@.len() ==> #[trigger] final(self).val_of(j)
                    == old(self).val_of(j),
            forall|j: usize|
                (j as int) < old(self).nodes@.len() && slot != Some(j)
                    ==> #[trigger] final(self).next_of(j) == old(self).next_of(j),
            slot is Some ==> final(self).head_slot@ == old(self).head_slot@,
            match old(self).held_by(slot) {
                Some(o) => r == Err::<usize, (usize, usize)>((o, idx)) && final(self).held_by(slot)
                    == old(self).held_by(slot),
                None => r == Ok::<usize, (usize, usize)>(idx) && final(self).held_by(slot) == Some(
                    idx,
                ),
            },
    {
        match slot {
            None => self.head_slot.try_insert2(idx),
            Some(i) => match &mut self.nodes[i] {
                Some(c) => c.next.try_insert2(idx),
                None => unreached(),
            },
        }
    }

    /// Stores `val` in a node that no chain reaches yet: a vacant entry, or a
    /// new one at the end of the vector.
    fn place(&mut self, val: T) -> (idx: usize)
        requires
            old(self).well_formed(),
        ensures
            final(self).inv(Some(idx)),
            final(self).chain == old(self).chain,
            final(self).cache_mode == old(self).cache_mode,
            final(self).val_of(idx) == val,
            forall|j: int|
                0 <= j < old(self).chain@.len() ==> #[trigger] final(self).val_of(
                    old(self).chain@[j],
                ) == old(self).val_of(old(self).chain@[j]),
    {
        let ghost old_nodes = self.nodes@;
        let ghost old_vacant = self.vacant@;
        let idx: usize = match self.vacant.pop() {
            Some(i) => {
                assert(old_vacant[old_vacant.len() - 1] == i);
                self.nodes[i] = Some(Cons::new(val));
                i
            },
            None => {
                self.nodes.push(Some(Cons::new(val)));
                self.nodes.len() - 1
            },
        };
        proof {
            let ids = self.chain@;
            assert(!old(self).live(idx));
            assert forall|j: usize| old(self).live(j) implies self.live(j) && self.next_of(j)
                == old(self).next_of(j) && self.val_of(j) == old(self).val_of(j) by {
                assert(j != idx);
            }
            assert forall|k: int| 0 <= k < ids.len() implies #[trigger] self.live(ids[k]) by {
                assert(old(self).live(ids[k]));
            }
            assert forall|k: int| 0 <= k < ids.len() implies #[trigger] self.link_ok(k) by {
                assert(old(self).link_ok(k));
                assert(old(self).live(ids[k]));
            }
            assert forall|i: usize| #[trigger] self.live(i) implies ids.contains(i) || Some(idx)
                == Some(i) by {
                if i != idx {
                    assert(old(self).live(i));
                }
            }
            assert forall|j: int| 0 <= j < self.vacant@.len() implies (
            #[trigger] self.vacant@[j] as int) < self.nodes@.len() && self.nodes@[self.vacant@[j] as int]
                is None by {
                assert(old_vacant[j] == self.vacant@[j]);
                assert(self.vacant@[j] != idx);
            }
            assert(!ids.contains(idx));
            assert forall|j: int| 0 <= j < ids.len() implies #[trigger] self.val_of(ids[j])
                == old(self).val_of(ids[j]) by {
                assert(old(self).live(ids[j]));
            }
        }
        idx
    }

    /// Stores `val` in a new node and links it at the end of the chain, probing
    /// forward from `start` until a slot is found empty.
    fn append(&mut self, start: Option<usize>, val: T) -> (idx: usize)
        requires
            old(self).well_formed(),
            start is None || (old(self).chain@.len() > 0 && start == Some(
                old(self).chain@.last(),
            )),
        ensures
            final(self).well_formed(),
            final(self)@ == old(self)@.push(val),
            final(self).ids() == old(self).ids().push(idx),
    {
        let ghost len: int = self.chain@.len() as int;
        let idx = self.place(val);
        let mut slot = start;
        let ghost mut k: int = if start is None {
            0
        } else {
            len
        };
        loop
            invariant
                self.inv(Some(idx)),
                len == self.chain@.len(),
                self.chain@ == old(self).chain@,
                self.cache_mode == old(self).cache_mode,
                C::keeps_len() ==> self.cache_mode.len_view() == len,
                self.val_of(idx) == val,
                forall|j: int|
                    0 <= j < len ==> #[trigger] self.val_of(self.chain@[j]) == old(self).val_of(
                        self.chain@[j],
                    ),
                0 <= k <= len,
                slot == self.slot_at(k),
            decreases len - k,
        {
            proof {
                self.lemma_slot(Some(idx), k);
            }
            let ghost pre = *self;
            assert(pre.inv(Some(idx)));
            match self.try_link(slot, idx) {
                Ok(_) => {
                    proof {
                        let ids = self.chain@;
                        assert(k == len);
                        assert forall|j: usize| pre.live(j) implies self.live(j) && self.val_of(j)
                            == pre.val_of(j) by {}
                        assert forall|q: int| 0 <= q < ids.len() implies #[trigger] self.live(ids[q]) by {
                            assert(pre.live(ids[q]));
                        }
                        assert forall|q: int| 0 <= q < ids.len() - 1 implies #[trigger] self.link_ok(q) by {
                            assert(pre.link_ok(q));
                            assert(pre.live(ids[q]));
                            assert(ids[q] != ids[len - 1]);
                        }
                        assert(pre.live(idx));
                        assert(self.next_of(idx) == pre.next_of(idx));
                    }
                    let ghost mid = *self;
                    self.chain = Ghost(self.chain@.push(idx));
                    proof {
                        let ids = self.chain@;
                        assert forall|q: int| 0 <= q < ids.len() implies #[trigger] self.link_ok(q) by {
                            if q < len - 1 {
                                assert(mid.link_ok(q));
                                assert(ids[q] == mid.chain@[q]);
                                assert(ids[q + 1] == mid.chain@[q + 1]);
                            } else if q == len - 1 {
                                assert(slot == Some(mid.chain@[q]));
                                assert(mid.held_by(slot) == Some(idx));
                                assert(ids[q + 1] == idx);
                            } else {
                                assert(ids[q] == idx);
                                assert(mid.next_of(idx) is None);
                            }
                        }
                        assert forall|q: int| 0 <= q < ids.len() implies #[trigger] self.live(ids[q]) by {
                            if q < len {
                                assert(pre.live(ids[q]));
                            }
                        }
                        assert forall|i: usize| #[trigger] self.live(i) implies ids.contains(i) by {
                            assert(mid.live(i));
                            assert(pre.live(i));
                            if i == idx {
                                assert(ids[len] == idx);
                            } else {
                                let q = choose|q: int| 0 <= q < len && pre.chain@[q] == i;
                                assert(ids[q] == i);
                            }
                        }
                    }
                    proof {
                        let ids = self.chain@;
                        assert(!pre.chain@.contains(idx));
                        assert forall|a: int, b: int| 0 <= a < b < ids.len() implies ids[a]
                            != ids[b] by {
                            if b == len {
                                assert(pre.chain@.contains(ids[a]));
                            } else {
                                assert(pre.chain@[a] != pre.chain@[b]);
                            }
                        }
                        assert forall|j: int| 0 <= j < self.vacant@.len() implies (
                        #[trigger] self.vacant@[j] as int) < self.nodes@.len()
                            && self.nodes@[self.vacant@[j] as int] is None by {
                            let v = self.vacant@[j];
                            assert(pre.vacant@[j] == v);
                            assert(!pre.live(v));
                            assert(!mid.live(v));
                        }
                        assert forall|j: int| 0 <= j < len implies #[trigger] self.val_of(ids[j])
                            == old(self).val_of(old(self).chain@[j]) by {
                            assert(pre.live(pre.chain@[j]));
                            assert(ids[j] == pre.chain@[j]);
                        }
                        assert(self.val_of(idx) == val);
                        if len == 0 {
                            assert(mid.held_by(slot) == Some(idx));
                        } else {
                            assert(self.head_slot@ == pre.head_slot@);
                        }
                    }
                    assert(self.inv(None));
                    assert(self@ =~= old(self)@.push(val));
                    assert(self.nodes@.len() == self.nodes.len());
                    let ghost linked = *self;
                    self.cache_mode.on_push_success(idx);
                    proof {
                        linked.lemma_inv_frame(*self, None);
                    }
                    assert(self@ == linked@);
                    return idx;
                },
                Err((occ, _)) => {
                    proof {
                        assert(k < len);
                        assert forall|j: usize| #[trigger] self.live(j) == pre.live(j) by {}
                        assert forall|j: usize| pre.live(j) implies self.next_of(j) == pre.next_of(j) by {
                            if slot == Some(j) {
                                assert(self.held_by(slot) == pre.held_by(slot));
                            }
                        }
                        assert forall|q: int| 0 <= q < self.chain@.len() implies #[trigger] self.link_ok(q) by {
                            assert(pre.link_ok(q));
                            assert(pre.live(self.chain@[q]));
                        }
                        assert(pre.live(idx));
                        assert(slot != Some(idx));
                        assert forall|j: int| 0 <= j < self.vacant@.len() implies (
                        #[trigger] self.vacant@[j] as int) < self.nodes@.len()
                            && self.nodes@[self.vacant@[j] as int] is None by {
                            let v = self.vacant@[j];
                            assert(pre.vacant@[j] == v);
                            assert(!pre.live(v));
                            assert(!self.live(v));
                        }
                        assert forall|j: int| 0 <= j < len implies #[trigger] self.val_of(
                            self.chain@[j],
                        ) == old(self).val_of(self.chain@[j]) by {
                            assert(pre.live(self.chain@[j]));
                        }
                    }
                    slot = Some(occ);
                    proof {
                        k = k + 1;
                    }
                },
            }
        }
    }

    /// Appends `val` and returns the index of its node.
    pub(crate) fn push_back(&mut self, val: T) -> (idx: usize)
        requires
            old(self).well_formed(),
        ensures
            final(self).well_formed(),
            final(self)@ == old(self)@.push(val),
            final(self).ids() == old(self).ids().push(idx),
    {
        let start = self.start_slot();
        self.append(start, val)
    }

    /// The value of the node at arena index `idx`, the `k`-th of the chain.
    pub(crate) fn value_at(&self, Ghost(k): Ghost<int>, idx: usize) -> (r: &T)
        requires
            self.well_formed(),
            0 <= k < self.ids().len(),
            self.ids()[k] == idx,
        ensures
            *r == self@[k],
    {
        assert(self.live(self.chain@[k]));
        match &self.nodes[idx] {
            Some(c) => &c.val,
            None => unreached(),
        }
    }

    /// The invariant does not look at the cache.
    proof fn lemma_inv_frame(&self, other: Self, loose: Option<usize>)
        requires
            self.inv(loose),
            other.head_slot == self.head_slot,
            other.nodes == self.nodes,
            other.vacant == self.vacant,
            other.chain == self.chain,
        ensures
            other.inv(loose),
    {
        assert forall|i: usize| #[trigger] other.live(i) implies self.live(i) by {}
        assert forall|k: int| 0 <= k < other.chain@.len() implies #[trigger] other.link_ok(k) by {
            assert(self.link_ok(k));
        }
        assert forall|k: int| 0 <= k < other.chain@.len() implies #[trigger] other.live(
            other.chain@[k],
        ) by {
            assert(self.live(self.chain@[k]));
        }
    }

    /// Points a slot at `target`, whatever it held before.
    fn relink(&mut self, slot: Option<usize>, target: Option<usize>)
        requires
            slot matches Some(i) ==> old(self).live(i),
        ensures
            final(self).chain == old(self).chain,
            final(self).vacant == old(self).vacant,
            final(self).cache_mode == old(self).cache_mode,
            final(self).nodes@.len() == old(self).nodes@.len(),
            forall|j: usize| #[trigger] final(self).live(j) == old(self).live(j),
            forall|j: usize|
                (j as int) < old(self).nodes@.len() ==> #[trigger] final(self).val_of(j)
                    == old(self).val_of(j),
            forall|j: usize|
                (j as int) < old(self).nodes@.len() && slot != Some(j)
                    ==> #[trigger] final(self).next_of(j) == old(self).next_of(j),
            slot is Some ==> final(self).head_slot@ == old(self).head_slot@,
            final(self).held_by(slot) == target,
    {
        match slot {
            None => {
                let _ = self.head_slot.take();
                if let Some(a) = target {
                    let _ = self.head_slot.set(a);
                }
            },
            Some(i) => match &mut self.nodes[i] {
                Some(c) => {
                    let _ = c.next.take();
                    if let Some(a) = target {
                        let _ = c.next.set(a);
                    }
                },
                None => unreached(),
            },
        }
    }

    /// Forgets the remembered tail slot.
    fn invalidate_tail(&mut self)
        requires
            old(self).well_formed(),
        ensures
            final(self).well_formed(),
            final(self)@ == old(self)@,
            final(self).ids() == old(self).ids(),
    {
        let ghost pre = *self;
        self.cache_mode.invalidate();
        proof {
            pre.lemma_inv_frame(*self, None);
        }
        assert(self@ =~= pre@);
    }

    /// Removes the first value on which `pred` holds.
    pub(crate) fn remove<P: Fn(&T) -> bool>(&mut self, pred: P) -> (r: Option<T>)
        requires
            old(self).well_formed(),
            forall|x: &T| #[trigger] pred.requires((x,)),
        ensures
            final(self).well_formed(),
            match r {
                Some(v) => exists|i: int|
                    {
                        &&& 0 <= i < old(self)@.len()
                        &&& v == old(self)@[i]
                        &&& final(self)@ == old(self)@.remove(i)
                        &&& final(self).ids() == old(self).ids().remove(i)
                        &&& pred.ensures((&old(self)@[i],), true)
                        &&& forall|j: int|
                            0 <= j < i ==> #[trigger] pred.ensures((&old(self)@[j],), false)
                    },
                None => {
                    &&& final(self)@ == old(self)@
                    &&& final(self).ids() == old(self).ids()
                    &&& forall|j: int|
                        0 <= j < old(self)@.len() ==> #[trigger] pred.ensures(
                            (&old(self)@[j],),
                            false,
                        )
                },
            },
    {
        self.invalidate_tail();
        let ghost len: int = self.chain@.len() as int;
        let mut prev: Option<usize> = None;
        let mut cur = self.head_slot.get();
        let ghost mut k: int = 0;
        while cur.is_some()
            invariant
                self.well_formed(),
                self@ == old(self)@,
                self.ids() == old(self).ids(),
                len == self.chain@.len(),
                0 <= k <= len,
                prev == self.slot_at(k),
                cur == (if k < len {
                    Some(self.chain@[k])
                } else {
                    None::<usize>
                }),
                forall|j: int| 0 <= j < k ==> #[trigger] pred.ensures((&old(self)@[j],), false),
                forall|x: &T| #[trigger] pred.requires((x,)),
            decreases len - k,
        {
            let i = cur.unwrap();
            proof {
                self.lemma_slot(None, k + 1);
            }
            let hit = pred(self.value_at(Ghost(k), i));
            if hit {
                let ghost pre = *self;
                let after = self.held(Some(i));
                proof {
                    self.lemma_slot(None, k);
                }
                self.relink(prev, after);
                let ghost mid = *self;
                let taken = self.nodes[i].take();
                assert(self.nodes@ == mid.nodes@.update(i as int, None));
                self.vacant.push(i);
                self.chain = Ghost(self.chain@.remove(k));
                proof {
                    let ids = self.chain@;
                    let old_ids = pre.chain@;
                    assert(pre.live(i));
                    assert forall|q: int| 0 <= q < ids.len() implies ids[q] != i && (q < k ==> ids[q]
                        == old_ids[q]) && (q >= k ==> ids[q] == old_ids[q + 1]) by {}
                    assert forall|a: int, b: int| 0 <= a < b < ids.len() implies ids[a] != ids[b] by {
                        let a2 = if a < k { a } else { a + 1 };
                        let b2 = if b < k { b } else { b + 1 };
                        assert(old_ids[a2] != old_ids[b2]);
                    }
                    assert forall|j: usize| pre.live(j) && j != i implies #[trigger] self.live(j)
                        && self.val_of(j) == pre.val_of(j) by {
                        assert(self.nodes@[j as int] == mid.nodes@[j as int]);
                        assert(mid.live(j));
                        assert(mid.val_of(j) == pre.val_of(j));
                    }
                    assert forall|q: int| 0 <= q < ids.len() implies #[trigger] self.live(ids[q]) by {
                        assert(pre.live(ids[q]));
                    }
                    assert forall|j: usize| #[trigger] self.live(j) implies ids.contains(j) by {
                        assert(j != i);
                        assert(mid.live(j));
                        assert(pre.live(j));
                        let q = choose|q: int| 0 <= q < len && old_ids[q] == j;
                        if q < k {
                            assert(ids[q] == j);
                        } else {
                            assert(q != k);
                            assert(ids[q - 1] == j);
                        }
                    }
                    assert forall|j: int| 0 <= j < self.vacant@.len() implies (
                    #[trigger] self.vacant@[j] as int) < self.nodes@.len()
                        && self.nodes@[self.vacant@[j] as int] is None by {
                        if j < pre.vacant@.len() {
                            let v = self.vacant@[j];
                            assert(pre.vacant@[j] == v);
                            assert(!pre.live(v));
                            assert(!mid.live(v));
                        }
                    }
                    assert forall|a: int, b: int| 0 <= a < b < self.vacant@.len() implies self.vacant@[a]
                        != self.vacant@[b] by {
                        if b == pre.vacant@.len() {
                            assert(!pre.live(pre.vacant@[a]));
                        } else {
                            assert(pre.vacant@[a] != pre.vacant@[b]);
                        }
                    }
                    assert forall|j: usize| (j as int) < pre.nodes@.len() && j != i && prev != Some(j)
                        implies #[trigger] self.next_of(j) == pre.next_of(j) by {
                        assert(mid.next_of(j) == pre.next_of(j));
                    }
                    assert forall|q: int| 0 <= q < ids.len() implies #[trigger] self.link_ok(q) by {
                        if q < k - 1 {
                            assert(pre.link_ok(q));
                            assert(old_ids[q] != old_ids[k - 1]);
                            assert(pre.live(old_ids[q]));
                        } else if q == k - 1 {
                            assert(prev == Some(old_ids[q]));
                            assert(mid.held_by(prev) == after);
                            assert(pre.link_ok(k));
                            assert(mid.next_of(old_ids[q]) == after);
                        } else {
                            assert(pre.link_ok(q + 1));
                            assert(pre.live(old_ids[q + 1]));
                            assert(old_ids[q + 1] != old_ids[k]);
                            if k > 0 {
                                assert(old_ids[q + 1] != old_ids[k - 1]);
                            }
                        }
                    }
                    if k == 0 {
                        assert(pre.link_ok(0));
                        assert(mid.held_by(prev) == after);
                    } else {
                        assert(self.head_slot@ == pre.head_slot@);
                    }
                    assert(self.inv(None));
                    assert forall|q: int| 0 <= q < ids.len() implies #[trigger] self.val_of(ids[q])
                        == pre.val_of(ids[q]) by {
                        assert(pre.live(ids[q]));
                        assert(ids[q] != i);
                        assert(self.nodes@[ids[q] as int] == mid.nodes@[ids[q] as int]);
                        assert(mid.val_of(ids[q]) == pre.val_of(ids[q]));
                    }
                    assert(self@ =~= pre@.remove(k));
                    assert(self.nodes@.len() == self.nodes.len());
                }
                let ghost unlinked = *self;
                self.cache_mode.on_remove_success();
                proof {
                    unlinked.lemma_inv_frame(*self, None);
                    assert(self@ == unlinked@);
                }
                assert(taken == mid.nodes@[i as int]);
                assert(mid.live(i));
                assert(mid.val_of(i) == pre.val_of(i));
                assert(pre.val_of(i) == old(self)@[k]);
                assert(pred.ensures((&old(self)@[k],), true));
                match taken {
                    Some(c) => {
                        assert(c.val == old(self)@[k]);
                        return Some(c.val);
                    },
                    None => {
                        return unreached();
                    },
                }
            }
            prev = Some(i);
            cur = self.held(prev);
            proof {
                k = k + 1;
            }
        }
        None
    }

    /// Appends the values in order, probing once for the end and then
    /// linking each new node after the one before it.
    pub(crate) fn extend(&mut self, values: Vec<T>)
        requires
            old(self).well_formed(),
        ensures
            final(self).well_formed(),
            final(self)@ == old(self)@ + values@,
            final(self).ids().len() == old(self).ids().len() + values@.len(),
            final(self).ids().subrange(0, old(self).ids().len() as int) == old(self).ids(),
    {
        let ghost vals = values@;
        let mut values = values;
        let mut reversed: Vec<T> = Vec::new();
        while values.len() > 0
            invariant
                values@ + reversed@.reverse() == vals,
            decreases values.len(),
        {
            let x = values.pop().unwrap();
            proof {
                assert(reversed@.push(x).reverse() =~= seq![x] + reversed@.reverse());
                assert(values@ + seq![x] + reversed@.reverse() =~= values@ + (seq![x]
                    + reversed@.reverse()));
            }
            reversed.push(x);
        }
        assert(values@ =~= Seq::<T>::empty());
        assert(reversed@.reverse() =~= vals);
        let mut start = self.start_slot();
        let ghost old_ids = self.chain@;
        while reversed.len() > 0
            invariant
                self.well_formed(),
                self@ + reversed@.reverse() == old(self)@ + vals,
                self.ids().len() + reversed@.len() == old_ids.len() + vals.len(),
                self.ids().subrange(0, old_ids.len() as int) == old_ids,
                old_ids == old(self).ids(),
                self.ids().len() >= old_ids.len(),
                start is None || (self.chain@.len() > 0 && start == Some(self.chain@.last())),
            decreases reversed.len(),
        {
            let x = reversed.pop().unwrap();
            let ghost before = self.chain@;
            let idx = self.append(start, x);
            proof {
                assert(reversed@.push(x).reverse() =~= seq![x] + reversed@.reverse());
                assert(self@ + reversed@.reverse() =~= self@.drop_last() + (seq![x]
                    + reversed@.reverse()));
                assert(self.chain@.subrange(0, old_ids.len() as int) =~= before.subrange(
                    0,
                    old_ids.len() as int,
                ));
            }
            start = Some(idx);
        }
        assert(self@ =~= old(self)@ + vals);
    }

    /// The number of values: the kept count, or a walk of the chain.
    pub(crate) fn len(&self) -> (r: usize)
        requires
            self.well_formed(),
        ensures
            r == self@.len(),
    {
        assert(self.nodes@.len() == self.nodes.len());
        if let Some(n) = self.cache_mode.cached_len() {
            return n;
        }
        let ghost len: int = self.chain@.len() as int;
        assert(self.nodes@.len() == self.nodes.len());
        let mut count: usize = 0;
        let mut cur = self.head_slot.get();
        while cur.is_some()
            invariant
                self.well_formed(),
                len == self.chain@.len(),
                len <= usize::MAX,
                0 <= count <= len,
                cur == (if count < len {
                    Some(self.chain@[count as int])
                } else {
                    None::<usize>
                }),
            decreases len - count,
        {
            let i = cur.unwrap();
            proof {
                self.lemma_slot(None, count + 1);
            }
            cur = self.held(Some(i));
            count = count + 1;
        }
        count
    }

    /// Whether the chain is empty.
    pub(crate) fn is_empty(&self) -> (r: bool)
        requires
            self.well_formed(),
        ensures
            r == (self@.len() == 0),
    {
        self.head_slot.get().is_none()
    }

    /// The first value, if any.
    pub(crate) fn front(&self) -> (r: Option<&T>)
        requires
            self.well_formed(),
        ensures
            r == (if self@.len() == 0 {
                None::<&T>
            } else {
                Some(&self@[0])
            }),
    {
        match self.head_slot.get() {
            Some(i) => Some(self.value_at(Ghost(0), i)),
            None => None,
        }
    }

    /// The last value, if any, found by walking the chain.
    pub(crate) fn back(&self) -> (r: Option<&T>)
        requires
            self.well_formed(),
        ensures
            r == (if self@.len() == 0 {
                None::<&T>
            } else {
                Some(&self@[self@.len() - 1])
            }),
    {
        match self.back_index() {
            Some(i) => Some(self.value_at(Ghost(self.chain@.len() - 1), i)),
            None => None,
        }
    }

    /// Whether some value equals `val`.
    pub(crate) fn contains(&self, val: &T) -> (r: bool) where T: PartialEq
        requires
            self.well_formed(),
        ensures
            T::obeys_eq_spec() ==> (r == exists|k: int|
                0 <= k < self@.len() && #[trigger] self@[k].eq_spec(val)),
    {
        let ghost len: int = self.chain@.len() as int;
        let mut cur = self.head_slot.get();
        let ghost mut k: int = 0;
        while cur.is_some()
            invariant
                self.well_formed(),
                len == self.chain@.len(),
                0 <= k <= len,
                cur == (if k < len {
                    Some(self.chain@[k])
                } else {
                    None::<usize>
                }),
                T::obeys_eq_spec() ==> forall|j: int| 0 <= j < k ==> !#[trigger] self@[j].eq_spec(val),
            decreases len - k,
        {
            let i = cur.unwrap();
            proof {
                self.lemma_slot(None, k + 1);
            }
            if self.value_at(Ghost(k), i).eq(val) {
                return true;
            }
            cur = self.held(Some(i));
            proof {
                k = k + 1;
            }
        }
        false
    }

    /// Drops every node and empties the cache.
    pub(crate) fn clear(&mut self)
        requires
            old(self).well_formed(),
        ensures
            final(self).well_formed(),
            final(self)@ == Seq::<T>::empty(),
            final(self).ids() == Seq::<usize>::empty(),
    {
        self.head_slot = NextSlot::new();
        self.nodes = Vec::new();
        self.vacant = Vec::new();
        self.chain = Ghost(Seq::empty());
        self.cache_mode.on_clear();
        self.cache_mode.invalidate();
        assert(self@ =~= Seq::<T>::empty());
    }

    /// What a cursor standing at `slot` reads next: the node that the slot
    /// holds and its value. A slot that names no live node reads nothing.
    pub(crate) fn step(&self, slot: Option<usize>) -> (r: Option<(usize, &T)>)
        requires
            self.well_formed(),
        ensures
            forall|k: int|
                0 <= k <= self.ids().len() && slot == self.slot_at(k) ==> if k < self.ids().len() {
                    r matches Some((i, v)) && i == self.ids()[k] && *v == self@[k]
                } else {
                    r is None
                },
    {
        if let Some(i) = slot {
            if i >= self.nodes.len() {
                proof {
                    assert forall|k: int|
                        0 <= k <= self.ids().len() && slot == self.slot_at(k) implies false by {
                        self.lemma_slot(None, k);
                    }
                }
                return None;
            }
        }
        let held = self.held(slot);
        proof {
            assert forall|k: int|
                0 <= k <= self.ids().len() && slot == self.slot_at(k) implies held == (if k
                < self.ids().len() {
                Some(self.chain@[k])
            } else {
                None::<usize>
            }) && (k < self.ids().len() ==> self.live(self.chain@[k])) by {
                self.lemma_slot(None, k);
            }
        }
        match held {
            Some(n) => {
                if n < self.nodes.len() {
                    match &self.nodes[n] {
                        Some(c) => Some((n, &c.val)),
                        None => None,
                    }
                } else {
                    None
                }
            },
            None => None,
        }
    }

    /// One arena index per value.
    pub(crate) proof fn lemma_len(&self)
        ensures
            self@.len() == self.ids().len(),
    {
    }

    /// The value of the `k`-th node, at arena index `idx`, to be changed in place.
    pub(crate) fn value_mut(&mut self, Ghost(k): Ghost<int>, idx: usize) -> (r: &mut T)
        requires
            old(self).well_formed(),
            0 <= k < old(self).ids().len(),
            old(self).ids()[k] == idx,
        ensures
            *r == old(self)@[k],
            final(self).well_formed(),
            final(self)@ == old(self)@.update(k, *final(r)),
            final(self).ids() == old(self).ids(),
        no_unwind
    {
        assert(self.live(self.chain@[k]));
        proof {
            assert forall|other: Self| self.same_but_val(other, idx) implies #[trigger] other.well_formed() by {
                self.lemma_update_val(other, k, idx);
            }
            assert forall|other: Self| self.same_but_val(other, idx) implies #[trigger] other@
                == self@.update(k, other.val_of(idx)) by {
                self.lemma_update_val(other, k, idx);
            }
        }
        match &mut self.nodes[idx] {
            Some(c) => &mut c.val,
            None => unreached(),
        }
    }

    /// `other` is this arena with another value in node `idx`.
    spec fn same_but_val(&self, other: Self, idx: usize) -> bool {
        &&& other.head_slot == self.head_slot
        &&& other.vacant == self.vacant
        &&& other.chain == self.chain
        &&& other.cache_mode == self.cache_mode
        &&& other.nodes@.len() == self.nodes@.len()
        &&& other.nodes@[idx as int] is Some
        &&& other.next_of(idx) == self.next_of(idx)
        &&& forall|j: int| 0 <= j < self.nodes@.len() && j != idx ==> other.nodes@[j] == self.nodes@[j]
    }

    /// Changing the value of one node keeps the chain and changes one value.
    proof fn lemma_update_val(&self, other: Self, k: int, idx: usize)
        requires
            self.well_formed(),
            0 <= k < self.ids().len(),
            self.ids()[k] == idx,
            self.same_but_val(other, idx),
        ensures
            other.well_formed(),
            other@ == self@.update(k, other.val_of(idx)),
    {
        assert forall|j: usize| #[trigger] other.live(j) == self.live(j) by {
            if (j as int) < self.nodes@.len() && j != idx {
                assert(other.nodes@[j as int] == self.nodes@[j as int]);
            }
        }
        assert forall|q: int| 0 <= q < other.chain@.len() implies #[trigger] other.link_ok(q) by {
            assert(self.link_ok(q));
            assert(self.live(self.chain@[q]));
            if self.chain@[q] != idx {
                assert(other.nodes@[self.chain@[q] as int] == self.nodes@[self.chain@[q] as int]);
            }
        }
        assert forall|q: int| 0 <= q < other.chain@.len() implies #[trigger] other.live(other.chain@[q]) by {
            assert(self.live(self.chain@[q]));
        }
        assert forall|j: int| 0 <= j < other.vacant@.len() implies (
        #[trigger] other.vacant@[j] as int) < other.nodes@.len()
            && other.nodes@[other.vacant@[j] as int] is None by {
            assert(!self.live(self.vacant@[j]));
            assert(!other.live(other.vacant@[j]));
        }
        assert(other.inv(None));
        assert forall|q: int| 0 <= q < other.chain@.len() implies #[trigger] other@[q] == self@.update(k, other.val_of(idx))[q] by {
            assert(self.live(self.chain@[q]));
            if q != k {
                assert(self.chain@[q] != idx);
                assert(other.nodes@[self.chain@[q] as int] == self.nodes@[self.chain@[q] as int]);
            }
        }
        assert(other@ =~= self@.update(k, other.val_of(idx)));
    }

    /// The arena index of the first node, if any.
    pub(crate) fn front_index(&self) -> (r: Option<usize>)
        requires
            self.well_formed(),
        ensures
            r == (if self.ids().len() == 0 {
                None::<usize>
            } else {
                Some(self.ids()[0])
            }),
    {
        self.head_slot.get()
    }

    /// The arena index of the last node, if any, found by walking the chain.
    pub(crate) fn back_index(&self) -> (r: Option<usize>)
        requires
            self.well_formed(),
        ensures
            r == (if self.ids().len() == 0 {
                None::<usize>
            } else {
                Some(self.ids()[self.ids().len() - 1])
            }),
    {
        let ghost len: int = self.chain@.len() as int;
        let mut last: Option<usize> = None;
        let mut cur = self.head_slot.get();
        let ghost mut k: int = 0;
        while cur.is_some()
            invariant
                self.well_formed(),
                len == self.chain@.len(),
                0 <= k <= len,
                last == self.slot_at(k),
                cur == (if k < len {
                    Some(self.chain@[k])
                } else {
                    None::<usize>
                }),
            decreases len - k,
        {
            let i = cur.unwrap();
            proof {
                self.lemma_slot(None, k + 1);
            }
            last = Some(i);
            cur = self.held(last);
            proof {
                k = k + 1;
            }
        }
        last
    }

    /// The value of the node at arena index `idx`, to be changed in place, if
    /// that node is in the chain.
    pub(crate) fn value_mut_checked(&mut self, idx: usize) -> (r: Option<&mut T>)
        requires
            old(self).well_formed(),
        ensures
            final(self).well_formed(),
            final(self).ids() == old(self).ids(),
            r is None ==> final(self)@ == old(self)@ && !old(self).ids().contains(idx),
            forall|k: int|
                0 <= k < old(self).ids().len() && old(self).ids()[k] == idx ==> (r matches Some(v)
                    && *v == old(self)@[k] && final(self)@ == old(self)@.update(k, *final(v))),
        no_unwind
    {
        if idx >= self.nodes.len() {
            proof {
                self.lemma_not_live(idx);
            }
            return None;
        }
        if let None = &self.nodes[idx] {
            proof {
                self.lemma_not_live(idx);
            }
            return None;
        }
        proof {
            assert(self.live(idx));
        }
        let ghost k = choose|k: int| 0 <= k < self.chain@.len() && self.chain@[k] == idx;
        proof {
            assert forall|q: int| 0 <= q < self.chain@.len() && self.chain@[q] == idx implies q == k by {}
        }
        Some(self.value_mut(Ghost(k), idx))
    }

    /// An index that names no live node is in no chain.
    proof fn lemma_not_live(&self, idx: usize)
        requires
            self.well_formed(),
            !self.live(idx),
        ensures
            !self.ids().contains(idx),
    {
        if self.chain@.contains(idx) {
            let k = choose|k: int| 0 <= k < self.chain@.len() && self.chain@[k] == idx;
            assert(self.live(self.chain@[k]));
        }
    }

    /// The slot after `k` nodes is the head slot for `k == 0`, else the `next`
    /// slot of the `k-1`-th node.
    pub(crate) proof fn lemma_slot_def(&self)
        ensures
            forall|k: int| #[trigger]
                self.slot_at(k) == if k == 0 {
                    None::<usize>
                } else {
                    Some(self.ids()[k - 1])
                },
    {
    }
}

} // verus!
