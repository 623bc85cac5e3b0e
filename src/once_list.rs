use vstd::prelude::*;

use allocator_api2::alloc::Global;

use vstd::std_specs::cmp::PartialEqSpec;

use crate::arena::Arena;
use crate::cache_mode::{CacheMode, NoCache, WithLen, WithTail, WithTailLen};
use crate::iter::{IntoIter, Iter, IterMut};

verus! {

/// Relies on allocator_api2's `Global` type, declared so that a list can keep
/// the allocator value it was built with.
#[verifier::external_type_specification]
#[verifier::external_body]
pub struct ExGlobal(Global);

/// Relies on std's `Hasher::write_usize`: feeds a length to the hasher.
#[verifier::external_body]
fn write_len<H: core::hash::Hasher>(state: &mut H, n: usize) {
    state.write_usize(n)
}

/// Relies on std's `Hash::hash`: feeds one value to the hasher.
#[verifier::external_body]
fn hash_value<T: core::hash::Hash, H: core::hash::Hasher>(val: &T, state: &mut H) {
    val.hash(state)
}

/// Relies on allocator_api2's `Global`, the unit allocator that forwards to
/// the global heap; it is built here because its value is opaque to proofs.
#[verifier::external_body]
fn global_allocator() -> Global {
    Global
}

/// An append-only singly linked list of `T`.
///
/// Values are appended at the back through write-once slots and may be taken
/// out again, from anywhere in the chain, under exclusive access.
/// `A` is the allocator value the list was built with; the list keeps it and
/// hands it back from `allocator`, while its nodes live in a vector on the
/// global heap. `C` is the cache mode (see [`CacheMode`]).
/// Every method says what it does to the sequence of values, the view `list@`;
/// no contract depends on `C`, which changes only how long `len` and the
/// appends take.
pub struct OnceListCore<T, A = Global, C: CacheMode = NoCache> {
    arena: Arena<T, C>,
    alloc: A,
}

/// A list that caches nothing.
pub type OnceList<T, A = Global> = OnceListCore<T, A, NoCache>;

/// A list that remembers where the next append lands.
pub type OnceListWithTail<T, A = Global> = OnceListCore<T, A, WithTail>;

/// A list that keeps its length, so that `len` answers at once.
pub type OnceListWithLen<T, A = Global> = OnceListCore<T, A, WithLen>;

/// A list that keeps both its length and where the next append lands.
pub type OnceListWithTailLen<T, A = Global> = OnceListCore<T, A, WithTailLen>;

impl<T, A, C: CacheMode> View for OnceListCore<T, A, C> {
    type V = Seq<T>;

    closed spec fn view(&self) -> Seq<T> {
        self.arena@
    }
}

impl<T, C: CacheMode> OnceListCore<T, Global, C> {
    /// Creates an empty list. This does not allocate.
    pub fn new() -> (r: Self)
        ensures
            r@ == Seq::<T>::empty(),
    {
        OnceListCore { arena: Arena::new(), alloc: global_allocator() }
    }

    /// Creates a list holding `values` in order.
    pub fn from_vec(values: Vec<T>) -> (r: Self)
        ensures
            r@ == values@,
    {
        let mut list = Self::new();
        list.extend(values);
        assert(list@ =~= values@);
        list
    }
}

impl<T, A, C: CacheMode> OnceListCore<T, A, C> {
    #[verifier::type_invariant]
    spec fn inv(&self) -> bool {
        self.arena.well_formed()
    }

    /// The arena indices of the nodes in chain order. They say which slot a
    /// cursor stands at, and appending only adds to their end.
    pub closed spec fn node_ids(&self) -> Seq<usize> {
        self.arena.ids()
    }

    /// The allocator value the list keeps.
    pub closed spec fn kept_allocator(&self) -> A {
        self.alloc
    }

    /// The slot after the first `k` nodes: the head slot for `k == 0`, else
    /// the `next` slot of node `k-1`, named by its index.
    pub open spec fn slot_at(&self, k: int) -> Option<usize> {
        if k == 0 {
            None
        } else {
            Some(self.node_ids()[k - 1])
        }
    }

    /// Creates an empty list that keeps `alloc`. This does not allocate.
    pub fn new_in(alloc: A) -> (r: Self)
        ensures
            r@ == Seq::<T>::empty(),
            r.kept_allocator() == alloc,
    {
        OnceListCore { arena: Arena::new(), alloc }
    }

    /// One node index per value.
    pub proof fn lemma_view_len(&self)
        ensures
            self@.len() == self.node_ids().len(),
    {
        self.arena.lemma_len();
    }

    /// What a cursor standing at `slot` reads next.
    pub(crate) fn step(&self, slot: Option<usize>) -> (r: Option<(usize, &T)>)
        ensures
            forall|k: int|
                0 <= k <= self.node_ids().len() && slot == self.slot_at(k) ==> if k
                    < self.node_ids().len() {
                    r matches Some((i, v)) && i == self.node_ids()[k] && *v == self@[k]
                } else {
                    r is None
                },
    {
        proof {
            use_type_invariant(self);
            self.arena.lemma_slot_def();
        }
        let r = self.arena.step(slot);
        proof {
            assert forall|k: int|
                0 <= k <= self.node_ids().len() && slot == self.slot_at(k) implies if k
                < self.node_ids().len() {
                r matches Some((i, v)) && i == self.node_ids()[k] && *v == self@[k]
            } else {
                r is None
            } by {
                assert(self.arena.slot_at(k) == self.slot_at(k));
            }
        }
        r
    }

    /// A cursor at the front of the list.
    pub fn iter(&self) -> (r: Iter)
        ensures
            r.valid_for(self),
            r.pos() == 0,
    {
        Iter::new(self)
    }

    /// Turns the list into a consuming iterator over its values.
    pub fn into_iter(self) -> (r: IntoIter<T, A, C>)
        ensures
            r@ == self@,
    {
        IntoIter::new(self)
    }

    /// The number of values: at once where the cache mode keeps it, by a walk
    /// of the chain otherwise.
    pub fn len(&self) -> (r: usize)
        ensures
            r == self@.len(),
    {
        proof {
            use_type_invariant(self);
        }
        self.arena.len()
    }

    /// Whether the list holds no value.
    pub fn is_empty(&self) -> (r: bool)
        ensures
            r == (self@.len() == 0),
    {
        proof {
            use_type_invariant(self);
        }
        self.arena.is_empty()
    }

    /// Whether some value equals `val`.
    pub fn contains(&self, val: &T) -> (r: bool) where T: PartialEq
        ensures
            T::obeys_eq_spec() ==> (r == exists|k: int|
                0 <= k < self@.len() && #[trigger] self@[k].eq_spec(val)),
    {
        proof {
            use_type_invariant(self);
        }
        let r = self.arena.contains(val);
        assert(self@ == self.arena@);
        r
    }

    /// The first value, if any.
    pub fn front(&self) -> (r: Option<&T>)
        ensures
            r == (if self@.len() == 0 {
                None::<&T>
            } else {
                Some(&self@[0])
            }),
    {
        proof {
            use_type_invariant(self);
        }
        self.arena.front()
    }

    /// The last value, if any. This walks the chain.
    pub fn back(&self) -> (r: Option<&T>)
        ensures
            r == (if self@.len() == 0 {
                None::<&T>
            } else {
                Some(&self@[self@.len() - 1])
            }),
    {
        proof {
            use_type_invariant(self);
        }
        self.arena.back()
    }

    /// The first value, if any; the same as `front`.
    pub fn first(&self) -> (r: Option<&T>)
        ensures
            r == (if self@.len() == 0 {
                None::<&T>
            } else {
                Some(&self@[0])
            }),
    {
        self.front()
    }

    /// The last value, if any; the same as `back`.
    pub fn last(&self) -> (r: Option<&T>)
        ensures
            r == (if self@.len() == 0 {
                None::<&T>
            } else {
                Some(&self@[self@.len() - 1])
            }),
    {
        self.back()
    }

    /// The first value, if any, to be changed in place.
    pub fn front_mut(&mut self) -> (r: Option<&mut T>)
        ensures
            old(self)@.len() == 0 ==> r is None && final(self)@ == old(self)@,
            old(self)@.len() > 0 ==> (r matches Some(v) && *v == old(self)@[0] && final(self)@
                == old(self)@.update(0, *final(v))),
    {
        proof {
            use_type_invariant(&*self);
            self.arena.lemma_len();
        }
        match self.arena.front_index() {
            Some(i) => Some(self.arena.value_mut(Ghost(0), i)),
            None => None,
        }
    }

    /// The last value, if any, to be changed in place. This walks the chain.
    pub fn back_mut(&mut self) -> (r: Option<&mut T>)
        ensures
            old(self)@.len() == 0 ==> r is None && final(self)@ == old(self)@,
            old(self)@.len() > 0 ==> (r matches Some(v) && *v == old(self)@[old(self)@.len() - 1]
                && final(self)@ == old(self)@.update(old(self)@.len() - 1, *final(v))),
    {
        proof {
            use_type_invariant(&*self);
            self.arena.lemma_len();
        }
        let ghost k = self.arena.ids().len() - 1;
        match self.arena.back_index() {
            Some(i) => Some(self.arena.value_mut(Ghost(k), i)),
            None => None,
        }
    }

    /// The first value, if any, to be changed in place; the same as `front_mut`.
    pub fn first_mut(&mut self) -> (r: Option<&mut T>)
        ensures
            old(self)@.len() == 0 ==> r is None && final(self)@ == old(self)@,
            old(self)@.len() > 0 ==> (r matches Some(v) && *v == old(self)@[0] && final(self)@
                == old(self)@.update(0, *final(v))),
    {
        self.front_mut()
    }

    /// The last value, if any, to be changed in place; the same as `back_mut`.
    pub fn last_mut(&mut self) -> (r: Option<&mut T>)
        ensures
            old(self)@.len() == 0 ==> r is None && final(self)@ == old(self)@,
            old(self)@.len() > 0 ==> (r matches Some(v) && *v == old(self)@[old(self)@.len() - 1]
                && final(self)@ == old(self)@.update(old(self)@.len() - 1, *final(v))),
    {
        self.back_mut()
    }

    /// The value of the node at arena index `idx`, to be changed in place, if
    /// that node is in the chain.
    pub(crate) fn value_mut_checked(&mut self, idx: usize) -> (r: Option<&mut T>)
        ensures
            final(self).node_ids() == old(self).node_ids(),
            r is None ==> final(self)@ == old(self)@,
            forall|k: int|
                0 <= k < old(self).node_ids().len() && old(self).node_ids()[k] == idx ==> (r matches Some(v)
                    && *v == old(self)@[k] && final(self)@ == old(self)@.update(k, *final(v))),
        no_unwind
    {
        proof {
            use_type_invariant(&*self);
        }
        self.arena.value_mut_checked(idx)
    }

    /// A cursor at the front of the list that hands out values to be changed in place.
    pub fn iter_mut(&mut self) -> (r: IterMut)
        ensures
            r.valid_for(final(self)),
            r.pos() == 0,
            final(self)@ == old(self)@,
            final(self).node_ids() == old(self).node_ids(),
    {
        IterMut::new(self)
    }

    /// The allocator the list was built with.
    pub fn allocator(&self) -> (r: &A)
        ensures
            *r == self.kept_allocator(),
    {
        &self.alloc
    }

    /// Appends `val` at the back and returns a reference to it.
    ///
    /// The probe for the end starts at the slot the cache remembers, if it is
    /// still empty, and at the head slot otherwise.
    pub fn push_back(&mut self, val: T) -> (r: &T)
        ensures
            final(self)@ == old(self)@.push(val),
            *r == val,
            final(self).node_ids().drop_last() == old(self).node_ids(),
            final(self).node_ids().len() == old(self).node_ids().len() + 1,
    {
        proof {
            use_type_invariant(&*self);
        }
        let ghost k = self.arena.ids().len();
        let mut arena = Arena::new();
        std::mem::swap(&mut arena, &mut self.arena);
        let idx = arena.push_back(val);
        self.arena = arena;
        assert(self.arena.ids().drop_last() =~= old(self).node_ids());
        proof {
            self.arena.lemma_len();
        }
        assert(self.arena@[k as int] == val);
        self.arena.value_at(Ghost(k as int), idx)
    }

    /// Appends `val` at the back; the same as `push_back`.
    pub fn push(&mut self, val: T) -> (r: &T)
        ensures
            final(self)@ == old(self)@.push(val),
            *r == val,
            final(self).node_ids().drop_last() == old(self).node_ids(),
            final(self).node_ids().len() == old(self).node_ids().len() + 1,
    {
        self.push_back(val)
    }

    /// Appends the values in order.
    pub fn extend(&mut self, values: Vec<T>)
        ensures
            final(self)@ == old(self)@ + values@,
            final(self).node_ids().subrange(0, old(self).node_ids().len() as int)
                == old(self).node_ids(),
            final(self).node_ids().len() == old(self).node_ids().len() + values@.len(),
    {
        proof {
            use_type_invariant(&*self);
        }
        let mut arena = Arena::new();
        std::mem::swap(&mut arena, &mut self.arena);
        arena.extend(values);
        self.arena = arena;
    }

    /// Removes the first value on which `pred` holds and returns it; the
    /// nodes before and after it are spliced together.
    pub fn remove<P: Fn(&T) -> bool>(&mut self, pred: P) -> (r: Option<T>)
        requires
            forall|x: &T| #[trigger] pred.requires((x,)),
        ensures
            match r {
                Some(v) => exists|i: int|
                    {
                        &&& 0 <= i < old(self)@.len()
                        &&& v == old(self)@[i]
                        &&& final(self)@ == old(self)@.remove(i)
                        &&& pred.ensures((&old(self)@[i],), true)
                        &&& forall|j: int|
                            0 <= j < i ==> #[trigger] pred.ensures((&old(self)@[j],), false)
                    },
                None => {
                    &&& final(self)@ == old(self)@
                    &&& forall|j: int|
                        0 <= j < old(self)@.len() ==> #[trigger] pred.ensures(
                            (&old(self)@[j],),
                            false,
                        )
                },
            },
    {
        proof {
            use_type_invariant(&*self);
        }
        let mut arena = Arena::new();
        std::mem::swap(&mut arena, &mut self.arena);
        let r = arena.remove(pred);
        self.arena = arena;
        proof {
            if r is Some {
                let v = r->Some_0;
                let i = choose|i: int|
                    {
                        &&& 0 <= i < old(self)@.len()
                        &&& v == old(self)@[i]
                        &&& self@ == old(self)@.remove(i)
                        &&& self.node_ids() == old(self).node_ids().remove(i)
                        &&& pred.ensures((&old(self)@[i],), true)
                        &&& forall|j: int|
                            0 <= j < i ==> #[trigger] pred.ensures((&old(self)@[j],), false)
                    };
                assert(0 <= i < old(self)@.len() && v == old(self)@[i]);
            }
        }
        r
    }

    /// Removes the first value and returns it.
    pub fn pop_front(&mut self) -> (r: Option<T>)
        ensures
            old(self)@.len() == 0 ==> r is None && final(self)@ == old(self)@,
            old(self)@.len() > 0 ==> r == Some(old(self)@[0]) && final(self)@ == old(self)@.drop_first(),
    {
        let any = |_v: &T| -> (b: bool)
            ensures
                b,
            { true };
        let r = self.remove(any);
        proof {
            if r is Some {
                let v = r->Some_0;
                let i = choose|i: int|
                    {
                        &&& 0 <= i < old(self)@.len()
                        &&& v == old(self)@[i]
                        &&& final(self)@ == old(self)@.remove(i)
                        &&& any.ensures((&old(self)@[i],), true)
                        &&& forall|j: int|
                            0 <= j < i ==> #[trigger] any.ensures((&old(self)@[j],), false)
                    };
                if i > 0 {
                    assert(any.ensures((&old(self)@[0],), false));
                }
                assert(old(self)@.remove(0) =~= old(self)@.drop_first());
            } else if old(self)@.len() > 0 {
                assert(any.ensures((&old(self)@[0],), false));
            }
        }
        r
    }

    /// Drops every value.
    pub fn clear(&mut self)
        ensures
            final(self)@ == Seq::<T>::empty(),
    {
        proof {
            use_type_invariant(&*self);
        }
        let mut arena = Arena::new();
        std::mem::swap(&mut arena, &mut self.arena);
        arena.clear();
        self.arena = arena;
    }
}

impl<T, C: CacheMode> Default for OnceListCore<T, Global, C> {
    fn default() -> (r: Self)
        ensures
            r@ == Seq::<T>::empty(),
    {
        Self::new()
    }
}

impl<T: Clone, A: Clone, C: CacheMode> Clone for OnceListCore<T, A, C> {
    /// A list of clones of the values, in the same order, with a clone of the
    /// allocator.
    fn clone(&self) -> (r: Self)
        ensures
            r@.len() == self@.len(),
            forall|i: int| 0 <= i < self@.len() ==> call_ensures(T::clone, (&self@[i],), #[trigger] r@[i]),
    {
        let mut list = OnceListCore::new_in(self.alloc.clone());
        let n = self.len();
        let mut it = self.iter();
        let mut i: usize = 0;
        while i < n
            invariant
                it.valid_for(self),
                it.pos() == i,
                n == self@.len(),
                i <= n,
                list@.len() == i,
                forall|j: int| 0 <= j < i ==> call_ensures(T::clone, (&self@[j],), #[trigger] list@[j]),
            decreases n - i,
        {
            if let Some(v) = it.next(self) {
                list.push_back(v.clone());
            }
            i = i + 1;
        }
        list
    }
}

impl<T: PartialEq, A, C: CacheMode> PartialEq for OnceListCore<T, A, C> {
    /// Two lists are equal when their values are, one by one.
    fn eq(&self, other: &Self) -> (r: bool) {
        let n = self.len();
        if n != other.len() {
            return false;
        }
        let mut a = self.iter();
        let mut b = other.iter();
        let mut i: usize = 0;
        while i < n
            invariant
                a.valid_for(self),
                b.valid_for(other),
                a.pos() == i,
                b.pos() == i,
                n == self@.len(),
                n == other@.len(),
                i <= n,
                T::obeys_eq_spec() ==> forall|j: int|
                    0 <= j < i ==> #[trigger] self@[j].eq_spec(&other@[j]),
            decreases n - i,
        {
            let x = a.next(self);
            let y = b.next(other);
            match (x, y) {
                (Some(x), Some(y)) => {
                    if !x.eq(y) {
                        return false;
                    }
                },
                _ => {
                    return false;
                },
            }
            i = i + 1;
        }
        true
    }
}

impl<T: PartialEq, A, C: CacheMode> vstd::std_specs::cmp::PartialEqSpecImpl for OnceListCore<T, A, C> {
    open spec fn obeys_eq_spec() -> bool {
        T::obeys_eq_spec()
    }

    open spec fn eq_spec(&self, other: &Self) -> bool {
        &&& self@.len() == other@.len()
        &&& forall|i: int| 0 <= i < self@.len() ==> #[trigger] self@[i].eq_spec(&other@[i])
    }
}

impl<T: Eq, A, C: CacheMode> Eq for OnceListCore<T, A, C> {

}

impl<T: core::hash::Hash, A, C: CacheMode> core::hash::Hash for OnceListCore<T, A, C> {
    /// Feeds the length, then each value in order, so that no list hashes as
    /// a prefix of another.
    fn hash<H: core::hash::Hasher>(&self, state: &mut H) {
        let n = self.len();
        write_len(state, n);
        let mut it = self.iter();
        let mut i: usize = 0;
        while i < n
            invariant
                it.valid_for(self),
                it.pos() == i,
                n == self@.len(),
                i <= n,
            decreases n - i,
        {
            if let Some(v) = it.next(self) {
                hash_value(v, state);
            }
            i = i + 1;
        }
    }
}

} // verus!
