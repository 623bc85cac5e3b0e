use vstd::prelude::*;

use crate::cache_mode::CacheMode;
use crate::once_list::OnceListCore;

verus! {

/// A cursor over the values of a list.
///
/// The cursor names the slot it stands at, not a borrow of the list, so the
/// list may grow between two steps: a cursor that has read the last value
/// reads the values appended after that, in order.
pub struct Iter {
    next_slot: Option<usize>,
    pos: Ghost<nat>,
}

impl Iter {
    /// How many values the cursor has read.
    pub closed spec fn pos(&self) -> nat {
        self.pos@
    }

    /// The cursor stands in `list`, after its first `pos` values.
    pub closed spec fn valid_for<T, A, C: CacheMode>(&self, list: &OnceListCore<T, A, C>) -> bool {
        &&& self.pos@ <= list.node_ids().len()
        &&& self.next_slot == list.slot_at(self.pos@ as int)
    }

    /// A cursor before the first value of `list`.
    pub(crate) fn new<T, A, C: CacheMode>(list: &OnceListCore<T, A, C>) -> (r: Self)
        ensures
            r.pos() == 0,
            r.valid_for(list),
    {
        Iter { next_slot: None, pos: Ghost(0) }
    }

    /// Reads the value after the cursor and moves past it; at the end of the
    /// list, reads nothing and stays.
    pub fn next<'a, T, A, C: CacheMode>(&mut self, list: &'a OnceListCore<T, A, C>) -> (r: Option<&'a T>)
        ensures
            old(self).valid_for(list) ==> final(self).valid_for(list),
            old(self).valid_for(list) && old(self).pos() < list@.len() ==> r == Some(
                &list@[old(self).pos() as int],
            ) && final(self).pos() == old(self).pos() + 1,
            old(self).valid_for(list) && old(self).pos() >= list@.len() ==> r is None
                && final(self).pos() == old(self).pos(),
    {
        proof {
            list.lemma_view_len();
        }
        match list.step(self.next_slot) {
            Some((n, v)) => {
                self.next_slot = Some(n);
                self.pos = Ghost(self.pos@ + 1);
                Some(v)
            },
            None => None,
        }
    }
}

/// A cursor over the values of a list that hands them out to be changed in place.
///
/// Like [`Iter`], it names the slot it stands at; each step borrows the list
/// mutably for as long as the value it hands out is in use.
pub struct IterMut {
    next_slot: Option<usize>,
    pos: Ghost<nat>,
}

impl IterMut {
    /// How many values the cursor has handed out.
    pub closed spec fn pos(&self) -> nat {
        self.pos@
    }

    /// The cursor stands in `list`, after its first `pos` values.
    pub closed spec fn valid_for<T, A, C: CacheMode>(&self, list: &OnceListCore<T, A, C>) -> bool {
        &&& self.pos@ <= list.node_ids().len()
        &&& self.next_slot == list.slot_at(self.pos@ as int)
    }

    /// A cursor before the first value of `list`.
    pub(crate) fn new<T, A, C: CacheMode>(list: &OnceListCore<T, A, C>) -> (r: Self)
        ensures
            r.pos() == 0,
            r.valid_for(list),
    {
        IterMut { next_slot: None, pos: Ghost(0) }
    }

    /// Hands out the value after the cursor and moves past it; at the end of
    /// the list, hands out nothing and stays.
    pub fn next<'a, T, A, C: CacheMode>(&mut self, list: &'a mut OnceListCore<T, A, C>) -> (r: Option<&'a mut T>)
        ensures
            final(list).node_ids() == old(list).node_ids(),
            old(self).valid_for(old(list)) ==> final(self).valid_for(final(list)),
            old(self).valid_for(old(list)) && old(self).pos() < old(list)@.len() ==> (r matches Some(v)
                && *v == old(list)@[old(self).pos() as int] && final(list)@ == old(list)@.update(
                old(self).pos() as int,
                *final(v),
            ) && final(self).pos() == old(self).pos() + 1),
            old(self).valid_for(old(list)) && old(self).pos() >= old(list)@.len() ==> r is None
                && final(self).pos() == old(self).pos() && final(list)@ == old(list)@,
    {
        proof {
            list.lemma_view_len();
        }
        match list.step(self.next_slot) {
            Some((n, _)) => {
                self.next_slot = Some(n);
                self.pos = Ghost(self.pos@ + 1);
                list.value_mut_checked(n)
            },
            None => None,
        }
    }
}

/// A cursor stays in place when values are appended: it is valid for the
/// longer list at the same position, so its next steps read the appended values.
pub proof fn lemma_cursor_survives_append<T, A, C: CacheMode>(
    it: Iter,
    before: OnceListCore<T, A, C>,
    after: OnceListCore<T, A, C>,
)
    requires
        it.valid_for(&before),
        before.node_ids().len() <= after.node_ids().len(),
        after.node_ids().subrange(0, before.node_ids().len() as int) == before.node_ids(),
    ensures
        it.valid_for(&after),
{
    if it.pos() > 0 {
        assert(after.node_ids().subrange(0, before.node_ids().len() as int)[it.pos() - 1]
            == after.node_ids()[it.pos() - 1]);
    }
}

/// A consuming iterator: it owns the list and hands out its values front first.
pub struct IntoIter<T, A, C: CacheMode> {
    list: OnceListCore<T, A, C>,
}

impl<T, A, C: CacheMode> View for IntoIter<T, A, C> {
    type V = Seq<T>;

    /// The values not yet handed out.
    closed spec fn view(&self) -> Seq<T> {
        self.list@
    }
}

impl<T, A, C: CacheMode> IntoIter<T, A, C> {
    pub(crate) fn new(list: OnceListCore<T, A, C>) -> (r: Self)
        ensures
            r@ == list@,
    {
        IntoIter { list }
    }

    /// Hands out the next value, or nothing at the end.
    pub fn next(&mut self) -> (r: Option<T>)
        ensures
            old(self)@.len() == 0 ==> r is None && final(self)@ == old(self)@,
            old(self)@.len() > 0 ==> r == Some(old(self)@[0]) && final(self)@ == old(self)@.drop_first(),
    {
        self.list.pop_front()
    }
}

} // verus!
