use vstd::prelude::*;

use crate::slot::NextSlot;

verus! {

/// One node of a chain: a value and the slot that names the node after it.
pub(crate) struct Cons<T> {
    pub(crate) next: NextSlot,
    pub(crate) val: T,
}

impl<T> Cons<T> {
    /// A node holding `val` with nothing after it yet.
    pub(crate) fn new(val: T) -> (r: Self)
        ensures
            r.val == val,
            r.next@ is None,
    {
        Cons { next: NextSlot::new(), val }
    }
}

} // verus!
