use vstd::prelude::*;

verus! {

/// A write-once slot that names the next node of a chain by its arena index.
///
/// The list's head and the `next` field of every node are such slots. A slot
/// goes from empty to full once; only the owner of the whole chain may empty it
/// again (`take`), when it splices a node out or drops the chain.
pub struct NextSlot {
    cell: Option<usize>,
}

impl View for NextSlot {
    type V = Option<usize>;

    closed spec fn view(&self) -> Option<usize> {
        self.cell
    }
}

impl NextSlot {
    /// An empty slot.
    pub fn new() -> (r: Self)
        ensures
            r@ is None,
    {
        NextSlot { cell: None }
    }

    /// The index held by the slot, if it is full.
    pub fn get(&self) -> (r: Option<usize>)
        ensures
            r == self@,
    {
        self.cell
    }

    /// Fills an empty slot with `value`; a full slot is left as it is and
    /// `value` comes back.
    pub fn set(&mut self, value: usize) -> (r: Result<(), usize>)
        ensures
            old(self)@ is None ==> r is Ok && final(self)@ == Some(value),
            old(self)@ is Some ==> r == Err::<(), usize>(value) && final(self)@ == old(self)@,
    {
        match self.cell {
            Some(_) => Err(value),
            None => {
                self.cell = Some(value);
                Ok(())
            },
        }
    }

    /// Fills an empty slot and hands back what it now holds; on a full slot,
    /// hands back the occupant together with the rejected `value`, so that the
    /// caller can go on probing from the occupant.
    pub fn try_insert2(&mut self, value: usize) -> (r: Result<usize, (usize, usize)>)
        ensures
            match old(self)@ {
                None => r == Ok::<usize, (usize, usize)>(value) && final(self)@ == Some(value),
                Some(cur) => r == Err::<usize, (usize, usize)>((cur, value)) && *final(self)
                    == *old(self),
            },
    {
        match self.cell {
            Some(cur) => Err((cur, value)),
            None => {
                self.cell = Some(value);
                Ok(value)
            },
        }
    }

    /// Empties the slot and hands back what it held.
    pub fn take(&mut self) -> (r: Option<usize>)
        ensures
            r == old(self)@,
            final(self)@ is None,
    {
        self.cell.take()
    }
}

} // verus!
