use vstd::prelude::*;

use allocator_api2::alloc::Global;

use crate::once_list::OnceListCore;
use crate::sealed::Sealed;

verus! {

/// What a list remembers beside its chain: its length, the slot where the next
/// append lands, both, or nothing.
///
/// A cache changes how long `len` and `push_back` take, never what they return.
/// The remembered slot is a hint that the list checks before it trusts it; the
/// remembered length is exact at every step.
pub trait CacheMode: Sealed + Sized {
    /// Whether this mode keeps a count of the values.
    spec fn keeps_len() -> bool;

    /// Whether this mode remembers the node after which the next append lands.
    spec fn keeps_tail() -> bool;

    /// The kept count (meaningless where `keeps_len` is false).
    spec fn len_view(&self) -> nat;

    /// The remembered node, if any.
    spec fn tail_view(&self) -> Option<usize>;

    /// A mode for an empty list.
    fn new() -> (r: Self)
        ensures
            r.len_view() == 0,
            r.tail_view() is None,
    ;

    /// The kept count, where this mode keeps one.
    fn cached_len(&self) -> (r: Option<usize>)
        ensures
            Self::keeps_len() ==> r == Some(self.len_view() as usize),
            !Self::keeps_len() ==> r is None,
    ;

    /// The remembered node, a hint to be checked before use.
    fn tail_slot_opt(&self) -> (r: Option<usize>)
        ensures
            r == self.tail_view(),
    ;

    /// Records that a node, at arena index `node`, was linked at the end.
    fn on_push_success(&mut self, node: usize)
        requires
            Self::keeps_len() ==> old(self).len_view() < usize::MAX,
        ensures
            Self::keeps_len() ==> final(self).len_view() == old(self).len_view() + 1,
            Self::keeps_tail() ==> final(self).tail_view() == Some(node),
            !Self::keeps_tail() ==> final(self).tail_view() is None,
    ;

    /// Records that one node was spliced out.
    fn on_remove_success(&mut self)
        requires
            Self::keeps_len() ==> old(self).len_view() > 0,
        ensures
            Self::keeps_len() ==> final(self).len_view() == old(self).len_view() - 1,
            final(self).tail_view() == old(self).tail_view(),
    ;

    /// Records that the list was emptied.
    fn on_clear(&mut self)
        ensures
            final(self).len_view() == 0,
            final(self).tail_view() is None,
    ;

    /// Forgets the remembered node; the count stays.
    fn invalidate(&mut self)
        ensures
            final(self).len_view() == old(self).len_view(),
            final(self).tail_view() is None,
    ;
}

/// Remembers nothing: `len` walks the chain and `push_back` probes from the head.
#[derive(Clone, Copy)]
pub struct NoCache;

impl Sealed for NoCache {}

impl CacheMode for NoCache {
    open spec fn keeps_len() -> bool {
        false
    }

    open spec fn keeps_tail() -> bool {
        false
    }

    open spec fn len_view(&self) -> nat {
        0
    }

    open spec fn tail_view(&self) -> Option<usize> {
        None
    }

    fn new() -> (r: Self) {
        NoCache
    }

    fn cached_len(&self) -> (r: Option<usize>) {
        None
    }

    fn tail_slot_opt(&self) -> (r: Option<usize>) {
        None
    }

    fn on_push_success(&mut self, node: usize) {
    }

    fn on_remove_success(&mut self) {
    }

    fn on_clear(&mut self) {
    }

    fn invalidate(&mut self) {
    }
}

/// Remembers the node after which the next append lands.
#[derive(Clone, Copy)]
pub struct WithTail {
    next_slot: Option<usize>,
}

impl Sealed for WithTail {}

impl CacheMode for WithTail {
    open spec fn keeps_len() -> bool {
        false
    }

    open spec fn keeps_tail() -> bool {
        true
    }

    open spec fn len_view(&self) -> nat {
        0
    }

    closed spec fn tail_view(&self) -> Option<usize> {
        self.next_slot
    }

    fn new() -> (r: Self) {
        WithTail { next_slot: None }
    }

    fn cached_len(&self) -> (r: Option<usize>) {
        None
    }

    fn tail_slot_opt(&self) -> (r: Option<usize>) {
        self.next_slot
    }

    fn on_push_success(&mut self, node: usize) {
        self.next_slot = Some(node);
    }

    fn on_remove_success(&mut self) {
    }

    fn on_clear(&mut self) {
        self.next_slot = None;
    }

    fn invalidate(&mut self) {
        self.next_slot = None;
    }
}

impl WithTail {
    /// Creates an empty list that uses this cache mode.
    pub fn new_list<T>() -> (r: OnceListCore<T, Global, WithTail>)
        ensures
            r@ == Seq::<T>::empty(),
    {
        OnceListCore::new()
    }

    /// Creates an empty list that uses this cache mode and keeps `alloc`.
    pub fn new_list_in<T, A>(alloc: A) -> (r: OnceListCore<T, A, WithTail>)
        ensures
            r@ == Seq::<T>::empty(),
            r.kept_allocator() == alloc,
    {
        OnceListCore::new_in(alloc)
    }
}

/// Keeps the number of values, so that `len` answers at once.
#[derive(Clone, Copy)]
pub struct WithLen {
    len: usize,
}

impl Sealed for WithLen {}

impl CacheMode for WithLen {
    open spec fn keeps_len() -> bool {
        true
    }

    open spec fn keeps_tail() -> bool {
        false
    }

    closed spec fn len_view(&self) -> nat {
        self.len as nat
    }

    open spec fn tail_view(&self) -> Option<usize> {
        None
    }

    fn new() -> (r: Self) {
        WithLen { len: 0 }
    }

    fn cached_len(&self) -> (r: Option<usize>) {
        Some(self.len)
    }

    fn tail_slot_opt(&self) -> (r: Option<usize>) {
        None
    }

    fn on_push_success(&mut self, node: usize) {
        self.len = self.len + 1;
    }

    fn on_remove_success(&mut self) {
        self.len = self.len - 1;
    }

    fn on_clear(&mut self) {
        self.len = 0;
    }

    fn invalidate(&mut self) {
    }
}

impl WithLen {
    /// Creates an empty list that uses this cache mode.
    pub fn new_list<T>() -> (r: OnceListCore<T, Global, WithLen>)
        ensures
            r@ == Seq::<T>::empty(),
    {
        OnceListCore::new()
    }

    /// Creates an empty list that uses this cache mode and keeps `alloc`.
    pub fn new_list_in<T, A>(alloc: A) -> (r: OnceListCore<T, A, WithLen>)
        ensures
            r@ == Seq::<T>::empty(),
            r.kept_allocator() == alloc,
    {
        OnceListCore::new_in(alloc)
    }
}

/// Keeps both the number of values and the node after which the next append lands.
#[derive(Clone, Copy)]
pub struct WithTailLen {
    next_slot: Option<usize>,
    len: usize,
}

impl Sealed for WithTailLen {}

impl CacheMode for WithTailLen {
    open spec fn keeps_len() -> bool {
        true
    }

    open spec fn keeps_tail() -> bool {
        true
    }

    closed spec fn len_view(&self) -> nat {
        self.len as nat
    }

    closed spec fn tail_view(&self) -> Option<usize> {
        self.next_slot
    }

    fn new() -> (r: Self) {
        WithTailLen { next_slot: None, len: 0 }
    }

    fn cached_len(&self) -> (r: Option<usize>) {
        Some(self.len)
    }

    fn tail_slot_opt(&self) -> (r: Option<usize>) {
        self.next_slot
    }

    fn on_push_success(&mut self, node: usize) {
        self.len = self.len + 1;
        self.next_slot = Some(node);
    }

    fn on_remove_success(&mut self) {
        self.len = self.len - 1;
    }

    fn on_clear(&mut self) {
        self.len = 0;
        self.next_slot = None;
    }

    fn invalidate(&mut self) {
        self.next_slot = None;
    }
}

impl WithTailLen {
    /// Creates an empty list that uses this cache mode.
    pub fn new_list<T>() -> (r: OnceListCore<T, Global, WithTailLen>)
        ensures
            r@ == Seq::<T>::empty(),
    {
        OnceListCore::new()
    }

    /// Creates an empty list that uses this cache mode and keeps `alloc`.
    pub fn new_list_in<T, A>(alloc: A) -> (r: OnceListCore<T, A, WithTailLen>)
        ensures
            r@ == Seq::<T>::empty(),
            r.kept_allocator() == alloc,
    {
        OnceListCore::new_in(alloc)
    }
}

} // verus!
