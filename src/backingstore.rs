use vstd::prelude::*;

verus! {

/// Raised when the storage for a queue cannot be obtained.
#[derive(Debug, PartialEq, Eq, Structural)]
pub struct AllocationFailed {}

/// A fixed number of slots, each either empty or holding one value.
///
/// The store never runs a value's destructor behind its owner's back: a value
/// goes into an empty slot only, and leaves it only when `get` hands it out.
#[derive(Debug)]
pub struct BackingStore<T> {
    slots: Vec<Option<T>>,
}

impl<T> View for BackingStore<T> {
    type V = Seq<Option<T>>;

    closed spec fn view(&self) -> Seq<Option<T>> {
        self.slots@
    }
}

impl<T> BackingStore<T> {
    /// Reserves room for `len` slots, all empty, or reports that the memory
    /// could not be had.
    pub fn new(len: usize) -> (r: Result<BackingStore<T>, AllocationFailed>)
        ensures
            r matches Ok(s) ==> s@ == Seq::new(len as nat, |i: int| None::<T>),
    {
        let mut slots: Vec<Option<T>> = Vec::new();
        match slots.try_reserve(len) {
            Ok(()) => {},
            Err(_) => {
                return Err(AllocationFailed {});
            },
        }
        while slots.len() < len
            invariant
                slots@.len() <= len,
                forall|i: int| 0 <= i < slots@.len() ==> slots@[i] is None,
            decreases len - slots@.len(),
        {
            slots.push(None);
        }
        let r = BackingStore { slots };
        assert(r@ =~= Seq::new(len as nat, |i: int| None::<T>));
        Ok(r)
    }

    /// Number of slots.
    pub fn len(&self) -> (r: usize)
        ensures
            r == self@.len(),
    {
        self.slots.len()
    }

    /// Moves the value out of slot `pos`, leaving the slot empty.
    pub fn get(&mut self, pos: usize) -> (r: Option<T>)
        requires
            pos < old(self)@.len(),
        ensures
            r == old(self)@[pos as int],
            final(self)@ == old(self)@.update(pos as int, None),
    {
        let mut out: Option<T> = None;
        std::mem::swap(&mut out, &mut self.slots[pos]);
        out
    }

    /// Stores `val` in the empty slot `pos`.
    pub fn set(&mut self, pos: usize, val: T)
        requires
            pos < old(self)@.len(),
            old(self)@[pos as int] is None,
        ensures
            final(self)@ == old(self)@.update(pos as int, Some(val)),
    {
        self.slots.set(pos, Some(val));
    }
}

} // verus!
