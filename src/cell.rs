//! A cell that allows overlapping mutable guards, of which only the most
//! recently issued one that is still outstanding may be used.
//!
//! A guard is a ticket: it records the counter value it saw when it was
//! issued, and every access through it goes through the cell, which checks
//! the ticket against its live counter before handing out a reference.
use vstd::prelude::*;
use crate::protocol::{is_authoritative, is_current, epoch_after_borrow, epoch_after_release};

verus! {

/// Returned when a guard is used after a later mutable guard has superseded it.
#[derive(Debug, PartialEq, Eq, Structural)]
pub struct StaleBorrowError;

/// Owns a value and the counter that decides which guard may reach it.
pub struct EpochCell<T> {
    epoch: u32,
    val: T,
}

/// A mutable-access ticket, stamped with the counter value before its request.
pub struct RefMut<T> {
    mark: u32,
    _payload: std::marker::PhantomData<T>,
}

/// A read-access ticket, stamped with the counter value at its request.
pub struct Ref<T>(RefMut<T>);

impl<T> EpochCell<T> {
    pub closed spec fn spec_epoch(&self) -> u32 {
        self.epoch
    }

    /// The wrapped value.
    pub closed spec fn value(&self) -> T {
        self.val
    }

    /// Wraps `val`; the counter starts at zero.
    pub fn new(val: T) -> (r: Self)
        ensures
            r.epoch() == 0,
            r.value() == val,
    {
        EpochCell { epoch: 0u32, val }
    }

    /// The current value of the counter.
    #[verifier::when_used_as_spec(spec_epoch)]
    pub fn epoch(&self) -> (r: u32)
        ensures
            r == self.epoch(),
    {
        self.epoch
    }

    /// Issues a read guard stamped with the current counter; the counter is
    /// left as it is.
    pub fn borrow(&self) -> (r: Ref<T>)
        ensures
            r.mark() == self.epoch(),
    {
        let cur = self.epoch;
        Ref(RefMut { mark: cur, _payload: std::marker::PhantomData })
    }

    /// Issues a mutable guard stamped with the current counter, and advances
    /// the counter by one, which makes the new guard the authoritative one.
    pub fn borrow_mut(&mut self) -> (r: RefMut<T>)
        requires
            old(self).epoch() < u32::MAX,
        ensures
            r.mark() == old(self).epoch(),
            final(self).epoch() as nat == epoch_after_borrow(old(self).epoch() as nat),
            final(self).value() == old(self).value(),
            is_authoritative(final(self).epoch() as nat, r.mark() as nat),
    {
        let cur = self.epoch;
        self.epoch = cur + 1;
        RefMut { mark: cur, _payload: std::marker::PhantomData }
    }

    /// Direct access to the value for a caller that holds the cell
    /// exclusively; no guard is checked and the counter is left as it is.
    pub fn get_mut(&mut self) -> (r: &mut T)
        ensures
            *r == old(self).value(),
            final(self).value() == *final(r),
            final(self).epoch() == old(self).epoch(),
    {
        &mut self.val
    }

    /// Consumes the cell and returns the value.
    pub fn into_inner(self) -> (r: T)
        ensures
            r == self.value(),
    {
        self.val
    }
}

impl<T> RefMut<T> {
    pub closed spec fn spec_mark(&self) -> u32 {
        self.mark
    }

    /// The counter value this guard saw when it was issued.
    #[verifier::when_used_as_spec(spec_mark)]
    pub fn mark(&self) -> (r: u32)
        ensures
            r == self.mark(),
    {
        self.mark
    }

    /// Whether this guard is the authoritative view of `cell`.
    pub fn is_valid(&self, cell: &EpochCell<T>) -> (r: bool)
        ensures
            r == is_authoritative(cell.epoch() as nat, self.mark() as nat),
    {
        cell.epoch > 0 && cell.epoch - 1 == self.mark
    }

    /// Shared access to the value of `cell`, granted only while this guard
    /// is authoritative.
    pub fn deref<'a>(&self, cell: &'a EpochCell<T>) -> (r: Result<&'a T, StaleBorrowError>)
        ensures
            r is Ok <==> is_authoritative(cell.epoch() as nat, self.mark() as nat),
            r matches Ok(v) ==> *v == cell.value(),
    {
        if self.is_valid(cell) {
            Ok(&cell.val)
        } else {
            Err(StaleBorrowError)
        }
    }

    /// Mutable access to the value of `cell`, granted only while this guard
    /// is authoritative; the counter is left as it is.
    pub fn deref_mut<'a>(&self, cell: &'a mut EpochCell<T>) -> (r: Result<&'a mut T, StaleBorrowError>)
        ensures
            r is Ok <==> is_authoritative(old(cell).epoch() as nat, self.mark() as nat),
            final(cell).epoch() == old(cell).epoch(),
            match r {
                Ok(v) => *v == old(cell).value() && final(cell).value() == *final(v),
                Err(_) => final(cell).value() == old(cell).value(),
            },
    {
        if self.is_valid(cell) {
            Ok(&mut cell.val)
        } else {
            Err(StaleBorrowError)
        }
    }

    /// Gives the guard up. The counter is rolled back to the mark when this
    /// guard is authoritative, which hands authority back to the guard issued
    /// just before it; otherwise nothing changes.
    pub fn release(self, cell: &mut EpochCell<T>)
        ensures
            final(cell).epoch() as nat == epoch_after_release(old(cell).epoch() as nat, self.mark() as nat),
            final(cell).value() == old(cell).value(),
    {
        if self.is_valid(cell) {
            cell.epoch = self.mark;
        }
    }
}

impl<T> Ref<T> {
    pub closed spec fn spec_mark(&self) -> u32 {
        self.0.mark
    }

    /// The counter value this guard saw when it was issued.
    #[verifier::when_used_as_spec(spec_mark)]
    pub fn mark(&self) -> (r: u32)
        ensures
            r == self.mark(),
    {
        self.0.mark
    }

    /// Shared access to the value of `cell`, granted while no mutable guard
    /// issued after this one is outstanding.
    pub fn deref<'a>(&self, cell: &'a EpochCell<T>) -> (r: Result<&'a T, StaleBorrowError>)
        ensures
            r is Ok <==> is_current(cell.epoch() as nat, self.mark() as nat),
            r matches Ok(v) ==> *v == cell.value(),
    {
        if cell.epoch == self.0.mark {
            Ok(&cell.val)
        } else {
            Err(StaleBorrowError)
        }
    }
}

} // verus!
