//! A lock for a single core with interrupts off: it never waits, and only
//! makes the exclusive borrow of the data explicit. Also a handle on data at
//! a fixed address.
use vstd::prelude::*;

verus! {

/// Data behind a lock that never waits.
pub struct NullLock<T> {
    data: T,
}

/// The exclusive access that locking gives.
pub struct NullLockGuard<'a, T> {
    pub lock: &'a mut T,
}

impl<T> NullLock<T> {
    /// The data.
    pub closed spec fn value(&self) -> T {
        self.data
    }

    /// A lock around `data`.
    pub fn new(data: T) -> (l: NullLock<T>)
        ensures
            l.value() == data,
    {
        NullLock { data }
    }

    /// Takes the lock: the guard gives the data, and what is written through
    /// it is the data after the guard is gone.
    pub fn lock(&mut self) -> (g: NullLockGuard<'_, T>)
        ensures
            *g.lock == old(self).value(),
            final(self).value() == *final(g.lock),
    {
        NullLockGuard { lock: &mut self.data }
    }
}

impl<'a, T> NullLockGuard<'a, T> {
    /// The data the guard leads to.
    pub open spec fn data(&self) -> T {
        *self.lock
    }

    /// The data.
    pub fn get(&self) -> (r: &T)
        ensures
            *r == self.data(),
    {
        &*self.lock
    }

    /// Replaces the data; the guard still leads to the same locked data.
    pub fn set(&mut self, value: T)
        ensures
            *final(self).lock == value,
            *final(final(self).lock) == *final(old(self).lock),
    {
        *self.lock = value;
    }
}

} // verus!
