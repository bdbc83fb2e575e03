//! A handle on statically allocated data at a fixed address, such as memory
//! mapped registers.
use vstd::prelude::*;
use core::marker::PhantomData;

verus! {

/// The address of a `T` in static memory.
#[derive(Debug)]
pub struct StaticRef<T> {
    addr: usize,
    phantom: PhantomData<T>,
}

impl<T> StaticRef<T> {
    /// The address.
    pub closed spec fn spec_addr(&self) -> usize {
        self.addr
    }

    /// A handle on the `T` at `addr`.
    pub fn new(addr: usize) -> (r: StaticRef<T>)
        ensures
            r.spec_addr() == addr,
    {
        StaticRef { addr, phantom: PhantomData }
    }

    /// The address.
    pub fn addr(&self) -> (r: usize)
        ensures
            r == self.spec_addr(),
    {
        self.addr
    }
}

impl<T> Clone for StaticRef<T> {
    /// A handle on the same address.
    fn clone(&self) -> (r: Self)
        ensures
            r.spec_addr() == self.spec_addr(),
    {
        StaticRef { addr: self.addr, phantom: PhantomData }
    }
}

impl<T> Copy for StaticRef<T> {}

} // verus!
