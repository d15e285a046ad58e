//! Console output and the single-hart exclusive cell.

use vstd::prelude::*;

verus! {

/// Queues `bytes` for the console.
pub fn print(console: &mut Vec<u8>, bytes: &[u8])
    ensures
        final(console)@ == old(console)@ + bytes@,
{
    let mut i: usize = 0;
    while i < bytes.len()
        invariant
            i <= bytes@.len(),
            console@ == old(console)@ + bytes@.subrange(0, i as int),
        decreases bytes@.len() - i,
    {
        console.push(bytes[i]);
        assert(console@ =~= old(console)@ + bytes@.subrange(0, i + 1));
        i += 1;
    }
    assert(bytes@.subrange(0, bytes@.len() as int) =~= bytes@);
}

/// A value that one hart at a time may change: all access goes through
/// `exclusive_access`, which hands out the only mutable reference.
pub struct UPSafeCell<T> {
    inner: T,
}

impl<T> UPSafeCell<T> {
    /// The value held.
    pub closed spec fn value(&self) -> T {
        self.inner
    }

    /// A cell holding `value`.
    pub fn new(value: T) -> (r: Self)
        ensures
            r.value() == value,
    {
        UPSafeCell { inner: value }
    }

    /// Mutable access to the value.
    pub fn exclusive_access(&mut self) -> (r: &mut T)
        ensures
            *r == old(self).value(),
            final(self).value() == *final(r),
    {
        &mut self.inner
    }
}

/// The console as a file that can only be read.
pub struct Stdin;

/// The console as a file that can only be written.
pub struct Stdout;

impl Stdin {
    pub fn readable(&self) -> (r: bool)
        ensures
            r,
    {
        true
    }

    pub fn writable(&self) -> (r: bool)
        ensures
            !r,
    {
        false
    }
}

impl Stdout {
    pub fn readable(&self) -> (r: bool)
        ensures
            !r,
    {
        false
    }

    pub fn writable(&self) -> (r: bool)
        ensures
            r,
    {
        true
    }
}

} // verus!
