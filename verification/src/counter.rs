//! A number that one side writes and any number of others read.

use std::sync::atomic::{AtomicU64, Ordering};
use std::sync::Arc;

use vstd::prelude::*;

verus! {

/// The writing side. There is one for each number, made with it, so that only
/// [`store`] changes it.
pub struct Counter {
    cell: Arc<AtomicU64>,
    value: Ghost<u64>,
}

/// A reading side. It holds no number of its own: what it reads is what was written
/// last.
#[derive(Debug)]
pub struct Reading {
    cell: Arc<AtomicU64>,
}

impl View for Counter {
    type V = u64;

    closed spec fn view(&self) -> u64 {
        self.value@
    }
}

impl Counter {
    /// Where the number lies.
    pub closed spec fn place(&self) -> Arc<AtomicU64> {
        self.cell
    }

    /// Calls `AtomicU64::new`: the number is the given one, at a place of its own.
    #[verifier::external_body]
    pub(crate) fn new(value: u64) -> (counter: Self)
        ensures
            counter@ == value,
    {
        Counter { cell: Arc::new(AtomicU64::new(value)), value: Ghost(value) }
    }

    /// A way to read the number from elsewhere.
    pub fn reading(&self) -> (reading: Reading)
        ensures
            reading.place() == self.place(),
    {
        Reading { cell: share(&self.cell) }
    }
}

impl Reading {
    /// Where the number lies.
    pub closed spec fn place(&self) -> Arc<AtomicU64> {
        self.cell
    }
}

impl Clone for Reading {
    fn clone(&self) -> (reading: Self)
        ensures
            reading.place() == self.place(),
    {
        Reading { cell: share(&self.cell) }
    }
}

/// Calls `Arc::clone`, which makes another pointer to the same place.
#[verifier::external_body]
fn share(cell: &Arc<AtomicU64>) -> (shared: Arc<AtomicU64>)
    ensures
        shared == *cell,
{
    Arc::clone(cell)
}

/// Calls `AtomicU64::store`: the number is the given one from here on.
#[verifier::external_body]
pub(crate) fn store(counter: &mut Counter, value: u64)
    ensures
        final(counter)@ == value,
        final(counter).place() == old(counter).place(),
{
    counter.cell.store(value, Ordering::SeqCst);
}

/// Calls `AtomicU64::load` on a reading side: the number that lies there, which is
/// the one that was written last. That the writing side is borrowed means that
/// nobody writes meanwhile.
#[verifier::external_body]
pub(crate) fn load(reading: &Reading, counter: &Counter) -> (value: u64)
    requires
        reading.place() == counter.place(),
    ensures
        value == counter@,
{
    reading.cell.load(Ordering::SeqCst)
}

} // verus!
