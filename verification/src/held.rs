//! Records that other records hold closed.
use vstd::prelude::*;

verus! {

/// A record that another record holds: it is moved, copied and compared as a
/// whole, and opened where its contents are read.
#[derive(Clone, Copy, Debug, PartialEq, Eq, Structural)]
pub struct Held<T> {
    record: T,
}

impl<T> Held<T> {
    /// The record that is held.
    pub closed spec fn view(&self) -> T {
        self.record
    }

    pub closed spec fn of(record: T) -> Held<T> {
        Held { record }
    }
}

/// To hold a record and to open it again are each other's undoing.
pub broadcast proof fn lemma_held<T>(record: T)
    ensures
        (#[trigger] Held::of(record))@ == record,
{
}

pub broadcast proof fn lemma_reheld<T>(held: Held<T>)
    ensures
        #[trigger] Held::of(held.view()) == held,
{
}

pub fn hold<T>(record: T) -> (held: Held<T>)
    ensures
        held@ == record,
        held == Held::of(record),
{
    Held { record }
}

impl<T: Copy> Held<T> {
    pub fn open(&self) -> (record: T)
        ensures
            record == self@,
    {
        self.record
    }
}

} // verus!
