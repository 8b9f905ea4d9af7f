//! Identifiers of the threads that share a heap.

use vstd::prelude::*;
use vstd::std_specs::convert::FromSpecImpl;

verus! {

/// The number of a thread.
///
/// Zero is no thread's number: it is the packed form of "no thread".
#[derive(Clone, Copy, Debug, PartialEq, Eq, Structural)]
pub struct Id {
    /// The number itself.
    pub number: u16,
}

impl Id {
    /// Whether this is the number of a thread.
    pub open spec fn wf(self) -> bool {
        self.number != 0
    }

    /// The thread with this number, if there can be one.
    pub fn new(number: u16) -> (id: Option<Id>)
        ensures
            id == (if number == 0 {
                None::<Id>
            } else {
                Some(Id { number })
            }),
            id matches Some(id) ==> id.wf(),
    {
        if number == 0 {
            None
        } else {
            Some(Id { number })
        }
    }
}

impl FromSpecImpl<Id> for u16 {
    open spec fn obeys_from_spec() -> bool {
        true
    }

    open spec fn from_spec(id: Id) -> u16 {
        id.number
    }
}

impl From<Id> for u16 {
    fn from(id: Id) -> (number: u16) {
        id.number
    }
}

} // verus!
