//! What can go wrong.

use vstd::prelude::*;

verus! {

/// Why an operation on the backing store failed. A number is an error code of
/// the operating system.
#[derive(Clone, Copy, Debug, PartialEq, Eq, Structural)]
pub enum Error {
    /// Memory could not be mapped.
    Mmap(i32),
    /// Memory could not be unmapped.
    Munmap(i32),
    /// Memory could not be bound to a node.
    Mbind(i32),
    /// Memory could not be populated.
    Madvise(i32),
    /// A file or a device could not be used.
    Io(i32),
    /// An address lies outside the heap.
    OutOfBounds,
}

} // verus!
