//! The backing store of a heap in disaggregated memory.

pub mod atomic;
pub mod cas;
pub mod error;
pub mod raw;
pub mod round;
pub mod stat;
pub mod text;
pub mod thread;
