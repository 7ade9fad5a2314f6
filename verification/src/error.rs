//! What the components report when they are used against their rules.
use vstd::prelude::*;

verus! {

/// A usage error. The component that reports one is left as it was.
#[derive(Clone, Copy, Debug, PartialEq, Eq, Structural)]
pub enum Error {
    /// A write of `len` bytes, which is not a whole number of packets.
    PartialWrite { len: usize },
    /// More packets were announced than the buffer holds.
    ShortBuffer { len: usize },
    /// A tick rate that is not positive.
    InvalidRate,
    /// The clock was asked for what it can only tell once its timebase, or
    /// its timebase and its wallclock, are established.
    NotEstablished,
    /// The result does not fit the integer type it is returned in.
    OutOfRange,
    /// A configuration that makes no sense: a chunk size or a cadence that
    /// is not positive, or a negative latency.
    InvalidConfig,
    /// The memory for a table could not be had.
    OutOfMemory,
}

} // verus!
