//! The fatal conditions this driver can detect.
//!
//! None of these is recoverable at this layer: the driver reports the
//! condition to the surrounding runtime and halts rather than guess a
//! recovery. No partial state update precedes any of them.

use vstd::prelude::*;
use crate::block_io::DeviceStatus;

verus! {

/// Why the driver must halt.
#[derive(Clone, Copy, PartialEq, Eq, Structural, Debug)]
pub enum FatalError {
    /// A dequeued request asked for anything but a read: the client is
    /// violating the protocol.
    UnsupportedRequestKind,
    /// A buffer descriptor points outside the shared DMA region.
    BufferOutOfRegion,
    /// The device handed out a token that is still outstanding: a
    /// transport bug.
    DuplicateToken,
    /// A completion arrived for a token with no pending entry: either a
    /// double delivery or a completion that was never submitted.
    UnknownToken,
    /// The device reported a non-success status when an operation was
    /// finalized.
    DeviceFailure(DeviceStatus),
    /// The client-visible completion queue had no room for a finished
    /// request; dropping it silently is not an option.
    CompletionQueueFull,
}

} // verus!
