//! Plain data carried between the client, this driver, and the device.
//!
//! A client request travels from the shared request queue, through the
//! pending table while the device works on it, and back out on the
//! completion queue with its status filled in.

use vstd::prelude::*;

verus! {

/// Operation kind of a client request. The driver accepts only `Read`;
/// any other kind on a dequeued request is a fatal protocol violation.
#[derive(Clone, Copy, PartialEq, Eq, Structural, Debug)]
pub enum RequestKind {
    Read,
    Write,
}

/// Client-visible status of a request: absent (`Pending`) until the
/// driver completes it, then `Success` or `IoError`.
#[derive(Clone, Copy, PartialEq, Eq, Structural, Debug)]
pub enum RequestStatus {
    Pending,
    Success,
    IoError,
}

/// Status code the device reports when an operation is finalized.
/// Anything other than `Success` is treated as fatal by this driver.
#[derive(Clone, Copy, PartialEq, Eq, Structural, Debug)]
pub enum DeviceStatus {
    Success,
    IoErr,
    Unsupported,
    NotReady,
}

/// A client buffer: an address inside the shared DMA region, expressed
/// in the region's own (physical) frame of reference, plus a length.
#[derive(Clone, Copy, PartialEq, Eq, Structural, Debug)]
pub struct BufferDescriptor {
    /// Absolute address of the buffer inside the shared DMA region.
    pub encoded_addr: usize,
    /// Length of the buffer in bytes.
    pub len: u32,
}

/// One block-I/O request as it lives on the shared ring queues.
#[derive(Clone, Copy, PartialEq, Eq, Structural, Debug)]
pub struct BlockIoRequest {
    /// What the client asks for; only `Read` is supported.
    pub kind: RequestKind,
    /// Logical block offset on the device.
    pub block_id: u64,
    /// Where the data goes, relative to the shared DMA region.
    pub buf: BufferDescriptor,
    /// `Pending` until the driver returns the request on the
    /// completion queue.
    pub status: RequestStatus,
}

impl BlockIoRequest {
    /// Builds a fresh read request as a client would enqueue it.
    pub fn read(block_id: u64, encoded_addr: usize, len: u32) -> (r: BlockIoRequest)
        ensures
            r == (BlockIoRequest {
                kind: RequestKind::Read,
                block_id,
                buf: BufferDescriptor { encoded_addr, len },
                status: RequestStatus::Pending,
            }),
    {
        BlockIoRequest {
            kind: RequestKind::Read,
            block_id,
            buf: BufferDescriptor { encoded_addr, len },
            status: RequestStatus::Pending,
        }
    }

    /// The same request with its status replaced, as written onto the
    /// completion queue.
    pub fn with_status(self, status: RequestStatus) -> (r: BlockIoRequest)
        ensures
            r == (BlockIoRequest { status, ..self }),
    {
        BlockIoRequest { status, ..self }
    }
}

} // verus!
