//! The driver proper: the submission side, the completion side, and
//! the state both share.
//!
//! The device transport itself stays outside this crate — it is
//! reached through a non-blocking submit/complete interface by the
//! surrounding runtime. The functions here do everything around those
//! calls: validate a dequeued request, translate its buffer, record
//! the submitted operation under its token, and on completion look the
//! token up, re-translate the buffer the device wrote into, and turn
//! the device's status into the client-visible completion record.
//!
//! Each device call therefore splits one path step in two: the runtime
//! calls `prepare_submission`, performs the device submit with the
//! prepared job, and hands the resulting token to `record_submission`;
//! it hands a peeked completion token to `begin_completion`, performs
//! the device finalize over the returned job, and hands the device's
//! status to [`CompletionJob::finish`].

use vstd::prelude::*;
use crate::block_io::{BlockIoRequest, DeviceStatus, RequestKind, RequestStatus};
use crate::dma::{descriptor_in_region, spec_translate, translate_buffer, DmaRegion, LocalRange};
use crate::error::FatalError;
use crate::pending::{PendingTable, QUEUE_SIZE};

verus! {

/// A request may be submitted iff it asks for a read and its buffer
/// lies inside the shared DMA region.
pub open spec fn valid_request(req: BlockIoRequest, region: DmaRegion) -> bool {
    &&& req.kind == RequestKind::Read
    &&& descriptor_in_region(req.buf, region)
}

/// The completion record for a finished request: the original request
/// with its status set to `Success`.
pub open spec fn spec_completed(req: BlockIoRequest) -> BlockIoRequest {
    BlockIoRequest { status: RequestStatus::Success, ..req }
}

/// Everything the runtime needs to submit one read to the device:
/// the validated request and the local buffer range the device will
/// write into.
#[derive(Clone, Copy, PartialEq, Eq, Structural, Debug)]
pub struct SubmissionJob {
    /// The dequeued client request, untouched.
    pub request: BlockIoRequest,
    /// Its buffer, translated into the driver's local frame.
    pub local: LocalRange,
}

/// Everything the runtime needs to finalize one completed operation:
/// the originating request and the local range the device wrote into.
#[derive(Clone, Copy, PartialEq, Eq, Structural, Debug)]
pub struct CompletionJob {
    /// The request the completed token was submitted for.
    pub request: BlockIoRequest,
    /// Its buffer, translated into the driver's local frame again.
    pub local: LocalRange,
}

impl CompletionJob {
    /// Maps the device's status onto the finished request. Only a
    /// successful status yields a completion record; the reference
    /// behavior treats every other device status as fatal rather than
    /// propagating an error status to the client.
    pub fn finish(self, status: DeviceStatus) -> (r: Result<BlockIoRequest, FatalError>)
        ensures
            r is Ok <==> status == DeviceStatus::Success,
            r is Ok ==> r->Ok_0 == spec_completed(self.request),
            r is Err ==> r->Err_0 == FatalError::DeviceFailure(status),
    {
        match status {
            DeviceStatus::Success => Ok(self.request.with_status(RequestStatus::Success)),
            _ => Err(FatalError::DeviceFailure(status)),
        }
    }
}

/// The driver's whole state: the pending table and the geometry of the
/// shared DMA region. There is nothing else — the event loop is
/// level-triggered and keeps no state between triggers.
pub struct Driver {
    /// Token-keyed bookkeeping of in-flight operations.
    pub pending: PendingTable,
    /// The shared DMA window buffer descriptors are translated over.
    pub region: DmaRegion,
}

impl Driver {
    /// The table is well formed and every in-flight request was
    /// validated on its way in: it asks for a read and its buffer lies
    /// inside the region, so the completion side can re-translate it
    /// without failing.
    pub open spec fn wf(&self) -> bool {
        &&& self.region.wf()
        &&& self.pending.wf()
        &&& forall|t: u16|
            self.pending@.contains_key(t) ==> valid_request(#[trigger] self.pending@[t], self.region)
    }

    /// A fresh driver for a region: nothing outstanding.
    pub fn new(region: DmaRegion) -> (r: Driver)
        requires
            region.wf(),
        ensures
            r.wf(),
            r.region == region,
            r.pending@ == Map::<u16, BlockIoRequest>::empty(),
    {
        Driver { pending: PendingTable::new(), region }
    }

    /// Whether the submission path may run: the outstanding-operation
    /// limit is the sole admission control.
    pub fn can_submit(&self) -> (r: bool)
        requires
            self.wf(),
        ensures
            r == (self.pending@.dom().len() < QUEUE_SIZE),
    {
        self.pending.len() < QUEUE_SIZE
    }

    /// Validates a dequeued request and translates its buffer. Read is
    /// the only supported operation kind — anything else is a protocol
    /// violation by the client — and the buffer must lie inside the
    /// shared DMA region. No state changes here: the job only becomes
    /// pending once the device accepted it and `record_submission`
    /// stored the token.
    pub fn prepare_submission(&self, req: BlockIoRequest) -> (r: Result<SubmissionJob, FatalError>)
        requires
            self.wf(),
        ensures
            r is Ok <==> valid_request(req, self.region),
            r is Ok ==> r->Ok_0 == (SubmissionJob {
                request: req,
                local: spec_translate(req.buf, self.region),
            }),
            r is Err ==> r->Err_0 == (if req.kind != RequestKind::Read {
                FatalError::UnsupportedRequestKind
            } else {
                FatalError::BufferOutOfRegion
            }),
    {
        match req.kind {
            RequestKind::Read => {
                let local = translate_buffer(req.buf, self.region)?;
                Ok(SubmissionJob { request: req, local })
            },
            _ => Err(FatalError::UnsupportedRequestKind),
        }
    }

    /// Records a submitted operation under the token the device
    /// assigned it. A token that is already outstanding violates the
    /// table's uniqueness invariant — a transport bug — and is refused
    /// with no state change.
    pub fn record_submission(&mut self, job: SubmissionJob, token: u16) -> (r: Result<
        (),
        FatalError,
    >)
        requires
            old(self).wf(),
            valid_request(job.request, old(self).region),
            old(self).pending@.dom().len() < QUEUE_SIZE,
        ensures
            final(self).wf(),
            final(self).region == old(self).region,
            r is Ok <==> !old(self).pending@.contains_key(token),
            r is Ok ==> final(self).pending@ == old(self).pending@.insert(token, job.request),
            r is Err ==> *final(self) == *old(self) && r->Err_0 == FatalError::DuplicateToken,
    {
        let r = self.pending.insert(token, job.request);
        match r {
            Ok(()) => {
                proof {
                    assert forall|t: u16| final(self).pending@.contains_key(t) implies valid_request(
                        #[trigger] final(self).pending@[t],
                        final(self).region,
                    ) by {
                        if t != token {
                            assert(old(self).pending@.contains_key(t));
                        }
                    }
                }
                Ok(())
            },
            Err(e) => Err(e),
        }
    }

    /// Takes a completed token out of the pending table and prepares
    /// the finalize step: the originating request and its buffer,
    /// translated again into the local frame the device wrote into. A
    /// token with no pending entry — never submitted, or delivered a
    /// second time — is a fatal protocol violation and changes nothing.
    pub fn begin_completion(&mut self, token: u16) -> (r: Result<CompletionJob, FatalError>)
        requires
            old(self).wf(),
        ensures
            final(self).wf(),
            final(self).region == old(self).region,
            r is Ok <==> old(self).pending@.contains_key(token),
            r is Ok ==> {
                &&& r->Ok_0.request == old(self).pending@[token]
                &&& r->Ok_0.local == spec_translate(old(self).pending@[token].buf, old(self).region)
                &&& final(self).pending@ == old(self).pending@.remove(token)
            },
            r is Err ==> *final(self) == *old(self) && r->Err_0 == FatalError::UnknownToken,
    {
        let request = self.pending.remove(token)?;
        match translate_buffer(request.buf, self.region) {
            Ok(local) => Ok(CompletionJob { request, local }),
            Err(e) => {
                // Unreachable: only validated requests enter the table.
                proof {
                    assert(false);
                }
                Err(e)
            },
        }
    }
}

} // verus!
