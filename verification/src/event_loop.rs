//! The level-triggered event loop: drain completions, then drain
//! submissions, and say whether the client must be signalled.
//!
//! In the running system the two queues live in shared memory and the
//! device is reached over a memory-mapped transport; none of that can
//! be expressed here. This module states the loop's logic over
//! in-memory counterparts with exactly the interface of the real
//! collaborators — a FIFO request queue, a bounded completion queue,
//! and a device with non-blocking submit, peek and finalize — and
//! proves the loop against a functional model of one trigger, so the
//! drain-to-quiescence behavior, its no-op cases, and its liveness are
//! all stated and checked here rather than assumed at the boundary.

use vstd::prelude::*;
use crate::block_io::{BlockIoRequest, DeviceStatus, RequestKind};
use crate::dma::{descriptor_in_region, DmaRegion};
use crate::driver::{spec_completed, valid_request, Driver};
use crate::error::FatalError;
use crate::pending::QUEUE_SIZE;

verus! {

/// The client's request queue as the driver sees it: a FIFO of
/// dequeued-in-order requests.
pub struct RequestQueue {
    items: Vec<BlockIoRequest>,
}

impl View for RequestQueue {
    type V = Seq<BlockIoRequest>;

    closed spec fn view(&self) -> Seq<BlockIoRequest> {
        self.items@
    }
}

impl RequestQueue {
    /// A queue holding `items`, front first.
    pub fn new(items: Vec<BlockIoRequest>) -> (r: RequestQueue)
        ensures
            r@ == items@,
    {
        RequestQueue { items }
    }

    /// Whether any request is waiting.
    pub fn is_empty(&self) -> (r: bool)
        ensures
            r == (self@.len() == 0),
    {
        self.items.len() == 0
    }

    /// Takes the oldest waiting request.
    pub fn dequeue(&mut self) -> (r: BlockIoRequest)
        requires
            old(self)@.len() > 0,
        ensures
            r == old(self)@[0],
            final(self)@ == old(self)@.drop_first(),
    {
        self.items.remove(0)
    }
}

/// The client's completion queue as the driver sees it: a FIFO with
/// the fixed capacity of the underlying ring.
pub struct CompletionQueue {
    items: Vec<BlockIoRequest>,
    cap: usize,
}

impl View for CompletionQueue {
    type V = Seq<BlockIoRequest>;

    closed spec fn view(&self) -> Seq<BlockIoRequest> {
        self.items@
    }
}

impl CompletionQueue {
    /// The capacity of the underlying ring.
    pub closed spec fn spec_cap(&self) -> nat {
        self.cap as nat
    }

    /// An empty queue with room for `cap` completions.
    pub fn new(cap: usize) -> (r: CompletionQueue)
        ensures
            r@ == Seq::<BlockIoRequest>::empty(),
            r.spec_cap() == cap,
    {
        CompletionQueue { items: Vec::new(), cap }
    }

    /// Appends a finished request, refusing when the ring is full: a
    /// completion must never be dropped silently.
    pub fn enqueue(&mut self, req: BlockIoRequest) -> (r: Result<(), FatalError>)
        ensures
            final(self).spec_cap() == old(self).spec_cap(),
            r is Ok <==> old(self)@.len() < old(self).spec_cap(),
            r is Ok ==> final(self)@ == old(self)@.push(req),
            r is Err ==> *final(self) == *old(self) && r->Err_0 == FatalError::CompletionQueueFull,
    {
        if self.items.len() < self.cap {
            self.items.push(req);
            Ok(())
        } else {
            Err(FatalError::CompletionQueueFull)
        }
    }

    /// The completions handed back so far, oldest first.
    pub fn entry(&self, i: usize) -> (r: BlockIoRequest)
        requires
            i < self@.len(),
        ensures
            r == self@[i as int],
    {
        self.items[i]
    }

    /// How many completions are queued.
    pub fn len(&self) -> (n: usize)
        ensures
            n == self@.len(),
    {
        self.items.len()
    }
}

/// A block device with the transport's non-blocking interface, kept as
/// plain state: operations it is working on, operations it has
/// finished but the driver has not consumed, and the next token it
/// will assign. Submission order is completion order; each completion
/// carries the status the device will report on finalize.
pub struct DeviceModel {
    /// Tokens of operations submitted and not yet finished, oldest
    /// first.
    inflight: Vec<u16>,
    /// Finished operations the driver has not consumed yet, oldest
    /// first, with the status finalize will report.
    completed: Vec<(u16, DeviceStatus)>,
    /// The token the next submission gets.
    next_token: u16,
}

impl DeviceModel {
    /// Tokens in flight, oldest first.
    pub closed spec fn spec_inflight(&self) -> Seq<u16> {
        self.inflight@
    }

    /// Finished but unconsumed operations, oldest first.
    pub closed spec fn spec_completed(&self) -> Seq<(u16, DeviceStatus)> {
        self.completed@
    }

    /// The token the next submission gets.
    pub closed spec fn spec_next_token(&self) -> u16 {
        self.next_token
    }

    /// An idle device that will assign tokens from `first_token` up.
    pub fn new(first_token: u16) -> (r: DeviceModel)
        ensures
            r.spec_inflight() == Seq::<u16>::empty(),
            r.spec_completed() == Seq::<(u16, DeviceStatus)>::empty(),
            r.spec_next_token() == first_token,
    {
        DeviceModel { inflight: Vec::new(), completed: Vec::new(), next_token: first_token }
    }

    /// Accepts one read and returns its token. Non-blocking: the
    /// operation merely becomes in-flight.
    pub fn submit(&mut self) -> (token: u16)
        requires
            old(self).spec_next_token() < u16::MAX,
        ensures
            token == old(self).spec_next_token(),
            final(self).spec_inflight() == old(self).spec_inflight().push(token),
            final(self).spec_completed() == old(self).spec_completed(),
            final(self).spec_next_token() == old(self).spec_next_token() + 1,
    {
        let token = self.next_token;
        self.inflight.push(token);
        self.next_token = self.next_token + 1;
        token
    }

    /// The device finishes its oldest in-flight operation with the
    /// given status. This is the device's own progress, not a driver
    /// step.
    pub fn complete_next(&mut self, status: DeviceStatus)
        requires
            old(self).spec_inflight().len() > 0,
        ensures
            final(self).spec_inflight() == old(self).spec_inflight().drop_first(),
            final(self).spec_completed() == old(self).spec_completed().push(
                (old(self).spec_inflight()[0], status),
            ),
            final(self).spec_next_token() == old(self).spec_next_token(),
    {
        let token = self.inflight.remove(0);
        self.completed.push((token, status));
    }

    /// The device finishes everything in flight, in order, all with
    /// the given status.
    pub fn complete_all(&mut self, status: DeviceStatus)
        ensures
            final(self).spec_inflight() == Seq::<u16>::empty(),
            final(self).spec_completed() == old(self).spec_completed() + Seq::new(
                old(self).spec_inflight().len(),
                |i: int| (old(self).spec_inflight()[i], status),
            ),
            final(self).spec_next_token() == old(self).spec_next_token(),
    {
        let ghost all = old(self).spec_inflight();
        let ghost done = Seq::new(all.len(), |i: int| (all[i], status));
        let mut k: usize = 0;
        let len0: usize = self.inflight.len();
        let ghost n = len0 as nat;
        while self.inflight.len() > 0
            invariant
                k <= n,
                self.spec_inflight() =~= all.subrange(k as int, n as int),
                self.spec_completed() =~= old(self).spec_completed() + done.take(k as int),
                self.spec_next_token() == old(self).spec_next_token(),
                n == all.len(),
                n <= usize::MAX,
                done.len() == n,
                forall|i: int| 0 <= i < n ==> done[i] == (all[i], status),
            decreases self.inflight@.len(),
    {
            proof {
                assert(self.spec_inflight()[0] == all[k as int]);
            }
            self.complete_next(status);
            proof {
                assert(k < n);
                assert(done.take(k as int).push(done[k as int]) =~= done.take(k as int + 1));
            }
            k = k + 1;
        }
        proof {
            assert(self.spec_inflight() =~= Seq::<u16>::empty());
            assert(done.take(n as int) =~= done);
        }
    }

    /// The oldest finished-but-unconsumed operation, if any, with the
    /// status finalize will report. Peeking consumes nothing.
    pub fn peek_completed(&self) -> (r: Option<(u16, DeviceStatus)>)
        ensures
            r is Some <==> self.spec_completed().len() > 0,
            r is Some ==> r->0 == self.spec_completed()[0],
    {
        if self.completed.len() > 0 {
            Some(self.completed[0])
        } else {
            None
        }
    }

    /// Consumes the oldest finished operation, after the driver has
    /// finalized it.
    pub fn pop_completed(&mut self)
        requires
            old(self).spec_completed().len() > 0,
        ensures
            final(self).spec_completed() == old(self).spec_completed().drop_first(),
            final(self).spec_inflight() == old(self).spec_inflight(),
            final(self).spec_next_token() == old(self).spec_next_token(),
    {
        let _ = self.completed.remove(0);
    }
}

/// A functional snapshot of everything one trigger touches: the
/// driver's state, the device's state, and both client queues.
pub struct LoopState {
    /// The pending table's contents.
    pub pending: Map<u16, BlockIoRequest>,
    /// The shared DMA window.
    pub region: DmaRegion,
    /// Tokens the device is working on, oldest first.
    pub inflight: Seq<u16>,
    /// Operations the device has finished but the driver has not
    /// consumed, oldest first.
    pub completed: Seq<(u16, DeviceStatus)>,
    /// The token the next submission gets.
    pub next_token: int,
    /// Requests waiting on the client's request queue, oldest first.
    pub requests: Seq<BlockIoRequest>,
    /// Completions handed back to the client, oldest first.
    pub completions: Seq<BlockIoRequest>,
    /// Capacity of the completion queue.
    pub cap: nat,
}

/// Where one path run left the state, and whether it drained to
/// quiescence or hit a fatal condition.
pub struct PathResult {
    /// The state after the run, fatal or not.
    pub state: LoopState,
    /// Quiescence, or the fatal condition that stopped the run.
    pub outcome: Result<(), FatalError>,
}

/// One completion-path run, drained to quiescence: consume finished
/// operations oldest first, remove each from the pending table,
/// finalize it, and append the completion record — until none remain
/// or a fatal condition stops the run where it stands.
pub open spec fn spec_completion_drain(s: LoopState) -> PathResult
    decreases s.completed.len(),
{
    if s.completed.len() == 0 {
        PathResult { state: s, outcome: Ok(()) }
    } else {
        let token = s.completed[0].0;
        let status = s.completed[0].1;
        if !s.pending.contains_key(token) {
            PathResult { state: s, outcome: Err(FatalError::UnknownToken) }
        } else {
            let removed = LoopState { pending: s.pending.remove(token), ..s };
            if status != DeviceStatus::Success {
                PathResult { state: removed, outcome: Err(FatalError::DeviceFailure(status)) }
            } else if s.completions.len() >= s.cap {
                PathResult { state: removed, outcome: Err(FatalError::CompletionQueueFull) }
            } else {
                spec_completion_drain(
                    LoopState {
                        pending: s.pending.remove(token),
                        completed: s.completed.drop_first(),
                        completions: s.completions.push(spec_completed(s.pending[token])),
                        ..s
                    },
                )
            }
        }
    }
}

/// One submission-path run, drained to quiescence: while a slot is
/// free and a request waits, dequeue it, validate and translate it,
/// submit it, and record it under the device's token — until the
/// outstanding-operation limit or the empty queue stops the run, or a
/// fatal condition does.
pub open spec fn spec_submission_drain(s: LoopState) -> PathResult
    decreases s.requests.len(),
{
    if s.pending.dom().len() >= QUEUE_SIZE || s.requests.len() == 0 {
        PathResult { state: s, outcome: Ok(()) }
    } else {
        let req = s.requests[0];
        let dequeued = LoopState { requests: s.requests.drop_first(), ..s };
        if req.kind != RequestKind::Read {
            PathResult { state: dequeued, outcome: Err(FatalError::UnsupportedRequestKind) }
        } else if !descriptor_in_region(req.buf, s.region) {
            PathResult { state: dequeued, outcome: Err(FatalError::BufferOutOfRegion) }
        } else {
            let token = s.next_token as u16;
            let submitted = LoopState {
                requests: s.requests.drop_first(),
                inflight: s.inflight.push(token),
                next_token: s.next_token + 1,
                ..s
            };
            if s.pending.contains_key(token) {
                PathResult { state: submitted, outcome: Err(FatalError::DuplicateToken) }
            } else {
                spec_submission_drain(
                    LoopState { pending: s.pending.insert(token, req), ..submitted },
                )
            }
        }
    }
}

/// One trigger, whatever its source: the completion path to
/// quiescence, then the submission path to quiescence.
pub open spec fn spec_handle_trigger(s: LoopState) -> PathResult {
    let c = spec_completion_drain(s);
    if c.outcome is Err {
        c
    } else {
        spec_submission_drain(c.state)
    }
}

/// The completion path touches nothing but the pending table, the
/// device's completed operations, and the completion queue.
pub proof fn lemma_completion_drain_frame(s: LoopState)
    ensures
        spec_completion_drain(s).state.region == s.region,
        spec_completion_drain(s).state.inflight == s.inflight,
        spec_completion_drain(s).state.next_token == s.next_token,
        spec_completion_drain(s).state.requests == s.requests,
        spec_completion_drain(s).state.cap == s.cap,
    decreases s.completed.len(),
{
    if s.completed.len() > 0 {
        let token = s.completed[0].0;
        let status = s.completed[0].1;
        if s.pending.contains_key(token) && status == DeviceStatus::Success
            && s.completions.len() < s.cap {
            lemma_completion_drain_frame(
                LoopState {
                    pending: s.pending.remove(token),
                    completed: s.completed.drop_first(),
                    completions: s.completions.push(spec_completed(s.pending[token])),
                    ..s
                },
            );
        }
    }
}

/// The submission path touches nothing but the pending table, the
/// request queue, and the device's in-flight side.
pub proof fn lemma_submission_drain_frame(s: LoopState)
    ensures
        spec_submission_drain(s).state.region == s.region,
        spec_submission_drain(s).state.completed == s.completed,
        spec_submission_drain(s).state.completions == s.completions,
        spec_submission_drain(s).state.cap == s.cap,
    decreases s.requests.len(),
{
    if !(s.pending.dom().len() >= QUEUE_SIZE || s.requests.len() == 0) {
        let req = s.requests[0];
        let token = s.next_token as u16;
        if req.kind == RequestKind::Read && descriptor_in_region(req.buf, s.region)
            && !s.pending.contains_key(token) {
            lemma_submission_drain_frame(
                LoopState {
                    pending: s.pending.insert(token, req),
                    requests: s.requests.drop_first(),
                    inflight: s.inflight.push(token),
                    next_token: s.next_token + 1,
                    ..s
                },
            );
        }
    }
}

/// The whole bridge: the driver, the device, and the two client
/// queues, advanced together by triggers and by device progress.
pub struct System {
    /// The verified driver state.
    pub driver: Driver,
    /// The device being driven.
    pub device: DeviceModel,
    /// The client's request queue.
    pub requests: RequestQueue,
    /// The client's completion queue.
    pub completions: CompletionQueue,
}

impl View for System {
    type V = LoopState;

    open spec fn view(&self) -> LoopState {
        LoopState {
            pending: self.driver.pending@,
            region: self.driver.region,
            inflight: self.device.spec_inflight(),
            completed: self.device.spec_completed(),
            next_token: self.device.spec_next_token() as int,
            requests: self.requests@,
            completions: self.completions@,
            cap: self.completions.spec_cap(),
        }
    }
}

impl System {
    /// A fresh bridge: nothing pending, nothing in flight, the given
    /// requests waiting, and an empty completion queue of the given
    /// capacity.
    pub fn new(
        region: DmaRegion,
        requests: Vec<BlockIoRequest>,
        completion_cap: usize,
        first_token: u16,
    ) -> (r: System)
        requires
            region.wf(),
        ensures
            r.driver.wf(),
            r@ == (LoopState {
                pending: Map::<u16, BlockIoRequest>::empty(),
                region,
                inflight: Seq::<u16>::empty(),
                completed: Seq::<(u16, DeviceStatus)>::empty(),
                next_token: first_token as int,
                requests: requests@,
                completions: Seq::<BlockIoRequest>::empty(),
                cap: completion_cap as nat,
            }),
    {
        System {
            driver: Driver::new(region),
            device: DeviceModel::new(first_token),
            requests: RequestQueue::new(requests),
            completions: CompletionQueue::new(completion_cap),
        }
    }

    /// Drains the device's finished operations into the completion
    /// queue, exactly as [`spec_completion_drain`] says. The returned
    /// flag says whether any completion was handed back, which is what
    /// obliges a client signal.
    pub fn run_completion_path(&mut self) -> (r: Result<bool, FatalError>)
        requires
            old(self).driver.wf(),
        ensures
            final(self).driver.wf(),
            final(self)@ == spec_completion_drain(old(self)@).state,
            spec_completion_drain(old(self)@).outcome == (if r is Ok {
                Ok::<(), FatalError>(())
            } else {
                Err(r->Err_0)
            }),
            r is Ok ==> r->Ok_0 == (old(self)@.completed.len() > 0),
    {
        let mut work = false;
        loop
            invariant
                self.driver.wf(),
                spec_completion_drain(self@) == spec_completion_drain(old(self)@),
                self@.completed.len() <= old(self)@.completed.len(),
                work == (self@.completed.len() < old(self)@.completed.len()),
            ensures
                self.driver.wf(),
                self@.completed.len() == 0,
                spec_completion_drain(self@) == spec_completion_drain(old(self)@),
                work == (old(self)@.completed.len() > 0),
            decreases self@.completed.len(),
        {
            let (token, status) = match self.device.peek_completed() {
                Some(p) => p,
                None => { break; },
            };
            let ghost at_entry = self@;
            let job = match self.driver.begin_completion(token) {
                Ok(j) => j,
                Err(e) => {
                    return Err(e);
                },
            };
            let record = match job.finish(status) {
                Ok(rec) => rec,
                Err(e) => {
                    return Err(e);
                },
            };
            match self.completions.enqueue(record) {
                Ok(()) => {},
                Err(e) => {
                    return Err(e);
                },
            }
            self.device.pop_completed();
            proof {
                assert(self@ == (LoopState {
                    pending: at_entry.pending.remove(token),
                    completed: at_entry.completed.drop_first(),
                    completions: at_entry.completions.push(
                        spec_completed(at_entry.pending[token]),
                    ),
                    ..at_entry
                }));
            }
            work = true;
        }
        Ok(work)
    }

    /// Drains the client's request queue into device submissions while
    /// a slot is free, exactly as [`spec_submission_drain`] says. The
    /// returned flag says whether anything was submitted, which is
    /// what obliges a client signal.
    pub fn run_submission_path(&mut self) -> (r: Result<bool, FatalError>)
        requires
            old(self).driver.wf(),
            old(self)@.next_token + old(self)@.requests.len() <= u16::MAX,
        ensures
            final(self).driver.wf(),
            final(self)@ == spec_submission_drain(old(self)@).state,
            spec_submission_drain(old(self)@).outcome == (if r is Ok {
                Ok::<(), FatalError>(())
            } else {
                Err(r->Err_0)
            }),
            r is Ok ==> r->Ok_0 == (final(self)@.requests.len() < old(self)@.requests.len()),
    {
        let mut work = false;
        loop
            invariant
                self.driver.wf(),
                spec_submission_drain(self@) == spec_submission_drain(old(self)@),
                self@.requests.len() <= old(self)@.requests.len(),
                work == (self@.requests.len() < old(self)@.requests.len()),
                self@.next_token + self@.requests.len() <= u16::MAX,
            ensures
                self.driver.wf(),
                self@.pending.dom().len() >= QUEUE_SIZE || self@.requests.len() == 0,
                spec_submission_drain(self@) == spec_submission_drain(old(self)@),
                work == (self@.requests.len() < old(self)@.requests.len()),
            decreases self@.requests.len(),
        {
            if !self.driver.can_submit() {
                break;
            }
            if self.requests.is_empty() {
                break;
            }
            let ghost at_entry = self@;
            let req = self.requests.dequeue();
            let job = match self.driver.prepare_submission(req) {
                Ok(j) => j,
                Err(e) => {
                    return Err(e);
                },
            };
            let token = self.device.submit();
            match self.driver.record_submission(job, token) {
                Ok(()) => {},
                Err(e) => {
                    return Err(e);
                },
            }
            proof {
                assert(self@ == (LoopState {
                    pending: at_entry.pending.insert(token, req),
                    requests: at_entry.requests.drop_first(),
                    inflight: at_entry.inflight.push(token),
                    next_token: at_entry.next_token + 1,
                    ..at_entry
                }));
            }
            work = true;
        }
        Ok(work)
    }

    /// One trigger, from either source — device interrupt or client
    /// notification; the design treats them identically. Runs the
    /// completion path to exhaustion, then the submission path to
    /// exhaustion, and reports whether either did any work, in which
    /// case the client must be signalled. Acknowledging the device
    /// interrupt afterwards is the runtime's side of the bargain — it
    /// happens whether or not work was done.
    pub fn handle_trigger(&mut self) -> (r: Result<bool, FatalError>)
        requires
            old(self).driver.wf(),
            old(self)@.next_token + old(self)@.requests.len() <= u16::MAX,
        ensures
            final(self).driver.wf(),
            final(self)@ == spec_handle_trigger(old(self)@).state,
            spec_handle_trigger(old(self)@).outcome == (if r is Ok {
                Ok::<(), FatalError>(())
            } else {
                Err(r->Err_0)
            }),
            r is Ok ==> r->Ok_0 == (old(self)@.completed.len() > 0 || final(self)@.requests.len()
                < old(self)@.requests.len()),
    {
        proof {
            lemma_completion_drain_frame(old(self)@);
        }
        let completion_work = match self.run_completion_path() {
            Ok(w) => w,
            Err(e) => {
                return Err(e);
            },
        };
        let submission_work = match self.run_submission_path() {
            Ok(w) => w,
            Err(e) => {
                return Err(e);
            },
        };
        Ok(completion_work || submission_work)
    }

    /// The device finishes everything in flight, in order, each with
    /// the given status — the device's own progress between triggers.
    pub fn device_progress(&mut self, status: DeviceStatus)
        ensures
            final(self)@ == device_finishes_all(old(self)@, status),
            final(self).driver == old(self).driver,
    {
        self.device.complete_all(status);
        proof {
            assert(self@ == device_finishes_all(old(self)@, status));
        }
    }
}

/// The device finishing everything in flight, in order, each with the
/// given status.
pub open spec fn device_finishes_all(s: LoopState, status: DeviceStatus) -> LoopState {
    LoopState {
        inflight: Seq::<u16>::empty(),
        completed: s.completed + Seq::new(s.inflight.len(), |i: int| (s.inflight[i], status)),
        ..s
    }
}

/// Draining is idempotent on the completion side: running the
/// completion path when no finished operation waits is a no-op — no
/// state change, and no work to signal.
pub proof fn lemma_completion_path_noop(s: LoopState)
    requires
        s.completed.len() == 0,
    ensures
        spec_completion_drain(s) == (PathResult { state: s, outcome: Ok::<(), FatalError>(()) }),
{
}

/// Draining is idempotent on the submission side: running the
/// submission path when the pending table is full or no request waits
/// is a no-op — no state change, and no work to signal.
pub proof fn lemma_submission_path_noop(s: LoopState)
    requires
        s.pending.dom().len() >= QUEUE_SIZE || s.requests.len() == 0,
    ensures
        spec_submission_drain(s) == (PathResult { state: s, outcome: Ok::<(), FatalError>(()) }),
{
}

/// The completion path never grows the pending table.
pub proof fn lemma_completion_drain_bounds_pending(s: LoopState)
    requires
        s.pending.dom().finite(),
    ensures
        spec_completion_drain(s).state.pending.dom().finite(),
        spec_completion_drain(s).state.pending.dom().len() <= s.pending.dom().len(),
    decreases s.completed.len(),
{
    if s.completed.len() > 0 {
        let token = s.completed[0].0;
        let status = s.completed[0].1;
        if s.pending.contains_key(token) {
            assert(s.pending.remove(token).dom() =~= s.pending.dom().remove(token));
            if status == DeviceStatus::Success && s.completions.len() < s.cap {
                lemma_completion_drain_bounds_pending(
                    LoopState {
                        pending: s.pending.remove(token),
                        completed: s.completed.drop_first(),
                        completions: s.completions.push(spec_completed(s.pending[token])),
                        ..s
                    },
                );
            }
        }
    }
}

/// The submission path never grows the pending table beyond the
/// outstanding-operation limit.
pub proof fn lemma_submission_drain_bounds_pending(s: LoopState)
    requires
        s.pending.dom().finite(),
        s.pending.dom().len() <= QUEUE_SIZE,
    ensures
        spec_submission_drain(s).state.pending.dom().finite(),
        spec_submission_drain(s).state.pending.dom().len() <= QUEUE_SIZE,
    decreases s.requests.len(),
{
    if !(s.pending.dom().len() >= QUEUE_SIZE || s.requests.len() == 0) {
        let req = s.requests[0];
        let token = s.next_token as u16;
        if req.kind == RequestKind::Read && descriptor_in_region(req.buf, s.region)
            && !s.pending.contains_key(token) {
            assert(s.pending.insert(token, req).dom() =~= s.pending.dom().insert(token));
            lemma_submission_drain_bounds_pending(
                LoopState {
                    pending: s.pending.insert(token, req),
                    requests: s.requests.drop_first(),
                    inflight: s.inflight.push(token),
                    next_token: s.next_token + 1,
                    ..s
                },
            );
        }
    }
}

/// However many triggers arrive and whatever they carry, the pending
/// table never exceeds the outstanding-operation limit: one trigger
/// preserves the bound, so any sequence of them does.
pub proof fn lemma_trigger_bounds_pending(s: LoopState)
    requires
        s.pending.dom().finite(),
        s.pending.dom().len() <= QUEUE_SIZE,
    ensures
        spec_handle_trigger(s).state.pending.dom().finite(),
        spec_handle_trigger(s).state.pending.dom().len() <= QUEUE_SIZE,
{
    lemma_completion_drain_bounds_pending(s);
    if spec_completion_drain(s).outcome is Ok {
        lemma_submission_drain_bounds_pending(spec_completion_drain(s).state);
    }
}

/// The token the device assigns to the `i`-th submission when its
/// counter starts at `first`.
pub open spec fn submitted_token(first: int, i: int) -> u16 {
    (first + i) as u16
}

/// With room for every waiting request, one submission-path run
/// submits them all, in order, under consecutive fresh tokens.
pub proof fn lemma_submission_drain_submits_all(s: LoopState)
    requires
        s.pending.dom().finite(),
        s.pending.dom().len() + s.requests.len() <= QUEUE_SIZE,
        forall|i: int| 0 <= i < s.requests.len() ==> valid_request(#[trigger] s.requests[i], s.region),
        forall|t: u16| #[trigger] s.pending.contains_key(t) ==> (t as int) < s.next_token,
        0 <= s.next_token,
        s.next_token + s.requests.len() <= u16::MAX,
    ensures
        spec_submission_drain(s).outcome is Ok,
        spec_submission_drain(s).state.requests.len() == 0,
        spec_submission_drain(s).state.next_token == s.next_token + s.requests.len(),
        spec_submission_drain(s).state.inflight == s.inflight + Seq::new(
            s.requests.len(),
            |i: int| (s.next_token + i) as u16,
        ),
        spec_submission_drain(s).state.pending.dom().finite(),
        spec_submission_drain(s).state.pending.dom().len() == s.pending.dom().len()
            + s.requests.len(),
        forall|i: int|
            0 <= i < s.requests.len() ==> spec_submission_drain(s).state.pending.contains_key(
                #[trigger] submitted_token(s.next_token, i),
            ) && spec_submission_drain(s).state.pending[submitted_token(s.next_token, i)]
                == s.requests[i],
        forall|t: u16|
            #[trigger] spec_submission_drain(s).state.pending.contains_key(t) ==> (t as int)
                < s.next_token + s.requests.len(),
        forall|t: u16|
            #[trigger] s.pending.contains_key(t) ==> spec_submission_drain(
                s,
            ).state.pending.contains_key(t) && spec_submission_drain(s).state.pending[t]
                == s.pending[t],
    decreases s.requests.len(),
{
    if s.requests.len() == 0 {
        assert(s.inflight + Seq::new(0, |i: int| (s.next_token + i) as u16) =~= s.inflight);
    } else {
        assert(s.pending.dom().len() < QUEUE_SIZE);
        let req = s.requests[0];
        assert(valid_request(req, s.region));
        let token = s.next_token as u16;
        assert(token as int == s.next_token);
        assert(!s.pending.contains_key(token));
        let s1 = LoopState {
            pending: s.pending.insert(token, req),
            requests: s.requests.drop_first(),
            inflight: s.inflight.push(token),
            next_token: s.next_token + 1,
            ..s
        };
        assert(s1.pending.dom() =~= s.pending.dom().insert(token));
        assert forall|i: int| 0 <= i < s1.requests.len() implies valid_request(
            #[trigger] s1.requests[i],
            s1.region,
        ) by {
            assert(s1.requests[i] == s.requests[i + 1]);
        }
        assert forall|t: u16| #[trigger] s1.pending.contains_key(t) implies (t as int)
            < s1.next_token by {
            if t != token {
                assert(s.pending.contains_key(t));
            }
        }
        lemma_submission_drain_submits_all(s1);
        assert(spec_submission_drain(s) == spec_submission_drain(s1));
        assert(spec_submission_drain(s1).state.inflight =~= s.inflight + Seq::new(
            s.requests.len(),
            |i: int| (s.next_token + i) as u16,
        ));
        assert forall|i: int|
            0 <= i < s.requests.len() implies spec_submission_drain(s).state.pending.contains_key(
            #[trigger] submitted_token(s.next_token, i),
        ) && spec_submission_drain(s).state.pending[submitted_token(s.next_token, i)]
            == s.requests[i] by {
            if i == 0 {
                assert(s1.pending.contains_key(token) && s1.pending[token] == req);
                assert(submitted_token(s.next_token, 0) == token);
            } else {
                assert(s1.requests[i - 1] == s.requests[i]);
                assert(spec_submission_drain(s1).state.pending.contains_key(
                    submitted_token(s1.next_token, i - 1),
                ));
                assert(spec_submission_drain(s1).state.pending[submitted_token(
                    s1.next_token,
                    i - 1,
                )] == s1.requests[i - 1]);
                assert(submitted_token(s1.next_token, i - 1) == submitted_token(s.next_token, i));
            }
        }
        assert forall|t: u16|
            #[trigger] s.pending.contains_key(t) implies spec_submission_drain(
            s,
        ).state.pending.contains_key(t) && spec_submission_drain(s).state.pending[t]
            == s.pending[t] by {
            assert(t != token);
            assert(s1.pending.contains_key(t));
            assert(s1.pending[t] == s.pending[t]);
        }
    }
}

/// With every finished operation pending, successful, and room in the
/// completion queue, one completion-path run hands them all back, in
/// order, each as its request completed with success.
pub proof fn lemma_completion_drain_completes_all(s: LoopState)
    requires
        s.pending.dom().finite(),
        forall|i: int, j: int|
            0 <= i < j < s.completed.len() ==> (#[trigger] s.completed[i]).0
                != (#[trigger] s.completed[j]).0,
        forall|i: int| 0 <= i < s.completed.len() ==> (#[trigger] s.completed[i]).1
            == DeviceStatus::Success,
        forall|i: int|
            0 <= i < s.completed.len() ==> s.pending.contains_key((#[trigger] s.completed[i]).0),
        s.completions.len() + s.completed.len() <= s.cap,
    ensures
        spec_completion_drain(s).outcome is Ok,
        spec_completion_drain(s).state.completed.len() == 0,
        spec_completion_drain(s).state.completions == s.completions + Seq::new(
            s.completed.len(),
            |i: int| spec_completed(s.pending[s.completed[i].0]),
        ),
        spec_completion_drain(s).state.pending.dom().finite(),
        spec_completion_drain(s).state.pending.dom().len() == s.pending.dom().len()
            - s.completed.len(),
    decreases s.completed.len(),
{
    if s.completed.len() == 0 {
        assert(s.completions + Seq::new(0, |i: int| spec_completed(s.pending[s.completed[i].0]))
            =~= s.completions);
    } else {
        let token = s.completed[0].0;
        assert(s.completed[0].1 == DeviceStatus::Success);
        assert(s.pending.contains_key(token));
        let record = spec_completed(s.pending[token]);
        let s1 = LoopState {
            pending: s.pending.remove(token),
            completed: s.completed.drop_first(),
            completions: s.completions.push(record),
            ..s
        };
        assert(s1.pending.dom() =~= s.pending.dom().remove(token));
        assert forall|i: int, j: int| 0 <= i < j < s1.completed.len() implies (
        #[trigger] s1.completed[i]).0 != (#[trigger] s1.completed[j]).0 by {
            assert(s1.completed[i] == s.completed[i + 1]);
            assert(s1.completed[j] == s.completed[j + 1]);
        }
        assert forall|i: int| 0 <= i < s1.completed.len() implies (#[trigger] s1.completed[i]).1
            == DeviceStatus::Success by {
            assert(s1.completed[i] == s.completed[i + 1]);
        }
        assert forall|i: int| 0 <= i < s1.completed.len() implies s1.pending.contains_key(
            (#[trigger] s1.completed[i]).0,
        ) by {
            assert(s1.completed[i] == s.completed[i + 1]);
            assert(s.completed[i + 1].0 != token);
        }
        lemma_completion_drain_completes_all(s1);
        assert(spec_completion_drain(s) == spec_completion_drain(s1));
        assert(spec_completion_drain(s1).state.completions =~= s.completions + Seq::new(
            s.completed.len(),
            |i: int| spec_completed(s.pending[s.completed[i].0]),
        )) by {
            let target = Seq::new(
                s.completed.len(),
                |i: int| spec_completed(s.pending[s.completed[i].0]),
            );
            let rest = Seq::new(
                s1.completed.len(),
                |i: int| spec_completed(s1.pending[s1.completed[i].0]),
            );
            assert forall|i: int| 0 <= i < s.completed.len() implies (s.completions.push(record)
                + rest)[s.completions.len() + i] == target[i] by {
                if i > 0 {
                    assert(s1.completed[i - 1] == s.completed[i]);
                    assert(s.completed[i].0 != token);
                    assert(s1.pending[s.completed[i].0] == s.pending[s.completed[i].0]);
                }
            }
        }
    }
}

/// Liveness: starting idle with `N <= QUEUE_SIZE` valid read requests
/// waiting and room for their completions, one trigger submits every
/// request; once the device finishes them all successfully, the next
/// trigger empties the request queue's work into the completion queue:
/// exactly `N` completions, in order, each the original request with
/// status `Success`, and nothing left pending.
pub proof fn lemma_liveness(s: LoopState)
    requires
        s.pending == Map::<u16, BlockIoRequest>::empty(),
        s.inflight.len() == 0,
        s.completed.len() == 0,
        s.completions.len() == 0,
        s.requests.len() <= QUEUE_SIZE,
        s.cap >= s.requests.len(),
        forall|i: int| 0 <= i < s.requests.len() ==> valid_request(#[trigger] s.requests[i], s.region),
        0 <= s.next_token,
        s.next_token + s.requests.len() <= u16::MAX,
    ensures
        spec_handle_trigger(s).outcome is Ok,
        spec_handle_trigger(device_finishes_all(spec_handle_trigger(s).state, DeviceStatus::Success))
            .outcome is Ok,
        ({
            let end = spec_handle_trigger(
                device_finishes_all(spec_handle_trigger(s).state, DeviceStatus::Success),
            ).state;
            &&& end.requests.len() == 0
            &&& end.pending.dom().len() == 0
            &&& end.completions.len() == s.requests.len()
            &&& forall|i: int|
                0 <= i < s.requests.len() ==> end.completions[i] == spec_completed(
                    #[trigger] s.requests[i],
                )
        }),
{
    let n = s.requests.len();
    assert(s.pending.dom() =~= Set::<u16>::empty());
    lemma_completion_path_noop(s);
    lemma_submission_drain_submits_all(s);
    lemma_submission_drain_frame(s);
    let s1 = spec_handle_trigger(s).state;
    assert(s1 == spec_submission_drain(s).state);
    assert(s1.inflight =~= Seq::new(n, |i: int| (s.next_token + i) as u16));
    let s2 = device_finishes_all(s1, DeviceStatus::Success);
    assert(s2.completed =~= Seq::new(
        n,
        |i: int| (((s.next_token + i) as u16), DeviceStatus::Success),
    ));
    assert forall|i: int, j: int| 0 <= i < j < s2.completed.len() implies (
    #[trigger] s2.completed[i]).0 != (#[trigger] s2.completed[j]).0 by {
        assert(((s.next_token + i) as u16) as int == s.next_token + i);
        assert(((s.next_token + j) as u16) as int == s.next_token + j);
    }
    assert forall|i: int| 0 <= i < s2.completed.len() implies s2.pending.contains_key(
        (#[trigger] s2.completed[i]).0,
    ) by {
        assert(s2.completed[i].0 == (s.next_token + i) as u16);
        assert(submitted_token(s.next_token, i) == (s.next_token + i) as u16);
        assert(s1.pending.contains_key(submitted_token(s.next_token, i)));
    }
    lemma_completion_drain_completes_all(s2);
    lemma_completion_drain_frame(s2);
    let s3 = spec_completion_drain(s2).state;
    lemma_submission_path_noop(s3);
    let end = spec_handle_trigger(s2).state;
    assert(end == s3);
    assert forall|i: int| 0 <= i < n implies end.completions[i] == spec_completed(
        #[trigger] s.requests[i],
    ) by {
        assert(s2.completed[i].0 == (s.next_token + i) as u16);
        assert(submitted_token(s.next_token, i) == (s.next_token + i) as u16);
        assert(s2.pending.contains_key(submitted_token(s.next_token, i)));
        assert(s2.pending[submitted_token(s.next_token, i)] == s.requests[i]);
        assert(end.completions == s2.completions + Seq::new(
            s2.completed.len(),
            |k: int| spec_completed(s2.pending[s2.completed[k].0]),
        ));
        assert(s2.completions.len() == 0);
    }
}

} // verus!
