use virtio_blk_driver::block_io::{BlockIoRequest, DeviceStatus, RequestKind, RequestStatus};
use virtio_blk_driver::dma::DmaRegion;
use virtio_blk_driver::error::FatalError;
use virtio_blk_driver::event_loop::System;
use virtio_blk_driver::pending::QUEUE_SIZE;

fn region() -> DmaRegion {
    DmaRegion { paddr: 0x10_0000, size: 0x1_0000 }
}

fn read_at(block_id: u64, offset: usize, len: u32) -> BlockIoRequest {
    BlockIoRequest::read(block_id, region().paddr + offset, len)
}

#[test]
fn scenario_one_read_completes_with_success() {
    let requests = vec![read_at(5, 0, 512)];
    let mut sys = System::new(region(), requests, 8, 0);
    assert_eq!(sys.handle_trigger(), Ok(true));
    sys.device_progress(DeviceStatus::Success);
    assert_eq!(sys.handle_trigger(), Ok(true));
    assert_eq!(sys.completions.len(), 1);
    let done = sys.completions.entry(0);
    assert_eq!(done.block_id, 5);
    assert_eq!(done.status, RequestStatus::Success);
    assert!(sys.requests.is_empty());
    assert_eq!(sys.driver.pending.len(), 0);
}

#[test]
fn scenario_fifth_request_waits_for_a_free_slot() {
    let requests: Vec<BlockIoRequest> =
        (0..5).map(|i| read_at(i as u64, i * 512, 512)).collect();
    let mut sys = System::new(region(), requests, 8, 0);

    assert_eq!(sys.handle_trigger(), Ok(true));
    assert_eq!(sys.driver.pending.len(), QUEUE_SIZE);
    assert!(!sys.requests.is_empty());
    assert_eq!(sys.completions.len(), 0);

    sys.device_progress(DeviceStatus::Success);
    assert_eq!(sys.handle_trigger(), Ok(true));
    assert_eq!(sys.completions.len(), QUEUE_SIZE);
    assert!(sys.requests.is_empty());
    assert_eq!(sys.driver.pending.len(), 1);

    sys.device_progress(DeviceStatus::Success);
    assert_eq!(sys.handle_trigger(), Ok(true));
    assert_eq!(sys.completions.len(), 5);
    assert_eq!(sys.driver.pending.len(), 0);
}

#[test]
fn one_freed_slot_admits_exactly_one_waiting_request() {
    let requests: Vec<BlockIoRequest> =
        (0..5).map(|i| read_at(i as u64, i * 512, 512)).collect();
    let mut sys = System::new(region(), requests, 8, 0);
    assert_eq!(sys.handle_trigger(), Ok(true));
    assert_eq!(sys.driver.pending.len(), QUEUE_SIZE);
    assert!(!sys.requests.is_empty());

    // The device finishes a single operation: the next trigger hands
    // one completion back and the slot it freed admits the fifth
    // request — the table is full again.
    sys.device.complete_next(DeviceStatus::Success);
    assert_eq!(sys.handle_trigger(), Ok(true));
    assert_eq!(sys.completions.len(), 1);
    assert_eq!(sys.driver.pending.len(), QUEUE_SIZE);
    assert!(sys.requests.is_empty());
}

#[test]
fn scenario_write_request_is_a_fatal_protocol_violation() {
    let mut bad = read_at(3, 0, 512);
    bad.kind = RequestKind::Write;
    let mut sys = System::new(region(), vec![bad], 8, 0);
    assert_eq!(sys.handle_trigger(), Err(FatalError::UnsupportedRequestKind));
    assert_eq!(sys.driver.pending.len(), 0);
    assert_eq!(sys.completions.len(), 0);
}

#[test]
fn trigger_without_work_is_a_noop() {
    let mut sys = System::new(region(), Vec::new(), 8, 0);
    assert_eq!(sys.handle_trigger(), Ok(false));
    assert_eq!(sys.driver.pending.len(), 0);
    assert_eq!(sys.completions.len(), 0);
    assert!(sys.requests.is_empty());
}

#[test]
fn trigger_with_full_table_submits_nothing() {
    let requests: Vec<BlockIoRequest> =
        (0..5).map(|i| read_at(i as u64, i * 512, 512)).collect();
    let mut sys = System::new(region(), requests, 8, 0);
    assert_eq!(sys.handle_trigger(), Ok(true));
    // The table is full and nothing has completed: the next trigger
    // neither submits nor completes anything.
    assert_eq!(sys.handle_trigger(), Ok(false));
    assert_eq!(sys.driver.pending.len(), QUEUE_SIZE);
    assert!(!sys.requests.is_empty());
}

#[test]
fn every_queued_request_is_eventually_completed_in_order() {
    let requests: Vec<BlockIoRequest> =
        (0..3).map(|i| read_at(10 + i as u64, i * 1024, 1024)).collect();
    let mut sys = System::new(region(), requests.clone(), 8, 100);
    assert_eq!(sys.handle_trigger(), Ok(true));
    sys.device_progress(DeviceStatus::Success);
    assert_eq!(sys.handle_trigger(), Ok(true));
    assert!(sys.requests.is_empty());
    assert_eq!(sys.completions.len(), 3);
    for (i, req) in requests.iter().enumerate() {
        let done = sys.completions.entry(i);
        assert_eq!(done.block_id, req.block_id);
        assert_eq!(done.buf, req.buf);
        assert_eq!(done.status, RequestStatus::Success);
    }
}

#[test]
fn device_reported_error_is_fatal() {
    let mut sys = System::new(region(), vec![read_at(5, 0, 512)], 8, 0);
    assert_eq!(sys.handle_trigger(), Ok(true));
    sys.device_progress(DeviceStatus::IoErr);
    assert_eq!(
        sys.handle_trigger(),
        Err(FatalError::DeviceFailure(DeviceStatus::IoErr))
    );
}

#[test]
fn full_completion_queue_is_fatal() {
    let mut sys = System::new(region(), vec![read_at(5, 0, 512)], 0, 0);
    assert_eq!(sys.handle_trigger(), Ok(true));
    sys.device_progress(DeviceStatus::Success);
    assert_eq!(sys.handle_trigger(), Err(FatalError::CompletionQueueFull));
}
