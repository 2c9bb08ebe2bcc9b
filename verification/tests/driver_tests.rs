use virtio_blk_driver::block_io::{BlockIoRequest, DeviceStatus, RequestKind, RequestStatus};
use virtio_blk_driver::dma::{translate_buffer, DmaRegion};
use virtio_blk_driver::driver::Driver;
use virtio_blk_driver::error::FatalError;
use virtio_blk_driver::pending::{PendingTable, QUEUE_SIZE};

fn region() -> DmaRegion {
    DmaRegion { paddr: 0x10_0000, size: 0x1_0000 }
}

fn read_at(block_id: u64, offset: usize, len: u32) -> BlockIoRequest {
    BlockIoRequest::read(block_id, region().paddr + offset, len)
}

#[test]
fn translation_maps_offset_and_keeps_length() {
    let req = read_at(5, 0x200, 512);
    let range = translate_buffer(req.buf, region()).unwrap();
    assert_eq!(range.start, 0x200);
    assert_eq!(range.len, 512);
}

#[test]
fn translation_at_region_start_and_end() {
    let start = translate_buffer(read_at(0, 0, 512).buf, region()).unwrap();
    assert_eq!(start.start, 0);
    let end = translate_buffer(read_at(0, 0x1_0000 - 512, 512).buf, region()).unwrap();
    assert_eq!(end.start, 0x1_0000 - 512);
    assert_eq!(end.len, 512);
}

#[test]
fn translation_rejects_address_below_region() {
    let req = BlockIoRequest::read(0, region().paddr - 1, 16);
    assert_eq!(
        translate_buffer(req.buf, region()),
        Err(FatalError::BufferOutOfRegion)
    );
}

#[test]
fn translation_rejects_range_past_region_end() {
    let req = read_at(0, 0x1_0000 - 511, 512);
    assert_eq!(
        translate_buffer(req.buf, region()),
        Err(FatalError::BufferOutOfRegion)
    );
}

#[test]
fn translation_rejects_far_out_address() {
    let req = BlockIoRequest::read(0, usize::MAX, 512);
    assert_eq!(
        translate_buffer(req.buf, region()),
        Err(FatalError::BufferOutOfRegion)
    );
}

#[test]
fn pending_table_insert_then_remove() {
    let mut table = PendingTable::new();
    assert_eq!(table.len(), 0);
    let req = read_at(7, 0, 512);
    table.insert(3, req).unwrap();
    assert_eq!(table.len(), 1);
    assert!(table.contains(3));
    assert!(!table.contains(4));
    let back = table.remove(3).unwrap();
    assert_eq!(back, req);
    assert_eq!(table.len(), 0);
}

#[test]
fn pending_table_rejects_duplicate_token() {
    let mut table = PendingTable::new();
    table.insert(9, read_at(1, 0, 512)).unwrap();
    let second = table.insert(9, read_at(2, 512, 512));
    assert_eq!(second, Err(FatalError::DuplicateToken));
    assert_eq!(table.len(), 1);
    assert_eq!(table.remove(9).unwrap().block_id, 1);
}

#[test]
fn pending_table_token_removed_exactly_once() {
    let mut table = PendingTable::new();
    table.insert(2, read_at(1, 0, 512)).unwrap();
    assert!(table.remove(2).is_ok());
    assert_eq!(table.remove(2), Err(FatalError::UnknownToken));
    assert_eq!(table.len(), 0);
}

#[test]
fn pending_table_never_grows_past_queue_size() {
    let mut table = PendingTable::new();
    for i in 0..QUEUE_SIZE {
        table.insert(i as u16, read_at(i as u64, i * 512, 512)).unwrap();
    }
    assert_eq!(table.len(), QUEUE_SIZE);
}

#[test]
fn driver_prepares_valid_read() {
    let driver = Driver::new(region());
    let req = read_at(5, 0x400, 512);
    let job = driver.prepare_submission(req).unwrap();
    assert_eq!(job.request, req);
    assert_eq!(job.local.start, 0x400);
    assert_eq!(job.local.len, 512);
}

#[test]
fn driver_rejects_unsupported_kind() {
    let driver = Driver::new(region());
    let mut req = read_at(5, 0, 512);
    req.kind = RequestKind::Write;
    assert_eq!(
        driver.prepare_submission(req),
        Err(FatalError::UnsupportedRequestKind)
    );
}

#[test]
fn driver_rejects_buffer_outside_region() {
    let driver = Driver::new(region());
    let req = BlockIoRequest::read(5, region().paddr + region().size, 512);
    assert_eq!(
        driver.prepare_submission(req),
        Err(FatalError::BufferOutOfRegion)
    );
}

#[test]
fn driver_detects_duplicate_token() {
    let mut driver = Driver::new(region());
    let job = driver.prepare_submission(read_at(1, 0, 512)).unwrap();
    driver.record_submission(job, 0).unwrap();
    let job2 = driver.prepare_submission(read_at(2, 512, 512)).unwrap();
    assert_eq!(
        driver.record_submission(job2, 0),
        Err(FatalError::DuplicateToken)
    );
}

#[test]
fn driver_completion_round_trip() {
    let mut driver = Driver::new(region());
    let req = read_at(5, 0, 512);
    let job = driver.prepare_submission(req).unwrap();
    driver.record_submission(job, 0).unwrap();
    let completion = driver.begin_completion(0).unwrap();
    assert_eq!(completion.request, req);
    assert_eq!(completion.local.start, 0);
    assert_eq!(completion.local.len, 512);
    let record = completion.finish(DeviceStatus::Success).unwrap();
    assert_eq!(record.status, RequestStatus::Success);
    assert_eq!(record.block_id, 5);
}

#[test]
fn driver_second_completion_of_same_token_fails() {
    let mut driver = Driver::new(region());
    let job = driver.prepare_submission(read_at(5, 0, 512)).unwrap();
    driver.record_submission(job, 11).unwrap();
    assert!(driver.begin_completion(11).is_ok());
    assert_eq!(driver.begin_completion(11), Err(FatalError::UnknownToken));
}

#[test]
fn driver_completion_of_unknown_token_fails() {
    let mut driver = Driver::new(region());
    assert_eq!(driver.begin_completion(42), Err(FatalError::UnknownToken));
}

#[test]
fn finish_maps_every_device_failure_to_fatal() {
    let mut driver = Driver::new(region());
    let job = driver.prepare_submission(read_at(5, 0, 512)).unwrap();
    driver.record_submission(job, 0).unwrap();
    let completion = driver.begin_completion(0).unwrap();
    assert_eq!(
        completion.finish(DeviceStatus::IoErr),
        Err(FatalError::DeviceFailure(DeviceStatus::IoErr))
    );
}

#[test]
fn request_constructors_fill_every_field() {
    let req = BlockIoRequest::read(5, 0x2000, 512);
    assert_eq!(req.kind, RequestKind::Read);
    assert_eq!(req.block_id, 5);
    assert_eq!(req.buf.encoded_addr, 0x2000);
    assert_eq!(req.buf.len, 512);
    assert_eq!(req.status, RequestStatus::Pending);
    let done = req.with_status(RequestStatus::Success);
    assert_eq!(done.status, RequestStatus::Success);
    assert_eq!(done.block_id, 5);
}
