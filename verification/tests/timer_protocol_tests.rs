use virtio_blk_driver::timer_protocol::{NowResponse, Request};

#[test]
fn timer_requests_carry_their_payloads() {
    let now = Request::Now;
    assert!(matches!(now, Request::Now));
    let set = Request::SetTimeout { relative_micros: 1_500_000 };
    match set {
        Request::SetTimeout { relative_micros } => assert_eq!(relative_micros, 1_500_000),
        _ => panic!("wrong variant"),
    }
    let clear = Request::ClearTimeout;
    assert!(matches!(clear, Request::ClearTimeout));
}

#[test]
fn now_response_carries_the_time() {
    let resp = NowResponse { micros: 42 };
    assert_eq!(resp.micros, 42);
}
