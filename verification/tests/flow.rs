use tonic_shmsc::body::{status_of_reset, BodyEvent, BodyItem, Code, ShmBody, Status};
use tonic_shmsc::conn::{
    doorbell, flush_step, rearm_after_park, BellRead, BellStep, CloseReason, ConnIo, FlushStep,
    SpinBudget, Wait, WaitEvent, WaitState, MAX_PENDING_PING_ACKS,
};
use tonic_shmsc::control::decode_window_update;
use tonic_shmsc::flow::{RecvCredit, SendWindow};
use tonic_shmsc::frame::RstCode;
use bytes::Bytes;
use http::{HeaderMap, HeaderValue};

#[test]
fn window_gives_what_it_has() {
    let mut w = SendWindow::new(10);
    assert_eq!(w.acquire(4), Some(4));
    assert_eq!(w.acquire(100), Some(6));
    assert_eq!(w.acquire(1), None);
    w.add(5);
    assert_eq!(w.acquire(3), Some(3));
    assert_eq!(w.avail, 2);
}

#[test]
fn consumed_bytes_are_granted_back_at_the_threshold() {
    let mut c = RecvCredit::new(7, 4096);
    assert!(c.on_data(4096));
    assert!(c.on_consumed(1023).is_none());
    let g = c.on_consumed(1).unwrap();
    assert_eq!(g.stream_id, 7);
    assert_eq!(decode_window_update(g.payload).unwrap(), 1024);
    assert_eq!(c.pending_grant, 0);
    assert_eq!(c.outstanding, 4096 - 1024);
}

#[test]
fn overrun_is_seen() {
    let mut c = RecvCredit::new(1, 1024);
    assert!(c.on_data(1024));
    assert!(!c.on_data(1));
    let mut c = RecvCredit::new(1, 1024);
    assert!(!c.on_data(1025));
    // Consumed bytes make room.
    let mut c = RecvCredit::new(1, 1024);
    assert!(c.on_data(1000));
    assert!(c.on_consumed(1000).is_some());
    assert!(c.on_data(1024));
}

#[test]
fn credit_goes_round() {
    let mut w = SendWindow::new(4096);
    let mut c = RecvCredit::new(1, 4096);
    // A sender that keeps to its window never overruns and never starves.
    let mut total = 0u64;
    for _ in 0..1000 {
        let n = w.acquire(700).unwrap();
        assert!(c.on_data(n));
        total += n as u64;
        if let Some(g) = c.on_consumed(n) {
            w.add(decode_window_update(g.payload).unwrap());
        }
        assert_eq!(w.avail + c.pending_grant + c.outstanding, 4096);
    }
    assert!(total > 100_000);
}

#[test]
fn first_close_reason_stays() {
    let mut io = ConnIo::new();
    assert!(!io.is_closed());
    assert!(io.close(CloseReason::PeerGone));
    assert!(!io.close(CloseReason::Local));
    assert!(io.is_closed());
    assert!(matches!(io.close_reason(), CloseReason::PeerGone));
}

#[test]
fn ping_acks_are_bounded() {
    let mut io = ConnIo::new();
    for _ in 0..MAX_PENDING_PING_ACKS {
        assert!(io.queue_ping_ack());
    }
    assert!(!io.queue_ping_ack());
    io.ping_ack_written();
    assert!(io.queue_ping_ack());
    assert!(!io.queue_ping_ack());
}

#[test]
fn doorbell_sees_a_dead_peer() {
    let mut io = ConnIo::new();
    assert_eq!(doorbell(&mut io, BellRead::Bytes), BellStep::ReadOn);
    assert_eq!(doorbell(&mut io, BellRead::Empty), BellStep::Wake);
    assert!(!io.is_closed());
    assert_eq!(doorbell(&mut io, BellRead::End), BellStep::Stop);
    assert!(matches!(io.close_reason(), CloseReason::PeerGone));
    let mut io = ConnIo::new();
    assert_eq!(
        doorbell(&mut io, BellRead::Failed("broken".to_string())),
        BellStep::Stop
    );
    assert!(io.close_reason().display().contains("broken"));
}

#[test]
fn spinning_is_adaptive() {
    let mut s = SpinBudget::new(50);
    s.armed = false;
    rearm_after_park(&mut s, 50);
    assert!(!s.armed);
    rearm_after_park(&mut s, 49);
    assert!(s.armed);
    let mut off = SpinBudget::new(0);
    assert!(!off.armed);
    rearm_after_park(&mut off, 0);
    assert!(!off.armed);
}

#[test]
fn wait_parks_and_wakes() {
    // Without a spin budget: ask, park, ask again, sleep, wake.
    let mut w = Wait::begin(SpinBudget::new(0));
    assert_eq!(w.state, WaitState::Asking);
    w.step(WaitEvent::IsClosed(false));
    assert_eq!(w.state, WaitState::Parking);
    w.step(WaitEvent::Looked(false, 0));
    assert_eq!(w.state, WaitState::Parked);
    w.step(WaitEvent::IsClosed(false));
    assert_eq!(w.state, WaitState::Asleep);
    w.step(WaitEvent::Woke(true, 10));
    assert_eq!(w.state, WaitState::Ready);

    // Data that came while the flag was set keeps it from sleeping.
    let mut w = Wait::begin(SpinBudget::new(0));
    w.step(WaitEvent::IsClosed(false));
    w.step(WaitEvent::Looked(true, 0));
    assert_eq!(w.state, WaitState::Ready);

    // A close ends the wait.
    let mut w = Wait::begin(SpinBudget::new(0));
    w.step(WaitEvent::IsClosed(true));
    assert_eq!(w.state, WaitState::Closed);

    // An armed spin that hits ends it at once.
    let mut w = Wait::begin(SpinBudget::new(5));
    assert_eq!(w.state, WaitState::Spinning);
    w.step(WaitEvent::Spun(true));
    assert_eq!(w.state, WaitState::Ready);
}

#[test]
fn flush_steps() {
    assert_eq!(flush_step(true, true), FlushStep::Abandon);
    assert_eq!(flush_step(false, true), FlushStep::Flushed);
    assert_eq!(flush_step(false, false), FlushStep::Nudge);
    let mut io = ConnIo::new();
    assert!(!io.is_graceful());
    io.request_flush();
    assert!(io.is_graceful());
}

#[test]
fn body_ends_with_its_trailers() {
    let mut body = ShmBody::new(true);
    assert!(!body.is_end_stream());
    match body.poll(Some(Ok(BodyEvent::Data(Bytes::from_static(b"abc"))))) {
        BodyItem::Data(b) => assert_eq!(&b[..], b"abc"),
        _ => panic!("data expected"),
    }
    assert!(body.resets_on_drop());
    let mut hm = HeaderMap::new();
    hm.append("grpc-status", HeaderValue::from_static("0"));
    match body.poll(Some(Ok(BodyEvent::Trailers(hm)))) {
        BodyItem::Trailers(t) => assert_eq!(t.get("grpc-status").unwrap(), "0"),
        _ => panic!("trailers expected"),
    }
    assert!(!body.resets_on_drop());
}

#[test]
fn body_fails_with_its_status() {
    let mut body = ShmBody::new(true);
    let status = Status::new(Code::Unavailable, "gone");
    match body.poll(Some(Err(status))) {
        BodyItem::Failed(s) => {
            assert_eq!(s.code, Code::Unavailable);
            assert_eq!(s.message, "gone");
        }
        _ => panic!("failure expected"),
    }
    assert!(!body.resets_on_drop());
    let mut body = ShmBody::new(true);
    assert!(matches!(body.poll(None), BodyItem::End));
    assert!(!body.resets_on_drop());
    let mut empty = ShmBody::empty();
    assert!(empty.is_end_stream());
    assert!(!empty.resets_on_drop());
    assert!(matches!(
        empty.poll(Some(Ok(BodyEvent::Data(Bytes::new())))),
        BodyItem::End
    ));
    // A request body never resets its stream.
    assert!(!ShmBody::new(false).resets_on_drop());
}

#[test]
fn reset_statuses() {
    assert_eq!(status_of_reset(RstCode::Cancel).code, Code::Cancelled);
    assert_eq!(status_of_reset(RstCode::Refused).code, Code::Unavailable);
    assert_eq!(status_of_reset(RstCode::Internal).code, Code::Internal);
    assert_eq!(Code::Cancelled.value(), 1);
    assert_eq!(Code::Internal.value(), 13);
    assert_eq!(Code::Unavailable.value(), 14);
}
