use bytes::Bytes;
use http::{HeaderMap, HeaderValue};
use tonic_shmsc::block::encode_header_block;
use tonic_shmsc::body::{BodyEvent, BodyItem, Code, ShmBody};
use tonic_shmsc::client::{
    request_path, Acquire, ClientAction, ClientConn, HeadResult, PendingStreamGuard, Queue,
    MAX_STREAM_ID,
};
use tonic_shmsc::conn::CloseReason;
use tonic_shmsc::control::{decode_rst, encode_goaway, encode_rst, encode_window_update};
use tonic_shmsc::frame::{Frame, FrameType, RstCode, FLAG_ACK, FLAG_END_STREAM};
use tonic_shmsc::writer::WriteOp;

fn frame(typ: FrameType, flags: u8, stream_id: u32, payload: Bytes) -> Frame {
    Frame { typ, flags, stream_id, payload }
}

fn head(id: u32, flags: u8) -> Frame {
    let b = encode_header_block(None, None, Some(200), &HeaderMap::new());
    frame(FrameType::Headers, flags, id, b)
}

fn open(c: &mut ClientConn) -> u32 {
    c.open_stream("/p", Some("h"), &HeaderMap::new()).unwrap().0
}

fn fed(c: &mut ClientConn, f: Frame) -> Vec<ClientAction> {
    let mut out = Vec::new();
    c.handle_frame(f, &mut out).unwrap();
    out
}

fn failed(c: &mut ClientConn, f: Frame) -> String {
    let mut out = Vec::new();
    c.handle_frame(f, &mut out).unwrap_err().0
}

fn frame_of(op: WriteOp) -> Frame {
    op.into_frame()
}

#[test]
fn ids_are_odd_and_increase() {
    let mut c = ClientConn::new(4096, 4096);
    assert_eq!(open(&mut c), 1);
    assert_eq!(open(&mut c), 3);
    let (id, op) = c.open_stream("/q", None, &HeaderMap::new()).unwrap();
    assert_eq!(id, 5);
    let f = frame_of(op);
    assert_eq!(f.typ, FrameType::Headers);
    assert_eq!(f.stream_id, 5);
    assert_eq!(f.payload, encode_header_block(Some("/q"), None, None, &HeaderMap::new()));
}

#[test]
fn ids_run_out() {
    let mut c = ClientConn::new(4096, 4096);
    c.next_id = MAX_STREAM_ID;
    assert_eq!(open(&mut c), MAX_STREAM_ID);
    let e = c.open_stream("/p", None, &HeaderMap::new()).unwrap_err();
    assert_eq!(e.message, "shmsc connection exhausted stream ids");
    assert!(c.io.is_closed());
}

#[test]
fn response_goes_to_its_call() {
    let mut c = ClientConn::new(4096, 4096);
    let id = open(&mut c);
    match &fed(&mut c, head(id, 0))[..] {
        [ClientAction::Head { id: i, status: 200, end_stream: false, .. }] => assert_eq!(*i, id),
        other => panic!("{other:?}"),
    }
    match &fed(&mut c, frame(FrameType::Data, 0, id, Bytes::from_static(b"abc")))[..] {
        [ClientAction::Data { payload, .. }] => assert_eq!(&payload[..], b"abc"),
        other => panic!("{other:?}"),
    }
    assert_eq!(c.outstanding(id), Some(3));
    let mut hm = HeaderMap::new();
    hm.append("grpc-status", HeaderValue::from_static("0"));
    let t = encode_header_block(None, None, None, &hm);
    let out = fed(&mut c, frame(FrameType::Trailers, FLAG_END_STREAM, id, t));
    assert!(matches!(out[0], ClientAction::Trailers { .. }));
    assert!(matches!(out[1], ClientAction::Remove { .. }));
    // What still comes for it is ignored.
    assert!(fed(&mut c, frame(FrameType::Data, 0, id, Bytes::from_static(b"x"))).is_empty());
}

#[test]
fn violations() {
    let mut c = ClientConn::new(4096, 4096);
    let id = open(&mut c);
    let t = encode_header_block(None, None, None, &HeaderMap::new());
    assert_eq!(
        failed(&mut c, frame(FrameType::Trailers, FLAG_END_STREAM, id, t)),
        "TRAILERS before HEADERS"
    );
    let mut c = ClientConn::new(4096, 4096);
    let id = open(&mut c);
    fed(&mut c, head(id, 0));
    let _ = failed(&mut c, head(id, 0));
    let over = vec![0u8; (1 << 24) - 1];
    let mut seen = 0;
    let mut out = Vec::new();
    while c
        .handle_frame(frame(FrameType::Data, 0, id, Bytes::from(over.clone())), &mut out)
        .is_ok()
    {
        seen += 1;
        assert!(seen < 10);
    }
}

#[test]
fn violation_closes_and_fails_everything() {
    let mut c = ClientConn::new(4096, 4096);
    let a = open(&mut c);
    let b = open(&mut c);
    fed(&mut c, head(a, 0));
    let mut out = Vec::new();
    assert!(!c.on_frame(frame(FrameType::RstStream, 0, a, Bytes::new()), &mut out));
    assert!(c.io.is_closed());
    match &out[..] {
        [ClientAction::BodyFailed { id: i, status: s }, ClientAction::Remove { .. }, ClientAction::HeadFailed { id: j, status: t }, ClientAction::Remove { .. }] =>
        {
            assert_eq!((*i, *j), (a, b));
            assert_eq!(s.code, Code::Unavailable);
            assert_eq!(t.message, "shmsc connection lost: protocol error: short RST_STREAM");
        }
        other => panic!("{other:?}"),
    }
    assert!(c.poll_ready().is_err());
}

#[test]
fn end_of_ring_fails_everything() {
    let mut c = ClientConn::new(4096, 4096);
    open(&mut c);
    let mut out = Vec::new();
    c.on_read_failed(CloseReason::PeerGone, &mut out);
    assert_eq!(out.len(), 2);
    assert!(c.io.is_closed());
}

#[test]
fn resets_fail_the_stream() {
    for (code, want) in [
        (RstCode::Cancel, Code::Cancelled),
        (RstCode::Refused, Code::Unavailable),
        (RstCode::Internal, Code::Internal),
    ] {
        let mut c = ClientConn::new(4096, 4096);
        let id = open(&mut c);
        match &fed(&mut c, frame(FrameType::RstStream, 0, id, encode_rst(code)))[..] {
            [ClientAction::HeadFailed { status, .. }, ClientAction::Remove { .. }] => {
                assert_eq!(status.code, want)
            }
            other => panic!("{other:?}"),
        }
    }
}

#[test]
fn goaway_spares_accepted_streams() {
    let mut c = ClientConn::new(4096, 4096);
    for _ in 0..3 {
        open(&mut c);
    }
    let out = fed(&mut c, frame(FrameType::GoAway, 0, 0, encode_goaway(3, "bye")));
    match &out[..] {
        [ClientAction::HeadFailed { id: 5, status }, ClientAction::Remove { id: 5 }] => {
            assert_eq!(status.message, "connection draining (GOAWAY): bye");
        }
        other => panic!("{other:?}"),
    }
    assert_eq!(
        c.open_stream("/p", None, &HeaderMap::new()).unwrap_err().message,
        "shmsc connection is draining (GOAWAY)"
    );
    // The others go on.
    assert_eq!(fed(&mut c, head(3, 0)).len(), 1);
}

#[test]
fn pings_are_answered() {
    let mut c = ClientConn::new(4096, 4096);
    let ping = |flags| frame(FrameType::Ping, flags, 0, Bytes::from_static(b"12345678"));
    match fed(&mut c, ping(0)).pop() {
        Some(ClientAction::Control(op)) => {
            let f = frame_of(op);
            assert_eq!(f.typ, FrameType::Ping);
            assert_eq!(f.flags, FLAG_ACK);
            assert_eq!(&f.payload[..], b"12345678");
        }
        other => panic!("{other:?}"),
    }
    assert!(fed(&mut c, ping(FLAG_ACK)).is_empty());
}

#[test]
fn ping_flood_fails_the_connection() {
    let mut c = ClientConn::new(4096, 4096);
    let ping = || frame(FrameType::Ping, 0, 0, Bytes::new());
    for _ in 0..tonic_shmsc::conn::MAX_PENDING_PING_ACKS {
        fed(&mut c, ping());
    }
    assert_eq!(failed(&mut c, ping()), "peer flooded unacknowledged PINGs");
}

#[test]
fn credit_is_taken_and_returned() {
    let mut c = ClientConn::new(10, 4096);
    let id = open(&mut c);
    assert_eq!(c.acquire(id, 7), Acquire::Granted(7));
    assert_eq!(c.acquire(id, 7), Acquire::Granted(3));
    assert_eq!(c.acquire(id, 7), Acquire::Wait);
    let out = fed(&mut c, frame(FrameType::WindowUpdate, 0, id, encode_window_update(4)));
    assert!(matches!(out[0], ClientAction::WindowOpened { .. }));
    assert_eq!(c.acquire(id, 7), Acquire::Granted(4));
    assert_eq!(c.acquire(99, 1), Acquire::Stop);
    // A response of five bytes is granted back when it is consumed.
    fed(&mut c, head(id, 0));
    fed(&mut c, frame(FrameType::Data, 0, id, Bytes::from_static(b"12345")));
    let f = frame_of(c.on_consumed(id, 5).unwrap());
    assert_eq!(f.typ, FrameType::WindowUpdate);
    assert_eq!(f.payload, encode_window_update(5));
    assert_eq!(c.outstanding(id), Some(0));
}

#[test]
fn cancelled_call_resets_behind_its_headers() {
    let mut c = ClientConn::new(4096, 4096);
    let id = open(&mut c);
    let guard = PendingStreamGuard::new(id);
    let (q, op) = c.guard_dropped(&guard, true).unwrap();
    assert_eq!(q, Queue::Data);
    let f = frame_of(op);
    assert_eq!(f.typ, FrameType::RstStream);
    assert_eq!(decode_rst(f.payload).unwrap(), RstCode::Cancel);
    assert!(fed(&mut c, head(id, 0)).is_empty());
    let (q, _) = c.guard_dropped(&guard, false).unwrap();
    assert_eq!(q, Queue::Control);
}

#[test]
fn response_body_takes_over_from_the_guard() {
    let mut c = ClientConn::new(4096, 4096);
    let id = open(&mut c);
    let mut guard = PendingStreamGuard::new(id);
    let parts = c
        .finish_call(
            &mut guard,
            HeadResult::Head { status: 200, headers: HeaderMap::new(), end_stream: false },
        )
        .unwrap();
    assert!(c.guard_dropped(&guard, true).is_none());
    // Dropped before its end, the body gives the stream up.
    let f = frame_of(c.body_dropped(id, &parts.body).unwrap());
    assert_eq!(f.typ, FrameType::RstStream);
    assert_eq!(c.outstanding(id), None);

    let id = open(&mut c);
    let mut guard = PendingStreamGuard::new(id);
    let parts = c
        .finish_call(
            &mut guard,
            HeadResult::Head { status: 200, headers: HeaderMap::new(), end_stream: true },
        )
        .unwrap();
    assert!(parts.body.is_end_stream());
    let e = c.finish_call(&mut guard, HeadResult::Gone).unwrap_err();
    assert_eq!(e.code, Code::Unavailable);
}

#[test]
fn pump_of_a_finished_stream_is_stopped() {
    let mut c = ClientConn::new(4096, 4096);
    let id = open(&mut c);
    assert!(c.pump_started(id));
    let s = c.open_failed(id);
    assert_eq!(s.code, Code::Unavailable);
    assert!(!c.pump_started(id));
}

#[test]
fn request_paths() {
    assert_eq!(request_path(Some("/a?b".to_string()), "/a".to_string()), "/a?b");
    assert_eq!(request_path(None, "/a".to_string()), "/a");
}

#[test]
fn reading_a_body_grants_credit() {
    let mut c = ClientConn::new(10, 4096);
    let id = open(&mut c);
    fed(&mut c, head(id, 0));
    fed(&mut c, frame(FrameType::Data, 0, id, Bytes::from_static(b"1234567")));
    let mut body = ShmBody::new(true);
    let (item, op) = c.read_body(
        id,
        &mut body,
        Some(Ok(BodyEvent::Data(Bytes::from_static(b"1234567")))),
    );
    assert!(matches!(item, BodyItem::Data(_)));
    assert_eq!(frame_of(op.unwrap()).payload, encode_window_update(7));
    assert_eq!(c.outstanding(id), Some(0));
    let (item, op) = c.read_body(id, &mut body, None);
    assert!(matches!(item, BodyItem::End));
    assert!(op.is_none());
    assert!(c.body_dropped(id, &body).is_none());
}
