use bytes::{Bytes, BytesMut};
use http::{HeaderMap, HeaderValue};
use tonic_shmsc::block::{decode_header_block, encode_header_block};
use tonic_shmsc::body::{BodyEvent, BodyItem, ShmBody};
use tonic_shmsc::client::Acquire;
use tonic_shmsc::conn::CloseReason;
use tonic_shmsc::control::{decode_goaway, decode_rst, encode_rst, encode_window_update};
use tonic_shmsc::frame::{
    Frame, FrameParser, FrameType, RstCode, FLAG_ACK, FLAG_END_STREAM, FRAME_HDR_SIZE,
};
use tonic_shmsc::pump::{
    response_head, send_trailers, status_trailers, OutItem, Pump, PumpStep,
};
use tonic_shmsc::raw_peer::{raw_frame, raw_open, shows_close, RawPeer};
use tonic_shmsc::conn::BellRead;
use tonic_shmsc::ring::Consumer;
use tonic_shmsc::seg::{Layout, Segment};
use tonic_shmsc::server::{DrainStep, ServerAction, ServerConn, ShmscConnectInfo};

const INFO: ShmscConnectInfo = ShmscConnectInfo { peer_pid: Some(42), peer_uid: Some(7) };

fn conn(max_streams: Option<u32>) -> ServerConn {
    ServerConn::new(4096, 4096, max_streams, INFO)
}

fn frame(typ: FrameType, flags: u8, stream_id: u32, payload: Bytes) -> Frame {
    Frame { typ, flags, stream_id, payload }
}

fn open(id: u32) -> Frame {
    let b = encode_header_block(Some("/s.S/M"), Some("localhost"), None, &HeaderMap::new());
    frame(FrameType::Headers, 0, id, b)
}

fn fed(c: &mut ServerConn, f: Frame) -> Vec<ServerAction> {
    let mut out = Vec::new();
    c.handle_frame(f, &mut out).unwrap();
    out
}

fn failed(c: &mut ServerConn, f: Frame) -> String {
    let mut out = Vec::new();
    let e = c.handle_frame(f, &mut out).unwrap_err().0;
    assert!(out.is_empty());
    e
}

fn refused(actions: &[ServerAction]) -> bool {
    match actions {
        [ServerAction::Control(_)] => true,
        _ => false,
    }
}

#[test]
fn requests_are_spawned() {
    let mut c = conn(None);
    let mut hm = HeaderMap::new();
    hm.append("k", HeaderValue::from_static("v"));
    let b = encode_header_block(Some("/s.S/M"), Some("localhost"), None, &hm);
    match &fed(&mut c, frame(FrameType::Headers, FLAG_END_STREAM, 1, b))[..] {
        [ServerAction::Spawn { id: 1, uri, headers, ended: true }] => {
            assert_eq!(uri, "http://localhost/s.S/M");
            assert_eq!(headers.get("k").unwrap(), "v");
        }
        other => panic!("{other:?}"),
    }
    let b = encode_header_block(Some("/s.S/M"), None, None, &hm);
    match &fed(&mut c, frame(FrameType::Headers, 0, 3, b))[..] {
        [ServerAction::Spawn { uri, ended: false, .. }] => assert_eq!(uri, "/s.S/M"),
        other => panic!("{other:?}"),
    }
    assert_eq!(c.active, 2);
}

#[test]
fn bad_opens_fail_the_connection() {
    let mut c = conn(None);
    assert_eq!(failed(&mut c, open(2)), "client-initiated stream id 2 must be odd");
    fed(&mut c, open(5));
    assert_eq!(failed(&mut c, open(5)), "stream id 5 not increasing");
    assert_eq!(failed(&mut c, open(3)), "stream id 3 not increasing");
    let b = encode_header_block(None, None, None, &HeaderMap::new());
    assert_eq!(
        failed(&mut c, frame(FrameType::Headers, 0, 7, b)),
        "request HEADERS missing :path"
    );
    assert_eq!(
        failed(&mut c, frame(FrameType::Headers, 0, 7, Bytes::from_static(&[9]))),
        "short header block"
    );
    let b = encode_header_block(Some("/a b"), None, None, &HeaderMap::new());
    assert_eq!(
        failed(&mut c, frame(FrameType::Headers, 0, 7, b)),
        "request HEADERS produce an invalid request"
    );
}

#[test]
fn stream_limit_is_kept() {
    let mut c = conn(Some(2));
    fed(&mut c, open(1));
    fed(&mut c, open(3));
    let mut out = fed(&mut c, open(5));
    match out.pop() {
        Some(ServerAction::Control(op)) => {
            let f = op.into_frame();
            assert_eq!(f.typ, FrameType::RstStream);
            assert_eq!(f.stream_id, 5);
            assert_eq!(decode_rst(f.payload).unwrap(), RstCode::Refused);
        }
        other => panic!("{other:?}"),
    }
    assert_eq!(c.last_accepted, 3);
    // A slot that is free again is used.
    let mut out = Vec::new();
    c.finish_stream(1, &mut out);
    assert!(out.is_empty());
    assert!(!refused(&fed(&mut c, open(7))));
}

#[test]
fn draining_refuses_and_tells_once() {
    let mut c = conn(None);
    fed(&mut c, open(1));
    let f = c.start_drain().unwrap().into_frame();
    assert_eq!(f.typ, FrameType::GoAway);
    let (last, msg) = decode_goaway(f.payload).unwrap();
    assert_eq!(last, 1);
    assert_eq!(msg, "server shutting down");
    assert!(c.start_drain().is_none());
    assert!(refused(&fed(&mut c, open(3))));
    assert_eq!(c.drain_step(false), DrainStep::Wait);
    assert_eq!(c.drain_step(true), DrainStep::Wait);
    let mut out = Vec::new();
    c.finish_stream(1, &mut out);
    assert!(matches!(out[..], [ServerAction::Drained]));
    assert_eq!(c.drain_step(true), DrainStep::Flush);
    c.finish_stream(1, &mut out);
    assert_eq!(out.len(), 1);
    c.io.close(CloseReason::PeerGone);
    assert_eq!(c.drain_step(true), DrainStep::Stop);
}

#[test]
fn request_body_is_delivered() {
    let mut c = conn(None);
    fed(&mut c, open(1));
    let data = |flags, n: usize| frame(FrameType::Data, flags, 1, Bytes::from(vec![7u8; n]));
    assert!(matches!(fed(&mut c, data(0, 10))[..], [ServerAction::Data { id: 1, .. }]));
    assert!(matches!(
        fed(&mut c, data(FLAG_END_STREAM, 10))[..],
        [ServerAction::Data { .. }, ServerAction::EndBody { id: 1 }]
    ));
    assert_eq!(c.outstanding(1), Some(20));
    // Behind the end it only counts.
    assert!(fed(&mut c, data(0, 10)).is_empty());
    assert_eq!(c.outstanding(1), Some(30));
    assert!(fed(&mut c, frame(FrameType::Data, 0, 9, Bytes::from_static(b"x"))).is_empty());
}

#[test]
fn overrun_fails_the_connection() {
    let mut c = conn(None);
    fed(&mut c, open(1));
    // The window is 4096: it may be filled, and not exceeded by one byte.
    let data = |n: usize| frame(FrameType::Data, 0, 1, Bytes::from(vec![0u8; n]));
    assert_eq!(fed(&mut c, data(4096)).len(), 1);
    assert_eq!(failed(&mut c, data(1)), "peer overran stream flow-control window");
    let mut c = conn(None);
    fed(&mut c, open(1));
    assert_eq!(failed(&mut c, data(4097)), "peer overran stream flow-control window");
}

#[test]
fn reset_stops_the_service() {
    let mut c = conn(None);
    fed(&mut c, open(1));
    fed(&mut c, open(3));
    let rst = |id| frame(FrameType::RstStream, 0, id, encode_rst(RstCode::Cancel));
    assert!(matches!(fed(&mut c, rst(1))[..], [ServerAction::Abort { id: 1 }]));
    assert!(!c.is_live(1));
    assert!(matches!(
        fed(&mut c, rst(3))[..],
        [ServerAction::Abort { id: 3 }, ServerAction::Drained]
    ));
    assert!(fed(&mut c, rst(3)).is_empty());
}

#[test]
fn trailers_and_goaway_of_a_client_are_ignored() {
    let mut c = conn(None);
    assert!(fed(&mut c, frame(FrameType::Trailers, 0, 1, Bytes::new())).is_empty());
    assert!(fed(&mut c, frame(FrameType::GoAway, 0, 0, Bytes::new())).is_empty());
}

#[test]
fn server_answers_pings() {
    let mut c = conn(None);
    let out = fed(&mut c, frame(FrameType::Ping, 0, 0, Bytes::from_static(b"hi")));
    match out.into_iter().next() {
        Some(ServerAction::Control(op)) => {
            let f = op.into_frame();
            assert_eq!(f.flags, FLAG_ACK);
            assert_eq!(&f.payload[..], b"hi");
        }
        other => panic!("{other:?}"),
    }
    let _ = failed(&mut c, frame(FrameType::Ping, 0, 1, Bytes::new()));
}

#[test]
fn violation_ends_the_connection() {
    let mut c = conn(None);
    fed(&mut c, open(1));
    fed(&mut c, open(3));
    let mut out = Vec::new();
    assert!(!c.on_frame(open(2), &mut out));
    assert!(c.io.is_closed());
    assert!(matches!(
        out[..],
        [ServerAction::Abort { id: 1 }, ServerAction::Abort { id: 3 }]
    ));
    // The services were stopped, not finished: their streams still count.
    assert_eq!(c.active, 2);
    assert!(!c.is_live(1) && !c.is_live(3));
    c.finish_stream(1, &mut out);
    assert_eq!((c.active, out.len()), (2, 2));
    assert_eq!(c.drain_step(true), DrainStep::Stop);
    let mut out = Vec::new();
    c.end(CloseReason::Local, &mut out);
    assert!(out.is_empty());
    assert!(matches!(c.io.close_reason(), CloseReason::Protocol(_)));
}

#[test]
fn response_credit() {
    let mut c = conn(None);
    fed(&mut c, open(1));
    assert_eq!(c.acquire(1, 5000), Acquire::Granted(4096));
    assert_eq!(c.acquire(1, 1), Acquire::Wait);
    fed(&mut c, frame(FrameType::WindowUpdate, 0, 1, encode_window_update(9)));
    assert_eq!(c.acquire(1, 5000), Acquire::Granted(9));
    assert_eq!(c.acquire(3, 1), Acquire::Stop);
}

#[test]
fn ledger_goes_with_the_last_of_stream_and_body() {
    let mut out = Vec::new();
    // The stream ends first.
    let mut c = conn(None);
    fed(&mut c, open(1));
    fed(&mut c, frame(FrameType::Data, 0, 1, Bytes::from(vec![0u8; 2000])));
    c.finish_stream(1, &mut out);
    assert_eq!(c.outstanding(1), Some(2000));
    let f = c.on_consumed(1, 2000).unwrap().into_frame();
    assert_eq!(f.payload, encode_window_update(2000));
    c.body_dropped(1);
    assert_eq!(c.outstanding(1), None);
    // The body goes first.
    let mut c = conn(None);
    fed(&mut c, open(1));
    c.body_dropped(1);
    assert_eq!(c.outstanding(1), Some(0));
    c.finish_stream(1, &mut out);
    assert_eq!(c.outstanding(1), None);
}

#[test]
fn response_is_pumped_in_pieces() {
    let head = response_head(5, 200, &HeaderMap::new(), false).into_frame();
    assert_eq!(head.typ, FrameType::Headers);
    assert_eq!(head.flags, 0);
    assert_eq!(decode_header_block(head.payload).unwrap().status, Some(200));
    assert_eq!(response_head(5, 200, &HeaderMap::new(), true).into_frame().flags, FLAG_END_STREAM);

    let mut p = Pump::new(5, 4096);
    let body: Vec<u8> = (0..5000u32).map(|i| i as u8).collect();
    assert!(matches!(
        p.response_item(OutItem::Data(Bytes::from(body.clone()))),
        PumpStep::Acquire(4096)
    ));
    let a = p.granted(4000).into_frame();
    assert!(matches!(p.queued(true), PumpStep::Acquire(1000)));
    let b = p.granted(1000).into_frame();
    assert!(matches!(p.queued(true), PumpStep::Poll));
    assert!(matches!(p.queued(false), PumpStep::Stop));
    let mut all = a.payload.to_vec();
    all.extend_from_slice(&b.payload);
    assert_eq!(all, body);
    match p.response_item(OutItem::End) {
        PumpStep::Last(op) => {
            let f = op.into_frame();
            assert_eq!(f.typ, FrameType::Data);
            assert_eq!(f.flags, FLAG_END_STREAM);
            assert!(f.payload.is_empty());
        }
        other => panic!("{other:?}"),
    }
}

#[test]
fn failed_bodies() {
    // Of a response: its status goes out as trailers.
    let mut p = Pump::new(5, 4096);
    let t = status_trailers(false, HeaderMap::new());
    assert_eq!(t.get("grpc-status").unwrap(), "13");
    match p.response_item(OutItem::Failed(t)) {
        PumpStep::Last(op) => {
            let f = op.into_frame();
            assert_eq!(f.typ, FrameType::Trailers);
            assert_eq!(f.flags, FLAG_END_STREAM);
            assert_eq!(decode_header_block(f.payload).unwrap().headers.len(), 1);
        }
        other => panic!("{other:?}"),
    }
    // Of a request: the stream is given up.
    let mut p = Pump::new(5, 4096);
    assert!(matches!(p.request_item(OutItem::Failed(HeaderMap::new())), PumpStep::Reset));
    // A status that could be written is left as it is.
    let mut hm = HeaderMap::new();
    hm.append("grpc-status", HeaderValue::from_static("5"));
    assert_eq!(status_trailers(true, hm).get("grpc-status").unwrap(), "5");
    assert_eq!(send_trailers(5, &HeaderMap::new()).into_frame().typ, FrameType::Trailers);
}

fn peer() -> (RawPeer, Layout) {
    let layout = Layout::new(4096, 4096).unwrap();
    (RawPeer::new(Segment::create(layout), layout.c2s()), layout)
}

fn received(peer: &mut RawPeer, layout: Layout) -> Vec<u8> {
    let mut buf = vec![0u8; 4096];
    let n = Consumer::new(&peer.seg, layout.c2s()).pop(&mut peer.seg, &mut buf);
    buf.truncate(n);
    buf
}

#[test]
fn raw_peer_sends_what_it_is_told() {
    let (mut peer, layout) = peer();
    assert_eq!(peer.send_raw(b"garbage"), 7);
    assert_eq!(received(&mut peer, layout), b"garbage");
    assert_eq!(peer.send_frame(0xee, 1, 9, b"whatever"), FRAME_HDR_SIZE + 8);
    let b = received(&mut peer, layout);
    assert_eq!(b, raw_frame(0xee, 1, 9, b"whatever").to_vec());
    assert_eq!(b[4], 0xee);
    let mut parser = FrameParser::default();
    parser.buf_mut().extend_from_slice(&b);
    assert_eq!(parser.next_frame().unwrap_err().0, "unknown frame type 0xee");
    // More than the ring holds.
    assert_eq!(peer.send_raw(&vec![0u8; 5000]), 4096);
    assert_eq!(peer.send_raw(b"x"), 0);
}

#[test]
fn raw_open_is_a_request() {
    let (mut peer, layout) = peer();
    let n = peer.send_open(1, "/shmsc.test.Echo/UnaryEcho");
    let b = received(&mut peer, layout);
    assert_eq!(b.len(), n);
    assert_eq!(b, raw_open(1, "/shmsc.test.Echo/UnaryEcho").to_vec());
    let mut parser = FrameParser::default();
    parser.buf_mut().extend_from_slice(&BytesMut::from(&b[..]));
    let f = parser.next_frame().unwrap().unwrap();
    let mut c = conn(None);
    match &fed(&mut c, f)[..] {
        [ServerAction::Spawn { uri, .. }] => {
            assert_eq!(uri, "http://localhost/shmsc.test.Echo/UnaryEcho")
        }
        other => panic!("{other:?}"),
    }
    assert!(shows_close(&BellRead::End));
    assert!(!shows_close(&BellRead::Bytes));
}

#[test]
fn reading_a_request_grants_credit() {
    let mut c = conn(None);
    fed(&mut c, open(1));
    fed(&mut c, frame(FrameType::Data, 0, 1, Bytes::from(vec![7u8; 1024])));
    let mut body = ShmBody::new(false);
    let (item, op) =
        c.read_body(1, &mut body, Some(Ok(BodyEvent::Data(Bytes::from(vec![7u8; 1024])))));
    assert!(matches!(item, BodyItem::Data(_)));
    let op = op.unwrap();
    assert!(!op.is_ping_ack());
    assert_eq!(op.into_frame().payload, encode_window_update(1024));
}
