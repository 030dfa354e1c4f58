use bytes::Bytes;
use http::{HeaderMap, HeaderValue};
use tonic_shmsc::block::decode_header_block;
use tonic_shmsc::body::Code;
use tonic_shmsc::client::{ClientAction, ClientConn, HeadResult, PendingStreamGuard};
use tonic_shmsc::control::encode_goaway;
use tonic_shmsc::frame::{Frame, FrameType};
use tonic_shmsc::pump::{response_head, send_trailers, OutItem, Pump, PumpStep};
use tonic_shmsc::server::{ServerAction, ServerConn, ShmscConnectInfo};
use tonic_shmsc::writer::WriteOp;

const INFO: ShmscConnectInfo = ShmscConnectInfo { peer_pid: None, peer_uid: None };

fn ends(max_streams: Option<u32>) -> (ClientConn, ServerConn) {
    (ClientConn::new(4096, 4096), ServerConn::new(4096, 4096, max_streams, INFO))
}

fn at_server(s: &mut ServerConn, op: WriteOp) -> Vec<ServerAction> {
    let mut out = Vec::new();
    s.handle_frame(op.into_frame(), &mut out).unwrap();
    out
}

fn at_client(c: &mut ClientConn, op: WriteOp) -> Vec<ClientAction> {
    let mut out = Vec::new();
    c.handle_frame(op.into_frame(), &mut out).unwrap();
    out
}

fn control(mut actions: Vec<ServerAction>) -> WriteOp {
    assert_eq!(actions.len(), 1);
    match actions.remove(0) {
        ServerAction::Control(op) => op,
        other => panic!("{other:?}"),
    }
}

#[test]
fn whole_call() {
    let (mut c, mut s) = ends(None);
    let mut hm = HeaderMap::new();
    hm.append("te", HeaderValue::from_static("trailers"));
    let (id, op) = c.open_stream("/pkg.Svc/Do?x=1", Some("localhost"), &hm).unwrap();
    match &at_server(&mut s, op)[..] {
        [ServerAction::Spawn { id: i, uri, headers, ended: false }] => {
            assert_eq!(*i, id);
            assert_eq!(uri, "http://localhost/pkg.Svc/Do?x=1");
            assert_eq!(headers, &hm);
        }
        other => panic!("{other:?}"),
    }

    // The request body, and its end.
    let mut p = Pump::new(id, 4096);
    assert!(matches!(
        p.request_item(OutItem::Data(Bytes::from_static(b"ping"))),
        PumpStep::Acquire(4)
    ));
    match &at_server(&mut s, p.granted(4))[..] {
        [ServerAction::Data { payload, .. }] => assert_eq!(&payload[..], b"ping"),
        other => panic!("{other:?}"),
    }
    match p.request_item(OutItem::End) {
        PumpStep::Last(op) => {
            assert!(matches!(&at_server(&mut s, op)[..], [ServerAction::EndBody { .. }]))
        }
        other => panic!("{other:?}"),
    }

    // The response head, its body and its trailers.
    let mut rh = HeaderMap::new();
    rh.append("content-type", HeaderValue::from_static("application/grpc"));
    let mut head = at_client(&mut c, response_head(id, 200, &rh, false));
    assert_eq!(head.len(), 1);
    let mut guard = PendingStreamGuard::new(id);
    match head.remove(0) {
        ClientAction::Head { status, headers, end_stream, .. } => {
            assert_eq!(headers, rh);
            let r = c.finish_call(&mut guard, HeadResult::Head { status, headers, end_stream });
            assert_eq!(r.unwrap().status, 200);
            assert!(!guard.armed);
        }
        other => panic!("{other:?}"),
    }
    let data = WriteOp::Data { stream_id: id, payload: Bytes::from_static(b"pong"), end_stream: false };
    match &at_client(&mut c, data)[..] {
        [ClientAction::Data { payload, .. }] => assert_eq!(&payload[..], b"pong"),
        other => panic!("{other:?}"),
    }
    let mut th = HeaderMap::new();
    th.append("grpc-status", HeaderValue::from_static("0"));
    match &at_client(&mut c, send_trailers(id, &th))[..] {
        [ClientAction::Trailers { headers, .. }, ClientAction::Remove { .. }] => {
            assert_eq!(headers, &th)
        }
        other => panic!("{other:?}"),
    }
    assert!(c.streams.get(id).is_none());
    s.finish_stream(id, &mut Vec::new());
    assert_eq!(s.active, 0);
}

#[test]
fn stream_over_the_limit_fails_as_unavailable() {
    let (mut c, mut s) = ends(Some(1));
    let (_, first) = c.open_stream("/a", None, &HeaderMap::new()).unwrap();
    at_server(&mut s, first);
    let (id, second) = c.open_stream("/b", None, &HeaderMap::new()).unwrap();
    let refusal = control(at_server(&mut s, second));
    match &at_client(&mut c, refusal)[..] {
        [ClientAction::HeadFailed { id: i, status }, ClientAction::Remove { .. }] => {
            assert_eq!(*i, id);
            assert_eq!(status.code, Code::Unavailable);
            assert_eq!(status.message, "stream refused by server");
        }
        other => panic!("{other:?}"),
    }
}

#[test]
fn goaway_reaches_the_client() {
    let (mut c, mut s) = ends(None);
    let (first, op) = c.open_stream("/a", None, &HeaderMap::new()).unwrap();
    at_server(&mut s, op);
    let (late, _) = c.open_stream("/b", None, &HeaderMap::new()).unwrap();
    let goaway = Frame {
        typ: FrameType::GoAway,
        flags: 0,
        stream_id: 0,
        payload: encode_goaway(s.last_accepted, "server draining"),
    };
    let mut out = Vec::new();
    c.handle_frame(goaway, &mut out).unwrap();
    match &out[..] {
        [ClientAction::HeadFailed { id, status }, ClientAction::Remove { .. }] => {
            assert_eq!(*id, late);
            assert_eq!(status.message, "connection draining (GOAWAY): server draining");
        }
        other => panic!("{other:?}"),
    }
    assert!(c.streams.get(first).is_some());
    assert_eq!(c.poll_ready().unwrap_err().message, "shmsc connection is draining (GOAWAY)");
}

#[test]
fn calls_open_in_order() {
    let (mut c, mut s) = ends(None);
    let mut queue = Vec::new();
    for i in 0..5u32 {
        let path = format!("/svc/{i}");
        let (id, op) = c.open_stream(&path, Some("host"), &HeaderMap::new()).unwrap();
        assert_eq!(id, 1 + 2 * i);
        queue.push(op.into_frame());
        // The body of an earlier call, and one that is given up, in between.
        let mut p = Pump::new(1, 4096);
        p.request_item(OutItem::Data(Bytes::from_static(b"x")));
        queue.push(p.granted(1).into_frame());
        if i == 2 {
            let (_, op) = c.guard_dropped(&PendingStreamGuard::new(id), true).unwrap();
            queue.push(op.into_frame());
        }
    }
    let opens: Vec<&Frame> = queue.iter().filter(|f| f.typ == FrameType::Headers).collect();
    assert_eq!(opens.len(), 5);
    for (i, f) in opens.iter().enumerate() {
        assert_eq!((f.stream_id, f.flags), (1 + 2 * i as u32, 0));
        let b = decode_header_block(f.payload.clone()).unwrap();
        assert_eq!(b.path.unwrap(), format!("/svc/{i}"));
        assert_eq!(b.authority.unwrap(), "host");
    }
    for (k, f) in queue.iter().enumerate() {
        assert!(queue[..=k].iter().any(|o| o.typ == FrameType::Headers && o.stream_id == f.stream_id));
    }
    let mut out = Vec::new();
    for f in queue {
        s.handle_frame(f, &mut out).unwrap();
    }
}

/// Sends the items of a body with so much credit at a time; the frames that were queued.
fn sent(mut p: Pump, response: bool, items: Vec<OutItem>, credit: usize) -> Vec<Frame> {
    let mut queue = Vec::new();
    for item in items {
        let mut step = if response { p.response_item(item) } else { p.request_item(item) };
        loop {
            step = match step {
                PumpStep::Poll | PumpStep::Reset | PumpStep::Stop => break,
                PumpStep::Acquire(want) => {
                    queue.push(p.granted(want.min(credit)).into_frame());
                    p.queued(true)
                }
                PumpStep::Last(op) => {
                    queue.push(op.into_frame());
                    break;
                }
            };
        }
    }
    queue
}

#[test]
fn bodies_are_head_data_end() {
    let first: Vec<u8> = (0..10_000u32).map(|i| i as u8).collect();
    let second = b"tail".to_vec();
    let chunks = || {
        vec![
            OutItem::Data(Bytes::from(first.clone())),
            OutItem::Data(Bytes::new()),
            OutItem::Other,
            OutItem::Data(Bytes::from(second.clone())),
        ]
    };
    let mut th = HeaderMap::new();
    th.append("grpc-status", HeaderValue::from_static("0"));
    for credit in [1000, 4096, 1 << 20] {
        for end in [OutItem::Trailers(th.clone()), OutItem::Failed(th.clone()), OutItem::End] {
            let trailers = !matches!(end, OutItem::End);
            let mut items = chunks();
            items.push(end);
            let mut queue = vec![response_head(7, 200, &HeaderMap::new(), false).into_frame()];
            queue.extend(sent(Pump::new(7, 4096), true, items, credit));
            assert_eq!((queue[0].typ, queue[0].flags), (FrameType::Headers, 0));
            let last = queue.pop().unwrap();
            assert_eq!(last.flags, 1);
            assert_eq!(last.typ, if trailers { FrameType::Trailers } else { FrameType::Data });
            assert_eq!(last.payload.is_empty(), !trailers);
            let mut body = Vec::new();
            for f in &queue[1..] {
                assert_eq!((f.typ, f.flags, f.stream_id), (FrameType::Data, 0, 7));
                assert!(!f.payload.is_empty() && f.payload.len() <= 4096.min(credit));
                body.extend_from_slice(&f.payload);
            }
            assert_eq!(body, [&first[..], &second[..]].concat());
        }
        let mut items = chunks();
        items.push(OutItem::Trailers(th.clone()));
        items.push(OutItem::End);
        let mut queue = sent(Pump::new(7, 4096), false, items, credit);
        let last = queue.pop().unwrap();
        assert_eq!((last.typ, last.flags, last.payload.len()), (FrameType::Data, 1, 0));
        let body: Vec<u8> = queue.iter().flat_map(|f| f.payload.to_vec()).collect();
        assert_eq!(body, [&first[..], &second[..]].concat());
    }
}
