use std::collections::VecDeque;

use bytes::Bytes;
use tonic_shmsc::frame::{Frame, FrameType, FLAG_END_STREAM};
use tonic_shmsc::reader::{FrameReader, POP_WINDOW};
use tonic_shmsc::ring::{Consumer, Producer};
use tonic_shmsc::seg::{Layout, Segment};
use tonic_shmsc::writer::{WriteOp, WriterEvent, WriterState};

/// Drives a writer over a ring while a reader takes the frames out.
fn carry(ops: Vec<WriteOp>, cap: usize) -> Vec<Frame> {
    let layout = Layout::new(cap, cap).unwrap();
    let mut seg = Segment::create(layout);
    let mut prod = Producer::new(&seg, layout.c2s());
    let mut cons = Consumer::new(&seg, layout.c2s());
    let mut reader = FrameReader::new();
    let mut queue: VecDeque<WriteOp> = ops.into();
    let mut got = Vec::new();
    let mut state = WriterState::Control;
    loop {
        state = match state {
            WriterState::Control => state.step(WriterEvent::Popped(None, false)),
            WriterState::Data => state.step(WriterEvent::Popped(queue.pop_front(), false)),
            WriterState::Idle => break,
            WriterState::Pushing(c) => {
                let n = prod.push(&mut seg, c.chunk());
                WriterState::Pushing(c).step(WriterEvent::Pushed(n))
            }
            WriterState::Full(c) => {
                drain(&mut cons, &mut seg, &mut reader, &mut got);
                WriterState::Full(c).step(WriterEvent::Space(true))
            }
            _ => panic!("unexpected state"),
        };
    }
    drain(&mut cons, &mut seg, &mut reader, &mut got);
    got
}

fn drain(cons: &mut Consumer, seg: &mut Segment, reader: &mut FrameReader, got: &mut Vec<Frame>) {
    loop {
        let want = reader.want();
        assert!(want > 0 && want <= POP_WINDOW);
        let mut buf = vec![0u8; want];
        let n = cons.pop(seg, &mut buf);
        if n == 0 {
            return;
        }
        if let Some(f) = reader.feed(&buf[..n]).unwrap() {
            got.push(f);
        }
    }
}

#[test]
fn frames_arrive_as_sent() {
    let big: Vec<u8> = (0..20_000u32).map(|i| (i % 251) as u8).collect();
    let ops = vec![
        WriteOp::Frame {
            typ: FrameType::Headers,
            flags: 0,
            stream_id: 1,
            payload: Bytes::from_static(b"head"),
        },
        WriteOp::Data { stream_id: 1, payload: Bytes::from(big.clone()), end_stream: false },
        WriteOp::Data { stream_id: 1, payload: Bytes::new(), end_stream: true },
    ];
    let got = carry(ops, 4096);
    assert_eq!(got.len(), 3);
    assert_eq!(got[0].typ, FrameType::Headers);
    assert_eq!(&got[0].payload[..], b"head");
    assert_eq!(got[1].typ, FrameType::Data);
    assert_eq!(&got[1].payload[..], &big[..]);
    assert_eq!(got[1].flags, 0);
    assert_eq!(got[2].flags, FLAG_END_STREAM);
    assert!(got[2].payload.is_empty());
}

#[test]
fn control_goes_first() {
    let op = || WriteOp::Data { stream_id: 1, payload: Bytes::new(), end_stream: false };
    let s = WriterState::Control.step(WriterEvent::Popped(Some(op()), false));
    assert!(matches!(s, WriterState::Pushing(_)));
    let s = WriterState::Control.step(WriterEvent::Popped(None, false));
    assert!(matches!(s, WriterState::Data));
}

#[test]
fn writer_stops_and_flushes() {
    let s = WriterState::Idle.step(WriterEvent::Graceful(true));
    assert!(matches!(s, WriterState::Flushing));
    let s = WriterState::Idle.step(WriterEvent::Graceful(false));
    assert!(matches!(s, WriterState::Waiting));
    let s = s.step(WriterEvent::ConnClosed);
    assert!(matches!(s, WriterState::Stopped));
    let s = WriterState::Waiting.step(WriterEvent::FlushAsked);
    assert!(matches!(s, WriterState::Control));
}

#[test]
fn reader_sees_a_bad_header_at_once() {
    let mut r = FrameReader::new();
    assert_eq!(r.want(), 12);
    let mut hdr = [0u8; 12];
    hdr[4] = 0xee;
    assert!(r.feed(&hdr[..11]).unwrap().is_none());
    assert_eq!(r.want(), 1);
    assert_eq!(r.feed(&hdr[11..]).unwrap_err().0, "unknown frame type 0xee");
}

#[test]
fn reader_pops_in_windows() {
    let mut r = FrameReader::new();
    let len = (POP_WINDOW as u32 + 5).to_le_bytes();
    let hdr = [len[0], len[1], len[2], len[3], 2, 0, 0, 0, 1, 0, 0, 0];
    assert!(r.feed(&hdr).unwrap().is_none());
    assert_eq!(r.want(), POP_WINDOW);
    assert!(r.feed(&vec![7u8; POP_WINDOW]).unwrap().is_none());
    assert_eq!(r.want(), 5);
    let f = r.feed(&[7u8; 5]).unwrap().unwrap();
    assert_eq!(f.payload.len(), POP_WINDOW + 5);
}

#[test]
fn queues_keep_their_order() {
    let data = |id: u32| WriteOp::Data { stream_id: id, payload: Bytes::new(), end_stream: false };
    let ctl = |id: u32| WriteOp::Frame {
        typ: FrameType::RstStream,
        flags: 0,
        stream_id: id,
        payload: Bytes::from_static(&[1, 0, 0, 0]),
    };
    let mut control: VecDeque<WriteOp> = vec![ctl(1), ctl(2)].into();
    let mut queue: VecDeque<WriteOp> = vec![data(3), data(4)].into();
    let layout = Layout::new(4096, 4096).unwrap();
    let mut seg = Segment::create(layout);
    let mut prod = Producer::new(&seg, layout.c2s());
    let mut cons = Consumer::new(&seg, layout.c2s());
    let mut state = WriterState::Control;
    let mut late = Some(ctl(9));
    loop {
        state = match state {
            WriterState::Control => state.step(WriterEvent::Popped(control.pop_front(), false)),
            WriterState::Data => {
                // Control that comes in now goes before the rest of the data.
                control.extend(late.take());
                state.step(WriterEvent::Popped(queue.pop_front(), false))
            }
            WriterState::Idle => break,
            WriterState::Pushing(c) => {
                let n = prod.push(&mut seg, c.chunk());
                WriterState::Pushing(c).step(WriterEvent::Pushed(n))
            }
            _ => panic!("unexpected state"),
        };
    }
    let mut got = Vec::new();
    drain(&mut cons, &mut seg, &mut FrameReader::new(), &mut got);
    let ids: Vec<u32> = got.iter().map(|f| f.stream_id).collect();
    assert_eq!(ids, vec![1, 2, 3, 9, 4]);
}
