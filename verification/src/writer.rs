//! Writing frames into a ring.
//!
//! Two queues feed the writer. The control queue (WINDOW_UPDATE, RST_STREAM,
//! PING, GOAWAY) is never full and goes first; the data queue (HEADERS, DATA,
//! TRAILERS) is bounded and keeps the order within a stream. A frame goes into
//! the ring header first and then straight from its own buffer, whole before the
//! next one begins.

use bytes::Bytes;
use vstd::prelude::*;
use vstd::slice::slice_subrange;

use crate::frame::{
    encode_frame_header, Frame, FrameType, FLAG_ACK, FLAG_END_STREAM, FRAME_HDR_SIZE, MAX_FRAME_PAYLOAD,
};
use crate::outside::{bytes_len, bytes_slice};

verus! {

use crate::frame::{header_bytes, lemma_header_len, stream_bytes, FrameView};
use crate::outside::bytes_view;

/// One thing to write.
#[derive(Debug)]
pub enum WriteOp {
    /// A frame that is already encoded: headers, trailers, control.
    Frame { typ: FrameType, flags: u8, stream_id: u32, payload: Bytes },
    /// Message bytes, for which credit was taken.
    Data { stream_id: u32, payload: Bytes, end_stream: bool },
}

impl View for WriteOp {
    type V = FrameView;

    /// The frame that is written.
    open spec fn view(&self) -> FrameView {
        match self {
            WriteOp::Frame { typ, flags, stream_id, payload } => FrameView {
                typ: *typ,
                flags: *flags,
                stream_id: *stream_id,
                payload: bytes_view(*payload),
            },
            WriteOp::Data { stream_id, payload, end_stream } => FrameView {
                typ: FrameType::Data,
                flags: if *end_stream { FLAG_END_STREAM } else { 0 },
                stream_id: *stream_id,
                payload: bytes_view(*payload),
            },
        }
    }
}

impl WriteOp {
    /// Whether this acknowledges a PING.
    pub fn is_ping_ack(&self) -> (r: bool)
        ensures
            r == (self@.typ == FrameType::Ping && self@.flags & FLAG_ACK != 0),
    {
        match self {
            WriteOp::Frame { typ, flags, .. } => {
                *typ == FrameType::Ping && *flags & FLAG_ACK != 0
            },
            WriteOp::Data { .. } => false,
        }
    }

    /// The frame that is written.
    pub fn into_frame(self) -> (r: Frame)
        ensures
            r@ == self@,
    {
        match self {
            WriteOp::Frame { typ, flags, stream_id, payload } => Frame {
                typ,
                flags,
                stream_id,
                payload,
            },
            WriteOp::Data { stream_id, payload, end_stream } => Frame {
                typ: FrameType::Data,
                flags: if end_stream {
                    FLAG_END_STREAM
                } else {
                    0
                },
                stream_id,
                payload,
            },
        }
    }
}

/// A frame that is being written, and how far it is.
#[derive(Debug)]
pub struct FrameCursor {
    hdr: [u8; FRAME_HDR_SIZE],
    frame: Frame,
    off: usize,
}

impl FrameCursor {
    /// The frame.
    pub closed spec fn frame(self) -> FrameView {
        self.frame@
    }

    /// How many of its bytes were written.
    pub closed spec fn written(self) -> int {
        self.off as int
    }

    /// The header belongs to the frame, and no more was written than there is.
    pub closed spec fn wf(self) -> bool {
        &&& self.frame@.payload.len() <= MAX_FRAME_PAYLOAD
        &&& self.hdr@ == header_bytes(
            self.frame@.typ,
            self.frame@.flags,
            self.frame@.stream_id,
            self.frame@.payload.len(),
        )
        &&& self.off <= FRAME_HDR_SIZE + self.frame@.payload.len()
    }

    /// A cursor at the start of the frame for `op`.
    pub fn new(op: WriteOp) -> (r: Self)
        requires
            op@.payload.len() <= MAX_FRAME_PAYLOAD,
        ensures
            r.wf(),
            r.frame() == op@,
            r.written() == 0,
    {
        let frame = op.into_frame();
        let mut hdr = [0u8; FRAME_HDR_SIZE];
        encode_frame_header(
            &mut hdr,
            frame.typ,
            frame.flags,
            frame.stream_id,
            bytes_len(&frame.payload),
        );
        FrameCursor { hdr, frame, off: 0 }
    }

    /// Whether the whole frame was written.
    pub fn is_done(&self) -> (r: bool)
        requires
            self.wf(),
        ensures
            r == (self.written() == self.frame().bytes().len()),
    {
        proof {
            self.lemma_len();
        }
        self.off == FRAME_HDR_SIZE + bytes_len(&self.frame.payload)
    }

    proof fn lemma_len(self)
        requires
            self.wf(),
        ensures
            self.frame@.bytes().len() == FRAME_HDR_SIZE + self.frame@.payload.len(),
    {
        lemma_header_len(
            self.frame@.typ,
            self.frame@.flags,
            self.frame@.stream_id,
            self.frame@.payload.len(),
        );
    }

    /// The bytes to push next: the rest of the header, and once that is written
    /// the rest of the payload.
    pub fn chunk(&self) -> (r: &[u8])
        requires
            self.wf(),
        ensures
            r@.len() <= self.frame().bytes().len() - self.written(),
            self.written() < self.frame().bytes().len() ==> r@.len() > 0,
            r@ == self.frame().bytes().subrange(self.written(), self.written() + r@.len()),
    {
        proof {
            self.lemma_len();
        }
        if self.off < FRAME_HDR_SIZE {
            let r = slice_subrange(self.hdr.as_slice(), self.off, FRAME_HDR_SIZE);
            assert(r@ =~= self.frame@.bytes().subrange(self.off as int, self.off + r@.len()));
            r
        } else {
            let p = bytes_slice(&self.frame.payload);
            let r = slice_subrange(p, self.off - FRAME_HDR_SIZE, p.len());
            assert(r@ =~= self.frame@.bytes().subrange(self.off as int, self.off + r@.len()));
            r
        }
    }

    /// Counts `n` more bytes as written.
    pub fn advance(&mut self, n: usize)
        requires
            old(self).wf(),
            old(self).written() + n <= old(self).frame().bytes().len(),
        ensures
            final(self).wf(),
            final(self).frame() == old(self).frame(),
            final(self).written() == old(self).written() + n,
    {
        proof {
            self.lemma_len();
        }
        self.off = self.off + n;
    }
}

/// Where the writer stands.
#[derive(Debug)]
pub enum WriterState {
    /// About to look into the control queue.
    Control,
    /// About to look into the data queue.
    Data,
    /// Nothing is queued: about to ring for everything written so far, and to ask
    /// whether a graceful flush was asked for.
    Idle,
    /// Waiting for work.
    Waiting,
    /// Pushing a frame.
    Pushing(FrameCursor),
    /// The ring is full: about to ring for what was written, and waiting for
    /// space.
    Full(FrameCursor),
    /// Everything is in the ring: waiting for the peer to take it.
    Flushing,
    /// Done.
    Stopped,
}

/// What came of the step that the state asked for.
#[derive(Debug)]
pub enum WriterEvent {
    /// What a queue held, and whether the connection is closed by now.
    Popped(Option<WriteOp>, bool),
    /// Whether a graceful flush was asked for.
    Graceful(bool),
    /// Work came, or both queues ended; and whether the connection is closed by
    /// now.
    Work(Option<WriteOp>, bool),
    /// A graceful flush was asked for while waiting.
    FlushAsked,
    /// The connection closed while waiting.
    ConnClosed,
    /// So many bytes went into the ring.
    Pushed(usize),
    /// Space came, or the connection closed.
    Space(bool),
}

/// The frame that is being written, and how much of it was.
pub struct Progress {
    pub frame: FrameView,
    pub written: int,
}

/// What a writer state says.
pub enum StateView {
    Control,
    Data,
    Idle,
    Waiting,
    Pushing(Progress),
    Full(Progress),
    Flushing,
    Stopped,
}

impl WriterState {
    /// A cursor that the state holds is well-formed.
    pub open spec fn wf(self) -> bool {
        match self {
            WriterState::Pushing(c) => c.wf() && c.written() < c.frame().bytes().len(),
            WriterState::Full(c) => c.wf() && c.written() < c.frame().bytes().len(),
            _ => true,
        }
    }
}

impl View for WriterState {
    type V = StateView;

    open spec fn view(&self) -> StateView {
        match self {
            WriterState::Control => StateView::Control,
            WriterState::Data => StateView::Data,
            WriterState::Idle => StateView::Idle,
            WriterState::Waiting => StateView::Waiting,
            WriterState::Pushing(c) => StateView::Pushing(
                Progress { frame: c.frame(), written: c.written() },
            ),
            WriterState::Full(c) => StateView::Full(
                Progress { frame: c.frame(), written: c.written() },
            ),
            WriterState::Flushing => StateView::Flushing,
            WriterState::Stopped => StateView::Stopped,
        }
    }
}

/// What an event says.
pub enum EventView {
    Popped(Option<FrameView>, bool),
    Graceful(bool),
    Work(Option<FrameView>, bool),
    FlushAsked,
    ConnClosed,
    Pushed(nat),
    Space(bool),
}

impl View for WriterEvent {
    type V = EventView;

    open spec fn view(&self) -> EventView {
        match self {
            WriterEvent::Popped(op, closed) => EventView::Popped(op_view(*op), *closed),
            WriterEvent::Graceful(g) => EventView::Graceful(*g),
            WriterEvent::Work(op, closed) => EventView::Work(op_view(*op), *closed),
            WriterEvent::FlushAsked => EventView::FlushAsked,
            WriterEvent::ConnClosed => EventView::ConnClosed,
            WriterEvent::Pushed(n) => EventView::Pushed(*n as nat),
            WriterEvent::Space(ok) => EventView::Space(*ok),
        }
    }
}

/// The frame of an operation, if there is one.
pub open spec fn op_view(op: Option<WriteOp>) -> Option<FrameView> {
    match op {
        Some(o) => Some(o@),
        None => None,
    }
}

impl StateView {
    /// Whether the event answers what the state asked for.
    pub open spec fn expects(self, e: EventView) -> bool {
        match self {
            StateView::Control => e is Popped,
            StateView::Data => e is Popped,
            StateView::Idle => e is Graceful,
            StateView::Waiting => e is Work || e is FlushAsked || e is ConnClosed,
            StateView::Pushing(p) => e matches EventView::Pushed(n) && p.written + n
                <= p.frame.bytes().len(),
            StateView::Full(_) => e is Space,
            StateView::Flushing => false,
            StateView::Stopped => false,
        }
    }

    /// What follows an event.
    pub open spec fn after(self, e: EventView) -> StateView {
        match (self, e) {
            (StateView::Control, EventView::Popped(Some(f), closed)) => begin(f, closed),
            (StateView::Control, EventView::Popped(None, _)) => StateView::Data,
            (StateView::Data, EventView::Popped(Some(f), closed)) => begin(f, closed),
            (StateView::Data, EventView::Popped(None, _)) => StateView::Idle,
            (StateView::Idle, EventView::Graceful(g)) => if g {
                StateView::Flushing
            } else {
                StateView::Waiting
            },
            (StateView::Waiting, EventView::Work(Some(f), closed)) => begin(f, closed),
            (StateView::Waiting, EventView::Work(None, _)) => StateView::Stopped,
            (StateView::Waiting, EventView::FlushAsked) => StateView::Control,
            (StateView::Waiting, EventView::ConnClosed) => StateView::Stopped,
            (StateView::Pushing(p), EventView::Pushed(n)) => if n == 0 {
                StateView::Full(p)
            } else if p.written + n < p.frame.bytes().len() {
                StateView::Pushing(Progress { written: p.written + n, ..p })
            } else {
                StateView::Control
            },
            (StateView::Full(p), EventView::Space(ok)) => if ok {
                StateView::Pushing(p)
            } else {
                StateView::Stopped
            },
            _ => self,
        }
    }
}

/// The start of a frame, unless the connection is closed.
pub open spec fn begin(f: FrameView, closed: bool) -> StateView {
    if closed {
        StateView::Stopped
    } else {
        StateView::Pushing(Progress { frame: f, written: 0 })
    }
}

fn begin_op(op: WriteOp, closed: bool) -> (r: WriterState)
    requires
        op@.payload.len() <= MAX_FRAME_PAYLOAD,
    ensures
        r.wf(),
        r@ == begin(op@, closed),
{
    if closed {
        WriterState::Stopped
    } else {
        proof {
            lemma_header_len(op@.typ, op@.flags, op@.stream_id, op@.payload.len());
        }
        WriterState::Pushing(FrameCursor::new(op))
    }
}

/// Whether an event carries no frame beyond the payload cap.
pub open spec fn event_ok(e: EventView) -> bool {
    match e {
        EventView::Popped(Some(f), _) => f.payload.len() <= MAX_FRAME_PAYLOAD,
        EventView::Work(Some(f), _) => f.payload.len() <= MAX_FRAME_PAYLOAD,
        _ => true,
    }
}

impl WriterState {
    /// Goes on after an event.
    pub fn step(self, e: WriterEvent) -> (r: Self)
        requires
            self.wf(),
            self@.expects(e@),
            event_ok(e@),
        ensures
            r.wf(),
            r@ == self@.after(e@),
    {
        match (self, e) {
            (WriterState::Control, WriterEvent::Popped(op, closed)) => match op {
                Some(op) => begin_op(op, closed),
                None => WriterState::Data,
            },
            (WriterState::Data, WriterEvent::Popped(op, closed)) => match op {
                Some(op) => begin_op(op, closed),
                None => WriterState::Idle,
            },
            (WriterState::Idle, WriterEvent::Graceful(g)) => {
                if g {
                    WriterState::Flushing
                } else {
                    WriterState::Waiting
                }
            },
            (WriterState::Waiting, WriterEvent::Work(op, closed)) => match op {
                Some(op) => begin_op(op, closed),
                None => WriterState::Stopped,
            },
            (WriterState::Waiting, WriterEvent::FlushAsked) => WriterState::Control,
            (WriterState::Waiting, WriterEvent::ConnClosed) => WriterState::Stopped,
            (WriterState::Pushing(c), WriterEvent::Pushed(n)) => {
                if n == 0 {
                    return WriterState::Full(c);
                }
                let mut c = c;
                c.advance(n);
                if c.is_done() {
                    WriterState::Control
                } else {
                    WriterState::Pushing(c)
                }
            },
            (WriterState::Full(c), WriterEvent::Space(ok)) => {
                if ok {
                    WriterState::Pushing(c)
                } else {
                    WriterState::Stopped
                }
            },
            (s, _) => s,
        }
    }
}

// ---------------------------------------------------------------------
// what goes into the ring
// ---------------------------------------------------------------------

/// A run of the writer: its state, the bytes that went into the ring, and the
/// frames that were taken up, in order.
pub struct Run {
    pub state: StateView,
    pub out: Seq<u8>,
    pub taken: Seq<FrameView>,
}

impl Run {
    /// The run after one more event.
    pub open spec fn next(self, e: EventView) -> Run {
        let state = self.state.after(e);
        Run {
            state,
            out: match (self.state, e) {
                (StateView::Pushing(p), EventView::Pushed(n)) => self.out
                    + p.frame.bytes().subrange(p.written, p.written + n),
                _ => self.out,
            },
            taken: match state {
                StateView::Pushing(p) => if p.written == 0 && !(self.state is Pushing)
                    && !(self.state is Full) {
                    self.taken.push(p.frame)
                } else {
                    self.taken
                },
                _ => self.taken,
            },
        }
    }

    /// The frames that were taken up stand in the ring one after the other, the
    /// last one as far as it was written.
    pub open spec fn ordered(self) -> bool {
        match self.state {
            StateView::Pushing(p) => self.half(p),
            StateView::Full(p) => self.half(p),
            StateView::Stopped => self.out.is_prefix_of(stream_bytes(self.taken)),
            _ => self.out == stream_bytes(self.taken),
        }
    }

    /// All frames but the last are whole, and the last as far as it was written.
    pub open spec fn half(self, p: Progress) -> bool {
        &&& self.taken.len() > 0
        &&& self.taken.last() == p.frame
        &&& 0 <= p.written < p.frame.bytes().len()
        &&& self.out == stream_bytes(self.taken.drop_last()) + p.frame.bytes().take(p.written)
    }
}

pub proof fn lemma_stream_push(frames: Seq<FrameView>, f: FrameView)
    ensures
        stream_bytes(frames.push(f)) == stream_bytes(frames) + f.bytes(),
    decreases frames.len(),
{
    if frames.len() == 0 {
        assert(frames.push(f).drop_first() =~= frames);
        assert(stream_bytes(frames.push(f)) =~= stream_bytes(frames) + f.bytes());
    } else {
        lemma_stream_push(frames.drop_first(), f);
        assert(frames.push(f).drop_first() =~= frames.drop_first().push(f));
        assert(stream_bytes(frames.push(f)) =~= stream_bytes(frames) + f.bytes());
    }
}

/// Frames never mix: what is in the ring is always the frames that were taken
/// up, each whole before the next begins.
pub proof fn law_frames_never_mix(run: Run, e: EventView)
    requires
        run.ordered(),
        run.state.expects(e),
    ensures
        run.next(e).ordered(),
{
    let next = run.next(e);
    match (run.state, e) {
        (StateView::Pushing(p), EventView::Pushed(n)) => {
            let b = p.frame.bytes();
            let before = run.taken.drop_last();
            assert(before.push(p.frame) =~= run.taken);
            lemma_stream_push(before, p.frame);
            assert(next.out =~= stream_bytes(before) + b.take(p.written + n));
            assert(b.take(b.len() as int) =~= b);
        },
        (StateView::Full(p), EventView::Space(ok)) => {
            let b = p.frame.bytes();
            let before = run.taken.drop_last();
            assert(before.push(p.frame) =~= run.taken);
            lemma_stream_push(before, p.frame);
            assert(run.out.is_prefix_of(stream_bytes(run.taken)));
        },
        _ => {
            match next.state {
                StateView::Pushing(p) => {
                    lemma_header_len(
                        p.frame.typ,
                        p.frame.flags,
                        p.frame.stream_id,
                        p.frame.payload.len(),
                    );
                    assert(next.taken.drop_last() =~= run.taken);
                    assert(p.frame.bytes().take(0) =~= Seq::<u8>::empty());
                    assert(next.out =~= stream_bytes(run.taken) + p.frame.bytes().take(0));
                },
                _ => {},
            }
        },
    }
}

/// The queues in front of the writer, and what it took up from them.
pub struct Feed {
    pub state: StateView,
    pub control: Seq<FrameView>,
    pub data: Seq<FrameView>,
    /// What was taken from the control queue, in order.
    pub controls: Seq<FrameView>,
    /// What was taken from the data queue, in order.
    pub datas: Seq<FrameView>,
}

/// The front of a queue.
pub open spec fn front(q: Seq<FrameView>) -> Option<FrameView> {
    if q.len() > 0 {
        Some(q[0])
    } else {
        None
    }
}

impl Feed {
    /// The feed after the writer looked into the queue that it is at.
    pub open spec fn look(self) -> Feed {
        match self.state {
            StateView::Control => Feed {
                state: self.state.after(EventView::Popped(front(self.control), false)),
                control: if self.control.len() > 0 {
                    self.control.drop_first()
                } else {
                    self.control
                },
                controls: if self.control.len() > 0 {
                    self.controls.push(self.control[0])
                } else {
                    self.controls
                },
                ..self
            },
            StateView::Data => Feed {
                state: self.state.after(EventView::Popped(front(self.data), false)),
                data: if self.data.len() > 0 {
                    self.data.drop_first()
                } else {
                    self.data
                },
                datas: if self.data.len() > 0 {
                    self.datas.push(self.data[0])
                } else {
                    self.datas
                },
                ..self
            },
            _ => self,
        }
    }
}

/// Each queue keeps its order, and nothing is dropped from either. What shares the
/// data queue can therefore not overtake each other: the trailers of a stream come
/// behind its data. A data frame is only looked for where no control frame is queued.
pub proof fn law_queues_keep_their_order(feed: Feed)
    ensures
        feed.look().controls + feed.look().control == feed.controls + feed.control,
        feed.look().datas + feed.look().data == feed.datas + feed.data,
        feed.state is Control && feed.control.len() > 0 ==> feed.look().state
            == StateView::Pushing(Progress { frame: feed.control[0], written: 0 }),
        feed.state is Control && feed.look().state is Data ==> feed.control.len() == 0,
        feed.state is Data && feed.data.len() > 0 ==> feed.look().state == StateView::Pushing(
            Progress { frame: feed.data[0], written: 0 },
        ),
{
    let next = feed.look();
    assert(next.controls + next.control =~= feed.controls + feed.control);
    assert(next.datas + next.data =~= feed.datas + feed.data);
}

/// The writer looks into the control queue first and into the data queue only where that is
/// empty; with neither it asks for a flush, and then waits. A frame is taken up from its
/// first byte unless the connection is closed, which stops the writer.
pub proof fn law_control_goes_first(f: FrameView, closed: bool)
    ensures
        StateView::Control.after(EventView::Popped(None, closed)) == StateView::Data,
        StateView::Data.after(EventView::Popped(None, closed)) == StateView::Idle,
        StateView::Idle.after(EventView::Graceful(true)) == StateView::Flushing,
        StateView::Idle.after(EventView::Graceful(false)) == StateView::Waiting,
        StateView::Waiting.after(EventView::FlushAsked) == StateView::Control,
        StateView::Waiting.after(EventView::ConnClosed) == StateView::Stopped,
        StateView::Waiting.after(EventView::Work(None, closed)) == StateView::Stopped,
        closed ==> StateView::Control.after(EventView::Popped(Some(f), closed))
            == StateView::Stopped && StateView::Data.after(EventView::Popped(Some(f), closed))
            == StateView::Stopped && StateView::Waiting.after(EventView::Work(Some(f), closed))
            == StateView::Stopped,
        !closed ==> {
            let start = StateView::Pushing(Progress { frame: f, written: 0 });
            &&& StateView::Control.after(EventView::Popped(Some(f), closed)) == start
            &&& StateView::Data.after(EventView::Popped(Some(f), closed)) == start
            &&& StateView::Waiting.after(EventView::Work(Some(f), closed)) == start
        },
{
}

/// A frame that was begun is pushed on until its last byte; then the control queue is
/// looked into. A ring that takes nothing is waited for, and the frame goes on where it
/// was.
pub proof fn law_frames_are_finished(p: Progress, n: nat)
    requires
        0 <= p.written < 12 + p.frame.payload.len(),
    ensures
        StateView::Pushing(p).after(EventView::Pushed(0)) == StateView::Full(p),
        n > 0 && p.written + n < 12 + p.frame.payload.len() ==> StateView::Pushing(p).after(
            EventView::Pushed(n),
        ) == StateView::Pushing(Progress { frame: p.frame, written: p.written + n }),
        n > 0 && p.written + n == 12 + p.frame.payload.len() ==> StateView::Pushing(p).after(
            EventView::Pushed(n),
        ) == StateView::Control,
        StateView::Full(p).after(EventView::Space(true)) == StateView::Pushing(p),
        StateView::Full(p).after(EventView::Space(false)) == StateView::Stopped,
{
    lemma_header_len(p.frame.typ, p.frame.flags, p.frame.stream_id, p.frame.payload.len());
}

/// What each state waits for; a writer that flushes or has stopped waits for nothing.
pub proof fn law_what_a_writer_waits_for(s: StateView, e: EventView)
    ensures
        s is Control || s is Data ==> (s.expects(e) <==> e is Popped),
        s is Idle ==> (s.expects(e) <==> e is Graceful),
        s is Waiting ==> (s.expects(e) <==> e is Work || e is FlushAsked || e is ConnClosed),
        s is Full ==> (s.expects(e) <==> e is Space),
        s matches StateView::Pushing(p) ==> (s.expects(e) <==> (e matches EventView::Pushed(n)
            && p.written + n <= 12 + p.frame.payload.len())),
        s is Flushing || s is Stopped ==> !s.expects(e),
{
    if let StateView::Pushing(p) = s {
        lemma_header_len(p.frame.typ, p.frame.flags, p.frame.stream_id, p.frame.payload.len());
    }
}

/// The frame of an operation: a frame as it is, and message bytes as a DATA frame, with the
/// lowest flag bit where they end the stream.
pub proof fn law_frame_of_an_operation(op: WriteOp)
    ensures
        op matches WriteOp::Frame { typ, flags, stream_id, payload } ==> op@ == (FrameView {
            typ,
            flags,
            stream_id,
            payload: bytes_view(payload),
        }),
        op matches WriteOp::Data { stream_id, payload, end_stream } ==> op@ == (FrameView {
            typ: FrameType::Data,
            flags: if end_stream {
                1
            } else {
                0
            },
            stream_id,
            payload: bytes_view(payload),
        }),
        op_view(Some(op)) == Some(op@),
        op_view(None) is None,
{
}

} // verus!
