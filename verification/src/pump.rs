//! Sending a body: in frames, under the credit of its stream.

use bytes::Bytes;
use http::{HeaderMap, HeaderValue};
use vstd::prelude::*;

use crate::block::encode_header_block;
use crate::frame::{FrameType, FLAG_END_STREAM};
use crate::outside::{
    bytes_len, bytes_new, bytes_split_to, header_map_insert, header_name_from_bytes,
    header_value_from_bytes,
};
use crate::writer::WriteOp;

verus! {

use crate::block::{block_bytes, fits, BlockView};
use crate::frame::FrameView;
use crate::outside::{
    bytes_view, header_map_view, insert_entry, lower, valid_header_name, valid_header_value,
};
use crate::reader::joined;

/// What the body to be sent gave.
#[derive(Debug)]
pub enum OutItem {
    /// Message bytes.
    Data(Bytes),
    /// Trailers.
    Trailers(HeaderMap<HeaderValue>),
    /// Something that is neither.
    Other,
    /// The body failed. For a response these are the trailers that say so.
    Failed(HeaderMap<HeaderValue>),
    /// The body ended.
    End,
}

/// What an item of a body says.
pub enum OutView {
    Data(Seq<u8>),
    Trailers(Seq<(Seq<u8>, Seq<u8>)>),
    Other,
    Failed(Seq<(Seq<u8>, Seq<u8>)>),
    End,
}

impl View for OutItem {
    type V = OutView;

    open spec fn view(&self) -> OutView {
        match self {
            OutItem::Data(b) => OutView::Data(bytes_view(*b)),
            OutItem::Trailers(h) => OutView::Trailers(header_map_view(*h)),
            OutItem::Other => OutView::Other,
            OutItem::Failed(h) => OutView::Failed(header_map_view(*h)),
            OutItem::End => OutView::End,
        }
    }
}

/// What to do next.
#[derive(Debug)]
pub enum PumpStep {
    /// Ask the body for more.
    Poll,
    /// Take credit for at most so many bytes.
    Acquire(usize),
    /// Queue the last frame, and stop.
    Last(WriteOp),
    /// The request failed on this side: give the stream up, and stop.
    Reset,
    /// Stop.
    Stop,
}

/// What a step says.
pub enum StepView {
    Poll,
    Acquire(nat),
    Last(FrameView),
    Reset,
    Stop,
}

impl View for PumpStep {
    type V = StepView;

    open spec fn view(&self) -> StepView {
        match self {
            PumpStep::Poll => StepView::Poll,
            PumpStep::Acquire(n) => StepView::Acquire(*n as nat),
            PumpStep::Last(op) => StepView::Last(op@),
            PumpStep::Reset => StepView::Reset,
            PumpStep::Stop => StepView::Stop,
        }
    }
}

/// A body that is being sent.
#[derive(Debug)]
pub struct Pump {
    pub id: u32,
    /// Largest payload of one frame.
    pub max_frame: usize,
    /// Message bytes that the body gave and that were not yet queued.
    pub rest: Bytes,
}

/// What a pump holds.
pub struct PumpView {
    pub id: u32,
    pub max_frame: nat,
    pub rest: Seq<u8>,
}

impl View for Pump {
    type V = PumpView;

    open spec fn view(&self) -> PumpView {
        PumpView {
            id: self.id,
            max_frame: self.max_frame as nat,
            rest: bytes_view(self.rest),
        }
    }
}

/// Which end of a connection sends a body.
pub enum Side {
    /// The client: a request.
    Request,
    /// The server: a response.
    Response,
}

impl PumpView {
    /// What to do with the bytes at hand.
    pub open spec fn plan(self) -> StepView {
        if self.rest.len() == 0 {
            StepView::Poll
        } else if self.rest.len() <= self.max_frame {
            StepView::Acquire(self.rest.len())
        } else {
            StepView::Acquire(self.max_frame)
        }
    }

    /// The frame with the next `n` bytes.
    pub open spec fn piece(self, n: nat) -> FrameView {
        data_frame(self.id, self.rest.take(n as int), false)
    }

    /// The pump after the next `n` bytes.
    pub open spec fn without(self, n: nat) -> PumpView {
        PumpView { rest: self.rest.skip(n as int), ..self }
    }

    /// What an item of a body leads to. A request has no trailers, so those are
    /// ignored, and one that fails is given up; a response ends with its trailers, or
    /// with those that say how it failed. An end without trailers is an empty frame.
    pub open spec fn after(self, side: Side, item: OutView) -> (PumpView, StepView) {
        match item {
            OutView::Data(b) => {
                let p = PumpView { rest: b, ..self };
                (p, p.plan())
            },
            OutView::Trailers(h) => match side {
                Side::Request => (self, StepView::Poll),
                Side::Response => (self, StepView::Last(trailers_frame(self.id, h))),
            },
            OutView::Other => (self, StepView::Poll),
            OutView::Failed(h) => match side {
                Side::Request => (self, StepView::Reset),
                Side::Response => (self, StepView::Last(trailers_frame(self.id, h))),
            },
            OutView::End => (self, StepView::Last(data_frame(self.id, Seq::empty(), true))),
        }
    }
}

/// A DATA frame.
pub open spec fn data_frame(id: u32, payload: Seq<u8>, end: bool) -> FrameView {
    FrameView {
        typ: FrameType::Data,
        flags: if end { FLAG_END_STREAM } else { 0 },
        stream_id: id,
        payload,
    }
}

/// A block that holds only headers.
pub open spec fn plain_block(headers: Seq<(Seq<u8>, Seq<u8>)>) -> BlockView {
    BlockView { path: None, authority: None, status: None, headers }
}

/// The block of a response head.
pub open spec fn head_block(status: u16, headers: Seq<(Seq<u8>, Seq<u8>)>) -> BlockView {
    BlockView { path: None, authority: None, status: Some(status), headers }
}

/// A TRAILERS frame; it always ends the stream.
pub open spec fn trailers_frame(id: u32, headers: Seq<(Seq<u8>, Seq<u8>)>) -> FrameView {
    FrameView {
        typ: FrameType::Trailers,
        flags: FLAG_END_STREAM,
        stream_id: id,
        payload: block_bytes(plain_block(headers)),
    }
}

/// The response head of a stream.
pub open spec fn head_frame(
    id: u32,
    status: u16,
    headers: Seq<(Seq<u8>, Seq<u8>)>,
    end: bool,
) -> FrameView {
    FrameView {
        typ: FrameType::Headers,
        flags: if end { FLAG_END_STREAM } else { 0 },
        stream_id: id,
        payload: block_bytes(head_block(status, headers)),
    }
}

/// The HEADERS frame of a response; it ends the stream where there is no body.
pub fn response_head(
    id: u32,
    status: u16,
    headers: &HeaderMap<HeaderValue>,
    immediate_end: bool,
) -> (r: WriteOp)
    requires
        fits(head_block(status, header_map_view(*headers))),
    ensures
        r@ == head_frame(id, status, header_map_view(*headers), immediate_end),
{
    let payload = encode_header_block(None, None, Some(status), headers);
    WriteOp::Frame {
        typ: FrameType::Headers,
        flags: if immediate_end {
            FLAG_END_STREAM
        } else {
            0
        },
        stream_id: id,
        payload,
    }
}

/// The TRAILERS frame of a response. It takes the data queue, so that it cannot
/// overtake the stream's DATA.
pub fn send_trailers(id: u32, trailers: &HeaderMap<HeaderValue>) -> (r: WriteOp)
    requires
        fits(plain_block(header_map_view(*trailers))),
    ensures
        r@ == trailers_frame(id, header_map_view(*trailers)),
{
    let payload = encode_header_block(None, None, None, trailers);
    WriteOp::Frame {
        typ: FrameType::Trailers,
        flags: FLAG_END_STREAM,
        stream_id: id,
        payload,
    }
}

/// The bytes of `grpc-status`.
pub open spec fn grpc_status_name() -> Seq<u8> {
    seq![0x67, 0x72, 0x70, 0x63, 0x2d, 0x73, 0x74, 0x61, 0x74, 0x75, 0x73]
}

/// The trailers of a response body that failed: the headers into which its
/// status was written, or, where that did not work, those with the status code of
/// an internal error.
pub fn status_trailers(added: bool, headers: HeaderMap<HeaderValue>) -> (r: HeaderMap<HeaderValue>)
    requires
        header_map_view(headers).len() <= 4096,
    ensures
        header_map_view(r) == if added {
            header_map_view(headers)
        } else {
            insert_entry(header_map_view(headers), grpc_status_name(), seq![0x31u8, 0x33])
        },
{
    if added {
        return headers;
    }
    let name: [u8; 11] = [0x67, 0x72, 0x70, 0x63, 0x2d, 0x73, 0x74, 0x61, 0x74, 0x75, 0x73];
    let value: [u8; 2] = [0x31, 0x33];
    proof {
        assert(name@ =~= grpc_status_name());
        assert(value@ =~= seq![0x31u8, 0x33]);
        assert(valid_header_name(name@));
        assert(valid_header_value(value@));
        assert(lower(name@) =~= name@);
    }
    let mut headers = headers;
    match header_name_from_bytes(name.as_slice()) {
        Ok(n) => match header_value_from_bytes(value.as_slice()) {
            Ok(v) => {
                header_map_insert(&mut headers, n, v);
            },
            Err(_) => {
                assert(false);
            },
        },
        Err(_) => {
            assert(false);
        },
    }
    headers
}

impl Pump {
    /// A pump for the body of a stream.
    pub fn new(id: u32, max_frame: usize) -> (r: Self)
        ensures
            r@ == (PumpView { id, max_frame: max_frame as nat, rest: Seq::empty() }),
    {
        Pump { id, max_frame, rest: bytes_new() }
    }

    fn more(&self) -> (r: PumpStep)
        ensures
            r@ == self@.plan(),
    {
        let n: usize = bytes_len(&self.rest);
        if n == 0 {
            PumpStep::Poll
        } else if n <= self.max_frame {
            PumpStep::Acquire(n)
        } else {
            PumpStep::Acquire(self.max_frame)
        }
    }

    /// Credit for `n` bytes was taken: gives the DATA frame with the next `n`
    /// bytes.
    pub fn granted(&mut self, n: usize) -> (r: WriteOp)
        requires
            n <= old(self)@.rest.len(),
        ensures
            r@ == old(self)@.piece(n as nat),
            final(self)@ == old(self)@.without(n as nat),
    {
        let payload = bytes_split_to(&mut self.rest, n);
        WriteOp::Data { stream_id: self.id, payload, end_stream: false }
    }

    /// A DATA frame was queued, or could not be because the connection is gone.
    pub fn queued(&self, ok: bool) -> (r: PumpStep)
        ensures
            r@ == if ok {
                self@.plan()
            } else {
                StepView::Stop
            },
    {
        if ok {
            self.more()
        } else {
            PumpStep::Stop
        }
    }

    /// What a request body leads to. It has no trailers in gRPC, so those are
    /// ignored; its end half-closes the stream.
    pub fn request_item(&mut self, item: OutItem) -> (r: PumpStep)
        requires
            old(self)@.rest.len() == 0,
        ensures
            (final(self)@, r@) == old(self)@.after(Side::Request, item@),
    {
        match item {
            OutItem::Data(b) => {
                self.rest = b;
                self.more()
            },
            OutItem::Trailers(_) => PumpStep::Poll,
            OutItem::Other => PumpStep::Poll,
            OutItem::Failed(_) => PumpStep::Reset,
            OutItem::End => PumpStep::Last(
                WriteOp::Data { stream_id: self.id, payload: bytes_new(), end_stream: true },
            ),
        }
    }

    /// What a response body leads to. Trailers end the stream; a failure becomes
    /// trailers; an end without trailers is a plain end of the stream.
    pub fn response_item(&mut self, item: OutItem) -> (r: PumpStep)
        requires
            old(self)@.rest.len() == 0,
            item matches OutItem::Trailers(h) ==> fits(plain_block(header_map_view(h))),
            item matches OutItem::Failed(h) ==> fits(plain_block(header_map_view(h))),
        ensures
            (final(self)@, r@) == old(self)@.after(Side::Response, item@),
    {
        match item {
            OutItem::Data(b) => {
                self.rest = b;
                self.more()
            },
            OutItem::Trailers(h) => PumpStep::Last(send_trailers(self.id, &h)),
            OutItem::Other => PumpStep::Poll,
            OutItem::Failed(h) => PumpStep::Last(send_trailers(self.id, &h)),
            OutItem::End => PumpStep::Last(
                WriteOp::Data { stream_id: self.id, payload: bytes_new(), end_stream: true },
            ),
        }
    }
}

// ---------------------------------------------------------------------
// all the frames of a body
// ---------------------------------------------------------------------

/// Something that happens while a body is sent.
pub enum PumpEvent {
    /// The body gave an item.
    Item(OutView),
    /// Credit for so many bytes was taken, and the frame was queued.
    Granted(nat),
    /// The connection or the stream is gone.
    Gone,
}

/// A body that is being sent, and what was queued for its stream.
pub struct PumpRun {
    pub pump: PumpView,
    /// What is to be done next.
    pub step: StepView,
    /// The message bytes that the body gave, item by item.
    pub chunks: Seq<Seq<u8>>,
    /// The item that ended the body, once one did.
    pub end: Option<OutView>,
    /// The frames that were queued, in order.
    pub queue: Seq<FrameView>,
}

impl PumpRun {
    /// The run after an event that answers what was to be done; any other changes
    /// nothing.
    pub open spec fn next(self, side: Side, e: PumpEvent) -> PumpRun {
        match (self.step, e) {
            (StepView::Poll, PumpEvent::Item(item)) => {
                let (pump, step) = self.pump.after(side, item);
                PumpRun {
                    pump,
                    step,
                    chunks: match item {
                        OutView::Data(b) => self.chunks.push(b),
                        _ => self.chunks,
                    },
                    end: if step is Last {
                        Some(item)
                    } else {
                        None
                    },
                    queue: match step {
                        StepView::Last(f) => self.queue.push(f),
                        _ => self.queue,
                    },
                }
            },
            (StepView::Acquire(want), PumpEvent::Granted(n)) => if 1 <= n <= want {
                PumpRun {
                    pump: self.pump.without(n),
                    step: self.pump.without(n).plan(),
                    queue: self.queue.push(self.pump.piece(n)),
                    ..self
                }
            } else {
                self
            },
            (StepView::Acquire(_), PumpEvent::Gone) => PumpRun { step: StepView::Stop, ..self },
            _ => self,
        }
    }

    /// The last frame, once the body has ended.
    pub open spec fn last(self) -> Seq<FrameView> {
        match self.step {
            StepView::Last(f) => seq![f],
            _ => Seq::empty(),
        }
    }

    /// What was queued behind the first `h` frames, up to the last frame.
    pub open spec fn middle(self, h: int) -> Seq<FrameView> {
        self.queue.subrange(h, self.queue.len() - self.last().len())
    }
}

/// The run of a body behind the frames that were queued `first`.
pub open spec fn pump_run(
    side: Side,
    id: u32,
    max_frame: nat,
    first: Seq<FrameView>,
    events: Seq<PumpEvent>,
) -> PumpRun
    decreases events.len(),
{
    if events.len() == 0 {
        PumpRun {
            pump: PumpView { id, max_frame, rest: Seq::empty() },
            step: StepView::Poll,
            chunks: Seq::empty(),
            end: None,
            queue: first,
        }
    } else {
        pump_run(side, id, max_frame, first, events.drop_last()).next(side, events.last())
    }
}

/// The payloads of frames, in order.
pub open spec fn payloads(frames: Seq<FrameView>) -> Seq<Seq<u8>> {
    frames.map_values(|f: FrameView| f.payload)
}

/// DATA frames of a stream that do not end it, none of them empty or too large.
pub open spec fn all_pieces(frames: Seq<FrameView>, id: u32, max_frame: nat) -> bool {
    forall|k: int|
        0 <= k < frames.len() ==> {
            &&& #[trigger] frames[k] == data_frame(id, frames[k].payload, false)
            &&& 1 <= frames[k].payload.len() <= max_frame
        }
}

/// The frames of a response, however its body comes in and however little credit there
/// is at a time: the head, then DATA frames that together hold exactly the bytes of
/// the body that were taken up, in order, and then one frame that ends the stream: the
/// trailers where the body has some or failed, and else an empty one.
pub proof fn law_response_is_head_data_end(
    id: u32,
    max_frame: nat,
    status: u16,
    headers: Seq<(Seq<u8>, Seq<u8>)>,
    events: Seq<PumpEvent>,
)
    requires
        max_frame > 0,
    ensures
        ({
            let head = head_frame(id, status, headers, false);
            let r = pump_run(Side::Response, id, max_frame, seq![head], events);
            let d = r.middle(1);
            &&& r.queue == seq![head] + d + r.last()
            &&& all_pieces(d, id, max_frame)
            &&& joined(payloads(d)) + r.pump.rest == joined(r.chunks)
            &&& r.step is Last <==> r.end is Some
            &&& r.step matches StepView::Last(f) ==> {
                &&& joined(payloads(d)) == joined(r.chunks)
                &&& match r.end->0 {
                    OutView::Trailers(h) => f == trailers_frame(id, h),
                    OutView::Failed(h) => f == trailers_frame(id, h),
                    OutView::End => f == data_frame(id, Seq::empty(), true),
                    _ => false,
                }
            }
        }),
{
    let head = head_frame(id, status, headers, false);
    lemma_pump_run(Side::Response, id, max_frame, seq![head], events);
    let r = pump_run(Side::Response, id, max_frame, seq![head], events);
    assert(joined(payloads(r.middle(1))) + Seq::<u8>::empty() =~= joined(payloads(r.middle(1))));
}

/// The frames of a request behind its HEADERS, however its body comes in and however
/// little credit there is at a time: DATA frames that together hold exactly the bytes
/// of the body that were taken up, in order, and then, once the body has ended, an
/// empty frame that ends the stream.
pub proof fn law_request_is_data_end(id: u32, max_frame: nat, events: Seq<PumpEvent>)
    requires
        max_frame > 0,
    ensures
        ({
            let r = pump_run(Side::Request, id, max_frame, Seq::empty(), events);
            let d = r.middle(0);
            &&& r.queue == d + r.last()
            &&& all_pieces(d, id, max_frame)
            &&& joined(payloads(d)) + r.pump.rest == joined(r.chunks)
            &&& r.step is Last <==> r.end is Some
            &&& r.step matches StepView::Last(f) ==> {
                &&& joined(payloads(d)) == joined(r.chunks)
                &&& r.end->0 is End
                &&& f == data_frame(id, Seq::empty(), true)
            }
        }),
{
    lemma_pump_run(Side::Request, id, max_frame, Seq::empty(), events);
    let r = pump_run(Side::Request, id, max_frame, Seq::empty(), events);
    assert(Seq::<FrameView>::empty() + r.middle(0) + r.last() =~= r.middle(0) + r.last());
    assert(joined(payloads(r.middle(0))) + Seq::<u8>::empty() =~= joined(payloads(r.middle(0))));
}

proof fn lemma_joined_push(s: Seq<Seq<u8>>, x: Seq<u8>)
    ensures
        joined(s.push(x)) == joined(s) + x,
    decreases s.len(),
{
    reveal_with_fuel(joined, 2);
    if s.len() == 0 {
        assert(s.push(x).drop_first() =~= Seq::<Seq<u8>>::empty());
        assert(joined(s.push(x)) =~= joined(s) + x);
    } else {
        assert(s.push(x).drop_first() =~= s.drop_first().push(x));
        lemma_joined_push(s.drop_first(), x);
        assert(joined(s.push(x)) =~= joined(s) + x);
    }
}

proof fn lemma_pump_run(
    side: Side,
    id: u32,
    max_frame: nat,
    first: Seq<FrameView>,
    events: Seq<PumpEvent>,
)
    requires
        max_frame > 0,
    ensures
        ({
            let r = pump_run(side, id, max_frame, first, events);
            let d = r.middle(first.len() as int);
            &&& r.pump.id == id
            &&& r.pump.max_frame == max_frame
            &&& r.queue.len() >= first.len() + r.last().len()
            &&& r.queue == first + d + r.last()
            &&& all_pieces(d, id, max_frame)
            &&& joined(payloads(d)) + r.pump.rest == joined(r.chunks)
            &&& r.step is Poll || r.step is Acquire ==> r.step == r.pump.plan()
            &&& r.step is Last ==> r.pump.rest == Seq::<u8>::empty()
            &&& r.step is Last <==> r.end is Some
            &&& r.step matches StepView::Last(f) ==> r.pump.after(side, r.end->0).1 == r.step && !(
            r.end->0 is Data)
        }),
    decreases events.len(),
{
    let r = pump_run(side, id, max_frame, first, events);
    let h = first.len() as int;
    let d = r.middle(h);
    if events.len() == 0 {
        assert(d =~= Seq::<FrameView>::empty());
        assert(payloads(d) =~= Seq::<Seq<u8>>::empty());
        assert(r.queue =~= first + d + r.last());
        assert(joined(payloads(d)) + r.pump.rest =~= joined(r.chunks));
    } else {
        lemma_pump_run(side, id, max_frame, first, events.drop_last());
        let q = pump_run(side, id, max_frame, first, events.drop_last());
        let c = q.middle(h);
        match (q.step, events.last()) {
            (StepView::Poll, PumpEvent::Item(item)) => {
                assert(q.pump.rest =~= Seq::<u8>::empty());
                assert(d =~= c);
                assert(r.queue =~= first + d + r.last());
                if item is Data {
                    lemma_joined_push(q.chunks, item->Data_0);
                    assert(joined(payloads(d)) + r.pump.rest =~= joined(r.chunks));
                }
            },
            (StepView::Acquire(want), PumpEvent::Granted(n)) => {
                if 1 <= n <= want {
                    let f = q.pump.piece(n);
                    assert(d =~= c.push(f));
                    assert(r.queue =~= first + d + r.last());
                    assert(payloads(d) =~= payloads(c).push(f.payload));
                    lemma_joined_push(payloads(c), f.payload);
                    assert(f.payload + r.pump.rest =~= q.pump.rest);
                    assert(joined(payloads(d)) + r.pump.rest =~= joined(payloads(c)) + (f.payload
                        + r.pump.rest));
                } else {
                    assert(d =~= c);
                }
            },
            _ => {
                assert(d =~= c);
            },
        }
    }
}

// ---------------------------------------------------------------------
// frames and steps
// ---------------------------------------------------------------------

/// The frames of a body, part by part: the lowest flag bit says that the stream ends.
pub proof fn law_frames_of_a_body(
    id: u32,
    payload: Seq<u8>,
    end: bool,
    status: u16,
    headers: Seq<(Seq<u8>, Seq<u8>)>,
)
    ensures
        ({
            let d = data_frame(id, payload, end);
            let t = trailers_frame(id, headers);
            let h = head_frame(id, status, headers, end);
            &&& d.typ == FrameType::Data && d.stream_id == id && d.payload == payload
            &&& end ==> d.flags == 1 && h.flags == 1
            &&& !end ==> d.flags == 0 && h.flags == 0
            &&& t.typ == FrameType::Trailers && t.flags == 1 && t.stream_id == id
            &&& t.payload == block_bytes(
                BlockView { path: None, authority: None, status: None, headers },
            )
            &&& h.typ == FrameType::Headers && h.stream_id == id
            &&& h.payload == block_bytes(
                BlockView { path: None, authority: None, status: Some(status), headers },
            )
        }),
{
}

/// With bytes at hand the pump takes credit for all of them, or for one frame's worth where
/// they are more; without any it asks for more.
pub proof fn law_how_much_credit_is_asked_for(p: PumpView)
    ensures
        p.rest.len() == 0 ==> p.plan() == StepView::Poll,
        0 < p.rest.len() <= p.max_frame ==> p.plan() == StepView::Acquire(p.rest.len()),
        p.rest.len() > p.max_frame ==> p.plan() == StepView::Acquire(p.max_frame),
{
}

/// Under credit for `n` bytes the next `n` go out, in a frame that does not end the stream,
/// and the others stay.
pub proof fn law_bytes_go_out_in_order(p: PumpView, n: nat)
    requires
        n <= p.rest.len(),
    ensures
        p.piece(n).typ == FrameType::Data,
        p.piece(n).flags == 0,
        p.piece(n).stream_id == p.id,
        p.piece(n).payload.len() == n,
        p.piece(n).payload + p.without(n).rest == p.rest,
        p.without(n).id == p.id,
        p.without(n).max_frame == p.max_frame,
{
    assert(p.piece(n).payload + p.without(n).rest =~= p.rest);
}

/// What an item of a body leads to, at either end. Message bytes are taken up whole. A
/// response ends with its trailers, or with those of its failure; a request ignores
/// trailers, and is given up where it fails. The end of either is an empty frame that ends
/// the stream. Anything else is passed over.
pub proof fn law_what_an_item_leads_to(
    p: PumpView,
    b: Seq<u8>,
    h: Seq<(Seq<u8>, Seq<u8>)>,
    side: Side,
)
    ensures
        p.after(side, OutView::Data(b)).0.rest == b,
        p.after(side, OutView::Data(b)).0.id == p.id,
        p.after(side, OutView::Data(b)).0.max_frame == p.max_frame,
        b.len() == 0 ==> p.after(side, OutView::Data(b)).1 == StepView::Poll,
        0 < b.len() <= p.max_frame ==> p.after(side, OutView::Data(b)).1 == StepView::Acquire(
            b.len(),
        ),
        b.len() > p.max_frame ==> p.after(side, OutView::Data(b)).1 == StepView::Acquire(
            p.max_frame,
        ),
        p.after(side, OutView::Other) == (p, StepView::Poll),
        p.after(Side::Request, OutView::Trailers(h)) == (p, StepView::Poll),
        p.after(Side::Request, OutView::Failed(h)) == (p, StepView::Reset),
        p.after(Side::Response, OutView::Trailers(h)) == (
            p,
            StepView::Last(trailers_frame(p.id, h)),
        ),
        p.after(Side::Response, OutView::Failed(h)) == (
            p,
            StepView::Last(trailers_frame(p.id, h)),
        ),
        p.after(side, OutView::End) == (
            p,
            StepView::Last(
                FrameView {
                    typ: FrameType::Data,
                    flags: 1,
                    stream_id: p.id,
                    payload: Seq::empty(),
                },
            ),
        ),
        grpc_status_name() == seq![103u8, 114, 112, 99, 45, 115, 116, 97, 116, 117, 115],
{
}

/// Steps and items show what they hold.
pub proof fn law_steps_and_items_are_shown(s: PumpStep, i: OutItem, p: Pump)
    ensures
        s is Poll ==> s@ == StepView::Poll,
        s matches PumpStep::Acquire(n) ==> s@ == StepView::Acquire(n as nat),
        s matches PumpStep::Last(op) ==> s@ == StepView::Last(op@),
        s is Reset ==> s@ == StepView::Reset,
        s is Stop ==> s@ == StepView::Stop,
        i matches OutItem::Data(b) ==> i@ == OutView::Data(bytes_view(b)),
        i matches OutItem::Trailers(h) ==> i@ == OutView::Trailers(header_map_view(h)),
        i is Other ==> i@ == OutView::Other,
        i matches OutItem::Failed(h) ==> i@ == OutView::Failed(header_map_view(h)),
        i is End ==> i@ == OutView::End,
        p@.id == p.id,
        p@.max_frame == p.max_frame,
        p@.rest == bytes_view(p.rest),
{
}

} // verus!
