//! The client end of a connection.
//!
//! The state here is what the demux, the callers and the request pumps of one
//! connection share. Each operation changes it and lists what is to be done
//! outside: what to hand to a call, what to queue for the writer.
//!
//! Everything that must stay ordered within a stream (HEADERS, DATA, TRAILERS)
//! goes through the data queue. Only what does not depend on that order may take
//! the control queue, or a trailer could overtake its own stream's DATA.

use bytes::Bytes;
use http::{HeaderMap, HeaderValue};
use vstd::prelude::*;
use vstd::string::StringExecFns;

use crate::block::{decode_header_block, encode_header_block};
use crate::body::{status_of_reset, BodyEvent, BodyItem, Code, ShmBody, Status};
use crate::conn::{CloseReason, ConnIo};
use crate::control::{decode_goaway, decode_rst, decode_window_update, encode_rst};
use crate::flow::{RecvCredit, SendWindow};
use crate::frame::{Frame, FrameType, ProtocolError, RstCode, FLAG_ACK, MAX_FRAME_PAYLOAD};
use crate::outside::{bytes_len, status_code};
use crate::table::Table;
use crate::writer::WriteOp;

verus! {

use crate::block::{block_bytes, block_of, decode_block, fits, BlockView};
use crate::body::{queue_view, reset_status, ItemView, StatusView};
use crate::conn::{CloseView, IoView, MAX_PENDING_PING_ACKS};
use crate::control::{parse_goaway, parse_rst, parse_window_update, rst_bytes};
use crate::flow::wrapping;
use crate::frame::FrameView;
use crate::outside::{bytes_view, header_map_view, is_status_code};
use crate::table::{increasing, lemma_sorted_exists, sorted_ids};
use crate::writer::op_view;

/// Highest stream id; beyond it a connection must be replaced.
pub const MAX_STREAM_ID: u32 = 0x7fff_ffff;

/// Capacity of the bounded data queue.
pub const DATA_QUEUE_DEPTH: usize = 128;

/// What is kept for a stream.
#[derive(Debug, Clone, Copy, PartialEq, Eq, Structural)]
pub struct ClientEntry {
    /// The call still waits for the response head.
    pub awaiting_head: bool,
    /// The credit for the request body.
    pub window: SendWindow,
    /// A request pump runs.
    pub pump: bool,
}

/// The client end of a connection.
#[derive(Debug)]
pub struct ClientConn {
    pub io: ConnIo,
    pub streams: Table<ClientEntry>,
    /// The ledgers of the response bodies. A body may outlive its stream.
    pub credits: Table<RecvCredit>,
    pub next_id: u32,
    pub draining: bool,
    /// The per-stream window that the server assigned, for both directions.
    pub window: u32,
    pub max_frame: usize,
}

/// What a client end holds.
pub struct ClientView {
    pub io: IoView,
    pub streams: Map<u32, ClientEntry>,
    pub credits: Map<u32, RecvCredit>,
    pub next_id: u32,
    pub draining: bool,
    pub window: u32,
    pub max_frame: usize,
}

impl View for ClientConn {
    type V = ClientView;

    open spec fn view(&self) -> ClientView {
        ClientView {
            io: self.io@,
            streams: self.streams@,
            credits: self.credits@,
            next_id: self.next_id,
            draining: self.draining,
            window: self.window,
            max_frame: self.max_frame,
        }
    }
}

/// Something to be done outside.
#[derive(Debug)]
pub enum ClientAction {
    /// Give the call its response head.
    Head { id: u32, status: u16, headers: HeaderMap<HeaderValue>, end_stream: bool },
    /// Fail the call that waits for its response head.
    HeadFailed { id: u32, status: Status },
    /// Deliver message bytes to the response body.
    Data { id: u32, payload: Bytes },
    /// Deliver the trailers to the response body.
    Trailers { id: u32, headers: HeaderMap<HeaderValue> },
    /// Fail the response body.
    BodyFailed { id: u32, status: Status },
    /// Forget the stream: stop its request pump, end its response body, and let
    /// go of a call that still waits.
    Remove { id: u32 },
    /// Wake the request pump: there may be credit.
    WindowOpened { id: u32 },
    /// Queue for the writer, ahead of data.
    Control(WriteOp),
}

/// What an action says.
pub enum ActionView {
    Head { id: u32, status: u16, headers: Seq<(Seq<u8>, Seq<u8>)>, end_stream: bool },
    HeadFailed { id: u32, status: StatusView },
    Data { id: u32, payload: Seq<u8> },
    Trailers { id: u32, headers: Seq<(Seq<u8>, Seq<u8>)> },
    BodyFailed { id: u32, status: StatusView },
    Remove { id: u32 },
    WindowOpened { id: u32 },
    Control(FrameView),
}

impl View for ClientAction {
    type V = ActionView;

    open spec fn view(&self) -> ActionView {
        match self {
            ClientAction::Head { id, status, headers, end_stream } => ActionView::Head {
                id: *id,
                status: *status,
                headers: header_map_view(*headers),
                end_stream: *end_stream,
            },
            ClientAction::HeadFailed { id, status } => ActionView::HeadFailed {
                id: *id,
                status: status@,
            },
            ClientAction::Data { id, payload } => ActionView::Data {
                id: *id,
                payload: bytes_view(*payload),
            },
            ClientAction::Trailers { id, headers } => ActionView::Trailers {
                id: *id,
                headers: header_map_view(*headers),
            },
            ClientAction::BodyFailed { id, status } => ActionView::BodyFailed {
                id: *id,
                status: status@,
            },
            ClientAction::Remove { id } => ActionView::Remove { id: *id },
            ClientAction::WindowOpened { id } => ActionView::WindowOpened { id: *id },
            ClientAction::Control(op) => ActionView::Control(op@),
        }
    }
}

/// Actions by what they say.
pub open spec fn views(s: Seq<ClientAction>) -> Seq<ActionView> {
    s.map_values(|a: ClientAction| a@)
}

/// Lists one more action.
fn emit(out: &mut Vec<ClientAction>, a: ClientAction)
    ensures
        views(final(out)@) == views(old(out)@).push(a@),
{
    out.push(a);
    assert(views(out@) =~= views(old(out)@).push(a@));
}

impl ClientView {
    /// Ids are odd and handed out in order; each stream has a ledger; no ledger is
    /// overrun.
    pub open spec fn wf(self) -> bool {
        &&& self.next_id % 2 == 1
        &&& self.next_id <= 0x8000_0003
        &&& self.next_id > 0x8000_0001 ==> self.io.closed()
        &&& self.window > 0
        &&& 0 < self.max_frame <= MAX_FRAME_PAYLOAD
        &&& forall|id: u32| #[trigger]
            self.streams.contains_key(id) ==> {
                &&& id % 2 == 1
                &&& id < self.next_id
                &&& id <= MAX_STREAM_ID
                &&& self.credits.contains_key(id)
            }
        &&& forall|id: u32| #[trigger] self.credits.contains_key(id) ==> self.credit_ok(id)
    }

    /// The ledger of a stream belongs to it and is not overrun. A stream that was
    /// overrun fails, and its ledger may show that one frame.
    pub open spec fn credit_ok(self, id: u32) -> bool {
        let c = self.credits[id];
        let slack = if self.streams.contains_key(id) { 0 } else { MAX_FRAME_PAYLOAD as int };
        &&& c.wf()
        &&& c.stream_id == id
        &&& c.window == self.window
        &&& 0 <= c.outstanding <= c.limit() + slack
    }

    /// The state without a stream.
    pub open spec fn without(self, id: u32) -> ClientView {
        ClientView { streams: self.streams.remove(id), ..self }
    }
}

/// What an operation leads to: the state, what is to be done, and what is wrong.
pub struct Outcome {
    pub state: ClientView,
    pub actions: Seq<ActionView>,
    pub error: Option<Seq<char>>,
}

/// Nothing happens.
pub open spec fn unchanged(v: ClientView) -> Outcome {
    Outcome { state: v, actions: Seq::empty(), error: None }
}

/// Nothing happens but an error.
pub open spec fn refused(v: ClientView, m: Seq<char>) -> Outcome {
    Outcome { state: v, actions: Seq::empty(), error: Some(m) }
}

/// Failing a stream: the call where it still waits, and else the response body.
pub open spec fn fail_stream(e: ClientEntry, id: u32, status: StatusView) -> Seq<ActionView> {
    seq![
        if e.awaiting_head {
            ActionView::HeadFailed { id, status }
        } else {
            ActionView::BodyFailed { id, status }
        },
        ActionView::Remove { id },
    ]
}

/// Failing several streams, one after the other.
pub open spec fn fail_streams(
    streams: Map<u32, ClientEntry>,
    ids: Seq<u32>,
    status: StatusView,
) -> Seq<ActionView>
    decreases ids.len(),
{
    if ids.len() == 0 {
        Seq::empty()
    } else {
        fail_streams(streams, ids.drop_last(), status) + fail_stream(
            streams[ids.last()],
            ids.last(),
            status,
        )
    }
}

/// A HEADERS frame: the response head of a stream.
pub open spec fn headers_outcome(v: ClientView, f: FrameView) -> Outcome {
    let id = f.stream_id;
    match decode_block(f.payload) {
        Err(m) => refused(v, m),
        Ok(b) => if !v.streams.contains_key(id) {
            unchanged(v)
        } else if !v.streams[id].awaiting_head {
            refused(v, "duplicate HEADERS for stream"@)
        } else {
            let head = ActionView::Head {
                id,
                status: match b.status {
                    Some(s) => if is_status_code(s) {
                        s
                    } else {
                        200
                    },
                    None => 200,
                },
                headers: b.headers,
                end_stream: f.end_stream(),
            };
            if f.end_stream() {
                Outcome {
                    state: v.without(id),
                    actions: seq![head, ActionView::Remove { id }],
                    error: None,
                }
            } else {
                Outcome {
                    state: ClientView {
                        streams: v.streams.insert(
                            id,
                            ClientEntry { awaiting_head: false, ..v.streams[id] },
                        ),
                        ..v
                    },
                    actions: seq![head],
                    error: None,
                }
            }
        },
    }
}

/// A DATA frame: message bytes of a response body.
pub open spec fn data_outcome(v: ClientView, f: FrameView) -> Outcome {
    let id = f.stream_id;
    if !v.streams.contains_key(id) {
        unchanged(v)
    } else {
        let c = v.credits[id];
        let n = f.payload.len();
        let w = if n > 0 {
            ClientView {
                credits: v.credits.insert(
                    id,
                    RecvCredit { outstanding: (c.outstanding + n) as i64, ..c },
                ),
                ..v
            }
        } else {
            v
        };
        let delivered = if n > 0 {
            seq![ActionView::Data { id, payload: f.payload }]
        } else {
            Seq::empty()
        };
        if n > 0 && c.outstanding + n > c.limit() {
            refused(w, "peer overran stream flow-control window"@)
        } else if f.end_stream() {
            Outcome {
                state: w.without(id),
                actions: delivered.push(ActionView::Remove { id }),
                error: None,
            }
        } else {
            Outcome { state: w, actions: delivered, error: None }
        }
    }
}

/// A TRAILERS frame: the end of a response body.
pub open spec fn trailers_outcome(v: ClientView, f: FrameView) -> Outcome {
    let id = f.stream_id;
    match decode_block(f.payload) {
        Err(m) => refused(v, m),
        Ok(b) => if !v.streams.contains_key(id) {
            unchanged(v)
        } else if v.streams[id].awaiting_head {
            Outcome {
                state: v.without(id),
                actions: seq![ActionView::Remove { id }],
                error: Some("TRAILERS before HEADERS"@),
            }
        } else {
            Outcome {
                state: v.without(id),
                actions: seq![
                    ActionView::Trailers { id, headers: b.headers },
                    ActionView::Remove { id },
                ],
                error: None,
            }
        },
    }
}

/// A RST_STREAM frame: the server gave a stream up.
pub open spec fn rst_outcome(v: ClientView, f: FrameView) -> Outcome {
    let id = f.stream_id;
    match parse_rst(f.payload) {
        Err(m) => refused(v, m),
        Ok(code) => if !v.streams.contains_key(id) {
            unchanged(v)
        } else {
            Outcome {
                state: v.without(id),
                actions: fail_stream(v.streams[id], id, reset_status(code)),
                error: None,
            }
        },
    }
}

/// A WINDOW_UPDATE frame: credit for a request body.
pub open spec fn window_outcome(v: ClientView, f: FrameView) -> Outcome {
    let id = f.stream_id;
    match parse_window_update(f.payload) {
        Err(m) => refused(v, m),
        Ok(incr) => if !v.streams.contains_key(id) {
            unchanged(v)
        } else {
            let e = v.streams[id];
            Outcome {
                state: ClientView {
                    streams: v.streams.insert(
                        id,
                        ClientEntry {
                            window: SendWindow { avail: wrapping(e.window.avail + incr) as i64 },
                            ..e
                        },
                    ),
                    ..v
                },
                actions: seq![ActionView::WindowOpened { id }],
                error: None,
            }
        },
    }
}

/// The status of streams that a GOAWAY leaves out.
pub open spec fn goaway_status(msg: Seq<char>) -> StatusView {
    StatusView {
        code: Code::Unavailable,
        message: if msg.len() == 0 {
            "connection draining (GOAWAY)"@
        } else {
            "connection draining (GOAWAY): "@ + msg
        },
    }
}

/// A GOAWAY frame: the server drains. Streams above the last one that it
/// processes fail; the others go on.
pub open spec fn goaway_outcome(v: ClientView, f: FrameView) -> Outcome {
    match parse_goaway(f.payload) {
        Err(m) => refused(v, m),
        Ok((last, msg)) => Outcome {
            state: ClientView {
                draining: true,
                streams: v.streams.restrict(Set::new(|id: u32| id <= last)),
                ..v
            },
            actions: fail_streams(
                v.streams,
                sorted_ids(v.streams, last as int),
                goaway_status(msg),
            ),
            error: None,
        },
    }
}

/// The acknowledgement of a PING.
pub open spec fn ping_ack(payload: Seq<u8>) -> FrameView {
    FrameView { typ: FrameType::Ping, flags: FLAG_ACK, stream_id: 0, payload }
}

/// A PING frame: it is answered, unless it is an answer, is malformed, or too
/// many answers wait already.
pub open spec fn ping_outcome(v: ClientView, f: FrameView) -> Outcome {
    match f.ping_error() {
        Some(m) => refused(v, m),
        None => if f.flags & FLAG_ACK != 0 {
            unchanged(v)
        } else if v.io.ping_acks >= MAX_PENDING_PING_ACKS {
            refused(v, "peer flooded unacknowledged PINGs"@)
        } else {
            Outcome {
                state: ClientView {
                    io: IoView { ping_acks: (v.io.ping_acks + 1) as u32, ..v.io },
                    ..v
                },
                actions: seq![ActionView::Control(ping_ack(f.payload))],
                error: None,
            }
        },
    }
}

/// What an inbound frame leads to.
pub open spec fn frame_outcome(v: ClientView, f: FrameView) -> Outcome {
    match f.typ {
        FrameType::Headers => headers_outcome(v, f),
        FrameType::Data => data_outcome(v, f),
        FrameType::Trailers => trailers_outcome(v, f),
        FrameType::RstStream => rst_outcome(v, f),
        FrameType::WindowUpdate => window_outcome(v, f),
        FrameType::GoAway => goaway_outcome(v, f),
        FrameType::Ping => ping_outcome(v, f),
    }
}

/// The result of an operation and the actions that it listed are those of an
/// outcome.
pub open spec fn matches_outcome(
    r: Result<(), ProtocolError>,
    after: ClientView,
    before: Seq<ActionView>,
    listed: Seq<ActionView>,
    o: Outcome,
) -> bool {
    &&& after == o.state
    &&& listed == before + o.actions
    &&& match r {
        Ok(_) => o.error is None,
        Err(e) => o.error == Some(e.0@),
    }
}

impl ClientConn {
    /// A fresh connection with the window that the server assigned.
    pub open spec fn fresh(window: u32, max_frame: usize) -> ClientView {
        ClientView {
            io: IoView { reason: None, graceful: false, ping_acks: 0 },
            streams: Map::empty(),
            credits: Map::empty(),
            next_id: 1,
            draining: false,
            window,
            max_frame,
        }
    }

    /// A fresh connection with the window that the server assigned.
    pub fn new(window: u32, max_frame: usize) -> (r: Self)
        requires
            window > 0,
            0 < max_frame <= MAX_FRAME_PAYLOAD,
        ensures
            r@.wf(),
            r@ == Self::fresh(window, max_frame),
    {
        ClientConn {
            io: ConnIo::new(),
            streams: Table::new(),
            credits: Table::new(),
            next_id: 1,
            draining: false,
            window,
            max_frame,
        }
    }

    fn on_headers(&mut self, frame: Frame, out: &mut Vec<ClientAction>) -> (r: Result<
        (),
        ProtocolError,
    >)
        ensures
            matches_outcome(
                r,
                final(self)@,
                views(old(out)@),
                views(final(out)@),
                headers_outcome(old(self)@, frame@),
            ),
    {
        let end_stream = frame.end_stream();
        let id: u32 = frame.stream_id;
        let block = match decode_header_block(frame.payload) {
            Err(e) => {
                assert(views(out@) =~= views(old(out)@) + Seq::<ActionView>::empty());
                return Err(e);
            },
            Ok(b) => b,
        };
        match self.streams.get(id) {
            None => {
                assert(views(out@) =~= views(old(out)@) + Seq::<ActionView>::empty());
                Ok(())
            },
            Some(entry) => {
                if !entry.awaiting_head {
                    assert(views(out@) =~= views(old(out)@) + Seq::<ActionView>::empty());
                    return Err(ProtocolError("duplicate HEADERS for stream".to_owned()));
                }
                let status: u16 = match block.status {
                    None => 200,
                    Some(s) => match status_code(s) {
                        Some(c) => c,
                        None => 200,
                    },
                };
                emit(out, ClientAction::Head { id, status, headers: block.headers, end_stream });
                if end_stream {
                    let _ = self.streams.remove(id);
                    emit(out, ClientAction::Remove { id });
                } else {
                    self.streams.put(id, ClientEntry { awaiting_head: false, ..entry });
                }
                assert(views(out@) =~= views(old(out)@) + headers_outcome(
                    old(self)@,
                    frame@,
                ).actions);
                Ok(())
            },
        }
    }

    fn on_data(&mut self, frame: Frame, out: &mut Vec<ClientAction>) -> (r: Result<
        (),
        ProtocolError,
    >)
        requires
            old(self)@.wf(),
            frame@.payload.len() <= MAX_FRAME_PAYLOAD,
        ensures
            matches_outcome(
                r,
                final(self)@,
                views(old(out)@),
                views(final(out)@),
                data_outcome(old(self)@, frame@),
            ),
    {
        let end_stream = frame.end_stream();
        let id: u32 = frame.stream_id;
        if self.streams.get(id).is_none() {
            assert(views(out@) =~= views(old(out)@) + Seq::<ActionView>::empty());
            return Ok(());
        }
        let n: usize = bytes_len(&frame.payload);
        if n > 0 {
            let mut credit = match self.credits.get(id) {
                Some(c) => c,
                None => {
                    assert(false);
                    RecvCredit::new(id, self.window)
                },
            };
            assert(self@.credit_ok(id));
            let within = credit.on_data(n);
            self.credits.put(id, credit);
            if !within {
                assert(views(out@) =~= views(old(out)@) + Seq::<ActionView>::empty());
                return Err(
                    ProtocolError("peer overran stream flow-control window".to_owned()),
                );
            }
            emit(out, ClientAction::Data { id, payload: frame.payload });
        }
        if end_stream {
            let _ = self.streams.remove(id);
            emit(out, ClientAction::Remove { id });
        }
        assert(views(out@) =~= views(old(out)@) + data_outcome(old(self)@, frame@).actions);
        Ok(())
    }

    fn on_trailers(&mut self, frame: Frame, out: &mut Vec<ClientAction>) -> (r: Result<
        (),
        ProtocolError,
    >)
        ensures
            matches_outcome(
                r,
                final(self)@,
                views(old(out)@),
                views(final(out)@),
                trailers_outcome(old(self)@, frame@),
            ),
    {
        let id: u32 = frame.stream_id;
        let block = match decode_header_block(frame.payload) {
            Err(e) => {
                assert(views(out@) =~= views(old(out)@) + Seq::<ActionView>::empty());
                return Err(e);
            },
            Ok(b) => b,
        };
        match self.streams.remove(id) {
            None => {
                assert(self@.streams =~= old(self)@.streams);
                assert(views(out@) =~= views(old(out)@) + Seq::<ActionView>::empty());
                Ok(())
            },
            Some(entry) => {
                if entry.awaiting_head {
                    emit(out, ClientAction::Remove { id });
                    assert(views(out@) =~= views(old(out)@) + seq![ActionView::Remove { id }]);
                    return Err(ProtocolError("TRAILERS before HEADERS".to_owned()));
                }
                emit(out, ClientAction::Trailers { id, headers: block.headers });
                emit(out, ClientAction::Remove { id });
                assert(views(out@) =~= views(old(out)@) + trailers_outcome(
                    old(self)@,
                    frame@,
                ).actions);
                Ok(())
            },
        }
    }

    /// Fails a stream that was taken out of the table.
    fn fail_one(entry: ClientEntry, id: u32, status: Status, out: &mut Vec<ClientAction>)
        ensures
            views(final(out)@) == views(old(out)@) + fail_stream(entry, id, status@),
    {
        if entry.awaiting_head {
            emit(out, ClientAction::HeadFailed { id, status });
        } else {
            emit(out, ClientAction::BodyFailed { id, status });
        }
        emit(out, ClientAction::Remove { id });
        assert(views(out@) =~= views(old(out)@) + fail_stream(entry, id, status@));
    }

    fn on_rst(&mut self, frame: Frame, out: &mut Vec<ClientAction>) -> (r: Result<
        (),
        ProtocolError,
    >)
        ensures
            matches_outcome(
                r,
                final(self)@,
                views(old(out)@),
                views(final(out)@),
                rst_outcome(old(self)@, frame@),
            ),
    {
        let id: u32 = frame.stream_id;
        let code = match decode_rst(frame.payload) {
            Err(e) => {
                assert(views(out@) =~= views(old(out)@) + Seq::<ActionView>::empty());
                return Err(e);
            },
            Ok(c) => c,
        };
        match self.streams.remove(id) {
            None => {
                assert(self@.streams =~= old(self)@.streams);
                assert(views(out@) =~= views(old(out)@) + Seq::<ActionView>::empty());
            },
            Some(entry) => {
                Self::fail_one(entry, id, status_of_reset(code), out);
            },
        }
        Ok(())
    }

    fn on_window_update(&mut self, frame: Frame, out: &mut Vec<ClientAction>) -> (r: Result<
        (),
        ProtocolError,
    >)
        ensures
            matches_outcome(
                r,
                final(self)@,
                views(old(out)@),
                views(final(out)@),
                window_outcome(old(self)@, frame@),
            ),
    {
        let id: u32 = frame.stream_id;
        let incr: u32 = match decode_window_update(frame.payload) {
            Err(e) => {
                assert(views(out@) =~= views(old(out)@) + Seq::<ActionView>::empty());
                return Err(e);
            },
            Ok(n) => n,
        };
        match self.streams.get(id) {
            None => {
                assert(views(out@) =~= views(old(out)@) + Seq::<ActionView>::empty());
            },
            Some(entry) => {
                let mut window = entry.window;
                window.add(incr);
                self.streams.put(id, ClientEntry { window, ..entry });
                emit(out, ClientAction::WindowOpened { id });
                assert(views(out@) =~= views(old(out)@) + seq![ActionView::WindowOpened { id }]);
            },
        }
        Ok(())
    }

    /// Fails the streams with the given ids, one after the other.
    fn fail_listed(&mut self, ids: &Vec<u32>, status: &Status, out: &mut Vec<ClientAction>)
        requires
            increasing(ids@),
            forall|i: int| 0 <= i < ids@.len() ==> old(self)@.streams.contains_key(
                #[trigger] ids@[i],
            ),
        ensures
            final(self)@ == (ClientView {
                streams: old(self)@.streams.remove_keys(ids@.to_set()),
                ..old(self)@
            }),
            views(final(out)@) == views(old(out)@) + fail_streams(
                old(self)@.streams,
                ids@,
                status@,
            ),
    {
        let ghost before = self@;
        let ghost listed = views(out@);
        let mut i: usize = 0;
        assert(self@.streams =~= before.streams.remove_keys(ids@.take(0).to_set()));
        assert(views(out@) =~= listed + fail_streams(before.streams, ids@.take(0), status@));
        while i < ids.len()
            invariant
                i <= ids@.len(),
                increasing(ids@),
                forall|k: int| 0 <= k < ids@.len() ==> before.streams.contains_key(
                    #[trigger] ids@[k],
                ),
                self@ == (ClientView {
                    streams: before.streams.remove_keys(ids@.take(i as int).to_set()),
                    ..before
                }),
                views(out@) == listed + fail_streams(
                    before.streams,
                    ids@.take(i as int),
                    status@,
                ),
            decreases ids@.len() - i,
        {
            let id: u32 = ids[i];
            let ghost now = ids@.take(i as int);
            let ghost next = ids@.take(i + 1);
            proof {
                assert(next.drop_last() =~= now);
                assert(next.last() == id);
                assert(!now.contains(id)) by {
                    if now.contains(id) {
                        let k = choose|k: int| 0 <= k < now.len() && now[k] == id;
                        assert(ids@[k] < ids@[i as int]);
                    }
                }
                assert(self@.streams.contains_key(id));
                assert forall|k: u32| next.to_set().contains(k) <==> now.to_set().contains(k) || k
                    == id by {
                    if next.contains(k) {
                        let j = choose|j: int| 0 <= j < next.len() && next[j] == k;
                        if j < i {
                            assert(now[j] == k);
                        }
                    }
                    if now.contains(k) {
                        let j = choose|j: int| 0 <= j < now.len() && now[j] == k;
                        assert(next[j] == k);
                    }
                    assert(next[i as int] == id);
                }
            }
            match self.streams.remove(id) {
                Some(entry) => {
                    Self::fail_one(entry, id, status.clone(), out);
                },
                None => {
                    assert(false);
                },
            }
            assert(self@.streams =~= before.streams.remove_keys(next.to_set()));
            assert(views(out@) =~= listed + fail_streams(before.streams, next, status@));
            i += 1;
        }
        assert(ids@.take(ids@.len() as int) =~= ids@);
    }

    fn on_goaway(&mut self, frame: Frame, out: &mut Vec<ClientAction>) -> (r: Result<
        (),
        ProtocolError,
    >)
        ensures
            matches_outcome(
                r,
                final(self)@,
                views(old(out)@),
                views(final(out)@),
                goaway_outcome(old(self)@, frame@),
            ),
    {
        let (last, msg) = match decode_goaway(frame.payload) {
            Err(e) => {
                assert(views(out@) =~= views(old(out)@) + Seq::<ActionView>::empty());
                return Err(e);
            },
            Ok(g) => g,
        };
        self.draining = true;
        let doomed = self.streams.ids_above(last as i64);
        let status = Status {
            code: Code::Unavailable,
            message: if msg.as_str().unicode_len() == 0 {
                "connection draining (GOAWAY)".to_owned()
            } else {
                let mut s = "connection draining (GOAWAY): ".to_owned();
                s.append(msg.as_str());
                s
            },
        };
        proof {
            assert forall|i: int| 0 <= i < doomed@.len() implies self@.streams.contains_key(
                #[trigger] doomed@[i],
            ) by {
                assert(doomed@.contains(doomed@[i]));
            }
        }
        self.fail_listed(&doomed, &status, out);
        proof {
            let left = old(self)@.streams.restrict(Set::new(|id: u32| id <= last));
            assert(self@.streams =~= left) by {
                assert forall|id: u32| #[trigger] self@.streams.contains_key(id)
                    == left.contains_key(id) by {
                    assert(doomed@.to_set().contains(id) == doomed@.contains(id));
                }
            }
        }
        Ok(())
    }

    fn on_ping(&mut self, frame: Frame, out: &mut Vec<ClientAction>) -> (r: Result<
        (),
        ProtocolError,
    >)
        ensures
            matches_outcome(
                r,
                final(self)@,
                views(old(out)@),
                views(final(out)@),
                ping_outcome(old(self)@, frame@),
            ),
    {
        match frame.validate_ping() {
            Err(e) => {
                assert(views(out@) =~= views(old(out)@) + Seq::<ActionView>::empty());
                return Err(e);
            },
            Ok(_) => {},
        }
        if frame.flags & FLAG_ACK == 0 {
            if !self.io.queue_ping_ack() {
                assert(views(out@) =~= views(old(out)@) + Seq::<ActionView>::empty());
                return Err(ProtocolError("peer flooded unacknowledged PINGs".to_owned()));
            }
            emit(
                out,
                ClientAction::Control(
                    WriteOp::Frame {
                        typ: FrameType::Ping,
                        flags: FLAG_ACK,
                        stream_id: 0,
                        payload: frame.payload,
                    },
                ),
            );
            assert(views(out@) =~= views(old(out)@) + seq![
                ActionView::Control(ping_ack(frame@.payload)),
            ]);
        } else {
            assert(views(out@) =~= views(old(out)@) + Seq::<ActionView>::empty());
        }
        Ok(())
    }

    /// Handles an inbound frame. An error fails the connection.
    pub fn handle_frame(&mut self, frame: Frame, out: &mut Vec<ClientAction>) -> (r: Result<
        (),
        ProtocolError,
    >)
        requires
            old(self)@.wf(),
            frame@.payload.len() <= MAX_FRAME_PAYLOAD,
        ensures
            matches_outcome(
                r,
                final(self)@,
                views(old(out)@),
                views(final(out)@),
                frame_outcome(old(self)@, frame@),
            ),
            r is Ok ==> final(self)@.wf(),
    {
        let r = match frame.typ {
            FrameType::Headers => self.on_headers(frame, out),
            FrameType::Data => self.on_data(frame, out),
            FrameType::Trailers => self.on_trailers(frame, out),
            FrameType::RstStream => self.on_rst(frame, out),
            FrameType::WindowUpdate => self.on_window_update(frame, out),
            FrameType::GoAway => self.on_goaway(frame, out),
            FrameType::Ping => self.on_ping(frame, out),
        };
        proof {
            if r is Ok {
                lemma_frame_keeps_wf(old(self)@, frame@);
            }
        }
        r
    }
}

proof fn lemma_failed_wf(v: ClientView, f: FrameView)
    requires
        v.wf(),
        f.payload.len() <= MAX_FRAME_PAYLOAD,
        frame_outcome(v, f).error is Some,
    ensures
        demux_outcome(v, f).state.wf(),
{
    let w = demux_outcome(v, f).state;
    assert forall|k: u32| #[trigger] w.credits.contains_key(k) implies w.credit_ok(k) by {
        assert(v.credits.contains_key(k));
        assert(v.credit_ok(k));
    }
}

proof fn lemma_frame_keeps_wf(v: ClientView, f: FrameView)
    requires
        v.wf(),
        f.payload.len() <= MAX_FRAME_PAYLOAD,
        frame_outcome(v, f).error is None,
    ensures
        frame_outcome(v, f).state.wf(),
{
    let w = frame_outcome(v, f).state;
    assert forall|id: u32| #[trigger] w.credits.contains_key(id) implies w.credit_ok(id) by {
        assert(v.credits.contains_key(id));
        assert(v.credit_ok(id));
    }
    assert forall|id: u32| #[trigger] w.streams.contains_key(id) implies {
        &&& id % 2 == 1
        &&& id < w.next_id
        &&& id <= MAX_STREAM_ID
        &&& w.credits.contains_key(id)
    } by {
        assert(v.streams.contains_key(id));
    }
}

// ---------------------------------------------------------------------
// the end of a connection
// ---------------------------------------------------------------------

/// The status of everything that a closed connection takes down.
pub open spec fn close_status(reason: CloseView) -> StatusView {
    StatusView {
        code: Code::Unavailable,
        message: "shmsc connection lost: "@ + reason.text(),
    }
}

/// The status of everything that a closed connection takes down.
pub fn status_for_close(reason: &CloseReason) -> (r: Status)
    ensures
        r@ == close_status(reason@),
{
    let mut s = "shmsc connection lost: ".to_owned();
    s.append(reason.display().as_str());
    Status { code: Code::Unavailable, message: s }
}

/// Failing every stream.
pub open spec fn fail_all_outcome(v: ClientView, status: StatusView) -> Outcome {
    Outcome {
        state: ClientView { streams: Map::empty(), ..v },
        actions: fail_streams(v.streams, sorted_ids(v.streams, -1), status),
        error: None,
    }
}

/// The end of the inbound ring: the connection is closed, and every stream fails with that
/// reason.
pub open spec fn read_failed_outcome(v: ClientView, reason: CloseView) -> Outcome {
    Outcome {
        state: ClientView { io: v.io.close(reason), streams: Map::empty(), ..v },
        actions: fail_all_outcome(v, close_status(reason)).actions,
        error: None,
    }
}

/// The demux step for a frame: a violation closes the connection and fails every
/// stream.
pub open spec fn demux_outcome(v: ClientView, f: FrameView) -> Outcome {
    let o = frame_outcome(v, f);
    match o.error {
        None => o,
        Some(m) => {
            let io = o.state.io.close(CloseView::Protocol(m));
            let end = fail_all_outcome(
                ClientView { io, ..o.state },
                close_status(io.close_reason()),
            );
            Outcome { state: end.state, actions: o.actions + end.actions, error: Some(m) }
        },
    }
}

impl ClientConn {
    /// Fails every live stream with `status`, in the order of their ids.
    pub fn fail_all(&mut self, status: &Status, out: &mut Vec<ClientAction>)
        ensures
            final(self)@ == fail_all_outcome(old(self)@, status@).state,
            views(final(out)@) == views(old(out)@) + fail_all_outcome(
                old(self)@,
                status@,
            ).actions,
    {
        let ids = self.streams.ids_above(-1);
        proof {
            assert forall|i: int| 0 <= i < ids@.len() implies self@.streams.contains_key(
                #[trigger] ids@[i],
            ) by {
                assert(ids@.contains(ids@[i]));
            }
        }
        self.fail_listed(&ids, status, out);
        proof {
            assert(self@.streams =~= Map::<u32, ClientEntry>::empty()) by {
                assert forall|id: u32| !(#[trigger] self@.streams.contains_key(id)) by {
                    assert(ids@.to_set().contains(id) == ids@.contains(id));
                }
            }
        }
    }

    /// Handles a frame for the demux. `false` means that the connection failed
    /// and the demux is to stop.
    pub fn on_frame(&mut self, frame: Frame, out: &mut Vec<ClientAction>) -> (r: bool)
        requires
            old(self)@.wf(),
            frame@.payload.len() <= MAX_FRAME_PAYLOAD,
        ensures
            final(self)@ == demux_outcome(old(self)@, frame@).state,
            views(final(out)@) == views(old(out)@) + demux_outcome(old(self)@, frame@).actions,
            r == (demux_outcome(old(self)@, frame@).error is None),
            final(self)@.wf(),
            !r ==> final(self)@.io.closed() && final(self)@.streams == Map::<
                u32,
                ClientEntry,
            >::empty(),
    {
        match self.handle_frame(frame, out) {
            Ok(_) => true,
            Err(e) => {
                let _ = self.io.close(CloseReason::Protocol(e.0));
                let status = status_for_close(&self.io.close_reason());
                self.fail_all(&status, out);
                assert(views(out@) =~= views(old(out)@) + demux_outcome(
                    old(self)@,
                    frame@,
                ).actions);
                proof {
                    lemma_failed_wf(old(self)@, frame@);
                }
                false
            },
        }
    }

    /// Handles the end of the inbound ring: the connection is closed for that
    /// reason, if it was not closed before, and every stream fails.
    pub fn on_read_failed(&mut self, reason: CloseReason, out: &mut Vec<ClientAction>)
        requires
            old(self)@.wf(),
        ensures
            final(self)@.wf(),
            final(self)@ == (ClientView {
                io: old(self)@.io.close(reason@),
                streams: Map::empty(),
                ..old(self)@
            }),
            views(final(out)@) == views(old(out)@) + fail_all_outcome(
                old(self)@,
                close_status(reason@),
            ).actions,
            final(self)@ == read_failed_outcome(old(self)@, reason@).state,
            views(final(out)@) == views(old(out)@) + read_failed_outcome(
                old(self)@,
                reason@,
            ).actions,
    {
        let status = status_for_close(&reason);
        let _ = self.io.close(reason);
        self.fail_all(&status, out);
        proof {
            let v = old(self)@;
            let w = self@;
            assert forall|k: u32| #[trigger] w.credits.contains_key(k) implies w.credit_ok(k) by {
                assert(v.credits.contains_key(k));
                assert(v.credit_ok(k));
            }
        }
    }

    // -----------------------------------------------------------------
    // calls
    // -----------------------------------------------------------------

    /// Why no call can be made now, if so.
    pub open spec fn refusal(v: ClientView) -> Option<StatusView> {
        if v.io.closed() {
            Some(close_status(v.io.close_reason()))
        } else if v.draining {
            Some(
                StatusView {
                    code: Code::Unavailable,
                    message: "shmsc connection is draining (GOAWAY)"@,
                },
            )
        } else {
            None
        }
    }

    /// Whether a call can be made now; the status if not.
    pub fn poll_ready(&self) -> (r: Result<(), Status>)
        ensures
            match r {
                Ok(_) => Self::refusal(self@) is None,
                Err(s) => Self::refusal(self@) == Some(s@),
            },
    {
        if self.io.is_closed() {
            return Err(status_for_close(&self.io.close_reason()));
        }
        if self.draining {
            return Err(
                Status::new(Code::Unavailable, "shmsc connection is draining (GOAWAY)"),
            );
        }
        Ok(())
    }

    /// The entry of a stream that was just opened.
    pub open spec fn fresh_entry(window: u32) -> ClientEntry {
        ClientEntry {
            awaiting_head: true,
            window: SendWindow { avail: window as i64 },
            pump: false,
        }
    }

    /// The state after a stream was opened.
    pub open spec fn opened(v: ClientView) -> ClientView {
        ClientView {
            streams: v.streams.insert(v.next_id, Self::fresh_entry(v.window)),
            credits: v.credits.insert(v.next_id, RecvCredit::fresh(v.next_id, v.window)),
            next_id: (v.next_id + 2) as u32,
            ..v
        }
    }

    /// The state after a stream was asked for and the ids were used up.
    pub open spec fn exhausted(v: ClientView) -> ClientView {
        ClientView {
            io: v.io.close(CloseView::Local),
            next_id: (v.next_id + 2) as u32,
            ..v
        }
    }

    /// Opens a stream for a request: assigns the next id, keeps an entry for it,
    /// and gives the HEADERS frame, which must be queued before the next stream is
    /// opened. Where the ids are used up the connection is closed.
    pub fn open_stream(
        &mut self,
        path: &str,
        authority: Option<&str>,
        headers: &HeaderMap<HeaderValue>,
    ) -> (r: Result<(u32, WriteOp), Status>)
        requires
            old(self)@.wf(),
            fits(block_of(Some(path), authority, None, *headers)),
        ensures
            final(self)@.wf(),
            ({
                let o = open_outcome(old(self)@, block_of(Some(path), authority, None, *headers));
                &&& final(self)@ == o.0
                &&& match r {
                    Ok(x) => o.1 == Ok::<(u32, FrameView), StatusView>((x.0, x.1@)),
                    Err(e) => o.1 == Err::<(u32, FrameView), StatusView>(e@),
                }
            }),
            match Self::refusal(old(self)@) {
                Some(s) => (r matches Err(e) && e@ == s) && final(self)@ == old(self)@,
                None => if old(self)@.next_id > MAX_STREAM_ID {
                    &&& r matches Err(e)
                    &&& e@ == (StatusView {
                        code: Code::Unavailable,
                        message: "shmsc connection exhausted stream ids"@,
                    })
                    &&& final(self)@ == Self::exhausted(old(self)@)
                } else {
                    &&& r matches Ok((id, op))
                    &&& id == old(self)@.next_id
                    &&& op@ == open_frame(id, block_of(Some(path), authority, None, *headers))
                    &&& final(self)@ == Self::opened(old(self)@)
                },
            },
    {
        match self.poll_ready() {
            Err(s) => {
                return Err(s);
            },
            Ok(_) => {},
        }
        let payload = encode_header_block(Some(path), authority, None, headers);
        let id: u32 = self.next_id;
        self.next_id = id + 2;
        if id > MAX_STREAM_ID {
            let _ = self.io.close(CloseReason::Local);
            proof {
                lemma_same_tables(old(self)@, self@);
            }
            return Err(
                Status::new(Code::Unavailable, "shmsc connection exhausted stream ids"),
            );
        }
        self.credits.put(id, RecvCredit::new(id, self.window));
        self.streams.put(
            id,
            ClientEntry {
                awaiting_head: true,
                window: SendWindow::new(self.window),
                pump: false,
            },
        );
        proof {
            let v = old(self)@;
            let w = self@;
            assert forall|k: u32| #[trigger] w.credits.contains_key(k) implies w.credit_ok(k) by {
                if k != id {
                    assert(v.credits.contains_key(k));
                    assert(v.credit_ok(k));
                }
            }
            assert forall|k: u32| #[trigger] w.streams.contains_key(k) implies {
                &&& k % 2 == 1
                &&& k < w.next_id
                &&& k <= MAX_STREAM_ID
                &&& w.credits.contains_key(k)
            } by {
                if k != id {
                    assert(v.streams.contains_key(k));
                }
            }
        }
        Ok((id, WriteOp::Frame { typ: FrameType::Headers, flags: 0, stream_id: id, payload }))
    }

    /// Gives a stream up whose HEADERS could not be queued: the connection is
    /// gone, so no reset is sent. Gives the status of the call.
    pub fn open_failed(&mut self, id: u32) -> (r: Status)
        requires
            old(self)@.wf(),
        ensures
            final(self)@.wf(),
            final(self)@ == (ClientView {
                streams: old(self)@.streams.remove(id),
                credits: old(self)@.credits.remove(id),
                ..old(self)@
            }),
            r@ == close_status(old(self)@.io.close_reason()),
    {
        let _ = self.streams.remove(id);
        let _ = self.credits.remove(id);
        proof {
            lemma_removed_wf(old(self)@, id);
        }
        status_for_close(&self.io.close_reason())
    }

    /// Notes that the request pump of a stream runs; `false` where the stream has
    /// already finished, and the pump is to be stopped.
    pub fn pump_started(&mut self, id: u32) -> (r: bool)
        requires
            old(self)@.wf(),
        ensures
            final(self)@.wf(),
            r == old(self)@.streams.contains_key(id),
            final(self)@ == if r {
                ClientView {
                    streams: old(self)@.streams.insert(
                        id,
                        ClientEntry { pump: true, ..old(self)@.streams[id] },
                    ),
                    ..old(self)@
                }
            } else {
                old(self)@
            },
    {
        match self.streams.get(id) {
            None => false,
            Some(entry) => {
                self.streams.put(id, ClientEntry { pump: true, ..entry });
                proof {
                    lemma_updated_wf(old(self)@, id, ClientEntry { pump: true, ..entry });
                }
                true
            },
        }
    }

    /// Gives a stream up from this side and tells the server.
    pub fn cancel_stream(&mut self, id: u32) -> (r: WriteOp)
        requires
            old(self)@.wf(),
        ensures
            final(self)@.wf(),
            final(self)@ == old(self)@.without(id),
            r@ == cancel_frame(id),
    {
        let _ = self.streams.remove(id);
        proof {
            lemma_without_wf(old(self)@, id);
        }
        WriteOp::Frame {
            typ: FrameType::RstStream,
            flags: 0,
            stream_id: id,
            payload: encode_rst(RstCode::Cancel),
        }
    }

    /// Takes credit for as much of `want` bytes of a request body as there is.
    pub fn acquire(&mut self, id: u32, want: usize) -> (r: Acquire)
        requires
            old(self)@.wf(),
        ensures
            final(self)@.wf(),
            (final(self)@, r) == acquired(old(self)@, id, want as nat),
            ({
                let v = old(self)@;
                if v.io.closed() || !v.streams.contains_key(id) {
                    r == Acquire::Stop && final(self)@ == v
                } else {
                    let e = v.streams[id];
                    match e.window.grant(want as nat) {
                        None => r == Acquire::Wait && final(self)@ == v,
                        Some(n) => {
                            &&& r == Acquire::Granted(n as usize)
                            &&& n <= want
                            &&& final(self)@ == (ClientView {
                                streams: v.streams.insert(
                                    id,
                                    ClientEntry {
                                        window: SendWindow { avail: (e.window.avail - n) as i64 },
                                        ..e
                                    },
                                ),
                                ..v
                            })
                        },
                    }
                }
            }),
    {
        if self.io.is_closed() {
            return Acquire::Stop;
        }
        match self.streams.get(id) {
            None => Acquire::Stop,
            Some(entry) => {
                let mut window = entry.window;
                match window.acquire(want) {
                    None => Acquire::Wait,
                    Some(n) => {
                        self.streams.put(id, ClientEntry { window, ..entry });
                        proof {
                            lemma_updated_wf(old(self)@, id, ClientEntry { window, ..entry });
                        }
                        Acquire::Granted(n)
                    },
                }
            },
        }
    }

    /// The bytes delivered to the response body of a stream and not yet consumed.
    pub fn outstanding(&self, id: u32) -> (r: Option<i64>)
        ensures
            match r {
                Some(n) => self@.credits.contains_key(id) && self@.credits[id].outstanding == n,
                None => !self@.credits.contains_key(id),
            },
    {
        match self.credits.get(id) {
            Some(c) => Some(c.outstanding),
            None => None,
        }
    }

    /// Records that the reader of a response body consumed `n` bytes; gives the
    /// WINDOW_UPDATE to queue, if one is due.
    pub fn on_consumed(&mut self, id: u32, n: usize) -> (r: Option<WriteOp>)
        requires
            old(self)@.wf(),
            old(self)@.credits.contains_key(id) ==> n <= old(self)@.credits[id].outstanding,
        ensures
            final(self)@.wf(),
            (final(self)@, op_view(r)) == body_consumed(old(self)@, id, n as nat),
            ({
                let v = old(self)@;
                if !v.credits.contains_key(id) {
                    r is None && final(self)@ == v
                } else {
                    let c = v.credits[id];
                    &&& final(self)@ == (ClientView {
                        credits: v.credits.insert(id, c.consumed(n as nat)),
                        ..v
                    })
                    &&& r is Some <==> c.due(n as nat)
                    &&& r matches Some(op) ==> op@ == grant_frame(id, c.granted(n as nat))
                }
            }),
    {
        match self.credits.get(id) {
            None => None,
            Some(c) => {
                let mut credit = c;
                assert(self@.credit_ok(id));
                let grant = credit.on_consumed(n);
                self.credits.put(id, credit);
                proof {
                    let v = old(self)@;
                    let w = self@;
                    assert forall|k: u32| #[trigger] w.credits.contains_key(k) implies w.credit_ok(
                        k,
                    ) by {
                        assert(v.credits.contains_key(k));
                        assert(v.credit_ok(k));
                    }
                    assert forall|k: u32| #[trigger] w.streams.contains_key(k) implies {
                        &&& k % 2 == 1
                        &&& k < w.next_id
                        &&& k <= MAX_STREAM_ID
                        &&& w.credits.contains_key(k)
                    } by {
                        assert(v.streams.contains_key(k));
                    }
                }
                match grant {
                    None => None,
                    Some(g) => Some(
                        WriteOp::Frame {
                            typ: FrameType::WindowUpdate,
                            flags: 0,
                            stream_id: g.stream_id,
                            payload: g.payload,
                        },
                    ),
                }
            },
        }
    }

    /// Hands the reader of a response body what its queue gave. Message bytes count
    /// as consumed; gives the WINDOW_UPDATE to queue, if one is due.
    pub fn read_body(
        &mut self,
        id: u32,
        body: &mut ShmBody,
        queue: Option<Result<BodyEvent, Status>>,
    ) -> (r: (BodyItem, Option<WriteOp>))
        requires
            old(self)@.wf(),
            old(self)@.credits.contains_key(id) ==> (queue_view(queue) matches ItemView::Data(b)
                ==> b.len() <= old(self)@.credits[id].outstanding),
        ensures
            final(self)@.wf(),
            *final(body) == old(body).after(queue_view(queue)),
            r.0@ == old(body).given(queue_view(queue)),
            match r.0@ {
                ItemView::Data(b) => if old(self)@.credits.contains_key(id) {
                    let c = old(self)@.credits[id];
                    &&& final(self)@ == (ClientView {
                        credits: old(self)@.credits.insert(id, c.consumed(b.len())),
                        ..old(self)@
                    })
                    &&& r.1 is Some <==> c.due(b.len())
                    &&& r.1 matches Some(op) ==> op@ == grant_frame(id, c.granted(b.len()))
                } else {
                    r.1 is None && final(self)@ == old(self)@
                },
                _ => r.1 is None && final(self)@ == old(self)@,
            },
    {
        let item = body.poll(queue);
        let grant = match &item {
            BodyItem::Data(b) => self.on_consumed(id, bytes_len(b)),
            _ => None,
        };
        (item, grant)
    }

    /// The reader let go of a response body. One that had not ended gives its
    /// stream up; the reset is then to be queued.
    pub fn body_dropped(&mut self, id: u32, body: &ShmBody) -> (r: Option<WriteOp>)
        requires
            old(self)@.wf(),
        ensures
            final(self)@.wf(),
            (final(self)@, op_view(r)) == body_let_go(old(self)@, id, *body),
            r is Some <==> body.armed && !body.ended,
            r matches Some(op) ==> op@ == cancel_frame(id),
            final(self)@.streams == if r is Some {
                old(self)@.streams.remove(id)
            } else {
                old(self)@.streams
            },
            final(self)@.credits == if final(self)@.streams.contains_key(id) {
                old(self)@.credits
            } else {
                old(self)@.credits.remove(id)
            },
            final(self)@ == (ClientView {
                streams: final(self)@.streams,
                credits: final(self)@.credits,
                ..old(self)@
            }),
    {
        let op = if body.resets_on_drop() {
            Some(self.cancel_stream(id))
        } else {
            None
        };
        let ghost mid = self@;
        if self.streams.get(id).is_none() {
            let _ = self.credits.remove(id);
            proof {
                assert(mid.streams.remove(id) =~= mid.streams);
                lemma_removed_wf(mid, id);
            }
        }
        op
    }
}

/// The frame by which a client opens a stream.
pub open spec fn open_frame(id: u32, b: BlockView) -> FrameView {
    FrameView { typ: FrameType::Headers, flags: 0, stream_id: id, payload: block_bytes(b) }
}

/// The RST_STREAM by which this side gives a stream up.
pub open spec fn cancel_frame(id: u32) -> FrameView {
    FrameView {
        typ: FrameType::RstStream,
        flags: 0,
        stream_id: id,
        payload: rst_bytes(RstCode::Cancel),
    }
}

/// A WINDOW_UPDATE for a stream.
pub open spec fn grant_frame(id: u32, n: u32) -> FrameView {
    FrameView {
        typ: FrameType::WindowUpdate,
        flags: 0,
        stream_id: id,
        payload: crate::control::window_update_bytes(n),
    }
}

/// What comes of asking for credit for `want` bytes of a request body.
pub open spec fn acquired(v: ClientView, id: u32, want: nat) -> (ClientView, Acquire) {
    if v.io.closed() || !v.streams.contains_key(id) {
        (v, Acquire::Stop)
    } else {
        match v.streams[id].window.grant(want) {
            None => (v, Acquire::Wait),
            Some(n) => (
                ClientView {
                    streams: v.streams.insert(
                        id,
                        ClientEntry {
                            window: SendWindow { avail: (v.streams[id].window.avail - n) as i64 },
                            ..v.streams[id]
                        },
                    ),
                    ..v
                },
                Acquire::Granted(n as usize),
            ),
        }
    }
}

/// What comes of consuming `n` bytes of a response body: the state, and the grant.
pub open spec fn body_consumed(v: ClientView, id: u32, n: nat) -> (ClientView, Option<FrameView>) {
    if !v.credits.contains_key(id) {
        (v, None)
    } else {
        (
            ClientView { credits: v.credits.insert(id, v.credits[id].consumed(n)), ..v },
            if v.credits[id].due(n) {
                Some(grant_frame(id, v.credits[id].granted(n)))
            } else {
                None
            },
        )
    }
}

/// What comes of letting go of a response body: the state, and the reset.
pub open spec fn body_let_go(v: ClientView, id: u32, body: ShmBody) -> (
    ClientView,
    Option<FrameView>,
) {
    let resets = body.armed && !body.ended;
    let streams = if resets {
        v.streams.remove(id)
    } else {
        v.streams
    };
    (
        ClientView {
            streams,
            credits: if streams.contains_key(id) {
                v.credits
            } else {
                v.credits.remove(id)
            },
            ..v
        },
        if resets {
            Some(cancel_frame(id))
        } else {
            None
        },
    )
}

/// What comes of letting go of a guard: the state, and the reset with its queue.
pub open spec fn guard_let_go(v: ClientView, guard: PendingStreamGuard, can_wait: bool) -> (
    ClientView,
    Option<(Queue, FrameView)>,
) {
    if guard.armed {
        (
            ClientView {
                streams: v.streams.remove(guard.id),
                credits: v.credits.remove(guard.id),
                ..v
            },
            Some(
                (
                    if can_wait {
                        Queue::Data
                    } else {
                        Queue::Control
                    },
                    cancel_frame(guard.id),
                ),
            ),
        )
    } else {
        (v, None)
    }
}

/// What comes of a call that asks for a stream: the state, and the id with the frame that
/// opens it, or the status of the call.
pub open spec fn open_outcome(v: ClientView, b: BlockView) -> (
    ClientView,
    Result<(u32, FrameView), StatusView>,
) {
    match ClientConn::refusal(v) {
        Some(s) => (v, Err(s)),
        None => if v.next_id > MAX_STREAM_ID {
            (
                ClientConn::exhausted(v),
                Err(
                    StatusView {
                        code: Code::Unavailable,
                        message: "shmsc connection exhausted stream ids"@,
                    },
                ),
            )
        } else {
            (ClientConn::opened(v), Ok((v.next_id, open_frame(v.next_id, b))))
        },
    }
}

/// What a sender that asked for credit does.
#[derive(Debug, Clone, Copy, PartialEq, Eq, Structural)]
pub enum Acquire {
    /// Send so many bytes.
    Granted(usize),
    /// Wait for credit.
    Wait,
    /// Stop: the connection or the stream is gone.
    Stop,
}

proof fn lemma_same_tables(v: ClientView, w: ClientView)
    requires
        v.wf(),
        w.io.closed(),
        w.streams == v.streams,
        w.credits == v.credits,
        w.next_id == v.next_id + 2,
        v.next_id <= 0x8000_0001,
        w.window == v.window,
        w.max_frame == v.max_frame,
    ensures
        w.wf(),
{
    assert forall|k: u32| #[trigger] w.credits.contains_key(k) implies w.credit_ok(k) by {
        assert(v.credit_ok(k));
    }
}

proof fn lemma_without_wf(v: ClientView, id: u32)
    requires
        v.wf(),
    ensures
        v.without(id).wf(),
{
    let w = v.without(id);
    assert forall|k: u32| #[trigger] w.credits.contains_key(k) implies w.credit_ok(k) by {
        assert(v.credit_ok(k));
    }
    assert forall|k: u32| #[trigger] w.streams.contains_key(k) implies {
        &&& k % 2 == 1
        &&& k < w.next_id
        &&& k <= MAX_STREAM_ID
        &&& w.credits.contains_key(k)
    } by {
        assert(v.streams.contains_key(k));
    }
}

proof fn lemma_removed_wf(v: ClientView, id: u32)
    requires
        v.wf(),
    ensures
        (ClientView {
            streams: v.streams.remove(id),
            credits: v.credits.remove(id),
            ..v
        }).wf(),
{
    let w = ClientView { streams: v.streams.remove(id), credits: v.credits.remove(id), ..v };
    assert forall|k: u32| #[trigger] w.credits.contains_key(k) implies w.credit_ok(k) by {
        assert(v.credits.contains_key(k));
        assert(v.credit_ok(k));
    }
    assert forall|k: u32| #[trigger] w.streams.contains_key(k) implies {
        &&& k % 2 == 1
        &&& k < w.next_id
        &&& k <= MAX_STREAM_ID
        &&& w.credits.contains_key(k)
    } by {
        assert(v.streams.contains_key(k));
    }
}

proof fn lemma_updated_wf(v: ClientView, id: u32, e: ClientEntry)
    requires
        v.wf(),
        v.streams.contains_key(id),
    ensures
        (ClientView { streams: v.streams.insert(id, e), ..v }).wf(),
{
    let w = ClientView { streams: v.streams.insert(id, e), ..v };
    assert forall|k: u32| #[trigger] w.credits.contains_key(k) implies w.credit_ok(k) by {
        assert(v.credit_ok(k));
    }
    assert forall|k: u32| #[trigger] w.streams.contains_key(k) implies {
        &&& k % 2 == 1
        &&& k < w.next_id
        &&& k <= MAX_STREAM_ID
        &&& w.credits.contains_key(k)
    } by {
        assert(v.streams.contains_key(k));
    }
}

// ---------------------------------------------------------------------
// one call
// ---------------------------------------------------------------------

/// The path that a request is sent with: path and query where the URI has them,
/// and else its bare path.
pub fn request_path(path_and_query: Option<String>, path: String) -> (r: String)
    ensures
        r@ == match path_and_query {
            Some(p) => p@,
            None => path@,
        },
{
    match path_and_query {
        Some(p) => p,
        None => path,
    }
}

/// Watches over a stream that was opened and whose response head has not come.
/// Dropped while armed, it gives the stream up.
#[derive(Debug, Clone, Copy, PartialEq, Eq, Structural)]
pub struct PendingStreamGuard {
    pub id: u32,
    pub armed: bool,
}

impl PendingStreamGuard {
    /// A guard for a stream that was just opened.
    pub fn new(id: u32) -> (r: Self)
        ensures
            r == (PendingStreamGuard { id, armed: true }),
    {
        PendingStreamGuard { id, armed: true }
    }

    /// Stands the guard down.
    pub fn disarm(&mut self)
        ensures
            *final(self) == (PendingStreamGuard { armed: false, ..*old(self) }),
    {
        self.armed = false;
    }
}

/// The queue that an operation takes.
#[derive(Debug, Clone, Copy, PartialEq, Eq, Structural)]
pub enum Queue {
    Control,
    Data,
}

/// What came for a call that waits for its response head.
#[derive(Debug)]
pub enum HeadResult {
    /// The head.
    Head { status: u16, headers: HeaderMap<HeaderValue>, end_stream: bool },
    /// The stream failed.
    Failed(Status),
    /// Nothing more will come: the connection is gone.
    Gone,
}

/// A response: its head, and the state of its body.
#[derive(Debug)]
pub struct ResponseParts {
    pub status: u16,
    pub headers: HeaderMap<HeaderValue>,
    pub body: ShmBody,
}

impl ClientConn {
    /// Ends the wait for a response head. With the head the guard stands down:
    /// from then on the body gives the stream up if it is dropped early.
    pub fn finish_call(&self, guard: &mut PendingStreamGuard, result: HeadResult) -> (r: Result<
        ResponseParts,
        Status,
    >)
        ensures
            match result {
                HeadResult::Head { status, headers, end_stream } => {
                    &&& r matches Ok(p)
                    &&& p.status == status
                    &&& header_map_view(p.headers) == header_map_view(headers)
                    &&& p.body == if end_stream {
                        ShmBody { ended: true, armed: false, empty: true }
                    } else {
                        ShmBody { ended: false, armed: true, empty: false }
                    }
                    &&& *final(guard) == (PendingStreamGuard { armed: false, ..*old(guard) })
                },
                HeadResult::Failed(s) => {
                    &&& r matches Err(e)
                    &&& e@ == s@
                    &&& *final(guard) == *old(guard)
                },
                HeadResult::Gone => {
                    &&& r matches Err(e)
                    &&& e@ == close_status(self@.io.close_reason())
                    &&& *final(guard) == *old(guard)
                },
            },
    {
        match result {
            HeadResult::Head { status, headers, end_stream } => {
                guard.disarm();
                let body = if end_stream {
                    ShmBody::empty()
                } else {
                    ShmBody::new(true)
                };
                Ok(ResponseParts { status, headers, body })
            },
            HeadResult::Failed(s) => Err(s),
            HeadResult::Gone => Err(status_for_close(&self.io.close_reason())),
        }
    }

    /// The call let go of a guard. One that is armed gives the stream up: the
    /// reset takes the data queue, behind the stream's HEADERS, so that the server
    /// does not see it first and then run an orphan. Only where nothing can wait
    /// for room in that queue it takes the control queue.
    pub fn guard_dropped(&mut self, guard: &PendingStreamGuard, can_wait: bool) -> (r: Option<
        (Queue, WriteOp),
    >)
        requires
            old(self)@.wf(),
        ensures
            final(self)@.wf(),
            final(self)@ == guard_let_go(old(self)@, *guard, can_wait).0,
            r is Some <==> guard_let_go(old(self)@, *guard, can_wait).1 is Some,
            r matches Some(x) ==> guard_let_go(old(self)@, *guard, can_wait).1 == Some((x.0, x.1@)),
            if guard.armed {
                &&& r matches Some((q, op))
                &&& q == if can_wait {
                    Queue::Data
                } else {
                    Queue::Control
                }
                &&& op@ == cancel_frame(guard.id)
                &&& final(self)@ == (ClientView {
                    streams: old(self)@.streams.remove(guard.id),
                    credits: old(self)@.credits.remove(guard.id),
                    ..old(self)@
                })
            } else {
                r is None && final(self)@ == old(self)@
            },
    {
        if !guard.armed {
            return None;
        }
        let op = self.cancel_stream(guard.id);
        let _ = self.credits.remove(guard.id);
        proof {
            lemma_removed_wf(old(self)@, guard.id);
        }
        let queue = if can_wait {
            Queue::Data
        } else {
            Queue::Control
        };
        Some((queue, op))
    }
}

// ---------------------------------------------------------------------
// laws
// ---------------------------------------------------------------------

/// What is buffered for the response body of a running stream is bounded by the window
/// that the peer was granted.
pub proof fn law_buffering_is_bounded(v: ClientView, id: u32)
    requires
        v.wf(),
        v.streams.contains_key(id),
    ensures
        0 <= v.credits[id].outstanding <= v.window,
{
    assert(v.credits.contains_key(id));
    assert(v.credit_ok(id));
}

/// A GOAWAY fails exactly the streams above the last one that the server
/// processes, and spares the others; from then on no call is taken.
pub proof fn law_goaway_spares_accepted_streams(v: ClientView, f: FrameView, id: u32)
    requires
        f.typ == FrameType::GoAway,
        parse_goaway(f.payload) is Ok,
    ensures
        ({
            let last = (parse_goaway(f.payload)->Ok_0).0;
            let w = frame_outcome(v, f).state;
            &&& w.streams.contains_key(id) <==> v.streams.contains_key(id) && id <= last
            &&& w.streams.contains_key(id) ==> w.streams[id] == v.streams[id]
            &&& w.draining
            &&& ClientConn::refusal(w) is Some
        }),
{
}

/// Every frame but a GOAWAY touches no stream but its own.
pub proof fn law_frames_touch_only_their_stream(v: ClientView, f: FrameView, id: u32)
    requires
        f.typ != FrameType::GoAway,
        id != f.stream_id,
    ensures
        ({
            let w = frame_outcome(v, f).state;
            &&& w.streams.contains_key(id) <==> v.streams.contains_key(id)
            &&& v.streams.contains_key(id) ==> w.streams[id] == v.streams[id]
            &&& w.credits.contains_key(id) <==> v.credits.contains_key(id)
            &&& v.credits.contains_key(id) ==> w.credits[id] == v.credits[id]
        }),
{
}

/// A call gets one response head: a second HEADERS frame and TRAILERS without
/// HEADERS fail the connection.
pub proof fn law_one_head_per_stream(v: ClientView, f: FrameView)
    requires
        v.streams.contains_key(f.stream_id),
        decode_block(f.payload) is Ok,
    ensures
        f.typ == FrameType::Headers && !v.streams[f.stream_id].awaiting_head ==> frame_outcome(
            v,
            f,
        ).error is Some,
        f.typ == FrameType::Headers && v.streams[f.stream_id].awaiting_head ==> {
            let o = frame_outcome(v, f);
            &&& o.error is None
            &&& o.state.streams.contains_key(f.stream_id) ==> !o.state.streams[f.stream_id].awaiting_head
        },
        f.typ == FrameType::Trailers && v.streams[f.stream_id].awaiting_head ==> frame_outcome(
            v,
            f,
        ).error is Some,
{
}

/// Frames of a stream that is no longer known change nothing.
pub proof fn law_unknown_streams_are_ignored(v: ClientView, f: FrameView)
    requires
        !v.streams.contains_key(f.stream_id),
        f.typ == FrameType::Headers || f.typ == FrameType::Data || f.typ == FrameType::Trailers
            || f.typ == FrameType::RstStream || f.typ == FrameType::WindowUpdate,
    ensures
        frame_outcome(v, f).state == v,
        frame_outcome(v, f).actions == Seq::<ActionView>::empty(),
{
}

/// Stream ids go up: a stream that is opened gets an id above every one in use.
pub proof fn law_stream_ids_increase(v: ClientView)
    requires
        v.wf(),
        v.next_id <= MAX_STREAM_ID,
    ensures
        v.next_id % 2 == 1,
        forall|id: u32| #[trigger] v.streams.contains_key(id) ==> id < v.next_id,
        ClientConn::opened(v).next_id > v.next_id,
{
}

/// When a connection ends, every stream is failed: the call where it still waits
/// for its head, and else the response body. None stays in the table.
pub proof fn law_no_stream_is_left_behind(v: ClientView, status: StatusView, id: u32)
    requires
        v.streams.contains_key(id),
    ensures
        fail_all_outcome(v, status).actions.contains(
            if v.streams[id].awaiting_head {
                ActionView::HeadFailed { id, status }
            } else {
                ActionView::BodyFailed { id, status }
            },
        ),
        fail_all_outcome(v, status).actions.contains(ActionView::Remove { id }),
        !fail_all_outcome(v, status).state.streams.contains_key(id),
{
    let ids = sorted_ids(v.streams, -1);
    lemma_sorted_exists(v.streams, -1);
    assert(ids.contains(id));
    lemma_fail_contains(v.streams, ids, status, id);
}

proof fn lemma_fail_contains(
    streams: Map<u32, ClientEntry>,
    ids: Seq<u32>,
    status: StatusView,
    id: u32,
)
    requires
        ids.contains(id),
    ensures
        ({
            let a = fail_streams(streams, ids, status);
            &&& a.contains(fail_stream(streams[id], id, status)[0])
            &&& a.contains(ActionView::Remove { id })
        }),
    decreases ids.len(),
{
    let last = ids.last();
    let before = fail_streams(streams, ids.drop_last(), status);
    let own = fail_stream(streams[last], last, status);
    let a = fail_streams(streams, ids, status);
    let n = before.len() as int;
    if last == id {
        assert(a[n] == own[0]);
        assert(a[n + 1] == own[1]);
    } else {
        let k = choose|k: int| 0 <= k < ids.len() && ids[k] == id;
        assert(ids.drop_last()[k] == id);
        lemma_fail_contains(streams, ids.drop_last(), status, id);
        let x = fail_stream(streams[id], id, status)[0];
        let i = choose|i: int| 0 <= i < before.len() && before[i] == x;
        assert(a[i] == x);
        let y = ActionView::Remove { id };
        let j = choose|j: int| 0 <= j < before.len() && before[j] == y;
        assert(a[j] == y);
    }
}

} // verus!
