//! The server end of a connection.

use bytes::Bytes;
use http::{HeaderMap, HeaderValue};
use vstd::prelude::*;
use vstd::string::StringExecFns;

use crate::block::decode_header_block;
use crate::body::{BodyEvent, BodyItem, ShmBody, Status};
use crate::client::Acquire;
use crate::conn::{CloseReason, ConnIo};
use crate::control::{decode_rst, decode_window_update, encode_goaway, encode_rst};
use crate::flow::{RecvCredit, SendWindow};
use crate::frame::{Frame, FrameType, ProtocolError, RstCode, FLAG_ACK, MAX_FRAME_PAYLOAD};
use crate::outside::{bytes_len, parse_uri};
use crate::table::Table;
use crate::text::with_number;
use crate::writer::WriteOp;

verus! {

use crate::block::{decode_block, BlockView};
use crate::body::{queue_view, ItemView};
use crate::client::{grant_frame, ping_ack, ClientView};
use crate::conn::{CloseView, IoView, MAX_PENDING_PING_ACKS};
use crate::control::{goaway_bytes, parse_rst, parse_window_update, rst_bytes};
use crate::flow::wrapping;
use crate::frame::FrameView;
use crate::outside::{bytes_view, header_map_view, uri_of_text};
use crate::table::{lemma_sorted_exists, sorted_ids};
use crate::text::decimal;
use crate::writer::op_view;
use vstd::utf8::encode_utf8;

/// Who the peer of a connection is, as far as the platform says.
#[derive(Debug, Clone, Copy, PartialEq, Eq, Structural)]
pub struct ShmscConnectInfo {
    /// The peer's process id.
    pub peer_pid: Option<u32>,
    /// The peer's effective user id.
    pub peer_uid: Option<u32>,
}

/// Whether a peer may connect: only one with our own effective user id.
pub open spec fn authorized(info: ShmscConnectInfo, me: u32) -> bool {
    info.peer_uid == Some(me)
}

/// Whether a peer may connect: only one with our own effective user id. A peer
/// whose user id is not known may not.
pub fn peer_authorized(info: &ShmscConnectInfo, me: u32) -> (r: bool)
    ensures
        r == (info.peer_uid == Some(me)),
        r == authorized(*info, me),
{
    match info.peer_uid {
        Some(uid) => uid == me,
        None => false,
    }
}

/// What is kept for a stream.
#[derive(Debug, Clone, Copy, PartialEq, Eq, Structural)]
pub struct ServerEntry {
    /// The request body is still open.
    pub body_open: bool,
    /// The service still holds the request body.
    pub body_held: bool,
    /// The credit for the response body.
    pub window: SendWindow,
}

/// The server end of a connection.
#[derive(Debug)]
pub struct ServerConn {
    pub io: ConnIo,
    pub streams: Table<ServerEntry>,
    /// The ledgers of the request bodies. A body may outlive its stream.
    pub credits: Table<RecvCredit>,
    /// Highest stream id accepted so far.
    pub last_accepted: u32,
    pub draining: bool,
    pub goaway_sent: bool,
    /// The number of streams that run.
    pub active: usize,
    /// The per-stream window, for both directions.
    pub window: u32,
    pub max_frame: usize,
    /// Most streams at once, if bounded.
    pub max_streams: Option<u32>,
    pub info: ShmscConnectInfo,
}

/// What a server end holds.
pub struct ServerView {
    pub io: IoView,
    pub streams: Map<u32, ServerEntry>,
    pub credits: Map<u32, RecvCredit>,
    pub last_accepted: u32,
    pub draining: bool,
    pub goaway_sent: bool,
    pub active: nat,
    pub window: u32,
    pub max_frame: usize,
    pub max_streams: Option<u32>,
    pub info: ShmscConnectInfo,
}

impl View for ServerConn {
    type V = ServerView;

    open spec fn view(&self) -> ServerView {
        ServerView {
            io: self.io@,
            streams: self.streams@,
            credits: self.credits@,
            last_accepted: self.last_accepted,
            draining: self.draining,
            goaway_sent: self.goaway_sent,
            active: self.active as nat,
            window: self.window,
            max_frame: self.max_frame,
            max_streams: self.max_streams,
            info: self.info,
        }
    }
}

impl ServerView {
    /// Accepted ids are odd and at most the last one; each stream has a ledger; no
    /// ledger is overrun; the count of running streams is right and within the
    /// bound. Once the connection is closed, streams may be gone that still count.
    pub open spec fn wf(self) -> bool {
        &&& self.sane()
        &&& self.streams.dom().finite()
        &&& self.streams.len() <= self.active
        &&& !self.io.closed() ==> self.active == self.streams.len()
        &&& forall|id: u32| #[trigger]
            self.streams.contains_key(id) ==> {
                &&& id % 2 == 1
                &&& id <= self.last_accepted
                &&& self.credits.contains_key(id)
            }
        &&& forall|id: u32| #[trigger] self.credits.contains_key(id) ==> self.credit_ok(id)
    }

    /// What holds even while a violation is being dealt with: the settings are
    /// usable, and no more streams were counted than ids were accepted.
    pub open spec fn sane(self) -> bool {
        &&& self.window > 0
        &&& 0 < self.max_frame <= MAX_FRAME_PAYLOAD
        &&& self.last_accepted == 0 || self.last_accepted % 2 == 1
        &&& 2 * self.active <= self.last_accepted + 1
        &&& self.max_streams matches Some(max) ==> self.active <= max
        &&& self.goaway_sent ==> self.draining
    }

    /// The ledger of a stream belongs to it and is not overrun. A stream that was
    /// overrun fails, and its ledger may show that one frame.
    pub open spec fn credit_ok(self, id: u32) -> bool {
        let c = self.credits[id];
        let slack = if self.streams.contains_key(id) { 0 } else { MAX_FRAME_PAYLOAD as int };
        &&& c.wf()
        &&& c.stream_id == id
        &&& c.window == self.window
        &&& 0 <= c.outstanding <= c.limit() + slack
    }

    /// The state after a stream ended. Its ledger goes with whoever is last, the
    /// stream or its request body.
    pub open spec fn without(self, id: u32) -> ServerView {
        ServerView {
            streams: self.streams.remove(id),
            credits: if self.streams.contains_key(id) && !self.streams[id].body_held {
                self.credits.remove(id)
            } else {
                self.credits
            },
            active: if self.streams.contains_key(id) {
                (self.active - 1) as nat
            } else {
                self.active
            },
            ..self
        }
    }

    /// The state after the entry of a stream changed.
    pub open spec fn updated(self, id: u32, e: ServerEntry) -> ServerView {
        ServerView { streams: self.streams.insert(id, e), ..self }
    }

    /// Whether no further stream may run.
    pub open spec fn at_limit(self) -> bool {
        self.max_streams matches Some(max) && self.active >= max
    }
}

/// Something to be done outside.
#[derive(Debug)]
pub enum ServerAction {
    /// Build the request and run the service for it.
    Spawn { id: u32, uri: String, headers: HeaderMap<HeaderValue>, ended: bool },
    /// Deliver message bytes to the request body.
    Data { id: u32, payload: Bytes },
    /// End the request body.
    EndBody { id: u32 },
    /// Stop the service that runs for the stream.
    Abort { id: u32 },
    /// No stream runs any more: whoever waits for that goes on.
    Drained,
    /// Wake the response pump: there may be credit.
    WindowOpened { id: u32 },
    /// Queue for the writer, ahead of data.
    Control(WriteOp),
}

/// What an action says.
pub enum ActionView {
    Spawn { id: u32, uri: Seq<char>, headers: Seq<(Seq<u8>, Seq<u8>)>, ended: bool },
    Data { id: u32, payload: Seq<u8> },
    EndBody { id: u32 },
    Abort { id: u32 },
    Drained,
    WindowOpened { id: u32 },
    Control(FrameView),
}

impl View for ServerAction {
    type V = ActionView;

    open spec fn view(&self) -> ActionView {
        match self {
            ServerAction::Spawn { id, uri, headers, ended } => ActionView::Spawn {
                id: *id,
                uri: uri@,
                headers: header_map_view(*headers),
                ended: *ended,
            },
            ServerAction::Data { id, payload } => ActionView::Data {
                id: *id,
                payload: bytes_view(*payload),
            },
            ServerAction::EndBody { id } => ActionView::EndBody { id: *id },
            ServerAction::Abort { id } => ActionView::Abort { id: *id },
            ServerAction::Drained => ActionView::Drained,
            ServerAction::WindowOpened { id } => ActionView::WindowOpened { id: *id },
            ServerAction::Control(op) => ActionView::Control(op@),
        }
    }
}

/// Actions by what they say.
pub open spec fn views(s: Seq<ServerAction>) -> Seq<ActionView> {
    s.map_values(|a: ServerAction| a@)
}

/// Lists one more action.
fn emit(out: &mut Vec<ServerAction>, a: ServerAction)
    ensures
        views(final(out)@) == views(old(out)@).push(a@),
{
    out.push(a);
    assert(views(out@) =~= views(old(out)@).push(a@));
}

/// What an operation leads to: the state, what is to be done, and what is wrong.
pub struct Outcome {
    pub state: ServerView,
    pub actions: Seq<ActionView>,
    pub error: Option<Seq<char>>,
}

/// Nothing happens.
pub open spec fn unchanged(v: ServerView) -> Outcome {
    Outcome { state: v, actions: Seq::empty(), error: None }
}

/// Nothing happens but an error.
pub open spec fn refused(v: ServerView, m: Seq<char>) -> Outcome {
    Outcome { state: v, actions: Seq::empty(), error: Some(m) }
}

/// The RST_STREAM that refuses a stream before anything was done for it.
pub open spec fn refusal_frame(id: u32) -> FrameView {
    FrameView {
        typ: FrameType::RstStream,
        flags: 0,
        stream_id: id,
        payload: rst_bytes(RstCode::Refused),
    }
}

/// The URI of a request.
pub open spec fn request_uri(b: BlockView) -> Seq<char> {
    match b.authority {
        Some(a) => "http://"@ + a + b.path->0,
        None => b.path->0,
    }
}

/// The entry of a stream that was just accepted.
pub open spec fn fresh_entry(window: u32, ended: bool) -> ServerEntry {
    ServerEntry {
        body_open: !ended,
        body_held: true,
        window: SendWindow { avail: window as i64 },
    }
}

/// A HEADERS frame: a client opens a stream. It is refused while the connection
/// drains and where too many streams run; neither counts as accepted.
pub open spec fn headers_outcome(v: ServerView, f: FrameView) -> Outcome {
    let id = f.stream_id;
    if id % 2 != 1 {
        refused(
            v,
            "client-initiated stream id "@ + decimal(id as nat) + " must be odd"@,
        )
    } else if id <= v.last_accepted {
        refused(v, "stream id "@ + decimal(id as nat) + " not increasing"@)
    } else if v.draining || v.at_limit() {
        Outcome {
            state: v,
            actions: seq![ActionView::Control(refusal_frame(id))],
            error: None,
        }
    } else {
        match decode_block(f.payload) {
            Err(m) => refused(v, m),
            Ok(b) => if b.path is None {
                refused(v, "request HEADERS missing :path"@)
            } else {
                open_outcome(v, f, b, uri_of_text(request_uri(b)) is Some)
            },
        }
    }
}

/// The opening of a stream for a request whose URI is acceptable or not.
pub open spec fn open_outcome(v: ServerView, f: FrameView, b: BlockView, uri_ok: bool) -> Outcome {
    let id = f.stream_id;
    let w = ServerView { last_accepted: id, ..v };
    if !uri_ok {
        refused(w, "request HEADERS produce an invalid request"@)
    } else {
        Outcome {
            state: ServerView {
                streams: v.streams.insert(id, fresh_entry(v.window, f.end_stream())),
                credits: v.credits.insert(id, RecvCredit::fresh(id, v.window)),
                active: v.active + 1,
                ..w
            },
            actions: seq![
                ActionView::Spawn {
                    id,
                    uri: request_uri(b),
                    headers: b.headers,
                    ended: f.end_stream(),
                },
            ],
            error: None,
        }
    }
}

/// A DATA frame: message bytes of a request body.
pub open spec fn data_outcome(v: ServerView, f: FrameView) -> Outcome {
    let id = f.stream_id;
    if !v.streams.contains_key(id) {
        unchanged(v)
    } else {
        let e = v.streams[id];
        let c = v.credits[id];
        let n = f.payload.len();
        let w = if n > 0 {
            ServerView {
                credits: v.credits.insert(
                    id,
                    RecvCredit { outstanding: (c.outstanding + n) as i64, ..c },
                ),
                ..v
            }
        } else {
            v
        };
        let delivered = if n > 0 && e.body_open {
            seq![ActionView::Data { id, payload: f.payload }]
        } else {
            Seq::empty()
        };
        if n > 0 && c.outstanding + n > c.limit() {
            refused(w, "peer overran stream flow-control window"@)
        } else if f.end_stream() {
            Outcome {
                state: ServerView {
                    streams: v.streams.insert(id, ServerEntry { body_open: false, ..e }),
                    ..w
                },
                actions: delivered.push(ActionView::EndBody { id }),
                error: None,
            }
        } else {
            Outcome { state: w, actions: delivered, error: None }
        }
    }
}

/// What the end of a stream leads to.
pub open spec fn finished_actions(v: ServerView, id: u32) -> Seq<ActionView> {
    if v.streams.contains_key(id) && v.active == 1 {
        seq![ActionView::Drained]
    } else {
        Seq::empty()
    }
}

/// A RST_STREAM frame: the client gave a stream up.
pub open spec fn rst_outcome(v: ServerView, f: FrameView) -> Outcome {
    let id = f.stream_id;
    match parse_rst(f.payload) {
        Err(m) => refused(v, m),
        Ok(_) => if !v.streams.contains_key(id) {
            unchanged(v)
        } else {
            Outcome {
                state: v.without(id),
                actions: seq![ActionView::Abort { id }] + finished_actions(v, id),
                error: None,
            }
        },
    }
}

/// A WINDOW_UPDATE frame: credit for a response body.
pub open spec fn window_outcome(v: ServerView, f: FrameView) -> Outcome {
    let id = f.stream_id;
    match parse_window_update(f.payload) {
        Err(m) => refused(v, m),
        Ok(incr) => if !v.streams.contains_key(id) {
            unchanged(v)
        } else {
            let e = v.streams[id];
            Outcome {
                state: ServerView {
                    streams: v.streams.insert(
                        id,
                        ServerEntry {
                            window: SendWindow { avail: wrapping(e.window.avail + incr) as i64 },
                            ..e
                        },
                    ),
                    ..v
                },
                actions: seq![ActionView::WindowOpened { id }],
                error: None,
            }
        },
    }
}

/// A PING frame: it is answered, unless it is an answer, is malformed, or too
/// many answers wait already.
pub open spec fn ping_outcome(v: ServerView, f: FrameView) -> Outcome {
    match f.ping_error() {
        Some(m) => refused(v, m),
        None => if f.flags & FLAG_ACK != 0 {
            unchanged(v)
        } else if v.io.ping_acks >= MAX_PENDING_PING_ACKS {
            refused(v, "peer flooded unacknowledged PINGs"@)
        } else {
            Outcome {
                state: ServerView {
                    io: IoView { ping_acks: (v.io.ping_acks + 1) as u32, ..v.io },
                    ..v
                },
                actions: seq![ActionView::Control(ping_ack(f.payload))],
                error: None,
            }
        },
    }
}

/// What an inbound frame leads to. Clients send no trailers, and their drain
/// notice asks for nothing: both are ignored.
pub open spec fn frame_outcome(v: ServerView, f: FrameView) -> Outcome {
    match f.typ {
        FrameType::Headers => headers_outcome(v, f),
        FrameType::Data => data_outcome(v, f),
        FrameType::RstStream => rst_outcome(v, f),
        FrameType::WindowUpdate => window_outcome(v, f),
        FrameType::Trailers => unchanged(v),
        FrameType::GoAway => unchanged(v),
        FrameType::Ping => ping_outcome(v, f),
    }
}

/// The result of an operation and the actions that it listed are those of an
/// outcome.
pub open spec fn matches_outcome(
    r: Result<(), ProtocolError>,
    after: ServerView,
    before: Seq<ActionView>,
    listed: Seq<ActionView>,
    o: Outcome,
) -> bool {
    &&& after == o.state
    &&& listed == before + o.actions
    &&& match r {
        Ok(_) => o.error is None,
        Err(e) => o.error == Some(e.0@),
    }
}

impl ServerConn {
    /// A fresh connection.
    pub fn new(
        window: u32,
        max_frame: usize,
        max_streams: Option<u32>,
        info: ShmscConnectInfo,
    ) -> (r: Self)
        requires
            window > 0,
            0 < max_frame <= MAX_FRAME_PAYLOAD,
        ensures
            r@.wf(),
            r@ == (ServerView {
                io: IoView { reason: None, graceful: false, ping_acks: 0 },
                streams: Map::empty(),
                credits: Map::empty(),
                last_accepted: 0,
                draining: false,
                goaway_sent: false,
                active: 0,
                window,
                max_frame,
                max_streams,
                info,
            }),
    {
        ServerConn {
            io: ConnIo::new(),
            streams: Table::new(),
            credits: Table::new(),
            last_accepted: 0,
            draining: false,
            goaway_sent: false,
            active: 0,
            window,
            max_frame,
            max_streams,
            info,
        }
    }

    /// Opens a stream for a decoded request whose URI is acceptable or not.
    pub fn open_request(
        &mut self,
        id: u32,
        ended: bool,
        uri: String,
        headers: HeaderMap<HeaderValue>,
        uri_ok: bool,
        out: &mut Vec<ServerAction>,
    ) -> (r: Result<(), ProtocolError>)
        requires
            old(self)@.active < usize::MAX,
        ensures
            ({
                let v = old(self)@;
                let w = ServerView { last_accepted: id, ..v };
                if !uri_ok {
                    &&& r matches Err(e)
                    &&& e.0@ == "request HEADERS produce an invalid request"@
                    &&& final(self)@ == w
                    &&& *final(out) == *old(out)
                } else {
                    &&& r is Ok
                    &&& final(self)@ == (ServerView {
                        streams: v.streams.insert(id, fresh_entry(v.window, ended)),
                        credits: v.credits.insert(id, RecvCredit::fresh(id, v.window)),
                        active: v.active + 1,
                        ..w
                    })
                    &&& views(final(out)@) == views(old(out)@).push(
                        ActionView::Spawn {
                            id,
                            uri: uri@,
                            headers: header_map_view(headers),
                            ended,
                        },
                    )
                }
            }),
    {
        self.last_accepted = id;
        if !uri_ok {
            return Err(
                ProtocolError("request HEADERS produce an invalid request".to_owned()),
            );
        }
        self.active = self.active + 1;
        let credit = RecvCredit::new(id, self.window);
        self.credits.put(id, credit);
        self.streams.put(
            id,
            ServerEntry {
                body_open: !ended,
                body_held: true,
                window: SendWindow::new(self.window),
            },
        );
        emit(out, ServerAction::Spawn { id, uri, headers, ended });
        Ok(())
    }

    fn refuse(&self, id: u32, out: &mut Vec<ServerAction>)
        ensures
            views(final(out)@) == views(old(out)@).push(
                ActionView::Control(refusal_frame(id)),
            ),
    {
        emit(
            out,
            ServerAction::Control(
                WriteOp::Frame {
                    typ: FrameType::RstStream,
                    flags: 0,
                    stream_id: id,
                    payload: encode_rst(RstCode::Refused),
                },
            ),
        );
    }

    fn on_headers(&mut self, frame: Frame, out: &mut Vec<ServerAction>) -> (r: Result<
        (),
        ProtocolError,
    >)
        requires
            old(self)@.wf(),
        ensures
            matches_outcome(
                r,
                final(self)@,
                views(old(out)@),
                views(final(out)@),
                headers_outcome(old(self)@, frame@),
            ),
    {
        let ghost o = headers_outcome(old(self)@, frame@);
        let id: u32 = frame.stream_id;
        let ended = frame.end_stream();
        assert(views(out@) =~= views(old(out)@) + Seq::<ActionView>::empty());
        if id % 2 != 1 {
            return Err(
                ProtocolError(
                    with_number("client-initiated stream id ", id as u64, " must be odd"),
                ),
            );
        }
        if id <= self.last_accepted {
            return Err(ProtocolError(with_number("stream id ", id as u64, " not increasing")));
        }
        if self.draining {
            self.refuse(id, out);
            assert(views(out@) =~= views(old(out)@) + o.actions);
            return Ok(());
        }
        if let Some(max) = self.max_streams {
            if self.active >= max as usize {
                self.refuse(id, out);
                assert(views(out@) =~= views(old(out)@) + o.actions);
                return Ok(());
            }
        }
        let block = match decode_header_block(frame.payload) {
            Err(e) => {
                return Err(e);
            },
            Ok(b) => b,
        };
        let path = match block.path {
            None => {
                return Err(ProtocolError("request HEADERS missing :path".to_owned()));
            },
            Some(p) => p,
        };
        let uri = match block.authority {
            Some(a) => {
                let mut s = "http://".to_owned();
                s.append(a.as_str());
                s.append(path.as_str());
                s
            },
            None => path,
        };
        let uri_ok = parse_uri(uri.as_str()).is_some();
        let r = self.open_request(id, ended, uri, block.headers, uri_ok, out);
        assert(views(out@) =~= views(old(out)@) + o.actions);
        r
    }

    fn on_data(&mut self, frame: Frame, out: &mut Vec<ServerAction>) -> (r: Result<
        (),
        ProtocolError,
    >)
        requires
            old(self)@.wf(),
            frame@.payload.len() <= MAX_FRAME_PAYLOAD,
        ensures
            matches_outcome(
                r,
                final(self)@,
                views(old(out)@),
                views(final(out)@),
                data_outcome(old(self)@, frame@),
            ),
    {
        let ghost o = data_outcome(old(self)@, frame@);
        let end_stream = frame.end_stream();
        let id: u32 = frame.stream_id;
        assert(views(out@) =~= views(old(out)@) + Seq::<ActionView>::empty());
        let entry = match self.streams.get(id) {
            None => {
                return Ok(());
            },
            Some(e) => e,
        };
        let n: usize = bytes_len(&frame.payload);
        if n > 0 {
            let mut credit = match self.credits.get(id) {
                Some(c) => c,
                None => {
                    assert(false);
                    RecvCredit::new(id, self.window)
                },
            };
            assert(self@.credit_ok(id));
            let within = credit.on_data(n);
            self.credits.put(id, credit);
            if !within {
                return Err(
                    ProtocolError("peer overran stream flow-control window".to_owned()),
                );
            }
            if entry.body_open {
                emit(out, ServerAction::Data { id, payload: frame.payload });
            }
        }
        if end_stream {
            self.streams.put(id, ServerEntry { body_open: false, ..entry });
            emit(out, ServerAction::EndBody { id });
        }
        assert(views(out@) =~= views(old(out)@) + o.actions);
        Ok(())
    }

    /// Takes a finished stream out of the table; reports when none is left.
    pub fn finish_stream(&mut self, id: u32, out: &mut Vec<ServerAction>)
        requires
            old(self)@.wf(),
        ensures
            final(self)@.wf(),
            final(self)@ == old(self)@.without(id),
            views(final(out)@) == views(old(out)@) + finished_actions(old(self)@, id),
    {
        proof {
            lemma_without_wf(old(self)@, id);
        }
        match self.streams.remove(id) {
            None => {
                assert(self@.streams =~= old(self)@.streams);
                assert(views(out@) =~= views(old(out)@) + Seq::<ActionView>::empty());
            },
            Some(entry) => {
                proof {
                    lemma_nonempty(old(self)@.streams, id);
                }
                if !entry.body_held {
                    let _ = self.credits.remove(id);
                }
                self.active = self.active - 1;
                if self.active == 0 {
                    emit(out, ServerAction::Drained);
                }
                assert(views(out@) =~= views(old(out)@) + finished_actions(old(self)@, id));
            },
        }
    }

    fn on_rst(&mut self, frame: Frame, out: &mut Vec<ServerAction>) -> (r: Result<
        (),
        ProtocolError,
    >)
        requires
            old(self)@.wf(),
        ensures
            matches_outcome(
                r,
                final(self)@,
                views(old(out)@),
                views(final(out)@),
                rst_outcome(old(self)@, frame@),
            ),
    {
        let id: u32 = frame.stream_id;
        assert(views(out@) =~= views(old(out)@) + Seq::<ActionView>::empty());
        match decode_rst(frame.payload) {
            Err(e) => {
                return Err(e);
            },
            Ok(_) => {},
        }
        if self.streams.get(id).is_none() {
            return Ok(());
        }
        emit(out, ServerAction::Abort { id });
        self.finish_stream(id, out);
        assert(views(out@) =~= views(old(out)@) + rst_outcome(old(self)@, frame@).actions);
        Ok(())
    }

    fn on_window_update(&mut self, frame: Frame, out: &mut Vec<ServerAction>) -> (r: Result<
        (),
        ProtocolError,
    >)
        ensures
            matches_outcome(
                r,
                final(self)@,
                views(old(out)@),
                views(final(out)@),
                window_outcome(old(self)@, frame@),
            ),
    {
        let id: u32 = frame.stream_id;
        assert(views(out@) =~= views(old(out)@) + Seq::<ActionView>::empty());
        let incr: u32 = match decode_window_update(frame.payload) {
            Err(e) => {
                return Err(e);
            },
            Ok(n) => n,
        };
        match self.streams.get(id) {
            None => {},
            Some(entry) => {
                let mut window = entry.window;
                window.add(incr);
                self.streams.put(id, ServerEntry { window, ..entry });
                emit(out, ServerAction::WindowOpened { id });
                assert(views(out@) =~= views(old(out)@) + seq![ActionView::WindowOpened { id }]);
            },
        }
        Ok(())
    }

    fn on_ping(&mut self, frame: Frame, out: &mut Vec<ServerAction>) -> (r: Result<
        (),
        ProtocolError,
    >)
        ensures
            matches_outcome(
                r,
                final(self)@,
                views(old(out)@),
                views(final(out)@),
                ping_outcome(old(self)@, frame@),
            ),
    {
        assert(views(out@) =~= views(old(out)@) + Seq::<ActionView>::empty());
        match frame.validate_ping() {
            Err(e) => {
                return Err(e);
            },
            Ok(_) => {},
        }
        if frame.flags & FLAG_ACK == 0 {
            if !self.io.queue_ping_ack() {
                return Err(ProtocolError("peer flooded unacknowledged PINGs".to_owned()));
            }
            emit(
                out,
                ServerAction::Control(
                    WriteOp::Frame {
                        typ: FrameType::Ping,
                        flags: FLAG_ACK,
                        stream_id: 0,
                        payload: frame.payload,
                    },
                ),
            );
            assert(views(out@) =~= views(old(out)@) + seq![
                ActionView::Control(ping_ack(frame@.payload)),
            ]);
        }
        Ok(())
    }

    /// Handles an inbound frame. An error fails the connection.
    pub fn handle_frame(&mut self, frame: Frame, out: &mut Vec<ServerAction>) -> (r: Result<
        (),
        ProtocolError,
    >)
        requires
            old(self)@.wf(),
            frame@.payload.len() <= MAX_FRAME_PAYLOAD,
        ensures
            matches_outcome(
                r,
                final(self)@,
                views(old(out)@),
                views(final(out)@),
                frame_outcome(old(self)@, frame@),
            ),
            r is Ok ==> final(self)@.wf(),
            final(self)@.sane(),
    {
        assert(views(out@) =~= views(old(out)@) + Seq::<ActionView>::empty());
        let r = match frame.typ {
            FrameType::Headers => self.on_headers(frame, out),
            FrameType::Data => self.on_data(frame, out),
            FrameType::RstStream => self.on_rst(frame, out),
            FrameType::WindowUpdate => self.on_window_update(frame, out),
            FrameType::Trailers => Ok(()),
            FrameType::GoAway => Ok(()),
            FrameType::Ping => self.on_ping(frame, out),
        };
        proof {
            if r is Ok {
                lemma_frame_keeps_wf(old(self)@, frame@);
            }
        }
        r
    }
}

proof fn lemma_nonempty(m: Map<u32, ServerEntry>, id: u32)
    requires
        m.dom().finite(),
        m.contains_key(id),
    ensures
        m.len() > 0,
        m.remove(id).len() == m.len() - 1,
{
    assert(m.dom().contains(id));
    assert(m.remove(id).dom() =~= m.dom().remove(id));
}

proof fn lemma_without_wf(v: ServerView, id: u32)
    requires
        v.wf(),
    ensures
        v.without(id).wf(),
{
    let w = v.without(id);
    if v.streams.contains_key(id) {
        lemma_nonempty(v.streams, id);
    } else {
        assert(w.streams =~= v.streams);
    }
    assert forall|k: u32| #[trigger] w.credits.contains_key(k) implies w.credit_ok(k) by {
        assert(v.credit_ok(k));
    }
    assert forall|k: u32| #[trigger] w.streams.contains_key(k) implies {
        &&& k % 2 == 1
        &&& k <= w.last_accepted
        &&& w.credits.contains_key(k)
    } by {
        assert(v.streams.contains_key(k));
    }
}

proof fn lemma_frame_keeps_wf(v: ServerView, f: FrameView)
    requires
        v.wf(),
        f.payload.len() <= MAX_FRAME_PAYLOAD,
        frame_outcome(v, f).error is None,
    ensures
        frame_outcome(v, f).state.wf(),
{
    let w = frame_outcome(v, f).state;
    let id = f.stream_id;
    if f.typ == FrameType::RstStream {
        lemma_without_wf(v, id);
    } else {
        assert(w.streams.dom() =~= v.streams.dom() || w.streams.dom() =~= v.streams.dom().insert(id));
        if f.typ == FrameType::Headers && !v.streams.contains_key(id) && w.streams.contains_key(
            id,
        ) {
            assert(w.streams.dom() =~= v.streams.dom().insert(id));
        } else {
            assert(w.streams.dom() =~= v.streams.dom());
        }
        crate::config::law_threshold_reachable(v.window);
        assert forall|k: u32| #[trigger] w.credits.contains_key(k) implies w.credit_ok(k) by {
            if v.credits.contains_key(k) {
                assert(v.credit_ok(k));
            }
        }
        assert forall|k: u32| #[trigger] w.streams.contains_key(k) implies {
            &&& k % 2 == 1
            &&& k <= w.last_accepted
            &&& w.credits.contains_key(k)
        } by {
            if v.streams.contains_key(k) {
            }
        }
    }
}

// ---------------------------------------------------------------------
// the end of a connection
// ---------------------------------------------------------------------

/// The actions that stop the services of the given streams.
pub open spec fn aborts(ids: Seq<u32>) -> Seq<ActionView> {
    ids.map_values(|id: u32| ActionView::Abort { id })
}

/// The end of the demux: the connection is closed, and every service that still
/// runs for it is stopped. Those streams did not finish, so they still count.
pub open spec fn end_outcome(v: ServerView, reason: CloseView) -> Outcome {
    Outcome {
        state: ServerView {
            io: v.io.close(reason),
            streams: Map::empty(),
            credits: Map::empty(),
            ..v
        },
        actions: aborts(sorted_ids(v.streams, -1)),
        error: None,
    }
}

/// The demux step for a frame: a violation closes the connection and ends it.
pub open spec fn demux_outcome(v: ServerView, f: FrameView) -> Outcome {
    let o = frame_outcome(v, f);
    match o.error {
        None => o,
        Some(m) => {
            let end = end_outcome(o.state, CloseView::Protocol(m));
            Outcome { state: end.state, actions: o.actions + end.actions, error: Some(m) }
        },
    }
}

/// The drain notice of a connection.
pub open spec fn goaway_frame(last: u32, msg: Seq<char>) -> FrameView {
    FrameView {
        typ: FrameType::GoAway,
        flags: 0,
        stream_id: 0,
        payload: goaway_bytes(last, msg),
    }
}

/// What comes of asking for credit for `want` bytes of a response body.
pub open spec fn acquired(v: ServerView, id: u32, want: nat) -> (ServerView, Acquire) {
    if v.io.closed() || !v.streams.contains_key(id) {
        (v, Acquire::Stop)
    } else {
        match v.streams[id].window.grant(want) {
            None => (v, Acquire::Wait),
            Some(n) => (
                v.updated(
                    id,
                    ServerEntry {
                        window: SendWindow { avail: (v.streams[id].window.avail - n) as i64 },
                        ..v.streams[id]
                    },
                ),
                Acquire::Granted(n as usize),
            ),
        }
    }
}

/// What comes of consuming `n` bytes of a request body: the state, and the grant.
pub open spec fn body_consumed(v: ServerView, id: u32, n: nat) -> (ServerView, Option<FrameView>) {
    if !v.credits.contains_key(id) {
        (v, None)
    } else {
        (
            ServerView { credits: v.credits.insert(id, v.credits[id].consumed(n)), ..v },
            if v.credits[id].due(n) {
                Some(grant_frame(id, v.credits[id].granted(n)))
            } else {
                None
            },
        )
    }
}

/// What comes of letting go of a request body.
pub open spec fn body_let_go(v: ServerView, id: u32) -> ServerView {
    if v.streams.contains_key(id) {
        v.updated(id, ServerEntry { body_held: false, ..v.streams[id] })
    } else {
        ServerView { credits: v.credits.remove(id), ..v }
    }
}

/// What comes of telling the client that the connection drains: the state, and the notice.
pub open spec fn drain_told(v: ServerView, msg: Seq<char>) -> (ServerView, Option<FrameView>) {
    (
        ServerView { draining: true, goaway_sent: true, ..v },
        if v.goaway_sent {
            None
        } else {
            Some(goaway_frame(v.last_accepted, msg))
        },
    )
}

/// How the drain of a connection goes on.
pub open spec fn drain_next(v: ServerView, waited: bool) -> DrainStep {
    if waited && v.io.closed() {
        DrainStep::Stop
    } else if v.active == 0 {
        DrainStep::Flush
    } else {
        DrainStep::Wait
    }
}

/// What a connection that drains does next.
#[derive(Debug, Clone, Copy, PartialEq, Eq, Structural)]
pub enum DrainStep {
    /// Every stream has finished: flush what is queued, then close.
    Flush,
    /// Wait until no stream runs or the connection closes.
    Wait,
    /// The connection is gone.
    Stop,
}

impl ServerConn {
    /// Lists an abort for each of the given streams.
    fn abort_listed(ids: &Vec<u32>, out: &mut Vec<ServerAction>)
        ensures
            views(final(out)@) == views(old(out)@) + aborts(ids@),
    {
        let ghost listed = views(out@);
        let mut i: usize = 0;
        assert(views(out@) =~= listed + aborts(ids@.take(0)));
        while i < ids.len()
            invariant
                i <= ids@.len(),
                views(out@) == listed + aborts(ids@.take(i as int)),
            decreases ids@.len() - i,
        {
            emit(out, ServerAction::Abort { id: ids[i] });
            assert(views(out@) =~= listed + aborts(ids@.take(i + 1)));
            i += 1;
        }
        assert(ids@.take(ids@.len() as int) =~= ids@);
    }

    /// Ends the connection: closes it for `reason`, if it was not closed before,
    /// and stops every service that still runs for it.
    pub fn end(&mut self, reason: CloseReason, out: &mut Vec<ServerAction>)
        requires
            old(self)@.sane(),
        ensures
            final(self)@.wf(),
            final(self)@ == end_outcome(old(self)@, reason@).state,
            views(final(out)@) == views(old(out)@) + end_outcome(old(self)@, reason@).actions,
    {
        let _ = self.io.close(reason);
        let ids = self.streams.ids_above(-1);
        Self::abort_listed(&ids, out);
        self.streams = Table::new();
        self.credits = Table::new();
    }

    /// Handles a frame for the demux. `false` means that the connection failed
    /// and the demux is to stop.
    pub fn on_frame(&mut self, frame: Frame, out: &mut Vec<ServerAction>) -> (r: bool)
        requires
            old(self)@.wf(),
            frame@.payload.len() <= MAX_FRAME_PAYLOAD,
        ensures
            final(self)@.wf(),
            final(self)@ == demux_outcome(old(self)@, frame@).state,
            views(final(out)@) == views(old(out)@) + demux_outcome(old(self)@, frame@).actions,
            r == (demux_outcome(old(self)@, frame@).error is None),
            !r ==> final(self)@.io.closed(),
    {
        match self.handle_frame(frame, out) {
            Ok(_) => true,
            Err(e) => {
                self.end(CloseReason::Protocol(e.0), out);
                assert(views(out@) =~= views(old(out)@) + demux_outcome(
                    old(self)@,
                    frame@,
                ).actions);
                false
            },
        }
    }

    /// Starts to drain: from now on new streams are refused, and the client is
    /// told once, with the last stream that was accepted.
    pub fn send_goaway(&mut self, msg: &str) -> (r: Option<WriteOp>)
        requires
            old(self)@.wf(),
            8 + encode_utf8(msg@).len() <= MAX_FRAME_PAYLOAD,
        ensures
            final(self)@.wf(),
            (final(self)@, op_view(r)) == drain_told(old(self)@, msg@),
            final(self)@ == (ServerView { draining: true, goaway_sent: true, ..old(self)@ }),
            match r {
                Some(op) => !old(self)@.goaway_sent && op@ == goaway_frame(
                    old(self)@.last_accepted,
                    msg@,
                ),
                None => old(self)@.goaway_sent,
            },
    {
        self.draining = true;
        let first = !self.goaway_sent;
        self.goaway_sent = true;
        proof {
            lemma_same_tables(old(self)@, self@);
        }
        if first {
            Some(
                WriteOp::Frame {
                    typ: FrameType::GoAway,
                    flags: 0,
                    stream_id: 0,
                    payload: encode_goaway(self.last_accepted, msg),
                },
            )
        } else {
            None
        }
    }

    /// Starts the drain of a server that shuts down.
    pub fn start_drain(&mut self) -> (r: Option<WriteOp>)
        requires
            old(self)@.wf(),
        ensures
            final(self)@.wf(),
            (final(self)@, op_view(r)) == drain_told(old(self)@, "server shutting down"@),
            final(self)@ == (ServerView { draining: true, goaway_sent: true, ..old(self)@ }),
            match r {
                Some(op) => !old(self)@.goaway_sent && op@ == goaway_frame(
                    old(self)@.last_accepted,
                    "server shutting down"@,
                ),
                None => old(self)@.goaway_sent,
            },
    {
        let msg = "server shutting down";
        proof {
            reveal_strlit("server shutting down");
            assert(vstd::utf8::is_ascii_chars(msg@));
            vstd::utf8::is_ascii_chars_encode_utf8(msg@);
        }
        self.send_goaway(msg)
    }

    /// Decides how the drain of a connection goes on: at first, and whenever it has
    /// waited. Only once no stream runs the connection is flushed and closed, so
    /// that no response is cut short.
    pub fn drain_step(&self, waited: bool) -> (r: DrainStep)
        ensures
            r == drain_next(self@, waited),
            r == if waited && self@.io.closed() {
                DrainStep::Stop
            } else if self@.active == 0 {
                DrainStep::Flush
            } else {
                DrainStep::Wait
            },
    {
        if waited && self.io.is_closed() {
            DrainStep::Stop
        } else if self.active == 0 {
            DrainStep::Flush
        } else {
            DrainStep::Wait
        }
    }

    // -----------------------------------------------------------------
    // one stream
    // -----------------------------------------------------------------

    /// Whether a stream is still there: a service whose stream was reset while it
    /// ran sends nothing.
    pub fn is_live(&self, id: u32) -> (r: bool)
        ensures
            r == self@.streams.contains_key(id),
    {
        self.streams.get(id).is_some()
    }

    /// Takes credit for as much of `want` bytes of a response body as there is.
    pub fn acquire(&mut self, id: u32, want: usize) -> (r: Acquire)
        requires
            old(self)@.wf(),
        ensures
            final(self)@.wf(),
            (final(self)@, r) == acquired(old(self)@, id, want as nat),
            ({
                let v = old(self)@;
                if v.io.closed() || !v.streams.contains_key(id) {
                    r == Acquire::Stop && final(self)@ == v
                } else {
                    let e = v.streams[id];
                    match e.window.grant(want as nat) {
                        None => r == Acquire::Wait && final(self)@ == v,
                        Some(n) => {
                            &&& r == Acquire::Granted(n as usize)
                            &&& n <= want
                            &&& final(self)@ == v.updated(
                                id,
                                ServerEntry {
                                    window: SendWindow { avail: (e.window.avail - n) as i64 },
                                    ..e
                                },
                            )
                        },
                    }
                }
            }),
    {
        if self.io.is_closed() {
            return Acquire::Stop;
        }
        match self.streams.get(id) {
            None => Acquire::Stop,
            Some(entry) => {
                let mut window = entry.window;
                match window.acquire(want) {
                    None => Acquire::Wait,
                    Some(n) => {
                        self.streams.put(id, ServerEntry { window, ..entry });
                        proof {
                            lemma_updated_wf(old(self)@, id, ServerEntry { window, ..entry });
                        }
                        Acquire::Granted(n)
                    },
                }
            },
        }
    }

    /// The bytes delivered to the request body of a stream and not yet consumed.
    pub fn outstanding(&self, id: u32) -> (r: Option<i64>)
        ensures
            match r {
                Some(n) => self@.credits.contains_key(id) && self@.credits[id].outstanding == n,
                None => !self@.credits.contains_key(id),
            },
    {
        match self.credits.get(id) {
            Some(c) => Some(c.outstanding),
            None => None,
        }
    }

    /// Records that the service consumed `n` bytes of a request body; gives the
    /// WINDOW_UPDATE to queue, if one is due.
    pub fn on_consumed(&mut self, id: u32, n: usize) -> (r: Option<WriteOp>)
        requires
            old(self)@.wf(),
            old(self)@.credits.contains_key(id) ==> n <= old(self)@.credits[id].outstanding,
        ensures
            final(self)@.wf(),
            (final(self)@, op_view(r)) == body_consumed(old(self)@, id, n as nat),
            ({
                let v = old(self)@;
                if !v.credits.contains_key(id) {
                    r is None && final(self)@ == v
                } else {
                    let c = v.credits[id];
                    &&& final(self)@ == (ServerView {
                        credits: v.credits.insert(id, c.consumed(n as nat)),
                        ..v
                    })
                    &&& r is Some <==> c.due(n as nat)
                    &&& r matches Some(op) ==> op@ == grant_frame(id, c.granted(n as nat))
                }
            }),
    {
        match self.credits.get(id) {
            None => None,
            Some(c) => {
                let mut credit = c;
                assert(self@.credit_ok(id));
                let grant = credit.on_consumed(n);
                self.credits.put(id, credit);
                proof {
                    let v = old(self)@;
                    let w = self@;
                    assert forall|k: u32| #[trigger] w.credits.contains_key(k) implies w.credit_ok(
                        k,
                    ) by {
                        assert(v.credits.contains_key(k));
                        assert(v.credit_ok(k));
                    }
                    assert forall|k: u32| #[trigger] w.streams.contains_key(k) implies {
                        &&& k % 2 == 1
                        &&& k <= w.last_accepted
                        &&& w.credits.contains_key(k)
                    } by {
                        assert(v.streams.contains_key(k));
                    }
                }
                match grant {
                    None => None,
                    Some(g) => Some(
                        WriteOp::Frame {
                            typ: FrameType::WindowUpdate,
                            flags: 0,
                            stream_id: g.stream_id,
                            payload: g.payload,
                        },
                    ),
                }
            },
        }
    }

    /// Hands the reader of a request body what its queue gave. Message bytes count
    /// as consumed; gives the WINDOW_UPDATE to queue, if one is due.
    pub fn read_body(
        &mut self,
        id: u32,
        body: &mut ShmBody,
        queue: Option<Result<BodyEvent, Status>>,
    ) -> (r: (BodyItem, Option<WriteOp>))
        requires
            old(self)@.wf(),
            old(self)@.credits.contains_key(id) ==> (queue_view(queue) matches ItemView::Data(b)
                ==> b.len() <= old(self)@.credits[id].outstanding),
        ensures
            final(self)@.wf(),
            *final(body) == old(body).after(queue_view(queue)),
            r.0@ == old(body).given(queue_view(queue)),
            match r.0@ {
                ItemView::Data(b) => if old(self)@.credits.contains_key(id) {
                    let c = old(self)@.credits[id];
                    &&& final(self)@ == (ServerView {
                        credits: old(self)@.credits.insert(id, c.consumed(b.len())),
                        ..old(self)@
                    })
                    &&& r.1 is Some <==> c.due(b.len())
                    &&& r.1 matches Some(op) ==> op@ == grant_frame(id, c.granted(b.len()))
                } else {
                    r.1 is None && final(self)@ == old(self)@
                },
                _ => r.1 is None && final(self)@ == old(self)@,
            },
    {
        let item = body.poll(queue);
        let grant = match &item {
            BodyItem::Data(b) => self.on_consumed(id, bytes_len(b)),
            _ => None,
        };
        (item, grant)
    }

    /// The service let go of a request body. No reset is sent: the response may
    /// still be on its way, and what the client still sends is bounded by the
    /// window and ignored.
    pub fn body_dropped(&mut self, id: u32)
        requires
            old(self)@.wf(),
        ensures
            final(self)@.wf(),
            final(self)@ == body_let_go(old(self)@, id),
            final(self)@ == if old(self)@.streams.contains_key(id) {
                old(self)@.updated(
                    id,
                    ServerEntry { body_held: false, ..old(self)@.streams[id] },
                )
            } else {
                ServerView { credits: old(self)@.credits.remove(id), ..old(self)@ }
            },
    {
        match self.streams.get(id) {
            Some(entry) => {
                self.streams.put(id, ServerEntry { body_held: false, ..entry });
                proof {
                    lemma_updated_wf(old(self)@, id, ServerEntry { body_held: false, ..entry });
                }
            },
            None => {
                let _ = self.credits.remove(id);
                proof {
                    let v = old(self)@;
                    let w = self@;
                    assert forall|k: u32| #[trigger] w.credits.contains_key(k) implies w.credit_ok(
                        k,
                    ) by {
                        assert(v.credits.contains_key(k));
                        assert(v.credit_ok(k));
                    }
                    assert forall|k: u32| #[trigger] w.streams.contains_key(k) implies {
                        &&& k % 2 == 1
                        &&& k <= w.last_accepted
                        &&& w.credits.contains_key(k)
                    } by {
                        assert(v.streams.contains_key(k));
                    }
                }
            },
        }
    }
}

proof fn lemma_same_tables(v: ServerView, w: ServerView)
    requires
        v.wf(),
        w.streams == v.streams,
        w.credits == v.credits,
        w.active == v.active,
        w.last_accepted == v.last_accepted,
        w.window == v.window,
        w.max_frame == v.max_frame,
        w.max_streams == v.max_streams,
        w.goaway_sent ==> w.draining,
        w.io == v.io,
    ensures
        w.wf(),
{
    assert forall|k: u32| #[trigger] w.credits.contains_key(k) implies w.credit_ok(k) by {
        assert(v.credit_ok(k));
    }
}

proof fn lemma_updated_wf(v: ServerView, id: u32, e: ServerEntry)
    requires
        v.wf(),
        v.streams.contains_key(id),
    ensures
        v.updated(id, e).wf(),
{
    let w = v.updated(id, e);
    assert(w.streams.dom() =~= v.streams.dom());
    assert forall|k: u32| #[trigger] w.credits.contains_key(k) implies w.credit_ok(k) by {
        assert(v.credit_ok(k));
    }
    assert forall|k: u32| #[trigger] w.streams.contains_key(k) implies {
        &&& k % 2 == 1
        &&& k <= w.last_accepted
        &&& w.credits.contains_key(k)
    } by {
        assert(v.streams.contains_key(k));
    }
}

// ---------------------------------------------------------------------
// laws
// ---------------------------------------------------------------------

/// What is buffered for the request body of a running stream is bounded by the window
/// that the peer was granted.
pub proof fn law_buffering_is_bounded(v: ServerView, id: u32)
    requires
        v.wf(),
        v.streams.contains_key(id),
    ensures
        0 <= v.credits[id].outstanding <= v.window,
{
    assert(v.credits.contains_key(id));
    assert(v.credit_ok(id));
}

/// A frame that is handled keeps the connection in order: in particular the ids of
/// accepted streams are odd, and no more streams run than the bound allows.
pub proof fn law_frames_keep_order(v: ServerView, f: FrameView)
    requires
        v.wf(),
        f.payload.len() <= MAX_FRAME_PAYLOAD,
        frame_outcome(v, f).error is None,
    ensures
        frame_outcome(v, f).state.wf(),
{
    lemma_frame_keeps_wf(v, f);
}

/// The last accepted id never goes back.
pub proof fn law_last_accepted_never_shrinks(v: ServerView, f: FrameView)
    ensures
        frame_outcome(v, f).state.last_accepted >= v.last_accepted,
{
}

/// Every service that is started is for an odd id above all that came before.
pub proof fn law_accepted_ids_increase(
    v: ServerView,
    f: FrameView,
    id: u32,
    uri: Seq<char>,
    headers: Seq<(Seq<u8>, Seq<u8>)>,
    ended: bool,
)
    requires
        v.wf(),
        frame_outcome(v, f).actions.contains(ActionView::Spawn { id, uri, headers, ended }),
    ensures
        id % 2 == 1,
        id > v.last_accepted,
        frame_outcome(v, f).state.last_accepted == id,
        !v.streams.contains_key(id),
        frame_outcome(v, f).state.streams.contains_key(id),
{
    let o = frame_outcome(v, f);
    let a = ActionView::Spawn { id, uri, headers, ended };
    let k = choose|k: int| 0 <= k < o.actions.len() && o.actions[k] == a;
    assert(f.typ == FrameType::Headers);
    assert(id == f.stream_id);
}

/// A well-formed open that cannot be taken, because the connection drains or
/// because as many streams run as may, is refused, and nothing else happens: the
/// client may try again elsewhere.
pub proof fn law_refusal_changes_nothing(v: ServerView, f: FrameView)
    requires
        f.typ == FrameType::Headers,
        f.stream_id % 2 == 1,
        f.stream_id > v.last_accepted,
        v.draining || v.at_limit(),
    ensures
        frame_outcome(v, f).state == v,
        frame_outcome(v, f).error is None,
        frame_outcome(v, f).actions == seq![ActionView::Control(refusal_frame(f.stream_id))],
        parse_rst(refusal_frame(f.stream_id).payload) == Ok::<RstCode, Seq<char>>(
            RstCode::Refused,
        ),
{
    crate::control::law_rst_roundtrip(RstCode::Refused);
}

/// A client whose open was refused sees its call fail as unavailable, and has
/// forgotten the stream.
pub proof fn law_refused_open_fails_as_unavailable(c: ClientView, id: u32)
    requires
        c.streams.contains_key(id),
        c.streams[id].awaiting_head,
    ensures
        ({
            let o = crate::client::frame_outcome(c, refusal_frame(id));
            &&& o.error is None
            &&& o.state == c.without(id)
            &&& o.actions == seq![
                crate::client::ActionView::HeadFailed {
                    id,
                    status: crate::body::reset_status(RstCode::Refused),
                },
                crate::client::ActionView::Remove { id },
            ]
            &&& crate::body::reset_status(RstCode::Refused).code == crate::body::Code::Unavailable
        }),
{
    crate::control::law_rst_roundtrip(RstCode::Refused);
}

/// While a connection drains no stream is accepted, so that the last one named in
/// the drain notice stays the last.
pub proof fn law_draining_accepts_nothing(v: ServerView, f: FrameView)
    requires
        v.draining,
    ensures
        frame_outcome(v, f).state.last_accepted == v.last_accepted,
        frame_outcome(v, f).state.draining,
        forall|id: u32| #[trigger]
            frame_outcome(v, f).state.streams.contains_key(id) ==> v.streams.contains_key(id),
{
}

/// The drain notice fails no stream at the client that the server has accepted.
pub proof fn law_goaway_fails_no_accepted_stream(
    v: ServerView,
    msg: Seq<char>,
    c: ClientView,
    id: u32,
)
    requires
        v.wf(),
        v.streams.contains_key(id),
        c.streams.contains_key(id),
    ensures
        ({
            let w = crate::client::frame_outcome(c, goaway_frame(v.last_accepted, msg)).state;
            w.streams.contains_key(id) && w.streams[id] == c.streams[id]
        }),
{
    let f = goaway_frame(v.last_accepted, msg);
    crate::control::law_goaway_roundtrip(v.last_accepted, msg);
    crate::client::law_goaway_spares_accepted_streams(c, f, id);
}

/// A frame touches no stream but its own.
pub proof fn law_frames_touch_only_their_stream(v: ServerView, f: FrameView, id: u32)
    requires
        id != f.stream_id,
    ensures
        ({
            let w = frame_outcome(v, f).state;
            &&& w.streams.contains_key(id) <==> v.streams.contains_key(id)
            &&& v.streams.contains_key(id) ==> w.streams[id] == v.streams[id]
            &&& w.credits.contains_key(id) <==> v.credits.contains_key(id)
            &&& v.credits.contains_key(id) ==> w.credits[id] == v.credits[id]
        }),
{
}

/// Frames of a stream that has finished or was reset change nothing.
pub proof fn law_finished_streams_are_ignored(v: ServerView, f: FrameView)
    requires
        !v.streams.contains_key(f.stream_id),
        f.typ == FrameType::Data || f.typ == FrameType::RstStream || f.typ
            == FrameType::WindowUpdate,
    ensures
        frame_outcome(v, f).state == v,
        frame_outcome(v, f).actions == Seq::<ActionView>::empty(),
{
}

/// Whoever waits for the last stream of an open connection to finish is told exactly
/// when it does.
pub proof fn law_drained_is_told_at_the_last_stream(v: ServerView, id: u32)
    requires
        v.wf(),
        !v.io.closed(),
        v.streams.contains_key(id),
    ensures
        finished_actions(v, id).contains(ActionView::Drained) <==> v.without(id).active == 0,
        v.without(id).active == 0 <==> v.without(id).streams == Map::<u32, ServerEntry>::empty(),
{
    lemma_nonempty(v.streams, id);
    let w = v.without(id);
    if v.active == 1 {
        assert(finished_actions(v, id)[0] == ActionView::Drained);
    }
    if w.active == 0 {
        assert(w.streams.dom().len() == 0);
        assert(w.streams.dom() =~= Set::<u32>::empty());
        assert(w.streams =~= Map::<u32, ServerEntry>::empty());
    } else {
        assert(w.streams.dom().len() > 0);
        if w.streams == Map::<u32, ServerEntry>::empty() {
            assert(w.streams.dom() =~= Set::<u32>::empty());
        }
    }
}

/// The end of a connection stops the service of every stream.
pub proof fn law_no_service_is_left_behind(v: ServerView, reason: CloseView, id: u32)
    requires
        v.streams.contains_key(id),
    ensures
        end_outcome(v, reason).actions.contains(ActionView::Abort { id }),
        !end_outcome(v, reason).state.streams.contains_key(id),
        end_outcome(v, reason).state.io.closed(),
{
    let ids = sorted_ids(v.streams, -1);
    lemma_sorted_exists(v.streams, -1);
    assert(ids.contains(id));
    let k = choose|k: int| 0 <= k < ids.len() && ids[k] == id;
    assert(aborts(ids)[k] == ActionView::Abort { id });
}

} // verus!
