//! Both ends of a connection together: what one end sends is what the other end
//! acts on.

use vstd::prelude::*;

verus! {

use crate::block::{
    block_bytes, block_entries, decode_block, law_block_roundtrip, valid_entries, BlockView,
};
use crate::client::{
    cancel_frame, grant_frame, open_frame, ClientConn, ClientView, MAX_STREAM_ID,
};
use crate::frame::{
    FrameType, FrameView, FLAG_END_STREAM, MAX_HEADER_BLOCK, MAX_HEADER_ENTRIES,
};
use crate::outside::{is_status_code, uri_of_text};
use crate::pump::{data_frame, head_block, head_frame, plain_block, trailers_frame};
use crate::server::{request_uri, ServerView};

/// A block that a peer takes: its entries decode as they are, within the caps.
pub open spec fn acceptable(b: BlockView) -> bool {
    &&& valid_entries(b.headers)
    &&& block_entries(b).len() <= MAX_HEADER_ENTRIES
    &&& block_bytes(b).len() <= MAX_HEADER_BLOCK
}

proof fn lemma_flags()
    ensures
        FLAG_END_STREAM & FLAG_END_STREAM != 0,
        0u8 & FLAG_END_STREAM == 0,
{
    assert(0x1u8 & 0x1u8 != 0) by (bit_vector);
    assert(0u8 & 0x1u8 == 0) by (bit_vector);
}

// ---------------------------------------------------------------------
// all the calls of a connection
// ---------------------------------------------------------------------

/// Something that happens at the client end of a connection.
pub enum ClientOp {
    /// A call asks for a stream for this request; its HEADERS are queued before the
    /// next call can ask. A queue that is gone takes nothing of what follows either.
    Open(BlockView),
    /// The pump of a call queues message bytes, or the end of the request.
    Body { call: int, payload: Seq<u8>, end: bool },
    /// A call that still waits for its response head is given up.
    GiveUp { call: int },
    /// A frame comes in.
    Frame(FrameView),
    /// Anything else that leads to this state: it hands out no stream id, and does
    /// not open a closed connection again.
    Other(ClientView),
}

/// A client end and what went into its data queue.
pub struct History {
    pub state: ClientView,
    /// The requests of the calls that got a stream, in the order of the calls.
    pub requests: Seq<BlockView>,
    /// The ids that those calls got.
    pub ids: Seq<u32>,
    /// Everything that was put in the data queue, in order.
    pub queue: Seq<FrameView>,
}

impl History {
    /// The history after one more thing happened. A call that is not there does
    /// nothing.
    pub open spec fn next(self, op: ClientOp) -> History {
        match op {
            ClientOp::Open(b) => if ClientConn::refusal(self.state) is Some {
                self
            } else if self.state.next_id > MAX_STREAM_ID {
                History { state: ClientConn::exhausted(self.state), ..self }
            } else {
                History {
                    state: ClientConn::opened(self.state),
                    requests: self.requests.push(b),
                    ids: self.ids.push(self.state.next_id),
                    queue: self.queue.push(open_frame(self.state.next_id, b)),
                }
            },
            ClientOp::Body { call, payload, end } => if 0 <= call < self.ids.len() {
                History {
                    queue: self.queue.push(data_frame(self.ids[call], payload, end)),
                    ..self
                }
            } else {
                self
            },
            ClientOp::GiveUp { call } => if 0 <= call < self.ids.len() {
                History {
                    state: ClientView {
                        streams: self.state.streams.remove(self.ids[call]),
                        credits: self.state.credits.remove(self.ids[call]),
                        ..self.state
                    },
                    queue: self.queue.push(cancel_frame(self.ids[call])),
                    ..self
                }
            } else {
                self
            },
            ClientOp::Frame(f) => History {
                state: crate::client::demux_outcome(self.state, f).state,
                ..self
            },
            ClientOp::Other(v) => if v.next_id == self.state.next_id && (
            self.state.io.closed() ==> v.io.closed()) {
                History { state: v, ..self }
            } else {
                self
            },
        }
    }
}

/// The history of a fresh connection on which all of `ops` happened.
pub open spec fn history(window: u32, max_frame: usize, ops: Seq<ClientOp>) -> History
    decreases ops.len(),
{
    if ops.len() == 0 {
        History {
            state: ClientConn::fresh(window, max_frame),
            requests: Seq::empty(),
            ids: Seq::empty(),
            queue: Seq::empty(),
        }
    } else {
        history(window, max_frame, ops.drop_last()).next(ops.last())
    }
}

/// The HEADERS frames of a queue, in order.
pub open spec fn opens(queue: Seq<FrameView>) -> Seq<FrameView> {
    queue.filter(|f: FrameView| f.typ == FrameType::Headers)
}

/// The HEADERS frames of calls with the given requests: ids 1, 3, 5 and so on.
pub open spec fn opens_in_order(requests: Seq<BlockView>) -> Seq<FrameView> {
    Seq::new(requests.len(), |i: int| open_frame((1 + 2 * i) as u32, requests[i]))
}

/// Whether the HEADERS of a stream stand among the first `n` frames of a queue.
pub open spec fn opened_before(queue: Seq<FrameView>, n: int, id: u32) -> bool {
    exists|j: int|
        0 <= j < n && (#[trigger] queue[j]).typ == FrameType::Headers && queue[j].stream_id == id
}

/// Over the whole life of a connection, whatever else happens on it, the data queue
/// gets the HEADERS of the first call with id 1, those of the second with id 3, and
/// so on, without flags and each with the request of its call, which decodes to
/// that request. Every other frame in the queue comes behind the HEADERS of its
/// stream.
pub proof fn law_calls_open_in_order(window: u32, max_frame: usize, ops: Seq<ClientOp>)
    ensures
        ({
            let h = history(window, max_frame, ops);
            &&& h.ids.len() == h.requests.len()
            &&& opens(h.queue) == opens_in_order(h.requests)
            &&& forall|i: int|
                0 <= i < h.ids.len() ==> #[trigger] h.ids[i] == 1 + 2 * i && h.ids[i]
                    <= MAX_STREAM_ID
            &&& forall|i: int|
                0 <= i < h.requests.len() && acceptable(#[trigger] h.requests[i]) ==> decode_block(
                    opens(h.queue)[i].payload,
                ) == Ok::<BlockView, Seq<char>>(h.requests[i])
            &&& forall|k: int|
                0 <= k < h.queue.len() && (#[trigger] h.queue[k]).typ != FrameType::Headers
                    ==> opened_before(h.queue, k, h.queue[k].stream_id)
        }),
{
    lemma_history(window, max_frame, ops);
    let h = history(window, max_frame, ops);
    assert forall|i: int|
        0 <= i < h.requests.len() && acceptable(#[trigger] h.requests[i]) implies decode_block(
        opens(h.queue)[i].payload,
    ) == Ok::<BlockView, Seq<char>>(h.requests[i]) by {
        law_block_roundtrip(h.requests[i]);
    }
}

proof fn lemma_opens_push(queue: Seq<FrameView>, f: FrameView)
    ensures
        opens(queue.push(f)) == if f.typ == FrameType::Headers {
            opens(queue).push(f)
        } else {
            opens(queue)
        },
{
    reveal(Seq::filter);
    assert(queue.push(f).drop_last() =~= queue);
}

proof fn lemma_history(window: u32, max_frame: usize, ops: Seq<ClientOp>)
    ensures
        ({
            let h = history(window, max_frame, ops);
            &&& h.ids.len() == h.requests.len()
            &&& !h.state.io.closed() ==> h.state.next_id == 1 + 2 * h.ids.len()
            &&& opens(h.queue) == opens_in_order(h.requests)
            &&& forall|i: int|
                0 <= i < h.ids.len() ==> #[trigger] h.ids[i] == 1 + 2 * i && h.ids[i]
                    <= MAX_STREAM_ID
            &&& forall|i: int|
                0 <= i < h.ids.len() ==> opened_before(
                    h.queue,
                    h.queue.len() as int,
                    #[trigger] h.ids[i],
                )
            &&& forall|k: int|
                0 <= k < h.queue.len() && (#[trigger] h.queue[k]).typ != FrameType::Headers
                    ==> opened_before(h.queue, k, h.queue[k].stream_id)
        }),
    decreases ops.len(),
{
    let h = history(window, max_frame, ops);
    if ops.len() == 0 {
        reveal(Seq::filter);
        assert(opens(h.queue) =~= opens_in_order(h.requests));
    } else {
        lemma_history(window, max_frame, ops.drop_last());
        let g = history(window, max_frame, ops.drop_last());
        if h.queue != g.queue {
            let f = h.queue.last();
            let n = g.queue.len() as int;
            assert(h.queue =~= g.queue.push(f));
            lemma_opens_push(g.queue, f);
            assert forall|m: int, id: u32| 0 <= m <= n && opened_before(g.queue, m, id) implies
                #[trigger] opened_before(h.queue, m, id) by {
                let j = choose|j: int|
                    0 <= j < m && (#[trigger] g.queue[j]).typ == FrameType::Headers
                        && g.queue[j].stream_id == id;
                assert(h.queue[j] == g.queue[j]);
            }
            assert forall|id: u32| opened_before(h.queue, n, id) implies #[trigger] opened_before(
                h.queue,
                n + 1,
                id,
            ) by {
                let j = choose|j: int|
                    0 <= j < n && (#[trigger] h.queue[j]).typ == FrameType::Headers
                        && h.queue[j].stream_id == id;
                assert(h.queue[j].stream_id == id);
            }
            assert forall|k: int|
                0 <= k < h.queue.len() && (#[trigger] h.queue[k]).typ
                    != FrameType::Headers implies opened_before(
                h.queue,
                k,
                h.queue[k].stream_id,
            ) by {
                if k < n {
                    assert(h.queue[k] == g.queue[k]);
                    assert(opened_before(g.queue, k, g.queue[k].stream_id));
                }
            }
            assert(opens(h.queue) =~= opens_in_order(h.requests));
            assert forall|i: int| 0 <= i < h.ids.len() implies opened_before(
                h.queue,
                n + 1,
                #[trigger] h.ids[i],
            ) by {
                if i < g.ids.len() {
                    assert(h.ids[i] == g.ids[i]);
                    assert(opened_before(h.queue, n, g.ids[i]));
                } else {
                    assert(h.queue[n].stream_id == h.ids[i]);
                }
            }
        }
    }
}

// ---------------------------------------------------------------------
// what arrives
// ---------------------------------------------------------------------

/// A stream that a client opens next is never a violation at a server that has
/// only seen earlier ones, and keeps the two in step. Where it is not refused, the
/// service is run for exactly the request that was made.
pub proof fn law_request_arrives(c: ClientView, s: ServerView, b: BlockView)
    requires
        c.wf(),
        c.next_id <= MAX_STREAM_ID,
        s.last_accepted < c.next_id,
        acceptable(b),
        b.path is Some,
        uri_of_text(request_uri(b)) is Some,
    ensures
        ({
            let id = c.next_id;
            let o = crate::server::frame_outcome(s, open_frame(id, b));
            &&& o.error is None
            &&& o.state.last_accepted < ClientConn::opened(c).next_id
            &&& if s.draining || s.at_limit() {
                o.actions == seq![
                    crate::server::ActionView::Control(crate::server::refusal_frame(id)),
                ]
            } else {
                &&& o.actions == seq![
                    crate::server::ActionView::Spawn {
                        id,
                        uri: request_uri(b),
                        headers: b.headers,
                        ended: false,
                    },
                ]
                &&& o.state.streams.contains_key(id)
            }
        }),
{
    law_block_roundtrip(b);
    lemma_flags();
}

/// The head of a response reaches the call that waits for it, with its status and
/// headers.
pub proof fn law_response_head_arrives(
    c: ClientView,
    id: u32,
    status: u16,
    headers: Seq<(Seq<u8>, Seq<u8>)>,
    end: bool,
)
    requires
        c.streams.contains_key(id),
        c.streams[id].awaiting_head,
        is_status_code(status),
        acceptable(head_block(status, headers)),
    ensures
        ({
            let o = crate::client::frame_outcome(c, head_frame(id, status, headers, end));
            &&& o.error is None
            &&& o.actions.len() > 0
            &&& o.actions[0] == (crate::client::ActionView::Head {
                id,
                status,
                headers,
                end_stream: end,
            })
        }),
{
    law_block_roundtrip(head_block(status, headers));
    lemma_flags();
}

/// The trailers of a response reach its body and end the stream.
pub proof fn law_trailers_arrive(c: ClientView, id: u32, headers: Seq<(Seq<u8>, Seq<u8>)>)
    requires
        c.streams.contains_key(id),
        !c.streams[id].awaiting_head,
        acceptable(plain_block(headers)),
    ensures
        ({
            let o = crate::client::frame_outcome(c, trailers_frame(id, headers));
            &&& o.error is None
            &&& o.actions == seq![
                crate::client::ActionView::Trailers { id, headers },
                crate::client::ActionView::Remove { id },
            ]
            &&& o.state == c.without(id)
        }),
{
    law_block_roundtrip(plain_block(headers));
}

/// Message bytes reach the body of their stream unchanged, as long as the sender
/// keeps to its window: those of a response at the client, and those of a request
/// at the server.
pub proof fn law_data_arrives(c: ClientView, s: ServerView, id: u32, payload: Seq<u8>)
    requires
        c.streams.contains_key(id),
        s.streams.contains_key(id),
        s.streams[id].body_open,
        payload.len() > 0,
        c.credits[id].outstanding + payload.len() <= c.credits[id].limit(),
        s.credits[id].outstanding + payload.len() <= s.credits[id].limit(),
    ensures
        ({
            let o = crate::client::frame_outcome(c, data_frame(id, payload, false));
            &&& o.error is None
            &&& o.actions == seq![crate::client::ActionView::Data { id, payload }]
        }),
        ({
            let o = crate::server::frame_outcome(s, data_frame(id, payload, false));
            &&& o.error is None
            &&& o.actions == seq![crate::server::ActionView::Data { id, payload }]
        }),
{
    lemma_flags();
}

/// The end of a request body reaches the service, and the end of a response body
/// without trailers ends the stream at the client.
pub proof fn law_end_arrives(c: ClientView, s: ServerView, id: u32)
    requires
        c.streams.contains_key(id),
        s.streams.contains_key(id),
    ensures
        crate::server::frame_outcome(s, data_frame(id, Seq::empty(), true)).actions == seq![
            crate::server::ActionView::EndBody { id },
        ],
        crate::client::frame_outcome(c, data_frame(id, Seq::empty(), true)).actions == seq![
            crate::client::ActionView::Remove { id },
        ],
        crate::server::frame_outcome(s, data_frame(id, Seq::empty(), true)).error is None,
        crate::client::frame_outcome(c, data_frame(id, Seq::empty(), true)).error is None,
{
    lemma_flags();
    let o = crate::server::frame_outcome(s, data_frame(id, Seq::empty(), true));
    assert(o.actions =~= seq![crate::server::ActionView::EndBody { id }]);
    let p = crate::client::frame_outcome(c, data_frame(id, Seq::empty(), true));
    assert(p.actions =~= seq![crate::client::ActionView::Remove { id }]);
}

// ---------------------------------------------------------------------
// credit
// ---------------------------------------------------------------------

/// The credit of a request body: from the client's window through the server's ledger and back.
/// Whatever the two ends do, what the sender may still send, what is on its way, what the
/// receiver has not consumed, what it has consumed and not granted, and what is granted and
/// on its way back make up the window together. So bytes of a sender that keeps to its
/// credit are never a violation, what is granted always arrives, and once all has been
/// consumed and granted there is credit again.
pub proof fn law_request_credit_goes_round(
    c: ClientView,
    s: ServerView,
    id: u32,
    in_flight: nat,
    returning: nat,
    payload: Seq<u8>,
    n: nat,
    m: u32,
)
    requires
        c.wf(),
        s.wf(),
        c.streams.contains_key(id),
        s.streams.contains_key(id),
        c.streams[id].window.avail >= 0,
        c.streams[id].window.avail + in_flight + s.credits[id].outstanding
            + s.credits[id].pending_grant + returning == s.window,
        payload.len() <= 16777216,
    ensures
        n > 0 && c.streams[id].window.avail > 0 ==> {
            let taken = c.streams[id].window.grant(n);
            &&& taken is Some
            &&& 0 < taken->0 <= n
            &&& (c.streams[id].window.avail - taken->0) + (in_flight + taken->0)
                + s.credits[id].outstanding + s.credits[id].pending_grant + returning
                == s.window
            &&& c.streams[id].window.avail - taken->0 >= 0
        },
        payload.len() <= in_flight ==> {
            let o = crate::server::frame_outcome(s, data_frame(id, payload, false));
            &&& o.error is None
            &&& o.state.credits.contains_key(id)
            &&& c.streams[id].window.avail + (in_flight - payload.len())
                + o.state.credits[id].outstanding + o.state.credits[id].pending_grant + returning
                == s.window
        },
        n <= s.credits[id].outstanding ==> {
            let after = s.credits[id].consumed(n);
            let granted = if s.credits[id].due(n) {
                s.credits[id].granted(n) as int
            } else {
                0
            };
            &&& after.outstanding >= 0
            &&& c.streams[id].window.avail + in_flight + after.outstanding
                + after.pending_grant + (returning + granted) == s.window
        },
        0 < m <= returning ==> {
            let o = crate::client::frame_outcome(c, grant_frame(id, m));
            &&& o.error is None
            &&& o.state.streams.contains_key(id)
            &&& o.state.streams[id].window.avail + in_flight + s.credits[id].outstanding
                + s.credits[id].pending_grant + (returning - m) == s.window
            &&& o.state.streams[id].window.avail > 0
        },
        in_flight == 0 && s.credits[id].outstanding == 0 && returning == 0
            ==> c.streams[id].window.avail > 0,
{
    let k = s.credits[id];
    assert(s.credits.contains_key(id));
    assert(s.credit_ok(id));
    crate::config::law_threshold_reachable(s.window);
    lemma_flags();
    if payload.len() <= in_flight {
        crate::server_laws::law_data_goes_to_its_body(s, data_frame(id, payload, false));
        let o = crate::server::frame_outcome(s, data_frame(id, payload, false));
        assert(o.state.credits.dom().contains(id));
    }
    if 0 < m <= returning {
        crate::client_laws::law_grant_arrives_in_full(c, id, m);
    }
}

/// The credit of a response body: from the server's window through the client's ledger and back.
/// Whatever the two ends do, what the sender may still send, what is on its way, what the
/// receiver has not consumed, what it has consumed and not granted, and what is granted and
/// on its way back make up the window together. So bytes of a sender that keeps to its
/// credit are never a violation, what is granted always arrives, and once all has been
/// consumed and granted there is credit again.
pub proof fn law_response_credit_goes_round(
    c: ClientView,
    s: ServerView,
    id: u32,
    in_flight: nat,
    returning: nat,
    payload: Seq<u8>,
    n: nat,
    m: u32,
)
    requires
        c.wf(),
        s.wf(),
        c.streams.contains_key(id),
        s.streams.contains_key(id),
        s.streams[id].window.avail >= 0,
        s.streams[id].window.avail + in_flight + c.credits[id].outstanding
            + c.credits[id].pending_grant + returning == c.window,
        payload.len() <= 16777216,
    ensures
        n > 0 && s.streams[id].window.avail > 0 ==> {
            let taken = s.streams[id].window.grant(n);
            &&& taken is Some
            &&& 0 < taken->0 <= n
            &&& (s.streams[id].window.avail - taken->0) + (in_flight + taken->0)
                + c.credits[id].outstanding + c.credits[id].pending_grant + returning
                == c.window
            &&& s.streams[id].window.avail - taken->0 >= 0
        },
        payload.len() <= in_flight ==> {
            let o = crate::client::frame_outcome(c, data_frame(id, payload, false));
            &&& o.error is None
            &&& o.state.credits.contains_key(id)
            &&& s.streams[id].window.avail + (in_flight - payload.len())
                + o.state.credits[id].outstanding + o.state.credits[id].pending_grant + returning
                == c.window
        },
        n <= c.credits[id].outstanding ==> {
            let after = c.credits[id].consumed(n);
            let granted = if c.credits[id].due(n) {
                c.credits[id].granted(n) as int
            } else {
                0
            };
            &&& after.outstanding >= 0
            &&& s.streams[id].window.avail + in_flight + after.outstanding
                + after.pending_grant + (returning + granted) == c.window
        },
        0 < m <= returning ==> {
            let o = crate::server::frame_outcome(s, grant_frame(id, m));
            &&& o.error is None
            &&& o.state.streams.contains_key(id)
            &&& o.state.streams[id].window.avail + in_flight + c.credits[id].outstanding
                + c.credits[id].pending_grant + (returning - m) == c.window
            &&& o.state.streams[id].window.avail > 0
        },
        in_flight == 0 && c.credits[id].outstanding == 0 && returning == 0
            ==> s.streams[id].window.avail > 0,
{
    let k = c.credits[id];
    assert(c.credits.contains_key(id));
    assert(c.credit_ok(id));
    crate::config::law_threshold_reachable(c.window);
    lemma_flags();
    if payload.len() <= in_flight {
        crate::client_laws::law_data_goes_to_its_body(c, data_frame(id, payload, false));
        let o = crate::client::frame_outcome(c, data_frame(id, payload, false));
        assert(o.state.credits.dom().contains(id));
    }
    if 0 < m <= returning {
        crate::server_laws::law_grant_arrives_in_full(s, id, m);
    }
}

/// A stream starts with its credit in balance, in both directions: at the client that opens
/// it and at the server that takes it, given that they agree on the window.
pub proof fn law_streams_start_in_balance(c: ClientView, s: ServerView, b: BlockView)
    requires
        c.wf(),
        s.wf(),
        c.window == s.window,
        c.next_id <= MAX_STREAM_ID,
        acceptable(b),
        crate::server::frame_outcome(s, open_frame(c.next_id, b)).state.streams.contains_key(
            c.next_id,
        ),
        !s.streams.contains_key(c.next_id),
    ensures
        ({
            let id = c.next_id;
            let d = ClientConn::opened(c);
            let t = crate::server::frame_outcome(s, open_frame(id, b)).state;
            &&& d.streams[id].window.avail + t.credits[id].outstanding
                + t.credits[id].pending_grant == t.window
            &&& t.streams[id].window.avail + d.credits[id].outstanding
                + d.credits[id].pending_grant == d.window
            &&& t.credits[id].outstanding == 0
            &&& d.credits[id].outstanding == 0
        }),
{
    lemma_flags();
}

// ---------------------------------------------------------------------
// requests and the drain, end to end
// ---------------------------------------------------------------------

/// A request reaches its service as it was made: a server that does not drain and has no
/// bound on streams, or runs fewer than that, runs the service for the next stream that a
/// client opens, with the headers of the request and the URI that its authority and path
/// spell; the request body is still to come.
pub proof fn law_request_arrives_as_made(
    c: ClientView,
    s: ServerView,
    b: BlockView,
    path: Seq<char>,
    uri: Seq<char>,
)
    requires
        c.wf(),
        c.io.reason is None,
        !c.draining,
        c.next_id <= 0x7fff_ffff,
        s.last_accepted < c.next_id,
        !s.draining,
        s.max_streams is None || s.active < s.max_streams->0,
        acceptable(b),
        b.path == Some(path),
        b.authority is None ==> uri == path,
        b.authority matches Some(a) ==> uri == "http://"@ + a + path,
        uri_of_text(uri) is Some,
    ensures
        ({
            let (d, r) = crate::client::open_outcome(c, b);
            &&& r matches Ok(x)
            &&& x.0 == c.next_id
            &&& d.streams.contains_key(x.0)
            &&& crate::server::frame_outcome(s, x.1).error is None
            &&& crate::server::frame_outcome(s, x.1).actions == seq![
                crate::server::ActionView::Spawn {
                    id: x.0,
                    uri,
                    headers: b.headers,
                    ended: false,
                },
            ]
        }),
{
    law_block_roundtrip(b);
    let f = open_frame(c.next_id, b);
    crate::server_laws::law_open_is_taken(s, f, b, path);
    assert(crate::server::frame_outcome(s, f).actions =~= seq![
        crate::server::ActionView::Spawn {
            id: c.next_id,
            uri,
            headers: b.headers,
            ended: false,
        },
    ]);
}

/// The drain notice of a server fails every stream of the client that the server has not
/// accepted, and no other: the call or the body is failed as unavailable, and the stream is
/// forgotten.
pub proof fn law_drain_fails_what_was_not_accepted(
    c: ClientView,
    s: ServerView,
    msg: Seq<char>,
    message: Seq<char>,
    id: u32,
)
    requires
        !s.goaway_sent,
        c.streams.contains_key(id),
        ({
            let p = crate::server::goaway_frame(s.last_accepted, msg).payload;
            let text = crate::outside::lossy_text_of(p.skip(8));
            &&& text.len() == 0 ==> message == "connection draining (GOAWAY)"@
            &&& text.len() > 0 ==> message == "connection draining (GOAWAY): "@ + text
        }),
    ensures
        ({
            let f = crate::server::drain_told(s, msg).1;
            let o = crate::client::frame_outcome(c, f->0);
            let status = crate::body::StatusView {
                code: crate::body::Code::Unavailable,
                message,
            };
            &&& f is Some
            &&& o.error is None
            &&& o.state.draining
            &&& id <= s.last_accepted ==> o.state.streams.contains_key(id) && o.state.streams[id]
                == c.streams[id]
            &&& id > s.last_accepted ==> {
                &&& !o.state.streams.contains_key(id)
                &&& o.actions.contains(crate::client::ActionView::Remove { id })
                &&& c.streams[id].awaiting_head ==> o.actions.contains(
                    crate::client::ActionView::HeadFailed { id, status },
                )
                &&& !c.streams[id].awaiting_head ==> o.actions.contains(
                    crate::client::ActionView::BodyFailed { id, status },
                )
            }
        }),
{
    let f = crate::server::goaway_frame(s.last_accepted, msg);
    crate::server_laws::law_drain_notice(s.last_accepted, msg);
    let n = s.last_accepted;
    assert(n == n % 256 + 256 * (n / 256 % 256) + 65536 * (n / 65536 % 256) + 16777216 * (n
        / 16777216 % 256));
    crate::client_laws::law_goaway_fails_every_later_stream(c, f, message, id);
}

/// A client that gives a stream up stops its service, whatever became of the request body:
/// the reset that it sends, from a body or from a call, takes the stream out of the server's
/// table and lowers the number of streams that run by one.
pub proof fn law_giving_up_stops_the_service(
    c: ClientView,
    s: ServerView,
    guard: crate::client::PendingStreamGuard,
    can_wait: bool,
)
    requires
        s.wf(),
        guard.armed,
        s.streams.contains_key(guard.id),
    ensures
        ({
            let r = crate::client::guard_let_go(c, guard, can_wait).1;
            &&& r matches Some(x)
            &&& crate::server::frame_outcome(s, x.1).error is None
            &&& crate::server::frame_outcome(s, x.1).actions.contains(
                crate::server::ActionView::Abort { id: guard.id },
            )
            &&& !crate::server::frame_outcome(s, x.1).state.streams.contains_key(guard.id)
            &&& crate::server::frame_outcome(s, x.1).state.active == s.active - 1
        }),
{
    crate::server_laws::law_cancel_stops_the_service(s, guard.id);
}

} // verus!
