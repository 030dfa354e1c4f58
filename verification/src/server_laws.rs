//! What the server end of a connection promises, frame by frame.
//!
//! Each law says in plain terms what a frame does: which request is run, what its body
//! is handed, what is stopped, and what is left in the table.

use vstd::prelude::*;

use crate::client::Acquire;
use crate::frame::{FrameType, RstCode};
use crate::server::DrainStep;

verus! {

use crate::block::{decode_block, BlockView};
use crate::client::{cancel_frame, grant_frame};
use crate::conn::CloseView;
use crate::control::{law_control_bytes, law_reset_by_its_bytes, law_window_update_by_its_bytes};
use crate::frame::{law_lowest_flag_ends, FrameView, ProtocolError};
use crate::outside::{bytes_view, header_map_view, uri_of_text};
use crate::server::{
    acquired,
    authorized,
    body_consumed,
    body_let_go,
    demux_outcome,
    drain_next,
    drain_told,
    end_outcome,
    finished_actions,
    frame_outcome,
    goaway_frame,
    matches_outcome,
    open_outcome,
    refusal_frame,
    views,
    ActionView,
    Outcome,
    ServerAction,
    ServerConn,
    ServerEntry,
    ServerView,
    ShmscConnectInfo,
};
use crate::table::{lemma_sorted_exists, sorted_ids};
use crate::text::decimal;
use vstd::utf8::encode_utf8;

// ---------------------------------------------------------------------
// opens
// ---------------------------------------------------------------------

/// A server that does not drain, and has no bound on its streams or runs fewer than the
/// bound, takes every open in order: an odd id above all that were accepted, a block that
/// can be read and has a path, and a URI that can be one. The service is run for it, and
/// nothing else is done. The request has the headers of the block, and its body has ended
/// exactly where the lowest flag bit says so.
pub proof fn law_open_is_taken(v: ServerView, f: FrameView, b: BlockView, path: Seq<char>)
    requires
        f.typ == FrameType::Headers,
        f.stream_id % 2 == 1,
        f.stream_id > v.last_accepted,
        !v.draining,
        v.max_streams is None || v.active < v.max_streams->0,
        decode_block(f.payload) == Ok::<BlockView, Seq<char>>(b),
        b.path == Some(path),
        uri_of_text(
            match b.authority {
                Some(a) => "http://"@ + a + path,
                None => path,
            },
        ) is Some,
    ensures
        ({
            let id = f.stream_id;
            let o = frame_outcome(v, f);
            let ended = f.flags % 2 == 1;
            let w = o.state;
            let e = w.streams[id];
            let c = w.credits[id];
            &&& o.error is None
            &&& o.actions.len() == 1
            &&& o.actions[0] is Spawn
            &&& o.actions[0]->Spawn_id == id
            &&& o.actions[0]->Spawn_headers == b.headers
            &&& o.actions[0]->Spawn_ended == ended
            &&& b.authority is None ==> o.actions[0]->Spawn_uri == path
            &&& b.authority matches Some(a) ==> o.actions[0]->Spawn_uri == "http://"@ + a + path
            &&& w.active == v.active + 1
            &&& w.last_accepted == id
            &&& w.streams.dom() == v.streams.dom().insert(id)
            &&& w.credits.dom() == v.credits.dom().insert(id)
            &&& e.body_open == !ended
            &&& e.body_held
            &&& e.window.avail == v.window
            &&& c.stream_id == id
            &&& c.window == v.window
            &&& c.outstanding == 0
            &&& c.pending_grant == 0
        }),
{
    law_lowest_flag_ends(f);
    assert(frame_outcome(v, f).state.streams.dom() =~= v.streams.dom().insert(f.stream_id));
    assert(frame_outcome(v, f).state.credits.dom() =~= v.credits.dom().insert(f.stream_id));
}

/// An open in order is refused exactly while the server drains or runs as many streams as
/// it may; then it is answered with a reset that says so (2), and nothing changes.
pub proof fn law_open_is_refused(v: ServerView, f: FrameView)
    requires
        f.typ == FrameType::Headers,
        f.stream_id % 2 == 1,
        f.stream_id > v.last_accepted,
    ensures
        ({
            let o = frame_outcome(v, f);
            let refusal = ActionView::Control(
                FrameView {
                    typ: FrameType::RstStream,
                    flags: 0,
                    stream_id: f.stream_id,
                    payload: seq![2u8, 0, 0, 0],
                },
            );
            let full = v.max_streams is Some && v.active >= v.max_streams->0;
            &&& o.actions.contains(refusal) <==> v.draining || full
            &&& v.draining || full ==> o.state == v && o.error is None && o.actions == seq![
                refusal,
            ]
        }),
{
    law_control_bytes(0, RstCode::Refused, 0, Seq::empty());
    let o = frame_outcome(v, f);
    let refusal = ActionView::Control(
        FrameView {
            typ: FrameType::RstStream,
            flags: 0,
            stream_id: f.stream_id,
            payload: seq![2u8, 0, 0, 0],
        },
    );
    if v.draining || (v.max_streams is Some && v.active >= v.max_streams->0) {
        assert(refusal_frame(f.stream_id).payload =~= seq![2u8, 0, 0, 0]);
        assert(o.actions[0] == refusal);
    }
}

/// Opens that differ in their path, or in their authority, are run for different URIs: no
/// part of either is dropped or replaced.
pub proof fn law_different_requests_have_different_uris(
    v: ServerView,
    w: ServerView,
    f: FrameView,
    g: FrameView,
    a: BlockView,
    b: BlockView,
)
    requires
        f.typ == FrameType::Headers,
        g.typ == FrameType::Headers,
        decode_block(f.payload) == Ok::<BlockView, Seq<char>>(a),
        decode_block(g.payload) == Ok::<BlockView, Seq<char>>(b),
        frame_outcome(v, f).actions.len() > 0,
        frame_outcome(w, g).actions.len() > 0,
        frame_outcome(v, f).actions[0] is Spawn,
        frame_outcome(w, g).actions[0] is Spawn,
        (a.authority == b.authority && a.path != b.path) || (a.path == b.path && a.authority
            != b.authority),
    ensures
        frame_outcome(v, f).actions[0]->Spawn_uri != frame_outcome(w, g).actions[0]->Spawn_uri,
{
    let p = a.path->0;
    let q = b.path->0;
    let x = frame_outcome(v, f).actions[0]->Spawn_uri;
    let y = frame_outcome(w, g).actions[0]->Spawn_uri;
    let h = "http://"@;
    reveal_strlit("http://");
    if x == y {
        if a.path == b.path && (a.authority is None || b.authority is None) {
            assert(x.len() != y.len());
        } else if a.path == b.path {
            let s = a.authority->0;
            let t = b.authority->0;
            assert(x =~= h + s + p);
            assert(y =~= h + t + p);
            assert(s.len() == t.len());
            assert(x.subrange(h.len() as int, (h.len() + s.len()) as int) =~= s);
            assert(y.subrange(h.len() as int, (h.len() + t.len()) as int) =~= t);
        } else {
            match a.authority {
                None => {},
                Some(s) => {
                    assert(x.skip((h.len() + s.len()) as int) =~= p);
                    assert(y.skip((h.len() + s.len()) as int) =~= q);
                },
            }
        }
    }
}

// ---------------------------------------------------------------------
// request bodies and resets
// ---------------------------------------------------------------------

/// A reset of at least four bytes stops the service of a stream, whatever became of its
/// request body: the stream leaves the table and one stream fewer runs. Whoever waits for
/// the last one is told. The ledger stays only while the service still holds the body.
pub proof fn law_reset_stops_the_service(v: ServerView, f: FrameView)
    requires
        f.typ == FrameType::RstStream,
        f.payload.len() >= 4,
        v.streams.contains_key(f.stream_id),
        v.active > 0,
    ensures
        ({
            let id = f.stream_id;
            let o = frame_outcome(v, f);
            &&& o.error is None
            &&& o.actions.len() == if v.active == 1 {
                2int
            } else {
                1
            }
            &&& o.actions[0] == ActionView::Abort { id }
            &&& v.active == 1 ==> o.actions[1] == ActionView::Drained
            &&& o.state.streams == v.streams.remove(id)
            &&& o.state.active == v.active - 1
            &&& v.streams[id].body_held ==> o.state.credits == v.credits
            &&& !v.streams[id].body_held ==> o.state.credits == v.credits.remove(id)
        }),
{
    law_reset_by_its_bytes(f.payload);
}

/// The reset by which a client gives a stream up stops its service.
pub proof fn law_cancel_stops_the_service(v: ServerView, id: u32)
    requires
        v.wf(),
        v.streams.contains_key(id),
    ensures
        ({
            let o = frame_outcome(v, cancel_frame(id));
            &&& o.error is None
            &&& o.actions.contains(ActionView::Abort { id })
            &&& !o.state.streams.contains_key(id)
            &&& o.state.active == v.active - 1
        }),
{
    law_control_bytes(0, RstCode::Cancel, 0, Seq::empty());
    if v.streams.len() == 0 {
        assert(v.streams.dom().len() == 0);
        assert(v.streams.dom() =~= Set::<u32>::empty());
        assert(v.streams.dom().contains(id));
    }
    law_reset_stops_the_service(v, cancel_frame(id));
    let o = frame_outcome(v, cancel_frame(id));
    assert(o.actions[0] == ActionView::Abort { id });
}

/// Message bytes that stay within the window go to a request body that is open, unchanged
/// and once, and count as outstanding; an empty frame delivers nothing. The lowest flag bit
/// ends the body, and the stream stays.
pub proof fn law_data_goes_to_its_body(v: ServerView, f: FrameView)
    requires
        v.wf(),
        f.typ == FrameType::Data,
        f.payload.len() <= 16777216,
        v.streams.contains_key(f.stream_id),
    ensures
        ({
            let id = f.stream_id;
            let n = f.payload.len();
            let o = frame_outcome(v, f);
            let ended = f.flags % 2 == 1;
            let fits = n == 0 || v.credits[id].outstanding + n <= v.window;
            let given = n > 0 && v.streams[id].body_open;
            let e = v.streams[id];
            let x = o.state.streams[id];
            &&& o.error is None <==> fits
            &&& o.state.credits.dom() == v.credits.dom()
            &&& o.state.credits[id].outstanding == v.credits[id].outstanding + n
            &&& o.state.credits[id].pending_grant == v.credits[id].pending_grant
            &&& o.state.credits[id].window == v.credits[id].window
            &&& o.state.credits[id].threshold == v.credits[id].threshold
            &&& o.state.credits[id].stream_id == v.credits[id].stream_id
            &&& o.state.streams.dom() == v.streams.dom()
            &&& x.body_held == e.body_held
            &&& x.window == e.window
            &&& o.state.active == v.active
            &&& !fits ==> o.actions.len() == 0 && o.error == Some(
                "peer overran stream flow-control window"@,
            )
            &&& fits ==> {
                &&& o.actions.len() == (if given {
                    1int
                } else {
                    0
                }) + (if ended {
                    1int
                } else {
                    0
                })
                &&& given ==> o.actions[0] == ActionView::Data { id, payload: f.payload }
                &&& ended ==> o.actions.last() == ActionView::EndBody { id }
                &&& x.body_open == (e.body_open && !ended)
            }
        }),
{
    law_lowest_flag_ends(f);
    assert(v.credits.contains_key(f.stream_id));
    assert(v.credit_ok(f.stream_id));
    assert(frame_outcome(v, f).state.credits.dom() =~= v.credits.dom());
    assert(frame_outcome(v, f).state.streams.dom() =~= v.streams.dom());
}

/// A WINDOW_UPDATE over `n` bytes, as its four bytes say it, raises the credit of its
/// stream by `n`, all of it, and by nothing else. Everything else about the stream stays,
/// and its response pump is woken.
pub proof fn law_window_update_adds_its_number(v: ServerView, f: FrameView, n: u32)
    requires
        f.typ == FrameType::WindowUpdate,
        f.payload.len() == 4,
        n == f.payload[0] + 256 * f.payload[1] + 65536 * f.payload[2] + 16777216 * f.payload[3],
        n > 0,
        v.streams.contains_key(f.stream_id),
        v.streams[f.stream_id].window.avail + n <= i64::MAX,
    ensures
        ({
            let o = frame_outcome(v, f);
            let before = v.streams[f.stream_id];
            let after = o.state.streams[f.stream_id];
            &&& o.error is None
            &&& o.state.streams.dom() == v.streams.dom()
            &&& after.window.avail == before.window.avail + n
            &&& after.body_open == before.body_open
            &&& after.body_held == before.body_held
            &&& o.actions == seq![ActionView::WindowOpened { id: f.stream_id }]
        }),
{
    law_window_update_by_its_bytes(f.payload);
    assert(frame_outcome(v, f).state.streams.dom() =~= v.streams.dom());
}

/// What a receiver grants, the sender gets: the frame of a grant over `n` bytes leaves the
/// stream with `n` more to send.
pub proof fn law_grant_arrives_in_full(v: ServerView, id: u32, n: u32)
    requires
        n > 0,
        v.streams.contains_key(id),
        v.streams[id].window.avail + n <= i64::MAX,
    ensures
        frame_outcome(v, grant_frame(id, n)).error is None,
        frame_outcome(v, grant_frame(id, n)).state.streams.contains_key(id),
        frame_outcome(v, grant_frame(id, n)).state.streams[id].window.avail
            == v.streams[id].window.avail + n,
        frame_outcome(v, grant_frame(id, n)).actions == seq![ActionView::WindowOpened { id }],
{
    law_control_bytes(n, RstCode::Cancel, 0, Seq::empty());
    let f = grant_frame(id, n);
    assert(n == n % 256 + 256 * (n / 256 % 256) + 65536 * (n / 65536 % 256) + 16777216 * (n
        / 16777216 % 256));
    law_window_update_adds_its_number(v, f, n);
    assert(frame_outcome(v, f).state.streams.dom().contains(id));
}

// ---------------------------------------------------------------------
// what is an error, and what stays
// ---------------------------------------------------------------------

/// Exactly these frames break the protocol: an open with an even id or one that is not
/// above the last, or that is not refused and has a block that cannot be read, no path or
/// a URI that cannot be one; bytes beyond the window; a reset that is too short; a
/// WINDOW_UPDATE that is not four bytes or says zero; a PING with a stream or more than
/// eight bytes, or one to answer while 1024 answers wait.
pub proof fn law_what_breaks_the_protocol(v: ServerView, f: FrameView)
    ensures
        ({
            let p = f.payload;
            let id = f.stream_id;
            frame_outcome(v, f).error is Some <==> match f.typ {
                FrameType::Headers => id % 2 == 0 || id <= v.last_accepted || (!v.draining && (
                v.max_streams is None || v.active < v.max_streams->0) && (match decode_block(p) {
                    Err(_) => true,
                    Ok(b) => b.path is None || uri_of_text(
                        match b.authority {
                            Some(a) => "http://"@ + a + b.path->0,
                            None => b.path->0,
                        },
                    ) is None,
                })),
                FrameType::Data => v.streams.contains_key(id) && p.len() > 0
                    && v.credits[id].outstanding + p.len() > v.credits[id].window,
                FrameType::Trailers => false,
                FrameType::RstStream => p.len() < 4,
                FrameType::WindowUpdate => p.len() != 4 || (p[0] == 0 && p[1] == 0 && p[2] == 0
                    && p[3] == 0),
                FrameType::GoAway => false,
                FrameType::Ping => id != 0 || p.len() > 8 || (f.flags / 2 % 2 == 0
                    && v.io.ping_acks >= 1024),
            }
        }),
{
    law_reset_by_its_bytes(f.payload);
    law_window_update_by_its_bytes(f.payload);
    lemma_second_bit(f.flags);
}

proof fn lemma_second_bit(x: u8)
    ensures
        x & 2u8 != 0 <==> x / 2 % 2 == 1,
{
    assert(x & 2u8 != 0 <==> x / 2 % 2 == 1) by (bit_vector);
}

/// What is said of a frame that breaks the protocol.
pub proof fn law_errors_are_named(v: ServerView, f: FrameView, m: Seq<char>)
    requires
        frame_outcome(v, f).error == Some(m),
    ensures
        f.typ == FrameType::Headers ==> m == if f.stream_id % 2 == 0 {
            "client-initiated stream id "@ + decimal(f.stream_id as nat) + " must be odd"@
        } else if f.stream_id <= v.last_accepted {
            "stream id "@ + decimal(f.stream_id as nat) + " not increasing"@
        } else {
            match decode_block(f.payload) {
                Err(e) => e,
                Ok(b) => if b.path is None {
                    "request HEADERS missing :path"@
                } else {
                    "request HEADERS produce an invalid request"@
                },
            }
        },
        f.typ == FrameType::Data ==> m == "peer overran stream flow-control window"@,
        f.typ == FrameType::RstStream ==> m == "short RST_STREAM"@,
        f.typ == FrameType::WindowUpdate ==> m == if f.payload.len() != 4 {
            "bad WINDOW_UPDATE length"@
        } else {
            "zero WINDOW_UPDATE increment"@
        },
        f.typ == FrameType::Ping ==> m == if f.stream_id != 0 {
            "PING must be connection-level (stream_id 0), got "@ + decimal(f.stream_id as nat)
        } else if f.payload.len() > 8 {
            "PING payload "@ + decimal(f.payload.len()) + " exceeds 8 bytes"@
        } else {
            "peer flooded unacknowledged PINGs"@
        },
{
    reveal_strlit("");
    let n = "PING must be connection-level (stream_id 0), got "@ + decimal(f.stream_id as nat);
    assert(n + ""@ =~= n);
}

/// Trailers and a drain notice of a client are ignored.
pub proof fn law_ignored_frames(v: ServerView, f: FrameView)
    requires
        f.typ == FrameType::Trailers || f.typ == FrameType::GoAway,
    ensures
        frame_outcome(v, f).state == v,
        frame_outcome(v, f).actions.len() == 0,
        frame_outcome(v, f).error is None,
{
}

/// A PING in order is answered with its own bytes and the second flag bit, ahead of data,
/// and the answer is counted; an answer is not answered.
pub proof fn law_pings_are_answered(v: ServerView, f: FrameView)
    requires
        f.typ == FrameType::Ping,
        f.stream_id == 0,
        f.payload.len() <= 8,
        v.io.ping_acks < 1024,
    ensures
        ({
            let o = frame_outcome(v, f);
            let answer = f.flags / 2 % 2 == 1;
            &&& o.error is None
            &&& answer ==> o.actions.len() == 0 && o.state == v
            &&& !answer ==> {
                &&& o.actions == seq![
                    ActionView::Control(
                        FrameView {
                            typ: FrameType::Ping,
                            flags: 2,
                            stream_id: 0,
                            payload: f.payload,
                        },
                    ),
                ]
                &&& o.state.io.ping_acks == v.io.ping_acks + 1
                &&& o.state.streams == v.streams
                &&& o.state.credits == v.credits
            }
        }),
{
    lemma_second_bit(f.flags);
}

/// What no frame changes: the window, the frame size, the bound on streams, the peer, and
/// whether the connection drains, is closed or flushes. Only an open or a reset changes how
/// many streams run, only an open the last id, and only a PING counts an answer.
pub proof fn law_what_frames_leave_alone(v: ServerView, f: FrameView)
    ensures
        ({
            let w = frame_outcome(v, f).state;
            &&& w.window == v.window
            &&& w.max_frame == v.max_frame
            &&& w.max_streams == v.max_streams
            &&& w.info == v.info
            &&& w.draining == v.draining
            &&& w.goaway_sent == v.goaway_sent
            &&& w.io.reason == v.io.reason
            &&& w.io.graceful == v.io.graceful
            &&& f.typ != FrameType::Ping ==> w.io.ping_acks == v.io.ping_acks
            &&& f.typ != FrameType::Headers ==> w.last_accepted == v.last_accepted
            &&& f.typ != FrameType::Headers && f.typ != FrameType::RstStream ==> w.active
                == v.active
            &&& f.typ == FrameType::WindowUpdate ==> w.credits == v.credits
            &&& f.typ == FrameType::Ping ==> w.streams == v.streams && w.credits == v.credits
        }),
{
}

/// An open whose URI cannot be one counts as accepted and is an error; one whose URI can be
/// is taken.
pub proof fn law_uri_decides(v: ServerView, f: FrameView, b: BlockView, uri_ok: bool)
    ensures
        open_outcome(v, f, b, uri_ok).error is None <==> uri_ok,
        open_outcome(v, f, b, uri_ok).state.last_accepted == f.stream_id,
        !uri_ok ==> open_outcome(v, f, b, uri_ok).actions.len() == 0 && open_outcome(
            v,
            f,
            b,
            uri_ok,
        ).state.streams == v.streams && open_outcome(v, f, b, uri_ok).state.active == v.active,
        uri_ok ==> open_outcome(v, f, b, uri_ok).actions.len() == 1 && open_outcome(
            v,
            f,
            b,
            uri_ok,
        ).state.active == v.active + 1,
{
}

// ---------------------------------------------------------------------
// the end of a stream, and of the connection
// ---------------------------------------------------------------------

/// A stream that ends leaves the table, and one stream fewer runs; its ledger stays while
/// the service holds the request body. A stream that is not there changes nothing. Only
/// the last one to end is told of.
pub proof fn law_end_of_a_stream(v: ServerView, id: u32)
    requires
        v.streams.contains_key(id) ==> v.active > 0,
    ensures
        ({
            let w = v.without(id);
            let known = v.streams.contains_key(id);
            &&& w.streams == v.streams.remove(id)
            &&& known ==> w.active == v.active - 1
            &&& !known ==> w.active == v.active
            &&& known && !v.streams[id].body_held ==> w.credits == v.credits.remove(id)
            &&& !known || v.streams[id].body_held ==> w.credits == v.credits
            &&& w.io == v.io
            &&& w.last_accepted == v.last_accepted
            &&& w.draining == v.draining
            &&& w.goaway_sent == v.goaway_sent
            &&& w.window == v.window
            &&& w.max_frame == v.max_frame
            &&& w.max_streams == v.max_streams
            &&& w.info == v.info
            &&& known && v.active == 1 ==> finished_actions(v, id) == seq![ActionView::Drained]
            &&& !known || v.active != 1 ==> finished_actions(v, id).len() == 0
        }),
{
}

/// The entry of one stream changes, and nothing else.
pub proof fn law_entry_changes_alone(v: ServerView, id: u32, e: ServerEntry)
    ensures
        v.updated(id, e).streams == v.streams.insert(id, e),
        v.updated(id, e).credits == v.credits,
        v.updated(id, e).io == v.io,
        v.updated(id, e).active == v.active,
        v.updated(id, e).last_accepted == v.last_accepted,
        v.updated(id, e).draining == v.draining,
        v.updated(id, e).goaway_sent == v.goaway_sent,
        v.updated(id, e).window == v.window,
        v.updated(id, e).max_frame == v.max_frame,
        v.updated(id, e).max_streams == v.max_streams,
        v.updated(id, e).info == v.info,
{
}

/// The drain notice names the last stream that was accepted, in the first four of its
/// bytes, and gives its text behind the eighth. It belongs to no stream.
pub proof fn law_drain_notice(last: u32, msg: Seq<char>)
    ensures
        goaway_frame(last, msg).typ == FrameType::GoAway,
        goaway_frame(last, msg).flags == 0,
        goaway_frame(last, msg).stream_id == 0,
        goaway_frame(last, msg).payload == seq![
            (last % 256) as u8,
            (last / 256 % 256) as u8,
            (last / 65536 % 256) as u8,
            (last / 16777216 % 256) as u8,
            0u8,
            0u8,
            0u8,
            0u8,
        ] + encode_utf8(msg),
{
    law_control_bytes(0, RstCode::Cancel, last, msg);
}

/// The services that are stopped are those of the streams in the table, each exactly once
/// and in the order of the ids, and nothing else is listed.
pub open spec fn all_stopped(v: ServerView, actions: Seq<ActionView>, ids: Seq<u32>) -> bool {
    &&& forall|i: int, j: int| 0 <= i < j < ids.len() ==> ids[i] < ids[j]
    &&& forall|id: u32| ids.contains(id) <==> #[trigger] v.streams.contains_key(id)
    &&& actions.len() == ids.len()
    &&& forall|k: int|
        0 <= k < ids.len() ==> actions[k] == (ActionView::Abort { id: #[trigger] ids[k] })
}

/// The end of a connection stops the service of every stream, exactly once, and empties the
/// tables. The connection is closed for the given reason unless it was closed before. The
/// streams did not finish, so they still count.
pub proof fn law_all_services_stop(v: ServerView, reason: CloseView)
    ensures
        ({
            let o = end_outcome(v, reason);
            &&& exists|ids: Seq<u32>| #[trigger] all_stopped(v, o.actions, ids)
            &&& forall|id: u32| !#[trigger] o.state.streams.contains_key(id)
            &&& forall|id: u32| !#[trigger] o.state.credits.contains_key(id)
            &&& o.state.io.reason == match v.io.reason {
                Some(r) => Some(r),
                None => Some(reason),
            }
            &&& o.state.active == v.active
            &&& o.state.last_accepted == v.last_accepted
            &&& o.state.draining == v.draining
            &&& o.state.goaway_sent == v.goaway_sent
        }),
{
    let ids = sorted_ids(v.streams, -1);
    lemma_sorted_exists(v.streams, -1);
    let o = end_outcome(v, reason);
    assert(all_stopped(v, o.actions, ids));
}

/// A frame that breaks the protocol ends the connection with that reason, and stops every
/// service that is left. Any other frame leaves the connection open or closed as it was.
pub proof fn law_violation_ends_the_connection(v: ServerView, f: FrameView, id: u32)
    ensures
        ({
            let o = frame_outcome(v, f);
            let d = demux_outcome(v, f);
            match o.error {
                None => d == o && d.state.io.reason == v.io.reason,
                Some(m) => {
                    &&& d.error == Some(m)
                    &&& d.state.io.reason == match v.io.reason {
                        Some(r) => Some(r),
                        None => Some(CloseView::Protocol(m)),
                    }
                    &&& !d.state.streams.contains_key(id)
                    &&& o.state.streams.contains_key(id) ==> d.actions.contains(
                        ActionView::Abort { id },
                    )
                },
            }
        }),
{
    let o = frame_outcome(v, f);
    if let Some(m) = o.error {
        if o.state.streams.contains_key(id) {
            let end = end_outcome(o.state, CloseView::Protocol(m));
            crate::server::law_no_service_is_left_behind(o.state, CloseView::Protocol(m), id);
            let x = ActionView::Abort { id };
            let k = choose|k: int| 0 <= k < end.actions.len() && end.actions[k] == x;
            assert(demux_outcome(v, f).actions[o.actions.len() + k] == x);
        }
    }
}

/// What an outcome tells is told: the state, the actions behind those listed before, and
/// the error, if there is one.
pub proof fn law_outcomes_are_told(
    r: Result<(), ProtocolError>,
    after: ServerView,
    before: Seq<ActionView>,
    listed: Seq<ActionView>,
    o: Outcome,
)
    requires
        matches_outcome(r, after, before, listed, o),
    ensures
        after == o.state,
        listed.len() == before.len() + o.actions.len(),
        listed.take(before.len() as int) == before,
        listed.skip(before.len() as int) == o.actions,
        r is Ok <==> o.error is None,
        r matches Err(e) ==> o.error == Some(e.0@),
{
    assert(listed.take(before.len() as int) =~= before);
    assert(listed.skip(before.len() as int) =~= o.actions);
}

/// A list of actions shows each of them.
pub proof fn law_actions_are_shown(s: Seq<ServerAction>)
    ensures
        views(s).len() == s.len(),
        forall|i: int| 0 <= i < s.len() ==> #[trigger] views(s)[i] == s[i]@,
{
}

// ---------------------------------------------------------------------
// bodies and the drain
// ---------------------------------------------------------------------

/// A peer may connect exactly where its user id is known and is ours.
pub proof fn law_only_our_user_connects(info: ShmscConnectInfo, me: u32)
    ensures
        authorized(info, me) <==> info.peer_uid is Some && info.peer_uid->0 == me,
{
}

/// A sender stops where the connection is closed or its stream is gone, and waits where
/// there is no credit. Otherwise it sends all that it wants to, or as much as the credit
/// allows, and has that much less left; nothing else changes.
pub proof fn law_sending_uses_credit(v: ServerView, id: u32, want: usize, other: u32)
    ensures
        ({
            let (w, r) = acquired(v, id, want as nat);
            let gone = v.io.reason is Some || !v.streams.contains_key(id);
            let avail = v.streams[id].window.avail;
            let n = if want <= avail {
                want as int
            } else {
                avail as int
            };
            &&& gone ==> r == Acquire::Stop && w == v
            &&& !gone && avail <= 0 ==> r == Acquire::Wait && w == v
            &&& !gone && avail > 0 ==> {
                &&& r is Granted
                &&& r->Granted_0 == n
                &&& w.streams.contains_key(id)
                &&& w.streams[id].window.avail == avail - n
                &&& w.streams[id].body_open == v.streams[id].body_open
                &&& w.streams[id].body_held == v.streams[id].body_held
                &&& other != id ==> (w.streams.contains_key(other) <==> v.streams.contains_key(
                    other,
                )) && w.streams[other] == v.streams[other]
                &&& w.credits == v.credits
                &&& w.io == v.io
                &&& w.active == v.active
                &&& w.last_accepted == v.last_accepted
                &&& w.draining == v.draining
            }
        }),
{
}

/// Consumed bytes leave the ledger of their body, and come back as a grant over all that is
/// due once they come to a quarter of the window; nothing else changes.
pub proof fn law_consuming_grants(v: ServerView, id: u32, n: nat)
    requires
        v.wf(),
        v.credits.contains_key(id),
        n <= v.credits[id].outstanding,
        v.window >= 4096,
        v.credits[id].pending_grant + n <= u32::MAX,
    ensures
        ({
            let (w, f) = body_consumed(v, id, n);
            let all = v.credits[id].pending_grant + n;
            &&& w.credits.dom() == v.credits.dom()
            &&& w.credits[id].outstanding == v.credits[id].outstanding - n
            &&& f is Some <==> all >= v.window / 4
            &&& f is Some ==> f == Some(grant_frame(id, all as u32)) && w.credits[id].pending_grant
                == 0
            &&& f is None ==> w.credits[id].pending_grant == all
            &&& w.streams == v.streams
            &&& w.io == v.io
            &&& w.active == v.active
        }),
{
    assert(v.credit_ok(id));
    crate::flow::law_consumed_bytes_are_granted(v.credits[id], n, v.window as int / 4);
    assert(body_consumed(v, id, n).0.credits.dom() =~= v.credits.dom());
}

/// Consuming from a body that nothing is kept for changes nothing.
pub proof fn law_consuming_from_nothing(v: ServerView, id: u32, n: nat)
    requires
        !v.credits.contains_key(id),
    ensures
        body_consumed(v, id, n).0 == v,
        body_consumed(v, id, n).1 is None,
{
}

/// The service that lets go of a request body leaves its stream running, and takes the
/// ledger of a stream that is gone with it.
pub proof fn law_letting_go_of_a_body(v: ServerView, id: u32)
    ensures
        ({
            let w = body_let_go(v, id);
            &&& w.streams.dom() == v.streams.dom()
            &&& v.streams.contains_key(id) ==> {
                &&& !w.streams[id].body_held
                &&& w.streams[id].body_open == v.streams[id].body_open
                &&& w.streams[id].window == v.streams[id].window
                &&& w.credits == v.credits
            }
            &&& !v.streams.contains_key(id) ==> w.credits == v.credits.remove(id) && w.streams
                == v.streams
            &&& w.active == v.active
            &&& w.io == v.io
            &&& w.last_accepted == v.last_accepted
        }),
{
    assert(body_let_go(v, id).streams.dom() =~= v.streams.dom());
}

/// The client is told of the drain once, with the last stream that was accepted; from then
/// on the connection drains, and nothing else changes.
pub proof fn law_drain_is_told_once(v: ServerView, msg: Seq<char>, again: Seq<char>)
    ensures
        ({
            let (w, f) = drain_told(v, msg);
            &&& w.draining
            &&& w.goaway_sent
            &&& v.goaway_sent ==> f is None
            &&& !v.goaway_sent ==> f == Some(goaway_frame(v.last_accepted, msg))
            &&& drain_told(w, again).1 is None
            &&& w.streams == v.streams
            &&& w.credits == v.credits
            &&& w.io == v.io
            &&& w.active == v.active
            &&& w.last_accepted == v.last_accepted
            &&& w.max_streams == v.max_streams
        }),
{
}

/// A drain flushes exactly when no stream runs, so that no response is cut short; it ends
/// without that only where it has waited and the connection is closed.
pub proof fn law_drain_waits_for_streams(v: ServerView, waited: bool)
    ensures
        drain_next(v, waited) == DrainStep::Stop <==> waited && v.io.reason is Some,
        drain_next(v, waited) == DrainStep::Flush <==> v.active == 0 && !(waited
            && v.io.reason is Some),
        drain_next(v, waited) == DrainStep::Wait <==> v.active > 0 && !(waited
            && v.io.reason is Some),
{
}

// ---------------------------------------------------------------------
// what is shown
// ---------------------------------------------------------------------

/// An action says exactly what it holds.
pub proof fn law_an_action_says_what_it_holds(a: ServerAction)
    ensures
        match a {
            ServerAction::Spawn { id, uri, headers, ended } => a@ == (ActionView::Spawn {
                id,
                uri: uri@,
                headers: header_map_view(headers),
                ended,
            }),
            ServerAction::Data { id, payload } => a@ == (ActionView::Data {
                id,
                payload: bytes_view(payload),
            }),
            ServerAction::EndBody { id } => a@ == (ActionView::EndBody { id }),
            ServerAction::Abort { id } => a@ == (ActionView::Abort { id }),
            ServerAction::Drained => a@ == ActionView::Drained,
            ServerAction::WindowOpened { id } => a@ == (ActionView::WindowOpened { id }),
            ServerAction::Control(op) => a@ == ActionView::Control(op@),
        },
{
}

/// A server end shows everything that it holds.
pub proof fn law_a_server_shows_what_it_holds(c: ServerConn)
    ensures
        c@.streams == c.streams@,
        c@.credits == c.credits@,
        c@.last_accepted == c.last_accepted,
        c@.draining == c.draining,
        c@.goaway_sent == c.goaway_sent,
        c@.active == c.active,
        c@.window == c.window,
        c@.max_frame == c.max_frame,
        c@.max_streams == c.max_streams,
        c@.info == c.info,
        c@.io.graceful == c.io.graceful,
        c@.io.ping_acks == c.io.ping_acks,
        c@.io.reason is Some <==> c.io.reason is Some,
        c.io.reason matches Some(r) ==> c@.io.reason == Some(r@),
{
}

/// A frame that breaks the protocol is not acted on: nothing is run, delivered, stopped or
/// sent, and the table stays as it is.
pub proof fn law_bad_frames_are_not_acted_on(v: ServerView, f: FrameView)
    requires
        frame_outcome(v, f).error is Some,
    ensures
        frame_outcome(v, f).actions.len() == 0,
        frame_outcome(v, f).state.streams == v.streams,
        frame_outcome(v, f).state.active == v.active,
        f.typ != FrameType::Data && f.typ != FrameType::Headers ==> frame_outcome(v, f).state
            == v,
        f.typ == FrameType::Headers ==> frame_outcome(v, f).state.credits == v.credits,
{
}

} // verus!
