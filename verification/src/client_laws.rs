//! What the client end of a connection promises, frame by frame.
//!
//! Each law says in plain terms what a frame does to a call: which bytes of the
//! frame count, what the call or its body is handed, and what is left in the table.

use vstd::prelude::*;

use crate::body::{Code, ShmBody};
use crate::client::{Acquire, PendingStreamGuard, Queue};
use crate::frame::{FrameType, RstCode};

verus! {

use crate::block::{decode_block, BlockView};
use crate::body::StatusView;
use crate::client::{
    acquired,
    body_consumed,
    body_let_go,
    cancel_frame,
    demux_outcome,
    fail_all_outcome,
    fail_streams,
    frame_outcome,
    grant_frame,
    guard_let_go,
    matches_outcome,
    open_frame,
    open_outcome,
    read_failed_outcome,
    views,
    ActionView,
    ClientAction,
    ClientConn,
    ClientEntry,
    ClientView,
    Outcome,
};
use crate::conn::CloseView;
use crate::control::{
    law_control_bytes,
    law_goaway_by_its_bytes,
    law_reset_by_its_bytes,
    law_window_update_by_its_bytes,
};
use crate::frame::{law_lowest_flag_ends, FrameView, ProtocolError};
use crate::outside::{bytes_view, header_map_view, lossy_text_of};
use crate::table::{lemma_sorted_exists, sorted_ids};
use crate::text::decimal;

// ---------------------------------------------------------------------
// credit
// ---------------------------------------------------------------------

/// A WINDOW_UPDATE over `n` bytes, as its four bytes say it, raises the credit of its
/// stream by `n`, all of it, and by nothing else. Everything else about the stream stays,
/// and its request pump is woken.
pub proof fn law_window_update_adds_its_number(v: ClientView, f: FrameView, n: u32)
    requires
        f.typ == FrameType::WindowUpdate,
        f.payload.len() == 4,
        n == f.payload[0] + 256 * f.payload[1] + 65536 * f.payload[2] + 16777216 * f.payload[3],
        n > 0,
        v.streams.contains_key(f.stream_id),
        v.streams[f.stream_id].window.avail + n <= i64::MAX,
    ensures
        ({
            let o = frame_outcome(v, f);
            let before = v.streams[f.stream_id];
            let after = o.state.streams[f.stream_id];
            &&& o.error is None
            &&& o.state.streams.dom() == v.streams.dom()
            &&& after.window.avail == before.window.avail + n
            &&& after.awaiting_head == before.awaiting_head
            &&& after.pump == before.pump
            &&& o.actions == seq![ActionView::WindowOpened { id: f.stream_id }]
        }),
{
    law_window_update_by_its_bytes(f.payload);
    assert(frame_outcome(v, f).state.streams.dom() =~= v.streams.dom());
}

/// What a receiver grants, the sender gets: the frame of a grant over `n` bytes leaves the
/// stream with `n` more to send.
pub proof fn law_grant_arrives_in_full(v: ClientView, id: u32, n: u32)
    requires
        n > 0,
        v.streams.contains_key(id),
        v.streams[id].window.avail + n <= i64::MAX,
    ensures
        frame_outcome(v, grant_frame(id, n)).error is None,
        frame_outcome(v, grant_frame(id, n)).state.streams.contains_key(id),
        frame_outcome(v, grant_frame(id, n)).state.streams[id].window.avail
            == v.streams[id].window.avail + n,
        frame_outcome(v, grant_frame(id, n)).actions == seq![ActionView::WindowOpened { id }],
{
    law_control_bytes(n, RstCode::Cancel, 0, Seq::empty());
    let f = grant_frame(id, n);
    assert(n == n % 256 + 256 * (n / 256 % 256) + 65536 * (n / 65536 % 256) + 16777216 * (n
        / 16777216 % 256));
    law_window_update_adds_its_number(v, f, n);
    assert(frame_outcome(v, f).state.streams.dom().contains(id));
}

/// The frames that a client end writes of itself: the open of a request, the reset by
/// which it gives a stream up, and a grant.
pub proof fn law_frames_of_a_client(id: u32, b: BlockView, n: u32)
    ensures
        cancel_frame(id).typ == FrameType::RstStream,
        cancel_frame(id).flags == 0,
        cancel_frame(id).stream_id == id,
        cancel_frame(id).payload == seq![1u8, 0, 0, 0],
        open_frame(id, b).typ == FrameType::Headers,
        open_frame(id, b).flags == 0,
        open_frame(id, b).stream_id == id,
        open_frame(id, b).payload == crate::block::block_bytes(b),
        grant_frame(id, n).typ == FrameType::WindowUpdate,
        grant_frame(id, n).flags == 0,
        grant_frame(id, n).stream_id == id,
        grant_frame(id, n).payload == seq![
            (n % 256) as u8,
            (n / 256 % 256) as u8,
            (n / 65536 % 256) as u8,
            (n / 16777216 % 256) as u8,
        ],
{
    law_control_bytes(n, RstCode::Cancel, 0, Seq::empty());
}

// ---------------------------------------------------------------------
// responses
// ---------------------------------------------------------------------

/// A response head goes to the call that waits for it, with the status of the block where
/// it is one (100 to 999) and else with 200, and with the headers of the block. The lowest
/// flag bit ends the stream; without it the stream stays, and waits no more.
pub proof fn law_head_goes_to_its_call(v: ClientView, f: FrameView, b: BlockView)
    requires
        f.typ == FrameType::Headers,
        v.streams.contains_key(f.stream_id),
        v.streams[f.stream_id].awaiting_head,
        decode_block(f.payload) == Ok::<BlockView, Seq<char>>(b),
    ensures
        ({
            let id = f.stream_id;
            let o = frame_outcome(v, f);
            let ended = f.flags % 2 == 1;
            let head = o.actions[0];
            &&& o.error is None
            &&& head is Head
            &&& head->Head_id == id
            &&& head->Head_headers == b.headers
            &&& head->Head_end_stream == ended
            &&& b.status matches Some(s) ==> head->Head_status == if 100 <= s <= 999 {
                s
            } else {
                200
            }
            &&& b.status is None ==> head->Head_status == 200
            &&& ended ==> {
                &&& o.actions.len() == 2
                &&& o.actions[1] == ActionView::Remove { id }
                &&& o.state.streams == v.streams.remove(id)
            }
            &&& !ended ==> {
                &&& o.actions.len() == 1
                &&& o.state.streams.contains_key(id)
                &&& !o.state.streams[id].awaiting_head
                &&& o.state.streams[id].window == v.streams[id].window
                &&& o.state.streams[id].pump == v.streams[id].pump
            }
        }),
{
    law_lowest_flag_ends(f);
}

/// Message bytes that stay within the window go to the response body, unchanged and once,
/// and count as outstanding; an empty frame delivers nothing. The lowest flag bit ends the
/// stream.
pub proof fn law_data_goes_to_its_body(v: ClientView, f: FrameView)
    requires
        v.wf(),
        f.typ == FrameType::Data,
        f.payload.len() <= 16777216,
        v.streams.contains_key(f.stream_id),
    ensures
        ({
            let id = f.stream_id;
            let n = f.payload.len();
            let o = frame_outcome(v, f);
            let ended = f.flags % 2 == 1;
            let fits = n == 0 || v.credits[id].outstanding + n <= v.window;
            &&& o.error is None <==> fits
            &&& o.state.credits.dom() == v.credits.dom()
            &&& o.state.credits[id].outstanding == v.credits[id].outstanding + n
            &&& o.state.credits[id].pending_grant == v.credits[id].pending_grant
            &&& o.state.credits[id].window == v.credits[id].window
            &&& o.state.credits[id].threshold == v.credits[id].threshold
            &&& o.state.credits[id].stream_id == v.credits[id].stream_id
            &&& !fits ==> o.actions.len() == 0 && o.error == Some(
                "peer overran stream flow-control window"@,
            )
            &&& fits ==> {
                &&& o.actions.len() == (if n > 0 {
                    1int
                } else {
                    0
                }) + (if ended {
                    1int
                } else {
                    0
                })
                &&& n > 0 ==> o.actions[0] == ActionView::Data { id, payload: f.payload }
                &&& ended ==> o.actions.last() == ActionView::Remove { id }
                &&& ended ==> o.state.streams == v.streams.remove(id)
                &&& !ended ==> o.state.streams == v.streams
            }
        }),
{
    law_lowest_flag_ends(f);
    assert(v.credits.contains_key(f.stream_id));
    assert(v.credit_ok(f.stream_id));
    assert(frame_outcome(v, f).state.credits.dom() =~= v.credits.dom());
}

/// Trailers go to the response body with the headers of their block, and end the stream.
pub proof fn law_trailers_end_the_body(v: ClientView, f: FrameView, b: BlockView)
    requires
        f.typ == FrameType::Trailers,
        v.streams.contains_key(f.stream_id),
        !v.streams[f.stream_id].awaiting_head,
        decode_block(f.payload) == Ok::<BlockView, Seq<char>>(b),
    ensures
        frame_outcome(v, f).error is None,
        frame_outcome(v, f).actions == seq![
            ActionView::Trailers { id: f.stream_id, headers: b.headers },
            ActionView::Remove { id: f.stream_id },
        ],
        frame_outcome(v, f).state.streams == v.streams.remove(f.stream_id),
        frame_outcome(v, f).state.credits == v.credits,
{
}

/// A reset fails the stream, the call where it still waits for its head and else the body,
/// and forgets it. A cancel (1) reads as cancelled, a refusal (2) as unavailable, and
/// anything else as an internal error.
pub proof fn law_reset_fails_the_stream(v: ClientView, f: FrameView)
    requires
        f.typ == FrameType::RstStream,
        f.payload.len() >= 4,
        v.streams.contains_key(f.stream_id),
    ensures
        ({
            let id = f.stream_id;
            let o = frame_outcome(v, f);
            let n = f.payload[0] + 256 * f.payload[1] + 65536 * f.payload[2] + 16777216
                * f.payload[3];
            let status = if n == 1 {
                StatusView { code: Code::Cancelled, message: "stream reset by server"@ }
            } else if n == 2 {
                StatusView { code: Code::Unavailable, message: "stream refused by server"@ }
            } else {
                StatusView {
                    code: Code::Internal,
                    message: "stream failed on server transport"@,
                }
            };
            &&& o.error is None
            &&& o.actions.len() == 2
            &&& v.streams[id].awaiting_head ==> o.actions[0] == (ActionView::HeadFailed {
                id,
                status,
            })
            &&& !v.streams[id].awaiting_head ==> o.actions[0] == (ActionView::BodyFailed {
                id,
                status,
            })
            &&& o.actions[1] == ActionView::Remove { id }
            &&& o.state.streams == v.streams.remove(id)
            &&& o.state.credits == v.credits
        }),
{
    law_reset_by_its_bytes(f.payload);
}

// ---------------------------------------------------------------------
// the connection drains or ends
// ---------------------------------------------------------------------

/// The failures of several streams come one after the other: for each id first the
/// failure, then the removal.
proof fn lemma_failures_in_order(
    streams: Map<u32, ClientEntry>,
    ids: Seq<u32>,
    status: StatusView,
    k: int,
)
    ensures
        fail_streams(streams, ids, status).len() == 2 * ids.len(),
        0 <= k < ids.len() ==> {
            let a = fail_streams(streams, ids, status);
            &&& streams[ids[k]].awaiting_head ==> a[2 * k] == (ActionView::HeadFailed {
                id: ids[k],
                status,
            })
            &&& !streams[ids[k]].awaiting_head ==> a[2 * k] == (ActionView::BodyFailed {
                id: ids[k],
                status,
            })
            &&& a[2 * k + 1] == ActionView::Remove { id: ids[k] }
        },
    decreases ids.len(),
{
    if ids.len() > 0 {
        lemma_failures_in_order(streams, ids.drop_last(), status, k);
        if k < ids.len() - 1 {
            assert(0 <= k ==> ids.drop_last()[k] == ids[k]);
        }
    }
}

/// The streams that fail are the ones above a bound, each exactly once, in the order of
/// their ids: each gets its failure and then its removal, and nothing else is listed.
pub open spec fn failed_above(
    v: ClientView,
    above: int,
    status: StatusView,
    actions: Seq<ActionView>,
    ids: Seq<u32>,
) -> bool {
    &&& forall|i: int, j: int| 0 <= i < j < ids.len() ==> ids[i] < ids[j]
    &&& forall|id: u32|
        ids.contains(id) <==> (#[trigger] v.streams.contains_key(id) && id > above)
    &&& actions.len() == 2 * ids.len()
    &&& forall|k: int|
        0 <= k < ids.len() ==> {
            &&& v.streams[#[trigger] ids[k]].awaiting_head ==> actions[2 * k]
                == (ActionView::HeadFailed { id: ids[k], status })
            &&& !v.streams[ids[k]].awaiting_head ==> actions[2 * k] == (ActionView::BodyFailed {
                id: ids[k],
                status,
            })
            &&& actions[2 * k + 1] == ActionView::Remove { id: ids[k] }
        }
}

proof fn lemma_failed_above(v: ClientView, above: int, status: StatusView)
    ensures
        failed_above(
            v,
            above,
            status,
            fail_streams(v.streams, sorted_ids(v.streams, above), status),
            sorted_ids(v.streams, above),
        ),
{
    let ids = sorted_ids(v.streams, above);
    lemma_sorted_exists(v.streams, above);
    let a = fail_streams(v.streams, ids, status);
    lemma_failures_in_order(v.streams, ids, status, 0);
    assert forall|k: int| 0 <= k < ids.len() implies {
        &&& v.streams[#[trigger] ids[k]].awaiting_head ==> a[2 * k] == (ActionView::HeadFailed {
            id: ids[k],
            status,
        })
        &&& !v.streams[ids[k]].awaiting_head ==> a[2 * k] == (ActionView::BodyFailed {
            id: ids[k],
            status,
        })
        &&& a[2 * k + 1] == ActionView::Remove { id: ids[k] }
    } by {
        lemma_failures_in_order(v.streams, ids, status, k);
    }
}

/// What the lists of failures say of one stream.
proof fn lemma_failure_of(
    v: ClientView,
    above: int,
    status: StatusView,
    actions: Seq<ActionView>,
    ids: Seq<u32>,
    id: u32,
)
    requires
        failed_above(v, above, status, actions, ids),
    ensures
        v.streams.contains_key(id) && id > above ==> {
            &&& v.streams[id].awaiting_head ==> actions.contains(
                ActionView::HeadFailed { id, status },
            )
            &&& !v.streams[id].awaiting_head ==> actions.contains(
                ActionView::BodyFailed { id, status },
            )
            &&& actions.contains(ActionView::Remove { id })
        },
        !(v.streams.contains_key(id) && id > above) ==> forall|i: int|
            0 <= i < actions.len() ==> match #[trigger] actions[i] {
                ActionView::HeadFailed { id: x, .. } => x != id,
                ActionView::BodyFailed { id: x, .. } => x != id,
                ActionView::Remove { id: x } => x != id,
                _ => false,
            },
{
    if v.streams.contains_key(id) && id > above {
        assert(ids.contains(id));
        let k = choose|k: int| 0 <= k < ids.len() && ids[k] == id;
        let i: int = 2 * k;
        let j: int = 2 * k + 1;
        assert(actions[j] == ActionView::Remove { id });
        if v.streams[id].awaiting_head {
            assert(actions[i] == ActionView::HeadFailed { id, status });
        } else {
            assert(actions[i] == ActionView::BodyFailed { id, status });
        }
    } else {
        assert forall|i: int| 0 <= i < actions.len() implies match #[trigger] actions[i] {
            ActionView::HeadFailed { id: x, .. } => x != id,
            ActionView::BodyFailed { id: x, .. } => x != id,
            ActionView::Remove { id: x } => x != id,
            _ => false,
        } by {
            let k: int = i / 2;
            assert(ids.contains(ids[k]));
            assert(v.streams.contains_key(ids[k]));
            assert(i == 2 * k || i == 2 * k + 1);
            assert(v.streams[ids[k]].awaiting_head || !v.streams[ids[k]].awaiting_head);
        }
    }
}

/// A GOAWAY fails every stream above the last one that the server processes, and each of
/// them: the call where it still waits for its head and else the body, as unavailable and
/// with the text of the frame. No other stream is told anything, and no other stream
/// leaves the table.
pub proof fn law_goaway_fails_every_later_stream(
    v: ClientView,
    f: FrameView,
    message: Seq<char>,
    id: u32,
)
    requires
        f.typ == FrameType::GoAway,
        f.payload.len() >= 8,
        lossy_text_of(f.payload.skip(8)).len() == 0 ==> message == "connection draining (GOAWAY)"@,
        lossy_text_of(f.payload.skip(8)).len() > 0 ==> message == "connection draining (GOAWAY): "@
            + lossy_text_of(f.payload.skip(8)),
    ensures
        ({
            let last = f.payload[0] + 256 * f.payload[1] + 65536 * f.payload[2] + 16777216
                * f.payload[3];
            let status = StatusView { code: Code::Unavailable, message };
            let o = frame_outcome(v, f);
            &&& o.error is None
            &&& o.state.draining
            &&& v.streams.contains_key(id) && id > last ==> {
                &&& v.streams[id].awaiting_head ==> o.actions.contains(
                    ActionView::HeadFailed { id, status },
                )
                &&& !v.streams[id].awaiting_head ==> o.actions.contains(
                    ActionView::BodyFailed { id, status },
                )
                &&& o.actions.contains(ActionView::Remove { id })
                &&& !o.state.streams.contains_key(id)
            }
            &&& id <= last ==> {
                &&& o.state.streams.contains_key(id) <==> v.streams.contains_key(id)
                &&& v.streams.contains_key(id) ==> o.state.streams[id] == v.streams[id]
                &&& forall|i: int|
                    0 <= i < o.actions.len() ==> match #[trigger] o.actions[i] {
                        ActionView::HeadFailed { id: x, .. } => x != id,
                        ActionView::BodyFailed { id: x, .. } => x != id,
                        ActionView::Remove { id: x } => x != id,
                        _ => false,
                    }
            }
            &&& exists|ids: Seq<u32>| #[trigger] failed_above(v, last, status, o.actions, ids)
            &&& o.state.credits == v.credits
        }),
{
    law_goaway_by_its_bytes(f.payload);
    let last = f.payload[0] + 256 * f.payload[1] + 65536 * f.payload[2] + 16777216 * f.payload[3];
    let status = StatusView { code: Code::Unavailable, message };
    lemma_failed_above(v, last, status);
    let ids = sorted_ids(v.streams, last);
    assert(failed_above(v, last, status, frame_outcome(v, f).actions, ids));
    lemma_failure_of(v, last, status, frame_outcome(v, f).actions, ids, id);
}

/// When every stream is failed, each one is, exactly once and in the order of the ids, and
/// the table is empty.
pub proof fn law_all_streams_fail(v: ClientView, status: StatusView)
    ensures
        ({
            let o = fail_all_outcome(v, status);
            &&& exists|ids: Seq<u32>| #[trigger] failed_above(v, -1, status, o.actions, ids)
            &&& forall|id: u32| !#[trigger] o.state.streams.contains_key(id)
            &&& o.state.credits == v.credits
            &&& o.state.io == v.io
            &&& o.state.next_id == v.next_id
            &&& o.state.draining == v.draining
            &&& o.state.window == v.window
            &&& o.state.max_frame == v.max_frame
        }),
{
    lemma_failed_above(v, -1, status);
    let ids = sorted_ids(v.streams, -1);
    assert(failed_above(v, -1, status, fail_all_outcome(v, status).actions, ids));
}

/// A frame that breaks the protocol closes the connection, for the first time with that
/// reason, and fails every stream that is left as unavailable, with the reason that the
/// connection was closed for. Any other frame leaves the connection as it was.
pub proof fn law_violation_ends_the_connection(v: ClientView, f: FrameView, id: u32)
    ensures
        ({
            let o = frame_outcome(v, f);
            let d = demux_outcome(v, f);
            match o.error {
                None => d == o && d.state.io.reason == v.io.reason,
                Some(m) => {
                    let reason = match v.io.reason {
                        None => CloseView::Protocol(m),
                        Some(r) => r,
                    };
                    let status = StatusView {
                        code: Code::Unavailable,
                        message: "shmsc connection lost: "@ + reason.text(),
                    };
                    &&& d.error == Some(m)
                    &&& d.state.io.reason == Some(reason)
                    &&& !d.state.streams.contains_key(id)
                    &&& o.state.streams.contains_key(id) ==> {
                        &&& o.state.streams[id].awaiting_head ==> d.actions.contains(
                            ActionView::HeadFailed { id, status },
                        )
                        &&& !o.state.streams[id].awaiting_head ==> d.actions.contains(
                            ActionView::BodyFailed { id, status },
                        )
                        &&& d.actions.contains(ActionView::Remove { id })
                    }
                },
            }
        }),
{
    let o = frame_outcome(v, f);
    if let Some(m) = o.error {
        let io = o.state.io.close(CloseView::Protocol(m));
        let reason = match v.io.reason {
            None => CloseView::Protocol(m),
            Some(r) => r,
        };
        let status = StatusView {
            code: Code::Unavailable,
            message: "shmsc connection lost: "@ + reason.text(),
        };
        let w = ClientView { io, ..o.state };
        let end = fail_all_outcome(w, status);
        let ids = sorted_ids(w.streams, -1);
        lemma_failed_above(w, -1, status);
        lemma_failure_of(w, -1, status, end.actions, ids, id);
        let d = demux_outcome(v, f);
        let n = o.actions.len() as int;
        if o.state.streams.contains_key(id) {
            let x = if o.state.streams[id].awaiting_head {
                ActionView::HeadFailed { id, status }
            } else {
                ActionView::BodyFailed { id, status }
            };
            let i = choose|i: int| 0 <= i < end.actions.len() && end.actions[i] == x;
            assert(d.actions[n + i] == x);
            let y = ActionView::Remove { id };
            let j = choose|j: int| 0 <= j < end.actions.len() && end.actions[j] == y;
            assert(d.actions[n + j] == y);
        }
    }
}

// ---------------------------------------------------------------------
// what is an error, and what stays
// ---------------------------------------------------------------------

/// Exactly these frames break the protocol: a block that cannot be read; a second head, or
/// trailers before the head, on a running stream; bytes beyond the window; a reset or a
/// GOAWAY that is too short; a WINDOW_UPDATE that is not four bytes or says zero; a PING
/// with a stream or more than eight bytes, or one to answer while 1024 answers wait.
pub proof fn law_what_breaks_the_protocol(v: ClientView, f: FrameView)
    ensures
        ({
            let p = f.payload;
            let id = f.stream_id;
            let known = v.streams.contains_key(id);
            frame_outcome(v, f).error is Some <==> match f.typ {
                FrameType::Headers => decode_block(p) is Err || (known
                    && !v.streams[id].awaiting_head),
                FrameType::Data => known && p.len() > 0 && v.credits[id].outstanding + p.len()
                    > v.credits[id].window,
                FrameType::Trailers => decode_block(p) is Err || (known
                    && v.streams[id].awaiting_head),
                FrameType::RstStream => p.len() < 4,
                FrameType::WindowUpdate => p.len() != 4 || (p[0] == 0 && p[1] == 0 && p[2] == 0
                    && p[3] == 0),
                FrameType::GoAway => p.len() < 8,
                FrameType::Ping => id != 0 || p.len() > 8 || (f.flags / 2 % 2 == 0
                    && v.io.ping_acks >= 1024),
            }
        }),
{
    law_reset_by_its_bytes(f.payload);
    law_window_update_by_its_bytes(f.payload);
    law_goaway_by_its_bytes(f.payload);
    lemma_second_bit(f.flags);
}

proof fn lemma_second_bit(x: u8)
    ensures
        x & 2u8 != 0 <==> x / 2 % 2 == 1,
{
    assert(x & 2u8 != 0 <==> x / 2 % 2 == 1) by (bit_vector);
}

/// What is said of a frame that breaks the protocol.
pub proof fn law_errors_are_named(v: ClientView, f: FrameView, m: Seq<char>)
    requires
        frame_outcome(v, f).error == Some(m),
    ensures
        match f.typ {
            FrameType::Headers => match decode_block(f.payload) {
                Err(e) => m == e,
                Ok(_) => m == "duplicate HEADERS for stream"@,
            },
            FrameType::Data => m == "peer overran stream flow-control window"@,
            FrameType::Trailers => match decode_block(f.payload) {
                Err(e) => m == e,
                Ok(_) => m == "TRAILERS before HEADERS"@,
            },
            FrameType::RstStream => m == "short RST_STREAM"@,
            FrameType::WindowUpdate => m == if f.payload.len() != 4 {
                "bad WINDOW_UPDATE length"@
            } else {
                "zero WINDOW_UPDATE increment"@
            },
            FrameType::GoAway => m == "short GOAWAY"@,
            FrameType::Ping => m == if f.stream_id != 0 {
                "PING must be connection-level (stream_id 0), got "@ + decimal(f.stream_id as nat)
            } else if f.payload.len() > 8 {
                "PING payload "@ + decimal(f.payload.len()) + " exceeds 8 bytes"@
            } else {
                "peer flooded unacknowledged PINGs"@
            },
        },
{
    reveal_strlit("");
    let n = "PING must be connection-level (stream_id 0), got "@ + decimal(f.stream_id as nat);
    assert(n + ""@ =~= n);
}

/// A PING in order is answered with its own bytes and the second flag bit, ahead of data,
/// and the answer is counted; an answer is not answered.
pub proof fn law_pings_are_answered(v: ClientView, f: FrameView)
    requires
        f.typ == FrameType::Ping,
        f.stream_id == 0,
        f.payload.len() <= 8,
        v.io.ping_acks < 1024,
    ensures
        ({
            let o = frame_outcome(v, f);
            let answer = f.flags / 2 % 2 == 1;
            &&& o.error is None
            &&& answer ==> o.actions.len() == 0 && o.state == v
            &&& !answer ==> {
                &&& o.actions == seq![
                    ActionView::Control(
                        FrameView {
                            typ: FrameType::Ping,
                            flags: 2,
                            stream_id: 0,
                            payload: f.payload,
                        },
                    ),
                ]
                &&& o.state.io.ping_acks == v.io.ping_acks + 1
                &&& o.state.streams == v.streams
                &&& o.state.credits == v.credits
            }
        }),
{
    lemma_second_bit(f.flags);
}

/// What no frame changes: the ids to come, the window and the frame size, and whether the
/// connection is closed or flushes. Only a GOAWAY makes it drain, only a PING counts an
/// answer, and only DATA changes a ledger.
pub proof fn law_what_frames_leave_alone(v: ClientView, f: FrameView)
    ensures
        ({
            let w = frame_outcome(v, f).state;
            &&& w.next_id == v.next_id
            &&& w.window == v.window
            &&& w.max_frame == v.max_frame
            &&& w.io.reason == v.io.reason
            &&& w.io.graceful == v.io.graceful
            &&& f.typ != FrameType::GoAway ==> w.draining == v.draining
            &&& v.draining ==> w.draining
            &&& f.typ != FrameType::Ping ==> w.io.ping_acks == v.io.ping_acks
            &&& f.typ != FrameType::Data ==> w.credits == v.credits
            &&& f.typ == FrameType::Ping ==> w.streams == v.streams
        }),
{
}

// ---------------------------------------------------------------------
// calls
// ---------------------------------------------------------------------

/// Calls are taken exactly while the connection is open and does not drain; a refused call
/// is unavailable, and is told why.
pub proof fn law_when_calls_are_taken(v: ClientView)
    ensures
        ClientConn::refusal(v) is None <==> v.io.reason is None && !v.draining,
        v.io.reason matches Some(r) ==> ClientConn::refusal(v) == Some(
            StatusView {
                code: Code::Unavailable,
                message: "shmsc connection lost: "@ + r.text(),
            },
        ),
        v.io.reason is None && v.draining ==> ClientConn::refusal(v) == Some(
            StatusView {
                code: Code::Unavailable,
                message: "shmsc connection is draining (GOAWAY)"@,
            },
        ),
{
}

/// A stream that is opened waits for its head, may send the whole window, and has nothing
/// outstanding; the next one gets the next odd id. Nothing else changes.
pub proof fn law_open_starts_afresh(v: ClientView, id: u32)
    requires
        v.next_id <= 0x7fff_ffff,
    ensures
        ({
            let w = ClientConn::opened(v);
            let e = w.streams[v.next_id];
            let c = w.credits[v.next_id];
            &&& w.streams.contains_key(v.next_id)
            &&& e.awaiting_head
            &&& !e.pump
            &&& e.window.avail == v.window
            &&& w.credits.contains_key(v.next_id)
            &&& c.stream_id == v.next_id
            &&& c.window == v.window
            &&& c.outstanding == 0
            &&& c.pending_grant == 0
            &&& w.next_id == v.next_id + 2
            &&& id != v.next_id ==> {
                &&& w.streams.contains_key(id) <==> v.streams.contains_key(id)
                &&& v.streams.contains_key(id) ==> w.streams[id] == v.streams[id]
                &&& w.credits.contains_key(id) <==> v.credits.contains_key(id)
                &&& v.credits.contains_key(id) ==> w.credits[id] == v.credits[id]
            }
            &&& w.io == v.io
            &&& w.draining == v.draining
            &&& w.window == v.window
            &&& w.max_frame == v.max_frame
        }),
{
}

/// Where the ids are used up, the connection is closed from this side, unless it is closed
/// already, and no stream is opened or lost.
pub proof fn law_used_up_ids_close(v: ClientView)
    requires
        v.next_id <= 0x8000_0001,
    ensures
        ({
            let w = ClientConn::exhausted(v);
            &&& w.io.reason == match v.io.reason {
                Some(r) => Some(r),
                None => Some(CloseView::Local),
            }
            &&& w.streams == v.streams
            &&& w.credits == v.credits
            &&& ClientConn::refusal(w) is Some
        }),
{
}

/// A fresh connection is open, takes calls, has no stream, and starts with the id 1.
pub proof fn law_fresh_connection(window: u32, max_frame: usize)
    ensures
        ({
            let v = ClientConn::fresh(window, max_frame);
            &&& ClientConn::refusal(v) is None
            &&& v.io.reason is None
            &&& !v.io.graceful
            &&& v.io.ping_acks == 0
            &&& !v.draining
            &&& v.next_id == 1
            &&& v.window == window
            &&& v.max_frame == max_frame
            &&& forall|id: u32| !#[trigger] v.streams.contains_key(id)
            &&& forall|id: u32| !#[trigger] v.credits.contains_key(id)
        }),
{
}

/// Forgetting a stream takes it, and only it, out of the table, and leaves the ledgers.
pub proof fn law_forgetting_a_stream(v: ClientView, id: u32)
    ensures
        v.without(id).streams == v.streams.remove(id),
        v.without(id).credits == v.credits,
        v.without(id).io == v.io,
        v.without(id).next_id == v.next_id,
        v.without(id).draining == v.draining,
        v.without(id).window == v.window,
        v.without(id).max_frame == v.max_frame,
{
}

/// What an outcome tells is told: the state, the actions behind those listed before, and
/// the error, if there is one.
pub proof fn law_outcomes_are_told(
    r: Result<(), ProtocolError>,
    after: ClientView,
    before: Seq<ActionView>,
    listed: Seq<ActionView>,
    o: Outcome,
)
    requires
        matches_outcome(r, after, before, listed, o),
    ensures
        after == o.state,
        listed.len() == before.len() + o.actions.len(),
        listed.take(before.len() as int) == before,
        listed.skip(before.len() as int) == o.actions,
        r is Ok <==> o.error is None,
        r matches Err(e) ==> o.error == Some(e.0@),
{
    assert(listed.take(before.len() as int) =~= before);
    assert(listed.skip(before.len() as int) =~= o.actions);
}

/// A list of actions shows each of them.
pub proof fn law_actions_are_shown(s: Seq<ClientAction>)
    ensures
        views(s).len() == s.len(),
        forall|i: int| 0 <= i < s.len() ==> #[trigger] views(s)[i] == s[i]@,
{
}

// ---------------------------------------------------------------------
// bodies and guards
// ---------------------------------------------------------------------

/// A sender stops where the connection is closed or its stream is gone, and waits where
/// there is no credit. Otherwise it sends all that it wants to, or as much as the credit
/// allows, and has that much less left; nothing else changes.
pub proof fn law_sending_uses_credit(v: ClientView, id: u32, want: usize, other: u32)
    ensures
        ({
            let (w, r) = acquired(v, id, want as nat);
            let gone = v.io.reason is Some || !v.streams.contains_key(id);
            let avail = v.streams[id].window.avail;
            let n = if want <= avail {
                want as int
            } else {
                avail as int
            };
            &&& gone ==> r == Acquire::Stop && w == v
            &&& !gone && avail <= 0 ==> r == Acquire::Wait && w == v
            &&& !gone && avail > 0 ==> {
                &&& r is Granted
                &&& r->Granted_0 == n
                &&& w.streams.contains_key(id)
                &&& w.streams[id].window.avail == avail - n
                &&& w.streams[id].awaiting_head == v.streams[id].awaiting_head
                &&& w.streams[id].pump == v.streams[id].pump
                &&& other != id ==> (w.streams.contains_key(other) <==> v.streams.contains_key(
                    other,
                )) && w.streams[other] == v.streams[other]
                &&& w.credits == v.credits
                &&& w.io == v.io
                &&& w.next_id == v.next_id
                &&& w.draining == v.draining
                &&& w.window == v.window
                &&& w.max_frame == v.max_frame
            }
        }),
{
}

/// Consumed bytes leave the ledger of their body, and come back as a grant over all that is
/// due once they come to a quarter of the window; nothing else changes.
pub proof fn law_consuming_grants(v: ClientView, id: u32, n: nat)
    requires
        v.wf(),
        v.credits.contains_key(id),
        n <= v.credits[id].outstanding,
        v.window >= 4096,
        v.credits[id].pending_grant + n <= u32::MAX,
    ensures
        ({
            let (w, f) = body_consumed(v, id, n);
            let all = v.credits[id].pending_grant + n;
            &&& w.credits.dom() == v.credits.dom()
            &&& w.credits[id].outstanding == v.credits[id].outstanding - n
            &&& f is Some <==> all >= v.window / 4
            &&& f is Some ==> f == Some(grant_frame(id, all as u32)) && w.credits[id].pending_grant
                == 0
            &&& f is None ==> w.credits[id].pending_grant == all
            &&& w.streams == v.streams
            &&& w.io == v.io
        }),
{
    assert(v.credit_ok(id));
    crate::flow::law_consumed_bytes_are_granted(v.credits[id], n, v.window as int / 4);
    assert(body_consumed(v, id, n).0.credits.dom() =~= v.credits.dom());
}

/// Consuming from a body that nothing is kept for changes nothing.
pub proof fn law_consuming_from_nothing(v: ClientView, id: u32, n: nat)
    requires
        !v.credits.contains_key(id),
    ensures
        body_consumed(v, id, n).0 == v,
        body_consumed(v, id, n).1 is None,
{
}

/// A response body that is let go of before its end resets its stream, which is then
/// forgotten with its ledger; one that has ended leaves a running stream alone, and takes the
/// ledger of a stream that is gone with it.
pub proof fn law_letting_go_of_a_body(v: ClientView, id: u32, body: ShmBody)
    ensures
        ({
            let (w, f) = body_let_go(v, id, body);
            let early = body.armed && !body.ended;
            &&& early ==> {
                &&& f is Some
                &&& f->0.typ == FrameType::RstStream
                &&& f->0.stream_id == id
                &&& f->0.payload == seq![1u8, 0, 0, 0]
                &&& w.streams == v.streams.remove(id)
                &&& w.credits == v.credits.remove(id)
            }
            &&& !early ==> {
                &&& f is None
                &&& w.streams == v.streams
                &&& v.streams.contains_key(id) ==> w.credits == v.credits
                &&& !v.streams.contains_key(id) ==> w.credits == v.credits.remove(id)
            }
            &&& w.io == v.io
            &&& w.next_id == v.next_id
            &&& w.draining == v.draining
        }),
{
    law_control_bytes(0, RstCode::Cancel, 0, Seq::empty());
}

/// A call that is given up before its head came resets its stream and forgets it; the reset
/// follows the HEADERS in the data queue wherever it can wait there. A guard that stood down
/// does nothing.
pub proof fn law_giving_up_a_call(v: ClientView, guard: PendingStreamGuard, can_wait: bool)
    ensures
        ({
            let (w, r) = guard_let_go(v, guard, can_wait);
            &&& !guard.armed ==> r is None && w == v
            &&& guard.armed ==> {
                &&& r matches Some(x)
                &&& can_wait ==> x.0 == Queue::Data
                &&& !can_wait ==> x.0 == Queue::Control
                &&& x.1.typ == FrameType::RstStream
                &&& x.1.stream_id == guard.id
                &&& x.1.payload == seq![1u8, 0, 0, 0]
                &&& w.streams == v.streams.remove(guard.id)
                &&& w.credits == v.credits.remove(guard.id)
                &&& w.io == v.io
                &&& w.next_id == v.next_id
            }
        }),
{
    law_control_bytes(0, RstCode::Cancel, 0, Seq::empty());
}

/// A call on an open connection that does not drain gets the next id, up to 2^31 - 1, and a
/// HEADERS frame with its request and without flags. Otherwise it is unavailable, and is
/// told why; where the ids are used up the connection is closed as well.
pub proof fn law_calls_get_streams(v: ClientView, b: BlockView)
    ensures
        ({
            let (w, r) = open_outcome(v, b);
            let open = v.io.reason is None && !v.draining;
            &&& r is Ok <==> open && v.next_id <= 2147483647
            &&& r matches Ok(x) ==> {
                &&& x.0 == v.next_id
                &&& x.1.typ == FrameType::Headers
                &&& x.1.flags == 0
                &&& x.1.stream_id == v.next_id
                &&& x.1.payload == crate::block::block_bytes(b)
                &&& w.streams.contains_key(v.next_id)
                &&& w.next_id == v.next_id + 2
            }
            &&& !open ==> w == v
            &&& r matches Err(e) ==> e.code == Code::Unavailable
            &&& v.io.reason is None && v.draining ==> r == Err::<(u32, FrameView), StatusView>(
                StatusView {
                    code: Code::Unavailable,
                    message: "shmsc connection is draining (GOAWAY)"@,
                },
            )
            &&& v.io.reason matches Some(reason) ==> r == Err::<(u32, FrameView), StatusView>(
                StatusView {
                    code: Code::Unavailable,
                    message: "shmsc connection lost: "@ + reason.text(),
                },
            )
            &&& open && v.next_id > 2147483647 ==> w.io.reason == Some(CloseView::Local) && r
                == Err::<(u32, FrameView), StatusView>(
                StatusView {
                    code: Code::Unavailable,
                    message: "shmsc connection exhausted stream ids"@,
                },
            )
        }),
{
}

// ---------------------------------------------------------------------
// what is shown
// ---------------------------------------------------------------------

/// An action says exactly what it holds.
pub proof fn law_an_action_says_what_it_holds(a: ClientAction)
    ensures
        match a {
            ClientAction::Head { id, status, headers, end_stream } => a@ == (ActionView::Head {
                id,
                status,
                headers: header_map_view(headers),
                end_stream,
            }),
            ClientAction::HeadFailed { id, status } => a@ == (ActionView::HeadFailed {
                id,
                status: StatusView { code: status.code, message: status.message@ },
            }),
            ClientAction::Data { id, payload } => a@ == (ActionView::Data {
                id,
                payload: bytes_view(payload),
            }),
            ClientAction::Trailers { id, headers } => a@ == (ActionView::Trailers {
                id,
                headers: header_map_view(headers),
            }),
            ClientAction::BodyFailed { id, status } => a@ == (ActionView::BodyFailed {
                id,
                status: StatusView { code: status.code, message: status.message@ },
            }),
            ClientAction::Remove { id } => a@ == (ActionView::Remove { id }),
            ClientAction::WindowOpened { id } => a@ == (ActionView::WindowOpened { id }),
            ClientAction::Control(op) => a@ == ActionView::Control(op@),
        },
{
}

/// A client end shows everything that it holds.
pub proof fn law_a_client_shows_what_it_holds(c: ClientConn)
    ensures
        c@.streams == c.streams@,
        c@.credits == c.credits@,
        c@.next_id == c.next_id,
        c@.draining == c.draining,
        c@.window == c.window,
        c@.max_frame == c.max_frame,
        c@.io.graceful == c.io.graceful,
        c@.io.ping_acks == c.io.ping_acks,
        c@.io.reason is Some <==> c.io.reason is Some,
        c.io.reason matches Some(r) ==> c@.io.reason == Some(r@),
{
}

/// When the inbound ring ends, every stream fails as unavailable and with that reason,
/// exactly once and in the order of the ids. The connection is closed for it, unless it was
/// closed before; the table is empty, and the ledgers stay with their bodies.
pub proof fn law_end_of_the_ring_fails_every_stream(v: ClientView, reason: CloseView)
    ensures
        ({
            let o = read_failed_outcome(v, reason);
            let status = StatusView {
                code: Code::Unavailable,
                message: "shmsc connection lost: "@ + reason.text(),
            };
            &&& exists|ids: Seq<u32>| #[trigger] failed_above(v, -1, status, o.actions, ids)
            &&& forall|id: u32| !#[trigger] o.state.streams.contains_key(id)
            &&& o.state.credits == v.credits
            &&& v.io.reason is None ==> o.state.io.reason == Some(reason)
            &&& v.io.reason is Some ==> o.state.io.reason == v.io.reason
            &&& o.state.next_id == v.next_id
        }),
{
    let status = StatusView {
        code: Code::Unavailable,
        message: "shmsc connection lost: "@ + reason.text(),
    };
    law_all_streams_fail(v, status);
    let ids = sorted_ids(v.streams, -1);
    lemma_failed_above(v, -1, status);
    assert(failed_above(v, -1, status, read_failed_outcome(v, reason).actions, ids));
}

/// A frame that breaks the protocol is not acted on: nothing is delivered, and no stream
/// but that of early trailers leaves the table, which is let go of before the connection
/// fails.
pub proof fn law_bad_frames_are_not_acted_on(v: ClientView, f: FrameView)
    requires
        frame_outcome(v, f).error is Some,
    ensures
        f.typ != FrameType::Trailers ==> frame_outcome(v, f).actions.len() == 0,
        f.typ != FrameType::Trailers ==> frame_outcome(v, f).state.streams == v.streams,
        f.typ != FrameType::Trailers && f.typ != FrameType::Data ==> frame_outcome(v, f).state
            == v,
        f.typ == FrameType::Trailers && decode_block(f.payload) is Err ==> frame_outcome(
            v,
            f,
        ).state == v && frame_outcome(v, f).actions.len() == 0,
        f.typ == FrameType::Trailers && decode_block(f.payload) is Ok ==> frame_outcome(
            v,
            f,
        ).state.streams == v.streams.remove(f.stream_id) && frame_outcome(v, f).actions == seq![
            ActionView::Remove { id: f.stream_id },
        ],
{
}

} // verus!
