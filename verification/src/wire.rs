//! One direction of a connection as a whole: what a writer puts into its ring is
//! what the reader at the other end takes apart.

use vstd::prelude::*;

verus! {

use crate::frame::{
    all_frames, first_frame, law_frame_roundtrip, law_partial_frame_waits, law_stream_roundtrip,
    lemma_header_len, stream_bytes, FrameView, MAX_FRAME_PAYLOAD,
};
use crate::reader::{joined, law_pieces_do_not_matter, pieces_fit, read_pieces};
use crate::ring::{
    contents, filled, head_of, law_pop_removes, law_push_appends, published, released, ring_bytes,
    ring_ok, room, tail_of, RingSpan,
};
use crate::writer::{Progress, Run, StateView};

/// A ring, with everything that was ever pushed into it and popped out of it.
pub struct Link {
    pub image: Seq<u8>,
    pub span: RingSpan,
    pub pushed: Seq<u8>,
    pub popped: Seq<u8>,
}

impl Link {
    /// What was popped and what the ring holds make up what was pushed.
    pub open spec fn wf(self) -> bool {
        &&& ring_ok(self.image, self.span)
        &&& self.popped + contents(self.image, self.span) == self.pushed
    }

    /// The link after a push.
    pub open spec fn push(self, s: Seq<u8>) -> Link {
        let tail = tail_of(self.image, self.span);
        Link {
            image: published(self.image, self.span, tail, s),
            pushed: self.pushed + s,
            ..self
        }
    }

    /// The link after a pop.
    pub open spec fn pop(self, n: nat) -> Link {
        let head = head_of(self.image, self.span);
        Link {
            image: released(self.image, self.span, head, n),
            popped: self.popped + ring_bytes(self.image, self.span, head, n),
            ..self
        }
    }
}

/// A ring is first in, first out, and neither loses nor invents a byte: this holds
/// after every push that fits and every pop of what is there.
pub proof fn law_ring_is_first_in_first_out(link: Link, s: Seq<u8>, n: nat)
    requires
        link.wf(),
        s.len() <= room(
            tail_of(link.image, link.span),
            head_of(link.image, link.span),
            link.span.cap,
        ),
        n <= filled(
            tail_of(link.image, link.span),
            head_of(link.image, link.span),
            link.span.cap,
        ),
    ensures
        link.push(s).wf(),
        link.pop(n).wf(),
{
    law_push_appends(link.image, link.span, s);
    law_pop_removes(link.image, link.span, n);
    let held = contents(link.image, link.span);
    assert(link.popped + (held + s) =~= link.pushed + s);
    assert((link.popped + held.take(n as int)) + held.skip(n as int) =~= link.popped + held);
}

/// The frames in the front of a stream of frames are the first of them.
proof fn lemma_front_of_stream(frames: Seq<FrameView>, cut: int)
    requires
        forall|i: int| 0 <= i < frames.len() ==> (#[trigger] frames[i]).payload.len()
            <= MAX_FRAME_PAYLOAD,
        0 <= cut <= stream_bytes(frames).len(),
    ensures
        all_frames(stream_bytes(frames).take(cut)).0.is_prefix_of(frames),
    decreases frames.len(),
{
    let b = stream_bytes(frames).take(cut);
    if frames.len() > 0 {
        let f = frames[0];
        let whole = f.bytes();
        let rest = frames.drop_first();
        lemma_header_len(f.typ, f.flags, f.stream_id, f.payload.len());
        if cut < whole.len() {
            law_partial_frame_waits(f, cut);
            assert(b =~= whole.take(cut));
        } else {
            let left = stream_bytes(rest).take(cut - whole.len());
            assert(b =~= whole + left);
            law_frame_roundtrip(f, left);
            lemma_front_of_stream(rest, cut - whole.len());
            let tail = all_frames(left).0;
            assert(all_frames(b).0 =~= seq![f] + tail);
            assert((seq![f] + tail).is_prefix_of(frames)) by {
                assert forall|i: int| 0 <= i < tail.len() + 1 implies (seq![f] + tail)[i]
                    == frames[i] by {
                    if i > 0 {
                        assert(tail[i - 1] == rest[i - 1]);
                    }
                }
                assert((seq![f] + tail) =~= frames.subrange(0, 1 + tail.len() as int));
            }
        }
    } else {
        assert(b =~= Seq::<u8>::empty());
    }
}

/// What a writer put into its ring is a front of the frames that it took up.
proof fn lemma_written_front(run: Run)
    requires
        run.ordered(),
    ensures
        run.out.is_prefix_of(stream_bytes(run.taken)),
{
    match run.state {
        StateView::Pushing(p) => lemma_half_front(run, p),
        StateView::Full(p) => lemma_half_front(run, p),
        _ => {},
    }
}

proof fn lemma_half_front(run: Run, p: Progress)
    requires
        run.half(p),
    ensures
        run.out.is_prefix_of(stream_bytes(run.taken)),
{
    let before = run.taken.drop_last();
    assert(before.push(p.frame) =~= run.taken);
    crate::writer::lemma_stream_push(before, p.frame);
}

/// The reader at the other end gives the frames that the writer took up, in their
/// order and unchanged: at any time the first of them, and all of them once the
/// writer has finished its frame and the ring is empty. It does not matter in what
/// pieces the bytes went into the ring or came out of it.
pub proof fn law_frames_arrive_as_sent(run: Run, link: Link, pieces: Seq<Seq<u8>>)
    requires
        run.ordered(),
        forall|i: int| 0 <= i < run.taken.len() ==> (#[trigger] run.taken[i]).payload.len()
            <= MAX_FRAME_PAYLOAD,
        link.wf(),
        link.pushed == run.out,
        link.popped == joined(pieces),
        pieces_fit(Seq::empty(), pieces),
    ensures
        read_pieces(Seq::empty(), pieces).0.is_prefix_of(run.taken),
        contents(link.image, link.span).len() == 0 && run.out == stream_bytes(run.taken)
            ==> read_pieces(Seq::empty(), pieces) == (run.taken, Seq::<u8>::empty()),
{
    let none = Seq::<u8>::empty();
    let held = contents(link.image, link.span);
    let all = stream_bytes(run.taken);
    let cut = link.popped.len() as int;
    lemma_written_front(run);
    assert(first_frame(none) == Ok::<Option<(FrameView, Seq<u8>)>, Seq<char>>(None));
    law_pieces_do_not_matter(none, pieces);
    assert(none + joined(pieces) =~= link.popped);
    assert(link.popped =~= all.take(cut));
    lemma_front_of_stream(run.taken, cut);
    if held.len() == 0 && run.out == all {
        assert(link.popped =~= all);
        law_stream_roundtrip(run.taken);
    }
}

} // verus!
