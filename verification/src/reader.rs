//! Reading frames off a ring, piece by piece.

use bytes::BytesMut;
use vstd::prelude::*;

use crate::frame::{
    header_array, parse_frame_header, Frame, FrameType, ProtocolError, FRAME_HDR_SIZE,
};
use crate::outside::{
    buf_freeze, buf_len, buf_put_slice, buf_split_to, buf_with_capacity, bytes_new,
};

verus! {

use crate::frame::{
    all_frames, first_frame, law_later_bytes_do_not_matter, parse_header, FrameView, HeaderView,
};
use crate::outside::{buf_view, bytes_view};

/// Most bytes that are popped at once. Small pops keep the consumer close behind
/// the producer, while the bytes are still in the cache.
pub const POP_WINDOW: usize = 64 * 1024;

/// The fixed part of a frame whose payload is being read.
#[derive(Debug, Clone, Copy, PartialEq, Eq, Structural)]
pub struct ParsedHeader {
    pub typ: FrameType,
    pub flags: u8,
    pub stream_id: u32,
    pub len: usize,
}

/// A frame being read: its header first, then its payload, copied once into the
/// arena and split off when it is complete.
#[derive(Debug)]
pub struct FrameReader {
    hdr: Vec<u8>,
    parsed: Option<ParsedHeader>,
    arena: BytesMut,
}

/// How many bytes to pop next, given those of the current frame.
pub open spec fn next_want(p: Seq<u8>) -> int {
    if p.len() < FRAME_HDR_SIZE {
        FRAME_HDR_SIZE - p.len()
    } else {
        match parse_header(p.take(FRAME_HDR_SIZE as int)) {
            Ok(h) => {
                let left = FRAME_HDR_SIZE + h.len - p.len();
                if left < POP_WINDOW {
                    left
                } else {
                    POP_WINDOW as int
                }
            },
            Err(_) => 0,
        }
    }
}

impl FrameReader {
    /// The bytes of the current frame that were read so far.
    pub closed spec fn pending(self) -> Seq<u8> {
        self.hdr@ + buf_view(self.arena)
    }

    /// The frame is not complete, and its header is parsed once it is.
    pub closed spec fn wf(self) -> bool {
        match self.parsed {
            None => self.hdr@.len() < FRAME_HDR_SIZE && buf_view(self.arena).len() == 0,
            Some(p) => {
                &&& self.hdr@.len() == FRAME_HDR_SIZE
                &&& parse_header(self.hdr@) == Ok::<HeaderView, Seq<char>>(
                    HeaderView {
                        typ: p.typ,
                        flags: p.flags,
                        stream_id: p.stream_id,
                        len: p.len as nat,
                    },
                )
                &&& buf_view(self.arena).len() < p.len
            },
        }
    }

    /// A reader at the start of a frame.
    pub fn new() -> (r: Self)
        ensures
            r.wf(),
            r.pending() == Seq::<u8>::empty(),
    {
        let r = FrameReader { hdr: Vec::new(), parsed: None, arena: buf_with_capacity(0) };
        assert(r.pending() =~= Seq::<u8>::empty());
        r
    }

    /// How many bytes to pop next: at least one, never beyond the end of the
    /// frame, and never more than a window.
    pub fn want(&self) -> (r: usize)
        requires
            self.wf(),
        ensures
            r == next_want(self.pending()),
            0 < r <= POP_WINDOW,
    {
        match self.parsed {
            None => {
                assert(self.pending() =~= self.hdr@);
                FRAME_HDR_SIZE - self.hdr.len()
            },
            Some(p) => {
                assert(self.pending().take(FRAME_HDR_SIZE as int) =~= self.hdr@);
                let left: usize = p.len - buf_len(&self.arena);
                if left < POP_WINDOW {
                    left
                } else {
                    POP_WINDOW
                }
            },
        }
    }

    /// Takes popped bytes in. Gives the frame that they complete, if any; an
    /// error where the header is not acceptable, which is seen before anything of
    /// the payload is read.
    pub fn feed(&mut self, bytes: &[u8]) -> (r: Result<Option<Frame>, ProtocolError>)
        requires
            old(self).wf(),
            bytes@.len() <= next_want(old(self).pending()),
        ensures
            final(self).wf(),
            ({
                let b = old(self).pending() + bytes@;
                match r {
                    Ok(Some(f)) => {
                        &&& first_frame(b) == Ok::<Option<(FrameView, Seq<u8>)>, Seq<char>>(
                            Some((f@, Seq::<u8>::empty())),
                        )
                        &&& final(self).pending() == Seq::<u8>::empty()
                    },
                    Ok(None) => {
                        &&& first_frame(b) == Ok::<Option<(FrameView, Seq<u8>)>, Seq<char>>(None)
                        &&& final(self).pending() == b
                    },
                    Err(e) => {
                        &&& first_frame(b) == Err::<Option<(FrameView, Seq<u8>)>, Seq<char>>(e.0@)
                        &&& final(self).pending() == Seq::<u8>::empty()
                    },
                }
            }),
    {
        let ghost b = self.pending() + bytes@;
        let ghost none = Seq::<u8>::empty();
        match self.parsed {
            None => {
                assert(self.pending() =~= self.hdr@);
                self.hdr.extend_from_slice(bytes);
                assert(b =~= self.hdr@);
                assert(self.pending() =~= b);
                if self.hdr.len() < FRAME_HDR_SIZE {
                    return Ok(None);
                }
                assert(b.take(FRAME_HDR_SIZE as int) =~= b);
                let hdr = header_array(self.hdr.as_slice());
                match parse_frame_header(&hdr) {
                    Err(e) => {
                        self.hdr.clear();
                        assert(self.pending() =~= none);
                        Err(e)
                    },
                    Ok((typ, flags, stream_id, len)) => {
                        if len == 0 {
                            self.hdr.clear();
                            assert(self.pending() =~= none);
                            let payload = bytes_new();
                            assert(b.subrange(FRAME_HDR_SIZE as int, FRAME_HDR_SIZE as int)
                                =~= none);
                            assert(b.skip(FRAME_HDR_SIZE as int) =~= none);
                            return Ok(Some(Frame { typ, flags, stream_id, payload }));
                        }
                        self.parsed = Some(ParsedHeader { typ, flags, stream_id, len });
                        Ok(None)
                    },
                }
            },
            Some(p) => {
                let ghost n = FRAME_HDR_SIZE as int;
                assert(self.pending().take(n) =~= self.hdr@);
                assert(b.take(n) =~= self.hdr@);
                buf_put_slice(&mut self.arena, bytes);
                assert(self.pending() =~= b);
                if buf_len(&self.arena) < p.len {
                    return Ok(None);
                }
                assert(b.subrange(n, n + p.len) =~= buf_view(self.arena));
                assert(b.skip(n + p.len) =~= none);
                let whole = buf_split_to(&mut self.arena, p.len);
                let payload = buf_freeze(whole);
                assert(bytes_view(payload) =~= b.subrange(n, n + p.len));
                self.hdr.clear();
                self.parsed = None;
                assert(self.pending() =~= none);
                Ok(Some(Frame { typ: p.typ, flags: p.flags, stream_id: p.stream_id, payload }))
            },
        }
    }
}

/// Pieces of a stream put together again.
pub open spec fn joined(pieces: Seq<Seq<u8>>) -> Seq<u8>
    decreases pieces.len(),
{
    if pieces.len() == 0 {
        Seq::empty()
    } else {
        pieces[0] + joined(pieces.drop_first())
    }
}

/// The frames that a reader gives as pieces come in, and what is pending at the
/// end. It stops at an error.
pub open spec fn read_pieces(pending: Seq<u8>, pieces: Seq<Seq<u8>>) -> (Seq<FrameView>, Seq<u8>)
    decreases pieces.len(),
{
    if pieces.len() == 0 {
        (Seq::empty(), pending)
    } else {
        match first_frame(pending + pieces[0]) {
            Ok(Some((f, rest))) => {
                let tail = read_pieces(rest, pieces.drop_first());
                (seq![f] + tail.0, tail.1)
            },
            Ok(None) => read_pieces(pending + pieces[0], pieces.drop_first()),
            Err(_) => (Seq::empty(), pending + joined(pieces)),
        }
    }
}

/// Each piece is no longer than the reader asked for.
pub open spec fn pieces_fit(pending: Seq<u8>, pieces: Seq<Seq<u8>>) -> bool
    decreases pieces.len(),
{
    pieces.len() > 0 ==> {
        &&& pieces[0].len() <= next_want(pending)
        &&& match first_frame(pending + pieces[0]) {
            Ok(Some((f, rest))) => pieces_fit(rest, pieces.drop_first()),
            Ok(None) => pieces_fit(pending + pieces[0], pieces.drop_first()),
            Err(_) => true,
        }
    }
}

/// However the ring hands a stream out in pieces, the reader takes it apart into
/// the same frames.
pub proof fn law_pieces_do_not_matter(pending: Seq<u8>, pieces: Seq<Seq<u8>>)
    requires
        first_frame(pending) == Ok::<Option<(FrameView, Seq<u8>)>, Seq<char>>(None),
        pieces_fit(pending, pieces),
    ensures
        read_pieces(pending, pieces) == all_frames(pending + joined(pieces)),
    decreases pieces.len(),
{
    let whole = pending + joined(pieces);
    if pieces.len() == 0 {
        assert(whole =~= pending);
    } else {
        let b = pending + pieces[0];
        let more = joined(pieces.drop_first());
        assert(whole =~= b + more);
        law_later_bytes_do_not_matter(b, more);
        match first_frame(b) {
            Ok(Some((f, rest))) => {
                lemma_rest_shorter(b);
                lemma_piece_ends_frame(pending, pieces[0]);
                law_pieces_do_not_matter(rest, pieces.drop_first());
            },
            Ok(None) => {
                law_pieces_do_not_matter(b, pieces.drop_first());
            },
            Err(_) => {},
        }
    }
}

proof fn lemma_rest_shorter(b: Seq<u8>)
    ensures
        first_frame(b) matches Ok(Some(p)) ==> p.1.len() < b.len(),
{
}

/// A piece that is no longer than asked for never reaches into the next frame.
proof fn lemma_piece_ends_frame(pending: Seq<u8>, piece: Seq<u8>)
    requires
        first_frame(pending) == Ok::<Option<(FrameView, Seq<u8>)>, Seq<char>>(None),
        piece.len() <= next_want(pending),
    ensures
        first_frame(pending + piece) matches Ok(Some(p)) ==> p.1 == Seq::<u8>::empty(),
{
    let b = pending + piece;
    let n = FRAME_HDR_SIZE as int;
    if pending.len() >= n {
        assert(b.take(n) =~= pending.take(n));
    }
    match first_frame(b) {
        Ok(Some(p)) => {
            assert(p.1 =~= Seq::<u8>::empty());
        },
        _ => {},
    }
}

/// How much is asked for: the rest of the twelve bytes of a header, and then the rest of the
/// payload, at most 64 KiB at once. So a frame is never overshot, and something is always
/// asked for while it is not complete.
pub proof fn law_what_is_asked_for(p: Seq<u8>)
    requires
        first_frame(p) == Ok::<Option<(FrameView, Seq<u8>)>, Seq<char>>(None),
    ensures
        p.len() < 12 ==> next_want(p) == 12 - p.len(),
        p.len() >= 12 ==> {
            let len = p[0] + 256 * p[1] + 65536 * p[2] + 16777216 * p[3];
            let left = 12 + len - p.len();
            next_want(p) == if left < 65536 {
                left
            } else {
                65536
            }
        },
        next_want(p) > 0,
{
    if p.len() >= 12 {
        let h = p.take(12);
        crate::le::law_read_low_byte_first(h.subrange(0, 4));
    }
}

} // verus!
