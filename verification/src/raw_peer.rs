//! A client that writes whatever it is told into its ring: frames, malformed
//! frames, or any bytes.

use bytes::BytesMut;
use vstd::prelude::*;
use vstd::slice::slice_subrange;

use crate::block::encode_header_block;
use crate::conn::BellRead;
use crate::frame::{encode_frame, encode_frame_header, FrameType, FRAME_HDR_SIZE, MAX_FRAME_PAYLOAD};
use crate::outside::{
    buf_put_slice, buf_slice, buf_with_capacity, bytes_slice, header_map_new,
};
use crate::ring::{Producer, RingSpan};
use crate::seg::Segment;

verus! {

use crate::block::{block_bytes, fits, BlockView};
use crate::frame::{header_bytes, lemma_header_len, FrameView};
use crate::outside::buf_view;
use crate::ring::{
    advance, head_of, lemma_push_keeps_head, lemma_short_push_fills, with_consumer_flag, with_tail,
    write_ring,
};

/// A raw client on an image of a segment.
#[derive(Debug)]
pub struct RawPeer {
    pub prod: Producer,
    pub seg: Segment,
}

/// A frame whose type byte may be anything.
pub open spec fn raw_frame_bytes(typ: u8, flags: u8, stream_id: u32, payload: Seq<u8>) -> Seq<u8> {
    header_bytes(FrameType::Data, flags, stream_id, payload.len()).update(4, typ) + payload
}

/// The block of a request that opens a stream.
pub open spec fn open_block(path: Seq<char>) -> BlockView {
    BlockView {
        path: Some(path),
        authority: Some("localhost"@),
        status: None,
        headers: Seq::empty(),
    }
}

/// The frame that opens a stream.
pub open spec fn open_frame(stream_id: u32, path: Seq<char>) -> FrameView {
    FrameView {
        typ: FrameType::Headers,
        flags: 0,
        stream_id,
        payload: block_bytes(open_block(path)),
    }
}

/// Encodes a frame whose type byte may be anything.
pub fn raw_frame(typ: u8, flags: u8, stream_id: u32, payload: &[u8]) -> (r: BytesMut)
    requires
        payload@.len() <= MAX_FRAME_PAYLOAD,
    ensures
        buf_view(r) == raw_frame_bytes(typ, flags, stream_id, payload@),
{
    let mut buf = buf_with_capacity(FRAME_HDR_SIZE + payload.len());
    let mut hdr = [0u8; FRAME_HDR_SIZE];
    encode_frame_header(&mut hdr, FrameType::Data, flags, stream_id, payload.len());
    proof {
        lemma_header_len(FrameType::Data, flags, stream_id, payload@.len());
    }
    hdr[4] = typ;
    buf_put_slice(&mut buf, hdr.as_slice());
    buf_put_slice(&mut buf, payload);
    assert(buf_view(buf) =~= raw_frame_bytes(typ, flags, stream_id, payload@));
    buf
}

/// Encodes the frame that opens a stream.
pub fn raw_open(stream_id: u32, path: &str) -> (r: BytesMut)
    requires
        fits(open_block(path@)),
    ensures
        buf_view(r) == open_frame(stream_id, path@).bytes(),
{
    let headers = header_map_new();
    let block = encode_header_block(Some(path), Some("localhost"), None, &headers);
    let mut buf = buf_with_capacity(0);
    encode_frame(&mut buf, FrameType::Headers, 0, stream_id, bytes_slice(&block));
    assert(buf_view(buf) =~= open_frame(stream_id, path@).bytes());
    buf
}

impl RawPeer {
    /// The ring lies in the segment.
    pub open spec fn wf(self) -> bool {
        self.seg.wf() && self.prod.span.within(self.seg.layout)
    }

    /// How many of some bytes the ring takes.
    pub open spec fn taken(self, bytes: Seq<u8>) -> nat {
        self.prod.push_len(self.seg.bytes@, bytes.len())
    }

    /// The producer after it was given some bytes.
    pub open spec fn moved(self, bytes: Seq<u8>) -> Producer {
        Producer {
            span: self.prod.span,
            tail: advance(self.prod.tail, self.taken(bytes)),
            head_cache: self.prod.push_head(self.seg.bytes@, bytes.len()),
        }
    }

    /// The image after the ring was given some bytes.
    pub open spec fn pushed(self, bytes: Seq<u8>) -> Seq<u8> {
        let n = self.taken(bytes);
        if n == 0 {
            self.seg.bytes@
        } else {
            with_tail(
                write_ring(
                    self.seg.bytes@,
                    self.prod.span,
                    self.prod.tail,
                    bytes.take(n as int),
                ),
                self.prod.span,
                advance(self.prod.tail, n),
            )
        }
    }

    /// `self` after some bytes were sent: the ring took what fits, and the
    /// consumer's parking flag was taken.
    pub open spec fn sent(self, bytes: Seq<u8>, after: RawPeer) -> bool {
        &&& after.prod == self.moved(bytes)
        &&& after.seg.layout == self.seg.layout
        &&& after.seg.bytes@ == with_consumer_flag(self.pushed(bytes), self.prod.span, 0)
    }

    /// A peer that produces into a ring of the segment.
    pub fn new(seg: Segment, span: RingSpan) -> (r: Self)
        requires
            seg.wf(),
            span.within(seg.layout),
        ensures
            r.wf(),
            r.seg == seg,
            r.prod == (Producer {
                span,
                tail: crate::ring::tail_of(seg.bytes@, span),
                head_cache: head_of(seg.bytes@, span),
            }),
    {
        let prod = Producer::new(&seg, span);
        RawPeer { prod, seg }
    }

    /// Puts bytes into the ring and takes the consumer's parking flag; the doorbell
    /// is then to be rung. Returns how many bytes the ring took.
    pub fn send_raw(&mut self, bytes: &[u8]) -> (r: usize)
        requires
            old(self).wf(),
        ensures
            final(self).wf(),
            r == old(self).taken(bytes@),
            old(self).sent(bytes@, *final(self)),
    {
        let mut off: usize = 0;
        let ghost start = *self;
        let ghost n = start.taken(bytes@);
        let mut going = true;
        while going && off < bytes.len()
            invariant
                off <= bytes@.len(),
                start.wf(),
                n == start.taken(bytes@),
                self.seg.wf(),
                self.seg.layout == start.seg.layout,
                off == 0 && going ==> *self == start,
                off > 0 || !going ==> {
                    &&& off == n
                    &&& self.prod == start.moved(bytes@)
                    &&& self.seg.bytes@ == start.pushed(bytes@)
                },
            decreases bytes@.len() - off + if going { 1int } else { 0 },
        {
            let rest = slice_subrange(bytes, off, bytes.len());
            let ghost before = *self;
            let took: usize = self.prod.push(&mut self.seg, rest);
            proof {
                if off > 0 {
                    lemma_push_keeps_head(
                        start.seg.bytes@,
                        start.prod.span,
                        start.prod.tail,
                        bytes@.take(n as int),
                        start.moved(bytes@).tail,
                    );
                    lemma_short_push_fills(start.prod, start.seg.bytes@, bytes@.len());
                } else {
                    assert(rest@ =~= bytes@);
                }
            }
            if took == 0 {
                going = false;
            }
            off = off + took;
        }
        assert(off == n && self.prod == start.moved(bytes@) && self.seg.bytes@ == start.pushed(
            bytes@,
        ));
        let _ = self.prod.take_consumer_parked(&mut self.seg);
        off
    }

    /// Sends a frame whose type byte may be anything.
    pub fn send_frame(&mut self, typ: u8, flags: u8, stream_id: u32, payload: &[u8]) -> (r: usize)
        requires
            old(self).wf(),
            payload@.len() <= MAX_FRAME_PAYLOAD,
        ensures
            final(self).wf(),
            r == old(self).taken(raw_frame_bytes(typ, flags, stream_id, payload@)),
            old(self).sent(raw_frame_bytes(typ, flags, stream_id, payload@), *final(self)),
    {
        let buf = raw_frame(typ, flags, stream_id, payload);
        self.send_raw(buf_slice(&buf))
    }

    /// Sends the frame that opens a stream.
    pub fn send_open(&mut self, stream_id: u32, path: &str) -> (r: usize)
        requires
            old(self).wf(),
            fits(open_block(path@)),
        ensures
            final(self).wf(),
            r == old(self).taken(open_frame(stream_id, path@).bytes()),
            old(self).sent(open_frame(stream_id, path@).bytes(), *final(self)),
    {
        let buf = raw_open(stream_id, path);
        self.send_raw(buf_slice(&buf))
    }
}

/// Whether what was read from the channel shows that the server closed it; a
/// doorbell does not.
pub fn shows_close(read: &BellRead) -> (r: bool)
    ensures
        r == (*read is End || *read is Failed),
{
    match read {
        BellRead::End => true,
        BellRead::Bytes => false,
        BellRead::Empty => false,
        BellRead::Failed(_) => true,
    }
}

/// A frame with any type byte: each byte as in a frame header, with that type, and then the
/// payload.
pub proof fn law_raw_frame_byte_by_byte(typ: u8, flags: u8, stream_id: u32, payload: Seq<u8>)
    ensures
        ({
            let b = raw_frame_bytes(typ, flags, stream_id, payload);
            let n = payload.len();
            &&& b.len() == 12 + n
            &&& b[0] == n % 256 && b[1] == n / 256 % 256 && b[2] == n / 65536 % 256 && b[3] == n
                / 16777216 % 256
            &&& b[4] == typ && b[5] == flags && b[6] == 0 && b[7] == 0
            &&& b[8] == stream_id % 256 && b[9] == stream_id / 256 % 256 && b[10] == stream_id
                / 65536 % 256 && b[11] == stream_id / 16777216 % 256
            &&& b.skip(12) == payload
        }),
{
    crate::frame::law_header_byte_by_byte(FrameType::Data, flags, stream_id, payload.len());
    assert(raw_frame_bytes(typ, flags, stream_id, payload).skip(12) =~= payload);
}

/// The frame that opens a stream asks for the path at the host `localhost`, without headers.
pub proof fn law_raw_open(stream_id: u32, path: Seq<char>)
    ensures
        open_frame(stream_id, path).typ == FrameType::Headers,
        open_frame(stream_id, path).flags == 0,
        open_frame(stream_id, path).stream_id == stream_id,
        open_frame(stream_id, path).payload == block_bytes(
            BlockView {
                path: Some(path),
                authority: Some("localhost"@),
                status: None,
                headers: Seq::empty(),
            },
        ),
{
}

/// Bytes that the ring has room for all go in, behind what it holds, and its tail moves on
/// by their number.
pub proof fn law_raw_bytes_go_in(p: RawPeer, bytes: Seq<u8>)
    requires
        p.wf(),
        bytes.len() > 0,
        crate::ring::ahead(p.prod.tail, p.prod.head_cache) + bytes.len() <= p.prod.span.cap,
    ensures
        p.taken(bytes) == bytes.len(),
        p.moved(bytes).tail == advance(p.prod.tail, bytes.len()),
        p.moved(bytes).span == p.prod.span,
        p.pushed(bytes) == with_tail(
            write_ring(p.seg.bytes@, p.prod.span, p.prod.tail, bytes),
            p.prod.span,
            advance(p.prod.tail, bytes.len()),
        ),
{
    assert(bytes.take(bytes.len() as int) =~= bytes);
}

} // verus!
