//! Byte rings with one producer and one consumer, and their parking flags.
//!
//! A ring is a byte pipe. Positions only grow (modulo 2^64); the byte at a
//! position stands at that position modulo the capacity, which is a power of
//! two. Frame boundaries are no concern of the ring.
//!
//! # Parking
//!
//! Each ring has two flags, so that the other side's doorbell is only rung when
//! it sleeps. A consumer that finds the ring empty sets its flag, looks at the
//! tail once more, and only then sleeps; a producer that has published swaps
//! that flag out and rings if it was set. The other direction is symmetric.
//!
//! # Trust
//!
//! The peer writes half of the ring header, so each value loaded from it may be
//! anything. Positions are used only after clamping: a corrupt peer can cause
//! garbage bytes, which the frame layer rejects, but never an access outside the
//! ring.

use vstd::prelude::*;
use vstd::slice::slice_subrange;

use crate::image::store;
use crate::seg::{Layout, Segment};

verus! {

use crate::image::{lemma_beside, lemma_read_back, put_u32, put_u64, u32_at, u64_at};
use crate::le::lemma_le_bytes_len;
use crate::seg::{lemma_cap_bounds, valid_cap, RING_HDR_SIZE};
use vstd::arithmetic::div_mod::{
    lemma_fundamental_div_mod, lemma_fundamental_div_mod_converse, lemma_mod_multiples_vanish,
    lemma_sub_mod_noop,
};
use vstd::arithmetic::power2::pow2;

/// Where the consumer's position stands in a ring header.
pub const OFF_HEAD: usize = 0;

/// Where the consumer's parking flag stands. It shares a cache line with the
/// consumer's position.
pub const OFF_CONSUMER_PARKED: usize = 8;

/// Where the producer's position stands, on a cache line of its own.
pub const OFF_TAIL: usize = 64;

/// Where the producer's parking flag stands.
pub const OFF_PRODUCER_PARKED: usize = 72;

/// Where a ring lies in a segment.
#[derive(Debug, Clone, Copy, PartialEq, Eq, Structural)]
pub struct RingSpan {
    /// Offset of the ring header.
    pub hdr: usize,
    /// Offset of the ring data.
    pub data: usize,
    /// Capacity of the ring data.
    pub cap: usize,
}

impl RingSpan {
    /// A header, and behind it data of an allowed capacity.
    pub open spec fn wf(self) -> bool {
        &&& valid_cap(self.cap as int)
        &&& self.data == self.hdr + RING_HDR_SIZE
        &&& self.data + self.cap <= 0x1_0000_0000
    }

    /// The ring lies in a segment of this layout.
    pub open spec fn within(self, l: Layout) -> bool {
        self.wf() && self.data + self.cap <= l.total
    }
}

impl Layout {
    /// Where the ring from the client to the server lies.
    pub open spec fn c2s_span(self) -> RingSpan {
        RingSpan { hdr: self.c2s_hdr, data: self.c2s_data, cap: self.c2s_cap }
    }

    /// Where the ring from the server to the client lies.
    pub open spec fn s2c_span(self) -> RingSpan {
        RingSpan { hdr: self.s2c_hdr, data: self.s2c_data, cap: self.s2c_cap }
    }

    /// The ring from the client to the server.
    pub fn c2s(&self) -> (r: RingSpan)
        requires
            self.wf(),
        ensures
            r.within(*self),
            r == (RingSpan { hdr: self.c2s_hdr, data: self.c2s_data, cap: self.c2s_cap }),
            r == self.c2s_span(),
    {
        proof {
            lemma_cap_bounds(self.c2s_cap as int);
            lemma_cap_bounds(self.s2c_cap as int);
        }
        RingSpan { hdr: self.c2s_hdr, data: self.c2s_data, cap: self.c2s_cap }
    }

    /// The ring from the server to the client.
    pub fn s2c(&self) -> (r: RingSpan)
        requires
            self.wf(),
        ensures
            r.within(*self),
            r == (RingSpan { hdr: self.s2c_hdr, data: self.s2c_data, cap: self.s2c_cap }),
            r == self.s2c_span(),
    {
        proof {
            lemma_cap_bounds(self.c2s_cap as int);
            lemma_cap_bounds(self.s2c_cap as int);
        }
        RingSpan { hdr: self.s2c_hdr, data: self.s2c_data, cap: self.s2c_cap }
    }
}

// ---------------------------------------------------------------------
// positions
// ---------------------------------------------------------------------

/// How far `to` is ahead of `from`, modulo 2^64.
pub open spec fn ahead(to: u64, from: u64) -> nat {
    if to >= from {
        (to - from) as nat
    } else {
        (to - from + 0x1_0000_0000_0000_0000) as nat
    }
}

/// The position `n` bytes behind `pos`, modulo 2^64.
pub open spec fn advance(pos: u64, n: nat) -> u64 {
    if pos + n <= u64::MAX {
        (pos + n) as u64
    } else {
        (pos + n - 0x1_0000_0000_0000_0000) as u64
    }
}

/// The room in a ring. Where the positions cannot be true the ring counts as
/// full.
pub open spec fn room(tail: u64, head: u64, cap: usize) -> nat {
    if ahead(tail, head) > cap {
        0
    } else {
        (cap - ahead(tail, head)) as nat
    }
}

/// The bytes that can be taken out of a ring: never more than it can hold.
pub open spec fn filled(tail: u64, head: u64, cap: usize) -> nat {
    if ahead(tail, head) > cap {
        cap as nat
    } else {
        ahead(tail, head)
    }
}

/// A run of bytes in a ring: it starts at an index into the data, and goes on
/// at the front of the data behind the first part.
#[derive(Debug, Clone, Copy, PartialEq, Eq, Structural)]
pub struct Chunk {
    /// Index of the first byte.
    pub index: usize,
    /// Length of the part before the wrap.
    pub first: usize,
    /// Length of the whole run.
    pub len: usize,
}

impl Chunk {
    /// Both parts of the run lie inside data of the given capacity.
    pub open spec fn inside(self, cap: usize) -> bool {
        &&& self.index < cap
        &&& self.first <= self.len <= cap
        &&& self.index + self.first <= cap
        &&& self.first < self.len ==> self.index + self.first == cap
        &&& self.len - self.first <= self.index
    }
}

/// The run of `len` bytes at a position.
pub open spec fn chunk_at(pos: u64, len: nat, cap: usize) -> Chunk {
    let index = pos as int % cap as int;
    Chunk {
        index: index as usize,
        first: (if len <= cap - index { len as int } else { cap - index }) as usize,
        len: len as usize,
    }
}

fn distance(to: u64, from: u64) -> (r: u64)
    ensures
        r == ahead(to, from),
{
    to.wrapping_sub(from)
}

fn make_chunk(pos: u64, len: usize, cap: usize) -> (r: Chunk)
    requires
        0 < cap,
        len <= cap,
    ensures
        r == chunk_at(pos, len as nat, cap),
        r.inside(cap),
{
    let index: usize = (pos % (cap as u64)) as usize;
    let first: usize = if len <= cap - index {
        len
    } else {
        cap - index
    };
    Chunk { index, first, len }
}

// ---------------------------------------------------------------------
// producer
// ---------------------------------------------------------------------

/// The producing side of a ring.
#[derive(Debug, Clone, Copy, PartialEq, Eq, Structural)]
pub struct Producer {
    pub span: RingSpan,
    /// Our own position; the one in the header mirrors it.
    pub tail: u64,
    /// The consumer's position as last seen.
    pub head_cache: u64,
}

impl Producer {
    /// A producer that starts from the positions found in the ring header.
    pub fn start(span: RingSpan, tail: u64, head: u64) -> (r: Self)
        ensures
            r == (Producer { span, tail, head_cache: head }),
    {
        Producer { span, tail, head_cache: head }
    }

    /// Takes a freshly loaded consumer position in and returns the room.
    pub fn observe(&mut self, head: u64) -> (r: usize)
        requires
            old(self).span.wf(),
        ensures
            *final(self) == (Producer { head_cache: head, ..*old(self) }),
            r == room(old(self).tail, head, old(self).span.cap),
            r <= old(self).span.cap,
    {
        self.head_cache = head;
        self.known_room()
    }

    fn known_room(&self) -> (r: usize)
        ensures
            r == room(self.tail, self.head_cache, self.span.cap),
            r <= self.span.cap,
    {
        let used: u64 = distance(self.tail, self.head_cache);
        if used > self.span.cap as u64 {
            0
        } else {
            self.span.cap - used as usize
        }
    }

    /// Whether the consumer's position must be loaded afresh before `len` bytes
    /// are pushed.
    pub fn must_refresh(&self, len: usize) -> (r: bool)
        ensures
            r == (room(self.tail, self.head_cache, self.span.cap) < len),
    {
        self.known_room() < len
    }

    /// Reserves as much of `len` bytes as fits, `fresh` being the consumer's
    /// position if it was loaded afresh. The run to write lies inside the ring
    /// whatever the peer has written; the tail to publish is then this
    /// producer's.
    pub fn reserve(&mut self, len: usize, fresh: Option<u64>) -> (r: Chunk)
        requires
            old(self).span.wf(),
        ensures
            r.inside(old(self).span.cap),
            ({
                let head = match fresh {
                    Some(h) => h,
                    None => old(self).head_cache,
                };
                let space = room(old(self).tail, head, old(self).span.cap);
                let n = if len <= space { len as nat } else { space };
                &&& r == chunk_at(old(self).tail, n, old(self).span.cap)
                &&& *final(self) == (Producer {
                    span: old(self).span,
                    tail: advance(old(self).tail, n),
                    head_cache: head,
                })
            }),
    {
        proof {
            lemma_cap_bounds(self.span.cap as int);
        }
        if let Some(h) = fresh {
            self.head_cache = h;
        }
        let space: usize = self.known_room();
        let n: usize = if len <= space {
            len
        } else {
            space
        };
        let chunk = make_chunk(self.tail, n, self.span.cap);
        self.tail = self.tail.wrapping_add(n as u64);
        chunk
    }
}

// ---------------------------------------------------------------------
// consumer
// ---------------------------------------------------------------------

/// The consuming side of a ring.
#[derive(Debug, Clone, Copy, PartialEq, Eq, Structural)]
pub struct Consumer {
    pub span: RingSpan,
    /// Our own position; the one in the header mirrors it.
    pub head: u64,
    /// The producer's position as last seen.
    pub tail_cache: u64,
}

impl Consumer {
    /// A consumer that starts from the positions found in the ring header.
    pub fn start(span: RingSpan, head: u64, tail: u64) -> (r: Self)
        ensures
            r == (Consumer { span, head, tail_cache: tail }),
    {
        Consumer { span, head, tail_cache: tail }
    }

    /// Takes a freshly loaded producer position in and returns how many bytes
    /// can be taken.
    pub fn observe(&mut self, tail: u64) -> (r: usize)
        requires
            old(self).span.wf(),
        ensures
            *final(self) == (Consumer { tail_cache: tail, ..*old(self) }),
            r == filled(tail, old(self).head, old(self).span.cap),
            r <= old(self).span.cap,
    {
        self.tail_cache = tail;
        self.known_filled()
    }

    fn known_filled(&self) -> (r: usize)
        ensures
            r == filled(self.tail_cache, self.head, self.span.cap),
            r <= self.span.cap,
    {
        let n: u64 = distance(self.tail_cache, self.head);
        if n > self.span.cap as u64 {
            self.span.cap
        } else {
            n as usize
        }
    }

    /// Whether the producer's position must be loaded afresh before bytes are
    /// popped: only when none are known of.
    pub fn must_refresh(&self) -> (r: bool)
        ensures
            r == (filled(self.tail_cache, self.head, self.span.cap) == 0),
    {
        self.known_filled() == 0
    }

    /// Takes at most `len` bytes, `fresh` being the producer's position if it
    /// was loaded afresh. The run to read lies inside the ring whatever the peer
    /// has written; the head to publish is then this consumer's.
    pub fn take(&mut self, len: usize, fresh: Option<u64>) -> (r: Chunk)
        requires
            old(self).span.wf(),
        ensures
            r.inside(old(self).span.cap),
            ({
                let tail = match fresh {
                    Some(t) => t,
                    None => old(self).tail_cache,
                };
                let avail = filled(tail, old(self).head, old(self).span.cap);
                let n = if len <= avail { len as nat } else { avail };
                &&& r == chunk_at(old(self).head, n, old(self).span.cap)
                &&& *final(self) == (Consumer {
                    span: old(self).span,
                    head: advance(old(self).head, n),
                    tail_cache: tail,
                })
            }),
    {
        proof {
            lemma_cap_bounds(self.span.cap as int);
        }
        if let Some(t) = fresh {
            self.tail_cache = t;
        }
        let avail: usize = self.known_filled();
        let n: usize = if len <= avail {
            len
        } else {
            avail
        };
        let chunk = make_chunk(self.head, n, self.span.cap);
        self.head = self.head.wrapping_add(n as u64);
        chunk
    }
}

// ---------------------------------------------------------------------
// rings in a memory image
// ---------------------------------------------------------------------

/// The consumer's position in the header of a ring.
pub open spec fn head_of(b: Seq<u8>, span: RingSpan) -> u64 {
    u64_at(b, span.hdr + OFF_HEAD)
}

/// The producer's position in the header of a ring.
pub open spec fn tail_of(b: Seq<u8>, span: RingSpan) -> u64 {
    u64_at(b, span.hdr + OFF_TAIL)
}

/// The consumer's parking flag in the header of a ring.
pub open spec fn consumer_flag(b: Seq<u8>, span: RingSpan) -> u32 {
    u32_at(b, span.hdr + OFF_CONSUMER_PARKED)
}

/// The producer's parking flag in the header of a ring.
pub open spec fn producer_flag(b: Seq<u8>, span: RingSpan) -> u32 {
    u32_at(b, span.hdr + OFF_PRODUCER_PARKED)
}

/// An image with another consumer position.
pub open spec fn with_head(b: Seq<u8>, span: RingSpan, v: u64) -> Seq<u8> {
    put_u64(b, span.hdr + OFF_HEAD, v)
}

/// An image with another producer position.
pub open spec fn with_tail(b: Seq<u8>, span: RingSpan, v: u64) -> Seq<u8> {
    put_u64(b, span.hdr + OFF_TAIL, v)
}

/// An image with another parking flag of the consumer.
pub open spec fn with_consumer_flag(b: Seq<u8>, span: RingSpan, v: u32) -> Seq<u8> {
    put_u32(b, span.hdr + OFF_CONSUMER_PARKED, v)
}

/// An image with another parking flag of the producer.
pub open spec fn with_producer_flag(b: Seq<u8>, span: RingSpan, v: u32) -> Seq<u8> {
    put_u32(b, span.hdr + OFF_PRODUCER_PARKED, v)
}

/// An image in which `s` was put into a ring at the producer's position and published.
pub open spec fn published(b: Seq<u8>, span: RingSpan, tail: u64, s: Seq<u8>) -> Seq<u8> {
    with_tail(write_ring(b, span, tail, s), span, advance(tail, s.len()))
}

/// An image in which the consumer gave `n` bytes of a ring free.
pub open spec fn released(b: Seq<u8>, span: RingSpan, head: u64, n: nat) -> Seq<u8> {
    with_head(b, span, advance(head, n))
}

/// An image in which the consumer is marked as parked.
pub open spec fn consumer_marked(b: Seq<u8>, span: RingSpan) -> Seq<u8> {
    with_consumer_flag(b, span, 1)
}

/// An image in which the producer is marked as parked.
pub open spec fn producer_marked(b: Seq<u8>, span: RingSpan) -> Seq<u8> {
    with_producer_flag(b, span, 1)
}

/// Whether a consumer at a position sees bytes.
pub open spec fn data_seen(b: Seq<u8>, span: RingSpan, head: u64) -> bool {
    filled(tail_of(b, span), head, span.cap) > 0
}

/// Whether a producer at a position sees room.
pub open spec fn space_seen(b: Seq<u8>, span: RingSpan, tail: u64) -> bool {
    room(tail, head_of(b, span), span.cap) > 0
}

/// The image after the consumer's flag was taken, and whether it was set.
pub open spec fn consumer_taken(b: Seq<u8>, span: RingSpan) -> (Seq<u8>, bool) {
    (with_consumer_flag(b, span, 0), consumer_flag(b, span) == 1)
}

/// The image after the producer's flag was taken, and whether it was set.
pub open spec fn producer_taken(b: Seq<u8>, span: RingSpan) -> (Seq<u8>, bool) {
    (with_producer_flag(b, span, 0), producer_flag(b, span) == 1)
}

/// The `n` bytes of a ring from a position on.
pub open spec fn ring_bytes(b: Seq<u8>, span: RingSpan, pos: u64, n: nat) -> Seq<u8> {
    Seq::new(n, |i: int| b[span.data + (pos + i) % (span.cap as int)])
}

/// How far an index into the data lies behind a position, going round.
pub open spec fn behind(x: int, pos: u64, cap: usize) -> int {
    (x - pos) % (cap as int)
}

/// An image in which `s` was written into a ring from a position on.
pub open spec fn write_ring(b: Seq<u8>, span: RingSpan, pos: u64, s: Seq<u8>) -> Seq<u8> {
    Seq::new(
        b.len(),
        |j: int|
            if span.data <= j < span.data + span.cap && behind(j - span.data, pos, span.cap)
                < s.len() {
                s[behind(j - span.data, pos, span.cap)]
            } else {
                b[j]
            },
    )
}

proof fn lemma_behind(x: int, pos: u64, cap: usize)
    requires
        0 <= x < cap,
    ensures
        behind(x, pos, cap) == if x >= pos as int % cap as int {
            x - pos as int % cap as int
        } else {
            x - pos as int % cap as int + cap
        },
{
    let c = cap as int;
    let r = pos as int % c;
    let q = pos as int / c;
    lemma_fundamental_div_mod(pos as int, c);
    let d = x - r;
    assert(x - pos == d - c * q);
    if d >= 0 {
        assert((-q) * c + d == x - pos) by (nonlinear_arith)
            requires
                x - pos == d - c * q,
        ;
        lemma_fundamental_div_mod_converse(x - pos, c, -q, d);
    } else {
        assert((-q - 1) * c + (d + c) == x - pos) by (nonlinear_arith)
            requires
                x - pos == d - c * q,
        ;
        lemma_fundamental_div_mod_converse(x - pos, c, -q - 1, d + c);
    }
}

/// Copies `src` into a ring, splitting at the wrap.
fn copy_in(seg: &mut Segment, span: RingSpan, pos: u64, chunk: Chunk, src: &[u8])
    requires
        old(seg).wf(),
        span.within(old(seg).layout),
        chunk == chunk_at(pos, chunk.len as nat, span.cap),
        chunk.inside(span.cap),
        chunk.len <= src@.len(),
    ensures
        final(seg).wf(),
        final(seg).layout == old(seg).layout,
        final(seg).bytes@ == write_ring(
            old(seg).bytes@,
            span,
            pos,
            src@.take(chunk.len as int),
        ),
{
    let a = slice_subrange(src, 0, chunk.first);
    let b = slice_subrange(src, chunk.first, chunk.len);
    store(&mut seg.bytes, span.data + chunk.index, a);
    store(&mut seg.bytes, span.data, b);
    proof {
        let old_b = old(seg).bytes@;
        let s = src@.take(chunk.len as int);
        assert forall|j: int| 0 <= j < old_b.len() implies seg.bytes@[j] == write_ring(
            old_b,
            span,
            pos,
            s,
        )[j] by {
            let x = j - span.data;
            if 0 <= x < span.cap {
                lemma_behind(x, pos, span.cap);
            }
        }
        assert(seg.bytes@ =~= write_ring(old_b, span, pos, s));
    }
}

/// Copies bytes out of a ring into the front of `dst`.
fn copy_out(seg: &Segment, span: RingSpan, pos: u64, chunk: Chunk, dst: &mut [u8])
    requires
        seg.wf(),
        span.within(seg.layout),
        chunk == chunk_at(pos, chunk.len as nat, span.cap),
        chunk.inside(span.cap),
        chunk.len <= old(dst)@.len(),
    ensures
        final(dst)@ == ring_bytes(seg.bytes@, span, pos, chunk.len as nat) + old(dst)@.skip(
            chunk.len as int,
        ),
{
    let ghost want = ring_bytes(seg.bytes@, span, pos, chunk.len as nat);
    let ghost before = dst@;
    let total: usize = seg.bytes.len();
    let mut i: usize = 0;
    while i < chunk.len
        invariant
            i <= chunk.len,
            total == seg.bytes@.len(),
            seg.wf(),
            span.within(seg.layout),
            chunk == chunk_at(pos, chunk.len as nat, span.cap),
            chunk.inside(span.cap),
            chunk.len <= dst@.len(),
            dst@.len() == before.len(),
            want == ring_bytes(seg.bytes@, span, pos, chunk.len as nat),
            dst@ == want.take(i as int) + before.skip(i as int),
        decreases chunk.len - i,
    {
        let at: usize = if i < chunk.first {
            chunk.index + i
        } else {
            i - chunk.first
        };
        proof {
            lemma_index(pos, i as int, span.cap);
        }
        dst[i] = seg.bytes[span.data + at];
        i += 1;
        assert(dst@ =~= want.take(i as int) + before.skip(i as int));
    }
    assert(want.take(chunk.len as int) =~= want);
}

proof fn lemma_index(pos: u64, i: int, cap: usize)
    requires
        0 <= i < cap,
    ensures
        (pos + i) % (cap as int) == if pos as int % cap as int + i < cap {
            pos as int % cap as int + i
        } else {
            pos as int % cap as int + i - cap
        },
{
    let c = cap as int;
    let q = pos as int / c;
    let r = pos as int % c;
    lemma_fundamental_div_mod(pos as int, c);
    if r + i < c {
        assert(q * c + (r + i) == pos + i) by (nonlinear_arith)
            requires
                pos == c * q + r,
        ;
        lemma_fundamental_div_mod_converse(pos + i, c, q, r + i);
    } else {
        assert((q + 1) * c + (r + i - c) == pos + i) by (nonlinear_arith)
            requires
                pos == c * q + r,
        ;
        lemma_fundamental_div_mod_converse(pos + i, c, q + 1, r + i - c);
    }
}

impl Producer {
    /// A producer on a ring of the segment.
    pub fn new(seg: &Segment, span: RingSpan) -> (r: Self)
        requires
            seg.wf(),
            span.within(seg.layout),
        ensures
            r == (Producer {
                span,
                tail: tail_of(seg.bytes@, span),
                head_cache: head_of(seg.bytes@, span),
            }),
    {
        Producer::start(span, seg.load_u64(span.hdr + OFF_TAIL), seg.load_u64(span.hdr + OFF_HEAD))
    }

    /// The bytes that can be pushed now, after looking at the consumer's
    /// position.
    pub fn free_space(&mut self, seg: &Segment) -> (r: usize)
        requires
            seg.wf(),
            old(self).span.within(seg.layout),
        ensures
            *final(self) == (Producer {
                head_cache: head_of(seg.bytes@, old(self).span),
                ..*old(self)
            }),
            r == room(old(self).tail, head_of(seg.bytes@, old(self).span), old(self).span.cap),
            r <= old(self).span.cap,
    {
        self.observe(seg.load_u64(self.span.hdr + OFF_HEAD))
    }

    /// Whether the consumer has taken everything that was pushed.
    pub fn is_drained(&mut self, seg: &Segment) -> (r: bool)
        requires
            seg.wf(),
            old(self).span.within(seg.layout),
        ensures
            *final(self) == (Producer {
                head_cache: head_of(seg.bytes@, old(self).span),
                ..*old(self)
            }),
            r == (old(self).tail == head_of(seg.bytes@, old(self).span)),
    {
        self.head_cache = seg.load_u64(self.span.hdr + OFF_HEAD);
        self.tail == self.head_cache
    }

    /// The consumer position by which a push of `len` bytes goes: the cached one
    /// where it leaves room enough, and else the one in the header.
    pub open spec fn push_head(self, b: Seq<u8>, len: nat) -> u64 {
        if room(self.tail, self.head_cache, self.span.cap) < len {
            head_of(b, self.span)
        } else {
            self.head_cache
        }
    }

    /// How many of `len` bytes a push takes.
    pub open spec fn push_len(self, b: Seq<u8>, len: nat) -> nat {
        let space = room(self.tail, self.push_head(b, len), self.span.cap);
        if len <= space {
            len
        } else {
            space
        }
    }

    /// Pushes as much of `src` as fits and publishes it; returns how much.
    pub fn push(&mut self, seg: &mut Segment, src: &[u8]) -> (r: usize)
        requires
            old(seg).wf(),
            old(self).span.within(old(seg).layout),
        ensures
            final(seg).wf(),
            final(seg).layout == old(seg).layout,
            r == old(self).push_len(old(seg).bytes@, src@.len()),
            r <= src@.len(),
            r > 0 ==> final(seg).bytes@ == published(
                old(seg).bytes@,
                old(self).span,
                old(self).tail,
                src@.take(r as int),
            ),
            r == 0 ==> final(seg).bytes@ == old(seg).bytes@,
            *final(self) == (Producer {
                span: old(self).span,
                tail: advance(old(self).tail, r as nat),
                head_cache: old(self).push_head(old(seg).bytes@, src@.len()),
            }),
            final(seg).bytes@ == if r == 0 {
                old(seg).bytes@
            } else {
                with_tail(
                    write_ring(
                        old(seg).bytes@,
                        old(self).span,
                        old(self).tail,
                        src@.take(r as int),
                    ),
                    old(self).span,
                    advance(old(self).tail, r as nat),
                )
            },
    {
        let fresh: Option<u64> = if self.must_refresh(src.len()) {
            Some(seg.load_u64(self.span.hdr + OFF_HEAD))
        } else {
            None
        };
        let pos: u64 = self.tail;
        let chunk = self.reserve(src.len(), fresh);
        if chunk.len == 0 {
            return 0;
        }
        copy_in(seg, self.span, pos, chunk, src);
        seg.write_u64(self.span.hdr + OFF_TAIL, self.tail);
        chunk.len
    }

    /// Marks the producer as parked and looks for room once more. Where there is
    /// some, the caller must not sleep.
    pub fn park_self(&mut self, seg: &mut Segment) -> (r: bool)
        requires
            old(seg).wf(),
            old(self).span.within(old(seg).layout),
        ensures
            final(seg).wf(),
            final(seg).layout == old(seg).layout,
            final(seg).bytes@ == with_producer_flag(old(seg).bytes@, old(self).span, 1),
            final(seg).bytes@ == producer_marked(old(seg).bytes@, old(self).span),
            r == space_seen(old(seg).bytes@, old(self).span, old(self).tail),
            *final(self) == (Producer {
                head_cache: head_of(old(seg).bytes@, old(self).span),
                ..*old(self)
            }),
            r == (room(old(self).tail, head_of(old(seg).bytes@, old(self).span), old(
                self,
            ).span.cap) > 0),
    {
        seg.write_u32(self.span.hdr + OFF_PRODUCER_PARKED, 1);
        proof {
            lemma_le_bytes_len(1, 4);
            lemma_beside(
                old(seg).bytes@,
                self.span.hdr + OFF_PRODUCER_PARKED,
                crate::le::le_bytes(1, 4),
                self.span.hdr + OFF_HEAD,
                self.span.hdr + OFF_HEAD + 8,
            );
        }
        self.free_space(seg) > 0
    }

    /// Clears the producer's parking flag.
    pub fn unpark_self(&self, seg: &mut Segment)
        requires
            old(seg).wf(),
            self.span.within(old(seg).layout),
        ensures
            final(seg).wf(),
            final(seg).layout == old(seg).layout,
            final(seg).bytes@ == with_producer_flag(old(seg).bytes@, self.span, 0),
    {
        seg.write_u32(self.span.hdr + OFF_PRODUCER_PARKED, 0);
    }

    /// Takes the consumer's parking flag; `true` means that it needs a doorbell.
    pub fn take_consumer_parked(&self, seg: &mut Segment) -> (r: bool)
        requires
            old(seg).wf(),
            self.span.within(old(seg).layout),
        ensures
            final(seg).wf(),
            final(seg).layout == old(seg).layout,
            r == (consumer_flag(old(seg).bytes@, self.span) == 1),
            (final(seg).bytes@, r) == consumer_taken(old(seg).bytes@, self.span),
            final(seg).bytes@ == with_consumer_flag(old(seg).bytes@, self.span, 0),
    {
        let flag: u32 = seg.load_u32(self.span.hdr + OFF_CONSUMER_PARKED);
        seg.write_u32(self.span.hdr + OFF_CONSUMER_PARKED, 0);
        flag == 1
    }
}

impl Consumer {
    /// A consumer on a ring of the segment.
    pub fn new(seg: &Segment, span: RingSpan) -> (r: Self)
        requires
            seg.wf(),
            span.within(seg.layout),
        ensures
            r == (Consumer {
                span,
                head: head_of(seg.bytes@, span),
                tail_cache: tail_of(seg.bytes@, span),
            }),
    {
        Consumer::start(span, seg.load_u64(span.hdr + OFF_HEAD), seg.load_u64(span.hdr + OFF_TAIL))
    }

    /// The bytes that can be popped now, after looking at the producer's
    /// position.
    pub fn available(&mut self, seg: &Segment) -> (r: usize)
        requires
            seg.wf(),
            old(self).span.within(seg.layout),
        ensures
            *final(self) == (Consumer {
                tail_cache: tail_of(seg.bytes@, old(self).span),
                ..*old(self)
            }),
            r == filled(tail_of(seg.bytes@, old(self).span), old(self).head, old(self).span.cap),
            r <= old(self).span.cap,
    {
        self.observe(seg.load_u64(self.span.hdr + OFF_TAIL))
    }

    /// The producer position by which a pop goes: the cached one where it leaves
    /// something to take, and else the one in the header.
    pub open spec fn pop_tail(self, b: Seq<u8>) -> u64 {
        if filled(self.tail_cache, self.head, self.span.cap) == 0 {
            tail_of(b, self.span)
        } else {
            self.tail_cache
        }
    }

    /// How many bytes a pop of at most `len` gives.
    pub open spec fn pop_len(self, b: Seq<u8>, len: nat) -> nat {
        let avail = filled(self.pop_tail(b), self.head, self.span.cap);
        if len <= avail {
            len
        } else {
            avail
        }
    }

    /// Pops at most `dst.len()` bytes into the front of `dst` and releases their
    /// space; returns how many.
    pub fn pop(&mut self, seg: &mut Segment, dst: &mut [u8]) -> (r: usize)
        requires
            old(seg).wf(),
            old(self).span.within(old(seg).layout),
        ensures
            final(seg).wf(),
            final(seg).layout == old(seg).layout,
            r == old(self).pop_len(old(seg).bytes@, old(dst)@.len()),
            r <= old(dst)@.len(),
            r > 0 ==> final(seg).bytes@ == released(
                old(seg).bytes@,
                old(self).span,
                old(self).head,
                r as nat,
            ),
            r == 0 ==> final(seg).bytes@ == old(seg).bytes@,
            final(dst)@ == ring_bytes(old(seg).bytes@, old(self).span, old(self).head, r as nat)
                + old(dst)@.skip(r as int),
            *final(self) == (Consumer {
                span: old(self).span,
                head: advance(old(self).head, r as nat),
                tail_cache: old(self).pop_tail(old(seg).bytes@),
            }),
            final(seg).bytes@ == if r == 0 {
                old(seg).bytes@
            } else {
                with_head(old(seg).bytes@, old(self).span, advance(old(self).head, r as nat))
            },
    {
        let fresh: Option<u64> = if self.must_refresh() {
            Some(seg.load_u64(self.span.hdr + OFF_TAIL))
        } else {
            None
        };
        let pos: u64 = self.head;
        let chunk = self.take(dst.len(), fresh);
        if chunk.len == 0 {
            assert(dst@ =~= ring_bytes(seg.bytes@, self.span, pos, 0) + dst@.skip(0));
            return 0;
        }
        copy_out(seg, self.span, pos, chunk, dst);
        seg.write_u64(self.span.hdr + OFF_HEAD, self.head);
        chunk.len
    }

    /// Marks the consumer as parked and looks for bytes once more. Where there
    /// are some, the caller must not sleep.
    pub fn park_self(&mut self, seg: &mut Segment) -> (r: bool)
        requires
            old(seg).wf(),
            old(self).span.within(old(seg).layout),
        ensures
            final(seg).wf(),
            final(seg).layout == old(seg).layout,
            final(seg).bytes@ == with_consumer_flag(old(seg).bytes@, old(self).span, 1),
            final(seg).bytes@ == consumer_marked(old(seg).bytes@, old(self).span),
            r == data_seen(old(seg).bytes@, old(self).span, old(self).head),
            *final(self) == (Consumer {
                tail_cache: tail_of(old(seg).bytes@, old(self).span),
                ..*old(self)
            }),
            r == (filled(tail_of(old(seg).bytes@, old(self).span), old(self).head, old(
                self,
            ).span.cap) > 0),
    {
        seg.write_u32(self.span.hdr + OFF_CONSUMER_PARKED, 1);
        proof {
            lemma_le_bytes_len(1, 4);
            lemma_beside(
                old(seg).bytes@,
                self.span.hdr + OFF_CONSUMER_PARKED,
                crate::le::le_bytes(1, 4),
                self.span.hdr + OFF_TAIL,
                self.span.hdr + OFF_TAIL + 8,
            );
        }
        self.available(seg) > 0
    }

    /// Clears the consumer's parking flag.
    pub fn unpark_self(&self, seg: &mut Segment)
        requires
            old(seg).wf(),
            self.span.within(old(seg).layout),
        ensures
            final(seg).wf(),
            final(seg).layout == old(seg).layout,
            final(seg).bytes@ == with_consumer_flag(old(seg).bytes@, self.span, 0),
    {
        seg.write_u32(self.span.hdr + OFF_CONSUMER_PARKED, 0);
    }

    /// Takes the producer's parking flag; `true` means that it needs a doorbell.
    pub fn take_producer_parked(&self, seg: &mut Segment) -> (r: bool)
        requires
            old(seg).wf(),
            self.span.within(old(seg).layout),
        ensures
            final(seg).wf(),
            final(seg).layout == old(seg).layout,
            r == (producer_flag(old(seg).bytes@, self.span) == 1),
            (final(seg).bytes@, r) == producer_taken(old(seg).bytes@, self.span),
            final(seg).bytes@ == with_producer_flag(old(seg).bytes@, self.span, 0),
    {
        let flag: u32 = seg.load_u32(self.span.hdr + OFF_PRODUCER_PARKED);
        seg.write_u32(self.span.hdr + OFF_PRODUCER_PARKED, 0);
        flag == 1
    }
}

// ---------------------------------------------------------------------
// a ring is a pipe
// ---------------------------------------------------------------------

/// The bytes that a ring holds: those from the consumer's position to the
/// producer's.
pub open spec fn contents(b: Seq<u8>, span: RingSpan) -> Seq<u8> {
    ring_bytes(b, span, head_of(b, span), ahead(tail_of(b, span), head_of(b, span)))
}

/// The image holds the whole ring, and its positions are no further apart than
/// the capacity.
pub open spec fn ring_ok(b: Seq<u8>, span: RingSpan) -> bool {
    &&& span.wf()
    &&& span.data + span.cap <= b.len()
    &&& ahead(tail_of(b, span), head_of(b, span)) <= span.cap
}

/// An allowed capacity divides 2^64.
proof fn lemma_cap_divides(cap: int) -> (m: int)
    requires
        valid_cap(cap),
    ensures
        cap > 0,
        cap * m == 0x1_0000_0000_0000_0000,
{
    let k = choose|k: nat| 12 <= k <= 30 && cap == #[trigger] pow2(k);
    lemma_cap_bounds(cap);
    vstd::arithmetic::power2::lemma2_to64();
    vstd::arithmetic::power2::lemma2_to64_rest();
    vstd::arithmetic::power2::lemma_pow2_adds(k, (64 - k) as nat);
    pow2((64 - k) as nat) as int
}

/// Going round the positions does not move a byte.
proof fn lemma_advance_mod(pos: u64, n: nat, i: int, cap: int)
    requires
        valid_cap(cap),
        n <= u64::MAX,
    ensures
        (advance(pos, n) + i) % cap == (pos + n + i) % cap,
{
    let m = lemma_cap_divides(cap);
    if pos + n > u64::MAX {
        let x = advance(pos, n) + i;
        lemma_mod_multiples_vanish(m, x, cap);
        assert(cap * m + x == pos + n + i);
    }
}

/// How far a byte of the ring lies behind the tail.
proof fn lemma_behind_tail(head: u64, tail: u64, i: int, cap: usize)
    requires
        valid_cap(cap as int),
        ahead(tail, head) <= cap,
    ensures
        behind((head + i) % (cap as int), tail, cap) == (i - ahead(tail, head)) % (cap as int),
{
    let c = cap as int;
    let m = lemma_cap_divides(c);
    let used = ahead(tail, head) as int;
    lemma_sub_mod_noop((head + i) % c, tail as int, c);
    lemma_sub_mod_noop(head + i, tail as int, c);
    vstd::arithmetic::div_mod::lemma_mod_twice(head + i, c);
    assert(((head + i) % c - tail) % c == (head + i - tail) % c);
    if tail < head {
        lemma_mod_multiples_vanish(m, i - used, c);
        assert(c * m + (i - used) == head + i - tail);
    }
}

/// Pushed bytes stand behind those that the ring already holds, and nothing of
/// the ring but its tail changes otherwise.
pub proof fn law_push_appends(b: Seq<u8>, span: RingSpan, s: Seq<u8>)
    requires
        ring_ok(b, span),
        s.len() <= room(tail_of(b, span), head_of(b, span), span.cap),
    ensures
        ({
            let tail = tail_of(b, span);
            let after = with_tail(write_ring(b, span, tail, s), span, advance(tail, s.len()));
            &&& ring_ok(after, span)
            &&& contents(after, span) == contents(b, span) + s
            &&& head_of(after, span) == head_of(b, span)
            &&& tail_of(after, span) == advance(tail, s.len())
            &&& consumer_flag(after, span) == consumer_flag(b, span)
            &&& producer_flag(after, span) == producer_flag(b, span)
        }),
{
    let head = head_of(b, span);
    let tail = tail_of(b, span);
    let used = ahead(tail, head);
    let next = advance(tail, s.len());
    let mid = write_ring(b, span, tail, s);
    let after = with_tail(mid, span, next);
    let h = span.hdr as int;
    lemma_cap_bounds(span.cap as int);
    lemma_le_bytes_len(next as nat, 8);
    lemma_read_back(mid, h + OFF_TAIL, next, 0);
    lemma_header_kept(b, mid, span);
    let w = crate::le::le_bytes(next as nat, 8);
    lemma_beside(mid, h + OFF_TAIL, w, h + OFF_HEAD, h + OFF_HEAD + 8);
    lemma_beside(mid, h + OFF_TAIL, w, h + OFF_CONSUMER_PARKED, h + OFF_CONSUMER_PARKED + 4);
    lemma_beside(mid, h + OFF_TAIL, w, h + OFF_PRODUCER_PARKED, h + OFF_PRODUCER_PARKED + 4);
    assert(ahead(next, head) == used + s.len());
    let c = span.cap as int;
    let was = contents(b, span) + s;
    let now = contents(after, span);
    assert forall|i: int| 0 <= i < used + s.len() implies now[i] == was[i] by {
        let x = (head + i) % c;
        assert(0 <= x < c);
        lemma_behind_tail(head, tail, i, span.cap);
        if i < used {
            lemma_mod_multiples_vanish(1, i - used, c);
            assert(0 <= c + (i - used) < c);
            vstd::arithmetic::div_mod::lemma_small_mod((c + (i - used)) as nat, c as nat);
            assert(behind(x, tail, span.cap) == c + i - used);
        } else {
            vstd::arithmetic::div_mod::lemma_small_mod((i - used) as nat, c as nat);
            assert(behind(x, tail, span.cap) == i - used);
        }
        assert(after[span.data + x] == mid[span.data + x]);
    }
    assert(now =~= was);
}

/// A push leaves the consumer's position in the header as it is.
pub proof fn lemma_push_keeps_head(b: Seq<u8>, span: RingSpan, pos: u64, s: Seq<u8>, next: u64)
    requires
        span.wf(),
        span.data + span.cap <= b.len(),
    ensures
        head_of(with_tail(write_ring(b, span, pos, s), span, next), span) == head_of(b, span),
{
    let mid = write_ring(b, span, pos, s);
    let h = span.hdr as int;
    lemma_cap_bounds(span.cap as int);
    lemma_le_bytes_len(next as nat, 8);
    lemma_header_kept(b, mid, span);
    let w = crate::le::le_bytes(next as nat, 8);
    lemma_beside(mid, h + OFF_TAIL, w, h + OFF_HEAD, h + OFF_HEAD + 8);
}

/// A push that did not take everything leaves no room.
pub proof fn lemma_short_push_fills(p: Producer, b: Seq<u8>, len: nat)
    requires
        p.span.wf(),
        p.push_len(b, len) < len,
    ensures
        p.push_head(b, len) == head_of(b, p.span),
        room(advance(p.tail, p.push_len(b, len)), head_of(b, p.span), p.span.cap) == 0,
{
    lemma_cap_bounds(p.span.cap as int);
}

/// Writing into the data of a ring leaves its header alone.
proof fn lemma_header_kept(b: Seq<u8>, mid: Seq<u8>, span: RingSpan)
    requires
        span.wf(),
        span.data + span.cap <= b.len(),
        mid.len() == b.len(),
        forall|j: int| 0 <= j < span.data ==> mid[j] == b[j],
    ensures
        head_of(mid, span) == head_of(b, span),
        tail_of(mid, span) == tail_of(b, span),
        consumer_flag(mid, span) == consumer_flag(b, span),
        producer_flag(mid, span) == producer_flag(b, span),
{
    let h = span.hdr as int;
    assert(mid.subrange(h + OFF_HEAD, h + OFF_HEAD + 8) =~= b.subrange(
        h + OFF_HEAD,
        h + OFF_HEAD + 8,
    ));
    assert(mid.subrange(h + OFF_TAIL, h + OFF_TAIL + 8) =~= b.subrange(
        h + OFF_TAIL,
        h + OFF_TAIL + 8,
    ));
    assert(mid.subrange(h + OFF_CONSUMER_PARKED, h + OFF_CONSUMER_PARKED + 4) =~= b.subrange(
        h + OFF_CONSUMER_PARKED,
        h + OFF_CONSUMER_PARKED + 4,
    ));
    assert(mid.subrange(h + OFF_PRODUCER_PARKED, h + OFF_PRODUCER_PARKED + 4) =~= b.subrange(
        h + OFF_PRODUCER_PARKED,
        h + OFF_PRODUCER_PARKED + 4,
    ));
}

/// Popped bytes are the oldest ones that the ring holds, and the others stay.
pub proof fn law_pop_removes(b: Seq<u8>, span: RingSpan, n: nat)
    requires
        ring_ok(b, span),
        n <= filled(tail_of(b, span), head_of(b, span), span.cap),
    ensures
        ({
            let head = head_of(b, span);
            let after = with_head(b, span, advance(head, n));
            &&& ring_ok(after, span)
            &&& ring_bytes(b, span, head, n) == contents(b, span).take(n as int)
            &&& contents(after, span) == contents(b, span).skip(n as int)
            &&& head_of(after, span) == advance(head, n)
            &&& tail_of(after, span) == tail_of(b, span)
            &&& consumer_flag(after, span) == consumer_flag(b, span)
            &&& producer_flag(after, span) == producer_flag(b, span)
        }),
{
    let head = head_of(b, span);
    let tail = tail_of(b, span);
    let used = ahead(tail, head);
    let next = advance(head, n);
    let after = with_head(b, span, next);
    let h = span.hdr as int;
    lemma_cap_bounds(span.cap as int);
    lemma_le_bytes_len(next as nat, 8);
    lemma_read_back(b, h + OFF_HEAD, next, 0);
    let w = crate::le::le_bytes(next as nat, 8);
    lemma_beside(b, h + OFF_HEAD, w, h + OFF_TAIL, h + OFF_TAIL + 8);
    lemma_beside(b, h + OFF_HEAD, w, h + OFF_CONSUMER_PARKED, h + OFF_CONSUMER_PARKED + 4);
    lemma_beside(b, h + OFF_HEAD, w, h + OFF_PRODUCER_PARKED, h + OFF_PRODUCER_PARKED + 4);
    assert(ahead(tail, next) == used - n);
    assert(ring_bytes(b, span, head, n) =~= contents(b, span).take(n as int));
    let c = span.cap as int;
    let was = contents(b, span).skip(n as int);
    let now = contents(after, span);
    assert forall|i: int| 0 <= i < used - n implies now[i] == was[i] by {
        lemma_advance_mod(head, n, i, c);
        let x = (next + i) % c;
        assert(0 <= x < c);
        assert(after[span.data + x] == b[span.data + x]);
    }
    assert(now =~= was);
}

/// A position that the other side has meanwhile left is safe to go by: a stale
/// head never shows more room than there is, and a stale tail never more bytes.
pub proof fn law_stale_positions_are_safe(tail: u64, head: u64, stale: u64, cap: usize)
    requires
        ahead(tail, head) <= cap,
    ensures
        ahead(tail, head) <= ahead(tail, stale) ==> room(tail, stale, cap) <= room(
            tail,
            head,
            cap,
        ),
        ahead(stale, head) <= ahead(tail, head) ==> filled(stale, head, cap) <= filled(
            tail,
            head,
            cap,
        ),
{
}

/// Operations on a ring change nothing outside of it.
pub proof fn law_operations_stay_inside(
    b: Seq<u8>,
    span: RingSpan,
    pos: u64,
    s: Seq<u8>,
    v: u64,
    flag: u32,
    j: int,
)
    requires
        span.wf(),
        0 <= j < b.len(),
        j < span.hdr || span.data + span.cap <= j,
    ensures
        with_tail(write_ring(b, span, pos, s), span, v)[j] == b[j],
        with_head(b, span, v)[j] == b[j],
        with_consumer_flag(b, span, flag)[j] == b[j],
        with_producer_flag(b, span, flag)[j] == b[j],
{
    lemma_le_bytes_len(v as nat, 8);
    lemma_le_bytes_len(flag as nat, 4);
}

/// The two rings of a segment and its header do not overlap, and both ring
/// headers are aligned.
pub proof fn law_rings_are_apart(l: Layout, c2s: RingSpan, s2c: RingSpan)
    requires
        l.wf(),
        c2s == (RingSpan { hdr: l.c2s_hdr, data: l.c2s_data, cap: l.c2s_cap }),
        s2c == (RingSpan { hdr: l.s2c_hdr, data: l.s2c_data, cap: l.s2c_cap }),
    ensures
        crate::seg::SEG_HDR_SIZE <= c2s.hdr,
        c2s.hdr + RING_HDR_SIZE <= c2s.data,
        c2s.data + c2s.cap <= s2c.hdr,
        s2c.hdr + RING_HDR_SIZE <= s2c.data,
        s2c.data + s2c.cap <= l.total,
        c2s.hdr % 64 == 0,
        s2c.hdr % 64 == 0,
{
    lemma_cap_aligned(l.c2s_cap as int);
}

proof fn lemma_cap_aligned(cap: int)
    requires
        valid_cap(cap),
    ensures
        cap % 64 == 0,
{
    let k = choose|k: nat| 12 <= k <= 30 && cap == #[trigger] pow2(k);
    let j = (k - 6) as nat;
    vstd::arithmetic::power2::lemma2_to64();
    vstd::arithmetic::power2::lemma_pow2_adds(j, 6);
    let p = pow2(j) as int;
    assert(cap == 64 * p);
    lemma_mod_multiples_vanish(p, 0, 64);
}

// ---------------------------------------------------------------------
// positions and room
// ---------------------------------------------------------------------

/// Positions are counted modulo 2^64: going on by a number of bytes and looking how far one
/// has come undo each other, also across the end of the range.
pub proof fn law_positions_go_round(pos: u64, n: u64)
    ensures
        ahead(advance(pos, n as nat), pos) == n,
        pos + n <= u64::MAX ==> advance(pos, n as nat) == pos + n,
        pos + n > u64::MAX ==> advance(pos, n as nat) == pos + n - 18446744073709551616,
        advance(n, ahead(pos, n)) == pos,
        ahead(pos, n) == if pos >= n {
            pos - n
        } else {
            pos - n + 18446744073709551616
        },
{
}

/// Room and content make up the capacity together. Positions further apart than the
/// capacity cannot be true: then nothing more goes in, and no more than the capacity comes
/// out.
pub proof fn law_room_and_content(tail: u64, head: u64, cap: usize)
    ensures
        ahead(tail, head) <= cap ==> filled(tail, head, cap) == ahead(tail, head),
        ahead(tail, head) <= cap ==> room(tail, head, cap) + ahead(tail, head) == cap,
        ahead(tail, head) > cap ==> room(tail, head, cap) == 0,
        ahead(tail, head) > cap ==> filled(tail, head, cap) == cap,
{
}

/// A run of bytes starts where its position falls in the ring, goes to the end of the data
/// at most, and on from its front.
pub proof fn law_runs_wrap_at_the_end(pos: u64, len: nat, cap: usize)
    requires
        0 < cap,
        len <= cap,
    ensures
        ({
            let c = chunk_at(pos, len, cap);
            let index = pos as int % cap as int;
            &&& c.index == index
            &&& c.len == len
            &&& index + len <= cap ==> c.first == len
            &&& index + len > cap ==> c.first == cap - index
        }),
{
    vstd::arithmetic::div_mod::lemma_mod_bound(pos as int, cap as int);
}

/// A push takes everything where the room that is known suffices, and else as much as the
/// consumer's own position leaves room for.
pub proof fn law_push_takes_what_fits(p: Producer, b: Seq<u8>, len: nat)
    ensures
        ({
            let cap = p.span.cap;
            let known = ahead(p.tail, p.head_cache);
            let true_used = ahead(p.tail, head_of(b, p.span));
            let n = p.push_len(b, len);
            &&& known + len <= cap ==> n == len
            &&& len > 0 && known + len > cap && true_used + len <= cap ==> n == len
            &&& len > 0 && known + len > cap && true_used + len > cap && true_used <= cap ==> n
                == cap - true_used
            &&& len > 0 && known + len > cap && true_used > cap ==> n == 0
            &&& n <= len
        }),
{
}

/// A pop gives what is known to be there, as far as it is asked for, and looks at the
/// producer's own position only where nothing is known to be there.
pub proof fn law_pop_gives_what_is_there(c: Consumer, b: Seq<u8>, len: nat)
    requires
        c.span.cap > 0,
    ensures
        ({
            let cap = c.span.cap;
            let known = ahead(c.tail_cache, c.head);
            let there = if known > 0 {
                known
            } else {
                ahead(tail_of(b, c.span), c.head)
            };
            let n = c.pop_len(b, len);
            &&& n <= len
            &&& n <= cap
            &&& len <= there && len <= cap ==> n == len
            &&& there < len && there <= cap ==> n == there
            &&& there > cap && len > cap ==> n == cap
        }),
{
}

/// Where the positions and flags stand in a ring header: the consumer's on the first cache
/// line, the producer's on the second.
pub proof fn law_where_positions_stand(b: Seq<u8>, span: RingSpan, v: u64, flag: u32)
    ensures
        head_of(b, span) == u64_at(b, span.hdr as int),
        consumer_flag(b, span) == u32_at(b, span.hdr + 8),
        tail_of(b, span) == u64_at(b, span.hdr + 64),
        producer_flag(b, span) == u32_at(b, span.hdr + 72),
        RING_HDR_SIZE == 128,
        with_head(b, span, v) == put_u64(b, span.hdr as int, v),
        with_consumer_flag(b, span, flag) == put_u32(b, span.hdr + 8, flag),
        with_tail(b, span, v) == put_u64(b, span.hdr + 64, v),
        with_producer_flag(b, span, flag) == put_u32(b, span.hdr + 72, flag),
{
}

/// A byte of a ring stands at its position modulo the capacity; a write puts each byte
/// there, and nowhere else.
pub proof fn law_bytes_stand_at_their_positions(
    b: Seq<u8>,
    span: RingSpan,
    pos: u64,
    s: Seq<u8>,
    i: int,
)
    requires
        span.wf(),
        span.data + span.cap <= b.len(),
        0 <= i < s.len() <= span.cap,
    ensures
        ring_bytes(b, span, pos, s.len()).len() == s.len(),
        ring_bytes(b, span, pos, s.len())[i] == b[span.data + (pos + i) % (span.cap as int)],
        write_ring(b, span, pos, s).len() == b.len(),
        ring_bytes(write_ring(b, span, pos, s), span, pos, s.len())[i] == s[i],
{
    let c = span.cap as int;
    lemma_cap_bounds(c);
    let x = (pos + i) % c;
    lemma_sub_mod_noop(pos + i, pos as int, c);
    lemma_sub_mod_noop((pos + i) % c, pos as int, c);
    vstd::arithmetic::div_mod::lemma_mod_twice(pos + i, c);
    vstd::arithmetic::div_mod::lemma_mod_bound(pos + i, c);
    vstd::arithmetic::div_mod::lemma_small_mod(i as nat, c as nat);
    assert(behind(x, pos, span.cap) == i);
}

/// Where the two rings lie: the one from the client to the server first, behind the header
/// of the segment, and the other behind it.
pub proof fn law_where_the_rings_lie(l: Layout)
    requires
        l.wf(),
    ensures
        l.c2s_span().hdr == 64,
        l.c2s_span().data == 192,
        l.c2s_span().cap == l.c2s_cap,
        l.s2c_span().hdr == 192 + l.c2s_cap,
        l.s2c_span().data == 320 + l.c2s_cap,
        l.s2c_span().cap == l.s2c_cap,
{
}

} // verus!
