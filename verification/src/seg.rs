//! The shared segment: its layout and its identifying header.
//!
//! ```text
//! offset 0                segment header (64 bytes)
//! offset 64               client-to-server ring header (128 bytes)
//! offset 192              client-to-server ring data (c2s_cap bytes)
//! offset 192 + c2s_cap    server-to-client ring header (128 bytes)
//! offset 320 + c2s_cap    server-to-client ring data (s2c_cap bytes)
//! ```
//!
//! Ring capacities are powers of two of at least one page, so every header is
//! 64-byte aligned.

use vstd::prelude::*;
use vstd::string::StringExecFns;

use crate::error::{ErrorKind, IoError};
use crate::image::store;
use crate::le::{read_u32, read_u64, u32_bytes, u64_bytes};
use crate::text::{decimal_text, with_number};

verus! {

use crate::image::{put_u32, put_u64, splice, u32_at, u64_at};
use crate::le::{le_bytes, lemma_le_bytes_len, lemma_pow256, lemma_value_of_bytes};
use crate::text::decimal;
use vstd::arithmetic::power2::pow2;

/// Identifies a segment: `SHMSC1` and two zero bytes, read little-endian.
pub const MAGIC: u64 = 0x0000_3143_534d_4853;

/// Protocol version spoken over the segment.
pub const VERSION: u32 = 1;

/// Size of the segment header at offset 0.
pub const SEG_HDR_SIZE: usize = 64;

/// Size of one ring header.
pub const RING_HDR_SIZE: usize = 128;

/// Smallest ring capacity: one page.
pub const MIN_RING_CAP: usize = 4096;

/// Largest ring capacity. A bound keeps a corrupt hello from asking for an
/// absurd mapping.
pub const MAX_RING_CAP: usize = 0x4000_0000;

/// A ring capacity that is allowed: a power of two from 4 KiB to 1 GiB.
pub open spec fn valid_cap(cap: int) -> bool {
    exists|k: nat| 12 <= k <= 30 && cap == #[trigger] pow2(k)
}

/// Byte offsets of the parts of a segment.
#[derive(Debug, Clone, Copy, PartialEq, Eq, Structural)]
pub struct Layout {
    pub c2s_hdr: usize,
    pub c2s_data: usize,
    pub c2s_cap: usize,
    pub s2c_hdr: usize,
    pub s2c_data: usize,
    pub s2c_cap: usize,
    pub total: usize,
}

impl Layout {
    /// The parts follow each other as described above, with allowed capacities.
    pub open spec fn wf(self) -> bool {
        &&& valid_cap(self.c2s_cap as int)
        &&& valid_cap(self.s2c_cap as int)
        &&& self.c2s_hdr == SEG_HDR_SIZE
        &&& self.c2s_data == self.c2s_hdr + RING_HDR_SIZE
        &&& self.s2c_hdr == self.c2s_data + self.c2s_cap
        &&& self.s2c_data == self.s2c_hdr + RING_HDR_SIZE
        &&& self.total == self.s2c_data + self.s2c_cap
    }

    /// Lays a segment out for the given ring capacities, after checking them.
    pub fn new(c2s_cap: usize, s2c_cap: usize) -> (r: Result<Self, IoError>)
        ensures
            match r {
                Ok(l) => l.wf() && l.c2s_cap == c2s_cap && l.s2c_cap == s2c_cap,
                Err(e) => {
                    let bad = if valid_cap(c2s_cap as int) { s2c_cap } else { c2s_cap };
                    &&& !valid_cap(bad as int)
                    &&& e@ == (
                        ErrorKind::InvalidInput,
                        "shmsc: invalid ring capacity "@ + decimal(bad as nat) + ""@,
                    )
                },
            },
    {
        if !cap_allowed(c2s_cap) {
            return Err(bad_capacity(c2s_cap as u64));
        }
        if !cap_allowed(s2c_cap) {
            return Err(bad_capacity(s2c_cap as u64));
        }
        proof {
            lemma_cap_bounds(c2s_cap as int);
            lemma_cap_bounds(s2c_cap as int);
        }
        let c2s_hdr: usize = SEG_HDR_SIZE;
        let c2s_data: usize = c2s_hdr + RING_HDR_SIZE;
        let s2c_hdr: usize = c2s_data + c2s_cap;
        let s2c_data: usize = s2c_hdr + RING_HDR_SIZE;
        let total: usize = s2c_data + s2c_cap;
        Ok(Layout { c2s_hdr, c2s_data, c2s_cap, s2c_hdr, s2c_data, s2c_cap, total })
    }
}

/// The error for a capacity that is not allowed.
pub fn bad_capacity(cap: u64) -> (r: IoError)
    ensures
        r@ == (
            ErrorKind::InvalidInput,
            "shmsc: invalid ring capacity "@ + decimal(cap as nat) + ""@,
        ),
{
    IoError {
        kind: ErrorKind::InvalidInput,
        message: with_number("shmsc: invalid ring capacity ", cap, ""),
    }
}

/// An allowed capacity lies between the two bounds.
pub proof fn lemma_cap_bounds(cap: int)
    requires
        valid_cap(cap),
    ensures
        MIN_RING_CAP <= cap <= MAX_RING_CAP,
{
    let k = choose|k: nat| 12 <= k <= 30 && cap == #[trigger] pow2(k);
    vstd::arithmetic::power2::lemma2_to64();
    lemma_pow2_monotone(12, k);
    lemma_pow2_monotone(k, 30);
}

proof fn lemma_pow2_monotone(a: nat, b: nat)
    requires
        a <= b,
    ensures
        pow2(a) <= pow2(b),
{
    if a < b {
        vstd::arithmetic::power2::lemma_pow2_strictly_increases(a, b);
    }
}

/// Whether `cap` is a power of two within the bounds.
pub fn cap_allowed(cap: usize) -> (r: bool)
    ensures
        r == valid_cap(cap as int),
{
    if cap < MIN_RING_CAP || cap > MAX_RING_CAP {
        proof {
            if valid_cap(cap as int) {
                lemma_cap_bounds(cap as int);
            }
        }
        return false;
    }
    proof {
        vstd::arithmetic::power2::lemma2_to64();
    }
    let mut p: usize = MIN_RING_CAP;
    let ghost mut k: nat = 12;
    while p < cap
        invariant
            12 <= k <= 30,
            p == pow2(k),
            MIN_RING_CAP <= cap <= MAX_RING_CAP,
            pow2(30) == MAX_RING_CAP,
            forall|j: nat| 12 <= j < k ==> #[trigger] pow2(j) < cap,
        decreases 30 - k,
    {
        proof {
            if k == 30 {
                assert(false);
            }
            vstd::arithmetic::power2::lemma_pow2_unfold(k + 1);
            lemma_pow2_monotone(k + 1, 30);
        }
        p = p * 2;
        proof {
            k = k + 1;
        }
    }
    proof {
        if valid_cap(cap as int) && p != cap {
            let j = choose|j: nat| 12 <= j <= 30 && cap == #[trigger] pow2(j);
            lemma_pow2_monotone(k, if j >= k { j } else { k });
        }
    }
    p == cap
}

/// The identifying header of a segment: magic, version, flags, capacities.
pub open spec fn stamp(l: Layout) -> Seq<u8> {
    le_bytes(MAGIC as nat, 8) + le_bytes(VERSION as nat, 4) + le_bytes(0, 4) + le_bytes(
        l.c2s_cap as nat,
        8,
    ) + le_bytes(l.s2c_cap as nat, 8)
}

/// Size of the identifying header.
pub const STAMP_SIZE: usize = 32;

/// What is wrong with the header of a mapping for the layout `l`, if anything.
pub open spec fn stamp_error(h: Seq<u8>, l: Layout) -> Option<(ErrorKind, Seq<char>)> {
    if u64_at(h, 0) != MAGIC || u32_at(h, 8) != VERSION {
        Some((ErrorKind::InvalidData, "shmsc: segment header mismatch (magic/version)"@))
    } else if u64_at(h, 16) != l.c2s_cap || u64_at(h, 24) != l.s2c_cap {
        Some((ErrorKind::InvalidData, "shmsc: segment ring capacities disagree with hello"@))
    } else {
        None
    }
}

/// The identifying header for a fresh segment.
pub fn stamp_header(layout: &Layout) -> (r: Vec<u8>)
    ensures
        r@ == stamp(*layout),
        r@.len() == STAMP_SIZE,
{
    let mut v: Vec<u8> = Vec::new();
    v.extend_from_slice(u64_bytes(MAGIC).as_slice());
    v.extend_from_slice(u32_bytes(VERSION).as_slice());
    v.extend_from_slice(u32_bytes(0).as_slice());
    v.extend_from_slice(u64_bytes(layout.c2s_cap as u64).as_slice());
    v.extend_from_slice(u64_bytes(layout.s2c_cap as u64).as_slice());
    proof {
        lemma_le_bytes_len(MAGIC as nat, 8);
        lemma_le_bytes_len(VERSION as nat, 4);
        lemma_le_bytes_len(0, 4);
        lemma_le_bytes_len(layout.c2s_cap as nat, 8);
        lemma_le_bytes_len(layout.s2c_cap as nat, 8);
        assert(v@ =~= stamp(*layout));
    }
    v
}

/// Checks the header of a mapping that came from the peer.
pub fn validate_stamp(h: &[u8], layout: &Layout) -> (r: Result<(), IoError>)
    requires
        h@.len() >= STAMP_SIZE,
    ensures
        match r {
            Ok(_) => stamp_error(h@, *layout) is None,
            Err(e) => stamp_error(h@, *layout) == Some(e@),
        },
{
    let magic: u64 = read_u64(h, 0);
    let version: u32 = read_u32(h, 8);
    let c2s: u64 = read_u64(h, 16);
    let s2c: u64 = read_u64(h, 24);
    if magic != MAGIC || version != VERSION {
        return Err(
            IoError::new(
                ErrorKind::InvalidData,
                "shmsc: segment header mismatch (magic/version)",
            ),
        );
    }
    if c2s != layout.c2s_cap as u64 || s2c != layout.s2c_cap as u64 {
        return Err(
            IoError::new(
                ErrorKind::InvalidData,
                "shmsc: segment ring capacities disagree with hello",
            ),
        );
    }
    Ok(())
}

/// A segment that was stamped for a layout passes the check for it, and for no
/// layout with other capacities.
pub proof fn law_stamp_checks(l: Layout, other: Layout, rest: Seq<u8>)
    ensures
        stamp_error(stamp(l) + rest, other) is None <==> l.c2s_cap == other.c2s_cap && l.s2c_cap
            == other.s2c_cap,
{
    let h = stamp(l) + rest;
    lemma_le_bytes_len(MAGIC as nat, 8);
    lemma_le_bytes_len(VERSION as nat, 4);
    lemma_le_bytes_len(0, 4);
    lemma_le_bytes_len(l.c2s_cap as nat, 8);
    lemma_le_bytes_len(l.s2c_cap as nat, 8);
    lemma_pow256();
    lemma_value_of_bytes(MAGIC as nat, 8);
    lemma_value_of_bytes(VERSION as nat, 4);
    lemma_value_of_bytes(l.c2s_cap as nat, 8);
    lemma_value_of_bytes(l.s2c_cap as nat, 8);
    assert(h.subrange(0, 8) =~= le_bytes(MAGIC as nat, 8));
    assert(h.subrange(8, 12) =~= le_bytes(VERSION as nat, 4));
    assert(h.subrange(16, 24) =~= le_bytes(l.c2s_cap as nat, 8));
    assert(h.subrange(24, 32) =~= le_bytes(l.s2c_cap as nat, 8));
}

/// Checks the size of a segment that came from the peer against its layout: the
/// peer's claim is not trusted.
pub fn check_segment_size(actual: u64, layout: &Layout) -> (r: Result<(), IoError>)
    ensures
        match r {
            Ok(_) => actual >= layout.total,
            Err(e) => actual < layout.total && e@ == (
                ErrorKind::InvalidData,
                "shmsc: segment is "@ + decimal(actual as nat) + " bytes, need "@ + decimal(
                    layout.total as nat,
                ),
            ),
        },
{
    if actual < layout.total as u64 {
        let mut s = with_number("shmsc: segment is ", actual, " bytes, need ");
        s.append(decimal_text(layout.total as u64).as_str());
        return Err(IoError { kind: ErrorKind::InvalidData, message: s });
    }
    Ok(())
}

/// A segment as a memory image.
#[derive(Debug)]
pub struct Segment {
    pub bytes: Vec<u8>,
    pub layout: Layout,
}

impl Segment {
    /// The image has the size that its layout says.
    pub open spec fn wf(self) -> bool {
        self.layout.wf() && self.bytes@.len() == self.layout.total
    }

    /// A fresh segment: stamped, and otherwise zero.
    pub fn create(layout: Layout) -> (r: Self)
        requires
            layout.wf(),
        ensures
            r.wf(),
            r.layout == layout,
            r.bytes@ == splice(Seq::new(layout.total as nat, |i: int| 0u8), 0, stamp(layout)),
    {
        let mut bytes: Vec<u8> = vec![0u8; layout.total];
        assert(bytes@ =~= Seq::new(layout.total as nat, |i: int| 0u8));
        let h = stamp_header(&layout);
        store(&mut bytes, 0, h.as_slice());
        Segment { bytes, layout }
    }

    /// Takes a memory image over, after checking its size and header.
    pub fn from_image(bytes: Vec<u8>, layout: Layout) -> (r: Result<Self, IoError>)
        requires
            layout.wf(),
        ensures
            match r {
                Ok(s) => {
                    &&& bytes@.len() >= layout.total
                    &&& stamp_error(bytes@, layout) is None
                    &&& s.wf()
                    &&& s.layout == layout
                    &&& s.bytes@ == bytes@.take(layout.total as int)
                },
                Err(e) => if bytes@.len() < layout.total {
                    e@ == (
                        ErrorKind::InvalidData,
                        "shmsc: segment is "@ + decimal(bytes@.len()) + " bytes, need "@ + decimal(
                            layout.total as nat,
                        ),
                    )
                } else {
                    stamp_error(bytes@, layout) == Some(e@)
                },
            },
    {
        match check_segment_size(bytes.len() as u64, &layout) {
            Err(e) => {
                return Err(e);
            },
            Ok(_) => {},
        }
        match validate_stamp(bytes.as_slice(), &layout) {
            Err(e) => {
                return Err(e);
            },
            Ok(_) => {},
        }
        let mut bytes = bytes;
        bytes.truncate(layout.total);
        Ok(Segment { bytes, layout })
    }

    /// Writes an eight-byte number into the image.
    pub fn write_u64(&mut self, off: usize, v: u64)
        requires
            old(self).wf(),
            off + 8 <= old(self).layout.total,
        ensures
            final(self).wf(),
            final(self).layout == old(self).layout,
            final(self).bytes@ == put_u64(old(self).bytes@, off as int, v),
    {
        let w = u64_bytes(v);
        proof {
            lemma_le_bytes_len(v as nat, 8);
        }
        store(&mut self.bytes, off, w.as_slice());
    }

    /// Writes a four-byte number into the image.
    pub fn write_u32(&mut self, off: usize, v: u32)
        requires
            old(self).wf(),
            off + 4 <= old(self).layout.total,
        ensures
            final(self).wf(),
            final(self).layout == old(self).layout,
            final(self).bytes@ == put_u32(old(self).bytes@, off as int, v),
    {
        let w = u32_bytes(v);
        proof {
            lemma_le_bytes_len(v as nat, 4);
        }
        store(&mut self.bytes, off, w.as_slice());
    }

    /// The eight-byte number at an offset of the image.
    pub fn load_u64(&self, off: usize) -> (r: u64)
        requires
            self.wf(),
            off + 8 <= self.layout.total,
        ensures
            r == u64_at(self.bytes@, off as int),
    {
        read_u64(self.bytes.as_slice(), off)
    }

    /// The four-byte number at an offset of the image.
    pub fn load_u32(&self, off: usize) -> (r: u32)
        requires
            self.wf(),
            off + 4 <= self.layout.total,
        ensures
            r == u32_at(self.bytes@, off as int),
    {
        read_u32(self.bytes.as_slice(), off)
    }
}

/// The capacities that are allowed: 4 KiB, 8 KiB and so on, up to 1 GiB.
pub proof fn law_capacities(cap: int)
    ensures
        valid_cap(cap) <==> (cap == 4096 || cap == 8192 || cap == 16384 || cap == 32768 || cap == 65536 || cap == 131072 || cap == 262144 || cap == 524288 || cap == 1048576 || cap == 2097152 || cap == 4194304 || cap == 8388608 || cap == 16777216 || cap == 33554432 || cap == 67108864 || cap == 134217728 || cap == 268435456 || cap == 536870912 || cap == 1073741824),
{
    vstd::arithmetic::power2::lemma2_to64();
    if valid_cap(cap) {
        let k = choose|k: nat| 12 <= k <= 30 && cap == #[trigger] pow2(k);
        assert(k == 12 || k == 13 || k == 14 || k == 15 || k == 16 || k == 17 || k == 18 || k == 19 || k == 20 || k == 21 || k == 22 || k == 23 || k == 24 || k == 25 || k == 26 || k == 27 || k == 28 || k == 29 || k == 30);
    } else {
        if cap == 4096 {
            assert(cap == pow2(12));
        }
        if cap == 8192 {
            assert(cap == pow2(13));
        }
        if cap == 16384 {
            assert(cap == pow2(14));
        }
        if cap == 32768 {
            assert(cap == pow2(15));
        }
        if cap == 65536 {
            assert(cap == pow2(16));
        }
        if cap == 131072 {
            assert(cap == pow2(17));
        }
        if cap == 262144 {
            assert(cap == pow2(18));
        }
        if cap == 524288 {
            assert(cap == pow2(19));
        }
        if cap == 1048576 {
            assert(cap == pow2(20));
        }
        if cap == 2097152 {
            assert(cap == pow2(21));
        }
        if cap == 4194304 {
            assert(cap == pow2(22));
        }
        if cap == 8388608 {
            assert(cap == pow2(23));
        }
        if cap == 16777216 {
            assert(cap == pow2(24));
        }
        if cap == 33554432 {
            assert(cap == pow2(25));
        }
        if cap == 67108864 {
            assert(cap == pow2(26));
        }
        if cap == 134217728 {
            assert(cap == pow2(27));
        }
        if cap == 268435456 {
            assert(cap == pow2(28));
        }
        if cap == 536870912 {
            assert(cap == pow2(29));
        }
        if cap == 1073741824 {
            assert(cap == pow2(30));
        }
    }
}

/// Where the parts of a segment lie.
pub proof fn law_where_the_parts_lie(l: Layout)
    requires
        l.wf(),
    ensures
        l.c2s_hdr == 64,
        l.c2s_data == 192,
        l.s2c_hdr == 192 + l.c2s_cap,
        l.s2c_data == 320 + l.c2s_cap,
        l.total == 320 + l.c2s_cap + l.s2c_cap,
        4096 <= l.c2s_cap <= 1073741824,
        4096 <= l.s2c_cap <= 1073741824,
{
    lemma_cap_bounds(l.c2s_cap as int);
    lemma_cap_bounds(l.s2c_cap as int);
}

/// Each part of the identifying header: `SHMSC1` and two zeros, the version 1, no flags,
/// and the capacities.
pub proof fn law_stamp_byte_by_byte(l: Layout)
    ensures
        stamp(l).len() == 32,
        stamp(l).take(8) == seq![0x53u8, 0x48, 0x4d, 0x53, 0x43, 0x31, 0, 0],
        stamp(l).subrange(8, 16) == seq![1u8, 0, 0, 0, 0, 0, 0, 0],
        u64_at(stamp(l), 16) == l.c2s_cap,
        u64_at(stamp(l), 24) == l.s2c_cap,
        STAMP_SIZE == 32,
{
    let h = stamp(l);
    lemma_le_bytes_len(MAGIC as nat, 8);
    lemma_le_bytes_len(VERSION as nat, 4);
    lemma_le_bytes_len(0, 4);
    lemma_le_bytes_len(l.c2s_cap as nat, 8);
    lemma_le_bytes_len(l.s2c_cap as nat, 8);
    lemma_pow256();
    lemma_value_of_bytes(l.c2s_cap as nat, 8);
    lemma_value_of_bytes(l.s2c_cap as nat, 8);
    assert(h.subrange(16, 24) =~= le_bytes(l.c2s_cap as nat, 8));
    assert(h.subrange(24, 32) =~= le_bytes(l.s2c_cap as nat, 8));
    lemma_magic_bytes();
    crate::le::law_written_low_byte_first(1);
    crate::le::law_written_low_byte_first(0);
    assert(h.take(8) =~= le_bytes(MAGIC as nat, 8));
    assert(h.subrange(8, 16) =~= le_bytes(1, 4) + le_bytes(0, 4));
}

/// The magic number is `SHMSC1` and two zeros.
pub proof fn lemma_magic_bytes()
    ensures
        le_bytes(MAGIC as nat, 8) == seq![0x53u8, 0x48, 0x4d, 0x53, 0x43, 0x31, 0, 0],
{
    crate::le::law_written_low_byte_first(MAGIC as nat);
    crate::le::law_written_low_byte_first(MAGIC as nat / 4294967296);
    assert(le_bytes(MAGIC as nat, 8) =~= seq![0x53u8, 0x48, 0x4d, 0x53, 0x43, 0x31, 0, 0]);
}

/// A mapping is taken exactly where its header has the magic bytes, the version 1 and the
/// capacities of the layout; otherwise the first of these that differs is named.
pub proof fn law_which_segments_are_taken(h: Seq<u8>, l: Layout)
    requires
        h.len() >= 32,
    ensures
        ({
            let known = h.take(8) == seq![0x53u8, 0x48, 0x4d, 0x53, 0x43, 0x31, 0, 0]
                && h.subrange(8, 12) == seq![1u8, 0, 0, 0];
            let same = u64_at(h, 16) == l.c2s_cap && u64_at(h, 24) == l.s2c_cap;
            &&& stamp_error(h, l) is None <==> known && same
            &&& !known ==> stamp_error(h, l) == Some(
                (
                    ErrorKind::InvalidData,
                    "shmsc: segment header mismatch (magic/version)"@,
                ),
            )
            &&& known && !same ==> stamp_error(h, l) == Some(
                (
                    ErrorKind::InvalidData,
                    "shmsc: segment ring capacities disagree with hello"@,
                ),
            )
        }),
{
    lemma_pow256();
    lemma_magic_bytes();
    crate::le::law_written_low_byte_first(1);
    assert(h.take(8) =~= h.subrange(0, 8));
    crate::le::lemma_bytes_of_value(h.subrange(0, 8));
    crate::le::lemma_bytes_of_value(h.subrange(8, 12));
    lemma_value_of_bytes(MAGIC as nat, 8);
    lemma_value_of_bytes(1, 4);
}

} // verus!
