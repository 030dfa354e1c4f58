//! Transport frames.
//!
//! The rings carry a byte stream of length-prefixed frames, HTTP/2-shaped in
//! meaning and plainer in encoding.
//!
//! ```text
//! frame header (12 bytes, little-endian):
//!   len       u32   payload length, without this header
//!   type      u8
//!   flags     u8
//!   reserved  u16   must be 0
//!   stream_id u32
//! ```
//!
//! Header and trailer blocks are flat lists of names and values:
//!
//! ```text
//!   count u16, then per entry: name_len u16, name, value_len u32, value
//! ```
//!
//! Pseudo-entries use the HTTP/2 names `:path`, `:authority` and `:status`.
//! Every length that is read is checked before it is used: a corrupt peer gives
//! a protocol error.

use bytes::{Bytes, BytesMut};
use vstd::prelude::*;
use vstd::string::StringExecFns;

use crate::le::{read_u16, read_u32, u16_bytes, u32_bytes};
use crate::outside::{
    buf_advance, buf_freeze, buf_len, buf_put_slice, buf_slice, buf_split_to, buf_with_capacity,
    bytes_len,
};
use crate::text::{hex_text, with_number};

verus! {

use crate::le::{le_bytes, le_value, lemma_le_bytes_len, lemma_pow256, lemma_value_of_bytes};
use crate::outside::{bytes_view, buf_view};
use crate::text::{decimal, hex_byte};

/// Size of the fixed frame header.
pub const FRAME_HDR_SIZE: usize = 12;

/// Hard cap on any frame payload.
pub const MAX_FRAME_PAYLOAD: usize = 16 * 1024 * 1024;

/// Cap on a decoded header block.
pub const MAX_HEADER_BLOCK: usize = 8 * 1024 * 1024;

/// Cap on the entries of one header block.
pub const MAX_HEADER_ENTRIES: usize = 4096;

/// Frame types.
#[derive(Debug, Clone, Copy, PartialEq, Eq, Structural)]
pub enum FrameType {
    /// Request or response header block.
    Headers,
    /// Message bytes.
    Data,
    /// Trailer block; always ends the stream.
    Trailers,
    /// Abnormal stream termination.
    RstStream,
    /// Per-stream flow-control credit.
    WindowUpdate,
    /// Connection drain: no stream after the last one named is processed.
    GoAway,
    /// Liveness probe; a flag marks the acknowledgement.
    Ping,
}

/// The byte that stands for a frame type.
pub open spec fn type_code(t: FrameType) -> u8 {
    match t {
        FrameType::Headers => 1,
        FrameType::Data => 2,
        FrameType::Trailers => 3,
        FrameType::RstStream => 4,
        FrameType::WindowUpdate => 5,
        FrameType::GoAway => 6,
        FrameType::Ping => 7,
    }
}

/// The frame type that a byte stands for, if any.
pub open spec fn type_of_code(v: u8) -> Option<FrameType> {
    if v == 1 {
        Some(FrameType::Headers)
    } else if v == 2 {
        Some(FrameType::Data)
    } else if v == 3 {
        Some(FrameType::Trailers)
    } else if v == 4 {
        Some(FrameType::RstStream)
    } else if v == 5 {
        Some(FrameType::WindowUpdate)
    } else if v == 6 {
        Some(FrameType::GoAway)
    } else if v == 7 {
        Some(FrameType::Ping)
    } else {
        None
    }
}

impl FrameType {
    /// The frame type that `v` stands for.
    pub fn from_u8(v: u8) -> (r: Option<Self>)
        ensures
            r == type_of_code(v),
    {
        match v {
            1 => Some(FrameType::Headers),
            2 => Some(FrameType::Data),
            3 => Some(FrameType::Trailers),
            4 => Some(FrameType::RstStream),
            5 => Some(FrameType::WindowUpdate),
            6 => Some(FrameType::GoAway),
            7 => Some(FrameType::Ping),
            _ => None,
        }
    }

    /// The byte that stands for this type.
    pub fn code(self) -> (r: u8)
        ensures
            r == type_code(self),
    {
        match self {
            FrameType::Headers => 1,
            FrameType::Data => 2,
            FrameType::Trailers => 3,
            FrameType::RstStream => 4,
            FrameType::WindowUpdate => 5,
            FrameType::GoAway => 6,
            FrameType::Ping => 7,
        }
    }
}

/// Flag bit: last frame of the stream in this direction.
pub const FLAG_END_STREAM: u8 = 0x1;

/// Flag bit of a PING: this is an acknowledgement.
pub const FLAG_ACK: u8 = 0x2;

/// Largest PING payload. A larger PING, or one on a stream, is a protocol
/// violation, so that a flood of them cannot pin much memory.
pub const PING_MAX_PAYLOAD: usize = 8;

/// Stream error codes carried by RST_STREAM.
#[derive(Debug, Clone, Copy, PartialEq, Eq, Structural)]
pub enum RstCode {
    /// The peer cancelled the stream.
    Cancel,
    /// The stream was refused before any processing, so a retry is safe.
    Refused,
    /// The peer hit an internal error on this stream.
    Internal,
}

/// The number that stands for a reset code.
pub open spec fn rst_code_value(c: RstCode) -> u32 {
    match c {
        RstCode::Cancel => 1,
        RstCode::Refused => 2,
        RstCode::Internal => 3,
    }
}

/// The reset code that a number stands for; unknown ones are internal errors.
pub open spec fn rst_of_value(v: u32) -> RstCode {
    if v == 1 {
        RstCode::Cancel
    } else if v == 2 {
        RstCode::Refused
    } else {
        RstCode::Internal
    }
}

impl RstCode {
    /// The reset code that `v` stands for.
    pub fn from_u32(v: u32) -> (r: Self)
        ensures
            r == rst_of_value(v),
    {
        match v {
            1 => RstCode::Cancel,
            2 => RstCode::Refused,
            _ => RstCode::Internal,
        }
    }

    /// The number that stands for this code.
    pub fn value(self) -> (r: u32)
        ensures
            r == rst_code_value(self),
    {
        match self {
            RstCode::Cancel => 1,
            RstCode::Refused => 2,
            RstCode::Internal => 3,
        }
    }
}

/// A protocol violation by the peer. It fails the connection: a byte stream
/// cannot be resynchronised after a malformed frame.
#[derive(Debug)]
pub struct ProtocolError(pub String);

impl ProtocolError {
    /// The error as it is shown.
    pub fn display(&self) -> (r: String)
        ensures
            r@ == "shmsc protocol error: "@ + self.0@,
    {
        let mut s = "shmsc protocol error: ".to_owned();
        s.append(self.0.as_str());
        s
    }
}

/// A frame.
#[derive(Debug)]
pub struct Frame {
    pub typ: FrameType,
    pub flags: u8,
    pub stream_id: u32,
    pub payload: Bytes,
}

/// What a frame holds.
pub struct FrameView {
    pub typ: FrameType,
    pub flags: u8,
    pub stream_id: u32,
    pub payload: Seq<u8>,
}

impl View for Frame {
    type V = FrameView;

    open spec fn view(&self) -> FrameView {
        FrameView {
            typ: self.typ,
            flags: self.flags,
            stream_id: self.stream_id,
            payload: bytes_view(self.payload),
        }
    }
}

impl FrameView {
    /// Whether this is the last frame of its stream in this direction.
    pub open spec fn end_stream(self) -> bool {
        self.flags & FLAG_END_STREAM != 0
    }

    /// What is wrong with this frame as a PING, if anything.
    pub open spec fn ping_error(self) -> Option<Seq<char>> {
        if self.stream_id != 0 {
            Some(
                "PING must be connection-level (stream_id 0), got "@ + decimal(
                    self.stream_id as nat,
                ) + ""@,
            )
        } else if self.payload.len() > PING_MAX_PAYLOAD {
            Some("PING payload "@ + decimal(self.payload.len()) + " exceeds 8 bytes"@)
        } else {
            None
        }
    }
}

impl Frame {
    /// Whether this is the last frame of its stream in this direction.
    pub fn end_stream(&self) -> (r: bool)
        ensures
            r == self@.end_stream(),
    {
        self.flags & FLAG_END_STREAM != 0
    }

    /// Checks an inbound PING: it belongs to the connection, not to a stream,
    /// and its payload is small.
    pub fn validate_ping(&self) -> (r: Result<(), ProtocolError>)
        ensures
            match r {
                Ok(_) => self@.ping_error() is None,
                Err(e) => self@.ping_error() == Some(e.0@),
            },
    {
        if self.stream_id != 0 {
            return Err(
                ProtocolError(
                    with_number(
                        "PING must be connection-level (stream_id 0), got ",
                        self.stream_id as u64,
                        "",
                    ),
                ),
            );
        }
        let n: usize = bytes_len(&self.payload);
        if n > PING_MAX_PAYLOAD {
            return Err(
                ProtocolError(with_number("PING payload ", n as u64, " exceeds 8 bytes")),
            );
        }
        Ok(())
    }
}

// ---------------------------------------------------------------------
// frame headers
// ---------------------------------------------------------------------

/// The twelve bytes of a frame header.
pub open spec fn header_bytes(typ: FrameType, flags: u8, stream_id: u32, len: nat) -> Seq<u8> {
    le_bytes(len, 4) + seq![type_code(typ), flags] + le_bytes(0, 2) + le_bytes(
        stream_id as nat,
        4,
    )
}

/// What a frame header says.
pub struct HeaderView {
    pub typ: FrameType,
    pub flags: u8,
    pub stream_id: u32,
    pub len: nat,
}

/// What twelve bytes say as a frame header, or what is wrong with them.
pub open spec fn parse_header(h: Seq<u8>) -> Result<HeaderView, Seq<char>> {
    let len = le_value(h.subrange(0, 4));
    if len > MAX_FRAME_PAYLOAD {
        Err("frame payload "@ + decimal(len) + " exceeds cap"@)
    } else if le_value(h.subrange(6, 8)) != 0 {
        Err("nonzero reserved bits in frame header"@)
    } else {
        match type_of_code(h[4]) {
            None => Err("unknown frame type "@ + hex_byte(h[4])),
            Some(typ) => Ok(
                HeaderView {
                    typ,
                    flags: h[5],
                    stream_id: le_value(h.subrange(8, 12)) as u32,
                    len,
                },
            ),
        }
    }
}

/// Writes a frame header; the payload is written separately, from its own
/// buffer.
pub fn encode_frame_header(
    dst: &mut [u8; FRAME_HDR_SIZE],
    typ: FrameType,
    flags: u8,
    stream_id: u32,
    payload_len: usize,
)
    requires
        payload_len <= MAX_FRAME_PAYLOAD,
    ensures
        final(dst)@ == header_bytes(typ, flags, stream_id, payload_len as nat),
{
    let n = u32_bytes(payload_len as u32);
    let z = u16_bytes(0);
    let s = u32_bytes(stream_id);
    dst[0] = n[0];
    dst[1] = n[1];
    dst[2] = n[2];
    dst[3] = n[3];
    dst[4] = typ.code();
    dst[5] = flags;
    dst[6] = z[0];
    dst[7] = z[1];
    dst[8] = s[0];
    dst[9] = s[1];
    dst[10] = s[2];
    dst[11] = s[3];
    assert(dst@ =~= header_bytes(typ, flags, stream_id, payload_len as nat));
}

/// Reads and checks a frame header: type, flags, stream id, payload length.
pub fn parse_frame_header(hdr: &[u8; FRAME_HDR_SIZE]) -> (r: Result<
    (FrameType, u8, u32, usize),
    ProtocolError,
>)
    ensures
        match (r, parse_header(hdr@)) {
            (Ok(t), Ok(h)) => t.0 == h.typ && t.1 == h.flags && t.2 == h.stream_id && t.3 == h.len,
            (Err(e), Err(m)) => e.0@ == m,
            _ => false,
        },
{
    let b: &[u8] = hdr.as_slice();
    let len: u32 = read_u32(b, 0);
    let typ_raw: u8 = b[4];
    let flags: u8 = b[5];
    let reserved: u16 = read_u16(b, 6);
    let stream_id: u32 = read_u32(b, 8);
    if len as usize > MAX_FRAME_PAYLOAD {
        return Err(ProtocolError(with_number("frame payload ", len as u64, " exceeds cap")));
    }
    if reserved != 0 {
        return Err(ProtocolError("nonzero reserved bits in frame header".to_owned()));
    }
    match FrameType::from_u8(typ_raw) {
        None => {
            let mut s = "unknown frame type ".to_owned();
            s.append(hex_text(typ_raw).as_str());
            Err(ProtocolError(s))
        },
        Some(typ) => Ok((typ, flags, stream_id, len as usize)),
    }
}

// ---------------------------------------------------------------------
// frames in a byte stream
// ---------------------------------------------------------------------

impl FrameView {
    /// The frame as it stands in the byte stream.
    pub open spec fn bytes(self) -> Seq<u8> {
        header_bytes(self.typ, self.flags, self.stream_id, self.payload.len()) + self.payload
    }
}

/// The first frame in `b` and what follows it; `None` while it is not complete.
pub open spec fn first_frame(b: Seq<u8>) -> Result<Option<(FrameView, Seq<u8>)>, Seq<char>> {
    if b.len() < FRAME_HDR_SIZE {
        Ok(None)
    } else {
        match parse_header(b.take(FRAME_HDR_SIZE as int)) {
            Err(e) => Err(e),
            Ok(h) => if b.len() < FRAME_HDR_SIZE + h.len {
                Ok(None)
            } else {
                Ok(
                    Some(
                        (
                            FrameView {
                                typ: h.typ,
                                flags: h.flags,
                                stream_id: h.stream_id,
                                payload: b.subrange(
                                    FRAME_HDR_SIZE as int,
                                    FRAME_HDR_SIZE + h.len,
                                ),
                            },
                            b.skip(FRAME_HDR_SIZE + h.len),
                        ),
                    ),
                )
            },
        }
    }
}

/// Appends a frame to `dst`.
pub fn encode_frame(
    dst: &mut BytesMut,
    typ: FrameType,
    flags: u8,
    stream_id: u32,
    payload: &[u8],
)
    requires
        payload@.len() <= MAX_FRAME_PAYLOAD,
        buf_view(*old(dst)).len() + FRAME_HDR_SIZE + payload@.len() <= isize::MAX,
    ensures
        buf_view(*final(dst)) == buf_view(*old(dst)) + (FrameView {
            typ,
            flags,
            stream_id,
            payload: payload@,
        }).bytes(),
{
    let mut hdr = [0u8; FRAME_HDR_SIZE];
    encode_frame_header(&mut hdr, typ, flags, stream_id, payload.len());
    proof {
        lemma_header_len(typ, flags, stream_id, payload@.len());
    }
    buf_put_slice(dst, hdr.as_slice());
    buf_put_slice(dst, payload);
    assert(buf_view(*dst) =~= buf_view(*old(dst)) + (FrameView {
        typ,
        flags,
        stream_id,
        payload: payload@,
    }).bytes());
}

/// Takes frames off a growing byte stream.
#[derive(Debug)]
pub struct FrameParser {
    pub buf: BytesMut,
}

impl Default for FrameParser {
    fn default() -> (r: Self)
        ensures
            buf_view(r.buf) == Seq::<u8>::empty(),
    {
        FrameParser { buf: buf_with_capacity(0) }
    }
}

impl FrameParser {
    /// The buffer to which new bytes are appended.
    pub fn buf_mut(&mut self) -> (r: &mut BytesMut)
        ensures
            *r == old(self).buf,
            final(self).buf == *final(r),
    {
        &mut self.buf
    }

    /// Takes the first frame off, if it is complete. The buffer stays as it is
    /// otherwise.
    pub fn next_frame(&mut self) -> (r: Result<Option<Frame>, ProtocolError>)
        ensures
            match (r, first_frame(buf_view(old(self).buf))) {
                (Ok(Some(f)), Ok(Some(p))) => f@ == p.0 && buf_view(final(self).buf) == p.1,
                (Ok(None), Ok(None)) => buf_view(final(self).buf) == buf_view(old(self).buf),
                (Err(e), Err(m)) => e.0@ == m && buf_view(final(self).buf) == buf_view(
                    old(self).buf,
                ),
                _ => false,
            },
    {
        let ghost b = buf_view(self.buf);
        if buf_len(&self.buf) < FRAME_HDR_SIZE {
            return Ok(None);
        }
        let hdr = header_array(buf_slice(&self.buf));
        match parse_frame_header(&hdr) {
            Err(e) => Err(e),
            Ok((typ, flags, stream_id, len)) => {
                if buf_len(&self.buf) < FRAME_HDR_SIZE + len {
                    return Ok(None);
                }
                buf_advance(&mut self.buf, FRAME_HDR_SIZE);
                let payload = buf_freeze(buf_split_to(&mut self.buf, len));
                proof {
                    assert(b.skip(FRAME_HDR_SIZE as int).take(len as int) =~= b.subrange(
                        FRAME_HDR_SIZE as int,
                        FRAME_HDR_SIZE + len,
                    ));
                    assert(b.skip(FRAME_HDR_SIZE as int).skip(len as int) =~= b.skip(
                        FRAME_HDR_SIZE + len,
                    ));
                }
                Ok(Some(Frame { typ, flags, stream_id, payload }))
            },
        }
    }
}

/// The first twelve bytes of `b`.
pub(crate) fn header_array(b: &[u8]) -> (r: [u8; FRAME_HDR_SIZE])
    requires
        b@.len() >= FRAME_HDR_SIZE,
    ensures
        r@ == b@.take(FRAME_HDR_SIZE as int),
{
    let r = [
        b[0],
        b[1],
        b[2],
        b[3],
        b[4],
        b[5],
        b[6],
        b[7],
        b[8],
        b[9],
        b[10],
        b[11],
    ];
    assert(r@ =~= b@.take(FRAME_HDR_SIZE as int));
    r
}

/// A frame header has twelve bytes.
pub proof fn lemma_header_len(typ: FrameType, flags: u8, stream_id: u32, len: nat)
    ensures
        header_bytes(typ, flags, stream_id, len).len() == FRAME_HDR_SIZE,
{
    lemma_le_bytes_len(len, 4);
    lemma_le_bytes_len(0, 2);
    lemma_le_bytes_len(stream_id as nat, 4);
}

/// A header that was written reads back as it was.
pub proof fn law_header_roundtrip(typ: FrameType, flags: u8, stream_id: u32, len: nat)
    requires
        len <= MAX_FRAME_PAYLOAD,
    ensures
        parse_header(header_bytes(typ, flags, stream_id, len)) == Ok::<HeaderView, Seq<char>>(
            HeaderView { typ, flags, stream_id, len },
        ),
{
    let h = header_bytes(typ, flags, stream_id, len);
    lemma_le_bytes_len(len, 4);
    lemma_le_bytes_len(0, 2);
    lemma_le_bytes_len(stream_id as nat, 4);
    lemma_pow256();
    lemma_value_of_bytes(len, 4);
    lemma_value_of_bytes(0, 2);
    lemma_value_of_bytes(stream_id as nat, 4);
    assert(h.subrange(0, 4) =~= le_bytes(len, 4));
    assert(h.subrange(6, 8) =~= le_bytes(0, 2));
    assert(h.subrange(8, 12) =~= le_bytes(stream_id as nat, 4));
}

/// A frame at the front of the stream is taken off as it was written, and what
/// follows it stays.
pub proof fn law_frame_roundtrip(f: FrameView, rest: Seq<u8>)
    requires
        f.payload.len() <= MAX_FRAME_PAYLOAD,
    ensures
        first_frame(f.bytes() + rest) == Ok::<Option<(FrameView, Seq<u8>)>, Seq<char>>(
            Some((f, rest)),
        ),
{
    let b = f.bytes() + rest;
    let n = FRAME_HDR_SIZE as int;
    law_header_roundtrip(f.typ, f.flags, f.stream_id, f.payload.len());
    lemma_header_len(f.typ, f.flags, f.stream_id, f.payload.len());
    assert(b.take(n) =~= header_bytes(f.typ, f.flags, f.stream_id, f.payload.len()));
    assert(b.subrange(n, n + f.payload.len()) =~= f.payload);
    assert(b.skip(n + f.payload.len()) =~= rest);
}

/// Where the stream is cut inside a frame, that frame is not yet taken off and
/// no error is seen.
pub proof fn law_partial_frame_waits(f: FrameView, cut: int)
    requires
        f.payload.len() <= MAX_FRAME_PAYLOAD,
        0 <= cut < f.bytes().len(),
    ensures
        first_frame(f.bytes().take(cut)) == Ok::<Option<(FrameView, Seq<u8>)>, Seq<char>>(None),
{
    let b = f.bytes().take(cut);
    let n = FRAME_HDR_SIZE as int;
    law_header_roundtrip(f.typ, f.flags, f.stream_id, f.payload.len());
    lemma_header_len(f.typ, f.flags, f.stream_id, f.payload.len());
    if cut >= n {
        assert(b.take(n) =~= header_bytes(f.typ, f.flags, f.stream_id, f.payload.len()));
    }
}

/// Bytes that arrive later change neither a frame that is complete nor an error.
pub proof fn law_later_bytes_do_not_matter(b: Seq<u8>, more: Seq<u8>)
    ensures
        first_frame(b) matches Ok(Some(p)) ==> first_frame(b + more) == Ok::<
            Option<(FrameView, Seq<u8>)>,
            Seq<char>,
        >(Some((p.0, p.1 + more))),
        first_frame(b) matches Err(e) ==> first_frame(b + more) == Err::<
            Option<(FrameView, Seq<u8>)>,
            Seq<char>,
        >(e),
{
    let n = FRAME_HDR_SIZE as int;
    if b.len() >= n {
        assert((b + more).take(n) =~= b.take(n));
        match parse_header(b.take(n)) {
            Ok(h) => {
                if b.len() >= n + h.len {
                    assert((b + more).subrange(n, n + h.len) =~= b.subrange(n, n + h.len));
                    assert((b + more).skip(n + h.len) =~= b.skip(n + h.len) + more);
                }
            },
            Err(_) => {},
        }
    }
}

/// Frames one after the other.
pub open spec fn stream_bytes(frames: Seq<FrameView>) -> Seq<u8>
    decreases frames.len(),
{
    if frames.len() == 0 {
        Seq::empty()
    } else {
        frames[0].bytes() + stream_bytes(frames.drop_first())
    }
}

/// The complete frames at the front of a stream, and what is left behind them:
/// an incomplete frame, or bytes that are an error.
pub open spec fn all_frames(b: Seq<u8>) -> (Seq<FrameView>, Seq<u8>)
    decreases b.len(),
{
    match first_frame(b) {
        Ok(Some((f, rest))) => if rest.len() < b.len() {
            let tail = all_frames(rest);
            (seq![f] + tail.0, tail.1)
        } else {
            (Seq::empty(), b)
        },
        _ => (Seq::empty(), b),
    }
}

/// A stream of frames is taken apart into exactly those frames.
pub proof fn law_stream_roundtrip(frames: Seq<FrameView>)
    requires
        forall|i: int| 0 <= i < frames.len() ==> (#[trigger] frames[i]).payload.len()
            <= MAX_FRAME_PAYLOAD,
    ensures
        all_frames(stream_bytes(frames)) == (frames, Seq::<u8>::empty()),
    decreases frames.len(),
{
    if frames.len() > 0 {
        let f = frames[0];
        let rest = frames.drop_first();
        law_stream_roundtrip(rest);
        law_frame_roundtrip(f, stream_bytes(rest));
        lemma_header_len(f.typ, f.flags, f.stream_id, f.payload.len());
        assert(seq![f] + rest =~= frames);
    }
}

/// The fixed sizes, caps and flag bits of the protocol.
pub proof fn law_limits_of_frames()
    ensures
        FRAME_HDR_SIZE == 12,
        MAX_FRAME_PAYLOAD == 16777216,
        MAX_HEADER_BLOCK == 8388608,
        MAX_HEADER_ENTRIES == 4096,
        PING_MAX_PAYLOAD == 8,
        FLAG_END_STREAM == 1,
        FLAG_ACK == 2,
{
}

/// Each byte of a frame header, for any frame: the length of the payload, the number of
/// the type, the flags, two zeros, and the stream.
pub proof fn law_header_byte_by_byte(typ: FrameType, flags: u8, stream_id: u32, len: nat)
    ensures
        ({
            let h = header_bytes(typ, flags, stream_id, len);
            &&& h.len() == 12
            &&& h[0] == len % 256 && h[1] == len / 256 % 256 && h[2] == len / 65536 % 256 && h[3]
                == len / 16777216 % 256
            &&& h[4] == match typ {
                FrameType::Headers => 1u8,
                FrameType::Data => 2u8,
                FrameType::Trailers => 3u8,
                FrameType::RstStream => 4u8,
                FrameType::WindowUpdate => 5u8,
                FrameType::GoAway => 6u8,
                FrameType::Ping => 7u8,
            }
            &&& h[5] == flags
            &&& h[6] == 0 && h[7] == 0
            &&& h[8] == stream_id % 256 && h[9] == stream_id / 256 % 256 && h[10] == stream_id
                / 65536 % 256 && h[11] == stream_id / 16777216 % 256
        }),
{
    crate::le::law_written_low_byte_first(len);
    crate::le::law_written_low_byte_first(0);
    crate::le::law_written_low_byte_first(stream_id as nat);
}

/// Taking a frame off a stream, from the bytes alone. With fewer than twelve bytes
/// nothing is decided. A length above 16 MiB, a reserved byte that is not zero and a type
/// byte outside 1 to 7 are errors, whatever follows. Everything else is a frame, as soon
/// as its payload is there: no byte is lost, added or changed.
pub proof fn law_frames_are_told_by_their_bytes(b: Seq<u8>)
    ensures
        ({
            let len = b[0] + 256 * b[1] + 65536 * b[2] + 16777216 * b[3];
            let bad = len > 16777216 || b[6] != 0 || b[7] != 0 || b[4] < 1 || b[4] > 7;
            match first_frame(b) {
                Err(_) => b.len() >= 12 && bad,
                Ok(None) => b.len() < 12 || (!bad && b.len() < 12 + len),
                Ok(Some((f, rest))) => {
                    &&& !bad
                    &&& b.len() >= 12 + len
                    &&& f.payload == b.subrange(12, 12 + len)
                    &&& f.flags == b[5]
                    &&& f.stream_id == b[8] + 256 * b[9] + 65536 * b[10] + 16777216 * b[11]
                    &&& rest == b.skip(12 + len)
                    &&& f.bytes() == b.take(12 + len)
                },
            }
        }),
{
    if b.len() >= 12 {
        let h = b.take(12);
        assert(h.subrange(0, 4) =~= seq![b[0], b[1], b[2], b[3]]);
        assert(h.subrange(6, 8) =~= seq![b[6], b[7]]);
        assert(h.subrange(8, 12) =~= seq![b[8], b[9], b[10], b[11]]);
        crate::le::law_read_low_byte_first(h.subrange(0, 4));
        crate::le::law_read_low_byte_first(h.subrange(6, 8));
        crate::le::law_read_low_byte_first(h.subrange(8, 12));
        let len = b[0] + 256 * b[1] + 65536 * b[2] + 16777216 * b[3];
        if let Ok(Some((f, rest))) = first_frame(b) {
            let g = header_bytes(f.typ, f.flags, f.stream_id, f.payload.len());
            law_header_byte_by_byte(f.typ, f.flags, f.stream_id, f.payload.len());
            assert(f.payload.len() == len);
            lemma_digits(b[0], b[1], b[2], b[3]);
            lemma_digits(b[8], b[9], b[10], b[11]);
            assert(g =~= h);
            assert(f.bytes() =~= b.take(12 + len));
        }
    }
}

proof fn lemma_digits(a: u8, b: u8, c: u8, d: u8)
    ensures
        ({
            let n = a + 256 * b + 65536 * c + 16777216 * d;
            &&& n % 256 == a
            &&& n / 256 % 256 == b
            &&& n / 65536 % 256 == c
            &&& n / 16777216 % 256 == d
            &&& n < 4294967296
        }),
{
    let n = a + 256 * b + 65536 * c + 16777216 * d;
    assert(n / 256 == b + 256 * c + 65536 * d);
    assert(n / 65536 == c + 256 * d);
    assert(n / 16777216 == d);
}

/// What is said of a frame that is an error: the first thing that is wrong with it.
pub proof fn law_frame_errors_are_named(b: Seq<u8>)
    requires
        b.len() >= 12,
    ensures
        ({
            let len = b[0] + 256 * b[1] + 65536 * b[2] + 16777216 * b[3];
            first_frame(b) matches Err(m) ==> if len > 16777216 {
                m == "frame payload "@ + decimal(len as nat) + " exceeds cap"@
            } else if b[6] != 0 || b[7] != 0 {
                m == "nonzero reserved bits in frame header"@
            } else {
                m == "unknown frame type "@ + hex_byte(b[4])
            }
        }),
{
    let h = b.take(12);
    assert(h.subrange(0, 4) =~= seq![b[0], b[1], b[2], b[3]]);
    assert(h.subrange(6, 8) =~= seq![b[6], b[7]]);
    crate::le::law_read_low_byte_first(h.subrange(0, 4));
    crate::le::law_read_low_byte_first(h.subrange(6, 8));
}

/// A PING is in order exactly when it belongs to no stream and has at most eight bytes.
pub proof fn law_pings_in_order(f: FrameView)
    ensures
        f.ping_error() is None <==> f.stream_id == 0 && f.payload.len() <= 8,
{
}

/// The lowest flag bit, and no other, ends a stream.
pub proof fn law_lowest_flag_ends(f: FrameView)
    ensures
        f.end_stream() <==> f.flags % 2 == 1,
{
    let x = f.flags;
    assert(x & 1u8 != 0 <==> x % 2 == 1) by (bit_vector);
}

/// A frame shows what it holds, and its bytes are its header and then its payload.
pub proof fn law_frames_are_shown(f: Frame)
    ensures
        f@.typ == f.typ,
        f@.flags == f.flags,
        f@.stream_id == f.stream_id,
        f@.payload == bytes_view(f.payload),
        f@.bytes() == header_bytes(f.typ, f.flags, f.stream_id, bytes_view(f.payload).len())
            + bytes_view(f.payload),
{
}

} // verus!
