//! The handshake: the server sends a hello with the segment, the client
//! acknowledges.

use vstd::prelude::*;

use crate::error::{ErrorKind, IoError};
use crate::le::{read_u32, read_u64, u16_bytes, u32_bytes, u64_bytes};
use crate::outside::utf8_text;
use crate::seg::{bad_capacity, cap_allowed, Layout, MAGIC, MAX_RING_CAP, VERSION};
use crate::text::with_number;

verus! {

use crate::image::{u32_at, u64_at};
use crate::le::{le_bytes, lemma_le_bytes_len, lemma_pow256, lemma_value_of_bytes};
use crate::seg::{law_stamp_checks, lemma_cap_bounds, stamp, stamp_error, valid_cap};
use crate::text::decimal;

/// What the server tells the client: the ring capacities and the stream window.
#[derive(Debug, Clone, Copy, PartialEq, Eq, Structural)]
pub struct Hello {
    pub c2s_cap: u64,
    pub s2c_cap: u64,
    pub stream_window: u32,
}

/// Size of an encoded hello.
pub const HELLO_SIZE: usize = 32;

/// The byte by which the client acknowledges a hello.
pub const HELLO_ACK: u8 = 0xA5;

/// Longest section name that is accepted in a hello.
pub const MAX_SECTION_NAME: usize = 256;

/// A hello as it is sent.
pub open spec fn hello_bytes(h: Hello) -> Seq<u8> {
    le_bytes(MAGIC as nat, 8) + le_bytes(VERSION as nat, 4) + le_bytes(
        h.stream_window as nat,
        4,
    ) + le_bytes(h.c2s_cap as nat, 8) + le_bytes(h.s2c_cap as nat, 8)
}

/// What received bytes say as a hello, or what is wrong with them.
pub open spec fn parse_hello(b: Seq<u8>) -> Result<Hello, (ErrorKind, Seq<char>)> {
    if b.len() != HELLO_SIZE {
        Err((ErrorKind::InvalidData, "shmsc: bad hello size"@))
    } else if u64_at(b, 0) != MAGIC {
        Err((ErrorKind::InvalidData, "shmsc: bad hello magic"@))
    } else if u32_at(b, 8) != VERSION {
        Err(
            (
                ErrorKind::InvalidData,
                "shmsc: protocol version "@ + decimal(u32_at(b, 8) as nat) + " not supported"@,
            ),
        )
    } else if u32_at(b, 12) == 0 {
        Err((ErrorKind::InvalidData, "shmsc: zero window in hello"@))
    } else {
        Ok(
            Hello {
                c2s_cap: u64_at(b, 16),
                s2c_cap: u64_at(b, 24),
                stream_window: u32_at(b, 12),
            },
        )
    }
}

impl Hello {
    /// The hello as it is sent.
    pub fn encode(&self) -> (r: Vec<u8>)
        ensures
            r@ == hello_bytes(*self),
            r@.len() == HELLO_SIZE,
    {
        let mut v: Vec<u8> = Vec::new();
        v.extend_from_slice(u64_bytes(MAGIC).as_slice());
        v.extend_from_slice(u32_bytes(VERSION).as_slice());
        v.extend_from_slice(u32_bytes(self.stream_window).as_slice());
        v.extend_from_slice(u64_bytes(self.c2s_cap).as_slice());
        v.extend_from_slice(u64_bytes(self.s2c_cap).as_slice());
        proof {
            lemma_hello_parts(*self);
            assert(v@ =~= hello_bytes(*self));
        }
        v
    }

    /// Reads a hello, checking everything but the capacities.
    pub fn decode(b: &[u8]) -> (r: Result<Self, IoError>)
        ensures
            match r {
                Ok(h) => parse_hello(b@) == Ok::<Hello, (ErrorKind, Seq<char>)>(h),
                Err(e) => parse_hello(b@) == Err::<Hello, (ErrorKind, Seq<char>)>(e@),
            },
    {
        if b.len() != HELLO_SIZE {
            return Err(IoError::new(ErrorKind::InvalidData, "shmsc: bad hello size"));
        }
        let magic: u64 = read_u64(b, 0);
        let version: u32 = read_u32(b, 8);
        if magic != MAGIC {
            return Err(IoError::new(ErrorKind::InvalidData, "shmsc: bad hello magic"));
        }
        if version != VERSION {
            return Err(
                IoError {
                    kind: ErrorKind::InvalidData,
                    message: with_number(
                        "shmsc: protocol version ",
                        version as u64,
                        " not supported",
                    ),
                },
            );
        }
        let stream_window: u32 = read_u32(b, 12);
        let c2s_cap: u64 = read_u64(b, 16);
        let s2c_cap: u64 = read_u64(b, 24);
        if stream_window == 0 {
            return Err(IoError::new(ErrorKind::InvalidData, "shmsc: zero window in hello"));
        }
        Ok(Hello { c2s_cap, s2c_cap, stream_window })
    }

    /// The hello for a segment of the given layout.
    pub fn for_layout(layout: &Layout, stream_window: u32) -> (r: Self)
        ensures
            r.c2s_cap == layout.c2s_cap,
            r.s2c_cap == layout.s2c_cap,
            r.stream_window == stream_window,
    {
        Hello { c2s_cap: layout.c2s_cap as u64, s2c_cap: layout.s2c_cap as u64, stream_window }
    }

    /// The layout of the segment that comes with this hello. The capacities are
    /// the peer's claim, so they are checked.
    pub fn layout(&self) -> (r: Result<Layout, IoError>)
        ensures
            match r {
                Ok(l) => l.wf() && l.c2s_cap == self.c2s_cap && l.s2c_cap == self.s2c_cap,
                Err(e) => {
                    let bad = if valid_cap(self.c2s_cap as int) {
                        self.s2c_cap
                    } else {
                        self.c2s_cap
                    };
                    &&& !valid_cap(bad as int)
                    &&& e@ == (
                        ErrorKind::InvalidInput,
                        "shmsc: invalid ring capacity "@ + decimal(bad as nat) + ""@,
                    )
                },
            },
    {
        proof {
            if valid_cap(self.c2s_cap as int) {
                lemma_cap_bounds(self.c2s_cap as int);
            }
            if valid_cap(self.s2c_cap as int) {
                lemma_cap_bounds(self.s2c_cap as int);
            }
        }
        if self.c2s_cap > MAX_RING_CAP as u64 {
            return Err(bad_capacity(self.c2s_cap));
        }
        if self.s2c_cap > MAX_RING_CAP as u64 {
            if cap_allowed(self.c2s_cap as usize) {
                return Err(bad_capacity(self.s2c_cap));
            }
            return Err(bad_capacity(self.c2s_cap));
        }
        Layout::new(self.c2s_cap as usize, self.s2c_cap as usize)
    }
}

proof fn lemma_hello_parts(h: Hello)
    ensures
        le_bytes(MAGIC as nat, 8).len() == 8,
        le_bytes(VERSION as nat, 4).len() == 4,
        le_bytes(h.stream_window as nat, 4).len() == 4,
        le_bytes(h.c2s_cap as nat, 8).len() == 8,
        le_bytes(h.s2c_cap as nat, 8).len() == 8,
        hello_bytes(h).len() == HELLO_SIZE,
        hello_bytes(h).subrange(0, 8) == le_bytes(MAGIC as nat, 8),
        hello_bytes(h).subrange(8, 12) == le_bytes(VERSION as nat, 4),
        hello_bytes(h).subrange(12, 16) == le_bytes(h.stream_window as nat, 4),
        hello_bytes(h).subrange(16, 24) == le_bytes(h.c2s_cap as nat, 8),
        hello_bytes(h).subrange(24, 32) == le_bytes(h.s2c_cap as nat, 8),
{
    let b = hello_bytes(h);
    lemma_le_bytes_len(MAGIC as nat, 8);
    lemma_le_bytes_len(VERSION as nat, 4);
    lemma_le_bytes_len(h.stream_window as nat, 4);
    lemma_le_bytes_len(h.c2s_cap as nat, 8);
    lemma_le_bytes_len(h.s2c_cap as nat, 8);
    assert(b.subrange(0, 8) =~= le_bytes(MAGIC as nat, 8));
    assert(b.subrange(8, 12) =~= le_bytes(VERSION as nat, 4));
    assert(b.subrange(12, 16) =~= le_bytes(h.stream_window as nat, 4));
    assert(b.subrange(16, 24) =~= le_bytes(h.c2s_cap as nat, 8));
    assert(b.subrange(24, 32) =~= le_bytes(h.s2c_cap as nat, 8));
}

/// A hello that was sent is read back as it was, unless its window is zero,
/// which no server configuration allows.
pub proof fn law_hello_roundtrip(h: Hello)
    ensures
        h.stream_window != 0 ==> parse_hello(hello_bytes(h)) == Ok::<
            Hello,
            (ErrorKind, Seq<char>),
        >(h),
        h.stream_window == 0 ==> parse_hello(hello_bytes(h)) is Err,
{
    lemma_hello_parts(h);
    lemma_pow256();
    lemma_value_of_bytes(MAGIC as nat, 8);
    lemma_value_of_bytes(VERSION as nat, 4);
    lemma_value_of_bytes(h.stream_window as nat, 4);
    lemma_value_of_bytes(h.c2s_cap as nat, 8);
    lemma_value_of_bytes(h.s2c_cap as nat, 8);
}

/// The two ends agree: the hello for a segment is read as it was sent, a layout with
/// the capacities that it names is the server's own, and the segment that the server
/// stamped passes the client's check.
pub proof fn law_ends_agree_on_the_segment(l: Layout, client: Layout, window: u32, rest: Seq<u8>)
    requires
        l.wf(),
        client.wf(),
        client.c2s_cap == l.c2s_cap,
        client.s2c_cap == l.s2c_cap,
        window > 0,
    ensures
        ({
            let h = Hello {
                c2s_cap: l.c2s_cap as u64,
                s2c_cap: l.s2c_cap as u64,
                stream_window: window,
            };
            &&& parse_hello(hello_bytes(h)) == Ok::<Hello, (ErrorKind, Seq<char>)>(h)
            &&& client == l
            &&& stamp_error(stamp(l) + rest, client) is None
        }),
{
    law_hello_roundtrip(
        Hello { c2s_cap: l.c2s_cap as u64, s2c_cap: l.s2c_cap as u64, stream_window: window },
    );
    law_stamp_checks(l, client, rest);
}

/// What is wrong with a message that should bring a hello of `len` bytes and a
/// descriptor, if anything: `n` bytes came.
pub open spec fn hello_message_error(truncated: bool, n: nat, has_fd: bool, len: nat) -> Option<
    (ErrorKind, Seq<char>),
> {
    if truncated {
        Some((ErrorKind::InvalidData, "shmsc: truncated control data"@))
    } else if n == 0 {
        Some((ErrorKind::UnexpectedEof, "shmsc: peer closed in hello"@))
    } else if !has_fd {
        Some((ErrorKind::InvalidData, "shmsc: hello arrived without a segment fd"@))
    } else if n != len {
        Some((ErrorKind::UnexpectedEof, "shmsc: short hello"@))
    } else {
        None
    }
}

/// Checks a message that should bring a hello and a descriptor.
pub fn check_hello_message(truncated: bool, n: usize, has_fd: bool, len: usize) -> (r: Result<
    (),
    IoError,
>)
    ensures
        match r {
            Ok(_) => hello_message_error(truncated, n as nat, has_fd, len as nat) is None,
            Err(e) => hello_message_error(truncated, n as nat, has_fd, len as nat) == Some(e@),
        },
{
    if truncated {
        return Err(IoError::new(ErrorKind::InvalidData, "shmsc: truncated control data"));
    }
    if n == 0 {
        return Err(IoError::new(ErrorKind::UnexpectedEof, "shmsc: peer closed in hello"));
    }
    if !has_fd {
        return Err(
            IoError::new(ErrorKind::InvalidData, "shmsc: hello arrived without a segment fd"),
        );
    }
    if n != len {
        return Err(IoError::new(ErrorKind::UnexpectedEof, "shmsc: short hello"));
    }
    Ok(())
}

/// Checks that a message went out whole.
pub fn check_sent(n: usize, len: usize) -> (r: Result<(), IoError>)
    ensures
        match r {
            Ok(_) => n == len,
            Err(e) => n != len && e@ == (ErrorKind::WriteZero, "shmsc: short sendmsg"@),
        },
{
    if n != len {
        return Err(IoError::new(ErrorKind::WriteZero, "shmsc: short sendmsg"));
    }
    Ok(())
}

/// Checks the byte by which the client answers.
pub fn check_ack(b: u8) -> (r: Result<(), IoError>)
    ensures
        match r {
            Ok(_) => b == HELLO_ACK,
            Err(e) => b != HELLO_ACK && e@ == (
                ErrorKind::InvalidData,
                "shmsc: bad handshake ack"@,
            ),
        },
{
    if b != HELLO_ACK {
        return Err(IoError::new(ErrorKind::InvalidData, "shmsc: bad handshake ack"));
    }
    Ok(())
}

/// A hello and behind it the name of a section, with its length in two bytes.
pub fn hello_with_name(hello: &Hello, name: &str) -> (r: Vec<u8>)
    requires
        vstd::utf8::encode_utf8(name@).len() <= 0xffff,
    ensures
        r@ == hello_bytes(*hello) + le_bytes(vstd::utf8::encode_utf8(name@).len(), 2)
            + vstd::utf8::encode_utf8(name@),
{
    let text = name.as_bytes();
    let mut v = hello.encode();
    v.extend_from_slice(u16_bytes(text.len() as u16).as_slice());
    v.extend_from_slice(text);
    assert(v@ =~= hello_bytes(*hello) + le_bytes(vstd::utf8::encode_utf8(name@).len(), 2)
        + vstd::utf8::encode_utf8(name@));
    v
}

/// Checks the length of a section name.
pub fn check_name_len(len: u16) -> (r: Result<usize, IoError>)
    ensures
        match r {
            Ok(n) => 0 < len <= MAX_SECTION_NAME && n == len,
            Err(e) => {
                &&& !(0 < len <= MAX_SECTION_NAME)
                &&& e@ == (
                    ErrorKind::InvalidData,
                    "shmsc: bad section name length in hello"@,
                )
            },
        },
{
    let n: usize = len as usize;
    if n == 0 || n > MAX_SECTION_NAME {
        return Err(
            IoError::new(ErrorKind::InvalidData, "shmsc: bad section name length in hello"),
        );
    }
    Ok(n)
}

/// Reads a section name.
pub fn section_name(b: &[u8]) -> (r: Result<String, IoError>)
    ensures
        match r {
            Ok(s) => vstd::utf8::valid_utf8(b@) && s@ == vstd::utf8::decode_utf8(b@),
            Err(e) => !vstd::utf8::valid_utf8(b@) && e@ == (
                ErrorKind::InvalidData,
                "shmsc: non-utf8 section name"@,
            ),
        },
{
    match utf8_text(b) {
        Some(s) => Ok(s),
        None => Err(IoError::new(ErrorKind::InvalidData, "shmsc: non-utf8 section name")),
    }
}

/// Each part of a hello: the magic bytes, the version 1, the window, and the capacities.
pub proof fn law_hello_byte_by_byte(h: Hello)
    ensures
        hello_bytes(h).len() == 32,
        hello_bytes(h).take(8) == seq![0x53u8, 0x48, 0x4d, 0x53, 0x43, 0x31, 0, 0],
        hello_bytes(h).subrange(8, 12) == seq![1u8, 0, 0, 0],
        u32_at(hello_bytes(h), 12) == h.stream_window,
        u64_at(hello_bytes(h), 16) == h.c2s_cap,
        u64_at(hello_bytes(h), 24) == h.s2c_cap,
        HELLO_SIZE == 32,
        HELLO_ACK == 165,
        MAX_SECTION_NAME == 256,
{
    lemma_hello_parts(h);
    lemma_pow256();
    lemma_value_of_bytes(h.stream_window as nat, 4);
    lemma_value_of_bytes(h.c2s_cap as nat, 8);
    lemma_value_of_bytes(h.s2c_cap as nat, 8);
    crate::seg::lemma_magic_bytes();
    crate::le::law_written_low_byte_first(1);
    assert(hello_bytes(h).take(8) =~= hello_bytes(h).subrange(0, 8));
}

/// A hello is taken exactly where it has 32 bytes, the magic bytes, the version 1 and a
/// window; it then says what stands in it. Otherwise the first of these that fails is named.
pub proof fn law_which_hellos_are_taken(b: Seq<u8>)
    ensures
        ({
            let sized = b.len() == 32;
            let magic = b.take(8) == seq![0x53u8, 0x48, 0x4d, 0x53, 0x43, 0x31, 0, 0];
            let version = b.subrange(8, 12) == seq![1u8, 0, 0, 0];
            let window = u32_at(b, 12) != 0;
            &&& parse_hello(b) is Ok <==> sized && magic && version && window
            &&& parse_hello(b) matches Ok(h) ==> h.c2s_cap == u64_at(b, 16) && h.s2c_cap == u64_at(
                b,
                24,
            ) && h.stream_window == u32_at(b, 12)
            &&& parse_hello(b) matches Err(e) ==> e.0 == ErrorKind::InvalidData && e.1
                == if !sized {
                "shmsc: bad hello size"@
            } else if !magic {
                "shmsc: bad hello magic"@
            } else if !version {
                "shmsc: protocol version "@ + decimal(u32_at(b, 8) as nat) + " not supported"@
            } else {
                "shmsc: zero window in hello"@
            }
        }),
{
    if b.len() == 32 {
        lemma_pow256();
        crate::seg::lemma_magic_bytes();
        crate::le::law_written_low_byte_first(1);
        assert(b.take(8) =~= b.subrange(0, 8));
        crate::le::lemma_bytes_of_value(b.subrange(0, 8));
        crate::le::lemma_bytes_of_value(b.subrange(8, 12));
        lemma_value_of_bytes(MAGIC as nat, 8);
        lemma_value_of_bytes(1, 4);
    }
}

/// A message brings a hello exactly where it came whole, with its descriptor; otherwise the
/// first thing that is wrong is named.
pub proof fn law_which_messages_bring_a_hello(truncated: bool, n: nat, has_fd: bool, len: nat)
    requires
        len > 0,
    ensures
        hello_message_error(truncated, n, has_fd, len) is None <==> !truncated && n == len
            && has_fd,
        truncated ==> hello_message_error(truncated, n, has_fd, len) == Some(
            (ErrorKind::InvalidData, "shmsc: truncated control data"@),
        ),
        !truncated && n == 0 ==> hello_message_error(truncated, n, has_fd, len) == Some(
            (ErrorKind::UnexpectedEof, "shmsc: peer closed in hello"@),
        ),
        !truncated && n > 0 && !has_fd ==> hello_message_error(truncated, n, has_fd, len) == Some(
            (ErrorKind::InvalidData, "shmsc: hello arrived without a segment fd"@),
        ),
        !truncated && n > 0 && n != len && has_fd ==> hello_message_error(truncated, n, has_fd, len)
            == Some((ErrorKind::UnexpectedEof, "shmsc: short hello"@)),
{
}

} // verus!
