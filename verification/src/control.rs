//! Payloads of the control frames.

use bytes::Bytes;
use vstd::prelude::*;

use crate::frame::{ProtocolError, RstCode};
use crate::outside::{
    buf_freeze, buf_put_slice, buf_put_u32_le, buf_with_capacity, bytes_get_u32_le, bytes_len,
    bytes_slice, lossy_text,
};

verus! {

use crate::frame::{rst_code_value, rst_of_value};
use crate::le::{le_bytes, le_value, lemma_le_bytes_len, lemma_pow256, lemma_value_of_bytes};
use crate::outside::{bytes_view, buf_view, lossy_text_of};
use vstd::utf8::{decode_utf8, encode_utf8, valid_utf8};

/// A GOAWAY payload: the last stream that is processed, a reserved error code,
/// and a text.
pub open spec fn goaway_bytes(last: u32, msg: Seq<char>) -> Seq<u8> {
    le_bytes(last as nat, 4) + le_bytes(0, 4) + encode_utf8(msg)
}

/// What a GOAWAY payload says, or what is wrong with it.
pub open spec fn parse_goaway(p: Seq<u8>) -> Result<(u32, Seq<char>), Seq<char>> {
    if p.len() < 8 {
        Err("short GOAWAY"@)
    } else {
        Ok((le_value(p.take(4)) as u32, lossy_text_of(p.skip(8))))
    }
}

/// A RST_STREAM payload.
pub open spec fn rst_bytes(code: RstCode) -> Seq<u8> {
    le_bytes(rst_code_value(code) as nat, 4)
}

/// What a RST_STREAM payload says, or what is wrong with it.
pub open spec fn parse_rst(p: Seq<u8>) -> Result<RstCode, Seq<char>> {
    if p.len() < 4 {
        Err("short RST_STREAM"@)
    } else {
        Ok(rst_of_value(le_value(p.take(4)) as u32))
    }
}

/// A WINDOW_UPDATE payload.
pub open spec fn window_update_bytes(incr: u32) -> Seq<u8> {
    le_bytes(incr as nat, 4)
}

/// What a WINDOW_UPDATE payload says, or what is wrong with it.
pub open spec fn parse_window_update(p: Seq<u8>) -> Result<u32, Seq<char>> {
    if p.len() != 4 {
        Err("bad WINDOW_UPDATE length"@)
    } else if le_value(p.take(4)) == 0 {
        Err("zero WINDOW_UPDATE increment"@)
    } else {
        Ok(le_value(p.take(4)) as u32)
    }
}

/// Encodes a GOAWAY payload.
pub fn encode_goaway(last_stream_id: u32, msg: &str) -> (r: Bytes)
    requires
        8 + encode_utf8(msg@).len() <= isize::MAX,
    ensures
        bytes_view(r) == goaway_bytes(last_stream_id, msg@),
{
    let text = msg.as_bytes();
    let mut b = buf_with_capacity(8 + text.len());
    proof {
        lemma_le_bytes_len(last_stream_id as nat, 4);
        lemma_le_bytes_len(0, 4);
    }
    buf_put_u32_le(&mut b, last_stream_id);
    buf_put_u32_le(&mut b, 0);
    buf_put_slice(&mut b, text);
    assert(buf_view(b) =~= goaway_bytes(last_stream_id, msg@));
    buf_freeze(b)
}

/// Decodes a GOAWAY payload into the last stream id and the text. Where the text
/// is not UTF-8 its invalid parts are replaced.
pub fn decode_goaway(payload: Bytes) -> (r: Result<(u32, String), ProtocolError>)
    ensures
        match (r, parse_goaway(bytes_view(payload))) {
            (Ok(g), Ok(v)) => g.0 == v.0 && g.1@ == v.1,
            (Err(e), Err(m)) => e.0@ == m,
            _ => false,
        },
        r matches Ok(g) ==> valid_utf8(bytes_view(payload).skip(8)) ==> g.1@ == decode_utf8(
            bytes_view(payload).skip(8),
        ),
{
    let ghost p = bytes_view(payload);
    let mut payload = payload;
    if bytes_len(&payload) < 8 {
        return Err(ProtocolError("short GOAWAY".to_owned()));
    }
    let last: u32 = bytes_get_u32_le(&mut payload);
    let _code: u32 = bytes_get_u32_le(&mut payload);
    assert(p.skip(4).skip(4) =~= p.skip(8));
    let msg = lossy_text(bytes_slice(&payload));
    Ok((last, msg))
}

/// Encodes a RST_STREAM payload.
pub fn encode_rst(code: RstCode) -> (r: Bytes)
    ensures
        bytes_view(r) == rst_bytes(code),
{
    let mut b = buf_with_capacity(4);
    buf_put_u32_le(&mut b, code.value());
    assert(buf_view(b) =~= rst_bytes(code));
    buf_freeze(b)
}

/// Decodes a RST_STREAM payload.
pub fn decode_rst(payload: Bytes) -> (r: Result<RstCode, ProtocolError>)
    ensures
        match (r, parse_rst(bytes_view(payload))) {
            (Ok(c), Ok(v)) => c == v,
            (Err(e), Err(m)) => e.0@ == m,
            _ => false,
        },
{
    let mut payload = payload;
    if bytes_len(&payload) < 4 {
        return Err(ProtocolError("short RST_STREAM".to_owned()));
    }
    Ok(RstCode::from_u32(bytes_get_u32_le(&mut payload)))
}

/// Encodes a WINDOW_UPDATE payload.
pub fn encode_window_update(incr: u32) -> (r: Bytes)
    ensures
        bytes_view(r) == window_update_bytes(incr),
{
    let mut b = buf_with_capacity(4);
    buf_put_u32_le(&mut b, incr);
    assert(buf_view(b) =~= window_update_bytes(incr));
    buf_freeze(b)
}

/// Decodes a WINDOW_UPDATE payload.
pub fn decode_window_update(payload: Bytes) -> (r: Result<u32, ProtocolError>)
    ensures
        match (r, parse_window_update(bytes_view(payload))) {
            (Ok(n), Ok(v)) => n == v,
            (Err(e), Err(m)) => e.0@ == m,
            _ => false,
        },
{
    let mut payload = payload;
    if bytes_len(&payload) != 4 {
        return Err(ProtocolError("bad WINDOW_UPDATE length".to_owned()));
    }
    let incr: u32 = bytes_get_u32_le(&mut payload);
    if incr == 0 {
        return Err(ProtocolError("zero WINDOW_UPDATE increment".to_owned()));
    }
    Ok(incr)
}

/// A RST_STREAM payload decodes to the code that it was made of.
pub proof fn law_rst_roundtrip(code: RstCode)
    ensures
        parse_rst(rst_bytes(code)) == Ok::<RstCode, Seq<char>>(code),
{
    let v = rst_code_value(code) as nat;
    lemma_le_bytes_len(v, 4);
    lemma_pow256();
    lemma_value_of_bytes(v, 4);
    assert(rst_bytes(code).take(4) =~= rst_bytes(code));
}

/// A WINDOW_UPDATE payload decodes to the increment that it was made of. A zero
/// increment is never accepted.
pub proof fn law_window_update_roundtrip(incr: u32)
    ensures
        incr > 0 ==> parse_window_update(window_update_bytes(incr)) == Ok::<u32, Seq<char>>(incr),
        incr == 0 ==> parse_window_update(window_update_bytes(incr)) is Err,
{
    lemma_le_bytes_len(incr as nat, 4);
    lemma_pow256();
    lemma_value_of_bytes(incr as nat, 4);
    assert(window_update_bytes(incr).take(4) =~= window_update_bytes(incr));
}

/// The parts of a GOAWAY payload are found again: the stream id, and the text
/// behind the two numbers.
pub proof fn law_goaway_roundtrip(last: u32, msg: Seq<char>)
    ensures
        parse_goaway(goaway_bytes(last, msg)) == Ok::<(u32, Seq<char>), Seq<char>>(
            (last, lossy_text_of(encode_utf8(msg))),
        ),
        goaway_bytes(last, msg).skip(8) == encode_utf8(msg),
        valid_utf8(goaway_bytes(last, msg).skip(8)),
        decode_utf8(goaway_bytes(last, msg).skip(8)) == msg,
{
    let p = goaway_bytes(last, msg);
    lemma_le_bytes_len(last as nat, 4);
    lemma_le_bytes_len(0, 4);
    lemma_pow256();
    lemma_value_of_bytes(last as nat, 4);
    assert(p.take(4) =~= le_bytes(last as nat, 4));
    assert(p.skip(8) =~= encode_utf8(msg));
    vstd::utf8::encode_utf8_valid_utf8(msg);
    vstd::utf8::encode_utf8_decode_utf8(msg);
}

proof fn lemma_first_number(p: Seq<u8>)
    requires
        p.len() >= 4,
    ensures
        le_value(p.take(4)) == p[0] + 256 * p[1] + 65536 * p[2] + 16777216 * p[3],
{
    crate::le::law_read_low_byte_first(p.take(4));
}

/// A WINDOW_UPDATE says the number in its four bytes; one of another length, or of zero,
/// is an error.
pub proof fn law_window_update_by_its_bytes(p: Seq<u8>)
    ensures
        parse_window_update(p) is Ok <==> p.len() == 4 && (p[0] != 0 || p[1] != 0 || p[2] != 0
            || p[3] != 0),
        parse_window_update(p) matches Ok(n) ==> n == p[0] + 256 * p[1] + 65536 * p[2] + 16777216
            * p[3],
{
    if p.len() == 4 {
        lemma_first_number(p);
    }
}

/// The bytes of a WINDOW_UPDATE, a RST_STREAM and a GOAWAY, for any content.
pub proof fn law_control_bytes(incr: u32, code: RstCode, last: u32, msg: Seq<char>)
    ensures
        window_update_bytes(incr) == seq![
            (incr % 256) as u8,
            (incr / 256 % 256) as u8,
            (incr / 65536 % 256) as u8,
            (incr / 16777216 % 256) as u8,
        ],
        rst_bytes(code) == match code {
            RstCode::Cancel => seq![1u8, 0, 0, 0],
            RstCode::Refused => seq![2u8, 0, 0, 0],
            RstCode::Internal => seq![3u8, 0, 0, 0],
        },
        goaway_bytes(last, msg) == seq![
            (last % 256) as u8,
            (last / 256 % 256) as u8,
            (last / 65536 % 256) as u8,
            (last / 16777216 % 256) as u8,
            0u8,
            0u8,
            0u8,
            0u8,
        ] + encode_utf8(msg),
{
    crate::le::law_written_low_byte_first(incr as nat);
    crate::le::law_written_low_byte_first(last as nat);
    crate::le::law_written_low_byte_first(0);
    crate::le::law_written_low_byte_first(1);
    crate::le::law_written_low_byte_first(2);
    crate::le::law_written_low_byte_first(3);
    assert(goaway_bytes(last, msg) =~= seq![
        (last % 256) as u8,
        (last / 256 % 256) as u8,
        (last / 65536 % 256) as u8,
        (last / 16777216 % 256) as u8,
        0u8,
        0u8,
        0u8,
        0u8,
    ] + encode_utf8(msg));
}

/// A RST_STREAM of at least four bytes is understood: 1 is a cancel, 2 a refusal, and
/// everything else an internal error. A shorter one is an error.
pub proof fn law_reset_by_its_bytes(p: Seq<u8>)
    ensures
        parse_rst(p) is Ok <==> p.len() >= 4,
        parse_rst(p) matches Ok(c) ==> {
            let n = p[0] + 256 * p[1] + 65536 * p[2] + 16777216 * p[3];
            &&& c == RstCode::Cancel <==> n == 1
            &&& c == RstCode::Refused <==> n == 2
            &&& c == RstCode::Internal <==> n != 1 && n != 2
        },
{
    if p.len() >= 4 {
        lemma_first_number(p);
    }
}

/// A GOAWAY of at least eight bytes is understood: the last stream in the first four, and
/// the text behind the eighth. A shorter one is an error.
pub proof fn law_goaway_by_its_bytes(p: Seq<u8>)
    ensures
        parse_goaway(p) is Ok <==> p.len() >= 8,
        parse_goaway(p) matches Ok(g) ==> {
            &&& g.0 == p[0] + 256 * p[1] + 65536 * p[2] + 16777216 * p[3]
            &&& g.1 == lossy_text_of(p.skip(8))
        },
{
    if p.len() >= 8 {
        lemma_first_number(p);
    }
}

} // verus!
