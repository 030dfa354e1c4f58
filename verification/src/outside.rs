//! What this library takes on trust from the crates it calls.
//!
//! Every item here names one function or type of `bytes`, `http` or the
//! standard library and says what is believed of it. Growing a buffer past
//! what the machine can allocate is not spoken of.

use bytes::{Buf, BufMut, Bytes, BytesMut};
use http::header::{InvalidHeaderName, InvalidHeaderValue};
use http::{HeaderMap, HeaderName, HeaderValue};
use vstd::prelude::*;

use crate::le::{le_bytes, le_value};

verus! {

// ---------------------------------------------------------------------
// bytes
// ---------------------------------------------------------------------

/// `bytes::Bytes`: a shared, immutable run of bytes.
#[verifier::external_type_specification]
#[verifier::external_body]
pub struct ExBytes(Bytes);

/// `bytes::BytesMut`: a growable run of bytes.
#[verifier::external_type_specification]
#[verifier::external_body]
pub struct ExBytesMut(BytesMut);

/// The bytes that a `Bytes` holds.
pub uninterp spec fn bytes_view(b: Bytes) -> Seq<u8>;

/// The bytes that a `BytesMut` holds.
pub uninterp spec fn buf_view(b: BytesMut) -> Seq<u8>;

/// `Bytes::new`: no bytes.
#[verifier::external_body]
pub(crate) fn bytes_new() -> (r: Bytes)
    ensures
        bytes_view(r) == Seq::<u8>::empty(),
{
    Bytes::new()
}

/// `Bytes::len`: the number of bytes held.
#[verifier::external_body]
pub(crate) fn bytes_len(b: &Bytes) -> (r: usize)
    ensures
        r == bytes_view(*b).len(),
{
    b.len()
}

/// `Bytes::deref`: the bytes held, as a slice.
#[verifier::external_body]
pub(crate) fn bytes_slice(b: &Bytes) -> (r: &[u8])
    ensures
        r@ == bytes_view(*b),
{
    &b[..]
}

/// `Buf::get_u16_le` on a `Bytes`: takes two bytes off the front and reads
/// them as a little-endian number.
#[verifier::external_body]
pub(crate) fn bytes_get_u16_le(b: &mut Bytes) -> (r: u16)
    requires
        bytes_view(*old(b)).len() >= 2,
    ensures
        r == le_value(bytes_view(*old(b)).take(2)),
        bytes_view(*final(b)) == bytes_view(*old(b)).skip(2),
{
    b.get_u16_le()
}

/// `Buf::get_u32_le` on a `Bytes`: takes four bytes off the front and reads
/// them as a little-endian number.
#[verifier::external_body]
pub(crate) fn bytes_get_u32_le(b: &mut Bytes) -> (r: u32)
    requires
        bytes_view(*old(b)).len() >= 4,
    ensures
        r == le_value(bytes_view(*old(b)).take(4)),
        bytes_view(*final(b)) == bytes_view(*old(b)).skip(4),
{
    b.get_u32_le()
}

/// `Bytes::split_to`: cuts the first `at` bytes off and hands them out.
#[verifier::external_body]
pub(crate) fn bytes_split_to(b: &mut Bytes, at: usize) -> (r: Bytes)
    requires
        at <= bytes_view(*old(b)).len(),
    ensures
        bytes_view(r) == bytes_view(*old(b)).take(at as int),
        bytes_view(*final(b)) == bytes_view(*old(b)).skip(at as int),
{
    b.split_to(at)
}

/// `BytesMut::with_capacity`: an empty buffer, whatever the capacity asked for.
#[verifier::external_body]
pub(crate) fn buf_with_capacity(capacity: usize) -> (r: BytesMut)
    requires
        capacity <= isize::MAX,
    ensures
        buf_view(r) == Seq::<u8>::empty(),
{
    BytesMut::with_capacity(capacity)
}

/// `BufMut::put_u16_le` on a `BytesMut`: appends the two little-endian bytes of
/// `x`.
#[verifier::external_body]
pub(crate) fn buf_put_u16_le(b: &mut BytesMut, x: u16)
    requires
        buf_view(*old(b)).len() + 2 <= isize::MAX,
    ensures
        buf_view(*final(b)) == buf_view(*old(b)) + le_bytes(x as nat, 2),
{
    b.put_u16_le(x)
}

/// `BufMut::put_u32_le` on a `BytesMut`: appends the four little-endian bytes
/// of `x`.
#[verifier::external_body]
pub(crate) fn buf_put_u32_le(b: &mut BytesMut, x: u32)
    requires
        buf_view(*old(b)).len() + 4 <= isize::MAX,
    ensures
        buf_view(*final(b)) == buf_view(*old(b)) + le_bytes(x as nat, 4),
{
    b.put_u32_le(x)
}

/// `BufMut::put_slice` on a `BytesMut`: appends `src`.
#[verifier::external_body]
pub(crate) fn buf_put_slice(b: &mut BytesMut, src: &[u8])
    requires
        buf_view(*old(b)).len() + src@.len() <= isize::MAX,
    ensures
        buf_view(*final(b)) == buf_view(*old(b)) + src@,
{
    b.put_slice(src)
}

/// `BytesMut::len`: the number of bytes held.
#[verifier::external_body]
pub(crate) fn buf_len(b: &BytesMut) -> (r: usize)
    ensures
        r == buf_view(*b).len(),
{
    b.len()
}

/// `BytesMut::deref`: the bytes held, as a slice.
#[verifier::external_body]
pub(crate) fn buf_slice(b: &BytesMut) -> (r: &[u8])
    ensures
        r@ == buf_view(*b),
{
    &b[..]
}

/// `Buf::advance` on a `BytesMut`: drops the first `cnt` bytes.
#[verifier::external_body]
pub(crate) fn buf_advance(b: &mut BytesMut, cnt: usize)
    requires
        cnt <= buf_view(*old(b)).len(),
    ensures
        buf_view(*final(b)) == buf_view(*old(b)).skip(cnt as int),
{
    b.advance(cnt)
}

/// `BytesMut::split_to`: cuts the first `at` bytes off and hands them out.
#[verifier::external_body]
pub(crate) fn buf_split_to(b: &mut BytesMut, at: usize) -> (r: BytesMut)
    requires
        at <= buf_view(*old(b)).len(),
    ensures
        buf_view(r) == buf_view(*old(b)).take(at as int),
        buf_view(*final(b)) == buf_view(*old(b)).skip(at as int),
{
    b.split_to(at)
}

/// `BytesMut::freeze`: the same bytes, immutable.
#[verifier::external_body]
pub(crate) fn buf_freeze(b: BytesMut) -> (r: Bytes)
    ensures
        bytes_view(r) == buf_view(b),
{
    b.freeze()
}

// ---------------------------------------------------------------------
// http
// ---------------------------------------------------------------------

/// `http::HeaderName`: a valid header name in lower case.
#[verifier::external_type_specification]
#[verifier::external_body]
pub struct ExHeaderName(HeaderName);

/// `http::HeaderValue`: a valid header value.
#[verifier::external_type_specification]
#[verifier::external_body]
pub struct ExHeaderValue(HeaderValue);

/// `http::header::InvalidHeaderName`.
#[verifier::external_type_specification]
#[verifier::external_body]
pub struct ExInvalidHeaderName(InvalidHeaderName);

/// `http::header::InvalidHeaderValue`.
#[verifier::external_type_specification]
#[verifier::external_body]
pub struct ExInvalidHeaderValue(InvalidHeaderValue);

/// `http::HeaderMap`: an ordered multimap from header names.
#[verifier::external_type_specification]
#[verifier::external_body]
#[verifier::reject_recursive_types(T)]
pub struct ExHeaderMap<T>(HeaderMap<T>);

/// The bytes of a header name.
pub uninterp spec fn header_name_view(n: HeaderName) -> Seq<u8>;

/// The bytes of a header value.
pub uninterp spec fn header_value_view(v: HeaderValue) -> Seq<u8>;

/// What a header map holds, each value with its name, in the order in which
/// the map is walked.
pub uninterp spec fn header_map_view(m: HeaderMap<HeaderValue>) -> Seq<(Seq<u8>, Seq<u8>)>;

/// A byte that may stand in a header name: a letter, a digit or one of
/// ``!#$%&'*+-.^_`|~``.
pub open spec fn header_name_byte(b: u8) -> bool {
    ||| 0x30 <= b <= 0x39
    ||| 0x41 <= b <= 0x5a
    ||| 0x61 <= b <= 0x7a
    ||| b == 0x21
    ||| 0x23 <= b <= 0x27
    ||| b == 0x2a
    ||| b == 0x2b
    ||| b == 0x2d
    ||| b == 0x2e
    ||| 0x5e <= b <= 0x60
    ||| b == 0x7c
    ||| b == 0x7e
}

/// Bytes that make a header name.
pub open spec fn valid_header_name(s: Seq<u8>) -> bool {
    &&& 0 < s.len() <= 0xffff
    &&& forall|i: int| 0 <= i < s.len() ==> header_name_byte(#[trigger] s[i])
}

/// An ASCII letter in lower case; any other byte as it is.
pub open spec fn lower_byte(b: u8) -> u8 {
    if 0x41 <= b <= 0x5a {
        (b + 0x20) as u8
    } else {
        b
    }
}

/// Bytes with the ASCII letters in lower case.
pub open spec fn lower(s: Seq<u8>) -> Seq<u8> {
    s.map_values(|b: u8| lower_byte(b))
}

/// Bytes that make a header value: visible ones, blank, tab, and those above
/// ASCII.
pub open spec fn valid_header_value(s: Seq<u8>) -> bool {
    forall|i: int| 0 <= i < s.len() ==> #[trigger] s[i] >= 32 && s[i] != 127 || s[i] == 9
}

/// Whether an entry of `e` carries the name `n`.
pub open spec fn mentions(e: Seq<(Seq<u8>, Seq<u8>)>, n: Seq<u8>) -> bool {
    exists|i: int| 0 <= i < e.len() && (#[trigger] e[i]).0 == n
}

/// `e` with the value `v` added under `n`: behind the last entry of that name,
/// or at the end where there is none.
pub open spec fn append_entry(e: Seq<(Seq<u8>, Seq<u8>)>, n: Seq<u8>, v: Seq<u8>) -> Seq<
    (Seq<u8>, Seq<u8>),
>
    decreases e.len(),
{
    if e.len() == 0 || e.last().0 == n || !mentions(e, n) {
        e.push((n, v))
    } else {
        append_entry(e.drop_last(), n, v).push(e.last())
    }
}

/// Name and value bytes, each by what it holds.
pub open spec fn pairs_view(v: Seq<(Vec<u8>, Vec<u8>)>) -> Seq<(Seq<u8>, Seq<u8>)> {
    v.map_values(|p: (Vec<u8>, Vec<u8>)| (p.0@, p.1@))
}

/// `HeaderName::from_bytes`: succeeds exactly on valid names, which it puts in
/// lower case.
#[verifier::external_body]
pub(crate) fn header_name_from_bytes(src: &[u8]) -> (r: Result<HeaderName, InvalidHeaderName>)
    ensures
        r is Ok <==> valid_header_name(src@),
        r matches Ok(n) ==> header_name_view(n) == lower(src@),
{
    HeaderName::from_bytes(src)
}

/// `HeaderValue::from_bytes`: succeeds exactly on valid values, and keeps them.
#[verifier::external_body]
pub(crate) fn header_value_from_bytes(src: &[u8]) -> (r: Result<HeaderValue, InvalidHeaderValue>)
    ensures
        r is Ok <==> valid_header_value(src@),
        r matches Ok(v) ==> header_value_view(v) == src@,
{
    HeaderValue::from_bytes(src)
}

/// `HeaderMap::new`: an empty map.
#[verifier::external_body]
pub(crate) fn header_map_new() -> (r: HeaderMap<HeaderValue>)
    ensures
        header_map_view(r) == Seq::<(Seq<u8>, Seq<u8>)>::empty(),
{
    HeaderMap::new()
}

/// `HeaderMap::append`: adds a value behind those that its name already has,
/// or a new name at the end. The map refuses to grow only far beyond the
/// number of entries required here.
#[verifier::external_body]
pub(crate) fn header_map_append(m: &mut HeaderMap<HeaderValue>, n: HeaderName, v: HeaderValue)
    requires
        header_map_view(*old(m)).len() <= 4096,
    ensures
        header_map_view(*final(m)) == append_entry(
            header_map_view(*old(m)),
            header_name_view(n),
            header_value_view(v),
        ),
{
    m.append(n, v);
}

/// `e` with `v` as the only value under `n`: in the place of the first one, or
/// at the end where there is none.
pub open spec fn insert_entry(e: Seq<(Seq<u8>, Seq<u8>)>, n: Seq<u8>, v: Seq<u8>) -> Seq<
    (Seq<u8>, Seq<u8>),
>
    decreases e.len(),
{
    if e.len() == 0 {
        seq![(n, v)]
    } else if e[0].0 == n {
        seq![(n, v)] + e.drop_first().filter(|x: (Seq<u8>, Seq<u8>)| x.0 != n)
    } else {
        seq![e[0]] + insert_entry(e.drop_first(), n, v)
    }
}

/// `HeaderMap::insert`: makes `v` the only value of its name. The map refuses to
/// grow only far beyond the number of entries required here.
#[verifier::external_body]
pub(crate) fn header_map_insert(m: &mut HeaderMap<HeaderValue>, n: HeaderName, v: HeaderValue)
    requires
        header_map_view(*old(m)).len() <= 4096,
    ensures
        header_map_view(*final(m)) == insert_entry(
            header_map_view(*old(m)),
            header_name_view(n),
            header_value_view(v),
        ),
{
    m.insert(n, v);
}

/// `HeaderMap::iter`: hands out each value with its name, in the order in which
/// the map is walked.
#[verifier::external_body]
pub(crate) fn header_map_entries(m: &HeaderMap<HeaderValue>) -> (r: Vec<(Vec<u8>, Vec<u8>)>)
    ensures
        pairs_view(r@) == header_map_view(*m),
{
    m.iter().map(|(n, v)| (n.as_str().as_bytes().to_vec(), v.as_bytes().to_vec())).collect()
}

/// A number that is an HTTP status code.
pub open spec fn is_status_code(s: u16) -> bool {
    100 <= s <= 999
}

/// `StatusCode::from_u16`: keeps a number from 100 to 999 and refuses any other.
#[verifier::external_body]
pub(crate) fn status_code(s: u16) -> (r: Option<u16>)
    ensures
        r == if is_status_code(s) {
            Some(s)
        } else {
            None
        },
{
    http::StatusCode::from_u16(s).ok().map(|c| c.as_u16())
}

/// The path and the shown form of the URI that a text spells, if it is a URI.
pub uninterp spec fn uri_of_text(text: Seq<char>) -> Option<(Seq<char>, Seq<char>)>;

/// A character that a URI path holds as it is.
pub open spec fn path_char(c: char) -> bool {
    let v = c as u32;
    ||| v == 0x21
    ||| v == 0x22
    ||| 0x24 <= v <= 0x3b
    ||| v == 0x3d
    ||| 0x40 <= v <= 0x5f
    ||| 0x61 <= v <= 0x7e
    ||| v >= 0x80
}

/// A path that survives in a URI unchanged: it starts with a slash and holds
/// only characters that need no escaping.
pub open spec fn plain_path(p: Seq<char>) -> bool {
    &&& p.len() > 0
    &&& p[0] == '/'
    &&& forall|i: int| 0 <= i < p.len() ==> path_char(#[trigger] p[i])
}

/// What follows the scheme and the placeholder host in an endpoint URI.
pub open spec fn endpoint_path(text: Seq<char>) -> Seq<char> {
    text.skip("shmsc://localhost"@.len() as int)
}

/// The endpoint URI of a plain path, short enough for a URI.
pub open spec fn plain_endpoint(text: Seq<char>) -> bool {
    &&& text == "shmsc://localhost"@ + endpoint_path(text)
    &&& plain_path(endpoint_path(text))
    &&& vstd::utf8::encode_utf8(text).len() <= 65534
}

/// Path and shown form, each by what it holds.
pub open spec fn uri_parts_view(r: Option<(String, String)>) -> Option<(Seq<char>, Seq<char>)> {
    match r {
        Some(u) => Some((u.0@, u.1@)),
        None => None,
    }
}

/// The path part, where there is one.
pub open spec fn path_part(r: Option<(String, String)>) -> Seq<char> {
    match r {
        Some(u) => u.0@,
        None => Seq::empty(),
    }
}

/// `Uri::from_str`: the path and the shown form of the URI that `text` spells,
/// or `None` where `text` is not a URI. Behind the scheme and host named here a
/// plain path comes out as it went in, as long as the text is short enough.
#[verifier::external_body]
pub(crate) fn parse_uri(text: &str) -> (r: Option<(String, String)>)
    ensures
        uri_parts_view(r) == uri_of_text(text@),
        plain_endpoint(text@) ==> r is Some && path_part(r) == endpoint_path(text@),
{
    text.parse::<http::Uri>().ok().map(|u| (u.path().to_owned(), u.to_string()))
}

// ---------------------------------------------------------------------
// the standard library
// ---------------------------------------------------------------------

/// A text in quotes, as `Debug` writes it.
pub uninterp spec fn quoted_text_of(s: Seq<char>) -> Seq<char>;

/// `Debug` of `str`: the text in quotes, with what needs escaping escaped.
#[verifier::external_body]
pub(crate) fn quoted_text(s: &str) -> (r: String)
    ensures
        r@ == quoted_text_of(s@),
{
    format!("{s:?}")
}

/// The text that `String::from_utf8_lossy` makes of any bytes.
pub uninterp spec fn lossy_text_of(b: Seq<u8>) -> Seq<char>;

/// `str::from_utf8`: the text that `b` encodes, if it is UTF-8.
#[verifier::external_body]
pub(crate) fn utf8_text(b: &[u8]) -> (r: Option<String>)
    ensures
        r is Some <==> vstd::utf8::valid_utf8(b@),
        r matches Some(s) ==> s@ == vstd::utf8::decode_utf8(b@),
{
    match std::str::from_utf8(b) {
        Ok(s) => Some(s.to_owned()),
        Err(_) => None,
    }
}

/// `String::from_utf8_lossy`: the text that `b` encodes where it is UTF-8, and
/// otherwise that text with each invalid part replaced.
#[verifier::external_body]
pub(crate) fn lossy_text(b: &[u8]) -> (r: String)
    ensures
        r@ == lossy_text_of(b@),
        vstd::utf8::valid_utf8(b@) ==> r@ == vstd::utf8::decode_utf8(b@),
{
    String::from_utf8_lossy(b).into_owned()
}

} // verus!
