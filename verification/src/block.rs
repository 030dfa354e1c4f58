//! Header and trailer blocks: flat lists of names and values.
//!
//! ```text
//!   count u16, then per entry: name_len u16, name, value_len u32, value
//! ```

use bytes::{Bytes, BytesMut};
use http::{HeaderMap, HeaderValue};
use vstd::prelude::*;

use crate::frame::{ProtocolError, MAX_FRAME_PAYLOAD, MAX_HEADER_BLOCK, MAX_HEADER_ENTRIES};
use crate::outside::{
    buf_freeze, buf_put_slice, buf_put_u16_le, buf_put_u32_le, buf_slice, buf_with_capacity,
    bytes_get_u16_le, bytes_get_u32_le, bytes_len, bytes_slice, bytes_split_to, header_map_append,
    header_map_entries, header_map_new, header_name_from_bytes, header_value_from_bytes, utf8_text,
};
use crate::text::{decimal_vec, parse_u16};

verus! {

use crate::le::{
    le_bytes, le_value, lemma_le_bytes_len, lemma_le_bytes_truncate, lemma_pow256,
    lemma_value_of_bytes,
};
use crate::outside::{
    append_entry, bytes_view, buf_view, header_map_view, header_name_byte, lower, mentions, pairs_view,
    valid_header_name, valid_header_value,
};
use crate::text::{decimal_bytes, law_decimal_roundtrip, parsed_u16};
use vstd::utf8::{decode_utf8, encode_utf8, valid_utf8};

/// A decoded header block: pseudo-entries and regular headers.
#[derive(Debug)]
pub struct HeaderBlock {
    pub path: Option<String>,
    pub authority: Option<String>,
    pub status: Option<u16>,
    pub headers: HeaderMap<HeaderValue>,
}

/// What a header block holds.
pub struct BlockView {
    pub path: Option<Seq<char>>,
    pub authority: Option<Seq<char>>,
    pub status: Option<u16>,
    pub headers: Seq<(Seq<u8>, Seq<u8>)>,
}

/// An optional text by what it holds.
pub open spec fn text_view(s: Option<String>) -> Option<Seq<char>> {
    match s {
        Some(t) => Some(t@),
        None => None,
    }
}

impl View for HeaderBlock {
    type V = BlockView;

    open spec fn view(&self) -> BlockView {
        BlockView {
            path: text_view(self.path),
            authority: text_view(self.authority),
            status: self.status,
            headers: header_map_view(self.headers),
        }
    }
}

/// A block without entries.
pub open spec fn empty_block() -> BlockView {
    BlockView { path: None, authority: None, status: None, headers: Seq::empty() }
}

/// The bytes of `:path`.
pub open spec fn path_name() -> Seq<u8> {
    seq![0x3a, 0x70, 0x61, 0x74, 0x68]
}

/// The bytes of `:authority`.
pub open spec fn authority_name() -> Seq<u8> {
    seq![0x3a, 0x61, 0x75, 0x74, 0x68, 0x6f, 0x72, 0x69, 0x74, 0x79]
}

/// The bytes of `:status`.
pub open spec fn status_name() -> Seq<u8> {
    seq![0x3a, 0x73, 0x74, 0x61, 0x74, 0x75, 0x73]
}

// ---------------------------------------------------------------------
// encoding
// ---------------------------------------------------------------------

/// An entry as it stands in a block.
pub open spec fn entry_bytes(name: Seq<u8>, value: Seq<u8>) -> Seq<u8> {
    le_bytes(name.len(), 2) + name + le_bytes(value.len(), 4) + value
}

/// Entries one after the other.
pub open spec fn entries_bytes(e: Seq<(Seq<u8>, Seq<u8>)>) -> Seq<u8>
    decreases e.len(),
{
    if e.len() == 0 {
        Seq::empty()
    } else {
        entries_bytes(e.drop_last()) + entry_bytes(e.last().0, e.last().1)
    }
}

/// The pseudo-entries of a block, in their order.
pub open spec fn pseudo_entries(b: BlockView) -> Seq<(Seq<u8>, Seq<u8>)> {
    (match b.path {
        Some(p) => seq![(path_name(), encode_utf8(p))],
        None => Seq::empty(),
    }) + (match b.authority {
        Some(a) => seq![(authority_name(), encode_utf8(a))],
        None => Seq::empty(),
    }) + (match b.status {
        Some(s) => seq![(status_name(), decimal_bytes(s as nat))],
        None => Seq::empty(),
    })
}

/// All entries of a block: the pseudo-entries and then the headers.
pub open spec fn block_entries(b: BlockView) -> Seq<(Seq<u8>, Seq<u8>)> {
    pseudo_entries(b) + b.headers
}

/// A block as it stands in a payload.
pub open spec fn block_bytes(b: BlockView) -> Seq<u8> {
    le_bytes(block_entries(b).len(), 2) + entries_bytes(block_entries(b))
}

/// The arguments of an encoding, by what they hold.
pub open spec fn block_of(
    path: Option<&str>,
    authority: Option<&str>,
    status: Option<u16>,
    headers: HeaderMap<HeaderValue>,
) -> BlockView {
    BlockView {
        path: match path {
            Some(p) => Some(p@),
            None => None,
        },
        authority: match authority {
            Some(a) => Some(a@),
            None => None,
        },
        status,
        headers: header_map_view(headers),
    }
}

/// Appends one entry to `body`.
fn put_entry(body: &mut BytesMut, name: &[u8], value: &[u8])
    requires
        buf_view(*old(body)).len() + entry_bytes(name@, value@).len() <= isize::MAX,
    ensures
        buf_view(*final(body)) == buf_view(*old(body)) + entry_bytes(name@, value@),
{
    let n: usize = name.len();
    let v: usize = value.len();
    let n64: u64 = n as u64;
    let v64: u64 = v as u64;
    let n16: u16 = #[verifier::truncate] (n64 as u16);
    let v32: u32 = #[verifier::truncate] (v64 as u32);
    proof {
        lemma_le_bytes_len(n as nat, 2);
        lemma_le_bytes_len(v as nat, 4);
        lemma_pow256();
        assert(n16 == n64 % 0x1_0000) by (bit_vector)
            requires
                n16 == n64 as u16,
        ;
        assert(v32 == v64 % 0x1_0000_0000) by (bit_vector)
            requires
                v32 == v64 as u32,
        ;
        lemma_le_bytes_truncate(n as nat, 2);
        lemma_le_bytes_truncate(v as nat, 4);
    }
    buf_put_u16_le(body, n16);
    buf_put_slice(body, name);
    buf_put_u32_le(body, v32);
    buf_put_slice(body, value);
    assert(buf_view(*body) =~= buf_view(*old(body)) + entry_bytes(name@, value@));
}

proof fn lemma_entries_push(e: Seq<(Seq<u8>, Seq<u8>)>, x: (Seq<u8>, Seq<u8>))
    ensures
        entries_bytes(e.push(x)) == entries_bytes(e) + entry_bytes(x.0, x.1),
{
    assert(e.push(x).drop_last() =~= e);
}

proof fn lemma_entries_concat(a: Seq<(Seq<u8>, Seq<u8>)>, b: Seq<(Seq<u8>, Seq<u8>)>)
    ensures
        entries_bytes(a + b) == entries_bytes(a) + entries_bytes(b),
    decreases b.len(),
{
    if b.len() == 0 {
        assert(a + b =~= a);
        assert(entries_bytes(a) + entries_bytes(b) =~= entries_bytes(a));
    } else {
        lemma_entries_concat(a, b.drop_last());
        assert((a + b).drop_last() =~= a + b.drop_last());
        assert(entries_bytes(a + b) =~= entries_bytes(a) + entries_bytes(b));
    }
}

proof fn lemma_entries_prefix_len(e: Seq<(Seq<u8>, Seq<u8>)>, k: int)
    requires
        0 <= k <= e.len(),
    ensures
        entries_bytes(e.take(k)).len() <= entries_bytes(e).len(),
{
    lemma_entries_concat(e.take(k), e.skip(k));
    assert(e.take(k) + e.skip(k) =~= e);
}

/// Appends the entry `x` as the `k`-th of `all`.
fn put_next(
    body: &mut BytesMut,
    name: &[u8],
    value: &[u8],
    all: Ghost<Seq<(Seq<u8>, Seq<u8>)>>,
    k: Ghost<int>,
)
    requires
        0 <= k@ < all@.len(),
        all@[k@] == (name@, value@),
        buf_view(*old(body)) == entries_bytes(all@.take(k@)),
        entries_bytes(all@).len() <= isize::MAX,
    ensures
        buf_view(*final(body)) == entries_bytes(all@.take(k@ + 1)),
{
    proof {
        assert(all@.take(k@ + 1) =~= all@.take(k@).push(all@[k@]));
        lemma_entries_push(all@.take(k@), all@[k@]);
        lemma_entries_prefix_len(all@, k@ + 1);
    }
    put_entry(body, name, value);
}

/// Encodes a header block: the pseudo-entries that are given, then the headers.
pub fn encode_header_block(
    path: Option<&str>,
    authority: Option<&str>,
    status: Option<u16>,
    headers: &HeaderMap<HeaderValue>,
) -> (r: Bytes)
    requires
        block_entries(block_of(path, authority, status, *headers)).len() <= 0xffff,
        block_bytes(block_of(path, authority, status, *headers)).len() <= isize::MAX,
    ensures
        bytes_view(r) == block_bytes(block_of(path, authority, status, *headers)),
{
    let ghost b = block_of(path, authority, status, *headers);
    let ghost all = block_entries(b);
    let mut out = buf_with_capacity(256);
    let mut count: u16 = 0;
    let mut body = buf_with_capacity(256);
    let path_key: [u8; 5] = [0x3a, 0x70, 0x61, 0x74, 0x68];
    let authority_key: [u8; 10] = [
        0x3a,
        0x61,
        0x75,
        0x74,
        0x68,
        0x6f,
        0x72,
        0x69,
        0x74,
        0x79,
    ];
    let status_key: [u8; 7] = [0x3a, 0x73, 0x74, 0x61, 0x74, 0x75, 0x73];
    proof {
        lemma_le_bytes_len(all.len(), 2);
        assert(path_key@ =~= path_name());
        assert(authority_key@ =~= authority_name());
        assert(status_key@ =~= status_name());
        assert(all.take(0) =~= Seq::<(Seq<u8>, Seq<u8>)>::empty());
    }
    if let Some(p) = path {
        put_next(&mut body, path_key.as_slice(), p.as_bytes(), Ghost(all), Ghost(count as int));
        count += 1;
    }
    if let Some(a) = authority {
        put_next(&mut body, authority_key.as_slice(), a.as_bytes(), Ghost(all), Ghost(count as int));
        count += 1;
    }
    if let Some(s) = status {
        let digits = decimal_vec(s);
        put_next(&mut body, status_key.as_slice(), digits.as_slice(), Ghost(all), Ghost(count as int));
        count += 1;
    }
    let list = header_map_entries(headers);
    let ghost base = pseudo_entries(b).len();
    let mut i: usize = 0;
    while i < list.len()
        invariant
            i <= list@.len(),
            all == pseudo_entries(b) + pairs_view(list@),
            base == pseudo_entries(b).len(),
            count == base + i,
            all.len() <= 0xffff,
            entries_bytes(all).len() <= isize::MAX,
            buf_view(body) == entries_bytes(all.take(count as int)),
        decreases list@.len() - i,
    {
        assert(all[count as int] == (list@[i as int].0@, list@[i as int].1@));
        put_next(
            &mut body,
            list[i].0.as_slice(),
            list[i].1.as_slice(),
            Ghost(all),
            Ghost(count as int),
        );
        count += 1;
        i += 1;
    }
    assert(all.take(count as int) =~= all);
    buf_put_u16_le(&mut out, count);
    buf_put_slice(&mut out, buf_slice(&body));
    assert(buf_view(out) =~= block_bytes(b));
    buf_freeze(out)
}

/// A block that fits in a frame, and whose entries can be counted.
pub open spec fn fits(b: BlockView) -> bool {
    block_entries(b).len() <= 0xffff && block_bytes(b).len() <= MAX_FRAME_PAYLOAD
}

/// The size with one more entry, while it is within the cap.
fn grow(size: usize, name: usize, value: usize) -> (r: Option<usize>)
    requires
        size <= MAX_FRAME_PAYLOAD,
    ensures
        match r {
            Some(n) => n == size + 6 + name + value && n <= MAX_FRAME_PAYLOAD,
            None => size + 6 + name + value > MAX_FRAME_PAYLOAD,
        },
{
    let left: usize = MAX_FRAME_PAYLOAD - size;
    if left < 6 || name > left - 6 || value > left - 6 - name {
        None
    } else {
        Some(size + 6 + name + value)
    }
}

/// Counts the `k`-th entry of `all` in.
fn grow_next(
    size: usize,
    name: &[u8],
    value: &[u8],
    all: Ghost<Seq<(Seq<u8>, Seq<u8>)>>,
    k: Ghost<int>,
) -> (r: Option<usize>)
    requires
        0 <= k@ < all@.len(),
        all@[k@] == (name@, value@),
        size <= MAX_FRAME_PAYLOAD,
        size == 2 + entries_bytes(all@.take(k@)).len(),
    ensures
        match r {
            Some(n) => n <= MAX_FRAME_PAYLOAD && n == 2 + entries_bytes(all@.take(k@ + 1)).len(),
            None => 2 + entries_bytes(all@).len() > MAX_FRAME_PAYLOAD,
        },
{
    proof {
        assert(all@.take(k@ + 1) =~= all@.take(k@).push(all@[k@]));
        lemma_entries_push(all@.take(k@), all@[k@]);
        lemma_entries_prefix_len(all@, k@ + 1);
        lemma_le_bytes_len(name@.len(), 2);
        lemma_le_bytes_len(value@.len(), 4);
    }
    grow(size, name.len(), value.len())
}

/// Whether a header block fits in a frame.
pub fn block_fits(
    path: Option<&str>,
    authority: Option<&str>,
    status: Option<u16>,
    headers: &HeaderMap<HeaderValue>,
) -> (r: bool)
    ensures
        r == fits(block_of(path, authority, status, *headers)),
{
    let ghost b = block_of(path, authority, status, *headers);
    let ghost all = block_entries(b);
    let path_key: [u8; 5] = [0x3a, 0x70, 0x61, 0x74, 0x68];
    let authority_key: [u8; 10] = [
        0x3a,
        0x61,
        0x75,
        0x74,
        0x68,
        0x6f,
        0x72,
        0x69,
        0x74,
        0x79,
    ];
    let status_key: [u8; 7] = [0x3a, 0x73, 0x74, 0x61, 0x74, 0x75, 0x73];
    proof {
        lemma_le_bytes_len(all.len(), 2);
        assert(path_key@ =~= path_name());
        assert(authority_key@ =~= authority_name());
        assert(status_key@ =~= status_name());
        assert(all.take(0) =~= Seq::<(Seq<u8>, Seq<u8>)>::empty());
    }
    let mut size: usize = 2;
    let mut count: usize = 0;
    if let Some(p) = path {
        match grow_next(size, path_key.as_slice(), p.as_bytes(), Ghost(all), Ghost(count as int)) {
            Some(n) => {
                size = n;
            },
            None => {
                return false;
            },
        }
        count = count + 1;
    }
    if let Some(a) = authority {
        match grow_next(
            size,
            authority_key.as_slice(),
            a.as_bytes(),
            Ghost(all),
            Ghost(count as int),
        ) {
            Some(n) => {
                size = n;
            },
            None => {
                return false;
            },
        }
        count = count + 1;
    }
    if let Some(s) = status {
        let digits = decimal_vec(s);
        match grow_next(
            size,
            status_key.as_slice(),
            digits.as_slice(),
            Ghost(all),
            Ghost(count as int),
        ) {
            Some(n) => {
                size = n;
            },
            None => {
                return false;
            },
        }
        count = count + 1;
    }
    let list = header_map_entries(headers);
    if list.len() > 0xffff - count {
        return false;
    }
    let mut i: usize = 0;
    while i < list.len()
        invariant
            i <= list@.len(),
            b == block_of(path, authority, status, *headers),
            all == block_entries(b),
            all == pseudo_entries(b) + pairs_view(list@),
            count == pseudo_entries(b).len(),
            all.len() <= 0xffff,
            size <= MAX_FRAME_PAYLOAD,
            size == 2 + entries_bytes(all.take(count + i)).len(),
        decreases list@.len() - i,
    {
        assert(all[count + i] == (list@[i as int].0@, list@[i as int].1@));
        match grow_next(
            size,
            list[i].0.as_slice(),
            list[i].1.as_slice(),
            Ghost(all),
            Ghost(count + i),
        ) {
            Some(n) => {
                size = n;
            },
            None => {
                assert(block_bytes(b).len() > MAX_FRAME_PAYLOAD) by {
                    lemma_le_bytes_len(all.len(), 2);
                }
                return false;
            },
        }
        i += 1;
    }
    assert(all.take(count + list@.len()) =~= all);
    true
}

// ---------------------------------------------------------------------
// decoding
// ---------------------------------------------------------------------

/// A block after one more entry. A later pseudo-entry replaces an earlier one.
pub open spec fn add_entry(b: BlockView, name: Seq<u8>, value: Seq<u8>) -> Result<
    BlockView,
    Seq<char>,
> {
    if name == path_name() {
        if valid_utf8(value) {
            Ok(BlockView { path: Some(decode_utf8(value)), ..b })
        } else {
            Err("non-utf8 :path"@)
        }
    } else if name == authority_name() {
        if valid_utf8(value) {
            Ok(BlockView { authority: Some(decode_utf8(value)), ..b })
        } else {
            Err("non-utf8 :authority"@)
        }
    } else if name == status_name() {
        match parsed_u16(value) {
            Some(s) => Ok(BlockView { status: Some(s), ..b }),
            None => Err("bad :status"@),
        }
    } else if !valid_header_name(name) {
        Err("invalid header name"@)
    } else if !valid_header_value(value) {
        Err("invalid header value"@)
    } else {
        Ok(BlockView { headers: append_entry(b.headers, lower(name), value), ..b })
    }
}

/// What `n` entries at the front of `buf` and the end right behind them add to
/// a block, or the first thing that is wrong.
pub open spec fn add_entries(buf: Seq<u8>, n: nat, b: BlockView) -> Result<BlockView, Seq<char>>
    decreases n,
{
    if n == 0 {
        if buf.len() != 0 {
            Err("trailing bytes after header block"@)
        } else {
            Ok(b)
        }
    } else if buf.len() < 2 {
        Err("truncated header name length"@)
    } else {
        let nlen = le_value(buf.take(2)) as int;
        let rest = buf.skip(2);
        if rest.len() < nlen + 4 {
            Err("truncated header name"@)
        } else {
            let vlen = le_value(rest.skip(nlen).take(4)) as int;
            let tail = rest.skip(nlen).skip(4);
            if tail.len() < vlen {
                Err("truncated header value"@)
            } else {
                match add_entry(b, rest.take(nlen), tail.take(vlen)) {
                    Err(e) => Err(e),
                    Ok(b2) => add_entries(tail.skip(vlen), (n - 1) as nat, b2),
                }
            }
        }
    }
}

/// The block that a payload holds, or what is wrong with it.
pub open spec fn decode_block(buf: Seq<u8>) -> Result<BlockView, Seq<char>> {
    if buf.len() > MAX_HEADER_BLOCK {
        Err("header block exceeds cap"@)
    } else if buf.len() < 2 {
        Err("short header block"@)
    } else if le_value(buf.take(2)) > MAX_HEADER_ENTRIES {
        Err("too many header entries"@)
    } else {
        add_entries(buf.skip(2), le_value(buf.take(2)), empty_block())
    }
}

/// Whether two runs of bytes are the same.
pub fn same_bytes(a: &[u8], b: &[u8]) -> (r: bool)
    ensures
        r == (a@ == b@),
{
    let n: usize = a.len();
    if n != b.len() {
        return false;
    }
    let mut i: usize = 0;
    while i < n
        invariant
            i <= n,
            n == a@.len(),
            n == b@.len(),
            forall|k: int| 0 <= k < i ==> a@[k] == b@[k],
        decreases n - i,
    {
        if a[i] != b[i] {
            return false;
        }
        i += 1;
    }
    assert(a@ =~= b@);
    true
}

proof fn lemma_append_len(e: Seq<(Seq<u8>, Seq<u8>)>, n: Seq<u8>, v: Seq<u8>)
    ensures
        append_entry(e, n, v).len() == e.len() + 1,
    decreases e.len(),
{
    if e.len() > 0 {
        lemma_append_len(e.drop_last(), n, v);
    }
}

/// Adds one entry to `block`.
fn take_entry(block: HeaderBlock, name: &[u8], value: &[u8]) -> (r: Result<
    HeaderBlock,
    ProtocolError,
>)
    requires
        block@.headers.len() <= 4096,
    ensures
        match (r, add_entry(block@, name@, value@)) {
            (Ok(b), Ok(v)) => b@ == v && b@.headers.len() <= block@.headers.len() + 1,
            (Err(e), Err(m)) => e.0@ == m,
            _ => false,
        },
{
    let path_key: [u8; 5] = [0x3a, 0x70, 0x61, 0x74, 0x68];
    let authority_key: [u8; 10] = [
        0x3a,
        0x61,
        0x75,
        0x74,
        0x68,
        0x6f,
        0x72,
        0x69,
        0x74,
        0x79,
    ];
    let status_key: [u8; 7] = [0x3a, 0x73, 0x74, 0x61, 0x74, 0x75, 0x73];
    proof {
        assert(path_key@ =~= path_name());
        assert(authority_key@ =~= authority_name());
        assert(status_key@ =~= status_name());
    }
    let mut block = block;
    if same_bytes(name, path_key.as_slice()) {
        match utf8_text(value) {
            None => Err(ProtocolError("non-utf8 :path".to_owned())),
            Some(t) => {
                block.path = Some(t);
                Ok(block)
            },
        }
    } else if same_bytes(name, authority_key.as_slice()) {
        match utf8_text(value) {
            None => Err(ProtocolError("non-utf8 :authority".to_owned())),
            Some(t) => {
                block.authority = Some(t);
                Ok(block)
            },
        }
    } else if same_bytes(name, status_key.as_slice()) {
        match parse_u16(value) {
            None => Err(ProtocolError("bad :status".to_owned())),
            Some(s) => {
                block.status = Some(s);
                Ok(block)
            },
        }
    } else {
        match header_name_from_bytes(name) {
            Err(_) => Err(ProtocolError("invalid header name".to_owned())),
            Ok(hn) => match header_value_from_bytes(value) {
                Err(_) => Err(ProtocolError("invalid header value".to_owned())),
                Ok(hv) => {
                    proof {
                        lemma_append_len(block@.headers, lower(name@), value@);
                    }
                    header_map_append(&mut block.headers, hn, hv);
                    Ok(block)
                },
            },
        }
    }
}

/// Decodes a header block, checking every length, name and value.
pub fn decode_header_block(payload: Bytes) -> (r: Result<HeaderBlock, ProtocolError>)
    ensures
        match (r, decode_block(bytes_view(payload))) {
            (Ok(b), Ok(v)) => b@ == v,
            (Err(e), Err(m)) => e.0@ == m,
            _ => false,
        },
{
    let ghost all = bytes_view(payload);
    let mut buf = payload;
    if bytes_len(&buf) > MAX_HEADER_BLOCK {
        return Err(ProtocolError("header block exceeds cap".to_owned()));
    }
    if bytes_len(&buf) < 2 {
        return Err(ProtocolError("short header block".to_owned()));
    }
    let count: usize = bytes_get_u16_le(&mut buf) as usize;
    if count > MAX_HEADER_ENTRIES {
        return Err(ProtocolError("too many header entries".to_owned()));
    }
    let mut block = HeaderBlock {
        path: None,
        authority: None,
        status: None,
        headers: header_map_new(),
    };
    assert(decode_block(all) == add_entries(bytes_view(buf), count as nat, block@));
    let mut i: usize = 0;
    while i < count
        invariant
            i <= count <= MAX_HEADER_ENTRIES,
            all == bytes_view(payload),
            block@.headers.len() <= i,
            decode_block(all) == add_entries(bytes_view(buf), (count - i) as nat, block@),
        decreases count - i,
    {
        let ghost start = bytes_view(buf);
        if bytes_len(&buf) < 2 {
            return Err(ProtocolError("truncated header name length".to_owned()));
        }
        let nlen: usize = bytes_get_u16_le(&mut buf) as usize;
        if bytes_len(&buf) < nlen + 4 {
            return Err(ProtocolError("truncated header name".to_owned()));
        }
        let name = bytes_split_to(&mut buf, nlen);
        let vlen: usize = bytes_get_u32_le(&mut buf) as usize;
        if bytes_len(&buf) < vlen {
            return Err(ProtocolError("truncated header value".to_owned()));
        }
        let value = bytes_split_to(&mut buf, vlen);
        match take_entry(block, bytes_slice(&name), bytes_slice(&value)) {
            Err(e) => {
                return Err(e);
            },
            Ok(b) => {
                block = b;
            },
        }
        i += 1;
    }
    if bytes_len(&buf) != 0 {
        return Err(ProtocolError("trailing bytes after header block".to_owned()));
    }
    Ok(block)
}

// ---------------------------------------------------------------------
// what is encoded is decoded
// ---------------------------------------------------------------------

/// A block after the entries of `e`, in their order.
pub open spec fn add_all(b: BlockView, e: Seq<(Seq<u8>, Seq<u8>)>) -> Result<BlockView, Seq<char>>
    decreases e.len(),
{
    if e.len() == 0 {
        Ok(b)
    } else {
        match add_entry(b, e[0].0, e[0].1) {
            Err(m) => Err(m),
            Ok(b2) => add_all(b2, e.drop_first()),
        }
    }
}

proof fn lemma_split_entry(name: Seq<u8>, value: Seq<u8>, more: Seq<u8>)
    requires
        name.len() < 0x1_0000,
        value.len() < 0x1_0000_0000,
    ensures
        ({
            let buf = entry_bytes(name, value) + more;
            let rest = buf.skip(2);
            let nlen = name.len() as int;
            let vlen = value.len() as int;
            let tail = rest.skip(nlen).skip(4);
            &&& buf.len() >= 2
            &&& le_value(buf.take(2)) == nlen
            &&& rest.len() >= nlen + 4
            &&& rest.take(nlen) == name
            &&& le_value(rest.skip(nlen).take(4)) == vlen
            &&& tail.len() >= vlen
            &&& tail.take(vlen) == value
            &&& tail.skip(vlen) == more
        }),
{
    let buf = entry_bytes(name, value) + more;
    let rest = buf.skip(2);
    let nlen = name.len() as int;
    let vlen = value.len() as int;
    let after = le_bytes(value.len(), 4) + value + more;
    lemma_le_bytes_len(name.len(), 2);
    lemma_le_bytes_len(value.len(), 4);
    lemma_pow256();
    lemma_value_of_bytes(name.len(), 2);
    lemma_value_of_bytes(value.len(), 4);
    assert(buf.take(2) =~= le_bytes(name.len(), 2));
    assert(rest =~= name + after);
    assert(rest.take(nlen) =~= name);
    assert(rest.skip(nlen) =~= after);
    assert(after.take(4) =~= le_bytes(value.len(), 4));
    assert(after.skip(4) =~= value + more);
    assert((value + more).take(vlen) =~= value);
    assert((value + more).skip(vlen) =~= more);
}

proof fn lemma_add_entries(e: Seq<(Seq<u8>, Seq<u8>)>, b: BlockView)
    requires
        forall|i: int| 0 <= i < e.len() ==> (#[trigger] e[i]).0.len() < 0x1_0000,
        forall|i: int| 0 <= i < e.len() ==> (#[trigger] e[i]).1.len() < 0x1_0000_0000,
    ensures
        add_entries(entries_bytes(e), e.len(), b) == add_all(b, e),
    decreases e.len(),
{
    if e.len() > 0 {
        let name = e[0].0;
        let value = e[0].1;
        let more = e.drop_first();
        let head = seq![e[0]];
        assert(entries_bytes(e) == entry_bytes(name, value) + entries_bytes(more)) by {
            assert(head + more =~= e);
            lemma_entries_concat(head, more);
            assert(head.drop_last() =~= Seq::<(Seq<u8>, Seq<u8>)>::empty());
            assert(entries_bytes(head.drop_last()) =~= Seq::<u8>::empty());
            assert(entries_bytes(head) =~= entry_bytes(name, value));
        }
        lemma_split_entry(name, value, entries_bytes(more));
        match add_entry(b, name, value) {
            Ok(b2) => {
                lemma_add_entries(more, b2);
            },
            Err(_) => {},
        }
    }
}

proof fn lemma_add_all_headers(b: BlockView, h: Seq<(Seq<u8>, Seq<u8>)>, k: int)
    requires
        valid_entries(h),
        0 <= k <= h.len(),
        b.headers == h.take(k),
    ensures
        add_all(b, h.skip(k)) == Ok::<BlockView, Seq<char>>(BlockView { headers: h, ..b }),
    decreases h.len() - k,
{
    if k == h.len() {
        assert(h.take(k) =~= h);
    } else {
        let x = h[k];
        assert(h.skip(k)[0] == x);
        assert(header_name_byte(x.0[0]));
        assert(x.0 != path_name() && x.0 != authority_name() && x.0 != status_name());
        if mentions(h.take(k), x.0) {
            let i = choose|i: int| 0 <= i < h.take(k).len() && (#[trigger] h.take(k)[i]).0 == x.0;
            assert(h[i].0 == h[k].0);
            assert(h[k - 1].0 == h[i].0);
            assert(h.take(k).last() == h[k - 1]);
        }
        assert(append_entry(h.take(k), x.0, x.1) =~= h.take(k + 1));
        let b2 = BlockView { headers: h.take(k + 1), ..b };
        assert(add_entry(b, x.0, x.1) == Ok::<BlockView, Seq<char>>(b2));
        assert(h.skip(k).drop_first() =~= h.skip(k + 1));
        lemma_add_all_headers(b2, h, k + 1);
    }
}

proof fn lemma_add_all_first(
    b: BlockView,
    b2: BlockView,
    x: (Seq<u8>, Seq<u8>),
    e: Seq<(Seq<u8>, Seq<u8>)>,
)
    requires
        add_entry(b, x.0, x.1) == Ok::<BlockView, Seq<char>>(b2),
    ensures
        add_all(b, seq![x] + e) == add_all(b2, e),
{
    assert((seq![x] + e).drop_first() =~= e);
}

proof fn lemma_entries_len(e: Seq<(Seq<u8>, Seq<u8>)>, i: int)
    requires
        0 <= i < e.len(),
    ensures
        e[i].0.len() + e[i].1.len() <= entries_bytes(e).len(),
{
    lemma_entries_prefix_len(e, i + 1);
    assert(e.take(i + 1).drop_last() =~= e.take(i));
}

/// Entries that can be decoded as they are: valid names in lower case, valid
/// values, and the values of one name together.
pub open spec fn valid_entries(e: Seq<(Seq<u8>, Seq<u8>)>) -> bool {
    &&& forall|i: int| 0 <= i < e.len() ==> valid_header_name((#[trigger] e[i]).0)
    &&& forall|i: int| 0 <= i < e.len() ==> lower((#[trigger] e[i]).0) == e[i].0
    &&& forall|i: int| 0 <= i < e.len() ==> valid_header_value((#[trigger] e[i]).1)
    &&& forall|i: int, j: int, k: int|
        0 <= i <= j <= k < e.len() && (#[trigger] e[i]).0 == (#[trigger] e[k]).0 ==> (
        #[trigger] e[j]).0 == e[i].0
}

/// A block that was encoded decodes to what it was, within the caps that a
/// decoder keeps.
pub proof fn law_block_roundtrip(b: BlockView)
    requires
        valid_entries(b.headers),
        block_entries(b).len() <= MAX_HEADER_ENTRIES,
        block_bytes(b).len() <= MAX_HEADER_BLOCK,
    ensures
        decode_block(block_bytes(b)) == Ok::<BlockView, Seq<char>>(b),
{
    let e = block_entries(b);
    let buf = block_bytes(b);
    lemma_le_bytes_len(e.len(), 2);
    lemma_pow256();
    lemma_value_of_bytes(e.len(), 2);
    assert(buf.take(2) =~= le_bytes(e.len(), 2));
    assert(buf.skip(2) =~= entries_bytes(e));
    assert forall|i: int| 0 <= i < e.len() implies (#[trigger] e[i]).0.len() < 0x1_0000 by {
        let n = pseudo_entries(b).len();
        if i >= n {
            assert(e[i] == b.headers[i - n]);
        }
    }
    assert forall|i: int| 0 <= i < e.len() implies (#[trigger] e[i]).1.len() < 0x1_0000_0000 by {
        lemma_entries_len(e, i);
    }
    lemma_add_entries(e, empty_block());
    lemma_pseudo(b);
}

proof fn lemma_pseudo(b: BlockView)
    requires
        valid_entries(b.headers),
    ensures
        add_all(empty_block(), block_entries(b)) == Ok::<BlockView, Seq<char>>(b),
{
    let h = b.headers;
    let none = Seq::<(Seq<u8>, Seq<u8>)>::empty();
    let b0 = empty_block();
    let e1 = match b.path {
        Some(p) => seq![(path_name(), encode_utf8(p))],
        None => none,
    };
    let e2 = match b.authority {
        Some(a) => seq![(authority_name(), encode_utf8(a))],
        None => none,
    };
    let e3 = match b.status {
        Some(s) => seq![(status_name(), decimal_bytes(s as nat))],
        None => none,
    };
    let b1 = BlockView { path: b.path, ..b0 };
    let b2 = BlockView { authority: b.authority, ..b1 };
    let b3 = BlockView { status: b.status, ..b2 };
    assert(path_name().len() == 5 && authority_name().len() == 10 && status_name().len() == 7);
    assert(block_entries(b) =~= e1 + (e2 + (e3 + h)));
    match b.path {
        Some(p) => {
            vstd::utf8::encode_utf8_valid_utf8(p);
            vstd::utf8::encode_utf8_decode_utf8(p);
            lemma_add_all_first(b0, b1, e1[0], e2 + (e3 + h));
            assert(e1 =~= seq![e1[0]]);
        },
        None => {
            assert(e1 + (e2 + (e3 + h)) =~= e2 + (e3 + h));
        },
    }
    match b.authority {
        Some(a) => {
            vstd::utf8::encode_utf8_valid_utf8(a);
            vstd::utf8::encode_utf8_decode_utf8(a);
            lemma_add_all_first(b1, b2, e2[0], e3 + h);
            assert(e2 =~= seq![e2[0]]);
        },
        None => {
            assert(e2 + (e3 + h) =~= e3 + h);
        },
    }
    match b.status {
        Some(s) => {
            law_decimal_roundtrip(s);
            lemma_add_all_first(b2, b3, e3[0], h);
            assert(e3 =~= seq![e3[0]]);
        },
        None => {
            assert(e3 + h =~= h);
        },
    }
    assert(h.take(0) =~= none);
    assert(h.skip(0) =~= h);
    lemma_add_all_headers(b3, h, 0);
}

// ---------------------------------------------------------------------
// blocks by their bytes
// ---------------------------------------------------------------------

/// The names of the pseudo-entries, and the bound on a block that is sent.
pub proof fn law_names_of_pseudo_entries(b: BlockView)
    ensures
        path_name() == seq![58u8, 112, 97, 116, 104],
        authority_name() == seq![58u8, 97, 117, 116, 104, 111, 114, 105, 116, 121],
        status_name() == seq![58u8, 115, 116, 97, 116, 117, 115],
        fits(b) <==> block_entries(b).len() <= 65535 && block_bytes(b).len() <= 16777216,
{
}

/// An entry is the length of its name in two bytes, the name, the length of its value in
/// four bytes, and the value.
pub proof fn law_entry_layout(name: Seq<u8>, value: Seq<u8>)
    ensures
        ({
            let e = entry_bytes(name, value);
            let n = name.len() as int;
            let v = value.len() as int;
            &&& e.len() == n + v + 6
            &&& e[0] == n % 256 && e[1] == n / 256 % 256
            &&& e.subrange(2, 2 + n) == name
            &&& e[2 + n] == v % 256 && e[3 + n] == v / 256 % 256 && e[4 + n] == v / 65536 % 256
                && e[5 + n] == v / 16777216 % 256
            &&& e.skip(6 + n) == value
        }),
{
    crate::le::law_written_low_byte_first(name.len());
    crate::le::law_written_low_byte_first(value.len());
    let e = entry_bytes(name, value);
    let n = name.len() as int;
    assert(e.subrange(2, 2 + n) =~= name);
    assert(e.skip(6 + n) =~= value);
}

/// A block is the number of its entries in two bytes, and then the entries one after the
/// other: the path, the authority and the status as far as there are any, and the headers,
/// each as it is and in their order.
pub proof fn law_block_layout(b: BlockView)
    ensures
        ({
            let e = block_entries(b);
            let p: int = if b.path is Some {
                1
            } else {
                0
            };
            let a: int = p + if b.authority is Some {
                1int
            } else {
                0
            };
            let s: int = a + if b.status is Some {
                1int
            } else {
                0
            };
            &&& block_bytes(b) == seq![(e.len() % 256) as u8, (e.len() / 256 % 256) as u8]
                + entries_bytes(e)
            &&& e.len() == s + b.headers.len()
            &&& b.path matches Some(t) ==> e[0].0 == path_name() && e[0].1 == encode_utf8(t)
            &&& b.authority matches Some(t) ==> e[p].0 == authority_name() && e[p].1
                == encode_utf8(t)
            &&& b.status matches Some(t) ==> e[a].0 == status_name() && e[a].1 == decimal_bytes(
                t as nat,
            )
            &&& e.skip(s) == b.headers
        }),
{
    crate::le::law_written_low_byte_first(block_entries(b).len());
    assert(block_entries(b).skip(pseudo_entries(b).len() as int) =~= b.headers);
}

/// Entries follow each other without anything between them.
pub proof fn law_entries_follow_each_other(e: Seq<(Seq<u8>, Seq<u8>)>, name: Seq<u8>, value: Seq<u8>)
    ensures
        entries_bytes(Seq::empty()) == Seq::<u8>::empty(),
        entries_bytes(e.push((name, value))) == entries_bytes(e) + entry_bytes(name, value),
{
    lemma_entries_push(e, (name, value));
}

/// What one entry does to a block. A pseudo-entry sets its part, and replaces an earlier
/// one; any other entry is a header, which joins those of its name; and nothing else
/// changes. A text that is no UTF-8, a status that is no number, and a name or a value that
/// cannot be one are errors.
pub proof fn law_what_an_entry_says(b: BlockView, name: Seq<u8>, value: Seq<u8>)
    ensures
        ({
            let r = add_entry(b, name, value);
            let path = name == seq![58u8, 112, 97, 116, 104];
            let authority = name == seq![58u8, 97, 117, 116, 104, 111, 114, 105, 116, 121];
            let status = name == seq![58u8, 115, 116, 97, 116, 117, 115];
            &&& path ==> {
                &&& r is Ok <==> valid_utf8(value)
                &&& r matches Ok(c) ==> c.path == Some(decode_utf8(value)) && c.authority
                    == b.authority && c.status == b.status && c.headers == b.headers
                &&& r matches Err(m) ==> m == "non-utf8 :path"@
            }
            &&& authority ==> {
                &&& r is Ok <==> valid_utf8(value)
                &&& r matches Ok(c) ==> c.authority == Some(decode_utf8(value)) && c.path == b.path
                    && c.status == b.status && c.headers == b.headers
                &&& r matches Err(m) ==> m == "non-utf8 :authority"@
            }
            &&& status ==> {
                &&& r is Ok <==> parsed_u16(value) is Some
                &&& r matches Ok(c) ==> c.status == parsed_u16(value) && c.path == b.path
                    && c.authority == b.authority && c.headers == b.headers
                &&& r matches Err(m) ==> m == "bad :status"@
            }
            &&& !path && !authority && !status ==> {
                &&& r is Ok <==> valid_header_name(name) && valid_header_value(value)
                &&& r matches Ok(c) ==> c.path == b.path && c.authority == b.authority && c.status
                    == b.status && c.headers == append_entry(b.headers, lower(name), value)
                &&& r matches Err(m) ==> m == if valid_header_name(name) {
                    "invalid header value"@
                } else {
                    "invalid header name"@
                }
            }
        }),
{
    assert(path_name() =~= seq![58u8, 112, 97, 116, 104]);
    assert(authority_name() =~= seq![58u8, 97, 117, 116, 104, 111, 114, 105, 116, 121]);
    assert(status_name() =~= seq![58u8, 115, 116, 97, 116, 117, 115]);
}

/// Entries act on a block one after the other, the first one first; the first that is wrong
/// decides.
pub proof fn law_entries_act_in_order(b: BlockView, e: Seq<(Seq<u8>, Seq<u8>)>)
    ensures
        e.len() == 0 ==> add_all(b, e) == Ok::<BlockView, Seq<char>>(b),
        e.len() > 0 ==> match add_entry(b, e[0].0, e[0].1) {
            Ok(c) => add_all(b, e) == add_all(c, e.skip(1)),
            Err(m) => add_all(b, e) == Err::<BlockView, Seq<char>>(m),
        },
{
    if e.len() > 0 {
        assert(e.drop_first() =~= e.skip(1));
    }
}

/// Bytes that are entries: their number in two bytes, and then each of them.
pub open spec fn holds_entries(buf: Seq<u8>, e: Seq<(Seq<u8>, Seq<u8>)>) -> bool {
    &&& e.len() <= 65535
    &&& forall|i: int| 0 <= i < e.len() ==> (#[trigger] e[i]).0.len() <= 65535
    &&& forall|i: int| 0 <= i < e.len() ==> (#[trigger] e[i]).1.len() <= 4294967295
    &&& buf == seq![(e.len() % 256) as u8, (e.len() / 256 % 256) as u8] + entries_bytes(e)
}

/// Bytes that hold entries, at most 4096 of them in at most 8 MiB, say what the entries say,
/// starting from nothing.
pub proof fn law_entries_are_read(buf: Seq<u8>, e: Seq<(Seq<u8>, Seq<u8>)>)
    requires
        holds_entries(buf, e),
    ensures
        buf.len() > 8388608 ==> decode_block(buf) == Err::<BlockView, Seq<char>>(
            "header block exceeds cap"@,
        ),
        buf.len() <= 8388608 && e.len() > 4096 ==> decode_block(buf) == Err::<
            BlockView,
            Seq<char>,
        >("too many header entries"@),
        buf.len() <= 8388608 && e.len() <= 4096 ==> decode_block(buf) == add_all(
            BlockView { path: None, authority: None, status: None, headers: Seq::empty() },
            e,
        ),
{
    crate::le::law_read_low_byte_first(buf.take(2));
    assert(buf.skip(2) =~= entries_bytes(e));
    assert(le_value(buf.take(2)) == e.len());
    lemma_add_entries(e, empty_block());
}

/// Whatever is read as a block holds entries that say so: no byte is left over or made up.
pub proof fn law_blocks_hold_entries(buf: Seq<u8>, b: BlockView)
    requires
        decode_block(buf) == Ok::<BlockView, Seq<char>>(b),
    ensures
        buf.len() <= 8388608,
        exists|e: Seq<(Seq<u8>, Seq<u8>)>| #[trigger]
            holds_entries(buf, e) && e.len() <= 4096 && add_all(
                BlockView { path: None, authority: None, status: None, headers: Seq::empty() },
                e,
            ) == Ok::<BlockView, Seq<char>>(b),
{
    let n = le_value(buf.take(2));
    let e = lemma_read_entries(buf.skip(2), n, empty_block(), b);
    crate::le::lemma_bytes_of_value(buf.take(2));
    crate::le::law_written_low_byte_first(n);
    lemma_pow256();
    assert(buf =~= buf.take(2) + buf.skip(2));
    assert(holds_entries(buf, e));
}

proof fn lemma_read_entries(buf: Seq<u8>, n: nat, b: BlockView, r: BlockView) -> (e: Seq<
    (Seq<u8>, Seq<u8>),
>)
    requires
        add_entries(buf, n, b) == Ok::<BlockView, Seq<char>>(r),
    ensures
        e.len() == n,
        forall|i: int| 0 <= i < e.len() ==> (#[trigger] e[i]).0.len() <= 65535,
        forall|i: int| 0 <= i < e.len() ==> (#[trigger] e[i]).1.len() <= 4294967295,
        entries_bytes(e) == buf,
        add_all(b, e) == Ok::<BlockView, Seq<char>>(r),
    decreases n,
{
    if n == 0 {
        let e = Seq::<(Seq<u8>, Seq<u8>)>::empty();
        assert(entries_bytes(e) =~= buf);
        e
    } else {
        let nlen = le_value(buf.take(2)) as int;
        let rest = buf.skip(2);
        let vlen = le_value(rest.skip(nlen).take(4)) as int;
        let tail = rest.skip(nlen).skip(4);
        let name = rest.take(nlen);
        let value = tail.take(vlen);
        let b2 = add_entry(b, name, value)->Ok_0;
        let more = lemma_read_entries(tail.skip(vlen), (n - 1) as nat, b2, r);
        let head = seq![(name, value)];
        let e = head + more;
        crate::le::lemma_bytes_of_value(buf.take(2));
        crate::le::lemma_bytes_of_value(rest.skip(nlen).take(4));
        lemma_pow256();
        assert(buf =~= buf.take(2) + (name + (rest.skip(nlen).take(4) + (value + tail.skip(vlen)))));
        lemma_entries_concat(head, more);
        assert(head.drop_last() =~= Seq::<(Seq<u8>, Seq<u8>)>::empty());
        assert(entries_bytes(head.drop_last()) =~= Seq::<u8>::empty());
        assert(entries_bytes(head) =~= entry_bytes(name, value));
        assert(entries_bytes(e) =~= buf);
        assert(e.drop_first() =~= more);
        assert(e[0] == (name, value));
        assert forall|i: int| 0 <= i < e.len() implies (#[trigger] e[i]).0.len() <= 65535 && e[i].1.len()
            <= 4294967295 by {
            if i > 0 {
                assert(e[i] == more[i - 1]);
            }
        }
        e
    }
}

/// A block shows what it holds, and the arguments of an encoding are the block that they
/// make up.
pub proof fn law_blocks_show_what_they_hold(
    b: HeaderBlock,
    path: Option<&str>,
    authority: Option<&str>,
    status: Option<u16>,
    headers: HeaderMap<HeaderValue>,
)
    ensures
        b.path matches Some(t) ==> b@.path == Some(t@),
        b.path is None ==> b@.path is None,
        b.authority matches Some(t) ==> b@.authority == Some(t@),
        b.authority is None ==> b@.authority is None,
        b@.status == b.status,
        b@.headers == header_map_view(b.headers),
        path matches Some(t) ==> block_of(path, authority, status, headers).path == Some(t@),
        path is None ==> block_of(path, authority, status, headers).path is None,
        authority matches Some(t) ==> block_of(path, authority, status, headers).authority == Some(
            t@,
        ),
        authority is None ==> block_of(path, authority, status, headers).authority is None,
        block_of(path, authority, status, headers).status == status,
        block_of(path, authority, status, headers).headers == header_map_view(headers),
{
}

} // verus!
