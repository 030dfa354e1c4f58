use bytes::{BufMut, Bytes, BytesMut};
use http::{HeaderMap, HeaderValue};
use tonic_shmsc::block::{block_fits, decode_header_block, encode_header_block};
use tonic_shmsc::frame::{MAX_HEADER_BLOCK, MAX_HEADER_ENTRIES};

fn lcg(state: &mut u64) -> u64 {
    *state = state
        .wrapping_mul(6364136223846793005)
        .wrapping_add(1442695040888963407);
    *state
}

#[test]
fn header_block_roundtrip() {
    let mut hm = HeaderMap::new();
    hm.append("content-type", HeaderValue::from_static("application/grpc"));
    hm.append("x-multi", HeaderValue::from_static("a"));
    hm.append("x-multi", HeaderValue::from_static("b"));
    hm.append("x-bin-bin", HeaderValue::from_bytes(b"AAEC").unwrap());
    let enc = encode_header_block(Some("/pkg.Svc/Method"), Some("localhost"), None, &hm);
    let dec = decode_header_block(enc).unwrap();
    assert_eq!(dec.path.as_deref(), Some("/pkg.Svc/Method"));
    assert_eq!(dec.authority.as_deref(), Some("localhost"));
    assert_eq!(dec.status, None);
    assert_eq!(dec.headers.get("content-type").unwrap(), "application/grpc");
    let multi: Vec<_> = dec.headers.get_all("x-multi").iter().collect();
    assert_eq!(multi.len(), 2);
}

#[test]
fn header_block_rejects_truncation_and_bad_names() {
    // One entry is claimed, and its value is cut short.
    let mut b = BytesMut::new();
    b.put_u16_le(1);
    b.put_u16_le(3);
    b.put_slice(b"abc");
    b.put_u32_le(100);
    b.put_slice(b"short");
    assert!(decode_header_block(b.freeze()).is_err());

    // Bytes that no header name has.
    let mut b = BytesMut::new();
    b.put_u16_le(1);
    b.put_u16_le(3);
    b.put_slice(b"a\x00c");
    b.put_u32_le(1);
    b.put_slice(b"v");
    assert!(decode_header_block(b.freeze()).is_err());
}

#[test]
fn status_pseudo_header() {
    let enc = encode_header_block(None, None, Some(200), &HeaderMap::new());
    let dec = decode_header_block(enc).unwrap();
    assert_eq!(dec.status, Some(200));
}

#[test]
fn header_block_decode_never_panics_on_random_bytes() {
    let mut state = 0x1234_5678_9abc_def0u64;
    for _ in 0..20_000 {
        let len = (lcg(&mut state) % 64) as usize;
        let mut buf = BytesMut::with_capacity(len);
        for _ in 0..len {
            buf.put_u8((lcg(&mut state) & 0xff) as u8);
        }
        let _ = decode_header_block(buf.freeze());
    }
}

#[test]
fn header_block_rejects_absurd_counts_and_lengths() {
    let mut b = BytesMut::new();
    b.put_u16_le(u16::MAX);
    assert!(decode_header_block(b.freeze()).is_err());

    let mut b = BytesMut::new();
    b.put_u16_le(1);
    b.put_u16_le(1);
    b.put_slice(b"k");
    b.put_u32_le(u32::MAX);
    b.put_slice(b"short");
    assert!(decode_header_block(b.freeze()).is_err());

    let huge = BytesMut::zeroed(MAX_HEADER_BLOCK + 1);
    assert!(decode_header_block(huge.freeze()).is_err());
}

fn entry(b: &mut BytesMut, name: &[u8], value: &[u8]) {
    b.put_u16_le(name.len() as u16);
    b.put_slice(name);
    b.put_u32_le(value.len() as u32);
    b.put_slice(value);
}

fn one(name: &[u8], value: &[u8]) -> Bytes {
    let mut b = BytesMut::new();
    b.put_u16_le(1);
    entry(&mut b, name, value);
    b.freeze()
}

fn error(b: Bytes) -> String {
    decode_header_block(b).unwrap_err().0
}

#[test]
fn block_bytes_are_exact() {
    let mut hm = HeaderMap::new();
    hm.append("k", HeaderValue::from_static("vw"));
    let enc = encode_header_block(None, None, Some(42), &hm);
    let mut want = BytesMut::new();
    want.put_u16_le(2);
    entry(&mut want, b":status", b"42");
    entry(&mut want, b"k", b"vw");
    assert_eq!(enc, want.freeze());
}

#[test]
fn pseudo_entries_come_first_and_in_order() {
    let mut hm = HeaderMap::new();
    hm.append("a", HeaderValue::from_static("1"));
    let enc = encode_header_block(Some("/p"), Some("h"), Some(7), &hm);
    let mut want = BytesMut::new();
    want.put_u16_le(4);
    entry(&mut want, b":path", b"/p");
    entry(&mut want, b":authority", b"h");
    entry(&mut want, b":status", b"7");
    entry(&mut want, b"a", b"1");
    assert_eq!(enc, want.freeze());
}

#[test]
fn block_errors_are_named() {
    assert_eq!(error(Bytes::from_static(&[1])), "short header block");
    assert_eq!(error(Bytes::from_static(&[1, 0])), "truncated header name length");
    assert_eq!(error(one(b":path", &[0xff])), "non-utf8 :path");
    assert_eq!(error(one(b":authority", &[0xff])), "non-utf8 :authority");
    assert_eq!(error(one(b":status", b"x")), "bad :status");
    assert_eq!(error(one(b":status", b"65536")), "bad :status");
    assert_eq!(error(one(b"a b", b"v")), "invalid header name");
    assert_eq!(error(one(b"a", b"v\n")), "invalid header value");
    let mut b = BytesMut::new();
    b.put_u16_le(0);
    b.put_u8(1);
    assert_eq!(error(b.freeze()), "trailing bytes after header block");
    let mut b = BytesMut::new();
    b.put_u16_le(MAX_HEADER_ENTRIES as u16 + 1);
    assert_eq!(error(b.freeze()), "too many header entries");
    let huge = BytesMut::zeroed(MAX_HEADER_BLOCK + 1);
    assert_eq!(error(huge.freeze()), "header block exceeds cap");
}

#[test]
fn names_are_lowered_and_later_pseudo_entries_win() {
    let mut b = BytesMut::new();
    b.put_u16_le(3);
    entry(&mut b, b"X-Key", b"v");
    entry(&mut b, b":path", b"/a");
    entry(&mut b, b":path", b"/b");
    let dec = decode_header_block(b.freeze()).unwrap();
    assert_eq!(dec.headers.get("x-key").unwrap(), "v");
    assert_eq!(dec.path.as_deref(), Some("/b"));
}

#[test]
fn repeated_names_keep_their_order() {
    let mut hm = HeaderMap::new();
    hm.append("m", HeaderValue::from_static("1"));
    hm.append("n", HeaderValue::from_static("x"));
    hm.append("m", HeaderValue::from_static("2"));
    let dec = decode_header_block(encode_header_block(None, None, None, &hm)).unwrap();
    let got: Vec<_> = dec.headers.get_all("m").iter().collect();
    assert_eq!(got[0], "1");
    assert_eq!(got[1], "2");
    assert_eq!(dec.headers.len(), 3);
}

#[test]
fn blocks_that_do_not_fit_are_told() {
    let mut hm = HeaderMap::new();
    assert!(block_fits(Some("/p"), None, Some(200), &hm));
    hm.append("k", HeaderValue::from_bytes(&vec![b'x'; 1000]).unwrap());
    assert!(block_fits(Some("/p"), Some("h"), None, &hm));
    let long = "a".repeat(tonic_shmsc::frame::MAX_FRAME_PAYLOAD);
    assert!(!block_fits(Some(&long), None, None, &HeaderMap::new()));
    // Exactly at the cap: two bytes for the count, eleven around the path.
    let fits = &long[..tonic_shmsc::frame::MAX_FRAME_PAYLOAD - 13];
    assert!(block_fits(Some(fits), None, None, &HeaderMap::new()));
    let over = &long[..tonic_shmsc::frame::MAX_FRAME_PAYLOAD - 12];
    assert!(!block_fits(Some(over), None, None, &HeaderMap::new()));
}
