use bytes::{BufMut, Bytes, BytesMut};
use tonic_shmsc::control::{
    decode_goaway, decode_rst, decode_window_update, encode_goaway, encode_rst,
    encode_window_update,
};
use tonic_shmsc::frame::{
    encode_frame, encode_frame_header, parse_frame_header, Frame, FrameParser, FrameType,
    ProtocolError, RstCode, FLAG_ACK, FLAG_END_STREAM, FRAME_HDR_SIZE, MAX_FRAME_PAYLOAD,
};

/// A deterministic generator.
fn lcg(state: &mut u64) -> u64 {
    *state = state
        .wrapping_mul(6364136223846793005)
        .wrapping_add(1442695040888963407);
    *state
}

#[test]
fn frame_roundtrip_incremental() {
    let mut out = BytesMut::new();
    encode_frame(&mut out, FrameType::Data, FLAG_END_STREAM, 7, b"hello");
    encode_frame(
        &mut out,
        FrameType::Ping,
        FLAG_ACK,
        0,
        &[1, 2, 3, 4, 5, 6, 7, 8],
    );
    let mut parser = FrameParser::default();
    // One byte at a time, to see partial frames.
    let mut frames = Vec::new();
    for b in out.iter() {
        parser.buf_mut().put_u8(*b);
        while let Some(f) = parser.next_frame().unwrap() {
            frames.push(f);
        }
    }
    assert_eq!(frames.len(), 2);
    assert_eq!(frames[0].typ, FrameType::Data);
    assert!(frames[0].end_stream());
    assert_eq!(frames[0].stream_id, 7);
    assert_eq!(&frames[0].payload[..], b"hello");
    assert_eq!(frames[1].typ, FrameType::Ping);
    assert_eq!(frames[1].flags, FLAG_ACK);
}

#[test]
fn rejects_bad_frames() {
    // Unknown type.
    let mut parser = FrameParser::default();
    let mut out = BytesMut::new();
    out.put_u32_le(0);
    out.put_u8(0xEE);
    out.put_u8(0);
    out.put_u16_le(0);
    out.put_u32_le(1);
    parser.buf_mut().extend_from_slice(&out);
    assert!(parser.next_frame().is_err());

    // Oversized length.
    let mut parser = FrameParser::default();
    let mut out = BytesMut::new();
    out.put_u32_le(u32::MAX);
    out.put_u8(FrameType::Data.code());
    out.put_u8(0);
    out.put_u16_le(0);
    out.put_u32_le(1);
    parser.buf_mut().extend_from_slice(&out);
    assert!(parser.next_frame().is_err());
}

#[test]
fn goaway_rst_wu_roundtrip() {
    let (last, msg) = decode_goaway(encode_goaway(41, "draining")).unwrap();
    assert_eq!(last, 41);
    assert_eq!(msg, "draining");
    assert_eq!(
        decode_rst(encode_rst(RstCode::Refused)).unwrap(),
        RstCode::Refused
    );
    let mut wu = BytesMut::new();
    wu.put_u32_le(65536);
    assert_eq!(decode_window_update(wu.freeze()).unwrap(), 65536);
    let mut zero = BytesMut::new();
    zero.put_u32_le(0);
    assert!(decode_window_update(zero.freeze()).is_err());
}

#[test]
fn frame_header_parse_total_over_all_type_bytes() {
    for typ in 0u8..=255 {
        let mut hdr = [0u8; FRAME_HDR_SIZE];
        hdr[0..4].copy_from_slice(&u32::MAX.to_le_bytes());
        hdr[4] = typ;
        hdr[8..12].copy_from_slice(&7u32.to_le_bytes());
        // Ok for known types, Err for unknown or oversized, never a panic.
        if let Ok((_, _, _, len)) = parse_frame_header(&hdr) {
            assert!(len <= MAX_FRAME_PAYLOAD);
        }
    }
}

#[test]
fn control_frame_payloads_never_panic_on_random_bytes() {
    let mut state = 0xdead_beef_cafe_babeu64;
    for _ in 0..10_000 {
        let len = (lcg(&mut state) % 20) as usize;
        let mut buf = BytesMut::with_capacity(len);
        for _ in 0..len {
            buf.put_u8((lcg(&mut state) & 0xff) as u8);
        }
        let b = buf.freeze();
        let _ = decode_goaway(b.clone());
        let _ = decode_rst(b.clone());
        let _ = decode_window_update(b);
    }
}

#[test]
fn frame_parser_never_panics_on_random_stream() {
    let mut state = 0x0f0f_0f0f_0f0f_0f0fu64;
    for _ in 0..2_000 {
        let mut parser = FrameParser::default();
        let n = (lcg(&mut state) % 256) as usize;
        for _ in 0..n {
            parser.buf_mut().put_u8((lcg(&mut state) & 0xff) as u8);
        }
        loop {
            match parser.next_frame() {
                Ok(Some(f)) => assert!(f.payload.len() <= MAX_FRAME_PAYLOAD),
                Ok(None) => break,
                Err(_) => break,
            }
        }
    }
}

#[test]
fn header_bytes_are_little_endian() {
    let mut hdr = [0xffu8; FRAME_HDR_SIZE];
    encode_frame_header(&mut hdr, FrameType::Trailers, FLAG_END_STREAM, 0x0102_0304, 0x0a0b);
    assert_eq!(hdr, [0x0b, 0x0a, 0, 0, 3, 1, 0, 0, 4, 3, 2, 1]);
    let (typ, flags, id, len) = parse_frame_header(&hdr).unwrap();
    assert_eq!(typ, FrameType::Trailers);
    assert_eq!(flags, FLAG_END_STREAM);
    assert_eq!(id, 0x0102_0304);
    assert_eq!(len, 0x0a0b);
}

#[test]
fn type_codes() {
    let all = [
        (FrameType::Headers, 1),
        (FrameType::Data, 2),
        (FrameType::Trailers, 3),
        (FrameType::RstStream, 4),
        (FrameType::WindowUpdate, 5),
        (FrameType::GoAway, 6),
        (FrameType::Ping, 7),
    ];
    for (t, code) in all {
        assert_eq!(t.code(), code);
        assert_eq!(FrameType::from_u8(code), Some(t));
    }
    assert_eq!(FrameType::from_u8(0), None);
    assert_eq!(FrameType::from_u8(8), None);
    assert_eq!(RstCode::from_u32(RstCode::Refused.value()), RstCode::Refused);
    assert_eq!(RstCode::from_u32(RstCode::Internal.value()), RstCode::Internal);
    assert_eq!(RstCode::from_u32(RstCode::Cancel.value()), RstCode::Cancel);
    assert_eq!(RstCode::from_u32(0xffff), RstCode::Internal);
}

fn header_error(hdr: [u8; FRAME_HDR_SIZE]) -> String {
    parse_frame_header(&hdr).unwrap_err().0
}

#[test]
fn header_errors_are_named() {
    // One byte beyond the cap.
    let len = (MAX_FRAME_PAYLOAD as u32 + 1).to_le_bytes();
    let mut hdr = [len[0], len[1], len[2], len[3], 2, 0, 0, 0, 1, 0, 0, 0];
    let e = header_error(hdr);
    assert_eq!(e, "frame payload 16777217 exceeds cap");
    // A reserved field that is not zero.
    hdr[0..4].copy_from_slice(&0u32.to_le_bytes());
    hdr[6] = 1;
    let e = header_error(hdr);
    assert_eq!(e, "nonzero reserved bits in frame header");
    // A type that is not known.
    hdr[6] = 0;
    hdr[4] = 0xee;
    let e = header_error(hdr);
    assert_eq!(e, "unknown frame type 0xee");
}

#[test]
fn ping_payload_is_checked() {
    let ping = |stream_id: u32, n: usize| Frame {
        typ: FrameType::Ping,
        flags: 0,
        stream_id,
        payload: Bytes::from(vec![0u8; n]),
    };
    assert!(ping(0, 8).validate_ping().is_ok());
    assert!(ping(0, 0).validate_ping().is_ok());
    assert_eq!(
        ping(0, 9).validate_ping().unwrap_err().0,
        "PING payload 9 exceeds 8 bytes"
    );
    assert_eq!(
        ping(3, 8).validate_ping().unwrap_err().0,
        "PING must be connection-level (stream_id 0), got 3"
    );
}

#[test]
fn control_payloads_are_exact() {
    assert_eq!(&encode_goaway(3, "hi")[..], &[3, 0, 0, 0, 0, 0, 0, 0, b'h', b'i']);
    assert_eq!(encode_rst(RstCode::Cancel).len(), 4);
    assert_eq!(&encode_window_update(0x0102)[..], &[2, 1, 0, 0]);
    assert_eq!(
        decode_goaway(Bytes::from_static(b"1234567")).unwrap_err().0,
        "short GOAWAY"
    );
    assert_eq!(
        decode_rst(Bytes::from_static(b"123")).unwrap_err().0,
        "short RST_STREAM"
    );
    assert_eq!(
        decode_window_update(Bytes::from_static(b"12345")).unwrap_err().0,
        "bad WINDOW_UPDATE length"
    );
    assert_eq!(
        decode_window_update(Bytes::from_static(&[0, 0, 0, 0])).unwrap_err().0,
        "zero WINDOW_UPDATE increment"
    );
    // Text that is not UTF-8 is repaired.
    let (_, msg) = decode_goaway(Bytes::from_static(&[1, 0, 0, 0, 0, 0, 0, 0, b'a', 0xff])).unwrap();
    assert_eq!(msg, "a\u{fffd}");
}

#[test]
fn protocol_error_text() {
    let e = ProtocolError("boom".to_string());
    assert!(e.display().contains("boom"));
}
