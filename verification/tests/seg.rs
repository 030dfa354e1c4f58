use tonic_shmsc::error::ErrorKind;
use tonic_shmsc::seg::{
    cap_allowed, check_segment_size, stamp_header, validate_stamp, Layout, Segment, MAGIC,
    MAX_RING_CAP, SEG_HDR_SIZE,
};

#[test]
fn layout_offsets() {
    let l = Layout::new(4096, 8192).unwrap();
    assert_eq!(l.c2s_hdr, 64);
    assert_eq!(l.c2s_data, 192);
    assert_eq!(l.s2c_hdr, 192 + 4096);
    assert_eq!(l.s2c_data, 320 + 4096);
    assert_eq!(l.total, 320 + 4096 + 8192);
}

#[test]
fn layout_rejects_bad_caps() {
    assert!(Layout::new(3000, 4096).is_err()); // not a power of two
    assert!(Layout::new(2048, 4096).is_err()); // below the minimum
    assert!(Layout::new(4096, MAX_RING_CAP * 2).is_err()); // above the maximum
}

#[test]
fn allowed_capacities() {
    assert!(cap_allowed(4096));
    assert!(cap_allowed(MAX_RING_CAP));
    assert!(!cap_allowed(0));
    assert!(!cap_allowed(4097));
    assert!(!cap_allowed(usize::MAX));
    let e = Layout::new(3000, 4096).unwrap_err();
    assert_eq!(e.kind, ErrorKind::InvalidInput);
    assert!(e.message.contains("3000"), "{}", e.message);
}

#[test]
fn stamp_is_checked() {
    let l = Layout::new(4096, 8192).unwrap();
    let other = Layout::new(8192, 8192).unwrap();
    let h = stamp_header(&l);
    assert_eq!(&h[..8], &MAGIC.to_le_bytes());
    assert!(validate_stamp(&h, &l).is_ok());
    assert!(validate_stamp(&h, &other).is_err());
    let mut bad = h.clone();
    bad[0] ^= 1;
    assert!(validate_stamp(&bad, &l).is_err());
    let mut bad = h;
    bad[8] ^= 1;
    assert!(validate_stamp(&bad, &l).is_err());
}

#[test]
fn segments_are_stamped_and_checked() {
    let l = Layout::new(4096, 4096).unwrap();
    let seg = Segment::create(l);
    assert_eq!(seg.bytes.len(), l.total);
    assert!(seg.bytes[SEG_HDR_SIZE..].iter().all(|&b| b == 0));
    let again = Segment::from_image(seg.bytes.clone(), l).unwrap();
    assert_eq!(again.load_u64(0), MAGIC);
    let mut short = seg.bytes.clone();
    short.pop();
    assert!(Segment::from_image(short, l).is_err());
    let mut bad = seg.bytes;
    bad[0] ^= 1;
    assert!(Segment::from_image(bad, l).is_err());
    assert!(check_segment_size(l.total as u64, &l).is_ok());
    assert!(check_segment_size(l.total as u64 - 1, &l).is_err());
}

#[test]
fn words_read_back() {
    let l = Layout::new(4096, 4096).unwrap();
    let mut seg = Segment::create(l);
    seg.write_u64(l.c2s_hdr, 0x0102_0304_0506_0708);
    seg.write_u32(l.c2s_hdr + 8, 0x0a0b_0c0d);
    assert_eq!(seg.load_u64(l.c2s_hdr), 0x0102_0304_0506_0708);
    assert_eq!(seg.load_u32(l.c2s_hdr + 8), 0x0a0b_0c0d);
    assert_eq!(seg.bytes[l.c2s_hdr], 8);
}
