use tonic_shmsc::ring::{Consumer, Producer, OFF_HEAD, OFF_TAIL};
use tonic_shmsc::seg::{Layout, Segment};

fn ring_pair(cap: usize) -> (Segment, Producer, Consumer) {
    let layout = Layout::new(cap, cap).unwrap();
    let seg = Segment::create(layout);
    let p = Producer::new(&seg, layout.c2s());
    let c = Consumer::new(&seg, layout.c2s());
    (seg, p, c)
}

#[test]
fn roundtrip_with_wrap() {
    let (mut seg, mut p, mut c) = ring_pair(4096);
    let msg: Vec<u8> = (0..1500u32).map(|i| (i % 251) as u8).collect();
    let mut out = vec![0u8; 1500];
    // Often enough to go round several times.
    for _ in 0..10 {
        assert_eq!(p.push(&mut seg, &msg), 1500);
        assert_eq!(c.available(&seg), 1500);
        assert_eq!(c.pop(&mut seg, &mut out), 1500);
        assert_eq!(out, msg);
    }
}

#[test]
fn partial_push_when_full() {
    let (mut seg, mut p, mut c) = ring_pair(4096);
    let big = vec![0xABu8; 6000];
    assert_eq!(p.push(&mut seg, &big), 4096);
    assert_eq!(p.push(&mut seg, &big[4096..]), 0); // full
    assert!(!p.park_self(&mut seg)); // full, and no space appeared during the park
    p.unpark_self(&mut seg);
    let mut out = vec![0u8; 1000];
    assert_eq!(c.pop(&mut seg, &mut out), 1000);
    assert!(out.iter().all(|&b| b == 0xAB));
    // Space freed; the producer can go on.
    assert_eq!(p.push(&mut seg, &big[4096..]), 1000);
}

#[test]
fn parking_flags_handshake() {
    let (mut seg, mut p, mut c) = ring_pair(4096);
    // The consumer parks on empty; the push must see it.
    assert!(!c.park_self(&mut seg)); // empty: no data appeared
    assert_eq!(p.push(&mut seg, b"x"), 1);
    assert!(p.take_consumer_parked(&mut seg));
    assert!(!p.take_consumer_parked(&mut seg)); // taken
    c.unpark_self(&mut seg);
    // The producer parks on full; the pop must see it.
    let fill = vec![0u8; 4095];
    assert_eq!(p.push(&mut seg, &fill), 4095); // the ring now holds 4096 bytes
    assert!(!p.park_self(&mut seg)); // full: no space appeared
    let mut out = vec![0u8; 16];
    assert_eq!(c.pop(&mut seg, &mut out), 16);
    assert!(c.take_producer_parked(&mut seg));
    assert!(!c.take_producer_parked(&mut seg));
}

#[test]
fn park_race_detected() {
    let (mut seg, mut p, mut c) = ring_pair(4096);
    // Data comes between seeing "empty" and the park.
    assert_eq!(c.available(&seg), 0);
    assert_eq!(p.push(&mut seg, b"race"), 4);
    assert!(c.park_self(&mut seg));
    c.unpark_self(&mut seg);
}

#[test]
fn consumer_clamps_corrupt_tail() {
    let cap = 4096usize;
    for bogus_tail in [
        u64::MAX,
        u64::MAX - 10,
        cap as u64 * 1000,
        1u64 << 63,
        (1u64 << 63) + 5,
    ] {
        let (mut seg, _p, mut c) = ring_pair(cap);
        let hdr = seg.layout.c2s_hdr;
        seg.write_u64(hdr + OFF_TAIL, bogus_tail);
        let avail = c.available(&seg);
        assert!(
            avail <= cap,
            "available {avail} must never exceed cap {cap}"
        );
        let mut out = vec![0u8; cap];
        let n = c.pop(&mut seg, &mut out);
        assert!(n <= cap);
    }
}

#[test]
fn producer_clamps_corrupt_head() {
    let cap = 4096usize;
    for bogus_head in [u64::MAX, 1u64 << 63, cap as u64 + 1, cap as u64 * 999] {
        let (mut seg, mut p, _c) = ring_pair(cap);
        let hdr = seg.layout.c2s_hdr;
        seg.write_u64(hdr + OFF_HEAD, bogus_head);
        let free = p.free_space(&seg);
        assert!(free <= cap, "free_space {free} must never exceed cap {cap}");
        let src = vec![0x5Au8; cap];
        let n = p.push(&mut seg, &src);
        assert!(n <= cap);
    }
}

#[test]
fn corrupt_indices_never_panic_under_traffic() {
    let cap = 8192usize;
    let (mut seg, mut p, mut c) = ring_pair(cap);
    assert_eq!(p.push(&mut seg, &vec![7u8; 4096]), 4096);
    let mut out = vec![0u8; cap];
    for (i, bogus) in [u64::MAX, 1u64 << 62, 3, cap as u64 * 5, 0]
        .into_iter()
        .enumerate()
    {
        let hdr = seg.layout.c2s_hdr;
        seg.write_u64(hdr + OFF_TAIL, bogus);
        let avail = c.available(&seg);
        assert!(avail <= cap, "iter {i}: {avail} > {cap}");
        let take = avail.min(out.len());
        let _ = c.pop(&mut seg, &mut out[..take]);
    }
}

#[test]
fn positions_go_round() {
    let layout = Layout::new(4096, 4096).unwrap();
    let mut seg = Segment::create(layout);
    let start = u64::MAX - 9;
    seg.write_u64(layout.c2s_hdr + OFF_HEAD, start);
    seg.write_u64(layout.c2s_hdr + OFF_TAIL, start);
    let mut p = Producer::new(&seg, layout.c2s());
    let mut c = Consumer::new(&seg, layout.c2s());
    let msg: Vec<u8> = (0..100).collect();
    assert_eq!(p.push(&mut seg, &msg), 100);
    assert_eq!(p.tail, 90);
    let mut out = vec![0u8; 200];
    assert_eq!(c.pop(&mut seg, &mut out), 100);
    assert_eq!(&out[..100], &msg[..]);
    assert!(p.is_drained(&seg));
}

#[test]
fn the_two_rings_do_not_touch() {
    let layout = Layout::new(4096, 4096).unwrap();
    let mut seg = Segment::create(layout);
    let mut a = Producer::new(&seg, layout.c2s());
    let mut b = Producer::new(&seg, layout.s2c());
    a.push(&mut seg, &vec![1u8; 4096]);
    b.push(&mut seg, &vec![2u8; 4096]);
    let mut out = vec![0u8; 4096];
    assert_eq!(Consumer::new(&seg, layout.c2s()).pop(&mut seg, &mut out), 4096);
    assert!(out.iter().all(|&x| x == 1));
    assert_eq!(Consumer::new(&seg, layout.s2c()).pop(&mut seg, &mut out), 4096);
    assert!(out.iter().all(|&x| x == 2));
}

#[test]
fn reservations_for_mapped_memory() {
    let layout = Layout::new(4096, 4096).unwrap();
    let mut p = Producer::start(layout.c2s(), 4090, 0);
    assert!(p.must_refresh(10));
    let chunk = p.reserve(10, Some(4090));
    assert_eq!((chunk.index, chunk.first, chunk.len), (4090, 6, 10));
    assert_eq!(p.tail, 4100);
    let mut c = Consumer::start(layout.c2s(), 4090, 4090);
    assert!(c.must_refresh());
    let chunk = c.take(100, Some(4100));
    assert_eq!((chunk.index, chunk.first, chunk.len), (4090, 6, 10));
    assert_eq!(c.head, 4100);
    // A position that cannot be true leaves no room, and no more than the ring.
    let mut p = Producer::start(layout.c2s(), 0, 0);
    assert_eq!(p.observe(1), 0);
    let mut c = Consumer::start(layout.c2s(), 0, 0);
    assert_eq!(c.observe(u64::MAX), 4096);
}
