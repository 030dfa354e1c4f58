use tonic_shmsc::config::Config;
use tonic_shmsc::error::{ErrorKind, IoError};
use tonic_shmsc::handshake::{
    check_ack, check_hello_message, check_name_len, check_sent, hello_with_name, section_name,
    Hello, HELLO_ACK, HELLO_SIZE,
};
use tonic_shmsc::seg::{stamp_header, validate_stamp, Layout, Segment};

fn told<T: std::fmt::Debug>(r: Result<T, IoError>) -> (ErrorKind, String) {
    let e = r.unwrap_err();
    (e.kind, e.message)
}

fn data(text: &str) -> (ErrorKind, String) {
    (ErrorKind::InvalidData, text.to_string())
}

fn eof(text: &str) -> (ErrorKind, String) {
    (ErrorKind::UnexpectedEof, text.to_string())
}

#[test]
fn hello_roundtrip() {
    let l = Layout::new(4096, 8192).unwrap();
    let h = Hello::for_layout(&l, 77);
    let b = h.encode();
    assert_eq!(b.len(), HELLO_SIZE);
    let back = Hello::decode(&b).unwrap();
    assert_eq!(back.c2s_cap, 4096);
    assert_eq!(back.s2c_cap, 8192);
    assert_eq!(back.stream_window, 77);
    let again = back.layout().unwrap();
    assert_eq!(again.total, l.total);
}

#[test]
fn hello_errors() {
    let h = Hello { c2s_cap: 4096, s2c_cap: 4096, stream_window: 1 };
    let good = h.encode();
    assert_eq!(told(Hello::decode(&good[..31])), data("shmsc: bad hello size"));
    let mut b = good.clone();
    b[0] ^= 1;
    assert_eq!(told(Hello::decode(&b)), data("shmsc: bad hello magic"));
    let mut b = good.clone();
    b[8] = 9;
    assert_eq!(
        told(Hello::decode(&b)),
        data("shmsc: protocol version 9 not supported")
    );
    let mut b = good.clone();
    b[12] = 0;
    assert_eq!(told(Hello::decode(&b)), data("shmsc: zero window in hello"));
    let odd = Hello { c2s_cap: 5000, s2c_cap: 4096, stream_window: 1 };
    assert!(Hello::decode(&odd.encode()).unwrap().layout().is_err());
    let vast = Hello { c2s_cap: u64::MAX, s2c_cap: 4096, stream_window: 1 };
    assert!(vast.layout().is_err());
}

#[test]
fn hello_messages_are_checked() {
    assert!(check_hello_message(false, 32, true, 32).is_ok());
    assert_eq!(
        told(check_hello_message(true, 32, true, 32)),
        data("shmsc: truncated control data")
    );
    assert_eq!(
        told(check_hello_message(false, 0, false, 32)),
        eof("shmsc: peer closed in hello")
    );
    assert_eq!(
        told(check_hello_message(false, 32, false, 32)),
        data("shmsc: hello arrived without a segment fd")
    );
    assert_eq!(
        told(check_hello_message(false, 31, true, 32)),
        eof("shmsc: short hello")
    );
    assert!(check_sent(32, 32).is_ok());
    assert_eq!(
        told(check_sent(31, 32)),
        (ErrorKind::WriteZero, "shmsc: short sendmsg".to_string())
    );
    assert!(check_ack(HELLO_ACK).is_ok());
    assert_eq!(told(check_ack(0)), data("shmsc: bad handshake ack"));
}

#[test]
fn section_names() {
    let h = Hello { c2s_cap: 4096, s2c_cap: 4096, stream_window: 1 };
    let b = hello_with_name(&h, "Local\\x");
    assert_eq!(b.len(), HELLO_SIZE + 2 + 7);
    assert_eq!(&b[HELLO_SIZE..HELLO_SIZE + 2], &[7, 0]);
    assert_eq!(section_name(&b[HELLO_SIZE + 2..]).unwrap(), "Local\\x");
    assert_eq!(told(section_name(&[0xff])), data("shmsc: non-utf8 section name"));
    assert_eq!(check_name_len(256).unwrap(), 256);
    let bad = data("shmsc: bad section name length in hello");
    assert_eq!(told(check_name_len(0)), bad);
    assert_eq!(told(check_name_len(257)), bad);
}

#[test]
fn config_is_validated() {
    let d = Config::default();
    assert_eq!(d.ring_size, 16 << 20);
    assert_eq!(d.stream_window, 8 << 20);
    assert_eq!(d.max_frame, 1 << 20);
    assert_eq!(d.spin_us, 0);
    assert_eq!(d.max_streams, None);
    let small = Config { max_frame: 1, ..Config::default() }.validated().unwrap();
    assert_eq!(small.max_frame, 4096);
    let large = Config { max_frame: usize::MAX, ..Config::default() }.validated().unwrap();
    assert_eq!(large.max_frame, 16 << 20);
    assert_eq!(
        told(Config { ring_size: 5000, ..Config::default() }.validated()),
        (
            ErrorKind::InvalidInput,
            "shmsc: ring_size 5000 must be a power of two in [4 KiB, 1 GiB]".to_string()
        )
    );
    assert_eq!(
        told(Config { stream_window: 0, ..Config::default() }.validated()),
        (ErrorKind::InvalidInput, "shmsc: zero stream window".to_string())
    );
}

#[test]
fn update_threshold() {
    assert_eq!(Config::wu_threshold(8 << 20), 2 << 20);
    assert_eq!(Config::wu_threshold(4096), 1024);
    assert_eq!(Config::wu_threshold(2048), 1024);
    assert_eq!(Config::wu_threshold(1000), 500);
    assert_eq!(Config::wu_threshold(1), 1);
}

#[test]
fn ends_agree_on_the_segment() {
    let server = Layout::new(8192, 4096).unwrap();
    let sent = Hello::for_layout(&server, 4096).encode();
    let hello = Hello::decode(&sent).unwrap();
    let client = hello.layout().unwrap();
    assert_eq!(hello.stream_window, 4096);
    assert_eq!(
        (client.c2s_hdr, client.c2s_data, client.c2s_cap),
        (server.c2s_hdr, server.c2s_data, server.c2s_cap)
    );
    assert_eq!(
        (client.s2c_hdr, client.s2c_data, client.s2c_cap, client.total),
        (server.s2c_hdr, server.s2c_data, server.s2c_cap, server.total)
    );
    let mut image = stamp_header(&server);
    image.resize(server.total, 0);
    assert!(validate_stamp(&image, &client).is_ok());
    assert!(Segment::from_image(image, client).is_ok());
}
