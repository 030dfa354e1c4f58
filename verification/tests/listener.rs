use tonic_shmsc::conduit::{pipe_name, read_exact, write_all, Attempt, Transfer};
use tonic_shmsc::error::ErrorKind;
use tonic_shmsc::listener::{
    after_bind, after_probe, unlink_if_ours, BindOutcome, BindStep, Cleanup, FileId, ProbeOutcome,
    ServeState,
};
use tonic_shmsc::server::{peer_authorized, ShmscConnectInfo};

#[test]
fn only_our_own_user_may_connect() {
    let info = |uid| ShmscConnectInfo { peer_pid: Some(1), peer_uid: uid };
    assert!(peer_authorized(&info(Some(1000)), 1000));
    assert!(!peer_authorized(&info(Some(1001)), 1000));
    assert!(!peer_authorized(&info(None), 0));
}

#[test]
fn live_listener_is_refused_and_stale_socket_reclaimed() {
    assert!(matches!(after_bind(BindOutcome::Bound), BindStep::Ready));
    assert!(matches!(after_bind(BindOutcome::InUse), BindStep::Probe));
    assert!(matches!(after_bind(BindOutcome::Failed), BindStep::Fail));
    match after_probe(ProbeOutcome::Connected, "/tmp/x.sock") {
        BindStep::Refuse(e) => {
            assert_eq!(e.kind, ErrorKind::AddrInUse);
            assert_eq!(
                e.message,
                "shmsc: /tmp/x.sock is already in use by another listener"
            );
        }
        _ => panic!("refusal expected"),
    }
    assert!(matches!(after_probe(ProbeOutcome::Refused, "/x"), BindStep::Reclaim));
    assert!(matches!(after_probe(ProbeOutcome::Failed, "/x"), BindStep::Fail));
}

#[test]
fn only_our_own_file_is_removed() {
    let ours = FileId { dev: 1, ino: 2 };
    let other = FileId { dev: 1, ino: 3 };
    assert!(unlink_if_ours(Some(ours), Some(ours)));
    assert!(!unlink_if_ours(Some(ours), Some(other)));
    assert!(!unlink_if_ours(Some(ours), None));
    assert!(!unlink_if_ours(None, Some(ours)));
    assert!(!unlink_if_ours(None, None));
    let mut c = Cleanup::new(Some(ours));
    assert!(c.on_drop(Some(ours)));
    assert!(c.on_shutdown(Some(ours)));
    assert!(!c.on_drop(Some(ours)));
}

#[test]
fn drain_misses_no_connection() {
    let mut s = ServeState::new();
    assert!(!s.register(1));
    assert!(!s.register(2));
    assert!(!s.register(3));
    s.forget(2);
    assert_eq!(s.begin_drain(), vec![1, 3]);
    // One that joins late is told at once.
    assert!(s.register(4));
}

#[test]
fn transfers() {
    assert!(matches!(write_all(0, 10, Attempt::Moved(4)), Transfer::More(4)));
    assert!(matches!(write_all(4, 10, Attempt::Moved(6)), Transfer::Complete));
    assert!(matches!(write_all(4, 10, Attempt::WouldBlock), Transfer::More(4)));
    assert!(matches!(write_all(4, 10, Attempt::Failed), Transfer::Fail));
    match write_all(4, 10, Attempt::Moved(0)) {
        Transfer::Refuse(e) => assert_eq!(e.kind, ErrorKind::WriteZero),
        _ => panic!("refusal expected"),
    }
    assert!(matches!(read_exact(1, 3, Attempt::Moved(1)), Transfer::More(2)));
    match read_exact(1, 3, Attempt::Moved(0)) {
        Transfer::Refuse(e) => {
            assert_eq!(e.kind, ErrorKind::UnexpectedEof);
            assert_eq!(e.message, "shmsc: peer closed during handshake");
        }
        _ => panic!("refusal expected"),
    }
}

#[test]
fn pipe_names() {
    assert_eq!(pipe_name("/tmp/a.sock"), r"\\.\pipe\-tmp-a.sock");
    assert_eq!(pipe_name(r"C:\x\y"), r"\\.\pipe\C--x-y");
    assert_eq!(pipe_name(r"\\.\pipe\mine"), r"\\.\pipe\mine");
    assert_eq!(pipe_name("//./pipe/mine"), r"\\.\pipe\mine");
    assert_eq!(pipe_name("/tmp/greeter.shmsc"), r"\\.\pipe\-tmp-greeter.shmsc");
    assert_eq!(pipe_name("-:/x-"), r"\\.\pipe\---x-");
    assert_eq!(pipe_name(""), r"\\.\pipe\");
}
