use tonic_shmsc::conduit::{dial_again, try_another_name};
use tonic_shmsc::deadline::{call_bound, parse_timeout};
use tonic_shmsc::reconnect::{CallStep, Line, LineEvent, LineStep, Reconnect};
use tonic_shmsc::text::escape;

#[test]
fn timeouts_are_read() {
    assert_eq!(parse_timeout(b"300m"), Some(300_000_000));
    assert_eq!(parse_timeout(b"1H"), Some(3_600_000_000_000));
    assert_eq!(parse_timeout(b"2M"), Some(120_000_000_000));
    assert_eq!(parse_timeout(b"3S"), Some(3_000_000_000));
    assert_eq!(parse_timeout(b"4u"), Some(4_000));
    assert_eq!(parse_timeout(b"05n"), Some(5));
    assert_eq!(parse_timeout(b"99999999H"), Some(99_999_999 * 3_600_000_000_000));
    for bad in [&b""[..], b"S", b"5", b"5x", b"-5S", b"+5S", b"5 S", b"123456789S"] {
        assert_eq!(parse_timeout(bad), None);
    }
}

#[test]
fn shorter_bound_counts() {
    assert_eq!(call_bound(None, None), None);
    assert_eq!(call_bound(Some(3), None), Some(3));
    assert_eq!(call_bound(None, Some(4)), Some(4));
    assert_eq!(call_bound(Some(3), Some(4)), Some(3));
    assert_eq!(call_bound(Some(5), Some(4)), Some(4));
}

#[test]
fn broken_connections_are_replaced() {
    let mut r = Reconnect::new(false);
    assert_eq!(r.begin(), LineStep::Ask);
    assert_eq!(r.step(LineEvent::Begun), LineStep::Ask);
    assert_eq!(r.step(LineEvent::Made), LineStep::Ask);
    assert_eq!(r.step(LineEvent::Ready), LineStep::Ready);
    assert_eq!(r.call(), CallStep::Send);
    // It breaks: a fresh attempt is made, and its error waits for the next call.
    assert_eq!(r.step(LineEvent::Broken), LineStep::Ask);
    assert_eq!(r.line, Line::Idle);
    assert_eq!(r.step(LineEvent::Begun), LineStep::Ask);
    assert_eq!(r.step(LineEvent::AttemptFailed), LineStep::Ready);
    assert_eq!(r.begin(), LineStep::Ready);
    assert_eq!(r.call(), CallStep::Fail);
    assert_eq!(r.begin(), LineStep::Ask);
    assert_eq!(r.step(LineEvent::MakerFailed), LineStep::Fail);
}

#[test]
fn first_attempt_fails_at_once_unless_lazy() {
    let mut r = Reconnect::new(false);
    r.step(LineEvent::Begun);
    assert_eq!(r.step(LineEvent::AttemptFailed), LineStep::Fail);
    let mut r = Reconnect::new(true);
    r.step(LineEvent::Begun);
    assert_eq!(r.step(LineEvent::AttemptFailed), LineStep::Ready);
    assert_eq!(r.call(), CallStep::Fail);
}

#[test]
fn messages_are_escaped() {
    assert_eq!(escape(b"plain text!"), b"plain text!");
    assert_eq!(escape("100% \u{fc}\n".as_bytes()), b"100%25 %C3%BC%0A");
    assert_eq!(escape(b""), b"");
}

#[test]
fn tries_are_bounded() {
    assert!(dial_again(0, true) && dial_again(99, true));
    assert!(!dial_again(100, true) && !dial_again(0, false));
    assert!(try_another_name(15, true));
    assert!(!try_another_name(16, true) && !try_another_name(1, false));
}
