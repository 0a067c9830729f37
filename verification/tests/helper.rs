use shaman_core::helper::{
    after_failed_open, check_handshake, PipeRetry, dispatch, error_notice_bytes, missing_helper, new_pipe_name, pipe_names,
    pipe_path, Dispatched,
};
use shaman_core::proto::{Frame, TAG_DATA, TAG_ERROR, TAG_EXIT, TAG_READY};
use shaman_core::random::random_hex;
use shaman_core::{Error, Subscribers};

fn frame(tag: u8, id: u64, payload: &[u8]) -> Frame {
    Frame { tag, id, payload: payload.to_vec() }
}

#[test]
fn random_values_are_unique_and_long_enough() {
    let a = random_hex(16).unwrap();
    let b = random_hex(16).unwrap();
    assert_eq!(a.len(), 32, "128 bits as hex");
    assert_ne!(a, b, "two draws must not collide");
}

#[test]
fn no_random_bytes_is_the_empty_string() {
    assert_eq!(random_hex(0), Some(String::new()));
    let one = random_hex(1).unwrap();
    assert_eq!(one.len(), 2);
    assert!(one.chars().all(|c| c.is_ascii_hexdigit() && !c.is_ascii_uppercase()));
}

#[test]
fn missing_helper_binary_is_a_clear_error() {
    let err = missing_helper(r"C:\nope\shaman-helper.exe");
    let text = err.message();
    assert!(text.contains("helper not found"), "got: {text}");
}

#[test]
fn pipe_names_are_random_and_split_by_direction() {
    let name = new_pipe_name().unwrap();
    assert!(name.starts_with("shaman-"));
    assert_eq!(name.len(), "shaman-".len() + 32);
    let (c2s, s2c) = pipe_names("shaman-ab");
    assert_eq!(c2s, "shaman-ab-c2s");
    assert_eq!(s2c, "shaman-ab-s2c");
    assert_eq!(pipe_path("x"), r"\\.\pipe\x");
}

#[test]
fn the_handshake_must_echo_the_nonce() {
    assert!(check_handshake(Ok(Some(frame(TAG_READY, 0, b"n0nce"))), "n0nce").is_ok());
    assert_eq!(
        check_handshake(Ok(Some(frame(TAG_READY, 0, b"other"))), "n0nce").unwrap_err().message(),
        "helper handshake failed: wrong nonce -- refusing to use this pipe"
    );
    assert_eq!(
        check_handshake(Ok(Some(frame(TAG_DATA, 0, b"n0nce"))), "n0nce").unwrap_err().message(),
        "helper did not send a handshake"
    );
    assert_eq!(
        check_handshake(Ok(None), "n0nce").unwrap_err().message(),
        "helper did not send a handshake"
    );
    assert_eq!(
        check_handshake(Err(Error::Io("pipe broke".into())), "n0nce").unwrap_err().message(),
        "helper handshake: pipe broke"
    );
}

#[test]
fn output_goes_to_the_registered_session_only() {
    let mut subs: Subscribers<&str> = Subscribers::new();
    subs.insert(1, "tab one");
    match dispatch(&mut subs, frame(TAG_DATA, 1, b"hi")) {
        Dispatched::Output { id, bytes } => assert_eq!((id, bytes), (1, b"hi".to_vec())),
        _ => panic!("expected output"),
    }
    assert!(matches!(dispatch(&mut subs, frame(TAG_DATA, 2, b"hi")), Dispatched::Unrouted));
    assert_eq!(subs.get(1), Some(&"tab one"));
}

#[test]
fn an_exit_ends_the_session_once() {
    let mut subs: Subscribers<&str> = Subscribers::new();
    subs.insert(1, "tab one");
    assert!(matches!(dispatch(&mut subs, frame(TAG_EXIT, 1, b"")), Dispatched::Ended("tab one")));
    assert!(matches!(dispatch(&mut subs, frame(TAG_EXIT, 1, b"")), Dispatched::Unrouted));
    assert!(subs.get(1).is_none());
}

#[test]
fn an_error_is_shown_in_red_then_ends_the_session() {
    let mut subs: Subscribers<&str> = Subscribers::new();
    subs.insert(4, "tab");
    match dispatch(&mut subs, frame(TAG_ERROR, 4, b"failed to start x")) {
        Dispatched::Failed { sub, notice } => {
            assert_eq!(sub, "tab");
            assert_eq!(notice, b"\r\n\x1b[31mfailed to start x\x1b[0m\r\n".to_vec());
        }
        _ => panic!("expected a failure"),
    }
    assert!(subs.get(4).is_none());
    assert!(matches!(dispatch(&mut subs, frame(99, 4, b"")), Dispatched::Unexpected(99)));
}

#[test]
fn invalid_utf8_in_an_error_is_replaced_not_dropped() {
    let notice = error_notice_bytes(&[0x66, 0xff, 0x67]);
    assert_eq!(notice, "\r\n\x1b[31mf\u{fffd}g\x1b[0m\r\n".as_bytes().to_vec());
}

#[test]
fn a_dead_helper_hands_back_every_subscriber_once() {
    let mut subs: Subscribers<u32> = Subscribers::new();
    subs.insert(5, 50);
    subs.insert(3, 30);
    assert_eq!(subs.insert(5, 55), Some(50));
    assert_eq!(subs.remove(9), None);
    let mut left = subs.drain();
    left.sort();
    assert_eq!(left, vec![30, 55]);
    assert!(subs.get(5).is_none());
}

#[test]
fn opening_the_pipe_is_retried_until_the_budget_is_spent() {
    assert_eq!(after_failed_open(0), PipeRetry::Wait(25));
    assert_eq!(after_failed_open(10_000_000_000), PipeRetry::Wait(25));
    assert_eq!(after_failed_open(10_000_000_001), PipeRetry::GiveUp);
}
