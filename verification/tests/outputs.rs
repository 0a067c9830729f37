use shaman_core::outputs::MAX_HELD_BYTES;
use shaman_core::Outputs;

#[test]
fn output_goes_straight_to_an_attached_window() {
    let mut out: Outputs<&str> = Outputs::new();
    assert!(out.bind(1, "window-a").is_empty());
    assert_eq!(out.deliver(1, b"hi".to_vec()), Some(b"hi".to_vec()));
    assert_eq!(out.sink(1), Some(&"window-a"));
}

#[test]
fn a_detached_session_keeps_what_it_says_until_reattached() {
    let mut out: Outputs<&str> = Outputs::new();
    out.bind(1, "window-a");
    out.unbind(1);
    assert_eq!(out.deliver(1, b"one ".to_vec()), None);
    assert_eq!(out.deliver(1, b"two".to_vec()), None);
    assert!(out.sink(1).is_none());
    assert_eq!(out.bind(1, "window-b"), b"one two".to_vec());
    assert!(out.bind(1, "window-b").is_empty(), "the backlog is handed over once");
}

#[test]
fn the_backlog_keeps_only_the_newest_bytes() {
    let mut out: Outputs<u8> = Outputs::new();
    out.deliver(7, vec![b'a'; MAX_HELD_BYTES]);
    out.deliver(7, b"tail".to_vec());
    let held = out.bind(7, 0);
    assert_eq!(held.len(), MAX_HELD_BYTES);
    assert!(held.ends_with(b"tail"));
    assert_eq!(held[0], b'a');
}

#[test]
fn forgetting_a_session_drops_its_backlog() {
    let mut out: Outputs<u8> = Outputs::new();
    out.deliver(3, b"x".to_vec());
    out.forget(3);
    assert!(out.bind(3, 1).is_empty());
}
