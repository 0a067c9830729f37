use shaman_core::routing::{
    effective_port, failed_to_start, helper_refused, helper_unavailable, no_session, placement,
    ssh_options, unknown_shell, Handoffs, Placement, SshTarget,
};
use shaman_core::routing::remove_connection;
use shaman_core::{ConnectionStore, Pin, PinKind, PinStore, SshAuth};

#[test]
fn sessions_run_where_the_table_says() {
    assert_eq!(placement(true, true), Ok(Placement::InProcess));
    assert_eq!(placement(true, false), Ok(Placement::Helper));
    assert_eq!(placement(false, false), Ok(Placement::InProcess));
    assert_eq!(
        placement(false, true),
        Err("Admin terminals need Shaman itself to be running as administrator. Restart Shaman and accept the UAC prompt.".to_string())
    );
}

#[test]
fn session_errors_read_well() {
    assert_eq!(unknown_shell("fish"), "unknown or no-longer-installed shell 'fish'");
    assert_eq!(failed_to_start("boom"), "failed to start shell: boom");
    assert_eq!(helper_unavailable("x"), "cannot open a normal terminal without the helper: x");
    assert_eq!(helper_refused("y"), "helper refused the session: y");
    assert_eq!(no_session(42), "no session 42");
}

#[test]
fn a_target_is_trimmed_and_defaults_to_port_22() {
    let target = SshTarget {
        host: "  box.lan ".into(),
        port: 0,
        username: " me".into(),
        auth: SshAuth::Password { password: " keep spaces ".into() },
        trust_new_key: true,
    };
    let opts = ssh_options(target, 0, 24);
    assert_eq!(opts.host, "box.lan");
    assert_eq!(opts.username, "me");
    assert_eq!(opts.port, 22);
    assert_eq!((opts.cols, opts.rows), (1, 24));
    assert!(opts.trust_new_key);
    match opts.auth {
        SshAuth::Password { password } => assert_eq!(password, " keep spaces "),
        _ => panic!("auth must pass through untouched"),
    }
    assert_eq!(effective_port(2222), 2222);
}

#[test]
fn handoffs_wait_for_their_window_in_order() {
    let mut h: Handoffs<u32> = Handoffs::new();
    h.push("win-2", 1);
    h.push("win-3", 2);
    h.push("win-2", 3);
    assert_eq!(h.claim("win-2"), vec![1, 3]);
    assert!(h.claim("win-2").is_empty(), "claimed once");
    assert_eq!(h.claim("win-3"), vec![2]);
    assert!(h.claim("nobody").is_empty());
}

#[test]
fn removing_a_saved_connection_takes_its_pin_with_it() {
    let mut store = ConnectionStore::default();
    let auth = SshAuth::Password { password: "pw".into() };
    let saved = store.upsert("host", 22, "me", &auth, "sealed".into()).unwrap();
    let mut pins = PinStore::default();
    pins.add(Pin { kind: PinKind::Saved, target: saved.id.clone(), label: "host".into() });
    pins.add(Pin { kind: PinKind::Local, target: saved.id.clone(), label: "shell".into() });

    assert!(remove_connection(&mut store, &mut pins, &saved.id).unwrap(), "the strip changed");
    assert!(store.list().is_empty());
    assert!(!pins.contains(PinKind::Saved, &saved.id));
    assert!(pins.contains(PinKind::Local, &saved.id), "a local pin sharing the id string survives");

    let err = remove_connection(&mut store, &mut pins, &saved.id).unwrap_err();
    assert_eq!(err.message(), format!("no saved connection {}", saved.id));
}
