use shaman_core::known_hosts::KnownHosts;
use shaman_core::ssh::{
    attempt_error, check_server_key, key_entry, order_keys, Attempt, HostKeyOutcome,
};
use russh::keys::ssh_key::private::Ed25519Keypair;
use russh::keys::ssh_key::{Cipher, Kdf, LineEnding, PrivateKey};
use shaman_core::{DiscoveredKey, SshAuth, SshFailure, SshOptions, Verdict};

fn opts(auth: SshAuth) -> SshOptions {
    SshOptions {
        host: "10.0.0.5".into(),
        port: 22,
        username: "root".into(),
        auth,
        cols: 80,
        rows: 24,
        trust_new_key: false,
    }
}

fn password() -> SshAuth {
    SshAuth::Password { password: "hunter2".into() }
}

#[test]
fn label_reads_as_user_at_host() {
    assert_eq!(opts(password()).label(), "root@10.0.0.5");
}

#[test]
fn a_known_key_is_accepted_without_touching_the_store() {
    let mut known = KnownHosts::default();
    known.trust("10.0.0.5", 22, "SHA256:a");
    let check = check_server_key(&mut known, "10.0.0.5", 22, "SHA256:a", false);
    assert!(check.accept);
    assert!(!check.trusted);
    assert_eq!(check.outcome.verdict, Verdict::Match);
}

#[test]
fn an_unknown_key_is_refused_unless_the_user_agreed() {
    let mut known = KnownHosts::default();
    let check = check_server_key(&mut known, "h", 22, "SHA256:x", false);
    assert!(!check.accept);
    assert_eq!(check.outcome.verdict, Verdict::Unknown);
    assert!(known.is_empty());

    let check = check_server_key(&mut known, "h", 22, "SHA256:x", true);
    assert!(check.accept && check.trusted);
    assert_eq!(known.verdict("h", 22, "SHA256:x"), Verdict::Match);
}

#[test]
fn a_changed_key_is_refused_and_carries_the_old_one() {
    let mut known = KnownHosts::default();
    known.trust("h", 2222, "SHA256:old");
    let check = check_server_key(&mut known, "h", 2222, "SHA256:new", false);
    assert!(!check.accept);
    assert_eq!(check.outcome.verdict, Verdict::Changed { expected: "SHA256:old".into() });
    assert_eq!(check.outcome.fingerprint, "SHA256:new");
}

#[test]
fn an_unknown_host_key_failure_carries_the_fingerprint() {
    let seen = HostKeyOutcome { fingerprint: "SHA256:x".into(), verdict: Verdict::Unknown };
    let e = attempt_error(
        &opts(password()),
        Attempt::HandshakeFailed { seen: Some(seen), reason: "rejected".into() },
    );
    assert_eq!(e.kind, SshFailure::UnknownHostKey);
    assert_eq!(e.message, "10.0.0.5:22 presented a host key Shaman has not seen before.");
    assert_eq!(e.fingerprint.as_deref(), Some("SHA256:x"));
    assert_eq!(e.expected_fingerprint, None);
}

#[test]
fn a_changed_host_key_failure_carries_both_fingerprints() {
    let seen = HostKeyOutcome {
        fingerprint: "SHA256:new".into(),
        verdict: Verdict::Changed { expected: "SHA256:old".into() },
    };
    let e = attempt_error(
        &opts(password()),
        Attempt::HandshakeFailed { seen: Some(seen), reason: "rejected".into() },
    );
    assert_eq!(e.kind, SshFailure::HostKeyChanged);
    assert!(e.message.starts_with("The host key for 10.0.0.5:22 has CHANGED."));
    assert_eq!(e.fingerprint.as_deref(), Some("SHA256:new"));
    assert_eq!(e.expected_fingerprint.as_deref(), Some("SHA256:old"));
}

#[test]
fn a_handshake_without_a_host_key_verdict_is_a_plain_failure() {
    let e = attempt_error(
        &opts(password()),
        Attempt::HandshakeFailed { seen: None, reason: "bad banner".into() },
    );
    assert_eq!(e.kind, SshFailure::Unreachable);
    assert_eq!(
        e.message,
        "10.0.0.5:22 accepted the connection but the SSH handshake failed — bad banner"
    );
}

#[test]
fn reach_failures_are_unreachable() {
    let o = opts(password());
    let e = attempt_error(&o, Attempt::ReachFailed { reason: "connection refused".into() });
    assert_eq!(e.kind, SshFailure::Unreachable);
    assert_eq!(e.message, "could not reach 10.0.0.5:22 — connection refused");

    let e = attempt_error(&o, Attempt::ReachTimedOut);
    assert_eq!(
        e.message,
        "10.0.0.5:22 did not answer within 5s — the device is off, on another network, or blocked by a firewall"
    );

    let e = attempt_error(&o, Attempt::HandshakeTimedOut);
    assert_eq!(e.kind, SshFailure::Unreachable);
    assert!(e.message.contains("(waited 15s)"));
}

#[test]
fn a_rejected_login_names_the_likely_fix() {
    let e = attempt_error(&opts(password()), Attempt::AuthRejected);
    assert_eq!(e.kind, SshFailure::Auth);
    assert_eq!(e.message, "authentication failed for root@10.0.0.5 — check the username and password");

    let key = SshAuth::Key { path: "k".into(), passphrase: String::new() };
    let e = attempt_error(&opts(key), Attempt::AuthRejected);
    assert_eq!(e.message, "authentication failed for root@10.0.0.5 — the server rejected this key for that user");

    let e = attempt_error(&opts(password()), Attempt::AuthTimedOut);
    assert_eq!(e.message, "root@10.0.0.5 never answered the login attempt (waited 20s)");
}

#[test]
fn an_unreadable_key_hints_at_the_passphrase() {
    let key = SshAuth::Key { path: r"C:\nope\id_ed25519".into(), passphrase: String::new() };
    let e = attempt_error(&opts(key), Attempt::KeyUnreadable { reason: "not found".into() });
    assert_eq!(e.kind, SshFailure::Auth);
    assert_eq!(
        e.message,
        r"could not read the private key C:\nope\id_ed25519: not found — if the key is encrypted, enter its passphrase"
    );

    let key = SshAuth::Key { path: "k".into(), passphrase: "pw".into() };
    let e = attempt_error(&opts(key), Attempt::KeyUnreadable { reason: "bad".into() });
    assert!(e.message.ends_with(" — check the passphrase"));
}

#[test]
fn session_failures_are_session_failures() {
    let o = opts(password());
    let e = attempt_error(&o, Attempt::ShellRefused { reason: "no".into() });
    assert_eq!((e.kind, e.message.as_str()), (SshFailure::Session, "the server refused a shell: no"));
    let e = attempt_error(&o, Attempt::PtyRefused { reason: "no".into() });
    assert_eq!(e.message, "the server refused a terminal: no");
    let e = attempt_error(&o, Attempt::SessionRefused { reason: "no".into() });
    assert_eq!(e.message, "connected, but could not open a session: no");
    let e = attempt_error(&o, Attempt::WorkerStopped);
    assert_eq!(e.message, "the SSH worker stopped before reporting a result");
    let e = attempt_error(&o, Attempt::AuthFailed { reason: "eof".into() });
    assert_eq!((e.kind, e.message.as_str()), (SshFailure::Auth, "authentication failed: eof"));
}

#[test]
fn non_keys_are_not_offered() {
    let key_text = "PRIVATE KEY, but nothing that decodes as one\n";
    assert!(key_entry("p".into(), "id_ed25519.pub".into(), key_text).is_none());
    assert!(key_entry("p".into(), "known_hosts".into(), key_text).is_none());
    assert!(key_entry("p".into(), "config".into(), key_text).is_none());
    assert!(key_entry("p".into(), "notes.txt".into(), "hello").is_none());
    assert!(
        key_entry("p".into(), "id_ed25519".into(), key_text).is_none(),
        "text that does not decode as a key is not offered"
    );
}

/// An ed25519 key in OpenSSH form, made from a fixed seed; with a
/// passphrase, encrypted under it.
fn openssh_key(passphrase: Option<&str>) -> String {
    let key = PrivateKey::from(Ed25519Keypair::from_seed(&[7u8; 32]));
    let key = match passphrase {
        Some(p) => key
            .encrypt_with(Cipher::Aes256Ctr, Kdf::Bcrypt { salt: vec![1u8; 16], rounds: 2 }, 42, p)
            .unwrap(),
        None => key,
    };
    key.to_openssh(LineEnding::LF).unwrap().to_string()
}

#[test]
fn a_key_is_marked_encrypted_exactly_when_it_needs_a_passphrase() {
    let open = key_entry("/k/id_ed25519".into(), "id_ed25519".into(), &openssh_key(None)).unwrap();
    assert_eq!((open.path.as_str(), open.name.as_str()), ("/k/id_ed25519", "id_ed25519"));
    assert!(!open.encrypted);
    let locked =
        key_entry("/k/id_locked".into(), "id_locked".into(), &openssh_key(Some("pw"))).unwrap();
    assert!(locked.encrypted);
    let mut damaged = openssh_key(None);
    damaged.replace_range(40..60, "!!!!!!!!!!!!!!!!!!!!");
    assert!(key_entry("/k/id_bad".into(), "id_bad".into(), &damaged).is_none());
}

fn found(name: &str) -> DiscoveredKey {
    DiscoveredKey { path: format!("/k/{name}"), name: name.into(), encrypted: false }
}

#[test]
fn keys_are_offered_ed25519_first_and_otherwise_in_the_order_found() {
    let keys = vec![
        found("work_rsa"),
        found("other"),
        found("id_ecdsa"),
        found("id_ed25519"),
        found("id_rsa"),
        found("deploy_ed25519"),
    ];
    let names: Vec<_> = order_keys(keys).into_iter().map(|k| k.name).collect();
    assert_eq!(names, ["id_ed25519", "deploy_ed25519", "id_ecdsa", "work_rsa", "id_rsa", "other"]);
}

#[test]
fn key_auth_is_told_apart_from_a_password() {
    assert!(SshAuth::Key { path: "k".into(), passphrase: String::new() }.is_key());
    assert!(!password().is_key());
}
