use shaman_core::connections::{Entry, SavedConnection, Store};
use shaman_core::ssh::SshAuth;

fn password(p: &str) -> SshAuth {
    SshAuth::Password { password: p.to_string() }
}

fn entry(id: &str, host: &str, port: u16, username: &str) -> Entry {
    Entry {
        connection: SavedConnection {
            id: id.into(),
            host: host.into(),
            port,
            username: username.into(),
            auth_kind: "password".into(),
            name: None,
        },
        secret: String::new(),
        key_path: None,
    }
}

#[test]
fn labels_hide_the_default_port_but_show_others() {
    let c = SavedConnection {
        id: "x".into(),
        host: "10.0.0.5".into(),
        port: 22,
        username: "root".into(),
        auth_kind: "password".into(),
        name: None,
    };
    assert_eq!(c.label(), "root@10.0.0.5");

    let c = SavedConnection { port: 2222, ..c };
    assert_eq!(c.label(), "root@10.0.0.5:2222");
}

#[test]
fn find_matches_case_insensitively_on_host_only() {
    let store = Store::from_entries(true, vec![entry("1", "Server.Local", 22, "me")]);

    assert!(store.find("server.local", 22, "me").is_some());
    assert!(store.find("server.local", 22, "ME").is_none(), "user is case-sensitive");
    assert!(store.find("server.local", 2222, "me").is_none(), "port matters");
}

#[test]
fn re_saving_the_same_target_updates_rather_than_duplicates() {
    let mut store = Store::default();
    let first = store.upsert("host", 22, "me", &password("old"), "sealed-old".into()).unwrap();
    let second = store.upsert("host", 22, "me", &password("new"), "sealed-new".into()).unwrap();

    assert_eq!(store.list().len(), 1, "must not duplicate");
    assert_eq!(first.id, second.id, "id must be stable across updates");
    assert_eq!(store.secret(&first.id).unwrap(), "sealed-new");
    match store.auth(&first.id, "new".into()).unwrap() {
        SshAuth::Password { password } => assert_eq!(password, "new"),
        other => panic!("expected a password, got {other:?}"),
    }
}

#[test]
fn the_same_host_with_a_different_user_is_a_separate_entry() {
    let mut store = Store::default();
    store.upsert("host", 22, "alice", &password("a"), "sa".into()).unwrap();
    store.upsert("host", 22, "bob", &password("b"), "sb".into()).unwrap();
    assert_eq!(store.list().len(), 2);
}

#[test]
fn connections_removing_works_and_is_idempotent() {
    let mut store = Store::default();
    let saved = store.upsert("host", 22, "me", &password("pw"), "s".into()).unwrap();

    assert!(store.remove(&saved.id));
    assert!(store.list().is_empty());
    assert!(!store.remove(&saved.id), "second remove reports nothing done");
}

#[test]
fn a_key_connection_round_trips_with_its_path_and_passphrase() {
    let mut store = Store::default();
    let auth = SshAuth::Key {
        path: r"C:\Users\me\.ssh\id_ed25519".into(),
        passphrase: "secret-phrase".into(),
    };
    let saved = store.upsert("host", 22, "me", &auth, "sealed".into()).unwrap();

    assert_eq!(saved.auth_kind, "key");
    match store.auth(&saved.id, "secret-phrase".into()).unwrap() {
        SshAuth::Key { path, passphrase } => {
            assert!(path.ends_with("id_ed25519"));
            assert_eq!(passphrase, "secret-phrase");
        }
        other => panic!("expected a key, got {other:?}"),
    }
}

#[test]
fn renaming_sets_and_clears_the_name() {
    let mut store = Store::default();
    let saved = store.upsert("10.0.0.5", 22, "me", &password("pw"), "s".into()).unwrap();
    assert_eq!(saved.name, None, "new entries start unnamed");

    assert_eq!(
        store.rename(&saved.id, "  prod-db  ").unwrap().name.as_deref(),
        Some("prod-db"),
        "names are trimmed"
    );
    assert_eq!(
        store.rename(&saved.id, "   ").unwrap().name,
        None,
        "an empty name clears it rather than storing blanks"
    );
}

#[test]
fn re_saving_credentials_keeps_the_name() {
    let mut store = Store::default();
    let saved = store.upsert("10.0.0.5", 22, "me", &password("old"), "s1".into()).unwrap();
    store.rename(&saved.id, "prod-db").unwrap();

    let again = store.upsert("10.0.0.5", 22, "me", &password("new"), "s2".into()).unwrap();
    assert_eq!(again.name.as_deref(), Some("prod-db"));
}

#[test]
fn suggest_saving_defaults_on_for_a_new_store() {
    assert!(Store::default().suggest_saving);
}

#[test]
fn new_connections_get_a_fresh_128_bit_id() {
    let mut store = Store::default();
    let a = store.upsert("a", 22, "me", &password("x"), "s".into()).unwrap();
    let b = store.upsert("b", 22, "me", &password("x"), "s".into()).unwrap();
    assert_eq!(a.id.len(), 32);
    assert!(a.id.chars().all(|c| c.is_ascii_hexdigit()));
    assert_ne!(a.id, b.id);
}

#[test]
fn upsert_with_id_uses_the_given_id_only_for_a_new_entry() {
    let mut store = Store::default();
    let first = store.upsert_with_id("h", 22, "u", &password("x"), "s".into(), "id-1".into());
    assert_eq!(first.id, "id-1");
    let again = store.upsert_with_id("H", 22, "u", &password("y"), "t".into(), "id-2".into());
    assert_eq!(again.id, "id-1", "the host matches in any case, so the entry is updated");
    assert_eq!(store.list().len(), 1);
}

#[test]
fn an_unknown_id_has_no_secret_and_no_auth() {
    let store = Store::default();
    assert_eq!(store.secret("nope").unwrap_err().message(), "no saved connection nope");
    assert_eq!(store.auth("nope", "x".into()).unwrap_err().message(), "no saved connection nope");
    assert!(store.get("nope").is_none());
}

#[test]
fn renaming_an_unknown_id_is_an_error() {
    let mut store = Store::default();
    assert_eq!(store.rename("zz", "name").unwrap_err().message(), "no saved connection zz");
}

#[test]
fn a_key_kind_without_a_path_falls_back_to_a_password() {
    let mut e = entry("1", "h", 22, "u");
    e.connection.auth_kind = "key".into();
    let store = Store::from_entries(true, vec![e]);
    match store.auth("1", "s".into()).unwrap() {
        SshAuth::Password { password } => assert_eq!(password, "s"),
        other => panic!("expected a password, got {other:?}"),
    }
}

#[test]
fn entries_round_trip_through_to_entries() {
    let store = Store::from_entries(false, vec![entry("1", "a", 22, "u"), entry("2", "b", 23, "v")]);
    let back = store.to_entries();
    assert_eq!(back.len(), 2);
    assert_eq!(back[1].connection.port, 23);
    assert!(!store.suggest_saving);
}

#[test]
fn matches_compares_host_in_any_case_and_the_rest_exactly() {
    let c = entry("1", "Box.Lan", 2222, "me").connection;
    assert!(c.matches("box.lan", 2222, "me"));
    assert!(!c.matches("box.lan", 22, "me"));
    assert!(!c.matches("box.lan", 2222, "Me"));
}
