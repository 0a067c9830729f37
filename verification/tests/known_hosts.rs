use shaman_core::known_hosts::{key_for, split_key, KnownHosts, Verdict};

const FP_A: &str = "SHA256:aaaaaaaaaaaaaaaaaaaaaaaaaaaaaaaaaaaaaaaaaaa";
const FP_B: &str = "SHA256:bbbbbbbbbbbbbbbbbbbbbbbbbbbbbbbbbbbbbbbbbbb";

#[test]
fn default_port_is_not_annotated_but_others_are() {
    assert_eq!(key_for("Example.COM", 22), "example.com");
    assert_eq!(key_for("example.com", 2222), "[example.com]:2222");
}

#[test]
fn the_same_host_on_a_different_port_is_a_different_entry() {
    let mut known = KnownHosts::default();
    known.trust("10.0.0.5", 22, FP_A);

    assert_eq!(known.verdict("10.0.0.5", 22, FP_A), Verdict::Match);
    assert_eq!(known.verdict("10.0.0.5", 2222, FP_A), Verdict::Unknown);
}

#[test]
fn an_unseen_host_is_unknown_and_a_seen_one_matches() {
    let mut known = KnownHosts::default();
    assert_eq!(known.verdict("host", 22, FP_A), Verdict::Unknown);

    known.trust("host", 22, FP_A);
    assert_eq!(known.verdict("host", 22, FP_A), Verdict::Match);
}

#[test]
fn a_different_key_reports_changed_and_carries_the_expected_one() {
    let mut known = KnownHosts::default();
    known.trust("host", 22, FP_A);

    match known.verdict("host", 22, FP_B) {
        Verdict::Changed { expected } => assert_eq!(expected, FP_A),
        other => panic!("a changed key must not be accepted, got {other:?}"),
    }
}

#[test]
fn trusting_again_replaces_the_old_fingerprint() {
    let mut known = KnownHosts::default();
    known.trust("host", 22, FP_A);
    known.trust("host", 22, FP_B);

    assert_eq!(known.verdict("host", 22, FP_B), Verdict::Match);
    assert_eq!(known.len(), 1, "replaced, not duplicated");
}

#[test]
fn listing_splits_the_key_back_into_host_and_port() {
    let mut known = KnownHosts::default();
    known.trust("example.com", 22, FP_A);
    known.trust("10.0.0.5", 2222, FP_B);

    let mut listed = known.list();
    listed.sort_by(|a, b| a.host.cmp(&b.host));

    assert_eq!((listed[0].host.as_str(), listed[0].port), ("10.0.0.5", 2222));
    assert_eq!((listed[1].host.as_str(), listed[1].port), ("example.com", 22));
}

#[test]
fn forgetting_by_key_removes_exactly_one_entry() {
    let mut known = KnownHosts::default();
    known.trust("a.example", 22, FP_A);
    known.trust("b.example", 2222, FP_B);

    let key = known.list().iter().find(|t| t.host == "b.example").unwrap().key.clone();
    assert!(known.forget_key(&key));
    assert_eq!(known.len(), 1);
    assert!(!known.forget_key(&key), "second removal reports nothing done");
}

#[test]
fn hostnames_are_matched_case_insensitively() {
    let mut known = KnownHosts::default();
    known.trust("Server.Local", 22, FP_A);
    assert_eq!(known.verdict("server.local", 22, FP_A), Verdict::Match);
}

#[test]
fn forgetting_a_host_makes_it_unknown_again() {
    let mut known = KnownHosts::default();
    known.trust("host", 22, FP_A);
    known.forget("HOST", 22);
    assert_eq!(known.verdict("host", 22, FP_A), Verdict::Unknown);
    assert!(known.is_empty());
}

#[test]
fn split_key_reads_both_forms() {
    assert_eq!(split_key("example.com"), ("example.com".to_string(), 22));
    assert_eq!(split_key("[example.com]:2222"), ("example.com".to_string(), 2222));
    assert_eq!(split_key("[::1]:2200"), ("::1".to_string(), 2200));
}

#[test]
fn entries_are_kept_sorted_and_unique_from_disk() {
    let known = KnownHosts::from_entries(vec![
        ("b".to_string(), FP_A.to_string()),
        ("a".to_string(), FP_A.to_string()),
        ("b".to_string(), FP_B.to_string()),
    ]);
    let entries = known.to_entries();
    assert_eq!(entries.len(), 2);
    assert_eq!(entries[0].0, "a");
    assert_eq!(entries[1], ("b".to_string(), FP_B.to_string()));
}
