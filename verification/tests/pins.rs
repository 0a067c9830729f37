use shaman_core::pins::{Pin, PinKind, Store};

fn pin(kind: PinKind, target: &str, label: &str) -> Pin {
    Pin { kind, target: target.into(), label: label.into() }
}

fn strip(targets: &[&str]) -> Store {
    let mut store = Store::default();
    for t in targets {
        store.add(pin(PinKind::Local, t, t));
    }
    store
}

fn order(store: &Store) -> Vec<String> {
    store.list().into_iter().map(|p| p.target).collect()
}

#[test]
fn pinning_the_same_target_twice_does_not_duplicate() {
    let mut store = Store::default();
    assert!(store.add(pin(PinKind::Local, "cmd", "Command Prompt")));
    assert!(!store.add(pin(PinKind::Local, "cmd", "Command Prompt")));
    assert_eq!(store.list().len(), 1);
}

#[test]
fn re_pinning_refreshes_the_stored_label_in_place() {
    let mut store = Store::default();
    store.add(pin(PinKind::Saved, "abc", "10.0.0.5"));
    store.add(pin(PinKind::Saved, "abc", "prod-db"));

    let pins = store.list();
    assert_eq!(pins.len(), 1, "a rename is not a new pin");
    assert_eq!(pins[0].label, "prod-db");
}

#[test]
fn kind_is_part_of_the_identity() {
    let mut store = Store::default();
    assert!(store.add(pin(PinKind::Local, "x", "shell")));
    assert!(store.add(pin(PinKind::Saved, "x", "host")));
    assert_eq!(store.list().len(), 2);
}

#[test]
fn order_is_the_order_they_were_pinned() {
    let mut store = Store::default();
    store.add(pin(PinKind::Local, "cmd", "Command Prompt"));
    store.add(pin(PinKind::Saved, "abc", "prod-db"));
    store.add(pin(PinKind::Local, "pwsh", "PowerShell 7"));

    let targets: Vec<_> = store.list().into_iter().map(|p| p.target).collect();
    assert_eq!(targets, ["cmd", "abc", "pwsh"]);
}

#[test]
fn a_pin_can_be_dragged_left_and_right() {
    let mut store = strip(&["a", "b", "c", "d"]);

    assert!(store.move_to(PinKind::Local, "d", 0));
    assert_eq!(order(&store), ["d", "a", "b", "c"]);

    assert!(store.move_to(PinKind::Local, "d", 2));
    assert_eq!(order(&store), ["a", "b", "d", "c"]);
}

#[test]
fn dropping_past_the_end_lands_at_the_end() {
    let mut store = strip(&["a", "b", "c"]);
    assert!(store.move_to(PinKind::Local, "a", 99));
    assert_eq!(order(&store), ["b", "c", "a"]);
}

#[test]
fn moving_a_pin_onto_itself_changes_nothing() {
    let mut store = strip(&["a", "b", "c"]);
    assert!(store.move_to(PinKind::Local, "b", 1));
    assert_eq!(order(&store), ["a", "b", "c"]);
}

#[test]
fn moving_never_duplicates_or_drops_a_pin() {
    let mut store = strip(&["a", "b", "c", "d", "e"]);
    for index in 0..5 {
        assert!(store.move_to(PinKind::Local, "c", index));
        let mut seen = order(&store);
        seen.sort();
        assert_eq!(seen, ["a", "b", "c", "d", "e"], "lost or duplicated at {index}");
    }
}

#[test]
fn moving_something_that_is_not_pinned_reports_nothing_done() {
    let mut store = strip(&["a"]);
    assert!(!store.move_to(PinKind::Local, "nope", 0));
    assert!(!store.move_to(PinKind::Saved, "a", 0), "kind is part of the match");
    assert_eq!(order(&store), ["a"]);
}

#[test]
fn pins_removing_works_and_is_idempotent() {
    let mut store = Store::default();
    store.add(pin(PinKind::Local, "cmd", "Command Prompt"));

    assert!(store.remove(PinKind::Local, "cmd"));
    assert!(!store.remove(PinKind::Local, "cmd"));
    assert!(store.list().is_empty());
}

#[test]
fn deleting_a_saved_connection_takes_its_pin_with_it() {
    let mut store = Store::default();
    store.add(pin(PinKind::Saved, "abc", "prod-db"));
    store.add(pin(PinKind::Local, "abc", "Command Prompt"));

    assert!(store.forget_connection("abc"));
    assert!(store.contains(PinKind::Local, "abc"), "a local pin sharing the id string must survive");
    assert!(!store.forget_connection("abc"));
}

#[test]
fn a_new_strip_is_empty() {
    assert!(Store::new().list().is_empty());
    assert!(Store::default().list().is_empty());
}

#[test]
fn a_strip_read_back_keeps_its_order() {
    let store = Store::from_pins(vec![pin(PinKind::Saved, "z", "Z"), pin(PinKind::Local, "a", "A")]);
    assert_eq!(order(&store), ["z", "a"]);
}
