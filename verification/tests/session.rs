use shaman_core::{Error, SessionId, SessionIdSource, SessionKind};

#[test]
fn session_ids_are_unique_and_monotonic() {
    let mut source = SessionIdSource::new();
    let a = SessionId::next(&mut source);
    let b = SessionId::next(&mut source);
    assert!(b.0 > a.0, "expected monotonic ids, got {} then {}", a.display(), b.display());
}

#[test]
fn wsl_sessions_label_with_their_distro() {
    let kind = SessionKind::Wsl { distro: "main".into() };
    assert_eq!(kind.label(), "WSL · main");
}

#[test]
fn the_first_id_is_one() {
    let mut source = SessionIdSource::new();
    assert_eq!(SessionId::next(&mut source), SessionId(1));
}

#[test]
fn every_kind_has_its_label() {
    assert_eq!(SessionKind::Cmd.label(), "Command Prompt");
    assert_eq!(SessionKind::PowerShell.label(), "PowerShell");
    assert_eq!(SessionKind::Pwsh.label(), "PowerShell 7");
    assert_eq!(SessionKind::Ssh { profile: "me@box".into() }.label(), "SSH · me@box");
    assert_eq!(SessionKind::Custom { label: "tool".into() }.label(), "tool");
}

#[test]
fn errors_read_as_the_user_sees_them() {
    assert_eq!(Error::NotFound(SessionId(7)).message(), "session #7 not found");
    assert_eq!(Error::Exited.message(), "session has already exited");
    assert_eq!(Error::Io("disk on fire".into()).message(), "disk on fire");
    assert_eq!(SessionId(12).display(), "#12");
}
