use shaman_core::{Error, Registry, Session, SessionId, SessionIdSource, SessionKind};

#[derive(Debug)]
struct Fake {
    id: SessionId,
    kind: SessionKind,
    elevated: bool,
}

impl Session for Fake {
    // The values the library's contracts speak of: what `id`, `kind` and
    // `elevated` return.
    fn id_view(&self) -> shaman_core::SessionId {
        self.id()
    }
    fn kind_view(&self) -> shaman_core::SessionKind {
        self.kind().clone()
    }
    fn elevated_view(&self) -> bool {
        self.elevated()
    }
    fn id(&self) -> SessionId {
        self.id
    }
    fn kind(&self) -> &SessionKind {
        &self.kind
    }
    fn elevated(&self) -> bool {
        self.elevated
    }
    fn write(&mut self, _: &[u8]) -> Result<(), Error> {
        Ok(())
    }
    fn resize(&mut self, _: u16, _: u16) -> Result<(), Error> {
        Ok(())
    }
    fn kill(&mut self) -> Result<(), Error> {
        Ok(())
    }
}

fn fake(ids: &mut SessionIdSource, kind: SessionKind) -> Fake {
    Fake { id: SessionId::next(ids), kind, elevated: false }
}

#[test]
fn preserves_insertion_order_so_tabs_do_not_shuffle() {
    let mut ids = SessionIdSource::new();
    let mut reg = Registry::new();
    let a = reg.insert(fake(&mut ids, SessionKind::Cmd));
    let b = reg.insert(fake(&mut ids, SessionKind::PowerShell));
    let c = reg.insert(fake(&mut ids, SessionKind::Wsl { distro: "main".into() }));

    let listed: Vec<_> = reg.list().iter().map(|s| s.id).collect();
    assert_eq!(listed, vec![a, b, c]);
}

#[test]
fn removing_a_session_drops_it_from_the_listing() {
    let mut ids = SessionIdSource::new();
    let mut reg = Registry::new();
    let a = reg.insert(fake(&mut ids, SessionKind::Cmd));
    let b = reg.insert(fake(&mut ids, SessionKind::Cmd));

    assert!(reg.remove(a).is_some());
    assert_eq!(reg.len(), 1);

    let listed: Vec<_> = reg.list().iter().map(|s| s.id).collect();
    assert_eq!(listed, vec![b], "removed session must leave the order too");

    assert!(reg.remove(a).is_none(), "double remove should be harmless");
}

#[test]
fn labels_come_from_the_session_kind() {
    let mut ids = SessionIdSource::new();
    let mut reg = Registry::new();
    reg.insert(fake(&mut ids, SessionKind::Wsl { distro: "main".into() }));
    assert_eq!(reg.list()[0].label, "WSL · main");
}

#[test]
fn each_row_shows_its_own_session() {
    let mut ids = SessionIdSource::new();
    let mut reg = Registry::new();
    let admin = Fake { id: SessionId::next(&mut ids), kind: SessionKind::PowerShell, elevated: true };
    let a = reg.insert(admin);
    let b = reg.insert(fake(&mut ids, SessionKind::Ssh { profile: "box".into() }));
    let rows = reg.list();
    assert_eq!((rows[0].id, rows[0].kind.clone(), rows[0].elevated), (a, SessionKind::PowerShell, true));
    assert_eq!(rows[0].label, "PowerShell");
    assert_eq!((rows[1].id, rows[1].elevated), (b, false));
    assert_eq!(rows[1].kind, SessionKind::Ssh { profile: "box".into() });
    assert_eq!(rows[1].label, "SSH · box");
}

#[test]
fn a_live_session_can_be_driven_by_id() {
    let mut ids = SessionIdSource::new();
    let mut reg = Registry::new();
    let a = reg.insert(fake(&mut ids, SessionKind::Pwsh));
    assert!(reg.get_mut(a).is_some());
    assert!(reg.get_mut(SessionId(999)).is_none());
    assert!(!reg.is_empty());
}
