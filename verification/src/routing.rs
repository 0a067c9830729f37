//! Where a session runs, and how the app's commands read what the UI sends.
//!
//! Release builds run elevated, so a shell spawned in-process would inherit
//! administrator rights. Routing is therefore:
//!
//! | app elevated | profile elevated | runs                          |
//! |--------------|------------------|-------------------------------|
//! | yes          | yes              | in-process (already admin)    |
//! | yes          | no               | in the medium-integrity helper|
//! | no           | no               | in-process (already normal)   |
//! | no           | yes              | refused, with an explanation  |
//!
//! The last row matters: if elevation is unavailable we fail loudly. Silently
//! handing someone a normal shell they believe is admin is worse than an
//! error.
use vstd::prelude::*;

use crate::connections::{first_with_id, no_saved_connection, not_found, Entry, Store as ConnectionStore};
use crate::pins::{holds, opens, PinKind, PinView, Store as PinStore};
use crate::pty::{at_least_one, at_least_one_cell};
use crate::Error;
use crate::ssh::{SshAuth, SshOptions};
use crate::text::{decimal, push_decimal, push_str, str_eq, trim, trim_seq};

verus! {

/// Where a session runs.
#[derive(Debug, Clone, Copy, PartialEq, Eq, Structural)]
pub enum Placement {
    /// A pseudo-terminal in this process.
    InProcess,
    /// A pseudo-terminal in the medium-integrity helper.
    Helper,
}

/// Why an admin terminal cannot be opened by an app that is not elevated.
pub open spec fn needs_admin_message() -> Seq<char> {
    "Admin terminals need Shaman itself to be running as administrator. Restart Shaman and accept the UAC prompt."@
}

/// Where a session for a profile runs, by the table above; `None` where
/// it cannot run at all (an admin profile in an app that is not elevated).
pub open spec fn placed(app_elevated: bool, profile_elevated: bool) -> Option<Placement> {
    if profile_elevated && !app_elevated {
        None
    } else if !profile_elevated && app_elevated {
        Some(Placement::Helper)
    } else {
        Some(Placement::InProcess)
    }
}

/// A tab never runs at an integrity other than its profile's: a profile is
/// only placed in this process when the app's integrity is the profile's (so
/// options made by `PtyOptions::from_profile`, elevated exactly when the
/// profile is, say how it truly runs); an ordinary profile in an elevated
/// app goes to the helper, at normal integrity; and an admin profile in an
/// app that is not elevated is refused.
pub proof fn lemma_tabs_run_at_their_profiles_integrity(app_elevated: bool, profile_elevated: bool)
    ensures
        placed(app_elevated, profile_elevated) == Some(Placement::InProcess) ==> app_elevated
            == profile_elevated,
        placed(app_elevated, profile_elevated) == Some(Placement::Helper) ==> !profile_elevated,
        placed(app_elevated, profile_elevated) is None ==> profile_elevated && !app_elevated,
{
}

/// Where a session for a profile runs, by the table above.
pub fn placement(app_elevated: bool, profile_elevated: bool) -> (r: Result<Placement, String>)
    ensures
        match placed(app_elevated, profile_elevated) {
            Some(p) => r == Ok::<Placement, String>(p),
            None => r matches Err(m) && m@ == needs_admin_message(),
        },
        profile_elevated && app_elevated ==> r == Ok::<Placement, String>(Placement::InProcess),
        !profile_elevated && app_elevated ==> r == Ok::<Placement, String>(Placement::Helper),
        !profile_elevated && !app_elevated ==> r == Ok::<Placement, String>(Placement::InProcess),
        profile_elevated && !app_elevated ==> (r matches Err(m) && m@ == needs_admin_message()),
{
    if profile_elevated {
        if !app_elevated {
            return Err(
                "Admin terminals need Shaman itself to be running as administrator. Restart Shaman and accept the UAC prompt.".to_owned(),
            );
        }
        Ok(Placement::InProcess)
    } else if app_elevated {
        Ok(Placement::Helper)
    } else {
        Ok(Placement::InProcess)
    }
}

fn prefixed(prefix: &str, detail: &str) -> (r: String)
    ensures
        r@ == prefix@ + detail@,
{
    let mut m = String::new();
    push_str(&mut m, prefix);
    push_str(&mut m, detail);
    m
}

/// The frontend asked for a shell that is not (or no longer) installed.
pub fn unknown_shell(profile_id: &str) -> (r: String)
    ensures
        r@ == "unknown or no-longer-installed shell '"@ + profile_id@ + "'"@,
{
    let mut m = String::new();
    push_str(&mut m, "unknown or no-longer-installed shell '");
    push_str(&mut m, profile_id);
    push_str(&mut m, "'");
    m
}

/// A shell could not be started in-process.
pub fn failed_to_start(reason: &str) -> (r: String)
    ensures
        r@ == "failed to start shell: "@ + reason@,
{
    prefixed("failed to start shell: ", reason)
}

/// The helper a normal terminal needs could not be reached.
pub fn helper_unavailable(reason: &str) -> (r: String)
    ensures
        r@ == "cannot open a normal terminal without the helper: "@ + reason@,
{
    prefixed("cannot open a normal terminal without the helper: ", reason)
}

/// The helper would not open the session.
pub fn helper_refused(reason: &str) -> (r: String)
    ensures
        r@ == "helper refused the session: "@ + reason@,
{
    prefixed("helper refused the session: ", reason)
}

/// No live session has this id.
pub fn no_session(id: u64) -> (r: String)
    ensures
        r@ == "no session "@ + decimal(id as nat),
{
    let mut m = String::new();
    push_str(&mut m, "no session ");
    push_decimal(&mut m, id);
    m
}

/// Where to connect and as whom, as the connect dialog sends it.
#[derive(Debug, Clone)]
pub struct SshTarget {
    pub host: String,
    pub port: u16,
    pub username: String,
    pub auth: SshAuth,
    /// Set only after the user has been shown the fingerprint and accepted it.
    pub trust_new_key: bool,
}

/// A port of 0 means the field was left empty: SSH's own port.
pub open spec fn ssh_port(port: u16) -> u16 {
    if port == 0 {
        22
    } else {
        port
    }
}

/// The port to dial for what the dialog sent.
pub fn effective_port(port: u16) -> (r: u16)
    ensures
        r == ssh_port(port),
{
    if port == 0 {
        22
    } else {
        port
    }
}

/// The connection options for a target: host and user trimmed (a pasted
/// address often carries a stray space), an empty port read as 22, and the
/// terminal at least one cell each way.
pub fn ssh_options(target: SshTarget, cols: u16, rows: u16) -> (r: SshOptions)
    ensures
        r.host@ == trim_seq(target.host@),
        r.port == ssh_port(target.port),
        r.username@ == trim_seq(target.username@),
        r.auth == target.auth,
        r.cols == at_least_one(cols),
        r.rows == at_least_one(rows),
        r.trust_new_key == target.trust_new_key,
{
    SshOptions {
        host: trim(target.host.as_str()),
        port: effective_port(target.port),
        username: trim(target.username.as_str()),
        auth: target.auth,
        cols: at_least_one_cell(cols),
        rows: at_least_one_cell(rows),
        trust_new_key: target.trust_new_key,
    }
}

/// What a drag was released over.
#[derive(Debug, Clone)]
pub struct DropTarget {
    /// The Shaman window under the cursor, or `None` for anywhere else.
    pub label: Option<String>,
    /// The cursor itself, in physical screen pixels, for placing a new window.
    pub x: i32,
    pub y: i32,
}

/// Terminals handed to a window that has not claimed them yet, by window
/// label. A brand-new window cannot be told anything until its page is up, so
/// what it is handed (`P`, opaque here) waits until it asks.
pub struct Handoffs<P> {
    /// No label appears twice.
    labels: Vec<String>,
    /// `queues[i]` waits for `labels[i]`.
    queues: Vec<Vec<P>>,
}

impl<P> Handoffs<P> {
    /// What waits for each window.
    pub closed spec fn waiting(&self) -> Map<Seq<char>, Seq<P>> {
        Map::new(
            |l: Seq<char>| exists|i: int| 0 <= i < self.labels@.len() && self.labels@[i]@ == l,
            |l: Seq<char>|
                self.queues@[choose|i: int| 0 <= i < self.labels@.len() && self.labels@[i]@ == l]@,
        )
    }

    pub closed spec fn wf(&self) -> bool {
        &&& self.labels@.len() == self.queues@.len()
        &&& forall|i: int, j: int|
            0 <= i < j < self.labels@.len() ==> (#[trigger] self.labels@[i])@ != (
            #[trigger] self.labels@[j])@
    }

    pub fn new() -> (r: Self)
        ensures
            r.wf(),
            r.waiting() == Map::<Seq<char>, Seq<P>>::empty(),
    {
        let r = Handoffs { labels: Vec::new(), queues: Vec::new() };
        assert(r.waiting() =~= Map::<Seq<char>, Seq<P>>::empty());
        r
    }

    fn position(&self, label: &str) -> (r: Option<usize>)
        requires
            self.wf(),
        ensures
            match r {
                Some(i) => i < self.labels@.len() && self.labels@[i as int]@ == label@,
                None => forall|j: int| 0 <= j < self.labels@.len() ==> (#[trigger] self.labels@[j])@ != label@,
            },
    {
        let mut i: usize = 0;
        while i < self.labels.len()
            invariant
                i <= self.labels@.len(),
                forall|j: int| 0 <= j < i ==> (#[trigger] self.labels@[j])@ != label@,
            decreases self.labels@.len() - i,
        {
            if str_eq(self.labels[i].as_str(), label) {
                return Some(i);
            }
            i = i + 1;
        }
        None
    }

    /// Queue `payload` for the window `label`, after anything already
    /// waiting for it.
    pub fn push(&mut self, label: &str, payload: P)
        requires
            old(self).wf(),
        ensures
            final(self).wf(),
            final(self).waiting() == old(self).waiting().insert(
                label@,
                (if old(self).waiting().contains_key(label@) {
                    old(self).waiting()[label@]
                } else {
                    Seq::empty()
                }).push(payload),
            ),
    {
        let ghost m = old(self).waiting();
        match self.position(label) {
            Some(i) => {
                let mut q: Vec<P> = Vec::new();
                std::mem::swap(&mut q, &mut self.queues[i]);
                let ghost old_q = q@;
                q.push(payload);
                std::mem::swap(&mut q, &mut self.queues[i]);
                proof {
                    assert(m.contains_key(label@));
                    let c = choose|k: int| 0 <= k < old(self).labels@.len() && old(self).labels@[k]@ == label@;
                    assert(c == i);
                    assert(m[label@] == old_q);
                    assert forall|l: Seq<char>| #[trigger] self.waiting().contains_key(l) implies self.waiting()[l]
                        == m.insert(label@, old_q.push(payload))[l] by {
                        let k = choose|k: int| 0 <= k < self.labels@.len() && self.labels@[k]@ == l;
                        let ok = choose|k: int| 0 <= k < old(self).labels@.len() && old(self).labels@[k]@ == l;
                        assert(k == ok);
                    }
                    assert(self.waiting() =~= m.insert(label@, old_q.push(payload)));
                }
            },
            None => {
                let mut q: Vec<P> = Vec::new();
                q.push(payload);
                self.labels.push(label.to_owned());
                self.queues.push(q);
                proof {
                    assert(!m.contains_key(label@));
                    let n = self.labels@.len() - 1;
                    assert(self.labels@[n]@ == label@);
                    assert forall|l: Seq<char>| #[trigger] self.waiting().contains_key(l) <==> m.insert(
                        label@,
                        seq![payload],
                    ).contains_key(l) by {
                        if l == label@ {
                            assert(self.labels@[n]@ == l);
                        } else if m.contains_key(l) {
                            let k = choose|k: int| 0 <= k < old(self).labels@.len() && old(self).labels@[k]@ == l;
                            assert(self.labels@[k]@ == l);
                        } else if self.waiting().contains_key(l) {
                            let k = choose|k: int| 0 <= k < self.labels@.len() && self.labels@[k]@ == l;
                            assert(k != n);
                            assert(old(self).labels@[k]@ == l);
                        }
                    }
                    assert forall|l: Seq<char>| #[trigger] self.waiting().contains_key(l) implies self.waiting()[l]
                        == m.insert(label@, seq![payload])[l] by {
                        let k = choose|k: int| 0 <= k < self.labels@.len() && self.labels@[k]@ == l;
                        if l == label@ {
                            assert(k == n);
                            assert(q@ =~= seq![payload]);
                        } else {
                            let ok = choose|k: int| 0 <= k < old(self).labels@.len() && old(self).labels@[k]@ == l;
                            assert(self.labels@[ok]@ == l);
                            assert(k == ok);
                        }
                    }
                    assert(self.waiting() =~= m.insert(label@, seq![payload]));
                    assert(Seq::<P>::empty().push(payload) =~= seq![payload]);
                }
            },
        }
    }

    /// Everything waiting for the window `label`, in the order it was
    /// handed over, emptying its queue.
    pub fn claim(&mut self, label: &str) -> (r: Vec<P>)
        requires
            old(self).wf(),
        ensures
            final(self).wf(),
            final(self).waiting() == old(self).waiting().remove(label@),
            r@ == (if old(self).waiting().contains_key(label@) {
                old(self).waiting()[label@]
            } else {
                Seq::empty()
            }),
    {
        let ghost m = old(self).waiting();
        match self.position(label) {
            Some(i) => {
                self.labels.remove(i);
                let q = self.queues.remove(i);
                proof {
                    let o = old(self).labels@;
                    let n = self.labels@;
                    assert(n =~= o.remove(i as int));
                    let c = choose|k: int| 0 <= k < o.len() && o[k]@ == label@;
                    assert(c == i);
                    assert forall|l: Seq<char>| #[trigger] self.waiting().contains_key(l) <==> m.remove(label@).contains_key(l) by {
                        if self.waiting().contains_key(l) {
                            let k = choose|k: int| 0 <= k < n.len() && n[k]@ == l;
                            let ok = if k < i { k } else { k + 1 };
                            assert(o[ok]@ == l);
                            assert(ok != i);
                        }
                        if m.contains_key(l) && l != label@ {
                            let k = choose|k: int| 0 <= k < o.len() && o[k]@ == l;
                            assert(k != i);
                            let nk = if k < i { k } else { k - 1 };
                            assert(n[nk]@ == l);
                        }
                    }
                    assert forall|l: Seq<char>| #[trigger] self.waiting().contains_key(l) implies self.waiting()[l]
                        == m.remove(label@)[l] by {
                        let k = choose|k: int| 0 <= k < n.len() && n[k]@ == l;
                        let ok = choose|k: int| 0 <= k < o.len() && o[k]@ == l;
                        let expect = if k < i { k } else { k + 1 };
                        assert(o[expect]@ == l);
                        assert(ok == expect);
                    }
                    assert(self.waiting() =~= m.remove(label@));
                }
                q
            },
            None => {
                assert(m.remove(label@) =~= m);
                Vec::new()
            },
        }
    }
}


/// Forget a saved connection, and the pin that opens it.
///
/// A pin for a connection that no longer exists is a button that can't open
/// anything, so removal takes the pin with it. Returns whether the strip
/// changed (and so needs saving); an id with no saved connection is an error
/// and changes nothing.
pub fn remove_connection(
    connections: &mut ConnectionStore,
    pins: &mut PinStore,
    id: &str,
) -> (r: Result<bool, Error>)
    ensures
        final(connections).entries() == old(connections).entries().filter(
            |e: Entry| e.connection.id@ != id@,
        ),
        final(connections).suggests() == old(connections).suggests(),
        first_with_id(old(connections).entries(), id@) is None ==> (r matches Err(Error::Other(m))
            && m@ == no_saved_connection(id@)) && final(pins)@ == old(pins)@,
        first_with_id(old(connections).entries(), id@) is Some ==> (r matches Ok(changed) && changed
            == holds(old(pins)@, PinKind::Saved, id@)) && final(pins)@ == old(pins)@.filter(
            |p: PinView| !opens(p, PinKind::Saved, id@),
        ) && !holds(final(pins)@, PinKind::Saved, id@),
{
    if !connections.remove(id) {
        return Err(not_found(id));
    }
    Ok(pins.forget_connection(id))
}

/// There is no trusted host under this key.
pub fn no_trusted_host(key: &str) -> (r: String)
    ensures
        r@ == "no trusted host "@ + key@,
{
    prefixed("no trusted host ", key)
}

} // verus!
