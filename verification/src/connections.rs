//! Saved SSH connections.
//!
//! Two rules shape this store:
//!
//! * **Passwords are sealed blobs, never plaintext**, and they never leave the
//!   backend. The UI works with ids; [`Store::secret`] and [`Store::auth`] are
//!   the only way back to a secret.
//! * **Entries are keyed by a stable id, not by host.** Editing a connection's
//!   address keeps its credentials attached — which matters here because the
//!   machines behind these addresses change.
use vstd::prelude::*;

use crate::ssh::SshAuth;
use crate::text::{
    decimal, eq_ignore_ascii_case, lower_seq, push_char, push_decimal, push_str, str_eq, trim,
    trim_seq,
};
use crate::random::random_hex;
use crate::vault::hex_of;
use crate::Error;

verus! {

/// A saved connection as the UI sees it — no secret material.
#[derive(Debug, Clone, PartialEq, Eq)]
pub struct SavedConnection {
    pub id: String,
    pub host: String,
    pub port: u16,
    pub username: String,
    /// "password" or "key" — shown in the manage dialog so it's obvious how a
    /// saved entry authenticates.
    pub auth_kind: String,
    /// A name you gave it, e.g. "prod-db". Display only; `host` is what we dial.
    pub name: Option<String>,
}

/// The auth kind a connection gets when the file does not say.
pub fn password_kind() -> (r: String)
    ensures
        r@ == "password"@,
{
    "password".to_owned()
}

/// Whether a saved connection is for this host (any ASCII case), port and
/// user (exactly).
pub open spec fn same_target(c: SavedConnection, host: Seq<char>, port: u16, username: Seq<char>) -> bool {
    lower_seq(c.host@) == lower_seq(host) && c.port == port && c.username@ == username
}

/// `user@host`, and `:port` when it isn't 22.
pub open spec fn connection_label(c: SavedConnection) -> Seq<char> {
    if c.port == 22 {
        c.username@ + seq!['@'] + c.host@
    } else {
        c.username@ + seq!['@'] + c.host@ + seq![':'] + decimal(c.port as nat)
    }
}

impl SavedConnection {
    /// `user@host` and, when it isn't the default, `:port`.
    pub fn label(&self) -> (r: String)
        ensures
            r@ == connection_label(*self),
    {
        let mut r = String::new();
        push_str(&mut r, self.username.as_str());
        push_char(&mut r, '@');
        push_str(&mut r, self.host.as_str());
        if self.port != 22 {
            push_char(&mut r, ':');
            push_decimal(&mut r, self.port as u64);
        }
        assert(r@ =~= connection_label(*self));
        r
    }

    /// Same host, port and user — used to decide whether to offer to save.
    pub fn matches(&self, host: &str, port: u16, username: &str) -> (r: bool)
        ensures
            r == same_target(*self, host@, port, username@),
    {
        eq_ignore_ascii_case(self.host.as_str(), host) && self.port == port && str_eq(
            self.username.as_str(),
            username,
        )
    }

    /// A copy of this connection.
    pub fn duplicate(&self) -> (r: Self)
        ensures
            r == *self,
    {
        SavedConnection {
            id: self.id.clone(),
            host: self.host.clone(),
            port: self.port,
            username: self.username.clone(),
            auth_kind: self.auth_kind.clone(),
            name: match &self.name {
                Some(n) => Some(n.clone()),
                None => None,
            },
        }
    }
}

/// One stored connection with its secret.
#[derive(Debug, Clone)]
pub struct Entry {
    pub connection: SavedConnection,
    /// Sealed blob, hex encoded. The password, or the key's passphrase.
    pub secret: String,
    /// Private key path, when this entry authenticates with a key.
    pub key_path: Option<String>,
}

/// Whether to offer to save is on unless the file says otherwise.
pub fn default_true() -> (r: bool)
    ensures
        r,
{
    true
}

#[derive(Debug)]
pub struct Store {
    /// Whether to offer to save after connecting to an unknown host.
    /// "Never show again" clears this.
    pub suggest_saving: bool,
    entries: Vec<Entry>,
}

impl Default for Store {
    fn default() -> (r: Self)
        ensures
            r.suggests(),
            r.entries() == Seq::<Entry>::empty(),
    {
        Store { suggest_saving: true, entries: Vec::new() }
    }
}

/// The first entry for this target, if any.
pub open spec fn first_for_target(
    e: Seq<Entry>,
    host: Seq<char>,
    port: u16,
    username: Seq<char>,
) -> Option<int> {
    if exists|i: int| 0 <= i < e.len() && same_target(#[trigger] e[i].connection, host, port, username) {
        Some(
            choose|i: int|
                0 <= i < e.len() && same_target(e[i].connection, host, port, username) && forall|
                    j: int,
                | 0 <= j < i ==> !same_target(#[trigger] e[j].connection, host, port, username),
        )
    } else {
        None
    }
}

/// The first entry with this id, if any.
pub open spec fn first_with_id(e: Seq<Entry>, id: Seq<char>) -> Option<int> {
    if exists|i: int| 0 <= i < e.len() && (#[trigger] e[i].connection).id@ == id {
        Some(
            choose|i: int|
                0 <= i < e.len() && e[i].connection.id@ == id && forall|j: int|
                    0 <= j < i ==> (#[trigger] e[j].connection).id@ != id,
        )
    } else {
        None
    }
}

/// No two entries are for the same host (any case), port and user.
pub open spec fn one_per_target(e: Seq<Entry>) -> bool {
    forall|i: int, j: int|
        0 <= i < j < e.len() ==> !same_target(
            #[trigger] e[i].connection,
            e[j].connection.host@,
            e[j].connection.port,
            #[trigger] e[j].connection.username@,
        )
}

/// The kind an auth is saved under.
pub open spec fn auth_kind_of(auth: SshAuth) -> Seq<char> {
    match auth {
        SshAuth::Password { .. } => "password"@,
        SshAuth::Key { .. } => "key"@,
    }
}

/// The key path an auth is saved with.
pub open spec fn key_path_of(auth: SshAuth) -> Option<Seq<char>> {
    match auth {
        SshAuth::Password { .. } => None,
        SshAuth::Key { path, .. } => Some(path@),
    }
}

pub open spec fn opt_view(o: Option<String>) -> Option<Seq<char>> {
    match o {
        Some(s) => Some(s@),
        None => None,
    }
}

/// `no saved connection ` and the id.
pub open spec fn no_saved_connection(id: Seq<char>) -> Seq<char> {
    "no saved connection "@ + id
}

pub fn not_found(id: &str) -> (e: Error)
    ensures
        e matches Error::Other(m) && m@ == no_saved_connection(id@),
{
    let mut m = String::new();
    push_str(&mut m, "no saved connection ");
    push_str(&mut m, id);
    Error::Other(m)
}

/// A fresh connection id: 128 bits of OS randomness, as hex.
fn new_id() -> (r: Result<String, Error>)
    ensures
        match r {
            Ok(id) => exists|b: Seq<u8>| b.len() == 16 && id@ == hex_of(b),
            Err(e) => e.text() == "OS randomness unavailable"@,
        },
{
    match random_hex(16) {
        Some(id) => Ok(id),
        None => Err(Error::Other("OS randomness unavailable".to_owned())),
    }
}

impl Store {
    /// Whether the store offers to save unknown hosts.
    pub closed spec fn suggests(&self) -> bool {
        self.suggest_saving
    }

    /// The stored entries, in the order they were saved.
    pub closed spec fn entries(&self) -> Seq<Entry> {
        self.entries@
    }

    /// A store holding these entries, as read back from disk.
    pub fn from_entries(suggest_saving: bool, entries: Vec<Entry>) -> (r: Self)
        ensures
            r.suggests() == suggest_saving,
            r.entries() == entries@,
    {
        Store { suggest_saving, entries }
    }

    /// Every entry, in order, for writing to disk.
    pub fn to_entries(&self) -> (r: Vec<Entry>)
        ensures
            r@.len() == self.entries().len(),
            forall|i: int|
                0 <= i < r@.len() ==> (#[trigger] r@[i]).connection == self.entries()[i].connection
                    && r@[i].secret@ == self.entries()[i].secret@ && opt_view(r@[i].key_path)
                    == opt_view(self.entries()[i].key_path),
    {
        let mut out: Vec<Entry> = Vec::new();
        let mut i: usize = 0;
        while i < self.entries.len()
            invariant
                i <= self.entries@.len(),
                out@.len() == i,
                forall|k: int|
                    0 <= k < i ==> (#[trigger] out@[k]).connection == self.entries@[k].connection
                        && out@[k].secret@ == self.entries@[k].secret@ && opt_view(out@[k].key_path)
                        == opt_view(self.entries@[k].key_path),
            decreases self.entries@.len() - i,
        {
            let e = &self.entries[i];
            out.push(
                Entry {
                    connection: e.connection.duplicate(),
                    secret: e.secret.clone(),
                    key_path: match &e.key_path {
                        Some(p) => Some(p.clone()),
                        None => None,
                    },
                },
            );
            i = i + 1;
        }
        out
    }

    pub fn list(&self) -> (r: Vec<SavedConnection>)
        ensures
            r@.len() == self.entries().len(),
            forall|i: int| 0 <= i < r@.len() ==> #[trigger] r@[i] == self.entries()[i].connection,
    {
        let mut out: Vec<SavedConnection> = Vec::new();
        let mut i: usize = 0;
        while i < self.entries.len()
            invariant
                i <= self.entries@.len(),
                out@.len() == i,
                forall|k: int| 0 <= k < i ==> #[trigger] out@[k] == self.entries@[k].connection,
            decreases self.entries@.len() - i,
        {
            out.push(self.entries[i].connection.duplicate());
            i = i + 1;
        }
        out
    }

    fn position_for(&self, host: &str, port: u16, username: &str) -> (r: Option<usize>)
        ensures
            match r {
                Some(i) => first_for_target(self.entries@, host@, port, username@) == Some(i as int)
                    && i < self.entries@.len(),
                None => first_for_target(self.entries@, host@, port, username@) is None,
            },
    {
        let ghost e = self.entries@;
        let mut i: usize = 0;
        while i < self.entries.len()
            invariant
                i <= self.entries@.len(),
                e == self.entries@,
                forall|j: int| 0 <= j < i ==> !same_target(#[trigger] e[j].connection, host@, port, username@),
            decreases self.entries@.len() - i,
        {
            if self.entries[i].connection.matches(host, port, username) {
                proof {
                    let f = choose|f: int|
                        0 <= f < e.len() && same_target(e[f].connection, host@, port, username@) && forall|j: int|
                            0 <= j < f ==> !same_target(#[trigger] e[j].connection, host@, port, username@);
                    assert(same_target(e[i as int].connection, host@, port, username@));
                    if f < i {
                        assert(!same_target(e[f].connection, host@, port, username@));
                    }
                    if f > i {
                        assert(!same_target(e[i as int].connection, host@, port, username@));
                    }
                }
                return Some(i);
            }
            i = i + 1;
        }
        None
    }

    fn position_of(&self, id: &str) -> (r: Option<usize>)
        ensures
            match r {
                Some(i) => first_with_id(self.entries@, id@) == Some(i as int) && i < self.entries@.len(),
                None => first_with_id(self.entries@, id@) is None,
            },
    {
        let ghost e = self.entries@;
        let mut i: usize = 0;
        while i < self.entries.len()
            invariant
                i <= self.entries@.len(),
                e == self.entries@,
                forall|j: int| 0 <= j < i ==> (#[trigger] e[j].connection).id@ != id@,
            decreases self.entries@.len() - i,
        {
            if str_eq(self.entries[i].connection.id.as_str(), id) {
                proof {
                    let f = choose|f: int|
                        0 <= f < e.len() && e[f].connection.id@ == id@ && forall|j: int|
                            0 <= j < f ==> (#[trigger] e[j].connection).id@ != id@;
                    assert(e[i as int].connection.id@ == id@);
                    if f < i {
                        assert(e[f].connection.id@ != id@);
                    }
                    if f > i {
                        assert(e[i as int].connection.id@ != id@);
                    }
                }
                return Some(i);
            }
            i = i + 1;
        }
        None
    }

    /// The saved connection for this host (any case), port and user.
    pub fn find(&self, host: &str, port: u16, username: &str) -> (r: Option<&SavedConnection>)
        ensures
            match first_for_target(self.entries(), host@, port, username@) {
                Some(i) => r == Some(&self.entries()[i].connection),
                None => r is None,
            },
    {
        match self.position_for(host, port, username) {
            Some(i) => Some(&self.entries[i].connection),
            None => None,
        }
    }

    /// Add a connection, or update the credentials of a matching one.
    ///
    /// Re-saving the same target must not create a duplicate row, and must keep
    /// the original id so anything referring to it still resolves. `sealed` is
    /// the sealed form of the auth's secret; a new entry takes a fresh random
    /// id.
    pub fn upsert(
        &mut self,
        host: &str,
        port: u16,
        username: &str,
        auth: &SshAuth,
        sealed: String,
    ) -> (r: Result<SavedConnection, Error>)
        ensures
            one_per_target(old(self).entries()) ==> one_per_target(final(self).entries()),
            final(self).suggests() == old(self).suggests(),
            first_for_target(old(self).entries(), host@, port, username@) is Some ==> r is Ok,
            first_for_target(old(self).entries(), host@, port, username@) is None ==> match r {
                Ok(c) => exists|b: Seq<u8>| b.len() == 16 && c.id@ == hex_of(b),
                Err(e) => e.text() == "OS randomness unavailable"@,
            },
            match r {
                Ok(c) => upserted(
                    old(self).entries(),
                    final(self).entries(),
                    host@,
                    port,
                    username@,
                    *auth,
                    sealed@,
                    c,
                ),
                Err(_) => final(self).entries() == old(self).entries(),
            },
    {
        let fresh = match self.position_for(host, port, username) {
            Some(_) => String::new(),
            None => match new_id() {
                Ok(id) => id,
                Err(e) => return Err(e),
            },
        };
        Ok(self.upsert_with_id(host, port, username, auth, sealed, fresh))
    }

    /// [`Store::upsert`], with the id a new entry would get.
    pub fn upsert_with_id(
        &mut self,
        host: &str,
        port: u16,
        username: &str,
        auth: &SshAuth,
        sealed: String,
        fresh_id: String,
    ) -> (c: SavedConnection)
        ensures
            one_per_target(old(self).entries()) ==> one_per_target(final(self).entries()),
            final(self).suggests() == old(self).suggests(),
            upserted(
                old(self).entries(),
                final(self).entries(),
                host@,
                port,
                username@,
                *auth,
                sealed@,
                c,
            ),
            first_for_target(old(self).entries(), host@, port, username@) is None ==> c.id@
                == fresh_id@,
    {
        let (kind, key_path) = match auth {
            SshAuth::Password { .. } => ("password", None),
            SshAuth::Key { path, .. } => ("key", Some(path.clone())),
        };
        match self.position_for(host, port, username) {
            Some(i) => {
                let mut entry = self.entries.remove(i);
                entry.secret = sealed;
                entry.key_path = key_path;
                // Deliberately leaves `name` alone: re-saving credentials must not
                // wipe a name you chose.
                entry.connection.auth_kind = kind.to_owned();
                let c = entry.connection.duplicate();
                self.entries.insert(i, entry);
                proof {
                    let o = old(self).entries@;
                    let n = self.entries@;
                    assert(n =~= o.update(i as int, n[i as int]));
                    if one_per_target(o) {
                        assert forall|a: int, b: int| 0 <= a < b < n.len() implies !same_target(
                            #[trigger] n[a].connection,
                            n[b].connection.host@,
                            n[b].connection.port,
                            #[trigger] n[b].connection.username@,
                        ) by {
                            assert(!same_target(
                                o[a].connection,
                                o[b].connection.host@,
                                o[b].connection.port,
                                o[b].connection.username@,
                            ));
                        }
                    }
                }
                c
            },
            None => {
                let connection = SavedConnection {
                    id: fresh_id,
                    host: host.to_owned(),
                    port,
                    username: username.to_owned(),
                    auth_kind: kind.to_owned(),
                    name: None,
                };
                let c = connection.duplicate();
                self.entries.push(Entry { connection, secret: sealed, key_path });
                proof {
                    let o = old(self).entries@;
                    let n = self.entries@;
                    if one_per_target(o) {
                        assert forall|a: int, b: int| 0 <= a < b < n.len() implies !same_target(
                            #[trigger] n[a].connection,
                            n[b].connection.host@,
                            n[b].connection.port,
                            #[trigger] n[b].connection.username@,
                        ) by {
                            if b == n.len() - 1 {
                                assert(!same_target(o[a].connection, host@, port, username@));
                            } else {
                                assert(!same_target(
                                    o[a].connection,
                                    o[b].connection.host@,
                                    o[b].connection.port,
                                    o[b].connection.username@,
                                ));
                            }
                        }
                    }
                }
                c
            },
        }
    }

    /// Forget the connection with this id. Returns whether there was one.
    pub fn remove(&mut self, id: &str) -> (removed: bool)
        ensures
            final(self).suggests() == old(self).suggests(),
            removed == (first_with_id(old(self).entries(), id@) is Some),
            final(self).entries() == old(self).entries().filter(|e: Entry| e.connection.id@ != id@),
            one_per_target(old(self).entries()) ==> one_per_target(final(self).entries()),
    {
        let ghost keep = |e: Entry| e.connection.id@ != id@;
        let ghost o = self.entries@;
        let mut dropped = false;
        let mut i: usize = 0;
        let ghost mut k: int = 0;
        assert(o.take(0).filter(keep) =~= Seq::<Entry>::empty()) by {
            reveal_with_fuel(Seq::filter, 1);
        }
        assert(o.skip(0) =~= o);
        while i < self.entries.len()
            invariant
                0 <= k <= o.len(),
                keep == (|e: Entry| e.connection.id@ != id@),
                self.entries@ == o.take(k).filter(keep) + o.skip(k),
                i == o.take(k).filter(keep).len(),
                dropped == (exists|j: int| 0 <= j < k && (#[trigger] o[j].connection).id@ == id@),
                self.suggest_saving == old(self).suggest_saving,
                o == old(self).entries@,
            decreases o.len() - k,
        {
            proof {
                o.take(k).lemma_filter_len(keep);
                assert(k < o.len());
                assert(self.entries@[i as int] == o[k]);
                reveal_with_fuel(Seq::filter, 1);
                assert(o.take(k + 1).drop_last() =~= o.take(k));
                assert(o.take(k + 1).last() == o[k]);
            }
            if str_eq(self.entries[i].connection.id.as_str(), id) {
                self.entries.remove(i);
                dropped = true;
                assert(self.entries@ =~= o.take(k + 1).filter(keep) + o.skip(k + 1));
            } else {
                i = i + 1;
                assert(self.entries@ =~= o.take(k + 1).filter(keep) + o.skip(k + 1));
            }
            proof {
                k = k + 1;
            }
        }
        proof {
            assert(o.skip(k) =~= Seq::<Entry>::empty());
            if k < o.len() {
                o.take(k).lemma_filter_len(keep);
            }
            assert(k == o.len()) by {
                o.take(k).lemma_filter_len(keep);
                if k < o.len() {
                    assert(self.entries@.len() == i + o.skip(k).len());
                }
            }
            assert(o.take(k) =~= o);
            let n = self.entries@;
            assert(n =~= o.filter(keep));
            if one_per_target(o) {
                assert forall|a: int, b: int| 0 <= a < b < n.len() implies !same_target(
                    #[trigger] n[a].connection,
                    n[b].connection.host@,
                    n[b].connection.port,
                    #[trigger] n[b].connection.username@,
                ) by {
                    lemma_filter_keeps_one_per_target(o, keep, a, b);
                }
            }
        }
        dropped
    }

    /// The sealed secret of the connection with this id.
    pub fn secret(&self, id: &str) -> (r: Result<&String, Error>)
        ensures
            match first_with_id(self.entries(), id@) {
                Some(i) => r == Ok::<&String, Error>(&self.entries()[i].secret),
                None => r matches Err(Error::Other(m)) && m@ == no_saved_connection(id@),
            },
    {
        match self.position_of(id) {
            Some(i) => Ok(&self.entries[i].secret),
            None => Err(not_found(id)),
        }
    }

    /// Rebuild the auth for a saved connection from its unsealed secret.
    ///
    /// Backend-only: neither the password nor the passphrase may be returned to
    /// the frontend.
    pub fn auth(&self, id: &str, secret: String) -> (r: Result<SshAuth, Error>)
        ensures
            match first_with_id(self.entries(), id@) {
                Some(i) => r matches Ok(a) && rebuilt_auth(self.entries()[i], secret@, a),
                None => r matches Err(Error::Other(m)) && m@ == no_saved_connection(id@),
            },
    {
        match self.position_of(id) {
            Some(i) => {
                let entry = &self.entries[i];
                let is_key = str_eq(entry.connection.auth_kind.as_str(), "key");
                match (&entry.key_path, is_key) {
                    (Some(path), true) => Ok(SshAuth::Key { path: path.clone(), passphrase: secret }),
                    _ => Ok(SshAuth::Password { password: secret }),
                }
            },
            None => Err(not_found(id)),
        }
    }

    /// Set or clear the display name. An empty name clears it; names are
    /// trimmed.
    pub fn rename(&mut self, id: &str, name: &str) -> (r: Result<SavedConnection, Error>)
        ensures
            final(self).suggests() == old(self).suggests(),
            one_per_target(old(self).entries()) ==> one_per_target(final(self).entries()),
            match first_with_id(old(self).entries(), id@) {
                Some(i) => r matches Ok(c) && final(self).entries().len() == old(self).entries().len()
                    && (forall|j: int|
                    0 <= j < old(self).entries().len() && j != i ==> #[trigger] final(self).entries()[j]
                        == old(self).entries()[j]) && final(self).entries()[i].secret == old(
                    self,
                ).entries()[i].secret && final(self).entries()[i].key_path == old(self).entries()[i].key_path
                    && c == final(self).entries()[i].connection && c.id == old(self).entries()[i].connection.id
                    && c.host == old(self).entries()[i].connection.host && c.port == old(
                    self,
                ).entries()[i].connection.port && c.username == old(self).entries()[i].connection.username
                    && c.auth_kind == old(self).entries()[i].connection.auth_kind && opt_view(c.name)
                    == trimmed_name(name@),
                None => final(self).entries() == old(self).entries() && (r matches Err(
                    Error::Other(m),
                ) && m@ == no_saved_connection(id@)),
            },
    {
        match self.position_of(id) {
            Some(i) => {
                let mut entry = self.entries.remove(i);
                let trimmed = trim(name);
                entry.connection.name = if trimmed.as_str().is_empty() {
                    None
                } else {
                    Some(trimmed)
                };
                let c = entry.connection.duplicate();
                self.entries.insert(i, entry);
                proof {
                    let o = old(self).entries@;
                    let n = self.entries@;
                    assert(n =~= o.update(i as int, n[i as int]));
                    if one_per_target(o) {
                        assert forall|a: int, b: int| 0 <= a < b < n.len() implies !same_target(
                            #[trigger] n[a].connection,
                            n[b].connection.host@,
                            n[b].connection.port,
                            #[trigger] n[b].connection.username@,
                        ) by {
                            assert(!same_target(
                                o[a].connection,
                                o[b].connection.host@,
                                o[b].connection.port,
                                o[b].connection.username@,
                            ));
                        }
                    }
                }
                Ok(c)
            },
            None => Err(not_found(id)),
        }
    }

    /// The saved connection with this id.
    pub fn get(&self, id: &str) -> (r: Option<&SavedConnection>)
        ensures
            match first_with_id(self.entries(), id@) {
                Some(i) => r == Some(&self.entries()[i].connection),
                None => r is None,
            },
    {
        match self.position_of(id) {
            Some(i) => Some(&self.entries[i].connection),
            None => None,
        }
    }
}

/// The name stored for a rename to `name`: trimmed, and none at all if
/// nothing is left.
pub open spec fn trimmed_name(name: Seq<char>) -> Option<Seq<char>> {
    if trim_seq(name).len() == 0 {
        None
    } else {
        Some(trim_seq(name))
    }
}

/// `a` is the auth rebuilt from entry `e` and its unsealed secret: key auth
/// when the entry says "key" and has a key path, password auth otherwise.
pub open spec fn rebuilt_auth(e: Entry, secret: Seq<char>, a: SshAuth) -> bool {
    match (e.key_path, e.connection.auth_kind@ == "key"@) {
        (Some(path), true) => a matches SshAuth::Key { path: p, passphrase } && p@ == path@
            && passphrase@ == secret,
        _ => a matches SshAuth::Password { password } && password@ == secret,
    }
}

proof fn lemma_filter_keeps_one_per_target(
    s: Seq<Entry>,
    keep: spec_fn(Entry) -> bool,
    a: int,
    b: int,
)
    requires
        one_per_target(s),
        0 <= a < b < s.filter(keep).len(),
    ensures
        !same_target(
            s.filter(keep)[a].connection,
            s.filter(keep)[b].connection.host@,
            s.filter(keep)[b].connection.port,
            s.filter(keep)[b].connection.username@,
        ),
    decreases s.len(),
{
    reveal_with_fuel(Seq::filter, 1);
    let rest = s.drop_last();
    assert forall|i: int, j: int| 0 <= i < j < rest.len() implies !same_target(
        #[trigger] rest[i].connection,
        rest[j].connection.host@,
        rest[j].connection.port,
        #[trigger] rest[j].connection.username@,
    ) by {
        assert(rest[i] == s[i]);
        assert(rest[j] == s[j]);
    }
    rest.lemma_filter_len(keep);
    if keep(s.last()) && b == s.filter(keep).len() - 1 {
        let x = s.filter(keep)[a];
        assert(x == rest.filter(keep)[a]);
        rest.lemma_filter_contains_rev(keep, x);
        assert(rest.filter(keep).contains(x));
        let k = choose|k: int| 0 <= k < rest.len() && rest[k] == x;
        assert(s[k] == x);
        let l = s.last();
        assert(!same_target(s[k].connection, l.connection.host@, l.connection.port, l.connection.username@));
    } else {
        lemma_filter_keeps_one_per_target(rest, keep, a, b);
    }
}

/// `final` is `old` after saving `auth` (sealed as `sealed`) for this target,
/// which answered with `c`: the first entry for the target is updated in
/// place, keeping its id and name, or a new unnamed entry is appended.
pub open spec fn upserted(
    old: Seq<Entry>,
    new: Seq<Entry>,
    host: Seq<char>,
    port: u16,
    username: Seq<char>,
    auth: SshAuth,
    sealed: Seq<char>,
    c: SavedConnection,
) -> bool {
    match first_for_target(old, host, port, username) {
        Some(i) => {
            &&& new.len() == old.len()
            &&& forall|j: int| 0 <= j < old.len() && j != i ==> #[trigger] new[j] == old[j]
            &&& new[i].connection.id == old[i].connection.id
            &&& new[i].connection.host == old[i].connection.host
            &&& new[i].connection.port == old[i].connection.port
            &&& new[i].connection.username == old[i].connection.username
            &&& new[i].connection.name == old[i].connection.name
            &&& new[i].connection.auth_kind@ == auth_kind_of(auth)
            &&& new[i].secret@ == sealed
            &&& opt_view(new[i].key_path) == key_path_of(auth)
            &&& c == new[i].connection
        },
        None => {
            &&& new.len() == old.len() + 1
            &&& forall|j: int| 0 <= j < old.len() ==> #[trigger] new[j] == old[j]
            &&& new[old.len() as int].connection.host@ == host
            &&& new[old.len() as int].connection.port == port
            &&& new[old.len() as int].connection.username@ == username
            &&& new[old.len() as int].connection.name is None
            &&& new[old.len() as int].connection.auth_kind@ == auth_kind_of(auth)
            &&& new[old.len() as int].secret@ == sealed
            &&& opt_view(new[old.len() as int].key_path) == key_path_of(auth)
            &&& c == new[old.len() as int].connection
        },
    }
}

/// No two entries share an id.
pub open spec fn ids_unique(e: Seq<Entry>) -> bool {
    forall|i: int, j: int|
        0 <= i < j < e.len() ==> (#[trigger] e[i]).connection.id@ != (#[trigger] e[j]).connection.id@
}

/// The secret an auth is saved with: the password, or the key's passphrase.
pub open spec fn secret_of(auth: SshAuth) -> Seq<char> {
    match auth {
        SshAuth::Password { password } => password@,
        SshAuth::Key { passphrase, .. } => passphrase@,
    }
}

/// Two auths say the same: the same kind, with the same texts.
pub open spec fn same_auth(a: SshAuth, b: SshAuth) -> bool {
    match (a, b) {
        (SshAuth::Password { password: x }, SshAuth::Password { password: y }) => x@ == y@,
        (SshAuth::Key { path: p, passphrase: x }, SshAuth::Key { path: q, passphrase: y }) => p@
            == q@ && x@ == y@,
        _ => false,
    }
}

/// Among entries for a target, one comes first.
proof fn lemma_first_target_exists(
    e: Seq<Entry>,
    host: Seq<char>,
    port: u16,
    username: Seq<char>,
    w: int,
)
    requires
        0 <= w < e.len(),
        same_target(e[w].connection, host, port, username),
    ensures
        exists|i: int|
            0 <= i < e.len() && same_target(e[i].connection, host, port, username) && forall|j: int|
                0 <= j < i ==> !same_target(#[trigger] e[j].connection, host, port, username),
    decreases w,
{
    if exists|j: int| 0 <= j < w && same_target(#[trigger] e[j].connection, host, port, username) {
        let j = choose|j: int| 0 <= j < w && same_target(#[trigger] e[j].connection, host, port, username);
        lemma_first_target_exists(e, host, port, username, j);
    } else {
        assert(forall|j: int| 0 <= j < w ==> !same_target(#[trigger] e[j].connection, host, port, username));
    }
}

/// `first_for_target` names the first entry for the target, when there is one.
proof fn lemma_first_for_target(e: Seq<Entry>, host: Seq<char>, port: u16, username: Seq<char>)
    ensures
        first_for_target(e, host, port, username) matches Some(i) ==> 0 <= i < e.len()
            && same_target(e[i].connection, host, port, username),
        first_for_target(e, host, port, username) is None ==> forall|j: int|
            0 <= j < e.len() ==> !same_target(#[trigger] e[j].connection, host, port, username),
{
    if exists|i: int| 0 <= i < e.len() && same_target(#[trigger] e[i].connection, host, port, username) {
        let w = choose|i: int| 0 <= i < e.len() && same_target(#[trigger] e[i].connection, host, port, username);
        lemma_first_target_exists(e, host, port, username, w);
    }
}

/// Saving never duplicates a target: when no two saved rows are for the same
/// target, after an upsert exactly one row is for the target saved, and it
/// is the connection the upsert answered with.
pub proof fn lemma_upsert_leaves_one_match(
    old: Seq<Entry>,
    new: Seq<Entry>,
    host: Seq<char>,
    port: u16,
    username: Seq<char>,
    auth: SshAuth,
    sealed: Seq<char>,
    c: SavedConnection,
)
    requires
        one_per_target(old),
        upserted(old, new, host, port, username, auth, sealed, c),
    ensures
        exists|i: int|
            0 <= i < new.len() && new[i].connection == c && same_target(c, host, port, username)
                && forall|j: int|
                0 <= j < new.len() && j != i ==> !same_target(
                    #[trigger] new[j].connection,
                    host,
                    port,
                    username,
                ),
{
    match first_for_target(old, host, port, username) {
        Some(i) => {
            assert(same_target(old[i].connection, host, port, username));
            assert forall|j: int| 0 <= j < new.len() && j != i implies !same_target(
                #[trigger] new[j].connection,
                host,
                port,
                username,
            ) by {
                assert(new[j] == old[j]);
                if same_target(old[j].connection, host, port, username) {
                    if j < i {
                        assert(!same_target(
                            old[j].connection,
                            old[i].connection.host@,
                            old[i].connection.port,
                            old[i].connection.username@,
                        ));
                    } else {
                        assert(!same_target(
                            old[i].connection,
                            old[j].connection.host@,
                            old[j].connection.port,
                            old[j].connection.username@,
                        ));
                    }
                }
            }
            assert(new[i].connection == c);
        },
        None => {
            let k = old.len() as int;
            assert forall|j: int| 0 <= j < new.len() && j != k implies !same_target(
                #[trigger] new[j].connection,
                host,
                port,
                username,
            ) by {
                assert(new[j] == old[j]);
            }
            assert(new[k].connection == c);
        },
    }
}

/// What is saved is what comes back: after an upsert of `auth`, rebuilding
/// the auth of the connection it answered with, from the unsealed secret,
/// gives `auth` again (a password as a password, a key with its path and
/// passphrase). Ids are drawn at random; this holds while they are unique.
pub proof fn lemma_auth_gives_back_what_was_saved(
    old: Seq<Entry>,
    new: Seq<Entry>,
    host: Seq<char>,
    port: u16,
    username: Seq<char>,
    auth: SshAuth,
    sealed: Seq<char>,
    c: SavedConnection,
    a: SshAuth,
)
    requires
        upserted(old, new, host, port, username, auth, sealed, c),
        ids_unique(new),
        first_with_id(new, c.id@) matches Some(i) && rebuilt_auth(new[i], secret_of(auth), a),
    ensures
        same_auth(a, auth),
{
    lemma_first_for_target(old, host, port, username);
    let k: int = if let Some(i) = first_for_target(old, host, port, username) {
        i
    } else {
        old.len() as int
    };
    assert(0 <= k < new.len() && new[k].connection == c);
    let i = first_with_id(new, c.id@)->0;
    assert(0 <= i < new.len() && new[i].connection.id@ == c.id@);
    if i < k {
        assert(new[i].connection.id@ != new[k].connection.id@);
    } else if i > k {
        assert(new[k].connection.id@ != new[i].connection.id@);
    }
    assert(i == k);
}

} // verus!
