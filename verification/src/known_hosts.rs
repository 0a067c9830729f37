//! Trust-on-first-use host key store.
//!
//! Without this, Shaman accepts whatever key a server presents. That is merely
//! sloppy while passwords are typed by hand — you are present, and you just
//! named the host. It becomes dangerous the moment credentials are *saved and
//! autofilled*, because the app would then hand a stored password to whatever
//! happens to answer on that address. These hosts change IP, so that is not a
//! hypothetical.
//!
//! Three outcomes:
//!
//! * **Unknown** — first sight of this host. Ask, then remember.
//! * **Match** — connect silently.
//! * **Changed** — refuse, loudly. Either the server was rebuilt, or something
//!   is impersonating it. Only an explicit human decision can overwrite it.
use vstd::prelude::*;

use crate::text::{
    chars_of, decimal, is_digit, lemma_lt_irreflexive, lemma_lt_total, lemma_lt_transitive,
    lower_seq, parse_u16, parse_u16_spec, push_char, push_decimal, push_str, seq_lt, str_eq,
    str_lt, string_from_chars, to_ascii_lowercase, digits_value, all_digits, digit_char,
    digit_value,
};

verus! {

/// One trusted entry, split back into its parts for display.
#[derive(Debug, Clone, PartialEq, Eq)]
pub struct TrustedHost {
    /// The raw store key, used to remove the entry unambiguously.
    pub key: String,
    pub host: String,
    pub port: u16,
    pub fingerprint: String,
}

/// What we knew about a host before this connection.
#[derive(Debug, Clone, PartialEq, Eq)]
pub enum Verdict {
    Unknown,
    Match,
    Changed { expected: String },
}

/// `host:port` -> fingerprint (`SHA256:...`), kept sorted by key so the file
/// has a stable order and diffs sensibly.
#[derive(Debug)]
pub struct KnownHosts {
    /// Sorted by key, strictly: no key appears twice.
    hosts: Vec<(String, String)>,
}

/// A store entry as plain values: key, fingerprint.
pub type Entry = (Seq<char>, Seq<char>);

/// Keys strictly increase along the sequence.
pub open spec fn sorted(e: Seq<Entry>) -> bool {
    forall|i: int, j: int| 0 <= i < j < e.len() ==> seq_lt(#[trigger] e[i].0, #[trigger] e[j].0)
}

/// Where `k` sits among the entries (meaningful when it is there).
pub open spec fn index_of_key(e: Seq<Entry>, k: Seq<char>) -> int {
    choose|i: int| 0 <= i < e.len() && e[i].0 == k
}

/// The entries as a map from key to fingerprint.
pub open spec fn entries_map(e: Seq<Entry>) -> Map<Seq<char>, Seq<char>> {
    Map::new(
        |k: Seq<char>| exists|i: int| 0 <= i < e.len() && e[i].0 == k,
        |k: Seq<char>| e[index_of_key(e, k)].1,
    )
}

proof fn lemma_map_at(e: Seq<Entry>, i: int)
    requires
        sorted(e),
        0 <= i < e.len(),
    ensures
        entries_map(e).dom().contains(e[i].0),
        entries_map(e)[e[i].0] == e[i].1,
{
    let k = e[i].0;
    assert(entries_map(e).dom().contains(k));
    let j = index_of_key(e, k);
    assert(entries_map(e)[k] == e[j].1);
    if j < i {
        assert(seq_lt(e[j].0, e[i].0));
        lemma_lt_irreflexive(k);
    } else if j > i {
        assert(seq_lt(e[i].0, e[j].0));
        lemma_lt_irreflexive(k);
    }
    assert(j == i);
}

/// `[`, `]`, `:` as characters.
pub open spec fn bracket_close_colon() -> Seq<char> {
    seq![']', ':']
}

/// The store key for a host and port: the lowercased host, and for any port
/// but 22 OpenSSH's `[host]:port` form.
pub open spec fn key_for_spec(host: Seq<char>, port: u16) -> Seq<char> {
    if port == 22 {
        lower_seq(host)
    } else {
        seq!['['] + lower_seq(host) + bracket_close_colon() + decimal(port as nat)
    }
}

/// The start of the last `]:` in `s`, or -1.
pub open spec fn last_sep(s: Seq<char>) -> int
    decreases s.len(),
{
    if s.len() < 2 {
        -1
    } else if s[s.len() - 2] == ']' && s[s.len() - 1] == ':' {
        s.len() - 2
    } else {
        last_sep(s.drop_last())
    }
}

/// Inverse of [`key_for_spec`]: `[host]:port` splits at the last `]:`, and
/// anything else (including a port that does not parse) is the whole key on
/// port 22.
pub open spec fn split_key_spec(key: Seq<char>) -> (Seq<char>, u16) {
    if key.len() > 0 && key[0] == '[' {
        let rest = key.drop_first();
        let at = last_sep(rest);
        if at >= 0 {
            match parse_u16_spec(rest.skip(at + 2)) {
                Some(port) => (rest.take(at), port),
                None => (key, 22),
            }
        } else {
            (key, 22)
        }
    } else {
        (key, 22)
    }
}

/// The store key for a host and port.
pub fn key_for(host: &str, port: u16) -> (key: String)
    ensures
        key@ == key_for_spec(host@, port),
{
    // Match OpenSSH's convention of only annotating non-default ports.
    let lower = to_ascii_lowercase(host);
    if port == 22 {
        lower
    } else {
        let mut key = String::new();
        push_char(&mut key, '[');
        push_str(&mut key, lower.as_str());
        push_char(&mut key, ']');
        push_char(&mut key, ':');
        push_decimal(&mut key, port as u64);
        assert(key@ =~= key_for_spec(host@, port));
        key
    }
}

fn last_sep_exec(s: &Vec<char>) -> (r: Option<usize>)
    ensures
        match r {
            Some(i) => i as int == last_sep(s@),
            None => last_sep(s@) == -1,
        },
{
    if s.len() < 2 {
        return None;
    }
    let mut i: usize = s.len() - 2;
    assert(s@.take(i + 2) =~= s@);
    loop
        invariant
            i + 2 <= s@.len(),
            s@.len() == s.len(),
            last_sep(s@) == last_sep(s@.take(i + 2)),
        decreases i,
    {
        let ghost t = s@.take(i + 2);
        assert(t.len() == i + 2);
        assert(t[t.len() - 2] == s@[i as int]);
        assert(t[t.len() - 1] == s@[i + 1]);
        if s[i] == ']' && s[i + 1] == ':' {
            assert(last_sep(t) == i);
            return Some(i);
        }
        assert(t.drop_last() =~= s@.take(i + 1));
        assert(last_sep(t) == last_sep(s@.take(i + 1)));
        if i == 0 {
            assert(last_sep(s@.take(1)) == -1);
            return None;
        }
        assert(s@.take(i + 1) =~= s@.take(i - 1 + 2));
        i = i - 1;
    }
}

/// Inverse of [`key_for`]: `[host]:port` splits, anything else is port 22.
pub fn split_key(key: &str) -> (r: (String, u16))
    ensures
        (r.0@, r.1) == split_key_spec(key@),
{
    let chars = chars_of(key);
    if chars.len() > 0 && chars[0] == '[' {
        let mut rest: Vec<char> = Vec::new();
        let mut i: usize = 1;
        while i < chars.len()
            invariant
                1 <= i <= chars@.len(),
                chars@ == key@,
                rest@ == key@.drop_first().take(i - 1),
            decreases chars@.len() - i,
        {
            rest.push(chars[i]);
            i = i + 1;
            assert(rest@ =~= key@.drop_first().take(i - 1));
        }
        assert(rest@ =~= key@.drop_first());
        proof {
            lemma_last_sep_bounds(rest@);
        }
        if let Some(at) = last_sep_exec(&rest) {
            let mut host: Vec<char> = Vec::new();
            let mut j: usize = 0;
            while j < at
                invariant
                    j <= at,
                    at < rest@.len(),
                    host@ == rest@.take(j as int),
                decreases at - j,
            {
                host.push(rest[j]);
                j = j + 1;
                assert(host@ =~= rest@.take(j as int));
            }
            let mut port_text = String::new();
            let mut k: usize = at + 2;
            while k < rest.len()
                invariant
                    at + 2 <= k <= rest@.len(),
                    port_text@ == rest@.subrange(at + 2, k as int),
                decreases rest@.len() - k,
            {
                push_char(&mut port_text, rest[k]);
                k = k + 1;
                assert(port_text@ =~= rest@.subrange(at + 2, k as int));
            }
            assert(port_text@ =~= rest@.skip(at + 2));
            if let Some(port) = parse_u16(port_text.as_str()) {
                return (string_from_chars(&host), port);
            }
        }
    }
    (key.to_owned(), 22)
}

proof fn lemma_last_sep_bounds(s: Seq<char>)
    ensures
        -1 <= last_sep(s),
        last_sep(s) >= 0 ==> last_sep(s) + 2 <= s.len() && s[last_sep(s)] == ']' && s[last_sep(s)
            + 1] == ':',
    decreases s.len(),
{
    if s.len() >= 2 && !(s[s.len() - 2] == ']' && s[s.len() - 1] == ':') {
        lemma_last_sep_bounds(s.drop_last());
    }
}

impl View for KnownHosts {
    type V = Map<Seq<char>, Seq<char>>;

    /// The store as a map from key to fingerprint.
    open spec fn view(&self) -> Map<Seq<char>, Seq<char>> {
        entries_map(self.entries())
    }
}

impl Default for KnownHosts {
    fn default() -> (r: Self)
        ensures
            r.wf(),
            r@ == Map::<Seq<char>, Seq<char>>::empty(),
    {
        KnownHosts::new()
    }
}

impl KnownHosts {
    /// The entries, in key order.
    pub closed spec fn entries(&self) -> Seq<Entry> {
        self.hosts@.map_values(|e: (String, String)| (e.0@, e.1@))
    }

    /// Keys are kept sorted, so no key appears twice.
    pub closed spec fn wf(&self) -> bool {
        sorted(self.entries())
    }

    /// An empty store.
    pub fn new() -> (r: Self)
        ensures
            r.wf(),
            r@ == Map::<Seq<char>, Seq<char>>::empty(),
            r.entries() == Seq::<Entry>::empty(),
    {
        let r = KnownHosts { hosts: Vec::new() };
        assert(r.entries() =~= Seq::<Entry>::empty());
        assert(r@ =~= Map::<Seq<char>, Seq<char>>::empty());
        r
    }

    /// A store holding these `(key, fingerprint)` pairs, as read back from
    /// disk. A key given twice keeps its last fingerprint.
    pub fn from_entries(entries: Vec<(String, String)>) -> (r: Self)
        ensures
            r.wf(),
            forall|k: Seq<char>|
                r@.dom().contains(k) <==> exists|i: int|
                    0 <= i < entries@.len() && (#[trigger] entries@[i]).0@ == k,
            forall|k: Seq<char>|
                #[trigger] r@.dom().contains(k) ==> exists|i: int|
                    0 <= i < entries@.len() && (#[trigger] entries@[i]).0@ == k && r@[k]
                        == entries@[i].1@ && forall|j: int|
                        i < j < entries@.len() ==> (#[trigger] entries@[j]).0@ != k,
    {
        let mut store = KnownHosts::new();
        let mut i: usize = 0;
        while i < entries.len()
            invariant
                i <= entries@.len(),
                store.wf(),
                forall|k: Seq<char>|
                    store@.dom().contains(k) <==> exists|j: int|
                        0 <= j < i && (#[trigger] entries@[j]).0@ == k,
                forall|k: Seq<char>|
                    #[trigger] store@.dom().contains(k) ==> exists|j: int|
                        0 <= j < i && (#[trigger] entries@[j]).0@ == k && store@[k]
                            == entries@[j].1@ && forall|l: int|
                            j < l < i ==> (#[trigger] entries@[l]).0@ != k,
            decreases entries@.len() - i,
        {
            let (k, v) = (&entries[i].0, &entries[i].1);
            let ghost before = store@;
            store.put(k.clone(), v.clone());
            assert forall|x: Seq<char>| #[trigger] store@.dom().contains(x) implies exists|j: int|
                0 <= j < i + 1 && (#[trigger] entries@[j]).0@ == x && store@[x] == entries@[j].1@
                    && forall|l: int| j < l < i + 1 ==> (#[trigger] entries@[l]).0@ != x by {
                if x == k@ {
                    assert(entries@[i as int].0@ == x && store@[x] == entries@[i as int].1@);
                } else {
                    assert(before.dom().contains(x));
                    let j = choose|j: int|
                        0 <= j < i && (#[trigger] entries@[j]).0@ == x && before[x] == entries@[j].1@
                            && forall|l: int| j < l < i ==> (#[trigger] entries@[l]).0@ != x;
                    assert forall|l: int| j < l < i + 1 implies (#[trigger] entries@[l]).0@ != x by {
                        if l == i {
                            assert(entries@[l].0@ == k@);
                        }
                    }
                }
            }
            assert forall|x: Seq<char>|
                store@.dom().contains(x) <==> exists|j: int|
                    0 <= j < i + 1 && (#[trigger] entries@[j]).0@ == x by {
                if x == k@ {
                    assert(entries@[i as int].0@ == x);
                }
                if exists|j: int| 0 <= j < i + 1 && (#[trigger] entries@[j]).0@ == x {
                    let j = choose|j: int| 0 <= j < i + 1 && (#[trigger] entries@[j]).0@ == x;
                    if j < i {
                        assert(exists|j2: int| 0 <= j2 < i && (#[trigger] entries@[j2]).0@ == x);
                    }
                }
            }
            i = i + 1;
        }
        store
    }

    /// The entries list the store: each trusted key exactly once, with its
    /// fingerprint, in strictly increasing key order.
    pub proof fn lemma_entries_list_the_store(&self)
        requires
            self.wf(),
        ensures
            lists_map(self.entries(), self@),
    {
        lemma_lists_own_map(self.entries());
    }

    /// Every `(key, fingerprint)` pair, in key order, for writing to disk.
    pub fn to_entries(&self) -> (r: Vec<(String, String)>)
        ensures
            r@.map_values(|e: (String, String)| (e.0@, e.1@)) == self.entries(),
            self.wf() ==> lists_map(r@.map_values(|e: (String, String)| (e.0@, e.1@)), self@),
    {
        proof {
            if self.wf() {
                lemma_lists_own_map(self.entries());
            }
        }
        let mut out: Vec<(String, String)> = Vec::new();
        let mut i: usize = 0;
        while i < self.hosts.len()
            invariant
                i <= self.hosts@.len(),
                out@.map_values(|e: (String, String)| (e.0@, e.1@)) == self.entries().take(
                    i as int,
                ),
            decreases self.hosts@.len() - i,
        {
            let ghost before = out@.map_values(|e: (String, String)| (e.0@, e.1@));
            out.push((self.hosts[i].0.clone(), self.hosts[i].1.clone()));
            assert(out@.map_values(|e: (String, String)| (e.0@, e.1@)) =~= before.push(
                self.entries()[i as int],
            ));
            i = i + 1;
            assert(self.entries().take(i as int) =~= before.push(self.entries()[i - 1]));
        }
        assert(self.entries().take(i as int) =~= self.entries());
        out
    }

    /// Where `key` is, or would go: the number of keys below it, and whether
    /// the entry there holds it.
    fn locate(&self, key: &str) -> (r: (usize, bool))
        requires
            self.wf(),
        ensures
            r.0 <= self.entries().len(),
            forall|j: int| 0 <= j < r.0 ==> seq_lt(#[trigger] self.entries()[j].0, key@),
            forall|j: int| r.0 <= j < self.entries().len() ==> !seq_lt(#[trigger] self.entries()[j].0, key@),
            r.1 == (r.0 < self.entries().len() && self.entries()[r.0 as int].0 == key@),
            !r.1 ==> forall|j: int|
                r.0 <= j < self.entries().len() ==> seq_lt(key@, #[trigger] self.entries()[j].0),
    {
        let mut i: usize = 0;
        while i < self.hosts.len() && str_lt(self.hosts[i].0.as_str(), key)
            invariant
                i <= self.hosts@.len(),
                self.wf(),
                forall|j: int| 0 <= j < i ==> seq_lt(#[trigger] self.entries()[j].0, key@),
            decreases self.hosts@.len() - i,
        {
            i = i + 1;
        }
        let ghost e = self.entries();
        let found = i < self.hosts.len() && str_eq(self.hosts[i].0.as_str(), key);
        proof {
            assert forall|j: int| i <= j < e.len() implies !seq_lt(#[trigger] e[j].0, key@) by {
                if j > i {
                    assert(seq_lt(e[i as int].0, e[j].0));
                    if seq_lt(e[j].0, key@) {
                        lemma_lt_transitive(e[i as int].0, e[j].0, key@);
                    }
                }
            }
            if !found {
                assert forall|j: int| i <= j < e.len() implies seq_lt(key@, #[trigger] e[j].0) by {
                    assert(!seq_lt(e[i as int].0, key@));
                    assert(e[i as int].0 != key@);
                    lemma_lt_total(e[i as int].0, key@);
                    if j > i {
                        assert(seq_lt(e[i as int].0, e[j].0));
                        lemma_lt_transitive(key@, e[i as int].0, e[j].0);
                    }
                }
            }
        }
        (i, found)
    }

    /// Set `key` to `fingerprint`, replacing any previous fingerprint.
    fn put(&mut self, key: String, fingerprint: String)
        requires
            old(self).wf(),
        ensures
            final(self).wf(),
            final(self)@ == old(self)@.insert(key@, fingerprint@),
    {
        let (i, found) = self.locate(key.as_str());
        let ghost e = self.entries();
        let ghost entry: Entry = (key@, fingerprint@);
        if found {
            self.hosts.set(i, (key, fingerprint));
            let ghost n = self.entries();
            assert(n =~= e.update(i as int, entry));
            proof {
                assert forall|a: int, b: int| 0 <= a < b < n.len() implies seq_lt(
                    #[trigger] n[a].0,
                    #[trigger] n[b].0,
                ) by {
                    assert(seq_lt(e[a].0, e[b].0));
                }
                lemma_map_at(n, i as int);
                assert forall|k: Seq<char>| #[trigger]
                    entries_map(n).dom().contains(k) == entries_map(e).insert(
                        entry.0,
                        entry.1,
                    ).dom().contains(k) by {
                    if entries_map(e).dom().contains(k) {
                        let j = choose|j: int| 0 <= j < e.len() && e[j].0 == k;
                        assert(n[j].0 == k);
                    }
                    if entries_map(n).dom().contains(k) {
                        let j = choose|j: int| 0 <= j < n.len() && n[j].0 == k;
                        if j != i {
                            assert(e[j].0 == k);
                        }
                    }
                }
                assert forall|k: Seq<char>| #[trigger]
                    entries_map(n).dom().contains(k) implies entries_map(n)[k] == entries_map(
                    e,
                ).insert(entry.0, entry.1)[k] by {
                    let j = choose|j: int| 0 <= j < n.len() && n[j].0 == k;
                    lemma_map_at(n, j);
                    if j != i {
                        lemma_map_at(e, j);
                    }
                }
                assert(entries_map(n) =~= entries_map(e).insert(entry.0, entry.1));
            }
        } else {
            self.hosts.insert(i, (key, fingerprint));
            let ghost n = self.entries();
            assert(n =~= e.insert(i as int, entry));
            proof {
                assert forall|a: int, b: int| 0 <= a < b < n.len() implies seq_lt(
                    #[trigger] n[a].0,
                    #[trigger] n[b].0,
                ) by {
                    if b < i {
                        assert(seq_lt(e[a].0, e[b].0));
                    } else if b == i {
                        assert(seq_lt(e[a].0, entry.0));
                    } else if a < i {
                        assert(seq_lt(e[a].0, entry.0));
                        assert(seq_lt(entry.0, e[b - 1].0));
                        lemma_lt_transitive(e[a].0, entry.0, e[b - 1].0);
                    } else if a == i {
                        assert(seq_lt(entry.0, e[b - 1].0));
                    } else {
                        assert(seq_lt(e[a - 1].0, e[b - 1].0));
                    }
                }
                lemma_map_at(n, i as int);
                assert forall|k: Seq<char>| #[trigger]
                    entries_map(n).dom().contains(k) == entries_map(e).insert(
                        entry.0,
                        entry.1,
                    ).dom().contains(k) by {
                    if entries_map(e).dom().contains(k) {
                        let j = choose|j: int| 0 <= j < e.len() && e[j].0 == k;
                        if j < i {
                            assert(n[j].0 == k);
                        } else {
                            assert(n[j + 1].0 == k);
                        }
                    }
                    if entries_map(n).dom().contains(k) {
                        let j = choose|j: int| 0 <= j < n.len() && n[j].0 == k;
                        if j < i {
                            assert(e[j].0 == k);
                        } else if j > i {
                            assert(e[j - 1].0 == k);
                        }
                    }
                }
                assert forall|k: Seq<char>| #[trigger]
                    entries_map(n).dom().contains(k) implies entries_map(n)[k] == entries_map(
                    e,
                ).insert(entry.0, entry.1)[k] by {
                    let j = choose|j: int| 0 <= j < n.len() && n[j].0 == k;
                    lemma_map_at(n, j);
                    if j < i {
                        lemma_map_at(e, j);
                        assert(e[j] == n[j]);
                    } else if j > i {
                        lemma_map_at(e, j - 1);
                        assert(e[j - 1] == n[j]);
                    }
                }
                assert(entries_map(n) =~= entries_map(e).insert(entry.0, entry.1));
            }
        }
    }

    /// Drop `key`. Returns whether it was there.
    fn drop_key(&mut self, key: &str) -> (removed: bool)
        requires
            old(self).wf(),
        ensures
            final(self).wf(),
            removed == old(self)@.dom().contains(key@),
            final(self)@ == old(self)@.remove(key@),
    {
        let (i, found) = self.locate(key);
        let ghost e = self.entries();
        if !found {
            proof {
                assert(!entries_map(e).dom().contains(key@)) by {
                    if entries_map(e).dom().contains(key@) {
                        let j = choose|j: int| 0 <= j < e.len() && e[j].0 == key@;
                        lemma_lt_irreflexive(key@);
                        if j >= i {
                            assert(seq_lt(key@, e[j].0));
                        }
                    }
                }
                assert(entries_map(e).remove(key@) =~= entries_map(e));
            }
            return false;
        }
        self.hosts.remove(i);
        let ghost n = self.entries();
        assert(n =~= e.remove(i as int));
        proof {
            lemma_map_at(e, i as int);
            assert forall|a: int, b: int| 0 <= a < b < n.len() implies seq_lt(
                #[trigger] n[a].0,
                #[trigger] n[b].0,
            ) by {
                if b < i {
                    assert(seq_lt(e[a].0, e[b].0));
                } else if a < i {
                    assert(seq_lt(e[a].0, e[b + 1].0));
                } else {
                    assert(seq_lt(e[a + 1].0, e[b + 1].0));
                }
            }
            assert forall|k: Seq<char>| #[trigger]
                entries_map(n).dom().contains(k) == entries_map(e).remove(key@).dom().contains(
                    k,
                ) by {
                if entries_map(e).dom().contains(k) && k != key@ {
                    let j = choose|j: int| 0 <= j < e.len() && e[j].0 == k;
                    if j < i {
                        assert(n[j].0 == k);
                    } else {
                        assert(j != i);
                        assert(n[j - 1].0 == k);
                    }
                }
                if entries_map(n).dom().contains(k) {
                    let j = choose|j: int| 0 <= j < n.len() && n[j].0 == k;
                    if j < i {
                        assert(e[j].0 == k);
                        assert(seq_lt(e[j].0, e[i as int].0));
                        lemma_lt_irreflexive(k);
                    } else {
                        assert(e[j + 1].0 == k);
                        assert(seq_lt(e[i as int].0, e[j + 1].0));
                        lemma_lt_irreflexive(k);
                    }
                }
            }
            assert forall|k: Seq<char>| #[trigger]
                entries_map(n).dom().contains(k) implies entries_map(n)[k] == entries_map(
                e,
            ).remove(key@)[k] by {
                let j = choose|j: int| 0 <= j < n.len() && n[j].0 == k;
                lemma_map_at(n, j);
                if j < i {
                    lemma_map_at(e, j);
                } else {
                    lemma_map_at(e, j + 1);
                }
            }
            assert(entries_map(n) =~= entries_map(e).remove(key@));
        }
        true
    }

    /// What the store says about `fingerprint` for this host and port.
    pub fn verdict(&self, host: &str, port: u16, fingerprint: &str) -> (v: Verdict)
        requires
            self.wf(),
        ensures
            verdict_matches(v, self@, key_for_spec(host@, port), fingerprint@),
    {
        let key = key_for(host, port);
        let (i, found) = self.locate(key.as_str());
        if !found {
            proof {
                let e = self.entries();
                if entries_map(e).dom().contains(key@) {
                    let j = choose|j: int| 0 <= j < e.len() && e[j].0 == key@;
                    lemma_lt_irreflexive(key@);
                    if j >= i {
                        assert(seq_lt(key@, e[j].0));
                    }
                }
            }
            return Verdict::Unknown;
        }
        proof {
            lemma_map_at(self.entries(), i as int);
        }
        let known = &self.hosts[i].1;
        if str_eq(known.as_str(), fingerprint) {
            Verdict::Match
        } else {
            Verdict::Changed { expected: known.clone() }
        }
    }

    /// Trust this fingerprint from now on, replacing any previous one.
    pub fn trust(&mut self, host: &str, port: u16, fingerprint: &str)
        requires
            old(self).wf(),
        ensures
            final(self).wf(),
            final(self)@ == old(self)@.insert(key_for_spec(host@, port), fingerprint@),
    {
        self.put(key_for(host, port), fingerprint.to_owned());
    }

    /// Stop trusting whatever key this host and port had.
    pub fn forget(&mut self, host: &str, port: u16)
        requires
            old(self).wf(),
        ensures
            final(self).wf(),
            final(self)@ == old(self)@.remove(key_for_spec(host@, port)),
    {
        let key = key_for(host, port);
        self.drop_key(key.as_str());
    }

    /// Every trusted entry, for the Trusted Host Keys dialog, in key order.
    pub fn list(&self) -> (r: Vec<TrustedHost>)
        ensures
            r@.len() == self.entries().len(),
            forall|i: int|
                0 <= i < r@.len() ==> {
                    let t = #[trigger] r@[i];
                    &&& t.key@ == self.entries()[i].0
                    &&& (t.host@, t.port) == split_key_spec(self.entries()[i].0)
                    &&& t.fingerprint@ == self.entries()[i].1
                },
            self.wf() ==> lists_map(r@.map_values(|t: TrustedHost| (t.key@, t.fingerprint@)), self@),
    {
        proof {
            if self.wf() {
                lemma_lists_own_map(self.entries());
            }
        }
        let mut out: Vec<TrustedHost> = Vec::new();
        let mut i: usize = 0;
        while i < self.hosts.len()
            invariant
                i <= self.hosts@.len(),
                out@.len() == i,
                forall|k: int|
                    0 <= k < i ==> {
                        let t = #[trigger] out@[k];
                        &&& t.key@ == self.entries()[k].0
                        &&& (t.host@, t.port) == split_key_spec(self.entries()[k].0)
                        &&& t.fingerprint@ == self.entries()[k].1
                    },
            decreases self.hosts@.len() - i,
        {
            let key = &self.hosts[i].0;
            let fingerprint = &self.hosts[i].1;
            let (host, port) = split_key(key.as_str());
            out.push(TrustedHost { key: key.clone(), host, port, fingerprint: fingerprint.clone() });
            i = i + 1;
        }
        assert(out@.map_values(|t: TrustedHost| (t.key@, t.fingerprint@)) =~= self.entries());
        out
    }

    /// Remove by raw store key. Returns whether anything was removed.
    pub fn forget_key(&mut self, key: &str) -> (removed: bool)
        requires
            old(self).wf(),
        ensures
            final(self).wf(),
            removed == old(self)@.dom().contains(key@),
            final(self)@ == old(self)@.remove(key@),
    {
        self.drop_key(key)
    }

    /// How many hosts are trusted.
    pub fn len(&self) -> (r: usize)
        requires
            self.wf(),
        ensures
            r == self@.len(),
    {
        proof {
            lemma_map_len(self.entries());
        }
        self.hosts.len()
    }

    pub fn is_empty(&self) -> (r: bool)
        requires
            self.wf(),
        ensures
            r == (self@.len() == 0),
    {
        proof {
            lemma_map_len(self.entries());
        }
        self.hosts.len() == 0
    }
}

/// `v` is the verdict a store `m` gives for `fingerprint` under `key`.
pub open spec fn verdict_matches(
    v: Verdict,
    m: Map<Seq<char>, Seq<char>>,
    key: Seq<char>,
    fingerprint: Seq<char>,
) -> bool {
    if !m.dom().contains(key) {
        v == Verdict::Unknown
    } else if m[key] == fingerprint {
        v == Verdict::Match
    } else {
        v matches Verdict::Changed { expected } && expected@ == m[key]
    }
}

/// A sorted store has one map entry per element.
proof fn lemma_map_len(e: Seq<Entry>)
    requires
        sorted(e),
    ensures
        entries_map(e).dom().finite(),
        entries_map(e).len() == e.len(),
    decreases e.len(),
{
    if e.len() == 0 {
        assert(entries_map(e).dom() =~= Set::<Seq<char>>::empty());
    } else {
        let rest = e.drop_last();
        assert(sorted(rest)) by {
            assert forall|i: int, j: int| 0 <= i < j < rest.len() implies seq_lt(
                #[trigger] rest[i].0,
                #[trigger] rest[j].0,
            ) by {
                assert(seq_lt(e[i].0, e[j].0));
            }
        }
        lemma_map_len(rest);
        let last = e[e.len() - 1].0;
        assert(!entries_map(rest).dom().contains(last)) by {
            if entries_map(rest).dom().contains(last) {
                let j = choose|j: int| 0 <= j < rest.len() && rest[j].0 == last;
                assert(seq_lt(e[j].0, e[e.len() - 1].0));
                lemma_lt_irreflexive(last);
            }
        }
        assert(entries_map(e).dom() =~= entries_map(rest).dom().insert(last)) by {
            assert forall|k: Seq<char>| #[trigger]
                entries_map(e).dom().contains(k) implies entries_map(rest).dom().insert(
                last,
            ).contains(k) by {
                let j = choose|j: int| 0 <= j < e.len() && e[j].0 == k;
                if j < e.len() - 1 {
                    assert(rest[j].0 == k);
                }
            }
            assert forall|k: Seq<char>| #[trigger]
                entries_map(rest).dom().contains(k) implies entries_map(e).dom().contains(k) by {
                let j = choose|j: int| 0 <= j < rest.len() && rest[j].0 == k;
                assert(e[j].0 == k);
            }
            assert(entries_map(e).dom().contains(last));
        }
    }
}

/// `e` lists the map `m`: every key of `m` exactly once, with its
/// fingerprint, in strictly increasing key order.
pub open spec fn lists_map(e: Seq<Entry>, m: Map<Seq<char>, Seq<char>>) -> bool {
    &&& sorted(e)
    &&& e.len() == m.len()
    &&& forall|i: int| 0 <= i < e.len() ==> m.dom().contains(#[trigger] e[i].0) && m[e[i].0] == e[i].1
    &&& forall|k: Seq<char>| #[trigger] m.dom().contains(k) ==> exists|i: int| 0 <= i < e.len() && e[i].0 == k
}

/// A sorted sequence of entries lists the map it stands for.
proof fn lemma_lists_own_map(e: Seq<Entry>)
    requires
        sorted(e),
    ensures
        lists_map(e, entries_map(e)),
{
    lemma_map_len(e);
    assert forall|i: int| 0 <= i < e.len() implies entries_map(e).dom().contains(#[trigger] e[i].0)
        && entries_map(e)[e[i].0] == e[i].1 by {
        lemma_map_at(e, i);
    }
}

// ---------------------------------------------------------------------------
// Laws
// ---------------------------------------------------------------------------

/// Once a fingerprint is trusted for a host and port, that fingerprint
/// matches, and any other one is reported as changed, carrying the trusted one.
pub proof fn lemma_trusted_fingerprint_matches(
    m: Map<Seq<char>, Seq<char>>,
    host: Seq<char>,
    port: u16,
    trusted: Seq<char>,
    presented: Seq<char>,
    v: Verdict,
)
    requires
        verdict_matches(v, m.insert(key_for_spec(host, port), trusted), key_for_spec(host, port), presented),
    ensures
        presented == trusted ==> v == Verdict::Match,
        presented != trusted ==> (v matches Verdict::Changed { expected } && expected@ == trusted),
{
}

/// A host that was never trusted, or has been forgotten, is unknown.
pub proof fn lemma_forgotten_host_is_unknown(
    m: Map<Seq<char>, Seq<char>>,
    host: Seq<char>,
    port: u16,
    presented: Seq<char>,
    v: Verdict,
)
    requires
        verdict_matches(v, m.remove(key_for_spec(host, port)), key_for_spec(host, port), presented),
    ensures
        v == Verdict::Unknown,
{
}

/// Host names are matched without regard to ASCII case: two spellings that
/// differ only in case name the same entry.
pub proof fn lemma_host_case_is_ignored(a: Seq<char>, b: Seq<char>, port: u16)
    requires
        lower_seq(a) == lower_seq(b),
    ensures
        key_for_spec(a, port) == key_for_spec(b, port),
{
}

/// The same host on two different ports is two different entries.
pub proof fn lemma_ports_are_distinct(host: Seq<char>, p: u16, q: u16)
    requires
        p != q,
    ensures
        key_for_spec(host, p) != key_for_spec(host, q),
{
    if p != 22 && q != 22 {
        lemma_split_key_for(host, p);
        lemma_split_key_for(host, q);
    } else if p == 22 {
        lemma_split_key_for(host, q);
        if key_for_spec(host, p) == key_for_spec(host, q) {
            // The bracketed form is one longer than the host, so it cannot equal it.
            assert(key_for_spec(host, q).len() > lower_seq(host).len());
        }
    } else {
        lemma_split_key_for(host, p);
        assert(key_for_spec(host, p).len() > lower_seq(host).len());
    }
}

/// Listing splits every non-default-port key back into the host and port it
/// was made from.
pub proof fn lemma_split_key_for(host: Seq<char>, port: u16)
    requires
        port != 22,
    ensures
        split_key_spec(key_for_spec(host, port)) == (lower_seq(host), port),
{
    let lower = lower_seq(host);
    let digits = decimal(port as nat);
    let key = key_for_spec(host, port);
    let rest = key.drop_first();
    assert(rest =~= lower + bracket_close_colon() + digits);
    lemma_decimal_digits(port as nat);
    lemma_last_sep_before_digits(lower, digits);
    assert(rest.skip(lower.len() as int + 2) =~= digits);
    assert(rest.take(lower.len() as int) =~= lower);
    lemma_parse_decimal(port);
}

/// A default-port key whose host does not start with `[` lists as itself on
/// port 22.
pub proof fn lemma_split_default_port(host: Seq<char>)
    requires
        host.len() == 0 || host[0] != '[',
    ensures
        split_key_spec(key_for_spec(host, 22)) == (lower_seq(host), 22u16),
{
}

proof fn lemma_last_sep_before_digits(x: Seq<char>, d: Seq<char>)
    requires
        d.len() > 0,
        all_digits(d),
    ensures
        last_sep(x + bracket_close_colon() + d) == x.len(),
    decreases d.len(),
{
    let s = x + bracket_close_colon() + d;
    let t = x + bracket_close_colon();
    assert(t[t.len() - 2] == ']' && t[t.len() - 1] == ':');
    assert(last_sep(t) == x.len());
    assert(is_digit(d[d.len() - 1]));
    assert(s[s.len() - 1] == d[d.len() - 1]);
    if d.len() == 1 {
        assert(s[s.len() - 2] == ':');
        assert(s.drop_last() =~= t);
    } else {
        assert(s[s.len() - 2] == d[d.len() - 2]);
        assert(is_digit(d[d.len() - 2]));
        let d2 = d.drop_last();
        assert(all_digits(d2)) by {
            assert forall|i: int| 0 <= i < d2.len() implies is_digit(#[trigger] d2[i]) by {
                assert(d2[i] == d[i]);
            }
        }
        assert(s.drop_last() =~= x + bracket_close_colon() + d2);
        lemma_last_sep_before_digits(x, d2);
    }
}

/// The decimal form of a number is a non-empty run of digits with that value.
pub proof fn lemma_decimal_digits(n: nat)
    ensures
        decimal(n).len() > 0,
        all_digits(decimal(n)),
        digits_value(decimal(n)) == n,
    decreases n,
{
    if n < 10 {
        assert(digit_value(digit_char(n)) == n);
        assert(digits_value(decimal(n)) == digits_value(decimal(n).drop_last()) * 10 + digit_value(decimal(n).last()));
        assert(decimal(n).drop_last() =~= Seq::<char>::empty());
    }
    if n >= 10 {
        lemma_decimal_digits(n / 10);
        let d = decimal(n);
        assert(d.drop_last() =~= decimal(n / 10));
        assert(digit_value(digit_char(n % 10)) == n % 10);
        assert(digits_value(d) == digits_value(decimal(n / 10)) * 10 + n % 10);
        assert forall|i: int| 0 <= i < d.len() implies is_digit(#[trigger] d[i]) by {
            if i < d.len() - 1 {
                assert(d[i] == decimal(n / 10)[i]);
            }
        }
    }
}

/// Parsing the decimal form of a port gives the port back.
pub proof fn lemma_parse_decimal(port: u16)
    ensures
        parse_u16_spec(decimal(port as nat)) == Some(port),
{
    lemma_decimal_digits(port as nat);
    assert(is_digit(decimal(port as nat)[0]));
}

} // verus!
