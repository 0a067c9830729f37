//! The shells offered in the UI.
//!
//! Everything is discovered at runtime: offering a "PowerShell 7" button that
//! fails on click is worse than not offering it, so a profile only appears if
//! its executable is really present. Looking (at the disk and the registry)
//! is the application's part; which profiles that makes, in what order and
//! under what ids, is decided here.
use vstd::prelude::*;

use crate::session::{wsl_prefix, SessionKind};
use crate::text::{lemma_lt_total, lemma_lt_transitive, push_str, seq_lt, str_eq, str_lt};

verus! {

/// A launchable shell.
#[derive(Debug, Clone)]
pub struct ShellProfile {
    /// Stable identifier the frontend passes back to open a session.
    pub id: String,
    pub label: String,
    pub kind: SessionKind,
    pub program: String,
    pub args: Vec<String>,
    /// Launches at high integrity. Shown in red and gated behind UAC.
    pub elevated: bool,
}

/// What was found on this machine: the path of each shell that is present,
/// and the installed WSL distributions (see [`wsl_distros`]).
#[derive(Debug, Clone)]
pub struct Installed {
    /// `System32\cmd.exe` under the system root.
    pub cmd: Option<String>,
    /// Windows PowerShell 5.1.
    pub powershell: Option<String>,
    /// PowerShell 7 (or 6), from its install directory or `PATH`.
    pub pwsh: Option<String>,
    /// `System32\wsl.exe` under the system root.
    pub wsl: Option<String>,
    pub distros: Vec<String>,
}

/// A profile with its strings as character sequences.
pub struct ProfileView {
    pub id: Seq<char>,
    pub label: Seq<char>,
    pub kind: SessionKind,
    pub program: Seq<char>,
    pub args: Seq<Seq<char>>,
    pub elevated: bool,
}

pub open spec fn texts(v: Seq<String>) -> Seq<Seq<char>> {
    v.map_values(|s: String| s@)
}

impl View for ShellProfile {
    type V = ProfileView;

    open spec fn view(&self) -> ProfileView {
        ProfileView {
            id: self.id@,
            label: self.label@,
            kind: self.kind,
            program: self.program@,
            args: texts(self.args@),
            elevated: self.elevated,
        }
    }
}

pub open spec fn profile_views(v: Seq<ShellProfile>) -> Seq<ProfileView> {
    v.map_values(|p: ShellProfile| p@)
}

/// The profile of a WSL distribution. With a single distro its name is noise,
/// so it is only shown when there is something to tell apart.
pub open spec fn wsl_profile(program: Seq<char>, distro: String, only: bool) -> ProfileView {
    ProfileView {
        id: "wsl:"@ + distro@,
        label: if only {
            "WSL"@
        } else {
            wsl_prefix() + distro@
        },
        kind: SessionKind::Wsl { distro },
        program,
        // Without --cd, WSL inherits the Windows working directory and drops
        // you in /mnt/c/... Start at the Linux home instead.
        args: seq!["-d"@, distro@, "--cd"@, "~"@],
        elevated: false,
    }
}

/// Command Prompt, if it was found.
pub open spec fn cmd_part(found: Installed) -> Seq<ProfileView> {
    match found.cmd {
        Some(p) => seq![
            ProfileView {
                id: "cmd"@,
                label: "Command Prompt"@,
                kind: SessionKind::Cmd,
                program: p@,
                args: Seq::empty(),
                elevated: false,
            },
        ],
        None => Seq::empty(),
    }
}

/// Windows PowerShell 5.1 and its admin twin, if it was found. PowerShell 5.1
/// and PowerShell 7 are different products at different paths; they are
/// found separately rather than assumed.
pub open spec fn powershell_part(found: Installed) -> Seq<ProfileView> {
    match found.powershell {
        Some(p) => seq![
            ProfileView {
                id: "powershell"@,
                label: "Windows PowerShell"@,
                kind: SessionKind::PowerShell,
                program: p@,
                args: seq!["-NoLogo"@],
                elevated: false,
            },
            // Runs at high integrity: it is simply not de-elevated like the rest.
            ProfileView {
                id: "powershell-admin"@,
                label: "Windows PowerShell (Admin)"@,
                kind: SessionKind::PowerShell,
                program: p@,
                args: seq!["-NoLogo"@],
                elevated: true,
            },
        ],
        None => Seq::empty(),
    }
}

/// PowerShell 7, if it was found.
pub open spec fn pwsh_part(found: Installed) -> Seq<ProfileView> {
    match found.pwsh {
        Some(p) => seq![
            ProfileView {
                id: "pwsh"@,
                label: "PowerShell 7"@,
                kind: SessionKind::Pwsh,
                program: p@,
                args: seq!["-NoLogo"@],
                elevated: false,
            },
        ],
        None => Seq::empty(),
    }
}

/// One profile per WSL distribution, if WSL was found.
pub open spec fn wsl_part(found: Installed) -> Seq<ProfileView> {
    let d = found.distros@;
    match found.wsl {
        Some(p) => Seq::new(d.len(), |k: int| wsl_profile(p@, d[k], d.len() == 1)),
        None => Seq::empty(),
    }
}

/// Every profile `found` makes, in the order they appear in the UI.
pub open spec fn expected_profiles(found: Installed) -> Seq<ProfileView> {
    cmd_part(found) + powershell_part(found) + pwsh_part(found) + wsl_part(found)
}

fn texts_of(v: &Vec<String>) -> (r: Vec<String>)
    ensures
        texts(r@) == texts(v@),
{
    let mut out: Vec<String> = Vec::new();
    let mut i: usize = 0;
    while i < v.len()
        invariant
            i <= v@.len(),
            out@.len() == i,
            forall|k: int| 0 <= k < i ==> (#[trigger] out@[k])@ == v@[k]@,
        decreases v@.len() - i,
    {
        out.push(v[i].clone());
        i = i + 1;
    }
    assert(texts(out@) =~= texts(v@));
    out
}

impl ShellProfile {
    /// A copy of this profile.
    pub fn duplicate(&self) -> (r: Self)
        ensures
            r@ == self@,
    {
        ShellProfile {
            id: self.id.clone(),
            label: self.label.clone(),
            kind: self.kind.duplicate(),
            program: self.program.clone(),
            args: texts_of(&self.args),
            elevated: self.elevated,
        }
    }
}

fn one(s: &str) -> (r: Vec<String>)
    ensures
        texts(r@) == seq![s@],
{
    let mut v: Vec<String> = Vec::new();
    v.push(s.to_owned());
    assert(texts(v@) =~= seq![s@]);
    v
}

fn make_wsl_profile(program: &String, distro: &String, only: bool) -> (r: ShellProfile)
    ensures
        r@ == wsl_profile(program@, *distro, only),
{
    let mut id = String::new();
    push_str(&mut id, "wsl:");
    push_str(&mut id, distro.as_str());
    let mut label = String::new();
    if only {
        push_str(&mut label, "WSL");
    } else {
        let lit = "WSL \u{b7} ";
        proof {
            reveal_strlit("WSL \u{b7} ");
        }
        push_str(&mut label, lit);
        push_str(&mut label, distro.as_str());
    }
    let mut args: Vec<String> = Vec::new();
    args.push("-d".to_owned());
    args.push(distro.clone());
    args.push("--cd".to_owned());
    args.push("~".to_owned());
    let r = ShellProfile {
        id,
        label,
        kind: SessionKind::Wsl { distro: distro.clone() },
        program: program.clone(),
        args,
        elevated: false,
    };
    assert(texts(r.args@) =~= seq!["-d"@, distro@, "--cd"@, "~"@]);
    assert(r.id@ == "wsl:"@ + distro@);
    assert(r.kind == SessionKind::Wsl { distro: *distro });
    if only {
        assert(r.label@ == "WSL"@);
    } else {
        assert(r.label@ =~= wsl_prefix() + distro@);
    }
    r
}

/// Every shell that `found` says is installed, in the order they should
/// appear in the UI: Command Prompt, Windows PowerShell and its admin twin,
/// PowerShell 7, then one entry per WSL distribution.
pub fn profiles_for(found: &Installed) -> (r: Vec<ShellProfile>)
    ensures
        profile_views(r@) == expected_profiles(*found),
        forall|i: int| 0 <= i < r@.len() ==> (#[trigger] r@[i]).elevated == (r@[i].id@ == "powershell-admin"@),
{
    let mut out: Vec<ShellProfile> = Vec::new();
    assert(profile_views(out@) =~= Seq::<ProfileView>::empty());
    if let Some(p) = &found.cmd {
        let prof = ShellProfile {
            id: "cmd".to_owned(),
            label: "Command Prompt".to_owned(),
            kind: SessionKind::Cmd,
            program: p.clone(),
            args: Vec::new(),
            elevated: false,
        };
        assert(texts(prof.args@) =~= Seq::<Seq<char>>::empty());
        out.push(prof);
        assert(profile_views(out@) =~= seq![prof@]);
    }
    assert(profile_views(out@) =~= cmd_part(*found));
    if let Some(p) = &found.powershell {
        out.push(
            ShellProfile {
                id: "powershell".to_owned(),
                label: "Windows PowerShell".to_owned(),
                kind: SessionKind::PowerShell,
                program: p.clone(),
                args: one("-NoLogo"),
                elevated: false,
            },
        );
        out.push(
            ShellProfile {
                id: "powershell-admin".to_owned(),
                label: "Windows PowerShell (Admin)".to_owned(),
                kind: SessionKind::PowerShell,
                program: p.clone(),
                args: one("-NoLogo"),
                elevated: true,
            },
        );
    }
    assert(profile_views(out@) =~= cmd_part(*found) + powershell_part(*found));
    if let Some(p) = &found.pwsh {
        out.push(
            ShellProfile {
                id: "pwsh".to_owned(),
                label: "PowerShell 7".to_owned(),
                kind: SessionKind::Pwsh,
                program: p.clone(),
                args: one("-NoLogo"),
                elevated: false,
            },
        );
    }
    assert(profile_views(out@) =~= cmd_part(*found) + powershell_part(*found) + pwsh_part(*found));
    let ghost before = profile_views(out@);
    if let Some(p) = &found.wsl {
        let only = found.distros.len() == 1;
        let mut k: usize = 0;
        while k < found.distros.len()
            invariant
                k <= found.distros@.len(),
                only == (found.distros@.len() == 1),
                found.wsl == Some(*p),
                profile_views(out@) == before + Seq::new(
                    k as nat,
                    |j: int| wsl_profile(p@, found.distros@[j], only),
                ),
            decreases found.distros@.len() - k,
        {
            let prof = make_wsl_profile(p, &found.distros[k], only);
            let ghost prev = out@;
            out.push(prof);
            k = k + 1;
            assert(profile_views(out@) =~= profile_views(prev).push(prof@));
            assert(profile_views(out@) =~= before + Seq::new(
                k as nat,
                |j: int| wsl_profile(p@, found.distros@[j], only),
            ));
        }
    }
    assert(profile_views(out@) =~= before + wsl_part(*found));
    assert(profile_views(out@) =~= expected_profiles(*found));
    proof {
        lemma_only_the_admin_profile_is_elevated(*found);
        assert forall|i: int| 0 <= i < out@.len() implies (#[trigger] out@[i]).elevated == (out@[i].id@
            == "powershell-admin"@) by {
            assert(profile_views(out@)[i] == out@[i]@);
        }
    }
    out
}

/// Where the first profile with this id is, if any.
pub open spec fn position_of_id(v: Seq<ProfileView>, id: Seq<char>) -> Option<int> {
    if exists|i: int| 0 <= i < v.len() && (#[trigger] v[i]).id == id {
        Some(
            choose|i: int|
                0 <= i < v.len() && v[i].id == id && forall|j: int|
                    0 <= j < i ==> (#[trigger] v[j]).id != id,
        )
    } else {
        None
    }
}

/// The first profile with this id, as the frontend sent it back.
pub fn find(profiles: &Vec<ShellProfile>, id: &str) -> (r: Option<ShellProfile>)
    ensures
        match position_of_id(profile_views(profiles@), id@) {
            Some(i) => r matches Some(p) && p@ == profiles@[i]@,
            None => r is None,
        },
{
    let ghost v = profile_views(profiles@);
    let mut i: usize = 0;
    while i < profiles.len()
        invariant
            i <= profiles@.len(),
            v == profile_views(profiles@),
            forall|j: int| 0 <= j < i ==> (#[trigger] v[j]).id != id@,
        decreases profiles@.len() - i,
    {
        if str_eq(profiles[i].id.as_str(), id) {
            proof {
                assert(v[i as int].id == id@);
                let f = choose|f: int|
                    0 <= f < v.len() && v[f].id == id@ && forall|j: int|
                        0 <= j < f ==> (#[trigger] v[j]).id != id@;
                if f < i {
                    assert(v[f].id != id@);
                }
                if f > i {
                    assert(v[i as int].id != id@);
                }
            }
            let p = profiles[i].duplicate();
            return Some(p);
        }
        i = i + 1;
    }
    None
}

/// No two profiles share an id, as long as no distribution is listed twice
/// (which [`wsl_distros`] guarantees).
pub proof fn lemma_profile_ids_are_unique(found: Installed)
    requires
        texts(found.distros@).no_duplicates(),
    ensures
        forall|i: int, j: int|
            0 <= i < j < expected_profiles(found).len() ==> (#[trigger] expected_profiles(found)[i]).id
                != (#[trigger] expected_profiles(found)[j]).id,
{
    let e = expected_profiles(found);
    let fixed = cmd_part(found) + powershell_part(found) + pwsh_part(found);
    let w = wsl_part(found);
    assert(e =~= fixed + w);
    reveal_strlit("cmd");
    reveal_strlit("powershell");
    reveal_strlit("powershell-admin");
    reveal_strlit("pwsh");
    reveal_strlit("wsl:");
    // The fixed profiles' ids differ from each other and cannot start `wsl:`.
    assert forall|i: int| 0 <= i < fixed.len() implies (#[trigger] fixed[i]).id.len() > 0 && (
    fixed[i].id[0] == 'c' || fixed[i].id[0] == 'p') by {}
    assert forall|i: int, j: int| 0 <= i < j < fixed.len() implies (#[trigger] fixed[i]).id
        != (#[trigger] fixed[j]).id by {
        if fixed[i].id == fixed[j].id {
            assert(fixed[i].id.len() == fixed[j].id.len());
        }
    }
    assert forall|k: int| 0 <= k < w.len() implies (#[trigger] w[k]).id.len() >= 4 && w[k].id[0]
        == 'w' && w[k].id.subrange(4, w[k].id.len() as int) == found.distros@[k]@ by {
        assert(w[k].id.subrange(4, w[k].id.len() as int) =~= found.distros@[k]@);
    }
    assert forall|i: int, j: int| 0 <= i < j < e.len() implies (#[trigger] e[i]).id != (
    #[trigger] e[j]).id by {
        if j < fixed.len() {
            assert(e[i] == fixed[i] && e[j] == fixed[j]);
        } else if i < fixed.len() {
            assert(e[i] == fixed[i] && e[j] == w[j - fixed.len()]);
        } else {
            let a = i - fixed.len();
            let b = j - fixed.len();
            assert(e[i] == w[a] && e[j] == w[b]);
            if w[a].id == w[b].id {
                assert(texts(found.distros@)[a] == found.distros@[a]@);
                assert(texts(found.distros@)[b] == found.distros@[b]@);
            }
        }
    }
}

/// Only the admin twin of Windows PowerShell runs at high integrity: every
/// other profile (Command Prompt, Windows PowerShell, PowerShell 7, each WSL
/// distribution) opens as an ordinary tab.
pub proof fn lemma_only_the_admin_profile_is_elevated(found: Installed)
    ensures
        forall|i: int|
            0 <= i < expected_profiles(found).len() ==> (#[trigger] expected_profiles(found)[i]).elevated
                == (expected_profiles(found)[i].id == "powershell-admin"@),
{
    let e = expected_profiles(found);
    let fixed = cmd_part(found) + powershell_part(found) + pwsh_part(found);
    let w = wsl_part(found);
    assert(e =~= fixed + w);
    reveal_strlit("cmd");
    reveal_strlit("powershell");
    reveal_strlit("powershell-admin");
    reveal_strlit("pwsh");
    reveal_strlit("wsl:");
    assert forall|i: int| 0 <= i < e.len() implies (#[trigger] e[i]).elevated == (e[i].id
        == "powershell-admin"@) by {
        if i < fixed.len() {
            assert(e[i] == fixed[i]);
            if fixed[i].id == "powershell-admin"@ {
                assert(fixed[i].id.len() == 16);
            }
        } else {
            let k = i - fixed.len();
            assert(e[i] == w[k]);
            assert(w[k].id[0] == 'w');
            assert("powershell-admin"@[0] == 'p');
        }
    }
}

/// Each profile starts the executable that was found for its shell: a
/// Command Prompt, Windows PowerShell or PowerShell 7 profile runs the path
/// found for that shell, and a WSL profile runs the `wsl.exe` that was found,
/// for one of the distributions found. So no profile appears for a shell
/// that is not installed.
pub proof fn lemma_profiles_run_what_was_found(found: Installed)
    ensures
        forall|i: int|
            0 <= i < expected_profiles(found).len() ==> {
                let p = #[trigger] expected_profiles(found)[i];
                match p.kind {
                    SessionKind::Cmd => found.cmd matches Some(c) && p.program == c@,
                    SessionKind::PowerShell => found.powershell matches Some(c) && p.program == c@,
                    SessionKind::Pwsh => found.pwsh matches Some(c) && p.program == c@,
                    SessionKind::Wsl { distro } => found.wsl matches Some(c) && p.program == c@
                        && found.distros@.contains(distro),
                    _ => false,
                }
            },
{
    let e = expected_profiles(found);
    let fixed = cmd_part(found) + powershell_part(found) + pwsh_part(found);
    let w = wsl_part(found);
    assert(e =~= fixed + w);
    assert forall|i: int| 0 <= i < e.len() implies {
        let p = #[trigger] e[i];
        match p.kind {
            SessionKind::Cmd => found.cmd matches Some(c) && p.program == c@,
            SessionKind::PowerShell => found.powershell matches Some(c) && p.program == c@,
            SessionKind::Pwsh => found.pwsh matches Some(c) && p.program == c@,
            SessionKind::Wsl { distro } => found.wsl matches Some(c) && p.program == c@
                && found.distros@.contains(distro),
            _ => false,
        }
    } by {
        if i < fixed.len() {
            assert(e[i] == fixed[i]);
            let a = cmd_part(found);
            let b = powershell_part(found);
            if i < a.len() {
                assert(fixed[i] == a[i]);
            } else if i < a.len() + b.len() {
                assert(fixed[i] == b[i - a.len()]);
            } else {
                assert(fixed[i] == pwsh_part(found)[i - a.len() - b.len()]);
            }
        } else {
            let k = i - fixed.len();
            assert(e[i] == w[k]);
            assert(found.distros@[k] == found.distros@[k]);
        }
    }
}

/// Every profile can be found again by its id, when ids are unique.
pub proof fn lemma_find_round_trips(v: Seq<ProfileView>, i: int)
    requires
        0 <= i < v.len(),
        forall|a: int, b: int| 0 <= a < b < v.len() ==> (#[trigger] v[a]).id != (#[trigger] v[b]).id,
    ensures
        position_of_id(v, v[i].id) == Some(i),
{
    let id = v[i].id;
    assert(forall|j: int| 0 <= j < i ==> (#[trigger] v[j]).id != id);
    let f = choose|f: int|
        0 <= f < v.len() && v[f].id == id && forall|j: int| 0 <= j < f ==> (#[trigger] v[j]).id != id;
    if f < i {
        assert(v[f].id != v[i].id);
    }
    if f > i {
        assert(v[i].id != id);
    }
}

// ---------------------------------------------------------------------------
// WSL distributions
// ---------------------------------------------------------------------------

/// Strictly increasing, so nothing appears twice.
pub open spec fn strictly_sorted(s: Seq<Seq<char>>) -> bool {
    forall|i: int, j: int| 0 <= i < j < s.len() ==> seq_lt(#[trigger] s[i], #[trigger] s[j])
}

/// The distribution names to offer, from what the registry lists: sorted and
/// without duplicates. Registry enumeration order is not meaningful, and the
/// menu should not reshuffle between runs.
pub fn wsl_distros(found: Vec<String>) -> (r: Vec<String>)
    ensures
        strictly_sorted(texts(r@)),
        texts(r@).to_set() == texts(found@).to_set(),
{
    let mut out: Vec<String> = Vec::new();
    let mut i: usize = 0;
    while i < found.len()
        invariant
            i <= found@.len(),
            strictly_sorted(texts(out@)),
            texts(out@).to_set() == texts(found@.take(i as int)).to_set(),
        decreases found@.len() - i,
    {
        let name = &found[i];
        let ghost o = texts(out@);
        // Where `name` goes: after everything smaller.
        let mut k: usize = 0;
        while k < out.len() && str_lt(out[k].as_str(), name.as_str())
            invariant
                k <= out@.len(),
                o == texts(out@),
                forall|j: int| 0 <= j < k ==> seq_lt(#[trigger] o[j], name@),
            decreases out@.len() - k,
        {
            k = k + 1;
        }
        proof {
            assert(texts(found@.take(i + 1)) =~= texts(found@.take(i as int)).push(name@));
            assert(texts(found@.take(i + 1)).to_set() =~= texts(found@.take(i as int)).to_set().insert(
                name@,
            )) by {
                texts(found@.take(i as int)).lemma_push_to_set_commute(name@);
            }
        }
        if k < out.len() && str_eq(out[k].as_str(), name.as_str()) {
            proof {
                assert(o.contains(name@)) by {
                    assert(o[k as int] == name@);
                }
                assert(o.to_set().insert(name@) =~= o.to_set());
            }
        } else {
            proof {
                if k < o.len() {
                    lemma_lt_total(o[k as int], name@);
                }
            }
            out.insert(k, name.clone());
            proof {
                let n = texts(out@);
                assert(n =~= o.insert(k as int, name@));
                assert forall|a: int, b: int| 0 <= a < b < n.len() implies seq_lt(
                    #[trigger] n[a],
                    #[trigger] n[b],
                ) by {
                    if b == k {
                        assert(n[a] == o[a]);
                    } else if a == k {
                        assert(n[b] == o[b - 1]);
                        if b - 1 > k {
                            lemma_lt_transitive(name@, o[k as int], o[b - 1]);
                        }
                    } else {
                        let oa = if a < k { a } else { a - 1 };
                        let ob = if b < k { b } else { b - 1 };
                        assert(n[a] == o[oa] && n[b] == o[ob]);
                    }
                }
                assert forall|x: Seq<char>| #[trigger] n.to_set().contains(x) <==> o.to_set().insert(
                    name@,
                ).contains(x) by {
                    if n.contains(x) {
                        let j = choose|j: int| 0 <= j < n.len() && n[j] == x;
                        if j != k {
                            let oj = if j < k { j } else { j - 1 };
                            assert(o[oj] == x);
                        }
                    }
                    if o.contains(x) {
                        let j = choose|j: int| 0 <= j < o.len() && o[j] == x;
                        let nj = if j < k { j } else { j + 1 };
                        assert(n[nj] == x);
                    }
                    if x == name@ {
                        assert(n[k as int] == x);
                    }
                }
                assert(n.to_set() =~= o.to_set().insert(name@));
            }
        }
        i = i + 1;
    }
    assert(found@.take(i as int) =~= found@);
    out
}

} // verus!
