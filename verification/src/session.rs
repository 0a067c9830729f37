//! The session abstraction.
//!
//! A session is deliberately minimal: bytes in, bytes out, a size, and a way to
//! die. Anything richer (shell detection, credentials, elevation) is handled by
//! whoever *constructs* the session, not by this interface.
use vstd::prelude::*;

use crate::text::{decimal, push_char, push_decimal, push_str};
use crate::Error;

verus! {

/// Opaque, stable identifier for a live session.
#[derive(Debug, Clone, Copy, PartialEq, Eq, Structural, Hash, PartialOrd, Ord)]
pub struct SessionId(pub u64);

/// Where fresh session ids come from.
///
/// Ids are handed out in increasing order, starting at 1, so every session a
/// process opens gets its own. The counter wraps at `u64::MAX`, as an atomic
/// `fetch_add` does.
#[derive(Debug)]
pub struct SessionIdSource {
    next: u64,
}

impl SessionIdSource {
    /// The id the next call of [`SessionId::next`] hands out.
    pub closed spec fn upcoming(&self) -> u64 {
        self.next
    }

    /// A source whose first id is 1.
    pub fn new() -> (r: Self)
        ensures
            r.upcoming() == 1,
    {
        SessionIdSource { next: 1 }
    }
}

impl SessionId {
    /// Allocate the next id from `source`.
    pub fn next(source: &mut SessionIdSource) -> (id: SessionId)
        ensures
            id.0 == old(source).upcoming(),
            final(source).upcoming() == following(old(source).upcoming()),
    {
        let id = source.next;
        source.next = source.next.wrapping_add(1);
        SessionId(id)
    }

    /// `#` and the number, as the id is shown in messages.
    pub fn display(&self) -> (s: String)
        ensures
            s@ == display_id(*self),
    {
        let mut s = String::new();
        push_char(&mut s, '#');
        push_decimal(&mut s, self.0);
        s
    }
}

/// `#` and the number, as an id is shown in messages.
pub open spec fn display_id(id: SessionId) -> Seq<char> {
    seq!['#'] + decimal(id.0 as nat)
}

/// The counter value after `u` has been handed out.
pub open spec fn following(u: u64) -> u64 {
    if u == u64::MAX {
        0
    } else {
        (u + 1) as u64
    }
}

/// Ids drawn one after another from the same source keep increasing: the id
/// handed out `k` draws after one holding `u` is `u + k`, unless the counter
/// reaches the end of its range on the way.
pub proof fn lemma_ids_increase(u: u64, k: nat)
    requires
        u + k <= u64::MAX,
    ensures
        draws_after(u, k) == u + k,
        k > 0 ==> draws_after(u, k) > u,
    decreases k,
{
    if k > 0 {
        lemma_ids_increase(u, (k - 1) as nat);
    }
}

/// The counter after `k` draws starting from `u`.
pub open spec fn draws_after(u: u64, k: nat) -> u64
    decreases k,
{
    if k == 0 {
        u
    } else {
        following(draws_after(u, (k - 1) as nat))
    }
}

/// What kind of terminal a session is backed by.
///
/// This is metadata for the sidebar — it deliberately does not change how the
/// session is *driven*, only how it is presented and created.
#[derive(Debug, Clone, PartialEq, Eq)]
pub enum SessionKind {
    Cmd,
    PowerShell,
    Pwsh,
    Wsl { distro: String },
    Ssh { profile: String },
    Custom { label: String },
}

pub open spec fn wsl_prefix() -> Seq<char> {
    seq!['W', 'S', 'L', ' ', '\u{b7}', ' ']
}

pub open spec fn ssh_prefix() -> Seq<char> {
    seq!['S', 'S', 'H', ' ', '\u{b7}', ' ']
}

impl SessionKind {
    /// The sidebar label of this kind.
    pub open spec fn label_view(&self) -> Seq<char> {
        match self {
            SessionKind::Cmd => seq![
                'C',
                'o',
                'm',
                'm',
                'a',
                'n',
                'd',
                ' ',
                'P',
                'r',
                'o',
                'm',
                'p',
                't',
            ],
            SessionKind::PowerShell => seq!['P', 'o', 'w', 'e', 'r', 'S', 'h', 'e', 'l', 'l'],
            SessionKind::Pwsh => seq!['P', 'o', 'w', 'e', 'r', 'S', 'h', 'e', 'l', 'l', ' ', '7'],
            SessionKind::Wsl { distro } => wsl_prefix() + distro@,
            SessionKind::Ssh { profile } => ssh_prefix() + profile@,
            SessionKind::Custom { label } => label@,
        }
    }

    /// Short label for the sidebar.
    pub fn label(&self) -> (r: String)
        ensures
            r@ == self.label_view(),
    {
        let mut out = String::new();
        match self {
            SessionKind::Cmd => {
                let lit = "Command Prompt";
                proof {
                    reveal_strlit("Command Prompt");
                }
                push_str(&mut out, lit);
            },
            SessionKind::PowerShell => {
                let lit = "PowerShell";
                proof {
                    reveal_strlit("PowerShell");
                }
                push_str(&mut out, lit);
            },
            SessionKind::Pwsh => {
                let lit = "PowerShell 7";
                proof {
                    reveal_strlit("PowerShell 7");
                }
                push_str(&mut out, lit);
            },
            SessionKind::Wsl { distro } => {
                let lit = "WSL \u{b7} ";
                proof {
                    reveal_strlit("WSL \u{b7} ");
                }
                push_str(&mut out, lit);
                push_str(&mut out, distro.as_str());
            },
            SessionKind::Ssh { profile } => {
                let lit = "SSH \u{b7} ";
                proof {
                    reveal_strlit("SSH \u{b7} ");
                }
                push_str(&mut out, lit);
                push_str(&mut out, profile.as_str());
            },
            SessionKind::Custom { label } => {
                push_str(&mut out, label.as_str());
            },
        }
        assert(out@ =~= self.label_view());
        out
    }

    /// A copy of this kind.
    pub fn duplicate(&self) -> (r: Self)
        ensures
            r == *self,
    {
        match self {
            SessionKind::Cmd => SessionKind::Cmd,
            SessionKind::PowerShell => SessionKind::PowerShell,
            SessionKind::Pwsh => SessionKind::Pwsh,
            SessionKind::Wsl { distro } => SessionKind::Wsl { distro: distro.clone() },
            SessionKind::Ssh { profile } => SessionKind::Ssh { profile: profile.clone() },
            SessionKind::Custom { label } => SessionKind::Custom { label: label.clone() },
        }
    }
}

/// A live terminal session.
///
/// Output is *pushed* to a subscriber rather than polled, so the transport can
/// coalesce writes before they cross the IPC boundary.
pub trait Session: Send {
    /// The id this session was created with.
    spec fn id_view(&self) -> SessionId;

    /// What kind of shell this session runs.
    spec fn kind_view(&self) -> SessionKind;

    /// Whether this session runs at high integrity.
    spec fn elevated_view(&self) -> bool;

    fn id(&self) -> (r: SessionId)
        ensures
            r == self.id_view(),
    ;

    fn kind(&self) -> (r: &SessionKind)
        ensures
            *r == self.kind_view(),
    ;

    /// Whether this session runs at high integrity.
    fn elevated(&self) -> (r: bool)
        ensures
            r == self.elevated_view(),
    ;

    /// Send user input toward the terminal.
    fn write(&mut self, data: &[u8]) -> Result<(), Error>;

    /// Inform the terminal of a new viewport size.
    fn resize(&mut self, cols: u16, rows: u16) -> Result<(), Error>;

    /// Terminate the session and everything it spawned.
    fn kill(&mut self) -> Result<(), Error>;
}

} // verus!
