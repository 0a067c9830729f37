//! SSH sessions: what a connection is configured with, how a failure is
//! reported, and the decisions taken while connecting.
//!
//! The connection itself (`russh`, on a thread running its own small runtime)
//! belongs to the application; what is decided along the way — whether a host
//! key is accepted, how each failure is worded and classified, which private
//! keys are offered and in what order — is here.
use vstd::prelude::*;

use crate::connections::opt_view;
use crate::known_hosts::{key_for_spec, verdict_matches, KnownHosts, Verdict};
use crate::text::{contains, contains_seq, decimal, ends_with, ends_with_seq, push_char, push_decimal, push_str, str_eq};

verus! {

/// How to prove who we are.
///
/// Tagged rather than "password plus optional key path" so impossible states —
/// a key auth carrying a password, say — cannot be represented.
#[derive(Debug, Clone)]
pub enum SshAuth {
    Password { password: String },
    Key {
        /// Path to the *private* key.
        path: String,
        /// Empty when the key is not encrypted.
        passphrase: String,
    },
}

impl SshAuth {
    pub fn is_key(&self) -> (r: bool)
        ensures
            r == (self is Key),
    {
        match self {
            SshAuth::Key { .. } => true,
            SshAuth::Password { .. } => false,
        }
    }

    /// The secret this auth carries: the password, or the key's passphrase.
    pub open spec fn secret_view(&self) -> Seq<char> {
        match self {
            SshAuth::Password { password } => password@,
            SshAuth::Key { passphrase, .. } => passphrase@,
        }
    }

    /// The secret this auth carries: the password, or the key's passphrase.
    pub fn secret(&self) -> (r: &String)
        ensures
            r@ == self.secret_view(),
    {
        match self {
            SshAuth::Password { password } => password,
            SshAuth::Key { passphrase, .. } => passphrase,
        }
    }

    /// A copy of this auth.
    pub fn duplicate(&self) -> (r: Self)
        ensures
            r == *self,
    {
        match self {
            SshAuth::Password { password } => SshAuth::Password { password: password.clone() },
            SshAuth::Key { path, passphrase } => SshAuth::Key {
                path: path.clone(),
                passphrase: passphrase.clone(),
            },
        }
    }
}

#[derive(Debug, Clone)]
pub struct SshOptions {
    pub host: String,
    pub port: u16,
    pub username: String,
    pub auth: SshAuth,
    pub cols: u16,
    pub rows: u16,
    /// Accept and remember whatever key the server presents.
    ///
    /// Only ever set after a human has been shown the fingerprint and agreed.
    pub trust_new_key: bool,
}

/// `user@host`.
pub open spec fn user_at_host(username: Seq<char>, host: Seq<char>) -> Seq<char> {
    username + seq!['@'] + host
}

impl SshOptions {
    /// `user@host`, the name the tab is given.
    pub fn label(&self) -> (r: String)
        ensures
            r@ == user_at_host(self.username@, self.host@),
    {
        let mut r = String::new();
        push_str(&mut r, self.username.as_str());
        push_char(&mut r, '@');
        push_str(&mut r, self.host.as_str());
        assert(r@ =~= user_at_host(self.username@, self.host@));
        r
    }
}

/// A private key found in the user's `.ssh` directory.
#[derive(Debug, Clone)]
pub struct DiscoveredKey {
    pub path: String,
    /// Filename, for the picker.
    pub name: String,
    /// Encrypted keys need a passphrase, so the dialog can say so up front.
    pub encrypted: bool,
}

/// Why a connection attempt failed, in terms a user can act on.
///
/// Kept separate from the message text so the UI can treat a wrong password
/// differently from an unreachable host — the first means "try again", the
/// second means "check the address".
#[derive(Debug, Clone, Copy, PartialEq, Eq, Structural)]
pub enum SshFailure {
    /// Server rejected the credentials.
    Auth,
    /// Never got a usable connection: DNS, refused, timed out, not SSH.
    Unreachable,
    /// Connected and authenticated, but the shell could not be started.
    Session,
    /// First time seeing this host; the fingerprint needs confirming.
    UnknownHostKey,
    /// The host key differs from the one previously trusted.
    HostKeyChanged,
}

#[derive(Debug, Clone)]
pub struct SshError {
    pub kind: SshFailure,
    pub message: String,
    /// The key the server actually presented, for the host-key prompt.
    pub fingerprint: Option<String>,
    /// The key we had previously trusted, when it changed.
    pub expected_fingerprint: Option<String>,
}

impl SshError {
    /// An error of this kind with this message and no fingerprints.
    pub fn new(kind: SshFailure, message: String) -> (r: Self)
        ensures
            r.kind == kind,
            r.message@ == message@,
            r.fingerprint is None,
            r.expected_fingerprint is None,
    {
        SshError { kind, message, fingerprint: None, expected_fingerprint: None }
    }
}


// ---------------------------------------------------------------------------
// Connecting
// ---------------------------------------------------------------------------

/// Seconds to wait for the TCP connection itself.
///
/// Deliberately short, and checked before any SSH work happens. The everyday
/// failure is a saved device that is off, asleep, or on another network, and
/// such a host *swallows* the SYN rather than refusing it, so Windows would
/// otherwise retry for ~20s before admitting defeat.
pub const REACH_TIMEOUT_SECS: u64 = 5;

/// Seconds the SSH handshake (banner exchange plus key exchange) may take once
/// the socket is up. Generous: this is a live host doing real work.
pub const HANDSHAKE_TIMEOUT_SECS: u64 = 15;

/// Seconds authentication may take. Without this a server that completes the
/// handshake and then goes quiet would hold the tab on "Connecting…".
pub const AUTH_TIMEOUT_SECS: u64 = 20;

/// Seconds of silence after which russh drops an idle connection.
pub const INACTIVITY_TIMEOUT_SECS: u64 = 3600;

/// What the host-key check saw: the presented key and what the store said.
#[derive(Debug, Clone)]
pub struct HostKeyOutcome {
    pub fingerprint: String,
    pub verdict: Verdict,
}

/// The answer to a presented host key.
#[derive(Debug, Clone)]
pub struct HostKeyCheck {
    /// Whether the handshake may go on.
    pub accept: bool,
    /// Whether the store was changed and needs saving.
    pub trusted: bool,
    /// Recorded so a refusal can be explained afterwards.
    pub outcome: HostKeyOutcome,
}

/// The trust-on-first-use policy.
///
/// A key the store already has for this host and port is accepted. Any other
/// key is accepted only when the user has already been shown its fingerprint
/// and agreed (`trust_new_key`), and is then recorded in `known`. Otherwise it
/// is refused, and the outcome says which case this was.
pub fn check_server_key(
    known: &mut KnownHosts,
    host: &str,
    port: u16,
    fingerprint: &str,
    trust_new_key: bool,
) -> (r: HostKeyCheck)
    requires
        old(known).wf(),
    ensures
        final(known).wf(),
        verdict_matches(r.outcome.verdict, old(known)@, key_for_spec(host@, port), fingerprint@),
        r.outcome.fingerprint@ == fingerprint@,
        r.accept == (r.outcome.verdict is Match || trust_new_key),
        r.trusted == (!(r.outcome.verdict is Match) && trust_new_key),
        r.trusted ==> final(known)@ == old(known)@.insert(key_for_spec(host@, port), fingerprint@),
        !r.trusted ==> final(known)@ == old(known)@,
{
    let verdict = known.verdict(host, port, fingerprint);
    let matched = match verdict {
        Verdict::Match => true,
        _ => false,
    };
    let trusted = !matched && trust_new_key;
    if trusted {
        known.trust(host, port, fingerprint);
    }
    HostKeyCheck {
        accept: matched || trust_new_key,
        trusted,
        outcome: HostKeyOutcome { fingerprint: fingerprint.to_owned(), verdict },
    }
}

/// How a connection attempt went wrong, as the connecting code saw it. Each
/// `reason` is the underlying error's own text.
#[derive(Debug, Clone)]
pub enum Attempt {
    /// The TCP connection was refused, had no route, or the name did not
    /// resolve.
    ReachFailed { reason: String },
    /// Nothing answered within [`REACH_TIMEOUT_SECS`].
    ReachTimedOut,
    /// The socket opened but the handshake failed; `seen` is what the
    /// host-key check recorded, if it ran.
    HandshakeFailed { seen: Option<HostKeyOutcome>, reason: String },
    /// The handshake took longer than [`HANDSHAKE_TIMEOUT_SECS`].
    HandshakeTimedOut,
    /// The private key could not be loaded.
    KeyUnreadable { reason: String },
    /// The authentication call itself failed.
    AuthFailed { reason: String },
    /// Authentication took longer than [`AUTH_TIMEOUT_SECS`].
    AuthTimedOut,
    /// The server said no to these credentials.
    AuthRejected,
    /// A session channel could not be opened.
    SessionRefused { reason: String },
    /// The server refused a terminal.
    PtyRefused { reason: String },
    /// The server refused a shell.
    ShellRefused { reason: String },
    /// The runtime that drives the connection could not start.
    RuntimeFailed { reason: String },
    /// The worker ended without reporting a result.
    WorkerStopped,
}

/// `host:port`.
pub open spec fn host_port(host: Seq<char>, port: u16) -> Seq<char> {
    host + seq![':'] + decimal(port as nat)
}

/// The private key path of a key auth; empty for a password.
pub open spec fn key_path_text(auth: SshAuth) -> Seq<char> {
    match auth {
        SshAuth::Key { path, .. } => path@,
        SshAuth::Password { .. } => Seq::empty(),
    }
}

/// Whether a passphrase will be offered when loading the key.
pub open spec fn has_passphrase(auth: SshAuth) -> bool {
    match auth {
        SshAuth::Key { passphrase, .. } => passphrase@.len() != 0,
        SshAuth::Password { .. } => false,
    }
}

/// The kind of failure each attempt is reported as.
pub open spec fn attempt_kind(a: Attempt) -> SshFailure {
    match a {
        Attempt::ReachFailed { .. } | Attempt::ReachTimedOut | Attempt::HandshakeTimedOut => SshFailure::Unreachable,
        Attempt::HandshakeFailed { seen, .. } => match seen {
            Some(o) => match o.verdict {
                Verdict::Unknown => SshFailure::UnknownHostKey,
                Verdict::Changed { .. } => SshFailure::HostKeyChanged,
                Verdict::Match => SshFailure::Unreachable,
            },
            None => SshFailure::Unreachable,
        },
        Attempt::KeyUnreadable { .. } | Attempt::AuthFailed { .. } | Attempt::AuthTimedOut
        | Attempt::AuthRejected => SshFailure::Auth,
        Attempt::SessionRefused { .. } | Attempt::PtyRefused { .. } | Attempt::ShellRefused { .. }
        | Attempt::RuntimeFailed { .. } | Attempt::WorkerStopped => SshFailure::Session,
    }
}

/// The attempt never got a usable SSH connection, and no host key verdict
/// stood in the way: the address, the network or the port is to blame.
pub open spec fn never_reached(a: Attempt) -> bool {
    ||| a is ReachFailed
    ||| a is ReachTimedOut
    ||| a is HandshakeTimedOut
    ||| a matches Attempt::HandshakeFailed { seen: None, .. }
    ||| a matches Attempt::HandshakeFailed { seen: Some(o), .. } && o.verdict is Match
}

/// The connection stood and the login failed: the credentials are to blame.
pub open spec fn login_failed(a: Attempt) -> bool {
    ||| a is KeyUnreadable
    ||| a is AuthFailed
    ||| a is AuthTimedOut
    ||| a is AuthRejected
}

/// Logged in, but no shell could be had.
pub open spec fn shell_failed(a: Attempt) -> bool {
    ||| a is SessionRefused
    ||| a is PtyRefused
    ||| a is ShellRefused
    ||| a is RuntimeFailed
    ||| a is WorkerStopped
}

/// Every failed attempt is classified by the stage it failed at, so the
/// dialog says the right thing: a failure to reach the host (refused, no
/// route, timed out, or a handshake that failed without a host key verdict)
/// is `Unreachable`, "check the address", never a credential problem; a
/// failed or timed-out login, or an unreadable key, is `Auth`, "try again";
/// a refused session, terminal or shell is `Session`; and only a host key
/// verdict gives `UnknownHostKey` (a key not seen before) or
/// `HostKeyChanged` (a key that differs from the trusted one).
pub proof fn lemma_failures_are_classified_by_stage(a: Attempt)
    ensures
        never_reached(a) ==> attempt_kind(a) == SshFailure::Unreachable,
        login_failed(a) ==> attempt_kind(a) == SshFailure::Auth,
        shell_failed(a) ==> attempt_kind(a) == SshFailure::Session,
        (attempt_kind(a) == SshFailure::UnknownHostKey) == (a matches Attempt::HandshakeFailed {
            seen: Some(o),
            ..
        } && o.verdict is Unknown),
        (attempt_kind(a) == SshFailure::HostKeyChanged) == (a matches Attempt::HandshakeFailed {
            seen: Some(o),
            ..
        } && o.verdict is Changed),
        never_reached(a) || login_failed(a) || shell_failed(a) || a is HandshakeFailed,
{
}

/// The message each attempt is reported with.
pub open spec fn attempt_message(o: SshOptions, a: Attempt) -> Seq<char> {
    let at = host_port(o.host@, o.port);
    let who = user_at_host(o.username@, o.host@);
    match a {
        Attempt::ReachFailed { reason } => "could not reach "@ + at + " — "@ + reason@,
        Attempt::ReachTimedOut => at + " did not answer within "@ + decimal(REACH_TIMEOUT_SECS as nat)
            + "s — the device is off, on another network, or blocked by a firewall"@,
        Attempt::HandshakeFailed { seen, reason } => match seen {
            Some(s) => match s.verdict {
                Verdict::Unknown => at + " presented a host key Shaman has not seen before."@,
                Verdict::Changed { .. } => "The host key for "@ + at
                    + " has CHANGED. This happens when a server is rebuilt — but it is also what an impersonation attack looks like. Do not continue unless you know why it changed."@,
                Verdict::Match => at + " accepted the connection but the SSH handshake failed — "@
                    + reason@,
            },
            None => at + " accepted the connection but the SSH handshake failed — "@ + reason@,
        },
        Attempt::HandshakeTimedOut => at
            + " accepted the connection but never completed the SSH handshake (waited "@ + decimal(
            HANDSHAKE_TIMEOUT_SECS as nat,
        ) + "s) — check that the port really is SSH"@,
        Attempt::KeyUnreadable { reason } => "could not read the private key "@ + key_path_text(
            o.auth,
        ) + ": "@ + reason@ + if has_passphrase(o.auth) {
            " — check the passphrase"@
        } else {
            " — if the key is encrypted, enter its passphrase"@
        },
        Attempt::AuthFailed { reason } => "authentication failed: "@ + reason@,
        Attempt::AuthTimedOut => who + " never answered the login attempt (waited "@ + decimal(
            AUTH_TIMEOUT_SECS as nat,
        ) + "s)"@,
        Attempt::AuthRejected => "authentication failed for "@ + who + " — "@ + match o.auth {
            SshAuth::Password { .. } => "check the username and password"@,
            SshAuth::Key { .. } => "the server rejected this key for that user"@,
        },
        Attempt::SessionRefused { reason } => "connected, but could not open a session: "@ + reason@,
        Attempt::PtyRefused { reason } => "the server refused a terminal: "@ + reason@,
        Attempt::ShellRefused { reason } => "the server refused a shell: "@ + reason@,
        Attempt::RuntimeFailed { reason } => "could not start the SSH runtime: "@ + reason@,
        Attempt::WorkerStopped => "the SSH worker stopped before reporting a result"@,
    }
}

/// The fingerprint shown with each attempt: the presented key, for a host
/// key that is unknown or changed.
pub open spec fn attempt_fingerprint(a: Attempt) -> Option<Seq<char>> {
    match a {
        Attempt::HandshakeFailed { seen: Some(s), .. } => match s.verdict {
            Verdict::Match => None,
            _ => Some(s.fingerprint@),
        },
        _ => None,
    }
}

/// The previously trusted fingerprint, for a host key that changed.
pub open spec fn attempt_expected(a: Attempt) -> Option<Seq<char>> {
    match a {
        Attempt::HandshakeFailed { seen: Some(s), .. } => match s.verdict {
            Verdict::Changed { expected } => Some(expected@),
            _ => None,
        },
        _ => None,
    }
}

fn push_host_port(out: &mut String, host: &str, port: u16)
    ensures
        final(out)@ == old(out)@ + host_port(host@, port),
{
    push_str(out, host);
    push_char(out, ':');
    push_decimal(out, port as u64);
    assert(final(out)@ =~= old(out)@ + host_port(host@, port));
}

fn push_user_at_host(out: &mut String, username: &str, host: &str)
    ensures
        final(out)@ == old(out)@ + user_at_host(username@, host@),
{
    push_str(out, username);
    push_char(out, '@');
    push_str(out, host);
    assert(final(out)@ =~= old(out)@ + user_at_host(username@, host@));
}

/// The error a failed connection attempt is reported as: what kind of failure
/// it is, in words the user can act on, with the fingerprints the host-key
/// prompt needs.
///
/// A rejected host key surfaces from the handshake as an ordinary connection
/// error, so what the host-key check recorded decides between "unknown key",
/// "changed key" and a plain handshake failure. The socket having opened means
/// the address is right, so a handshake failure is never blamed on the
/// network alone.
pub fn attempt_error(opts: &SshOptions, attempt: Attempt) -> (e: SshError)
    ensures
        e.kind == attempt_kind(attempt),
        never_reached(attempt) ==> e.kind == SshFailure::Unreachable,
        login_failed(attempt) ==> e.kind == SshFailure::Auth,
        shell_failed(attempt) ==> e.kind == SshFailure::Session,
        (e.kind == SshFailure::UnknownHostKey) == (attempt matches Attempt::HandshakeFailed {
            seen: Some(o),
            ..
        } && o.verdict is Unknown),
        (e.kind == SshFailure::HostKeyChanged) == (attempt matches Attempt::HandshakeFailed {
            seen: Some(o),
            ..
        } && o.verdict is Changed),
        e.message@ == attempt_message(*opts, attempt),
        opt_view(e.fingerprint) == attempt_fingerprint(attempt),
        opt_view(e.expected_fingerprint) == attempt_expected(attempt),
{
    let host = opts.host.as_str();
    let port = opts.port;
    let mut m = String::new();
    let ghost a = attempt;
    match attempt {
        Attempt::ReachFailed { reason } => {
            push_str(&mut m, "could not reach ");
            push_host_port(&mut m, host, port);
            push_str(&mut m, " — ");
            push_str(&mut m, reason.as_str());
            assert(m@ =~= attempt_message(*opts, a));
            SshError::new(SshFailure::Unreachable, m)
        },
        Attempt::ReachTimedOut => {
            push_host_port(&mut m, host, port);
            push_str(&mut m, " did not answer within ");
            push_decimal(&mut m, REACH_TIMEOUT_SECS);
            push_str(&mut m, "s — the device is off, on another network, or blocked by a firewall");
            assert(m@ =~= attempt_message(*opts, a));
            SshError::new(SshFailure::Unreachable, m)
        },
        Attempt::HandshakeFailed { seen, reason } => {
            match seen {
                Some(HostKeyOutcome { fingerprint, verdict: Verdict::Unknown }) => {
                    push_host_port(&mut m, host, port);
                    push_str(&mut m, " presented a host key Shaman has not seen before.");
                    assert(m@ =~= attempt_message(*opts, a));
                    SshError {
                        kind: SshFailure::UnknownHostKey,
                        message: m,
                        fingerprint: Some(fingerprint),
                        expected_fingerprint: None,
                    }
                },
                Some(HostKeyOutcome { fingerprint, verdict: Verdict::Changed { expected } }) => {
                    push_str(&mut m, "The host key for ");
                    push_host_port(&mut m, host, port);
                    push_str(
                        &mut m,
                        " has CHANGED. This happens when a server is rebuilt — but it is also what an impersonation attack looks like. Do not continue unless you know why it changed.",
                    );
                    assert(m@ =~= attempt_message(*opts, a));
                    SshError {
                        kind: SshFailure::HostKeyChanged,
                        message: m,
                        fingerprint: Some(fingerprint),
                        expected_fingerprint: Some(expected),
                    }
                },
                _ => {
                    push_host_port(&mut m, host, port);
                    push_str(&mut m, " accepted the connection but the SSH handshake failed — ");
                    push_str(&mut m, reason.as_str());
                    assert(m@ =~= attempt_message(*opts, a));
                    SshError::new(SshFailure::Unreachable, m)
                },
            }
        },
        Attempt::HandshakeTimedOut => {
            push_host_port(&mut m, host, port);
            push_str(&mut m, " accepted the connection but never completed the SSH handshake (waited ");
            push_decimal(&mut m, HANDSHAKE_TIMEOUT_SECS);
            push_str(&mut m, "s) — check that the port really is SSH");
            assert(m@ =~= attempt_message(*opts, a));
            SshError::new(SshFailure::Unreachable, m)
        },
        Attempt::KeyUnreadable { reason } => {
            push_str(&mut m, "could not read the private key ");
            let given = match &opts.auth {
                SshAuth::Key { path, passphrase } => {
                    push_str(&mut m, path.as_str());
                    !passphrase.as_str().is_empty()
                },
                SshAuth::Password { .. } => false,
            };
            push_str(&mut m, ": ");
            push_str(&mut m, reason.as_str());
            if given {
                push_str(&mut m, " — check the passphrase");
            } else {
                push_str(&mut m, " — if the key is encrypted, enter its passphrase");
            }
            assert(m@ =~= attempt_message(*opts, a));
            SshError::new(SshFailure::Auth, m)
        },
        Attempt::AuthFailed { reason } => {
            push_str(&mut m, "authentication failed: ");
            push_str(&mut m, reason.as_str());
            assert(m@ =~= attempt_message(*opts, a));
            SshError::new(SshFailure::Auth, m)
        },
        Attempt::AuthTimedOut => {
            push_user_at_host(&mut m, opts.username.as_str(), host);
            push_str(&mut m, " never answered the login attempt (waited ");
            push_decimal(&mut m, AUTH_TIMEOUT_SECS);
            push_str(&mut m, "s)");
            assert(m@ =~= attempt_message(*opts, a));
            SshError::new(SshFailure::Auth, m)
        },
        Attempt::AuthRejected => {
            push_str(&mut m, "authentication failed for ");
            push_user_at_host(&mut m, opts.username.as_str(), host);
            push_str(&mut m, " — ");
            match &opts.auth {
                SshAuth::Password { .. } => push_str(&mut m, "check the username and password"),
                SshAuth::Key { .. } => push_str(&mut m, "the server rejected this key for that user"),
            }
            assert(m@ =~= attempt_message(*opts, a));
            SshError::new(SshFailure::Auth, m)
        },
        Attempt::SessionRefused { reason } => {
            push_str(&mut m, "connected, but could not open a session: ");
            push_str(&mut m, reason.as_str());
            assert(m@ =~= attempt_message(*opts, a));
            SshError::new(SshFailure::Session, m)
        },
        Attempt::PtyRefused { reason } => {
            push_str(&mut m, "the server refused a terminal: ");
            push_str(&mut m, reason.as_str());
            assert(m@ =~= attempt_message(*opts, a));
            SshError::new(SshFailure::Session, m)
        },
        Attempt::ShellRefused { reason } => {
            push_str(&mut m, "the server refused a shell: ");
            push_str(&mut m, reason.as_str());
            assert(m@ =~= attempt_message(*opts, a));
            SshError::new(SshFailure::Session, m)
        },
        Attempt::RuntimeFailed { reason } => {
            push_str(&mut m, "could not start the SSH runtime: ");
            push_str(&mut m, reason.as_str());
            assert(m@ =~= attempt_message(*opts, a));
            SshError::new(SshFailure::Session, m)
        },
        Attempt::WorkerStopped => {
            push_str(&mut m, "the SSH worker stopped before reporting a result");
            assert(m@ =~= attempt_message(*opts, a));
            SshError::new(SshFailure::Session, m)
        },
    }
}


// ---------------------------------------------------------------------------
// Key discovery
// ---------------------------------------------------------------------------

/// What probing a private key file without a passphrase finds.
#[derive(Debug, Clone, Copy, PartialEq, Eq)]
pub enum KeyProbe {
    /// It decodes as it is.
    Opens,
    /// It is a private key, but encrypted: a passphrase is needed.
    NeedsPassphrase,
    /// It does not decode as a private key.
    Unreadable,
}

/// What russh makes of this private key text when given no passphrase.
pub uninterp spec fn key_probe(text: Seq<char>) -> KeyProbe;

/// `russh::keys::decode_secret_key(text, None)`, read three ways: it decoded,
/// it failed with `KeyIsEncrypted`, or it failed with any other error.
/// Decoding is a function of the text alone; which texts fall where (format,
/// cipher, key type) is left to russh and named, not stated.
#[verifier::external_body]
fn probe_key(text: &str) -> (r: KeyProbe)
    ensures
        r == key_probe(text@),
{
    match russh::keys::decode_secret_key(text, None) {
        Ok(_) => KeyProbe::Opens,
        Err(russh::keys::Error::KeyIsEncrypted) => KeyProbe::NeedsPassphrase,
        Err(_) => KeyProbe::Unreadable,
    }
}

/// Files in `.ssh` that are never private keys: public halves and the
/// obvious non-keys.
pub open spec fn skipped_key_name(name: Seq<char>) -> bool {
    ends_with_seq(name, ".pub"@) || name == "known_hosts"@ || name == "config"@
}

/// Whether a file so named, holding this text, is offered in the picker.
pub open spec fn offered_key(name: Seq<char>, text: Seq<char>) -> bool {
    &&& !skipped_key_name(name)
    &&& contains_seq(text, "PRIVATE KEY"@)
    &&& key_probe(text) != KeyProbe::Unreadable
}

/// Which files are offered: only public halves (`.pub`), `known_hosts` and
/// `config` are passed over by name, whatever else they are called (an
/// `id_rsa` or a `work_ecdsa` included); of the rest, a file is offered
/// exactly when its text says `PRIVATE KEY` and russh can read it as a
/// key, with or without a passphrase.
pub proof fn lemma_offered_keys(name: Seq<char>, text: Seq<char>)
    ensures
        offered_key(name, text) == (!ends_with_seq(name, ".pub"@) && name != "known_hosts"@ && name
            != "config"@ && contains_seq(text, "PRIVATE KEY"@) && key_probe(text)
            != KeyProbe::Unreadable),
{
}

/// The picker entry for a file in `.ssh`, if it holds a private key.
///
/// Only files that actually parse as private keys are offered; listing a
/// `known_hosts`, a stray `.pub` or a damaged key in the picker would be worse
/// than useless. A key that russh reports as encrypted is marked so, so the
/// dialog can ask for its passphrase up front.
pub fn key_entry(path: String, name: String, text: &str) -> (r: Option<DiscoveredKey>)
    ensures
        ends_with_seq(name@, ".pub"@) || name@ == "known_hosts"@ || name@ == "config"@
            || !contains_seq(text@, "PRIVATE KEY"@) || key_probe(text@) == KeyProbe::Unreadable
            ==> r is None,
        !ends_with_seq(name@, ".pub"@) && name@ != "known_hosts"@ && name@ != "config"@
            && contains_seq(text@, "PRIVATE KEY"@) && key_probe(text@) != KeyProbe::Unreadable
            ==> (r matches Some(k) && k.path == path && k.name == name && k.encrypted == (key_probe(
            text@,
        ) == KeyProbe::NeedsPassphrase)),
        !offered_key(name@, text@) ==> r is None,
        offered_key(name@, text@) ==> r == Some(
            DiscoveredKey { path, name, encrypted: key_probe(text@) == KeyProbe::NeedsPassphrase },
        ),
{
    if ends_with(name.as_str(), ".pub") || str_eq(name.as_str(), "known_hosts") || str_eq(
        name.as_str(),
        "config",
    ) {
        return None;
    }
    if !contains(text, "PRIVATE KEY") {
        return None;
    }
    match probe_key(text) {
        KeyProbe::Opens => Some(DiscoveredKey { path, name, encrypted: false }),
        KeyProbe::NeedsPassphrase => Some(DiscoveredKey { path, name, encrypted: true }),
        KeyProbe::Unreadable => None,
    }
}

/// Where a key goes in the picker: ed25519 first (what modern hosts
/// prefer), then ecdsa, then rsa, then anything else.
pub open spec fn key_rank(name: Seq<char>) -> nat {
    if contains_seq(name, "ed25519"@) {
        0
    } else if contains_seq(name, "ecdsa"@) {
        1
    } else if contains_seq(name, "rsa"@) {
        2
    } else {
        3
    }
}

/// The keys of rank `r`, in their original order.
pub open spec fn keys_of_rank(s: Seq<DiscoveredKey>, r: nat) -> Seq<DiscoveredKey> {
    s.filter(|k: DiscoveredKey| key_rank(k.name@) == r)
}

/// `s` ordered by rank, keys of equal rank keeping their order.
pub open spec fn keys_in_order(s: Seq<DiscoveredKey>) -> Seq<DiscoveredKey> {
    keys_of_rank(s, 0) + keys_of_rank(s, 1) + keys_of_rank(s, 2) + keys_of_rank(s, 3)
}

fn rank_of(name: &str) -> (r: u8)
    ensures
        r == key_rank(name@),
{
    if contains(name, "ed25519") {
        0
    } else if contains(name, "ecdsa") {
        1
    } else if contains(name, "rsa") {
        2
    } else {
        3
    }
}

impl DiscoveredKey {
    /// A copy of this key.
    pub fn duplicate(&self) -> (r: Self)
        ensures
            r == *self,
    {
        DiscoveredKey { path: self.path.clone(), name: self.name.clone(), encrypted: self.encrypted }
    }
}

fn push_rank(out: &mut Vec<DiscoveredKey>, found: &Vec<DiscoveredKey>, rank: u8)
    ensures
        final(out)@ == old(out)@ + keys_of_rank(found@, rank as nat),
{
    let ghost p = |k: DiscoveredKey| key_rank(k.name@) == rank as nat;
    let ghost start = out@;
    let mut i: usize = 0;
    assert(found@.take(0) =~= Seq::<DiscoveredKey>::empty());
    assert(found@.take(0).filter(p) =~= Seq::<DiscoveredKey>::empty()) by {
        reveal_with_fuel(Seq::filter, 1);
    }
    while i < found.len()
        invariant
            i <= found@.len(),
            p == (|k: DiscoveredKey| key_rank(k.name@) == rank as nat),
            out@ == start + found@.take(i as int).filter(p),
            start == old(out)@,
        decreases found@.len() - i,
    {
        proof {
            found@.lemma_take_succ_push(i as int);
            found@.take(i as int).lemma_filter_push(found@[i as int], p);
        }
        if rank_of(found[i].name.as_str()) == rank {
            out.push(found[i].duplicate());
        }
        i = i + 1;
        assert(out@ =~= start + found@.take(i as int).filter(p));
    }
    assert(found@.take(i as int) =~= found@);
    assert(keys_of_rank(found@, rank as nat) == found@.filter(p));
}

/// Keys in picker order: by [`key_rank`], keys of equal rank in the order
/// they were found (a stable sort).
pub fn order_keys(found: Vec<DiscoveredKey>) -> (r: Vec<DiscoveredKey>)
    ensures
        r@ == keys_in_order(found@),
{
    let mut out: Vec<DiscoveredKey> = Vec::new();
    push_rank(&mut out, &found, 0);
    push_rank(&mut out, &found, 1);
    push_rank(&mut out, &found, 2);
    push_rank(&mut out, &found, 3);
    assert(out@ =~= keys_in_order(found@));
    out
}

/// Ordering keys neither loses nor duplicates one, and puts them in rank
/// order: every key comes before any key of a later rank.
pub proof fn lemma_keys_in_order_is_a_sort(s: Seq<DiscoveredKey>)
    ensures
        keys_in_order(s).to_multiset() == s.to_multiset(),
        forall|i: int, j: int|
            0 <= i < j < keys_in_order(s).len() ==> key_rank(#[trigger] keys_in_order(s)[i].name@)
                <= key_rank(#[trigger] keys_in_order(s)[j].name@),
    decreases s.len(),
{
    broadcast use vstd::seq_lib::lemma_multiset_commutative;

    let o = keys_in_order(s);
    let a = keys_of_rank(s, 0);
    let b = keys_of_rank(s, 1);
    let c = keys_of_rank(s, 2);
    let d = keys_of_rank(s, 3);
    assert forall|i: int| 0 <= i < o.len() implies key_rank(#[trigger] o[i].name@) == (if i < a.len() {
        0nat
    } else if i < a.len() + b.len() {
        1
    } else if i < a.len() + b.len() + c.len() {
        2
    } else {
        3
    }) by {
        if i < a.len() {
            s.lemma_filter_pred(|k: DiscoveredKey| key_rank(k.name@) == 0, i);
        } else if i < a.len() + b.len() {
            s.lemma_filter_pred(|k: DiscoveredKey| key_rank(k.name@) == 1, i - a.len());
        } else if i < a.len() + b.len() + c.len() {
            s.lemma_filter_pred(|k: DiscoveredKey| key_rank(k.name@) == 2, i - a.len() - b.len());
        } else {
            s.lemma_filter_pred(
                |k: DiscoveredKey| key_rank(k.name@) == 3,
                i - a.len() - b.len() - c.len(),
            );
        }
    }
    if s.len() == 0 {
        assert(a =~= Seq::<DiscoveredKey>::empty()) by { reveal_with_fuel(Seq::filter, 1); }
        assert(b =~= Seq::<DiscoveredKey>::empty()) by { reveal_with_fuel(Seq::filter, 1); }
        assert(c =~= Seq::<DiscoveredKey>::empty()) by { reveal_with_fuel(Seq::filter, 1); }
        assert(d =~= Seq::<DiscoveredKey>::empty()) by { reveal_with_fuel(Seq::filter, 1); }
        assert(o =~= s);
    } else {
        let t = s.drop_last();
        let x = s.last();
        lemma_keys_in_order_is_a_sort(t);
        assert(t.push(x) =~= s);
        t.lemma_filter_push(x, |k: DiscoveredKey| key_rank(k.name@) == 0);
        t.lemma_filter_push(x, |k: DiscoveredKey| key_rank(k.name@) == 1);
        t.lemma_filter_push(x, |k: DiscoveredKey| key_rank(k.name@) == 2);
        t.lemma_filter_push(x, |k: DiscoveredKey| key_rank(k.name@) == 3);
        let ta = keys_of_rank(t, 0);
        let tb = keys_of_rank(t, 1);
        let tc = keys_of_rank(t, 2);
        let td = keys_of_rank(t, 3);
        vstd::seq_lib::to_multiset_build(t, x);
        vstd::seq_lib::to_multiset_build(ta, x);
        vstd::seq_lib::to_multiset_build(tb, x);
        vstd::seq_lib::to_multiset_build(tc, x);
        vstd::seq_lib::to_multiset_build(td, x);
        assert(o.to_multiset() =~= a.to_multiset().add(b.to_multiset()).add(c.to_multiset()).add(
            d.to_multiset(),
        ));
        assert(keys_in_order(t).to_multiset() =~= ta.to_multiset().add(tb.to_multiset()).add(
            tc.to_multiset(),
        ).add(td.to_multiset()));
        assert(o.to_multiset() =~= s.to_multiset());
    }
}


/// The picker offers what modern hosts prefer first: a key whose name says
/// `ed25519` comes before every key whose name does not; then keys that say
/// `ecdsa`; then keys that say `rsa`; then the rest.
pub proof fn lemma_ed25519_keys_come_first(s: Seq<DiscoveredKey>)
    ensures
        forall|i: int, j: int|
            0 <= i < j < keys_in_order(s).len() ==> {
                let a = (#[trigger] keys_in_order(s)[i]).name@;
                let b = (#[trigger] keys_in_order(s)[j]).name@;
                &&& contains_seq(b, "ed25519"@) ==> contains_seq(a, "ed25519"@)
                &&& contains_seq(b, "ecdsa"@) ==> contains_seq(a, "ed25519"@) || contains_seq(
                    a,
                    "ecdsa"@,
                )
                &&& contains_seq(b, "rsa"@) ==> contains_seq(a, "ed25519"@) || contains_seq(
                    a,
                    "ecdsa"@,
                ) || contains_seq(a, "rsa"@)
            },
{
    lemma_keys_in_order_is_a_sort(s);
}

// ---------------------------------------------------------------------------
// A running session
// ---------------------------------------------------------------------------

/// The passphrase to load a private key with: none when it is empty, which
/// is how an unencrypted key is described.
pub fn passphrase_to_offer(auth: &SshAuth) -> (r: Option<String>)
    ensures
        match *auth {
            SshAuth::Key { passphrase, .. } => if passphrase@.len() == 0 {
                r is None
            } else {
                r matches Some(p) && p@ == passphrase@
            },
            SshAuth::Password { .. } => r is None,
        },
{
    match auth {
        SshAuth::Key { passphrase, .. } => {
            if passphrase.as_str().is_empty() {
                None
            } else {
                Some(passphrase.clone())
            }
        },
        SshAuth::Password { .. } => None,
    }
}

/// The terminal size requested from the server: at least one cell each way.
pub fn terminal_size(opts: &SshOptions) -> (r: (u32, u32))
    ensures
        r.0 == (if opts.cols == 0 { 1 } else { opts.cols }),
        r.1 == (if opts.rows == 0 { 1 } else { opts.rows }),
{
    let cols: u32 = if opts.cols == 0 { 1 } else { opts.cols as u32 };
    let rows: u32 = if opts.rows == 0 { 1 } else { opts.rows as u32 };
    (cols, rows)
}

/// What a running SSH session hears about: from the UI, or from the server.
pub enum SshEvent {
    /// Keystrokes from the UI.
    Input(Vec<u8>),
    /// The UI resized the terminal.
    Resize { cols: u16, rows: u16 },
    /// The UI closed the tab.
    Close,
    /// Nothing can send to the session any more.
    Detached,
    /// Output from the remote shell.
    Output(Vec<u8>),
    /// The remote shell's stderr, which belongs on screen too.
    ErrorOutput(Vec<u8>),
    /// The server ended the stream or closed the channel.
    Ended,
    /// Any other channel message.
    Other,
}

/// What a running SSH session does about it.
pub enum SshAction {
    /// Send these bytes to the server.
    Send(Vec<u8>),
    /// Tell the server the window changed.
    WindowChange { cols: u32, rows: u32 },
    /// Show these bytes in the terminal.
    Show(Vec<u8>),
    /// Close the channel, say goodbye and end the session.
    Finish,
    /// Nothing.
    Ignore,
}

/// The session loop's rule: input goes to the server, output and stderr go
/// to the screen, a resize becomes a window change, and a close from either
/// side (or the UI going away) ends the session.
pub fn session_step(event: SshEvent) -> (a: SshAction)
    ensures
        match event {
            SshEvent::Input(b) => a matches SshAction::Send(x) && x@ == b@,
            SshEvent::Resize { cols, rows } => a matches SshAction::WindowChange { cols: c, rows: r }
                && c == cols && r == rows,
            SshEvent::Output(b) => a matches SshAction::Show(x) && x@ == b@,
            SshEvent::ErrorOutput(b) => a matches SshAction::Show(x) && x@ == b@,
            SshEvent::Close | SshEvent::Detached | SshEvent::Ended => a is Finish,
            SshEvent::Other => a is Ignore,
        },
{
    match event {
        SshEvent::Input(b) => SshAction::Send(b),
        SshEvent::Resize { cols, rows } => SshAction::WindowChange { cols: cols as u32, rows: rows as u32 },
        SshEvent::Output(b) => SshAction::Show(b),
        SshEvent::ErrorOutput(b) => SshAction::Show(b),
        SshEvent::Close | SshEvent::Detached | SshEvent::Ended => SshAction::Finish,
        SshEvent::Other => SshAction::Ignore,
    }
}

} // verus!
