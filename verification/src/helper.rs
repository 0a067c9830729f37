//! Talking to the medium-integrity helper.
//!
//! Ordinary terminals cannot be spawned directly by the elevated app (they would
//! inherit its privileges), so they are hosted by `shaman-helper.exe`, which
//! runs at normal integrity. The application launches it and moves the frames;
//! what is decided here is how the helper is named, whether it proved it is
//! ours, and where each frame it sends goes.
//!
//! Security notes:
//!
//! * The pipe name and the nonce are both 128 bits of OS randomness. Anything
//!   else on the machine would have to guess the name to squat it.
//! * The helper's first frame must echo the nonce it was launched with. If it
//!   doesn't, something other than our child is on the other end, and we hang
//!   up rather than proxy keystrokes to it.
//! * The helper listens and the app connects, not the other way round: an
//!   elevated process's pipe carries a high mandatory label, which would stop
//!   the medium-integrity helper from writing to it.
use vstd::prelude::*;
use vstd::slice::slice_to_vec;
use vstd::utf8::{decode_utf8, encode_utf8, valid_utf8};

use crate::proto::{Frame, TAG_DATA, TAG_ERROR, TAG_EXIT, TAG_KILL, TAG_OPEN, TAG_READY, TAG_RESIZE, TAG_WRITE};
use crate::random::random_hex;
use crate::vault::hex_of;
use crate::text::{push_decimal, push_str, decimal};
use crate::table::IdTable;
use crate::Error;

verus! {

/// Bytes of OS randomness in a pipe name and in a nonce.
pub const SECRET_BYTES: usize = 16;

/// Seconds to keep trying to open the helper's pipes.
pub const PIPE_BUDGET_SECS: u64 = 10;

/// Milliseconds between attempts to open a pipe the helper has not created
/// yet.
pub const PIPE_RETRY_MILLIS: u64 = 25;

/// `shaman-` and 128 bits of OS randomness as hex, or `None` when the
/// operating system has no randomness to give.
pub fn new_pipe_name() -> (r: Option<String>)
    ensures
        r matches Some(s) ==> exists|b: Seq<u8>| b.len() == SECRET_BYTES && s@ == "shaman-"@ + hex_of(b),
{
    match random_hex(SECRET_BYTES) {
        Some(hex) => {
            let mut s = String::new();
            push_str(&mut s, "shaman-");
            push_str(&mut s, hex.as_str());
            assert(s@ =~= "shaman-"@ + hex@);
            Some(s)
        },
        None => None,
    }
}

/// The two one-way pipes of a connection: app-to-helper, then helper-to-app.
///
/// Two pipes, one per direction: a single duplex pipe deadlocks, because a
/// cloned handle shares one file object and Windows serialises I/O on
/// synchronous handles. The app connects them in this order, which is the
/// order the helper creates and accepts them in.
pub fn pipe_names(pipe: &str) -> (r: (String, String))
    ensures
        r.0@ == pipe@ + "-c2s"@,
        r.1@ == pipe@ + "-s2c"@,
{
    let mut c2s = String::new();
    push_str(&mut c2s, pipe);
    push_str(&mut c2s, "-c2s");
    let mut s2c = String::new();
    push_str(&mut s2c, pipe);
    push_str(&mut s2c, "-s2c");
    (c2s, s2c)
}

/// The file path a named pipe is opened by.
pub fn pipe_path(name: &str) -> (r: String)
    ensures
        r@ == "\\\\.\\pipe\\"@ + name@,
{
    let mut r = String::new();
    push_str(&mut r, "\\\\.\\pipe\\");
    push_str(&mut r, name);
    r
}

/// `helper not found at` the path, and why that matters.
pub fn missing_helper(path: &str) -> (e: Error)
    ensures
        e matches Error::Other(m) && m@ == "helper not found at "@ + path@
            + "; ordinary terminals need it when Shaman runs elevated"@,
{
    let mut m = String::new();
    push_str(&mut m, "helper not found at ");
    push_str(&mut m, path);
    push_str(&mut m, "; ordinary terminals need it when Shaman runs elevated");
    Error::Other(m)
}

/// The helper could not be started.
pub fn launch_failed(reason: &str) -> (e: Error)
    ensures
        e matches Error::Other(m) && m@ == "could not start helper: "@ + reason@,
{
    let mut m = String::new();
    push_str(&mut m, "could not start helper: ");
    push_str(&mut m, reason);
    Error::Other(m)
}

/// The helper never created its pipe within [`PIPE_BUDGET_SECS`].
pub fn pipe_never_opened(reason: &str) -> (e: Error)
    ensures
        e matches Error::Other(m) && m@ == "helper never opened its pipe within "@ + decimal(
            PIPE_BUDGET_SECS as nat,
        ) + "s: "@ + reason@,
{
    let mut m = String::new();
    push_str(&mut m, "helper never opened its pipe within ");
    push_decimal(&mut m, PIPE_BUDGET_SECS);
    push_str(&mut m, "s: ");
    push_str(&mut m, reason);
    Error::Other(m)
}

/// What to do after an attempt to open the helper's pipe failed.
#[derive(Debug, Clone, Copy, PartialEq, Eq)]
pub enum PipeRetry {
    /// Wait this many milliseconds, then try again.
    Wait(u64),
    /// Stop: the helper had its whole budget and never created the pipe.
    GiveUp,
}

/// After a failed open, `elapsed_nanos` after the first attempt: give up once
/// more than [`PIPE_BUDGET_SECS`] have passed, else wait
/// [`PIPE_RETRY_MILLIS`] and try again (the helper may not have created the
/// pipe yet).
pub fn after_failed_open(elapsed_nanos: u128) -> (r: PipeRetry)
    ensures
        elapsed_nanos > PIPE_BUDGET_SECS * 1_000_000_000 ==> r == PipeRetry::GiveUp,
        elapsed_nanos <= PIPE_BUDGET_SECS * 1_000_000_000 ==> r == PipeRetry::Wait(PIPE_RETRY_MILLIS),
{
    if elapsed_nanos > (PIPE_BUDGET_SECS as u128) * 1_000_000_000 {
        PipeRetry::GiveUp
    } else {
        PipeRetry::Wait(PIPE_RETRY_MILLIS)
    }
}

/// Frames can no longer be queued for the helper.
pub fn connection_closed() -> (e: Error)
    ensures
        e matches Error::Other(m) && m@ == "the helper connection is closed"@,
{
    Error::Other("the helper connection is closed".to_owned())
}

/// Whether two byte strings are equal.
fn bytes_eq(a: &[u8], b: &[u8]) -> (r: bool)
    ensures
        r == (a@ == b@),
{
    if a.len() != b.len() {
        return false;
    }
    let mut i: usize = 0;
    while i < a.len()
        invariant
            i <= a@.len(),
            a@.len() == b@.len(),
            forall|k: int| 0 <= k < i ==> a@[k] == b@[k],
        decreases a@.len() - i,
    {
        if a[i] != b[i] {
            return false;
        }
        i = i + 1;
    }
    assert(a@ =~= b@);
    true
}

/// What the first frame from a freshly launched helper must be: a ready
/// frame carrying the nonce it was launched with.
///
/// A ready frame with any other payload means something other than our
/// child is on the pipe, and it is refused rather than trusted with
/// keystrokes.
pub fn check_handshake(read: Result<Option<Frame>, Error>, nonce: &str) -> (r: Result<(), Error>)
    ensures
        match read {
            Ok(Some(f)) => if f.tag == TAG_READY && f.payload@ == encode_utf8(nonce@) {
                r is Ok
            } else if f.tag == TAG_READY {
                r matches Err(Error::Other(m))
                    && m@ == "helper handshake failed: wrong nonce -- refusing to use this pipe"@
            } else {
                r matches Err(Error::Other(m)) && m@ == "helper did not send a handshake"@
            },
            Ok(None) => r matches Err(Error::Other(m)) && m@ == "helper did not send a handshake"@,
            Err(e) => r matches Err(Error::Other(m)) && m@ == "helper handshake: "@ + e.text(),
        },
{
    match read {
        Ok(Some(frame)) => {
            if frame.tag == TAG_READY && bytes_eq(frame.payload.as_slice(), nonce.as_bytes()) {
                Ok(())
            } else if frame.tag == TAG_READY {
                Err(
                    Error::Other(
                        "helper handshake failed: wrong nonce -- refusing to use this pipe".to_owned(),
                    ),
                )
            } else {
                Err(Error::Other("helper did not send a handshake".to_owned()))
            }
        },
        Ok(None) => Err(Error::Other("helper did not send a handshake".to_owned())),
        Err(e) => {
            let mut m = String::new();
            push_str(&mut m, "helper handshake: ");
            let text = e.message();
            push_str(&mut m, text.as_str());
            Err(Error::Other(m))
        },
    }
}

/// The text `String::from_utf8_lossy` makes of some bytes.
pub uninterp spec fn utf8_lossy(bytes: Seq<u8>) -> Seq<char>;

/// `String::from_utf8_lossy`: the bytes as text, each invalid sequence
/// replaced by U+FFFD. Valid UTF-8 is decoded as it is, which is all that
/// is stated of it; what the replacement does is named, not stated.
#[verifier::external_body]
fn lossy_text(bytes: &[u8]) -> (r: String)
    ensures
        r@ == utf8_lossy(bytes@),
        valid_utf8(bytes@) ==> r@ == decode_utf8(bytes@),
{
    String::from_utf8_lossy(bytes).into_owned()
}

/// What a helper error looks like in the terminal: the message in red on a
/// line of its own.
pub open spec fn error_notice(payload: Seq<u8>) -> Seq<u8> {
    encode_utf8("\r\n\u{1b}[31m"@ + utf8_lossy(payload) + "\u{1b}[0m\r\n"@)
}

/// The bytes shown in a terminal whose session the helper reports failed.
pub fn error_notice_bytes(payload: &[u8]) -> (r: Vec<u8>)
    ensures
        r@ == error_notice(payload@),
{
    let mut s = String::new();
    push_str(&mut s, "\r\n\u{1b}[31m");
    let text = lossy_text(payload);
    push_str(&mut s, text.as_str());
    push_str(&mut s, "\u{1b}[0m\r\n");
    assert(s@ =~= "\r\n\u{1b}[31m"@ + utf8_lossy(payload@) + "\u{1b}[0m\r\n"@);
    slice_to_vec(s.as_str().as_bytes())
}

/// The sessions a helper hosts, by session id, each with whatever the
/// application needs to reach its terminal (`S`).
pub type Subscribers<S> = IdTable<S>;

/// Where a frame from the helper goes.
pub enum Dispatched<S> {
    /// Output for a registered session: hand the bytes to its subscriber.
    Output { id: u64, bytes: Vec<u8> },
    /// The session ended: its subscriber, now unregistered, is told so.
    Ended(S),
    /// The helper reported an error for the session: its subscriber, now
    /// unregistered, is shown `notice` in the terminal and then told the
    /// session ended.
    Failed { sub: S, notice: Vec<u8> },
    /// Nobody is registered for the session; the frame is dropped.
    Unrouted,
    /// A tag the helper never sends to the app.
    Unexpected(u8),
}

/// Route one frame from the helper.
///
/// Output goes to the session's subscriber. An exit ends the session and an
/// error ends it after surfacing the message in the terminal itself; either
/// way the subscriber is unregistered, so it hears of the end exactly once.
pub fn dispatch<S>(subs: &mut Subscribers<S>, frame: Frame) -> (r: Dispatched<S>)
    requires
        old(subs).wf(),
    ensures
        final(subs).wf(),
        ({
            let m = old(subs).map();
            let id = frame.id;
            if frame.tag == TAG_DATA {
                &&& final(subs).map() == m
                &&& if m.contains_key(id) {
                    r matches Dispatched::Output { id: i, bytes } && i == id && bytes@ == frame.payload@
                } else {
                    r is Unrouted
                }
            } else if frame.tag == TAG_EXIT || frame.tag == TAG_ERROR {
                &&& final(subs).map() == m.remove(id)
                &&& if !m.contains_key(id) {
                    r is Unrouted
                } else if frame.tag == TAG_EXIT {
                    r matches Dispatched::Ended(s) && s == m[id]
                } else {
                    r matches Dispatched::Failed { sub, notice } && sub == m[id] && notice@
                        == error_notice(frame.payload@)
                }
            } else {
                &&& final(subs).map() == m
                &&& r matches Dispatched::Unexpected(t) && t == frame.tag
            }
        }),
{
    if frame.tag == TAG_DATA {
        match subs.get(frame.id) {
            Some(_) => Dispatched::Output { id: frame.id, bytes: frame.payload },
            None => Dispatched::Unrouted,
        }
    } else if frame.tag == TAG_EXIT {
        match subs.remove(frame.id) {
            Some(s) => Dispatched::Ended(s),
            None => Dispatched::Unrouted,
        }
    } else if frame.tag == TAG_ERROR {
        match subs.remove(frame.id) {
            Some(s) => {
                let notice = error_notice_bytes(frame.payload.as_slice());
                Dispatched::Failed { sub: s, notice }
            },
            None => Dispatched::Unrouted,
        }
    } else {
        Dispatched::Unexpected(frame.tag)
    }
}


// ---------------------------------------------------------------------------
// The helper's side
// ---------------------------------------------------------------------------

/// What the app asks of the helper, one frame at a time.
pub enum BrokerRequest {
    /// Start a terminal; the payload is an [`crate::proto::OpenRequest`] as JSON.
    Open { id: u64, payload: Vec<u8> },
    /// Input for a terminal.
    Write { id: u64, bytes: Vec<u8> },
    /// A new size for a terminal; the payload is a
    /// [`crate::proto::ResizeRequest`] as JSON.
    Resize { id: u64, payload: Vec<u8> },
    /// End a terminal and everything it started.
    Kill { id: u64 },
    /// A tag the app never sends; ignored.
    Unknown(u8),
}

/// Read one frame from the app as a request.
pub fn request_of(frame: Frame) -> (r: BrokerRequest)
    ensures
        frame.tag == TAG_OPEN ==> (r matches BrokerRequest::Open { id, payload } && id == frame.id
            && payload@ == frame.payload@),
        frame.tag == TAG_WRITE ==> (r matches BrokerRequest::Write { id, bytes } && id == frame.id
            && bytes@ == frame.payload@),
        frame.tag == TAG_RESIZE ==> (r matches BrokerRequest::Resize { id, payload } && id == frame.id
            && payload@ == frame.payload@),
        frame.tag == TAG_KILL ==> (r matches BrokerRequest::Kill { id } && id == frame.id),
        !(frame.tag == TAG_OPEN || frame.tag == TAG_WRITE || frame.tag == TAG_RESIZE || frame.tag
            == TAG_KILL) ==> (r matches BrokerRequest::Unknown(t) && t == frame.tag),
{
    if frame.tag == TAG_OPEN {
        BrokerRequest::Open { id: frame.id, payload: frame.payload }
    } else if frame.tag == TAG_WRITE {
        BrokerRequest::Write { id: frame.id, bytes: frame.payload }
    } else if frame.tag == TAG_RESIZE {
        BrokerRequest::Resize { id: frame.id, payload: frame.payload }
    } else if frame.tag == TAG_KILL {
        BrokerRequest::Kill { id: frame.id }
    } else {
        BrokerRequest::Unknown(frame.tag)
    }
}

/// The error sent back for an open request that does not parse.
pub fn bad_open_request(reason: &str) -> (r: String)
    ensures
        r@ == "bad open request: "@ + reason@,
{
    let mut m = String::new();
    push_str(&mut m, "bad open request: ");
    push_str(&mut m, reason);
    m
}

/// The error sent back when a terminal's program could not be started.
pub fn failed_to_start_program(program: &str, reason: &str) -> (r: String)
    ensures
        r@ == "failed to start "@ + program@ + ": "@ + reason@,
{
    let mut m = String::new();
    push_str(&mut m, "failed to start ");
    push_str(&mut m, program);
    push_str(&mut m, ": ");
    push_str(&mut m, reason);
    m
}

} // verus!
