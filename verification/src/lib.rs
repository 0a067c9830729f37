//! Core session engine for Shaman: the stores, the wire protocol, and the
//! decisions the terminal front end makes about sessions.
use vstd::prelude::*;

pub mod text;
pub mod session;
pub mod registry;
pub mod pins;
pub mod known_hosts;
pub mod vault;
pub mod random;
pub mod ssh;
pub mod connections;
pub mod proto;
pub mod settings;
pub mod helper;
pub mod pump;
pub mod profiles;
pub mod elevate;
pub mod pty;
pub mod table;
pub mod outputs;
pub mod routing;
pub mod win;

pub use connections::{SavedConnection, Store as ConnectionStore};
pub use helper::Subscribers;
pub use known_hosts::{KnownHosts, TrustedHost, Verdict};
pub use outputs::Outputs;
pub use pins::{Pin, PinKind, Store as PinStore};
pub use profiles::{Installed, ShellProfile};
pub use pty::PtyOptions;
pub use pump::{CoalesceConfig, Coalescer};
pub use registry::{Registry, SessionSummary};
pub use session::{Session, SessionId, SessionIdSource, SessionKind};
pub use settings::{Appearance, CursorShape, Material};
pub use ssh::{DiscoveredKey, SshAuth, SshError, SshFailure, SshOptions};

use crate::text::push_str;

verus! {

/// A result whose error is the engine's.
pub type Result<T> = std::result::Result<T, Error>;

/// Errors surfaced by the core engine.
#[derive(Debug)]
pub enum Error {
    /// No session with this id.
    NotFound(SessionId),
    /// The session has already exited.
    Exited,
    /// An operating-system error, by its message.
    Io(String),
    /// Anything else, by its message.
    Other(String),
}

impl Error {
    /// The text of the error, as it is shown to the user.
    pub open spec fn text(&self) -> Seq<char> {
        match self {
            Error::NotFound(id) => "session "@ + crate::session::display_id(*id) + " not found"@,
            Error::Exited => "session has already exited"@,
            Error::Io(m) => m@,
            Error::Other(m) => m@,
        }
    }

    /// The text of the error, as it is shown to the user.
    pub fn message(&self) -> (s: String)
        ensures
            s@ == self.text(),
    {
        match self {
            Error::NotFound(id) => {
                let mut s = String::new();
                push_str(&mut s, "session ");
                let shown = id.display();
                push_str(&mut s, shown.as_str());
                push_str(&mut s, " not found");
                s
            },
            Error::Exited => {
                let mut s = String::new();
                push_str(&mut s, "session has already exited");
                assert(s@ =~= "session has already exited"@);
                s
            },
            Error::Io(m) => m.clone(),
            Error::Other(m) => m.clone(),
        }
    }
}

/// Build/version banner, surfaced in the UI's about screen.
pub struct Version;

impl Version {
    /// `shaman-core` and the version number.
    pub fn banner(&self) -> (s: String)
        ensures
            s@ == "shaman-core 0.1.0"@,
    {
        let mut s = String::new();
        push_str(&mut s, "shaman-core 0.1.0");
        assert(s@ =~= "shaman-core 0.1.0"@);
        s
    }
}

} // verus!
