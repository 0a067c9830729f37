//! How a local shell is started.
//!
//! The pseudo-terminal itself (ConPTY, through `portable-pty`) is driven by
//! the application; these are the options it is started with.
use vstd::prelude::*;

use crate::profiles::ShellProfile;
use crate::proto::OpenRequest;
use crate::session::SessionKind;

verus! {

/// How to start a local shell.
#[derive(Debug, Clone)]
pub struct PtyOptions {
    pub kind: SessionKind,
    pub program: String,
    pub args: Vec<String>,
    /// Working directory; the shell's own default when `None`.
    pub cwd: Option<String>,
    pub cols: u16,
    pub rows: u16,
    pub elevated: bool,
}

fn copy_strings(v: &Vec<String>) -> (r: Vec<String>)
    ensures
        r@ == v@,
{
    let mut out: Vec<String> = Vec::new();
    let mut i: usize = 0;
    while i < v.len()
        invariant
            i <= v@.len(),
            out@ == v@.take(i as int),
        decreases v@.len() - i,
    {
        out.push(v[i].clone());
        i = i + 1;
        assert(out@ =~= v@.take(i as int));
    }
    assert(v@.take(i as int) =~= v@);
    out
}

/// A terminal is never smaller than one cell each way.
pub open spec fn at_least_one(n: u16) -> u16 {
    if n == 0 {
        1
    } else {
        n
    }
}

/// `n`, or 1 if it is 0.
pub fn at_least_one_cell(n: u16) -> (r: u16)
    ensures
        r == at_least_one(n),
{
    if n == 0 {
        1
    } else {
        n
    }
}

impl PtyOptions {
    /// Launch options for a detected shell, started in-process.
    ///
    /// A profile is only placed in-process when the app's own integrity is
    /// the profile's (see `placement`): an admin profile runs in an elevated
    /// app, an ordinary one in an ordinary app. So the session runs at high
    /// integrity exactly when the profile is an admin profile.
    pub fn from_profile(profile: &ShellProfile, cols: u16, rows: u16) -> (r: Self)
        ensures
            r.kind == profile.kind,
            r.program == profile.program,
            r.args@ == profile.args@,
            r.cwd is None,
            r.cols == cols,
            r.rows == rows,
            r.elevated == profile.elevated,
    {
        PtyOptions {
            kind: profile.kind.duplicate(),
            program: profile.program.clone(),
            args: copy_strings(&profile.args),
            cwd: None,
            cols,
            rows,
            elevated: profile.elevated,
        }
    }

    /// A plain `cmd.exe` at the given size.
    pub fn cmd(cols: u16, rows: u16) -> (r: Self)
        ensures
            r.kind == SessionKind::Cmd,
            r.program@ == "cmd.exe"@,
            r.args@.len() == 0,
            r.cwd is None,
            r.cols == cols,
            r.rows == rows,
            !r.elevated,
    {
        PtyOptions {
            kind: SessionKind::Cmd,
            program: "cmd.exe".to_owned(),
            args: Vec::new(),
            cwd: None,
            cols,
            rows,
            elevated: false,
        }
    }

    /// Launch options for a terminal the app asked the helper to open. The
    /// helper runs at normal integrity, so nothing it starts is elevated; the
    /// program names the session, and a zero size is taken as one cell.
    pub fn from_request(req: &OpenRequest) -> (r: Self)
        ensures
            r.kind matches SessionKind::Custom { label } && label == req.program,
            r.program == req.program,
            r.args@ == req.args@,
            r.cwd == req.cwd,
            r.cols == at_least_one(req.cols),
            r.rows == at_least_one(req.rows),
            !r.elevated,
    {
        PtyOptions {
            kind: SessionKind::Custom { label: req.program.clone() },
            program: req.program.clone(),
            args: copy_strings(&req.args),
            cwd: match &req.cwd {
                Some(c) => Some(c.clone()),
                None => None,
            },
            cols: at_least_one_cell(req.cols),
            rows: at_least_one_cell(req.rows),
            elevated: false,
        }
    }
}

} // verus!
