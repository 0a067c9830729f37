use shaman_core::profiles::profiles_for;
use shaman_core::proto::OpenRequest;
use shaman_core::{Installed, PtyOptions, SessionKind};

#[test]
fn a_profile_is_started_as_itself_at_the_given_size() {
    let found = Installed {
        cmd: None,
        powershell: Some("ps.exe".into()),
        pwsh: None,
        wsl: None,
        distros: Vec::new(),
    };
    let admin = &profiles_for(&found)[1];
    let opts = PtyOptions::from_profile(admin, 120, 30);
    assert_eq!(opts.program, "ps.exe");
    assert_eq!(opts.args, ["-NoLogo"]);
    assert_eq!((opts.cols, opts.rows), (120, 30));
    assert!(admin.elevated);
    assert!(opts.elevated, "an admin tab runs at high integrity");
    assert_eq!(opts.kind, SessionKind::PowerShell);
    let plain = PtyOptions::from_profile(&profiles_for(&found)[0], 80, 24);
    assert!(!plain.elevated);
}

#[test]
fn plain_cmd_options() {
    let opts = PtyOptions::cmd(80, 24);
    assert_eq!(opts.program, "cmd.exe");
    assert!(opts.args.is_empty() && opts.cwd.is_none());
    assert_eq!(opts.kind, SessionKind::Cmd);
}

#[test]
fn a_helper_request_runs_unelevated_and_at_least_one_cell() {
    let req = OpenRequest {
        program: "cmd.exe".into(),
        args: vec!["/k".into()],
        cwd: Some("C:\\".into()),
        cols: 0,
        rows: 0,
    };
    let opts = PtyOptions::from_request(&req);
    assert_eq!((opts.cols, opts.rows), (1, 1));
    assert_eq!(opts.kind, SessionKind::Custom { label: "cmd.exe".into() });
    assert_eq!(opts.args, ["/k"]);
    assert_eq!(opts.cwd.as_deref(), Some("C:\\"));
    assert!(!opts.elevated);
}
