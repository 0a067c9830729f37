use shaman_core::profiles::{find, profiles_for, wsl_distros};
use shaman_core::{Installed, SessionKind};

fn everything(distros: &[&str]) -> Installed {
    Installed {
        cmd: Some(r"C:\Windows\System32\cmd.exe".into()),
        powershell: Some(r"C:\Windows\System32\WindowsPowerShell\v1.0\powershell.exe".into()),
        pwsh: Some(r"C:\Program Files\PowerShell\7\pwsh.exe".into()),
        wsl: Some(r"C:\Windows\System32\wsl.exe".into()),
        distros: distros.iter().map(|d| d.to_string()).collect(),
    }
}

#[test]
fn profiles_come_in_menu_order() {
    let profiles = profiles_for(&everything(&["Debian", "Ubuntu"]));
    let ids: Vec<_> = profiles.iter().map(|p| p.id.as_str()).collect();
    assert_eq!(ids, ["cmd", "powershell", "powershell-admin", "pwsh", "wsl:Debian", "wsl:Ubuntu"]);
    assert!(profiles[2].elevated);
    assert_eq!(profiles[2].label, "Windows PowerShell (Admin)");
    assert_eq!(profiles[1].args, ["-NoLogo"]);
    assert_eq!(profiles[4].label, "WSL · Debian");
    assert_eq!(profiles[4].args, ["-d", "Debian", "--cd", "~"]);
    assert_eq!(profiles[4].kind, SessionKind::Wsl { distro: "Debian".into() });
}

#[test]
fn a_single_distro_is_just_wsl() {
    let profiles = profiles_for(&everything(&["Ubuntu"]));
    assert_eq!(profiles.last().unwrap().label, "WSL");
}

#[test]
fn only_installed_shells_are_offered() {
    let found = Installed {
        cmd: Some("cmd.exe".into()),
        powershell: None,
        pwsh: None,
        wsl: None,
        distros: vec!["Ubuntu".into()],
    };
    let profiles = profiles_for(&found);
    assert_eq!(profiles.len(), 1);
    assert_eq!(profiles[0].label, "Command Prompt");
    assert!(profiles[0].args.is_empty());
}

#[test]
fn profile_ids_are_unique() {
    let distros = wsl_distros(vec!["b".into(), "a".into(), "b".into()]);
    let profiles = profiles_for(&everything(&distros.iter().map(|d| d.as_str()).collect::<Vec<_>>()));
    let mut ids: Vec<_> = profiles.iter().map(|p| p.id.clone()).collect();
    ids.sort();
    let before = ids.len();
    ids.dedup();
    assert_eq!(before, ids.len(), "duplicate profile ids: {ids:?}");
}

#[test]
fn find_round_trips_detected_ids() {
    let profiles = profiles_for(&everything(&["Arch", "Debian"]));
    for profile in &profiles {
        let found = find(&profiles, &profile.id).unwrap();
        assert_eq!(found.program, profile.program, "find failed for {}", profile.id);
    }
    assert!(find(&profiles, "no-such-shell").is_none());
}

#[test]
fn distros_are_sorted_and_deduplicated() {
    let tidy = wsl_distros(vec!["Ubuntu".into(), "Debian".into(), "Ubuntu".into(), "Alpine".into()]);
    assert_eq!(tidy, ["Alpine", "Debian", "Ubuntu"]);
    assert!(wsl_distros(Vec::new()).is_empty());
}
