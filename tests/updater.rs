use unimozer_next::updater::{
    install_blocked, install_done, install_nothing_newer, installability_from_probe,
    normalize_arch, resolve_updater_target, windows_installer_block, UpdateChannel,
};

#[test]
fn channels_and_endpoints() {
    assert_eq!(UpdateChannel::Stable.as_str(), "stable");
    assert_eq!(UpdateChannel::Prerelease.as_str(), "prerelease");
    assert_eq!(
        UpdateChannel::Stable.endpoint_for_target("linux-x86_64"),
        "https://github.com/haan/UnimozerNext/releases/latest/download/latest-linux-x86_64.json"
    );
    assert_eq!(
        UpdateChannel::Prerelease.endpoint_for_target("darwin-aarch64"),
        "https://github.com/haan/UnimozerNext/releases/download/updater-prerelease/latest-darwin-aarch64.json"
    );
}

#[test]
fn updater_targets() {
    assert_eq!(normalize_arch("arm"), "armv7");
    assert_eq!(normalize_arch("x86_64"), "x86_64");
    assert_eq!(resolve_updater_target("windows", "x86_64", "nsis"), "windows-x86_64-nsis");
    assert_eq!(resolve_updater_target("macos", "aarch64", "unknown"), "darwin-aarch64");
    assert_eq!(resolve_updater_target("linux", "arm", "unknown"), "linux-armv7");
    assert_eq!(resolve_updater_target("freebsd", "x86_64", "unknown"), "freebsd-x86_64");
}

#[test]
fn installability_outcomes() {
    assert!(windows_installer_block("nsis", "C:\\A".to_string()).is_none());
    let msi = windows_installer_block("msi", "C:\\A".to_string()).expect("blocked");
    assert!(!msi.installable);
    assert!(msi.reason.as_deref().unwrap().contains("MSI"));
    let probe = installability_from_probe("/opt/a".to_string(), Err("denied".to_string()));
    assert_eq!(
        probe.reason.as_deref(),
        Some("Installation directory is not writable for this user: denied")
    );
    let blocked = install_blocked(probe);
    assert!(!blocked.installed);
    assert_eq!(
        blocked.message.as_deref(),
        Some("Installation directory is not writable for this user: denied")
    );
    assert!(installability_from_probe("/opt/a".to_string(), Ok(())).installable);
    assert_eq!(install_nothing_newer().message.as_deref(), Some("No update is available."));
    assert_eq!(install_done("1.2.3".to_string()).version.as_deref(), Some("1.2.3"));
}

#[test]
fn install_paths_compare_loosely() {
    assert_eq!(
        unimozer_next::updater::normalize_path_for_compare("C:/Program Files/App/"),
        "c:\\program files\\app"
    );
    assert!(unimozer_next::updater::paths_match("C:\\APP\\\\", "c:/app"));
    assert!(!unimozer_next::updater::paths_match("C:\\APP", "C:\\APP2"));
}
