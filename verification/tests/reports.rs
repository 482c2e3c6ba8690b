use dsh_desktop::reports::{
    already_installed, failure_message, install_outcome, installing_notice, min_node_version,
    node_check, node_supported, read_profile_failure, restart_after_upgrade, upgrade_outcome,
    version_from_output, version_or_unknown, Failure, RestartOutcome,
};

#[test]
fn minimum_node_version() {
    assert_eq!(min_node_version(), (22, 19, 0));
    assert!(node_supported("22.19.0"));
    assert!(node_supported("24.0.0"));
    assert!(!node_supported("22.18.1"));
    assert!(!node_supported("garbage"));
}

#[test]
fn node_check_supported() {
    let r = node_check(false, Some("v22.19.0".to_string()));
    assert!(r.installed);
    assert!(r.supported);
    assert_eq!(r.version, "22.19.0");
    assert_eq!(r.message, "Node.js v22.19.0 meets requirements");
    let z = node_check(true, Some("v23.1.0".to_string()));
    assert_eq!(z.message, "Node.js v23.1.0 满足要求");
}

#[test]
fn node_check_too_old() {
    let r = node_check(false, Some("v18.20.4".to_string()));
    assert!(r.installed);
    assert!(!r.supported);
    assert_eq!(r.message, "Detected Node.js v18.20.4: requires 22.19.0 or newer, please upgrade and retry");
    let z = node_check(true, Some("v18.20.4".to_string()));
    assert_eq!(z.message, "检测到 Node.js v18.20.4: 需要 22.19.0 或更高版本，请升级后重试");
}

#[test]
fn node_check_missing() {
    for out in [None, Some("command not found".to_string())] {
        let r = node_check(false, out);
        assert!(!r.installed);
        assert!(!r.supported);
        assert_eq!(r.version, "");
        assert_eq!(
            r.message,
            "Node.js not detected. DSH Desktop requires Node.js 22.19.0 or newer. Please install it and retry."
        );
    }
}

#[test]
fn version_from_captured_output() {
    assert_eq!(version_from_output(Some("0.1.0-rc.6".to_string())).as_deref(), Some("0.1.0-rc.6"));
    assert_eq!(version_from_output(None), None);
    assert_eq!(version_or_unknown(None), "unknown");
    assert_eq!(version_or_unknown(Some("1.0.0".to_string())), "1.0.0");
}

#[test]
fn install_results() {
    let a = already_installed(false, "1.2.3".to_string());
    assert!(a.installed);
    assert_eq!(a.version, "1.2.3");
    assert_eq!(a.message, "dsh is already installed");
    assert_eq!(
        installing_notice(false),
        "Installing @deepseek-ai/dsh (first install may take a few minutes)…"
    );
    let e = install_outcome(false, false, None).err().unwrap();
    assert_eq!(e, "Failed to install dsh: npm install command did not succeed. Check the CLI logs.");
    let ok = install_outcome(true, true, None).ok().unwrap();
    assert_eq!(ok.version, "unknown");
    assert_eq!(ok.message, "dsh 安装完成");
}

#[test]
fn upgrade_results() {
    assert!(restart_after_upgrade(true, true));
    assert!(!restart_after_upgrade(false, true));
    assert!(!restart_after_upgrade(true, false));

    let f = upgrade_outcome(false, false, Some("1.0.0".to_string()), RestartOutcome::NotOwned);
    assert!(!f.ok);
    assert!(!f.restarted);
    assert_eq!(f.message, "Upgrade failed: npm update command did not succeed. Check the CLI logs.");

    let r = upgrade_outcome(false, true, Some("1.1.0".to_string()), RestartOutcome::Restarted);
    assert!(r.ok && r.restarted);
    assert_eq!(r.message, "Upgrade complete, service restarted with the new version (v1.1.0)");

    let x = upgrade_outcome(false, true, None, RestartOutcome::Failed("port busy".to_string()));
    assert!(x.ok && !x.restarted);
    assert_eq!(x.version, "unknown");
    assert_eq!(x.message, "Upgrade complete but restart failed (vunknown) - please restart manually: port busy");

    let n = upgrade_outcome(true, true, Some("2.0.0".to_string()), RestartOutcome::NotOwned);
    assert_eq!(n.message, "升级完成，当前无本应用运行的服务，下次启动即生效 (v2.0.0)");
}

#[test]
fn failure_messages() {
    assert_eq!(failure_message(Failure::OpenTerminal, false, "no pty"), "Failed to open terminal: no pty");
    assert_eq!(failure_message(Failure::LaunchDshWeb, true, "x"), "无法启动 dsh web: x");
    assert_eq!(
        read_profile_failure(false, "not found", "/h/.dsh/profiles/web/package.json"),
        "Failed to read profile config, please launch dsh once to initialize the profile: not found (/h/.dsh/profiles/web/package.json)"
    );
}
