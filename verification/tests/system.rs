use mini_lmk::system::{
    initial_screen_on, parse_deviceidle_screen, parse_dumpsys_power_screen, parse_resolve_activity_pkg, parse_role_holders,
    parse_secure_setting, probe_logcat_stream, ChildStatus,
};

#[test]
fn test_parse_resolve_activity_pkg() {
    // Multi-line output with match line
    let output1 = "priority=0 preferredOrder=0 match=0x108000 specificIndex=-1 isDefault=true\ncom.google.android.apps.nexuslauncher/.NexusLauncherActivity";
    assert_eq!(parse_resolve_activity_pkg(output1), Some("com.google.android.apps.nexuslauncher"));

    // Single-line component
    let output2 = "com.android.launcher3/.Launcher";
    assert_eq!(parse_resolve_activity_pkg(output2), Some("com.android.launcher3"));

    // Component with leading flags / match
    let output3 = "match=0x200000 com.sec.android.app.launcher/com.sec.android.app.launcher.Launcher";
    assert_eq!(parse_resolve_activity_pkg(output3), Some("com.sec.android.app.launcher"));

    // No match / error
    assert_eq!(parse_resolve_activity_pkg("No activity found"), None);
    assert_eq!(parse_resolve_activity_pkg(""), None);
    assert_eq!(parse_resolve_activity_pkg("Error: could not find activity"), None);
}

#[test]
fn test_parse_dumpsys_power_screen() {
    // API 24-27 suspend blocker checks
    assert_eq!(parse_dumpsys_power_screen("mHoldingDisplaySuspendBlocker=true\nmHoldingWakeLockSuspendBlocker=false"), Some(true));
    assert_eq!(parse_dumpsys_power_screen("mHoldingDisplaySuspendBlocker=false\nmHoldingWakeLockSuspendBlocker=false"), Some(false));

    // API 28+ display power state checks
    assert_eq!(parse_dumpsys_power_screen("Display Power: state=ON"), Some(true));
    assert_eq!(parse_dumpsys_power_screen("Display Power: state=OFF"), Some(false));
    assert_eq!(parse_dumpsys_power_screen("Display Power: state=DOZE"), Some(false));

    // Historical log edge cases: current state at top takes precedence over historical log entries
    let history_off = "  mHoldingDisplaySuspendBlocker=false\nHistorical Suspend Blockers:\n  mHoldingDisplaySuspendBlocker=true";
    assert_eq!(parse_dumpsys_power_screen(history_off), Some(false));

    let history_on = "  mHoldingDisplaySuspendBlocker=true\nHistorical Suspend Blockers:\n  mHoldingDisplaySuspendBlocker=false";
    assert_eq!(parse_dumpsys_power_screen(history_on), Some(true));

    // Unrelated or malformed output
    assert_eq!(parse_dumpsys_power_screen("PowerManagerService is dead"), None);
    assert_eq!(parse_dumpsys_power_screen(""), None);
}

#[test]
fn only_the_first_component_of_a_line_counts() {
    assert_eq!(parse_resolve_activity_pkg("a/b com.x.y/.Z"), None);
    assert_eq!(parse_resolve_activity_pkg("-com.x/.Y"), None);
    assert_eq!(parse_resolve_activity_pkg("{com.x/.Y"), None);
    assert_eq!(parse_resolve_activity_pkg("/x\nq w com.x.y/z"), Some("com.x.y"));
}

#[test]
fn a_power_line_without_a_state_is_skipped() {
    assert_eq!(parse_dumpsys_power_screen("mHoldingDisplaySuspendBlocker=?\nDisplay Power: state=?\nDisplay Power: state=ON"), Some(true));
}

#[test]
fn the_screen_is_on_unless_told_otherwise() {
    assert_eq!(parse_deviceidle_screen(b"true\n"), Some(true));
    assert_eq!(parse_deviceidle_screen(b"false\n"), Some(false));
    assert_eq!(parse_deviceidle_screen(b"tru"), None);
    assert_eq!(parse_deviceidle_screen(b"unknown"), None);
    assert!(initial_screen_on(None, None));
    assert!(!initial_screen_on(Some(false), Some(true)));
    assert!(!initial_screen_on(None, Some(false)));
    assert!(initial_screen_on(Some(true), Some(false)));
}

#[test]
fn role_holders_are_package_names() {
    let out = " com.android.launcher3 \nnull\nNo holder for role\nError: x.y\n-a.b\nplain\ncom.b.c\n\n";
    assert_eq!(parse_role_holders(out), vec!["com.android.launcher3".to_string(), "com.b.c".to_string()]);
    assert!(parse_role_holders("").is_empty());
    assert!(parse_role_holders("No.holder here").is_empty());
    assert!(parse_role_holders("Error.x").is_empty());
}

#[test]
fn settings_name_components() {
    assert_eq!(parse_secure_setting("com.ime.x/.Service\n"), Some("com.ime.x"));
    assert_eq!(parse_secure_setting("0:com.ime.x/.Service"), Some("com.ime.x"));
    assert_eq!(parse_secure_setting("a:com.ime.x/.Service"), Some("a:com.ime.x"));
    assert_eq!(parse_secure_setting(":com.ime.x"), Some("com.ime.x"));
    assert_eq!(parse_secure_setting("null"), None);
    assert_eq!(parse_secure_setting("null.x/y"), None);
    assert_eq!(parse_secure_setting(""), None);
    assert_eq!(parse_secure_setting("nodots/x"), None);
    assert_eq!(parse_secure_setting("a b.c/x"), None);
    assert_eq!(parse_secure_setting("-a.b/x"), None);
}

#[test]
fn the_stream_is_probed_once() {
    assert_eq!(probe_logcat_stream(ChildStatus::Running, 3, false, false), Ok(()));
    let dead = probe_logcat_stream(ChildStatus::Exited, -1, true, true).unwrap_err();
    assert!(dead.contains("died immediately"));
    let unknown = probe_logcat_stream(ChildStatus::Unknown, 3, false, false).unwrap_err();
    assert!(unknown.contains("error checking"));
    let negative = probe_logcat_stream(ChildStatus::Running, -1, false, false).unwrap_err();
    assert!(negative.contains("Invalid"));
    let invalid = probe_logcat_stream(ChildStatus::Running, 3, true, true).unwrap_err();
    assert!(invalid.contains("POLLNVAL"));
    let broken = probe_logcat_stream(ChildStatus::Running, 3, false, true).unwrap_err();
    assert!(broken.contains("POLLHUP"));
}
