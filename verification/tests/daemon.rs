use mini_lmk::daemon::{whole_seconds_since, DaemonState};
use mini_lmk::hasher::FastMap;
use mini_lmk::parser::{parse_logcat_line, LogcatEvent, ProcDiedEvent, ProcStartEvent, ResumeActivityEvent};
use mini_lmk::records::Record;

const T0: u64 = 1_700_000_000_000;

fn daemon() -> DaemonState {
    DaemonState::new(true, true, 6000, 4, T0)
}

fn resume(d: &mut DaemonState, pkg: &str, now: u64) -> (bool, Vec<Record>) {
    let component = format!("{}/.Main", pkg);
    let mut out = Vec::new();
    let reap = d.on_resume_activity(&ResumeActivityEvent { pkg, component: &component }, now, &mut out);
    (reap, out)
}

fn start(d: &mut DaemonState, pkg: &str, pid: u32, uid: u32, spawn_type: &str, now: u64) -> (bool, Vec<Record>) {
    let mut out = Vec::new();
    let ev = ProcStartEvent { proc_name: pkg, pkg, spawn_type, pid, uid };
    let reap = d.on_proc_start(&ev, now, 2048, &mut out);
    (reap, out)
}

fn names(records: &[Record]) -> Vec<String> {
    records
        .iter()
        .map(|r| r.to_json().split("\"event\":\"").nth(1).unwrap().split('"').next().unwrap().to_string())
        .collect()
}

fn history(d: &DaemonState) -> Vec<&str> {
    d.fg_lru.iter().map(|s| s.as_str()).collect()
}

#[test]
fn test_ams_protected_alive_apps_lifecycle() {
    let mut alive_apps: FastMap<String, u64> = FastMap::default();
    let old_time = 1_000_000u64;
    alive_apps.insert("com.spotify.music".to_string(), old_time);
    alive_apps.insert("org.mozilla.firefox".to_string(), old_time);

    let now = 1_300_000u64;

    // Spotify is ams_protected (e.g. oom_adj = 200 < 900): anchor refreshed, not removed.
    *alive_apps.get_mut("com.spotify.music").unwrap() = now;

    // Firefox is NOT protected (e.g. oom_adj = 900 >= 900): killed and dropped.
    alive_apps.remove("org.mozilla.firefox");

    assert_eq!(alive_apps.get("com.spotify.music"), Some(&now));
    assert!(!alive_apps.contains_key("org.mozilla.firefox"));
}

#[test]
fn a_first_resume_heads_the_history() {
    let mut d = daemon();
    let (reap, out) = resume(&mut d, "com.a", T0 + 10);
    assert!(reap);
    assert_eq!(names(&out), ["fg_switch"]);
    assert_eq!(
        out[0].to_json(),
        format!(
            "{{\"ts\":{},\"event\":\"fg_switch\",\"pkg\":\"com.a\",\"component\":\"com.a/.Main\",\"prev_dur_ms\":0,\"is_game\":false}}",
            T0 + 10
        )
    );
    assert_eq!(history(&d), ["com.a"]);
    assert_eq!(d.current_fg.as_deref(), Some("com.a"));
    assert!(!resume(&mut d, "com.a", T0 + 20).0);
    assert_eq!(history(&d), ["com.a"]);
}

#[test]
fn only_apps_become_evictable_when_they_leave() {
    let mut d = daemon();
    d.pkg_to_uid.insert("com.app".to_string(), 10_000);
    d.pkg_to_uid.insert("com.system".to_string(), 9_999);
    resume(&mut d, "com.app", T0);
    resume(&mut d, "com.system", T0 + 5_000);
    assert_eq!(d.alive_apps.get("com.app"), Some(&(T0 + 5_000)));
    resume(&mut d, "com.unknown", T0 + 6_000);
    assert!(!d.alive_apps.contains_key("com.system"));
    resume(&mut d, "com.app", T0 + 7_000);
    assert!(!d.alive_apps.contains_key("com.unknown"));
    assert_eq!(d.alive_apps.len(), 1);
}

#[test]
fn a_trampoline_leaves_the_history() {
    let mut d = daemon();
    // It has been running for long, which does not matter.
    start(&mut d, "com.tramp", 5, 10_005, "service", T0 - 900_000);
    resume(&mut d, "com.real", T0);
    resume(&mut d, "com.tramp", T0 + 1_001);
    assert_eq!(history(&d), ["com.tramp", "com.real"]);
    let (_, out) = resume(&mut d, "com.next", T0 + 1_400);
    assert_eq!(history(&d), ["com.next", "com.real"]);
    assert_eq!(out.last().unwrap().duration_ms(), Some(399));

    // One that is not known to be an app leaves it as well, and one that was gone at once.
    resume(&mut d, "com.chooser", T0 + 5_000);
    resume(&mut d, "com.flash", T0 + 5_499);
    resume(&mut d, "com.then", T0 + 5_499);
    assert_eq!(history(&d), ["com.then", "com.next", "com.real"]);

    // Half a second is a stay, and so are two that make it up.
    resume(&mut d, "com.stays", T0 + 6_000);
    resume(&mut d, "com.stays", T0 + 6_300);
    let (_, out) = resume(&mut d, "com.last", T0 + 6_500);
    assert_eq!(out.last().unwrap().duration_ms(), Some(500));
    assert_eq!(history(&d), ["com.last", "com.stays", "com.then", "com.next", "com.real"]);
}

#[test]
fn a_stay_of_unknown_length_is_no_short_one() {
    let mut d = daemon();
    resume(&mut d, "com.a", T0);
    d.fg_since = None;
    let (_, out) = resume(&mut d, "com.b", T0 + 1);
    assert_eq!(history(&d), ["com.b", "com.a"]);
    assert!(out.last().unwrap().to_json().contains("\"prev_dur_ms\":0,"));
    assert_eq!(d.fg_since, Some(T0 + 1));
}

#[test]
fn the_history_is_bounded() {
    let mut d = daemon();
    d.config.fg_lru_max_depth = 3;
    for (i, pkg) in ["a", "b", "c", "d", "b"].iter().enumerate() {
        resume(&mut d, pkg, T0 + i as u64 * 1_000);
    }
    assert_eq!(history(&d), ["b", "d", "c"]);
    assert_eq!(d.lru_position("d"), Some(1));
    assert_eq!(d.lru_position("a"), None);
    // A smaller maximum holds from the next app on, whether that is new or not.
    d.config.fg_lru_max_depth = 5;
    resume(&mut d, "e", T0 + 9_000);
    resume(&mut d, "f", T0 + 10_000);
    assert_eq!(history(&d), ["f", "e", "b", "d", "c"]);
    d.config.fg_lru_max_depth = 3;
    resume(&mut d, "g", T0 + 11_000);
    assert_eq!(history(&d), ["g", "f", "e"]);
    d.config.fg_lru_max_depth = 2;
    resume(&mut d, "e", T0 + 12_000);
    assert_eq!(history(&d), ["e", "g"]);
    d.config.fg_lru_max_depth = 0;
    resume(&mut d, "h", T0 + 13_000);
    assert!(history(&d).is_empty());
}

#[test]
fn games_start_and_end() {
    let mut d = daemon();
    d.games.insert("com.game".to_string());
    let (_, out) = resume(&mut d, "com.game", T0);
    assert_eq!(names(&out), ["game_session_start", "fg_switch"]);
    assert!(d.is_gaming);

    let (reap, out) = start(&mut d, "com.noise", 70, 10_070, "service", T0 + 1_000);
    assert!(reap);
    assert_eq!(names(&out), ["game_intrusion"]);
    assert!(out[0].to_json().ends_with("\"rss_kb\":2048,\"excluded\":false}"));
    let (reap, out) = start(&mut d, "com.dialog", 71, 10_071, "next-top-activity", T0 + 1_500);
    assert!(!reap && out.is_empty());
    assert_eq!(d.game_intrusion_count, 1);

    let (_, out) = resume(&mut d, "com.home", T0 + 61_999);
    assert_eq!(names(&out), ["bg_summary", "game_session_end", "fg_switch"]);
    assert_eq!(
        out[1].to_json(),
        format!("{{\"ts\":{},\"event\":\"game_session_end\",\"duration_sec\":61,\"intrusions\":1}}", T0 + 61_999)
    );
    assert!(!d.is_gaming);
    assert_eq!(d.game_session_start, None);
    resume(&mut d, "com.game", T0 + 70_000);
    assert_eq!(d.game_intrusion_count, 0);
}

#[test]
fn an_intruder_may_be_excluded() {
    let mut d = daemon();
    d.games.insert("com.game".to_string());
    d.user_exclusions.insert("com.vpn".to_string());
    d.dynamic_exclusions.insert("com.ime".to_string());
    resume(&mut d, "com.game", T0);
    for pkg in ["com.vpn", "com.ime", "com.game"] {
        let (_, out) = start(&mut d, pkg, 9, 10_000, "service", T0);
        assert!(out[0].to_json().ends_with("\"excluded\":true}"));
        assert!(d.is_excluded(pkg));
    }
    assert!(!d.is_excluded("com.other"));
}

#[test]
fn starts_make_apps_evictable_and_passes_due() {
    let mut d = daemon();
    assert!(start(&mut d, "com.app", 5, 10_000, "service", T0).0);
    assert_eq!(d.alive_apps.get("com.app"), Some(&T0));
    assert!(!start(&mut d, "com.sys", 6, 9_999, "service", T0).0);
    assert!(!d.alive_apps.contains_key("com.sys"));
    assert!(!start(&mut d, "com.top", 7, 10_001, "top-activity", T0).0);
    assert!(!start(&mut d, "com.next", 8, 10_001, "next-top-activity", T0).0);
    assert!(d.alive_apps.contains_key("com.top"));
    // A second process does not make the app younger.
    assert!(start(&mut d, "com.app", 9, 10_000, "service", T0 + 500).0);
    assert_eq!(d.alive_apps.get("com.app"), Some(&T0));
    assert_eq!(d.pkg_to_pids.get("com.app").unwrap().len(), 2);
    assert_eq!(d.pid_to_pkg.get(&9).unwrap(), "com.app");
    // The first user id stays, and it counts as well.
    assert!(!start(&mut d, "com.sys", 10, 99_000, "service", T0 + 600).0);
    assert_eq!(d.pkg_to_uid.get("com.sys"), Some(&9_999));
    assert!(!d.alive_apps.contains_key("com.sys"));
    assert!(d.plan_reaping(T0 + 1_000_000, true).iter().all(|p| p.pkg != "com.sys"));
    assert_eq!(d.session_stats.bg_spawns, 6);
    assert_eq!(d.session_stats.spawn_rss_kb, 6 * 2048);
}

#[test]
fn a_start_under_a_system_user_id_is_only_indexed() {
    let mut d = daemon();
    d.pkg_to_uid.insert("com.shared".to_string(), 10_005);
    for (pid, uid) in [(40, 0), (41, 1000), (42, 9_999)] {
        assert!(!start(&mut d, "com.shared", pid, uid, "service", T0).0);
        assert!(d.alive_apps.is_empty());
        assert_eq!(d.pid_to_pkg.get(&pid).unwrap(), "com.shared");
        assert!(d.pkg_to_pids.get("com.shared").unwrap().contains(&pid));
        assert_eq!(d.pkg_to_uid.get("com.shared"), Some(&10_005));
    }
    assert_eq!(d.pkg_to_pids.get("com.shared").unwrap().len(), 3);
    assert!(d.plan_reaping(T0 + 1_000_000, true).is_empty());
    // The app's own process makes it evictable; one of the system beside it changes nothing.
    assert!(start(&mut d, "com.shared", 43, 10_005, "service", T0 + 100).0);
    assert_eq!(d.alive_apps.get("com.shared"), Some(&(T0 + 100)));
    assert!(!start(&mut d, "com.shared", 44, 9_999, "service", T0 + 200).0);
    assert_eq!(d.alive_apps.get("com.shared"), Some(&(T0 + 100)));
    assert_eq!(d.alive_apps.len(), 1);
    // A name that is not known yet gets the user id that it starts under.
    assert!(!start(&mut d, "com.daemon", 45, 9_999, "service", T0 + 300).0);
    assert_eq!(d.pkg_to_uid.get("com.daemon"), Some(&9_999));
    assert!(!d.alive_apps.contains_key("com.daemon"));
}

#[test]
fn the_foreground_app_does_not_count_as_background() {
    let mut d = daemon();
    resume(&mut d, "com.app", T0);
    assert!(!start(&mut d, "com.app", 5, 10_000, "service", T0).0);
    assert_eq!(d.session_stats.bg_spawns, 0);
    d.on_proc_died(&ProcDiedEvent { pid: 5 }, T0 + 1);
    assert_eq!(d.session_stats.bg_deaths, 0);
    assert!(d.recent_deaths.contains_key("com.app"));
}

#[test]
fn deaths_are_followed_by_respawns() {
    let mut d = daemon();
    start(&mut d, "com.app", 5, 10_000, "service", T0);
    start(&mut d, "com.app", 6, 10_000, "service", T0);
    d.on_proc_died(&ProcDiedEvent { pid: 5 }, T0 + 1_000);
    assert!(d.alive_apps.contains_key("com.app"));
    d.on_proc_died(&ProcDiedEvent { pid: 6 }, T0 + 2_000);
    assert!(!d.alive_apps.contains_key("com.app"));
    assert!(!d.pid_to_pkg.contains_key(&5));
    assert_eq!(d.session_stats.bg_deaths, 2);
    d.on_proc_died(&ProcDiedEvent { pid: 6 }, T0 + 3_000);
    assert_eq!(d.session_stats.bg_deaths, 2);

    let (_, out) = start(&mut d, "com.app", 7, 10_000, "service", T0 + 122_000);
    assert_eq!(
        out[0].to_json(),
        format!(
            "{{\"ts\":{},\"event\":\"respawn\",\"pkg\":\"com.app\",\"gap_ms\":120000,\"pid\":7,\"uid\":10000,\"type\":\"service\"}}",
            T0 + 122_000
        )
    );
    d.on_proc_died(&ProcDiedEvent { pid: 7 }, T0 + 130_000);
    let (_, out) = start(&mut d, "com.app", 8, 10_000, "service", T0 + 250_001);
    assert!(out.is_empty());
    assert!(!d.recent_deaths.contains_key("com.app"));
}

#[test]
fn old_deaths_are_forgotten_when_there_are_many() {
    let mut d = daemon();
    for pid in 1..=64u32 {
        start(&mut d, &format!("com.a{}", pid), pid, 10_000, "service", T0);
        d.on_proc_died(&ProcDiedEvent { pid }, T0 + pid as u64);
    }
    assert_eq!(d.recent_deaths.len(), 64);
    start(&mut d, "com.last", 99, 10_000, "service", T0);
    d.on_proc_died(&ProcDiedEvent { pid: 99 }, T0 + 120_060);
    // Those that died at T0 + 60 or later stay, and the last one.
    assert_eq!(d.recent_deaths.len(), 6);
    assert!(!d.recent_deaths.contains_key("com.a59"));
    assert!(d.recent_deaths.contains_key("com.a60"));
}

#[test]
fn the_screen_tells_how_long_it_was_on() {
    let mut d = daemon();
    start(&mut d, "com.app", 5, 10_000, "service", T0);
    let mut out = Vec::new();
    d.on_screen_toggled(true, T0 + 500, &mut out);
    assert!(out.is_empty());
    d.on_screen_toggled(false, T0 + 74_600, &mut out);
    assert_eq!(names(&out), ["screen_state", "bg_summary"]);
    assert!(out[0].to_json().contains("\"state\":\"OFF\",\"active_duration_sec\":74}"));
    assert_eq!(out[0].duration_ms(), Some(74_600));
    assert!(out[1].to_json().contains("\"interval_sec\":74,\"spawns\":1,\"deaths\":0"));
    assert_eq!(d.session_start, T0 + 74_600);
    assert_eq!((d.screen_on, d.screen_on_start, d.screen_off_start), (false, None, Some(T0 + 74_600)));

    let mut out = Vec::new();
    d.on_screen_toggled(true, T0 + 219_000, &mut out);
    assert_eq!(names(&out), ["screen_state"]);
    assert!(out[0].to_json().contains("\"state\":\"ON\",\"off_duration_sec\":144}"));
    assert_eq!((d.screen_on, d.screen_on_start, d.screen_off_start), (true, Some(T0 + 219_000), None));
}

#[test]
fn summaries_start_the_session_anew() {
    let mut d = daemon();
    let mut out = Vec::new();
    d.emit_bg_summary(T0 + 9, 1, &mut out);
    assert!(out.is_empty());
    assert_eq!(d.session_start, T0);
    d.session_stats.bg_deaths = 1;
    d.emit_bg_summary(T0 + 9, 1, &mut out);
    assert_eq!(names(&out), ["bg_summary"]);
    assert_eq!(d.session_start, T0 + 9);
    assert_eq!(d.session_stats.bg_deaths, 0);
}

#[test]
fn events_are_handed_on() {
    let mut d = daemon();
    let mut out = Vec::new();
    let mut handle = |d: &mut DaemonState, line: &str, now: u64| -> bool {
        let event = parse_logcat_line(line).unwrap();
        d.handle_event(&event, now, 100, &mut out)
    };
    assert!(handle(&mut d, "I/wm_resume_activity: [0,1,2,com.a/.B]", T0));
    assert!(!handle(&mut d, "I/wm_resume_activity: [0,1,2,com.a/.B]", T0 + 1));
    assert!(handle(&mut d, "I/am_proc_start: [0,5,10005,com.b:x,service,{}]", T0 + 2));
    assert_eq!(d.pid_to_pkg.get(&5).unwrap(), "com.b");
    assert!(!handle(&mut d, "I/am_proc_died: [0,5,com.b:x,900,16]", T0 + 3));
    assert!(!handle(&mut d, "I/device_idle_light_step: ", T0 + 4));
    assert!(!handle(&mut d, "I/screen_toggled: 0", T0 + 5));
    assert!(handle(&mut d, "I/device_idle_light_step: ", T0 + 6));
    d.config.screen_off_harvest = false;
    assert!(!handle(&mut d, "I/device_idle_light_step: ", T0 + 7));
    assert!(matches!(parse_logcat_line("I/device_idle_light_step: "), Some(LogcatEvent::DeviceIdleLightStep)));
    assert_eq!(names(&out), ["fg_switch", "fg_switch", "screen_state", "bg_summary"]);
}

#[test]
fn seconds_are_whole() {
    assert_eq!(whole_seconds_since(None, 5), 0);
    assert_eq!(whole_seconds_since(Some(1_000), 2_999), 1);
    assert_eq!(whole_seconds_since(Some(3_000), 2_999), 0);
}

#[test]
fn the_log_switch_changes_no_decision() {
    let mut on = daemon();
    let mut off = daemon();
    off.config.log_enabled = false;
    for d in [&mut on, &mut off] {
        start(d, "com.b", 5, 10_005, "service", T0);
        resume(d, "com.a", T0 + 1);
    }
    let plan = |d: &DaemonState| -> Vec<String> { d.plan_reaping(T0 + 600_000, false).iter().map(|p| p.pkg.clone()).collect() };
    assert_eq!(plan(&on), ["com.b"]);
    assert_eq!(plan(&on), plan(&off));
}
