use mini_lmk::daemon::DaemonState;
use mini_lmk::reaping::{Candidate, Probe};

const T0: u64 = 1_700_000_000_000;

fn daemon(act_mode: bool) -> DaemonState {
    DaemonState::new(act_mode, true, 6000, 4, T0)
}

fn add_app(d: &mut DaemonState, pkg: &str, pids: &[u32], last_active: u64) {
    d.alive_apps.insert(pkg.to_string(), last_active);
    d.pkg_to_uid.insert(pkg.to_string(), 10_000);
    let mut set = mini_lmk::hasher::FastSet::new();
    for &pid in pids {
        set.insert(pid);
        d.pid_to_pkg.insert(pid, pkg.to_string());
    }
    d.pkg_to_pids.insert(pkg.to_string(), set);
}

fn planned(d: &DaemonState, now: u64, low_mem: bool) -> Vec<String> {
    let mut names: Vec<String> = d.plan_reaping(now, low_mem).into_iter().map(|p| p.pkg).collect();
    names.sort();
    names
}

/// What is read of the processes: `rss` gives the memory of each.
fn read(probes: &Vec<Probe>, rss: fn(u32) -> u64) -> Vec<Vec<u64>> {
    probes.iter().map(|p| p.pids.iter().map(|&pid| rss(pid)).collect()).collect()
}

#[test]
fn idle_apps_are_planned() {
    let mut d = daemon(true);
    add_app(&mut d, "com.idle", &[1, 2], T0);
    add_app(&mut d, "com.young", &[3], T0 + 1_000);
    let now = T0 + 180_000;
    let plan = d.plan_reaping(now, false);
    assert_eq!(plan.len(), 1);
    assert_eq!(plan[0].pkg, "com.idle");
    assert_eq!(plan[0].idle_sec, 180);
    assert_eq!(plan[0].lru_pos, 99);
    let mut pids = plan[0].pids.clone();
    pids.sort();
    assert_eq!(pids, [1, 2]);
    assert_eq!(planned(&d, now + 1_000, false), ["com.idle", "com.young"]);
}

#[test]
fn excluded_and_recent_apps_are_spared() {
    let mut d = daemon(true);
    for pkg in ["com.user", "com.ime", "com.fg", "com.r1", "com.r2", "com.r3", "com.free"] {
        add_app(&mut d, pkg, &[1], T0);
    }
    d.user_exclusions.insert("com.user".to_string());
    d.dynamic_exclusions.insert("com.ime".to_string());
    d.current_fg = Some("com.fg".to_string());
    for pkg in ["com.r3", "com.r2", "com.r1"] {
        d.fg_lru.push_front(pkg.to_string());
    }
    let now = T0 + 180_000;
    assert_eq!(planned(&d, now, false), ["com.free"]);
    d.config.lru_protect_depth = 1;
    assert_eq!(planned(&d, now, false), ["com.free", "com.r2", "com.r3"]);
    let plan = d.plan_reaping(now, false);
    let pos = |pkg: &str| plan.iter().find(|p| p.pkg == pkg).unwrap().lru_pos;
    assert_eq!((pos("com.r2"), pos("com.r3"), pos("com.free")), (1, 2, 99));
    // However many are protected, an app outside the history is not.
    for depth in [99, 100, usize::MAX] {
        d.config.lru_protect_depth = depth;
        assert_eq!(planned(&d, now, false), ["com.free"]);
        assert_eq!(d.plan_reaping(now, false)[0].lru_pos, 99);
    }
}

#[test]
fn games_and_low_memory_leave_ten_seconds() {
    let mut d = daemon(true);
    add_app(&mut d, "com.a", &[1], T0);
    assert!(planned(&d, T0 + 10_000, false).is_empty());
    assert!(planned(&d, T0 + 9_999, true).is_empty());
    assert_eq!(planned(&d, T0 + 10_000, true), ["com.a"]);
    d.games.insert("com.game".to_string());
    d.current_fg = Some("com.game".to_string());
    assert!(planned(&d, T0 + 9_999, false).is_empty());
    assert_eq!(planned(&d, T0 + 10_000, false), ["com.a"]);
}

#[test]
fn a_dark_screen_shortens_the_wait() {
    let mut d = daemon(true);
    add_app(&mut d, "com.a", &[1], T0);
    add_app(&mut d, "com.last", &[2], T0);
    d.fg_lru.push_back("com.last".to_string());
    d.fg_lru.push_back("com.a".to_string());
    d.screen_on = false;
    d.screen_off_start = Some(T0);
    assert!(planned(&d, T0 + 59_999, false).is_empty());
    assert_eq!(planned(&d, T0 + 60_000, false), ["com.a"]);
    // Off for longer than a minute: half a minute is enough.
    d.alive_apps.insert("com.a".to_string(), T0 + 31_000);
    assert_eq!(planned(&d, T0 + 61_000, false), ["com.a"]);
    d.config.screen_off_harvest = false;
    assert!(planned(&d, T0 + 100_000, false).is_empty());
}

#[test]
fn a_long_session_shortens_the_wait() {
    let mut d = daemon(true);
    // It runs for long, but came to the foreground only now.
    add_app(&mut d, "com.fg", &[1], T0 - 1_000_000);
    add_app(&mut d, "com.a", &[2], T0 + 240_000);
    d.current_fg = Some("com.fg".to_string());
    d.fg_since = Some(T0);
    assert!(planned(&d, T0 + 300_999, false).is_empty());
    assert_eq!(planned(&d, T0 + 301_000, false), ["com.a"]);
    // It takes a screen that is on.
    d.screen_on = false;
    d.config.screen_off_harvest = false;
    assert!(planned(&d, T0 + 301_000, false).is_empty());
    assert_eq!(planned(&d, T0 + 420_000, false), ["com.a"]);
    d.screen_on = true;
    assert_eq!(planned(&d, T0 + 301_000, false), ["com.a"]);
    d.fg_since = None;
    assert!(planned(&d, T0 + 301_000, false).is_empty());
}

#[test]
fn the_heaviest_are_victims() {
    let mut d = daemon(true);
    add_app(&mut d, "com.small", &[10], T0);
    add_app(&mut d, "com.big", &[20, 21], T0);
    add_app(&mut d, "com.mid", &[30], T0);
    d.config.max_kills_per_pass = 2;
    let plan = d.plan_reaping(T0 + 180_000, false);
    let readings = read(&plan, |pid| pid as u64 * 10);
    let victims = d.select_victims(&plan, &readings);
    let got: Vec<(&str, u64)> = victims.iter().map(|v| (v.pkg.as_str(), v.total_rss_kb)).collect();
    assert_eq!(got, [("com.big", 410), ("com.mid", 300)]);
    assert_eq!(victims[0].live_pids.len(), 2);
    assert_eq!(victims[0].idle_sec, 180);
}

#[test]
fn what_is_gone_is_forgotten() {
    let mut d = daemon(true);
    add_app(&mut d, "com.gone", &[1, 2], T0);
    add_app(&mut d, "com.half", &[3, 4], T0);
    add_app(&mut d, "com.none", &[], T0);
    let plan = d.plan_reaping(T0 + 180_000, false);
    assert_eq!(plan.len(), 3);
    let readings = read(&plan, |pid| if pid == 4 { 77 } else { 0 });
    let victims = d.select_victims(&plan, &readings);
    assert_eq!(victims.len(), 1);
    assert_eq!(victims[0].pkg, "com.half");
    assert_eq!(victims[0].live_pids, [4]);
    assert_eq!(d.alive_apps.len(), 1);
    assert_eq!(d.pid_to_pkg.len(), 1);
    assert_eq!(d.pid_to_pkg.get(&4).unwrap(), "com.half");
    assert!(d.pkg_to_pids.get("com.gone").is_none());
    let left = d.pkg_to_pids.get("com.half").unwrap();
    assert!(left.contains(&4) && !left.contains(&3));
}

fn victim(pids: &[u32]) -> Candidate {
    Candidate { pkg: "com.v".to_string(), live_pids: pids.to_vec(), total_rss_kb: 2048, idle_sec: 200, lru_pos: 5 }
}

#[test]
fn the_least_score_decides() {
    let d = daemon(true);
    let verdict = d.judge(&victim(&[1, 2]), &vec![Some(950), Some(900)]);
    assert_eq!((verdict.oom_adj, verdict.ams_protected, verdict.kill), (900, false, true));
    let verdict = d.judge(&victim(&[1, 2]), &vec![Some(950), Some(-800)]);
    assert_eq!((verdict.oom_adj, verdict.ams_protected, verdict.kill), (-800, true, false));
    // A score that cannot be read counts as 0.
    let verdict = d.judge(&victim(&[1, 2]), &vec![Some(950), None]);
    assert_eq!((verdict.oom_adj, verdict.ams_protected), (0, true));
    let verdict = d.judge(&victim(&[]), &vec![]);
    assert_eq!((verdict.oom_adj, verdict.ams_protected), (0, true));
    let mut lenient = daemon(true);
    lenient.config.min_oom_score_adj = 500;
    assert!(lenient.judge(&victim(&[1]), &vec![Some(500)]).kill);
}

#[test]
fn observing_kills_nothing() {
    let mut d = daemon(false);
    let v = victim(&[1]);
    let verdict = d.judge(&v, &vec![Some(1000)]);
    assert!(!verdict.ams_protected && !verdict.kill);
    let record = d.conclude(&v, verdict, false, T0, false);
    assert!(record.to_json().contains("\"event\":\"simulated_kill\""));
    assert!(record.to_json().contains("\"spawned\":null"));
}

#[test]
fn a_killed_victim_is_not_a_victim_again() {
    let mut d = daemon(true);
    add_app(&mut d, "com.v", &[1], T0);
    let now = T0 + 200_000;
    let v = victim(&[1]);
    let verdict = d.judge(&v, &vec![Some(900)]);
    let record = d.conclude(&v, verdict, true, now, false);
    assert_eq!(
        record.to_json(),
        format!(
            "{{\"ts\":{},\"event\":\"kill\",\"pkg\":\"com.v\",\"pids\":[1],\"rss_freed_est_kb\":2048,\"reason\":\"idle_expired\",\"idle_sec\":200,\"lru_pos\":5,\"spawned\":true,\"oom_score_adj\":900,\"ams_protected\":false,\"spawn_skipped\":false}}",
            now
        )
    );
    assert!(!d.alive_apps.contains_key("com.v"));
    assert!(planned(&d, now + 1_000_000, true).is_empty());
    // Its processes stay known, so that their deaths are noticed.
    assert_eq!(d.pid_to_pkg.get(&1).unwrap(), "com.v");
}

#[test]
fn a_protected_victim_waits_anew() {
    let mut d = daemon(true);
    add_app(&mut d, "com.v", &[1], T0);
    let now = T0 + 200_000;
    let v = victim(&[1]);
    let verdict = d.judge(&v, &vec![Some(200)]);
    let record = d.conclude(&v, verdict, true, now, true);
    let json = record.to_json();
    assert!(json.contains("\"event\":\"kill_skipped\""));
    assert!(json.contains("\"spawned\":false"));
    assert!(json.contains("\"reason\":\"low_memory_escalation\""));
    assert_eq!(d.alive_apps.get("com.v"), Some(&now));
    assert!(planned(&d, now + 179_999, false).is_empty());
    assert_eq!(planned(&d, now + 180_000, false), ["com.v"]);
}

#[test]
fn a_game_is_the_first_reason() {
    let mut d = daemon(true);
    d.games.insert("com.game".to_string());
    d.current_fg = Some("com.game".to_string());
    let v = victim(&[1]);
    let verdict = d.judge(&v, &vec![Some(900)]);
    let record = d.conclude(&v, verdict, false, T0, true);
    assert!(record.to_json().contains("\"reason\":\"game_mode_escalation\""));
    assert!(record.to_json().contains("\"spawned\":false"));
}

#[test]
fn a_whole_pass() {
    let mut d = daemon(true);
    d.config.max_kills_per_pass = 1;
    add_app(&mut d, "com.a", &[1], T0);
    add_app(&mut d, "com.b", &[2], T0);
    let mut killed = Vec::new();
    for step in 0..3u64 {
        let now = T0 + 200_000 + step;
        let plan = d.plan_reaping(now, false);
        let readings = read(&plan, |pid| pid as u64);
        for v in d.select_victims(&plan, &readings) {
            let verdict = d.judge(&v, &vec![Some(900); v.live_pids.len()]);
            assert!(verdict.kill);
            d.conclude(&v, verdict, true, now, false);
            killed.push(v.pkg);
        }
    }
    assert_eq!(killed, ["com.b", "com.a"]);
}
