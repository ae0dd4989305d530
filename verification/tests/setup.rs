use mini_lmk::daemon::DaemonState;
use mini_lmk::hasher::FastSet;
use mini_lmk::records::Record;
use mini_lmk::setup::{default_max_kills, load_file_lines, page_size_in_kb, parse_cmdline, ComponentQuery};

const T0: u64 = 1_700_000_000_000;

fn daemon() -> DaemonState {
    DaemonState::new(true, true, 6000, 4, T0)
}

#[test]
fn kills_per_pass_follow_the_memory() {
    assert_eq!(default_max_kills(0), 4);
    assert_eq!(default_max_kills(4608), 4);
    assert_eq!(default_max_kills(4609), 2);
    assert_eq!(default_max_kills(8704), 2);
    assert_eq!(default_max_kills(8705), 1);
    assert_eq!(DaemonState::new(false, true, 12_000, 4, 0).config.max_kills_per_pass, 1);
}

#[test]
fn pages_have_four_kilobytes_unless_told_otherwise() {
    assert_eq!(page_size_in_kb(4096), 4);
    assert_eq!(page_size_in_kb(16384), 16);
    assert_eq!(page_size_in_kb(0), 4);
    assert_eq!(page_size_in_kb(-1), 4);
    assert_eq!(page_size_in_kb(100), 0);
}

#[test]
fn the_start() {
    let d = DaemonState::new(true, false, 4000, 16, T0);
    assert_eq!(d.config.max_kills_per_pass, 4);
    assert_eq!(d.config.t_idle_sec, 180);
    assert_eq!((d.screen_on, d.screen_on_start, d.screen_off_start), (false, None, Some(T0)));
    assert_eq!((d.session_start, d.last_event_epoch, d.page_size_kb), (T0, T0, 16));
    assert!(d.act_mode && !d.is_gaming);
    assert!(d.alive_apps.is_empty() && d.fg_lru.is_empty() && d.current_fg.is_none());
    assert_eq!(daemon().screen_on_start, Some(T0));
}

#[test]
fn lists_hold_names_and_comments() {
    let mut set: FastSet<String> = FastSet::new();
    set.insert("com.old".to_string());
    load_file_lines(Some("# games\n  com.a  \r\n\n#com.b\ncom.c # not a comment\n"), &mut set);
    assert_eq!(set.len(), 2);
    assert!(set.contains("com.a"));
    assert!(set.contains("com.c # not a comment"));
    load_file_lines(None, &mut set);
    assert!(set.is_empty());
}

#[test]
fn reloading_tells_of_changes_only() {
    let mut d = daemon();
    let first = d.reload_configs(None, None, None, true, T0);
    assert!(matches!(first, Some(Record::ConfigReload { .. })));
    assert!(d.reload_configs(None, Some("com.x"), Some("com.g"), false, T0).is_none());
    assert!(d.user_exclusions.contains("com.x"));
    assert!(d.games.contains("com.g"));
    d.alive_apps.insert("com.alive".to_string(), T0);
    let changed = d.reload_configs(Some("t_idle_sec=60\nmin_oom_score_adj=1"), None, None, false, T0 + 5).unwrap();
    assert!(changed.to_json().contains("\"t_idle_sec\":60"));
    assert!(changed.to_json().contains("\"min_oom_score_adj\":500"));
    assert_eq!(changed.ts(), T0 + 5);
    assert!(d.user_exclusions.is_empty() && d.games.is_empty());
    assert!(d.alive_apps.contains_key("com.alive"));
    assert!(d.reload_configs(Some("t_idle_sec=60"), None, None, false, T0 + 6).is_none());
    // A file that cannot be read keeps what was set.
    assert!(d.reload_configs(None, None, None, false, T0 + 7).is_none());
    assert_eq!(d.config.t_idle_sec, 60);
}

#[test]
fn the_command_line_wins_over_the_log_switch() {
    let mut d = daemon();
    assert!(d.log_wanted(false));
    assert!(!d.log_wanted(true));
    d.reload_configs(Some("log_enabled=false"), None, None, false, T0);
    assert!(!d.log_wanted(false) && !d.log_wanted(true));
    d.reload_configs(Some("log_enabled=true"), None, None, false, T0);
    assert!(d.log_wanted(false) && !d.log_wanted(true));
}

#[test]
fn command_lines_name_processes() {
    assert_eq!(parse_cmdline(b"com.a.b:push\0--x\0"), Some("com.a.b:push"));
    assert_eq!(parse_cmdline(b" com.a \0"), Some("com.a"));
    assert_eq!(parse_cmdline(b"com.a"), Some("com.a"));
    assert_eq!(parse_cmdline(b"/system/bin/x.y\0"), None);
    assert_eq!(parse_cmdline(b"-com.a\0"), None);
    assert_eq!(parse_cmdline(b"zygote\0"), None);
    assert_eq!(parse_cmdline(b"com.\xff\0"), None);
    assert_eq!(parse_cmdline(b"\0com.a"), None);
    assert_eq!(parse_cmdline(b""), None);
}

#[test]
fn processes_that_run_already_are_indexed_but_not_evictable() {
    let mut d = daemon();
    d.seed_process(7, 10_007, b"com.a.b:push\0");
    d.seed_process(8, 10_007, b"com.a.b\0");
    d.seed_process(9, 0, b"/init\0");
    assert_eq!(d.pid_to_pkg.len(), 2);
    assert_eq!(d.pid_to_pkg.get(&7).unwrap(), "com.a.b");
    assert_eq!(d.pkg_to_pids.get("com.a.b").unwrap().len(), 2);
    assert_eq!(d.pkg_to_uid.get("com.a.b"), Some(&10_007));
    assert!(d.alive_apps.is_empty());
    assert!(d.plan_reaping(u64::MAX, true).is_empty());
    d.seed_process(8, 1_000, b"com.a.b\0");
    assert_eq!(d.pkg_to_uid.get("com.a.b"), Some(&1_000));
}

#[test]
fn default_apps_are_asked_for_one_after_the_other() {
    let mut asked = vec![ComponentQuery::HomeRole];
    while let Some(next) = asked.last().unwrap().next(true) {
        asked.push(next);
    }
    assert_eq!(
        asked,
        [
            ComponentQuery::HomeRole,
            ComponentQuery::DialerRole,
            ComponentQuery::SmsRole,
            ComponentQuery::InputMethod,
            ComponentQuery::Wallpaper,
        ]
    );
    assert_eq!(ComponentQuery::SmsRole.next(false), Some(ComponentQuery::HomeActivity));
    assert_eq!(ComponentQuery::HomeActivity.next(false), Some(ComponentQuery::InputMethod));
}

#[test]
fn only_the_home_role_tells_of_a_home_app() {
    assert!(ComponentQuery::HomeRole.home_found_after(1, false));
    assert!(!ComponentQuery::HomeRole.home_found_after(0, false));
    assert!(!ComponentQuery::DialerRole.home_found_after(3, false));
    assert!(ComponentQuery::SmsRole.home_found_after(0, true));
}

#[test]
fn default_apps_are_excluded() {
    let mut d = daemon();
    assert_eq!(d.take_answer(ComponentQuery::HomeRole, "com.home.a\nnull\ncom.home.b\n"), ["com.home.a", "com.home.b"]);
    assert_eq!(d.take_answer(ComponentQuery::HomeActivity, "priority=0\ncom.l/.L\n"), ["com.l"]);
    assert_eq!(d.take_answer(ComponentQuery::InputMethod, "0:com.ime/.Svc\n"), ["com.ime"]);
    assert!(d.take_answer(ComponentQuery::Wallpaper, "null\n").is_empty());
    assert_eq!(d.dynamic_exclusions.len(), 4);
    for pkg in ["com.home.a", "com.home.b", "com.l", "com.ime"] {
        assert!(d.is_excluded(pkg));
    }
    d.clear_system_components();
    assert!(d.dynamic_exclusions.is_empty());
}
