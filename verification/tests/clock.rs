use mini_lmk::clock::shift_ms;
use mini_lmk::daemon::DaemonState;
use mini_lmk::parser::LogcatEvent;

fn daemon_for_test(bootstrap_epoch: u64) -> DaemonState {
    DaemonState::new(true, true, 6000, 4, bootstrap_epoch)
}

#[test]
fn test_clock_jump_ms() {
    // First event after bootstrap: no previous sample, nothing to compensate.
    assert_eq!(DaemonState::clock_jump_ms(0, 1_700_000_000_000), 0);

    // Quiet periods are real elapsed time, never a clock step (regression guard).
    assert_eq!(DaemonState::clock_jump_ms(1_700_000_000_000, 1_700_000_060_000), 0);
    assert_eq!(DaemonState::clock_jump_ms(1_700_000_000_000, 1_800_000_000_000), 0);
    assert_eq!(DaemonState::clock_jump_ms(1_700_000_000_000, 1_700_000_000_000), 0);

    // Backward settimeofday() correction of 10s.
    assert_eq!(DaemonState::clock_jump_ms(1_700_000_010_000, 1_700_000_000_000), -10_000);

    // Unsynchronized boot RTC jumping forward to NTP-synced time.
    assert_eq!(
        DaemonState::clock_jump_ms(15_000, 1_700_000_000_000),
        1_699_999_985_000
    );
}

#[test]
fn test_bootstrap_clock_step_rebases_bootstrap_anchors() {
    // A dead coin cell leaves the RTC in the pre-2020 band; the first event of the
    // stream arrives after the clock has been corrected. Anchors stamped from the boot
    // clock have to be rebased, or every interval derived from them spans decades.
    let boot_ms = 1_234_567_890_000u64; // 2009, below RTC_SYNC_FLOOR_MS
    let first_event_ms = 1_777_998_045_123u64; // post-sync
    let idle = "com.example.idle";
    let mut d = daemon_for_test(boot_ms);
    d.alive_apps.insert(idle.into(), boot_ms);
    d.recent_deaths.insert("com.example.dead".into(), boot_ms);

    let jump = DaemonState::clock_jump_ms(d.last_event_epoch, first_event_ms);
    assert!(jump > 0, "pre-sync boot stamp is not a quiet gap");
    d.apply_clock_jump(jump);

    // Bootstrap-stamped ages collapse to ~0 instead of ~56 years.
    assert_eq!(d.session_start, first_event_ms);
    assert_eq!(d.screen_on_start, Some(first_event_ms));
    assert_eq!(*d.alive_apps.get(idle).unwrap(), first_event_ms);
    assert_eq!(*d.recent_deaths.get("com.example.dead").unwrap(), first_event_ms);

    // A correct boot clock followed by an ordinary quiet gap stays untouched.
    let mut d2 = daemon_for_test(first_event_ms);
    d2.alive_apps.insert(idle.into(), first_event_ms);
    let later = first_event_ms + 3_600_000;
    let jump2 = DaemonState::clock_jump_ms(d2.last_event_epoch, later);
    assert_eq!(jump2, 0, "silence is elapsed time, not a step");
    d2.apply_clock_jump(jump2);
    assert_eq!(d2.session_start, first_event_ms);
    assert_eq!(d2.screen_on_start, Some(first_event_ms));
    assert_eq!(later - d2.alive_apps.get(idle).unwrap(), 3_600_000);
}

#[test]
fn shifting_stops_at_the_ends() {
    assert_eq!(shift_ms(10, 5), 15);
    assert_eq!(shift_ms(10, -5), 5);
    assert_eq!(shift_ms(10, -11), 0);
    assert_eq!(shift_ms(u64::MAX - 1, 5), u64::MAX);
    assert_eq!(shift_ms(u64::MAX, i64::MIN), u64::MAX - (1u64 << 63));
    assert_eq!(shift_ms(0, i64::MAX), i64::MAX as u64);
}

#[test]
fn ages_survive_a_step_back() {
    let mut d = daemon_for_test(1_700_000_100_000);
    d.alive_apps.insert("com.a".to_string(), 1_700_000_040_000);
    d.game_session_start = Some(1_700_000_090_000);
    d.fg_since = Some(1_700_000_099_700);
    let (now, event) = d.dispatch_logcat_line("1700000000.000  1 2 I screen_toggled: 0").unwrap();
    assert_eq!(now, 1_700_000_000_000);
    assert!(matches!(event, LogcatEvent::ScreenToggled(false)));
    assert_eq!(now - d.alive_apps.get("com.a").unwrap(), 60_000);
    assert_eq!(d.game_session_start, Some(1_699_999_990_000));
    assert_eq!(d.fg_since, Some(1_699_999_999_700));
    assert_eq!(d.session_start, now);
    assert_eq!(d.screen_on_start, Some(now));
    assert_eq!(d.screen_off_start, None);
    assert_eq!(d.last_event_epoch, now);
}

#[test]
fn lines_without_an_event_change_nothing() {
    let mut d = daemon_for_test(1_700_000_100_000);
    assert!(d.dispatch_logcat_line("1600000000.000 1 2 I am_anr: [0]").is_none());
    assert!(d.dispatch_logcat_line("--------- beginning of events").is_none());
    assert_eq!(d.last_event_epoch, 1_700_000_100_000);
    assert_eq!(d.session_start, 1_700_000_100_000);
}

#[test]
fn quiet_time_moves_nothing() {
    let mut d = daemon_for_test(1_700_000_100_000);
    d.alive_apps.insert("com.a".to_string(), 1_700_000_040_000);
    let (now, _) = d.dispatch_logcat_line("1800000000.250 1 2 I device_idle_light_step: []").unwrap();
    assert_eq!(now, 1_800_000_000_250);
    assert_eq!(*d.alive_apps.get("com.a").unwrap(), 1_700_000_040_000);
    assert_eq!(d.session_start, 1_700_000_100_000);
    assert_eq!(d.last_event_epoch, 1_800_000_000_250);
}
