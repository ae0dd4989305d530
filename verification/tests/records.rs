use mini_lmk::config::RuntimeConfig;
use mini_lmk::records::{kill_telemetry_parts, reason_name, KillRecord, Reason, Record};
use mini_lmk::telemetry::SessionStats;

#[test]
fn test_kill_telemetry_parts() {
    assert_eq!(kill_telemetry_parts(true, false), ("kill", "KILL", "", false));
    assert_eq!(
        kill_telemetry_parts(true, true),
        ("kill_skipped", "KILL_SKIP", " (ams_protected: spawn skipped)", true)
    );
    assert_eq!(
        kill_telemetry_parts(false, false),
        ("simulated_kill", "SIM_KILL", " (simulated)", true)
    );
    assert_eq!(
        kill_telemetry_parts(false, true),
        ("simulated_kill", "SIM_KILL", " (simulated, ams_protected: spawn skipped)", true)
    );
}

fn kill(act_mode: bool, ams_protected: bool) -> KillRecord {
    KillRecord {
        ts: 1790255286893,
        act_mode,
        pkg: "com.google.android.youtube".to_string(),
        pids: vec![3939, 40],
        rss_kb: 188_999,
        reason: Reason::IdleExpired,
        idle_sec: 410,
        lru_pos: 4,
        spawned: if act_mode { Some(!ams_protected) } else { None },
        oom_adj: if ams_protected { -200 } else { 950 },
        ams_protected,
    }
}

#[test]
fn a_kill_as_json() {
    assert_eq!(
        Record::Kill(kill(true, false)).to_json(),
        r#"{"ts":1790255286893,"event":"kill","pkg":"com.google.android.youtube","pids":[3939, 40],"rss_freed_est_kb":188999,"reason":"idle_expired","idle_sec":410,"lru_pos":4,"spawned":true,"oom_score_adj":950,"ams_protected":false,"spawn_skipped":false}"#
    );
    assert_eq!(
        Record::Kill(kill(true, true)).to_json(),
        r#"{"ts":1790255286893,"event":"kill_skipped","pkg":"com.google.android.youtube","pids":[3939, 40],"rss_freed_est_kb":188999,"reason":"idle_expired","idle_sec":410,"lru_pos":4,"spawned":false,"oom_score_adj":-200,"ams_protected":true,"spawn_skipped":true}"#
    );
    let mut simulated = kill(false, false);
    simulated.pids = Vec::new();
    simulated.reason = Reason::LowMemory;
    assert_eq!(
        Record::Kill(simulated).to_json(),
        r#"{"ts":1790255286893,"event":"simulated_kill","pkg":"com.google.android.youtube","pids":[],"rss_freed_est_kb":188999,"reason":"low_memory_escalation","idle_sec":410,"lru_pos":4,"spawned":null,"oom_score_adj":950,"ams_protected":false,"spawn_skipped":true}"#
    );
}

#[test]
fn process_ids_are_written_as_a_debug_list() {
    for pids in [vec![], vec![7u32], vec![7, 8], vec![1, 22, 333]] {
        let mut record = kill(true, false);
        record.pids = pids.clone();
        assert!(Record::Kill(record).to_json().contains(&format!("\"pids\":{:?},", pids)));
    }
}

#[test]
fn rows_of_kills() {
    let row = |r: KillRecord| Record::Kill(r).to_row("14:22:01.126", "");
    assert_eq!(
        row(kill(true, false)),
        "14:22:01.126   KILL         com.google.android.youtube rss=184MB  idle=410s  adj=950  lru=4 [idle_expired]"
    );
    let mut spotify = kill(true, true);
    spotify.pkg = "com.spotify.music".to_string();
    spotify.rss_kb = 312 * 1024;
    spotify.idle_sec = 200;
    spotify.oom_adj = 200;
    spotify.lru_pos = 5;
    assert_eq!(
        Record::Kill(spotify).to_row("14:22:01.127", ""),
        "14:22:01.127   KILL_SKIP    com.spotify.music          rss=312MB  idle=200s  adj=200  lru=5 [idle_expired] (ams_protected: spawn skipped)"
    );
    assert!(row(kill(false, false)).ends_with("lru=4 [idle_expired] (simulated)"));
    assert!(row(kill(false, true)).ends_with("adj=-200  lru=4 [idle_expired] (simulated, ams_protected: spawn skipped)"));
}

#[test]
fn reasons_have_names() {
    assert_eq!(reason_name(Reason::GameMode), "game_mode_escalation");
    assert_eq!(reason_name(Reason::LowMemory), "low_memory_escalation");
    assert_eq!(reason_name(Reason::IdleExpired), "idle_expired");
}

#[test]
fn the_reload_record_of_the_defaults() {
    let record = Record::ConfigReload { ts: 1790255286893, config: RuntimeConfig::default() };
    let json = record.to_json();
    assert_eq!(
        json,
        r#"{"ts":1790255286893,"event":"config_reload","t_idle_sec":180,"lru_protect_depth":3,"mem_critical_percent":10,"fg_lru_max_depth":10,"screen_off_harvest":true,"max_kills_per_pass":2,"min_oom_score_adj":900,"log_enabled":true}"#
    );
    assert_eq!(json.len() + 1, 224);
    assert_eq!(
        record.to_row("14:22:01.126", ""),
        "14:22:01.126   CONFIG_RELOAD --                         t_idle=180s  lru_depth=3  mem_crit=10%  fg_lru_max=10  harvest=true  max_kills=2"
    );
    assert_eq!(record.ts(), 1790255286893);
}

#[test]
fn summaries() {
    let record = Record::BgSummary {
        ts: 1790255285118,
        interval_sec: 420,
        stats: SessionStats { bg_spawns: 5, bg_deaths: 3, spawn_rss_kb: 65536 },
    };
    assert_eq!(
        record.to_json(),
        r#"{"ts":1790255285118,"event":"bg_summary","interval_sec":420,"spawns":5,"deaths":3,"spawn_rss_kb":65536}"#
    );
    let stats = SessionStats { bg_spawns: 5, bg_deaths: 4, spawn_rss_kb: 12 * 1024 };
    assert_eq!(
        Record::BgSummary { ts: 1, interval_sec: 144, stats }.to_row("14:25:40.201", ""),
        "14:25:40.201   BG_SUMMARY   --                         interval=144s  spawns=5  deaths=4  rss_delta=+12MB"
    );
    let stats = SessionStats { bg_spawns: 0, bg_deaths: 1, spawn_rss_kb: -1536 };
    let record = Record::BgSummary { ts: 1, interval_sec: 0, stats };
    assert!(record.to_row("", "").ends_with("rss_delta=-2MB"));
    assert!(record.to_json().ends_with("\"spawn_rss_kb\":-1536}"));
    let stats = SessionStats { bg_spawns: 0, bg_deaths: 1, spawn_rss_kb: i64::MIN };
    assert!(Record::BgSummary { ts: 1, interval_sec: 0, stats }.to_row("", "").ends_with("rss_delta=-9007199254740992MB"));
}

#[test]
fn switches_and_games() {
    let switch = |prev: Option<&str>, is_game: bool| Record::FgSwitch {
        ts: 1790255286893,
        pkg: "com.shopee.id".to_string(),
        component: "com.shopee.id/.Main$\"A\"".to_string(),
        prev: prev.map(|p| p.to_string()),
        prev_dur_ms: 14_200,
        is_game,
    };
    assert_eq!(
        switch(Some("com.android.settings"), false).to_json(),
        r#"{"ts":1790255286893,"event":"fg_switch","pkg":"com.shopee.id","component":"com.shopee.id/.Main$\"A\"","prev_dur_ms":14200,"is_game":false}"#
    );
    assert_eq!(
        switch(Some("com.android.settings"), false).to_row("14:22:01.120", "14.2"),
        "14:22:01.120   FG_SWITCH    com.shopee.id              prev=com.android.settings (14.2s)"
    );
    assert!(switch(Some("a"), true).to_row("", "14.2").ends_with("prev=a (14.2s) [GAME]"));
    assert!(switch(None, true).to_row("", "").ends_with(" cold_boot [GAME]"));
    assert!(switch(None, false).to_row("", "").ends_with(" cold_boot"));
    assert_eq!(switch(Some("a"), false).duration_ms(), Some(14_200));
    assert_eq!(switch(None, false).duration_ms(), None);

    let start = Record::GameStart { ts: 5, pkg: "com.g\n".to_string() };
    assert_eq!(start.to_json(), r#"{"ts":5,"event":"game_session_start","pkg":"com.g\n"}"#);
    assert_eq!(
        Record::GameStart { ts: 5, pkg: "com.g".to_string() }.to_row("14:22:01.120", ""),
        "14:22:01.120   GAME_START   com.g                      game_mode=active"
    );
    let end = Record::GameEnd { ts: 6, duration_sec: 61, intrusions: 2 };
    assert_eq!(end.to_json(), r#"{"ts":6,"event":"game_session_end","duration_sec":61,"intrusions":2}"#);
    assert_eq!(end.to_row("14:22:01.120", ""), "14:22:01.120   GAME_END     --                         duration=61s  intrusions=2");
    assert_eq!(end.duration_ms(), None);
}

#[test]
fn intrusions_and_respawns() {
    let intrusion = Record::GameIntrusion {
        ts: 1790255287102,
        pid: 12763,
        uid: 10130,
        pkg: "com.google.android.calculator".to_string(),
        proc_name: "com.google.android.calculator".to_string(),
        spawn_type: "service".to_string(),
        rss_kb: 45200,
        excluded: false,
    };
    assert_eq!(
        intrusion.to_json(),
        r#"{"ts":1790255287102,"event":"game_intrusion","pid":12763,"uid":10130,"pkg":"com.google.android.calculator","proc":"com.google.android.calculator","type":"service","rss_kb":45200,"excluded":false}"#
    );
    assert_eq!(
        intrusion.to_row("14:22:01.120", ""),
        "14:22:01.120   GAME_INTRUDE com.google.android.calculator type=service  rss=44MB  excluded=false"
    );
    let respawn = Record::Respawn {
        ts: 9,
        pkg: "com.a".to_string(),
        gap_ms: 1200,
        pid: 7,
        uid: 10001,
        spawn_type: "service".to_string(),
    };
    assert_eq!(respawn.to_json(), r#"{"ts":9,"event":"respawn","pkg":"com.a","gap_ms":1200,"pid":7,"uid":10001,"type":"service"}"#);
    assert_eq!(respawn.to_row("14:22:01.120", ""), "14:22:01.120   RESPAWN      com.a                      gap=1200ms  pid=7  type=service");
}

#[test]
fn screen_records() {
    let off = Record::ScreenOff { ts: 1790255284675, active_ms: 1_850_640 };
    assert_eq!(off.to_json(), r#"{"ts":1790255284675,"event":"screen_state","state":"OFF","active_duration_sec":1850}"#);
    assert_eq!(off.to_row("14:23:15.800", "74.6"), "14:23:15.800   SCREEN_OFF   --                         active_session=74.6s");
    assert_eq!(off.duration_ms(), Some(1_850_640));
    let on = Record::ScreenOn { ts: 1790255285117, off_sec: 420 };
    assert_eq!(on.to_json(), r#"{"ts":1790255285117,"event":"screen_state","state":"ON","off_duration_sec":420}"#);
    let on = Record::ScreenOn { ts: 1, off_sec: 144 };
    assert_eq!(on.to_row("14:25:40.200", ""), "14:25:40.200   SCREEN_ON    --                         sleep=144s");
    assert_eq!(on.duration_ms(), None);
    assert_eq!(on.ts(), 1);
}

#[test]
fn no_record_breaks_its_line() {
    let nasty = "a\n\r\t\u{0}\u{1f}\"\\b".to_string();
    let record = Record::GameIntrusion {
        ts: u64::MAX,
        pid: u32::MAX,
        uid: 0,
        pkg: nasty.clone(),
        proc_name: nasty.clone(),
        spawn_type: nasty.clone(),
        rss_kb: u64::MAX,
        excluded: true,
    };
    let json = record.to_json();
    assert!(json.chars().all(|c| c as u32 >= 0x20));
    assert!(json.contains("\"pkg\":\"a\\n\\r\\t\\u0000\\u001f\\\"\\\\b\""));
    assert!(record.to_row("", "").ends_with("rss=18014398509481984MB  excluded=true"));
}
