use std::borrow::Cow;

use mini_lmk::telemetry::{
    escape_json, format_time_hms_ms, needs_escape, FileStep, ReloadOrder, SessionStats, StdoutChoice, TelemetrySink, WriteStep,
    ROTATION_THRESHOLD_BYTES,
};

#[test]
fn test_format_time_hms_ms() {
    let formatted = format_time_hms_ms(1790266000120, 14, 22, 1);
    let formatted = formatted.as_str();
    assert_eq!(formatted.len(), 12);
    assert_eq!(&formatted[2..3], ":");
    assert_eq!(&formatted[5..6], ":");
    assert_eq!(&formatted[8..9], ".");
    assert_eq!(formatted, "14:22:01.120");
    assert_eq!(format_time_hms_ms(7, 0, 0, 60).as_str(), "00:00:60.007");
}

#[test]
fn test_session_stats() {
    let mut stats = SessionStats::default();
    stats.bg_spawns += 2;
    stats.spawn_rss_kb += 32768;
    stats.bg_deaths += 1;
    stats.spawn_rss_kb -= 16384;
    assert_eq!(stats.bg_spawns, 2);
    assert_eq!(stats.bg_deaths, 1);
    assert_eq!(stats.spawn_rss_kb, 16384);
}

#[test]
fn test_escape_json() {
    assert_eq!(escape_json("com.android.settings"), "com.android.settings");
    assert!(matches!(escape_json("com.android.settings"), std::borrow::Cow::Borrowed(_)));

    let bad = "pkg\"with\\escapes\nand\tcontrol";
    let escaped = escape_json(bad);
    assert_eq!(escaped, "pkg\\\"with\\\\escapes\\nand\\tcontrol");
    assert!(matches!(escaped, std::borrow::Cow::Owned(_)));
}

#[test]
fn every_control_character_is_escaped() {
    assert_eq!(escape_json("\u{0}\u{1f}\r\u{b}"), "\\u0000\\u001f\\r\\u000b");
    assert_eq!(escape_json("\u{7f}\u{e9}\u{1f600}"), "\u{7f}\u{e9}\u{1f600}");
    assert!(matches!(escape_json(""), Cow::Borrowed("")));
    for v in 0u32..0x300 {
        let c = char::from_u32(v).unwrap();
        let text = c.to_string();
        let escaped = escape_json(&text);
        assert_eq!(needs_escape(c), escaped != text.as_str());
        assert!(escaped.chars().all(|c| c as u32 >= 0x20));
    }
}

fn open_sink(json: bool, tty: bool, open: bool, size: usize) -> TelemetrySink {
    let (mut sink, step) = TelemetrySink::with_stdout("/x/operations.log", json, true, tty, size);
    assert_eq!(step, if size >= ROTATION_THRESHOLD_BYTES { FileStep::Rotate } else { FileStep::Open });
    sink.opened(open);
    sink
}

#[test]
fn output_gates() {
    // (json_stdout, stdout_tty, log_open, columnar expected, json expected)
    let cases = [
        (true, true, true, false, true),
        (true, true, false, false, true),
        (true, false, true, false, true),
        (true, false, false, false, true),
        (false, true, true, true, true),
        (false, true, false, true, false),
        (false, false, true, false, true),
        (false, false, false, false, false),
    ];
    for (json, tty, open, want_tabular, want_json) in cases {
        let sink = open_sink(json, tty, open, 0);
        let plan = sink.emit_with();
        assert_eq!(plan.table, want_tabular);
        assert_eq!(plan.json, want_json);
        assert_eq!(plan.log, open);
        let stdout = if json {
            StdoutChoice::Json
        } else if tty {
            StdoutChoice::Table
        } else {
            StdoutChoice::Nothing
        };
        assert_eq!(plan.stdout, stdout);
        assert_eq!(sink.tabular_stdout(), want_tabular);
        assert_eq!(sink.silent(), !want_tabular && !want_json);
        assert_eq!(sink.is_open(), open);
    }
}

#[test]
fn the_log_rotates_before_its_limit() {
    let line = "x".repeat(99);
    let mut sink = open_sink(false, false, true, ROTATION_THRESHOLD_BYTES - 101);
    assert_eq!(sink.write_to_log(&line), WriteStep::Append);
    sink.appended(&line);
    // One byte is left: the next line has to wait for a new file.
    assert_eq!(sink.write_to_log(""), WriteStep::RotateFirst);
    sink.rotated(true);
    assert_eq!(sink.write_to_log(""), WriteStep::Append);

    // A line that alone reaches the limit still gets a file of its own.
    let huge = "x".repeat(ROTATION_THRESHOLD_BYTES);
    assert_eq!(sink.write_to_log(&huge), WriteStep::RotateFirst);
    sink.rotated(true);
    sink.appended(&huge);
    assert_eq!(sink.write_to_log(""), WriteStep::RotateFirst);

    sink.rotated(false);
    assert!(!sink.is_open());
    assert_eq!(sink.write_to_log(""), WriteStep::Skip);
    assert_eq!(sink.log_path(), "/x/operations.log");
    assert_eq!(sink.old_log_path(), "/x/operations.log.old");
}

#[test]
fn the_log_switch_opens_and_closes() {
    let (mut sink, step) = TelemetrySink::with_stdout("/x/log", false, false, true, 10);
    assert_eq!(step, FileStep::Keep);
    assert!(!sink.is_open());
    assert!(!sink.silent());
    assert_eq!(sink.set_log_enabled(false, 10), FileStep::Keep);
    assert_eq!(sink.set_log_enabled(true, 10), FileStep::Open);
    // The file could not be opened, so that switching it on tries again.
    sink.opened(false);
    assert_eq!(sink.set_log_enabled(true, 20), FileStep::Open);
    sink.opened(true);
    assert_eq!(sink.set_log_enabled(true, 20), FileStep::Keep);
    assert_eq!(sink.set_log_enabled(false, 20), FileStep::Close);
    assert_eq!(sink.write_to_log("dropped"), WriteStep::Skip);
    // The file grew while the log was off.
    assert_eq!(sink.set_log_enabled(true, ROTATION_THRESHOLD_BYTES), FileStep::Rotate);
    sink.rotated(true);
    assert_eq!(sink.write_to_log("x"), WriteStep::Append);
    // And it was truncated: it is not rotated early.
    assert_eq!(sink.set_log_enabled(false, 0), FileStep::Close);
    assert_eq!(sink.set_log_enabled(true, 0), FileStep::Open);
}

#[test]
fn the_record_of_a_reload_reaches_the_log_that_it_switches() {
    let mut sink = open_sink(false, false, true, 0);
    assert_eq!(sink.reload_order(false), ReloadOrder::RecordFirst);
    assert!(sink.emit_with().log);
    assert_eq!(sink.set_log_enabled(false, 0), FileStep::Close);
    assert!(!sink.emit_with().log);
    assert_eq!(sink.reload_order(true), ReloadOrder::SwitchFirst);
    assert_eq!(sink.set_log_enabled(true, 600 * 1024), FileStep::Rotate);
    sink.rotated(true);
    assert!(sink.emit_with().log);
    assert_eq!(sink.write_to_log("{}"), WriteStep::Append);
}
