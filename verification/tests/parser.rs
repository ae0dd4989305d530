use std::mem::{align_of, size_of};

use mini_lmk::parser::{
    can_name_process, is_proc_name, parse_epoch_line, parse_logcat_line, parse_proc_died, parse_proc_start,
    parse_resume_activity, parse_screen_toggled, parse_stamp_ms, tokenize, LogcatEvent, ProcDiedEvent, ProcStartEvent,
    ResumeActivityEvent,
};
use mini_lmk::stream::LineBuffer;

#[test]
fn test_parse_device_idle_light_step() {
    // Legitimate AOSP empty payloads
    assert_eq!(parse_logcat_line("I/device_idle_light_step:\n"), Some(LogcatEvent::DeviceIdleLightStep));
    assert_eq!(parse_logcat_line("I/device_idle_light_step: "), Some(LogcatEvent::DeviceIdleLightStep));
    assert_eq!(parse_logcat_line("device_idle_light_step: []"), Some(LogcatEvent::DeviceIdleLightStep));
    assert_eq!(parse_logcat_line("device_idle_light_step: [ ]"), Some(LogcatEvent::DeviceIdleLightStep));

    // Malformed, non-empty, or spoofed payloads must be rejected
    assert_eq!(parse_logcat_line("device_idle_light_step: [4,s:alarm]"), None);
    assert_eq!(parse_logcat_line("I/device_idle_light_step: fake"), None);
    assert_eq!(parse_logcat_line("device_idle_light_step: 1"), None);
}

#[test]
fn test_reject_leading_hyphen_injection() {
    // Leading hyphens in resume_activity
    assert_eq!(parse_logcat_line("I/wm_resume_activity: [0,123,1,-bad.pkg/-bad.pkg.Act]"), None);
    assert_eq!(parse_logcat_line("I/wm_resume_activity: [0,123,1,--user/-bad.pkg.Act]"), None);

    // Leading hyphens in proc_start
    assert_eq!(parse_logcat_line("I/am_proc_start: [0,1234,10001,--user,next-top-activity,{}]"), None);
    assert_eq!(parse_logcat_line("I/am_proc_start: [0,1234,10001,-malicious.app,service,{}]"), None);
}

#[test]
fn test_parse_wm_resume_activity() {
    let line = "I/wm_resume_activity: [0,1234567,12,com.google.android.calculator/com.android.calculator2.Calculator]";
    match parse_logcat_line(line) {
        Some(LogcatEvent::ResumeActivity(ev)) => {
            assert_eq!(ev.pkg, "com.google.android.calculator");
            assert_eq!(ev.component, "com.google.android.calculator/com.android.calculator2.Calculator");
        }
        other => panic!("Unexpected: {:?}", other),
    }
}

#[test]
fn test_parse_am_resume_activity_api29() {
    let line = "I/am_resume_activity: [0, 987654, 42, com.android.settings/.Settings$StorageUseActivity]";
    match parse_logcat_line(line) {
        Some(LogcatEvent::ResumeActivity(ev)) => {
            assert_eq!(ev.pkg, "com.android.settings");
            assert_eq!(ev.component, "com.android.settings/.Settings$StorageUseActivity");
        }
        other => panic!("Unexpected: {:?}", other),
    }
}

#[test]
fn test_parse_am_resume_activity_api24() {
    // 4-token standard Android 7.0-9.0: [user, token, task_id, component]
    let line_4tok = "I/am_resume_activity: [0, 1234567, 12, com.android.dialer/.DialtactsActivity]";
    match parse_logcat_line(line_4tok) {
        Some(LogcatEvent::ResumeActivity(ev)) => {
            assert_eq!(ev.pkg, "com.android.dialer");
            assert_eq!(ev.component, "com.android.dialer/.DialtactsActivity");
        }
        other => panic!("Unexpected: {:?}", other),
    }

    // 3-token legacy payload: [user, task_id, component]
    let line_3tok = "I/am_resume_activity: [0, 12, com.android.mms/.ui.ConversationList]";
    match parse_logcat_line(line_3tok) {
        Some(LogcatEvent::ResumeActivity(ev)) => {
            assert_eq!(ev.pkg, "com.android.mms");
            assert_eq!(ev.component, "com.android.mms/.ui.ConversationList");
        }
        other => panic!("Unexpected: {:?}", other),
    }
}

#[test]
fn test_parse_proc_start() {
    let line = "I/am_proc_start: [0,12763,10130,com.google.android.calculator,next-top-activity,{com.google.android.calculator/com.android.calculator2.Calculator}]";
    match parse_logcat_line(line) {
        Some(LogcatEvent::ProcStart(ev)) => {
            assert_eq!(ev.pid, 12763);
            assert_eq!(ev.uid, 10130);
            assert_eq!(ev.proc_name, "com.google.android.calculator");
            assert_eq!(ev.pkg, "com.google.android.calculator");
            assert_eq!(ev.spawn_type, "next-top-activity");
        }
        other => panic!("Unexpected: {:?}", other),
    }
}

#[test]
fn test_parse_proc_start_subproc() {
    let line = "I/am_proc_start: [0, 15400, 10150, com.android.chrome:sandboxed_process0, service, {}]";
    match parse_logcat_line(line) {
        Some(LogcatEvent::ProcStart(ev)) => {
            assert_eq!(ev.pid, 15400);
            assert_eq!(ev.uid, 10150);
            assert_eq!(ev.proc_name, "com.android.chrome:sandboxed_process0");
            assert_eq!(ev.pkg, "com.android.chrome");
            assert_eq!(ev.spawn_type, "service");
        }
        other => panic!("Unexpected: {:?}", other),
    }
}

#[test]
fn test_parse_proc_died() {
    let line = "I/am_proc_died: [0,12763,com.google.android.calculator,900,kill background]";
    match parse_logcat_line(line) {
        Some(LogcatEvent::ProcDied(ev)) => {
            assert_eq!(ev.pid, 12763);
        }
        other => panic!("Unexpected: {:?}", other),
    }
}

#[test]
fn test_parse_proc_died_comprehensive() {
    // 1. Standard AOSP: [user, pid, proc_name, oom_adj, proc_state]
    assert_eq!(
        parse_proc_died("[0, 12763, com.google.android.calculator, 900, 16]"),
        Some(ProcDiedEvent { pid: 12763 })
    );

    // 2. Shifted OEM payload with oom_adj: [0, 12763, com.android.settings, 100, 2]
    assert_eq!(
        parse_proc_died("[0, 12763, com.android.settings, 100, 2]"),
        Some(ProcDiedEvent { pid: 12763 })
    );

    // 3. Negative OOM adjustment: [0, 1500, system_server, -1000, 0]
    assert_eq!(
        parse_proc_died("[0, 1500, system_server, -1000, 0]"),
        Some(ProcDiedEvent { pid: 1500 })
    );

    // 4. 2-token legacy format: [pid, proc_name]
    assert_eq!(
        parse_proc_died("[12763, com.example.app]"),
        Some(ProcDiedEvent { pid: 12763 })
    );

    // 5. Malformed inputs that previously triggered the oom_adj bug must be rejected (return None)
    assert_eq!(
        parse_proc_died("[0, not_a_pid, com.example.proc, 900, 16]"),
        None
    );
    assert_eq!(
        parse_proc_died("[0, not_a_pid, com.example.proc, 900, kill background]"),
        None
    );
    assert_eq!(
        parse_proc_died("[0, 900, kill background]"),
        None
    );
    assert_eq!(
        parse_proc_died("[0, 100, low memory]"),
        None
    );
}

#[test]
fn test_parse_resume_activity_comprehensive() {
    // 1. Standard format: com.android.settings/.Settings
    let res_std = parse_resume_activity("[0, 1234567, 12, com.android.settings/.Settings]").expect("std");
    assert_eq!(res_std.pkg, "com.android.settings");
    assert_eq!(res_std.component, "com.android.settings/.Settings");

    // 2. Intent-wrapped: {com.google.android.calculator/com.android.calculator2.Calculator}
    let res_wrapped = parse_resume_activity("[0, 1234567, 12, {com.google.android.calculator/com.android.calculator2.Calculator}]").expect("wrapped");
    assert_eq!(res_wrapped.pkg, "com.google.android.calculator");
    assert_eq!(res_wrapped.component, "com.google.android.calculator/com.android.calculator2.Calculator");

    // 3. Complex Intent with flags: {act=android.intent.action.MAIN cmp=com.example.app/.MainActivity flg=0x10000000}
    let res_complex = parse_resume_activity("[0, 1234567, 12, {act=android.intent.action.MAIN cmp=com.example.app/.MainActivity flg=0x10000000}]").expect("complex");
    assert_eq!(res_complex.pkg, "com.example.app");
    assert_eq!(res_complex.component, "com.example.app/.MainActivity");

    // Via logcat dispatcher:
    let line_complex = "I/wm_resume_activity: [0, 1234567, 12, {act=android.intent.action.MAIN cmp=com.example.app/.MainActivity flg=0x10000000}]";
    match parse_logcat_line(line_complex) {
        Some(LogcatEvent::ResumeActivity(ev)) => {
            assert_eq!(ev.pkg, "com.example.app");
            assert_eq!(ev.component, "com.example.app/.MainActivity");
        }
        other => panic!("Unexpected: {:?}", other),
    }
}

#[test]
fn test_parse_screen_toggled() {
    assert_eq!(parse_logcat_line("I/screen_toggled: 0"), Some(LogcatEvent::ScreenToggled(false)));
    assert_eq!(parse_logcat_line("I/screen_toggled: 1"), Some(LogcatEvent::ScreenToggled(true)));
    assert_eq!(parse_logcat_line("I/screen_toggled: [1]"), Some(LogcatEvent::ScreenToggled(true)));
    assert_eq!(parse_logcat_line("I/screen_toggled: [0]"), Some(LogcatEvent::ScreenToggled(false)));
}

#[test]
fn test_parse_extra_fields_resilience() {
    // Extra field in wm_resume_activity (e.g. displayId or windowingMode)
    let line = "I/wm_resume_activity: [0, 1234567, 12, com.example.app/com.example.app.MainActivity, 0, 1]";
    match parse_logcat_line(line) {
        Some(LogcatEvent::ResumeActivity(ev)) => {
            assert_eq!(ev.pkg, "com.example.app");
            assert_eq!(ev.component, "com.example.app/com.example.app.MainActivity");
        }
        other => panic!("Unexpected: {:?}", other),
    }

    // Proc died with negative adj (-1000)
    let line_died = "I/am_proc_died: [0, 9999, com.example.proc, -1000, died]";
    match parse_logcat_line(line_died) {
        Some(LogcatEvent::ProcDied(ev)) => {
            assert_eq!(ev.pid, 9999);
        }
        other => panic!("Unexpected: {:?}", other),
    }
}

#[test]
fn test_parse_proc_start_with_internal_commas_in_component() {
    let line = "I/am_proc_start: [0,12763,10130,com.google.android.calculator,next-top-activity,{act=android.intent.action.MAIN,cmp=com.google.android.calculator/com.android.calculator2.Calculator,flg=0x10000000}]";
    match parse_logcat_line(line) {
        Some(LogcatEvent::ProcStart(ev)) => {
            assert_eq!(ev.pid, 12763);
            assert_eq!(ev.uid, 10130);
            assert_eq!(ev.proc_name, "com.google.android.calculator");
            assert_eq!(ev.pkg, "com.google.android.calculator");
            assert_eq!(ev.spawn_type, "next-top-activity");
        }
        other => panic!("Unexpected: {:?}", other),
    }
}

#[test]
fn test_parse_unknown_and_malformed() {
    assert_eq!(parse_logcat_line("I/am_anr: [0,1234,foo]"), None);
    assert_eq!(parse_logcat_line("--- start of log ---"), None);
    assert_eq!(parse_logcat_line(""), None);
    assert_eq!(parse_logcat_line("I/wm_resume_activity: []"), None);
    assert_eq!(parse_logcat_line("I/am_proc_start: [0, not_a_pid]"), None);
    assert_eq!(parse_logcat_line("I/am_proc_died: [0]"), None);
}

#[test]
fn test_struct_sizes_and_alignment() {
    // ResumeActivityEvent: 2 &str (16 bytes each) = 32 bytes, 8-byte aligned, 0 padding
    assert_eq!(size_of::<ResumeActivityEvent>(), 32);
    assert_eq!(align_of::<ResumeActivityEvent>(), 8);

    // ProcStartEvent: 3 &str (48 bytes) + 2 u32 (8 bytes) = 56 bytes, 8-byte aligned, 0 padding
    assert_eq!(size_of::<ProcStartEvent>(), 56);
    assert_eq!(align_of::<ProcStartEvent>(), 8);

    // ProcDiedEvent: 1 u32 = 4 bytes, 4-byte aligned
    assert_eq!(size_of::<ProcDiedEvent>(), 4);
    assert_eq!(align_of::<ProcDiedEvent>(), 4);

    // LogcatEvent fits within a standard 64-byte CPU cache line (8-byte tag/padding + 56 bytes max variant)
    assert_eq!(size_of::<LogcatEvent>(), 64);
    assert_eq!(align_of::<LogcatEvent>(), 8);
}

#[test]
fn test_logcat_chunked_stream_burst() {
    let mut total_stream = String::new();
    for i in 1..=1000 {
        total_stream.push_str(&format!("I/am_proc_start: [0,{},10000,com.test.spam{},service,{{}}]\n", i, i));
    }

    let stream_bytes = total_stream.as_bytes();
    let mut parsed_pids = Vec::new();

    // Test with arbitrary fragment boundaries: 1 byte, 13 bytes, 67 bytes, 512 bytes, 4096 bytes
    for chunk_size in [1, 13, 67, 512, 4096] {
        parsed_pids.clear();
        let mut logcat_buf = LineBuffer::new();
        let mut offset = 0;

        while offset < stream_bytes.len() {
            let end = (offset + chunk_size).min(stream_bytes.len());
            let chunk = &stream_bytes[offset..end];
            offset = end;

            let (lines, discarded) = logcat_buf.feed(chunk);
            assert_eq!(discarded, None);
            for line in &lines {
                if let Some(LogcatEvent::ProcStart(ps)) = parse_logcat_line(line) {
                    parsed_pids.push(ps.pid);
                }
            }
        }

        assert_eq!(parsed_pids.len(), 1000, "Failed for chunk_size {}", chunk_size);
        for (i, &pid) in parsed_pids.iter().enumerate() {
            assert_eq!(pid, (i + 1) as u32);
        }
    }
}

#[test]
fn tokens_respect_braces_and_capacity() {
    let mut out = ["?"; 4];
    assert_eq!(tokenize(" a , {b,c} ,d", &mut out), 3);
    assert_eq!(out, ["a", "{b,c}", "d", "?"]);

    // A closing brace without a partner opens nothing.
    let mut two = ["?"; 2];
    assert_eq!(tokenize("},x,y", &mut two), 2);
    assert_eq!(two, ["}", "x"]);

    // The empty payload is one empty token; a trailing comma adds one.
    let mut three = ["?"; 3];
    assert_eq!(tokenize("", &mut three), 1);
    assert_eq!(three[0], "");
    assert_eq!(tokenize("p,", &mut three), 2);
    assert_eq!(three, ["p", "", "?"]);

    let mut none: [&str; 0] = [];
    assert_eq!(tokenize("a,b", &mut none), 0);
}

#[test]
fn only_eight_tokens_are_looked_at() {
    assert_eq!(parse_resume_activity("[1,2,3,4,5,6,7,8,com.a.b/.C]"), None);
    assert_eq!(parse_resume_activity("[1,2,3,4,5,6,7,com.a.b/.C]").map(|ev| ev.pkg), Some("com.a.b"));
}

#[test]
fn resume_activity_without_slash_takes_the_fourth_token() {
    let ev = parse_resume_activity("[0,1,2,com.example.app]").unwrap();
    assert_eq!(ev.pkg, "com.example.app");
    assert_eq!(ev.component, "com.example.app");
    assert_eq!(parse_resume_activity("[0,1,com.example.app]"), None);
    assert_eq!(parse_resume_activity("[0,1,2,12345]"), None);
    assert_eq!(parse_resume_activity("[0,1,2,{}]"), None);
}

#[test]
fn resume_activity_picks_the_word_with_a_slash() {
    let ev = parse_resume_activity("[0,1,2,{u0 \"com.example.app/.Main\" t7}]").unwrap();
    assert_eq!(ev.pkg, "com.example.app");
    assert_eq!(ev.component, "com.example.app/.Main");
}

#[test]
fn proc_start_finds_shifted_fields() {
    // The process stands first, the numbers behind it.
    let ev = parse_proc_start("[com.example.app:remote,service,4321,10077]").unwrap();
    assert_eq!(
        ev,
        ProcStartEvent { proc_name: "com.example.app:remote", pkg: "com.example.app", spawn_type: "service", pid: 4321, uid: 10077 }
    );
    // Zeros are skipped, and a missing user id is 0.
    let ev = parse_proc_start("[x.y,0,{a},77]").unwrap();
    assert_eq!((ev.pid, ev.uid, ev.spawn_type), (77, 0, "0"));
    // The number in the first place is never the process id.
    assert_eq!(parse_proc_start("[5,a.b,{c},d]"), None);
    // No letter, dot or colon: nothing can name the process.
    assert_eq!(parse_proc_start("[0,12,_,_,_]"), None);
    // A letter outside ASCII is a letter too.
    assert_eq!(parse_proc_start("[0,12,_,\u{e9}t\u{e9},_]").map(|ev| ev.pkg), Some("\u{e9}t\u{e9}"));
}

#[test]
fn naming_a_process_needs_a_letter_a_dot_or_a_colon() {
    assert!(can_name_process("abc", true));
    assert!(!can_name_process("abc", false));
    assert!(can_name_process("1.2", false));
    assert!(can_name_process("1:2", false));
    assert!(!can_name_process("", true));
    assert!(!can_name_process("{a", true));
    assert!(!can_name_process("-a", true));
}

#[test]
fn numbers_in_events_follow_the_standard_grammar() {
    assert_eq!(parse_proc_start("[0,+12,10000,a.b]").map(|ev| ev.pid), Some(12));
    assert_eq!(parse_proc_start("[0,4294967295,0,a.b]").map(|ev| ev.pid), Some(u32::MAX));
    // One more does not fit, so that the place is not that of a process id.
    assert_eq!(parse_proc_start("[0,4294967296,0,a.b]"), None);
}

#[test]
fn process_names_are_told_from_reasons() {
    for name in ["com.example.app", "system_server", "zygote64", "com.android.chrome:sandboxed_process0", " padded "] {
        assert!(is_proc_name(name), "{}", name);
    }
    for other in ["", "900", "kill background", "-a", "{a}", "a-b", "\u{e9}"] {
        assert!(!is_proc_name(other), "{}", other);
    }
}

#[test]
fn zero_is_no_process_id_of_a_death() {
    assert_eq!(parse_proc_died("[0,com.a.b]"), None);
    assert_eq!(parse_proc_died("[0,0,com.a.b]"), None);
    assert_eq!(parse_proc_died("[0,0,1,com.a.b]"), Some(ProcDiedEvent { pid: 1 }));
}

#[test]
fn screen_payloads_are_exact() {
    assert_eq!(parse_screen_toggled(" [ 1 ] "), Some(true));
    assert_eq!(parse_screen_toggled("[0]"), Some(false));
    assert_eq!(parse_screen_toggled("2"), None);
    assert_eq!(parse_screen_toggled("01"), None);
    assert_eq!(parse_screen_toggled(""), None);
}

#[test]
fn a_priority_is_one_ascii_character() {
    assert_eq!(parse_logcat_line("screen_toggled: 1"), Some(LogcatEvent::ScreenToggled(true)));
    assert_eq!(parse_logcat_line("X/screen_toggled: 1"), Some(LogcatEvent::ScreenToggled(true)));
    assert_eq!(parse_logcat_line("\u{e9}/screen_toggled: 1"), None);
    assert_eq!(parse_logcat_line("no colon here"), None);
}

#[test]
fn epoch_lines_carry_the_time() {
    let line = "  1790255286.893  1000  1234 I wm_resume_activity: [0,1,2,com.example.app/.Main]";
    match parse_epoch_line(line) {
        Some((ms, LogcatEvent::ResumeActivity(ev))) => {
            assert_eq!(ms, 1_790_255_286_893);
            assert_eq!(ev.pkg, "com.example.app");
        }
        other => panic!("Unexpected: {:?}", other),
    }
    // The tag may be padded up to the colon.
    assert_eq!(
        parse_epoch_line("1.000 1 2 I screen_toggled  : 0"),
        Some((1000, LogcatEvent::ScreenToggled(false)))
    );
    assert_eq!(parse_epoch_line("screen_toggled: 0"), None);
    assert_eq!(parse_epoch_line("1.00 1 2 I screen_toggled: 0"), None);
    assert_eq!(parse_epoch_line("1.000"), None);
    assert_eq!(parse_epoch_line("1.000 : 0"), None);
    assert_eq!(parse_epoch_line("--------- beginning of events"), None);
    assert_eq!(parse_epoch_line(""), None);
    assert_eq!(parse_epoch_line("1.000 1 2 I am_anr: [0]"), None);
}

#[test]
fn stamps_have_three_digits_behind_the_point() {
    assert_eq!(parse_stamp_ms("0.000"), Some(0));
    assert_eq!(parse_stamp_ms("12.034"), Some(12_034));
    assert_eq!(parse_stamp_ms("9223372036854774.999"), Some(9_223_372_036_854_774_999));
    assert_eq!(parse_stamp_ms("9223372036854775.000"), None);
    assert_eq!(parse_stamp_ms("+1.000"), None);
    assert_eq!(parse_stamp_ms("1.0000"), None);
    assert_eq!(parse_stamp_ms("1.0x0"), None);
    assert_eq!(parse_stamp_ms("1"), None);
    assert_eq!(parse_stamp_ms(".000"), None);
}

#[test]
fn a_package_starts_with_neither_a_hyphen_nor_a_brace() {
    assert!(parse_resume_activity("[0,1,2,\"\t}abc/def]").is_none());
    assert!(parse_resume_activity("[0,1,2,\"\t{abc/def]").is_none());
    assert!(parse_resume_activity("[0,1,2,\"\t-abc/def]").is_none());
    assert_eq!(parse_resume_activity("[0,1,2,\"\tabc/def]").unwrap().pkg, "abc");
    assert_eq!(parse_resume_activity("[0,1,2,}abc/def]").unwrap().pkg, "abc");
}
