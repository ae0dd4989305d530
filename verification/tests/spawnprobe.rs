use mini_lmk::spawnprobe::{
    counted_rounds, exit_note, first_word, input_target, ladder_rows, mono_ns, parse_command_line, rss_kb, status_field, target_from,
    thp_swap, vfork_rows, Args, Available, Backend, Mode, ProbeRun, Refusal, Row, RowExpectation, RowStatus, DEFAULT_ITERS,
    REAL_TARGET_MAX_ITERS,
};

fn run(args: &[&str], forced: bool) -> Result<ProbeRun, Refusal> {
    let mut all = vec!["spawnprobe".to_string()];
    all.extend(args.iter().map(|s| s.to_string()));
    parse_command_line(&all, forced)
}

#[test]
fn the_default_measurement() {
    let want = ProbeRun { iters: DEFAULT_ITERS, real_target: false, mode: Mode::Ladder, touch_mb: 0 };
    assert_eq!(run(&[], false), Ok(want));
    assert_eq!(parse_command_line(&Vec::new(), false), Ok(want));
    assert_eq!(run(&["7", "true", "vf"], false), Ok(ProbeRun { iters: 7, real_target: false, mode: Mode::Vf, touch_mb: 0 }));
}

#[test]
fn refusals() {
    assert_eq!(run(&["x"], false), Err(Refusal::BadIters));
    assert_eq!(run(&["-1"], false), Err(Refusal::BadIters));
    assert_eq!(run(&["1", "false"], false), Err(Refusal::UnknownTarget));
    assert_eq!(run(&["1", "true", "vf", "9"], false), Err(Refusal::ExtraArgument));
    assert_eq!(run(&["121", "cmd", "vf"], false), Err(Refusal::TooMany));
    assert_eq!(run(&["1", "true", "nothing"], false), Err(Refusal::UnknownMode));
}

#[test]
fn kill_commands_are_capped() {
    assert_eq!(REAL_TARGET_MAX_ITERS, 120);
    assert!(run(&["120", "cmd", "vf"], false).is_ok());
    assert!(run(&["121", "cmd", "vf"], true).is_ok());
    assert!(run(&["121", "true", "vf"], false).is_ok());
    for mode in ["rss", "sweep", "ipc"] {
        assert!(run(&["121", "cmd", mode], false).is_ok());
    }
}

#[test]
fn memory_to_touch() {
    assert_eq!(run(&["1", "true", "rss", "64"], false).unwrap().touch_mb, 64);
    assert_eq!(run(&["1", "true", "rss", "x"], false).unwrap().touch_mb, 0);
}

#[test]
fn modes_are_found_by_name() {
    for mode in [
        Mode::Ladder,
        Mode::Vf,
        Mode::VfSweep,
        Mode::Env,
        Mode::VfOpen,
        Mode::OpenFd,
        Mode::FdCheck,
        Mode::ExecFail,
        Mode::Sweep,
        Mode::Ipc,
        Mode::Rss,
    ] {
        assert_eq!(Mode::parse(mode.name()), Some(mode));
    }
    assert_eq!(Mode::parse("Vf"), None);
}

#[test]
fn targets() {
    let cmd = target_from("cmd");
    assert_eq!((cmd.path, cmd.extra), ("/system/bin/cmd", vec!["activity", "kill"]));
    let other = target_from("true");
    assert_eq!((other.path, other.extra.len()), ("/system/bin/true", 0));
}

#[test]
fn short_rows_are_told_apart() {
    let mut e = RowExpectation::new();
    assert_eq!(e.wanted(), 0);
    assert_eq!(e.status(0), RowStatus::Missing);
    assert_eq!(e.status(1), RowStatus::Complete);
    e.want(3);
    assert_eq!(e.wanted(), 3);
    assert_eq!(e.status(0), RowStatus::Missing);
    assert_eq!(e.status(2), RowStatus::Short);
    assert_eq!(e.status(3), RowStatus::Complete);
}

#[test]
fn ends_of_processes() {
    assert_eq!(exit_note(true, false, 127), "exitE=127");
    assert_eq!(exit_note(false, true, 9), "exit?sig=-1");
    assert_eq!(exit_note(false, false, 0), "exit?=-1");
}

#[test]
fn what_the_system_tells() {
    assert_eq!(first_word("  3 4\n"), "3");
    assert_eq!(first_word(" \n"), "?");
    let status = "Name:\tx\nVmRSS:\t  4321 kB\nThreads:\t1\nEmpty:\n";
    assert_eq!(status_field(status, "Threads:"), "1");
    assert_eq!(status_field(status, "Empty:"), "?");
    assert_eq!(status_field(status, "None:"), "?");
    assert_eq!(rss_kb(status), 4321);
    assert_eq!(rss_kb("VmRSS: x kB"), 0);
    assert_eq!(rss_kb(""), 0);
    assert_eq!(thp_swap("AnonHugePages:   2048 kB\nSwapPss: 7 kB\nSwap:  12 kB\n"), (2048, 12));
    assert_eq!(thp_swap("nothing"), (0, 0));
}

#[test]
fn what_the_child_tells() {
    assert_eq!(mono_ns(2, 5), 2_000_000_005);
    let args = Args::request(3, 4, 5, 6);
    assert_eq!(args.slots(), [3, 4, 5, 6, 0, 0, 0, 0]);
    assert_eq!(args.child_offsets(10), (0, 0));
    let told = Args::from_slots([3, 4, 5, 6, 1, 500, 1, 900]);
    assert_eq!(told.child_offsets(1_000_000_100), (400, 800));
    assert_eq!(told.child_offsets(1_000_000_600), (0, 300));
}

#[test]
fn suites_measure_what_is_there() {
    let all = Available { raw_clone: true, posix_spawn: true, file_actions: true, attributes: true };
    let backends = |rows: Vec<Row>| -> Vec<Backend> { rows.iter().map(|r| r.backend).collect() };
    let rows = vfork_rows(42, all);
    assert_eq!(rows[3], Row { backend: Backend::RawVm, samples: 10, wanted: 10 });
    assert_eq!(*rows.last().unwrap(), Row { backend: Backend::Nothing, samples: 1, wanted: 1 });
    assert_eq!(
        backends(rows),
        [
            Backend::Command,
            Backend::ForkExec,
            Backend::RawVfork,
            Backend::RawVm,
            Backend::SpawnNull,
            Backend::SpawnActions(3),
            Backend::SpawnVfork,
            Backend::Nothing,
        ]
    );
    let none = Available { raw_clone: false, posix_spawn: false, file_actions: true, attributes: true };
    assert_eq!(backends(vfork_rows(1, none)), [Backend::Command, Backend::ForkExec, Backend::Nothing]);
    assert_eq!(backends(ladder_rows(1, none)), [Backend::Command, Backend::ForkExec, Backend::Nothing]);
    let rows = ladder_rows(42, all);
    assert_eq!(*rows.last().unwrap(), Row { backend: Backend::Nothing, samples: 42, wanted: 0 });
    assert_eq!(
        backends(rows),
        [
            Backend::Command,
            Backend::ForkExec,
            Backend::SpawnNull,
            Backend::SpawnActions(3),
            Backend::SpawnActions(0),
            Backend::SpawnActions(1),
            Backend::SpawnActions(2),
            Backend::Nothing,
        ]
    );
    let plain = Available { file_actions: false, ..all };
    assert_eq!(backends(ladder_rows(1, plain)), [Backend::Command, Backend::ForkExec, Backend::SpawnNull, Backend::Nothing]);
}

#[test]
fn a_listing_tells_where_the_input_leads() {
    let listing = "total 0\nlrwx 1 shell /proc/self/fd/0 -> /dev/null\nlrwx 1 shell /proc/self/fd/1 -> /x\n";
    assert_eq!(input_target(listing), Some("/dev/null"));
    assert_eq!(input_target("a/fd/1 -> b\n"), None);
    assert_eq!(input_target("a/fd/0 -> "), Some(""));
    assert_eq!(input_target("\u{e9}/fd/0 -> b/fd/0 -> c"), Some("b"));
    assert_eq!(input_target(""), None);
}

#[test]
fn warm_up_rounds_are_not_counted() {
    assert_eq!(counted_rounds(9), 0);
    assert_eq!(counted_rounds(10), 0);
    assert_eq!(counted_rounds(60), 50);
}
