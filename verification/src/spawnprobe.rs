//! The decisions of the harness that measures how long starting a process takes.
use vstd::prelude::*;

use crate::render;
use crate::text;

verus! {

/// No more kill commands than these are run in one measurement, unless that is forced.
pub const REAL_TARGET_MAX_ITERS: usize = 120;

/// Samples that a measurement takes by default.
pub const DEFAULT_ITERS: usize = 400;

// ---------------------------------------------------------------------------
// What is measured
// ---------------------------------------------------------------------------
/// What is measured.
#[derive(Debug, Clone, Copy, PartialEq, Eq, Structural)]
pub enum Mode {
    Ladder,
    Vf,
    VfSweep,
    Env,
    VfOpen,
    OpenFd,
    FdCheck,
    ExecFail,
    Sweep,
    Ipc,
    Rss,
}

impl Mode {
    /// The name of the mode on the command line.
    pub open spec fn text(self) -> Seq<char> {
        match self {
            Mode::Ladder => "ladder"@,
            Mode::Vf => "vf"@,
            Mode::VfSweep => "vfsweep"@,
            Mode::Env => "env"@,
            Mode::VfOpen => "vfopen"@,
            Mode::OpenFd => "openfd"@,
            Mode::FdCheck => "fdcheck"@,
            Mode::ExecFail => "execfail"@,
            Mode::Sweep => "sweep"@,
            Mode::Ipc => "ipc"@,
            Mode::Rss => "rss"@,
        }
    }

    /// The mode with this name.
    pub open spec fn named(name: Seq<char>) -> Option<Mode> {
        if name == "ladder"@ {
            Some(Mode::Ladder)
        } else if name == "vf"@ {
            Some(Mode::Vf)
        } else if name == "vfsweep"@ {
            Some(Mode::VfSweep)
        } else if name == "env"@ {
            Some(Mode::Env)
        } else if name == "vfopen"@ {
            Some(Mode::VfOpen)
        } else if name == "openfd"@ {
            Some(Mode::OpenFd)
        } else if name == "fdcheck"@ {
            Some(Mode::FdCheck)
        } else if name == "execfail"@ {
            Some(Mode::ExecFail)
        } else if name == "sweep"@ {
            Some(Mode::Sweep)
        } else if name == "ipc"@ {
            Some(Mode::Ipc)
        } else if name == "rss"@ {
            Some(Mode::Rss)
        } else {
            None
        }
    }

    /// The name of the mode on the command line.
    pub fn name(self) -> (s: &'static str)
        ensures
            s@ == self.text(),
    {
        match self {
            Mode::Ladder => "ladder",
            Mode::Vf => "vf",
            Mode::VfSweep => "vfsweep",
            Mode::Env => "env",
            Mode::VfOpen => "vfopen",
            Mode::OpenFd => "openfd",
            Mode::FdCheck => "fdcheck",
            Mode::ExecFail => "execfail",
            Mode::Sweep => "sweep",
            Mode::Ipc => "ipc",
            Mode::Rss => "rss",
        }
    }

    /// The mode with this name.
    pub fn parse(name: &str) -> (r: Option<Mode>)
        ensures
            r == Mode::named(name@),
    {
        if text::same(name, "ladder") {
            Some(Mode::Ladder)
        } else if text::same(name, "vf") {
            Some(Mode::Vf)
        } else if text::same(name, "vfsweep") {
            Some(Mode::VfSweep)
        } else if text::same(name, "env") {
            Some(Mode::Env)
        } else if text::same(name, "vfopen") {
            Some(Mode::VfOpen)
        } else if text::same(name, "openfd") {
            Some(Mode::OpenFd)
        } else if text::same(name, "fdcheck") {
            Some(Mode::FdCheck)
        } else if text::same(name, "execfail") {
            Some(Mode::ExecFail)
        } else if text::same(name, "sweep") {
            Some(Mode::Sweep)
        } else if text::same(name, "ipc") {
            Some(Mode::Ipc)
        } else if text::same(name, "rss") {
            Some(Mode::Rss)
        } else {
            None
        }
    }
}

/// The program that is started: its path and what follows it.
pub struct Target {
    pub path: &'static str,
    pub extra: Vec<&'static str>,
}

/// The program with this name: `cmd` is the kill command without an app, which kills nothing, and
/// anything else is a program that does nothing.
pub fn target_from(name: &str) -> (t: Target)
    ensures
        name@ == "cmd"@ ==> t.path@ == "/system/bin/cmd"@ && t.extra@.len() == 2
            && t.extra@[0]@ == "activity"@ && t.extra@[1]@ == "kill"@,
        name@ != "cmd"@ ==> t.path@ == "/system/bin/true"@ && t.extra@.len() == 0,
{
    let mut extra: Vec<&'static str> = Vec::new();
    if text::same(name, "cmd") {
        extra.push("activity");
        extra.push("kill");
        Target { path: "/system/bin/cmd", extra }
    } else {
        Target { path: "/system/bin/true", extra }
    }
}

/// One measurement.
#[derive(Debug, Clone, Copy, PartialEq, Eq, Structural)]
pub struct ProbeRun {
    pub iters: usize,
    /// Whether the kill command is started.
    pub real_target: bool,
    pub mode: Mode,
    /// Memory to touch first, in megabytes.
    pub touch_mb: usize,
}

/// Why a command line is refused.
#[derive(Debug, Clone, Copy, PartialEq, Eq, Structural)]
pub enum Refusal {
    /// The number of samples is no number.
    BadIters,
    UnknownTarget,
    /// The mode takes no argument.
    ExtraArgument,
    /// Too many kill commands.
    TooMany,
    UnknownMode,
}

/// The argument at `i`, or `default` where there are not so many.
pub open spec fn argument(args: Seq<Seq<char>>, i: int, default: Seq<char>) -> Seq<char> {
    if i < args.len() {
        args[i]
    } else {
        default
    }
}

/// The number that `s` writes, where it fits.
pub open spec fn count_in(s: Seq<char>) -> Option<nat> {
    text::unsigned_value(s, usize::MAX as nat)
}

/// What a command line asks for: the name of the program, the number of samples, the target, the mode and
/// its argument. `forced` says whether any number of kill commands is allowed.
pub open spec fn probe_run(args: Seq<Seq<char>>, forced: bool) -> Result<ProbeRun, Refusal> {
    let iters = if args.len() > 1 {
        count_in(args[1])
    } else {
        Some(DEFAULT_ITERS as nat)
    };
    let target = argument(args, 2, "true"@);
    let mode = argument(args, 3, "ladder"@);
    let uncapped = mode == "rss"@ || mode == "sweep"@ || mode == "ipc"@ || forced;
    if iters is None {
        Err(Refusal::BadIters)
    } else if target != "true"@ && target != "cmd"@ {
        Err(Refusal::UnknownTarget)
    } else if args.len() > 4 && mode != "rss"@ {
        Err(Refusal::ExtraArgument)
    } else if target == "cmd"@ && iters->0 > REAL_TARGET_MAX_ITERS && !uncapped {
        Err(Refusal::TooMany)
    } else {
        match Mode::named(mode) {
            None => Err(Refusal::UnknownMode),
            Some(m) => Ok(
                ProbeRun {
                    iters: iters->0 as usize,
                    real_target: target == "cmd"@,
                    mode: m,
                    touch_mb: if args.len() > 4 && count_in(args[4]) is Some {
                        count_in(args[4])->0 as usize
                    } else {
                        0
                    },
                },
            ),
        }
    }
}

fn parse_count(s: &str) -> (r: Option<usize>)
    ensures
        match r {
            Some(v) => count_in(s@) == Some(v as nat),
            None => count_in(s@) is None,
        },
{
    match text::parse_unsigned(s, usize::MAX as u64) {
        Some(v) => Some(v as usize),
        None => None,
    }
}

/// Reads the command line, the name of the program first.
pub fn parse_command_line(args: &Vec<String>, forced: bool) -> (r: Result<ProbeRun, Refusal>)
    ensures
        r == probe_run(crate::system::texts(args@), forced),
{
    let ghost all = crate::system::texts(args@);
    let iters: usize = if args.len() > 1 {
        match parse_count(args[1].as_str()) {
            Some(n) => n,
            None => {
                return Err(Refusal::BadIters);
            },
        }
    } else {
        DEFAULT_ITERS
    };
    let target = if args.len() > 2 {
        args[2].as_str()
    } else {
        "true"
    };
    let mode = if args.len() > 3 {
        args[3].as_str()
    } else {
        "ladder"
    };
    assert(target@ == argument(all, 2, "true"@));
    assert(mode@ == argument(all, 3, "ladder"@));
    let real_target = text::same(target, "cmd");
    if !text::same(target, "true") && !real_target {
        return Err(Refusal::UnknownTarget);
    }
    let is_rss = text::same(mode, "rss");
    if args.len() > 4 && !is_rss {
        return Err(Refusal::ExtraArgument);
    }
    if !is_rss && !text::same(mode, "sweep") && !text::same(mode, "ipc") && iters
        > REAL_TARGET_MAX_ITERS && real_target && !forced {
        return Err(Refusal::TooMany);
    }
    let mut touch_mb: usize = 0;
    if args.len() > 4 {
        if let Some(mb) = parse_count(args[4].as_str()) {
            touch_mb = mb;
        }
    }
    match Mode::parse(mode) {
        None => Err(Refusal::UnknownMode),
        Some(m) => Ok(ProbeRun { iters, real_target, mode: m, touch_mb }),
    }
}

/// Every mode is found by its name.
pub proof fn law_modes_are_found_by_name(mode: Mode)
    ensures
        Mode::named(mode.text()) == Some(mode),
{
    reveal_strlit("ladder");
    reveal_strlit("vf");
    reveal_strlit("vfsweep");
    reveal_strlit("env");
    reveal_strlit("vfopen");
    reveal_strlit("openfd");
    reveal_strlit("fdcheck");
    reveal_strlit("execfail");
    reveal_strlit("sweep");
    reveal_strlit("ipc");
    reveal_strlit("rss");
    assert("ladder"@.len() == 6 && "vf"@.len() == 2 && "vfsweep"@.len() == 7);
    assert("env"@.len() == 3 && "vfopen"@.len() == 6 && "openfd"@.len() == 6);
    assert("fdcheck"@.len() == 7 && "execfail"@.len() == 8 && "sweep"@.len() == 5);
    assert("ipc"@.len() == 3 && "rss"@.len() == 3);
    assert("ladder"@[0] == 'l' && "vfopen"@[0] == 'v' && "openfd"@[0] == 'o');
    assert("vfsweep"@[0] == 'v' && "fdcheck"@[0] == 'f');
    assert("env"@[0] == 'e' && "ipc"@[0] == 'i' && "rss"@[0] == 'r');
}

/// No more than [`REAL_TARGET_MAX_ITERS`] kill commands are measured unless that is forced, but for the
/// modes that start none.
pub proof fn law_kill_commands_are_capped(args: Seq<Seq<char>>, forced: bool)
    ensures
        probe_run(args, forced) matches Ok(run) ==> run.real_target && !forced && run.mode != Mode::Rss
            && run.mode != Mode::Sweep && run.mode != Mode::Ipc ==> run.iters
            <= REAL_TARGET_MAX_ITERS,
{
    law_modes_are_found_by_name(Mode::Rss);
    law_modes_are_found_by_name(Mode::Sweep);
    law_modes_are_found_by_name(Mode::Ipc);
}

// ---------------------------------------------------------------------------
// Rows
// ---------------------------------------------------------------------------
/// How many samples the row that is collected was to have; 0 where it does not matter.
pub struct RowExpectation {
    wanted: usize,
}

/// How complete a row is.
#[derive(Debug, Clone, Copy, PartialEq, Eq, Structural)]
pub enum RowStatus {
    /// There are no samples.
    Missing,
    /// There are fewer samples than wanted.
    Short,
    Complete,
}

impl View for RowExpectation {
    type V = usize;

    closed spec fn view(&self) -> usize {
        self.wanted
    }
}

impl RowExpectation {
    /// Expects nothing.
    pub fn new() -> (e: Self)
        ensures
            e@ == 0,
    {
        RowExpectation { wanted: 0 }
    }

    /// Expects so many samples of the next row.
    pub fn want(&mut self, n: usize)
        ensures
            final(self)@ == n,
    {
        self.wanted = n;
    }

    /// How many samples are expected.
    pub fn wanted(&self) -> (n: usize)
        ensures
            n == self@,
    {
        self.wanted
    }

    /// How complete a row with so many samples is. A row that lacks some is told apart, so that it is not
    /// taken for a result.
    pub fn status(&self, collected: usize) -> (s: RowStatus)
        ensures
            s == if collected == 0 {
                RowStatus::Missing
            } else if self@ > 0 && collected < self@ {
                RowStatus::Short
            } else {
                RowStatus::Complete
            },
    {
        if collected == 0 {
            RowStatus::Missing
        } else if self.wanted > 0 && collected < self.wanted {
            RowStatus::Short
        } else {
            RowStatus::Complete
        }
    }
}

// ---------------------------------------------------------------------------
// The rows of a measurement
// ---------------------------------------------------------------------------
/// A way to start a process.
#[derive(Debug, Clone, Copy, PartialEq, Eq, Structural)]
pub enum Backend {
    /// The command of the standard library.
    Command,
    /// A fork, behind which the child replaces its descriptors and itself.
    ForkExec,
    /// A clone that shares memory and suspends the parent.
    RawVfork,
    /// A clone that shares memory, with the parent going on.
    RawVm,
    /// `posix_spawn` without an object for actions.
    SpawnNull,
    /// `posix_spawn` with an object that holds so many actions.
    SpawnActions(u32),
    /// `posix_spawn` with three actions, and with the flag that asks for a suspended parent.
    SpawnVfork,
    /// No process at all: what the clock itself costs.
    Nothing,
}

/// What the system offers.
#[derive(Debug, Clone, Copy, PartialEq, Eq, Structural)]
pub struct Available {
    pub raw_clone: bool,
    pub posix_spawn: bool,
    pub file_actions: bool,
    pub attributes: bool,
}

/// One row: what is measured, how often, and how many samples make it complete; 0 where any number does.
#[derive(Debug, Clone, Copy, PartialEq, Eq, Structural)]
pub struct Row {
    pub backend: Backend,
    pub samples: usize,
    pub wanted: usize,
}

/// A row of which every sample is wanted.
pub open spec fn full_row(backend: Backend, samples: usize) -> Row {
    Row { backend, samples, wanted: samples }
}

/// The rows of the suite that compares the backends which suspend the parent: the standard library, a fork,
/// the clones where there are any, the second of them on a quarter of the samples, and what `posix_spawn`
/// offers. The clock comes last, with one sample.
pub open spec fn vfork_plan(iters: usize, has: Available) -> Seq<Row> {
    let actions = has.posix_spawn && has.file_actions;
    seq![full_row(Backend::Command, iters), full_row(Backend::ForkExec, iters)] + (
    if has.raw_clone {
        seq![
            full_row(Backend::RawVfork, iters),
            full_row(Backend::RawVm, (iters / 4) as usize),
        ]
    } else {
        Seq::empty()
    }) + (if has.posix_spawn {
        seq![full_row(Backend::SpawnNull, iters)]
    } else {
        Seq::empty()
    }) + (if actions {
        seq![full_row(Backend::SpawnActions(3), iters)]
    } else {
        Seq::empty()
    }) + (if actions && has.attributes {
        seq![full_row(Backend::SpawnVfork, iters)]
    } else {
        Seq::empty()
    }) + seq![full_row(Backend::Nothing, 1)]
}

/// The rows of the ladder, which tells what the actions of `posix_spawn` cost: none of them, three as a kill
/// needs them, and then an empty object, one and two. The clock comes last; it is never incomplete.
pub open spec fn ladder_plan(iters: usize, has: Available) -> Seq<Row> {
    let actions = has.posix_spawn && has.file_actions;
    seq![full_row(Backend::Command, iters), full_row(Backend::ForkExec, iters)] + (
    if has.posix_spawn {
        seq![full_row(Backend::SpawnNull, iters)]
    } else {
        Seq::empty()
    }) + (if actions {
        seq![
            full_row(Backend::SpawnActions(3), iters),
            full_row(Backend::SpawnActions(0), iters),
            full_row(Backend::SpawnActions(1), iters),
            full_row(Backend::SpawnActions(2), iters),
        ]
    } else {
        Seq::empty()
    }) + seq![Row { backend: Backend::Nothing, samples: iters, wanted: 0 }]
}

fn complete_row(backend: Backend, samples: usize) -> (row: Row)
    ensures
        row == full_row(backend, samples),
{
    Row { backend, samples, wanted: samples }
}

/// The rows of the suite that compares the backends which suspend the parent.
pub fn vfork_rows(iters: usize, has: Available) -> (rows: Vec<Row>)
    ensures
        rows@ == vfork_plan(iters, has),
{
    let mut rows: Vec<Row> = Vec::new();
    rows.push(complete_row(Backend::Command, iters));
    rows.push(complete_row(Backend::ForkExec, iters));
    if has.raw_clone {
        rows.push(complete_row(Backend::RawVfork, iters));
        rows.push(complete_row(Backend::RawVm, iters / 4));
    }
    if has.posix_spawn {
        rows.push(complete_row(Backend::SpawnNull, iters));
        if has.file_actions {
            rows.push(complete_row(Backend::SpawnActions(3), iters));
            if has.attributes {
                rows.push(complete_row(Backend::SpawnVfork, iters));
            }
        }
    }
    rows.push(complete_row(Backend::Nothing, 1));
    assert(rows@ =~= vfork_plan(iters, has));
    rows
}

/// The rows of the ladder.
pub fn ladder_rows(iters: usize, has: Available) -> (rows: Vec<Row>)
    ensures
        rows@ == ladder_plan(iters, has),
{
    let mut rows: Vec<Row> = Vec::new();
    rows.push(complete_row(Backend::Command, iters));
    rows.push(complete_row(Backend::ForkExec, iters));
    if has.posix_spawn {
        rows.push(complete_row(Backend::SpawnNull, iters));
        if has.file_actions {
            rows.push(complete_row(Backend::SpawnActions(3), iters));
            rows.push(complete_row(Backend::SpawnActions(0), iters));
            rows.push(complete_row(Backend::SpawnActions(1), iters));
            rows.push(complete_row(Backend::SpawnActions(2), iters));
        }
    }
    rows.push(Row { backend: Backend::Nothing, samples: iters, wanted: 0 });
    assert(rows@ =~= ladder_plan(iters, has));
    rows
}

/// Round trips between two processes that are not counted, until both are warm.
pub const WARM_UP_ROUNDS: usize = 10;

/// How many of the round trips are counted.
pub fn counted_rounds(iters: usize) -> (n: usize)
    ensures
        n == if iters >= WARM_UP_ROUNDS {
            iters - WARM_UP_ROUNDS
        } else {
            0
        },
{
    iters.saturating_sub(WARM_UP_ROUNDS)
}

// ---------------------------------------------------------------------------
// What becomes of a process
// ---------------------------------------------------------------------------
/// How the end of a process is noted: `E` where it ended by itself, with the status that it left.
pub open spec fn exit_text(exited: bool, signaled: bool, code: i32) -> Seq<char> {
    "exit"@ + (if exited {
        "E"@
    } else {
        "?"@
    }) + (if signaled {
        "sig"@
    } else {
        ""@
    }) + "="@ + render::signed(
        if exited {
            code as int
        } else {
            -1
        },
    )
}

/// How the end of a process is noted: `E` where it ended by itself, with the status that it left.
pub fn exit_note(exited: bool, signaled: bool, code: i32) -> (s: String)
    ensures
        s@ == exit_text(exited, signaled, code),
{
    let mut out = String::from_str("exit");
    out.append(
        if exited {
            "E"
        } else {
            "?"
        },
    );
    out.append(
        if signaled {
            "sig"
        } else {
            ""
        },
    );
    out.append("=");
    render::push_i64(
        &mut out,
        if exited {
            code as i64
        } else {
            -1
        },
    );
    out
}

// ---------------------------------------------------------------------------
// What the system tells of the process
// ---------------------------------------------------------------------------
/// The first word of a file; a question mark where there is none.
pub open spec fn head_word(content: Seq<char>) -> Seq<char> {
    if text::words(content).len() > 0 {
        text::words(content)[0]
    } else {
        "?"@
    }
}

/// The first word of a file, from what it holds; a question mark where there is none.
pub fn first_word(content: &str) -> (s: &str)
    ensures
        s@ == head_word(content@),
{
    let ghost all = text::words(content@);
    match text::next_word(content) {
        Some((word, _)) => {
            assert(all.len() > 0 && all[0] == word@);
            word
        },
        None => "?",
    }
}

/// The second word of the first line that starts with `key`; a question mark where there is none.
pub open spec fn field_in(lines: Seq<Seq<char>>, key: Seq<char>) -> Seq<char>
    decreases lines.len(),
{
    if lines.len() == 0 {
        "?"@
    } else if key.is_prefix_of(lines[0]) {
        if text::words(lines[0]).len() > 1 {
            text::words(lines[0])[1]
        } else {
            "?"@
        }
    } else {
        field_in(lines.drop_first(), key)
    }
}

fn second_word(line: &str) -> (r: Option<&str>)
    ensures
        match r {
            Some(word) => text::words(line@).len() > 1 && word@ == text::words(line@)[1],
            None => text::words(line@).len() <= 1,
        },
{
    let ghost all = text::words(line@);
    match text::next_word(line) {
        None => None,
        Some((_, rest)) => {
            let ghost tail = text::words(rest@);
            assert(all.len() == 1 + tail.len());
            match text::next_word(rest) {
                Some((word, _)) => {
                    assert(tail.len() > 0 && tail[0] == word@);
                    assert(all[1] == tail[0]);
                    Some(word)
                },
                None => None,
            }
        },
    }
}

/// A field of `/proc/self/status`, from what it holds; a question mark where it is not there.
pub fn status_field<'a>(content: &'a str, key: &str) -> (s: &'a str)
    ensures
        s@ == field_in(text::lines(content@), key@),
{
    let mut rest = content;
    loop
        invariant
            field_in(text::lines(content@), key@) == field_in(text::lines(rest@), key@),
        decreases rest@.len(),
    {
        let ghost all = text::lines(rest@);
        match text::next_line(rest) {
            None => {
                return "?";
            },
            Some((line, tail)) => {
                assert(all.len() > 0 && all[0] == line@);
                assert(all.drop_first() =~= text::lines(tail@));
                if text::starts_with(line, key) {
                    return match second_word(line) {
                        Some(word) => word,
                        None => "?",
                    };
                }
                rest = tail;
            },
        }
    }
}

/// `s` without `suffix` at its end, as often as it stands there.
pub open spec fn without_suffix(s: Seq<char>, suffix: Seq<char>) -> Seq<char>
    decreases s.len(),
{
    if suffix.len() > 0 && suffix.is_suffix_of(s) {
        without_suffix(s.take(s.len() - suffix.len()), suffix)
    } else {
        s
    }
}

/// The number of kilobytes that a value such as `123 kB` tells; 0 where it tells none.
pub open spec fn kilobytes(value: Seq<char>) -> nat {
    match count_in(text::trimmed(without_suffix(text::trimmed(value), " kB"@))) {
        Some(n) => n,
        None => 0,
    }
}

fn trim_end_text<'a>(s: &'a str, suffix: &str) -> (r: &'a str)
    ensures
        r@ == without_suffix(s@, suffix@),
{
    let width: usize = text::char_count(suffix);
    let mut rest = s;
    if width == 0 {
        return s;
    }
    loop
        invariant
            width == suffix@.len(),
            width > 0,
            without_suffix(s@, suffix@) == without_suffix(rest@, suffix@),
        decreases rest@.len(),
    {
        let n: usize = text::char_count(rest);
        if n < width {
            return rest;
        }
        let (head, tail) = text::split_chars(rest, n - width);
        if !text::same(tail, suffix) {
            assert(!suffix@.is_suffix_of(rest@)) by {
                if suffix@.is_suffix_of(rest@) {
                    assert(suffix@ =~= rest@.skip(n - width));
                }
            }
            return rest;
        }
        assert(suffix@.is_suffix_of(rest@)) by {
            assert(suffix@ =~= rest@.subrange(n - width, n as int));
        }
        rest = head;
    }
}

fn parse_kilobytes(value: &str) -> (kb: usize)
    ensures
        kb == kilobytes(value@),
{
    match parse_count(text::trim(trim_end_text(text::trim(value), " kB"))) {
        Some(n) => n,
        None => 0,
    }
}

/// The resident memory that the lines of `/proc/self/status` tell.
pub open spec fn resident_in(lines: Seq<Seq<char>>) -> nat
    decreases lines.len(),
{
    if lines.len() == 0 {
        0
    } else if "VmRSS:"@.is_prefix_of(lines[0]) {
        kilobytes(lines[0].skip(6))
    } else {
        resident_in(lines.drop_first())
    }
}

/// The resident memory of the process, in kilobytes, from what `/proc/self/status` holds.
pub fn rss_kb(content: &str) -> (kb: usize)
    ensures
        kb == resident_in(text::lines(content@)),
{
    let mut rest = content;
    loop
        invariant
            resident_in(text::lines(content@)) == resident_in(text::lines(rest@)),
        decreases rest@.len(),
    {
        let ghost all = text::lines(rest@);
        match text::next_line(rest) {
            None => {
                return 0;
            },
            Some((line, tail)) => {
                assert(all.len() > 0 && all[0] == line@);
                assert(all.drop_first() =~= text::lines(tail@));
                if text::starts_with(line, "VmRSS:") {
                    proof {
                        reveal_strlit("VmRSS:");
                    }
                    return parse_kilobytes(text::split_chars(line, 6).1);
                }
                rest = tail;
            },
        }
    }
}

/// The number behind the first colon of a line; 0 where there is none.
pub open spec fn line_amount(line: Seq<char>) -> nat {
    match text::split_at_char(line, ':') {
        Some((_, value)) => kilobytes(value),
        None => 0,
    }
}

/// The amount on the last of the lines that start with `label`, or `known` where none does.
pub open spec fn last_amount(known: nat, lines: Seq<Seq<char>>, label: Seq<char>) -> nat
    decreases lines.len(),
{
    if lines.len() == 0 {
        known
    } else if label.is_prefix_of(lines[0]) {
        last_amount(line_amount(lines[0]), lines.drop_first(), label)
    } else {
        last_amount(known, lines.drop_first(), label)
    }
}

/// The memory in huge pages and in swap, in kilobytes, from what `/proc/self/smaps_rollup` holds.
pub fn thp_swap(content: &str) -> (r: (usize, usize))
    ensures
        r.0 == last_amount(0, text::lines(content@), "AnonHugePages:"@),
        r.1 == last_amount(0, text::lines(content@), "Swap:"@),
{
    let mut huge: usize = 0;
    let mut swap: usize = 0;
    let mut rest = content;
    loop
        invariant
            last_amount(0, text::lines(content@), "AnonHugePages:"@) == last_amount(
                huge as nat,
                text::lines(rest@),
                "AnonHugePages:"@,
            ),
            last_amount(0, text::lines(content@), "Swap:"@) == last_amount(
                swap as nat,
                text::lines(rest@),
                "Swap:"@,
            ),
        decreases rest@.len(),
    {
        let ghost all = text::lines(rest@);
        match text::next_line(rest) {
            None => {
                return (huge, swap);
            },
            Some((line, tail)) => {
                assert(all.len() > 0 && all[0] == line@);
                assert(all.drop_first() =~= text::lines(tail@));
                let amount: usize = match text::split_once(line, ':') {
                    Some((_, value)) => parse_kilobytes(value),
                    None => 0,
                };
                if text::starts_with(line, "AnonHugePages:") {
                    huge = amount;
                }
                if text::starts_with(line, "Swap:") {
                    swap = amount;
                }
                rest = tail;
            },
        }
    }
}

/// What stands before the target of the standard input in a listing of descriptors.
pub open spec fn input_mark() -> Seq<char> {
    "/fd/0 -> "@
}

/// What follows the mark on a line, up to the next mark.
pub open spec fn behind_mark(line: Seq<char>) -> Option<Seq<char>> {
    match text::first_occurrence(line, input_mark()) {
        Some(i) => {
            let rest = line.skip(i + input_mark().len());
            match text::first_occurrence(rest, input_mark()) {
                Some(j) => Some(rest.take(j)),
                None => Some(rest),
            }
        },
        None => None,
    }
}

/// The target of the standard input on the first of the lines that tells it.
pub open spec fn input_target_in(lines: Seq<Seq<char>>) -> Option<Seq<char>>
    decreases lines.len(),
{
    if lines.len() == 0 {
        None
    } else if behind_mark(lines[0]) is Some {
        behind_mark(lines[0])
    } else {
        input_target_in(lines.drop_first())
    }
}

fn after_mark(line: &str) -> (r: Option<&str>)
    ensures
        match r {
            Some(target) => behind_mark(line@) == Some(target@),
            None => behind_mark(line@) is None,
        },
{
    let mark = "/fd/0 -> ";
    match text::find_text(line, mark) {
        Some(i) => {
            let width: usize = text::char_count(mark);
            let (_, tail) = text::split_chars(line, i);
            let (_, rest) = text::split_chars(tail, width);
            assert(rest@ =~= line@.skip(i + mark@.len()));
            match text::find_text(rest, mark) {
                Some(j) => Some(text::split_chars(rest, j).0),
                None => Some(rest),
            }
        },
        None => None,
    }
}

/// What the standard input of a process leads to, from a listing of its descriptors.
pub fn input_target(listing: &str) -> (r: Option<&str>)
    ensures
        match r {
            Some(target) => input_target_in(text::lines(listing@)) == Some(target@),
            None => input_target_in(text::lines(listing@)) is None,
        },
{
    let mut rest = listing;
    loop
        invariant
            input_target_in(text::lines(listing@)) == input_target_in(text::lines(rest@)),
        decreases rest@.len(),
    {
        let ghost all = text::lines(rest@);
        match text::next_line(rest) {
            None => {
                return None;
            },
            Some((line, tail)) => {
                assert(all.len() > 0 && all[0] == line@);
                assert(all.drop_first() =~= text::lines(tail@));
                if let Some(target) = after_mark(line) {
                    return Some(target);
                }
                rest = tail;
            },
        }
    }
}

// ---------------------------------------------------------------------------
// What the child tells
// ---------------------------------------------------------------------------
/// The memory that a child shares with its parent: what it is to start, and when it got how far.
///
/// The slots are, in order: the descriptor that replaces the standard ones; the addresses of the path,
/// of the arguments and of the environment; the seconds and nanoseconds at which the child was entered;
/// and those at which it was about to start the program.
#[derive(Debug, Clone, Copy)]
pub struct Args([u64; 8]);

impl View for Args {
    type V = Seq<u64>;

    closed spec fn view(&self) -> Seq<u64> {
        self.0@
    }
}

/// The nanoseconds of a time in seconds and nanoseconds, wrapped around where they do not fit.
pub open spec fn nanoseconds(secs: u64, nanos: u64) -> u64 {
    secs.wrapping_mul(1_000_000_000).wrapping_add(nanos)
}

/// The nanoseconds of a time in seconds and nanoseconds, wrapped around where they do not fit.
pub fn mono_ns(secs: u64, nanos: u64) -> (ns: u64)
    ensures
        ns == nanoseconds(secs, nanos),
{
    secs.wrapping_mul(1_000_000_000).wrapping_add(nanos)
}

/// How long after `start` a moment was; 0 where it never came.
pub open spec fn offset_ns(moment: u64, start: u64) -> u64 {
    if moment == 0 || moment < start {
        0
    } else {
        (moment - start) as u64
    }
}

impl Args {
    /// What a child is to start. Nothing is known yet of how far it got.
    pub fn request(devnull: u64, path: u64, argv: u64, envp: u64) -> (args: Args)
        ensures
            args@ == seq![devnull, path, argv, envp, 0, 0, 0, 0],
    {
        let args = Args([devnull, path, argv, envp, 0, 0, 0, 0]);
        assert(args@ =~= seq![devnull, path, argv, envp, 0, 0, 0, 0]);
        args
    }

    /// What stands in the slots.
    pub fn from_slots(slots: [u64; 8]) -> (args: Args)
        ensures
            args@ == slots@,
    {
        Args(slots)
    }

    /// The slots.
    pub fn slots(&self) -> (slots: [u64; 8])
        ensures
            slots@ == self@,
    {
        self.0
    }

    /// How long after `start`, in nanoseconds, the child was entered, and how long after it the child was
    /// about to start the program; 0 stands for what never came.
    pub fn child_offsets(&self, start: u64) -> (r: (u64, u64))
        ensures
            r.0 == offset_ns(nanoseconds(self@[4], self@[5]), start),
            r.1 == offset_ns(nanoseconds(self@[6], self@[7]), start),
    {
        let entry: u64 = mono_ns(self.0[4], self.0[5]);
        let exec: u64 = mono_ns(self.0[6], self.0[7]);
        let first: u64 = if entry == 0 || entry < start {
            0
        } else {
            entry - start
        };
        let second: u64 = if exec == 0 || exec < start {
            0
        } else {
            exec - start
        };
        (first, second)
    }
}

proof fn lemma_words_of_the_command_line()
    ensures
        "true"@.len() == 4 && "cmd"@.len() == 3,
        "ladder"@.len() == 6 && "rss"@.len() == 3 && "sweep"@.len() == 5 && "ipc"@.len() == 3,
        "rss"@[0] == 'r' && "ipc"@[0] == 'i',
{
    reveal_strlit("true");
    reveal_strlit("cmd");
    reveal_strlit("ladder");
    reveal_strlit("rss");
    reveal_strlit("sweep");
    reveal_strlit("ipc");
}

/// A command line that names the number of samples, the target and the mode asks for these; what it does not
/// name is 400 samples, the program that does nothing, and the ladder. The mode that measures by memory may
/// name how much of it.
#[verifier::rlimit(50)]
pub proof fn law_what_a_measurement_is(
    program: Seq<char>,
    n: usize,
    mode: Mode,
    mb: usize,
    forced: bool,
)
    ensures
        probe_run(seq![program], forced) == Ok::<ProbeRun, Refusal>(
            ProbeRun { iters: 400, real_target: false, mode: Mode::Ladder, touch_mb: 0 },
        ),
        probe_run(seq![program, render::decimal(n as nat)], forced) == Ok::<ProbeRun, Refusal>(
            ProbeRun { iters: n, real_target: false, mode: Mode::Ladder, touch_mb: 0 },
        ),
        probe_run(
            seq![program, render::decimal(n as nat), "true"@, mode.text()],
            forced,
        ) == Ok::<ProbeRun, Refusal>(
            ProbeRun { iters: n, real_target: false, mode, touch_mb: 0 },
        ),
        n <= 120 || forced ==> probe_run(
            seq![program, render::decimal(n as nat), "cmd"@, mode.text()],
            forced,
        ) == Ok::<ProbeRun, Refusal>(
            ProbeRun { iters: n, real_target: true, mode, touch_mb: 0 },
        ),
        n > 120 && !forced && mode != Mode::Rss && mode != Mode::Sweep && mode != Mode::Ipc
            ==> probe_run(
            seq![program, render::decimal(n as nat), "cmd"@, mode.text()],
            forced,
        ) == Err::<ProbeRun, Refusal>(Refusal::TooMany),
        probe_run(
            seq![
                program,
                render::decimal(n as nat),
                "true"@,
                "rss"@,
                render::decimal(mb as nat),
            ],
            forced,
        ) == Ok::<ProbeRun, Refusal>(
            ProbeRun { iters: n, real_target: false, mode: Mode::Rss, touch_mb: mb },
        ),
{
    lemma_words_of_the_command_line();
    law_modes_are_found_by_name(mode);
    law_modes_are_found_by_name(Mode::Ladder);
    law_modes_are_found_by_name(Mode::Rss);
    law_modes_are_found_by_name(Mode::Sweep);
    law_modes_are_found_by_name(Mode::Ipc);
    render::law_decimal_reads_back(n as nat);
    render::law_decimal_reads_back(mb as nat);
    assert(count_in(render::decimal(n as nat)) == Some(n as nat));
    assert(count_in(render::decimal(mb as nat)) == Some(mb as nat));
}

/// The names of the modes.
pub proof fn law_names_of_the_modes()
    ensures
        Mode::Ladder.text() == "ladder"@ && Mode::Vf.text() == "vf"@,
        Mode::VfSweep.text() == "vfsweep"@ && Mode::Env.text() == "env"@,
        Mode::VfOpen.text() == "vfopen"@ && Mode::OpenFd.text() == "openfd"@,
        Mode::FdCheck.text() == "fdcheck"@ && Mode::ExecFail.text() == "execfail"@,
        Mode::Sweep.text() == "sweep"@ && Mode::Ipc.text() == "ipc"@ && Mode::Rss.text() == "rss"@,
{
}

/// A value such as `123 kB` tells its number, with white space around it at most.
pub proof fn law_kilobytes_are_read(left: Seq<char>, n: usize, right: Seq<char>)
    requires
        forall|i: int| 0 <= i < left.len() ==> text::is_white_space(#[trigger] left[i]),
        forall|i: int| 0 <= i < right.len() ==> text::is_white_space(#[trigger] right[i]),
    ensures
        kilobytes(left + (render::decimal(n as nat) + " kB"@) + right) == n,
        kilobytes(left + render::decimal(n as nat) + right) == n,
{
    let d = render::decimal(n as nat);
    let unit = " kB"@;
    reveal_strlit(" kB");
    render::law_decimal_reads_back(n as nat);
    assert(text::is_digit(d[0]) && text::is_digit(d[d.len() - 1]));
    assert(count_in(d) == Some(n as nat));
    let s = d + unit;
    assert(s[0] == d[0] && s.last() == 'B');
    crate::text_laws::law_white_space_is_trimmed(left, s, right);
    crate::text_laws::law_white_space_is_trimmed(left, d, right);
    assert(!unit.is_suffix_of(d)) by {
        if unit.is_suffix_of(d) {
            assert(unit[2] == d[d.len() - 1]);
        }
    }
    assert(without_suffix(d, unit) == d);
    assert(unit.is_suffix_of(s)) by {
        assert(unit =~= s.subrange(d.len() as int, s.len() as int));
    }
    assert(s.take(s.len() - unit.len()) =~= d);
    assert(without_suffix(s, unit) == d);
}

/// The first of the lines counts that tells the resident memory.
pub proof fn law_the_first_line_tells_the_memory(
    before: Seq<Seq<char>>,
    pad: Seq<char>,
    n: usize,
    behind: Seq<Seq<char>>,
)
    requires
        forall|i: int| 0 <= i < before.len() ==> !"VmRSS:"@.is_prefix_of(#[trigger] before[i]),
        forall|i: int| 0 <= i < pad.len() ==> text::is_white_space(#[trigger] pad[i]),
    ensures
        resident_in(
            before + (seq!["VmRSS:"@ + (pad + (render::decimal(n as nat) + " kB"@))] + behind),
        ) == n,
        resident_in(before) == 0,
    decreases before.len(),
{
    let line = "VmRSS:"@ + (pad + (render::decimal(n as nat) + " kB"@));
    let all = before + (seq![line] + behind);
    if before.len() == 0 {
        reveal_strlit("VmRSS:");
        assert(all[0] == line);
        assert(line.subrange(0, 6) =~= "VmRSS:"@);
        let none = Seq::<char>::empty();
        law_kilobytes_are_read(pad, n, none);
        assert(line.skip(6) =~= pad + (render::decimal(n as nat) + " kB"@) + none);
    } else {
        let rest = before.drop_first();
        assert(!"VmRSS:"@.is_prefix_of(before[0]));
        assert forall|i: int| 0 <= i < rest.len() implies !"VmRSS:"@.is_prefix_of(
            #[trigger] rest[i],
        ) by {
            assert(rest[i] == before[i + 1]);
        }
        assert(all[0] == before[0]);
        assert(all.drop_first() =~= rest + (seq![line] + behind));
        law_the_first_line_tells_the_memory(rest, pad, n, behind);
    }
}

/// How the end of a process is noted, and how far a child got: in nanoseconds since the start, or 0 where it
/// never did.
pub proof fn law_what_a_process_leaves(code: i32, secs: u64, nanos: u64, start: u64)
    ensures
        exit_text(true, false, code) == "exit"@ + "E"@ + ""@ + "="@ + render::signed(code as int),
        exit_text(false, true, code) == "exit"@ + "?"@ + "sig"@ + "="@ + render::signed(-1),
        secs * 1_000_000_000 + nanos <= u64::MAX ==> nanoseconds(secs, nanos) == secs * 1_000_000_000
            + nanos,
        nanos >= start && nanos > 0 ==> offset_ns(nanos, start) == nanos - start,
        nanos < start ==> offset_ns(nanos, start) == 0,
        offset_ns(0, start) == 0,
{
}

/// A field is the second word of the first line that starts with its key.
pub proof fn law_the_first_line_tells_the_field(
    before: Seq<Seq<char>>,
    line: Seq<char>,
    behind: Seq<Seq<char>>,
    key: Seq<char>,
)
    requires
        forall|i: int| 0 <= i < before.len() ==> !key.is_prefix_of(#[trigger] before[i]),
        key.is_prefix_of(line),
    ensures
        field_in(before + (seq![line] + behind), key) == if text::words(line).len() > 1 {
            text::words(line)[1]
        } else {
            "?"@
        },
        field_in(before, key) == "?"@,
    decreases before.len(),
{
    let all = before + (seq![line] + behind);
    if before.len() == 0 {
        assert(all[0] == line);
    } else {
        let rest = before.drop_first();
        assert(!key.is_prefix_of(before[0]));
        assert forall|i: int| 0 <= i < rest.len() implies !key.is_prefix_of(#[trigger] rest[i]) by {
            assert(rest[i] == before[i + 1]);
        }
        assert(all[0] == before[0]);
        assert(all.drop_first() =~= rest + (seq![line] + behind));
        law_the_first_line_tells_the_field(rest, line, behind, key);
    }
}

/// The amount on the last of the lines counts that start with a label, and nothing where none does.
pub proof fn law_the_last_line_tells_the_amount(
    known: nat,
    before: Seq<Seq<char>>,
    name: Seq<char>,
    pad: Seq<char>,
    n: usize,
    behind: Seq<Seq<char>>,
)
    requires
        !name.contains(':'),
        forall|i: int| 0 <= i < pad.len() ==> text::is_white_space(#[trigger] pad[i]),
        forall|i: int|
            0 <= i < behind.len() ==> !(name + seq![':']).is_prefix_of(#[trigger] behind[i]),
    ensures
        last_amount(
            known,
            before + (seq![name + seq![':'] + (pad + (render::decimal(n as nat) + " kB"@))] + behind),
            name + seq![':'],
        ) == n,
        last_amount(known, behind, name + seq![':']) == known,
    decreases before.len() + behind.len(),
{
    let label = name + seq![':'];
    let value = pad + (render::decimal(n as nat) + " kB"@);
    let line = name + seq![':'] + value;
    let all = before + (seq![line] + behind);
    if before.len() > 0 {
        let rest = before.drop_first();
        assert(all[0] == before[0]);
        assert(all.drop_first() =~= rest + (seq![line] + behind));
        law_the_last_line_tells_the_amount(line_amount(before[0]), rest, name, pad, n, behind);
        law_the_last_line_tells_the_amount(known, rest, name, pad, n, behind);
    } else {
        assert(all[0] == line);
        assert(all.drop_first() =~= behind);
        assert(line.subrange(0, label.len() as int) =~= label);
        crate::text_laws::law_split_at_the_first_mark(name, ':', value);
        let none = Seq::<char>::empty();
        law_kilobytes_are_read(pad, n, none);
        assert(pad + (render::decimal(n as nat) + " kB"@) + none =~= value);
        assert(line_amount(line) == n);
        lemma_no_line(n as nat, behind, label);
        lemma_no_line(known, behind, label);
    }
}

proof fn lemma_no_line(known: nat, lines: Seq<Seq<char>>, label: Seq<char>)
    requires
        forall|i: int| 0 <= i < lines.len() ==> !label.is_prefix_of(#[trigger] lines[i]),
    ensures
        last_amount(known, lines, label) == known,
    decreases lines.len(),
{
    if lines.len() > 0 {
        let rest = lines.drop_first();
        assert(!label.is_prefix_of(lines[0]));
        assert forall|i: int| 0 <= i < rest.len() implies !label.is_prefix_of(#[trigger] rest[i]) by {
            assert(rest[i] == lines[i + 1]);
        }
        lemma_no_line(known, rest, label);
    }
}

/// What follows the mark of the standard input on a line is its target.
#[verifier::rlimit(50)]
pub proof fn law_listings_tell_the_input(before: Seq<char>, target: Seq<char>)
    requires
        forall|i: int|
            0 <= i < before.len() ==> !#[trigger] text::occurs_at(
                before + "/fd/0 -> "@ + target,
                "/fd/0 -> "@,
                i,
            ),
        forall|i: int| !#[trigger] text::occurs_at(target, "/fd/0 -> "@, i),
    ensures
        behind_mark(before + "/fd/0 -> "@ + target) == Some(target),
        behind_mark(target) is None,
{
    let mark = "/fd/0 -> "@;
    let line = before + mark + target;
    let n = before.len() as int;
    assert(line.subrange(n, n + mark.len()) =~= mark);
    crate::text_laws::law_the_first_place_counts(line, mark, n);
    crate::text_laws::law_the_first_place_counts(target, mark, 0);
    assert(line.skip(n + mark.len()) =~= target);
}

/// The rows of a measurement: each way to start a process that the system offers, with as many samples as
/// wanted, but for the clone that does not suspend its parent, which gets a quarter of them, and for the
/// clock, which comes last.
pub proof fn law_rows_of_a_measurement(iters: usize)
    ensures
        vfork_plan(
            iters,
            (Available { raw_clone: true, posix_spawn: true, file_actions: true, attributes: true }),
        ) == seq![
            (Row { backend: Backend::Command, samples: iters, wanted: iters }),
            (Row { backend: Backend::ForkExec, samples: iters, wanted: iters }),
            (Row { backend: Backend::RawVfork, samples: iters, wanted: iters }),
            (Row {
                backend: Backend::RawVm,
                samples: (iters / 4) as usize,
                wanted: (iters / 4) as usize,
            }),
            (Row { backend: Backend::SpawnNull, samples: iters, wanted: iters }),
            (Row { backend: Backend::SpawnActions(3), samples: iters, wanted: iters }),
            (Row { backend: Backend::SpawnVfork, samples: iters, wanted: iters }),
            (Row { backend: Backend::Nothing, samples: 1, wanted: 1 }),
        ],
        ladder_plan(
            iters,
            (Available { raw_clone: true, posix_spawn: true, file_actions: true, attributes: true }),
        ) == seq![
            (Row { backend: Backend::Command, samples: iters, wanted: iters }),
            (Row { backend: Backend::ForkExec, samples: iters, wanted: iters }),
            (Row { backend: Backend::SpawnNull, samples: iters, wanted: iters }),
            (Row { backend: Backend::SpawnActions(3), samples: iters, wanted: iters }),
            (Row { backend: Backend::SpawnActions(0), samples: iters, wanted: iters }),
            (Row { backend: Backend::SpawnActions(1), samples: iters, wanted: iters }),
            (Row { backend: Backend::SpawnActions(2), samples: iters, wanted: iters }),
            (Row { backend: Backend::Nothing, samples: iters, wanted: 0 }),
        ],
{
}

/// What the system does not offer is not measured.
pub proof fn law_only_what_is_there_is_measured(iters: usize, has: Available, i: int)
    ensures
        0 <= i < vfork_plan(iters, has).len() ==> match vfork_plan(iters, has)[i].backend {
            Backend::RawVfork | Backend::RawVm => has.raw_clone,
            Backend::SpawnNull => has.posix_spawn,
            Backend::SpawnActions(n) => has.posix_spawn && has.file_actions && n == 3,
            Backend::SpawnVfork => has.posix_spawn && has.file_actions && has.attributes,
            _ => true,
        },
        0 <= i < ladder_plan(iters, has).len() ==> match ladder_plan(iters, has)[i].backend {
            Backend::RawVfork | Backend::RawVm | Backend::SpawnVfork => false,
            Backend::SpawnNull => has.posix_spawn,
            Backend::SpawnActions(n) => has.posix_spawn && has.file_actions && n <= 3,
            _ => true,
        },
{
}

} // verus!
