//! What the commands of the system answer: the state of the screen, the default apps, and whether the
//! log stream is healthy.
use vstd::prelude::*;

use crate::parser;
use crate::text;

verus! {

// ---------------------------------------------------------------------------
// The screen
// ---------------------------------------------------------------------------
/// Whether `part` stands somewhere in `s`.
pub open spec fn has(s: Seq<char>, part: Seq<char>) -> bool {
    text::first_occurrence(s, part) is Some
}

/// What a line of `dumpsys power` tells of the screen.
pub open spec fn power_line(line: Seq<char>) -> Option<bool> {
    let s = text::trimmed(line);
    if "mHoldingDisplaySuspendBlocker="@.is_prefix_of(s) && has(s, "true"@) {
        Some(true)
    } else if "mHoldingDisplaySuspendBlocker="@.is_prefix_of(s) && has(s, "false"@) {
        Some(false)
    } else if "Display Power: state="@.is_prefix_of(s) && has(s, "ON"@) {
        Some(true)
    } else if "Display Power: state="@.is_prefix_of(s) && (has(s, "OFF"@) || has(s, "DOZE"@)) {
        Some(false)
    } else {
        None
    }
}

/// What the first line tells that tells anything.
pub open spec fn power_lines(lines: Seq<Seq<char>>) -> Option<bool>
    decreases lines.len(),
{
    if lines.len() == 0 {
        None
    } else if power_line(lines[0]) is Some {
        power_line(lines[0])
    } else {
        power_lines(lines.drop_first())
    }
}

fn parse_power_line(line: &str) -> (r: Option<bool>)
    ensures
        r == power_line(line@),
{
    let s = text::trim(line);
    if text::starts_with(s, "mHoldingDisplaySuspendBlocker=") {
        if text::contains(s, "true") {
            return Some(true);
        } else if text::contains(s, "false") {
            return Some(false);
        }
    }
    if text::starts_with(s, "Display Power: state=") {
        if text::contains(s, "ON") {
            return Some(true);
        } else if text::contains(s, "OFF") || text::contains(s, "DOZE") {
            return Some(false);
        }
    }
    None
}

/// Whether the screen is on, from what `dumpsys power` prints. The first line that tells it counts:
/// the current state is printed before the history.
pub fn parse_dumpsys_power_screen(stdout: &str) -> (r: Option<bool>)
    ensures
        r == power_lines(text::lines(stdout@)),
{
    let mut rest = stdout;
    loop
        invariant
            power_lines(text::lines(stdout@)) == power_lines(text::lines(rest@)),
        decreases rest@.len(),
    {
        let ghost all = text::lines(rest@);
        match text::next_line(rest) {
            None => {
                return None;
            },
            Some((line, tail)) => {
                assert(all.len() > 0 && all[0] == line@);
                assert(all.drop_first() =~= text::lines(tail@));
                let told = parse_power_line(line);
                if told.is_some() {
                    return told;
                }
                rest = tail;
            },
        }
    }
}

/// Whether `bytes` start with the characters of `prefix`, which are ASCII.
pub open spec fn bytes_start_with(bytes: Seq<u8>, prefix: Seq<char>) -> bool {
    vstd::utf8::encode_utf8(prefix).is_prefix_of(bytes)
}

pub(crate) fn starts_with_bytes(bytes: &[u8], prefix: &str) -> (yes: bool)
    ensures
        yes == bytes_start_with(bytes@, prefix@),
{
    let wanted = prefix.as_bytes();
    if bytes.len() < wanted.len() {
        return false;
    }
    let mut i: usize = 0;
    while i < wanted.len()
        invariant
            wanted@ == vstd::utf8::encode_utf8(prefix@),
            wanted@.len() <= bytes@.len(),
            i <= wanted@.len(),
            forall|j: int| 0 <= j < i ==> bytes@[j] == wanted@[j],
        decreases wanted@.len() - i,
    {
        if bytes[i] != wanted[i] {
            assert(bytes@.subrange(0, wanted@.len() as int)[i as int] != wanted@[i as int]);
            return false;
        }
        i = i + 1;
    }
    assert(wanted@.is_prefix_of(bytes@));
    true
}

/// Whether the screen is on, from what `cmd deviceidle get screen` prints.
pub fn parse_deviceidle_screen(stdout: &[u8]) -> (r: Option<bool>)
    ensures
        r == if bytes_start_with(stdout@, "true"@) {
            Some(true)
        } else if bytes_start_with(stdout@, "false"@) {
            Some(false)
        } else {
            None
        },
{
    if starts_with_bytes(stdout, "true") {
        Some(true)
    } else if starts_with_bytes(stdout, "false") {
        Some(false)
    } else {
        None
    }
}

/// Whether the screen is on at the start: as `deviceidle` tells, else as `power` tells, else it is.
pub fn initial_screen_on(deviceidle: Option<bool>, power: Option<bool>) -> (on: bool)
    ensures
        on == match (deviceidle, power) {
            (Some(on), _) => on,
            (None, Some(on)) => on,
            (None, None) => true,
        },
{
    match (deviceidle, power) {
        (Some(on), _) => on,
        (None, Some(on)) => on,
        (None, None) => true,
    }
}

// ---------------------------------------------------------------------------
// Default apps
// ---------------------------------------------------------------------------
/// The app that a line of `cmd package resolve-activity` names: the package of the first word with a
/// slash in it.
pub open spec fn activity_pkg(line: Seq<char>) -> Option<Seq<char>> {
    let words = text::words(line);
    let i = text::first_index(words, parser::holds_char('/'));
    let pkg = text::trimmed(text::before_char(words[i], '/'));
    if i < words.len() && pkg.len() > 0 && pkg.contains('.') && !parser::begins(pkg, '-')
        && !parser::begins(pkg, '{') {
        Some(pkg)
    } else {
        None
    }
}

/// The app that the first line names that names one.
pub open spec fn activity_lines(lines: Seq<Seq<char>>) -> Option<Seq<char>>
    decreases lines.len(),
{
    if lines.len() == 0 {
        None
    } else if activity_pkg(lines[0]) is Some {
        activity_pkg(lines[0])
    } else {
        activity_lines(lines.drop_first())
    }
}

fn parse_activity_pkg(line: &str) -> (r: Option<&str>)
    ensures
        match r {
            Some(pkg) => activity_pkg(line@) == Some(pkg@),
            None => activity_pkg(line@) is None,
        },
{
    match parser::word_with_slash(line) {
        None => None,
        Some(word) => {
            let pkg = text::trim(text::take_before(word, '/'));
            if !pkg.is_empty() && text::contains_char(pkg, '.') && !text::starts_with_char(pkg, '-')
                && !text::starts_with_char(pkg, '{') {
                Some(pkg)
            } else {
                None
            }
        },
    }
}

/// The default app that `cmd package resolve-activity` prints.
pub fn parse_resolve_activity_pkg(stdout: &str) -> (r: Option<&str>)
    ensures
        match r {
            Some(pkg) => activity_lines(text::lines(stdout@)) == Some(pkg@),
            None => activity_lines(text::lines(stdout@)) is None,
        },
{
    let mut rest = stdout;
    loop
        invariant
            activity_lines(text::lines(stdout@)) == activity_lines(text::lines(rest@)),
        decreases rest@.len(),
    {
        let ghost all = text::lines(rest@);
        match text::next_line(rest) {
            None => {
                return None;
            },
            Some((line, tail)) => {
                assert(all.len() > 0 && all[0] == line@);
                assert(all.drop_first() =~= text::lines(tail@));
                let found = parse_activity_pkg(line);
                if found.is_some() {
                    return found;
                }
                rest = tail;
            },
        }
    }
}

/// Whether a line of `cmd role get-role-holders` names an app, and no error.
pub open spec fn is_role_holder(line: Seq<char>) -> bool {
    let s = text::trimmed(line);
    &&& s.len() > 0
    &&& s != "null"@
    &&& !s.contains(' ')
    &&& s.contains('.')
    &&& !"No holder"@.is_prefix_of(s)
    &&& !"Error"@.is_prefix_of(s)
    &&& !parser::begins(s, '-')
}

/// The apps that the lines name, in order.
pub open spec fn holders(lines: Seq<Seq<char>>) -> Seq<Seq<char>>
    decreases lines.len(),
{
    if lines.len() == 0 {
        Seq::empty()
    } else if is_role_holder(lines[0]) {
        seq![text::trimmed(lines[0])] + holders(lines.drop_first())
    } else {
        holders(lines.drop_first())
    }
}

/// What the strings hold.
pub open spec fn texts(strings: Seq<String>) -> Seq<Seq<char>> {
    strings.map_values(|s: String| s@)
}

/// The apps that `cmd role get-role-holders` prints.
pub fn parse_role_holders(stdout: &str) -> (r: Vec<String>)
    ensures
        texts(r@) == holders(text::lines(stdout@)),
{
    let mut found: Vec<String> = Vec::new();
    let mut rest = stdout;
    assert(texts(found@) + holders(text::lines(stdout@)) =~= holders(text::lines(stdout@)));
    loop
        invariant
            holders(text::lines(stdout@)) == texts(found@) + holders(text::lines(rest@)),
        decreases rest@.len(),
    {
        let ghost all = text::lines(rest@);
        let ghost before = texts(found@);
        match text::next_line(rest) {
            None => {
                assert(holders(all).len() == 0);
                assert(texts(found@) + holders(all) =~= texts(found@));
                return found;
            },
            Some((line, tail)) => {
                assert(all.len() > 0 && all[0] == line@);
                assert(all.drop_first() =~= text::lines(tail@));
                let pkg = text::trim(line);
                if !pkg.is_empty() && !text::same(pkg, "null") && !text::contains_char(pkg, ' ')
                    && text::contains_char(pkg, '.') && !text::starts_with(pkg, "No holder")
                    && !text::starts_with(pkg, "Error") && !text::starts_with_char(pkg, '-') {
                    found.push(pkg.to_owned());
                    assert(texts(found@) =~= before.push(pkg@));
                    assert(before.push(pkg@) + holders(text::lines(tail@)) =~= before + (seq![pkg@]
                        + holders(text::lines(tail@))));
                }
                rest = tail;
            },
        }
    }
}

/// Whether `s` consists of digits, if of anything.
pub open spec fn all_digits(s: Seq<char>) -> bool {
    forall|i: int| 0 <= i < s.len() ==> text::is_digit(#[trigger] s[i])
}

/// A component without the number of its user in front, as in `0:com.pkg/svc`.
pub open spec fn without_user(s: Seq<char>) -> Seq<char> {
    match text::split_at_char(s, ':') {
        Some((user, rest)) if rest.contains('.') && all_digits(user) => rest,
        _ => s,
    }
}

/// The app whose component a secure setting holds.
pub open spec fn setting_pkg(stdout: Seq<char>) -> Option<Seq<char>> {
    let s = text::trimmed(stdout);
    let pkg = text::trimmed(text::before_char(without_user(s), '/'));
    if s.len() > 0 && !"null"@.is_prefix_of(s) && pkg.len() > 0 && pkg.contains('.')
        && !pkg.contains(' ') && !parser::begins(pkg, '-') {
        Some(pkg)
    } else {
        None
    }
}

fn only_digits(s: &str) -> (yes: bool)
    ensures
        yes == all_digits(s@),
{
    for c in it: s.chars()
        invariant
            it.seq() == s@,
            forall|i: int| 0 <= i < it.index() ==> text::is_digit(#[trigger] s@[i]),
    {
        assert(c == s@[it.index() as int]);
        if !text::is_digit(c) {
            return false;
        }
    }
    true
}

/// The app whose component `cmd settings get secure` prints.
pub fn parse_secure_setting(stdout: &str) -> (r: Option<&str>)
    ensures
        match r {
            Some(pkg) => setting_pkg(stdout@) == Some(pkg@),
            None => setting_pkg(stdout@) is None,
        },
{
    let s = text::trim(stdout);
    if s.is_empty() || text::starts_with(s, "null") {
        return None;
    }
    let bare = match text::split_once(s, ':') {
        Some((user, rest)) => {
            if text::contains_char(rest, '.') && only_digits(user) {
                rest
            } else {
                s
            }
        },
        None => s,
    };
    let pkg = text::trim(text::take_before(bare, '/'));
    if !pkg.is_empty() && text::contains_char(pkg, '.') && !text::contains_char(pkg, ' ')
        && !text::starts_with_char(pkg, '-') {
        Some(pkg)
    } else {
        None
    }
}

// ---------------------------------------------------------------------------
// The log stream
// ---------------------------------------------------------------------------
/// Whether a child process is there.
#[derive(Debug, Clone, Copy, PartialEq, Eq, Structural)]
pub enum ChildStatus {
    Running,
    Exited,
    Unknown,
}

/// Whether the log stream is healthy, right after its process was started: the process runs, and the
/// pipe is neither invalid nor broken. `invalid` and `broken` are what a poll of the pipe found.
pub fn probe_logcat_stream(
    child: ChildStatus,
    pipe_fd: i32,
    invalid: bool,
    broken: bool,
) -> (r: Result<(), &'static str>)
    ensures
        r is Ok <==> child == ChildStatus::Running && pipe_fd >= 0 && !invalid && !broken,
        r matches Err(message) ==> message@ == if child == ChildStatus::Exited {
            "Child logcat process died immediately after spawn (SELinux denial, missing binary, or invalid arguments)"@
        } else if child == ChildStatus::Unknown {
            "error checking logcat child status"@
        } else if pipe_fd < 0 {
            "Invalid logcat stdout pipe file descriptor"@
        } else if invalid {
            "Invalid logcat stdout pipe file descriptor (POLLNVAL)"@
        } else {
            "Immediate POLLHUP/POLLERR detected on logcat stdout pipe"@
        },
{
    match child {
        ChildStatus::Exited => {
            return Err(
                "Child logcat process died immediately after spawn (SELinux denial, missing binary, or invalid arguments)",
            );
        },
        ChildStatus::Unknown => {
            return Err("error checking logcat child status");
        },
        ChildStatus::Running => {},
    }
    if pipe_fd < 0 {
        return Err("Invalid logcat stdout pipe file descriptor");
    }
    if invalid {
        return Err("Invalid logcat stdout pipe file descriptor (POLLNVAL)");
    }
    if broken {
        return Err("Immediate POLLHUP/POLLERR detected on logcat stdout pipe");
    }
    Ok(())
}

} // verus!
