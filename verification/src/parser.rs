//! Parser for the lifecycle events of the Android event log (API 24 and later).
//!
//! The events borrow from the line that they were parsed from. The payload formats
//! of vendors differ, so positions are only a first guess: the parsers look for the
//! tokens that can be what they need, and reject package names that a shell command
//! would take for an option.
use vstd::prelude::*;

use crate::text;

verus! {

/// A component came to the foreground.
#[derive(Debug, PartialEq, Eq)]
pub struct ResumeActivityEvent<'a> {
    pub pkg: &'a str,
    pub component: &'a str,
}

/// A process was started.
#[derive(Debug, PartialEq, Eq)]
pub struct ProcStartEvent<'a> {
    pub proc_name: &'a str,
    pub pkg: &'a str,
    pub spawn_type: &'a str,
    pub pid: u32,
    pub uid: u32,
}

/// A process is gone.
#[derive(Debug, PartialEq, Eq, Clone, Copy)]
pub struct ProcDiedEvent {
    pub pid: u32,
}

/// One event of the log.
#[derive(Debug, PartialEq, Eq)]
pub enum LogcatEvent<'a> {
    ResumeActivity(ResumeActivityEvent<'a>),
    ProcStart(ProcStartEvent<'a>),
    ProcDied(ProcDiedEvent),
    ScreenToggled(bool),
    DeviceIdleLightStep,
}

/// What a [`ResumeActivityEvent`] says.
pub struct ResumeModel {
    pub pkg: Seq<char>,
    pub component: Seq<char>,
}

/// What a [`ProcStartEvent`] says.
pub struct StartModel {
    pub proc_name: Seq<char>,
    pub pkg: Seq<char>,
    pub spawn_type: Seq<char>,
    pub pid: u32,
    pub uid: u32,
}

/// What a [`LogcatEvent`] says.
pub enum EventModel {
    ResumeActivity(ResumeModel),
    ProcStart(StartModel),
    ProcDied(u32),
    ScreenToggled(bool),
    DeviceIdleLightStep,
}

impl<'a> View for ResumeActivityEvent<'a> {
    type V = ResumeModel;

    open spec fn view(&self) -> ResumeModel {
        ResumeModel { pkg: self.pkg@, component: self.component@ }
    }
}

impl<'a> View for ProcStartEvent<'a> {
    type V = StartModel;

    open spec fn view(&self) -> StartModel {
        StartModel {
            proc_name: self.proc_name@,
            pkg: self.pkg@,
            spawn_type: self.spawn_type@,
            pid: self.pid,
            uid: self.uid,
        }
    }
}

impl<'a> View for LogcatEvent<'a> {
    type V = EventModel;

    open spec fn view(&self) -> EventModel {
        match *self {
            LogcatEvent::ResumeActivity(ev) => EventModel::ResumeActivity(ev@),
            LogcatEvent::ProcStart(ev) => EventModel::ProcStart(ev@),
            LogcatEvent::ProcDied(ev) => EventModel::ProcDied(ev.pid),
            LogcatEvent::ScreenToggled(on) => EventModel::ScreenToggled(on),
            LogcatEvent::DeviceIdleLightStep => EventModel::DeviceIdleLightStep,
        }
    }
}

// ---------------------------------------------------------------------------
// Tokens
// ---------------------------------------------------------------------------
/// How many braces are open behind `c`, where `depth` were open before it. A closing
/// brace without a partner is ignored.
pub open spec fn depth_after(depth: nat, c: char) -> nat {
    if c == '{' {
        depth + 1
    } else if c == '}' && depth > 0 {
        (depth - 1) as nat
    } else {
        depth
    }
}

/// Index of the first comma outside braces, where `depth` braces are open at the start;
/// the length where there is none.
pub open spec fn field_end(s: Seq<char>, depth: nat) -> int
    decreases s.len(),
{
    if s.len() == 0 || (s[0] == ',' && depth == 0) {
        0
    } else {
        1 + field_end(s.drop_first(), depth_after(depth, s[0]))
    }
}

/// The fields of `s`, without white space at their ends: what the commas outside braces
/// separate.
pub open spec fn fields(s: Seq<char>) -> Seq<Seq<char>>
    decreases s.len(),
    via fields_decreases
{
    let end = field_end(s, 0);
    if end < s.len() {
        seq![text::trimmed(s.take(end))] + fields(s.skip(end + 1))
    } else {
        seq![text::trimmed(s)]
    }
}

proof fn lemma_field_end(s: Seq<char>, depth: nat)
    ensures
        0 <= field_end(s, depth) <= s.len(),
    decreases s.len(),
{
    if s.len() > 0 && !(s[0] == ',' && depth == 0) {
        lemma_field_end(s.drop_first(), depth_after(depth, s[0]));
    }
}

#[via_fn]
proof fn fields_decreases(s: Seq<char>) {
    lemma_field_end(s, 0);
}

/// Whether `s`, before which `depth` braces are open, closes every brace that it opens, and has no comma
/// outside braces.
pub open spec fn whole(s: Seq<char>, depth: nat) -> bool
    decreases s.len(),
{
    if s.len() == 0 {
        depth == 0
    } else {
        !(s[0] == ',' && depth == 0) && whole(s.drop_first(), depth_after(depth, s[0]))
    }
}

/// The parts with commas between them.
pub open spec fn with_commas(parts: Seq<Seq<char>>) -> Seq<char>
    decreases parts.len(),
{
    if parts.len() == 0 {
        Seq::empty()
    } else if parts.len() == 1 {
        parts[0]
    } else {
        parts[0] + seq![','] + with_commas(parts.drop_first())
    }
}

proof fn lemma_whole_field(s: Seq<char>, depth: nat, rest: Seq<char>)
    requires
        whole(s, depth),
    ensures
        field_end(s, depth) == s.len(),
        field_end(s + seq![','] + rest, depth) == s.len(),
    decreases s.len(),
{
    let t = s + seq![','] + rest;
    if s.len() == 0 {
        assert(t[0] == ',');
    } else {
        lemma_whole_field(s.drop_first(), depth_after(depth, s[0]), rest);
        assert(t[0] == s[0]);
        assert(t.drop_first() =~= s.drop_first() + seq![','] + rest);
    }
}

/// The fields of a list are the parts that it was made of, without the white space at their ends, as long as
/// commas stand in the parts only inside braces.
pub proof fn law_fields_are_the_parts(parts: Seq<Seq<char>>)
    requires
        parts.len() > 0,
        forall|i: int| 0 <= i < parts.len() ==> whole(#[trigger] parts[i], 0),
    ensures
        fields(with_commas(parts)) == parts.map_values(|part: Seq<char>| text::trimmed(part)),
    decreases parts.len(),
{
    let s = with_commas(parts);
    let trim = |part: Seq<char>| text::trimmed(part);
    assert(whole(parts[0], 0));
    if parts.len() == 1 {
        lemma_whole_field(parts[0], 0, Seq::empty());
        assert(fields(s) =~= parts.map_values(trim));
    } else {
        let rest = parts.drop_first();
        assert forall|i: int| 0 <= i < rest.len() implies whole(#[trigger] rest[i], 0) by {
            assert(rest[i] == parts[i + 1]);
        }
        law_fields_are_the_parts(rest);
        lemma_whole_field(parts[0], 0, with_commas(rest));
        assert(s.take(parts[0].len() as int) =~= parts[0]);
        assert(s.skip((parts[0].len() + 1) as int) =~= with_commas(rest));
        assert(fields(s) =~= parts.map_values(trim));
    }
}

/// Number of characters in the first field of `s`.
fn field_length(s: &str) -> (end: usize)
    ensures
        end == field_end(s@, 0),
        end <= s@.len(),
{
    let mut depth: usize = 0;
    let mut passed: usize = 0;
    proof {
        text::lemma_chars_fit_bytes(s@);
        lemma_field_end(s@, 0);
    }
    let total: usize = s.as_bytes().len();
    assert(s@.skip(0) =~= s@);
    for c in it: s.chars()
        invariant
            it.seq() == s@,
            passed == it.index(),
            s@.len() <= total,
            depth <= passed,
            field_end(s@, 0) == passed + field_end(s@.skip(passed as int), depth as nat),
            0 <= field_end(s@, 0) <= s@.len(),
    {
        let ghost rest = s@.skip(passed as int);
        assert(rest[0] == c);
        assert(rest.drop_first() =~= s@.skip(passed + 1));
        if c == ',' && depth == 0 {
            return passed;
        }
        if c == '{' {
            depth = depth + 1;
        } else if c == '}' && depth > 0 {
            depth = depth - 1;
        }
        passed = passed + 1;
    }
    passed
}

/// Splits `inner` into fields at the commas outside braces and puts the first `N` of them,
/// without white space at their ends, at the start of `out`. Returns how many it put there.
pub fn tokenize<'a, const N: usize>(inner: &'a str, out: &mut [&'a str; N]) -> (count: usize)
    ensures
        count == if fields(inner@).len() < N {
            fields(inner@).len()
        } else {
            N as nat
        },
        forall|i: int| 0 <= i < count ==> (#[trigger] final(out)@[i])@ == fields(inner@)[i],
        forall|i: int| count <= i < N ==> #[trigger] final(out)@[i] == old(out)@[i],
{
    let mut count: usize = 0;
    let mut rest = inner;
    let ghost all = fields(inner@);
    assert(all.skip(0) =~= all);
    while count < N
        invariant
            count <= N,
            all == fields(inner@),
            count <= all.len(),
            fields(rest@) == all.skip(count as int),
            forall|i: int| 0 <= i < count ==> (#[trigger] out@[i])@ == all[i],
            forall|i: int| count <= i < N ==> #[trigger] out@[i] == old(out)@[i],
        decreases N - count,
    {
        let end: usize = field_length(rest);
        let (field, tail) = text::split_chars(rest, end);
        let ghost here = fields(rest@);
        assert(here.len() >= 1);
        assert(here[0] == all[count as int]);
        out[count] = text::trim(field);
        count = count + 1;
        if tail.is_empty() {
            assert(field@ =~= rest@);
            assert(fields(rest@).len() == 1);
            return count;
        }
        let next = text::split_chars(tail, 1).1;
        assert(next@ =~= rest@.skip(end + 1));
        assert(fields(next@) =~= here.drop_first());
        assert(here.drop_first() =~= all.skip(count as int));
        rest = next;
    }
    count
}

/// What a payload holds inside its square brackets, without white space at the ends.
pub open spec fn payload_body(payload: Seq<char>) -> Seq<char> {
    text::trimmed(text::trim_by(text::trimmed(payload), text::one_of(seq!['[', ']'])))
}

/// The tokens of a payload: its first eight fields.
pub open spec fn tokens(payload: Seq<char>) -> Seq<Seq<char>> {
    let all = fields(payload_body(payload));
    if all.len() <= 8 {
        all
    } else {
        all.take(8)
    }
}

fn strip_brackets(payload: &str) -> (body: &str)
    ensures
        body@ == payload_body(payload@),
{
    let brackets: [char; 2] = ['[', ']'];
    assert(brackets@ =~= seq!['[', ']']);
    text::trim(text::trim_matches(text::trim(payload), &brackets))
}

fn payload_tokens<'a>(payload: &'a str) -> (r: ([&'a str; 8], usize))
    ensures
        1 <= r.1 <= 8,
        r.1 == tokens(payload@).len(),
        forall|i: int| 0 <= i < r.1 ==> (#[trigger] r.0@[i])@ == tokens(payload@)[i],
{
    let mut toks: [&'a str; 8] = [""; 8];
    let body = strip_brackets(payload);
    let count: usize = tokenize(body, &mut toks);
    (toks, count)
}

/// The predicate that holds of the strings in which `mark` stands.
pub open spec fn holds_char(mark: char) -> spec_fn(Seq<char>) -> bool {
    |s: Seq<char>| s.contains(mark)
}

// ---------------------------------------------------------------------------
// Resumed activities
// ---------------------------------------------------------------------------
/// The token that names the component: the first one with a slash in it, else the fourth.
pub open spec fn component_token(toks: Seq<Seq<char>>) -> Seq<char> {
    let i = text::first_index(toks, holds_char('/'));
    if i < toks.len() {
        toks[i]
    } else if toks.len() >= 4 {
        toks[3]
    } else {
        Seq::empty()
    }
}

/// What ends a component inside an intent: white space, a brace or a bracket.
pub open spec fn ends_component() -> spec_fn(char) -> bool {
    |c: char| text::is_white_space(c) || c == '}' || c == ']'
}

/// The component inside a token: what follows `cmp=` in an intent, or the first word with
/// a slash in it, without braces and quotes around it.
pub open spec fn component_in(token: Seq<char>) -> Seq<char> {
    let bare = text::trimmed(text::trim_by(text::trimmed(token), text::one_of(seq!['{', '}'])));
    let named = match text::first_occurrence(bare, "cmp="@) {
        Some(i) => {
            let rest = text::trimmed(bare.skip(i + 4));
            rest.take(text::first_index(rest, ends_component()))
        },
        None => {
            let words = text::words(bare);
            let i = text::first_index(words, holds_char('/'));
            if bare.contains(' ') && i < words.len() {
                text::trim_by(words[i], text::one_of(seq!['{', '}', '"', '\'']))
            } else {
                bare
            }
        },
    };
    text::trim_by(named, text::one_of(seq!['{', '}', ' ', '"', '\'']))
}

/// Whether `s` starts with the character `c`.
pub open spec fn begins(s: Seq<char>, c: char) -> bool {
    s.len() > 0 && s[0] == c
}

/// What a payload of `wm_resume_activity` or `am_resume_activity` says.
pub open spec fn resume_activity(payload: Seq<char>) -> Option<ResumeModel> {
    let component = component_in(component_token(tokens(payload)));
    let pkg = text::trimmed(text::before_char(component, '/'));
    if pkg.len() == 0 || begins(pkg, '-') || begins(pkg, '{') || begins(pkg, '}')
        || !text::has_ascii_letter(pkg) {
        None
    } else {
        Some(ResumeModel { pkg, component })
    }
}

/// The first word of `s` with a slash in it.
pub(crate) fn word_with_slash(s: &str) -> (r: Option<&str>)
    ensures
        ({
            let words = text::words(s@);
            let i = text::first_index(words, holds_char('/'));
            match r {
                Some(word) => i < words.len() && word@ == words[i],
                None => i == words.len(),
            }
        }),
{
    let ghost all = text::words(s@);
    let ghost mut k: int = 0;
    let mut rest = s;
    assert(all.skip(0) =~= all);
    loop
        invariant
            all == text::words(s@),
            0 <= k <= all.len(),
            text::words(rest@) == all.skip(k),
            forall|i: int| 0 <= i < k ==> !holds_char('/')(#[trigger] all[i]),
        decreases all.len() - k,
    {
        let ghost here = text::words(rest@);
        match text::next_word(rest) {
            None => {
                proof {
                    text::lemma_first_index_is(all, holds_char('/'), k);
                }
                return None;
            },
            Some((word, tail)) => {
                assert(here.len() >= 1);
                assert(here[0] == all[k]);
                assert(text::words(tail@) =~= here.drop_first());
                assert(here.drop_first() =~= all.skip(k + 1));
                if text::contains_char(word, '/') {
                    proof {
                        text::lemma_first_index_is(all, holds_char('/'), k);
                    }
                    return Some(word);
                }
                rest = tail;
            },
        }
        proof {
            k = k + 1;
        }
    }
}

fn clean_component(token: &str) -> (r: &str)
    ensures
        r@ == component_in(token@),
{
    let braces: [char; 2] = ['{', '}'];
    let quotes: [char; 4] = ['{', '}', '"', '\''];
    let padding: [char; 5] = ['{', '}', ' ', '"', '\''];
    assert(braces@ =~= seq!['{', '}']);
    assert(quotes@ =~= seq!['{', '}', '"', '\'']);
    assert(padding@ =~= seq!['{', '}', ' ', '"', '\'']);
    let bare = text::trim(text::trim_matches(text::trim(token), &braces));
    let named = match text::find_text(bare, "cmp=") {
        Some(i) => {
            proof {
                reveal_strlit("cmp=");
            }
            let behind = text::split_chars(text::split_chars(bare, i).1, 4).1;
            assert(behind@ =~= bare@.skip(i + 4));
            let rest = text::trim(behind);
            let ends = |c: char| -> (b: bool)
                ensures
                    b == (text::is_white_space(c) || c == '}' || c == ']'),
            {
                text::is_white_space(c) || c == '}' || c == ']'
            };
            match text::position(rest, ends, Ghost(ends_component())) {
                Some(end) => text::split_chars(rest, end).0,
                None => {
                    assert(rest@.take(rest@.len() as int) =~= rest@);
                    rest
                },
            }
        },
        None => {
            if text::contains_char(bare, ' ') {
                match word_with_slash(bare) {
                    Some(word) => text::trim_matches(word, &quotes),
                    None => bare,
                }
            } else {
                bare
            }
        },
    };
    text::trim_matches(named, &padding)
}

/// Parses the payload of `wm_resume_activity` and `am_resume_activity`:
/// `[<user>, <token>, <task>, <package>/<activity>]`.
///
/// The component is the first token with a slash in it, wherever it stands; it may be
/// wrapped in braces or in an intent. A package is refused that is empty, holds no letter,
/// or starts with a hyphen or a brace.
pub fn parse_resume_activity(payload: &str) -> (r: Option<ResumeActivityEvent<'_>>)
    ensures
        match r {
            Some(ev) => resume_activity(payload@) == Some(ev@),
            None => resume_activity(payload@) is None,
        },
{
    let (toks, count) = payload_tokens(payload);
    let ghost all = tokens(payload@);
    let mut raw = "";
    let mut i: usize = 0;
    proof {
        reveal_strlit("");
    }
    while i < count && raw.is_empty()
        invariant
            i <= count <= 8,
            count == all.len(),
            forall|j: int| 0 <= j < count ==> (#[trigger] toks@[j])@ == all[j],
            raw@.len() == 0 ==> forall|j: int| 0 <= j < i ==> !holds_char('/')(#[trigger] all[j]),
            raw@.len() > 0 ==> text::first_index(all, holds_char('/')) < count && raw@
                == all[text::first_index(all, holds_char('/'))],
        decreases count - i,
    {
        assert(toks@[i as int]@ == all[i as int]);
        if text::contains_char(toks[i], '/') {
            raw = toks[i];
            proof {
                text::lemma_first_index_is(all, holds_char('/'), i as int);
                assert(raw@.len() > 0);
            }
        }
        i = i + 1;
    }
    if raw.is_empty() {
        proof {
            text::lemma_first_index_is(all, holds_char('/'), count as int);
        }
        if count >= 4 {
            assert(toks@[3]@ == all[3]);
            raw = toks[3];
        }
    }
    assert(raw@ =~= component_token(all));
    let component = clean_component(raw);
    let pkg = text::trim(text::take_before(component, '/'));
    if pkg.is_empty() || text::starts_with_char(pkg, '-') || text::starts_with_char(pkg, '{')
        || text::starts_with_char(pkg, '}') || !text::any_ascii_letter(pkg) {
        return None;
    }
    Some(ResumeActivityEvent { pkg, component })
}

// ---------------------------------------------------------------------------
// Started processes
// ---------------------------------------------------------------------------
/// The `u32` that a token writes.
pub open spec fn number(token: Seq<char>) -> Option<nat> {
    text::unsigned_value(token, u32::MAX as nat)
}

/// The predicate that holds of the tokens that write a `u32` other than 0.
pub open spec fn positive() -> spec_fn(Seq<char>) -> bool {
    |token: Seq<char>| number(token) is Some && number(token)->0 > 0
}

/// Whether a token can name a process, where `letters` says whether a letter stands in it.
pub open spec fn names_process(token: Seq<char>, letters: bool) -> bool {
    &&& token.len() > 0
    &&& !begins(token, '{')
    &&& !begins(token, '-')
    &&& token.contains('.') || token.contains(':') || letters
}

/// The predicate that holds of the tokens that are no number and can name a process.
pub open spec fn process_token() -> spec_fn(Seq<char>) -> bool {
    |token: Seq<char>| number(token) is None && names_process(token, text::has_letter(token))
}

/// The package that a process belongs to: its name up to the first colon.
pub open spec fn base_package(proc_name: Seq<char>) -> Seq<char> {
    text::trimmed(text::before_char(proc_name, ':'))
}

/// The event of a process with this name, unless no package can be read from the name.
pub open spec fn started(
    proc_name: Seq<char>,
    spawn_type: Seq<char>,
    pid: nat,
    uid: nat,
) -> Option<StartModel> {
    let pkg = base_package(proc_name);
    if pkg.len() == 0 || begins(pkg, '-') {
        None
    } else {
        Some(StartModel { proc_name, pkg, spawn_type, pid: pid as u32, uid: uid as u32 })
    }
}

/// Index of the first positive number in `toks` at or behind `from`; the length where there
/// is none.
pub open spec fn positive_from(toks: Seq<Seq<char>>, from: int) -> int {
    from + text::first_index(toks.skip(from), positive())
}

/// What the tokens of `am_proc_start` say where they do not stand in the usual order: the
/// process is the first token that can name one, the process id is the first positive number
/// behind the first token, and the user id is the next positive number, or 0.
pub open spec fn shifted_proc_start(toks: Seq<Seq<char>>) -> Option<StartModel> {
    let name_at = text::first_index(toks, process_token());
    let pid_at = positive_from(toks, 1);
    if name_at >= toks.len() || pid_at >= toks.len() {
        None
    } else {
        let uid_at = positive_from(toks, pid_at + 1);
        let spawn_type = if name_at + 1 < toks.len() && !begins(toks[name_at + 1], '{') {
            toks[name_at + 1]
        } else {
            Seq::empty()
        };
        let uid = if uid_at < toks.len() {
            number(toks[uid_at])->0
        } else {
            0
        };
        started(toks[name_at], spawn_type, number(toks[pid_at])->0, uid)
    }
}

/// What a payload of `am_proc_start` says.
pub open spec fn proc_start(payload: Seq<char>) -> Option<StartModel> {
    let toks = tokens(payload);
    if toks.len() < 4 {
        None
    } else if number(toks[1]) is Some && number(toks[2]) is Some && begins(toks[3], '-') {
        None
    } else if number(toks[1]) is Some && number(toks[2]) is Some && toks[3].len() > 0 && !begins(
        toks[3],
        '{',
    ) {
        let spawn_type = if toks.len() > 4 {
            toks[4]
        } else {
            Seq::empty()
        };
        started(toks[3], spawn_type, number(toks[1])->0, number(toks[2])->0)
    } else {
        shifted_proc_start(toks)
    }
}

/// Whether a token can name a process, where `letters` says whether a letter stands in it.
pub fn can_name_process(token: &str, letters: bool) -> (yes: bool)
    ensures
        yes == names_process(token@, letters),
{
    !token.is_empty() && !text::starts_with_char(token, '{') && !text::starts_with_char(token, '-')
        && (text::contains_char(token, '.') || text::contains_char(token, ':') || letters)
}

/// The package that a process belongs to: its name up to the first colon.
pub fn package_of(proc_name: &str) -> (pkg: &str)
    ensures
        pkg@ == base_package(proc_name@),
{
    text::trim(text::take_before(proc_name, ':'))
}

fn start_event<'a>(proc_name: &'a str, spawn_type: &'a str, pid: u32, uid: u32) -> (r: Option<
    ProcStartEvent<'a>,
>)
    ensures
        match r {
            Some(ev) => started(proc_name@, spawn_type@, pid as nat, uid as nat) == Some(ev@),
            None => started(proc_name@, spawn_type@, pid as nat, uid as nat) is None,
        },
{
    let pkg = package_of(proc_name);
    if pkg.is_empty() || text::starts_with_char(pkg, '-') {
        None
    } else {
        Some(ProcStartEvent { proc_name, pkg, spawn_type, pid, uid })
    }
}

proof fn lemma_positive_from(toks: Seq<Seq<char>>, from: int, at: int)
    requires
        0 <= from <= at <= toks.len(),
        forall|j: int| from <= j < at ==> !positive()(#[trigger] toks[j]),
        at < toks.len() ==> positive()(toks[at]),
    ensures
        positive_from(toks, from) == at,
{
    let rest = toks.skip(from);
    assert forall|j: int| 0 <= j < at - from implies !positive()(#[trigger] rest[j]) by {
        assert(rest[j] == toks[from + j]);
    }
    text::lemma_first_index_is(rest, positive(), at - from);
}

fn parse_shifted_start<'a>(
    toks: &[&'a str; 8],
    count: usize,
    Ghost(all): Ghost<Seq<Seq<char>>>,
) -> (r: Option<ProcStartEvent<'a>>)
    requires
        4 <= count <= 8,
        count == all.len(),
        forall|j: int| 0 <= j < count ==> (#[trigger] toks@[j])@ == all[j],
    ensures
        match r {
            Some(ev) => shifted_proc_start(all) == Some(ev@),
            None => shifted_proc_start(all) is None,
        },
{
    let mut pid: u32 = 0;
    let mut uid: u32 = 0;
    let mut name_at: usize = count;
    let ghost mut pid_at: int = 0;
    let ghost mut uid_at: int = 0;
    let mut i: usize = 0;
    while i < count
        invariant
            i <= count <= 8,
            count == all.len(),
            forall|j: int| 0 <= j < count ==> (#[trigger] toks@[j])@ == all[j],
            name_at <= count,
            name_at == count ==> forall|j: int|
                0 <= j < i ==> !process_token()(#[trigger] all[j]),
            name_at < count ==> text::first_index(all, process_token()) == name_at,
            pid == 0 ==> uid == 0 && forall|j: int| 1 <= j < i ==> !positive()(#[trigger] all[j]),
            pid > 0 ==> {
                &&& 1 <= pid_at < i
                &&& positive_from(all, 1) == pid_at
                &&& number(all[pid_at]) == Some(pid as nat)
            },
            pid > 0 && uid == 0 ==> forall|j: int|
                pid_at < j < i ==> !positive()(#[trigger] all[j]),
            uid > 0 ==> {
                &&& pid_at < uid_at < i
                &&& positive_from(all, pid_at + 1) == uid_at
                &&& number(all[uid_at]) == Some(uid as nat)
            },
        decreases count - i,
    {
        let tok = toks[i];
        assert(toks@[i as int]@ == all[i as int]);
        match text::parse_u32(tok) {
            Some(val) => {
                if pid == 0 && i > 0 {
                    pid = val;
                    proof {
                        if val > 0 {
                            lemma_positive_from(all, 1, i as int);
                            pid_at = i as int;
                        }
                    }
                } else if pid > 0 && uid == 0 {
                    uid = val;
                    proof {
                        if val > 0 {
                            lemma_positive_from(all, pid_at + 1, i as int);
                            uid_at = i as int;
                        }
                    }
                }
            },
            None => {
                let letters = text::any_letter(tok);
                if name_at == count && can_name_process(tok, letters) {
                    name_at = i;
                    proof {
                        text::lemma_first_index_is(all, process_token(), i as int);
                    }
                }
            },
        }
        i = i + 1;
    }
    if name_at == count {
        proof {
            text::lemma_first_index_is(all, process_token(), count as int);
        }
        return None;
    }
    if pid == 0 {
        proof {
            lemma_positive_from(all, 1, count as int);
        }
        return None;
    }
    proof {
        if uid == 0 {
            lemma_positive_from(all, pid_at + 1, count as int);
        }
        assert(toks@[name_at as int]@ == all[name_at as int]);
        reveal_strlit("");
    }
    let mut spawn_type = "";
    assert(spawn_type@ =~= Seq::<char>::empty());
    if name_at + 1 < count {
        assert(toks@[name_at + 1]@ == all[name_at + 1]);
        if !text::starts_with_char(toks[name_at + 1], '{') {
            spawn_type = toks[name_at + 1];
        }
    }
    start_event(toks[name_at], spawn_type, pid, uid)
}

/// Parses the payload of `am_proc_start`:
/// `[<user>, <pid>, <uid>, <process>, <type>, {<component>}]`.
///
/// Where the process id, the user id and the process do not stand in these places, they are
/// looked for in the other tokens. A process is refused whose package is empty or starts
/// with a hyphen.
pub fn parse_proc_start(payload: &str) -> (r: Option<ProcStartEvent<'_>>)
    ensures
        match r {
            Some(ev) => proc_start(payload@) == Some(ev@),
            None => proc_start(payload@) is None,
        },
{
    let (toks, count) = payload_tokens(payload);
    let ghost all = tokens(payload@);
    if count < 4 {
        return None;
    }
    assert(toks@[1]@ == all[1] && toks@[2]@ == all[2] && toks@[3]@ == all[3]);
    if let (Some(pid), Some(uid)) = (text::parse_u32(toks[1]), text::parse_u32(toks[2])) {
        let proc_name = toks[3];
        if text::starts_with_char(proc_name, '-') {
            return None;
        }
        if !proc_name.is_empty() && !text::starts_with_char(proc_name, '{') {
            let mut spawn_type = "";
            proof {
                reveal_strlit("");
            }
            assert(spawn_type@ =~= Seq::<char>::empty());
            if count > 4 {
                assert(toks@[4]@ == all[4]);
                spawn_type = toks[4];
            }
            return start_event(proc_name, spawn_type, pid, uid);
        }
    }
    parse_shifted_start(&toks, count, Ghost(all))
}

// ---------------------------------------------------------------------------
// Processes that are gone
// ---------------------------------------------------------------------------
/// Whether `c` may stand in the name of a process.
#[verifier::allow_in_spec]
pub fn is_name_char(c: char) -> bool
    returns
        text::is_ascii_letter(c) || text::is_digit(c) || c == '.' || c == '_' || c == ':',
{
    text::is_ascii_letter(c) || text::is_digit(c) || c == '.' || c == '_' || c == ':'
}

/// Whether `s` is the name of a process: letters, digits, dots, underscores and colons, with
/// at least one letter among them, and white space at the ends at most.
pub open spec fn proc_name(s: Seq<char>) -> bool {
    let name = text::trimmed(s);
    &&& text::has_ascii_letter(name)
    &&& forall|i: int| 0 <= i < name.len() ==> is_name_char(#[trigger] name[i])
}

/// Whether a process id stands in `toks` at `i`, with the name of a process behind it.
pub open spec fn pid_before_name(toks: Seq<Seq<char>>, i: int) -> bool {
    0 <= i < toks.len() - 1 && positive()(toks[i]) && proc_name(toks[i + 1])
}

/// Index of the first token at or behind `from` that is a process id with a name behind it.
pub open spec fn dead_pid_from(toks: Seq<Seq<char>>, from: int) -> Option<int>
    decreases toks.len() - from,
{
    if from >= toks.len() - 1 {
        None
    } else if pid_before_name(toks, from) {
        Some(from)
    } else {
        dead_pid_from(toks, from + 1)
    }
}

/// What a payload of `am_proc_died` says.
pub open spec fn proc_died(payload: Seq<char>) -> Option<u32> {
    match dead_pid_from(tokens(payload), 0) {
        Some(i) => Some(number(tokens(payload)[i])->0 as u32),
        None => None,
    }
}

/// Whether `s` is the name of a process: letters, digits, dots, underscores and colons, with
/// at least one letter among them. Reasons such as `kill background` are none.
pub fn is_proc_name(s: &str) -> (yes: bool)
    ensures
        yes == proc_name(s@),
{
    let name = text::trim(s);
    for c in it: name.chars()
        invariant
            it.seq() == name@,
            name@ == text::trimmed(s@),
            forall|i: int| 0 <= i < it.index() ==> is_name_char(#[trigger] name@[i]),
    {
        assert(c == name@[it.index() as int]);
        if !is_name_char(c) {
            return false;
        }
    }
    text::any_ascii_letter(name)
}

/// Parses the payload of `am_proc_died`: `[<user>, <pid>, <process>, <oom_adj>, <reason>]` or
/// `[<pid>, <process>]`.
///
/// A number is taken for the process id only where the name of a process follows, so that an
/// `oom_adj` is never mistaken for one.
pub fn parse_proc_died(payload: &str) -> (r: Option<ProcDiedEvent>)
    ensures
        match r {
            Some(ev) => proc_died(payload@) == Some(ev.pid),
            None => proc_died(payload@) is None,
        },
{
    let (toks, count) = payload_tokens(payload);
    let ghost all = tokens(payload@);
    let mut i: usize = 0;
    while i < count - 1
        invariant
            i < count <= 8,
            all == tokens(payload@),
            count == all.len(),
            forall|j: int| 0 <= j < count ==> (#[trigger] toks@[j])@ == all[j],
            dead_pid_from(all, 0) == dead_pid_from(all, i as int),
        decreases count - i,
    {
        assert(toks@[i as int]@ == all[i as int] && toks@[i + 1]@ == all[i + 1]);
        if let Some(pid) = text::parse_u32(toks[i]) {
            if pid > 0 && is_proc_name(toks[i + 1]) {
                return Some(ProcDiedEvent { pid });
            }
        }
        i = i + 1;
    }
    None
}

// ---------------------------------------------------------------------------
// Lines
// ---------------------------------------------------------------------------
/// What a payload of `screen_toggled` says: `0` is off and `1` is on.
pub open spec fn screen_toggled(payload: Seq<char>) -> Option<bool> {
    let body = payload_body(payload);
    if body == "0"@ {
        Some(false)
    } else if body == "1"@ {
        Some(true)
    } else {
        None
    }
}

/// What an event with this tag and payload says.
pub open spec fn tagged_event(tag: Seq<char>, payload: Seq<char>) -> Option<EventModel> {
    if tag == "am_proc_start"@ {
        match proc_start(payload) {
            Some(ev) => Some(EventModel::ProcStart(ev)),
            None => None,
        }
    } else if tag == "am_proc_died"@ {
        match proc_died(payload) {
            Some(pid) => Some(EventModel::ProcDied(pid)),
            None => None,
        }
    } else if tag == "wm_resume_activity"@ || tag == "am_resume_activity"@ {
        match resume_activity(payload) {
            Some(ev) => Some(EventModel::ResumeActivity(ev)),
            None => None,
        }
    } else if tag == "screen_toggled"@ {
        match screen_toggled(payload) {
            Some(on) => Some(EventModel::ScreenToggled(on)),
            None => None,
        }
    } else if tag == "device_idle_light_step"@ && payload_body(payload).len() == 0 {
        Some(EventModel::DeviceIdleLightStep)
    } else {
        None
    }
}

/// Whether a line holds an event: it is neither blank nor one of the separators that start
/// with three hyphens.
pub open spec fn is_event_line(line: Seq<char>) -> bool {
    let s = text::trimmed(line);
    s.len() > 0 && !"---"@.is_prefix_of(s)
}

/// A line without the priority in front of its tag, such as `I/`.
pub open spec fn without_priority(s: Seq<char>) -> Seq<char> {
    if s.len() >= 2 && (s[0] as u32) < 0x80 && s[1] == '/' {
        s.skip(2)
    } else {
        s
    }
}

/// What a line in the format `<priority>/<tag>: <payload>` says.
pub open spec fn logcat_line(line: Seq<char>) -> Option<EventModel> {
    if is_event_line(line) {
        match text::split_at_char(without_priority(text::trimmed(line)), ':') {
            Some((tag, payload)) => tagged_event(text::trimmed(tag), payload),
            None => None,
        }
    } else {
        None
    }
}

/// The milliseconds that a stamp `<seconds>.<milliseconds>` writes. The result fits an `i64`.
pub open spec fn stamp_ms(stamp: Seq<char>) -> Option<nat> {
    match text::split_at_char(stamp, '.') {
        Some((secs, millis)) => if text::is_decimal(secs) && text::decimal_value(secs)
            <= 9_223_372_036_854_774 && text::is_decimal(millis) && millis.len() == 3 {
            Some(text::decimal_value(secs) * 1000 + text::decimal_value(millis))
        } else {
            None
        },
        None => None,
    }
}

/// What a line in the format `<seconds>.<milliseconds> <pid> <tid> <priority> <tag>: <payload>`
/// says, and when, in milliseconds since the epoch.
pub open spec fn epoch_line(line: Seq<char>) -> Option<(nat, EventModel)> {
    if !is_event_line(line) {
        None
    } else {
        match text::word_and_rest(text::trimmed(line), text::white()) {
            None => None,
            Some((stamp, rest)) => match (stamp_ms(stamp), text::split_at_char(rest, ':')) {
                (Some(ms), Some((head, payload))) => {
                    let words = text::words(head);
                    if words.len() == 0 {
                        None
                    } else {
                        match tagged_event(words.last(), payload) {
                            Some(ev) => Some((ms, ev)),
                            None => None,
                        }
                    }
                },
                _ => None,
            },
        }
    }
}

/// Parses the payload of `screen_toggled`: `0` is off and `1` is on, in brackets or not.
pub fn parse_screen_toggled(payload: &str) -> (r: Option<bool>)
    ensures
        r == screen_toggled(payload@),
{
    let body = strip_brackets(payload);
    if text::same(body, "0") {
        Some(false)
    } else if text::same(body, "1") {
        Some(true)
    } else {
        None
    }
}

/// Parses the payload of an event by its tag. An unknown tag gives nothing, and
/// `device_idle_light_step` only counts with an empty payload.
pub fn parse_tagged<'a>(tag: &str, payload: &'a str) -> (r: Option<LogcatEvent<'a>>)
    ensures
        match r {
            Some(ev) => tagged_event(tag@, payload@) == Some(ev@),
            None => tagged_event(tag@, payload@) is None,
        },
{
    if text::same(tag, "am_proc_start") {
        match parse_proc_start(payload) {
            Some(ev) => Some(LogcatEvent::ProcStart(ev)),
            None => None,
        }
    } else if text::same(tag, "am_proc_died") {
        match parse_proc_died(payload) {
            Some(ev) => Some(LogcatEvent::ProcDied(ev)),
            None => None,
        }
    } else if text::same(tag, "wm_resume_activity") || text::same(tag, "am_resume_activity") {
        match parse_resume_activity(payload) {
            Some(ev) => Some(LogcatEvent::ResumeActivity(ev)),
            None => None,
        }
    } else if text::same(tag, "screen_toggled") {
        match parse_screen_toggled(payload) {
            Some(on) => Some(LogcatEvent::ScreenToggled(on)),
            None => None,
        }
    } else if text::same(tag, "device_idle_light_step") && strip_brackets(payload).is_empty() {
        Some(LogcatEvent::DeviceIdleLightStep)
    } else {
        None
    }
}

/// Parses a line in the format `<priority>/<tag>: <payload>`; the priority may be missing.
pub fn parse_logcat_line(line: &str) -> (r: Option<LogcatEvent<'_>>)
    ensures
        match r {
            Some(ev) => logcat_line(line@) == Some(ev@),
            None => logcat_line(line@) is None,
        },
{
    let s = text::trim(line);
    if s.is_empty() || text::starts_with(s, "---") {
        return None;
    }
    let rest = strip_priority(s);
    match text::split_once(rest, ':') {
        Some((tag, payload)) => parse_tagged(text::trim(tag), payload),
        None => None,
    }
}

fn strip_priority(s: &str) -> (r: &str)
    ensures
        r@ == without_priority(s@),
{
    let mut chars = s.chars();
    match (chars.next(), chars.next()) {
        (Some(first), Some(second)) => {
            let v: u32 = first as u32;
            if v < 0x80 && second == '/' {
                text::split_chars(s, 2).1
            } else {
                s
            }
        },
        _ => s,
    }
}

/// Parses a stamp `<seconds>.<milliseconds>` into milliseconds.
pub fn parse_stamp_ms(stamp: &str) -> (r: Option<u64>)
    ensures
        match r {
            Some(ms) => stamp_ms(stamp@) == Some(ms as nat) && ms <= i64::MAX,
            None => stamp_ms(stamp@) is None,
        },
{
    match text::split_once(stamp, '.') {
        Some((secs, millis)) => {
            if text::char_count(millis) != 3 {
                return None;
            }
            match (
                text::parse_decimal(secs, 9_223_372_036_854_774),
                text::parse_decimal(millis, u64::MAX),
            ) {
                (Some(s), Some(ms)) => {
                    proof {
                        lemma_three_digits(millis@);
                    }
                    Some(s * 1000 + ms)
                },
                (_, None) => {
                    proof {
                        if text::is_decimal(millis@) {
                            lemma_three_digits(millis@);
                        }
                    }
                    None
                },
                _ => None,
            }
        },
        None => None,
    }
}

proof fn lemma_three_digits(s: Seq<char>)
    requires
        text::is_decimal(s),
        s.len() == 3,
    ensures
        text::decimal_value(s) < 1000,
{
    reveal_with_fuel(text::decimal_value, 4);
    assert(text::is_digit(s[0]) && text::is_digit(s[1]) && text::is_digit(s[2]));
}

fn last_word(s: &str) -> (r: Option<&str>)
    ensures
        match r {
            Some(word) => text::words(s@).len() > 0 && word@ == text::words(s@).last(),
            None => text::words(s@).len() == 0,
        },
{
    let ghost all = text::words(s@);
    let ghost mut k: int = 0;
    let mut rest = s;
    let mut last: Option<&str> = None;
    assert(all.skip(0) =~= all);
    loop
        invariant
            0 <= k <= all.len(),
            all == text::words(s@),
            text::words(rest@) == all.skip(k),
            match last {
                Some(word) => k > 0 && word@ == all[k - 1],
                None => k == 0,
            },
        decreases all.len() - k,
    {
        let ghost here = text::words(rest@);
        match text::next_word(rest) {
            None => {
                return last;
            },
            Some((word, tail)) => {
                assert(here.len() >= 1);
                assert(here[0] == all[k]);
                assert(text::words(tail@) =~= here.drop_first());
                assert(here.drop_first() =~= all.skip(k + 1));
                last = Some(word);
                rest = tail;
            },
        }
        proof {
            k = k + 1;
        }
    }
}

/// Parses a line in the format
/// `<seconds>.<milliseconds> <pid> <tid> <priority> <tag>: <payload>` into the time of the
/// event, in milliseconds since the epoch, and the event.
pub fn parse_epoch_line(line: &str) -> (r: Option<(u64, LogcatEvent<'_>)>)
    ensures
        match r {
            Some((ms, ev)) => epoch_line(line@) == Some((ms as nat, ev@)) && ms <= i64::MAX,
            None => epoch_line(line@) is None,
        },
{
    let s = text::trim(line);
    if s.is_empty() || text::starts_with(s, "---") {
        return None;
    }
    let (stamp, rest) = match text::next_word(s) {
        Some(parts) => parts,
        None => {
            return None;
        },
    };
    match (parse_stamp_ms(stamp), text::split_once(rest, ':')) {
        (Some(ms), Some((head, payload))) => match last_word(head) {
            Some(tag) => match parse_tagged(tag, payload) {
                Some(ev) => Some((ms, ev)),
                None => None,
            },
            None => None,
        },
        _ => None,
    }
}

} // verus!
