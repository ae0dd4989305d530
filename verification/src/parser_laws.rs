//! What the lines of the event log tell, on lines that are put together from what they are to tell.
use vstd::prelude::*;

use crate::parser;
use crate::parser::{EventModel, ResumeModel, StartModel};
use crate::render;
use crate::text;
use crate::text_laws;

verus! {

// ---------------------------------------------------------------------------
// Packages
// ---------------------------------------------------------------------------
/// The package of a process holds no colon. A process whose name is that of a package, with a colon and
/// anything behind it or not, belongs to that package.
pub proof fn law_processes_belong_to_their_package(name: Seq<char>, pkg: Seq<char>, rest: Seq<char>)
    requires
        !pkg.contains(':'),
        text_laws::is_bare(pkg),
    ensures
        !parser::base_package(name).contains(':'),
        parser::base_package(pkg + seq![':'] + rest) == pkg,
        parser::base_package(pkg) == pkg,
{
    text_laws::law_nothing_before_the_first_mark(name, ':');
    let head = text::before_char(name, ':');
    text_laws::law_trimmed_is_part_of_the_text(head);
    let t = text::trimmed(head);
    if t.contains(':') {
        let k = choose|k: int| 0 <= k < t.len() && t[k] == ':';
        let (a, b) = choose|a: int, b: int|
            #![trigger head.subrange(a, b)]
            0 <= a <= b <= head.len() && t == head.subrange(a, b) && (forall|i: int|
                0 <= i < a || b <= i < head.len() ==> text::is_white_space(#[trigger] head[i]));
        assert(head[a + k] == ':');
    }
    text_laws::law_split_at_the_first_mark(pkg, ':', rest);
    text_laws::law_white_space_is_trimmed(Seq::empty(), pkg, Seq::empty());
}

/// Every process that is read to have started belongs to a package without a colon, which is not empty and does
/// not start with a hyphen.
pub proof fn law_started_processes_have_a_package(payload: Seq<char>)
    ensures
        parser::proc_start(payload) matches Some(ev) ==> {
            &&& !ev.pkg.contains(':')
            &&& ev.pkg.len() > 0
            &&& ev.pkg[0] != '-'
            &&& parser::tokens(payload).contains(ev.proc_name)
        },
{
    let toks = parser::tokens(payload);
    if let Some(ev) = parser::proc_start(payload) {
        let none = Seq::<char>::empty();
        law_processes_belong_to_their_package(ev.proc_name, none, none);
        text::lemma_first_index(toks, parser::process_token());
        let at = text::first_index(toks, parser::process_token());
        if ev.proc_name == toks[3] {
            assert(toks.contains(toks[3]));
        } else {
            assert(ev.proc_name == toks[at]);
            assert(toks.contains(toks[at]));
        }
    }
}

// ---------------------------------------------------------------------------
// Fields
// ---------------------------------------------------------------------------
/// Whether neither a comma nor an opening brace stands in `s`.
pub open spec fn is_plain(s: Seq<char>) -> bool {
    forall|i: int| 0 <= i < s.len() ==> #[trigger] s[i] != ',' && s[i] != '{'
}

/// How often `c` stands in `s`.
pub open spec fn occurrences(s: Seq<char>, c: char) -> nat
    decreases s.len(),
{
    if s.len() == 0 {
        0
    } else {
        occurrences(s.drop_last(), c) + if s.last() == c {
            1nat
        } else {
            0
        }
    }
}

/// Whether `s` stands in braces: it starts with one that is closed at its end and not before, whatever braces
/// and commas stand between them.
pub open spec fn is_framed(s: Seq<char>) -> bool {
    &&& s.len() >= 2 && s[0] == '{'
    &&& forall|k: int|
        0 < k < s.len() ==> occurrences(#[trigger] s.take(k), '{') > occurrences(s.take(k), '}')
    &&& occurrences(s, '{') == occurrences(s, '}')
}

/// Whether `s` can be a field of a payload: neither a comma nor an opening brace stands in it, or it stands
/// in braces.
pub open spec fn is_field(s: Seq<char>) -> bool {
    is_plain(s) || is_framed(s)
}

proof fn lemma_plain_is_whole(s: Seq<char>)
    requires
        is_plain(s),
    ensures
        parser::whole(s, 0),
    decreases s.len(),
{
    if s.len() > 0 {
        assert(s[0] != ',' && s[0] != '{');
        let rest = s.drop_first();
        assert forall|i: int| 0 <= i < rest.len() implies #[trigger] rest[i] != ',' && rest[i] != '{' by {
            assert(rest[i] == s[i + 1]);
        }
        lemma_plain_is_whole(rest);
    }
}

spec fn open_braces(s: Seq<char>, k: int) -> int {
    occurrences(s.take(k), '{') - occurrences(s.take(k), '}')
}

proof fn lemma_framed_is_whole(s: Seq<char>, k: int)
    requires
        is_framed(s),
        0 <= k <= s.len(),
    ensures
        open_braces(s, k) >= 0,
        parser::whole(s.skip(k), open_braces(s, k) as nat),
    decreases s.len() - k,
{
    assert(s.take(s.len() as int) =~= s);
    if k == s.len() {
        assert(s.skip(k) =~= Seq::<char>::empty());
    } else {
        lemma_framed_is_whole(s, k + 1);
        assert(s.take(k + 1).drop_last() =~= s.take(k));
        assert(s.take(k + 1).last() == s[k]);
        assert(s.skip(k)[0] == s[k]);
        assert(s.skip(k).drop_first() =~= s.skip(k + 1));
        if k == 0 {
            assert(s.take(0) =~= Seq::<char>::empty());
            assert(open_braces(s, 0) == 0);
        } else {
            assert(occurrences(s.take(k), '{') > occurrences(s.take(k), '}'));
        }
        assert(parser::depth_after(open_braces(s, k) as nat, s[k]) == open_braces(s, k + 1));
    }
}

proof fn lemma_field_is_whole(s: Seq<char>)
    requires
        is_field(s),
    ensures
        parser::whole(s, 0),
{
    if is_plain(s) {
        lemma_plain_is_whole(s);
    } else {
        lemma_framed_is_whole(s, 0);
        assert(s.skip(0) =~= s);
        assert(s.take(0) =~= Seq::<char>::empty());
    }
}

proof fn lemma_ends_of_list(parts: Seq<Seq<char>>)
    requires
        parts.len() > 0,
        parts[0].len() > 0,
        parts.last().len() > 0,
    ensures
        ({
            let s = parser::with_commas(parts);
            s.len() > 0 && s[0] == parts[0][0] && s.last() == parts.last().last()
        }),
    decreases parts.len(),
{
    if parts.len() > 1 {
        let rest = parts.drop_first();
        lemma_last_of_list(rest);
        let s = parser::with_commas(parts);
        assert(s =~= parts[0] + seq![','] + parser::with_commas(rest));
    }
}

proof fn lemma_last_of_list(parts: Seq<Seq<char>>)
    requires
        parts.len() > 0,
        parts.last().len() > 0,
    ensures
        parser::with_commas(parts).len() > 0,
        parser::with_commas(parts).last() == parts.last().last(),
    decreases parts.len(),
{
    if parts.len() > 1 {
        lemma_last_of_list(parts.drop_first());
    }
}

/// Whether the parts can be the fields of a payload in square brackets: its brackets are not mistaken for
/// theirs, nor theirs for its.
pub open spec fn are_fields(parts: Seq<Seq<char>>) -> bool {
    let solid = |c: char| !text::is_white_space(c) && c != '[' && c != ']';
    &&& parts.len() > 0
    &&& forall|i: int| 0 <= i < parts.len() ==> is_field(#[trigger] parts[i])
    &&& parts[0].len() > 0 && solid(parts[0][0])
    &&& parts.last().len() > 0 && solid(parts.last().last())
}

/// A payload: the fields in square brackets, with white space around them at most.
pub open spec fn payload_of(
    left: Seq<char>,
    parts: Seq<Seq<char>>,
    right: Seq<char>,
) -> Seq<char> {
    left + (seq!['['] + parser::with_commas(parts) + seq![']']) + right
}

/// Whether every character of `s` is white space.
pub open spec fn blank(s: Seq<char>) -> bool {
    forall|i: int| 0 <= i < s.len() ==> text::is_white_space(#[trigger] s[i])
}

/// The tokens of a payload are its fields, without the white space around them; those behind the eighth do not
/// count.
pub proof fn law_tokens_are_the_fields(left: Seq<char>, parts: Seq<Seq<char>>, right: Seq<char>)
    requires
        blank(left) && blank(right),
        are_fields(parts),
    ensures
        ({
            let toks = parser::tokens(payload_of(left, parts, right));
            &&& toks.len() == if parts.len() <= 8 {
                parts.len()
            } else {
                8
            }
            &&& forall|i: int|
                0 <= i < toks.len() ==> #[trigger] toks[i] == text::trimmed(parts[i])
        }),
{
    let body = parser::with_commas(parts);
    let payload = payload_of(left, parts, right);
    let framed = seq!['['] + body + seq![']'];
    let p = text::one_of(seq!['[', ']']);
    lemma_ends_of_list(parts);
    assert(framed[0] == '[' && framed.last() == ']');
    text_laws::law_white_space_is_trimmed(left, framed, right);
    assert(seq!['[', ']'].contains('[')) by {
        assert(seq!['[', ']'][0] == '[');
    }
    assert(seq!['[', ']'].contains(']')) by {
        assert(seq!['[', ']'][1] == ']');
    }
    assert(!p(body[0]) && !p(body.last()));
    text_laws::law_trimming_takes_the_padding(seq!['['], body, seq![']'], p);
    text_laws::law_white_space_is_trimmed(Seq::empty(), body, Seq::empty());
    assert(parser::payload_body(payload) == body);
    assert forall|i: int| 0 <= i < parts.len() implies parser::whole(#[trigger] parts[i], 0) by {
        lemma_field_is_whole(parts[i]);
    }
    parser::law_fields_are_the_parts(parts);
}

proof fn lemma_digits(n: nat)
    ensures
        text_laws::is_bare(render::decimal(n)),
        render::decimal(n).len() > 0,
        !text::has_ascii_letter(render::decimal(n)),
        is_plain(render::decimal(n)),
{
    render::law_decimal_reads_back(n);
    let s = render::decimal(n);
    assert forall|i: int| 0 <= i < s.len() implies '0' <= #[trigger] s[i] <= '9' by {
        assert(text::is_digit(s[i]));
    }
}

// ---------------------------------------------------------------------------
// Started processes
// ---------------------------------------------------------------------------
/// The payload of a started process in the usual order, `[user, pid, uid, process, type, ...]`, tells that
/// process with its ids, the package before its first colon, and its type, or an empty one where there is
/// none.
pub proof fn law_payloads_tell_started_processes(
    left: Seq<char>,
    parts: Seq<Seq<char>>,
    right: Seq<char>,
    pid: u32,
    uid: u32,
    pkg: Seq<char>,
    suffix: Option<Seq<char>>,
)
    requires
        blank(left) && blank(right),
        are_fields(parts),
        parts.len() >= 4,
        text::trimmed(parts[1]) == render::decimal(pid as nat),
        text::trimmed(parts[2]) == render::decimal(uid as nat),
        text::trimmed(parts[3]) == match suffix {
            Some(rest) => pkg + seq![':'] + rest,
            None => pkg,
        },
        pkg.len() > 0 && text_laws::is_bare(pkg) && !pkg.contains(':'),
        pkg[0] != '-' && pkg[0] != '{',
    ensures
        parser::proc_start(payload_of(left, parts, right)) == Some(
            StartModel {
                proc_name: text::trimmed(parts[3]),
                pkg,
                spawn_type: if parts.len() > 4 {
                    text::trimmed(parts[4])
                } else {
                    Seq::empty()
                },
                pid,
                uid,
            },
        ),
{
    let toks = parser::tokens(payload_of(left, parts, right));
    law_tokens_are_the_fields(left, parts, right);
    render::law_decimal_reads_back(pid as nat);
    render::law_decimal_reads_back(uid as nat);
    assert(parser::number(toks[1]) == Some(pid as nat));
    assert(parser::number(toks[2]) == Some(uid as nat));
    let rest = match suffix {
        Some(rest) => rest,
        None => Seq::empty(),
    };
    law_processes_belong_to_their_package(pkg, pkg, rest);
    assert(toks[3][0] == pkg[0]);
}

/// Where the process id and the user id do not stand in their places, the process is the first token that can
/// name one, the process id the first positive number behind the first token, and the user id the next
/// positive number, or 0 where there is none.
#[verifier::rlimit(50)]
pub proof fn law_payloads_in_other_orders(
    payload: Seq<char>,
    name_at: int,
    pid_at: int,
    uid_at: int,
    pid: u32,
    uid: u32,
    pkg: Seq<char>,
    suffix: Option<Seq<char>>,
)
    requires
        ({
            let toks = parser::tokens(payload);
            let no_id = |t: Seq<char>|
                text::unsigned_value(t, u32::MAX as nat) is None || text::unsigned_value(
                    t,
                    u32::MAX as nat,
                ) == Some(0nat);
            &&& toks.len() >= 4
            &&& text::unsigned_value(toks[1], u32::MAX as nat) is None || text::unsigned_value(
                toks[2],
                u32::MAX as nat,
            ) is None || toks[3].len() == 0 || toks[3][0] == '{'
            &&& 0 <= name_at < toks.len()
            &&& 1 <= pid_at < uid_at <= toks.len()
            &&& pid_at < toks.len()
            &&& pid > 0
            &&& toks[pid_at] == render::decimal(pid as nat)
            &&& uid_at < toks.len() ==> uid > 0 && toks[uid_at] == render::decimal(uid as nat)
            &&& uid_at == toks.len() ==> uid == 0
            &&& forall|j: int| 1 <= j < pid_at ==> no_id(#[trigger] toks[j])
            &&& forall|j: int| pid_at < j < uid_at ==> no_id(#[trigger] toks[j])
            &&& forall|j: int|
                0 <= j < name_at ==> text::unsigned_value(#[trigger] toks[j], u32::MAX as nat) is Some
                    || toks[j].len() == 0 || toks[j][0] == '{' || toks[j][0] == '-'
            &&& toks[name_at] == match suffix {
                Some(rest) => pkg + seq![':'] + rest,
                None => pkg,
            }
            &&& text::has_ascii_letter(pkg) && !pkg.contains(':') && text_laws::is_bare(pkg)
            &&& pkg[0] != '-' && pkg[0] != '{'
        }),
    ensures
        ({
            let toks = parser::tokens(payload);
            parser::proc_start(payload) == Some(
                StartModel {
                    proc_name: toks[name_at],
                    pkg,
                    spawn_type: if name_at + 1 < toks.len() && !(toks[name_at + 1].len() > 0
                        && toks[name_at + 1][0] == '{') {
                        toks[name_at + 1]
                    } else {
                        Seq::empty()
                    },
                    pid,
                    uid,
                },
            )
        }),
{
    let toks = parser::tokens(payload);
    let name = toks[name_at];
    render::law_decimal_reads_back(pid as nat);
    render::law_decimal_reads_back(uid as nat);
    let rest = match suffix {
        Some(rest) => rest,
        None => Seq::empty(),
    };
    law_processes_belong_to_their_package(pkg, pkg, rest);
    let at = choose|i: int| 0 <= i < pkg.len() && text::is_ascii_letter(#[trigger] pkg[i]);
    assert(name[at] == pkg[at]);
    assert(text::has_letter(name)) by {
        text_laws::law_letters_and_digits(name, 'a', at);
    }
    assert(name[0] == pkg[0]);
    assert(text::unsigned_value(name, u32::MAX as nat) is None) by {
        text_laws::law_what_is_no_number(name, u32::MAX as nat, at);
    }
    assert forall|j: int| 0 <= j < name_at implies !parser::process_token()(#[trigger] toks[j]) by {}
    text::lemma_first_index_is(toks, parser::process_token(), name_at);
    lemma_first_id(toks, 1, pid_at);
    lemma_first_id(toks, pid_at + 1, uid_at);
    assert(parser::positive_from(toks, pid_at + 1) == uid_at);
}

proof fn lemma_first_id(toks: Seq<Seq<char>>, from: int, at: int)
    requires
        0 <= from <= at <= toks.len(),
        forall|j: int|
            from <= j < at ==> text::unsigned_value(#[trigger] toks[j], u32::MAX as nat) is None
                || text::unsigned_value(toks[j], u32::MAX as nat) == Some(0nat),
        at < toks.len() ==> text::unsigned_value(toks[at], u32::MAX as nat) is Some
            && text::unsigned_value(toks[at], u32::MAX as nat)->0 > 0,
    ensures
        parser::positive_from(toks, from) == at,
{
    let rest = toks.skip(from);
    assert forall|j: int| 0 <= j < at - from implies !parser::positive()(#[trigger] rest[j]) by {
        assert(rest[j] == toks[from + j]);
    }
    if at < toks.len() {
        assert(rest[at - from] == toks[at]);
    }
    text::lemma_first_index_is(rest, parser::positive(), at - from);
}

// ---------------------------------------------------------------------------
// Processes that are gone
// ---------------------------------------------------------------------------
/// Whether `s` is the name of a process: a letter stands in it, and nothing but letters, digits, dots,
/// underscores and colons.
pub open spec fn is_process_name(s: Seq<char>) -> bool {
    &&& exists|i: int| 0 <= i < s.len() && text::is_ascii_letter(#[trigger] s[i])
    &&& forall|i: int|
        0 <= i < s.len() ==> text::is_ascii_letter(#[trigger] s[i]) || '0' <= s[i] <= '9' || s[i]
            == '.' || s[i] == '_' || s[i] == ':'
}

proof fn lemma_process_name(s: Seq<char>)
    requires
        is_process_name(s),
    ensures
        parser::proc_name(s),
        text::trimmed(s) == s,
{
    assert(!text::is_white_space(s[0]) && !text::is_white_space(s[s.len() - 1]));
    text_laws::law_white_space_is_trimmed(Seq::empty(), s, Seq::empty());
}

/// The payload of a process that is gone, `[user, pid, process, ...]` or `[pid, process, ...]`, tells its id.
pub proof fn law_payloads_tell_dead_processes(
    left: Seq<char>,
    parts: Seq<Seq<char>>,
    right: Seq<char>,
    pid: u32,
    name: Seq<char>,
    with_user: bool,
)
    requires
        blank(left) && blank(right),
        are_fields(parts),
        pid > 0,
        is_process_name(name),
        with_user ==> parts.len() >= 3 && text::trimmed(parts[1]) == render::decimal(pid as nat)
            && text::trimmed(parts[2]) == name,
        !with_user ==> parts.len() >= 2 && text::trimmed(parts[0]) == render::decimal(pid as nat)
            && text::trimmed(parts[1]) == name,
    ensures
        parser::proc_died(payload_of(left, parts, right)) == Some(pid),
{
    let toks = parser::tokens(payload_of(left, parts, right));
    law_tokens_are_the_fields(left, parts, right);
    render::law_decimal_reads_back(pid as nat);
    lemma_digits(pid as nat);
    lemma_process_name(name);
    let d = render::decimal(pid as nat);
    text_laws::law_white_space_is_trimmed(Seq::empty(), d, Seq::empty());
    assert(!parser::proc_name(d));
    reveal_with_fuel(parser::dead_pid_from, 3);
    if with_user {
        assert(toks[1] == d && toks[2] == name);
        assert(!parser::pid_before_name(toks, 0));
        assert(parser::pid_before_name(toks, 1));
    } else {
        assert(toks[0] == d && toks[1] == name);
        assert(parser::pid_before_name(toks, 0));
    }
}

/// The id that is read of a process that is gone stands in the payload, right before the name of a process,
/// and is not 0. A score or a reason behind the name is never taken for it.
pub proof fn law_dead_ids_stand_before_a_name(payload: Seq<char>)
    ensures
        parser::proc_died(payload) matches Some(pid) ==> pid > 0 && exists|i: int|
            #![trigger parser::tokens(payload)[i]]
            0 <= i < parser::tokens(payload).len() - 1 && text::unsigned_value(
                parser::tokens(payload)[i],
                u32::MAX as nat,
            ) == Some(pid as nat) && is_process_name(text::trimmed(parser::tokens(payload)[i + 1])),
{
    let toks = parser::tokens(payload);
    if let Some(pid) = parser::proc_died(payload) {
        lemma_dead_place(toks, 0);
        let i = parser::dead_pid_from(toks, 0)->0;
        let name = text::trimmed(toks[i + 1]);
        assert forall|k: int| 0 <= k < name.len() implies text::is_ascii_letter(#[trigger] name[k])
            || '0' <= name[k] <= '9' || name[k] == '.' || name[k] == '_' || name[k] == ':' by {
            assert(parser::is_name_char(name[k]));
        }
        assert(text::unsigned_value(parser::tokens(payload)[i], u32::MAX as nat) == Some(pid as nat));
    }
}

proof fn lemma_dead_place(toks: Seq<Seq<char>>, from: int)
    requires
        from >= 0,
    ensures
        parser::dead_pid_from(toks, from) matches Some(i) ==> from <= i && parser::pid_before_name(
            toks,
            i,
        ) && forall|j: int| from <= j < i ==> !#[trigger] parser::pid_before_name(toks, j),
    decreases toks.len() - from,
{
    if from < toks.len() - 1 && !parser::pid_before_name(toks, from) {
        lemma_dead_place(toks, from + 1);
    }
}

// ---------------------------------------------------------------------------
// Resumed activities
// ---------------------------------------------------------------------------
/// Whether `s` is a component: a package and an activity with a slash between them. No white space stands in
/// it, no brace, closing bracket or quote and no equals sign, and the package has a letter and does not start
/// with a hyphen.
pub open spec fn is_component(s: Seq<char>, pkg: Seq<char>) -> bool {
    &&& forall|i: int|
        0 <= i < s.len() ==> !text::is_white_space(#[trigger] s[i]) && s[i] != '{' && s[i] != '}'
            && s[i] != ']' && s[i] != '"' && s[i] != '\'' && s[i] != '='
    &&& (pkg + seq!['/']).is_prefix_of(s)
    &&& !pkg.contains('/')
    &&& text::has_ascii_letter(pkg)
    &&& pkg[0] != '-'
}

spec fn brace_set() -> Seq<char> {
    seq!['{', '}']
}

spec fn padding_set() -> Seq<char> {
    seq!['{', '}', ' ', '"', '\'']
}

proof fn lemma_component_kept(s: Seq<char>, pkg: Seq<char>)
    requires
        is_component(s, pkg),
    ensures
        s.len() > 0,
        text::trimmed(s) == s,
        text::trim_by(s, text::one_of(brace_set())) == s,
        text::trim_by(s, text::one_of(padding_set())) == s,
        !s.contains(' '),
        s.contains('/'),
        text::first_occurrence(s, "cmp="@) is None,
        text::trimmed(text::before_char(s, '/')) == pkg,
{
    let none = Seq::<char>::empty();
    let n = pkg.len() as int;
    assert(s[n] == '/') by {
        assert((pkg + seq!['/'])[n] == '/');
    }
    assert(s.subrange(0, n + 1) =~= pkg + seq!['/']);
    assert(!text::is_white_space(s[0]) && !text::is_white_space(s[s.len() - 1]));
    assert(!padding_set().contains(s[0])) by {
        assert(s[0] != '{' && s[0] != '}' && s[0] != '"' && s[0] != '\'' && s[0] != ' ');
    }
    assert(!padding_set().contains(s[s.len() - 1])) by {
        let c = s[s.len() - 1];
        assert(c != '{' && c != '}' && c != '"' && c != '\'' && c != ' ');
    }
    assert(!brace_set().contains(s[0]) && !brace_set().contains(s[s.len() - 1]));
    text_laws::law_white_space_is_trimmed(none, s, none);
    text_laws::law_trimming_takes_the_padding(none, s, none, text::one_of(brace_set()));
    text_laws::law_trimming_takes_the_padding(none, s, none, text::one_of(padding_set()));
    assert(none + s + none =~= s);
    text::lemma_first_occurrence(s, "cmp="@);
    reveal_strlit("cmp=");
    if let Some(i) = text::first_occurrence(s, "cmp="@) {
        assert(s.subrange(i, i + 4)[3] == '=');
        assert(s[i + 3] == '=');
    }
    assert(s =~= pkg + seq!['/'] + s.skip(n + 1));
    text_laws::law_split_at_the_first_mark(pkg, '/', s.skip(n + 1));
    assert(pkg.len() > 0);
    assert(pkg[0] == s[0]);
    assert(pkg.last() == s[n - 1]);
    text_laws::law_white_space_is_trimmed(none, pkg, none);
}

/// A token that is a component, as it is or in braces, names that component.
pub proof fn law_tokens_name_components(s: Seq<char>, pkg: Seq<char>)
    requires
        is_component(s, pkg),
    ensures
        parser::component_in(s) == s,
        parser::component_in(seq!['{'] + s + seq!['}']) == s,
{
    lemma_component_kept(s, pkg);
    let framed = seq!['{'] + s + seq!['}'];
    let none = Seq::<char>::empty();
    assert(framed[0] == '{' && framed.last() == '}');
    text_laws::law_white_space_is_trimmed(none, framed, none);
    assert(brace_set()[0] == '{' && brace_set()[1] == '}');
    assert(brace_set().contains('{') && brace_set().contains('}'));
    assert(!brace_set().contains(s[0]) && !brace_set().contains(s[s.len() - 1])) by {
        assert(s[0] != '{' && s[0] != '}' && s[s.len() - 1] != '{' && s[s.len() - 1] != '}');
    }
    text_laws::law_trimming_takes_the_padding(
        seq!['{'],
        s,
        seq!['}'],
        text::one_of(brace_set()),
    );
}

/// A token that is an intent, such as `{act=... cmp=package/activity flg=...}`, names the component behind
/// `cmp=`, up to the next white space.
#[verifier::rlimit(50)]
pub proof fn law_intents_name_components(
    before: Seq<char>,
    s: Seq<char>,
    blank: char,
    behind: Seq<char>,
    pkg: Seq<char>,
)
    requires
        is_component(s, pkg),
        text::is_white_space(blank),
        before.len() > 0 ==> !text::is_white_space(before[0]) && before[0] != '{' && before[0] != '}',
        behind.len() > 0 && !text::is_white_space(behind.last()) && behind.last() != '{'
            && behind.last() != '}',
        forall|i: int|
            0 <= i < before.len() ==> !#[trigger] text::occurs_at(
                before + "cmp="@ + s + seq![blank] + behind,
                "cmp="@,
                i,
            ),
    ensures
        parser::component_in(
            seq!['{'] + (before + "cmp="@ + s + seq![blank] + behind) + seq!['}'],
        ) == s,
{
    lemma_component_kept(s, pkg);
    reveal_strlit("cmp=");
    let mark = "cmp="@;
    let bare = before + mark + s + seq![blank] + behind;
    assert(bare[0] == if before.len() > 0 {
        before[0]
    } else {
        mark[0]
    });
    assert(bare.last() == behind.last());
    let n = before.len() as int;
    let rest = bare.skip(n + 4);
    assert(rest =~= s + seq![blank] + behind);
    assert(bare.subrange(n, n + 4) =~= mark);
    text_laws::law_the_first_place_counts(bare, mark, n);
    lemma_component_ends(s, blank, behind, pkg);
    lemma_intent(bare, n, s, pkg);
}

proof fn lemma_intent(bare: Seq<char>, n: int, s: Seq<char>, pkg: Seq<char>)
    requires
        is_component(s, pkg),
        bare.len() > 0,
        !text::is_white_space(bare[0]) && bare[0] != '{' && bare[0] != '}',
        !text::is_white_space(bare.last()) && bare.last() != '{' && bare.last() != '}',
        text::first_occurrence(bare, "cmp="@) == Some(n),
        ({
            let rest = text::trimmed(bare.skip(n + 4));
            rest.take(text::first_index(rest, parser::ends_component())) == s
        }),
    ensures
        parser::component_in(seq!['{'] + bare + seq!['}']) == s,
{
    lemma_component_kept(s, pkg);
    lemma_braces_are_taken(bare);
}

proof fn lemma_braces_are_taken(bare: Seq<char>)
    requires
        bare.len() > 0,
        !text::is_white_space(bare[0]) && bare[0] != '{' && bare[0] != '}',
        !text::is_white_space(bare.last()) && bare.last() != '{' && bare.last() != '}',
    ensures
        text::trimmed(
            text::trim_by(
                text::trimmed(seq!['{'] + bare + seq!['}']),
                text::one_of(seq!['{', '}']),
            ),
        ) == bare,
{
    let token = seq!['{'] + bare + seq!['}'];
    let none = Seq::<char>::empty();
    assert(token[0] == '{' && token.last() == '}');
    text_laws::law_white_space_is_trimmed(none, token, none);
    assert(brace_set()[0] == '{' && brace_set()[1] == '}');
    assert(brace_set().contains('{') && brace_set().contains('}'));
    assert(!brace_set().contains(bare[0]) && !brace_set().contains(bare.last()));
    text_laws::law_trimming_takes_the_padding(
        seq!['{'],
        bare,
        seq!['}'],
        text::one_of(brace_set()),
    );
    text_laws::law_white_space_is_trimmed(none, bare, none);
}

proof fn lemma_component_ends(s: Seq<char>, blank: char, behind: Seq<char>, pkg: Seq<char>)
    requires
        is_component(s, pkg),
        text::is_white_space(blank),
        behind.len() > 0 && !text::is_white_space(behind.last()),
    ensures
        ({
            let rest = text::trimmed(s + seq![blank] + behind);
            rest.take(text::first_index(rest, parser::ends_component())) == s
        }),
{
    lemma_component_kept(s, pkg);
    let rest = s + seq![blank] + behind;
    let none = Seq::<char>::empty();
    assert(!text::is_white_space(s[0]));
    assert(rest[0] == s[0] && rest.last() == behind.last());
    text_laws::law_white_space_is_trimmed(none, rest, none);
    let ends = parser::ends_component();
    assert forall|i: int| 0 <= i < s.len() implies !ends(#[trigger] rest[i]) by {
        assert(rest[i] == s[i]);
    }
    assert(rest[s.len() as int] == blank);
    text::lemma_first_index_is(rest, ends, s.len() as int);
    assert(rest.take(s.len() as int) =~= s);
}

/// The payload of a resumed activity tells the component of the first field with a slash in it, wherever it
/// stands, and the package before that slash.
pub proof fn law_payloads_tell_resumed_activities(
    left: Seq<char>,
    parts: Seq<Seq<char>>,
    right: Seq<char>,
    at: int,
    s: Seq<char>,
    pkg: Seq<char>,
    in_braces: bool,
)
    requires
        blank(left) && blank(right),
        are_fields(parts),
        0 <= at < parts.len() && at < 8,
        forall|i: int| 0 <= i < at ==> !text::trimmed(#[trigger] parts[i]).contains('/'),
        is_component(s, pkg),
        text::trimmed(parts[at]) == if in_braces {
            seq!['{'] + s + seq!['}']
        } else {
            s
        },
    ensures
        parser::resume_activity(payload_of(left, parts, right)) == Some(
            ResumeModel { pkg, component: s },
        ),
{
    let toks = parser::tokens(payload_of(left, parts, right));
    law_tokens_are_the_fields(left, parts, right);
    lemma_component_kept(s, pkg);
    law_tokens_name_components(s, pkg);
    let k = choose|k: int| 0 <= k < s.len() && s[k] == '/';
    assert(toks[at] == text::trimmed(parts[at]));
    assert(toks[at].contains('/')) by {
        if in_braces {
            assert(toks[at][k + 1] == '/');
        }
    }
    assert forall|i: int| 0 <= i < at implies !parser::holds_char('/')(#[trigger] toks[i]) by {
        assert(toks[i] == text::trimmed(parts[i]));
    }
    text::lemma_first_index_is(toks, parser::holds_char('/'), at);
    assert(pkg[0] == s[0]) by {
        assert((pkg + seq!['/'])[0] == pkg[0]);
        assert(s.subrange(0, (pkg.len() + 1) as int)[0] == (pkg + seq!['/'])[0]);
    }
}

/// Every app that is read to have come to the foreground has a name in which a letter stands and no slash,
/// and which starts with neither a hyphen nor a brace.
pub proof fn law_resumed_apps_have_a_name(payload: Seq<char>)
    ensures
        parser::resume_activity(payload) matches Some(ev) ==> {
            &&& ev.pkg.len() > 0
            &&& ev.pkg[0] != '-' && ev.pkg[0] != '{' && ev.pkg[0] != '}'
            &&& exists|i: int| 0 <= i < ev.pkg.len() && text::is_ascii_letter(#[trigger] ev.pkg[i])
            &&& !ev.pkg.contains('/')
            &&& text_laws::is_bare(ev.pkg)
        },
{
    if let Some(ev) = parser::resume_activity(payload) {
        let head = text::before_char(ev.component, '/');
        text_laws::law_nothing_before_the_first_mark(ev.component, '/');
        text_laws::law_trimmed_is_part_of_the_text(head);
        if ev.pkg.contains('/') {
            let k = choose|k: int| 0 <= k < ev.pkg.len() && ev.pkg[k] == '/';
            let (a, b) = choose|a: int, b: int|
                #![trigger head.subrange(a, b)]
                0 <= a <= b <= head.len() && ev.pkg == head.subrange(a, b) && (forall|i: int|
                    0 <= i < a || b <= i < head.len() ==> text::is_white_space(#[trigger] head[i]));
            assert(head[a + k] == '/');
        }
    }
}

// ---------------------------------------------------------------------------
// The screen and the idle device
// ---------------------------------------------------------------------------
/// `0` says that the screen is off and `1` that it is on, in brackets or not; anything else says nothing.
pub proof fn law_payloads_tell_the_screen(left: Seq<char>, body: Seq<char>, right: Seq<char>)
    requires
        blank(left) && blank(right),
        body.len() > 0,
        !text::is_white_space(body[0]) && body[0] != '[' && body[0] != ']',
        !text::is_white_space(body.last()) && body.last() != '[' && body.last() != ']',
    ensures
        ({
            let told = if body == seq!['0'] {
                Some(false)
            } else if body == seq!['1'] {
                Some(true)
            } else {
                None
            };
            &&& parser::screen_toggled(left + body + right) == told
            &&& parser::screen_toggled(left + (seq!['['] + body + seq![']']) + right) == told
        }),
{
    let p = text::one_of(seq!['[', ']']);
    let none = Seq::<char>::empty();
    let framed = seq!['['] + body + seq![']'];
    reveal_strlit("0");
    reveal_strlit("1");
    assert("0"@ =~= seq!['0']);
    assert("1"@ =~= seq!['1']);
    assert(framed[0] == '[' && framed.last() == ']');
    assert(seq!['[', ']'][0] == '[' && seq!['[', ']'][1] == ']');
    assert(p('[') && p(']'));
    assert(!p(body[0]) && !p(body.last()));
    text_laws::law_white_space_is_trimmed(left, framed, right);
    text_laws::law_white_space_is_trimmed(left, body, right);
    text_laws::law_trimming_takes_the_padding(seq!['['], body, seq![']'], p);
    text_laws::law_trimming_takes_the_padding(none, body, none, p);
    assert(none + body + none =~= body);
    text_laws::law_white_space_is_trimmed(none, body, none);
}

// ---------------------------------------------------------------------------
// Lines
// ---------------------------------------------------------------------------
proof fn lemma_tags_differ()
    ensures
        "am_proc_start"@.len() == 13 && "am_proc_died"@.len() == 12,
        "wm_resume_activity"@.len() == 18 && "am_resume_activity"@.len() == 18,
        "wm_resume_activity"@[0] == 'w' && "am_resume_activity"@[0] == 'a',
        "screen_toggled"@.len() == 14 && "device_idle_light_step"@.len() == 22,
{
    reveal_strlit("am_proc_start");
    reveal_strlit("am_proc_died");
    reveal_strlit("wm_resume_activity");
    reveal_strlit("am_resume_activity");
    reveal_strlit("screen_toggled");
    reveal_strlit("device_idle_light_step");
}

/// What an event tells goes by its tag, and an event with another tag tells nothing. A light step of the idle
/// device is one only with nothing in its payload.
pub proof fn law_tags_tell_events_apart(tag: Seq<char>, payload: Seq<char>)
    ensures
        ({
            let told = parser::tagged_event(tag, payload);
            &&& told matches Some(EventModel::ProcStart(ev)) ==> tag == "am_proc_start"@
                && parser::proc_start(payload) == Some(ev)
            &&& told matches Some(EventModel::ProcDied(pid)) ==> tag == "am_proc_died"@
                && parser::proc_died(payload) == Some(pid)
            &&& told matches Some(EventModel::ResumeActivity(ev)) ==> (tag == "wm_resume_activity"@
                || tag == "am_resume_activity"@) && parser::resume_activity(payload) == Some(ev)
            &&& told matches Some(EventModel::ScreenToggled(on)) ==> tag == "screen_toggled"@
                && parser::screen_toggled(payload) == Some(on)
            &&& told == Some(EventModel::DeviceIdleLightStep) ==> tag == "device_idle_light_step"@
                && parser::payload_body(payload).len() == 0
            &&& tag == "am_proc_start"@ && told is None ==> parser::proc_start(payload) is None
            &&& tag == "am_proc_died"@ && told is None ==> parser::proc_died(payload) is None
            &&& (tag == "wm_resume_activity"@ || tag == "am_resume_activity"@) && told is None
                ==> parser::resume_activity(payload) is None
            &&& tag == "screen_toggled"@ && told is None ==> parser::screen_toggled(payload) is None
            &&& tag == "device_idle_light_step"@ && told is None ==> parser::payload_body(
                payload,
            ).len() > 0
        }),
{
    lemma_tags_differ();
}

/// The three digits of a number of milliseconds.
pub open spec fn three_digits(ms: nat) -> Seq<char> {
    seq![
        ('0' as int + ms / 100) as char,
        ('0' as int + ms / 10 % 10) as char,
        ('0' as int + ms % 10) as char,
    ]
}

/// A stamp of seconds, a point and three digits tells that many milliseconds.
pub proof fn law_stamps_tell_milliseconds(secs: nat, ms: nat)
    requires
        secs <= 9_223_372_036_854_774,
        ms < 1000,
    ensures
        parser::stamp_ms(render::decimal(secs) + seq!['.'] + three_digits(ms)) == Some(
            secs * 1000 + ms,
        ),
{
    let s = render::decimal(secs);
    let t = three_digits(ms);
    render::law_decimal_reads_back(secs);
    if s.contains('.') {
        let i = choose|i: int| 0 <= i < s.len() && s[i] == '.';
        assert(text::is_digit(s[i]));
    }
    text_laws::law_split_at_the_first_mark(s, '.', t);
    assert(text::is_digit(t[0]) && text::is_digit(t[1]) && text::is_digit(t[2]));
    assert(text::is_decimal(t));
    let none = Seq::<char>::empty();
    assert(t.drop_last() =~= seq![t[0], t[1]]);
    assert(t.drop_last().drop_last() =~= seq![t[0]]);
    assert(t.drop_last().drop_last().drop_last() =~= none);
    reveal_with_fuel(text::decimal_value, 5);
    assert(text::decimal_value(t) == ms);
}

/// A line of the log tells when its event happened and what it says: the stamp stands first, and the tag is
/// the last word before the first colon behind it.
#[verifier::rlimit(50)]
pub proof fn law_lines_tell_their_event(
    lead: Seq<char>,
    secs: nat,
    ms: nat,
    head: Seq<char>,
    tag: Seq<char>,
    payload: Seq<char>,
    end: Seq<char>,
)
    requires
        blank(lead) && blank(end),
        secs <= 9_223_372_036_854_774,
        ms < 1000,
        !head.contains(':') && !tag.contains(':'),
        tag.len() > 0,
        forall|i: int| 0 <= i < tag.len() ==> !text::is_white_space(#[trigger] tag[i]),
        payload.len() > 0 ==> !text::is_white_space(payload.last()),
    ensures
        ({
            let line = lead + (render::decimal(secs) + seq!['.'] + three_digits(ms) + seq![' '] + head
                + seq![' '] + tag + seq![':'] + payload) + end;
            match parser::tagged_event(tag, payload) {
                Some(ev) => parser::epoch_line(line) == Some((secs * 1000 + ms, ev)),
                None => parser::epoch_line(line) is None,
            }
        }),
{
    let stamp = render::decimal(secs) + seq!['.'] + three_digits(ms);
    let rest = seq![' '] + head + seq![' '] + tag + seq![':'] + payload;
    let core = render::decimal(secs) + seq!['.'] + three_digits(ms) + seq![' '] + head + seq![' ']
        + tag + seq![':'] + payload;
    let line = lead + core + end;
    let none = Seq::<char>::empty();
    let gap = text::white();
    render::law_decimal_reads_back(secs);
    law_stamps_tell_milliseconds(secs, ms);
    assert(core =~= stamp + rest);
    assert forall|i: int| 0 <= i < stamp.len() implies !gap(#[trigger] stamp[i]) by {
        if i < render::decimal(secs).len() {
            assert(stamp[i] == render::decimal(secs)[i]);
            assert(text::is_digit(stamp[i]));
        }
    }
    assert(text::is_digit(render::decimal(secs)[0]));
    assert(core[0] == render::decimal(secs)[0]);
    if payload.len() > 0 {
        assert(core.last() == payload.last());
    } else {
        assert(core.last() == ':');
    }
    text_laws::law_white_space_is_trimmed(lead, core, end);
    assert(text::trimmed(line) == core);
    reveal_strlit("---");
    assert(!"---"@.is_prefix_of(core)) by {
        if "---"@.is_prefix_of(core) {
            assert("---"@[0] == '-');
            assert(core[0] == '-');
        }
    }
    assert(rest[0] == ' ');
    text_laws::law_first_word(none, stamp, rest, gap);
    assert(none + stamp + rest =~= core);
    let front = seq![' '] + head + seq![' '] + tag;
    assert(rest =~= front + seq![':'] + payload);
    assert(!front.contains(':')) by {
        if front.contains(':') {
            let i = choose|i: int| 0 <= i < front.len() && front[i] == ':';
            if 1 <= i < 1 + head.len() {
                assert(head[i - 1] == ':');
            } else if i >= head.len() + 2 {
                assert(tag[i - 2 - head.len()] == ':');
            }
        }
    }
    text_laws::law_split_at_the_first_mark(front, ':', payload);
    assert(text_laws::is_word(tag, gap)) by {
        assert forall|i: int| 0 <= i < tag.len() implies !gap(#[trigger] tag[i]) by {}
    }
    text_laws::law_last_word(seq![' '] + head, ' ', tag, gap);
    assert(text::words(front).last() == tag);
}

/// A line without a stamp tells its event too, with a priority of one character and a slash in front of the
/// tag, or without.
pub proof fn law_lines_without_stamps(
    lead: Seq<char>,
    priority: Option<char>,
    tag: Seq<char>,
    payload: Seq<char>,
    end: Seq<char>,
)
    requires
        blank(lead) && blank(end),
        priority matches Some(c) ==> (c as u32) < 0x80 && !text::is_white_space(c) && c != '-',
        tag.len() > 1 && !tag.contains(':') && tag[0] != '-' && tag[1] != '/',
        forall|i: int| 0 <= i < tag.len() ==> !text::is_white_space(#[trigger] tag[i]),
        payload.len() > 0 ==> !text::is_white_space(payload.last()),
    ensures
        ({
            let front = match priority {
                Some(c) => seq![c, '/'],
                None => Seq::empty(),
            };
            parser::logcat_line(lead + (front + tag + seq![':'] + payload) + end)
                == parser::tagged_event(tag, payload)
        }),
{
    let front = match priority {
        Some(c) => seq![c, '/'],
        None => Seq::empty(),
    };
    let core = front + tag + seq![':'] + payload;
    let rest = tag + seq![':'] + payload;
    if payload.len() > 0 {
        assert(core.last() == payload.last());
    } else {
        assert(core.last() == ':');
    }
    assert(core[0] == match priority {
        Some(c) => c,
        None => tag[0],
    });
    text_laws::law_white_space_is_trimmed(lead, core, end);
    reveal_strlit("---");
    assert(!"---"@.is_prefix_of(core)) by {
        if "---"@.is_prefix_of(core) {
            assert("---"@[0] == '-');
            assert(core[0] == '-');
        }
    }
    assert(parser::without_priority(core) =~= rest) by {
        match priority {
            Some(c) => {
                assert(core.skip(2) =~= rest);
            },
            None => {
                assert(core =~= rest);
                assert(core[1] == tag[1]);
            },
        }
    }
    text_laws::law_split_at_the_first_mark(tag, ':', payload);
    text_laws::law_white_space_is_trimmed(Seq::empty(), tag, Seq::empty());
}

/// Blank lines and separators tell nothing, and neither do lines without a colon.
pub proof fn law_other_lines_tell_nothing(
    lead: Seq<char>,
    words: Seq<char>,
    end: Seq<char>,
)
    requires
        blank(lead) && blank(end),
        text_laws::is_bare(words),
        words.len() == 0 || (words.len() >= 3 && words[0] == '-' && words[1] == '-' && words[2] == '-')
            || !words.contains(':'),
    ensures
        parser::epoch_line(lead + words + end) is None,
        parser::logcat_line(lead + words + end) is None,
{
    text_laws::law_white_space_is_trimmed(lead, words, end);
    let s = words;
    reveal_strlit("---");
    if words.len() >= 3 && words[0] == '-' && words[1] == '-' && words[2] == '-' {
        assert("---"@ =~= s.subrange(0, 3));
        assert("---"@.is_prefix_of(s));
    } else if !words.contains(':') {
        let t = parser::without_priority(s);
        assert(!t.contains(':')) by {
            if t.contains(':') {
                let k = choose|k: int| 0 <= k < t.len() && t[k] == ':';
                if t.len() == s.len() {
                    assert(s[k] == ':');
                } else {
                    assert(s[k + 2] == ':');
                }
            }
        }
        text_laws::law_split_at_the_first_mark(t, ':', Seq::empty());
        if let Some((word, rest)) = text::word_and_rest(s, text::white()) {
            let tail = text::trim_start_by(s, text::white());
            text::lemma_first_index(s, text::not(text::white()));
            text::lemma_first_index(tail, text::white());
            assert(!rest.contains(':')) by {
                if rest.contains(':') {
                    let k = choose|k: int| 0 <= k < rest.len() && rest[k] == ':';
                    let a = text::first_index(s, text::not(text::white()));
                    let n = text::first_index(tail, text::white());
                    assert(rest[k] == tail[n + k]);
                    assert(tail[n + k] == s[a + n + k]);
                }
            }
            text_laws::law_split_at_the_first_mark(rest, ':', Seq::empty());
        }
    }
}

// ---------------------------------------------------------------------------
// What is refused, and what is still understood
// ---------------------------------------------------------------------------
/// A process that starts is not told by fewer than four tokens, nor where a hyphen stands in front of its
/// name, nor where no token can name it or no positive number stands behind the first token.
pub proof fn law_what_tells_no_started_process(payload: Seq<char>)
    ensures
        ({
            let toks = parser::tokens(payload);
            let number = |t: Seq<char>| text::unsigned_value(t, u32::MAX as nat);
            &&& toks.len() < 4 ==> parser::proc_start(payload) is None
            &&& toks.len() >= 4 && number(toks[1]) is Some && number(toks[2]) is Some && toks[3].len()
                > 0 && toks[3][0] == '-' ==> parser::proc_start(payload) is None
            &&& (number(toks[1]) is None || number(toks[2]) is None) && (forall|i: int|
                1 <= i < toks.len() ==> number(#[trigger] toks[i]) is None || number(toks[i]) == Some(
                    0nat,
                )) ==> parser::proc_start(payload) is None
            &&& (number(toks[1]) is None || number(toks[2]) is None) && (forall|i: int|
                0 <= i < toks.len() ==> number(#[trigger] toks[i]) is Some || toks[i].len() == 0
                    || toks[i][0] == '{' || toks[i][0] == '-') ==> parser::proc_start(payload) is None
        }),
{
    let toks = parser::tokens(payload);
    if toks.len() >= 4 && (text::unsigned_value(toks[1], u32::MAX as nat) is None
        || text::unsigned_value(toks[2], u32::MAX as nat) is None) {
        let rest = toks.skip(1);
        if forall|i: int|
            1 <= i < toks.len() ==> text::unsigned_value(#[trigger] toks[i], u32::MAX as nat) is None
                || text::unsigned_value(toks[i], u32::MAX as nat) == Some(0nat) {
            assert forall|j: int| 0 <= j < rest.len() implies !parser::positive()(
                #[trigger] rest[j],
            ) by {
                assert(rest[j] == toks[j + 1]);
            }
            text::lemma_first_index_is(rest, parser::positive(), rest.len() as int);
        }
        if forall|i: int|
            0 <= i < toks.len() ==> text::unsigned_value(#[trigger] toks[i], u32::MAX as nat) is Some
                || toks[i].len() == 0 || toks[i][0] == '{' || toks[i][0] == '-' {
            assert forall|j: int| 0 <= j < toks.len() implies !parser::process_token()(
                #[trigger] toks[j],
            ) by {}
            text::lemma_first_index_is(toks, parser::process_token(), toks.len() as int);
        }
    }
}

/// A token can name a process where it is not empty, starts with neither a brace nor a hyphen, and holds a
/// dot, a colon or a letter.
pub proof fn law_what_can_name_a_process(token: Seq<char>, letters: bool)
    ensures
        parser::names_process(token, letters) <==> token.len() > 0 && token[0] != '{' && token[0] != '-'
            && (token.contains('.') || token.contains(':') || letters),
        parser::proc_name(token) <==> is_process_name(text::trimmed(token)),
{
    let name = text::trimmed(token);
    if parser::proc_name(token) {
        assert forall|k: int| 0 <= k < name.len() implies text::is_ascii_letter(#[trigger] name[k])
            || '0' <= name[k] <= '9' || name[k] == '.' || name[k] == '_' || name[k] == ':' by {
            assert(parser::is_name_char(name[k]));
        }
    }
}

proof fn lemma_dead_is_found(toks: Seq<Seq<char>>, from: int, i: int)
    requires
        0 <= from <= i,
        parser::pid_before_name(toks, i),
    ensures
        parser::dead_pid_from(toks, from) is Some,
        parser::dead_pid_from(toks, from)->0 <= i,
    decreases toks.len() - from,
{
    if !parser::pid_before_name(toks, from) {
        lemma_dead_is_found(toks, from + 1, i);
    }
}

/// Wherever a positive number stands right before the name of a process, a process is told to be gone: the
/// first such number is its id.
pub proof fn law_the_first_dead_id_counts(payload: Seq<char>, i: int)
    requires
        ({
            let toks = parser::tokens(payload);
            let told = |j: int|
                text::unsigned_value(toks[j], u32::MAX as nat) is Some && text::unsigned_value(
                    toks[j],
                    u32::MAX as nat,
                )->0 > 0 && is_process_name(text::trimmed(toks[j + 1]));
            &&& 0 <= i < toks.len() - 1
            &&& told(i)
            &&& forall|j: int| 0 <= j < i ==> !#[trigger] told(j)
        }),
    ensures
        parser::proc_died(payload) is Some,
        text::unsigned_value(parser::tokens(payload)[i], u32::MAX as nat) == Some(
            parser::proc_died(payload)->0 as nat,
        ),
{
    let toks = parser::tokens(payload);
    let told = |j: int|
        text::unsigned_value(toks[j], u32::MAX as nat) is Some && text::unsigned_value(
            toks[j],
            u32::MAX as nat,
        )->0 > 0 && is_process_name(text::trimmed(toks[j + 1]));
    law_what_can_name_a_process(toks[i + 1], true);
    assert(parser::pid_before_name(toks, i));
    lemma_dead_is_found(toks, 0, i);
    lemma_dead_place(toks, 0);
    let k = parser::dead_pid_from(toks, 0)->0;
    if k < i {
        law_what_can_name_a_process(toks[k + 1], true);
        assert(parser::pid_before_name(toks, k));
        assert(told(k));
        assert(false);
    }
}

/// Where no field of a resumed activity has a slash in it, the fourth one is the package and the component;
/// where there are fewer fields, nothing is told.
pub proof fn law_resumed_activities_without_a_slash(payload: Seq<char>, pkg: Seq<char>)
    requires
        forall|i: int|
            0 <= i < parser::tokens(payload).len() ==> !(#[trigger] parser::tokens(
                payload,
            )[i]).contains('/'),
        parser::tokens(payload).len() >= 4 ==> parser::tokens(payload)[3] == pkg,
        is_component(pkg + seq!['/'], pkg),
    ensures
        parser::tokens(payload).len() >= 4 ==> parser::resume_activity(payload) == Some(
            ResumeModel { pkg, component: pkg },
        ),
        parser::tokens(payload).len() < 4 ==> parser::resume_activity(payload) is None,
{
    let toks = parser::tokens(payload);
    let none = Seq::<char>::empty();
    assert forall|i: int| 0 <= i < toks.len() implies !parser::holds_char('/')(#[trigger] toks[i]) by {}
    text::lemma_first_index_is(toks, parser::holds_char('/'), toks.len() as int);
    let s = pkg + seq!['/'];
    assert forall|i: int| 0 <= i < pkg.len() implies !text::is_white_space(#[trigger] pkg[i]) && pkg[i]
        != '{' && pkg[i] != '}' && pkg[i] != '"' && pkg[i] != '\'' && pkg[i] != '=' by {
        assert(s[i] == pkg[i]);
    }
    assert(pkg.len() > 0);
    lemma_plain_component(pkg);
    text_laws::law_split_at_the_first_mark(pkg, '/', none);
    text_laws::law_white_space_is_trimmed(none, pkg, none);
    if toks.len() < 4 {
        lemma_nothing_named();
    }
}

proof fn lemma_plain_component(s: Seq<char>)
    requires
        s.len() > 0,
        forall|i: int|
            0 <= i < s.len() ==> !text::is_white_space(#[trigger] s[i]) && s[i] != '{' && s[i] != '}'
                && s[i] != '"' && s[i] != '\'' && s[i] != '=',
    ensures
        parser::component_in(s) == s,
{
    let none = Seq::<char>::empty();
    let last = s[s.len() - 1];
    assert(!padding_set().contains(s[0])) by {
        assert(s[0] != '{' && s[0] != '}' && s[0] != '"' && s[0] != '\'' && s[0] != ' ');
    }
    assert(!padding_set().contains(last)) by {
        assert(last != '{' && last != '}' && last != '"' && last != '\'' && last != ' ');
    }
    assert(!brace_set().contains(s[0]) && !brace_set().contains(last));
    text_laws::law_white_space_is_trimmed(none, s, none);
    text_laws::law_trimming_takes_the_padding(none, s, none, text::one_of(brace_set()));
    text_laws::law_trimming_takes_the_padding(none, s, none, text::one_of(padding_set()));
    assert(none + s + none =~= s);
    text::lemma_first_occurrence(s, "cmp="@);
    reveal_strlit("cmp=");
    if let Some(i) = text::first_occurrence(s, "cmp="@) {
        assert(s.subrange(i, i + 4)[3] == '=');
        assert(s[i + 3] == '=');
    }
}

proof fn lemma_nothing_named()
    ensures
        text::before_char(parser::component_in(Seq::empty()), '/').len() == 0,
        text::trimmed(text::before_char(parser::component_in(Seq::empty()), '/')).len() == 0,
{
    let none = Seq::<char>::empty();
    text_laws::law_trimming_takes_the_padding(none, none, none, text::white());
    text_laws::law_trimming_takes_the_padding(none, none, none, text::one_of(brace_set()));
    text_laws::law_trimming_takes_the_padding(none, none, none, text::one_of(padding_set()));
    assert(none + none + none =~= none);
    text::lemma_first_occurrence(none, "cmp="@);
    reveal_strlit("cmp=");
    text_laws::law_split_at_the_first_mark(none, '/', none);
}

/// A light step of the idle device is told by a payload with nothing in it but white space and brackets.
pub proof fn law_light_steps_have_no_payload(left: Seq<char>, right: Seq<char>, bracketed: bool)
    requires
        blank(left) && blank(right),
    ensures
        parser::tagged_event(
            "device_idle_light_step"@,
            left + (if bracketed {
                seq!['[', ']']
            } else {
                Seq::empty()
            }) + right,
        ) == Some(EventModel::DeviceIdleLightStep),
{
    lemma_tags_differ();
    let none = Seq::<char>::empty();
    let middle = if bracketed {
        seq!['[', ']']
    } else {
        none
    };
    let set = seq!['[', ']'];
    let p = text::one_of(set);
    assert(set[0] == '[' && set[1] == ']');
    assert(p('[') && p(']'));
    if bracketed {
        assert(middle[0] == '[' && middle.last() == ']');
    }
    text_laws::law_white_space_is_trimmed(left, middle, right);
    text_laws::law_trimming_takes_the_padding(middle, none, none, p);
    assert(middle + none + none =~= middle);
    text_laws::law_white_space_is_trimmed(none, none, none);
}

/// A stamp is digits, a point and three digits, and nothing else.
pub proof fn law_what_is_a_stamp(stamp: Seq<char>)
    ensures
        parser::stamp_ms(stamp) is Some ==> {
            let n = stamp.len() - 4;
            &&& n > 0
            &&& stamp[n] == '.'
            &&& forall|i: int| 0 <= i < stamp.len() && i != n ==> '0' <= #[trigger] stamp[i] <= '9'
        },
{
    if parser::stamp_ms(stamp) is Some {
        text::lemma_first_index(stamp, text::is_char('.'));
        let k = text::first_index(stamp, text::is_char('.'));
        let secs = stamp.take(k);
        let millis = stamp.skip(k + 1);
        assert(k == stamp.len() - 4);
        assert forall|i: int| 0 <= i < stamp.len() && i != k implies '0' <= #[trigger] stamp[i] <= '9' by {
            if i < k {
                assert(secs[i] == stamp[i]);
                assert(text::is_digit(secs[i]));
            } else {
                assert(millis[i - k - 1] == stamp[i]);
                assert(text::is_digit(millis[i - k - 1]));
            }
        }
    }
}

/// An intent whose component stands at its end names that component too.
#[verifier::rlimit(50)]
pub proof fn law_intents_may_end_with_their_component(before: Seq<char>, s: Seq<char>, pkg: Seq<char>)
    requires
        is_component(s, pkg),
        before.len() > 0 ==> !text::is_white_space(before[0]) && before[0] != '{' && before[0] != '}',
        forall|i: int|
            0 <= i < before.len() ==> !#[trigger] text::occurs_at(before + "cmp="@ + s, "cmp="@, i),
    ensures
        parser::component_in(seq!['{'] + (before + "cmp="@ + s) + seq!['}']) == s,
{
    lemma_ends_of_intent(before, s, pkg);
    let mark = "cmp="@;
    let bare = before + mark + s;
    let n = before.len() as int;
    assert(text::first_occurrence(bare, mark) == Some(n)) by {
        text_laws::law_the_first_place_counts(bare, mark, n);
    }
    assert(s.take(text::first_index(s, parser::ends_component())) == s) by {
        lemma_component_is_whole(s, pkg);
    }
    lemma_intent(bare, n, s, pkg);
}

proof fn lemma_ends_of_intent(before: Seq<char>, s: Seq<char>, pkg: Seq<char>)
    requires
        is_component(s, pkg),
        before.len() > 0 ==> !text::is_white_space(before[0]) && before[0] != '{' && before[0] != '}',
    ensures
        ({
            let bare = before + "cmp="@ + s;
            let n = before.len() as int;
            &&& "cmp="@.len() == 4
            &&& bare.len() == n + 4 + s.len()
            &&& s.len() > 0
            &&& !text::is_white_space(bare[0]) && bare[0] != '{' && bare[0] != '}'
            &&& !text::is_white_space(bare.last()) && bare.last() != '{' && bare.last() != '}'
            &&& bare.skip(n + 4) == s
            &&& text::trimmed(s) == s
            &&& bare.subrange(n, n + 4) == "cmp="@
        }),
{
    assert(s.len() > 0 && text::trimmed(s) == s) by {
        lemma_component_kept(s, pkg);
    }
    reveal_strlit("cmp=");
    let mark = "cmp="@;
    let bare = before + mark + s;
    let n = before.len() as int;
    assert(bare[0] == if n > 0 {
        before[0]
    } else {
        'c'
    });
    assert(!text::is_white_space('c'));
    let last = s[s.len() - 1];
    assert(bare.last() == last);
    assert(!text::is_white_space(last) && last != '{' && last != '}');
    assert(bare.skip(n + 4) =~= s);
    assert(bare.subrange(n, n + 4) =~= mark);
}

proof fn lemma_component_is_whole(s: Seq<char>, pkg: Seq<char>)
    requires
        is_component(s, pkg),
    ensures
        s.take(text::first_index(s, parser::ends_component())) == s,
{
    let ends = parser::ends_component();
    assert forall|i: int| 0 <= i < s.len() implies !ends(#[trigger] s[i]) by {}
    text::lemma_first_index_is(s, ends, s.len() as int);
    assert(s.take(s.len() as int) =~= s);
}

/// A token of several words, such as `{u0 package/activity t7}`, names the component that is its first word
/// with a slash in it, in quotes or not.
#[verifier::rlimit(50)]
pub proof fn law_words_name_components(
    before: Seq<char>,
    s: Seq<char>,
    behind: Seq<char>,
    pkg: Seq<char>,
    in_quotes: bool,
)
    requires
        is_component(s, pkg),
        text_laws::is_word(before, text::white()),
        text_laws::is_word(behind, text::white()),
        !before.contains('/') && !before.contains('=') && !behind.contains('='),
        before[0] != '{' && before[0] != '}' && behind.last() != '{' && behind.last() != '}',
    ensures
        ({
            let word = if in_quotes {
                seq!['"'] + s + seq!['"']
            } else {
                s
            };
            parser::component_in(
                seq!['{'] + (before + seq![' '] + word + seq![' '] + behind) + seq!['}'],
            ) == s
        }),
{
    lemma_component_kept(s, pkg);
    let word = if in_quotes {
        seq!['"'] + s + seq!['"']
    } else {
        s
    };
    let gap = text::white();
    let none = Seq::<char>::empty();
    let bare = before + seq![' '] + word + seq![' '] + behind;
    assert(!gap(before[0]) && !gap(behind[behind.len() - 1]));
    assert(bare[0] == before[0] && bare.last() == behind.last());
    lemma_braces_are_taken(bare);
    assert forall|i: int| 0 <= i < word.len() implies !gap(#[trigger] word[i]) && word[i] != '=' by {
        if in_quotes && 0 < i < word.len() - 1 {
            assert(word[i] == s[i - 1]);
        }
    }
    assert(text_laws::is_word(word, gap));
    let tail = seq![' '] + behind;
    let rest = seq![' '] + word + tail;
    text_laws::law_first_word(none, before, rest, gap);
    assert(none + before + rest =~= bare);
    text_laws::law_first_word(seq![' '], word, tail, gap);
    let words = text::words(bare);
    assert(words[0] == before && words[1] == word);
    let k = choose|k: int| 0 <= k < s.len() && s[k] == '/';
    assert(word.contains('/')) by {
        if in_quotes {
            assert(word[k + 1] == '/');
        }
    }
    assert(!parser::holds_char('/')(words[0]));
    text::lemma_first_index_is(words, parser::holds_char('/'), 1);
    assert(bare[before.len() as int] == ' ');
    assert(bare.contains(' '));
    reveal_strlit("cmp=");
    assert(text::first_occurrence(bare, "cmp="@) is None) by {
        text::lemma_first_occurrence(bare, "cmp="@);
        if let Some(i) = text::first_occurrence(bare, "cmp="@) {
            assert(bare.subrange(i, i + 4)[3] == '=');
            let j = i + 3;
            assert(bare[j] == '=');
            let a = before.len() as int;
            let b = a + 1 + word.len();
            if j < a {
                assert(before[j] == '=');
            } else if a < j < b {
                assert(word[j - a - 1] == '=');
            } else if j > b {
                assert(behind[j - b - 1] == '=');
            }
        }
    }
    lemma_quotes_are_taken(s, pkg, in_quotes);
}

proof fn lemma_quotes_are_taken(s: Seq<char>, pkg: Seq<char>, in_quotes: bool)
    requires
        is_component(s, pkg),
    ensures
        text::trim_by(
            if in_quotes {
                seq!['"'] + s + seq!['"']
            } else {
                s
            },
            text::one_of(seq!['{', '}', '"', '\'']),
        ) == s,
{
    lemma_component_kept(s, pkg);
    let none = Seq::<char>::empty();
    let set = seq!['{', '}', '"', '\''];
    let p = text::one_of(set);
    assert(set[2] == '"');
    assert(p('"'));
    let last = s[s.len() - 1];
    assert(s[0] != '{' && s[0] != '}' && s[0] != '"' && s[0] != '\'');
    assert(last != '{' && last != '}' && last != '"' && last != '\'');
    assert(!p(s[0]) && !p(last));
    text_laws::law_trimming_takes_the_padding(seq!['"'], s, seq!['"'], p);
    text_laws::law_trimming_takes_the_padding(none, s, none, p);
    assert(none + s + none =~= s);
}

/// The time of an event is that of the stamp with which its line starts.
pub proof fn law_events_happen_at_their_stamp(line: Seq<char>)
    ensures
        parser::epoch_line(line) matches Some((ms, ev)) ==> exists|stamp: Seq<char>, rest: Seq<char>|
            #![trigger stamp + rest]
            text::trimmed(line) == stamp + rest && parser::stamp_ms(stamp) == Some(ms),
{
    let s = text::trimmed(line);
    if parser::epoch_line(line) is Some {
        let (stamp, rest) = text::word_and_rest(s, text::white())->0;
        text_laws::law_trimmed_is_part_of_the_text(line);
        text::lemma_first_index(s, text::not(text::white()));
        let a = text::first_index(s, text::not(text::white()));
        if a > 0 {
            assert(!text::not(text::white())(s[0]));
        }
        assert(s.skip(0) =~= s);
        text::lemma_first_index(s, text::white());
        assert(stamp + rest =~= s);
    }
}

} // verus!
