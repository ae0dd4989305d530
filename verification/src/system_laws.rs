//! What is read from the system: the processes that run already, the default apps, the screen, and the files below
//! `/proc`.
use vstd::prelude::*;
use vstd::utf8::*;

use crate::daemon::{DaemonModel, Name};
use crate::parser;
use crate::parser_laws;
use crate::procfs;
use crate::render;
use crate::setup;
use crate::setup::ComponentQuery;
use crate::system;
use crate::text;
use crate::text_laws;

verus! {

proof fn lemma_text_of_bytes(s: Seq<char>)
    ensures
        text::utf8_text(encode_utf8(s)) == Some(s),
{
    encode_utf8_valid_utf8(s);
    encode_utf8_decode_utf8(s);
}

/// Whether every character of `s` is white space.
pub open spec fn blank(s: Seq<char>) -> bool {
    forall|i: int| 0 <= i < s.len() ==> text::is_white_space(#[trigger] s[i])
}

// ---------------------------------------------------------------------------
// Processes that run already
// ---------------------------------------------------------------------------
proof fn lemma_command_line(name: Seq<char>, rest: Option<Seq<u8>>)
    requires
        is_ascii_chars(name),
        !name.contains('\0'),
    ensures
        ({
            let cmdline = match rest {
                Some(rest) => encode_utf8(name) + seq![0u8] + rest,
                None => encode_utf8(name),
            };
            cmdline.take(text::first_index(cmdline, setup::zero_byte())) == encode_utf8(name)
        }),
{
    let bytes = encode_utf8(name);
    let cmdline = match rest {
        Some(rest) => bytes + seq![0u8] + rest,
        None => bytes,
    };
    is_ascii_chars_encode_utf8(name);
    let n = bytes.len() as int;
    assert forall|i: int| 0 <= i < n implies !setup::zero_byte()(#[trigger] cmdline[i]) by {
        assert(cmdline[i] == bytes[i]);
        assert(name[i] as u8 == bytes[i]);
        assert(name.contains(name[i]));
        let c = name[i];
        assert('\0' <= c <= '\u{7f}');
        assert(c as u8 == c as int);
    }
    text::lemma_first_index_is(cmdline, setup::zero_byte(), n);
    assert(cmdline.take(n) =~= bytes);
}

/// A process that runs already belongs to the package before the first colon of its name, which is the first
/// part of its command line, and the package is known by its user id. It cannot be evicted for that. Nothing
/// else changes.
pub proof fn law_running_processes_are_indexed(
    m: DaemonModel,
    pid: u32,
    uid: u32,
    name: Seq<char>,
    pkg: Seq<char>,
    suffix: Option<Seq<char>>,
    rest: Option<Seq<u8>>,
    other: Name,
)
    requires
        name == match suffix {
            Some(tail) => pkg + seq![':'] + tail,
            None => pkg,
        },
        is_ascii_chars(name) && !name.contains('\0') && name.contains('.') && text_laws::is_bare(name),
        pkg.len() > 0 && !pkg.contains(':') && text_laws::is_bare(pkg),
        pkg[0] != '/' && pkg[0] != '-',
        other != pkg,
    ensures
        ({
            let cmdline = match rest {
                Some(rest) => encode_utf8(name) + seq![0u8] + rest,
                None => encode_utf8(name),
            };
            let after = m.after_seed(pid, uid, cmdline);
            &&& after.owner == m.owner.insert(pid, pkg)
            &&& after.uids == m.uids.insert(pkg, uid)
            &&& forall|p: u32| #[trigger]
                after.pids[pkg].contains(p) <==> p == pid || (m.pids.dom().contains(pkg)
                    && m.pids[pkg].contains(p))
            &&& after.pids.dom() == m.pids.dom().insert(pkg)
            &&& m.pids.dom().contains(other) ==> after.pids[other] == m.pids[other]
            &&& after == (DaemonModel {
                owner: after.owner,
                uids: after.uids,
                pids: after.pids,
                ..m
            })
        }),
{
    let cmdline = match rest {
        Some(rest) => encode_utf8(name) + seq![0u8] + rest,
        None => encode_utf8(name),
    };
    lemma_command_line(name, rest);
    lemma_text_of_bytes(name);
    text_laws::law_white_space_is_trimmed(Seq::empty(), name, Seq::empty());
    let tail = match suffix {
        Some(tail) => tail,
        None => Seq::empty(),
    };
    parser_laws::law_processes_belong_to_their_package(name, pkg, tail);
    assert(name[0] == pkg[0]);
    let after = m.after_seed(pid, uid, cmdline);
    assert(after.pids.dom() =~= m.pids.dom().insert(pkg));
}

/// A process whose name has no dot in it, or starts with a slash or a hyphen, is no app and is not indexed.
pub proof fn law_other_processes_are_not_indexed(
    m: DaemonModel,
    pid: u32,
    uid: u32,
    name: Seq<char>,
    rest: Option<Seq<u8>>,
)
    requires
        is_ascii_chars(name) && !name.contains('\0') && text_laws::is_bare(name),
        !name.contains('.') || name[0] == '/' || name[0] == '-',
    ensures
        m.after_seed(
            pid,
            uid,
            match rest {
                Some(rest) => encode_utf8(name) + seq![0u8] + rest,
                None => encode_utf8(name),
            },
        ) == m,
{
    lemma_command_line(name, rest);
    lemma_text_of_bytes(name);
    text_laws::law_white_space_is_trimmed(Seq::empty(), name, Seq::empty());
}

// ---------------------------------------------------------------------------
// Default apps
// ---------------------------------------------------------------------------
/// The roles of home, dialer and messages are asked for, then the home activity where no app holds the home
/// role, and then the input method and the wallpaper.
pub proof fn law_all_default_apps_are_asked_for(home_found: bool)
    ensures
        ComponentQuery::HomeRole.following(home_found) == Some(ComponentQuery::DialerRole),
        ComponentQuery::DialerRole.following(home_found) == Some(ComponentQuery::SmsRole),
        home_found ==> ComponentQuery::SmsRole.following(true) == Some(ComponentQuery::InputMethod),
        !home_found ==> ComponentQuery::SmsRole.following(false) == Some(
            ComponentQuery::HomeActivity,
        ),
        ComponentQuery::HomeActivity.following(home_found) == Some(ComponentQuery::InputMethod),
        ComponentQuery::InputMethod.following(home_found) == Some(ComponentQuery::Wallpaper),
        ComponentQuery::Wallpaper.following(home_found) is None,
{
}

/// The apps that an answer names are excluded from then on, and so are those that were before. Nothing else
/// changes.
pub proof fn law_answers_exclude_apps(
    m: DaemonModel,
    query: ComponentQuery,
    stdout: Seq<char>,
    name: Name,
)
    ensures
        ({
            let after = m.after_answer(query, stdout);
            &&& after.dynamic_exclusions.contains(name) <==> m.dynamic_exclusions.contains(name)
                || query.names_in(stdout).contains(name)
            &&& after == (DaemonModel { dynamic_exclusions: after.dynamic_exclusions, ..m })
        }),
{
    assert(query.names_in(stdout).to_set().contains(name) <==> query.names_in(stdout).contains(name));
}

/// An app holds a role that stands alone on a line of the answer, with a dot in its name and without a space
/// or a hyphen in front, and that is no message: neither `null`, nor one about an error or a missing holder.
pub proof fn law_lines_name_role_holders(lines: Seq<Seq<char>>, name: Name)
    ensures
        system::holders(lines).contains(name) <==> {
            &&& exists|i: int| 0 <= i < lines.len() && text::trimmed(#[trigger] lines[i]) == name
            &&& name.len() > 0 && name[0] != '-'
            &&& name.contains('.') && !name.contains(' ')
            &&& name != "null"@ && !"No holder"@.is_prefix_of(name) && !"Error"@.is_prefix_of(name)
        },
    decreases lines.len(),
{
    let found = system::holders(lines);
    if lines.len() == 0 {
        assert(!found.contains(name));
    } else {
        let rest = lines.drop_first();
        law_lines_name_role_holders(rest, name);
        let tail = system::holders(rest);
        let first = text::trimmed(lines[0]);
        if tail.contains(name) {
            let k = choose|k: int| 0 <= k < tail.len() && tail[k] == name;
            assert(found[k + found.len() - tail.len()] == name);
            let i = choose|i: int| 0 <= i < rest.len() && text::trimmed(#[trigger] rest[i]) == name;
            assert(text::trimmed(lines[i + 1]) == name);
        }
        if system::is_role_holder(lines[0]) {
            assert(found[0] == first);
        }
        if found.contains(name) {
            let k = choose|k: int| 0 <= k < found.len() && found[k] == name;
            if system::is_role_holder(lines[0]) && k > 0 {
                assert(tail[k - 1] == name);
            }
        }
        if exists|i: int| 0 <= i < lines.len() && text::trimmed(#[trigger] lines[i]) == name {
            let i = choose|i: int| 0 <= i < lines.len() && text::trimmed(#[trigger] lines[i]) == name;
            if i > 0 {
                assert(text::trimmed(rest[i - 1]) == name);
            }
        }
    }
}

/// Whether `pkg` is the name of an app as a component holds it.
pub open spec fn is_package(pkg: Seq<char>) -> bool {
    &&& pkg.contains('.')
    &&& pkg[0] != '-' && pkg[0] != '{'
    &&& !pkg.contains('/') && !pkg.contains(':')
    &&& forall|i: int| 0 <= i < pkg.len() ==> !text::is_white_space(#[trigger] pkg[i])
}

/// A secure setting names the app before the slash of the component that it holds, with the number of a user
/// in front or not; `null` names none.
pub proof fn law_settings_name_apps(
    left: Seq<char>,
    user: Option<nat>,
    pkg: Seq<char>,
    class: Seq<char>,
    right: Seq<char>,
)
    requires
        blank(left) && blank(right),
        is_package(pkg),
        !"null"@.is_prefix_of(pkg + seq!['/'] + class),
        !class.contains(':'),
        class.len() > 0 && !text::is_white_space(class.last()),
    ensures
        ({
            let component = pkg + seq!['/'] + class;
            let value = match user {
                Some(n) => render::decimal(n) + seq![':'] + component,
                None => component,
            };
            system::setting_pkg(left + value + right) == Some(pkg)
        }),
        system::setting_pkg(left + "null"@ + right) is None,
{
    let component = pkg + seq!['/'] + class;
    let value = match user {
        Some(n) => render::decimal(n) + seq![':'] + component,
        None => component,
    };
    reveal_strlit("null");
    let dot = choose|i: int| 0 <= i < pkg.len() && pkg[i] == '.';
    assert(component[dot] == '.');
    assert(component.contains('.'));
    assert(component[0] == pkg[0]);
    assert(component.last() == class.last());
    assert(value.last() == class.last());
    assert(!component.contains(':')) by {
        if component.contains(':') {
            let i = choose|i: int| 0 <= i < component.len() && component[i] == ':';
            if i < pkg.len() {
                assert(pkg[i] == ':');
            } else if i > pkg.len() {
                assert(class[i - pkg.len() - 1] == ':');
            }
        }
    }
    if let Some(n) = user {
        let d = render::decimal(n);
        render::law_decimal_reads_back(n);
        assert(text::is_digit(d[0]));
        assert(value[0] == d[0]);
        assert(!d.contains(':')) by {
            if d.contains(':') {
                let i = choose|i: int| 0 <= i < d.len() && d[i] == ':';
                assert(text::is_digit(d[i]));
            }
        }
        text_laws::law_split_at_the_first_mark(d, ':', component);
        assert(system::all_digits(d));
        assert(!"null"@.is_prefix_of(value)) by {
            if "null"@.is_prefix_of(value) {
                assert("null"@[0] == value[0]);
            }
        }
    } else {
        text_laws::law_split_at_the_first_mark(component, ':', Seq::empty());
    }
    text_laws::law_white_space_is_trimmed(left, value, right);
    assert(system::without_user(value) == component);
    text_laws::law_split_at_the_first_mark(pkg, '/', class);
    text_laws::law_white_space_is_trimmed(Seq::empty(), pkg, Seq::empty());
    assert(!pkg.contains(' ')) by {
        if pkg.contains(' ') {
            let i = choose|i: int| 0 <= i < pkg.len() && pkg[i] == ' ';
            assert(!text::is_white_space(pkg[i]));
        }
    }
    let none = "null"@;
    assert(none[0] == 'n' && none.last() == 'l');
    text_laws::law_white_space_is_trimmed(left, none, right);
    assert(none =~= none.subrange(0, none.len() as int));
}

/// What stands before the colon of a secure setting is a user only where it is digits and nothing else: anything
/// else belongs to the name of the app.
pub proof fn law_only_digits_are_a_user(head: Seq<char>, pkg: Seq<char>, class: Seq<char>)
    requires
        is_package(pkg),
        forall|i: int|
            0 <= i < head.len() ==> !text::is_white_space(#[trigger] head[i]) && head[i] != ':' && head[i]
                != '/',
        class.len() > 0 && !text::is_white_space(class.last()),
    ensures
        ({
            let named = head + seq![':'] + pkg;
            let value = named + seq!['/'] + class;
            &&& (forall|i: int| 0 <= i < head.len() ==> '0' <= #[trigger] head[i] <= '9')
                ==> system::setting_pkg(value) == Some(pkg)
            &&& (exists|i: int| 0 <= i < head.len() && !('0' <= #[trigger] head[i] <= '9')) && head[0] != '-'
                && !"null"@.is_prefix_of(value) ==> system::setting_pkg(value) == Some(named)
        }),
{
    let none = Seq::<char>::empty();
    let component = pkg + seq!['/'] + class;
    let named = head + seq![':'] + pkg;
    let value = named + seq!['/'] + class;
    assert(value =~= head + seq![':'] + component);
    let dot = choose|i: int| 0 <= i < pkg.len() && pkg[i] == '.';
    assert(component[dot] == '.');
    assert(named[head.len() + 1 + dot] == '.');
    assert(value.last() == class.last());
    assert(!head.contains(':'));
    assert(value[0] == if head.len() > 0 {
        head[0]
    } else {
        ':'
    });
    assert(none + value + none =~= value);
    text_laws::law_white_space_is_trimmed(none, value, none);
    text_laws::law_split_at_the_first_mark(head, ':', component);
    if forall|i: int| 0 <= i < head.len() ==> '0' <= #[trigger] head[i] <= '9' {
        assert(system::all_digits(head));
        assert(system::without_user(value) == component);
        assert(!"null"@.is_prefix_of(value)) by {
            reveal_strlit("null");
            if "null"@.is_prefix_of(value) {
                assert("null"@[0] == value[0]);
            }
        }
        lemma_no_space(pkg);
        text_laws::law_split_at_the_first_mark(pkg, '/', class);
        assert(none + pkg + none =~= pkg);
        text_laws::law_white_space_is_trimmed(none, pkg, none);
    } else {
        assert(!system::all_digits(head));
        assert(system::without_user(value) == value);
        assert forall|i: int| 0 <= i < named.len() implies !text::is_white_space(#[trigger] named[i])
            && named[i] != '/' by {
            if i < head.len() {
                assert(named[i] == head[i]);
            } else if i > head.len() {
                assert(named[i] == pkg[i - head.len() - 1]);
                assert(pkg.contains(pkg[i - head.len() - 1]));
            }
        }
        assert(named[0] == head[0]);
        lemma_no_space(named);
        text_laws::law_split_at_the_first_mark(named, '/', class);
        assert(none + named + none =~= named);
        text_laws::law_white_space_is_trimmed(none, named, none);
    }
}

proof fn lemma_no_space(s: Seq<char>)
    requires
        forall|i: int| 0 <= i < s.len() ==> !text::is_white_space(#[trigger] s[i]),
    ensures
        !s.contains(' '),
{
    if s.contains(' ') {
        let i = choose|i: int| 0 <= i < s.len() && s[i] == ' ';
        assert(!text::is_white_space(s[i]));
    }
}

/// A line of an answer names the app before the slash of the component on it.
pub proof fn law_lines_name_activities(
    left: Seq<char>,
    pkg: Seq<char>,
    class: Seq<char>,
    right: Seq<char>,
)
    requires
        blank(left) && blank(right),
        is_package(pkg),
        forall|i: int| 0 <= i < class.len() ==> !text::is_white_space(#[trigger] class[i]),
    ensures
        system::activity_pkg(left + (pkg + seq!['/'] + class) + right) == Some(pkg),
{
    let word = pkg + seq!['/'] + class;
    let gap = text::white();
    let line = left + word + right;
    assert forall|i: int| 0 <= i < word.len() implies !gap(#[trigger] word[i]) by {
        if i < pkg.len() {
            assert(word[i] == pkg[i]);
        } else if i > pkg.len() {
            assert(word[i] == class[i - pkg.len() - 1]);
        }
    }
    text_laws::law_first_word(left, word, right, gap);
    let words = text::words(line);
    assert(words[0] == word);
    assert(word[pkg.len() as int] == '/');
    text::lemma_first_index_is(words, parser::holds_char('/'), 0);
    text_laws::law_split_at_the_first_mark(pkg, '/', class);
    let dot = choose|i: int| 0 <= i < pkg.len() && pkg[i] == '.';
    assert(pkg.len() > 0);
    text_laws::law_white_space_is_trimmed(Seq::empty(), pkg, Seq::empty());
}

/// A line of several words names the app of the first of them with a slash in it.
pub proof fn law_words_name_activities(
    line: Seq<char>,
    i: int,
    pkg: Seq<char>,
    class: Seq<char>,
)
    requires
        is_package(pkg),
        0 <= i < text::words(line).len(),
        text::words(line)[i] == pkg + seq!['/'] + class,
        forall|j: int| 0 <= j < i ==> !(#[trigger] text::words(line)[j]).contains('/'),
    ensures
        system::activity_pkg(line) == Some(pkg),
{
    let words = text::words(line);
    let word = pkg + seq!['/'] + class;
    assert(word[pkg.len() as int] == '/');
    assert forall|j: int| 0 <= j < i implies !parser::holds_char('/')(#[trigger] words[j]) by {}
    text::lemma_first_index_is(words, parser::holds_char('/'), i);
    text_laws::law_split_at_the_first_mark(pkg, '/', class);
    let dot = choose|k: int| 0 <= k < pkg.len() && pkg[k] == '.';
    assert(pkg.len() > 0);
    text_laws::law_white_space_is_trimmed(Seq::empty(), pkg, Seq::empty());
}

/// The first line counts that names an app.
pub proof fn law_the_first_activity_counts(lines: Seq<Seq<char>>, i: int)
    requires
        0 <= i < lines.len(),
        system::activity_pkg(lines[i]) is Some,
        forall|j: int| 0 <= j < i ==> system::activity_pkg(#[trigger] lines[j]) is None,
    ensures
        system::activity_lines(lines) == system::activity_pkg(lines[i]),
    decreases lines.len(),
{
    if i > 0 {
        let rest = lines.drop_first();
        assert(system::activity_pkg(lines[0]) is None);
        assert forall|j: int| 0 <= j < i - 1 implies system::activity_pkg(#[trigger] rest[j]) is None by {
            assert(rest[j] == lines[j + 1]);
        }
        law_the_first_activity_counts(rest, i - 1);
    }
}

// ---------------------------------------------------------------------------
// The screen
// ---------------------------------------------------------------------------
proof fn lemma_ends_with(head: Seq<char>, part: Seq<char>)
    ensures
        system::has(head + part, part),
{
    let s = head + part;
    text::lemma_first_occurrence(s, part);
    assert(s.subrange(head.len() as int, (head.len() + part.len()) as int) =~= part);
    assert(text::occurs_at(s, part, head.len() as int));
}

proof fn lemma_lacks(s: Seq<char>, part: Seq<char>, k: int)
    requires
        0 <= k < part.len(),
        !s.contains(part[k]),
    ensures
        !system::has(s, part),
{
    text::lemma_first_occurrence(s, part);
    if let Some(i) = text::first_occurrence(s, part) {
        assert(s.subrange(i, i + part.len())[k] == s[i + k]);
        assert(s.contains(s[i + k]));
    }
}

/// What the power manager prints of the screen: it is on where the display holds its suspend blocker or is in
/// the state `ON`, and off where it does not hold it or is in the state `OFF` or `DOZE`.
pub proof fn law_power_lines_tell_the_screen(left: Seq<char>, right: Seq<char>)
    requires
        blank(left) && blank(right),
    ensures
        system::power_line(left + ("mHoldingDisplaySuspendBlocker="@ + "true"@) + right) == Some(true),
        system::power_line(left + ("mHoldingDisplaySuspendBlocker="@ + "false"@) + right) == Some(
            false,
        ),
        system::power_line(left + ("Display Power: state="@ + "ON"@) + right) == Some(true),
        system::power_line(left + ("Display Power: state="@ + "OFF"@) + right) == Some(false),
        system::power_line(left + ("Display Power: state="@ + "DOZE"@) + right) == Some(false),
{
    reveal_strlit("mHoldingDisplaySuspendBlocker=");
    reveal_strlit("Display Power: state=");
    reveal_strlit("true");
    reveal_strlit("false");
    reveal_strlit("ON");
    reveal_strlit("OFF");
    reveal_strlit("DOZE");
    let held = "mHoldingDisplaySuspendBlocker="@;
    let state = "Display Power: state="@;
    lemma_value_line(left, held, "true"@, right);
    lemma_value_line(left, held, "false"@, right);
    lemma_value_line(left, state, "ON"@, right);
    lemma_value_line(left, state, "OFF"@, right);
    lemma_value_line(left, state, "DOZE"@, right);
    lemma_ends_with(held, "true"@);
    lemma_ends_with(held, "false"@);
    lemma_ends_with(state, "ON"@);
    lemma_ends_with(state, "OFF"@);
    lemma_ends_with(state, "DOZE"@);
    let off = state + "OFF"@;
    let doze = state + "DOZE"@;
    let not_held = held + "false"@;
    assert(!not_held.contains('t')) by {
        reveal_with_fuel(lacks_from, 37);
        lemma_lacks_from(not_held, 't', 0);
    }
    assert(!off.contains('N')) by {
        reveal_with_fuel(lacks_from, 37);
        lemma_lacks_from(off, 'N', 0);
    }
    assert(!doze.contains('N')) by {
        reveal_with_fuel(lacks_from, 37);
        lemma_lacks_from(doze, 'N', 0);
    }
    lemma_lacks(not_held, "true"@, 0);
    lemma_lacks(off, "ON"@, 1);
    lemma_lacks(doze, "ON"@, 1);
    assert(held.len() == 30 && held[0] == 'm');
    assert(state.len() == 21 && state[0] == 'D');
}

spec fn lacks_from(s: Seq<char>, c: char, i: int) -> bool
    decreases s.len() - i,
{
    i >= s.len() || (s[i] != c && lacks_from(s, c, i + 1))
}

proof fn lemma_lacks_from(s: Seq<char>, c: char, i: int)
    requires
        0 <= i,
        lacks_from(s, c, i),
    ensures
        forall|k: int| i <= k < s.len() ==> #[trigger] s[k] != c,
    decreases s.len() - i,
{
    if i < s.len() {
        lemma_lacks_from(s, c, i + 1);
    }
}

proof fn lemma_value_line(left: Seq<char>, label: Seq<char>, value: Seq<char>, right: Seq<char>)
    requires
        blank(left) && blank(right),
        label.len() > 0 && value.len() > 0,
        !text::is_white_space(label[0]) && !text::is_white_space(value.last()),
    ensures
        text::trimmed(left + (label + value) + right) == label + value,
        label.is_prefix_of(label + value),
{
    let s = label + value;
    assert(s[0] == label[0] && s.last() == value.last());
    text_laws::law_white_space_is_trimmed(left, s, right);
    assert(s.subrange(0, label.len() as int) =~= label);
}

/// The first line counts that tells anything.
pub proof fn law_the_first_power_line_counts(lines: Seq<Seq<char>>, i: int)
    requires
        0 <= i < lines.len(),
        system::power_line(lines[i]) is Some,
        forall|j: int| 0 <= j < i ==> system::power_line(#[trigger] lines[j]) is None,
    ensures
        system::power_lines(lines) == system::power_line(lines[i]),
    decreases lines.len(),
{
    if i > 0 {
        let rest = lines.drop_first();
        assert(system::power_line(lines[0]) is None);
        assert forall|j: int| 0 <= j < i - 1 implies system::power_line(#[trigger] rest[j]) is None by {
            assert(rest[j] == lines[j + 1]);
        }
        law_the_first_power_line_counts(rest, i - 1);
    }
}

// ---------------------------------------------------------------------------
// Files below /proc
// ---------------------------------------------------------------------------
proof fn lemma_number_is_ascii_word(n: nat)
    ensures
        text_laws::is_word(render::decimal(n), text::ascii_white()),
{
    render::law_decimal_reads_back(n);
    let s = render::decimal(n);
    assert forall|i: int| 0 <= i < s.len() implies !text::ascii_white()(#[trigger] s[i]) by {
        assert(text::is_digit(s[i]));
    }
}

/// The second number of a `statm` file is the resident memory in pages: so many times the size of a page,
/// counted modulo two to the power of sixty-four.
pub proof fn law_resident_memory_is_read(
    total: Seq<char>,
    pages: u64,
    rest: Seq<char>,
    page_size_kb: u64,
)
    requires
        text_laws::is_word(total, text::ascii_white()),
        rest.len() > 0 ==> text::is_ascii_space(rest[0]),
    ensures
        ({
            let content = encode_utf8(total + seq![' '] + render::decimal(pages as nat) + rest);
            let rss_kb = procfs::statm_rss_kb(content, page_size_kb);
            &&& pages * page_size_kb <= u64::MAX ==> rss_kb == pages * page_size_kb
            &&& rss_kb == (pages * page_size_kb) % 0x1_0000_0000_0000_0000
        }),
{
    let gap = text::ascii_white();
    let number = render::decimal(pages as nat);
    let s = total + seq![' '] + number + rest;
    lemma_text_of_bytes(s);
    lemma_number_is_ascii_word(pages as nat);
    render::law_decimal_reads_back(pages as nat);
    let tail = seq![' '] + number + rest;
    text_laws::law_first_word(Seq::empty(), total, tail, gap);
    assert(Seq::<char>::empty() + total + tail =~= s);
    assert(gap(' '));
    text_laws::law_first_word(seq![' '], number, rest, gap);
    let words = text::ascii_words(s);
    assert(words[1] == number);
    assert(text::unsigned_value(number, u64::MAX as nat) == Some(pages as nat));
}

/// A file that cannot be read, or without a second word, tells no resident memory, and so does one whose
/// second word is no number.
pub proof fn law_no_resident_memory(word: Seq<char>, page_size_kb: u64)
    requires
        text_laws::is_word(word, text::ascii_white()),
    ensures
        procfs::statm_rss_kb(encode_utf8(Seq::empty()), page_size_kb) == 0,
        procfs::statm_rss_kb(encode_utf8(word), page_size_kb) == 0,
{
    let none = Seq::<char>::empty();
    let gap = text::ascii_white();
    lemma_text_of_bytes(none);
    lemma_text_of_bytes(word);
    text_laws::law_first_word(none, word, none, gap);
    assert(none + word + none =~= word);
}

/// The score of a process is the number that its file holds, with white space around it at most.
pub proof fn law_scores_are_read(left: Seq<char>, adj: i32, right: Seq<char>)
    requires
        blank(left) && blank(right),
    ensures
        procfs::oom_score_adj(encode_utf8(left + render::signed(adj as int) + right)) == Some(
            adj as int,
        ),
{
    let s = render::signed(adj as int);
    let n = if adj < 0 {
        (-adj) as nat
    } else {
        adj as nat
    };
    render::law_decimal_reads_back(n);
    render::law_signed_reads_back(adj);
    lemma_text_of_bytes(left + s + right);
    let d = render::decimal(n);
    assert(text::is_digit(d[0]) && text::is_digit(d[d.len() - 1]));
    assert(s.last() == d.last());
    text_laws::law_white_space_is_trimmed(left, s, right);
}

/// Whether a line tells neither the total nor the available memory.
pub open spec fn is_other_line(line: Seq<char>) -> bool {
    !"MemTotal:"@.is_prefix_of(line) && !"MemAvailable:"@.is_prefix_of(line)
}

/// A line that tells an amount: the label, white space, the number, and what may follow it.
pub open spec fn amount_line(label: Seq<char>, pad: Seq<char>, n: u64, rest: Seq<char>) -> Seq<char> {
    label + (pad + render::decimal(n as nat) + rest)
}

proof fn lemma_amount(pad: Seq<char>, n: u64, rest: Seq<char>)
    requires
        text_laws::all_gap(pad, text::ascii_white()),
        rest.len() > 0 ==> text::is_ascii_space(rest[0]),
    ensures
        procfs::amount(pad + render::decimal(n as nat) + rest) == n,
{
    lemma_number_is_ascii_word(n as nat);
    render::law_decimal_reads_back(n as nat);
    text_laws::law_first_word(pad, render::decimal(n as nat), rest, text::ascii_white());
    assert(text::unsigned_value(render::decimal(n as nat), u64::MAX as nat) == Some(n as nat));
}

proof fn lemma_other_lines(known: (u64, u64), others: Seq<Seq<char>>, lines: Seq<Seq<char>>)
    requires
        known.0 == 0 || known.1 == 0,
        forall|i: int| 0 <= i < others.len() ==> is_other_line(#[trigger] others[i]),
    ensures
        procfs::meminfo_lines(known, others + lines) == procfs::meminfo_lines(known, lines),
    decreases others.len(),
{
    if others.len() == 0 {
        assert(others + lines =~= lines);
    } else {
        let all = others + lines;
        assert(is_other_line(others[0]));
        assert(all[0] == others[0]);
        assert(all.drop_first() =~= others.drop_first() + lines);
        assert forall|i: int| 0 <= i < others.drop_first().len() implies is_other_line(
            #[trigger] others.drop_first()[i],
        ) by {
            assert(others.drop_first()[i] == others[i + 1]);
        }
        lemma_other_lines(known, others.drop_first(), lines);
    }
}

/// The total and the available memory are those on the lines that tell them, in either order and with any
/// other lines around them.
pub proof fn law_memory_is_read(
    before: Seq<Seq<char>>,
    between: Seq<Seq<char>>,
    behind: Seq<Seq<char>>,
    pad: Seq<char>,
    rest: Seq<char>,
    total: u64,
    avail: u64,
)
    requires
        total > 0 && avail > 0,
        text_laws::all_gap(pad, text::ascii_white()),
        rest.len() > 0 ==> text::is_ascii_space(rest[0]),
        forall|i: int| 0 <= i < before.len() ==> is_other_line(#[trigger] before[i]),
        forall|i: int| 0 <= i < between.len() ==> is_other_line(#[trigger] between[i]),
    ensures
        ({
            let first = amount_line("MemTotal:"@, pad, total, rest);
            let second = amount_line("MemAvailable:"@, pad, avail, rest);
            &&& procfs::meminfo_lines(
                (0, 0),
                before + (seq![first] + (between + (seq![second] + behind))),
            ) == (total, avail)
            &&& procfs::meminfo_lines(
                (0, 0),
                before + (seq![second] + (between + (seq![first] + behind))),
            ) == (total, avail)
        }),
{
    let first = amount_line("MemTotal:"@, pad, total, rest);
    let second = amount_line("MemAvailable:"@, pad, avail, rest);
    reveal_strlit("MemTotal:");
    reveal_strlit("MemAvailable:");
    lemma_amount(pad, total, rest);
    lemma_amount(pad, avail, rest);
    assert(first.subrange(0, 9) =~= "MemTotal:"@);
    assert(second.subrange(0, 13) =~= "MemAvailable:"@);
    assert(first.skip(9) =~= pad + render::decimal(total as nat) + rest);
    assert(second.skip(13) =~= pad + render::decimal(avail as nat) + rest);
    assert(!"MemTotal:"@.is_prefix_of(second)) by {
        assert("MemTotal:"@[3] == 'T' && second[3] == "MemAvailable:"@[3]);
    }
    let far = seq![second] + behind;
    let near = seq![first] + (between + far);
    lemma_other_lines((0, 0), before, near);
    assert(near[0] == first);
    assert(near.drop_first() =~= between + far);
    lemma_other_lines((total, 0), between, far);
    assert(far[0] == second);
    let far2 = seq![first] + behind;
    let near2 = seq![second] + (between + far2);
    lemma_other_lines((0, 0), before, near2);
    assert(near2[0] == second);
    assert(near2.drop_first() =~= between + far2);
    lemma_other_lines((0, avail), between, far2);
    assert(far2[0] == first);
}

/// Memory is low where less than so many hundredths of it are available: with more of it available it is not
/// low where it was not with less, and where all of it is available it is only low by a limit above a
/// hundred.
pub proof fn law_when_memory_is_low(total: u64, avail: u64, more: u64, percent: u64)
    ensures
        procfs::mem_critical(total, avail, percent) <==> total > 0 && 100 * avail < percent * total,
        procfs::mem_critical(total, total, percent) ==> percent > 100,
        more >= avail && !procfs::mem_critical(total, avail, percent) ==> !procfs::mem_critical(
            total,
            more,
            percent,
        ),
        !procfs::mem_critical(0, avail, percent),
{
    assert(total * percent == percent * total) by (nonlinear_arith);
    if percent <= 100 {
        assert(total * percent <= total * 100) by (nonlinear_arith)
            requires
                percent <= 100,
        ;
    }
}

/// What is no text tells nothing: no process, no memory and no score.
pub proof fn law_what_is_no_text_tells_nothing(
    m: DaemonModel,
    pid: u32,
    uid: u32,
    bytes: Seq<u8>,
    page_size_kb: u64,
)
    requires
        !valid_utf8(bytes),
    ensures
        !bytes.contains(0u8) ==> m.after_seed(pid, uid, bytes) == m,
        procfs::statm_rss_kb(bytes, page_size_kb) == 0,
        procfs::oom_score_adj(bytes) is None,
        procfs::meminfo_kb(bytes) == (0u64, 0u64),
{
    if !bytes.contains(0u8) {
        assert forall|i: int| 0 <= i < bytes.len() implies !setup::zero_byte()(#[trigger] bytes[i]) by {
            assert(bytes.contains(bytes[i]));
        }
        text::lemma_first_index_is(bytes, setup::zero_byte(), bytes.len() as int);
        assert(bytes.take(bytes.len() as int) =~= bytes);
    }
}

/// A line of the power manager that starts with neither label tells nothing of the screen.
pub proof fn law_other_power_lines_tell_nothing(line: Seq<char>)
    requires
        !"mHoldingDisplaySuspendBlocker="@.is_prefix_of(text::trimmed(line)),
        !"Display Power: state="@.is_prefix_of(text::trimmed(line)),
    ensures
        system::power_line(line) is None,
{
}

/// Every app that a setting or an activity names has a dot in its name, and neither a slash in it nor a
/// hyphen in front.
pub proof fn law_named_apps_have_a_name(stdout: Seq<char>, line: Seq<char>)
    ensures
        system::setting_pkg(stdout) matches Some(pkg) ==> pkg.contains('.') && !pkg.contains(' ')
            && !pkg.contains('/') && pkg[0] != '-',
        system::activity_pkg(line) matches Some(pkg) ==> pkg.contains('.') && !pkg.contains('/') && pkg[0]
            != '-' && pkg[0] != '{',
{
    let value = system::without_user(text::trimmed(stdout));
    lemma_no_slash(value);
    let words = text::words(line);
    let i = text::first_index(words, parser::holds_char('/'));
    lemma_no_slash(words[i]);
}

proof fn lemma_no_slash(s: Seq<char>)
    ensures
        !text::trimmed(text::before_char(s, '/')).contains('/'),
{
    let head = text::before_char(s, '/');
    let t = text::trimmed(head);
    text_laws::law_nothing_before_the_first_mark(s, '/');
    text_laws::law_trimmed_is_part_of_the_text(head);
    if t.contains('/') {
        let k = choose|k: int| 0 <= k < t.len() && t[k] == '/';
        let (a, b) = choose|a: int, b: int|
            #![trigger head.subrange(a, b)]
            0 <= a <= b <= head.len() && t == head.subrange(a, b) && (forall|i: int|
                0 <= i < a || b <= i < head.len() ==> text::is_white_space(#[trigger] head[i]));
        assert(head[a + k] == '/');
    }
}

} // verus!
