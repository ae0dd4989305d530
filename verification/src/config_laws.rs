//! What the lines of the configuration and of the lists set.
use vstd::prelude::*;

use crate::config;
use crate::config::RuntimeConfig;
use crate::daemon::{DaemonModel, Name};
use crate::render;
use crate::setup;
use crate::text;
use crate::text_laws;

verus! {

// ---------------------------------------------------------------------------
// Lines of daemon.conf
// ---------------------------------------------------------------------------
/// What may stand around the key and the value of a line.
pub struct Layout {
    /// White space in front of the key, behind it, in front of the value, and at the end of the line.
    pub lead: Seq<char>,
    pub behind_key: Seq<char>,
    pub before_value: Seq<char>,
    pub end: Seq<char>,
    /// A comment, with the white space in front of its mark.
    pub comment: Option<(Seq<char>, Seq<char>)>,
}

/// Whether every character of `s` is white space.
pub open spec fn blank(s: Seq<char>) -> bool {
    forall|i: int| 0 <= i < s.len() ==> text::is_white_space(#[trigger] s[i])
}

impl Layout {
    /// The white space is white space, and the comment does not end with any.
    pub open spec fn wf(self) -> bool {
        &&& blank(self.lead)
        &&& blank(self.behind_key)
        &&& blank(self.before_value)
        &&& blank(self.end)
        &&& self.comment matches Some((gap, words)) ==> blank(gap) && (words.len() > 0
            ==> !text::is_white_space(words.last()))
    }

    /// The comment, with its mark.
    pub open spec fn remark(self) -> Seq<char> {
        match self.comment {
            Some((gap, words)) => gap + seq!['#'] + words,
            None => Seq::empty(),
        }
    }

    /// The line that sets `key` to `val`.
    pub open spec fn line(self, key: Seq<char>, val: Seq<char>) -> Seq<char> {
        self.lead + (key + self.behind_key + seq!['='] + (self.before_value + val + self.remark()))
            + self.end
    }
}

/// Whether `s` can be a key or a value: it is not empty, and no white space and no mark stands in it.
spec fn is_item(s: Seq<char>) -> bool {
    s.len() > 0 && forall|i: int|
        0 <= i < s.len() ==> !text::is_white_space(#[trigger] s[i]) && s[i] != '=' && s[i] != '#'
}

#[verifier::rlimit(50)]
proof fn lemma_line(config: RuntimeConfig, layout: Layout, key: Seq<char>, val: Seq<char>)
    requires
        layout.wf(),
        is_item(key),
        is_item(val),
    ensures
        config.after_line(layout.line(key, val)) == config.with(key, val),
{
    let head = key + layout.behind_key;
    let rest = layout.before_value + val + layout.remark();
    let s = head + seq!['='] + rest;
    let line = layout.line(key, val);
    assert(!text::is_white_space(key[0]));
    assert(!text::is_white_space(val[val.len() - 1]));
    assert(s[0] == key[0]);
    assert(!text::is_white_space(s.last())) by {
        match layout.comment {
            Some((gap, words)) => {
                if words.len() > 0 {
                    assert(s.last() == words.last());
                } else {
                    assert(s.last() == '#');
                }
            },
            None => {
                assert(rest =~= layout.before_value + val);
                assert(s.last() == val.last());
            },
        }
    }
    assert(line =~= layout.lead + s + layout.end);
    text_laws::law_white_space_is_trimmed(layout.lead, s, layout.end);
    assert(text::trimmed(line) == s);
    assert(!head.contains('=')) by {
        if head.contains('=') {
            let i = choose|i: int| 0 <= i < head.len() && head[i] == '=';
            if i < key.len() {
                assert(key[i] == '=');
            } else {
                assert(layout.behind_key[i - key.len()] == '=');
            }
        }
    }
    text_laws::law_split_at_the_first_mark(head, '=', rest);
    text_laws::law_white_space_is_trimmed(Seq::empty(), key, layout.behind_key);
    assert(text::trimmed(head) == key);
    let gap = match layout.comment {
        Some((gap, words)) => gap,
        None => Seq::empty(),
    };
    let value = layout.before_value + val + gap;
    assert(!value.contains('#')) by {
        if value.contains('#') {
            let i = choose|i: int| 0 <= i < value.len() && value[i] == '#';
            let a = layout.before_value.len();
            if i < a {
                assert(layout.before_value[i] == '#');
            } else if i < a + val.len() {
                assert(val[i - a] == '#');
            } else {
                assert(gap[i - a - val.len()] == '#');
            }
        }
    }
    match layout.comment {
        Some((g, words)) => {
            assert(rest =~= value + seq!['#'] + words);
            text_laws::law_split_at_the_first_mark(value, '#', words);
        },
        None => {
            assert(rest =~= value);
            text_laws::law_split_at_the_first_mark(value, '#', Seq::empty());
        },
    }
    assert(text::before_char(rest, '#') == value);
    text_laws::law_white_space_is_trimmed(layout.before_value, val, gap);
    assert(text::trimmed(value) == val);
}

proof fn lemma_decimal_is_item(n: nat)
    ensures
        is_item(render::decimal(n)),
{
    render::law_decimal_reads_back(n);
    assert forall|i: int| 0 <= i < render::decimal(n).len() implies !text::is_white_space(
        #[trigger] render::decimal(n)[i],
    ) && render::decimal(n)[i] != '=' && render::decimal(n)[i] != '#' by {
        assert(text::is_digit(render::decimal(n)[i]));
    }
}

proof fn lemma_signed_is_item(n: i32)
    ensures
        is_item(render::signed(n as int)),
{
    let s = render::signed(n as int);
    let m = if n < 0 {
        (-n) as nat
    } else {
        n as nat
    };
    lemma_decimal_is_item(m);
    assert forall|i: int| 0 <= i < s.len() implies !text::is_white_space(#[trigger] s[i]) && s[i]
        != '=' && s[i] != '#' by {
        if n < 0 && i > 0 {
            assert(s[i] == render::decimal(m)[i - 1]);
        }
    }
}

spec fn items_from(s: Seq<char>, i: int) -> bool
    decreases s.len() - i,
{
    i >= s.len() || (!text::is_white_space(s[i]) && s[i] != '=' && s[i] != '#' && items_from(s, i + 1))
}

proof fn lemma_items_from(s: Seq<char>, i: int)
    requires
        0 <= i,
        items_from(s, i),
    ensures
        forall|k: int|
            i <= k < s.len() ==> !text::is_white_space(#[trigger] s[k]) && s[k] != '=' && s[k] != '#',
    decreases s.len() - i,
{
    if i < s.len() {
        lemma_items_from(s, i + 1);
    }
}

proof fn lemma_words_are_items()
    ensures
        is_item("t_idle_sec"@),
        is_item("lru_protect_depth"@),
        is_item("mem_critical_percent"@),
        is_item("fg_lru_max_depth"@),
        is_item("screen_off_harvest"@),
        is_item("max_kills_per_pass"@),
        is_item("min_oom_score_adj"@),
        is_item("log_enabled"@),
        is_item("true"@),
        is_item("false"@),
{
    reveal_with_fuel(items_from, 22);
    reveal_strlit("t_idle_sec");
    reveal_strlit("lru_protect_depth");
    reveal_strlit("mem_critical_percent");
    reveal_strlit("fg_lru_max_depth");
    reveal_strlit("screen_off_harvest");
    reveal_strlit("max_kills_per_pass");
    reveal_strlit("min_oom_score_adj");
    reveal_strlit("log_enabled");
    reveal_strlit("true");
    reveal_strlit("false");
    lemma_items_from("t_idle_sec"@, 0);
    lemma_items_from("lru_protect_depth"@, 0);
    lemma_items_from("mem_critical_percent"@, 0);
    lemma_items_from("fg_lru_max_depth"@, 0);
    lemma_items_from("screen_off_harvest"@, 0);
    lemma_items_from("max_kills_per_pass"@, 0);
    lemma_items_from("min_oom_score_adj"@, 0);
    lemma_items_from("log_enabled"@, 0);
    lemma_items_from("true"@, 0);
    lemma_items_from("false"@, 0);
}

proof fn lemma_keys_differ()
    ensures
        "t_idle_sec"@.len() == 10 && "lru_protect_depth"@.len() == 17,
        "mem_critical_percent"@.len() == 20 && "fg_lru_max_depth"@.len() == 16,
        "screen_off_harvest"@.len() == 18 && "max_kills_per_pass"@.len() == 18,
        "min_oom_score_adj"@.len() == 17 && "log_enabled"@.len() == 11,
        "screen_off_harvest"@[0] == 's' && "max_kills_per_pass"@[0] == 'm',
        "lru_protect_depth"@[0] == 'l' && "min_oom_score_adj"@[0] == 'm',
        "true"@.len() == 4 && "false"@.len() == 5,
{
    reveal_strlit("t_idle_sec");
    reveal_strlit("lru_protect_depth");
    reveal_strlit("mem_critical_percent");
    reveal_strlit("fg_lru_max_depth");
    reveal_strlit("screen_off_harvest");
    reveal_strlit("max_kills_per_pass");
    reveal_strlit("min_oom_score_adj");
    reveal_strlit("log_enabled");
    reveal_strlit("true");
    reveal_strlit("false");
}

/// A line `key = number` sets the parameter to the number, whatever it was, and leaves the others, whatever
/// white space and comment stand on the line.
pub proof fn law_lines_set_numbers(
    config: RuntimeConfig,
    layout: Layout,
    seconds: u64,
    percent: u64,
    protected: usize,
    depth: usize,
)
    requires
        layout.wf(),
    ensures
        config.after_line(layout.line("t_idle_sec"@, render::decimal(seconds as nat)))
            == (RuntimeConfig { t_idle_sec: seconds, ..config }),
        config.after_line(layout.line("mem_critical_percent"@, render::decimal(percent as nat)))
            == (RuntimeConfig { mem_critical_percent: percent, ..config }),
        config.after_line(layout.line("lru_protect_depth"@, render::decimal(protected as nat)))
            == (RuntimeConfig { lru_protect_depth: protected, ..config }),
        config.after_line(layout.line("fg_lru_max_depth"@, render::decimal(depth as nat)))
            == (RuntimeConfig { fg_lru_max_depth: depth, ..config }),
{
    lemma_words_are_items();
    lemma_keys_differ();
    lemma_decimal_is_item(seconds as nat);
    lemma_decimal_is_item(percent as nat);
    lemma_decimal_is_item(protected as nat);
    lemma_decimal_is_item(depth as nat);
    render::law_decimal_reads_back(seconds as nat);
    render::law_decimal_reads_back(percent as nat);
    render::law_decimal_reads_back(protected as nat);
    render::law_decimal_reads_back(depth as nat);
    lemma_line(config, layout, "t_idle_sec"@, render::decimal(seconds as nat));
    lemma_line(config, layout, "mem_critical_percent"@, render::decimal(percent as nat));
    lemma_line(config, layout, "lru_protect_depth"@, render::decimal(protected as nat));
    lemma_line(config, layout, "fg_lru_max_depth"@, render::decimal(depth as nat));
}

/// A line `max_kills_per_pass = number` sets the parameter to the number, or to 1 where that is 0; a line
/// `min_oom_score_adj = number` sets it to the number, or to the nearest one from 500 to 900. The others stay.
pub proof fn law_lines_set_bounded_numbers(
    config: RuntimeConfig,
    layout: Layout,
    kills: usize,
    adj: i32,
)
    requires
        layout.wf(),
    ensures
        config.after_line(layout.line("max_kills_per_pass"@, render::decimal(kills as nat)))
            == (RuntimeConfig {
            max_kills_per_pass: if kills >= 1 {
                kills
            } else {
                1
            },
            ..config
        }),
        500 <= adj <= 900 ==> config.after_line(
            layout.line("min_oom_score_adj"@, render::signed(adj as int)),
        ) == (RuntimeConfig { min_oom_score_adj: adj, ..config }),
        adj < 500 ==> config.after_line(
            layout.line("min_oom_score_adj"@, render::signed(adj as int)),
        ) == (RuntimeConfig { min_oom_score_adj: 500, ..config }),
        adj > 900 ==> config.after_line(
            layout.line("min_oom_score_adj"@, render::signed(adj as int)),
        ) == (RuntimeConfig { min_oom_score_adj: 900, ..config }),
{
    lemma_words_are_items();
    lemma_keys_differ();
    lemma_decimal_is_item(kills as nat);
    lemma_signed_is_item(adj);
    render::law_decimal_reads_back(kills as nat);
    render::law_signed_reads_back(adj);
    lemma_line(config, layout, "max_kills_per_pass"@, render::decimal(kills as nat));
    lemma_line(config, layout, "min_oom_score_adj"@, render::signed(adj as int));
}

/// A line `key = true` switches the parameter on and a line `key = false` switches it off, whatever it was, and
/// the others stay.
pub proof fn law_lines_set_switches(config: RuntimeConfig, layout: Layout)
    requires
        layout.wf(),
    ensures
        config.after_line(layout.line("screen_off_harvest"@, "true"@)) == (RuntimeConfig {
            screen_off_harvest: true,
            ..config
        }),
        config.after_line(layout.line("screen_off_harvest"@, "false"@)) == (RuntimeConfig {
            screen_off_harvest: false,
            ..config
        }),
        config.after_line(layout.line("log_enabled"@, "true"@)) == (RuntimeConfig {
            log_enabled: true,
            ..config
        }),
        config.after_line(layout.line("log_enabled"@, "false"@)) == (RuntimeConfig {
            log_enabled: false,
            ..config
        }),
{
    lemma_words_are_items();
    lemma_keys_differ();
    lemma_line(config, layout, "screen_off_harvest"@, "true"@);
    lemma_line(config, layout, "screen_off_harvest"@, "false"@);
    lemma_line(config, layout, "log_enabled"@, "true"@);
    lemma_line(config, layout, "log_enabled"@, "false"@);
}

/// A line that sets a number to a text in which a letter stands behind the first character changes nothing, and
/// neither does one that sets a switch to anything but `true` and `false`.
pub proof fn law_wrong_values_change_nothing(
    config: RuntimeConfig,
    layout: Layout,
    key: Seq<char>,
    val: Seq<char>,
    i: int,
)
    requires
        layout.wf(),
        key.len() > 0 && val.len() > 0,
        forall|i: int|
            0 <= i < key.len() ==> !text::is_white_space(#[trigger] key[i]) && key[i] != '=' && key[i]
                != '#',
        forall|i: int|
            0 <= i < val.len() ==> !text::is_white_space(#[trigger] val[i]) && val[i] != '=' && val[i]
                != '#',
    ensures
        0 < i < val.len() && text::is_ascii_letter(val[i]) && key != "screen_off_harvest"@ && key
            != "log_enabled"@ ==> config.after_line(layout.line(key, val)) == config,
        val != "true"@ && val != "false"@ && (key == "screen_off_harvest"@ || key
            == "log_enabled"@) ==> config.after_line(layout.line(key, val)) == config,
{
    lemma_line(config, layout, key, val);
    lemma_keys_differ();
    text_laws::law_what_is_no_number(val, u64::MAX as nat, i);
    text_laws::law_what_is_no_number(val, usize::MAX as nat, i);
}

/// A key that is none of the parameters changes nothing.
pub proof fn law_unknown_keys_change_nothing(
    config: RuntimeConfig,
    layout: Layout,
    key: Seq<char>,
    val: Seq<char>,
)
    requires
        layout.wf(),
        key.len() > 0 && val.len() > 0,
        forall|i: int|
            0 <= i < key.len() ==> !text::is_white_space(#[trigger] key[i]) && key[i] != '=' && key[i]
                != '#',
        forall|i: int|
            0 <= i < val.len() ==> !text::is_white_space(#[trigger] val[i]) && val[i] != '=' && val[i]
                != '#',
        key != "t_idle_sec"@ && key != "lru_protect_depth"@ && key != "mem_critical_percent"@,
        key != "fg_lru_max_depth"@ && key != "screen_off_harvest"@ && key != "max_kills_per_pass"@,
        key != "min_oom_score_adj"@ && key != "log_enabled"@,
    ensures
        config.after_line(layout.line(key, val)) == config,
{
    lemma_line(config, layout, key, val);
}

/// A comment changes nothing, even where it looks like a setting, and neither does a line without an equals
/// sign.
pub proof fn law_comments_change_nothing(
    config: RuntimeConfig,
    lead: Seq<char>,
    words: Seq<char>,
    line: Seq<char>,
)
    requires
        blank(lead),
        !line.contains('='),
    ensures
        config.after_line(lead + seq!['#'] + words) == config,
        config.after_line(line) == config,
{
    let s = lead + seq!['#'] + words;
    let p = text::white();
    assert forall|i: int| 0 <= i < lead.len() implies !text::not(p)(#[trigger] s[i]) by {
        assert(s[i] == lead[i]);
    }
    assert(s[lead.len() as int] == '#');
    text::lemma_first_index_is(s, text::not(p), lead.len() as int);
    let rest = s.skip(lead.len() as int);
    assert(rest[0] == '#');
    text::lemma_last_index(rest, text::not(p));
    assert(text::last_index(rest, text::not(p)) >= 0) by {
        if text::last_index(rest, text::not(p)) < 0 {
            assert(!text::not(p)(rest[0]));
        }
    }
    assert(text::trimmed(s)[0] == '#');
    text_laws::law_trimmed_is_part_of_the_text(line);
    let t = text::trimmed(line);
    assert(!t.contains('=')) by {
        if t.contains('=') {
            let k = choose|k: int| 0 <= k < t.len() && t[k] == '=';
            let (a, b) = choose|a: int, b: int|
                #![trigger line.subrange(a, b)]
                0 <= a <= b <= line.len() && t == line.subrange(a, b) && (forall|i: int|
                    0 <= i < a || b <= i < line.len() ==> text::is_white_space(#[trigger] line[i]));
            assert(line[a + k] == '=');
        }
    }
    text_laws::law_split_at_the_first_mark(t, '=', Seq::empty());
}

/// The lines of a file are read from the first to the last: each one changes what those before it left.
pub proof fn law_later_lines_count(config: RuntimeConfig, lines: Seq<Seq<char>>, last: Seq<char>)
    ensures
        config.after_lines(lines.push(last)) == config.after_lines(lines).after_line(last),
        config.after_lines(Seq::empty()) == config,
{
    let one = seq![last];
    assert(lines.push(last) =~= lines + one);
    config::law_lines_in_sequence(config, lines, one);
    assert(one.drop_first() =~= Seq::<Seq<char>>::empty());
    reveal_with_fuel(RuntimeConfig::after_lines, 2);
}

/// What holds until a file says otherwise.
pub proof fn law_standard_parameters()
    ensures
        ({
            let c = RuntimeConfig::standard();
            &&& c.t_idle_sec == 180
            &&& c.lru_protect_depth == 3
            &&& c.mem_critical_percent == 10
            &&& c.fg_lru_max_depth == 10
            &&& c.screen_off_harvest
            &&& c.max_kills_per_pass == 2
            &&& c.min_oom_score_adj == 900
            &&& c.log_enabled
        }),
{
}

// ---------------------------------------------------------------------------
// Lists
// ---------------------------------------------------------------------------
/// A name is in a list where a line holds it, with white space around it at most, and where it is neither blank
/// nor a comment.
pub proof fn law_lists_hold_the_names_of_their_lines(lines: Seq<Seq<char>>, name: Name)
    ensures
        setup::entries(lines).contains(name) <==> name.len() > 0 && name[0] != '#' && exists|i: int|
            0 <= i < lines.len() && text::trimmed(#[trigger] lines[i]) == name,
    decreases lines.len(),
{
    if lines.len() > 0 {
        let head = lines.drop_last();
        law_lists_hold_the_names_of_their_lines(head, name);
        if exists|i: int| 0 <= i < head.len() && text::trimmed(#[trigger] head[i]) == name {
            let i = choose|i: int| 0 <= i < head.len() && text::trimmed(#[trigger] head[i]) == name;
            assert(text::trimmed(lines[i]) == name);
        }
        if text::trimmed(lines.last()) == name {
            assert(text::trimmed(lines[lines.len() - 1]) == name);
        }
        if exists|i: int| 0 <= i < lines.len() && text::trimmed(#[trigger] lines[i]) == name {
            let i = choose|i: int| 0 <= i < lines.len() && text::trimmed(#[trigger] lines[i]) == name;
            if i < head.len() {
                assert(text::trimmed(head[i]) == name);
            }
        }
    }
}

/// A new configuration takes the place of the old one: the lists hold what their files say and nothing of
/// what they held before; a list that could not be read is empty; parameters that no file sets stay. Nothing
/// else changes.
pub proof fn law_a_reload_takes_over_the_files(
    m: DaemonModel,
    config: Option<Seq<char>>,
    exclude: Option<Seq<char>>,
    games: Option<Seq<char>>,
    name: Name,
)
    ensures
        ({
            let after = m.after_reload(config, exclude, games);
            &&& exclude is None ==> !after.user_exclusions.contains(name)
            &&& games is None ==> !after.games.contains(name)
            &&& config is None ==> after.config == m.config
            &&& exclude matches Some(s) ==> (after.user_exclusions.contains(name) <==> name.len() > 0
                && name[0] != '#' && exists|i: int|
                0 <= i < text::lines(s).len() && text::trimmed(#[trigger] text::lines(s)[i]) == name)
            &&& games matches Some(s) ==> (after.games.contains(name) <==> name.len() > 0 && name[0]
                != '#' && exists|i: int|
                0 <= i < text::lines(s).len() && text::trimmed(#[trigger] text::lines(s)[i]) == name)
            &&& config matches Some(s) ==> after.config == m.config.after_lines(text::lines(s))
            &&& after == (DaemonModel {
                config: after.config,
                user_exclusions: after.user_exclusions,
                games: after.games,
                ..m
            })
        }),
{
    if let Some(s) = exclude {
        law_lists_hold_the_names_of_their_lines(text::lines(s), name);
    }
    if let Some(s) = games {
        law_lists_hold_the_names_of_their_lines(text::lines(s), name);
    }
}

// ---------------------------------------------------------------------------
// Paths
// ---------------------------------------------------------------------------
/// The files lie in `mlmk` below the directory of the module, where it is known, and at a fixed place
/// otherwise. White space around the directory and slashes at its end do not count.
pub proof fn law_where_the_files_lie(
    left: Seq<char>,
    path: Seq<char>,
    slashes: Seq<char>,
    right: Seq<char>,
)
    requires
        blank(left) && blank(right),
        path.len() > 0 && path.last() != '/',
        !text::is_white_space(path[0]) && !text::is_white_space(path.last()),
        forall|i: int| 0 <= i < slashes.len() ==> #[trigger] slashes[i] == '/',
    ensures
        config::base_directory(Some(left + (path + slashes) + right)) == path + "/mlmk"@,
        config::base_directory(None) == "/data/local/tmp/mlmk"@,
        config::base_directory(Some(left)) == "/data/local/tmp/mlmk"@,
{
    let s = path + slashes;
    if slashes.len() > 0 {
        assert(s.last() == slashes[slashes.len() - 1]);
    } else {
        assert(s =~= path);
    }
    assert(s[0] == path[0]);
    text_laws::law_white_space_is_trimmed(left, s, right);
    text_laws::law_white_space_is_trimmed(left, Seq::empty(), Seq::empty());
    assert(left + Seq::<char>::empty() =~= left);
    let p = text::is_char('/');
    let k = path.len() - 1;
    assert forall|i: int| k < i < s.len() implies !text::not(p)(#[trigger] s[i]) by {
        assert(s[i] == slashes[i - path.len()]);
    }
    assert(s[k] == path.last());
    text::lemma_last_index_is(s, text::not(p), k);
    assert(s.take(k + 1) =~= path);
}

/// A number that does not fit its parameter changes nothing: it is not cut off.
pub proof fn law_numbers_that_do_not_fit_change_nothing(
    config: RuntimeConfig,
    layout: Layout,
    key: Seq<char>,
    n: nat,
)
    requires
        layout.wf(),
        n > u64::MAX,
        key == "t_idle_sec"@ || key == "lru_protect_depth"@ || key == "mem_critical_percent"@ || key
            == "fg_lru_max_depth"@ || key == "max_kills_per_pass"@ || key == "min_oom_score_adj"@,
    ensures
        config.after_line(layout.line(key, render::decimal(n))) == config,
{
    lemma_words_are_items();
    lemma_keys_differ();
    lemma_decimal_is_item(n);
    render::law_decimal_reads_back(n);
    lemma_line(config, layout, key, render::decimal(n));
    let d = render::decimal(n);
    assert(text::is_digit(d[0]));
    assert(text::without_plus(d) == d);
}

/// The files of the daemon below its directory, whatever slashes that ends with.
pub proof fn law_names_of_the_files(
    paths: config::ConfigPaths,
    root: Seq<char>,
    slashes: Seq<char>,
)
    requires
        paths.lies_in(root + slashes),
        root.len() > 0 ==> root.last() != '/',
        forall|i: int| 0 <= i < slashes.len() ==> #[trigger] slashes[i] == '/',
    ensures
        paths.base_dir@ == root,
        paths.config_dir@ == root + "/config"@,
        paths.logs_dir@ == root + "/logs"@,
        paths.config_file@ == root + "/config"@ + "/daemon.conf"@,
        paths.exclude_file@ == root + "/config"@ + "/exclude.list"@,
        paths.games_file@ == root + "/config"@ + "/games.list"@,
        paths.operations_log@ == root + "/logs"@ + "/operations.log"@,
{
    let s = root + slashes;
    let p = text::is_char('/');
    let k = root.len() - 1;
    assert forall|i: int| k < i < s.len() implies !text::not(p)(#[trigger] s[i]) by {
        assert(s[i] == slashes[i - root.len()]);
    }
    if k >= 0 {
        assert(s[k] == root.last());
    }
    text::lemma_last_index_is(s, text::not(p), k);
    assert(s.take(k + 1) =~= root);
}

/// A key without a value changes nothing.
pub proof fn law_missing_values_change_nothing(config: RuntimeConfig, key: Seq<char>)
    requires
        key.len() > 0,
        forall|i: int|
            0 <= i < key.len() ==> !text::is_white_space(#[trigger] key[i]) && key[i] != '=' && key[i]
                != '#',
    ensures
        config.after_line(key + seq!['=']) == config,
{
    let s = key + seq!['='];
    let none = Seq::<char>::empty();
    assert(s[0] == key[0] && s.last() == '=');
    text_laws::law_white_space_is_trimmed(none, s, none);
    assert(!key.contains('='));
    text_laws::law_split_at_the_first_mark(key, '=', none);
    assert(key + seq!['='] + none =~= s);
    text_laws::law_split_at_the_first_mark(none, '#', none);
    text_laws::law_white_space_is_trimmed(none, none, none);
    text_laws::law_what_is_no_number(none, u64::MAX as nat, 0);
    text_laws::law_what_is_no_number(none, usize::MAX as nat, 0);
    lemma_keys_differ();
}

} // verus!
