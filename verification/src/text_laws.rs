//! What trimming, splitting and reading numbers give, on texts that are put together from parts.
use vstd::prelude::*;

use crate::text;

verus! {

/// Of the ASCII characters, the space, the tab, the line feed, the vertical tab, the form feed and the
/// carriage return are white space, and no other. Outside ASCII it is the next line, the no-break space, the
/// space mark of Ogham, the spaces from the en quad to the hair space, the separators of lines and of
/// paragraphs, the narrow no-break space, the mathematical space, and the wide space of East Asian texts.
pub proof fn law_white_space(c: char)
    ensures
        (c as u32) >= 0x80 ==> (text::is_white_space(c) <==> c == '\u{85}' || c == '\u{a0}' || c
            == '\u{1680}' || '\u{2000}' <= c <= '\u{200a}' || c == '\u{2028}' || c == '\u{2029}' || c
            == '\u{202f}' || c == '\u{205f}' || c == '\u{3000}'),
        (c as u32) < 0x80 ==> (text::is_white_space(c) <==> c == ' ' || c == '\t' || c == '\n' || c
            == '\x0b' || c == '\x0c' || c == '\r'),
        text::is_ascii_space(c) <==> c == ' ' || c == '\t' || c == '\n' || c == '\x0c' || c == '\r',
{
}

/// Trimming takes away what is put around a text, and nothing of the text itself.
pub proof fn law_trimming_takes_the_padding(
    left: Seq<char>,
    middle: Seq<char>,
    right: Seq<char>,
    p: spec_fn(char) -> bool,
)
    requires
        forall|i: int| 0 <= i < left.len() ==> p(#[trigger] left[i]),
        forall|i: int| 0 <= i < right.len() ==> p(#[trigger] right[i]),
        middle.len() > 0 ==> !p(middle[0]) && !p(middle.last()),
    ensures
        text::trim_by(left + middle + right, p) == middle,
{
    let s = left + middle + right;
    let a = left.len() as int;
    if middle.len() > 0 {
        assert forall|i: int| 0 <= i < a implies !text::not(p)(#[trigger] s[i]) by {
            assert(s[i] == left[i]);
        }
        assert(s[a] == middle[0]);
        text::lemma_first_index_is(s, text::not(p), a);
        let rest = s.skip(a);
        assert(rest =~= middle + right);
        let last = middle.len() - 1;
        assert forall|i: int| last < i < rest.len() implies !text::not(p)(#[trigger] rest[i]) by {
            assert(rest[i] == right[i - middle.len()]);
        }
        assert(rest[last] == middle[last]);
        text::lemma_last_index_is(rest, text::not(p), last);
        assert(rest.take(last + 1) =~= middle);
    } else {
        assert forall|i: int| 0 <= i < s.len() implies !text::not(p)(#[trigger] s[i]) by {
            if i < a {
                assert(s[i] == left[i]);
            } else {
                assert(s[i] == right[i - a]);
            }
        }
        text::lemma_first_index_is(s, text::not(p), s.len() as int);
        assert(s.skip(s.len() as int) =~= Seq::<char>::empty());
        assert(text::trim_by(s, p) =~= middle);
    }
}

/// White space around a text is taken away, and a text without white space at its ends stays as it is.
pub proof fn law_white_space_is_trimmed(left: Seq<char>, middle: Seq<char>, right: Seq<char>)
    requires
        forall|i: int| 0 <= i < left.len() ==> text::is_white_space(#[trigger] left[i]),
        forall|i: int| 0 <= i < right.len() ==> text::is_white_space(#[trigger] right[i]),
        is_bare(middle),
    ensures
        text::trimmed(left + middle + right) == middle,
        text::trimmed(left + middle) == middle,
        text::trimmed(middle + right) == middle,
        text::trimmed(middle) == middle,
{
    let none = Seq::<char>::empty();
    law_trimming_takes_the_padding(left, middle, right, text::white());
    law_trimming_takes_the_padding(left, middle, none, text::white());
    law_trimming_takes_the_padding(none, middle, right, text::white());
    law_trimming_takes_the_padding(none, middle, none, text::white());
    assert(left + middle + none =~= left + middle);
    assert(none + middle + right =~= middle + right);
    assert(none + middle + none =~= middle);
}

/// Whether no white space stands at the ends of `s`.
pub open spec fn is_bare(s: Seq<char>) -> bool {
    s.len() > 0 ==> !text::is_white_space(s[0]) && !text::is_white_space(s.last())
}

/// What is left by trimming stands in the text, has no white space at its ends, and nothing but white space was
/// around it.
pub proof fn law_trimmed_is_part_of_the_text(s: Seq<char>)
    ensures
        is_bare(text::trimmed(s)),
        exists|a: int, b: int|
            #![trigger s.subrange(a, b)]
            0 <= a <= b <= s.len() && text::trimmed(s) == s.subrange(a, b) && (forall|i: int|
                0 <= i < a || b <= i < s.len() ==> text::is_white_space(#[trigger] s[i])),
{
    let p = text::white();
    text::lemma_first_index(s, text::not(p));
    let a = text::first_index(s, text::not(p));
    let rest = s.skip(a);
    text::lemma_last_index(rest, text::not(p));
    let n = text::last_index(rest, text::not(p)) + 1;
    if a < s.len() {
        assert(rest[0] == s[a]);
        assert(n > 0) by {
            if n == 0 {
                assert(!text::not(p)(rest[0]));
            }
        }
        assert(text::trimmed(s) =~= s.subrange(a, a + n));
        assert forall|i: int| 0 <= i < a || a + n <= i < s.len() implies text::is_white_space(
            #[trigger] s[i],
        ) by {
            if i < a {
                assert(!text::not(p)(s[i]));
            } else {
                assert(rest[i - a] == s[i]);
                assert(!text::not(p)(rest[i - a]));
            }
        }
    } else {
        assert(text::trimmed(s) =~= s.subrange(a, a));
        assert forall|i: int| 0 <= i < a implies text::is_white_space(#[trigger] s[i]) by {
            assert(!text::not(p)(s[i]));
        }
    }
}

/// A text is split at the first mark: what stands before it holds none, and the rest may hold more of them.
pub proof fn law_split_at_the_first_mark(head: Seq<char>, mark: char, rest: Seq<char>)
    requires
        !head.contains(mark),
    ensures
        text::split_at_char(head + seq![mark] + rest, mark) == Some((head, rest)),
        text::before_char(head + seq![mark] + rest, mark) == head,
        text::split_at_char(head, mark) is None,
        text::before_char(head, mark) == head,
{
    let s = head + seq![mark] + rest;
    let n = head.len() as int;
    let p = text::is_char(mark);
    assert forall|i: int| 0 <= i < n implies !p(#[trigger] s[i]) by {
        assert(s[i] == head[i]);
        assert(head.contains(head[i]));
    }
    assert(s[n] == mark);
    text::lemma_first_index_is(s, p, n);
    assert(s.take(n) =~= head);
    assert(s.skip(n + 1) =~= rest);
    assert forall|i: int| 0 <= i < n implies !p(#[trigger] head[i]) by {
        assert(head.contains(head[i]));
    }
    text::lemma_first_index_is(head, p, n);
    assert(head.take(n) =~= head);
}

/// What stands before the first mark holds none.
pub proof fn law_nothing_before_the_first_mark(s: Seq<char>, mark: char)
    ensures
        !text::before_char(s, mark).contains(mark),
        text::before_char(s, mark).is_prefix_of(s),
{
    let p = text::is_char(mark);
    text::lemma_first_index(s, p);
    let head = text::before_char(s, mark);
    if head.contains(mark) {
        let i = choose|i: int| 0 <= i < head.len() && head[i] == mark;
        assert(!p(s[i]));
    }
    assert(head =~= s.subrange(0, head.len() as int));
}

// ---------------------------------------------------------------------------
// Lines
// ---------------------------------------------------------------------------
/// How a line ends.
pub open spec fn line_end(crlf: bool) -> Seq<char> {
    if crlf {
        seq!['\r', '\n']
    } else {
        seq!['\n']
    }
}

/// The lines one behind the other, each with its end.
pub open spec fn ended_lines(parts: Seq<Seq<char>>, crlf: bool) -> Seq<char>
    decreases parts.len(),
{
    if parts.len() == 0 {
        Seq::empty()
    } else {
        parts[0] + line_end(crlf) + ended_lines(parts.drop_first(), crlf)
    }
}

/// Whether `s` can be a line: no line feed stands in it, and no carriage return at its end.
pub open spec fn is_line(s: Seq<char>) -> bool {
    !s.contains('\n') && (s.len() > 0 ==> s.last() != '\r')
}

/// The lines of a text are those that it was made of, whichever way they end, and the last one need not end.
pub proof fn law_lines_are_the_parts(parts: Seq<Seq<char>>, last: Seq<char>, crlf: bool)
    requires
        forall|i: int| 0 <= i < parts.len() ==> is_line(#[trigger] parts[i]),
        !last.contains('\n'),
    ensures
        text::lines(ended_lines(parts, crlf) + last) == if last.len() > 0 {
            parts.push(last)
        } else {
            parts
        },
    decreases parts.len(),
{
    let s = ended_lines(parts, crlf) + last;
    let p = text::is_char('\n');
    if parts.len() == 0 {
        assert(s =~= last);
        if last.len() > 0 {
            assert forall|i: int| 0 <= i < s.len() implies !p(#[trigger] s[i]) by {
                assert(last.contains(last[i]));
            }
            text::lemma_first_index_is(s, p, s.len() as int);
            assert(text::first_line(s) =~= s);
            assert(text::lines(text::after_line(s)) =~= Seq::<Seq<char>>::empty());
            assert(text::lines(s) =~= parts.push(last));
        } else {
            assert(text::lines(s) =~= parts);
        }
    } else {
        let head = parts[0];
        let rest = parts.drop_first();
        assert(is_line(parts[0]));
        assert forall|i: int| 0 <= i < rest.len() implies is_line(#[trigger] rest[i]) by {
            assert(rest[i] == parts[i + 1]);
        }
        law_lines_are_the_parts(rest, last, crlf);
        let at = head.len() + line_end(crlf).len() - 1;
        assert forall|i: int| 0 <= i < at implies !p(#[trigger] s[i]) by {
            if i < head.len() {
                assert(s[i] == head[i]);
                assert(head.contains(head[i]));
            }
        }
        assert(s[at] == '\n');
        text::lemma_first_index_is(s, p, at);
        if crlf {
            assert(s[at - 1] == '\r');
            assert(s.take(at - 1) =~= head);
        } else {
            if head.len() > 0 {
                assert(s[at - 1] == head.last());
            }
            assert(s.take(at) =~= head);
        }
        assert(text::first_line(s) == head);
        assert(s.skip(at + 1) =~= ended_lines(rest, crlf) + last);
        assert(text::lines(s) =~= seq![head] + text::lines(ended_lines(rest, crlf) + last));
        if last.len() > 0 {
            assert(seq![head] + rest.push(last) =~= parts.push(last));
        } else {
            assert(seq![head] + rest =~= parts);
        }
    }
}

// ---------------------------------------------------------------------------
// Words
// ---------------------------------------------------------------------------
/// Whether every character of `s` is a gap.
pub open spec fn all_gap(s: Seq<char>, gap: spec_fn(char) -> bool) -> bool {
    forall|i: int| 0 <= i < s.len() ==> gap(#[trigger] s[i])
}

/// Whether `s` is a word: it has a character, and none of them is a gap.
pub open spec fn is_word(s: Seq<char>, gap: spec_fn(char) -> bool) -> bool {
    s.len() > 0 && forall|i: int| 0 <= i < s.len() ==> !gap(#[trigger] s[i])
}

/// The first word of a text is the one that it starts with behind a gap, and the others are those of the rest.
pub proof fn law_first_word(
    lead: Seq<char>,
    word: Seq<char>,
    rest: Seq<char>,
    gap: spec_fn(char) -> bool,
)
    requires
        all_gap(lead, gap),
        is_word(word, gap),
        rest.len() > 0 ==> gap(rest[0]),
    ensures
        text::words_by(lead + word + rest, gap) == seq![word] + text::words_by(rest, gap),
        text::word_and_rest(lead + word + rest, gap) == Some((word, rest)),
        text::words_by(lead, gap).len() == 0,
{
    let s = lead + word + rest;
    let a = lead.len() as int;
    assert forall|i: int| 0 <= i < a implies !text::not(gap)(#[trigger] s[i]) by {
        assert(s[i] == lead[i]);
    }
    assert(s[a] == word[0]);
    text::lemma_first_index_is(s, text::not(gap), a);
    let tail = s.skip(a);
    assert(tail =~= word + rest);
    let n = word.len() as int;
    assert forall|i: int| 0 <= i < n implies !gap(#[trigger] tail[i]) by {
        assert(tail[i] == word[i]);
    }
    if rest.len() > 0 {
        assert(tail[n] == rest[0]);
    }
    text::lemma_first_index_is(tail, gap, n);
    assert(tail.take(n) =~= word);
    assert(tail.skip(n) =~= rest);
    assert forall|i: int| 0 <= i < a implies !text::not(gap)(#[trigger] lead[i]) by {}
    text::lemma_first_index_is(lead, text::not(gap), a);
    assert(lead.skip(a) =~= Seq::<char>::empty());
}

/// A word behind a gap is the last one, whatever stands before the gap.
pub proof fn law_last_word(head: Seq<char>, blank: char, word: Seq<char>, gap: spec_fn(char) -> bool)
    requires
        gap(blank),
        is_word(word, gap),
    ensures
        text::words_by(head + seq![blank] + word, gap) == text::words_by(head, gap).push(word),
    decreases head.len(),
{
    let s = head + seq![blank] + word;
    text::lemma_first_index(head, text::not(gap));
    let a = text::first_index(head, text::not(gap));
    if a == head.len() {
        let lead = head + seq![blank];
        assert forall|i: int| 0 <= i < lead.len() implies gap(#[trigger] lead[i]) by {
            if i < head.len() {
                assert(!text::not(gap)(head[i]));
            }
        }
        law_first_word(lead, word, Seq::empty(), gap);
        assert(lead + word + Seq::<char>::empty() =~= s);
        assert(head.skip(a) =~= Seq::<char>::empty());
        let none = Seq::<char>::empty();
        assert(all_gap(none, gap));
        assert(text::trim_start_by(none, gap) =~= none);
        assert(text::words_by(none, gap) =~= Seq::<Seq<char>>::empty());
        assert(text::words_by(s, gap) =~= text::words_by(head, gap).push(word));
    } else {
        let lead = head.take(a);
        let tail = head.skip(a);
        assert(tail[0] == head[a]);
        text::lemma_first_index(tail, gap);
        let n = text::first_index(tail, gap);
        let first = tail.take(n);
        let rest = tail.skip(n);
        assert forall|i: int| 0 <= i < lead.len() implies gap(#[trigger] lead[i]) by {
            assert(!text::not(gap)(head[i]));
        }
        assert forall|i: int| 0 <= i < first.len() implies !gap(#[trigger] first[i]) by {
            assert(first[i] == tail[i]);
        }
        assert(n > 0);
        law_first_word(lead, first, rest, gap);
        assert(lead + first + rest =~= head);
        let longer = rest + seq![blank] + word;
        if rest.len() > 0 {
            assert(rest[0] == tail[n]);
            assert(longer[0] == rest[0]);
        } else {
            assert(longer[0] == blank);
        }
        law_first_word(lead, first, longer, gap);
        assert(lead + first + longer =~= s);
        law_last_word(rest, blank, word, gap);
        assert(seq![first] + text::words_by(rest, gap).push(word) =~= (seq![first]
            + text::words_by(rest, gap)).push(word));
    }
}

// ---------------------------------------------------------------------------
// Numbers
// ---------------------------------------------------------------------------
/// The first of the digits counts as often as a one with as many zeros behind it as there are other digits.
pub proof fn law_digits_count_by_their_place(first: char, rest: Seq<char>)
    requires
        '0' <= first <= '9',
    ensures
        text::decimal_value(seq![first] + rest) == (first as int - '0' as int)
            * vstd::arithmetic::power::pow(10, rest.len()) + text::decimal_value(rest),
    decreases rest.len(),
{
    let s = seq![first] + rest;
    let d = first as int - '0' as int;
    if rest.len() == 0 {
        vstd::arithmetic::power::lemma_pow0(10);
        assert(s.drop_last() =~= Seq::<char>::empty());
        reveal_with_fuel(text::decimal_value, 2);
    } else {
        let shorter = rest.drop_last();
        law_digits_count_by_their_place(first, shorter);
        assert(s.drop_last() =~= seq![first] + shorter);
        assert(s.last() == rest.last());
        let p = vstd::arithmetic::power::pow(10, shorter.len());
        reveal(vstd::arithmetic::power::pow);
        assert(vstd::arithmetic::power::pow(10, rest.len()) == 10 * p);
        assert(d * (10 * p) == 10 * (d * p)) by (nonlinear_arith);
    }
}

/// Digits are a number, with zeros in front or not, as far as the limit goes, and with a minus sign in front a
/// negative one.
pub proof fn law_what_is_a_number(s: Seq<char>, max: nat)
    requires
        s.len() > 0,
        forall|i: int| 0 <= i < s.len() ==> '0' <= #[trigger] s[i] <= '9',
    ensures
        text::decimal_value(s) <= max ==> text::unsigned_value(s, max) == Some(text::decimal_value(s)),
        text::decimal_value(s) > max ==> text::unsigned_value(s, max) is None,
        text::decimal_value(s) <= i32::MAX ==> text::signed_value(s) == Some(
            text::decimal_value(s) as int,
        ),
        text::decimal_value(s) > i32::MAX ==> text::signed_value(s) is None,
        text::decimal_value(s) <= 0x8000_0000 ==> text::signed_value(seq!['-'] + s) == Some(
            -text::decimal_value(s),
        ),
        text::decimal_value(s) > 0x8000_0000 ==> text::signed_value(seq!['-'] + s) is None,
{
    assert forall|i: int| 0 <= i < s.len() implies text::is_digit(#[trigger] s[i]) by {}
    assert(text::is_decimal(s));
    assert('0' <= s[0] <= '9');
    assert(text::without_plus(s) == s);
    assert((seq!['-'] + s).drop_first() =~= s);
}

/// A plus sign in front of a number changes nothing, a number above the limit is none, and neither is a text
/// with anything but digits in it.
pub proof fn law_what_is_no_number(s: Seq<char>, max: nat, i: int)
    ensures
        text::is_decimal(s) ==> text::unsigned_value(seq!['+'] + s, max) == text::unsigned_value(s, max),
        text::unsigned_value(s, max) is Some ==> text::unsigned_value(s, max)->0 <= max,
        0 < i < s.len() && !('0' <= s[i] <= '9') ==> text::unsigned_value(s, max) is None
            && text::signed_value(s) is None,
        s.len() == 0 ==> text::unsigned_value(s, max) is None && text::signed_value(s) is None,
        s.len() > 0 && !('0' <= s[0] <= '9') && s[0] != '+' ==> text::unsigned_value(s, max) is None,
        s.len() > 0 && !('0' <= s[0] <= '9') && s[0] != '+' && s[0] != '-' ==> text::signed_value(s)
            is None,
{
    if text::is_decimal(s) {
        assert((seq!['+'] + s).drop_first() =~= s);
        assert(text::is_digit(s[0]));
    }
    if 0 < i < s.len() && !('0' <= s[i] <= '9') {
        assert(!text::is_digit(s[i]));
        assert(s.drop_first()[i - 1] == s[i]);
        assert(!text::is_decimal(s.drop_first()));
        assert(!text::is_decimal(s));
    }
    if s.len() > 0 && !('0' <= s[0] <= '9') {
        assert(!text::is_digit(s[0]));
        assert(!text::is_decimal(s));
    }
}

proof fn lemma_ascii_letter(c: char)
    ensures
        c <= '\u{7f}' ==> text::letter(c) == text::is_ascii_letter(c),
{
}

/// The letters of ASCII are those from `a` to `z` and from `A` to `Z`, and the digits those from `0` to `9`.
/// A text has a letter where one of them stands in it; characters outside ASCII count for letters only where
/// any letter does.
pub proof fn law_letters_and_digits(s: Seq<char>, c: char, i: int)
    ensures
        text::is_ascii_letter(c) <==> 0x41 <= c as u32 <= 0x5a || 0x61 <= c as u32 <= 0x7a,
        text::is_digit(c) <==> 0x30 <= c as u32 <= 0x39,
        0 <= i < s.len() && ('A' <= s[i] <= 'Z' || 'a' <= s[i] <= 'z') ==> text::has_ascii_letter(s),
        (forall|k: int|
            0 <= k < s.len() ==> !('A' <= #[trigger] s[k] <= 'Z') && !('a' <= s[k] <= 'z'))
            ==> !text::has_ascii_letter(s),
        text::has_ascii_letter(s) ==> text::has_letter(s),
        (forall|k: int| 0 <= k < s.len() ==> #[trigger] s[k] <= '\u{7f}') && text::has_letter(s)
            ==> text::has_ascii_letter(s),
{
    if 0 <= i < s.len() && ('A' <= s[i] <= 'Z' || 'a' <= s[i] <= 'z') {
        assert(text::is_ascii_letter(s[i]));
    }
    if text::has_ascii_letter(s) {
        let k = choose|k: int| 0 <= k < s.len() && text::is_ascii_letter(#[trigger] s[k]);
        assert(text::letter(s[k]));
    }
    if text::has_letter(s) {
        let k = choose|k: int| 0 <= k < s.len() && text::letter(#[trigger] s[k]);
        lemma_ascii_letter(s[k]);
    }
}

/// A text is found at the first place at which it stands, and nowhere where it stands at none.
pub proof fn law_the_first_place_counts(s: Seq<char>, mark: Seq<char>, n: int)
    ensures
        text::occurs_at(s, mark, n) && (forall|i: int|
            0 <= i < n ==> !#[trigger] text::occurs_at(s, mark, i)) ==> text::first_occurrence(s, mark)
            == Some(n),
        (forall|i: int| !#[trigger] text::occurs_at(s, mark, i)) ==> text::first_occurrence(s, mark)
            is None,
{
    text::lemma_first_occurrence(s, mark);
    if let Some(i) = text::first_occurrence(s, mark) {
        if i < n {
            assert(text::occurs_at(s, mark, i));
        }
    }
}

} // verus!
