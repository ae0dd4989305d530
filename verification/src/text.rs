//! String primitives over the characters of a `&str`.
//!
//! Every function here is specified on the sequence of characters that a string
//! holds (its view), and runs in one pass over the bytes. Results borrow from the
//! argument: nothing is allocated.
use vstd::prelude::*;
use vstd::utf8::*;

verus! {

// ---------------------------------------------------------------------------
// Characters and bytes
// ---------------------------------------------------------------------------
/// Number of bytes that `c` takes in UTF-8.
pub open spec fn utf8_width(c: char) -> nat {
    if (c as u32) < 0x80 {
        1
    } else if (c as u32) < 0x800 {
        2
    } else if (c as u32) < 0x10000 {
        3
    } else {
        4
    }
}

pub proof fn lemma_encode_concat(a: Seq<char>, b: Seq<char>)
    ensures
        encode_utf8(a + b) == encode_utf8(a) + encode_utf8(b),
    decreases a.len(),
{
    if a.len() == 0 {
        assert(a + b =~= b);
        assert(encode_utf8(a) + encode_utf8(b) =~= encode_utf8(b));
    } else {
        assert((a + b).drop_first() =~= a.drop_first() + b);
        lemma_encode_concat(a.drop_first(), b);
        assert(encode_utf8(a + b) =~= encode_utf8(a) + encode_utf8(b));
    }
}

proof fn lemma_boundary_after_prefix(a: Seq<char>, b: Seq<char>)
    ensures
        is_char_boundary(encode_utf8(a + b), encode_utf8(a).len() as int),
    decreases a.len(),
{
    broadcast use encode_utf8_valid_utf8;

    let whole = a + b;
    lemma_encode_concat(a, b);
    if a.len() > 0 {
        encode_utf8_first_scalar(whole);
        assert(whole.drop_first() =~= a.drop_first() + b);
        assert(pop_first_scalar(encode_utf8(whole)) =~= encode_utf8(whole.drop_first()));
        lemma_boundary_after_prefix(a.drop_first(), b);
    }
}

pub proof fn lemma_encode_injective(a: Seq<char>, b: Seq<char>)
    requires
        encode_utf8(a) == encode_utf8(b),
    ensures
        a == b,
{
    encode_utf8_decode_utf8(a);
    encode_utf8_decode_utf8(b);
}

/// A prefix that is one character longer encodes to the bytes of that character more.
proof fn lemma_encode_step(s: Seq<char>, k: int)
    requires
        0 <= k < s.len(),
    ensures
        encode_utf8(s.take(k + 1)).len() == encode_utf8(s.take(k)).len() + utf8_width(s[k]),
        encode_utf8(s.take(k + 1)).len() <= encode_utf8(s).len(),
{
    let one = seq![s[k]];
    char_is_scalar(s[k]);
    assert(s.take(k + 1) =~= s.take(k) + one);
    lemma_encode_concat(s.take(k), one);
    assert(one.drop_first() =~= Seq::<char>::empty());
    assert(encode_utf8(one) =~= encode_scalar(one[0] as u32) + encode_utf8(one.drop_first()));
    assert(encode_utf8(one.drop_first()) =~= Seq::<u8>::empty());
    assert(s =~= s.take(k + 1) + s.skip(k + 1));
    lemma_encode_concat(s.take(k + 1), s.skip(k + 1));
}

/// A string holds at most as many characters as bytes.
pub proof fn lemma_chars_fit_bytes(s: Seq<char>)
    ensures
        s.len() <= encode_utf8(s).len(),
    decreases s.len(),
{
    if s.len() > 0 {
        lemma_chars_fit_bytes(s.drop_first());
    }
}

/// The characters that `bytes` encode, where they are valid UTF-8.
pub open spec fn utf8_text(bytes: Seq<u8>) -> Option<Seq<char>> {
    if valid_utf8(bytes) {
        Some(decode_utf8(bytes))
    } else {
        None
    }
}

/// Calls `std::str::from_utf8` and claims what its documentation says: bytes that are valid
/// UTF-8 come back as the string that they encode, and others do not.
#[verifier::external_body]
fn str_from_utf8(bytes: &[u8]) -> (r: Option<&str>)
    ensures
        match r {
            Some(s) => valid_utf8(bytes@) && encode_utf8(s@) == bytes@,
            None => !valid_utf8(bytes@),
        },
{
    std::str::from_utf8(bytes).ok()
}

/// The string that `bytes` encode, where they are valid UTF-8.
pub fn from_bytes(bytes: &[u8]) -> (r: Option<&str>)
    ensures
        match r {
            Some(s) => utf8_text(bytes@) == Some(s@),
            None => utf8_text(bytes@) is None,
        },
{
    let r = str_from_utf8(bytes);
    proof {
        if let Some(s) = r {
            encode_utf8_decode_utf8(s@);
        }
    }
    r
}

fn width_of(c: char) -> (w: usize)
    ensures
        w == utf8_width(c),
{
    let v: u32 = c as u32;
    if v < 0x80 {
        1
    } else if v < 0x800 {
        2
    } else if v < 0x10000 {
        3
    } else {
        4
    }
}

/// Splits `s` behind its first `count` characters.
pub fn split_chars(s: &str, count: usize) -> (parts: (&str, &str))
    requires
        count <= s@.len(),
    ensures
        parts.0@ == s@.take(count as int),
        parts.1@ == s@.skip(count as int),
{
    let mut offset: usize = 0;
    let mut passed: usize = 0;
    let mut rest = s.chars();
    let total: usize = s.as_bytes().len();
    assert(s@.take(0) =~= Seq::<char>::empty());
    assert(s@.skip(0) =~= s@);
    while passed < count
        invariant
            vstd::std_specs::iter::IteratorSpec::remaining(&rest) == s@.skip(passed as int),
            passed <= count <= s@.len(),
            total == encode_utf8(s@).len(),
            offset == encode_utf8(s@.take(passed as int)).len(),
            offset <= total,
        decreases count - passed,
    {
        if let Some(c) = rest.next() {
            proof {
                lemma_encode_step(s@, passed as int);
                assert(s@.skip(passed as int).drop_first() =~= s@.skip(passed + 1));
            }
            offset = offset + width_of(c);
        }
        passed = passed + 1;
    }
    proof {
        let a = s@.take(count as int);
        let b = s@.skip(count as int);
        assert(s@ =~= a + b);
        lemma_encode_concat(a, b);
        lemma_boundary_after_prefix(a, b);
    }
    let parts = s.split_at(offset);
    proof {
        let a = s@.take(count as int);
        let b = s@.skip(count as int);
        assert(encode_utf8(parts.0@) =~= encode_utf8(a));
        assert(encode_utf8(parts.1@) =~= encode_utf8(b));
        lemma_encode_injective(parts.0@, a);
        lemma_encode_injective(parts.1@, b);
    }
    parts
}

// ---------------------------------------------------------------------------
// Searching
// ---------------------------------------------------------------------------
/// Index of the first element that satisfies `p`; the length where none does.
pub open spec fn first_index<A>(s: Seq<A>, p: spec_fn(A) -> bool) -> int
    decreases s.len(),
{
    if s.len() == 0 || p(s[0]) {
        0
    } else {
        1 + first_index(s.drop_first(), p)
    }
}

/// Index of the last character that satisfies `p`; -1 where none does.
pub open spec fn last_index(s: Seq<char>, p: spec_fn(char) -> bool) -> int
    decreases s.len(),
{
    if s.len() == 0 || p(s.last()) {
        s.len() - 1
    } else {
        last_index(s.drop_last(), p)
    }
}

/// `first_index` is the one index before which nothing satisfies `p` and at which
/// either the sequence ends or `p` holds.
pub proof fn lemma_first_index<A>(s: Seq<A>, p: spec_fn(A) -> bool)
    ensures
        0 <= first_index(s, p) <= s.len(),
        forall|i: int| 0 <= i < first_index(s, p) ==> !p(#[trigger] s[i]),
        first_index(s, p) < s.len() ==> p(s[first_index(s, p)]),
    decreases s.len(),
{
    if s.len() > 0 && !p(s[0]) {
        let rest = s.drop_first();
        lemma_first_index(rest, p);
        assert forall|i: int| 0 <= i < first_index(s, p) implies !p(#[trigger] s[i]) by {
            if i > 0 {
                assert(s[i] == rest[i - 1]);
            }
        }
    }
}

pub proof fn lemma_first_index_is<A>(s: Seq<A>, p: spec_fn(A) -> bool, k: int)
    requires
        0 <= k <= s.len(),
        forall|i: int| 0 <= i < k ==> !p(#[trigger] s[i]),
        k < s.len() ==> p(s[k]),
    ensures
        first_index(s, p) == k,
{
    lemma_first_index(s, p);
    let f = first_index(s, p);
    if f < k {
        assert(p(s[f]));
    } else if k < f {
        assert(!p(s[k]));
    }
}

pub proof fn lemma_last_index_is(s: Seq<char>, p: spec_fn(char) -> bool, k: int)
    requires
        -1 <= k < s.len(),
        forall|i: int| k < i < s.len() ==> !p(#[trigger] s[i]),
        k >= 0 ==> p(s[k]),
    ensures
        last_index(s, p) == k,
    decreases s.len(),
{
    if s.len() > 0 && k < s.len() - 1 {
        assert(!p(s[s.len() - 1]));
        let rest = s.drop_last();
        assert forall|i: int| k < i < rest.len() implies !p(#[trigger] rest[i]) by {
            assert(rest[i] == s[i]);
        }
        lemma_last_index_is(rest, p, k);
    }
}

pub proof fn lemma_last_index(s: Seq<char>, p: spec_fn(char) -> bool)
    ensures
        -1 <= last_index(s, p) < s.len(),
        forall|i: int| last_index(s, p) < i < s.len() ==> !p(#[trigger] s[i]),
        last_index(s, p) >= 0 ==> p(s[last_index(s, p)]),
    decreases s.len(),
{
    if s.len() > 0 && !p(s.last()) {
        let rest = s.drop_last();
        lemma_last_index(rest, p);
        assert forall|i: int| last_index(s, p) < i < s.len() implies !p(#[trigger] s[i]) by {
            if i < s.len() - 1 {
                assert(s[i] == rest[i]);
            }
        }
    }
}

/// The predicate that holds of `wanted` alone.
pub open spec fn is_char(wanted: char) -> spec_fn(char) -> bool {
    |c: char| c == wanted
}

/// The predicate that holds of the characters in `set`.
pub open spec fn one_of(set: Seq<char>) -> spec_fn(char) -> bool {
    |c: char| set.contains(c)
}

/// The predicate that holds where `p` does not.
pub open spec fn not(p: spec_fn(char) -> bool) -> spec_fn(char) -> bool {
    |c: char| !p(c)
}

/// The predicate that holds of white space.
pub open spec fn white() -> spec_fn(char) -> bool {
    |c: char| is_white_space(c)
}

/// Whether `c` has the Unicode property `White_Space`.
#[verifier::allow_in_spec]
pub fn is_white_space(c: char) -> bool
    returns
        ({
            let v = c as u32;
            ||| 0x09 <= v <= 0x0d
            ||| v == 0x20
            ||| v == 0x85
            ||| v == 0xa0
            ||| v == 0x1680
            ||| 0x2000 <= v <= 0x200a
            ||| v == 0x2028
            ||| v == 0x2029
            ||| v == 0x202f
            ||| v == 0x205f
            ||| v == 0x3000
        }),
{
    let v: u32 = c as u32;
    (0x09 <= v && v <= 0x0d) || v == 0x20 || v == 0x85 || v == 0xa0 || v == 0x1680 || (0x2000 <= v
        && v <= 0x200a) || v == 0x2028 || v == 0x2029 || v == 0x202f || v == 0x205f || v == 0x3000
}

/// Whether `c` is one of the ASCII letters.
#[verifier::allow_in_spec]
pub fn is_ascii_letter(c: char) -> bool
    returns
        ('a' <= c && c <= 'z') || ('A' <= c && c <= 'Z'),
{
    ('a' <= c && c <= 'z') || ('A' <= c && c <= 'Z')
}

/// What `char::is_alphabetic` answers: whether the character has the Unicode property
/// `Alphabetic`.
pub uninterp spec fn unicode_alphabetic(c: char) -> bool;

/// Calls `char::is_alphabetic` and claims only that the answer is a function of the
/// character, which [`unicode_alphabetic`] names.
#[verifier::external_body]
fn char_is_alphabetic(c: char) -> (yes: bool)
    ensures
        yes == unicode_alphabetic(c),
{
    c.is_alphabetic()
}

/// Whether `c` is a letter: one of the ASCII letters or, outside ASCII, alphabetic in Unicode.
pub open spec fn letter(c: char) -> bool {
    if (c as u32) < 0x80 {
        is_ascii_letter(c)
    } else {
        unicode_alphabetic(c)
    }
}

/// Whether a letter stands in `s`.
pub open spec fn has_letter(s: Seq<char>) -> bool {
    exists|i: int| 0 <= i < s.len() && letter(#[trigger] s[i])
}

/// Whether an ASCII letter stands in `s`.
pub open spec fn has_ascii_letter(s: Seq<char>) -> bool {
    exists|i: int| 0 <= i < s.len() && is_ascii_letter(#[trigger] s[i])
}

/// Whether a letter stands in `s`.
pub fn any_letter(s: &str) -> (yes: bool)
    ensures
        yes == has_letter(s@),
{
    for c in it: s.chars()
        invariant
            it.seq() == s@,
            forall|i: int| 0 <= i < it.index() ==> !letter(#[trigger] s@[i]),
    {
        assert(c == s@[it.index() as int]);
        let v: u32 = c as u32;
        if v < 0x80 {
            if is_ascii_letter(c) {
                return true;
            }
        } else if char_is_alphabetic(c) {
            return true;
        }
    }
    false
}

/// Whether an ASCII letter stands in `s`.
pub fn any_ascii_letter(s: &str) -> (yes: bool)
    ensures
        yes == has_ascii_letter(s@),
{
    for c in it: s.chars()
        invariant
            it.seq() == s@,
            forall|i: int| 0 <= i < it.index() ==> !is_ascii_letter(#[trigger] s@[i]),
    {
        assert(c == s@[it.index() as int]);
        if is_ascii_letter(c) {
            return true;
        }
    }
    false
}

/// Index of the first character of `s` for which `f` answers true.
pub(crate) fn position<F: Fn(char) -> bool>(
    s: &str,
    f: F,
    Ghost(p): Ghost<spec_fn(char) -> bool>,
) -> (at: Option<usize>)
    requires
        forall|c: char| #[trigger] f.requires((c,)),
        forall|c: char, b: bool| f.ensures((c,), b) ==> b == p(c),
    ensures
        match at {
            Some(i) => i < s@.len() && i == first_index(s@, p),
            None => first_index(s@, p) == s@.len(),
        },
{
    let mut passed: usize = 0;
    proof {
        lemma_chars_fit_bytes(s@);
    }
    let total: usize = s.as_bytes().len();
    for c in it: s.chars()
        invariant
            it.seq() == s@,
            passed == it.index(),
            s@.len() <= total,
            forall|c: char| #[trigger] f.requires((c,)),
            forall|c: char, b: bool| f.ensures((c,), b) ==> b == p(c),
            forall|i: int| 0 <= i < passed ==> !p(#[trigger] s@[i]),
    {
        if f(c) {
            proof {
                lemma_first_index_is(s@, p, passed as int);
            }
            return Some(passed);
        }
        passed = passed + 1;
    }
    proof {
        lemma_first_index_is(s@, p, s@.len() as int);
    }
    None
}

/// Index of the first `wanted` in `s`.
pub fn find_char(s: &str, wanted: char) -> (at: Option<usize>)
    ensures
        match at {
            Some(i) => i < s@.len() && i == first_index(s@, is_char(wanted)),
            None => first_index(s@, is_char(wanted)) == s@.len(),
        },
{
    let same = |c: char| -> (b: bool)
        ensures
            b == (c == wanted),
    {
        c == wanted
    };
    position(s, same, Ghost(is_char(wanted)))
}

/// Index of the first place at which `pattern` stands in `s`.
pub open spec fn first_occurrence(s: Seq<char>, pattern: Seq<char>) -> Option<int>
    decreases s.len(),
{
    if pattern.is_prefix_of(s) {
        Some(0)
    } else if s.len() == 0 {
        None
    } else {
        match first_occurrence(s.drop_first(), pattern) {
            Some(i) => Some(i + 1),
            None => None,
        }
    }
}

/// `pattern` stands in `s` at index `i`.
pub open spec fn occurs_at(s: Seq<char>, pattern: Seq<char>, i: int) -> bool {
    0 <= i <= s.len() - pattern.len() && s.subrange(i, i + pattern.len()) == pattern
}

/// `first_occurrence` is the least index at which the pattern stands.
pub proof fn lemma_first_occurrence(s: Seq<char>, pattern: Seq<char>)
    ensures
        match first_occurrence(s, pattern) {
            Some(i) => occurs_at(s, pattern, i) && forall|j: int|
                0 <= j < i ==> !#[trigger] occurs_at(s, pattern, j),
            None => forall|j: int| !#[trigger] occurs_at(s, pattern, j),
        },
    decreases s.len(),
{
    if pattern.is_prefix_of(s) {
        assert(s.subrange(0, pattern.len() as int) =~= pattern);
    } else {
        assert(!occurs_at(s, pattern, 0)) by {
            if occurs_at(s, pattern, 0) {
                assert(s.subrange(0, pattern.len() as int) =~= pattern);
            }
        }
        if s.len() > 0 {
            let rest = s.drop_first();
            lemma_first_occurrence(rest, pattern);
            assert forall|j: int| 0 < j implies #[trigger] occurs_at(s, pattern, j) == occurs_at(
                rest,
                pattern,
                j - 1,
            ) by {
                if j + pattern.len() <= s.len() {
                    assert(s.subrange(j, j + pattern.len()) =~= rest.subrange(
                        j - 1,
                        j - 1 + pattern.len(),
                    ));
                }
            }
            match first_occurrence(rest, pattern) {
                Some(i) => {
                    assert(occurs_at(s, pattern, i + 1));
                },
                None => {},
            }
        }
    }
}

/// Whether `s` starts with `prefix`.
pub fn starts_with(s: &str, prefix: &str) -> (yes: bool)
    ensures
        yes == prefix@.is_prefix_of(s@),
{
    let mut left = s.chars();
    let mut right = prefix.chars();
    let ghost mut k: int = 0;
    assert(s@.skip(0) =~= s@);
    assert(prefix@.skip(0) =~= prefix@);
    loop
        invariant
            0 <= k <= s@.len(),
            k <= prefix@.len(),
            vstd::std_specs::iter::IteratorSpec::remaining(&left) == s@.skip(k),
            vstd::std_specs::iter::IteratorSpec::remaining(&right) == prefix@.skip(k),
            forall|i: int| 0 <= i < k ==> s@[i] == #[trigger] prefix@[i],
        decreases prefix@.len() - k,
    {
        match right.next() {
            None => {
                assert(prefix@.is_prefix_of(s@));
                return true;
            },
            Some(wanted) => {
                assert(wanted == prefix@[k]);
                match left.next() {
                    None => {
                        return false;
                    },
                    Some(c) => {
                        assert(c == s@[k]);
                        if c != wanted {
                            return false;
                        }
                        assert(s@.skip(k).drop_first() =~= s@.skip(k + 1));
                        assert(prefix@.skip(k).drop_first() =~= prefix@.skip(k + 1));
                    },
                }
            },
        }
        proof {
            k = k + 1;
        }
    }
}

/// Whether the two strings hold the same characters.
pub fn same(a: &str, b: &str) -> (yes: bool)
    ensures
        yes == (a@ == b@),
{
    let left = a.as_bytes();
    let right = b.as_bytes();
    if left.len() != right.len() {
        return false;
    }
    let mut i: usize = 0;
    while i < left.len()
        invariant
            left@ == encode_utf8(a@),
            right@ == encode_utf8(b@),
            left@.len() == right@.len(),
            i <= left@.len(),
            forall|j: int| 0 <= j < i ==> left@[j] == right@[j],
        decreases left@.len() - i,
    {
        if left[i] != right[i] {
            return false;
        }
        i = i + 1;
    }
    proof {
        assert(left@ =~= right@);
        lemma_encode_injective(a@, b@);
    }
    true
}

/// Index of the first place at which `pattern` stands in `s`.
pub fn find_text(s: &str, pattern: &str) -> (at: Option<usize>)
    ensures
        match at {
            Some(i) => first_occurrence(s@, pattern@) == Some(i as int) && i + pattern@.len()
                <= s@.len(),
            None => first_occurrence(s@, pattern@) is None,
        },
{
    let mut rest = s;
    let mut passed: usize = 0;
    proof {
        lemma_chars_fit_bytes(s@);
    }
    let total: usize = s.as_bytes().len();
    assert(s@.skip(0) =~= s@);
    loop
        invariant
            s@.len() <= total,
            passed <= s@.len(),
            rest@ == s@.skip(passed as int),
            first_occurrence(s@, pattern@) == (match first_occurrence(rest@, pattern@) {
                Some(i) => Some(i + passed),
                None => None::<int>,
            }),
        decreases s@.len() - passed,
    {
        if starts_with(rest, pattern) {
            return Some(passed);
        }
        if rest.is_empty() {
            return None;
        }
        assert(rest@.skip(1) =~= rest@.drop_first());
        assert(rest@.skip(1) =~= s@.skip(passed + 1));
        rest = split_chars(rest, 1).1;
        passed = passed + 1;
    }
}

/// Whether `pattern` stands somewhere in `s`.
pub fn contains(s: &str, pattern: &str) -> (yes: bool)
    ensures
        yes == (first_occurrence(s@, pattern@) is Some),
{
    find_text(s, pattern).is_some()
}

/// Whether `wanted` stands somewhere in `s`.
pub fn contains_char(s: &str, wanted: char) -> (yes: bool)
    ensures
        yes == s@.contains(wanted),
{
    let at = find_char(s, wanted);
    proof {
        lemma_first_index(s@, is_char(wanted));
        if at is None && s@.contains(wanted) {
            let i = choose|i: int| 0 <= i < s@.len() && s@[i] == wanted;
            assert(is_char(wanted)(s@[i]));
        }
    }
    at.is_some()
}

/// Whether `s` starts with the character `wanted`.
pub fn starts_with_char(s: &str, wanted: char) -> (yes: bool)
    ensures
        yes == (s@.len() > 0 && s@[0] == wanted),
{
    match s.chars().next() {
        Some(c) => c == wanted,
        None => false,
    }
}

// ---------------------------------------------------------------------------
// Trimming
// ---------------------------------------------------------------------------
/// `s` without the leading characters that satisfy `p`.
pub open spec fn trim_start_by(s: Seq<char>, p: spec_fn(char) -> bool) -> Seq<char> {
    s.skip(first_index(s, not(p)))
}

/// `s` without the trailing characters that satisfy `p`.
pub open spec fn trim_end_by(s: Seq<char>, p: spec_fn(char) -> bool) -> Seq<char> {
    s.take(last_index(s, not(p)) + 1)
}

/// `s` without the leading and the trailing characters that satisfy `p`.
pub open spec fn trim_by(s: Seq<char>, p: spec_fn(char) -> bool) -> Seq<char> {
    trim_end_by(trim_start_by(s, p), p)
}

/// `s` without white space at its ends.
pub open spec fn trimmed(s: Seq<char>) -> Seq<char> {
    trim_by(s, white())
}

fn trim_with<F: Fn(char) -> bool>(
    s: &str,
    f: F,
    both: bool,
    Ghost(p): Ghost<spec_fn(char) -> bool>,
) -> (r: &str)
    requires
        forall|c: char| #[trigger] f.requires((c,)),
        forall|c: char, b: bool| f.ensures((c,), b) ==> b == p(c),
    ensures
        r@ == if both {
            trim_by(s@, p)
        } else {
            trim_end_by(s@, p)
        },
{
    let mut passed: usize = 0;
    let mut first: usize = 0;
    let mut end: usize = 0;
    proof {
        lemma_chars_fit_bytes(s@);
    }
    let total: usize = s.as_bytes().len();
    for c in it: s.chars()
        invariant
            it.seq() == s@,
            passed == it.index(),
            s@.len() <= total,
            forall|c: char| #[trigger] f.requires((c,)),
            forall|c: char, b: bool| f.ensures((c,), b) ==> b == p(c),
            first <= end <= passed,
            end == 0 ==> first == 0,
            forall|i: int| end <= i < passed ==> p(#[trigger] s@[i]),
            end > 0 ==> !p(s@[end - 1]),
            end > 0 ==> first < end && !p(s@[first as int]),
            forall|i: int| 0 <= i < first ==> p(#[trigger] s@[i]),
    {
        if !f(c) {
            if end == 0 {
                first = passed;
            }
            end = passed + 1;
        }
        passed = passed + 1;
    }
    proof {
        lemma_last_index_is(s@, not(p), end - 1);
        if end == 0 {
            lemma_first_index_is(s@, not(p), s@.len() as int);
            assert(trim_start_by(s@, p) =~= Seq::<char>::empty());
        } else {
            lemma_first_index_is(s@, not(p), first as int);
            let rest = s@.skip(first as int);
            assert forall|i: int| end - 1 - first < i < rest.len() implies !not(p)(
                #[trigger] rest[i],
            ) by {
                assert(rest[i] == s@[i + first]);
            }
            assert(rest[end - 1 - first] == s@[end - 1]);
            lemma_last_index_is(rest, not(p), end - 1 - first);
        }
    }
    let head = split_chars(s, end).0;
    if !both || end == 0 {
        assert(both ==> head@ =~= trim_by(s@, p));
        return head;
    }
    let r = split_chars(head, first).1;
    assert(r@ =~= trim_by(s@, p));
    r
}

/// `s` without white space at its ends.
pub fn trim(s: &str) -> (r: &str)
    ensures
        r@ == trimmed(s@),
{
    let blank = |c: char| -> (b: bool)
        ensures
            b == is_white_space(c),
    {
        is_white_space(c)
    };
    trim_with(s, blank, true, Ghost(white()))
}

/// Whether `c` is one of the characters in `set`.
pub fn is_one_of(c: char, set: &[char]) -> (yes: bool)
    ensures
        yes == set@.contains(c),
{
    let mut i: usize = 0;
    while i < set.len()
        invariant
            i <= set@.len(),
            forall|j: int| 0 <= j < i ==> set@[j] != c,
        decreases set@.len() - i,
    {
        if set[i] == c {
            return true;
        }
        i = i + 1;
    }
    false
}

/// `s` without the characters of `set` at its ends.
pub fn trim_matches<'a>(s: &'a str, set: &[char]) -> (r: &'a str)
    ensures
        r@ == trim_by(s@, one_of(set@)),
{
    let listed = |c: char| -> (b: bool)
        ensures
            b == set@.contains(c),
    {
        is_one_of(c, set)
    };
    trim_with(s, listed, true, Ghost(one_of(set@)))
}

/// `s` without the characters `unwanted` at its end.
pub fn trim_end_matches(s: &str, unwanted: char) -> (r: &str)
    ensures
        r@ == trim_end_by(s@, is_char(unwanted)),
{
    let same = |c: char| -> (b: bool)
        ensures
            b == (c == unwanted),
    {
        c == unwanted
    };
    trim_with(s, same, false, Ghost(is_char(unwanted)))
}

// ---------------------------------------------------------------------------
// Splitting
// ---------------------------------------------------------------------------
/// What stands before the first `mark`; all of `s` where there is none.
pub open spec fn before_char(s: Seq<char>, mark: char) -> Seq<char> {
    s.take(first_index(s, is_char(mark)))
}

/// What stands before and behind the first `mark`, where there is one.
pub open spec fn split_at_char(s: Seq<char>, mark: char) -> Option<(Seq<char>, Seq<char>)> {
    let i = first_index(s, is_char(mark));
    if i < s.len() {
        Some((s.take(i), s.skip(i + 1)))
    } else {
        None
    }
}

/// What stands before the first `mark`; all of `s` where there is none.
pub fn take_before(s: &str, mark: char) -> (r: &str)
    ensures
        r@ == before_char(s@, mark),
{
    match find_char(s, mark) {
        Some(i) => split_chars(s, i).0,
        None => {
            assert(s@.take(s@.len() as int) =~= s@);
            s
        },
    }
}

/// What stands before and behind the first `mark`, where there is one.
pub fn split_once(s: &str, mark: char) -> (r: Option<(&str, &str)>)
    ensures
        match r {
            Some((a, b)) => split_at_char(s@, mark) == Some((a@, b@)),
            None => split_at_char(s@, mark) is None,
        },
{
    match find_char(s, mark) {
        Some(i) => {
            let (head, tail) = split_chars(s, i);
            let rest = split_chars(tail, 1).1;
            assert(rest@ =~= s@.skip(i + 1));
            Some((head, rest))
        },
        None => None,
    }
}

/// The maximal runs of characters that do not satisfy `gap`, in order.
pub open spec fn words_by(s: Seq<char>, gap: spec_fn(char) -> bool) -> Seq<Seq<char>>
    decreases s.len(),
    via words_by_decreases
{
    let rest = trim_start_by(s, gap);
    if rest.len() == 0 {
        Seq::empty()
    } else {
        let n = first_index(rest, gap);
        seq![rest.take(n)] + words_by(rest.skip(n), gap)
    }
}

#[via_fn]
proof fn words_by_decreases(s: Seq<char>, gap: spec_fn(char) -> bool) {
    lemma_first_index(s, not(gap));
    let rest = trim_start_by(s, gap);
    lemma_first_index(rest, gap);
    if rest.len() > 0 {
        assert(rest[0] == s[first_index(s, not(gap))]);
    }
}

/// The words of `s`, which white space separates.
pub open spec fn words(s: Seq<char>) -> Seq<Seq<char>> {
    words_by(s, white())
}

/// The first word of `s` and what stands behind it.
pub open spec fn word_and_rest(s: Seq<char>, gap: spec_fn(char) -> bool) -> Option<
    (Seq<char>, Seq<char>),
> {
    let rest = trim_start_by(s, gap);
    if rest.len() == 0 {
        None
    } else {
        let n = first_index(rest, gap);
        Some((rest.take(n), rest.skip(n)))
    }
}

fn next_word_with<'a, F: Fn(char) -> bool, G: Fn(char) -> bool>(
    s: &'a str,
    f: F,
    solid: G,
    Ghost(gap): Ghost<spec_fn(char) -> bool>,
) -> (r: Option<(&'a str, &'a str)>)
    requires
        forall|c: char| #[trigger] f.requires((c,)),
        forall|c: char, b: bool| f.ensures((c,), b) ==> b == gap(c),
        forall|c: char| #[trigger] solid.requires((c,)),
        forall|c: char, b: bool| solid.ensures((c,), b) ==> b == !gap(c),
    ensures
        match r {
            Some((word, rest)) => {
                &&& word_and_rest(s@, gap) == Some((word@, rest@))
                &&& word@.len() > 0
                &&& rest@.len() < s@.len()
                &&& words_by(s@, gap) == seq![word@] + words_by(rest@, gap)
            },
            None => word_and_rest(s@, gap) is None && words_by(s@, gap).len() == 0,
        },
{
    match position(s, solid, Ghost(not(gap))) {
        None => {
            assert(trim_start_by(s@, gap) =~= Seq::<char>::empty());
            None
        },
        Some(start) => {
            let rest = split_chars(s, start).1;
            proof {
                lemma_first_index(s@, not(gap));
                lemma_first_index(rest@, gap);
                assert(rest@[0] == s@[start as int]);
            }
            match position(rest, f, Ghost(gap)) {
                Some(n) => Some(split_chars(rest, n)),
                None => {
                    let n: usize = char_count(rest);
                    Some(split_chars(rest, n))
                },
            }
        },
    }
}

/// Number of characters in `s`.
pub fn char_count(s: &str) -> (n: usize)
    ensures
        n == s@.len(),
{
    let mut n: usize = 0;
    proof {
        lemma_chars_fit_bytes(s@);
    }
    let total: usize = s.as_bytes().len();
    for c in it: s.chars()
        invariant
            it.seq() == s@,
            n == it.index(),
            s@.len() <= total,
    {
        n = n + 1;
    }
    n
}

/// The first word of `s` and what stands behind it.
pub fn next_word(s: &str) -> (r: Option<(&str, &str)>)
    ensures
        match r {
            Some((word, rest)) => {
                &&& word_and_rest(s@, white()) == Some((word@, rest@))
                &&& word@.len() > 0
                &&& rest@.len() < s@.len()
                &&& words(s@) == seq![word@] + words(rest@)
            },
            None => word_and_rest(s@, white()) is None && words(s@).len() == 0,
        },
{
    let blank = |c: char| -> (b: bool)
        ensures
            b == is_white_space(c),
    {
        is_white_space(c)
    };
    let solid = |c: char| -> (b: bool)
        ensures
            b == !is_white_space(c),
    {
        !is_white_space(c)
    };
    next_word_with(s, blank, solid, Ghost(white()))
}

/// Whether `c` is ASCII white space: tab, line feed, form feed, carriage return or space.
#[verifier::allow_in_spec]
pub fn is_ascii_space(c: char) -> bool
    returns
        c == '\t' || c == '\n' || c == '\x0c' || c == '\r' || c == ' ',
{
    c == '\t' || c == '\n' || c == '\x0c' || c == '\r' || c == ' '
}

/// The predicate that holds of ASCII white space.
pub open spec fn ascii_white() -> spec_fn(char) -> bool {
    |c: char| is_ascii_space(c)
}

/// The words of `s`, which ASCII white space separates.
pub open spec fn ascii_words(s: Seq<char>) -> Seq<Seq<char>> {
    words_by(s, ascii_white())
}

/// The word of `s` at `index`, counted from 0, where there are that many; ASCII
/// white space separates words.
pub fn ascii_word(s: &str, index: usize) -> (r: Option<&str>)
    ensures
        match r {
            Some(word) => index < ascii_words(s@).len() && word@ == ascii_words(s@)[index as int],
            None => ascii_words(s@).len() <= index,
        },
{
    let mut rest = s;
    let mut left: usize = index;
    loop
        invariant
            left <= index,
            ascii_words(s@).len() == (index - left) + ascii_words(rest@).len(),
            forall|i: int|
                #![trigger ascii_words(rest@)[i]]
                0 <= i < ascii_words(rest@).len() ==> ascii_words(rest@)[i] == ascii_words(s@)[index
                    - left + i],
        decreases left,
    {
        let blank = |c: char| -> (b: bool)
            ensures
                b == is_ascii_space(c),
        {
            is_ascii_space(c)
        };
        let solid = |c: char| -> (b: bool)
            ensures
                b == !is_ascii_space(c),
        {
            !is_ascii_space(c)
        };
        let ghost before = ascii_words(rest@);
        match next_word_with(rest, blank, solid, Ghost(ascii_white())) {
            None => {
                return None;
            },
            Some((word, behind)) => {
                assert(before[0] == word@);
                if left == 0 {
                    return Some(word);
                }
                proof {
                    assert forall|i: int|
                        #![trigger ascii_words(behind@)[i]]
                        0 <= i < ascii_words(behind@).len() implies ascii_words(behind@)[i]
                        == ascii_words(s@)[index - (left - 1) + i] by {
                        assert(before[i + 1] == ascii_words(behind@)[i]);
                    }
                }
                rest = behind;
                left = left - 1;
            },
        }
    }
}

/// The first line of `s`, without its line ending: a line feed, or a carriage
/// return and a line feed.
pub open spec fn first_line(s: Seq<char>) -> Seq<char> {
    let i = first_index(s, is_char('\n'));
    if 0 < i < s.len() && s[i - 1] == '\r' {
        s.take(i - 1)
    } else {
        s.take(i)
    }
}

/// What stands behind the first line of `s`.
pub open spec fn after_line(s: Seq<char>) -> Seq<char> {
    let i = first_index(s, is_char('\n'));
    if i < s.len() {
        s.skip(i + 1)
    } else {
        Seq::empty()
    }
}

/// The lines of `s`; the last one need not be terminated.
pub open spec fn lines(s: Seq<char>) -> Seq<Seq<char>>
    decreases s.len(),
    via lines_decreases
{
    if s.len() == 0 {
        Seq::empty()
    } else {
        seq![first_line(s)] + lines(after_line(s))
    }
}

#[via_fn]
proof fn lines_decreases(s: Seq<char>) {
    lemma_first_index(s, is_char('\n'));
}

/// The first line of `s`, without its line ending, and what stands behind it.
pub fn next_line(s: &str) -> (r: Option<(&str, &str)>)
    ensures
        match r {
            Some((line, rest)) => {
                &&& line@ == first_line(s@)
                &&& rest@ == after_line(s@)
                &&& rest@.len() < s@.len()
                &&& lines(s@) == seq![line@] + lines(rest@)
            },
            None => s@.len() == 0 && lines(s@).len() == 0,
        },
{
    if s.is_empty() {
        return None;
    }
    match find_char(s, '\n') {
        None => {
            let n: usize = char_count(s);
            let parts = split_chars(s, n);
            assert(parts.1@ =~= Seq::<char>::empty());
            Some(parts)
        },
        Some(i) => {
            let (line, tail) = split_chars(s, i);
            let rest = split_chars(tail, 1).1;
            assert(rest@ =~= s@.skip(i + 1));
            if i > 0 {
                let (shorter, last) = split_chars(line, i - 1);
                if starts_with_char(last, '\r') {
                    assert(shorter@ =~= s@.take(i - 1));
                    return Some((shorter, rest));
                }
            }
            Some((line, rest))
        },
    }
}

// ---------------------------------------------------------------------------
// Numbers
// ---------------------------------------------------------------------------
/// Whether `c` is one of the ASCII digits.
#[verifier::allow_in_spec]
pub fn is_digit(c: char) -> bool
    returns
        '0' <= c && c <= '9',
{
    '0' <= c && c <= '9'
}

/// Whether `s` consists of ASCII digits, at least one of them.
pub open spec fn is_decimal(s: Seq<char>) -> bool {
    s.len() > 0 && forall|i: int| 0 <= i < s.len() ==> is_digit(#[trigger] s[i])
}

/// The number that the digits in `s` write in base ten.
pub open spec fn decimal_value(s: Seq<char>) -> nat
    decreases s.len(),
{
    if s.len() == 0 {
        0
    } else {
        10 * decimal_value(s.drop_last()) + (s.last() as u32 - '0' as u32) as nat
    }
}

/// `s` without one leading plus sign.
pub open spec fn without_plus(s: Seq<char>) -> Seq<char> {
    if s.len() > 0 && s[0] == '+' {
        s.drop_first()
    } else {
        s
    }
}

/// The unsigned number that `s` writes, where it writes one that is at most `max`:
/// an optional plus sign and digits.
pub open spec fn unsigned_value(s: Seq<char>, max: nat) -> Option<nat> {
    let digits = without_plus(s);
    if is_decimal(digits) && decimal_value(digits) <= max {
        Some(decimal_value(digits))
    } else {
        None
    }
}

/// The signed 32-bit number that `s` writes, where it writes one: an optional sign
/// and digits.
pub open spec fn signed_value(s: Seq<char>) -> Option<int> {
    if s.len() > 0 && s[0] == '-' {
        let digits = s.drop_first();
        if is_decimal(digits) && decimal_value(digits) <= 0x8000_0000 {
            Some(-decimal_value(digits))
        } else {
            None
        }
    } else {
        match unsigned_value(s, 0x7fff_ffff) {
            Some(v) => Some(v as int),
            None => None,
        }
    }
}

proof fn lemma_decimal_prefix(s: Seq<char>, k: int)
    requires
        0 <= k <= s.len(),
    ensures
        decimal_value(s.take(k)) <= decimal_value(s),
    decreases s.len() - k,
{
    if k == s.len() {
        assert(s.take(k) =~= s);
    } else {
        assert(s.take(k + 1).drop_last() =~= s.take(k));
        lemma_decimal_prefix(s, k + 1);
    }
}

/// The number that the digits in `s` write, where `s` is digits alone and the number is at
/// most `max`.
pub fn parse_decimal(s: &str, max: u64) -> (r: Option<u64>)
    ensures
        match r {
            Some(v) => is_decimal(s@) && v == decimal_value(s@) && v <= max,
            None => !(is_decimal(s@) && decimal_value(s@) <= max),
        },
{
    if s.is_empty() {
        return None;
    }
    let mut value: u64 = 0;
    let ghost mut k: int = 0;
    assert(s@.take(0) =~= Seq::<char>::empty());
    for c in it: s.chars()
        invariant
            it.seq() == s@,
            k == it.index(),
            value == decimal_value(s@.take(k)),
            value <= max,
            forall|i: int| 0 <= i < k ==> is_digit(#[trigger] s@[i]),
    {
        assert(c == s@[k]);
        if !is_digit(c) {
            return None;
        }
        let digit: u32 = c as u32 - '0' as u32;
        let wide: u128 = value as u128 * 10 + digit as u128;
        proof {
            assert(s@.take(k + 1).drop_last() =~= s@.take(k));
            assert(s@.take(k + 1).last() == c);
            lemma_decimal_prefix(s@, k + 1);
        }
        if wide > max as u128 {
            return None;
        }
        value = wide as u64;
        proof {
            k = k + 1;
        }
    }
    assert(s@.take(s@.len() as int) =~= s@);
    Some(value)
}

/// The unsigned number that `s` writes, where it writes one that is at most `max`.
pub fn parse_unsigned(s: &str, max: u64) -> (r: Option<u64>)
    ensures
        match r {
            Some(v) => unsigned_value(s@, max as nat) == Some(v as nat),
            None => unsigned_value(s@, max as nat) is None,
        },
{
    if starts_with_char(s, '+') {
        let digits = split_chars(s, 1).1;
        assert(digits@ =~= s@.drop_first());
        parse_decimal(digits, max)
    } else {
        parse_decimal(s, max)
    }
}

/// The `u32` that `s` writes.
pub fn parse_u32(s: &str) -> (r: Option<u32>)
    ensures
        match r {
            Some(v) => unsigned_value(s@, u32::MAX as nat) == Some(v as nat),
            None => unsigned_value(s@, u32::MAX as nat) is None,
        },
{
    match parse_unsigned(s, u32::MAX as u64) {
        Some(v) => Some(v as u32),
        None => None,
    }
}

/// The `u64` that `s` writes.
pub fn parse_u64(s: &str) -> (r: Option<u64>)
    ensures
        match r {
            Some(v) => unsigned_value(s@, u64::MAX as nat) == Some(v as nat),
            None => unsigned_value(s@, u64::MAX as nat) is None,
        },
{
    parse_unsigned(s, u64::MAX)
}

/// The `i32` that `s` writes.
pub fn parse_i32(s: &str) -> (r: Option<i32>)
    ensures
        match r {
            Some(v) => signed_value(s@) == Some(v as int),
            None => signed_value(s@) is None,
        },
{
    if starts_with_char(s, '-') {
        let digits = split_chars(s, 1).1;
        assert(digits@ =~= s@.drop_first());
        match parse_decimal(digits, 0x8000_0000) {
            Some(v) => Some((0 - v as i64) as i32),
            None => None,
        }
    } else {
        match parse_unsigned(s, 0x7fff_ffff) {
            Some(v) => Some(v as i32),
            None => None,
        }
    }
}

} // verus!
