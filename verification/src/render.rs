//! Rendering of numbers and columns into text.
use vstd::prelude::*;

use crate::text;

verus! {

/// The ASCII digit of a number below ten.
pub open spec fn digit(d: nat) -> char {
    (d + 48) as char
}

/// The digits of `n` in base ten, without leading zeros.
pub open spec fn decimal(n: nat) -> Seq<char>
    decreases n,
{
    if n < 10 {
        seq![digit(n)]
    } else {
        decimal(n / 10).push(digit(n % 10))
    }
}

/// The digits of `n` in base ten, with a minus sign in front where `n` is negative.
pub open spec fn signed(n: int) -> Seq<char> {
    if n < 0 {
        seq!['-'] + decimal((-n) as nat)
    } else {
        decimal(n as nat)
    }
}

/// `true` or `false`.
pub open spec fn boolean(b: bool) -> Seq<char> {
    if b {
        "true"@
    } else {
        "false"@
    }
}

/// As many spaces.
pub open spec fn spaces(n: nat) -> Seq<char> {
    Seq::new(n, |i: int| ' ')
}

/// `s` with spaces behind it, up to `width` characters.
pub open spec fn padded(s: Seq<char>, width: nat) -> Seq<char> {
    if s.len() < width {
        s + spaces((width - s.len()) as nat)
    } else {
        s
    }
}

proof fn lemma_digit(d: nat)
    requires
        d < 10,
    ensures
        text::is_digit(digit(d)),
        digit(d) as u32 - '0' as u32 == d,
{
}

/// What a number is rendered as reads back as that number.
pub proof fn law_decimal_reads_back(n: nat)
    ensures
        text::is_decimal(decimal(n)),
        text::decimal_value(decimal(n)) == n,
        forall|max: nat| n <= max ==> #[trigger] text::unsigned_value(decimal(n), max) == Some(n),
    decreases n,
{
    if n < 10 {
        lemma_digit(n);
        reveal_with_fuel(text::decimal_value, 2);
        assert(decimal(n).drop_last() =~= Seq::<char>::empty());
        assert(text::is_digit(decimal(n)[0]));
    } else {
        law_decimal_reads_back(n / 10);
        lemma_digit(n % 10);
        assert(decimal(n).drop_last() =~= decimal(n / 10));
        assert forall|i: int| 0 <= i < decimal(n).len() implies text::is_digit(
            #[trigger] decimal(n)[i],
        ) by {
            if i < decimal(n / 10).len() {
                assert(decimal(n)[i] == decimal(n / 10)[i]);
            }
        }
    }
    assert(text::is_digit(decimal(n)[0]));
    assert(text::without_plus(decimal(n)) == decimal(n));
}

/// What a 32-bit number is rendered as reads back as that number.
pub proof fn law_signed_reads_back(n: i32)
    ensures
        text::signed_value(signed(n as int)) == Some(n as int),
{
    if n < 0 {
        law_decimal_reads_back((-n) as nat);
        assert(signed(n as int).drop_first() =~= decimal((-n) as nat));
    } else {
        law_decimal_reads_back(n as nat);
        assert(text::unsigned_value(decimal(n as nat), 0x7fff_ffff) == Some(n as nat));
        assert(text::is_digit(decimal(n as nat)[0]));
    }
}

/// The digit of a number below ten.
fn digit_text(d: u64) -> (s: &'static str)
    requires
        d < 10,
    ensures
        s@ == seq![digit(d as nat)],
{
    proof {
        reveal_strlit("0");
        reveal_strlit("1");
        reveal_strlit("2");
        reveal_strlit("3");
        reveal_strlit("4");
        reveal_strlit("5");
        reveal_strlit("6");
        reveal_strlit("7");
        reveal_strlit("8");
        reveal_strlit("9");
    }
    let s = match d {
        0 => "0",
        1 => "1",
        2 => "2",
        3 => "3",
        4 => "4",
        5 => "5",
        6 => "6",
        7 => "7",
        8 => "8",
        _ => "9",
    };
    assert(s@ =~= seq![digit(d as nat)]);
    s
}

/// Appends the digits of `n`.
pub fn push_u64(out: &mut String, n: u64)
    ensures
        final(out)@ == old(out)@ + decimal(n as nat),
    decreases n,
{
    if n < 10 {
        out.append(digit_text(n));
    } else {
        push_u64(out, n / 10);
        out.append(digit_text(n % 10));
        assert(out@ =~= old(out)@ + decimal(n as nat));
    }
}

/// Appends the digits of `n`, with a minus sign in front where `n` is negative.
pub fn push_i64(out: &mut String, n: i64)
    ensures
        final(out)@ == old(out)@ + signed(n as int),
{
    if n < 0 {
        proof {
            reveal_strlit("-");
        }
        out.append("-");
        let magnitude: u64 = (0 - n as i128) as u64;
        push_u64(out, magnitude);
        assert("-"@ =~= seq!['-']);
        assert(out@ =~= old(out)@ + signed(n as int));
    } else {
        push_u64(out, n as u64);
    }
}

/// Appends `true` or `false`.
pub fn push_bool(out: &mut String, b: bool)
    ensures
        final(out)@ == old(out)@ + boolean(b),
{
    out.append(
        if b {
            "true"
        } else {
            "false"
        },
    );
}

/// Appends `s` and spaces up to `width` characters.
pub fn push_padded(out: &mut String, s: &str, width: usize)
    ensures
        final(out)@ == old(out)@ + padded(s@, width as nat),
{
    out.append(s);
    let mut n: usize = text::char_count(s);
    proof {
        reveal_strlit(" ");
    }
    let ghost start = out@;
    let ghost len = s@.len();
    assert(start =~= start + spaces(0));
    while n < width
        invariant
            len <= n,
            n <= width || n == len,
            out@ == start + spaces((n - len) as nat),
            " "@ =~= seq![' '],
        decreases width - n,
    {
        out.append(" ");
        n = n + 1;
        assert(spaces((n - 1 - len) as nat) + " "@ =~= spaces((n - len) as nat));
        assert(out@ =~= start + spaces((n - len) as nat));
    }
    assert(out@ =~= old(out)@ + padded(s@, width as nat));
}

/// `a` and `b` as one string.
pub fn join(a: &str, b: &str) -> (s: String)
    ensures
        s@ == a@ + b@,
{
    let mut s = String::new();
    s.append(a);
    s.append(b);
    assert(s@ =~= a@ + b@);
    s
}

/// A column is as wide as it is to be, or as its text where that is wider: the text, and spaces behind it.
pub proof fn law_columns_are_filled_with_spaces(s: Seq<char>, width: nat)
    ensures
        padded(s, width).len() == if s.len() < width {
            width
        } else {
            s.len()
        },
        s.is_prefix_of(padded(s, width)),
        forall|i: int| s.len() <= i < padded(s, width).len() ==> #[trigger] padded(s, width)[i] == ' ',
{
    assert(padded(s, width).subrange(0, s.len() as int) =~= s);
}

/// Numbers below ten are one digit, and a number has one digit more than its tenth.
pub proof fn law_digits_of_numbers(n: nat)
    ensures
        n < 10 ==> decimal(n) == seq![('0' as int + n) as char],
        n >= 10 ==> decimal(n) == decimal(n / 10).push(('0' as int + n % 10) as char),
        boolean(true) == "true"@,
        boolean(false) == "false"@,
{
}

} // verus!
