//! Paths and contents of the files below `/proc`.
//!
//! The readers take what was read from a file; a file that could not be read counts as empty.
use vstd::prelude::*;
use vstd::utf8::*;

use crate::render;
use crate::text;

verus! {

// ---------------------------------------------------------------------------
// Paths
// ---------------------------------------------------------------------------
/// The bytes of `/proc/<pid>/<suffix>`.
pub open spec fn proc_path(pid: u32, suffix: Seq<char>) -> Seq<u8> {
    encode_utf8("/proc/"@ + render::decimal(pid as nat) + "/"@ + suffix)
}

/// `buf` holds the first 31 bytes of `content`, and zeros behind them.
pub open spec fn holds_path(buf: Seq<u8>, content: Seq<u8>) -> bool {
    buf.len() == 32 && forall|i: int|
        0 <= i < 32 ==> #[trigger] buf[i] == if i < 31 && i < content.len() {
            content[i]
        } else {
            0
        }
}

fn put_byte(buf: &mut [u8; 32], at: usize, b: u8, Ghost(content): Ghost<Seq<u8>>) -> (next: usize)
    requires
        holds_path(old(buf)@, content),
        at == if content.len() < 31 {
            content.len()
        } else {
            31
        },
    ensures
        holds_path(final(buf)@, content.push(b)),
        next == if content.len() + 1 < 31 {
            content.len() + 1
        } else {
            31
        },
{
    if at < 31 {
        buf[at] = b;
        at + 1
    } else {
        at
    }
}

fn put_text(buf: &mut [u8; 32], at: usize, s: &str, Ghost(content): Ghost<Seq<u8>>) -> (next:
    usize)
    requires
        holds_path(old(buf)@, content),
        at == if content.len() < 31 {
            content.len()
        } else {
            31
        },
    ensures
        holds_path(final(buf)@, content + encode_utf8(s@)),
        next == if content.len() + encode_utf8(s@).len() < 31 {
            content.len() + encode_utf8(s@).len()
        } else {
            31
        },
{
    let bytes = s.as_bytes();
    let mut next: usize = at;
    let mut i: usize = 0;
    assert(content + bytes@.take(0) =~= content);
    while i < bytes.len()
        invariant
            i <= bytes@.len(),
            holds_path(buf@, content + bytes@.take(i as int)),
            next == if content.len() + i < 31 {
                content.len() + i
            } else {
                31
            },
        decreases bytes@.len() - i,
    {
        next = put_byte(buf, next, bytes[i], Ghost(content + bytes@.take(i as int)));
        assert((content + bytes@.take(i as int)).push(bytes@[i as int]) =~= content + bytes@.take(
            i + 1,
        ));
        i = i + 1;
    }
    assert(bytes@.take(bytes@.len() as int) =~= bytes@);
    next
}

proof fn lemma_digit_bytes(n: nat)
    ensures
        n < 10 ==> encode_utf8(render::decimal(n)) == seq![(48 + n) as u8],
        n >= 10 ==> encode_utf8(render::decimal(n)) == encode_utf8(render::decimal(n / 10)).push(
            (48 + n % 10) as u8,
        ),
{
    let d = render::digit(n % 10);
    let one = seq![d];
    assert(one.drop_first() =~= Seq::<char>::empty());
    assert(encode_utf8(one) =~= seq![(48 + n % 10) as u8]) by {
        char_is_scalar(d);
        assert(encode_utf8(one.drop_first()) =~= Seq::<u8>::empty());
        is_ascii_chars_encode_utf8(one);
    }
    if n >= 10 {
        assert(render::decimal(n) =~= render::decimal(n / 10) + one);
        text::lemma_encode_concat(render::decimal(n / 10), one);
        assert(encode_utf8(render::decimal(n)) =~= encode_utf8(render::decimal(n / 10)).push(
            (48 + n % 10) as u8,
        ));
    } else {
        assert(n % 10 == n);
        assert(render::decimal(n) =~= one);
    }
}

fn put_number(buf: &mut [u8; 32], at: usize, n: u32, Ghost(content): Ghost<Seq<u8>>) -> (next:
    usize)
    requires
        holds_path(old(buf)@, content),
        at == if content.len() < 31 {
            content.len()
        } else {
            31
        },
    ensures
        holds_path(final(buf)@, content + encode_utf8(render::decimal(n as nat))),
        next == if content.len() + encode_utf8(render::decimal(n as nat)).len() < 31 {
            content.len() + encode_utf8(render::decimal(n as nat)).len()
        } else {
            31
        },
    decreases n,
{
    proof {
        lemma_digit_bytes(n as nat);
    }
    let mut next: usize = at;
    let ghost mut so_far = content;
    if n >= 10 {
        next = put_number(buf, next, n / 10, Ghost(content));
        proof {
            so_far = content + encode_utf8(render::decimal((n / 10) as nat));
        }
    }
    let b: u8 = 48 + (n % 10) as u8;
    next = put_byte(buf, next, b, Ghost(so_far));
    assert(so_far.push(b) =~= content + encode_utf8(render::decimal(n as nat)));
    next
}

/// Puts `/proc/<pid>/<suffix>` into `buf`, cut off behind 31 bytes, and fills the rest with
/// zeros, so that the path ends with a zero in any case. The suffix has no slash in front.
pub fn format_proc_path(buf: &mut [u8; 32], pid: u32, suffix: &str)
    ensures
        holds_path(final(buf)@, proc_path(pid, suffix@)),
{
    *buf = [0u8; 32];
    let ghost none = Seq::<u8>::empty();
    let ghost a = encode_utf8("/proc/"@);
    let ghost b = encode_utf8(render::decimal(pid as nat));
    let ghost c = encode_utf8("/"@);
    let mut at: usize = put_text(buf, 0, "/proc/", Ghost(none));
    assert(none + a =~= a);
    at = put_number(buf, at, pid, Ghost(a));
    at = put_text(buf, at, "/", Ghost(a + b));
    put_text(buf, at, suffix, Ghost(a + b + c));
    proof {
        let digits = render::decimal(pid as nat);
        text::lemma_encode_concat("/proc/"@, digits);
        text::lemma_encode_concat("/proc/"@ + digits, "/"@);
        text::lemma_encode_concat("/proc/"@ + digits + "/"@, suffix@);
    }
}

// ---------------------------------------------------------------------------
// Contents
// ---------------------------------------------------------------------------
/// The word at `index` in the text that `content` encodes, where there is one.
pub open spec fn word_at(content: Seq<u8>, index: int) -> Option<Seq<char>> {
    match text::utf8_text(content) {
        Some(s) => if index < text::ascii_words(s).len() {
            Some(text::ascii_words(s)[index])
        } else {
            None
        },
        None => None,
    }
}

/// The resident memory that a `statm` file tells: its second number, in pages. The product
/// wraps around where it does not fit; 0 where the file does not tell it.
pub open spec fn statm_rss_kb(content: Seq<u8>, page_size_kb: u64) -> u64 {
    match word_at(content, 1) {
        Some(word) => match text::unsigned_value(word, u64::MAX as nat) {
            Some(pages) => (pages as u64).wrapping_mul(page_size_kb),
            None => 0,
        },
        None => 0,
    }
}

/// Reads the resident memory, in kilobytes, from what `/proc/<pid>/statm` holds; 0 where it
/// cannot be read, as for a process that is gone.
pub fn read_statm_rss_kb(content: &[u8], page_size_kb: u64) -> (kb: u64)
    ensures
        kb == statm_rss_kb(content@, page_size_kb),
{
    match text::from_bytes(content) {
        Some(s) => match text::ascii_word(s, 1) {
            Some(word) => match text::parse_u64(word) {
                Some(pages) => pages.wrapping_mul(page_size_kb),
                None => 0,
            },
            None => 0,
        },
        None => 0,
    }
}

/// The score that an `oom_score_adj` file tells.
pub open spec fn oom_score_adj(content: Seq<u8>) -> Option<int> {
    match text::utf8_text(content) {
        Some(s) => text::signed_value(text::trimmed(s)),
        None => None,
    }
}

/// Reads the score from what `/proc/<pid>/oom_score_adj` holds.
pub fn read_oom_score_adj(content: &[u8]) -> (r: Option<i32>)
    ensures
        match r {
            Some(adj) => oom_score_adj(content@) == Some(adj as int),
            None => oom_score_adj(content@) is None,
        },
{
    match text::from_bytes(content) {
        Some(s) => text::parse_i32(text::trim(s)),
        None => None,
    }
}

/// The number that follows a label of `meminfo`; 0 where none does.
pub open spec fn amount(rest: Seq<char>) -> u64 {
    if text::ascii_words(rest).len() > 0 {
        match text::unsigned_value(text::ascii_words(rest)[0], u64::MAX as nat) {
            Some(n) => n as u64,
            None => 0,
        }
    } else {
        0
    }
}

/// `known`, the total and the available memory, after one line of `meminfo`.
pub open spec fn meminfo_line(known: (u64, u64), line: Seq<char>) -> (u64, u64) {
    if "MemTotal:"@.is_prefix_of(line) {
        (amount(line.skip(9)), known.1)
    } else if "MemAvailable:"@.is_prefix_of(line) {
        (known.0, amount(line.skip(13)))
    } else {
        known
    }
}

/// `known` after the lines of `meminfo`, which are read until both amounts are known.
pub open spec fn meminfo_lines(known: (u64, u64), lines: Seq<Seq<char>>) -> (u64, u64)
    decreases lines.len(),
{
    if lines.len() == 0 {
        known
    } else {
        let next = meminfo_line(known, lines[0]);
        if next.0 > 0 && next.1 > 0 {
            next
        } else {
            meminfo_lines(next, lines.drop_first())
        }
    }
}

/// The total and the available memory, in kilobytes, that `content` tells.
pub open spec fn meminfo_kb(content: Seq<u8>) -> (u64, u64) {
    match text::utf8_text(content) {
        Some(s) => meminfo_lines((0, 0), text::lines(s)),
        None => (0, 0),
    }
}

fn parse_amount(rest: &str) -> (kb: u64)
    ensures
        kb == amount(rest@),
{
    match text::ascii_word(rest, 0) {
        Some(word) => match text::parse_u64(word) {
            Some(n) => n,
            None => 0,
        },
        None => 0,
    }
}

/// Reads the total and the available memory, in kilobytes, from what `/proc/meminfo` holds;
/// 0 stands for an amount that is not told.
pub fn read_meminfo_kb(content: &[u8]) -> (kb: (u64, u64))
    ensures
        kb == meminfo_kb(content@),
{
    let s = match text::from_bytes(content) {
        Some(s) => s,
        None => {
            return (0, 0);
        },
    };
    let mut total: u64 = 0;
    let mut avail: u64 = 0;
    let mut rest = s;
    loop
        invariant_except_break
            meminfo_lines((0, 0), text::lines(s@)) == meminfo_lines(
                (total, avail),
                text::lines(rest@),
            ),
        ensures
            meminfo_lines((0, 0), text::lines(s@)) == (total, avail),
        decreases rest@.len(),
    {
        let ghost all = text::lines(rest@);
        match text::next_line(rest) {
            None => {
                break;
            },
            Some((line, tail)) => {
                assert(all.len() > 0 && all[0] == line@);
                assert(all.drop_first() =~= text::lines(tail@));
                if text::starts_with(line, "MemTotal:") {
                    proof {
                        reveal_strlit("MemTotal:");
                    }
                    total = parse_amount(text::split_chars(line, 9).1);
                } else if text::starts_with(line, "MemAvailable:") {
                    proof {
                        reveal_strlit("MemAvailable:");
                    }
                    avail = parse_amount(text::split_chars(line, 13).1);
                }
                rest = tail;
                if total > 0 && avail > 0 {
                    break;
                }
            },
        }
    }
    (total, avail)
}

/// Whether less than the given percentage of the memory is available.
pub open spec fn mem_critical(total_kb: u64, avail_kb: u64, percent: u64) -> bool {
    total_kb > 0 && avail_kb * 100 < total_kb * percent
}

/// Whether less than `mem_critical_percent` of the memory is available. It is not where the
/// total is not known.
pub fn check_mem_critical(total_kb: u64, avail_kb: u64, mem_critical_percent: u64) -> (yes: bool)
    ensures
        yes == mem_critical(total_kb, avail_kb, mem_critical_percent),
{
    if total_kb > 0 {
        assert(total_kb * mem_critical_percent <= u64::MAX * u64::MAX) by (nonlinear_arith)
            requires
                total_kb <= u64::MAX,
                mem_critical_percent <= u64::MAX,
        ;
        let avail: u128 = avail_kb as u128 * 100;
        let limit: u128 = total_kb as u128 * mem_critical_percent as u128;
        avail < limit
    } else {
        false
    }
}

/// The physical memory in megabytes; 4096 where it is not known.
pub fn read_total_ram_mb(total_kb: u64) -> (mb: u64)
    ensures
        mb == if total_kb > 0 {
            total_kb / 1024
        } else {
            4096
        },
{
    if total_kb > 0 {
        total_kb / 1024
    } else {
        4096
    }
}

/// A path below `/proc` is the process id and the file behind it. One of at most 31 bytes stands whole in the
/// buffer, with a zero behind it.
pub proof fn law_paths_end_with_a_zero(buf: Seq<u8>, pid: u32, suffix: Seq<char>, i: int)
    requires
        holds_path(buf, proc_path(pid, suffix)),
    ensures
        buf.len() == 32 && buf[31] == 0,
        ({
            let path = encode_utf8("/proc/"@ + render::decimal(pid as nat) + "/"@ + suffix);
            &&& 0 <= i < path.len() && i < 31 ==> buf[i] == path[i]
            &&& path.len() <= 31 ==> buf.take(path.len() as int) == path && buf[path.len() as int] == 0
        }),
{
    let path = encode_utf8("/proc/"@ + render::decimal(pid as nat) + "/"@ + suffix);
    if path.len() <= 31 {
        assert(buf.take(path.len() as int) =~= path);
    }
}

} // verus!
