//! What the diagnostic programs pick out of what the system prints.
use vstd::prelude::*;

use crate::daemon::FIRST_APP_UID;
use crate::system;
use crate::text;

verus! {

/// Whether a user id belongs to an app.
pub fn is_app_uid(uid: u32) -> (yes: bool)
    ensures
        yes == (uid >= FIRST_APP_UID),
{
    uid >= FIRST_APP_UID
}

/// An amount of memory in megabytes, from its number of units and the size of a unit in bytes. The
/// product wraps around where it does not fit.
pub fn memory_mb(amount: u64, unit: u64) -> (mb: u64)
    ensures
        mb == amount.wrapping_mul(unit) / 1_048_576,
{
    amount.wrapping_mul(unit) / 1_048_576
}

/// How lines are picked.
#[derive(Debug, Clone, Copy, PartialEq, Eq, Structural)]
pub enum Pick {
    /// Those that start with one of the patterns.
    StartsWith,
    /// Those in which one of the patterns stands.
    Contains,
}

/// Whether a line is picked.
pub open spec fn picked(line: Seq<char>, patterns: Seq<Seq<char>>, pick: Pick) -> bool {
    exists|i: int|
        0 <= i < patterns.len() && match pick {
            Pick::StartsWith => (#[trigger] patterns[i]).is_prefix_of(line),
            Pick::Contains => system::has(line, patterns[i]),
        }
}

/// The lines that are picked, in order.
pub open spec fn picked_lines(
    lines: Seq<Seq<char>>,
    patterns: Seq<Seq<char>>,
    pick: Pick,
) -> Seq<Seq<char>>
    decreases lines.len(),
{
    if lines.len() == 0 {
        Seq::empty()
    } else if picked(lines[0], patterns, pick) {
        seq![lines[0]] + picked_lines(lines.drop_first(), patterns, pick)
    } else {
        picked_lines(lines.drop_first(), patterns, pick)
    }
}

fn is_picked(line: &str, patterns: &Vec<String>, pick: Pick) -> (yes: bool)
    ensures
        yes == picked(line@, system::texts(patterns@), pick),
{
    let ghost all = system::texts(patterns@);
    let mut i: usize = 0;
    while i < patterns.len()
        invariant
            i <= patterns@.len(),
            all == system::texts(patterns@),
            forall|j: int|
                0 <= j < i ==> !(match pick {
                    Pick::StartsWith => (#[trigger] all[j]).is_prefix_of(line@),
                    Pick::Contains => system::has(line@, all[j]),
                }),
        decreases patterns@.len() - i,
    {
        assert(all[i as int] == patterns@[i as int]@);
        let hit = match pick {
            Pick::StartsWith => text::starts_with(line, patterns[i].as_str()),
            Pick::Contains => text::contains(line, patterns[i].as_str()),
        };
        if hit {
            return true;
        }
        i = i + 1;
    }
    false
}

/// The lines of `content` that are picked.
pub fn pick_lines(content: &str, patterns: &Vec<String>, pick: Pick) -> (r: Vec<String>)
    ensures
        system::texts(r@) == picked_lines(text::lines(content@), system::texts(patterns@), pick),
{
    let ghost wanted = system::texts(patterns@);
    let mut found: Vec<String> = Vec::new();
    let mut rest = content;
    assert(system::texts(found@) + picked_lines(text::lines(content@), wanted, pick)
        =~= picked_lines(text::lines(content@), wanted, pick));
    loop
        invariant
            wanted == system::texts(patterns@),
            picked_lines(text::lines(content@), wanted, pick) == system::texts(found@)
                + picked_lines(text::lines(rest@), wanted, pick),
        decreases rest@.len(),
    {
        let ghost all = text::lines(rest@);
        let ghost before = system::texts(found@);
        match text::next_line(rest) {
            None => {
                assert(system::texts(found@) + picked_lines(all, wanted, pick) =~= system::texts(
                    found@,
                ));
                return found;
            },
            Some((line, tail)) => {
                assert(all.len() > 0 && all[0] == line@);
                assert(all.drop_first() =~= text::lines(tail@));
                if is_picked(line, patterns, pick) {
                    found.push(line.to_owned());
                    proof {
                        let behind = picked_lines(text::lines(tail@), wanted, pick);
                        assert(system::texts(found@) =~= before.push(line@));
                        assert(before.push(line@) + behind =~= before + (seq![line@] + behind));
                    }
                }
                rest = tail;
            },
        }
    }
}

/// Number of the lines that are no separators.
pub open spec fn log_lines(lines: Seq<Seq<char>>) -> nat
    decreases lines.len(),
{
    if lines.len() == 0 {
        0
    } else if "---"@.is_prefix_of(lines.last()) {
        log_lines(lines.drop_last())
    } else {
        log_lines(lines.drop_last()) + 1
    }
}

/// Number of the lines of a log that are no separators.
pub fn count_log_lines(content: &str) -> (n: usize)
    ensures
        n == log_lines(text::lines(content@)),
{
    let ghost all = text::lines(content@);
    let ghost mut k: int = 0;
    let mut n: usize = 0;
    let mut rest = content;
    proof {
        text::lemma_chars_fit_bytes(content@);
    }
    let total: usize = content.as_bytes().len();
    assert(all.skip(0) =~= all);
    assert(all.take(0) =~= Seq::<Seq<char>>::empty());
    loop
        invariant
            all == text::lines(content@),
            0 <= k <= all.len(),
            text::lines(rest@) == all.skip(k),
            n == log_lines(all.take(k)),
            n + rest@.len() <= content@.len() <= total,
        decreases all.len() - k,
    {
        let ghost here = text::lines(rest@);
        match text::next_line(rest) {
            None => {
                assert(all.take(k) =~= all);
                return n;
            },
            Some((line, tail)) => {
                assert(here.len() >= 1);
                assert(here[0] == all[k]);
                assert(text::lines(tail@) =~= here.drop_first());
                assert(here.drop_first() =~= all.skip(k + 1));
                assert(all.take(k + 1).drop_last() =~= all.take(k));
                if !text::starts_with(line, "---") {
                    n = n + 1;
                }
                rest = tail;
            },
        }
        proof {
            k = k + 1;
        }
    }
}

/// Whether a message about a kill starts at `i`, with a window of twelve bytes behind it.
pub open spec fn kill_format_at(binary: Seq<u8>, i: int) -> bool {
    0 <= i <= binary.len() - 12 && system::bytes_start_with(binary.skip(i), "Kill '"@)
}

/// The predicate that holds of the byte 0.
pub open spec fn terminator() -> spec_fn(u8) -> bool {
    |b: u8| b == 0
}

/// The messages about kills that start before `n`: each up to the byte 0 that ends it.
pub open spec fn kill_formats_before(binary: Seq<u8>, n: nat) -> Seq<Seq<u8>>
    decreases n,
{
    if n == 0 {
        Seq::empty()
    } else {
        let i = n - 1;
        let rest = kill_formats_before(binary, i as nat);
        let end = text::first_index(binary.skip(i), terminator());
        if kill_format_at(binary, i) && end < binary.skip(i).len() {
            rest.push(binary.skip(i).take(end))
        } else {
            rest
        }
    }
}

/// What the vectors hold.
pub open spec fn byte_strings(v: Seq<Vec<u8>>) -> Seq<Seq<u8>> {
    v.map_values(|b: Vec<u8>| b@)
}

fn copy_until_zero(binary: &[u8], start: usize) -> (r: Option<Vec<u8>>)
    requires
        start <= binary@.len(),
    ensures
        ({
            let rest = binary@.skip(start as int);
            let end = text::first_index(rest, terminator());
            match r {
                Some(v) => end < rest.len() && v@ == rest.take(end),
                None => end == rest.len(),
            }
        }),
{
    let ghost rest = binary@.skip(start as int);
    let mut found: Vec<u8> = Vec::new();
    let mut i: usize = start;
    assert(rest.take(0) =~= Seq::<u8>::empty());
    while i < binary.len()
        invariant
            start <= i <= binary@.len(),
            rest == binary@.skip(start as int),
            found@ == rest.take(i - start),
            forall|j: int| 0 <= j < i - start ==> !terminator()(#[trigger] rest[j]),
        decreases binary@.len() - i,
    {
        assert(rest[i - start] == binary@[i as int]);
        if binary[i] == 0 {
            proof {
                text::lemma_first_index_is(rest, terminator(), i - start);
            }
            return Some(found);
        }
        found.push(binary[i]);
        assert(rest.take(i - start + 1) =~= rest.take(i - start).push(rest[i - start]));
        i = i + 1;
    }
    proof {
        text::lemma_first_index_is(rest, terminator(), i - start);
    }
    None
}

/// The messages about kills that a program holds, in the order in which they stand in it.
pub fn kill_formats(binary: &[u8]) -> (r: Vec<Vec<u8>>)
    ensures
        byte_strings(r@) == kill_formats_before(binary@, binary@.len()),
{
    let mut found: Vec<Vec<u8>> = Vec::new();
    let mut i: usize = 0;
    assert(byte_strings(found@) =~= Seq::<Seq<u8>>::empty());
    while i < binary.len()
        invariant
            i <= binary@.len(),
            byte_strings(found@) == kill_formats_before(binary@, i as nat),
        decreases binary@.len() - i,
    {
        let ghost before = byte_strings(found@);
        let (_, rest) = binary.split_at(i);
        assert(rest@ =~= binary@.skip(i as int));
        if rest.len() >= 12 && system::starts_with_bytes(rest, "Kill '") {
            if let Some(message) = copy_until_zero(binary, i) {
                let ghost added = message@;
                found.push(message);
                assert(byte_strings(found@) =~= before.push(added));
            }
        }
        i = i + 1;
    }
    found
}

/// The lines that are picked are those that start with one of the patterns, or in which one of them stands,
/// in their order.
pub proof fn law_picked_lines_keep_their_order(
    lines: Seq<Seq<char>>,
    patterns: Seq<Seq<char>>,
    pick: Pick,
)
    ensures
        picked_lines(lines, patterns, pick) == lines.filter(
            |line: Seq<char>|
                exists|i: int|
                    0 <= i < patterns.len() && match pick {
                        Pick::StartsWith => (#[trigger] patterns[i]).is_prefix_of(line),
                        Pick::Contains => text::first_occurrence(line, patterns[i]) is Some,
                    },
        ),
    decreases lines.len(),
{
    let wanted = |line: Seq<char>|
        exists|i: int|
            0 <= i < patterns.len() && match pick {
                Pick::StartsWith => (#[trigger] patterns[i]).is_prefix_of(line),
                Pick::Contains => text::first_occurrence(line, patterns[i]) is Some,
            };
    reveal(Seq::filter);
    if lines.len() == 0 {
        assert(picked_lines(lines, patterns, pick) =~= lines.filter(wanted));
    } else {
        let first = seq![lines[0]];
        let rest = lines.drop_first();
        law_picked_lines_keep_their_order(rest, patterns, pick);
        assert(lines =~= first + rest);
        Seq::filter_distributes_over_add(first, rest, wanted);
        assert(first.drop_last() =~= Seq::<Seq<char>>::empty());
        assert(first.drop_last().filter(wanted) =~= Seq::<Seq<char>>::empty());
        assert(first.filter(wanted) =~= if wanted(lines[0]) {
            first
        } else {
            Seq::empty()
        });
        assert(wanted(lines[0]) == picked(lines[0], patterns, pick));
        assert(picked_lines(lines, patterns, pick) =~= lines.filter(wanted));
    }
}

/// The lines of a log are counted that do not start with three hyphens.
pub proof fn law_separators_are_not_counted(lines: Seq<Seq<char>>)
    ensures
        log_lines(lines) == lines.filter(
            |line: Seq<char>|
                !(line.len() >= 3 && line[0] == '-' && line[1] == '-' && line[2] == '-'),
        ).len(),
    decreases lines.len(),
{
    let counted = |line: Seq<char>|
        !(line.len() >= 3 && line[0] == '-' && line[1] == '-' && line[2] == '-');
    reveal(Seq::filter);
    reveal_strlit("---");
    if lines.len() > 0 {
        law_separators_are_not_counted(lines.drop_last());
        let line = lines.last();
        if !counted(line) {
            assert("---"@ =~= line.subrange(0, 3));
        } else if "---"@.is_prefix_of(line) {
            assert("---"@[0] == line[0] && "---"@[1] == line[1] && "---"@[2] == line[2]);
        }
    }
}

/// Whether `format` stands at `i` in `binary` as the text of a kill: it starts as such a text does, at least
/// twelve bytes of the binary are left there, and the first zero byte from there on ends it.
pub open spec fn stands_at(binary: Seq<u8>, i: int, format: Seq<u8>) -> bool {
    &&& 0 <= i && i + 12 <= binary.len()
    &&& vstd::utf8::encode_utf8("Kill '"@).is_prefix_of(binary.skip(i))
    &&& format.push(0).is_prefix_of(binary.skip(i))
    &&& !format.contains(0)
}

/// The texts of a kill that are found are those that stand in the binary, and no others.
pub proof fn law_which_kill_formats_are_found(binary: Seq<u8>, format: Seq<u8>)
    ensures
        kill_formats_before(binary, binary.len()).contains(format) <==> exists|i: int|
            #[trigger] stands_at(binary, i, format),
{
    lemma_kill_formats(binary, binary.len(), format);
}

proof fn lemma_kill_formats(binary: Seq<u8>, n: nat, format: Seq<u8>)
    requires
        n <= binary.len(),
    ensures
        kill_formats_before(binary, n).contains(format) <==> exists|i: int|
            i < n && #[trigger] stands_at(binary, i, format),
    decreases n,
{
    if n > 0 {
        let i = n - 1;
        let rest = kill_formats_before(binary, i as nat);
        let all = kill_formats_before(binary, n);
        lemma_kill_formats(binary, i as nat, format);
        lemma_kill_format(binary, i, format);
        let found = binary.skip(i).take(text::first_index(binary.skip(i), terminator()));
        if all.contains(format) && !rest.contains(format) {
            let k = choose|k: int| 0 <= k < all.len() && all[k] == format;
            assert(all == rest.push(found));
            if k < rest.len() {
                assert(rest[k] == format);
            }
            assert(stands_at(binary, i, format));
        }
        if rest.contains(format) {
            let k = choose|k: int| 0 <= k < rest.len() && rest[k] == format;
            assert(all[k] == format);
            let j = choose|j: int| j < i && #[trigger] stands_at(binary, j, format);
            assert(stands_at(binary, j, format));
        }
        if stands_at(binary, i, format) {
            assert(all[rest.len() as int] == format);
        }
    }
}

proof fn lemma_kill_format(binary: Seq<u8>, i: int, format: Seq<u8>)
    requires
        0 <= i < binary.len(),
    ensures
        ({
            let rest = binary.skip(i);
            let end = text::first_index(rest, terminator());
            stands_at(binary, i, format) <==> kill_format_at(binary, i) && end < rest.len()
                && rest.take(end) == format
        }),
{
    let rest = binary.skip(i);
    let end = text::first_index(rest, terminator());
    text::lemma_first_index(rest, terminator());
    let n = format.len() as int;
    if stands_at(binary, i, format) {
        let whole = format.push(0);
        assert(whole[n] == 0);
        assert(rest[n] == whole[n]);
        assert forall|k: int| 0 <= k < n implies !terminator()(#[trigger] rest[k]) by {
            assert(rest[k] == whole[k]);
            assert(format.contains(format[k]));
        }
        text::lemma_first_index_is(rest, terminator(), n);
        assert(rest.take(n) =~= format);
    }
    if kill_format_at(binary, i) && end < rest.len() && rest.take(end) == format {
        assert(rest.subrange(0, end + 1) =~= format.push(0));
        if format.contains(0) {
            let k = choose|k: int| 0 <= k < format.len() && format[k] == 0;
            assert(rest[k] == 0);
            assert(!terminator()(rest[k]));
        }
    }
}

} // verus!
