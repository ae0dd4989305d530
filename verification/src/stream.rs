//! The stream of the event log: bytes come in as they are read, lines go out.
use vstd::prelude::*;

use crate::system;
use crate::text;

verus! {

/// A line that is not terminated within so many bytes is thrown away.
pub const MAX_PENDING_BYTES: usize = 8192;

/// The predicate that holds of the line feed.
pub open spec fn line_feed() -> spec_fn(u8) -> bool {
    |b: u8| b == 10
}

/// The lines that are terminated, without their line feeds.
pub open spec fn raw_lines(bytes: Seq<u8>) -> Seq<Seq<u8>>
    decreases bytes.len(),
    via raw_lines_decreases
{
    let i = text::first_index(bytes, line_feed());
    if i < bytes.len() {
        seq![bytes.take(i)] + raw_lines(bytes.skip(i + 1))
    } else {
        Seq::empty()
    }
}

#[via_fn]
proof fn raw_lines_decreases(bytes: Seq<u8>) {
    text::lemma_first_index(bytes, line_feed());
}

/// What follows the last line feed.
pub open spec fn unterminated(bytes: Seq<u8>) -> Seq<u8>
    decreases bytes.len(),
    via unterminated_decreases
{
    let i = text::first_index(bytes, line_feed());
    if i < bytes.len() {
        unterminated(bytes.skip(i + 1))
    } else {
        bytes
    }
}

#[via_fn]
proof fn unterminated_decreases(bytes: Seq<u8>) {
    text::lemma_first_index(bytes, line_feed());
}

/// A line without a carriage return at its end.
pub open spec fn without_return(raw: Seq<u8>) -> Seq<u8> {
    if raw.len() > 0 && raw.last() == 13 {
        raw.drop_last()
    } else {
        raw
    }
}

/// The text of a line, without white space at its ends. A line gives none that is blank, that starts with
/// three hyphens, or that is not valid UTF-8.
pub open spec fn line_text(raw: Seq<u8>) -> Option<Seq<char>> {
    let line = without_return(raw);
    if system::bytes_start_with(line, "---"@) {
        None
    } else {
        match text::utf8_text(line) {
            Some(s) => if text::trimmed(s).len() > 0 {
                Some(text::trimmed(s))
            } else {
                None
            },
            None => None,
        }
    }
}

/// The texts of the lines that give one.
pub open spec fn line_texts(raws: Seq<Seq<u8>>) -> Seq<Seq<char>>
    decreases raws.len(),
{
    if raws.len() == 0 {
        Seq::empty()
    } else {
        match line_text(raws[0]) {
            Some(s) => seq![s] + line_texts(raws.drop_first()),
            None => line_texts(raws.drop_first()),
        }
    }
}

/// Whether `bytes` are thrown away: no line is terminated, and there are too many of them.
pub open spec fn oversized(bytes: Seq<u8>) -> bool {
    raw_lines(bytes).len() == 0 && bytes.len() > MAX_PENDING_BYTES
}

/// What is kept of `bytes` for the next chunk.
pub open spec fn kept(bytes: Seq<u8>) -> Seq<u8> {
    if oversized(bytes) {
        Seq::empty()
    } else {
        unterminated(bytes)
    }
}

/// The bytes of a line that is not terminated yet.
pub struct LineBuffer {
    pending: Vec<u8>,
}

impl View for LineBuffer {
    type V = Seq<u8>;

    closed spec fn view(&self) -> Seq<u8> {
        self.pending@
    }
}

fn decode_line(bytes: &Vec<u8>, start: usize, end: usize) -> (r: Option<&str>)
    requires
        start <= end <= bytes@.len(),
    ensures
        match r {
            Some(s) => line_text(bytes@.subrange(start as int, end as int)) == Some(s@),
            None => line_text(bytes@.subrange(start as int, end as int)) is None,
        },
{
    let ghost raw = bytes@.subrange(start as int, end as int);
    let stop: usize = if start < end && bytes[end - 1] == 13 {
        end - 1
    } else {
        end
    };
    let all = bytes.as_slice();
    let (head, _) = all.split_at(stop);
    let (_, line) = head.split_at(start);
    assert(line@ =~= without_return(raw));
    if system::starts_with_bytes(line, "---") {
        return None;
    }
    match text::from_bytes(line) {
        Some(s) => {
            let t = text::trim(s);
            if t.is_empty() {
                None
            } else {
                Some(t)
            }
        },
        None => None,
    }
}

impl LineBuffer {
    /// A buffer without bytes.
    pub fn new() -> (buf: Self)
        ensures
            buf@ == Seq::<u8>::empty(),
    {
        LineBuffer { pending: Vec::new() }
    }

    /// Takes a chunk of the stream. Returns the texts of the lines that it completes, and how many bytes
    /// were thrown away because no line was terminated within the limit.
    pub fn feed(&mut self, chunk: &[u8]) -> (r: (Vec<String>, Option<usize>))
        ensures
            ({
                let all = old(self)@ + chunk@;
                &&& system::texts(r.0@) == line_texts(raw_lines(all))
                &&& final(self)@ == kept(all)
                &&& r.1 == if oversized(all) {
                    Some(all.len() as usize)
                } else {
                    None
                }
            }),
    {
        self.pending.extend_from_slice(chunk);
        let ghost all = old(self)@ + chunk@;
        assert(self.pending@ =~= all);
        let mut lines: Vec<String> = Vec::new();
        let mut start: usize = 0;
        let mut i: usize = 0;
        assert(all.skip(0) =~= all);
        assert(system::texts(lines@) + line_texts(raw_lines(all)) =~= line_texts(raw_lines(all)));
        while i < self.pending.len()
            invariant
                self.pending@ == all,
                start <= i <= all.len(),
                forall|j: int| start <= j < i ==> all[j] != 10,
                line_texts(raw_lines(all)) == system::texts(lines@) + line_texts(
                    raw_lines(all.skip(start as int)),
                ),
                unterminated(all) == unterminated(all.skip(start as int)),
                start > 0 ==> raw_lines(all).len() > 0,
            decreases all.len() - i,
        {
            if self.pending[i] == 10 {
                let ghost here = all.skip(start as int);
                let ghost before = system::texts(lines@);
                proof {
                    assert forall|j: int| 0 <= j < i - start implies !line_feed()(
                        #[trigger] here[j],
                    ) by {
                        assert(here[j] == all[start + j]);
                    }
                    assert(here[i - start] == 10);
                    text::lemma_first_index_is(here, line_feed(), i - start);
                    assert(here.take(i - start) =~= all.subrange(start as int, i as int));
                    assert(here.skip(i - start + 1) =~= all.skip(i + 1));
                    assert(start == 0 ==> here =~= all);
                    let raws = raw_lines(here);
                    assert(raws[0] == here.take(i - start));
                    assert(raws.drop_first() =~= raw_lines(all.skip(i + 1)));
                }
                if let Some(line) = decode_line(&self.pending, start, i) {
                    lines.push(line.to_owned());
                    proof {
                        let rest = line_texts(raw_lines(all.skip(i + 1)));
                        assert(system::texts(lines@) =~= before.push(line@));
                        assert(before.push(line@) + rest =~= before + (seq![line@] + rest));
                    }
                }
                start = i + 1;
            }
            i = i + 1;
        }
        proof {
            let here = all.skip(start as int);
            assert(start == 0 ==> here =~= all);
            assert forall|j: int| 0 <= j < here.len() implies !line_feed()(#[trigger] here[j]) by {
                assert(here[j] == all[start + j]);
            }
            text::lemma_first_index_is(here, line_feed(), here.len() as int);
            assert(system::texts(lines@) + line_texts(raw_lines(here)) =~= system::texts(lines@));
        }
        let total: usize = self.pending.len();
        if start == 0 && total > MAX_PENDING_BYTES {
            self.pending.clear();
            return (lines, Some(total));
        }
        let rest = self.pending.split_off(start);
        self.pending = rest;
        assert(self.pending@ =~= all.skip(start as int));
        (lines, None)
    }
}

proof fn lemma_split(x: Seq<u8>, y: Seq<u8>)
    ensures
        raw_lines(x + y) == raw_lines(x) + raw_lines(unterminated(x) + y),
        unterminated(x + y) == unterminated(unterminated(x) + y),
    decreases x.len(),
{
    let i = text::first_index(x, line_feed());
    text::lemma_first_index(x, line_feed());
    if i < x.len() {
        let whole = x + y;
        assert forall|j: int| 0 <= j < i implies !line_feed()(#[trigger] whole[j]) by {
            assert(whole[j] == x[j]);
        }
        assert(whole[i] == x[i]);
        text::lemma_first_index_is(whole, line_feed(), i);
        assert(whole.take(i) =~= x.take(i));
        assert(whole.skip(i + 1) =~= x.skip(i + 1) + y);
        lemma_split(x.skip(i + 1), y);
        assert(raw_lines(whole) =~= raw_lines(x) + raw_lines(unterminated(x) + y));
    } else {
        assert(raw_lines(x) + raw_lines(x + y) =~= raw_lines(x + y));
    }
}

proof fn lemma_line_texts_concat(a: Seq<Seq<u8>>, b: Seq<Seq<u8>>)
    ensures
        line_texts(a + b) == line_texts(a) + line_texts(b),
    decreases a.len(),
{
    if a.len() == 0 {
        assert(a + b =~= b);
        assert(line_texts(a) + line_texts(b) =~= line_texts(b));
    } else {
        let first = line_text(a[0]);
        let rest = line_texts(a.drop_first());
        assert((a + b)[0] == a[0]);
        assert((a + b).drop_first() =~= a.drop_first() + b);
        lemma_line_texts_concat(a.drop_first(), b);
        match first {
            Some(s) => {
                assert((seq![s] + rest) + line_texts(b) =~= seq![s] + (rest + line_texts(b)));
            },
            None => {},
        }
    }
}

/// Where the stream is cut into chunks does not matter, as long as nothing is thrown away: two chunks give
/// the lines that they give as one, and leave the same behind.
pub proof fn law_chunks_do_not_matter(pending: Seq<u8>, first: Seq<u8>, second: Seq<u8>)
    requires
        !oversized(pending + first),
        !oversized(kept(pending + first) + second),
    ensures
        line_texts(raw_lines(pending + first)) + line_texts(
            raw_lines(kept(pending + first) + second),
        ) == line_texts(raw_lines(pending + (first + second))),
        kept(kept(pending + first) + second) == kept(pending + (first + second)),
{
    let x = pending + first;
    assert(pending + (first + second) =~= x + second);
    lemma_split(x, second);
    lemma_line_texts_concat(raw_lines(x), raw_lines(kept(x) + second));
    if oversized(x + second) {
        assert(raw_lines(x).len() == 0);
        text::lemma_first_index(x, line_feed());
        assert(unterminated(x) == x);
    }
}

/// However the stream goes on, no more is kept than the limit and one chunk.
pub proof fn law_kept_is_bounded(pending: Seq<u8>, chunk: Seq<u8>)
    requires
        pending.len() <= MAX_PENDING_BYTES,
        raw_lines(pending).len() == 0,
    ensures
        kept(pending + chunk).len() <= MAX_PENDING_BYTES || kept(pending + chunk).len() <= chunk.len(),
        raw_lines(kept(pending + chunk)).len() == 0,
{
    lemma_unterminated(pending + chunk);
    if raw_lines(pending + chunk).len() > 0 {
        lemma_tail_in_chunk(pending, chunk);
    } else {
        text::lemma_first_index(pending + chunk, line_feed());
    }
}

proof fn lemma_unterminated(bytes: Seq<u8>)
    ensures
        raw_lines(unterminated(bytes)).len() == 0,
    decreases bytes.len(),
{
    text::lemma_first_index(bytes, line_feed());
    let i = text::first_index(bytes, line_feed());
    if i < bytes.len() {
        lemma_unterminated(bytes.skip(i + 1));
    }
}

proof fn lemma_unterminated_len(bytes: Seq<u8>)
    ensures
        unterminated(bytes).len() <= bytes.len(),
    decreases bytes.len(),
{
    text::lemma_first_index(bytes, line_feed());
    let i = text::first_index(bytes, line_feed());
    if i < bytes.len() {
        lemma_unterminated_len(bytes.skip(i + 1));
    }
}

proof fn lemma_tail_in_chunk(pending: Seq<u8>, chunk: Seq<u8>)
    requires
        raw_lines(pending).len() == 0,
        raw_lines(pending + chunk).len() > 0,
    ensures
        unterminated(pending + chunk).len() <= chunk.len(),
{
    let all = pending + chunk;
    text::lemma_first_index(pending, line_feed());
    text::lemma_first_index(all, line_feed());
    let i = text::first_index(all, line_feed());
    assert(i >= pending.len()) by {
        if i < pending.len() {
            assert(all[i] == pending[i]);
            assert(text::first_index(pending, line_feed()) == pending.len());
        }
    }
    lemma_unterminated_len(all.skip(i + 1));
}

/// The lines one behind the other, each with a line feed behind it.
pub open spec fn fed_lines(parts: Seq<Seq<u8>>) -> Seq<u8>
    decreases parts.len(),
{
    if parts.len() == 0 {
        Seq::empty()
    } else {
        parts[0] + seq![10u8] + fed_lines(parts.drop_first())
    }
}

/// The lines of a stream are those that it was made of, and what is left is what has no line feed behind it
/// yet.
pub proof fn law_the_stream_gives_its_lines(parts: Seq<Seq<u8>>, rest: Seq<u8>)
    requires
        forall|i: int| 0 <= i < parts.len() ==> !(#[trigger] parts[i]).contains(10u8),
        !rest.contains(10u8),
    ensures
        raw_lines(fed_lines(parts) + rest) == parts,
        unterminated(fed_lines(parts) + rest) == rest,
    decreases parts.len(),
{
    let all = fed_lines(parts) + rest;
    let p = line_feed();
    if parts.len() == 0 {
        assert(all =~= rest);
        assert forall|i: int| 0 <= i < all.len() implies !p(#[trigger] all[i]) by {
            assert(rest.contains(rest[i]));
        }
        text::lemma_first_index_is(all, p, all.len() as int);
        assert(raw_lines(all) =~= parts);
    } else {
        let head = parts[0];
        let others = parts.drop_first();
        assert(!parts[0].contains(10u8));
        assert forall|i: int| 0 <= i < others.len() implies !(#[trigger] others[i]).contains(10u8) by {
            assert(others[i] == parts[i + 1]);
        }
        law_the_stream_gives_its_lines(others, rest);
        let n = head.len() as int;
        assert forall|i: int| 0 <= i < n implies !p(#[trigger] all[i]) by {
            assert(all[i] == head[i]);
            assert(head.contains(head[i]));
        }
        assert(all[n] == 10);
        text::lemma_first_index_is(all, p, n);
        assert(all.take(n) =~= head);
        assert(all.skip(n + 1) =~= fed_lines(others) + rest);
        assert(seq![head] + others =~= parts);
    }
}

/// A line that holds a text gives that text without the white space around it, with a carriage return at its
/// end or not. A blank line and a separator give none.
pub proof fn law_lines_give_their_text(left: Seq<char>, words: Seq<char>, right: Seq<char>, crlf: bool)
    requires
        forall|i: int| 0 <= i < left.len() ==> text::is_white_space(#[trigger] left[i]),
        forall|i: int| 0 <= i < right.len() ==> text::is_white_space(#[trigger] right[i]),
        crate::text_laws::is_bare(words),
        vstd::utf8::is_ascii_chars(left + words + right),
        left.len() + words.len() + right.len() > 0 ==> (left + words + right).last() != '\r',
        left.len() > 0 || words.len() < 3 || words[0] != '-' || words[1] != '-' || words[2] != '-',
    ensures
        ({
            let bytes = vstd::utf8::encode_utf8(left + words + right);
            line_text(
                if crlf {
                    bytes.push(13u8)
                } else {
                    bytes
                },
            ) == if words.len() > 0 {
                Some(words)
            } else {
                None
            }
        }),
{
    let s = left + words + right;
    let bytes = vstd::utf8::encode_utf8(s);
    let raw = if crlf {
        bytes.push(13u8)
    } else {
        bytes
    };
    vstd::utf8::is_ascii_chars_encode_utf8(s);
    if bytes.len() > 0 {
        let c = s[s.len() - 1];
        assert(c as u8 == bytes[bytes.len() - 1]);
        assert('\0' <= c <= '\u{7f}');
        assert(c as u8 == c as int);
        assert(bytes.last() != 13);
    }
    assert(bytes.push(13u8).drop_last() =~= bytes);
    assert(without_return(raw) == bytes);
    vstd::utf8::encode_utf8_valid_utf8(s);
    vstd::utf8::encode_utf8_decode_utf8(s);
    crate::text_laws::law_white_space_is_trimmed(left, words, right);
    reveal_strlit("---");
    let mark = "---"@;
    assert(vstd::utf8::is_ascii_chars(mark));
    vstd::utf8::is_ascii_chars_encode_utf8(mark);
    assert(!system::bytes_start_with(bytes, mark)) by {
        let prefix = vstd::utf8::encode_utf8(mark);
        if prefix.is_prefix_of(bytes) {
            assert forall|i: int| 0 <= i < 3 implies #[trigger] s[i] == '-' by {
                assert(mark[i] == '-');
                assert(mark[i] as u8 == prefix[i]);
                assert(prefix[i] == bytes[i]);
                assert(s[i] as u8 == bytes[i]);
                let c = s[i];
                assert('\0' <= c <= '\u{7f}');
                assert(c as u8 == c as int);
            }
            assert(s[0] == '-' && s[1] == '-' && s[2] == '-');
            if left.len() > 0 {
                assert(s[0] == left[0]);
            } else if words.len() >= 3 {
                assert(s[0] == words[0] && s[1] == words[1] && s[2] == words[2]);
            } else if words.len() == 0 {
                assert(s[0] == right[0]);
            } else {
                assert(s[words.len() as int] == right[0]);
            }
        }
    }
}

/// What has no line feed yet is kept for the next chunk, up to 8192 bytes; more than that is thrown away.
pub proof fn law_how_much_is_kept(bytes: Seq<u8>)
    requires
        !bytes.contains(10u8),
    ensures
        bytes.len() <= 8192 ==> kept(bytes) == bytes && !oversized(bytes),
        bytes.len() > 8192 ==> kept(bytes).len() == 0 && oversized(bytes),
{
    law_the_stream_gives_its_lines(Seq::empty(), bytes);
    assert(fed_lines(Seq::empty()) + bytes =~= bytes);
}

/// The texts come in the order of their lines, and lines without one are left out.
pub proof fn law_texts_come_in_order(raws: Seq<Seq<u8>>, last: Seq<u8>)
    ensures
        line_texts(raws.push(last)) == match line_text(last) {
            Some(s) => line_texts(raws).push(s),
            None => line_texts(raws),
        },
{
    let one = seq![last];
    assert(raws.push(last) =~= raws + one);
    lemma_line_texts_concat(raws, one);
    assert(one.drop_first() =~= Seq::<Seq<u8>>::empty());
    reveal_with_fuel(line_texts, 2);
    match line_text(last) {
        Some(s) => {
            assert(line_texts(one) =~= seq![s]);
            assert(line_texts(raws) + seq![s] =~= line_texts(raws).push(s));
        },
        None => {
            assert(line_texts(one) =~= Seq::<Seq<char>>::empty());
            assert(line_texts(raws) + line_texts(one) =~= line_texts(raws));
        },
    }
}

/// A separator and a line that is no text give nothing.
pub proof fn law_lines_without_text(raw: Seq<u8>, rest: Seq<u8>)
    ensures
        line_text(seq![45u8, 45u8, 45u8] + rest) is None,
        !vstd::utf8::valid_utf8(raw) && (raw.len() > 0 ==> raw.last() != 13) ==> line_text(raw) is None,
{
    reveal_strlit("---");
    let mark = "---"@;
    assert(vstd::utf8::is_ascii_chars(mark));
    vstd::utf8::is_ascii_chars_encode_utf8(mark);
    let prefix = vstd::utf8::encode_utf8(mark);
    let line = without_return(seq![45u8, 45u8, 45u8] + rest);
    assert forall|i: int| 0 <= i < 3 implies #[trigger] prefix[i] == 45 by {
        assert(mark[i] == '-');
        assert(mark[i] as u8 == prefix[i]);
    }
    assert(line.subrange(0, 3) =~= prefix);
    assert(prefix.is_prefix_of(line));
}

} // verus!
