//! What telemetry is made of: times of day, JSON strings, counters, and the sink, which
//! decides what is rendered and where it goes.
use std::borrow::Cow;

use vstd::prelude::*;
use vstd::utf8::*;

use crate::text;

verus! {

// ---------------------------------------------------------------------------
// Times of day
// ---------------------------------------------------------------------------
/// A time of day as text: `HH:MM:SS.mmm`.
#[derive(Clone, Copy, Debug, PartialEq, Eq)]
pub struct FormattedTime([u8; 12]);

/// The ASCII character of a digit.
pub open spec fn digit_char(d: int) -> char {
    (48 + d) as char
}

/// The text of a time of day.
pub open spec fn time_text(hour: u32, min: u32, sec: u32, millis: nat) -> Seq<char> {
    seq![
        digit_char(hour as int / 10),
        digit_char(hour as int % 10),
        ':',
        digit_char(min as int / 10),
        digit_char(min as int % 10),
        ':',
        digit_char(sec as int / 10),
        digit_char(sec as int % 10),
        '.',
        digit_char(millis as int / 100),
        digit_char(millis as int / 10 % 10),
        digit_char(millis as int % 10),
    ]
}

impl View for FormattedTime {
    type V = Seq<char>;

    closed spec fn view(&self) -> Seq<char> {
        Seq::new(12, |i: int| self.0@[i] as char)
    }
}

impl FormattedTime {
    #[verifier::type_invariant]
    spec fn ascii(&self) -> bool {
        forall|i: int| 0 <= i < 12 ==> #[trigger] self.0@[i] < 128
    }

    /// The text.
    pub fn as_str(&self) -> (s: &str)
        ensures
            s@ == self@,
    {
        proof {
            use_type_invariant(self);
            let chars = self@;
            assert(is_ascii_chars(chars));
            is_ascii_chars_encode_utf8(chars);
            assert forall|i: int| 0 <= i < 12 implies encode_utf8(chars)[i] == self.0@[i] by {
                assert(chars[i] as u8 == self.0@[i]);
            }
            assert(encode_utf8(chars) =~= self.0@);
            encode_utf8_valid_utf8(chars);
            encode_utf8_decode_utf8(chars);
        }
        match text::from_bytes(&self.0) {
            Some(s) => s,
            None => "",
        }
    }
}

/// The time of day `hour:min:sec` with the milliseconds of `epoch_ms`, where the hour, the
/// minute and the second are those of that moment in local time.
pub fn format_time_hms_ms(epoch_ms: u64, hour: u32, min: u32, sec: u32) -> (t: FormattedTime)
    requires
        hour < 100,
        min < 100,
        sec < 100,
    ensures
        t@ == time_text(hour, min, sec, (epoch_ms % 1000) as nat),
{
    let millis: u32 = (epoch_ms % 1000) as u32;
    let t = FormattedTime(
        [
            48 + (hour / 10) as u8,
            48 + (hour % 10) as u8,
            58,
            48 + (min / 10) as u8,
            48 + (min % 10) as u8,
            58,
            48 + (sec / 10) as u8,
            48 + (sec % 10) as u8,
            46,
            48 + (millis / 100) as u8,
            48 + (millis / 10 % 10) as u8,
            48 + (millis % 10) as u8,
        ],
    );
    assert(t@ =~= time_text(hour, min, sec, (epoch_ms % 1000) as nat));
    t
}

// ---------------------------------------------------------------------------
// JSON strings
// ---------------------------------------------------------------------------
/// The lower-case hexadecimal digit of a number below sixteen.
pub open spec fn hex_char(d: int) -> char {
    if d < 10 {
        (48 + d) as char
    } else {
        (87 + d) as char
    }
}

/// Whether `c` cannot stand for itself in a JSON string.
#[verifier::allow_in_spec]
pub fn needs_escape(c: char) -> bool
    returns
        c == '"' || c == '\\' || (c as u32) < 0x20,
{
    c == '"' || c == '\\' || (c as u32) < 0x20
}

/// What stands for `c` in a JSON string.
pub open spec fn escape_char(c: char) -> Seq<char> {
    if c == '"' {
        seq!['\\', '"']
    } else if c == '\\' {
        seq!['\\', '\\']
    } else if c == '\n' {
        seq!['\\', 'n']
    } else if c == '\r' {
        seq!['\\', 'r']
    } else if c == '\t' {
        seq!['\\', 't']
    } else if (c as u32) < 0x20 {
        seq!['\\', 'u', '0', '0', hex_char(c as int / 16), hex_char(c as int % 16)]
    } else {
        seq![c]
    }
}

/// What stands for `s` between the quotes of a JSON string.
pub open spec fn escaped(s: Seq<char>) -> Seq<char>
    decreases s.len(),
{
    if s.len() == 0 {
        Seq::empty()
    } else {
        escaped(s.drop_last()) + escape_char(s.last())
    }
}

/// Whether a character of `s` cannot stand for itself in a JSON string.
pub open spec fn any_escape(s: Seq<char>) -> bool {
    exists|i: int| 0 <= i < s.len() && needs_escape(#[trigger] s[i])
}

proof fn lemma_escaped_plain(s: Seq<char>)
    requires
        !any_escape(s),
    ensures
        escaped(s) == s,
    decreases s.len(),
{
    if s.len() > 0 {
        let rest = s.drop_last();
        assert(!any_escape(rest)) by {
            if any_escape(rest) {
                let i = choose|i: int| 0 <= i < rest.len() && needs_escape(#[trigger] rest[i]);
                assert(needs_escape(s[i]));
            }
        }
        lemma_escaped_plain(rest);
        assert(!needs_escape(s[s.len() - 1]));
        assert(escaped(s) =~= s);
    }
}

fn hex_text(d: u32) -> (s: &'static str)
    requires
        d < 16,
    ensures
        s@ == seq![hex_char(d as int)],
{
    proof {
        reveal_strlit("0");
        reveal_strlit("1");
        reveal_strlit("2");
        reveal_strlit("3");
        reveal_strlit("4");
        reveal_strlit("5");
        reveal_strlit("6");
        reveal_strlit("7");
        reveal_strlit("8");
        reveal_strlit("9");
        reveal_strlit("a");
        reveal_strlit("b");
        reveal_strlit("c");
        reveal_strlit("d");
        reveal_strlit("e");
        reveal_strlit("f");
    }
    let s = match d {
        0 => "0",
        1 => "1",
        2 => "2",
        3 => "3",
        4 => "4",
        5 => "5",
        6 => "6",
        7 => "7",
        8 => "8",
        9 => "9",
        10 => "a",
        11 => "b",
        12 => "c",
        13 => "d",
        14 => "e",
        _ => "f",
    };
    assert(s@ =~= seq![hex_char(d as int)]);
    s
}

fn push_escaped_char(out: &mut String, c: char, own: &str)
    requires
        own@ == seq![c],
    ensures
        final(out)@ == old(out)@ + escape_char(c),
{
    proof {
        reveal_strlit("\\\"");
        reveal_strlit("\\\\");
        reveal_strlit("\\n");
        reveal_strlit("\\r");
        reveal_strlit("\\t");
        reveal_strlit("\\u00");
    }
    let v: u32 = c as u32;
    if c == '"' {
        out.append("\\\"");
    } else if c == '\\' {
        out.append("\\\\");
    } else if c == '\n' {
        out.append("\\n");
    } else if c == '\r' {
        out.append("\\r");
    } else if c == '\t' {
        out.append("\\t");
    } else if v < 0x20 {
        out.append("\\u00");
        out.append(hex_text(v / 16));
        out.append(hex_text(v % 16));
    } else {
        out.append(own);
    }
    assert(out@ =~= old(out)@ + escape_char(c));
}

/// `s` as it stands between the quotes of a JSON string. Nothing is allocated where no character
/// needs to be escaped.
pub fn escape_json(s: &str) -> (r: Cow<'_, str>)
    ensures
        r@ == escaped(s@),
        r is Borrowed <==> !any_escape(s@),
{
    let special = |c: char| -> (b: bool)
        ensures
            b == needs_escape(c),
    {
        needs_escape(c)
    };
    let ghost escapes = |c: char| needs_escape(c);
    let at = text::position(s, special, Ghost(escapes));
    proof {
        text::lemma_first_index(s@, escapes);
    }
    if at.is_none() {
        proof {
            assert(!any_escape(s@)) by {
                if any_escape(s@) {
                    let i = choose|i: int| 0 <= i < s@.len() && needs_escape(#[trigger] s@[i]);
                    assert(!escapes(s@[i]));
                }
            }
            lemma_escaped_plain(s@);
        }
        return Cow::Borrowed(s);
    }
    assert(any_escape(s@)) by {
        let i = text::first_index(s@, escapes);
        assert(needs_escape(s@[i]));
    }
    let mut out = String::new();
    let mut rest = s;
    let ghost mut k: int = 0;
    assert(s@.take(0) =~= Seq::<char>::empty());
    assert(s@.skip(0) =~= s@);
    while !rest.is_empty()
        invariant
            0 <= k <= s@.len(),
            rest@ == s@.skip(k),
            out@ == escaped(s@.take(k)),
        decreases s@.len() - k,
    {
        let (first, behind) = text::split_chars(rest, 1);
        match first.chars().next() {
            Some(c) => {
                assert(first@ =~= seq![c]);
                assert(c == s@[k]);
                push_escaped_char(&mut out, c, first);
            },
            None => {},
        }
        proof {
            assert(s@.take(k + 1).drop_last() =~= s@.take(k));
            assert(behind@ =~= s@.skip(k + 1));
            k = k + 1;
        }
        rest = behind;
    }
    assert(s@.take(k) =~= s@);
    Cow::Owned(out)
}

/// The value of a hexadecimal digit.
pub open spec fn hex_digit(c: char) -> Option<nat> {
    if '0' <= c && c <= '9' {
        Some((c as int - 48) as nat)
    } else if 'a' <= c && c <= 'f' {
        Some((c as int - 87) as nat)
    } else {
        None
    }
}

/// The character that the start of a JSON string stands for, and how many characters stand for
/// it; `None` where the start is no part of a JSON string.
pub open spec fn unescape_first(t: Seq<char>) -> Option<(char, int)>
    recommends
        t.len() > 0,
{
    if t[0] != '\\' {
        if needs_escape(t[0]) {
            None
        } else {
            Some((t[0], 1))
        }
    } else if t.len() < 2 {
        None
    } else if t[1] == '"' || t[1] == '\\' {
        Some((t[1], 2))
    } else if t[1] == 'n' {
        Some(('\n', 2))
    } else if t[1] == 'r' {
        Some(('\r', 2))
    } else if t[1] == 't' {
        Some(('\t', 2))
    } else if t[1] == 'u' && t.len() >= 6 && t[2] == '0' && t[3] == '0' && hex_digit(t[4]) is Some
        && hex_digit(t[5]) is Some {
        Some(((hex_digit(t[4])->0 * 16 + hex_digit(t[5])->0) as char, 6))
    } else {
        None
    }
}

/// The text that a JSON string stands for, where it uses no escapes but those of
/// [`escape_char`].
pub open spec fn unescaped(t: Seq<char>) -> Option<Seq<char>>
    decreases t.len(),
{
    if t.len() == 0 {
        Some(Seq::empty())
    } else {
        match unescape_first(t) {
            None => None,
            Some((c, n)) => match unescaped(t.skip(n)) {
                Some(rest) => Some(seq![c] + rest),
                None => None,
            },
        }
    }
}

proof fn lemma_hex(d: int)
    requires
        0 <= d < 16,
    ensures
        hex_char(d) as u32 >= 0x30,
        hex_char(d) != '"',
        hex_digit(hex_char(d)) == Some(d as nat),
{
}

/// What stands for one character holds no control character, and a quote in it stands behind a
/// backslash.
proof fn lemma_escape_char(c: char)
    ensures
        escape_char(c).len() > 0,
        forall|i: int| 0 <= i < escape_char(c).len() ==> #[trigger] escape_char(c)[i] as u32 >= 0x20,
        forall|i: int|
            0 <= i < escape_char(c).len() && #[trigger] escape_char(c)[i] == '"' ==> i > 0
                && escape_char(c)[i - 1] == '\\',
{
    if (c as u32) < 0x20 {
        lemma_hex(c as int / 16);
        lemma_hex(c as int % 16);
    }
}

proof fn lemma_unescape_char(c: char, rest: Seq<char>)
    ensures
        unescape_first(escape_char(c) + rest) == Some((c, escape_char(c).len() as int)),
{
    let head = escape_char(c);
    let t = head + rest;
    assert(forall|i: int| 0 <= i < head.len() ==> t[i] == head[i]);
    if (c as u32) < 0x20 {
        lemma_hex(c as int / 16);
        lemma_hex(c as int % 16);
        char_u32_cast(c, c as u32);
    }
}

proof fn lemma_escaped_first(s: Seq<char>)
    requires
        s.len() > 0,
    ensures
        escaped(s) == escape_char(s[0]) + escaped(s.drop_first()),
    decreases s.len(),
{
    if s.len() == 1 {
        assert(s.drop_last() =~= Seq::<char>::empty());
        assert(s.drop_first() =~= Seq::<char>::empty());
        assert(escaped(s.drop_last()) =~= Seq::<char>::empty());
        assert(escaped(s.drop_first()) =~= Seq::<char>::empty());
        assert(escaped(s) =~= escape_char(s[0]) + escaped(s.drop_first()));
    } else {
        lemma_escaped_first(s.drop_last());
        assert(s.drop_last().drop_first() =~= s.drop_first().drop_last());
        assert(escaped(s) =~= escape_char(s[0]) + escaped(s.drop_first()));
    }
}

/// What an escaped text stands for is that text: no two texts are escaped alike.
pub proof fn law_escaped_reads_back(s: Seq<char>)
    ensures
        unescaped(escaped(s)) == Some(s),
    decreases s.len(),
{
    if s.len() > 0 {
        lemma_escaped_first(s);
        let c = s[0];
        let head = escape_char(c);
        let t = escaped(s);
        let rest = escaped(s.drop_first());
        law_escaped_reads_back(s.drop_first());
        assert(t.skip(head.len() as int) =~= rest);
        lemma_unescape_char(c, rest);
        assert(seq![c] + s.drop_first() =~= s);
    }
}

/// An escaped text holds no control character, and every quote in it stands behind a
/// backslash: it neither breaks a line nor ends the JSON string that it stands in.
pub proof fn law_escaped_stays_inside(s: Seq<char>)
    ensures
        forall|i: int| 0 <= i < escaped(s).len() ==> #[trigger] escaped(s)[i] as u32 >= 0x20,
        forall|i: int|
            0 <= i < escaped(s).len() && #[trigger] escaped(s)[i] == '"' ==> i > 0 && escaped(s)[i
                - 1] == '\\',
    decreases s.len(),
{
    if s.len() > 0 {
        law_escaped_stays_inside(s.drop_last());
        lemma_escape_char(s.last());
        let head = escaped(s.drop_last());
        let tail = escape_char(s.last());
        let t = escaped(s);
        assert forall|i: int| 0 <= i < t.len() implies #[trigger] t[i] as u32 >= 0x20 by {
            if i < head.len() {
                assert(t[i] == head[i]);
            } else {
                assert(t[i] == tail[i - head.len()]);
            }
        }
        assert forall|i: int| 0 <= i < t.len() && #[trigger] t[i] == '"' implies i > 0 && t[i - 1]
            == '\\' by {
            if i < head.len() {
                assert(t[i] == head[i]);
                assert(t[i - 1] == head[i - 1]);
            } else {
                assert(t[i] == tail[i - head.len()]);
            }
        }
    }
}

// ---------------------------------------------------------------------------
// Counters
// ---------------------------------------------------------------------------
/// What happened in the background since the last summary.
#[derive(Debug, Clone, Copy, PartialEq, Eq, Structural)]
pub struct SessionStats {
    pub bg_spawns: u32,
    pub bg_deaths: u32,
    pub spawn_rss_kb: i64,
}

impl Default for SessionStats {
    fn default() -> (stats: Self)
        ensures
            stats == (SessionStats { bg_spawns: 0, bg_deaths: 0, spawn_rss_kb: 0 }),
    {
        SessionStats { bg_spawns: 0, bg_deaths: 0, spawn_rss_kb: 0 }
    }
}

// ---------------------------------------------------------------------------
// The sink
// ---------------------------------------------------------------------------
/// The log file is set aside before it grows to this size: 512 KB.
pub const ROTATION_THRESHOLD_BYTES: usize = 524_288;

/// Where records go. The sink decides; its owner holds the file and does what was decided.
pub struct TelemetrySink {
    log_open: bool,
    bytes_written: usize,
    log_path: String,
    json_stdout: bool,
    stdout_tty: bool,
}

/// The state of a [`TelemetrySink`].
#[verifier::ext_equal]
pub struct SinkModel {
    /// The path of the log file.
    pub path: Seq<char>,
    /// Whether the log file is open. It is the one thing that says whether the log is on.
    pub log_open: bool,
    /// The size of the log file.
    pub bytes_written: nat,
    /// Whether JSON goes to the standard output, whoever reads it.
    pub json_stdout: bool,
    /// Whether the standard output is a terminal.
    pub stdout_tty: bool,
}

/// What is to be done with the log file.
#[derive(Debug, Clone, Copy, PartialEq, Eq, Structural)]
pub enum FileStep {
    /// Leave it as it is.
    Keep,
    /// Open it to append to it, and report with [`TelemetrySink::opened`].
    Open,
    /// Set it aside under its other name, open a new one, and report with
    /// [`TelemetrySink::rotated`].
    Rotate,
    /// Flush and close it.
    Close,
}

/// What is to be done with a line for the log.
#[derive(Debug, Clone, Copy, PartialEq, Eq, Structural)]
pub enum WriteStep {
    /// Drop it: the log is off.
    Skip,
    /// Append it and report with [`TelemetrySink::appended`].
    Append,
    /// Set the file aside first, as [`FileStep::Rotate`] says, and append it where a new one could
    /// be opened.
    RotateFirst,
}

/// In which order the log is switched and the record of a new configuration is emitted.
#[derive(Debug, Clone, Copy, PartialEq, Eq, Structural)]
pub enum ReloadOrder {
    SwitchFirst,
    RecordFirst,
}

/// What goes to the standard output.
#[derive(Debug, Clone, Copy, PartialEq, Eq, Structural)]
pub enum StdoutChoice {
    Nothing,
    Json,
    Table,
}

/// What is to be rendered of a record, and where it goes.
#[derive(Debug, Clone, Copy, PartialEq, Eq, Structural)]
pub struct EmitPlan {
    /// Whether the JSON is rendered.
    pub json: bool,
    /// Whether the row of the table is rendered.
    pub table: bool,
    /// What goes to the standard output.
    pub stdout: StdoutChoice,
    /// Whether the JSON goes to the log.
    pub log: bool,
}

impl SinkModel {
    /// Whether a record goes nowhere.
    pub open spec fn silent(self) -> bool {
        !self.log_open && !self.json_stdout && !self.stdout_tty
    }

    /// Whether rows of the table go to the standard output.
    pub open spec fn tabular_stdout(self) -> bool {
        !self.json_stdout && self.stdout_tty
    }

    /// What is to be rendered of a record, and where it goes.
    pub open spec fn plan(self) -> EmitPlan {
        EmitPlan {
            json: self.json_stdout || self.log_open,
            table: self.tabular_stdout(),
            stdout: if self.json_stdout {
                StdoutChoice::Json
            } else if self.stdout_tty {
                StdoutChoice::Table
            } else {
                StdoutChoice::Nothing
            },
            log: self.log_open,
        }
    }

    /// Whether `len` more bytes would bring the file to its limit.
    pub open spec fn rotation_due(self, len: nat) -> bool {
        self.bytes_written + len >= ROTATION_THRESHOLD_BYTES
    }

    /// How a file of this size is opened.
    pub open spec fn open_step(size: nat) -> FileStep {
        if size >= ROTATION_THRESHOLD_BYTES {
            FileStep::Rotate
        } else {
            FileStep::Open
        }
    }

    /// What is to be done with a line of `len` bytes, its line feed among them.
    pub open spec fn write_step(self, len: nat) -> WriteStep {
        if !self.log_open {
            WriteStep::Skip
        } else if self.rotation_due(len) {
            WriteStep::RotateFirst
        } else {
            WriteStep::Append
        }
    }

    /// The state after the file was set aside, where `reopened` says whether a new one could be
    /// opened.
    pub open spec fn after_rotation(self, reopened: bool) -> SinkModel {
        SinkModel { log_open: reopened, bytes_written: 0, ..self }
    }

    /// The state after the log was switched and what was decided was done with a file of this size, where
    /// `ok` says whether a file could be opened if one had to be.
    pub open spec fn after_switch(self, on: bool, size: nat, ok: bool) -> SinkModel {
        let sized = SinkModel { bytes_written: size, ..self };
        if on == self.log_open {
            self
        } else if !on {
            SinkModel { log_open: false, ..self }
        } else if Self::open_step(size) == FileStep::Rotate {
            sized.after_rotation(ok)
        } else {
            SinkModel { log_open: ok, ..sized }
        }
    }

    /// The state in which the record of a new configuration is emitted, where `wanted` says whether that
    /// configuration wants the log.
    pub open spec fn at_reload(self, wanted: bool, size: nat, ok: bool) -> SinkModel {
        if Self::order(wanted) == ReloadOrder::SwitchFirst {
            self.after_switch(wanted, size, ok)
        } else {
            self
        }
    }

    /// The record of a new configuration goes to the log that it switches: behind a switch that turns it
    /// on, and before one that turns it off.
    pub open spec fn order(wanted: bool) -> ReloadOrder {
        if wanted {
            ReloadOrder::SwitchFirst
        } else {
            ReloadOrder::RecordFirst
        }
    }

    /// The state after a line of `len` bytes was written, where `reopened` says whether a new
    /// file could be opened if the old one had to be set aside.
    pub open spec fn after_write(self, len: nat, reopened: bool) -> SinkModel {
        let ready = if self.write_step(len) == WriteStep::RotateFirst {
            self.after_rotation(reopened)
        } else {
            self
        };
        if ready.log_open {
            SinkModel { bytes_written: ready.bytes_written + len, ..ready }
        } else {
            ready
        }
    }
}

impl View for TelemetrySink {
    type V = SinkModel;

    closed spec fn view(&self) -> SinkModel {
        SinkModel {
            path: self.log_path@,
            log_open: self.log_open,
            bytes_written: self.bytes_written as nat,
            json_stdout: self.json_stdout,
            stdout_tty: self.stdout_tty,
        }
    }
}

impl TelemetrySink {
    /// A sink for a log file of this size, which is 0 where there is none, and what is to be done
    /// with the file. `stdout_tty` says whether the standard output is a terminal.
    pub fn with_stdout(
        log_path: &str,
        json_stdout: bool,
        log_enabled: bool,
        stdout_tty: bool,
        file_size: usize,
    ) -> (r: (Self, FileStep))
        ensures
            r.0@ == (SinkModel {
                path: log_path@,
                log_open: false,
                bytes_written: file_size as nat,
                json_stdout,
                stdout_tty,
            }),
            r.1 == if log_enabled {
                SinkModel::open_step(file_size as nat)
            } else {
                FileStep::Keep
            },
    {
        let sink = TelemetrySink {
            log_open: false,
            bytes_written: file_size,
            log_path: log_path.to_owned(),
            json_stdout,
            stdout_tty,
        };
        let step = if !log_enabled {
            FileStep::Keep
        } else if file_size >= ROTATION_THRESHOLD_BYTES {
            FileStep::Rotate
        } else {
            FileStep::Open
        };
        (sink, step)
    }

    /// The path of the log file.
    pub fn log_path(&self) -> (s: &str)
        ensures
            s@ == self@.path,
    {
        self.log_path.as_str()
    }

    /// The path under which a log file is set aside.
    pub fn old_log_path(&self) -> (s: String)
        ensures
            s@ == self@.path + ".old"@,
    {
        crate::render::join(self.log_path.as_str(), ".old")
    }

    /// Whether the log file is open.
    pub fn is_open(&self) -> (yes: bool)
        ensures
            yes == self@.log_open,
    {
        self.log_open
    }

    /// Switches the log on or off, where the file has this size, which is 0 where there is none.
    /// Returns what is to be done with the file.
    ///
    /// The size is taken anew, since others may have changed the file while the log was off. A log
    /// that could not be opened counts as off, so that switching it on tries again.
    pub fn set_log_enabled(&mut self, on: bool, file_size: usize) -> (step: FileStep)
        ensures
            step == if on == old(self)@.log_open {
                FileStep::Keep
            } else if on {
                SinkModel::open_step(file_size as nat)
            } else {
                FileStep::Close
            },
            final(self)@ == if on == old(self)@.log_open {
                old(self)@
            } else if on {
                SinkModel { bytes_written: file_size as nat, ..old(self)@ }
            } else {
                SinkModel { log_open: false, ..old(self)@ }
            },
    {
        if on == self.log_open {
            return FileStep::Keep;
        }
        if on {
            self.bytes_written = file_size;
            if file_size >= ROTATION_THRESHOLD_BYTES {
                FileStep::Rotate
            } else {
                FileStep::Open
            }
        } else {
            self.log_open = false;
            FileStep::Close
        }
    }

    /// In which order the log is switched and the record of a new configuration is emitted, where `wanted`
    /// says whether that configuration wants the log.
    pub fn reload_order(&self, wanted: bool) -> (order: ReloadOrder)
        ensures
            order == SinkModel::order(wanted),
    {
        if wanted {
            ReloadOrder::SwitchFirst
        } else {
            ReloadOrder::RecordFirst
        }
    }

    /// Takes note of whether the file could be opened.
    pub fn opened(&mut self, ok: bool)
        ensures
            final(self)@ == (SinkModel { log_open: ok, ..old(self)@ }),
    {
        self.log_open = ok;
    }

    /// Takes note that the file was set aside, and of whether a new one could be opened.
    pub fn rotated(&mut self, reopened: bool)
        ensures
            final(self)@ == old(self)@.after_rotation(reopened),
    {
        self.log_open = reopened;
        self.bytes_written = 0;
    }

    /// Whether a record goes nowhere: the log is off, no JSON is asked for on the standard output,
    /// and no terminal is there to read the table.
    pub fn silent(&self) -> (yes: bool)
        ensures
            yes == self@.silent(),
    {
        !self.log_open && !self.json_stdout && !self.stdout_tty
    }

    /// Whether rows of the table, and the header above them, go to the standard output.
    pub fn tabular_stdout(&self) -> (yes: bool)
        ensures
            yes == self@.tabular_stdout(),
    {
        !self.json_stdout && self.stdout_tty
    }

    /// What is to be rendered of a record, and where it goes. Nothing is rendered that goes nowhere.
    pub fn emit_with(&self) -> (plan: EmitPlan)
        ensures
            plan == self@.plan(),
    {
        EmitPlan {
            json: self.json_stdout || self.log_open,
            table: !self.json_stdout && self.stdout_tty,
            stdout: if self.json_stdout {
                StdoutChoice::Json
            } else if self.stdout_tty {
                StdoutChoice::Table
            } else {
                StdoutChoice::Nothing
            },
            log: self.log_open,
        }
    }

    /// What is to be done with a line for the log, to which a line feed is added.
    pub fn write_to_log(&self, line: &str) -> (step: WriteStep)
        ensures
            step == self@.write_step(encode_utf8(line@).len() + 1),
    {
        if !self.log_open {
            return WriteStep::Skip;
        }
        let len: usize = line.as_bytes().len();
        if self.bytes_written >= ROTATION_THRESHOLD_BYTES || len >= ROTATION_THRESHOLD_BYTES
            - self.bytes_written - 1 {
            WriteStep::RotateFirst
        } else {
            WriteStep::Append
        }
    }

    /// Takes note that a line was appended, with its line feed.
    pub fn appended(&mut self, line: &str)
        ensures
            final(self)@ == (SinkModel {
                bytes_written: if old(self)@.bytes_written + encode_utf8(line@).len() + 1
                    <= usize::MAX {
                    old(self)@.bytes_written + encode_utf8(line@).len() + 1
                } else {
                    usize::MAX as nat
                },
                ..old(self)@
            }),
    {
        let len: usize = line.as_bytes().len();
        self.bytes_written = self.bytes_written.saturating_add(len).saturating_add(1);
    }
}

/// A record goes nowhere just where nothing of it is rendered, and no half of it is rendered
/// without a place to go.
pub proof fn law_silent_renders_nothing(sink: SinkModel)
    ensures
        sink.silent() <==> !sink.plan().json && !sink.plan().table,
        sink.silent() <==> sink.plan().stdout == StdoutChoice::Nothing && !sink.plan().log,
        sink.plan().json <==> sink.plan().stdout == StdoutChoice::Json || sink.plan().log,
        sink.plan().table <==> sink.plan().stdout == StdoutChoice::Table,
{
}

/// The log switch changes nothing about the standard output.
pub proof fn law_log_switch_keeps_stdout(sink: SinkModel, log_open: bool, bytes_written: nat)
    ensures
        (SinkModel { log_open, bytes_written, ..sink }).plan().stdout == sink.plan().stdout,
        (SinkModel { log_open, bytes_written, ..sink }).plan().table == sink.plan().table,
{
}

/// The log file stays below its limit, except where one line alone is that long.
pub proof fn law_log_stays_below_limit(sink: SinkModel, len: nat, reopened: bool)
    requires
        sink.bytes_written < ROTATION_THRESHOLD_BYTES,
    ensures
        ({
            let after = sink.after_write(len, reopened);
            ||| after.bytes_written < ROTATION_THRESHOLD_BYTES
            ||| after.bytes_written == len
        }),
{
}

/// A log that is switched on starts below its limit, whatever became of the file while it was off, and a file
/// that is still below it is not set aside.
pub proof fn law_switched_log_starts_below_limit(sink: SinkModel, on: bool, size: nat, ok: bool)
    requires
        sink.log_open ==> sink.bytes_written < ROTATION_THRESHOLD_BYTES,
    ensures
        ({
            let after = sink.after_switch(on, size, ok);
            &&& after.log_open ==> after.bytes_written < ROTATION_THRESHOLD_BYTES
            &&& !sink.log_open && on && size < ROTATION_THRESHOLD_BYTES ==> after.bytes_written == size
        }),
{
}

/// The record of a new configuration reaches the log that it switches: it is written where the log is to be
/// on and could be opened, and where the log was on and is to be off.
pub proof fn law_reload_record_reaches_its_log(sink: SinkModel, wanted: bool, size: nat, ok: bool)
    ensures
        sink.at_reload(wanted, size, ok).plan().log <==> sink.log_open || (wanted && ok),
{
}

/// A log that is off stays off and its size stays as it is, whatever is written.
pub proof fn law_disabled_log_drops_lines(sink: SinkModel, len: nat, reopened: bool)
    requires
        !sink.log_open,
    ensures
        sink.after_write(len, reopened) == sink,
{
}

/// A line is dropped where the log is off. Where it is on, the file is set aside first if the line would
/// bring it to 512 KB. A file of that size is set aside when the log is switched on. A file that was set
/// aside starts empty.
pub proof fn law_when_the_log_is_set_aside(sink: SinkModel, len: nat, size: nat, reopened: bool)
    ensures
        !sink.log_open <==> sink.write_step(len) == WriteStep::Skip,
        sink.log_open && sink.bytes_written + len >= 512 * 1024 <==> sink.write_step(len)
            == WriteStep::RotateFirst,
        sink.log_open && sink.bytes_written + len < 512 * 1024 <==> sink.write_step(len)
            == WriteStep::Append,
        size >= 512 * 1024 ==> SinkModel::open_step(size) == FileStep::Rotate,
        size < 512 * 1024 ==> SinkModel::open_step(size) == FileStep::Open,
        sink.after_rotation(reopened) == (SinkModel {
            log_open: reopened,
            bytes_written: 0,
            ..sink
        }),
{
}

/// Where a record goes: its JSON to the log where that is on, and to the standard output where that is asked
/// for; else its row goes there, if a terminal reads it.
pub proof fn law_where_records_go(sink: SinkModel)
    ensures
        sink.plan().log == sink.log_open,
        sink.json_stdout ==> sink.plan().stdout == StdoutChoice::Json,
        !sink.json_stdout && sink.stdout_tty ==> sink.plan().stdout == StdoutChoice::Table,
        !sink.json_stdout && !sink.stdout_tty ==> sink.plan().stdout == StdoutChoice::Nothing,
        sink.silent() <==> !sink.log_open && !sink.json_stdout && !sink.stdout_tty,
        sink.tabular_stdout() <==> !sink.json_stdout && sink.stdout_tty,
        SinkModel::order(true) == ReloadOrder::SwitchFirst,
        SinkModel::order(false) == ReloadOrder::RecordFirst,
{
}

/// The text of a time of day reads back as that time: two digits each for the hour, the minute and the
/// second, and three for the milliseconds.
pub proof fn law_times_of_day_read_back(hour: u32, min: u32, sec: u32, millis: nat)
    requires
        hour < 100,
        min < 100,
        sec < 100,
        millis < 1000,
    ensures
        ({
            let t = time_text(hour, min, sec, millis);
            &&& t.len() == 12
            &&& t[2] == ':' && t[5] == ':' && t[8] == '.'
            &&& text::is_decimal(t.subrange(0, 2)) && text::decimal_value(t.subrange(0, 2)) == hour
            &&& text::is_decimal(t.subrange(3, 5)) && text::decimal_value(t.subrange(3, 5)) == min
            &&& text::is_decimal(t.subrange(6, 8)) && text::decimal_value(t.subrange(6, 8)) == sec
            &&& text::is_decimal(t.subrange(9, 12)) && text::decimal_value(t.subrange(9, 12)) == millis
        }),
{
    let t = time_text(hour, min, sec, millis);
    lemma_two_digits(t.subrange(0, 2), hour as nat);
    lemma_two_digits(t.subrange(3, 5), min as nat);
    lemma_two_digits(t.subrange(6, 8), sec as nat);
    let m = t.subrange(9, 12);
    let none = Seq::<char>::empty();
    assert(m.drop_last() =~= seq![m[0], m[1]]);
    assert(m.drop_last().drop_last() =~= seq![m[0]]);
    assert(m.drop_last().drop_last().drop_last() =~= none);
    reveal_with_fuel(text::decimal_value, 5);
    assert(text::is_digit(m[0]) && text::is_digit(m[1]) && text::is_digit(m[2]));
}

proof fn lemma_two_digits(s: Seq<char>, n: nat)
    requires
        n < 100,
        s =~= seq![digit_char(n as int / 10), digit_char(n as int % 10)],
    ensures
        text::is_decimal(s),
        text::decimal_value(s) == n,
{
    let none = Seq::<char>::empty();
    assert(s.drop_last() =~= seq![s[0]]);
    assert(s.drop_last().drop_last() =~= none);
    reveal_with_fuel(text::decimal_value, 4);
    assert(text::is_digit(s[0]) && text::is_digit(s[1]));
}

proof fn lemma_hex_digit(d: int)
    requires
        0 <= d < 16,
    ensures
        hex_char(d) == "0123456789abcdef"@[d],
{
    reveal_strlit("0123456789abcdef");
}

/// A backslash, a quote and a control character are escaped, each as JSON says, and every other character
/// stands for itself. Texts are escaped piece by piece.
pub proof fn law_what_is_escaped(c: char, a: Seq<char>, b: Seq<char>)
    ensures
        c as u32 >= 0x20 && c != '"' && c != '\\' ==> escaped(seq![c]) == seq![c],
        escaped(seq!['"']) == seq!['\\', '"'],
        escaped(seq!['\\']) == seq!['\\', '\\'],
        escaped(seq!['\n']) == seq!['\\', 'n'],
        escaped(seq!['\r']) == seq!['\\', 'r'],
        escaped(seq!['\t']) == seq!['\\', 't'],
        (c as u32) < 0x20 && c != '\n' && c != '\r' && c != '\t' ==> escaped(seq![c]) == seq![
            '\\',
            'u',
            '0',
            '0',
            "0123456789abcdef"@[c as int / 16],
            "0123456789abcdef"@[c as int % 16],
        ],
        escaped(a + b) == escaped(a) + escaped(b),
    decreases b.len(),
{
    let none = Seq::<char>::empty();
    assert(seq![c].drop_last() =~= none);
    assert(seq!['"'].drop_last() =~= none);
    assert(seq!['\\'].drop_last() =~= none);
    assert(seq!['\n'].drop_last() =~= none);
    assert(seq!['\r'].drop_last() =~= none);
    assert(seq!['\t'].drop_last() =~= none);
    assert(escaped(none) =~= none);
    assert(escaped(seq!['\r']) =~= escape_char('\r'));
    assert(escaped(seq!['\t']) =~= escape_char('\t'));
    if (c as u32) < 0x20 {
        lemma_hex_digit(c as int / 16);
        lemma_hex_digit(c as int % 16);
    }
    assert(escaped(seq![c]) =~= escape_char(c));
    assert(escaped(seq!['"']) =~= escape_char('"'));
    assert(escaped(seq!['\\']) =~= escape_char('\\'));
    assert(escaped(seq!['\n']) =~= escape_char('\n'));
    if b.len() == 0 {
        assert(a + b =~= a);
        assert(escaped(a + b) =~= escaped(a) + escaped(b));
    } else {
        law_what_is_escaped(c, a, b.drop_last());
        assert((a + b).drop_last() =~= a + b.drop_last());
        assert((a + b).last() == b.last());
        assert(escaped(a + b) =~= escaped(a) + escaped(b));
    }
}

} // verus!
