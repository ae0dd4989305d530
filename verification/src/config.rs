//! Where the daemon keeps its files, and the parameters that `daemon.conf` sets.
use vstd::prelude::*;

use crate::parser;
use crate::render;
use crate::text;

verus! {

/// The files and directories of the daemon.
#[derive(Debug, Clone, PartialEq, Eq)]
pub struct ConfigPaths {
    pub base_dir: String,
    pub config_dir: String,
    pub logs_dir: String,
    pub config_file: String,
    pub exclude_file: String,
    pub games_file: String,
    pub operations_log: String,
}

/// The directory that everything lies in: below the module, where the daemon runs as one,
/// else at a fixed place.
pub open spec fn base_directory(module: Option<Seq<char>>) -> Seq<char> {
    match module {
        Some(path) if text::trimmed(path).len() > 0 => text::trim_end_by(
            text::trimmed(path),
            text::is_char('/'),
        ) + "/mlmk"@,
        _ => "/data/local/tmp/mlmk"@,
    }
}

impl ConfigPaths {
    /// The paths lie where they belong below the base directory, which has no slash at its end.
    pub open spec fn lies_in(&self, base: Seq<char>) -> bool {
        let root = text::trim_end_by(base, text::is_char('/'));
        &&& self.base_dir@ == root
        &&& self.config_dir@ == root + "/config"@
        &&& self.logs_dir@ == root + "/logs"@
        &&& self.config_file@ == root + "/config"@ + "/daemon.conf"@
        &&& self.exclude_file@ == root + "/config"@ + "/exclude.list"@
        &&& self.games_file@ == root + "/config"@ + "/games.list"@
        &&& self.operations_log@ == root + "/logs"@ + "/operations.log"@
    }

    /// The paths of the daemon, where `module` is the value of the environment variable
    /// `MODPATH`, if it has one.
    pub fn get(module: Option<&str>) -> (paths: ConfigPaths)
        ensures
            paths.lies_in(
                base_directory(
                    match module {
                        Some(path) => Some(path@),
                        None => None,
                    },
                ),
            ),
    {
        if let Some(path) = module {
            let bare = text::trim(path);
            if !bare.is_empty() {
                let base = render::join(text::trim_end_matches(bare, '/'), "/mlmk");
                return Self::from_base(base.as_str());
            }
        }
        Self::from_base("/data/local/tmp/mlmk")
    }

    /// The paths below a base directory.
    pub fn from_base(base: &str) -> (paths: ConfigPaths)
        ensures
            paths.lies_in(base@),
    {
        let root = text::trim_end_matches(base, '/');
        let config_dir = render::join(root, "/config");
        let logs_dir = render::join(root, "/logs");
        let config_file = render::join(config_dir.as_str(), "/daemon.conf");
        let exclude_file = render::join(config_dir.as_str(), "/exclude.list");
        let games_file = render::join(config_dir.as_str(), "/games.list");
        let operations_log = render::join(logs_dir.as_str(), "/operations.log");
        ConfigPaths {
            base_dir: root.to_owned(),
            config_dir,
            logs_dir,
            config_file,
            exclude_file,
            games_file,
            operations_log,
        }
    }
}

/// The parameters that can be changed while the daemon runs.
#[derive(Debug, Clone, Copy, PartialEq, Eq, Structural)]
pub struct RuntimeConfig {
    /// How long an app must have been idle before it can be evicted, in seconds.
    pub t_idle_sec: u64,
    /// How many of the apps last seen in the foreground are immune.
    pub lru_protect_depth: usize,
    /// Memory is low where less than this percentage of it is available.
    pub mem_critical_percent: u64,
    /// How many apps the foreground history holds.
    pub fg_lru_max_depth: usize,
    /// Whether apps are evicted sooner while the screen is off.
    pub screen_off_harvest: bool,
    /// How many apps one pass evicts at most.
    pub max_kills_per_pass: usize,
    /// The least `oom_score_adj` that lets an app be evicted.
    pub min_oom_score_adj: i32,
    /// Whether the records are written to the log file.
    pub log_enabled: bool,
}

impl Default for RuntimeConfig {
    fn default() -> (config: Self)
        ensures
            config == RuntimeConfig::standard(),
    {
        RuntimeConfig {
            t_idle_sec: 180,
            lru_protect_depth: 3,
            mem_critical_percent: 10,
            fg_lru_max_depth: 10,
            screen_off_harvest: true,
            max_kills_per_pass: 2,
            min_oom_score_adj: 900,
            log_enabled: true,
        }
    }
}

/// The `bool` that `s` writes.
pub open spec fn bool_value(s: Seq<char>) -> Option<bool> {
    if s == "true"@ {
        Some(true)
    } else if s == "false"@ {
        Some(false)
    } else {
        None
    }
}

/// `n` moved into the range from `low` to `high`.
pub open spec fn clamped(n: int, low: int, high: int) -> int {
    if n < low {
        low
    } else if n > high {
        high
    } else {
        n
    }
}

fn parse_bool(s: &str) -> (r: Option<bool>)
    ensures
        r == bool_value(s@),
{
    if text::same(s, "true") {
        Some(true)
    } else if text::same(s, "false") {
        Some(false)
    } else {
        None
    }
}

fn parse_usize(s: &str) -> (r: Option<usize>)
    ensures
        match r {
            Some(v) => text::unsigned_value(s@, usize::MAX as nat) == Some(v as nat),
            None => text::unsigned_value(s@, usize::MAX as nat) is None,
        },
{
    match text::parse_unsigned(s, usize::MAX as u64) {
        Some(v) => Some(v as usize),
        None => None,
    }
}

impl RuntimeConfig {
    /// The parameters that hold until a file says otherwise.
    pub open spec fn standard() -> RuntimeConfig {
        RuntimeConfig {
            t_idle_sec: 180,
            lru_protect_depth: 3,
            mem_critical_percent: 10,
            fg_lru_max_depth: 10,
            screen_off_harvest: true,
            max_kills_per_pass: 2,
            min_oom_score_adj: 900,
            log_enabled: true,
        }
    }

    /// At least one app may be evicted in a pass, and the threshold lies between services and
    /// cached apps.
    pub open spec fn in_range(self) -> bool {
        self.max_kills_per_pass >= 1 && 500 <= self.min_oom_score_adj <= 900
    }

    /// The parameters after `key` was set to `val`. An unknown key, or a value that is none of
    /// the key's, changes nothing.
    pub open spec fn with(self, key: Seq<char>, val: Seq<char>) -> RuntimeConfig {
        let count = text::unsigned_value(val, usize::MAX as nat);
        let long = text::unsigned_value(val, u64::MAX as nat);
        if key == "t_idle_sec"@ {
            match long {
                Some(n) => RuntimeConfig { t_idle_sec: n as u64, ..self },
                None => self,
            }
        } else if key == "lru_protect_depth"@ {
            match count {
                Some(n) => RuntimeConfig { lru_protect_depth: n as usize, ..self },
                None => self,
            }
        } else if key == "mem_critical_percent"@ {
            match long {
                Some(n) => RuntimeConfig { mem_critical_percent: n as u64, ..self },
                None => self,
            }
        } else if key == "fg_lru_max_depth"@ {
            match count {
                Some(n) => RuntimeConfig { fg_lru_max_depth: n as usize, ..self },
                None => self,
            }
        } else if key == "screen_off_harvest"@ {
            match bool_value(val) {
                Some(b) => RuntimeConfig { screen_off_harvest: b, ..self },
                None => self,
            }
        } else if key == "max_kills_per_pass"@ {
            match count {
                Some(n) => RuntimeConfig {
                    max_kills_per_pass: if n == 0 {
                        1
                    } else {
                        n as usize
                    },
                    ..self
                },
                None => self,
            }
        } else if key == "min_oom_score_adj"@ {
            match text::signed_value(val) {
                Some(n) => RuntimeConfig { min_oom_score_adj: clamped(n, 500, 900) as i32, ..self },
                None => self,
            }
        } else if key == "log_enabled"@ {
            match bool_value(val) {
                Some(b) => RuntimeConfig { log_enabled: b, ..self },
                None => self,
            }
        } else {
            self
        }
    }

    /// The parameters after one line: `key = value`, with a comment behind `#` or not. Blank
    /// lines and comments change nothing.
    pub open spec fn after_line(self, line: Seq<char>) -> RuntimeConfig {
        let s = text::trimmed(line);
        if parser::begins(s, '#') {
            self
        } else {
            match text::split_at_char(s, '=') {
                Some((key, val)) => self.with(
                    text::trimmed(key),
                    text::trimmed(text::before_char(val, '#')),
                ),
                None => self,
            }
        }
    }

    /// The parameters after the lines, one after the other.
    pub open spec fn after_lines(self, lines: Seq<Seq<char>>) -> RuntimeConfig
        decreases lines.len(),
    {
        if lines.len() == 0 {
            self
        } else {
            self.after_line(lines[0]).after_lines(lines.drop_first())
        }
    }

    fn set(&mut self, key: &str, val: &str)
        ensures
            *final(self) == old(self).with(key@, val@),
    {
        if text::same(key, "t_idle_sec") {
            if let Some(n) = text::parse_u64(val) {
                self.t_idle_sec = n;
            }
        } else if text::same(key, "lru_protect_depth") {
            if let Some(n) = parse_usize(val) {
                self.lru_protect_depth = n;
            }
        } else if text::same(key, "mem_critical_percent") {
            if let Some(n) = text::parse_u64(val) {
                self.mem_critical_percent = n;
            }
        } else if text::same(key, "fg_lru_max_depth") {
            if let Some(n) = parse_usize(val) {
                self.fg_lru_max_depth = n;
            }
        } else if text::same(key, "screen_off_harvest") {
            if let Some(b) = parse_bool(val) {
                self.screen_off_harvest = b;
            }
        } else if text::same(key, "max_kills_per_pass") {
            if let Some(n) = parse_usize(val) {
                self.max_kills_per_pass = if n == 0 {
                    1
                } else {
                    n
                };
            }
        } else if text::same(key, "min_oom_score_adj") {
            if let Some(n) = text::parse_i32(val) {
                self.min_oom_score_adj = if n < 500 {
                    500
                } else if n > 900 {
                    900
                } else {
                    n
                };
            }
        } else if text::same(key, "log_enabled") {
            if let Some(b) = parse_bool(val) {
                self.log_enabled = b;
            }
        }
    }

    /// Sets the parameters that the lines of `content` set. Lines that set none are ignored.
    pub fn parse_str(&mut self, content: &str)
        ensures
            *final(self) == old(self).after_lines(text::lines(content@)),
    {
        let mut rest = content;
        loop
            invariant
                old(self).after_lines(text::lines(content@)) == self.after_lines(
                    text::lines(rest@),
                ),
            decreases rest@.len(),
        {
            let ghost all = text::lines(rest@);
            match text::next_line(rest) {
                None => {
                    return;
                },
                Some((line, tail)) => {
                    assert(all.len() > 0 && all[0] == line@);
                    assert(all.drop_first() =~= text::lines(tail@));
                    let s = text::trim(line);
                    if !text::starts_with_char(s, '#') {
                        if let Some((key, val)) = text::split_once(s, '=') {
                            self.set(text::trim(key), text::trim(text::take_before(val, '#')));
                        }
                    }
                    rest = tail;
                },
            }
        }
    }

    /// The line that tells the active parameters.
    pub open spec fn summary(self) -> Seq<char> {
        "[CONFIG] Active: t_idle="@ + render::decimal(self.t_idle_sec as nat) + "s, lru_depth="@
            + render::decimal(self.lru_protect_depth as nat) + ", mem_crit="@ + render::decimal(
            self.mem_critical_percent as nat,
        ) + "%, fg_lru_max="@ + render::decimal(self.fg_lru_max_depth as nat)
            + ", screen_off_harvest="@ + render::boolean(self.screen_off_harvest)
            + ", max_kills_per_pass="@ + render::decimal(self.max_kills_per_pass as nat)
            + ", min_oom_adj="@ + render::signed(self.min_oom_score_adj as int)
    }

    /// Takes over what the file says, where it could be read: `content` is what it holds.
    /// Returns the line that tells the active parameters, unless the file could not be read or
    /// `quiet` is set.
    pub fn load_from_file(&mut self, content: Option<&str>, quiet: bool) -> (line: Option<String>)
        ensures
            match content {
                Some(s) => *final(self) == old(self).after_lines(text::lines(s@)),
                None => *final(self) == *old(self),
            },
            match line {
                Some(l) => content is Some && !quiet && l@ == final(self).summary(),
                None => content is None || quiet,
            },
    {
        match content {
            None => None,
            Some(s) => {
                self.parse_str(s);
                if quiet {
                    None
                } else {
                    let mut out = String::from_str("[CONFIG] Active: t_idle=");
                    render::push_u64(&mut out, self.t_idle_sec);
                    out.append("s, lru_depth=");
                    render::push_u64(&mut out, self.lru_protect_depth as u64);
                    out.append(", mem_crit=");
                    render::push_u64(&mut out, self.mem_critical_percent);
                    out.append("%, fg_lru_max=");
                    render::push_u64(&mut out, self.fg_lru_max_depth as u64);
                    out.append(", screen_off_harvest=");
                    render::push_bool(&mut out, self.screen_off_harvest);
                    out.append(", max_kills_per_pass=");
                    render::push_u64(&mut out, self.max_kills_per_pass as u64);
                    out.append(", min_oom_adj=");
                    render::push_i64(&mut out, self.min_oom_score_adj as i64);
                    Some(out)
                }
            },
        }
    }
}

/// Whatever a file says, at least one app may be evicted in a pass and the threshold stays
/// between services and cached apps, where they did before.
pub proof fn law_lines_keep_range(config: RuntimeConfig, lines: Seq<Seq<char>>)
    requires
        config.in_range(),
    ensures
        config.after_lines(lines).in_range(),
    decreases lines.len(),
{
    if lines.len() > 0 {
        law_lines_keep_range(config.after_line(lines[0]), lines.drop_first());
    }
}

/// To read one file behind another is to read the lines of both.
pub proof fn law_lines_in_sequence(
    config: RuntimeConfig,
    first: Seq<Seq<char>>,
    second: Seq<Seq<char>>,
)
    ensures
        config.after_lines(first).after_lines(second) == config.after_lines(first + second),
    decreases first.len(),
{
    if first.len() == 0 {
        assert(first + second =~= second);
    } else {
        law_lines_in_sequence(config.after_line(first[0]), first.drop_first(), second);
        assert((first + second).drop_first() =~= first.drop_first() + second);
    }
}

/// The log switch is the only parameter that a `log_enabled` line changes, and no other line
/// changes it.
pub proof fn law_log_switch_is_separate(config: RuntimeConfig, key: Seq<char>, val: Seq<char>)
    ensures
        key == "log_enabled"@ ==> (RuntimeConfig {
            log_enabled: config.log_enabled,
            ..config.with(key, val)
        }) == config,
        key != "log_enabled"@ ==> config.with(key, val).log_enabled == config.log_enabled,
{
    reveal_strlit("log_enabled");
    reveal_strlit("t_idle_sec");
    reveal_strlit("lru_protect_depth");
    reveal_strlit("mem_critical_percent");
    reveal_strlit("fg_lru_max_depth");
    reveal_strlit("screen_off_harvest");
    reveal_strlit("max_kills_per_pass");
    reveal_strlit("min_oom_score_adj");
    assert("log_enabled"@[0] == 'l' && "log_enabled"@[1] == 'o');
    assert("t_idle_sec"@[0] == 't');
    assert("lru_protect_depth"@[1] == 'r');
    assert("mem_critical_percent"@[0] == 'm');
    assert("fg_lru_max_depth"@[0] == 'f');
    assert("screen_off_harvest"@[0] == 's');
    assert("max_kills_per_pass"@[0] == 'm');
    assert("min_oom_score_adj"@[0] == 'm');
}

} // verus!
