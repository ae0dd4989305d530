//! The records of telemetry, as one line of JSON and as one row of the table.
use vstd::prelude::*;

use crate::config::RuntimeConfig;
use crate::render;
use crate::telemetry;
use crate::telemetry::SessionStats;

verus! {

/// Why an app was chosen.
#[derive(Debug, Clone, Copy, PartialEq, Eq, Structural)]
pub enum Reason {
    GameMode,
    LowMemory,
    IdleExpired,
}

/// What a record tells of a decision to evict an app.
pub struct KillRecord {
    pub ts: u64,
    pub act_mode: bool,
    pub pkg: String,
    pub pids: Vec<u32>,
    pub rss_kb: u64,
    pub reason: Reason,
    pub idle_sec: u64,
    pub lru_pos: usize,
    /// Whether the command was started; `None` where kills are only simulated.
    pub spawned: Option<bool>,
    pub oom_adj: i32,
    pub ams_protected: bool,
}

/// One record. `ts` is the time of the event in milliseconds since the epoch.
pub enum Record {
    BgSummary { ts: u64, interval_sec: u64, stats: SessionStats },
    ConfigReload { ts: u64, config: RuntimeConfig },
    GameStart { ts: u64, pkg: String },
    GameEnd { ts: u64, duration_sec: u64, intrusions: u32 },
    FgSwitch {
        ts: u64,
        pkg: String,
        component: String,
        prev: Option<String>,
        prev_dur_ms: u64,
        is_game: bool,
    },
    GameIntrusion {
        ts: u64,
        pid: u32,
        uid: u32,
        pkg: String,
        proc_name: String,
        spawn_type: String,
        rss_kb: u64,
        excluded: bool,
    },
    Respawn { ts: u64, pkg: String, gap_ms: u64, pid: u32, uid: u32, spawn_type: String },
    ScreenOff { ts: u64, active_ms: u64 },
    ScreenOn { ts: u64, off_sec: u64 },
    Kill(KillRecord),
}

/// What a [`KillRecord`] says.
pub struct KillModel {
    pub ts: u64,
    pub act_mode: bool,
    pub pkg: Seq<char>,
    pub pids: Seq<u32>,
    pub rss_kb: u64,
    pub reason: Reason,
    pub idle_sec: u64,
    pub lru_pos: usize,
    pub spawned: Option<bool>,
    pub oom_adj: i32,
    pub ams_protected: bool,
}

/// What a [`Record`] says.
pub enum RecordModel {
    BgSummary { ts: u64, interval_sec: u64, stats: SessionStats },
    ConfigReload { ts: u64, config: RuntimeConfig },
    GameStart { ts: u64, pkg: Seq<char> },
    GameEnd { ts: u64, duration_sec: u64, intrusions: u32 },
    FgSwitch {
        ts: u64,
        pkg: Seq<char>,
        component: Seq<char>,
        prev: Option<Seq<char>>,
        prev_dur_ms: u64,
        is_game: bool,
    },
    GameIntrusion {
        ts: u64,
        pid: u32,
        uid: u32,
        pkg: Seq<char>,
        proc_name: Seq<char>,
        spawn_type: Seq<char>,
        rss_kb: u64,
        excluded: bool,
    },
    Respawn { ts: u64, pkg: Seq<char>, gap_ms: u64, pid: u32, uid: u32, spawn_type: Seq<char> },
    ScreenOff { ts: u64, active_ms: u64 },
    ScreenOn { ts: u64, off_sec: u64 },
    Kill(KillModel),
}

impl View for KillRecord {
    type V = KillModel;

    open spec fn view(&self) -> KillModel {
        KillModel {
            ts: self.ts,
            act_mode: self.act_mode,
            pkg: self.pkg@,
            pids: self.pids@,
            rss_kb: self.rss_kb,
            reason: self.reason,
            idle_sec: self.idle_sec,
            lru_pos: self.lru_pos,
            spawned: self.spawned,
            oom_adj: self.oom_adj,
            ams_protected: self.ams_protected,
        }
    }
}

/// The text of an optional string.
pub open spec fn optional_text(s: Option<String>) -> Option<Seq<char>> {
    match s {
        Some(s) => Some(s@),
        None => None,
    }
}

impl View for Record {
    type V = RecordModel;

    open spec fn view(&self) -> RecordModel {
        match *self {
            Record::BgSummary { ts, interval_sec, stats } => RecordModel::BgSummary {
                ts,
                interval_sec,
                stats,
            },
            Record::ConfigReload { ts, config } => RecordModel::ConfigReload { ts, config },
            Record::GameStart { ts, pkg } => RecordModel::GameStart { ts, pkg: pkg@ },
            Record::GameEnd { ts, duration_sec, intrusions } => RecordModel::GameEnd {
                ts,
                duration_sec,
                intrusions,
            },
            Record::FgSwitch { ts, pkg, component, prev, prev_dur_ms, is_game } =>
            RecordModel::FgSwitch {
                ts,
                pkg: pkg@,
                component: component@,
                prev: optional_text(prev),
                prev_dur_ms,
                is_game,
            },
            Record::GameIntrusion { ts, pid, uid, pkg, proc_name, spawn_type, rss_kb, excluded } =>
            RecordModel::GameIntrusion {
                ts,
                pid,
                uid,
                pkg: pkg@,
                proc_name: proc_name@,
                spawn_type: spawn_type@,
                rss_kb,
                excluded,
            },
            Record::Respawn { ts, pkg, gap_ms, pid, uid, spawn_type } => RecordModel::Respawn {
                ts,
                pkg: pkg@,
                gap_ms,
                pid,
                uid,
                spawn_type: spawn_type@,
            },
            Record::ScreenOff { ts, active_ms } => RecordModel::ScreenOff { ts, active_ms },
            Record::ScreenOn { ts, off_sec } => RecordModel::ScreenOn { ts, off_sec },
            Record::Kill(kill) => RecordModel::Kill(kill@),
        }
    }
}

/// What the records say.
pub open spec fn models(records: Seq<Record>) -> Seq<RecordModel> {
    records.map_values(|r: Record| r@)
}

/// The name of a reason.
pub open spec fn reason_text(reason: Reason) -> Seq<char> {
    match reason {
        Reason::GameMode => "game_mode_escalation"@,
        Reason::LowMemory => "low_memory_escalation"@,
        Reason::IdleExpired => "idle_expired"@,
    }
}

/// The name of a reason.
pub fn reason_name(reason: Reason) -> (s: &'static str)
    ensures
        s@ == reason_text(reason),
{
    match reason {
        Reason::GameMode => "game_mode_escalation",
        Reason::LowMemory => "low_memory_escalation",
        Reason::IdleExpired => "idle_expired",
    }
}

/// How a decision is called in the JSON.
pub open spec fn kill_event(act_mode: bool, ams_protected: bool) -> Seq<char> {
    if !act_mode {
        "simulated_kill"@
    } else if ams_protected {
        "kill_skipped"@
    } else {
        "kill"@
    }
}

/// How a decision is called in the table.
pub open spec fn kill_tag(act_mode: bool, ams_protected: bool) -> Seq<char> {
    if !act_mode {
        "SIM_KILL"@
    } else if ams_protected {
        "KILL_SKIP"@
    } else {
        "KILL"@
    }
}

/// What the row of a decision ends with.
pub open spec fn kill_suffix(act_mode: bool, ams_protected: bool) -> Seq<char> {
    match (act_mode, ams_protected) {
        (true, false) => ""@,
        (true, true) => " (ams_protected: spawn skipped)"@,
        (false, false) => " (simulated)"@,
        (false, true) => " (simulated, ams_protected: spawn skipped)"@,
    }
}

/// How a decision is called in the JSON and in the table, what its row ends with, and whether no
/// command was started.
pub fn kill_telemetry_parts(act_mode: bool, ams_protected: bool) -> (parts: (
    &'static str,
    &'static str,
    &'static str,
    bool,
))
    ensures
        parts.0@ == kill_event(act_mode, ams_protected),
        parts.1@ == kill_tag(act_mode, ams_protected),
        parts.2@ == kill_suffix(act_mode, ams_protected),
        parts.3 == (!act_mode || ams_protected),
{
    match (act_mode, ams_protected) {
        (true, false) => ("kill", "KILL", "", false),
        (true, true) => ("kill_skipped", "KILL_SKIP", " (ams_protected: spawn skipped)", true),
        (false, false) => ("simulated_kill", "SIM_KILL", " (simulated)", true),
        (false, true) => (
            "simulated_kill",
            "SIM_KILL",
            " (simulated, ams_protected: spawn skipped)",
            true,
        ),
    }
}

// ---------------------------------------------------------------------------
// JSON
// ---------------------------------------------------------------------------
/// Process ids with commas between them.
pub open spec fn pids_text(pids: Seq<u32>) -> Seq<char>
    decreases pids.len(),
{
    if pids.len() == 0 {
        Seq::empty()
    } else if pids.len() == 1 {
        render::decimal(pids[0] as nat)
    } else {
        pids_text(pids.drop_last()) + ", "@ + render::decimal(pids.last() as nat)
    }
}

/// `true`, `false` or `null`.
pub open spec fn spawned_text(spawned: Option<bool>) -> Seq<char> {
    match spawned {
        Some(v) => render::boolean(v),
        None => "null"@,
    }
}

/// What every record starts with: its time and its name.
pub open spec fn json_head(ts: u64, event: Seq<char>) -> Seq<char> {
    "{\"ts\":"@ + render::decimal(ts as nat) + ",\"event\":\""@ + event + "\""@
}

impl KillModel {
    /// The record as one line of JSON.
    pub open spec fn json(self) -> Seq<char> {
        json_head(self.ts, kill_event(self.act_mode, self.ams_protected)) + ",\"pkg\":\""@
            + telemetry::escaped(self.pkg) + "\",\"pids\":["@ + pids_text(self.pids)
            + "],\"rss_freed_est_kb\":"@ + render::decimal(self.rss_kb as nat) + ",\"reason\":\""@
            + reason_text(self.reason) + "\",\"idle_sec\":"@ + render::decimal(self.idle_sec as nat)
            + ",\"lru_pos\":"@ + render::decimal(self.lru_pos as nat) + ",\"spawned\":"@
            + spawned_text(self.spawned) + ",\"oom_score_adj\":"@ + render::signed(
            self.oom_adj as int,
        ) + ",\"ams_protected\":"@ + render::boolean(self.ams_protected) + ",\"spawn_skipped\":"@
            + render::boolean(!self.act_mode || self.ams_protected) + "}"@
    }

    /// What the row of the table tells.
    pub open spec fn detail(self) -> Seq<char> {
        "rss="@ + render::decimal((self.rss_kb / 1024) as nat) + "MB  idle="@ + render::decimal(
            self.idle_sec as nat,
        ) + "s  adj="@ + render::signed(self.oom_adj as int) + "  lru="@ + render::decimal(
            self.lru_pos as nat,
        ) + " ["@ + reason_text(self.reason) + "]"@ + kill_suffix(self.act_mode, self.ams_protected)
    }
}

impl RecordModel {
    /// The record as one line of JSON.
    pub open spec fn json(self) -> Seq<char> {
        match self {
            RecordModel::BgSummary { ts, interval_sec, stats } => json_head(ts, "bg_summary"@)
                + ",\"interval_sec\":"@ + render::decimal(interval_sec as nat) + ",\"spawns\":"@
                + render::decimal(stats.bg_spawns as nat) + ",\"deaths\":"@ + render::decimal(
                stats.bg_deaths as nat,
            ) + ",\"spawn_rss_kb\":"@ + render::signed(stats.spawn_rss_kb as int) + "}"@,
            RecordModel::ConfigReload { ts, config } => json_head(ts, "config_reload"@)
                + ",\"t_idle_sec\":"@ + render::decimal(config.t_idle_sec as nat)
                + ",\"lru_protect_depth\":"@ + render::decimal(config.lru_protect_depth as nat)
                + ",\"mem_critical_percent\":"@ + render::decimal(
                config.mem_critical_percent as nat,
            ) + ",\"fg_lru_max_depth\":"@ + render::decimal(config.fg_lru_max_depth as nat)
                + ",\"screen_off_harvest\":"@ + render::boolean(config.screen_off_harvest)
                + ",\"max_kills_per_pass\":"@ + render::decimal(config.max_kills_per_pass as nat)
                + ",\"min_oom_score_adj\":"@ + render::signed(config.min_oom_score_adj as int)
                + ",\"log_enabled\":"@ + render::boolean(config.log_enabled) + "}"@,
            RecordModel::GameStart { ts, pkg } => json_head(ts, "game_session_start"@)
                + ",\"pkg\":\""@ + telemetry::escaped(pkg) + "\"}"@,
            RecordModel::GameEnd { ts, duration_sec, intrusions } => json_head(
                ts,
                "game_session_end"@,
            ) + ",\"duration_sec\":"@ + render::decimal(duration_sec as nat) + ",\"intrusions\":"@
                + render::decimal(intrusions as nat) + "}"@,
            RecordModel::FgSwitch { ts, pkg, component, prev, prev_dur_ms, is_game } => json_head(
                ts,
                "fg_switch"@,
            ) + ",\"pkg\":\""@ + telemetry::escaped(pkg) + "\",\"component\":\""@
                + telemetry::escaped(component) + "\",\"prev_dur_ms\":"@ + render::decimal(
                prev_dur_ms as nat,
            ) + ",\"is_game\":"@ + render::boolean(is_game) + "}"@,
            RecordModel::GameIntrusion {
                ts,
                pid,
                uid,
                pkg,
                proc_name,
                spawn_type,
                rss_kb,
                excluded,
            } => json_head(ts, "game_intrusion"@) + ",\"pid\":"@ + render::decimal(pid as nat)
                + ",\"uid\":"@ + render::decimal(uid as nat) + ",\"pkg\":\""@ + telemetry::escaped(
                pkg,
            ) + "\",\"proc\":\""@ + telemetry::escaped(proc_name) + "\",\"type\":\""@
                + telemetry::escaped(spawn_type) + "\",\"rss_kb\":"@ + render::decimal(
                rss_kb as nat,
            ) + ",\"excluded\":"@ + render::boolean(excluded) + "}"@,
            RecordModel::Respawn { ts, pkg, gap_ms, pid, uid, spawn_type } => json_head(
                ts,
                "respawn"@,
            ) + ",\"pkg\":\""@ + telemetry::escaped(pkg) + "\",\"gap_ms\":"@ + render::decimal(
                gap_ms as nat,
            ) + ",\"pid\":"@ + render::decimal(pid as nat) + ",\"uid\":"@ + render::decimal(
                uid as nat,
            ) + ",\"type\":\""@ + telemetry::escaped(spawn_type) + "\"}"@,
            RecordModel::ScreenOff { ts, active_ms } => json_head(ts, "screen_state"@)
                + ",\"state\":\"OFF\",\"active_duration_sec\":"@ + render::decimal(
                (active_ms / 1000) as nat,
            ) + "}"@,
            RecordModel::ScreenOn { ts, off_sec } => json_head(ts, "screen_state"@)
                + ",\"state\":\"ON\",\"off_duration_sec\":"@ + render::decimal(off_sec as nat)
                + "}"@,
            RecordModel::Kill(kill) => kill.json(),
        }
    }

    /// The name of the record in the table.
    pub open spec fn tag(self) -> Seq<char> {
        match self {
            RecordModel::BgSummary { .. } => "BG_SUMMARY"@,
            RecordModel::ConfigReload { .. } => "CONFIG_RELOAD"@,
            RecordModel::GameStart { .. } => "GAME_START"@,
            RecordModel::GameEnd { .. } => "GAME_END"@,
            RecordModel::FgSwitch { .. } => "FG_SWITCH"@,
            RecordModel::GameIntrusion { .. } => "GAME_INTRUDE"@,
            RecordModel::Respawn { .. } => "RESPAWN"@,
            RecordModel::ScreenOff { .. } => "SCREEN_OFF"@,
            RecordModel::ScreenOn { .. } => "SCREEN_ON"@,
            RecordModel::Kill(kill) => kill_tag(kill.act_mode, kill.ams_protected),
        }
    }

    /// The app that the record is about; `--` where it is about none.
    pub open spec fn target(self) -> Seq<char> {
        match self {
            RecordModel::GameStart { pkg, .. } => pkg,
            RecordModel::FgSwitch { pkg, .. } => pkg,
            RecordModel::GameIntrusion { pkg, .. } => pkg,
            RecordModel::Respawn { pkg, .. } => pkg,
            RecordModel::Kill(kill) => kill.pkg,
            _ => "--"@,
        }
    }

    /// What the row of the table tells, where `seconds` is the text of a duration in seconds.
    pub open spec fn detail(self, seconds: Seq<char>) -> Seq<char> {
        match self {
            RecordModel::BgSummary { ts, interval_sec, stats } => "interval="@ + render::decimal(
                interval_sec as nat,
            ) + "s  spawns="@ + render::decimal(stats.bg_spawns as nat) + "  deaths="@
                + render::decimal(stats.bg_deaths as nat) + "  rss_delta="@ + (
            if stats.spawn_rss_kb >= 0 {
                "+"@
            } else {
                "-"@
            }) + render::decimal(rounded_mb(magnitude(stats.spawn_rss_kb as int))) + "MB"@,
            RecordModel::ConfigReload { ts, config } => "t_idle="@ + render::decimal(
                config.t_idle_sec as nat,
            ) + "s  lru_depth="@ + render::decimal(config.lru_protect_depth as nat)
                + "  mem_crit="@ + render::decimal(config.mem_critical_percent as nat)
                + "%  fg_lru_max="@ + render::decimal(config.fg_lru_max_depth as nat)
                + "  harvest="@ + render::boolean(config.screen_off_harvest) + "  max_kills="@
                + render::decimal(config.max_kills_per_pass as nat),
            RecordModel::GameStart { .. } => "game_mode=active"@,
            RecordModel::GameEnd { ts, duration_sec, intrusions } => "duration="@
                + render::decimal(duration_sec as nat) + "s  intrusions="@ + render::decimal(
                intrusions as nat,
            ),
            RecordModel::FgSwitch { ts, pkg, component, prev, prev_dur_ms, is_game } => {
                let mark = if is_game {
                    " [GAME]"@
                } else {
                    ""@
                };
                match prev {
                    Some(prev) => "prev="@ + prev + " ("@ + seconds + "s)"@ + mark,
                    None => "cold_boot"@ + mark,
                }
            },
            RecordModel::GameIntrusion {
                ts,
                pid,
                uid,
                pkg,
                proc_name,
                spawn_type,
                rss_kb,
                excluded,
            } => "type="@ + spawn_type + "  rss="@ + render::decimal(rounded_mb(rss_kb as nat))
                + "MB  excluded="@ + render::boolean(excluded),
            RecordModel::Respawn { ts, pkg, gap_ms, pid, uid, spawn_type } => "gap="@
                + render::decimal(gap_ms as nat) + "ms  pid="@ + render::decimal(pid as nat)
                + "  type="@ + spawn_type,
            RecordModel::ScreenOff { .. } => "active_session="@ + seconds + "s"@,
            RecordModel::ScreenOn { ts, off_sec } => "sleep="@ + render::decimal(off_sec as nat)
                + "s"@,
            RecordModel::Kill(kill) => kill.detail(),
        }
    }

    /// The record as one row of the table: when, what, which app, and what there is to tell.
    pub open spec fn row(self, time: Seq<char>, seconds: Seq<char>) -> Seq<char> {
        render::padded(time, 12) + "   "@ + render::padded(self.tag(), 12) + " "@ + render::padded(
            self.target(),
            26,
        ) + " "@ + self.detail(seconds)
    }
}

/// The distance of `n` from 0.
pub open spec fn magnitude(n: int) -> nat {
    if n < 0 {
        (-n) as nat
    } else {
        n as nat
    }
}

/// Kilobytes in megabytes, rounded to the nearest.
pub open spec fn rounded_mb(kb: nat) -> nat {
    (kb + 512) / 1024
}

fn push_escaped(out: &mut String, s: &str)
    ensures
        final(out)@ == old(out)@ + telemetry::escaped(s@),
{
    match telemetry::escape_json(s) {
        std::borrow::Cow::Borrowed(plain) => out.append(plain),
        std::borrow::Cow::Owned(changed) => out.append(changed.as_str()),
    }
}

fn push_pids(out: &mut String, pids: &Vec<u32>)
    ensures
        final(out)@ == old(out)@ + pids_text(pids@),
{
    let mut i: usize = 0;
    assert(pids@.take(0) =~= Seq::<u32>::empty());
    assert(out@ =~= out@ + pids_text(pids@.take(0)));
    while i < pids.len()
        invariant
            i <= pids@.len(),
            out@ == old(out)@ + pids_text(pids@.take(i as int)),
        decreases pids@.len() - i,
    {
        assert(pids@.take(i + 1).drop_last() =~= pids@.take(i as int));
        if i > 0 {
            out.append(", ");
        }
        render::push_u64(out, pids[i] as u64);
        i = i + 1;
        assert(out@ =~= old(out)@ + pids_text(pids@.take(i as int)));
    }
    assert(pids@.take(pids@.len() as int) =~= pids@);
}

fn start_json(ts: u64, event: &str) -> (out: String)
    ensures
        out@ == json_head(ts, event@),
{
    let mut out = String::from_str("{\"ts\":");
    render::push_u64(&mut out, ts);
    out.append(",\"event\":\"");
    out.append(event);
    out.append("\"");
    out
}

impl KillRecord {
    fn to_json(&self) -> (out: String)
        ensures
            out@ == self@.json(),
    {
        let parts = kill_telemetry_parts(self.act_mode, self.ams_protected);
        let mut out = start_json(self.ts, parts.0);
        out.append(",\"pkg\":\"");
        push_escaped(&mut out, self.pkg.as_str());
        out.append("\",\"pids\":[");
        push_pids(&mut out, &self.pids);
        out.append("],\"rss_freed_est_kb\":");
        render::push_u64(&mut out, self.rss_kb);
        out.append(",\"reason\":\"");
        out.append(reason_name(self.reason));
        out.append("\",\"idle_sec\":");
        render::push_u64(&mut out, self.idle_sec);
        out.append(",\"lru_pos\":");
        render::push_u64(&mut out, self.lru_pos as u64);
        out.append(",\"spawned\":");
        match self.spawned {
            Some(v) => render::push_bool(&mut out, v),
            None => out.append("null"),
        }
        out.append(",\"oom_score_adj\":");
        render::push_i64(&mut out, self.oom_adj as i64);
        out.append(",\"ams_protected\":");
        render::push_bool(&mut out, self.ams_protected);
        out.append(",\"spawn_skipped\":");
        render::push_bool(&mut out, parts.3);
        out.append("}");
        out
    }

    fn detail(&self) -> (out: String)
        ensures
            out@ == self@.detail(),
    {
        let parts = kill_telemetry_parts(self.act_mode, self.ams_protected);
        let mut out = String::from_str("rss=");
        render::push_u64(&mut out, self.rss_kb / 1024);
        out.append("MB  idle=");
        render::push_u64(&mut out, self.idle_sec);
        out.append("s  adj=");
        render::push_i64(&mut out, self.oom_adj as i64);
        out.append("  lru=");
        render::push_u64(&mut out, self.lru_pos as u64);
        out.append(" [");
        out.append(reason_name(self.reason));
        out.append("]");
        out.append(parts.2);
        out
    }
}

impl Record {
    /// The record as one line of JSON.
    pub fn to_json(&self) -> (out: String)
        ensures
            out@ == self@.json(),
    {
        match self {
            Record::BgSummary { ts, interval_sec, stats } => {
                let mut out = start_json(*ts, "bg_summary");
                out.append(",\"interval_sec\":");
                render::push_u64(&mut out, *interval_sec);
                out.append(",\"spawns\":");
                render::push_u64(&mut out, stats.bg_spawns as u64);
                out.append(",\"deaths\":");
                render::push_u64(&mut out, stats.bg_deaths as u64);
                out.append(",\"spawn_rss_kb\":");
                render::push_i64(&mut out, stats.spawn_rss_kb);
                out.append("}");
                out
            },
            Record::ConfigReload { ts, config } => {
                let mut out = start_json(*ts, "config_reload");
                out.append(",\"t_idle_sec\":");
                render::push_u64(&mut out, config.t_idle_sec);
                out.append(",\"lru_protect_depth\":");
                render::push_u64(&mut out, config.lru_protect_depth as u64);
                out.append(",\"mem_critical_percent\":");
                render::push_u64(&mut out, config.mem_critical_percent);
                out.append(",\"fg_lru_max_depth\":");
                render::push_u64(&mut out, config.fg_lru_max_depth as u64);
                out.append(",\"screen_off_harvest\":");
                render::push_bool(&mut out, config.screen_off_harvest);
                out.append(",\"max_kills_per_pass\":");
                render::push_u64(&mut out, config.max_kills_per_pass as u64);
                out.append(",\"min_oom_score_adj\":");
                render::push_i64(&mut out, config.min_oom_score_adj as i64);
                out.append(",\"log_enabled\":");
                render::push_bool(&mut out, config.log_enabled);
                out.append("}");
                out
            },
            Record::GameStart { ts, pkg } => {
                let mut out = start_json(*ts, "game_session_start");
                out.append(",\"pkg\":\"");
                push_escaped(&mut out, pkg.as_str());
                out.append("\"}");
                out
            },
            Record::GameEnd { ts, duration_sec, intrusions } => {
                let mut out = start_json(*ts, "game_session_end");
                out.append(",\"duration_sec\":");
                render::push_u64(&mut out, *duration_sec);
                out.append(",\"intrusions\":");
                render::push_u64(&mut out, *intrusions as u64);
                out.append("}");
                out
            },
            Record::FgSwitch { ts, pkg, component, prev: _, prev_dur_ms, is_game } => {
                let mut out = start_json(*ts, "fg_switch");
                out.append(",\"pkg\":\"");
                push_escaped(&mut out, pkg.as_str());
                out.append("\",\"component\":\"");
                push_escaped(&mut out, component.as_str());
                out.append("\",\"prev_dur_ms\":");
                render::push_u64(&mut out, *prev_dur_ms);
                out.append(",\"is_game\":");
                render::push_bool(&mut out, *is_game);
                out.append("}");
                out
            },
            Record::GameIntrusion { ts, pid, uid, pkg, proc_name, spawn_type, rss_kb, excluded } => {
                let mut out = start_json(*ts, "game_intrusion");
                out.append(",\"pid\":");
                render::push_u64(&mut out, *pid as u64);
                out.append(",\"uid\":");
                render::push_u64(&mut out, *uid as u64);
                out.append(",\"pkg\":\"");
                push_escaped(&mut out, pkg.as_str());
                out.append("\",\"proc\":\"");
                push_escaped(&mut out, proc_name.as_str());
                out.append("\",\"type\":\"");
                push_escaped(&mut out, spawn_type.as_str());
                out.append("\",\"rss_kb\":");
                render::push_u64(&mut out, *rss_kb);
                out.append(",\"excluded\":");
                render::push_bool(&mut out, *excluded);
                out.append("}");
                out
            },
            Record::Respawn { ts, pkg, gap_ms, pid, uid, spawn_type } => {
                let mut out = start_json(*ts, "respawn");
                out.append(",\"pkg\":\"");
                push_escaped(&mut out, pkg.as_str());
                out.append("\",\"gap_ms\":");
                render::push_u64(&mut out, *gap_ms);
                out.append(",\"pid\":");
                render::push_u64(&mut out, *pid as u64);
                out.append(",\"uid\":");
                render::push_u64(&mut out, *uid as u64);
                out.append(",\"type\":\"");
                push_escaped(&mut out, spawn_type.as_str());
                out.append("\"}");
                out
            },
            Record::ScreenOff { ts, active_ms } => {
                let mut out = start_json(*ts, "screen_state");
                out.append(",\"state\":\"OFF\",\"active_duration_sec\":");
                render::push_u64(&mut out, *active_ms / 1000);
                out.append("}");
                out
            },
            Record::ScreenOn { ts, off_sec } => {
                let mut out = start_json(*ts, "screen_state");
                out.append(",\"state\":\"ON\",\"off_duration_sec\":");
                render::push_u64(&mut out, *off_sec);
                out.append("}");
                out
            },
            Record::Kill(kill) => kill.to_json(),
        }
    }

    fn tag(&self) -> (s: &'static str)
        ensures
            s@ == self@.tag(),
    {
        match self {
            Record::BgSummary { .. } => "BG_SUMMARY",
            Record::ConfigReload { .. } => "CONFIG_RELOAD",
            Record::GameStart { .. } => "GAME_START",
            Record::GameEnd { .. } => "GAME_END",
            Record::FgSwitch { .. } => "FG_SWITCH",
            Record::GameIntrusion { .. } => "GAME_INTRUDE",
            Record::Respawn { .. } => "RESPAWN",
            Record::ScreenOff { .. } => "SCREEN_OFF",
            Record::ScreenOn { .. } => "SCREEN_ON",
            Record::Kill(kill) => kill_telemetry_parts(kill.act_mode, kill.ams_protected).1,
        }
    }

    fn target(&self) -> (s: &str)
        ensures
            s@ == self@.target(),
    {
        match self {
            Record::GameStart { pkg, .. } => pkg.as_str(),
            Record::FgSwitch { pkg, .. } => pkg.as_str(),
            Record::GameIntrusion { pkg, .. } => pkg.as_str(),
            Record::Respawn { pkg, .. } => pkg.as_str(),
            Record::Kill(kill) => kill.pkg.as_str(),
            _ => "--",
        }
    }

    fn detail(&self, seconds: &str) -> (out: String)
        ensures
            out@ == self@.detail(seconds@),
    {
        match self {
            Record::BgSummary { ts: _, interval_sec, stats } => {
                let mut out = String::from_str("interval=");
                render::push_u64(&mut out, *interval_sec);
                out.append("s  spawns=");
                render::push_u64(&mut out, stats.bg_spawns as u64);
                out.append("  deaths=");
                render::push_u64(&mut out, stats.bg_deaths as u64);
                out.append("  rss_delta=");
                let rss: i64 = stats.spawn_rss_kb;
                let sign = if rss >= 0 {
                    "+"
                } else {
                    "-"
                };
                out.append(sign);
                let kb: u64 = if rss >= 0 {
                    rss as u64
                } else {
                    (0 - rss as i128) as u64
                };
                render::push_u64(&mut out, (kb + 512) / 1024);
                out.append("MB");
                out
            },
            Record::ConfigReload { ts: _, config } => {
                let mut out = String::from_str("t_idle=");
                render::push_u64(&mut out, config.t_idle_sec);
                out.append("s  lru_depth=");
                render::push_u64(&mut out, config.lru_protect_depth as u64);
                out.append("  mem_crit=");
                render::push_u64(&mut out, config.mem_critical_percent);
                out.append("%  fg_lru_max=");
                render::push_u64(&mut out, config.fg_lru_max_depth as u64);
                out.append("  harvest=");
                render::push_bool(&mut out, config.screen_off_harvest);
                out.append("  max_kills=");
                render::push_u64(&mut out, config.max_kills_per_pass as u64);
                out
            },
            Record::GameStart { .. } => String::from_str("game_mode=active"),
            Record::GameEnd { ts: _, duration_sec, intrusions } => {
                let mut out = String::from_str("duration=");
                render::push_u64(&mut out, *duration_sec);
                out.append("s  intrusions=");
                render::push_u64(&mut out, *intrusions as u64);
                out
            },
            Record::FgSwitch { ts: _, pkg: _, component: _, prev, prev_dur_ms: _, is_game } => {
                let mark = if *is_game {
                    " [GAME]"
                } else {
                    ""
                };
                match prev {
                    Some(prev) => {
                        let mut out = String::from_str("prev=");
                        out.append(prev.as_str());
                        out.append(" (");
                        out.append(seconds);
                        out.append("s)");
                        out.append(mark);
                        out
                    },
                    None => render::join("cold_boot", mark),
                }
            },
            Record::GameIntrusion {
                ts: _,
                pid: _,
                uid: _,
                pkg: _,
                proc_name: _,
                spawn_type,
                rss_kb,
                excluded,
            } => {
                let mut out = String::from_str("type=");
                out.append(spawn_type.as_str());
                out.append("  rss=");
                let mb: u64 = ((*rss_kb as u128 + 512) / 1024) as u64;
                render::push_u64(&mut out, mb);
                out.append("MB  excluded=");
                render::push_bool(&mut out, *excluded);
                out
            },
            Record::Respawn { ts: _, pkg: _, gap_ms, pid, uid: _, spawn_type } => {
                let mut out = String::from_str("gap=");
                render::push_u64(&mut out, *gap_ms);
                out.append("ms  pid=");
                render::push_u64(&mut out, *pid as u64);
                out.append("  type=");
                out.append(spawn_type.as_str());
                out
            },
            Record::ScreenOff { .. } => {
                let mut out = String::from_str("active_session=");
                out.append(seconds);
                out.append("s");
                out
            },
            Record::ScreenOn { ts: _, off_sec } => {
                let mut out = String::from_str("sleep=");
                render::push_u64(&mut out, *off_sec);
                out.append("s");
                out
            },
            Record::Kill(kill) => kill.detail(),
        }
    }

    /// The record as one row of the table, where `time` is the time of day and `seconds` the text of
    /// the duration that [`Record::duration_ms`] gives.
    pub fn to_row(&self, time: &str, seconds: &str) -> (out: String)
        ensures
            out@ == self@.row(time@, seconds@),
    {
        let mut out = String::new();
        render::push_padded(&mut out, time, 12);
        assert(out@ =~= render::padded(time@, 12));
        out.append("   ");
        render::push_padded(&mut out, self.tag(), 12);
        out.append(" ");
        render::push_padded(&mut out, self.target(), 26);
        out.append(" ");
        let detail = self.detail(seconds);
        out.append(detail.as_str());
        out
    }

    /// The time of the event, in milliseconds since the epoch.
    pub fn ts(&self) -> (ts: u64)
        ensures
            ts == self@.ts(),
    {
        match self {
            Record::BgSummary { ts, .. } => *ts,
            Record::ConfigReload { ts, .. } => *ts,
            Record::GameStart { ts, .. } => *ts,
            Record::GameEnd { ts, .. } => *ts,
            Record::FgSwitch { ts, .. } => *ts,
            Record::GameIntrusion { ts, .. } => *ts,
            Record::Respawn { ts, .. } => *ts,
            Record::ScreenOff { ts, .. } => *ts,
            Record::ScreenOn { ts, .. } => *ts,
            Record::Kill(kill) => kill.ts,
        }
    }

    /// The duration, in milliseconds, that the row tells in seconds with one digit behind the point.
    pub fn duration_ms(&self) -> (r: Option<u64>)
        ensures
            r == match self@ {
                RecordModel::FgSwitch { prev_dur_ms, prev: Some(_), .. } => Some(prev_dur_ms),
                RecordModel::ScreenOff { active_ms, .. } => Some(active_ms),
                _ => None,
            },
    {
        match self {
            Record::FgSwitch { prev_dur_ms, prev: Some(_), .. } => Some(*prev_dur_ms),
            Record::ScreenOff { active_ms, .. } => Some(*active_ms),
            _ => None,
        }
    }
}

impl RecordModel {
    /// The time of the event.
    pub open spec fn ts(self) -> u64 {
        match self {
            RecordModel::BgSummary { ts, .. } => ts,
            RecordModel::ConfigReload { ts, .. } => ts,
            RecordModel::GameStart { ts, .. } => ts,
            RecordModel::GameEnd { ts, .. } => ts,
            RecordModel::FgSwitch { ts, .. } => ts,
            RecordModel::GameIntrusion { ts, .. } => ts,
            RecordModel::Respawn { ts, .. } => ts,
            RecordModel::ScreenOff { ts, .. } => ts,
            RecordModel::ScreenOn { ts, .. } => ts,
            RecordModel::Kill(kill) => kill.ts,
        }
    }
}

} // verus!
