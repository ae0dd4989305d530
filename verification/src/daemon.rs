//! The state of the daemon and how events change it.
//!
//! Handlers change the state and append records; they say whether a reaping pass is due. Times are
//! milliseconds since the epoch, taken from the events themselves.
use std::collections::VecDeque;

use vstd::prelude::*;

use crate::config::RuntimeConfig;
use crate::hasher::{FastMap, FastSet};
use crate::parser::{EventModel, LogcatEvent, ProcDiedEvent, ProcStartEvent, ResumeActivityEvent, ResumeModel, StartModel};
use crate::records;
use crate::records::{Record, RecordModel};
use crate::telemetry::SessionStats;
use crate::text;

verus! {

/// User ids from here on belong to apps; below are the system's.
pub const FIRST_APP_UID: u32 = 10_000;

/// A clock below this (2020-09-13) was not set since the device started.
pub const RTC_SYNC_FLOOR_MS: u64 = 1_600_000_000_000;

/// An app that was in the foreground for less than this only led to the next one.
pub const TRAMPOLINE_MS: u64 = 500;

/// A process that starts again within this time after its death counts as a respawn.
pub const RESPAWN_WINDOW_MS: u64 = 120_000;

/// What the daemon knows.
pub struct DaemonState {
    pub config: RuntimeConfig,
    /// The apps that run, and since when each is idle: when it was started or last left the
    /// foreground.
    pub alive_apps: FastMap<String, u64>,
    pub pid_to_pkg: FastMap<u32, String>,
    pub pkg_to_pids: FastMap<String, FastSet<u32>>,
    pub pkg_to_uid: FastMap<String, u32>,
    pub recent_deaths: FastMap<String, u64>,
    pub user_exclusions: FastSet<String>,
    pub games: FastSet<String>,
    pub dynamic_exclusions: FastSet<String>,
    /// The apps last seen in the foreground, the latest first.
    pub fg_lru: VecDeque<String>,
    pub current_fg: Option<String>,
    /// Since when the app is in the foreground.
    pub fg_since: Option<u64>,
    pub screen_on_start: Option<u64>,
    pub screen_off_start: Option<u64>,
    pub game_session_start: Option<u64>,
    pub session_start: u64,
    pub last_event_epoch: u64,
    pub session_stats: SessionStats,
    pub page_size_kb: u64,
    pub game_intrusion_count: u32,
    pub screen_on: bool,
    pub is_gaming: bool,
    pub act_mode: bool,
}

/// The name of an app.
pub type Name = Seq<char>;

/// What a [`DaemonState`] says.
#[verifier::ext_equal]
pub struct DaemonModel {
    pub config: RuntimeConfig,
    pub alive: Map<Name, u64>,
    pub owner: Map<u32, Name>,
    pub pids: Map<Name, Set<u32>>,
    pub uids: Map<Name, u32>,
    pub deaths: Map<Name, u64>,
    pub user_exclusions: Set<Name>,
    pub games: Set<Name>,
    pub dynamic_exclusions: Set<Name>,
    pub lru: Seq<Name>,
    pub current_fg: Option<Name>,
    pub fg_since: Option<u64>,
    pub screen_on_start: Option<u64>,
    pub screen_off_start: Option<u64>,
    pub game_session_start: Option<u64>,
    pub session_start: u64,
    pub last_event_epoch: u64,
    pub stats: SessionStats,
    pub page_size_kb: u64,
    pub intrusions: u32,
    pub screen_on: bool,
    pub is_gaming: bool,
    pub act_mode: bool,
}

impl View for DaemonState {
    type V = DaemonModel;

    open spec fn view(&self) -> DaemonModel {
        DaemonModel {
            config: self.config,
            alive: self.alive_apps@,
            owner: self.pid_to_pkg@.map_values(|s: String| s@),
            pids: self.pkg_to_pids@.map_values(|s: FastSet<u32>| s@),
            uids: self.pkg_to_uid@,
            deaths: self.recent_deaths@,
            user_exclusions: self.user_exclusions@,
            games: self.games@,
            dynamic_exclusions: self.dynamic_exclusions@,
            lru: self.fg_lru@.map_values(|s: String| s@),
            current_fg: records::optional_text(self.current_fg),
            fg_since: self.fg_since,
            screen_on_start: self.screen_on_start,
            screen_off_start: self.screen_off_start,
            game_session_start: self.game_session_start,
            session_start: self.session_start,
            last_event_epoch: self.last_event_epoch,
            stats: self.session_stats,
            page_size_kb: self.page_size_kb,
            intrusions: self.game_intrusion_count,
            screen_on: self.screen_on,
            is_gaming: self.is_gaming,
            act_mode: self.act_mode,
        }
    }
}

impl DaemonState {
    /// The collections are in order.
    pub open spec fn wf(&self) -> bool {
        &&& self.alive_apps.wf()
        &&& self.pid_to_pkg.wf()
        &&& self.pkg_to_pids.wf()
        &&& forall|k: Name|
            self.pkg_to_pids@.dom().contains(k) ==> (#[trigger] self.pkg_to_pids@[k]).wf()
        &&& self.pkg_to_uid.wf()
        &&& self.recent_deaths.wf()
        &&& self.user_exclusions.wf()
        &&& self.games.wf()
        &&& self.dynamic_exclusions.wf()
    }
}

/// `a - b`, or 0 where that is negative.
pub open spec fn elapsed(a: u64, b: u64) -> u64 {
    if a >= b {
        (a - b) as u64
    } else {
        0
    }
}

/// Milliseconds from an optional start to `now`; 0 without a start.
pub open spec fn millis_since(start: Option<u64>, now: u64) -> u64 {
    match start {
        Some(s) => elapsed(now, s),
        None => 0,
    }
}

/// Whole seconds from an optional start to `now`; 0 without a start.
pub open spec fn seconds_since(start: Option<u64>, now: u64) -> u64 {
    (millis_since(start, now) / 1000) as u64
}

// ---------------------------------------------------------------------------
// The foreground history
// ---------------------------------------------------------------------------
/// The predicate that holds of one name.
pub open spec fn named(wanted: Name) -> spec_fn(Name) -> bool {
    |name: Name| name == wanted
}

/// Index of a name in the history; its length where the name is not there.
pub open spec fn lru_index(lru: Seq<Name>, name: Name) -> int {
    text::first_index(lru, named(name))
}

/// The history without the name.
pub open spec fn lru_without(lru: Seq<Name>, name: Name) -> Seq<Name> {
    let i = lru_index(lru, name);
    if i < lru.len() {
        lru.remove(i)
    } else {
        lru
    }
}

/// The history after the name was seen in the foreground: the name comes first, and the oldest leave
/// where there are more than `max_depth`.
pub open spec fn lru_after(lru: Seq<Name>, name: Name, max_depth: usize) -> Seq<Name> {
    let all = seq![name] + lru_without(lru, name);
    if all.len() > max_depth {
        all.take(max_depth as int)
    } else {
        all
    }
}

impl DaemonState {
    /// Index of a name in the history.
    pub fn lru_position(&self, name: &str) -> (at: Option<usize>)
        ensures
            match at {
                Some(i) => i < self@.lru.len() && i == lru_index(self@.lru, name@),
                None => lru_index(self@.lru, name@) == self@.lru.len(),
            },
    {
        let mut i: usize = 0;
        while i < self.fg_lru.len()
            invariant
                i <= self.fg_lru@.len(),
                forall|j: int| 0 <= j < i ==> !named(name@)(#[trigger] self@.lru[j]),
            decreases self.fg_lru@.len() - i,
        {
            assert(self@.lru[i as int] == self.fg_lru@[i as int]@);
            if text::same(self.fg_lru[i].as_str(), name) {
                proof {
                    text::lemma_first_index_is(self@.lru, named(name@), i as int);
                }
                return Some(i);
            }
            i = i + 1;
        }
        proof {
            text::lemma_first_index_is(self@.lru, named(name@), i as int);
        }
        None
    }

    fn lru_remove(&mut self, name: &str)
        requires
            old(self).wf(),
        ensures
            final(self).wf(),
            final(self)@ == (DaemonModel { lru: lru_without(old(self)@.lru, name@), ..old(self)@ }),
    {
        if let Some(i) = self.lru_position(name) {
            let _ = self.fg_lru.remove(i);
            proof {
                assert(self@.lru =~= old(self)@.lru.remove(i as int));
            }
        }
        assert(self@ =~= (DaemonModel { lru: lru_without(old(self)@.lru, name@), ..old(self)@ }));
    }

    fn lru_touch(&mut self, name: &str)
        requires
            old(self).wf(),
        ensures
            final(self).wf(),
            final(self)@ == (DaemonModel {
                lru: lru_after(old(self)@.lru, name@, old(self)@.config.fg_lru_max_depth),
                ..old(self)@
            }),
    {
        let ghost lru = self@.lru;
        let ghost all = seq![name@] + lru_without(lru, name@);
        self.lru_remove(name);
        self.fg_lru.push_front(name.to_owned());
        assert(self@.lru =~= all);
        assert(all.take(all.len() as int) =~= all);
        while self.fg_lru.len() > self.config.fg_lru_max_depth
            invariant
                self.wf(),
                self@ == (DaemonModel { lru: self@.lru, ..old(self)@ }),
                self@.lru.len() <= all.len(),
                self@.lru == all.take(self@.lru.len() as int),
                all.len() > self.config.fg_lru_max_depth ==> self@.lru.len()
                    >= self.config.fg_lru_max_depth,
                all.len() <= self.config.fg_lru_max_depth ==> self@.lru.len() == all.len(),
            decreases self@.lru.len(),
        {
            let ghost before = self@.lru;
            let _ = self.fg_lru.pop_back();
            assert(self@.lru =~= before.drop_last());
            assert(self@.lru =~= all.take(self@.lru.len() as int));
            assert(self@ =~= (DaemonModel { lru: self@.lru, ..old(self)@ }));
        }
        assert(self@ =~= (DaemonModel {
            lru: lru_after(lru, name@, old(self)@.config.fg_lru_max_depth),
            ..old(self)@
        }));
    }
}

// ---------------------------------------------------------------------------
// What events do
// ---------------------------------------------------------------------------
/// What an event leads to: the new state, the records, and whether a reaping pass is due.
pub struct Outcome {
    pub state: DaemonModel,
    pub records: Seq<RecordModel>,
    pub reap: bool,
}

impl DaemonModel {
    /// Whether the name is known to be that of an app and not of a part of the system.
    pub open spec fn is_app(self, pkg: Name) -> bool {
        self.uids.dom().contains(pkg) && self.uids[pkg] >= FIRST_APP_UID
    }

    /// Whether an app is never evicted: the user or the system excludes it, or it is in the
    /// foreground.
    pub open spec fn excluded(self, pkg: Name) -> bool {
        ||| self.user_exclusions.contains(pkg)
        ||| self.dynamic_exclusions.contains(pkg)
        ||| self.current_fg == Some(pkg)
    }

    /// Whether anything happened in the background since the last summary.
    pub open spec fn summary_due(self) -> bool {
        self.stats.bg_spawns != 0 || self.stats.bg_deaths != 0
    }

    /// The state after a summary, if one is due: the counters start anew.
    pub open spec fn summarised(self, now: u64) -> DaemonModel {
        if self.summary_due() {
            DaemonModel {
                stats: SessionStats { bg_spawns: 0, bg_deaths: 0, spawn_rss_kb: 0 },
                session_start: now,
                ..self
            }
        } else {
            self
        }
    }

    /// The summary, if one is due.
    pub open spec fn summary(self, now: u64, interval_sec: u64) -> Seq<RecordModel> {
        if self.summary_due() {
            seq![RecordModel::BgSummary { ts: now, interval_sec, stats: self.stats }]
        } else {
            Seq::empty()
        }
    }

    /// Whether the app in the foreground is left for another one, and may be evicted from then on.
    pub open spec fn stamps_previous(self, pkg: Name) -> bool {
        self.current_fg is Some && self.current_fg->0 != pkg && self.is_app(self.current_fg->0)
    }

    /// How long the app that is left for this one was in the foreground, where that is known.
    pub open spec fn previous_duration(self, pkg: Name, now: u64) -> Option<u64> {
        if self.current_fg is Some && self.current_fg->0 != pkg && self.fg_since is Some {
            Some(elapsed(now, self.fg_since->0))
        } else {
            None
        }
    }

    /// Whether the app that is left for this one only led to it: it was in the foreground for less than
    /// [`TRAMPOLINE_MS`].
    pub open spec fn leaves_trampoline(self, pkg: Name, now: u64) -> bool {
        self.previous_duration(pkg, now) is Some && self.previous_duration(pkg, now)->0
            < TRAMPOLINE_MS
    }

    /// The history after an app came to the foreground. An app that only led to it leaves the history.
    pub open spec fn history_after(self, pkg: Name, now: u64) -> Seq<Name> {
        let kept = if self.leaves_trampoline(pkg, now) {
            lru_without(self.lru, self.current_fg->0)
        } else {
            self.lru
        };
        lru_after(kept, pkg, self.config.fg_lru_max_depth)
    }

    /// What happens when an app comes to the foreground.
    pub open spec fn after_resume(self, ev: ResumeModel, now: u64) -> Outcome {
        let prev = self.current_fg;
        let dur = match self.previous_duration(ev.pkg, now) {
            Some(ms) => ms,
            None => 0,
        };
        let alive = if self.stamps_previous(ev.pkg) {
            self.alive.insert(prev->0, now)
        } else {
            self.alive
        };
        let is_game = self.games.contains(ev.pkg);
        let starts = is_game && !self.is_gaming;
        let ends = !is_game && self.is_gaming;
        let game_record = if starts {
            seq![RecordModel::GameStart { ts: now, pkg: ev.pkg }]
        } else if ends {
            seq![
                RecordModel::GameEnd {
                    ts: now,
                    duration_sec: seconds_since(self.game_session_start, now),
                    intrusions: self.intrusions,
                },
            ]
        } else {
            Seq::empty()
        };
        let switch = RecordModel::FgSwitch {
            ts: now,
            pkg: ev.pkg,
            component: ev.component,
            prev,
            prev_dur_ms: dur,
            is_game,
        };
        Outcome {
            state: DaemonModel {
                alive,
                lru: self.history_after(ev.pkg, now),
                current_fg: Some(ev.pkg),
                fg_since: if prev == Some(ev.pkg) {
                    self.fg_since
                } else {
                    Some(now)
                },
                is_gaming: is_game,
                game_session_start: if starts {
                    Some(now)
                } else if ends {
                    None
                } else {
                    self.game_session_start
                },
                intrusions: if starts {
                    0
                } else {
                    self.intrusions
                },
                ..self.summarised(now)
            },
            records: (self.summary(now, (elapsed(now, self.session_start) / 1000) as u64)
                + game_record).push(switch),
            reap: prev != Some(ev.pkg),
        }
    }

    /// Whether a process was started for an activity that is about to be shown.
    pub open spec fn is_top_launch(spawn_type: Seq<char>) -> bool {
        spawn_type == "top-activity"@ || spawn_type == "next-top-activity"@
    }

    /// The process ids of an app.
    pub open spec fn pids_of(self, pkg: Name) -> Set<u32> {
        if self.pids.dom().contains(pkg) {
            self.pids[pkg]
        } else {
            Set::empty()
        }
    }

    /// Whether the process that is started is that of an app: by its own user id, and by the one that is
    /// known for the name, where one is.
    pub open spec fn starts_app(self, ev: StartModel) -> bool {
        &&& ev.uid >= FIRST_APP_UID
        &&& self.uids.dom().contains(ev.pkg) ==> self.is_app(ev.pkg)
    }

    /// What happens when a process is started that has this much resident memory.
    pub open spec fn after_start(self, ev: StartModel, now: u64, rss_kb: u64) -> Outcome {
        let is_fg = self.current_fg == Some(ev.pkg);
        let top = Self::is_top_launch(ev.spawn_type);
        let intrudes = self.is_gaming && !top;
        let intrusion = if intrudes {
            seq![
                RecordModel::GameIntrusion {
                    ts: now,
                    pid: ev.pid,
                    uid: ev.uid,
                    pkg: ev.pkg,
                    proc_name: ev.proc_name,
                    spawn_type: ev.spawn_type,
                    rss_kb,
                    excluded: self.excluded(ev.pkg),
                },
            ]
        } else {
            Seq::empty()
        };
        let died = self.deaths.dom().contains(ev.pkg);
        let gap = elapsed(now, self.deaths[ev.pkg]);
        let respawn = if died && gap <= RESPAWN_WINDOW_MS {
            seq![
                RecordModel::Respawn {
                    ts: now,
                    pkg: ev.pkg,
                    gap_ms: gap,
                    pid: ev.pid,
                    uid: ev.uid,
                    spawn_type: ev.spawn_type,
                },
            ]
        } else {
            Seq::empty()
        };
        let is_app = self.starts_app(ev);
        Outcome {
            state: DaemonModel {
                stats: if is_fg {
                    self.stats
                } else {
                    SessionStats {
                        bg_spawns: self.stats.bg_spawns.wrapping_add(1),
                        spawn_rss_kb: self.stats.spawn_rss_kb.wrapping_add(rss_kb as i64),
                        ..self.stats
                    }
                },
                intrusions: if intrudes {
                    self.intrusions.wrapping_add(1)
                } else {
                    self.intrusions
                },
                owner: self.owner.insert(ev.pid, ev.pkg),
                pids: self.pids.insert(ev.pkg, self.pids_of(ev.pkg).insert(ev.pid)),
                uids: if self.uids.dom().contains(ev.pkg) {
                    self.uids
                } else {
                    self.uids.insert(ev.pkg, ev.uid)
                },
                deaths: self.deaths.remove(ev.pkg),
                alive: if is_app && !self.alive.dom().contains(ev.pkg) {
                    self.alive.insert(ev.pkg, now)
                } else {
                    self.alive
                },
                ..self
            },
            records: intrusion + respawn,
            reap: is_app && !is_fg && !top,
        }
    }

    /// The deaths that a process started at `now` can still be a respawn of.
    pub open spec fn fresh_deaths(deaths: Map<Name, u64>, now: u64) -> Map<Name, u64> {
        deaths.restrict(
            Set::new(
                |k: Name| deaths.dom().contains(k) && elapsed(now, deaths[k]) <= RESPAWN_WINDOW_MS,
            ),
        )
    }

    /// What happens when a process is gone. It never makes a reaping pass due: its memory is
    /// already free.
    pub open spec fn after_death(self, pid: u32, now: u64) -> Outcome {
        let state = if !self.owner.dom().contains(pid) {
            self
        } else {
            let pkg = self.owner[pid];
            let known = self.pids.dom().contains(pkg);
            let rest = self.pids[pkg].remove(pid);
            let deaths = self.deaths.insert(pkg, now);
            DaemonModel {
                owner: self.owner.remove(pid),
                pids: if known {
                    self.pids.insert(pkg, rest)
                } else {
                    self.pids
                },
                alive: if known && rest == Set::<u32>::empty() {
                    self.alive.remove(pkg)
                } else {
                    self.alive
                },
                stats: if self.current_fg == Some(pkg) {
                    self.stats
                } else {
                    SessionStats { bg_deaths: self.stats.bg_deaths.wrapping_add(1), ..self.stats }
                },
                deaths: if deaths.dom().len() > 64 {
                    Self::fresh_deaths(deaths, now)
                } else {
                    deaths
                },
                ..self
            }
        };
        Outcome { state, records: Seq::empty(), reap: false }
    }

    /// What happens when the screen is switched on or off. It never makes a reaping pass due, so
    /// that a short look at the lock screen costs no app.
    pub open spec fn after_toggle(self, on: bool, now: u64) -> Outcome {
        if self.screen_on == on {
            Outcome { state: self, records: Seq::empty(), reap: false }
        } else if !on {
            let active_ms = millis_since(self.screen_on_start, now);
            Outcome {
                state: DaemonModel {
                    screen_on: false,
                    screen_on_start: None,
                    screen_off_start: Some(now),
                    ..self.summarised(now)
                },
                records: seq![RecordModel::ScreenOff { ts: now, active_ms }] + self.summary(
                    now,
                    (active_ms / 1000) as u64,
                ),
                reap: false,
            }
        } else {
            let off_sec = seconds_since(self.screen_off_start, now);
            Outcome {
                state: DaemonModel {
                    screen_on: true,
                    screen_on_start: Some(now),
                    screen_off_start: None,
                    ..self.summarised(now)
                },
                records: seq![RecordModel::ScreenOn { ts: now, off_sec }] + self.summary(
                    now,
                    off_sec,
                ),
                reap: false,
            }
        }
    }

    /// What an event leads to, where `rss_kb` is the resident memory of the process that it
    /// starts, if it starts one.
    pub open spec fn after_event(self, ev: EventModel, now: u64, rss_kb: u64) -> Outcome {
        match ev {
            EventModel::ResumeActivity(ev) => self.after_resume(ev, now),
            EventModel::ProcStart(ev) => self.after_start(ev, now, rss_kb),
            EventModel::ProcDied(pid) => self.after_death(pid, now),
            EventModel::ScreenToggled(on) => self.after_toggle(on, now),
            EventModel::DeviceIdleLightStep => Outcome {
                state: self,
                records: Seq::empty(),
                reap: !self.screen_on && self.config.screen_off_harvest,
            },
        }
    }
}

proof fn lemma_models_push(records: Seq<Record>, r: Record)
    ensures
        records::models(records.push(r)) == records::models(records).push(r@),
{
    assert(records::models(records.push(r)) =~= records::models(records).push(r@));
}

fn push_record(out: &mut Vec<Record>, r: Record)
    ensures
        records::models(final(out)@) == records::models(old(out)@).push(r@),
{
    proof {
        lemma_models_push(out@, r);
    }
    out.push(r);
}

/// Whole seconds from an optional start to `now`; 0 without a start.
pub fn whole_seconds_since(start: Option<u64>, now: u64) -> (secs: u64)
    ensures
        secs == seconds_since(start, now),
{
    match start {
        Some(s) => now.saturating_sub(s) / 1000,
        None => 0,
    }
}

impl DaemonState {
    /// Whether an app is never evicted: the user or the system excludes it, or it is in the
    /// foreground.
    pub fn is_excluded(&self, pkg: &str) -> (yes: bool)
        requires
            self.wf(),
        ensures
            yes == self@.excluded(pkg@),
    {
        self.user_exclusions.contains(pkg) || self.dynamic_exclusions.contains(pkg)
            || self.is_foreground(pkg)
    }

    fn is_foreground(&self, pkg: &str) -> (yes: bool)
        ensures
            yes == (self@.current_fg == Some(pkg@)),
    {
        match &self.current_fg {
            Some(fg) => text::same(fg.as_str(), pkg),
            None => false,
        }
    }

    /// Appends a summary of what happened in the background, if anything did, and starts the counters
    /// anew.
    pub fn emit_bg_summary(&mut self, now_epoch: u64, interval_sec: u64, out: &mut Vec<Record>)
        requires
            old(self).wf(),
        ensures
            final(self).wf(),
            final(self)@ == old(self)@.summarised(now_epoch),
            records::models(final(out)@) == records::models(old(out)@) + old(self)@.summary(
                now_epoch,
                interval_sec,
            ),
    {
        if self.session_stats.bg_spawns == 0 && self.session_stats.bg_deaths == 0 {
            assert(records::models(out@) =~= records::models(old(out)@) + old(self)@.summary(
                now_epoch,
                interval_sec,
            ));
            return;
        }
        push_record(
            out,
            Record::BgSummary { ts: now_epoch, interval_sec, stats: self.session_stats },
        );
        self.session_stats = SessionStats::default();
        self.session_start = now_epoch;
        assert(records::models(out@) =~= records::models(old(out)@) + old(self)@.summary(
            now_epoch,
            interval_sec,
        ));
        assert(self@ =~= old(self)@.summarised(now_epoch));
    }
}

impl DaemonState {
    /// How long the app that is left for this one was in the foreground, where that is known.
    fn previous_stay(&self, pkg: &str, now_epoch: u64) -> (dur: Option<u64>)
        ensures
            dur == self@.previous_duration(pkg@, now_epoch),
    {
        match (&self.current_fg, self.fg_since) {
            (Some(prev), Some(since)) => {
                if text::same(prev.as_str(), pkg) {
                    None
                } else {
                    Some(now_epoch.saturating_sub(since))
                }
            },
            _ => None,
        }
    }

    /// Takes note that the app in the foreground is left for another one, and may be evicted from then on.
    fn stamp_previous(&mut self, pkg: &str, now_epoch: u64)
        requires
            old(self).wf(),
        ensures
            final(self).wf(),
            final(self)@ == (DaemonModel {
                alive: if old(self)@.stamps_previous(pkg@) {
                    old(self)@.alive.insert(old(self)@.current_fg->0, now_epoch)
                } else {
                    old(self)@.alive
                },
                ..old(self)@
            }),
    {
        let prev = match &self.current_fg {
            Some(prev) => prev.clone(),
            None => {
                return;
            },
        };
        if text::same(prev.as_str(), pkg) {
            return;
        }
        let uid: u32 = match self.pkg_to_uid.get(prev.as_str()) {
            Some(uid) => *uid,
            None => {
                return;
            },
        };
        if uid < FIRST_APP_UID {
            return;
        }
        let _ = self.alive_apps.insert(prev, now_epoch);
        assert(self@ =~= (DaemonModel {
            alive: old(self)@.alive.insert(old(self)@.current_fg->0, now_epoch),
            ..old(self)@
        }));
    }

    /// Handles that an app comes to the foreground. Returns whether a reaping pass is due.
    pub fn on_resume_activity(
        &mut self,
        ev: &ResumeActivityEvent,
        now_epoch: u64,
        out: &mut Vec<Record>,
    ) -> (reap: bool)
        requires
            old(self).wf(),
        ensures
            final(self).wf(),
            final(self)@ == old(self)@.after_resume(ev@, now_epoch).state,
            records::models(final(out)@) == records::models(old(out)@) + old(self)@.after_resume(
                ev@,
                now_epoch,
            ).records,
            reap == old(self)@.after_resume(ev@, now_epoch).reap,
    {
        let ghost m = self@;
        let ghost before = records::models(out@);
        let ghost want = m.after_resume(ev@, now_epoch);
        let prev = self.current_fg.clone();
        let switched = !self.is_foreground(ev.pkg);
        let stay = self.previous_stay(ev.pkg, now_epoch);
        self.stamp_previous(ev.pkg, now_epoch);

        let interval_sec: u64 = now_epoch.saturating_sub(self.session_start) / 1000;
        self.emit_bg_summary(now_epoch, interval_sec, out);
        let ghost summary = m.summary(now_epoch, interval_sec);
        assert(records::models(out@) == before + summary);

        let prev_dur_ms: u64 = match stay {
            Some(ms) => ms,
            None => 0,
        };
        if let (Some(prev), Some(ms)) = (&prev, stay) {
            if ms < TRAMPOLINE_MS {
                self.lru_remove(prev.as_str());
            }
        }
        self.lru_touch(ev.pkg);
        assert(self@.lru == m.history_after(ev.pkg@, now_epoch));

        let was_gaming = self.is_gaming;
        let is_game = self.games.contains(ev.pkg);
        self.is_gaming = is_game;
        let ghost mut game_record: Seq<RecordModel> = Seq::empty();
        if is_game && !was_gaming {
            self.game_session_start = Some(now_epoch);
            self.game_intrusion_count = 0;
            let r = Record::GameStart { ts: now_epoch, pkg: ev.pkg.to_owned() };
            proof {
                game_record = seq![r@];
            }
            push_record(out, r);
        } else if !is_game && was_gaming {
            let duration_sec: u64 = whole_seconds_since(self.game_session_start, now_epoch);
            let r = Record::GameEnd {
                ts: now_epoch,
                duration_sec,
                intrusions: self.game_intrusion_count,
            };
            proof {
                game_record = seq![r@];
            }
            push_record(out, r);
            self.game_session_start = None;
        }
        assert(records::models(out@) =~= before + (summary + game_record));

        self.current_fg = Some(ev.pkg.to_owned());
        if switched {
            self.fg_since = Some(now_epoch);
        }
        let r = Record::FgSwitch {
            ts: now_epoch,
            pkg: ev.pkg.to_owned(),
            component: ev.component.to_owned(),
            prev,
            prev_dur_ms,
            is_game,
        };
        let ghost switch = r@;
        push_record(out, r);
        proof {
            assert(want.records =~= (summary + game_record).push(switch));
            assert(records::models(out@) =~= before + want.records);
            assert(self@ =~= want.state);
        }
        switched
    }

    /// Adds a process id to those of an app.
    pub(crate) fn add_pid(&mut self, pid: u32, pkg: &str)
        requires
            old(self).wf(),
        ensures
            final(self).wf(),
            final(self)@ == (DaemonModel {
                owner: old(self)@.owner.insert(pid, pkg@),
                pids: old(self)@.pids.insert(pkg@, old(self)@.pids_of(pkg@).insert(pid)),
                ..old(self)@
            }),
    {
        let ghost m = self@;
        let _ = self.pid_to_pkg.insert(pid, pkg.to_owned());
        assert(self@.owner =~= m.owner.insert(pid, pkg@));
        let mut set = match self.pkg_to_pids.remove(pkg) {
            Some(set) => set,
            None => FastSet::new(),
        };
        assert(set@ == m.pids_of(pkg@));
        let _ = set.insert(pid);
        let _ = self.pkg_to_pids.insert(pkg.to_owned(), set);
        assert(self@.pids =~= m.pids.insert(pkg@, m.pids_of(pkg@).insert(pid)));
        assert(self@ =~= (DaemonModel {
            owner: m.owner.insert(pid, pkg@),
            pids: m.pids.insert(pkg@, m.pids_of(pkg@).insert(pid)),
            ..m
        }));
    }

    /// Handles that a process is started, which has this much resident memory. Returns whether a
    /// reaping pass is due: it is for an app that is started in the background.
    pub fn on_proc_start(
        &mut self,
        ev: &ProcStartEvent,
        now_epoch: u64,
        initial_rss_kb: u64,
        out: &mut Vec<Record>,
    ) -> (reap: bool)
        requires
            old(self).wf(),
        ensures
            final(self).wf(),
            final(self)@ == old(self)@.after_start(ev@, now_epoch, initial_rss_kb).state,
            records::models(final(out)@) == records::models(old(out)@) + old(self)@.after_start(
                ev@,
                now_epoch,
                initial_rss_kb,
            ).records,
            reap == old(self)@.after_start(ev@, now_epoch, initial_rss_kb).reap,
    {
        let ghost m = self@;
        let ghost before = records::models(out@);
        let ghost want = m.after_start(ev@, now_epoch, initial_rss_kb);
        let is_fg = self.is_foreground(ev.pkg);
        if !is_fg {
            self.session_stats.bg_spawns = self.session_stats.bg_spawns.wrapping_add(1);
            self.session_stats.spawn_rss_kb = self.session_stats.spawn_rss_kb.wrapping_add(
                #[verifier::truncate]
                (initial_rss_kb as i64),
            );
        }
        let top = text::same(ev.spawn_type, "top-activity") || text::same(
            ev.spawn_type,
            "next-top-activity",
        );
        let ghost mut intrusion: Seq<RecordModel> = Seq::empty();
        if self.is_gaming && !top {
            self.game_intrusion_count = self.game_intrusion_count.wrapping_add(1);
            let excluded = self.is_excluded(ev.pkg);
            let r = Record::GameIntrusion {
                ts: now_epoch,
                pid: ev.pid,
                uid: ev.uid,
                pkg: ev.pkg.to_owned(),
                proc_name: ev.proc_name.to_owned(),
                spawn_type: ev.spawn_type.to_owned(),
                rss_kb: initial_rss_kb,
                excluded,
            };
            proof {
                intrusion = seq![r@];
            }
            push_record(out, r);
        }
        assert(records::models(out@) =~= before + intrusion);

        self.add_pid(ev.pid, ev.pkg);
        let uid: u32 = match self.pkg_to_uid.get(ev.pkg) {
            Some(uid) => *uid,
            None => {
                let _ = self.pkg_to_uid.insert(ev.pkg.to_owned(), ev.uid);
                ev.uid
            },
        };
        let is_app = ev.uid >= FIRST_APP_UID && uid >= FIRST_APP_UID;

        let ghost mut respawn: Seq<RecordModel> = Seq::empty();
        if let Some(death_time) = self.recent_deaths.remove(ev.pkg) {
            let gap_ms: u64 = now_epoch.saturating_sub(death_time);
            if gap_ms <= RESPAWN_WINDOW_MS {
                let r = Record::Respawn {
                    ts: now_epoch,
                    pkg: ev.pkg.to_owned(),
                    gap_ms,
                    pid: ev.pid,
                    uid: ev.uid,
                    spawn_type: ev.spawn_type.to_owned(),
                };
                proof {
                    respawn = seq![r@];
                }
                push_record(out, r);
            }
        }
        assert(records::models(out@) =~= before + (intrusion + respawn));

        if is_app && !self.alive_apps.contains_key(ev.pkg) {
            let _ = self.alive_apps.insert(ev.pkg.to_owned(), now_epoch);
        }
        proof {
            assert(want.records =~= intrusion + respawn);
            assert(self@ =~= want.state);
        }
        is_app && !is_fg && !top
    }

    /// Drops the deaths that nothing started at `now_epoch` can be a respawn of.
    fn drop_old_deaths(&mut self, now_epoch: u64)
        requires
            old(self).wf(),
        ensures
            final(self).wf(),
            final(self)@ == (DaemonModel {
                deaths: DaemonModel::fresh_deaths(old(self)@.deaths, now_epoch),
                ..old(self)@
            }),
    {
        let ghost m = self@;
        let mut i: usize = 0;
        while i < self.recent_deaths.len()
            invariant
                self.wf(),
                self@ == (DaemonModel { deaths: self@.deaths, ..m }),
                i <= self.recent_deaths.keys().len(),
                forall|k: Name|
                    #![trigger self@.deaths.dom().contains(k)]
                    self@.deaths.dom().contains(k) ==> m.deaths.dom().contains(k)
                        && self@.deaths[k] == m.deaths[k],
                forall|k: Name|
                    #![trigger m.deaths.dom().contains(k)]
                    m.deaths.dom().contains(k) && elapsed(now_epoch, m.deaths[k])
                        <= RESPAWN_WINDOW_MS ==> self@.deaths.dom().contains(k),
                forall|j: int|
                    0 <= j < i ==> elapsed(
                        now_epoch,
                        m.deaths[#[trigger] self.recent_deaths.keys()[j]],
                    ) <= RESPAWN_WINDOW_MS,
            decreases self.recent_deaths.keys().len() - i,
        {
            proof {
                self.recent_deaths.lemma_keys();
            }
            let ghost before = *self;
            let death: u64 = *self.recent_deaths.value_at(i);
            assert(self@.deaths.dom().contains(self.recent_deaths.keys()[i as int]));
            assert(death == m.deaths[self.recent_deaths.keys()[i as int]]);
            if now_epoch.saturating_sub(death) <= RESPAWN_WINDOW_MS {
                i = i + 1;
            } else {
                let _ = self.recent_deaths.remove_at(i);
                proof {
                    let keys = before.recent_deaths.keys();
                    assert(self@.deaths == before@.deaths.remove(keys[i as int]));
                    assert forall|k: Name| self@.deaths.dom().contains(k) implies m.deaths.dom().contains(k)
                        && self@.deaths[k] == m.deaths[k] by {
                        assert(before@.deaths.dom().contains(k));
                    }
                    assert forall|j: int| 0 <= j < i implies elapsed(
                        now_epoch,
                        m.deaths[#[trigger] self.recent_deaths.keys()[j]],
                    ) <= RESPAWN_WINDOW_MS by {
                        assert(self.recent_deaths.keys()[j] == keys[j]);
                    }
                    assert(self@ =~= (DaemonModel { deaths: self@.deaths, ..m }));
                }
            }
        }
        proof {
            self.recent_deaths.lemma_keys();
            let fresh = DaemonModel::fresh_deaths(m.deaths, now_epoch);
            assert forall|k: Name| self@.deaths.dom().contains(k) implies fresh.dom().contains(k) by {
                assert(self.recent_deaths.keys().contains(k));
                let j = choose|j: int|
                    0 <= j < self.recent_deaths.keys().len() && self.recent_deaths.keys()[j] == k;
                assert(elapsed(now_epoch, m.deaths[self.recent_deaths.keys()[j]])
                    <= RESPAWN_WINDOW_MS);
            }
            assert(self@.deaths =~= fresh);
            assert(self@ =~= (DaemonModel { deaths: fresh, ..m }));
        }
    }

    /// Handles that a process is gone.
    pub fn on_proc_died(&mut self, ev: &ProcDiedEvent, now_epoch: u64)
        requires
            old(self).wf(),
        ensures
            final(self).wf(),
            final(self)@ == old(self)@.after_death(ev.pid, now_epoch).state,
    {
        let ghost m = self@;
        let pkg = match self.pid_to_pkg.remove(&ev.pid) {
            Some(pkg) => pkg,
            None => {
                assert(self@.owner =~= m.owner);
                assert(self@ =~= m);
                return;
            },
        };
        assert(pkg@ == m.owner[ev.pid]);
        assert(self@.owner =~= m.owner.remove(ev.pid));
        if let Some(mut set) = self.pkg_to_pids.remove(pkg.as_str()) {
            let _ = set.remove(&ev.pid);
            let ghost rest = set@;
            assert(rest == m.pids[pkg@].remove(ev.pid));
            if set.is_empty() {
                let _ = self.alive_apps.remove(pkg.as_str());
            }
            let _ = self.pkg_to_pids.insert(pkg.clone(), set);
            assert(self@.pids =~= m.pids.insert(pkg@, rest));
        } else {
            assert(self@.pids =~= m.pids);
        }
        if !self.is_foreground(pkg.as_str()) {
            self.session_stats.bg_deaths = self.session_stats.bg_deaths.wrapping_add(1);
        }
        let _ = self.recent_deaths.insert(pkg, now_epoch);
        if self.recent_deaths.len() > 64 {
            self.drop_old_deaths(now_epoch);
        }
        assert(self@ =~= m.after_death(ev.pid, now_epoch).state);
    }

    /// Handles that the screen is switched on or off.
    pub fn on_screen_toggled(&mut self, state: bool, now_epoch: u64, out: &mut Vec<Record>)
        requires
            old(self).wf(),
        ensures
            final(self).wf(),
            final(self)@ == old(self)@.after_toggle(state, now_epoch).state,
            records::models(final(out)@) == records::models(old(out)@) + old(self)@.after_toggle(
                state,
                now_epoch,
            ).records,
    {
        let ghost m = self@;
        let ghost before = records::models(out@);
        let ghost want = m.after_toggle(state, now_epoch);
        if self.screen_on == state {
            assert(before + want.records =~= before);
            return;
        }
        if !state {
            let active_ms: u64 = match self.screen_on_start {
                Some(start) => now_epoch.saturating_sub(start),
                None => 0,
            };
            push_record(out, Record::ScreenOff { ts: now_epoch, active_ms });
            self.emit_bg_summary(now_epoch, active_ms / 1000, out);
            self.screen_on = false;
            self.screen_on_start = None;
            self.screen_off_start = Some(now_epoch);
        } else {
            let off_sec: u64 = whole_seconds_since(self.screen_off_start, now_epoch);
            push_record(out, Record::ScreenOn { ts: now_epoch, off_sec });
            self.emit_bg_summary(now_epoch, off_sec, out);
            self.screen_on = true;
            self.screen_on_start = Some(now_epoch);
            self.screen_off_start = None;
        }
        assert(records::models(out@) =~= before + want.records);
        assert(self@ =~= want.state);
    }

    /// Handles an event, where `initial_rss_kb` is the resident memory of the process that it starts,
    /// if it starts one. Returns whether a reaping pass is due.
    pub fn handle_event(
        &mut self,
        event: &LogcatEvent,
        now_epoch: u64,
        initial_rss_kb: u64,
        out: &mut Vec<Record>,
    ) -> (reap: bool)
        requires
            old(self).wf(),
        ensures
            final(self).wf(),
            final(self)@ == old(self)@.after_event(event@, now_epoch, initial_rss_kb).state,
            records::models(final(out)@) == records::models(old(out)@) + old(self)@.after_event(
                event@,
                now_epoch,
                initial_rss_kb,
            ).records,
            reap == old(self)@.after_event(event@, now_epoch, initial_rss_kb).reap,
    {
        match event {
            LogcatEvent::ResumeActivity(ev) => self.on_resume_activity(ev, now_epoch, out),
            LogcatEvent::ProcStart(ev) => self.on_proc_start(ev, now_epoch, initial_rss_kb, out),
            LogcatEvent::ProcDied(ev) => {
                self.on_proc_died(ev, now_epoch);
                assert(records::models(out@) =~= records::models(old(out)@) + Seq::<
                    RecordModel,
                >::empty());
                false
            },
            LogcatEvent::ScreenToggled(state) => {
                self.on_screen_toggled(*state, now_epoch, out);
                false
            },
            LogcatEvent::DeviceIdleLightStep => {
                assert(records::models(out@) =~= records::models(old(out)@) + Seq::<
                    RecordModel,
                >::empty());
                !self.screen_on && self.config.screen_off_harvest
            },
        }
    }
}

} // verus!
