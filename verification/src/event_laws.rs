//! What each event does, told by the state before it and by what the event says.
use vstd::prelude::*;

use crate::clock;
use crate::config::RuntimeConfig;
use crate::daemon;
use crate::daemon::{DaemonModel, Name};
use crate::parser::{EventModel, ResumeModel, StartModel};
use crate::records::RecordModel;
use crate::telemetry::SessionStats;
use crate::text;

verus! {

// ---------------------------------------------------------------------------
// An app comes to the foreground
// ---------------------------------------------------------------------------
/// An app that is left for another one is idle from that moment on, whether it was known to be idle before or
/// not, if it is known by the user id of an app. No other app is touched, and none where no app is left.
pub proof fn law_the_app_that_is_left_is_idle_from_now_on(
    m: DaemonModel,
    ev: ResumeModel,
    now: u64,
    rss_kb: u64,
    prev: Name,
    other: Name,
)
    requires
        m.current_fg == Some(prev) || m.current_fg is None,
        other != prev,
    ensures
        ({
            let after = m.after_event(EventModel::ResumeActivity(ev), now, rss_kb).state;
            let left = m.current_fg == Some(prev) && prev != ev.pkg;
            let app = m.uids.dom().contains(prev) && m.uids[prev] >= 10_000;
            &&& left && app ==> after.alive.dom().contains(prev) && after.alive[prev] == now
            &&& !left || !app ==> after.alive == m.alive
            &&& after.alive.dom().contains(other) == m.alive.dom().contains(other)
            &&& m.alive.dom().contains(other) ==> after.alive[other] == m.alive[other]
        }),
{
}

proof fn lemma_filter_keeps(s: Seq<Name>, f: spec_fn(Name) -> bool)
    requires
        forall|i: int| 0 <= i < s.len() ==> f(#[trigger] s[i]),
    ensures
        s.filter(f) == s,
    decreases s.len(),
{
    reveal(Seq::filter);
    if s.len() > 0 {
        lemma_filter_keeps(s.drop_last(), f);
        assert(f(s[s.len() - 1]));
        assert(s.filter(f) =~= s);
    } else {
        assert(s.filter(f) =~= s);
    }
}

proof fn lemma_filter_twice(
    s: Seq<Name>,
    f: spec_fn(Name) -> bool,
    g: spec_fn(Name) -> bool,
    both: spec_fn(Name) -> bool,
)
    requires
        forall|n: Name| #[trigger] both(n) == (f(n) && g(n)),
    ensures
        s.filter(f).filter(g) == s.filter(both),
    decreases s.len(),
{
    reveal(Seq::filter);
    if s.len() > 0 {
        lemma_filter_twice(s.drop_last(), f, g, both);
        let rest = s.drop_last().filter(f);
        let last = s.last();
        assert(both(last) == (f(last) && g(last)));
        if f(last) {
            assert(rest.push(last).drop_last() =~= rest);
        }
    } else {
        assert(s.filter(f) =~= Seq::<Name>::empty());
        assert(s.filter(f).filter(g) =~= s.filter(both));
    }
}

#[verifier::rlimit(50)]
proof fn lemma_without_is_filter(lru: Seq<Name>, name: Name)
    requires
        lru.no_duplicates(),
    ensures
        daemon::lru_without(lru, name) == lru.filter(|n: Name| n != name),
        daemon::lru_without(lru, name).no_duplicates(),
{
    let f = |n: Name| n != name;
    text::lemma_first_index(lru, daemon::named(name));
    let i = daemon::lru_index(lru, name);
    if i < lru.len() {
        let a = lru.take(i);
        let b = lru.skip(i + 1);
        let one = seq![name];
        assert(daemon::named(name)(lru[i]));
        assert(lru =~= a + one + b);
        assert forall|k: int| 0 <= k < a.len() implies f(#[trigger] a[k]) by {
            assert(lru[k] != lru[i]);
        }
        assert forall|k: int| 0 <= k < b.len() implies f(#[trigger] b[k]) by {
            assert(lru[k + i + 1] != lru[i]);
        }
        lemma_filter_keeps(a, f);
        lemma_filter_keeps(b, f);
        Seq::filter_distributes_over_add(a + one, b, f);
        Seq::filter_distributes_over_add(a, one, f);
        assert(one.filter(f) =~= Seq::<Name>::empty()) by {
            reveal(Seq::filter);
            assert(one.drop_last() =~= Seq::<Name>::empty());
            assert(one.drop_last().filter(f) =~= Seq::<Name>::empty());
        }
        assert(lru.remove(i) =~= a + b);
        assert(lru.filter(f) =~= a + b);
        let rest = lru.remove(i);
        assert forall|p: int, q: int|
            0 <= p < rest.len() && 0 <= q < rest.len() && p != q implies rest[p] != rest[q] by {
            let p0 = if p < i {
                p
            } else {
                p + 1
            };
            let q0 = if q < i {
                q
            } else {
                q + 1
            };
            assert(rest[p] == lru[p0] && rest[q] == lru[q0]);
            assert(lru[p0] != lru[q0]);
        }
    } else {
        assert forall|k: int| 0 <= k < lru.len() implies f(#[trigger] lru[k]) by {
            assert(!daemon::named(name)(lru[k]));
        }
        lemma_filter_keeps(lru, f);
    }
}

/// The history behind a resumed app: that app, then the others in the order in which they were, up to as many
/// as the history may hold. An app leaves it that was in the foreground for less than half a second and is
/// left now, and no other does but at the end.
pub proof fn law_the_history_keeps_its_order(m: DaemonModel, ev: ResumeModel, now: u64, rss_kb: u64)
    requires
        m.lru.no_duplicates(),
    ensures
        ({
            let after = m.after_event(EventModel::ResumeActivity(ev), now, rss_kb).state;
            let max = m.config.fg_lru_max_depth as int;
            let short_stay = m.current_fg is Some && m.current_fg != Some(ev.pkg) && (
            m.fg_since matches Some(since) && now < since + 500);
            let all = seq![ev.pkg] + m.lru.filter(
                |n: Name| n != ev.pkg && !(short_stay && m.current_fg == Some(n)),
            );
            after.lru == if all.len() <= max {
                all
            } else {
                all.take(max)
            }
        }),
{
    let short_stay = m.current_fg is Some && m.current_fg != Some(ev.pkg) && (
    m.fg_since matches Some(since) && now < since + 500);
    let keeps = |n: Name| n != ev.pkg && !(short_stay && m.current_fg == Some(n));
    let others = |n: Name| n != ev.pkg;
    assert(m.leaves_trampoline(ev.pkg, now) == short_stay);
    if short_stay {
        let prev = m.current_fg->0;
        let f = |n: Name| n != prev;
        lemma_without_is_filter(m.lru, prev);
        lemma_without_is_filter(daemon::lru_without(m.lru, prev), ev.pkg);
        lemma_filter_twice(m.lru, f, others, keeps);
    } else {
        lemma_without_is_filter(m.lru, ev.pkg);
        lemma_filter_twice(m.lru, others, others, keeps);
        let rest = m.lru.filter(others);
        assert forall|i: int| 0 <= i < rest.len() implies others(#[trigger] rest[i]) by {
            m.lru.lemma_filter_pred(others, i);
        }
        lemma_filter_keeps(rest, others);
    }
}

/// What else a resumed app changes: it is in the foreground, since now where it was not before; a game is on
/// just where the app is one; a game that starts has had no intrusions; and where anything happened in the
/// background, the counters start anew. A pass is due where another app was in the foreground. Nothing else
/// changes.
pub proof fn law_what_a_resumed_app_changes(m: DaemonModel, ev: ResumeModel, now: u64, rss_kb: u64)
    ensures
        ({
            let out = m.after_event(EventModel::ResumeActivity(ev), now, rss_kb);
            let after = out.state;
            let game = m.games.contains(ev.pkg);
            let active = m.stats.bg_spawns > 0 || m.stats.bg_deaths > 0;
            &&& after.current_fg == Some(ev.pkg)
            &&& m.current_fg == Some(ev.pkg) ==> after.fg_since == m.fg_since && !out.reap
            &&& m.current_fg != Some(ev.pkg) ==> after.fg_since == Some(now) && out.reap
            &&& after.is_gaming == game
            &&& game && !m.is_gaming ==> after.game_session_start == Some(now) && after.intrusions == 0
            &&& !game && m.is_gaming ==> after.game_session_start is None && after.intrusions
                == m.intrusions
            &&& game == m.is_gaming ==> after.game_session_start == m.game_session_start
                && after.intrusions == m.intrusions
            &&& active ==> after.stats == (SessionStats {
                bg_spawns: 0,
                bg_deaths: 0,
                spawn_rss_kb: 0,
            }) && after.session_start == now
            &&& !active ==> after.stats == m.stats && after.session_start == m.session_start
            &&& after == (DaemonModel {
                alive: after.alive,
                lru: after.lru,
                current_fg: after.current_fg,
                fg_since: after.fg_since,
                is_gaming: after.is_gaming,
                game_session_start: after.game_session_start,
                intrusions: after.intrusions,
                stats: after.stats,
                session_start: after.session_start,
                ..m
            })
        }),
{
}

/// Whether `secs` are the whole seconds from `start` to `now`.
pub open spec fn whole_seconds(start: u64, now: u64, secs: u64) -> bool {
    if start <= now {
        secs * 1000 <= now - start < secs * 1000 + 1000
    } else {
        secs == 0
    }
}

/// What is recorded of a resumed app: the summary of the background, where anything happened there; that a
/// game starts or ends, where it does; and last, the switch, with how long the app was in the foreground that
/// is left.
#[verifier::rlimit(50)]
pub proof fn law_resumed_apps_are_recorded(m: DaemonModel, ev: ResumeModel, now: u64, rss_kb: u64)
    ensures
        ({
            let records = m.after_event(EventModel::ResumeActivity(ev), now, rss_kb).records;
            let game = m.games.contains(ev.pkg);
            let active = m.stats.bg_spawns > 0 || m.stats.bg_deaths > 0;
            let at: int = if active {
                1
            } else {
                0
            };
            let changes = game != m.is_gaming;
            &&& records.len() == at + 1 + if changes {
                1int
            } else {
                0
            }
            &&& active ==> (records[0] matches RecordModel::BgSummary { ts, interval_sec, stats }
                && ts == now && stats == m.stats && whole_seconds(
                m.session_start,
                now,
                interval_sec,
            ))
            &&& changes && game ==> records[at] == (RecordModel::GameStart { ts: now, pkg: ev.pkg })
            &&& changes && !game ==> (records[at] matches RecordModel::GameEnd {
                ts,
                duration_sec,
                intrusions,
            } && ts == now && intrusions == m.intrusions && (m.game_session_start matches Some(start)
                ==> whole_seconds(start, now, duration_sec)) && (m.game_session_start is None
                ==> duration_sec == 0))
            &&& records.last() matches RecordModel::FgSwitch {
                ts,
                pkg,
                component,
                prev,
                prev_dur_ms,
                is_game,
            } && {
                &&& ts == now
                &&& pkg == ev.pkg
                &&& component == ev.component
                &&& prev == m.current_fg
                &&& is_game == game
                &&& m.current_fg is None || m.current_fg == Some(ev.pkg) || m.fg_since is None
                    ==> prev_dur_ms == 0
                &&& m.current_fg is Some && m.current_fg != Some(ev.pkg) ==> (
                m.fg_since matches Some(since) ==> prev_dur_ms == if since <= now {
                    now - since
                } else {
                    0
                })
            }
        }),
{
    let out = m.after_resume(ev, now);
    let last = out.records.last();
    assert(last is FgSwitch);
}

// ---------------------------------------------------------------------------
// A process starts
// ---------------------------------------------------------------------------
/// A process that starts belongs to its app from then on, and the first user id that is known of the app stays.
/// The app can be evicted from now on, if both that user id and the one of the process are those of apps; one
/// that could be evicted already does not become younger. A pass is due for such an app, unless it is in the
/// foreground or started for what is about to be shown there. Nothing is changed of other apps.
pub proof fn law_what_a_started_process_changes(
    m: DaemonModel,
    ev: StartModel,
    now: u64,
    rss_kb: u64,
    other: Name,
)
    requires
        other != ev.pkg,
    ensures
        ({
            let out = m.after_event(EventModel::ProcStart(ev), now, rss_kb);
            let after = out.state;
            let app = ev.uid >= 10_000 && (m.uids.dom().contains(ev.pkg) ==> m.uids[ev.pkg] >= 10_000);
            let shown = ev.spawn_type == "top-activity"@ || ev.spawn_type == "next-top-activity"@;
            &&& after.owner == m.owner.insert(ev.pid, ev.pkg)
            &&& after.pids.dom() == m.pids.dom().insert(ev.pkg)
            &&& forall|pid: u32| #[trigger]
                after.pids[ev.pkg].contains(pid) <==> pid == ev.pid || (m.pids.dom().contains(ev.pkg)
                    && m.pids[ev.pkg].contains(pid))
            &&& m.pids.dom().contains(other) ==> after.pids[other] == m.pids[other]
            &&& after.uids.dom() == m.uids.dom().insert(ev.pkg)
            &&& after.uids[ev.pkg] == if m.uids.dom().contains(ev.pkg) {
                m.uids[ev.pkg]
            } else {
                ev.uid
            }
            &&& m.uids.dom().contains(other) ==> after.uids[other] == m.uids[other]
            &&& !app || m.alive.dom().contains(ev.pkg) ==> after.alive == m.alive
            &&& app && !m.alive.dom().contains(ev.pkg) ==> after.alive == m.alive.insert(ev.pkg, now)
            &&& after.deaths == m.deaths.remove(ev.pkg)
            &&& out.reap <==> app && m.current_fg != Some(ev.pkg) && !shown
            &&& after == (DaemonModel {
                owner: after.owner,
                pids: after.pids,
                uids: after.uids,
                alive: after.alive,
                deaths: after.deaths,
                stats: after.stats,
                intrusions: after.intrusions,
                ..m
            })
        }),
{
    let after = m.after_start(ev, now, rss_kb).state;
    assert(after.pids.dom() =~= m.pids.dom().insert(ev.pkg));
    assert(after.uids.dom() =~= m.uids.dom().insert(ev.pkg));
}

/// What is counted and recorded of a process that starts. One in the background is counted with its memory.
/// One that starts while a game is on is an intrusion, unless it is started for what is about to be shown;
/// whether the app is excluded is told with it. One that starts within two minutes after a death of its app
/// is a respawn.
#[verifier::rlimit(50)]
pub proof fn law_started_processes_are_counted(
    m: DaemonModel,
    ev: StartModel,
    now: u64,
    rss_kb: u64,
)
    ensures
        ({
            let out = m.after_event(EventModel::ProcStart(ev), now, rss_kb);
            let shown = ev.spawn_type == "top-activity"@ || ev.spawn_type == "next-top-activity"@;
            let intrudes = m.is_gaming && !shown;
            let died = m.deaths.dom().contains(ev.pkg);
            let respawns = died && now <= m.deaths[ev.pkg] + 120_000;
            let first: int = if intrudes {
                1
            } else {
                0
            };
            &&& m.current_fg == Some(ev.pkg) ==> out.state.stats == m.stats
            &&& m.current_fg != Some(ev.pkg) ==> {
                &&& m.stats.bg_spawns < u32::MAX ==> out.state.stats.bg_spawns == m.stats.bg_spawns + 1
                &&& out.state.stats.bg_deaths == m.stats.bg_deaths
                &&& rss_kb <= i64::MAX && m.stats.spawn_rss_kb + rss_kb <= i64::MAX
                    ==> out.state.stats.spawn_rss_kb == m.stats.spawn_rss_kb + rss_kb
            }
            &&& !intrudes ==> out.state.intrusions == m.intrusions
            &&& intrudes && m.intrusions < u32::MAX ==> out.state.intrusions == m.intrusions + 1
            &&& out.records.len() == first + if respawns {
                1int
            } else {
                0
            }
            &&& intrudes ==> out.records[0] == (RecordModel::GameIntrusion {
                ts: now,
                pid: ev.pid,
                uid: ev.uid,
                pkg: ev.pkg,
                proc_name: ev.proc_name,
                spawn_type: ev.spawn_type,
                rss_kb,
                excluded: m.user_exclusions.contains(ev.pkg) || m.dynamic_exclusions.contains(ev.pkg)
                    || m.current_fg == Some(ev.pkg),
            })
            &&& respawns ==> out.records[first] == (RecordModel::Respawn {
                ts: now,
                pkg: ev.pkg,
                gap_ms: if now >= m.deaths[ev.pkg] {
                    (now - m.deaths[ev.pkg]) as u64
                } else {
                    0
                },
                pid: ev.pid,
                uid: ev.uid,
                spawn_type: ev.spawn_type,
            })
        }),
{
    if rss_kb <= i64::MAX {
        assert(rss_kb as i64 == rss_kb);
    }
}

// ---------------------------------------------------------------------------
// A process is gone
// ---------------------------------------------------------------------------
/// A process that is gone and that nobody knew changes nothing. Another one no longer belongs to its app, which
/// can no longer be evicted when it was the last; the death is remembered, and counted where the app is in the
/// background. A death never makes a pass due and is not recorded. Nothing else changes, except that deaths are
/// forgotten that are more than two minutes old, where more than 64 would be remembered.
#[verifier::rlimit(50)]
pub proof fn law_what_a_death_changes(m: DaemonModel, pid: u32, now: u64, rss_kb: u64, other: Name)
    requires
        m.owner.dom().contains(pid) ==> other != m.owner[pid],
    ensures
        ({
            let out = m.after_event(EventModel::ProcDied(pid), now, rss_kb);
            let after = out.state;
            let pkg = m.owner[pid];
            &&& !out.reap && out.records.len() == 0
            &&& !m.owner.dom().contains(pid) ==> after == m
            &&& m.owner.dom().contains(pid) ==> {
                &&& after.owner == m.owner.remove(pid)
                &&& after.pids.dom() == m.pids.dom()
                &&& m.pids.dom().contains(pkg) ==> after.pids[pkg] == m.pids[pkg].remove(pid)
                &&& m.pids.dom().contains(other) ==> after.pids[other] == m.pids[other]
                &&& m.pids.dom().contains(pkg) && (forall|p: u32| #[trigger]
                    m.pids[pkg].contains(p) ==> p == pid) ==> after.alive == m.alive.remove(pkg)
                &&& forall|p: u32|
                    m.pids.dom().contains(pkg) && #[trigger] m.pids[pkg].contains(p) && p != pid
                        ==> after.alive == m.alive
                &&& after.deaths.dom().contains(pkg) && after.deaths[pkg] == now
                &&& m.deaths.dom().contains(other) && now <= m.deaths[other] + 120_000
                    ==> after.deaths.dom().contains(other) && after.deaths[other] == m.deaths[other]
                &&& after.deaths.dom().contains(other) ==> m.deaths.dom().contains(other)
                    && after.deaths[other] == m.deaths[other]
                &&& m.deaths.dom().insert(pkg).len() <= 64 ==> after.deaths == m.deaths.insert(pkg, now)
                &&& m.deaths.dom().insert(pkg).len() > 64 && m.deaths.dom().contains(other) && now
                    > m.deaths[other] + 120_000 ==> !after.deaths.dom().contains(other)
                &&& m.current_fg == Some(pkg) ==> after.stats == m.stats
                &&& m.current_fg != Some(pkg) && m.stats.bg_deaths < u32::MAX ==> after.stats
                    == (SessionStats { bg_deaths: (m.stats.bg_deaths + 1) as u32, ..m.stats })
                &&& after == (DaemonModel {
                    owner: after.owner,
                    pids: after.pids,
                    alive: after.alive,
                    deaths: after.deaths,
                    stats: after.stats,
                    ..m
                })
            }
        }),
{
    let after = m.after_death(pid, now).state;
    if m.owner.dom().contains(pid) {
        let pkg = m.owner[pid];
        assert(after.pids.dom() =~= m.pids.dom());
        assert(m.deaths.insert(pkg, now).dom() =~= m.deaths.dom().insert(pkg));
        if m.pids.dom().contains(pkg) {
            let rest = m.pids[pkg].remove(pid);
            if forall|p: u32| #[trigger] m.pids[pkg].contains(p) ==> p == pid {
                assert(rest =~= Set::<u32>::empty());
            }
            assert forall|p: u32|
                m.pids.dom().contains(pkg) && #[trigger] m.pids[pkg].contains(p) && p
                    != pid implies after.alive == m.alive by {
                assert(rest.contains(p));
            }
        }
    }
}

// ---------------------------------------------------------------------------
// The screen
// ---------------------------------------------------------------------------
/// A switch of the screen to the state that it has changes nothing. Another one is recorded with how long the
/// screen was in the other state, and behind it the summary of the background, where anything happened there:
/// its interval is that time. It never makes a pass due. Nothing else changes.
#[verifier::rlimit(50)]
pub proof fn law_what_the_screen_changes(m: DaemonModel, on: bool, now: u64, rss_kb: u64)
    ensures
        ({
            let out = m.after_event(EventModel::ScreenToggled(on), now, rss_kb);
            let after = out.state;
            let active = m.stats.bg_spawns > 0 || m.stats.bg_deaths > 0;
            &&& !out.reap
            &&& m.screen_on == on ==> after == m && out.records.len() == 0
            &&& m.screen_on != on ==> {
                &&& after.screen_on == on
                &&& on ==> after.screen_on_start == Some(now) && after.screen_off_start is None
                &&& !on ==> after.screen_off_start == Some(now) && after.screen_on_start is None
                &&& active ==> after.stats == (SessionStats {
                    bg_spawns: 0,
                    bg_deaths: 0,
                    spawn_rss_kb: 0,
                }) && after.session_start == now
                &&& !active ==> after.stats == m.stats && after.session_start == m.session_start
                &&& after == (DaemonModel {
                    screen_on: after.screen_on,
                    screen_on_start: after.screen_on_start,
                    screen_off_start: after.screen_off_start,
                    stats: after.stats,
                    session_start: after.session_start,
                    ..m
                })
                &&& out.records.len() == 1 + if active {
                    1int
                } else {
                    0
                }
                &&& on ==> (out.records[0] matches RecordModel::ScreenOn { ts, off_sec } && ts == now
                    && (m.screen_off_start matches Some(start) ==> whole_seconds(start, now, off_sec))
                    && (m.screen_off_start is None ==> off_sec == 0))
                &&& !on ==> (out.records[0] matches RecordModel::ScreenOff { ts, active_ms } && ts
                    == now && (m.screen_on_start matches Some(start) ==> active_ms == if start <= now {
                    now - start
                } else {
                    0
                }) && (m.screen_on_start is None ==> active_ms == 0))
                &&& active ==> (out.records[1] matches RecordModel::BgSummary {
                    ts,
                    interval_sec,
                    stats,
                } && ts == now && stats == m.stats && ((if on {
                    m.screen_off_start
                } else {
                    m.screen_on_start
                }) matches Some(start) ==> whole_seconds(start, now, interval_sec)))
            }
        }),
{
}

/// A light step of the idle device changes nothing and is not recorded. It makes a pass due while the screen is
/// off, where a dark screen is to be used.
pub proof fn law_what_a_light_step_changes(m: DaemonModel, now: u64, rss_kb: u64)
    ensures
        ({
            let out = m.after_event(EventModel::DeviceIdleLightStep, now, rss_kb);
            &&& out.state == m
            &&& out.records.len() == 0
            &&& out.reap <==> !m.screen_on && m.config.screen_off_harvest
        }),
{
}

// ---------------------------------------------------------------------------
// The clock
// ---------------------------------------------------------------------------
/// `n`, as far as a time can be.
pub open spec fn as_time(n: int) -> int {
    if n < 0 {
        0
    } else if n > u64::MAX {
        u64::MAX as int
    } else {
        n
    }
}

/// Whether an optional time was moved by so much.
pub open spec fn moved_by(before: Option<u64>, after: Option<u64>, step: int) -> bool {
    match before {
        Some(t) => after is Some && after->0 == as_time(t + step),
        None => after is None,
    }
}

/// Where an event is older than the one before it, or comes from a clock that was set after September 13th of
/// 2020 while the one before did not, every time that is stored moves by as much as the clock did. Otherwise
/// none does.
pub proof fn law_stored_times_follow_the_clock(m: DaemonModel, now: u64, pkg: Name)
    requires
        i64::MIN <= now - m.last_event_epoch <= i64::MAX,
    ensures
        ({
            let prev = m.last_event_epoch;
            let after = m.at(now);
            let back = now < prev;
            let first_set = 0 < prev < 1_600_000_000_000 && now >= 1_600_000_000_000;
            let step = if back || first_set {
                now - prev
            } else {
                0
            };
            &&& after.last_event_epoch == now
            &&& after.alive.dom().contains(pkg) == m.alive.dom().contains(pkg)
            &&& m.alive.dom().contains(pkg) ==> after.alive[pkg] == as_time(m.alive[pkg] + step)
            &&& after.deaths.dom().contains(pkg) == m.deaths.dom().contains(pkg)
            &&& m.deaths.dom().contains(pkg) ==> after.deaths[pkg] == as_time(m.deaths[pkg] + step)
            &&& moved_by(m.screen_on_start, after.screen_on_start, step)
            &&& moved_by(m.screen_off_start, after.screen_off_start, step)
            &&& moved_by(m.game_session_start, after.game_session_start, step)
            &&& moved_by(m.fg_since, after.fg_since, step)
            &&& after.session_start == as_time(m.session_start + step)
            &&& after == (DaemonModel {
                last_event_epoch: now,
                alive: after.alive,
                deaths: after.deaths,
                screen_on_start: after.screen_on_start,
                screen_off_start: after.screen_off_start,
                game_session_start: after.game_session_start,
                fg_since: after.fg_since,
                session_start: after.session_start,
                ..m
            })
        }),
{
}

/// A clock that goes back went back by the difference, one that is set for the first time went forward by it,
/// and any other did not move. Without an event before it, none did.
pub proof fn law_by_how_much_the_clock_was_set(prev: u64, now: u64)
    requires
        i64::MIN <= now - prev <= i64::MAX,
    ensures
        0 < prev && now < prev ==> clock::clock_jump(prev, now) == now - prev,
        0 < prev < 1_600_000_000_000 <= now ==> clock::clock_jump(prev, now) == now - prev,
        prev <= now && (prev >= 1_600_000_000_000 || now < 1_600_000_000_000)
            ==> clock::clock_jump(prev, now) == 0,
        clock::clock_jump(0, now) == 0,
{
}

/// A step of the clock moves every stored time by that step, and nothing else.
pub proof fn law_what_a_step_of_the_clock_moves(m: DaemonModel, step: int, pkg: Name)
    ensures
        ({
            let after = m.after_jump(step);
            &&& after.alive.dom() == m.alive.dom() && after.deaths.dom() == m.deaths.dom()
            &&& m.alive.dom().contains(pkg) ==> after.alive[pkg] == as_time(m.alive[pkg] + step)
            &&& m.deaths.dom().contains(pkg) ==> after.deaths[pkg] == as_time(m.deaths[pkg] + step)
            &&& moved_by(m.screen_on_start, after.screen_on_start, step)
            &&& moved_by(m.screen_off_start, after.screen_off_start, step)
            &&& moved_by(m.game_session_start, after.game_session_start, step)
            &&& moved_by(m.fg_since, after.fg_since, step)
            &&& after.session_start == as_time(m.session_start + step)
            &&& after == (DaemonModel {
                alive: after.alive,
                deaths: after.deaths,
                screen_on_start: after.screen_on_start,
                screen_off_start: after.screen_off_start,
                game_session_start: after.game_session_start,
                fg_since: after.fg_since,
                session_start: after.session_start,
                ..m
            })
        }),
{
    let after = m.after_jump(step);
    assert(after.alive.dom() =~= m.alive.dom());
    assert(after.deaths.dom() =~= m.deaths.dom());
}

// ---------------------------------------------------------------------------
// What is known
// ---------------------------------------------------------------------------
/// An app is excluded where the user excludes it, where the system needs it, and while it is in the foreground.
pub proof fn law_who_is_excluded(m: DaemonModel, pkg: Name)
    ensures
        m.excluded(pkg) <==> m.user_exclusions.contains(pkg) || m.dynamic_exclusions.contains(pkg)
            || m.current_fg == Some(pkg),
{
}

/// The place of an app in the history is the first at which it stands, and behind the last one where it does
/// not.
pub proof fn law_places_in_the_history(lru: Seq<Name>, name: Name)
    ensures
        ({
            let i = daemon::lru_index(lru, name);
            &&& 0 <= i <= lru.len()
            &&& i < lru.len() ==> lru[i] == name
            &&& forall|k: int| 0 <= k < i ==> #[trigger] lru[k] != name
        }),
{
    text::lemma_first_index(lru, daemon::named(name));
    let i = daemon::lru_index(lru, name);
    if i < lru.len() {
        assert(daemon::named(name)(lru[i]));
    }
    assert forall|k: int| 0 <= k < i implies #[trigger] lru[k] != name by {
        assert(!daemon::named(name)(lru[k]));
    }
}

/// The time since a moment is told in whole seconds, and as none where the moment is not known or lies ahead.
pub proof fn law_times_are_told_in_whole_seconds(start: Option<u64>, now: u64)
    ensures
        start matches Some(t) ==> whole_seconds(t, now, daemon::seconds_since(start, now)),
        start is None ==> daemon::seconds_since(start, now) == 0,
{
}

/// At the start nothing is known of apps and processes, nothing is excluded, no game is on, and nothing was
/// counted; the screen has been in its state since then.
pub proof fn law_what_is_known_at_the_start(
    config: RuntimeConfig,
    act_mode: bool,
    screen_on: bool,
    page_size_kb: u64,
    now: u64,
    pkg: Name,
    pid: u32,
)
    ensures
        ({
            let m = DaemonModel::initial(config, act_mode, screen_on, page_size_kb, now);
            &&& m.config == config && m.act_mode == act_mode && m.screen_on == screen_on
            &&& m.page_size_kb == page_size_kb
            &&& !m.alive.dom().contains(pkg) && !m.pids.dom().contains(pkg) && !m.uids.dom().contains(
                pkg,
            )
            &&& !m.deaths.dom().contains(pkg) && !m.owner.dom().contains(pid)
            &&& !m.user_exclusions.contains(pkg) && !m.dynamic_exclusions.contains(pkg)
            &&& !m.games.contains(pkg)
            &&& m.lru.len() == 0 && m.current_fg is None && m.fg_since is None
            &&& !m.is_gaming && m.game_session_start is None && m.intrusions == 0
            &&& m.stats == (SessionStats { bg_spawns: 0, bg_deaths: 0, spawn_rss_kb: 0 })
            &&& m.session_start == now && m.last_event_epoch == now
            &&& screen_on ==> m.screen_on_start == Some(now) && m.screen_off_start is None
            &&& !screen_on ==> m.screen_off_start == Some(now) && m.screen_on_start is None
        }),
{
}

} // verus!
