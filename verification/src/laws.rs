//! What holds of the daemon as a whole, whatever happens.
use vstd::prelude::*;

use crate::config::RuntimeConfig;
use crate::daemon;
use crate::daemon::{DaemonModel, Name, FIRST_APP_UID, RESPAWN_WINDOW_MS};
use crate::parser;
use crate::parser::{EventModel, ResumeModel, StartModel};
use crate::reaping;
use crate::reaping::{CandidateModel, ProbeModel};
use crate::setup;
use crate::text;

verus! {

// ---------------------------------------------------------------------------
// Who can be evicted
// ---------------------------------------------------------------------------
/// An app comes among those that can be evicted only when it is started, or when it leaves the foreground for
/// another one, and only where it is known by the user id of an app. Parts of the system never come there.
/// It counts as idle from that moment on.
pub proof fn law_only_apps_become_evictable(
    m: DaemonModel,
    ev: EventModel,
    now: u64,
    rss_kb: u64,
    pkg: Name,
)
    requires
        !m.alive.dom().contains(pkg),
        m.after_event(ev, now, rss_kb).state.alive.dom().contains(pkg),
    ensures
        ({
            ||| ev matches EventModel::ProcStart(start) && start.pkg == pkg
            ||| ev matches EventModel::ResumeActivity(resume) && m.current_fg == Some(pkg)
                && resume.pkg != pkg
        }),
        m.after_event(ev, now, rss_kb).state.is_app(pkg),
        m.after_event(ev, now, rss_kb).state.alive[pkg] == now,
{
}

/// A process that starts under a user id of the system is indexed and nothing more: it makes nothing evictable
/// and no pass due, whatever is known of its name, and the user id that is known for the name stays.
pub proof fn law_system_starts_are_only_indexed(
    m: DaemonModel,
    start: StartModel,
    now: u64,
    rss_kb: u64,
)
    requires
        start.uid < FIRST_APP_UID,
    ensures
        ({
            let after = m.after_event(EventModel::ProcStart(start), now, rss_kb);
            &&& !after.reap
            &&& after.state.alive == m.alive
            &&& after.state.lru == m.lru
            &&& after.state.current_fg == m.current_fg
            &&& after.state.owner == m.owner.insert(start.pid, start.pkg)
            &&& after.state.pids[start.pkg].contains(start.pid)
            &&& after.state.uids[start.pkg] == if m.uids.dom().contains(start.pkg) {
                m.uids[start.pkg]
            } else {
                start.uid
            }
        }),
{
}

/// To find the processes that run already makes none of them evictable.
pub proof fn law_seeding_makes_nothing_evictable(
    m: DaemonModel,
    pid: u32,
    uid: u32,
    cmdline: Seq<u8>,
)
    ensures
        m.after_seed(pid, uid, cmdline).alive == m.alive,
        m.after_seed(pid, uid, cmdline).lru == m.lru,
        m.after_seed(pid, uid, cmdline).current_fg == m.current_fg,
{
}

/// Whether everything that can be evicted is known by the user id of an app.
pub open spec fn guarded(m: DaemonModel) -> bool {
    forall|pkg: Name| #[trigger] m.alive.dom().contains(pkg) ==> m.is_app(pkg)
}

/// Only what is known by the user id of an app can ever be evicted: so it is at the start, while the processes
/// that run already are indexed, and after every event and every step of the clock.
pub proof fn law_nothing_but_apps_is_ever_evictable(
    m: DaemonModel,
    ev: EventModel,
    now: u64,
    rss_kb: u64,
    pid: u32,
    uid: u32,
    cmdline: Seq<u8>,
)
    requires
        guarded(m),
    ensures
        guarded(DaemonModel::initial(m.config, m.act_mode, m.screen_on, m.page_size_kb, now)),
        m.alive.dom() == Set::<Name>::empty() ==> guarded(m.after_seed(pid, uid, cmdline)),
        guarded(m.at(now)),
        guarded(m.after_event(ev, now, rss_kb).state),
{
    let after = m.after_event(ev, now, rss_kb).state;
    assert forall|pkg: Name| #[trigger] after.alive.dom().contains(pkg) implies after.is_app(pkg) by {
        if m.alive.dom().contains(pkg) {
            assert(m.is_app(pkg));
        } else {
            law_only_apps_become_evictable(m, ev, now, rss_kb, pkg);
        }
    }
    let at = m.at(now);
    assert forall|pkg: Name| #[trigger] at.alive.dom().contains(pkg) implies at.is_app(pkg) by {
        assert(m.alive.dom().contains(pkg));
    }
}

/// A pass and a new configuration make nothing evictable that is not known by the user id of an app, and so
/// no part of the system is ever a victim.
pub proof fn law_parts_of_the_system_are_never_victims(
    m: DaemonModel,
    probes: Seq<ProbeModel>,
    readings: Seq<Vec<u64>>,
    victim: Name,
    ams_protected: bool,
    now: u64,
    low_mem: bool,
    config: Option<Seq<char>>,
    exclude: Option<Seq<char>>,
    games: Option<Seq<char>>,
    pkg: Name,
)
    requires
        guarded(m),
    ensures
        guarded(m.after_probes(probes, readings, probes.len())),
        guarded(m.after_victim(victim, ams_protected, now)),
        guarded(m.after_reload(config, exclude, games)),
        m.eligible(pkg, now, low_mem) ==> m.is_app(pkg),
{
    let probed = m.after_probes(probes, readings, probes.len());
    lemma_probes_keep_uids(m, probes, readings, probes.len());
    assert forall|name: Name| #[trigger] probed.alive.dom().contains(name) implies probed.is_app(
        name,
    ) by {
        law_reaping_only_forgets(
            m,
            probes,
            readings,
            probes.len(),
            name,
            victim,
            ams_protected,
            now,
        );
        assert(m.is_app(name));
    }
    let judged = m.after_victim(victim, ams_protected, now);
    assert forall|name: Name| #[trigger] judged.alive.dom().contains(name) implies judged.is_app(
        name,
    ) by {
        assert(m.alive.dom().contains(name));
    }
    let reloaded = m.after_reload(config, exclude, games);
    assert forall|name: Name| #[trigger] reloaded.alive.dom().contains(name) implies reloaded.is_app(
        name,
    ) by {
        assert(m.alive.dom().contains(name));
    }
}

proof fn lemma_probes_keep_uids(
    m: DaemonModel,
    probes: Seq<ProbeModel>,
    readings: Seq<Vec<u64>>,
    n: nat,
)
    ensures
        m.after_probes(probes, readings, n).uids == m.uids,
    decreases n,
{
    if n > 0 {
        lemma_probes_keep_uids(m, probes, readings, (n - 1) as nat);
    }
}

/// The switch of the log decides nothing but the log: the same apps may be evicted and are judged alike, and
/// the same records are made.
#[verifier::rlimit(50)]
pub proof fn law_log_switch_decides_nothing(
    m: DaemonModel,
    log_enabled: bool,
    ev: EventModel,
    now: u64,
    rss_kb: u64,
    low_mem: bool,
    pkg: Name,
    victim: CandidateModel,
    scores: Seq<Option<i32>>,
)
    ensures
        ({
            let other = DaemonModel {
                config: RuntimeConfig { log_enabled, ..m.config },
                ..m
            };
            let there = other.after_event(ev, now, rss_kb);
            let here = m.after_event(ev, now, rss_kb);
            &&& other.eligible(pkg, now, low_mem) == m.eligible(pkg, now, low_mem)
            &&& other.config.max_kills_per_pass == m.config.max_kills_per_pass
            &&& other.verdict(victim, scores) == m.verdict(victim, scores)
            &&& there.records == here.records
            &&& there.reap == here.reap
            &&& there.state == (DaemonModel { config: other.config, ..here.state })
        }),
{
}

/// To read the configuration anew drops nothing of what is known of apps and processes.
pub proof fn law_reload_keeps_what_is_known(
    m: DaemonModel,
    config: Option<Seq<char>>,
    exclude: Option<Seq<char>>,
    games: Option<Seq<char>>,
)
    ensures
        ({
            let after = m.after_reload(config, exclude, games);
            after == DaemonModel {
                config: after.config,
                user_exclusions: after.user_exclusions,
                games: after.games,
                ..m
            }
        }),
        m.config.in_range() ==> m.after_reload(config, exclude, games).config.in_range(),
{
    if m.config.in_range() && config is Some {
        crate::config::law_lines_keep_range(m.config, text::lines(config->0));
    }
}

/// A death and the screen never make a reaping pass due; a start does only for an app in the background, and
/// a resumed app only where it was not in the foreground before.
pub proof fn law_what_makes_a_pass_due(m: DaemonModel, ev: EventModel, now: u64, rss_kb: u64)
    ensures
        ({
            let reap = m.after_event(ev, now, rss_kb).reap;
            match ev {
                EventModel::ProcDied(_) => !reap,
                EventModel::ScreenToggled(_) => !reap,
                EventModel::ProcStart(start) => reap <==> m.starts_app(start)
                    && m.current_fg != Some(start.pkg) && !DaemonModel::is_top_launch(
                    start.spawn_type,
                ),
                EventModel::ResumeActivity(resume) => reap <==> m.current_fg != Some(resume.pkg),
                EventModel::DeviceIdleLightStep => reap <==> !m.screen_on
                    && m.config.screen_off_harvest,
            }
        }),
{
}

// ---------------------------------------------------------------------------
// The victims of a pass
// ---------------------------------------------------------------------------
/// The most memory comes first.
pub open spec fn sorted_by_memory(s: Seq<CandidateModel>) -> bool {
    forall|i: int, j: int|
        0 <= i <= j < s.len() ==> (#[trigger] s[i]).total_rss_kb >= (#[trigger] s[j]).total_rss_kb
}

/// No two candidates are the same app.
pub open spec fn distinct_apps(s: Seq<CandidateModel>) -> bool {
    forall|i: int, j: int|
        0 <= i < j < s.len() ==> (#[trigger] s[i]).pkg != (#[trigger] s[j]).pkg
}

pub(crate) proof fn lemma_rank_place(s: Seq<CandidateModel>, rss_kb: u64)
    ensures
        0 <= reaping::rank(s, rss_kb) <= s.len(),
        forall|i: int|
            0 <= i < reaping::rank(s, rss_kb) ==> (#[trigger] s[i]).total_rss_kb >= rss_kb,
        reaping::rank(s, rss_kb) < s.len() ==> s[reaping::rank(s, rss_kb)].total_rss_kb < rss_kb,
    decreases s.len(),
{
    if s.len() > 0 && s[0].total_rss_kb >= rss_kb {
        let rest = s.drop_first();
        lemma_rank_place(rest, rss_kb);
        assert forall|i: int| 0 <= i < reaping::rank(s, rss_kb) implies (#[trigger] s[i]).total_rss_kb
            >= rss_kb by {
            if i > 0 {
                assert(s[i] == rest[i - 1]);
            }
        }
    }
}

/// Sorting the candidates keeps them all, and puts the most memory first.
pub proof fn law_sorting_keeps_candidates(candidates: Seq<CandidateModel>)
    ensures
        reaping::by_memory(candidates).to_multiset() == candidates.to_multiset(),
        reaping::by_memory(candidates).len() == candidates.len(),
        sorted_by_memory(reaping::by_memory(candidates)),
    decreases candidates.len(),
{
    broadcast use vstd::seq_lib::group_to_multiset_ensures;

    if candidates.len() > 0 {
        let head = candidates.drop_last();
        let c = candidates.last();
        law_sorting_keeps_candidates(head);
        let rest = reaping::by_memory(head);
        let r = reaping::rank(rest, c.total_rss_kb);
        lemma_rank_place(rest, c.total_rss_kb);
        vstd::seq_lib::to_multiset_insert(rest, r, c);
        assert(candidates =~= head.push(c));
        vstd::seq_lib::to_multiset_build(head, c);
        let all = rest.insert(r, c);
        assert forall|i: int, j: int| 0 <= i <= j < all.len() implies (
        #[trigger] all[i]).total_rss_kb >= (#[trigger] all[j]).total_rss_kb by {
            let i0 = if i < r {
                i
            } else {
                i - 1
            };
            let j0 = if j < r {
                j
            } else {
                j - 1
            };
            if i < r {
                assert(all[i] == rest[i]);
            } else if i > r {
                assert(all[i] == rest[i - 1]);
            }
            if j < r {
                assert(all[j] == rest[j]);
            } else if j > r {
                assert(all[j] == rest[j - 1]);
                assert(rest[r].total_rss_kb < c.total_rss_kb);
                assert(rest[r].total_rss_kb >= rest[j - 1].total_rss_kb);
            }
            if i != r && j != r {
                assert(rest[i0].total_rss_kb >= rest[j0].total_rss_kb);
            }
        }
    }
}

pub(crate) proof fn lemma_sorted_members(candidates: Seq<CandidateModel>, c: CandidateModel)
    ensures
        reaping::by_memory(candidates).contains(c) <==> candidates.contains(c),
{
    law_sorting_keeps_candidates(candidates);
    vstd::seq_lib::to_multiset_contains(candidates, c);
    vstd::seq_lib::to_multiset_contains(reaping::by_memory(candidates), c);
}

pub(crate) proof fn lemma_sorted_distinct(candidates: Seq<CandidateModel>)
    requires
        distinct_apps(candidates),
    ensures
        distinct_apps(reaping::by_memory(candidates)),
    decreases candidates.len(),
{
    if candidates.len() > 0 {
        let head = candidates.drop_last();
        let c = candidates.last();
        assert(distinct_apps(head)) by {
            assert forall|i: int, j: int| 0 <= i < j < head.len() implies (#[trigger] head[i]).pkg
                != (#[trigger] head[j]).pkg by {
                assert(candidates[i].pkg != candidates[j].pkg);
            }
        }
        lemma_sorted_distinct(head);
        let rest = reaping::by_memory(head);
        let r = reaping::rank(rest, c.total_rss_kb);
        lemma_rank_place(rest, c.total_rss_kb);
        assert forall|i: int| 0 <= i < rest.len() implies (#[trigger] rest[i]).pkg != c.pkg by {
            lemma_sorted_members(head, rest[i]);
            assert(rest.contains(rest[i]));
            let k = choose|k: int| 0 <= k < head.len() && head[k] == rest[i];
            assert(candidates[k].pkg != candidates[candidates.len() - 1].pkg);
        }
        let all = rest.insert(r, c);
        assert forall|i: int, j: int| 0 <= i < j < all.len() implies (#[trigger] all[i]).pkg != (
        #[trigger] all[j]).pkg by {
            let i0 = if i < r {
                i
            } else {
                i - 1
            };
            let j0 = if j < r {
                j
            } else {
                j - 1
            };
            if i != r {
                assert(all[i] == rest[i0]);
            }
            if j != r {
                assert(all[j] == rest[j0]);
            }
        }
    }
}

/// The victims are the heaviest of the candidates: no more than `max`, as many as there are up to that, the
/// most memory first, and none that is spared weighs more than one of them.
pub proof fn law_victims_are_the_heaviest(candidates: Seq<CandidateModel>, max: usize)
    ensures
        ({
            let victims = reaping::heaviest(candidates, max);
            &&& victims.len() == if candidates.len() <= max {
                candidates.len()
            } else {
                max as nat
            }
            &&& sorted_by_memory(victims)
            &&& forall|i: int|
                0 <= i < victims.len() ==> candidates.contains(#[trigger] victims[i])
            &&& forall|i: int, c: CandidateModel|
                0 <= i < victims.len() && #[trigger] candidates.contains(c) && !victims.contains(c)
                    ==> (#[trigger] victims[i]).total_rss_kb >= c.total_rss_kb
        }),
{
    law_sorting_keeps_candidates(candidates);
    let all = reaping::by_memory(candidates);
    let victims = reaping::heaviest(candidates, max);
    assert forall|i: int| 0 <= i < victims.len() implies #[trigger] victims[i] == all[i] by {}
    assert forall|i: int| 0 <= i < victims.len() implies candidates.contains(
        #[trigger] victims[i],
    ) by {
        assert(all.contains(all[i]));
        lemma_sorted_members(candidates, all[i]);
    }
    assert forall|i: int, c: CandidateModel|
        0 <= i < victims.len() && #[trigger] candidates.contains(c) && !victims.contains(
            c,
        ) implies (#[trigger] victims[i]).total_rss_kb >= c.total_rss_kb by {
        lemma_sorted_members(candidates, c);
        let k = choose|k: int| 0 <= k < all.len() && all[k] == c;
        if k < victims.len() {
            assert(victims[k] == c);
        }
        assert(all[i].total_rss_kb >= all[k].total_rss_kb);
    }
}

/// The candidate is what is left of the probe at `i`.
pub open spec fn comes_from(
    c: CandidateModel,
    probes: Seq<ProbeModel>,
    readings: Seq<Vec<u64>>,
    i: int,
) -> bool {
    let rss = reaping::readings_at(readings, i);
    reaping::survives(probes[i], rss) && c == reaping::candidate_of(probes[i], rss)
}

/// The candidate is what is left of one of the first `n` probes.
pub open spec fn has_source(
    c: CandidateModel,
    probes: Seq<ProbeModel>,
    readings: Seq<Vec<u64>>,
    n: nat,
) -> bool {
    exists|i: int| 0 <= i < n && comes_from(c, probes, readings, i)
}

/// The candidates come from the probes that are still there, each once.
pub(crate) proof fn lemma_candidates_from_probes(
    probes: Seq<ProbeModel>,
    readings: Seq<Vec<u64>>,
    n: nat,
)
    requires
        n <= probes.len(),
        forall|i: int, j: int|
            0 <= i < j < probes.len() ==> (#[trigger] probes[i]).pkg != (#[trigger] probes[j]).pkg,
    ensures
        ({
            let cands = reaping::candidates_of(probes, readings, n);
            &&& cands.len() <= n
            &&& distinct_apps(cands)
            &&& forall|k: int|
                0 <= k < cands.len() ==> has_source(#[trigger] cands[k], probes, readings, n)
        }),
    decreases n,
{
    if n > 0 {
        let last = n - 1;
        lemma_candidates_from_probes(probes, readings, last as nat);
        let before = reaping::candidates_of(probes, readings, last as nat);
        let cands = reaping::candidates_of(probes, readings, n);
        let rss = reaping::readings_at(readings, last);
        let survives = reaping::survives(probes[last], rss);
        assert forall|k: int| 0 <= k < cands.len() implies has_source(
            #[trigger] cands[k],
            probes,
            readings,
            n,
        ) by {
            if k < before.len() {
                assert(cands[k] == before[k]);
                assert(has_source(before[k], probes, readings, last as nat));
                let i = choose|i: int|
                    0 <= i < last && comes_from(before[k], probes, readings, i);
                assert(comes_from(cands[k], probes, readings, i));
            } else {
                assert(comes_from(cands[k], probes, readings, last));
            }
        }
        assert forall|a: int, b: int| 0 <= a < b < cands.len() implies (#[trigger] cands[a]).pkg != (
        #[trigger] cands[b]).pkg by {
            assert(cands[a] == before[a]);
            if b < before.len() {
                assert(cands[b] == before[b]);
            } else {
                assert(has_source(before[a], probes, readings, last as nat));
                let i = choose|i: int|
                    0 <= i < last && comes_from(before[a], probes, readings, i);
                assert(probes[i].pkg != probes[last].pkg);
            }
        }
    }
}

proof fn lemma_live_pids(pids: Seq<u32>, rss: Seq<u64>)
    ensures
        forall|p: u32| #[trigger]
            reaping::live_pids(pids, rss).contains(p) ==> pids.contains(p),
        forall|p: u32|
            #[trigger] pids.contains(p) ==> reaping::live_pids(pids, rss).contains(p)
                || reaping::dead_pids(pids, rss).contains(p),
    decreases pids.len(),
{
    if pids.len() > 0 {
        let head = pids.drop_last();
        lemma_live_pids(head, rss);
        let live = reaping::live_pids(head, rss);
        let all = reaping::live_pids(pids, rss);
        assert forall|p: u32| #[trigger] all.contains(p) implies pids.contains(p) by {
            let k = choose|k: int| 0 <= k < all.len() && all[k] == p;
            if k < live.len() {
                assert(live[k] == p);
                assert(live.contains(p));
                let t = choose|t: int| 0 <= t < head.len() && head[t] == p;
                assert(pids[t] == p);
            } else {
                assert(pids[pids.len() - 1] == p);
            }
        }
        assert forall|p: u32| #[trigger] pids.contains(p) implies all.contains(p)
            || reaping::dead_pids(pids, rss).contains(p) by {
            let t = choose|t: int| 0 <= t < pids.len() && pids[t] == p;
            if t < head.len() {
                assert(head[t] == p);
                assert(head.contains(p));
                if live.contains(p) {
                    let k = choose|k: int| 0 <= k < live.len() && live[k] == p;
                    assert(all[k] == p);
                }
            } else if reaping::reading(rss, pids.len() - 1) > 0 {
                assert(all[live.len() as int] == p);
            }
        }
    }
}

/// Every victim of a pass may be evicted: it runs, nobody excludes it, it is not in the foreground, it is not
/// among the apps last used, and it was idle for long enough. It has a process, and its processes are its
/// own. No app is a victim twice, and there are no more victims than one pass may have.
pub proof fn law_victims_may_be_evicted(
    m: DaemonModel,
    probes: Seq<ProbeModel>,
    readings: Seq<Vec<u64>>,
    now: u64,
    low_mem: bool,
)
    requires
        m.is_plan(probes, now, low_mem),
    ensures
        ({
            let victims = reaping::heaviest(
                reaping::candidates_of(probes, readings, probes.len()),
                m.config.max_kills_per_pass,
            );
            &&& victims.len() <= m.config.max_kills_per_pass
            &&& distinct_apps(victims)
            &&& forall|i: int|
                #![trigger victims[i]]
                0 <= i < victims.len() ==> {
                    let v = victims[i];
                    &&& m.eligible(v.pkg, now, low_mem)
                    &&& !m.user_exclusions.contains(v.pkg)
                    &&& !m.dynamic_exclusions.contains(v.pkg)
                    &&& m.current_fg != Some(v.pkg)
                    &&& v.idle_sec == m.idle_sec(v.pkg, now)
                    &&& v.idle_sec >= m.idle_limit(now, low_mem)
                    &&& v.live_pids.len() > 0
                    &&& v.total_rss_kb > 0
                    &&& forall|p: u32| #[trigger]
                        v.live_pids.contains(p) ==> m.pids_of(v.pkg).contains(p)
                }
        }),
{
    let cands = reaping::candidates_of(probes, readings, probes.len());
    let victims = reaping::heaviest(cands, m.config.max_kills_per_pass);
    lemma_candidates_from_probes(probes, readings, probes.len());
    lemma_sorted_distinct(cands);
    law_victims_are_the_heaviest(cands, m.config.max_kills_per_pass);
    let all = reaping::by_memory(cands);
    assert forall|i: int, j: int| 0 <= i < j < victims.len() implies (#[trigger] victims[i]).pkg != (
    #[trigger] victims[j]).pkg by {
        assert(victims[i] == all[i]);
        assert(victims[j] == all[j]);
    }
    assert forall|i: int| #![trigger victims[i]] 0 <= i < victims.len() implies {
        let v = victims[i];
        &&& m.eligible(v.pkg, now, low_mem)
        &&& !m.user_exclusions.contains(v.pkg)
        &&& !m.dynamic_exclusions.contains(v.pkg)
        &&& m.current_fg != Some(v.pkg)
        &&& v.idle_sec == m.idle_sec(v.pkg, now)
        &&& v.idle_sec >= m.idle_limit(now, low_mem)
        &&& v.live_pids.len() > 0
        &&& v.total_rss_kb > 0
        &&& forall|p: u32| #[trigger] v.live_pids.contains(p) ==> m.pids_of(v.pkg).contains(p)
    } by {
        let v = victims[i];
        assert(cands.contains(v));
        let k = choose|k: int| 0 <= k < cands.len() && cands[k] == v;
        assert(has_source(cands[k], probes, readings, probes.len()));
        let j = choose|j: int|
            0 <= j < probes.len() && comes_from(cands[k], probes, readings, j);
        assert(m.describes(probes[j], now, low_mem));
        lemma_live_pids(probes[j].pids, reaping::readings_at(readings, j));
        assert forall|p: u32| #[trigger] v.live_pids.contains(p) implies m.pids_of(v.pkg).contains(
            p,
        ) by {
            assert(probes[j].pids.contains(p));
            assert(probes[j].pids.to_set().contains(p));
        }
    }
}

/// The apps last used are never victims, as many of them as are protected, and no other app is shielded for
/// its place: one that is not excluded and was idle for long enough may be evicted, however many are protected.
pub proof fn law_recent_apps_are_spared(m: DaemonModel, pkg: Name, now: u64, low_mem: bool)
    requires
        m.alive.dom().contains(pkg),
        !m.excluded(pkg),
        m.idle_sec(pkg, now) >= m.idle_limit(now, low_mem),
    ensures
        m.eligible(pkg, now, low_mem) <==> forall|k: int|
            0 <= k < m.lru.len() && k < m.protected_depth() ==> #[trigger] m.lru[k] != pkg,
{
    text::lemma_first_index(m.lru, daemon::named(pkg));
    let i = daemon::lru_index(m.lru, pkg);
    if m.recently_used(pkg) {
        assert(daemon::named(pkg)(m.lru[i]));
        assert(m.lru[i] == pkg);
    }
    assert forall|k: int|
        !m.recently_used(pkg) && 0 <= k < m.lru.len() && k < m.protected_depth() implies
        #[trigger] m.lru[k] != pkg by {
        assert(!daemon::named(pkg)(m.lru[k]));
    }
}

/// Neither a game nor low memory makes an app a victim that was idle for less than ten seconds, unless the
/// configuration itself allows less.
pub proof fn law_ten_seconds_of_grace(m: DaemonModel, pkg: Name, now: u64, low_mem: bool)
    requires
        m.eligible(pkg, now, low_mem),
        m.config.t_idle_sec >= 10,
    ensures
        m.idle_sec(pkg, now) >= 10,
{
}

/// The kill command is run only where kills are meant to happen, and only for a victim none of whose
/// processes has a score below the threshold.
pub proof fn law_protected_victims_are_not_killed(
    m: DaemonModel,
    victim: CandidateModel,
    scores: Seq<Option<i32>>,
    i: int,
)
    requires
        m.verdict(victim, scores).kill,
        0 <= i < victim.live_pids.len(),
    ensures
        m.act_mode,
        reaping::score_at(scores, i) >= m.config.min_oom_score_adj,
{
    lemma_least_score(scores, victim.live_pids.len(), i);
}

proof fn lemma_least_score(scores: Seq<Option<i32>>, n: nat, i: int)
    requires
        0 <= i < n,
    ensures
        reaping::least_score(scores, n) <= reaping::score_at(scores, i),
    decreases n,
{
    if i < n - 1 {
        lemma_least_score(scores, (n - 1) as nat, i);
    }
}

/// A victim that was killed is not a victim again until it is started or seen anew, while its processes stay
/// known so that their deaths are noticed.
pub proof fn law_killed_victims_leave(
    m: DaemonModel,
    pkg: Name,
    now: u64,
    later: u64,
    low_mem: bool,
)
    ensures
        !m.after_victim(pkg, false, now).eligible(pkg, later, low_mem),
        m.after_victim(pkg, false, now).owner == m.owner,
        m.after_victim(pkg, false, now).pids == m.pids,
{
}

/// A victim that the system protects stays, and is not a victim again before it was idle for long enough once
/// more.
pub proof fn law_protected_victims_wait(
    m: DaemonModel,
    pkg: Name,
    now: u64,
    later: u64,
    low_mem: bool,
)
    requires
        m.alive.dom().contains(pkg),
    ensures
        ({
            let after = m.after_victim(pkg, true, now);
            &&& after.alive.dom() == m.alive.dom()
            &&& after.alive[pkg] == now
            &&& daemon::elapsed(later, now) / 1000 < after.idle_limit(later, low_mem)
                ==> !after.eligible(pkg, later, low_mem)
        }),
{
    assert(m.after_victim(pkg, true, now).alive.dom() =~= m.alive.dom());
}

// ---------------------------------------------------------------------------
// The process index
// ---------------------------------------------------------------------------
/// Whether a process that is known to belong to an app is among the processes of that app.
pub open spec fn indexed(m: DaemonModel) -> bool {
    forall|pid: u32| #[trigger]
        m.owner.dom().contains(pid) ==> m.pids_of(m.owner[pid]).contains(pid)
}

/// The two sides of the process index agree at the start.
pub proof fn law_index_starts_whole(
    config: RuntimeConfig,
    act_mode: bool,
    screen_on: bool,
    page_size_kb: u64,
    now: u64,
)
    ensures
        indexed(DaemonModel::initial(config, act_mode, screen_on, page_size_kb, now)),
{
}

/// No event, no step of the clock and no process found at the start breaks the process index.
pub proof fn law_index_stays_whole(
    m: DaemonModel,
    ev: EventModel,
    now: u64,
    rss_kb: u64,
    pid: u32,
    uid: u32,
    cmdline: Seq<u8>,
)
    requires
        indexed(m),
    ensures
        indexed(m.after_event(ev, now, rss_kb).state),
        indexed(m.at(now)),
        indexed(m.after_seed(pid, uid, cmdline)),
{
    let after = m.after_event(ev, now, rss_kb).state;
    assert forall|p: u32| #[trigger] after.owner.dom().contains(p) implies after.pids_of(
        after.owner[p],
    ).contains(p) by {
        if m.owner.dom().contains(p) {
            assert(m.pids_of(m.owner[p]).contains(p));
        }
    }
    let seeded = m.after_seed(pid, uid, cmdline);
    assert forall|p: u32| #[trigger] seeded.owner.dom().contains(p) implies seeded.pids_of(
        seeded.owner[p],
    ).contains(p) by {
        if m.owner.dom().contains(p) {
            assert(m.pids_of(m.owner[p]).contains(p));
        }
    }
    let at = m.at(now);
    assert forall|p: u32| #[trigger] at.owner.dom().contains(p) implies at.pids_of(
        at.owner[p],
    ).contains(p) by {
        assert(m.owner.dom().contains(p));
    }
}

proof fn lemma_live_has_memory(pids: Seq<u32>, rss: Seq<u64>)
    ensures
        reaping::live_pids(pids, rss).len() > 0 <==> reaping::total_rss(pids, rss) > 0,
    decreases pids.len(),
{
    if pids.len() > 0 {
        lemma_live_has_memory(pids.drop_last(), rss);
    }
}

proof fn lemma_index_after_probe(m: DaemonModel, probe: ProbeModel, rss: Seq<u64>)
    requires
        indexed(m),
        probe.pids.to_set() == m.pids_of(probe.pkg),
    ensures
        indexed(m.after_probe(probe, rss)),
{
    let after = m.after_probe(probe, rss);
    let live = reaping::live_pids(probe.pids, rss);
    lemma_live_has_memory(probe.pids, rss);
    lemma_live_pids(probe.pids, rss);
    assert forall|p: u32| #[trigger] after.owner.dom().contains(p) implies after.pids_of(
        after.owner[p],
    ).contains(p) by {
        assert(m.owner.dom().contains(p));
        let pkg = m.owner[p];
        assert(m.pids_of(pkg).contains(p));
        if pkg == probe.pkg {
            assert(probe.pids.to_set().contains(p));
            assert(probe.pids.contains(p));
            assert(live.contains(p));
            assert(live.to_set().contains(p));
        }
    }
}

proof fn lemma_probes_apart(
    m: DaemonModel,
    probes: Seq<ProbeModel>,
    readings: Seq<Vec<u64>>,
    n: nat,
    pkg: Name,
)
    requires
        n <= probes.len(),
        forall|i: int| 0 <= i < n ==> (#[trigger] probes[i]).pkg != pkg,
    ensures
        m.after_probes(probes, readings, n).pids_of(pkg) == m.pids_of(pkg),
    decreases n,
{
    if n > 0 {
        lemma_probes_apart(m, probes, readings, (n - 1) as nat, pkg);
        assert(probes[n - 1].pkg != pkg);
    }
}

proof fn lemma_index_after_probes(
    m: DaemonModel,
    probes: Seq<ProbeModel>,
    readings: Seq<Vec<u64>>,
    n: nat,
)
    requires
        indexed(m),
        n <= probes.len(),
        forall|i: int|
            0 <= i < probes.len() ==> (#[trigger] probes[i]).pids.to_set() == m.pids_of(
                probes[i].pkg,
            ),
        forall|i: int, j: int|
            0 <= i < j < probes.len() ==> (#[trigger] probes[i]).pkg != (#[trigger] probes[j]).pkg,
    ensures
        indexed(m.after_probes(probes, readings, n)),
    decreases n,
{
    if n > 0 {
        let k = n - 1;
        lemma_index_after_probes(m, probes, readings, k as nat);
        lemma_probes_apart(m, probes, readings, k as nat, probes[k].pkg);
        lemma_index_after_probe(
            m.after_probes(probes, readings, k as nat),
            probes[k],
            reaping::readings_at(readings, k),
        );
    }
}

/// A reaping pass does not break the process index either: not when it looks at the processes, and not when
/// it is done with a victim.
pub proof fn law_reaping_keeps_index(
    m: DaemonModel,
    probes: Seq<ProbeModel>,
    readings: Seq<Vec<u64>>,
    now: u64,
    low_mem: bool,
    pkg: Name,
    ams_protected: bool,
)
    requires
        indexed(m),
        m.is_plan(probes, now, low_mem),
    ensures
        indexed(m.after_probes(probes, readings, probes.len())),
        indexed(m.after_victim(pkg, ams_protected, now)),
{
    assert forall|i: int| 0 <= i < probes.len() implies (#[trigger] probes[i]).pids.to_set()
        == m.pids_of(probes[i].pkg) by {
        assert(m.describes(probes[i], now, low_mem));
    }
    lemma_index_after_probes(m, probes, readings, probes.len());
    let after = m.after_victim(pkg, ams_protected, now);
    assert forall|p: u32| #[trigger] after.owner.dom().contains(p) implies after.pids_of(
        after.owner[p],
    ).contains(p) by {
        assert(m.owner.dom().contains(p));
    }
}

// ---------------------------------------------------------------------------
// The foreground history
// ---------------------------------------------------------------------------
proof fn lemma_history_without(lru: Seq<Name>, name: Name)
    requires
        lru.no_duplicates(),
    ensures
        daemon::lru_without(lru, name).no_duplicates(),
        !daemon::lru_without(lru, name).contains(name),
        daemon::lru_without(lru, name).len() <= lru.len(),
{
    text::lemma_first_index(lru, daemon::named(name));
    let i = daemon::lru_index(lru, name);
    let rest = daemon::lru_without(lru, name);
    if rest.contains(name) {
        let k = choose|k: int| 0 <= k < rest.len() && rest[k] == name;
        if i < lru.len() {
            assert(daemon::named(name)(lru[i]));
            if k < i {
                assert(lru[k] == name);
            } else {
                assert(lru[k + 1] == name);
            }
        } else {
            assert(!daemon::named(name)(lru[k]));
        }
    }
}

/// The app that comes to the foreground heads the history, in which no app stands twice, and which is no
/// longer than it may be, however long it was.
pub proof fn law_history_is_headed_by_the_foreground(m: DaemonModel, ev: ResumeModel, now: u64)
    requires
        m.lru.no_duplicates(),
    ensures
        ({
            let after = m.after_resume(ev, now).state;
            let max = m.config.fg_lru_max_depth;
            &&& after.lru.no_duplicates()
            &&& max > 0 ==> after.lru.len() > 0 && after.lru[0] == ev.pkg
            &&& after.lru.len() <= max
            &&& after.current_fg == Some(ev.pkg)
        }),
{
    let kept = if m.leaves_trampoline(ev.pkg, now) {
        daemon::lru_without(m.lru, m.current_fg->0)
    } else {
        m.lru
    };
    if m.leaves_trampoline(ev.pkg, now) {
        lemma_history_without(m.lru, m.current_fg->0);
    }
    lemma_history_without(kept, ev.pkg);
    let rest = daemon::lru_without(kept, ev.pkg);
    text::lemma_first_index(kept, daemon::named(ev.pkg));
    let longer = seq![ev.pkg] + rest;
    assert forall|i: int, j: int| 0 <= i < longer.len() && 0 <= j < longer.len() && i != j implies
        longer[i] != longer[j] by {
        if i == 0 {
            assert(rest.contains(rest[j - 1]));
        } else if j == 0 {
            assert(rest.contains(rest[i - 1]));
        }
    }
    assert(longer.no_duplicates());
}

/// No other event changes the history.
pub proof fn law_only_resumes_change_the_history(
    m: DaemonModel,
    ev: EventModel,
    now: u64,
    rss_kb: u64,
)
    requires
        !(ev is ResumeActivity),
    ensures
        m.after_event(ev, now, rss_kb).state.lru == m.lru,
        m.after_event(ev, now, rss_kb).state.current_fg == m.current_fg,
{
}

/// An app that was in the foreground for less than half a second leaves the history when another one comes
/// there, so that it takes no other app's place in it. This goes by when it came to the foreground alone:
/// how long it has been running does not matter.
pub proof fn law_trampolines_leave_the_history(m: DaemonModel, ev: ResumeModel, since: u64, now: u64)
    requires
        m.lru.no_duplicates(),
        m.current_fg is Some,
        m.current_fg->0 != ev.pkg,
        m.fg_since == Some(since),
        since <= now < since + 500,
    ensures
        !m.after_resume(ev, now).state.lru.contains(m.current_fg->0),
{
    let prev = m.current_fg->0;
    lemma_history_without(m.lru, prev);
    let kept = daemon::lru_without(m.lru, prev);
    lemma_history_without(kept, ev.pkg);
    let rest = daemon::lru_without(kept, ev.pkg);
    text::lemma_first_index(kept, daemon::named(ev.pkg));
    let after = m.after_resume(ev, now).state.lru;
    let i = daemon::lru_index(kept, ev.pkg);
    if after.contains(prev) {
        let k = choose|k: int| 0 <= k < after.len() && after[k] == prev;
        assert(k > 0);
        assert(rest[k - 1] == prev);
        if i < kept.len() && k - 1 >= i {
            assert(kept[k] == prev);
        } else {
            assert(kept[k - 1] == prev);
        }
        assert(kept.contains(prev));
    }
}

/// The time in the foreground counts from the moment at which an app comes there from another one, and nothing
/// but the clock changes it while the app stays there.
pub proof fn law_stays_count_from_the_switch(
    m: DaemonModel,
    resume: ResumeModel,
    ev: EventModel,
    now: u64,
    rss_kb: u64,
)
    ensures
        m.current_fg != Some(resume.pkg) ==> m.after_resume(resume, now).state.fg_since == Some(now),
        m.after_event(ev, now, rss_kb).state.current_fg == m.current_fg ==> m.after_event(
            ev,
            now,
            rss_kb,
        ).state.fg_since == m.fg_since,
        m.after_event(ev, now, rss_kb).state.current_fg != m.current_fg ==> m.after_event(
            ev,
            now,
            rss_kb,
        ).state.fg_since == Some(now),
{
}

/// A game is on exactly while the app in the foreground is one that was listed when it came there.
pub proof fn law_game_mode_follows_the_foreground(m: DaemonModel, ev: EventModel, now: u64, rss_kb: u64)
    ensures
        ({
            let after = m.after_event(ev, now, rss_kb).state;
            match ev {
                EventModel::ResumeActivity(resume) => after.is_gaming == m.games.contains(
                    resume.pkg,
                ),
                _ => after.is_gaming == m.is_gaming,
            }
        }),
{
}

// ---------------------------------------------------------------------------
// Deaths that are remembered
// ---------------------------------------------------------------------------
/// An app can no longer be evicted when the last of its processes is gone, and stays as it is while it has
/// others.
pub proof fn law_apps_end_with_their_last_process(m: DaemonModel, pid: u32, now: u64)
    requires
        indexed(m),
        m.owner.dom().contains(pid),
    ensures
        ({
            let pkg = m.owner[pid];
            let after = m.after_death(pid, now).state;
            &&& !after.owner.dom().contains(pid)
            &&& after.pids_of(pkg) == m.pids_of(pkg).remove(pid)
            &&& after.pids_of(pkg) == Set::<u32>::empty() ==> !after.alive.dom().contains(pkg)
            &&& after.pids_of(pkg) != Set::<u32>::empty() ==> after.alive == m.alive
        }),
{
    let pkg = m.owner[pid];
    assert(m.pids_of(pkg).contains(pid));
    assert(m.pids.dom().contains(pkg));
}

/// When a process is gone, its app is remembered, and so are the others whose deaths a start can still be a
/// respawn of. Either no more than 64 apps are remembered then, or a start can be a respawn of each.
pub proof fn law_deaths_are_bounded(m: DaemonModel, pid: u32, now: u64)
    requires
        m.owner.dom().contains(pid),
    ensures
        ({
            let after = m.after_death(pid, now).state.deaths;
            &&& after.dom().contains(m.owner[pid]) && after[m.owner[pid]] == now
            &&& after.dom().len() <= 64 || forall|pkg: Name|
                #[trigger] after.dom().contains(pkg) ==> daemon::elapsed(now, after[pkg])
                    <= RESPAWN_WINDOW_MS
            &&& forall|pkg: Name|
                #[trigger] m.deaths.dom().contains(pkg) && daemon::elapsed(now, m.deaths[pkg])
                    <= RESPAWN_WINDOW_MS ==> after.dom().contains(pkg)
        }),
{
}

// ---------------------------------------------------------------------------
// Names
// ---------------------------------------------------------------------------
/// Whether a name can stand on a command line without being taken for an option.
pub open spec fn is_plain(name: Name) -> bool {
    name.len() > 0 && !parser::begins(name, '-')
}

/// Whether the app that an event is of, if it is of one, has a plain name.
pub open spec fn event_is_plain(ev: EventModel) -> bool {
    match ev {
        EventModel::ResumeActivity(resume) => is_plain(resume.pkg),
        EventModel::ProcStart(start) => is_plain(start.pkg),
        _ => true,
    }
}

/// Whether the apps that can be evicted, now or once they leave the foreground, have plain names.
pub open spec fn names_are_plain(m: DaemonModel) -> bool {
    &&& forall|pkg: Name| #[trigger] m.alive.dom().contains(pkg) ==> is_plain(pkg)
    &&& m.current_fg is Some ==> is_plain(m.current_fg->0)
}

/// The names of the apps that can be evicted stay plain.
pub proof fn law_names_stay_plain(m: DaemonModel, ev: EventModel, now: u64, rss_kb: u64)
    requires
        names_are_plain(m),
        event_is_plain(ev),
    ensures
        names_are_plain(m.after_event(ev, now, rss_kb).state),
        names_are_plain(m.at(now)),
{
    let after = m.after_event(ev, now, rss_kb).state;
    assert forall|pkg: Name| #[trigger] after.alive.dom().contains(pkg) implies is_plain(pkg) by {
        if !m.alive.dom().contains(pkg) {
            law_only_apps_become_evictable(m, ev, now, rss_kb, pkg);
        }
    }
    let at = m.at(now);
    assert forall|pkg: Name| #[trigger] at.alive.dom().contains(pkg) implies is_plain(pkg) by {
        assert(m.alive.dom().contains(pkg));
    }
}

/// What is read from the log names apps plainly, and no process that runs already is indexed under a name
/// that could be taken for an option.
pub proof fn law_parsed_names_are_plain(line: Seq<char>, cmdline: Seq<u8>)
    ensures
        setup::cmdline_process(cmdline) matches Some(name) ==> !parser::begins(
            parser::base_package(name),
            '-',
        ),
        parser::logcat_line(line) is Some ==> event_is_plain(parser::logcat_line(line)->0),
        parser::epoch_line(line) is Some ==> event_is_plain((parser::epoch_line(line)->0).1),
{
}

/// A process that is read to be gone has a process id other than 0.
pub proof fn law_dead_pids_are_positive(line: Seq<char>)
    ensures
        parser::logcat_line(line) matches Some(EventModel::ProcDied(pid)) ==> pid > 0,
        parser::epoch_line(line) matches Some((_, EventModel::ProcDied(pid))) ==> pid > 0,
{
    let s = text::trimmed(line);
    if let Some((_, payload)) = text::split_at_char(parser::without_priority(s), ':') {
        lemma_dead_pid(parser::tokens(payload), 0);
    }
    if let Some((_, rest)) = text::word_and_rest(s, text::white()) {
        if let Some((_, payload)) = text::split_at_char(rest, ':') {
            lemma_dead_pid(parser::tokens(payload), 0);
        }
    }
}

proof fn lemma_dead_pid(toks: Seq<Seq<char>>, from: int)
    requires
        from >= 0,
    ensures
        parser::dead_pid_from(toks, from) matches Some(i) ==> 0 <= i < toks.len()
            && parser::positive()(toks[i]) && parser::number(toks[i])->0 <= u32::MAX,
    decreases toks.len() - from,
{
    if from < toks.len() - 1 && !parser::pid_before_name(toks, from) {
        lemma_dead_pid(toks, from + 1);
    }
}

/// A reaping pass makes no app evictable, whatever it finds, and every app that it may evict has a plain
/// name.
pub proof fn law_reaping_only_forgets(
    m: DaemonModel,
    probes: Seq<ProbeModel>,
    readings: Seq<Vec<u64>>,
    n: nat,
    pkg: Name,
    victim: Name,
    ams_protected: bool,
    now: u64,
)
    ensures
        m.after_probes(probes, readings, n).alive.dom().contains(pkg) ==> m.alive.dom().contains(pkg),
        m.after_victim(victim, ams_protected, now).alive.dom().contains(pkg)
            ==> m.alive.dom().contains(pkg),
        forall|low_mem: bool| #[trigger]
            m.eligible(pkg, now, low_mem) && names_are_plain(m) ==> is_plain(pkg),
    decreases n,
{
    if n > 0 {
        law_reaping_only_forgets(
            m,
            probes,
            readings,
            (n - 1) as nat,
            pkg,
            victim,
            ams_protected,
            now,
        );
    }
}

} // verus!
