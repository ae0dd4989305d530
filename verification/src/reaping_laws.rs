//! What a reaping pass does, told by what it starts from: the times, the history, the readings and the scores.
use vstd::prelude::*;

use crate::daemon;
use crate::daemon::{DaemonModel, Name};
use crate::laws;
use crate::reaping;
use crate::reaping::{CandidateModel, ProbeModel, Verdict};
use crate::records::Reason;
use crate::text;

verus! {

// ---------------------------------------------------------------------------
// Who is in a plan
// ---------------------------------------------------------------------------
/// While the screen is on, or where a dark screen is not to be used, no app is planned for that stands among
/// the first `lru_protect_depth` of the history, whatever is in the foreground and however low memory is.
/// Only while the screen is off, and where a dark screen is to be used, the first of the history alone is
/// immune.
pub proof fn law_recent_apps_are_never_planned(
    m: DaemonModel,
    probes: Seq<ProbeModel>,
    now: u64,
    low_mem: bool,
    i: int,
    place: int,
)
    requires
        m.is_plan(probes, now, low_mem),
        0 <= i < probes.len(),
        0 <= place < m.lru.len(),
        m.lru[place] == probes[i].pkg,
    ensures
        m.screen_on || !m.config.screen_off_harvest ==> place >= m.config.lru_protect_depth,
        !m.screen_on && m.config.screen_off_harvest ==> place >= 1,
{
    assert(m.describes(probes[i], now, low_mem));
    lemma_place_in_history(m.lru, probes[i].pkg, place);
}

proof fn lemma_place_in_history(lru: Seq<Name>, pkg: Name, place: int)
    requires
        0 <= place < lru.len(),
        lru[place] == pkg,
    ensures
        0 <= daemon::lru_index(lru, pkg) <= place,
{
    text::lemma_first_index(lru, daemon::named(pkg));
    if daemon::lru_index(lru, pkg) > place {
        assert(!daemon::named(pkg)(lru[place]));
    }
}

/// No app is planned for that the user excludes, that the system needs, that is in the foreground, or that does
/// not run.
pub proof fn law_excluded_apps_are_never_planned(
    m: DaemonModel,
    probes: Seq<ProbeModel>,
    now: u64,
    low_mem: bool,
    i: int,
)
    requires
        m.is_plan(probes, now, low_mem),
        0 <= i < probes.len(),
    ensures
        !m.user_exclusions.contains(probes[i].pkg),
        !m.dynamic_exclusions.contains(probes[i].pkg),
        m.current_fg != Some(probes[i].pkg),
        m.alive.dom().contains(probes[i].pkg),
{
    assert(m.describes(probes[i], now, low_mem));
}

/// What a plan tells of an app: how many whole seconds it has been idle, at which place it stands in the
/// history, or 99 where it is not there, and each of its processes once.
pub proof fn law_plans_tell_what_is_known(
    m: DaemonModel,
    probes: Seq<ProbeModel>,
    now: u64,
    low_mem: bool,
    i: int,
)
    requires
        m.is_plan(probes, now, low_mem),
        0 <= i < probes.len(),
    ensures
        ({
            let p = probes[i];
            &&& m.alive[p.pkg] <= now ==> p.idle_sec * 1000 <= now - m.alive[p.pkg] < p.idle_sec * 1000
                + 1000
            &&& m.alive[p.pkg] > now ==> p.idle_sec == 0
            &&& m.lru.contains(p.pkg) ==> p.lru_pos < m.lru.len() && m.lru[p.lru_pos as int] == p.pkg
            &&& forall|k: int|
                0 <= k < p.lru_pos && k < m.lru.len() ==> #[trigger] m.lru[k] != p.pkg
            &&& !m.lru.contains(p.pkg) ==> p.lru_pos == 99
            &&& p.pids.no_duplicates()
            &&& forall|pid: u32| #[trigger]
                p.pids.contains(pid) <==> m.pids.dom().contains(p.pkg) && m.pids[p.pkg].contains(pid)
        }),
{
    let p = probes[i];
    assert(m.describes(p, now, low_mem));
    text::lemma_first_index(m.lru, daemon::named(p.pkg));
    let at = daemon::lru_index(m.lru, p.pkg);
    if m.lru.contains(p.pkg) {
        let k = choose|k: int| 0 <= k < m.lru.len() && m.lru[k] == p.pkg;
        lemma_place_in_history(m.lru, p.pkg, k);
        assert(daemon::named(p.pkg)(m.lru[at]));
    } else if at < m.lru.len() {
        assert(daemon::named(p.pkg)(m.lru[at]));
    }
    assert forall|k: int| 0 <= k < p.lru_pos && k < m.lru.len() implies #[trigger] m.lru[k] != p.pkg by {
        if at < m.lru.len() {
            assert(!daemon::named(p.pkg)(m.lru[k]));
        } else {
            assert(m.lru.contains(m.lru[k]));
        }
    }
    assert forall|pid: u32| #[trigger] p.pids.contains(pid) <==> m.pids.dom().contains(p.pkg)
        && m.pids[p.pkg].contains(pid) by {
        assert(p.pids.to_set().contains(pid) <==> p.pids.contains(pid));
    }
}

/// Whether an app is in a plan, and so may be evicted.
pub open spec fn is_planned(probes: Seq<ProbeModel>, pkg: Name) -> bool {
    exists|i: int| 0 <= i < probes.len() && (#[trigger] probes[i]).pkg == pkg
}

proof fn lemma_planned(m: DaemonModel, probes: Seq<ProbeModel>, now: u64, low_mem: bool, pkg: Name)
    requires
        m.is_plan(probes, now, low_mem),
    ensures
        is_planned(probes, pkg) <==> m.eligible(pkg, now, low_mem),
{
    if is_planned(probes, pkg) {
        let i = choose|i: int| 0 <= i < probes.len() && (#[trigger] probes[i]).pkg == pkg;
        assert(m.describes(probes[i], now, low_mem));
    }
}

/// Of the apps that run, that nobody excludes and that are not in the history, those are in a plan that have been
/// idle for long enough. How long that is, in milliseconds, depends on what goes on:
///
/// - while a game is in the foreground, or where memory is low, ten seconds;
/// - else, while the screen is off and a dark screen is to be used, a minute, and half a minute once the screen
///   has been off for more than a minute;
/// - else, while the screen is on and the same app has been in the foreground for more than five minutes, a
///   minute;
/// - else, what the configuration says.
#[verifier::rlimit(50)]
pub proof fn law_how_long_an_app_must_be_idle(
    m: DaemonModel,
    probes: Seq<ProbeModel>,
    now: u64,
    low_mem: bool,
    pkg: Name,
    fg: Name,
)
    requires
        m.is_plan(probes, now, low_mem),
        m.alive.dom().contains(pkg),
        !m.user_exclusions.contains(pkg),
        !m.dynamic_exclusions.contains(pkg),
        m.current_fg == Some(fg) || m.current_fg is None,
        m.current_fg != Some(pkg),
        !m.lru.contains(pkg),
    ensures
        ({
            let idle_ms = if m.alive[pkg] <= now {
                now - m.alive[pkg]
            } else {
                0
            };
            let game = m.current_fg == Some(fg) && m.games.contains(fg);
            let dark = !m.screen_on && m.config.screen_off_harvest;
            let long_dark = m.screen_off_start matches Some(off) && now - off >= 61_000;
            let long_stay = m.fg_since matches Some(since) && now - since >= 301_000;
            &&& game || low_mem ==> (is_planned(probes, pkg) <==> idle_ms >= 10_000)
            &&& !game && !low_mem && dark && long_dark ==> (is_planned(probes, pkg) <==> idle_ms
                >= 30_000)
            &&& !game && !low_mem && dark && !long_dark ==> (is_planned(probes, pkg) <==> idle_ms
                >= 60_000)
            &&& !game && !low_mem && m.screen_on && long_stay ==> (is_planned(probes, pkg)
                <==> idle_ms >= 60_000)
            &&& !game && !low_mem && !dark && !(m.screen_on && long_stay) ==> (is_planned(
                probes,
                pkg,
            ) <==> idle_ms >= m.config.t_idle_sec * 1000)
        }),
{
    lemma_planned(m, probes, now, low_mem, pkg);
    text::lemma_first_index(m.lru, daemon::named(pkg));
    let at = daemon::lru_index(m.lru, pkg);
    if at < m.lru.len() {
        assert(daemon::named(pkg)(m.lru[at]));
        assert(m.lru.contains(m.lru[at]));
    }
}

/// An app that stands in the history is in a plan just where one outside it would be that has been idle as
/// long, as soon as it stands behind the apps that are immune.
pub proof fn law_places_behind_the_immune_do_not_count(
    m: DaemonModel,
    probes: Seq<ProbeModel>,
    others: Seq<ProbeModel>,
    now: u64,
    low_mem: bool,
    pkg: Name,
)
    requires
        m.is_plan(probes, now, low_mem),
        (DaemonModel { lru: Seq::empty(), ..m }).is_plan(others, now, low_mem),
        forall|k: int|
            0 <= k < m.lru.len() && #[trigger] m.lru[k] == pkg ==> if !m.screen_on
                && m.config.screen_off_harvest {
                k >= 1
            } else {
                k >= m.config.lru_protect_depth
            },
    ensures
        is_planned(probes, pkg) <==> is_planned(others, pkg),
{
    let bare = DaemonModel { lru: Seq::empty(), ..m };
    lemma_planned(m, probes, now, low_mem, pkg);
    lemma_planned(bare, others, now, low_mem, pkg);
    text::lemma_first_index(m.lru, daemon::named(pkg));
    text::lemma_first_index(bare.lru, daemon::named(pkg));
    let at = daemon::lru_index(m.lru, pkg);
    if at < m.lru.len() {
        assert(daemon::named(pkg)(m.lru[at]));
        assert(m.lru[at] == pkg);
    }
}

/// A plan has no app twice.
pub proof fn law_plans_have_no_app_twice(
    m: DaemonModel,
    probes: Seq<ProbeModel>,
    now: u64,
    low_mem: bool,
    i: int,
    j: int,
)
    requires
        m.is_plan(probes, now, low_mem),
        0 <= i < probes.len(),
        0 <= j < probes.len(),
        probes[i].pkg == probes[j].pkg,
    ensures
        i == j,
{
}

// ---------------------------------------------------------------------------
// The memory of an app
// ---------------------------------------------------------------------------
/// The values, added up.
pub open spec fn added_up(values: Seq<nat>) -> nat
    decreases values.len(),
{
    if values.len() == 0 {
        0
    } else {
        values[0] + added_up(values.drop_first())
    }
}

/// What was read of so many processes, in order; nothing of those behind the last reading.
pub open spec fn readings_of(processes: nat, rss: Seq<u64>) -> Seq<nat> {
    Seq::new(
        processes,
        |i: int|
            if i < rss.len() {
                rss[i] as nat
            } else {
                0
            },
    )
}

/// The memory of an app: what was read of its processes, added up.
pub open spec fn memory_of(probe: ProbeModel, rss: Seq<u64>) -> nat {
    added_up(readings_of(probe.pids.len(), rss))
}

proof fn lemma_added_up_last(values: Seq<nat>, last: nat)
    ensures
        added_up(values.push(last)) == added_up(values) + last,
    decreases values.len(),
{
    let all = values.push(last);
    if values.len() == 0 {
        assert(all.drop_first() =~= Seq::<nat>::empty());
        assert(added_up(all.drop_first()) == 0);
    } else {
        assert(all.drop_first() =~= values.drop_first().push(last));
        lemma_added_up_last(values.drop_first(), last);
    }
}

proof fn lemma_total(pids: Seq<u32>, rss: Seq<u64>)
    ensures
        ({
            let sum = added_up(readings_of(pids.len(), rss));
            &&& sum <= u64::MAX ==> reaping::total_rss(pids, rss) == sum
            &&& sum > u64::MAX ==> reaping::total_rss(pids, rss) == u64::MAX
            &&& sum > 0 <==> reaping::live_pids(pids, rss).len() > 0
        }),
    decreases pids.len(),
{
    let all = readings_of(pids.len(), rss);
    if pids.len() == 0 {
        assert(added_up(all) == 0);
    } else {
        let head = pids.drop_last();
        lemma_total(head, rss);
        let n = pids.len() - 1;
        let last = reaping::reading(rss, n);
        assert(all =~= readings_of(head.len(), rss).push(last as nat));
        lemma_added_up_last(readings_of(head.len(), rss), last as nat);
    }
}

/// The memory of a candidate is what was read of its processes, added up: exactly, where that fits. Its
/// processes are those of which something was read, in their order. There is a candidate just where something
/// was read.
pub proof fn law_the_memory_of_an_app_adds_up(probe: ProbeModel, rss: Seq<u64>)
    ensures
        ({
            let c = reaping::candidate_of(probe, rss);
            &&& memory_of(probe, rss) <= u64::MAX ==> c.total_rss_kb == memory_of(probe, rss)
            &&& memory_of(probe, rss) > u64::MAX ==> c.total_rss_kb == u64::MAX
            &&& c.live_pids == Seq::new(probe.pids.len(), |i: int| i).filter(
                |i: int| i < rss.len() && rss[i] > 0,
            ).map_values(|i: int| probe.pids[i])
            &&& c.pkg == probe.pkg
            &&& c.idle_sec == probe.idle_sec
            &&& c.lru_pos == probe.lru_pos
            &&& reaping::survives(probe, rss) <==> memory_of(probe, rss) > 0
        }),
{
    lemma_total(probe.pids, rss);
    lemma_live_in_order(probe.pids, rss);
}

proof fn lemma_live_in_order(pids: Seq<u32>, rss: Seq<u64>)
    ensures
        reaping::live_pids(pids, rss) == Seq::new(pids.len(), |i: int| i).filter(
            |i: int| i < rss.len() && rss[i] > 0,
        ).map_values(|i: int| pids[i]),
    decreases pids.len(),
{
    let there = |i: int| i < rss.len() && rss[i] > 0;
    let places = Seq::new(pids.len(), |i: int| i);
    reveal(Seq::filter);
    if pids.len() == 0 {
        assert(places.filter(there) =~= Seq::<int>::empty());
        assert(reaping::live_pids(pids, rss) =~= places.filter(there).map_values(|i: int| pids[i]));
    } else {
        let head = pids.drop_last();
        lemma_live_in_order(head, rss);
        let n = pids.len() - 1;
        let fewer = Seq::new(head.len(), |i: int| i);
        assert(places.drop_last() =~= fewer);
        assert(places.last() == n);
        let found = fewer.filter(there);
        assert forall|k: int| 0 <= k < found.len() implies 0 <= #[trigger] found[k] < n by {
            fewer.lemma_filter_contains_rev(there, found[k]);
            assert(found.contains(found[k]));
            assert(fewer.contains(found[k]));
        }
        assert(found.map_values(|i: int| head[i]) =~= found.map_values(|i: int| pids[i]));
        assert(places.filter(there) =~= if there(n) {
            found.push(n)
        } else {
            found
        });
        assert(reaping::live_pids(pids, rss) =~= places.filter(there).map_values(|i: int| pids[i]));
    }
}

/// Of two apps with one process each, the one of which more was read weighs more.
pub proof fn law_more_memory_weighs_more(a: ProbeModel, b: ProbeModel, more: u64, less: u64)
    requires
        a.pids.len() == 1,
        b.pids.len() == 1,
        more > less,
    ensures
        reaping::candidate_of(a, seq![more]).total_rss_kb == more,
        reaping::candidate_of(b, seq![less]).total_rss_kb == less,
        reaping::candidate_of(a, seq![more]).total_rss_kb > reaping::candidate_of(
            b,
            seq![less],
        ).total_rss_kb,
{
    law_the_memory_of_an_app_adds_up(a, seq![more]);
    law_the_memory_of_an_app_adds_up(b, seq![less]);
    assert(readings_of(1, seq![more]) =~= seq![more as nat]);
    assert(readings_of(1, seq![less]) =~= seq![less as nat]);
    reveal_with_fuel(added_up, 2);
}

/// What was read of the app at `i`.
pub open spec fn read_of(readings: Seq<Vec<u64>>, i: int) -> Seq<u64> {
    if 0 <= i < readings.len() {
        readings[i]@
    } else {
        Seq::empty()
    }
}

/// `n`, or the most that a reading can be where that is less.
pub open spec fn as_far_as_it_fits(n: nat) -> nat {
    if n > u64::MAX {
        u64::MAX as nat
    } else {
        n
    }
}

proof fn lemma_probe_gives_candidate(
    probes: Seq<ProbeModel>,
    readings: Seq<Vec<u64>>,
    n: nat,
    i: int,
)
    requires
        0 <= i < n <= probes.len(),
        reaping::survives(probes[i], reaping::readings_at(readings, i)),
    ensures
        reaping::candidates_of(probes, readings, n).contains(
            reaping::candidate_of(probes[i], reaping::readings_at(readings, i)),
        ),
    decreases n,
{
    let c = reaping::candidate_of(probes[i], reaping::readings_at(readings, i));
    let last = n - 1;
    let before = reaping::candidates_of(probes, readings, last as nat);
    let all = reaping::candidates_of(probes, readings, n);
    if i == last {
        assert(all[before.len() as int] == c);
    } else {
        lemma_probe_gives_candidate(probes, readings, last as nat, i);
        let k = choose|k: int| 0 <= k < before.len() && before[k] == c;
        assert(all[k] == c);
    }
}

/// The victims of a pass, told by what was read of the apps in its plan. Each victim is one of those apps,
/// with the sum of what was read of its processes, which is not 0. The more was read of an app, the earlier
/// it comes. An app of which something was read is spared only where there are as many victims as there may
/// be, and each of them weighs at least as much.
#[verifier::rlimit(50)]
pub proof fn law_victims_weigh_the_most(
    probes: Seq<ProbeModel>,
    readings: Seq<Vec<u64>>,
    max: usize,
)
    requires
        forall|i: int, j: int|
            0 <= i < j < probes.len() ==> (#[trigger] probes[i]).pkg != (#[trigger] probes[j]).pkg,
    ensures
        ({
            let victims = reaping::heaviest(
                reaping::candidates_of(probes, readings, probes.len()),
                max,
            );
            &&& victims.len() <= max
            &&& forall|a: int|
                #![trigger victims[a]]
                0 <= a < victims.len() ==> exists|i: int|
                    #![trigger probes[i]]
                    {
                        &&& 0 <= i < probes.len()
                        &&& victims[a].pkg == probes[i].pkg
                        &&& victims[a].idle_sec == probes[i].idle_sec
                        &&& victims[a].lru_pos == probes[i].lru_pos
                        &&& victims[a].total_rss_kb == as_far_as_it_fits(
                            memory_of(probes[i], read_of(readings, i)),
                        )
                        &&& victims[a].total_rss_kb > 0
                    }
            &&& forall|a: int, b: int|
                0 <= a <= b < victims.len() ==> (#[trigger] victims[a]).total_rss_kb >= (
                #[trigger] victims[b]).total_rss_kb
            &&& forall|a: int, b: int|
                0 <= a < b < victims.len() ==> (#[trigger] victims[a]).pkg != (
                #[trigger] victims[b]).pkg
            &&& forall|i: int|
                #![trigger probes[i]]
                0 <= i < probes.len() && memory_of(probes[i], read_of(readings, i)) > 0 && (forall|
                    a: int,
                |
                    0 <= a < victims.len() ==> (#[trigger] victims[a]).pkg != probes[i].pkg)
                    ==> victims.len() == max && forall|a: int|
                    0 <= a < victims.len() ==> (#[trigger] victims[a]).total_rss_kb
                        >= as_far_as_it_fits(memory_of(probes[i], read_of(readings, i)))
        }),
{
    let cands = reaping::candidates_of(probes, readings, probes.len());
    let victims = reaping::heaviest(cands, max);
    laws::law_victims_are_the_heaviest(cands, max);
    laws::lemma_candidates_from_probes(probes, readings, probes.len());
    laws::lemma_sorted_distinct(cands);
    laws::law_sorting_keeps_candidates(cands);
    let all = reaping::by_memory(cands);
    assert forall|a: int| 0 <= a < victims.len() implies #[trigger] victims[a] == all[a] by {}
    assert forall|a: int| #![trigger victims[a]] 0 <= a < victims.len() implies exists|i: int|
        #![trigger probes[i]]
        {
            &&& 0 <= i < probes.len()
            &&& victims[a].pkg == probes[i].pkg
            &&& victims[a].idle_sec == probes[i].idle_sec
            &&& victims[a].lru_pos == probes[i].lru_pos
            &&& victims[a].total_rss_kb == as_far_as_it_fits(
                memory_of(probes[i], read_of(readings, i)),
            )
            &&& victims[a].total_rss_kb > 0
        } by {
        let v = victims[a];
        assert(cands.contains(v));
        let k = choose|k: int| 0 <= k < cands.len() && cands[k] == v;
        assert(laws::has_source(cands[k], probes, readings, probes.len()));
        let i = choose|i: int|
            0 <= i < probes.len() && laws::comes_from(cands[k], probes, readings, i);
        law_the_memory_of_an_app_adds_up(probes[i], read_of(readings, i));
        assert(probes[i].pkg == v.pkg);
    }
    assert forall|i: int|
        #![trigger probes[i]]
        0 <= i < probes.len() && memory_of(probes[i], read_of(readings, i)) > 0 && (forall|a: int|
            0 <= a < victims.len() ==> (#[trigger] victims[a]).pkg != probes[i].pkg) implies
        victims.len() == max && forall|a: int|
        0 <= a < victims.len() ==> (#[trigger] victims[a]).total_rss_kb >= as_far_as_it_fits(
            memory_of(probes[i], read_of(readings, i)),
        ) by {
        let rss = read_of(readings, i);
        law_the_memory_of_an_app_adds_up(probes[i], rss);
        lemma_probe_gives_candidate(probes, readings, probes.len(), i);
        let c = reaping::candidate_of(probes[i], rss);
        if victims.contains(c) {
            let a = choose|a: int| 0 <= a < victims.len() && victims[a] == c;
            assert(victims[a].pkg == probes[i].pkg);
        }
        laws::lemma_sorted_members(cands, c);
        if cands.len() <= max {
            assert(victims =~= all);
        }
    }
}

proof fn lemma_sorting_is_stable(candidates: Seq<CandidateModel>, a: int, b: int)
    requires
        laws::distinct_apps(candidates),
        0 <= a < b < candidates.len(),
        reaping::by_memory(candidates)[a].total_rss_kb == reaping::by_memory(
            candidates,
        )[b].total_rss_kb,
    ensures
        exists|i: int, j: int|
            #![trigger candidates[i], candidates[j]]
            0 <= i < j < candidates.len() && candidates[i] == reaping::by_memory(candidates)[a]
                && candidates[j] == reaping::by_memory(candidates)[b],
    decreases candidates.len(),
{
    let head = candidates.drop_last();
    let c = candidates.last();
    let rest = reaping::by_memory(head);
    let all = reaping::by_memory(candidates);
    laws::law_sorting_keeps_candidates(head);
    laws::lemma_rank_place(rest, c.total_rss_kb);
    let r = reaping::rank(rest, c.total_rss_kb);
    assert(laws::distinct_apps(head)) by {
        assert forall|i: int, j: int| 0 <= i < j < head.len() implies (#[trigger] head[i]).pkg != (
        #[trigger] head[j]).pkg by {
            assert(candidates[i].pkg != candidates[j].pkg);
        }
    }
    if b == r {
        assert(all[a] == rest[a]);
        laws::lemma_sorted_members(head, rest[a]);
        assert(rest.contains(rest[a]));
        let i = choose|i: int| 0 <= i < head.len() && head[i] == rest[a];
        assert(candidates[i] == all[a] && candidates[candidates.len() - 1] == all[b]);
    } else if a == r {
        assert(all[b] == rest[b - 1]);
        assert(rest[r].total_rss_kb >= rest[b - 1].total_rss_kb);
        assert(false);
    } else {
        let a0 = if a < r {
            a
        } else {
            a - 1
        };
        let b0 = if b < r {
            b
        } else {
            b - 1
        };
        assert(all[a] == rest[a0]);
        assert(all[b] == rest[b0]);
        lemma_sorting_is_stable(head, a0, b0);
        let (i, j) = choose|i: int, j: int|
            #![trigger head[i], head[j]]
            0 <= i < j < head.len() && head[i] == rest[a0] && head[j] == rest[b0];
        assert(candidates[i] == all[a] && candidates[j] == all[b]);
    }
}

/// Of two victims that weigh the same, the one comes first that came first among the candidates.
pub proof fn law_equal_victims_keep_their_order(
    candidates: Seq<CandidateModel>,
    max: usize,
    a: int,
    b: int,
)
    requires
        laws::distinct_apps(candidates),
        0 <= a < b < reaping::heaviest(candidates, max).len(),
        reaping::heaviest(candidates, max)[a].total_rss_kb == reaping::heaviest(
            candidates,
            max,
        )[b].total_rss_kb,
    ensures
        exists|i: int, j: int|
            #![trigger candidates[i], candidates[j]]
            0 <= i < j < candidates.len() && candidates[i] == reaping::heaviest(candidates, max)[a]
                && candidates[j] == reaping::heaviest(candidates, max)[b],
{
    laws::law_sorting_keeps_candidates(candidates);
    lemma_sorting_is_stable(candidates, a, b);
}

// ---------------------------------------------------------------------------
// What a pass forgets
// ---------------------------------------------------------------------------
proof fn lemma_dead(pids: Seq<u32>, rss: Seq<u64>, pid: u32)
    ensures
        reaping::dead_pids(pids, rss).contains(pid) <==> exists|i: int|
            0 <= i < pids.len() && #[trigger] pids[i] == pid && (i >= rss.len() || rss[i] == 0),
        reaping::live_pids(pids, rss).contains(pid) <==> exists|i: int|
            0 <= i < pids.len() && #[trigger] pids[i] == pid && i < rss.len() && rss[i] > 0,
    decreases pids.len(),
{
    if pids.len() > 0 {
        let head = pids.drop_last();
        let n = pids.len() - 1;
        lemma_dead(head, rss, pid);
        let live = reaping::live_pids(head, rss);
        let all = reaping::live_pids(pids, rss);
        if live.contains(pid) {
            let k = choose|k: int| 0 <= k < live.len() && live[k] == pid;
            assert(all[k] == pid);
            let i = choose|i: int|
                0 <= i < head.len() && #[trigger] head[i] == pid && i < rss.len() && rss[i] > 0;
            assert(pids[i] == pid);
        }
        if reaping::dead_pids(head, rss).contains(pid) {
            let i = choose|i: int|
                0 <= i < head.len() && #[trigger] head[i] == pid && (i >= rss.len() || rss[i] == 0);
            assert(pids[i] == pid);
        }
        if pids[n] == pid && reaping::reading(rss, n) > 0 {
            assert(all[live.len() as int] == pid);
        }
        if all.contains(pid) {
            let k = choose|k: int| 0 <= k < all.len() && all[k] == pid;
            if k < live.len() {
                assert(live[k] == pid);
            } else {
                assert(pids[n] == pid);
            }
        }
        assert forall|i: int| 0 <= i < n && #[trigger] pids[i] == pid implies head[i] == pid by {}
    }
}

/// A look at the processes of an app forgets those of which nothing was read, and no other process. An app of
/// which nothing at all was read is forgotten; another one stays, as long idle as it was. Nothing is changed of
/// other apps.
pub proof fn law_what_is_gone_is_forgotten(m: DaemonModel, probe: ProbeModel, rss: Seq<u64>)
    ensures
        ({
            let after = m.after_probe(probe, rss);
            let gone = |pid: u32|
                exists|i: int|
                    0 <= i < probe.pids.len() && #[trigger] probe.pids[i] == pid && (i >= rss.len()
                        || rss[i] == 0);
            let there = |pid: u32|
                exists|i: int|
                    0 <= i < probe.pids.len() && #[trigger] probe.pids[i] == pid && i < rss.len()
                        && rss[i] > 0;
            &&& forall|pid: u32| #[trigger]
                after.owner.dom().contains(pid) <==> m.owner.dom().contains(pid) && !gone(pid)
            &&& forall|pid: u32| #[trigger]
                after.owner.dom().contains(pid) ==> after.owner[pid] == m.owner[pid]
            &&& memory_of(probe, rss) == 0 ==> after.alive == m.alive.remove(probe.pkg)
                && !after.pids.dom().contains(probe.pkg)
            &&& memory_of(probe, rss) > 0 ==> after.alive == m.alive && after.pids.dom()
                == m.pids.dom()
            &&& memory_of(probe, rss) > 0 && m.pids.dom().contains(probe.pkg) ==> forall|pid: u32|
                #[trigger] after.pids[probe.pkg].contains(pid) <==> m.pids[probe.pkg].contains(pid)
                    && there(pid)
            &&& forall|pkg: Name|
                #![trigger after.pids.dom().contains(pkg)]
                pkg != probe.pkg ==> after.pids.dom().contains(pkg) == m.pids.dom().contains(pkg)
                    && (m.pids.dom().contains(pkg) ==> after.pids[pkg] == m.pids[pkg])
            &&& after == DaemonModel {
                owner: after.owner,
                alive: after.alive,
                pids: after.pids,
                ..m
            }
        }),
{
    let after = m.after_probe(probe, rss);
    lemma_total(probe.pids, rss);
    assert forall|pid: u32| #[trigger] after.owner.dom().contains(pid) <==> m.owner.dom().contains(pid)
        && !(exists|i: int|
        0 <= i < probe.pids.len() && #[trigger] probe.pids[i] == pid && (i >= rss.len() || rss[i]
            == 0)) by {
        lemma_dead(probe.pids, rss, pid);
    }
    if memory_of(probe, rss) > 0 && m.pids.dom().contains(probe.pkg) {
        assert forall|pid: u32| #[trigger] after.pids[probe.pkg].contains(pid)
            <==> m.pids[probe.pkg].contains(pid) && (exists|i: int|
            0 <= i < probe.pids.len() && #[trigger] probe.pids[i] == pid && i < rss.len() && rss[i]
                > 0) by {
            lemma_dead(probe.pids, rss, pid);
            assert(reaping::live_pids(probe.pids, rss).to_set().contains(pid)
                <==> reaping::live_pids(probe.pids, rss).contains(pid));
        }
        assert(after.pids.dom() =~= m.pids.dom());
    }
}

/// Of all apps, a pass forgets those of its plan of which nothing was read, and no others; the others stay as
/// long idle as they were.
pub proof fn law_a_pass_forgets_what_is_gone(
    m: DaemonModel,
    probes: Seq<ProbeModel>,
    readings: Seq<Vec<u64>>,
    n: nat,
    pkg: Name,
)
    requires
        n <= probes.len(),
    ensures
        ({
            let after = m.after_probes(probes, readings, n);
            &&& after.alive.dom().contains(pkg) <==> m.alive.dom().contains(pkg) && forall|i: int|
                0 <= i < n && (#[trigger] probes[i]).pkg == pkg ==> memory_of(
                    probes[i],
                    read_of(readings, i),
                ) > 0
            &&& after.alive.dom().contains(pkg) ==> after.alive[pkg] == m.alive[pkg]
            &&& after == DaemonModel {
                owner: after.owner,
                alive: after.alive,
                pids: after.pids,
                ..m
            }
        }),
    decreases n,
{
    if n > 0 {
        let k = n - 1;
        law_a_pass_forgets_what_is_gone(m, probes, readings, k as nat, pkg);
        law_what_is_gone_is_forgotten(
            m.after_probes(probes, readings, k as nat),
            probes[k],
            read_of(readings, k),
        );
    }
}

// ---------------------------------------------------------------------------
// Verdicts
// ---------------------------------------------------------------------------
/// A victim is protected where one of its processes has a score below the threshold, and where the score of
/// one could not be read, which counts as 0. It is not where all scores reach the threshold. The kill command
/// is run for one that is not protected, where kills are meant to happen. The score that is told is the
/// least.
pub proof fn law_scores_decide(
    m: DaemonModel,
    victim: CandidateModel,
    scores: Seq<Option<i32>>,
)
    requires
        victim.live_pids.len() > 0,
    ensures
        ({
            let v = m.verdict(victim, scores);
            let least = m.config.min_oom_score_adj;
            let n = victim.live_pids.len();
            &&& forall|i: int|
                #![trigger scores[i]]
                0 <= i < n && i < scores.len() && scores[i] is Some && scores[i]->0 < least
                    ==> v.ams_protected
            &&& forall|i: int|
                #![trigger victim.live_pids[i]]
                0 <= i < n && (i >= scores.len() || scores[i] is None) && least > 0
                    ==> v.ams_protected
            &&& (forall|i: int|
                #![trigger scores[i]]
                0 <= i < n ==> i < scores.len() && scores[i] is Some && scores[i]->0 >= least)
                ==> !v.ams_protected
            &&& v.kill <==> m.act_mode && !v.ams_protected
            &&& forall|i: int|
                #![trigger scores[i]]
                0 <= i < n && i < scores.len() && scores[i] is Some ==> v.oom_adj <= scores[i]->0
            &&& v.oom_adj == 0 || exists|i: int|
                0 <= i < n && i < scores.len() && #[trigger] scores[i] == Some(v.oom_adj)
            &&& v.oom_adj > 0 ==> n <= scores.len() && forall|i: int|
                #![trigger scores[i]]
                0 <= i < n ==> scores[i] is Some
        }),
{
    lemma_least(scores, victim.live_pids.len());
    let n = victim.live_pids.len();
    let v = m.verdict(victim, scores);
    assert forall|i: int| #![trigger victim.live_pids[i]]
        0 <= i < n && (i >= scores.len() || scores[i] is None) && m.config.min_oom_score_adj
            > 0 implies v.ams_protected by {
        assert(reaping::score_at(scores, i) == 0);
    }
    assert forall|i: int| #![trigger scores[i]]
        0 <= i < n && i < scores.len() && scores[i] is Some implies v.oom_adj <= scores[i]->0 by {
        assert(reaping::score_at(scores, i) == scores[i]->0);
    }
    let k = choose|k: int| 0 <= k < n && #[trigger] reaping::score_at(scores, k) == v.oom_adj;
    if k < scores.len() && scores[k] is Some {
        assert(scores[k] == Some(v.oom_adj));
    }
    if v.oom_adj > 0 {
        if n > scores.len() {
            assert(reaping::score_at(scores, n - 1) == 0);
        }
        assert forall|i: int| #![trigger scores[i]] 0 <= i < n implies scores[i] is Some by {
            assert(reaping::score_at(scores, i) > 0);
        }
    }
}

proof fn lemma_least(scores: Seq<Option<i32>>, n: nat)
    requires
        n > 0,
    ensures
        forall|i: int|
            0 <= i < n ==> reaping::least_score(scores, n) <= #[trigger] reaping::score_at(scores, i),
        exists|i: int|
            0 <= i < n && #[trigger] reaping::score_at(scores, i) == reaping::least_score(scores, n),
    decreases n,
{
    if n == 1 {
        assert(reaping::score_at(scores, 0) == reaping::least_score(scores, 1));
    } else {
        let m = (n - 1) as nat;
        lemma_least(scores, m);
        let k = choose|k: int|
            0 <= k < m && #[trigger] reaping::score_at(scores, k) == reaping::least_score(scores, m);
        assert(reaping::score_at(scores, m as int) == reaping::score_at(scores, n - 1));
    }
}

/// What is recorded of a victim: what was found of it, why, and whether the command was started. That is told
/// only where kills are meant to happen, and not of a command that was not to be run.
pub proof fn law_kills_are_recorded(
    m: DaemonModel,
    victim: CandidateModel,
    verdict: Verdict,
    started: bool,
    now: u64,
    low_mem: bool,
    fg: Name,
)
    ensures
        ({
            let r = m.kill_record(victim, verdict, started, now, low_mem);
            &&& r.ts == now
            &&& r.pkg == victim.pkg
            &&& r.pids == victim.live_pids
            &&& r.rss_kb == victim.total_rss_kb
            &&& r.idle_sec == victim.idle_sec
            &&& r.lru_pos == victim.lru_pos
            &&& r.oom_adj == verdict.oom_adj
            &&& r.ams_protected == verdict.ams_protected
            &&& r.act_mode == m.act_mode
            &&& !m.act_mode ==> r.spawned is None
            &&& m.act_mode && verdict.kill && started ==> r.spawned == Some(true)
            &&& m.act_mode && !(verdict.kill && started) ==> r.spawned == Some(false)
            &&& m.current_fg == Some(fg) && m.games.contains(fg) ==> r.reason == Reason::GameMode
            &&& m.current_fg == Some(fg) && !m.games.contains(fg) || m.current_fg is None
                ==> r.reason == if low_mem {
                Reason::LowMemory
            } else {
                Reason::IdleExpired
            }
        }),
{
}

/// A victim that is not protected is no longer among the apps that can be evicted, whether its command could be
/// started or not. A protected one counts as idle from now on. Nothing else changes.
pub proof fn law_what_becomes_of_a_victim(
    m: DaemonModel,
    pkg: Name,
    ams_protected: bool,
    now: u64,
    other: Name,
)
    requires
        other != pkg,
    ensures
        ({
            let after = m.after_victim(pkg, ams_protected, now);
            &&& after.alive.dom().contains(pkg) <==> m.alive.dom().contains(pkg) && ams_protected
            &&& m.alive.dom().contains(pkg) && ams_protected ==> after.alive[pkg] == now
            &&& after.alive.dom().contains(other) <==> m.alive.dom().contains(other)
            &&& m.alive.dom().contains(other) ==> after.alive[other] == m.alive[other]
            &&& after == DaemonModel { alive: after.alive, ..m }
        }),
{
}

} // verus!
