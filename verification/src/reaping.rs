//! The reaping pass: which apps are evicted.
//!
//! A pass has four parts, between which memory, scores and the kill command are read and run:
//! [`DaemonState::plan_reaping`] lists the apps that may be evicted and the processes to look at;
//! [`DaemonState::select_victims`] takes what was read of them, forgets what is gone and picks the
//! heaviest; [`DaemonState::judge`] tells whether the system protects a victim; and
//! [`DaemonState::conclude`] records what was done.
use vstd::prelude::*;

use crate::daemon;
use crate::daemon::{DaemonModel, DaemonState, Name};
use crate::hasher::FastSet;
use crate::records::{KillModel, KillRecord, Reason, Record, RecordModel};

verus! {

/// An app that may be evicted, and its processes.
pub struct Probe {
    pub pkg: String,
    pub idle_sec: u64,
    pub lru_pos: usize,
    pub pids: Vec<u32>,
}

/// What a [`Probe`] says.
pub struct ProbeModel {
    pub pkg: Name,
    pub idle_sec: u64,
    pub lru_pos: usize,
    pub pids: Seq<u32>,
}

impl View for Probe {
    type V = ProbeModel;

    open spec fn view(&self) -> ProbeModel {
        ProbeModel {
            pkg: self.pkg@,
            idle_sec: self.idle_sec,
            lru_pos: self.lru_pos,
            pids: self.pids@,
        }
    }
}

/// What the probes say.
pub open spec fn probe_models(probes: Seq<Probe>) -> Seq<ProbeModel> {
    probes.map_values(|p: Probe| p@)
}

impl DaemonModel {
    /// Whether a game is in the foreground.
    pub open spec fn game_in_front(self) -> bool {
        self.current_fg is Some && self.games.contains(self.current_fg->0)
    }

    /// Whether the screen is off and apps are evicted sooner for it.
    pub open spec fn harvesting(self) -> bool {
        !self.screen_on && self.config.screen_off_harvest
    }

    /// How many apps of the history are immune.
    pub open spec fn protected_depth(self) -> usize {
        if self.harvesting() {
            1
        } else {
            self.config.lru_protect_depth
        }
    }

    /// How long the app in the foreground has been there, in whole seconds; 0 where that is not known.
    pub open spec fn foreground_sec(self, now: u64) -> u64 {
        daemon::seconds_since(self.fg_since, now)
    }

    /// How long an app must have been idle, in seconds: ten for a game or where memory is low; less than
    /// usual while the screen is off and apps are evicted sooner for it, or while it is on and one app
    /// stays in the foreground for more than five minutes.
    pub open spec fn idle_limit(self, now: u64, low_mem: bool) -> u64 {
        if self.game_in_front() || low_mem {
            10
        } else if self.harvesting() {
            if daemon::seconds_since(self.screen_off_start, now) > 60 {
                30
            } else {
                60
            }
        } else if self.screen_on && self.foreground_sec(now) > 300 {
            60
        } else {
            self.config.t_idle_sec
        }
    }

    /// The place of an app in the history as a record tells it; 99 where it has none.
    pub open spec fn lru_pos(self, pkg: Name) -> int {
        let i = daemon::lru_index(self.lru, pkg);
        if i < self.lru.len() {
            i
        } else {
            99
        }
    }

    /// How long an app has been idle, in seconds.
    pub open spec fn idle_sec(self, pkg: Name, now: u64) -> u64 {
        (daemon::elapsed(now, self.alive[pkg]) / 1000) as u64
    }

    /// Whether an app is immune for being among those last seen in the foreground.
    pub open spec fn recently_used(self, pkg: Name) -> bool {
        let i = daemon::lru_index(self.lru, pkg);
        i < self.lru.len() && i < self.protected_depth()
    }

    /// Whether an app may be evicted: it runs, it is not excluded, it is not among those last used,
    /// and it has been idle for long enough.
    pub open spec fn eligible(self, pkg: Name, now: u64, low_mem: bool) -> bool {
        &&& self.alive.dom().contains(pkg)
        &&& !self.excluded(pkg)
        &&& !self.recently_used(pkg)
        &&& self.idle_sec(pkg, now) >= self.idle_limit(now, low_mem)
    }

    /// Whether a probe says what is known of an app that may be evicted.
    pub open spec fn describes(self, probe: ProbeModel, now: u64, low_mem: bool) -> bool {
        &&& self.eligible(probe.pkg, now, low_mem)
        &&& probe.idle_sec == self.idle_sec(probe.pkg, now)
        &&& probe.lru_pos == self.lru_pos(probe.pkg)
        &&& probe.pids.no_duplicates()
        &&& probe.pids.to_set() == self.pids_of(probe.pkg)
    }

    /// Whether the probes are those of the apps that may be evicted: one each, in any order.
    pub open spec fn is_plan(self, probes: Seq<ProbeModel>, now: u64, low_mem: bool) -> bool {
        &&& forall|i: int|
            0 <= i < probes.len() ==> self.describes(#[trigger] probes[i], now, low_mem)
        &&& forall|i: int, j: int|
            0 <= i < j < probes.len() ==> (#[trigger] probes[i]).pkg != (#[trigger] probes[j]).pkg
        &&& forall|pkg: Name|
            self.eligible(pkg, now, low_mem) ==> exists|i: int|
                0 <= i < probes.len() && (#[trigger] probes[i]).pkg == pkg
    }
}

impl DaemonState {
    fn foreground_is_game(&self) -> (yes: bool)
        requires
            self.wf(),
        ensures
            yes == self@.game_in_front(),
    {
        match &self.current_fg {
            Some(fg) => self.games.contains(fg.as_str()),
            None => false,
        }
    }

    fn idle_limit(&self, now_epoch: u64, is_low_mem: bool) -> (secs: u64)
        requires
            self.wf(),
        ensures
            secs == self@.idle_limit(now_epoch, is_low_mem),
    {
        if self.foreground_is_game() || is_low_mem {
            10
        } else if !self.screen_on && self.config.screen_off_harvest {
            if daemon::whole_seconds_since(self.screen_off_start, now_epoch) > 60 {
                30
            } else {
                60
            }
        } else {
            let fg_sec: u64 = daemon::whole_seconds_since(self.fg_since, now_epoch);
            if self.screen_on && fg_sec > 300 {
                60
            } else {
                self.config.t_idle_sec
            }
        }
    }

    fn list_pids(&self, pkg: &str) -> (pids: Vec<u32>)
        requires
            self.wf(),
        ensures
            pids@.no_duplicates(),
            pids@.to_set() == self@.pids_of(pkg@),
    {
        let mut pids: Vec<u32> = Vec::new();
        match self.pkg_to_pids.get(pkg) {
            None => {
                assert(pids@.to_set() =~= Set::<u32>::empty());
            },
            Some(set) => {
                let mut i: usize = 0;
                assert(set@ == self@.pids_of(pkg@));
                while i < set.len()
                    invariant
                        set.wf(),
                        i <= set.listed().len(),
                        pids@ == set.listed().take(i as int),
                    decreases set.listed().len() - i,
                {
                    pids.push(*set.member_at(i));
                    assert(set.listed().take(i + 1) =~= set.listed().take(i as int).push(
                        set.listed()[i as int],
                    ));
                    i = i + 1;
                }
                proof {
                    assert(pids@ =~= set.listed());
                    set.lemma_listed();
                    assert(pids@.to_set() =~= set@);
                }
            },
        }
        pids
    }

    /// The apps that may be evicted, with what is known of them and the processes to look at.
    pub fn plan_reaping(&self, now_epoch: u64, is_low_mem: bool) -> (probes: Vec<Probe>)
        requires
            self.wf(),
        ensures
            self@.is_plan(probe_models(probes@), now_epoch, is_low_mem),
    {
        let limit: u64 = self.idle_limit(now_epoch, is_low_mem);
        let depth: usize = if !self.screen_on && self.config.screen_off_harvest {
            1
        } else {
            self.config.lru_protect_depth
        };
        let mut probes: Vec<Probe> = Vec::new();
        let ghost keys = self.alive_apps.keys();
        let mut i: usize = 0;
        proof {
            self.alive_apps.lemma_keys();
        }
        while i < self.alive_apps.len()
            invariant
                self.wf(),
                keys == self.alive_apps.keys(),
                keys.no_duplicates(),
                i <= keys.len(),
                limit == self@.idle_limit(now_epoch, is_low_mem),
                depth == self@.protected_depth(),
                forall|n: int|
                    0 <= n < probes@.len() ==> self@.describes(
                        #[trigger] probe_models(probes@)[n],
                        now_epoch,
                        is_low_mem,
                    ),
                forall|n: int|
                    0 <= n < probes@.len() ==> keys.take(i as int).contains(
                        (#[trigger] probe_models(probes@)[n]).pkg,
                    ),
                forall|n: int, l: int|
                    0 <= n < l < probes@.len() ==> (#[trigger] probe_models(probes@)[n]).pkg != (
                    #[trigger] probe_models(probes@)[l]).pkg,
                forall|j: int|
                    0 <= j < i && self@.eligible(#[trigger] keys[j], now_epoch, is_low_mem)
                        ==> exists|n: int|
                        0 <= n < probes@.len() && (#[trigger] probe_models(probes@)[n]).pkg == keys[j],
            decreases keys.len() - i,
        {
            let ghost before = probe_models(probes@);
            let pkg = self.alive_apps.key_at(i);
            let last_active: u64 = *self.alive_apps.value_at(i);
            let ghost name = pkg@;
            assert(name == keys[i as int]);
            let (lru_pos, recent): (usize, bool) = match self.lru_position(pkg.as_str()) {
                Some(pos) => (pos, pos < depth),
                None => (99, false),
            };
            let idle_sec: u64 = now_epoch.saturating_sub(last_active) / 1000;
            let wanted = !self.is_excluded(pkg.as_str()) && !recent && idle_sec >= limit;
            assert(wanted == self@.eligible(name, now_epoch, is_low_mem));
            if wanted {
                let pids = self.list_pids(pkg.as_str());
                probes.push(Probe { pkg: pkg.clone(), idle_sec, lru_pos, pids });
            }
            proof {
                let after = probe_models(probes@);
                assert forall|n: int| 0 <= n < before.len() implies #[trigger] after[n] == before[n] by {}
                assert(keys.take(i + 1) =~= keys.take(i as int).push(name));
                assert(!keys.take(i as int).contains(name)) by {
                    if keys.take(i as int).contains(name) {
                        let j = choose|j: int| 0 <= j < i && keys.take(i as int)[j] == name;
                        assert(keys[j] == keys[i as int]);
                    }
                }
                assert forall|n: int| 0 <= n < probes@.len() implies keys.take(i + 1).contains(
                    (#[trigger] after[n]).pkg,
                ) by {
                    if n < before.len() {
                        assert(after[n] == before[n]);
                        let j = choose|j: int|
                            0 <= j < i && keys.take(i as int)[j] == before[n].pkg;
                        assert(keys.take(i + 1)[j] == before[n].pkg);
                    } else {
                        assert(keys.take(i + 1)[i as int] == name);
                    }
                }
                assert forall|j: int|
                    0 <= j < i + 1 && self@.eligible(
                        #[trigger] keys[j],
                        now_epoch,
                        is_low_mem,
                    ) implies exists|n: int|
                    0 <= n < probes@.len() && (#[trigger] after[n]).pkg == keys[j] by {
                    if j < i {
                        let n = choose|n: int|
                            0 <= n < before.len() && (#[trigger] before[n]).pkg == keys[j];
                        assert(after[n].pkg == keys[j]);
                    } else {
                        assert(after[before.len() as int].pkg == keys[j]);
                    }
                }
            }
            i = i + 1;
        }
        proof {
            let all = probe_models(probes@);
            assert forall|pkg: Name| self@.eligible(pkg, now_epoch, is_low_mem) implies exists|n: int|
                0 <= n < all.len() && (#[trigger] all[n]).pkg == pkg by {
                assert(self.alive_apps@.dom().contains(pkg));
                assert(keys.contains(pkg)) by {
                    self.alive_apps.lemma_keys();
                }
                let j = choose|j: int| 0 <= j < keys.len() && keys[j] == pkg;
                assert(self@.eligible(keys[j], now_epoch, is_low_mem));
            }
        }
        probes
    }
}

// ---------------------------------------------------------------------------
// Victims
// ---------------------------------------------------------------------------
/// An app that may be evicted and whose processes are there.
pub struct Candidate {
    pub pkg: String,
    pub live_pids: Vec<u32>,
    pub total_rss_kb: u64,
    pub idle_sec: u64,
    pub lru_pos: usize,
}

/// What a [`Candidate`] says.
pub struct CandidateModel {
    pub pkg: Name,
    pub live_pids: Seq<u32>,
    pub total_rss_kb: u64,
    pub idle_sec: u64,
    pub lru_pos: usize,
}

impl View for Candidate {
    type V = CandidateModel;

    open spec fn view(&self) -> CandidateModel {
        CandidateModel {
            pkg: self.pkg@,
            live_pids: self.live_pids@,
            total_rss_kb: self.total_rss_kb,
            idle_sec: self.idle_sec,
            lru_pos: self.lru_pos,
        }
    }
}

/// What the candidates say.
pub open spec fn candidate_models(candidates: Seq<Candidate>) -> Seq<CandidateModel> {
    candidates.map_values(|c: Candidate| c@)
}

/// The reading at `i`; 0 where there is none. A process without resident memory is gone.
pub open spec fn reading(rss: Seq<u64>, i: int) -> u64 {
    if 0 <= i < rss.len() {
        rss[i]
    } else {
        0
    }
}

/// The readings at `i`; none where there are none.
pub open spec fn readings_at(readings: Seq<Vec<u64>>, i: int) -> Seq<u64> {
    if 0 <= i < readings.len() {
        readings[i]@
    } else {
        Seq::empty()
    }
}

/// The processes that are there, in order.
pub open spec fn live_pids(pids: Seq<u32>, rss: Seq<u64>) -> Seq<u32>
    decreases pids.len(),
{
    if pids.len() == 0 {
        Seq::empty()
    } else {
        let rest = live_pids(pids.drop_last(), rss);
        if reading(rss, pids.len() - 1) > 0 {
            rest.push(pids.last())
        } else {
            rest
        }
    }
}

/// The processes that are gone.
pub open spec fn dead_pids(pids: Seq<u32>, rss: Seq<u64>) -> Set<u32>
    decreases pids.len(),
{
    if pids.len() == 0 {
        Set::empty()
    } else {
        let rest = dead_pids(pids.drop_last(), rss);
        if reading(rss, pids.len() - 1) > 0 {
            rest
        } else {
            rest.insert(pids.last())
        }
    }
}

/// The resident memory of the processes together, as far as a `u64` reaches.
pub open spec fn total_rss(pids: Seq<u32>, rss: Seq<u64>) -> u64
    decreases pids.len(),
{
    if pids.len() == 0 {
        0
    } else {
        total_rss(pids.drop_last(), rss).saturating_add(reading(rss, pids.len() - 1))
    }
}

/// Whether an app is still there: it has a process with resident memory.
pub open spec fn survives(probe: ProbeModel, rss: Seq<u64>) -> bool {
    live_pids(probe.pids, rss).len() > 0 && total_rss(probe.pids, rss) > 0
}

/// The candidate that a probe and its readings give.
pub open spec fn candidate_of(probe: ProbeModel, rss: Seq<u64>) -> CandidateModel {
    CandidateModel {
        pkg: probe.pkg,
        live_pids: live_pids(probe.pids, rss),
        total_rss_kb: total_rss(probe.pids, rss),
        idle_sec: probe.idle_sec,
        lru_pos: probe.lru_pos,
    }
}

/// The candidates that the first `n` probes give, in the order of the probes.
pub open spec fn candidates_of(
    probes: Seq<ProbeModel>,
    readings: Seq<Vec<u64>>,
    n: nat,
) -> Seq<CandidateModel>
    decreases n,
{
    if n == 0 {
        Seq::empty()
    } else {
        let i = n - 1;
        let rest = candidates_of(probes, readings, i as nat);
        if survives(probes[i], readings_at(readings, i)) {
            rest.push(candidate_of(probes[i], readings_at(readings, i)))
        } else {
            rest
        }
    }
}

impl DaemonModel {
    /// The state after the processes of one app were looked at: those that are gone are forgotten, and
    /// so is an app without any.
    pub open spec fn after_probe(self, probe: ProbeModel, rss: Seq<u64>) -> DaemonModel {
        let owner = self.owner.remove_keys(dead_pids(probe.pids, rss));
        if !survives(probe, rss) {
            DaemonModel {
                owner,
                alive: self.alive.remove(probe.pkg),
                pids: self.pids.remove(probe.pkg),
                ..self
            }
        } else if self.pids.dom().contains(probe.pkg) {
            DaemonModel {
                owner,
                pids: self.pids.insert(
                    probe.pkg,
                    self.pids[probe.pkg].intersect(live_pids(probe.pids, rss).to_set()),
                ),
                ..self
            }
        } else {
            DaemonModel { owner, ..self }
        }
    }

    /// The state after the processes of the first `n` apps were looked at.
    pub open spec fn after_probes(
        self,
        probes: Seq<ProbeModel>,
        readings: Seq<Vec<u64>>,
        n: nat,
    ) -> DaemonModel
        decreases n,
    {
        if n == 0 {
            self
        } else {
            self.after_probes(probes, readings, (n - 1) as nat).after_probe(
                probes[n - 1],
                readings_at(readings, n - 1),
            )
        }
    }
}

/// Where a candidate belongs among others that are sorted by memory, the most first: behind those
/// with at least as much.
pub open spec fn rank(sorted: Seq<CandidateModel>, rss_kb: u64) -> int
    decreases sorted.len(),
{
    if sorted.len() == 0 || sorted[0].total_rss_kb < rss_kb {
        0
    } else {
        1 + rank(sorted.drop_first(), rss_kb)
    }
}

/// The candidates by memory, the most first; those with the same stay in order.
pub open spec fn by_memory(candidates: Seq<CandidateModel>) -> Seq<CandidateModel>
    decreases candidates.len(),
{
    if candidates.len() == 0 {
        Seq::empty()
    } else {
        let rest = by_memory(candidates.drop_last());
        let c = candidates.last();
        rest.insert(rank(rest, c.total_rss_kb), c)
    }
}

/// The heaviest of the candidates, `max` at most, the most memory first.
pub open spec fn heaviest(candidates: Seq<CandidateModel>, max: usize) -> Seq<CandidateModel> {
    let all = by_memory(candidates);
    if all.len() <= max {
        all
    } else {
        all.take(max as int)
    }
}

proof fn lemma_rank(sorted: Seq<CandidateModel>, rss_kb: u64, k: int)
    requires
        0 <= k <= sorted.len(),
        forall|i: int| 0 <= i < k ==> (#[trigger] sorted[i]).total_rss_kb >= rss_kb,
        k < sorted.len() ==> sorted[k].total_rss_kb < rss_kb,
    ensures
        rank(sorted, rss_kb) == k,
    decreases sorted.len(),
{
    if k > 0 {
        let rest = sorted.drop_first();
        assert forall|i: int| 0 <= i < k - 1 implies (#[trigger] rest[i]).total_rss_kb >= rss_kb by {
            assert(rest[i] == sorted[i + 1]);
        }
        assert(sorted[0].total_rss_kb >= rss_kb);
        lemma_rank(rest, rss_kb, k - 1);
    }
}

fn insert_by_memory(sorted: &mut Vec<Candidate>, c: Candidate)
    ensures
        candidate_models(final(sorted)@) == candidate_models(old(sorted)@).insert(
            rank(candidate_models(old(sorted)@), c.total_rss_kb),
            c@,
        ),
{
    let ghost before = candidate_models(sorted@);
    let mut k: usize = 0;
    while k < sorted.len() && sorted[k].total_rss_kb >= c.total_rss_kb
        invariant
            k <= sorted@.len(),
            before == candidate_models(sorted@),
            forall|i: int| 0 <= i < k ==> (#[trigger] before[i]).total_rss_kb >= c.total_rss_kb,
        decreases sorted@.len() - k,
    {
        assert(before[k as int] == sorted@[k as int]@);
        k = k + 1;
    }
    proof {
        if k < sorted@.len() {
            assert(before[k as int] == sorted@[k as int]@);
        }
        lemma_rank(before, c.total_rss_kb, k as int);
    }
    let ghost model = c@;
    sorted.insert(k, c);
    assert(candidate_models(sorted@) =~= before.insert(k as int, model));
}

impl DaemonState {
    /// Takes over what was read of the processes of one app. Returns the candidate, if the app is still
    /// there.
    fn reconcile(&mut self, probe: &Probe, rss: &Vec<u64>) -> (r: Option<Candidate>)
        requires
            old(self).wf(),
        ensures
            final(self).wf(),
            final(self)@ == old(self)@.after_probe(probe@, rss@),
            match r {
                Some(c) => survives(probe@, rss@) && c@ == candidate_of(probe@, rss@),
                None => !survives(probe@, rss@),
            },
    {
        let ghost m = self@;
        let mut live: Vec<u32> = Vec::new();
        let mut total: u64 = 0;
        let mut t: usize = 0;
        let ghost pids = probe.pids@;
        assert(pids.take(0) =~= Seq::<u32>::empty());
        assert(m.owner.remove_keys(Set::empty()) =~= m.owner);
        while t < probe.pids.len()
            invariant
                pids == probe.pids@,
                t <= pids.len(),
                self.wf(),
                live@ == live_pids(pids.take(t as int), rss@),
                total == total_rss(pids.take(t as int), rss@),
                self@ == (DaemonModel {
                    owner: m.owner.remove_keys(dead_pids(pids.take(t as int), rss@)),
                    ..m
                }),
            decreases pids.len() - t,
        {
            assert(pids.take(t + 1).drop_last() =~= pids.take(t as int));
            let pid: u32 = probe.pids[t];
            let kb: u64 = if t < rss.len() {
                rss[t]
            } else {
                0
            };
            total = total.saturating_add(kb);
            if kb > 0 {
                live.push(pid);
            } else {
                let ghost dead = dead_pids(pids.take(t as int), rss@);
                let ghost mid = self@;
                let _ = self.pid_to_pkg.remove(&pid);
                proof {
                    assert(self@.owner =~= mid.owner.remove(pid));
                    assert(self@.owner =~= m.owner.remove_keys(dead.insert(pid)));
                    assert(self@ =~= (DaemonModel {
                        owner: m.owner.remove_keys(dead_pids(pids.take(t + 1), rss@)),
                        ..m
                    }));
                }
            }
            t = t + 1;
        }
        assert(pids.take(pids.len() as int) =~= pids);
        if live.len() == 0 || total == 0 {
            let _ = self.alive_apps.remove(probe.pkg.as_str());
            let _ = self.pkg_to_pids.remove(probe.pkg.as_str());
            proof {
                assert(self@.pids =~= m.pids.remove(probe.pkg@));
                assert(self@ =~= m.after_probe(probe@, rss@));
            }
            return None;
        }
        if let Some(set) = self.pkg_to_pids.remove(probe.pkg.as_str()) {
            let mut kept: FastSet<u32> = FastSet::new();
            let mut i: usize = 0;
            assert(live@.take(0).to_set() =~= Set::<u32>::empty());
            assert(set@.intersect(Set::<u32>::empty()) =~= Set::<u32>::empty());
            while i < live.len()
                invariant
                    i <= live@.len(),
                    set.wf(),
                    kept.wf(),
                    kept@ == set@.intersect(live@.take(i as int).to_set()),
                decreases live@.len() - i,
            {
                let pid: u32 = live[i];
                let ghost some = live@.take(i as int);
                assert(live@.take(i + 1) =~= some.push(pid));
                proof {
                    assert forall|p: u32| some.push(pid).to_set().contains(p)
                        == some.to_set().insert(pid).contains(p) by {
                        if some.contains(p) {
                            let u = choose|u: int| 0 <= u < some.len() && some[u] == p;
                            assert(some.push(pid)[u] == p);
                        }
                        if p == pid {
                            assert(some.push(pid)[some.len() as int] == p);
                        }
                    }
                    assert(some.push(pid).to_set() =~= some.to_set().insert(pid));
                }
                if set.contains(&pid) {
                    let _ = kept.insert(pid);
                }
                assert(kept@ =~= set@.intersect(live@.take(i + 1).to_set()));
                i = i + 1;
            }
            assert(live@.take(live@.len() as int) =~= live@);
            let _ = self.pkg_to_pids.insert(probe.pkg.clone(), kept);
            proof {
                assert(self@.pids =~= m.pids.insert(
                    probe.pkg@,
                    m.pids[probe.pkg@].intersect(live@.to_set()),
                ));
            }
        } else {
            assert(self@.pids =~= m.pids);
        }
        assert(self@ =~= m.after_probe(probe@, rss@));
        Some(
            Candidate {
                pkg: probe.pkg.clone(),
                live_pids: live,
                total_rss_kb: total,
                idle_sec: probe.idle_sec,
                lru_pos: probe.lru_pos,
            },
        )
    }

    /// Takes over what was read of the processes of the probes: `readings` holds for each probe the
    /// resident memory of each of its processes, in kilobytes, and 0 for one that is gone. What is gone
    /// is forgotten. Returns the heaviest of the apps that are still there, the most memory first, and
    /// no more of them than one pass may evict.
    pub fn select_victims(&mut self, probes: &Vec<Probe>, readings: &Vec<Vec<u64>>) -> (victims: Vec<
        Candidate,
    >)
        requires
            old(self).wf(),
        ensures
            final(self).wf(),
            final(self)@ == old(self)@.after_probes(
                probe_models(probes@),
                readings@,
                probes@.len(),
            ),
            candidate_models(victims@) == heaviest(
                candidates_of(probe_models(probes@), readings@, probes@.len()),
                old(self)@.config.max_kills_per_pass,
            ),
    {
        let ghost m = self@;
        let ghost models = probe_models(probes@);
        let mut sorted: Vec<Candidate> = Vec::new();
        let none: Vec<u64> = Vec::new();
        let mut i: usize = 0;
        assert(candidate_models(sorted@) =~= Seq::<CandidateModel>::empty());
        while i < probes.len()
            invariant
                i <= probes@.len(),
                models == probe_models(probes@),
                self.wf(),
                none@ == Seq::<u64>::empty(),
                self@ == m.after_probes(models, readings@, i as nat),
                self@.config == m.config,
                candidate_models(sorted@) == by_memory(candidates_of(models, readings@, i as nat)),
            decreases probes@.len() - i,
        {
            let ghost so_far = candidates_of(models, readings@, i as nat);
            let rss = if i < readings.len() {
                &readings[i]
            } else {
                &none
            };
            assert(rss@ == readings_at(readings@, i as int));
            assert(models[i as int] == probes@[i as int]@);
            if let Some(c) = self.reconcile(&probes[i], rss) {
                assert(so_far.push(c@).drop_last() =~= so_far);
                insert_by_memory(&mut sorted, c);
            }
            i = i + 1;
        }
        let ghost all = candidate_models(sorted@);
        let max: usize = self.config.max_kills_per_pass;
        if sorted.len() > max {
            sorted.truncate(max);
            assert(candidate_models(sorted@) =~= all.take(max as int));
        }
        sorted
    }
}

// ---------------------------------------------------------------------------
// Verdicts
// ---------------------------------------------------------------------------
/// The score at `i`; 0 where it could not be read.
pub open spec fn score_at(scores: Seq<Option<i32>>, i: int) -> i32 {
    if 0 <= i < scores.len() && scores[i] is Some {
        scores[i]->0
    } else {
        0
    }
}

/// The least of the first `n` scores; 0 of none.
pub open spec fn least_score(scores: Seq<Option<i32>>, n: nat) -> i32
    decreases n,
{
    if n == 0 {
        0
    } else {
        let last = score_at(scores, n - 1);
        if n == 1 || last < least_score(scores, (n - 1) as nat) {
            last
        } else {
            least_score(scores, (n - 1) as nat)
        }
    }
}

/// What is decided of a victim.
#[derive(Debug, Clone, Copy, PartialEq, Eq, Structural)]
pub struct Verdict {
    /// The least score of its processes.
    pub oom_adj: i32,
    /// Whether the system would refuse to kill it.
    pub ams_protected: bool,
    /// Whether the kill command is to be run.
    pub kill: bool,
}

impl DaemonModel {
    /// What is decided of a victim whose processes have these scores.
    pub open spec fn verdict(self, victim: CandidateModel, scores: Seq<Option<i32>>) -> Verdict {
        let oom_adj = least_score(scores, victim.live_pids.len());
        let ams_protected = oom_adj < self.config.min_oom_score_adj;
        Verdict { oom_adj, ams_protected, kill: self.act_mode && !ams_protected }
    }

    /// Why apps are evicted in this pass.
    pub open spec fn reason(self, low_mem: bool) -> Reason {
        if self.game_in_front() {
            Reason::GameMode
        } else if low_mem {
            Reason::LowMemory
        } else {
            Reason::IdleExpired
        }
    }

    /// The record of a victim, where `started` says whether the kill command could be started, if it
    /// was to be.
    pub open spec fn kill_record(
        self,
        victim: CandidateModel,
        verdict: Verdict,
        started: bool,
        now: u64,
        low_mem: bool,
    ) -> KillModel {
        KillModel {
            ts: now,
            act_mode: self.act_mode,
            pkg: victim.pkg,
            pids: victim.live_pids,
            rss_kb: victim.total_rss_kb,
            reason: self.reason(low_mem),
            idle_sec: victim.idle_sec,
            lru_pos: victim.lru_pos,
            spawned: if self.act_mode {
                Some(verdict.kill && started)
            } else {
                None
            },
            oom_adj: verdict.oom_adj,
            ams_protected: verdict.ams_protected,
        }
    }

    /// The state after a victim was dealt with. One that the system protects starts to be idle anew;
    /// another is forgotten until it is started again.
    pub open spec fn after_victim(self, pkg: Name, ams_protected: bool, now: u64) -> DaemonModel {
        DaemonModel {
            alive: if !ams_protected {
                self.alive.remove(pkg)
            } else if self.alive.dom().contains(pkg) {
                self.alive.insert(pkg, now)
            } else {
                self.alive
            },
            ..self
        }
    }
}

impl DaemonState {
    /// Decides of a victim, where `scores` holds the `oom_score_adj` of each of its processes.
    pub fn judge(&self, victim: &Candidate, scores: &Vec<Option<i32>>) -> (verdict: Verdict)
        ensures
            verdict == self@.verdict(victim@, scores@),
    {
        let mut least: i32 = 0;
        let mut i: usize = 0;
        while i < victim.live_pids.len()
            invariant
                i <= victim.live_pids@.len(),
                least == least_score(scores@, i as nat),
            decreases victim.live_pids@.len() - i,
        {
            let mut score: i32 = 0;
            if i < scores.len() {
                if let Some(adj) = scores[i] {
                    score = adj;
                }
            }
            if i == 0 || score < least {
                least = score;
            }
            i = i + 1;
        }
        let ams_protected = least < self.config.min_oom_score_adj;
        Verdict { oom_adj: least, ams_protected, kill: self.act_mode && !ams_protected }
    }

    /// Records what was done with a victim and takes it over into the state. `started` says whether the
    /// kill command could be started, if it was to be.
    pub fn conclude(
        &mut self,
        victim: &Candidate,
        verdict: Verdict,
        started: bool,
        now_epoch: u64,
        is_low_mem: bool,
    ) -> (record: Record)
        requires
            old(self).wf(),
        ensures
            final(self).wf(),
            final(self)@ == old(self)@.after_victim(
                victim.pkg@,
                verdict.ams_protected,
                now_epoch,
            ),
            record@ == RecordModel::Kill(
                old(self)@.kill_record(victim@, verdict, started, now_epoch, is_low_mem),
            ),
    {
        let reason = if self.foreground_is_game() {
            Reason::GameMode
        } else if is_low_mem {
            Reason::LowMemory
        } else {
            Reason::IdleExpired
        };
        let mut pids: Vec<u32> = Vec::new();
        let mut i: usize = 0;
        while i < victim.live_pids.len()
            invariant
                i <= victim.live_pids@.len(),
                pids@ == victim.live_pids@.take(i as int),
            decreases victim.live_pids@.len() - i,
        {
            pids.push(victim.live_pids[i]);
            assert(victim.live_pids@.take(i + 1) =~= victim.live_pids@.take(i as int).push(
                victim.live_pids@[i as int],
            ));
            i = i + 1;
        }
        assert(pids@ =~= victim.live_pids@);
        let spawned = if self.act_mode {
            Some(verdict.kill && started)
        } else {
            None
        };
        let record = Record::Kill(
            KillRecord {
                ts: now_epoch,
                act_mode: self.act_mode,
                pkg: victim.pkg.clone(),
                pids,
                rss_kb: victim.total_rss_kb,
                reason,
                idle_sec: victim.idle_sec,
                lru_pos: victim.lru_pos,
                spawned,
                oom_adj: verdict.oom_adj,
                ams_protected: verdict.ams_protected,
            },
        );
        if verdict.ams_protected {
            if self.alive_apps.contains_key(victim.pkg.as_str()) {
                let _ = self.alive_apps.insert(victim.pkg.clone(), now_epoch);
            }
        } else {
            let _ = self.alive_apps.remove(victim.pkg.as_str());
        }
        assert(self@ =~= old(self)@.after_victim(victim.pkg@, verdict.ams_protected, now_epoch));
        record
    }
}

} // verus!
