//! Steps of the wall clock, and how the state follows them.
//!
//! The time of the daemon is that of the events. Where the clock is set, every stored time is moved
//! with it, so that what is measured from it stays the same.
use vstd::prelude::*;

use crate::daemon::{DaemonModel, DaemonState, RTC_SYNC_FLOOR_MS};
use crate::hasher::FastMap;
use crate::parser;
use crate::parser::LogcatEvent;

verus! {

/// `n`, which is less than 2^64 away from 0, as the `i64` with the same bits.
pub open spec fn wrapped(n: int) -> int {
    if n > i64::MAX {
        n - 0x1_0000_0000_0000_0000
    } else if n < i64::MIN {
        n + 0x1_0000_0000_0000_0000
    } else {
        n
    }
}

/// Whether the clock was set between two events: it went back, or it left the time before
/// [`RTC_SYNC_FLOOR_MS`]. Where the first time is 0, no clock was there to be set.
pub open spec fn clock_was_set(prev: u64, now: u64) -> bool {
    prev != 0 && (now < prev || (prev < RTC_SYNC_FLOOR_MS && now >= RTC_SYNC_FLOOR_MS))
}

/// By how much the clock was set between two events; 0 where time just passed.
pub open spec fn clock_jump(prev: u64, now: u64) -> int {
    if clock_was_set(prev, now) {
        wrapped(now - prev)
    } else {
        0
    }
}

/// `t` moved by `jump`, as far as a `u64` reaches.
pub open spec fn shifted(t: u64, jump: int) -> u64 {
    if t + jump < 0 {
        0
    } else if t + jump > u64::MAX {
        u64::MAX
    } else {
        (t + jump) as u64
    }
}

/// An optional time moved by `jump`.
pub open spec fn shifted_start(t: Option<u64>, jump: int) -> Option<u64> {
    match t {
        Some(t) => Some(shifted(t, jump)),
        None => None,
    }
}

/// Times moved by `jump`.
pub open spec fn shifted_map(times: Map<Seq<char>, u64>, jump: int) -> Map<Seq<char>, u64> {
    times.map_values(|t: u64| shifted(t, jump))
}

impl DaemonModel {
    /// The state with every stored time moved by `jump`.
    pub open spec fn after_jump(self, jump: int) -> DaemonModel {
        if jump == 0 {
            self
        } else {
            DaemonModel {
                alive: shifted_map(self.alive, jump),
                deaths: shifted_map(self.deaths, jump),
                screen_on_start: shifted_start(self.screen_on_start, jump),
                screen_off_start: shifted_start(self.screen_off_start, jump),
                game_session_start: shifted_start(self.game_session_start, jump),
                fg_since: shifted_start(self.fg_since, jump),
                session_start: shifted(self.session_start, jump),
                ..self
            }
        }
    }

    /// The state at the time of an event: the stored times follow the clock if it was set.
    pub open spec fn at(self, now: u64) -> DaemonModel {
        DaemonModel {
            last_event_epoch: now,
            ..self.after_jump(clock_jump(self.last_event_epoch, now))
        }
    }
}

/// `t` moved by `jump`, as far as a `u64` reaches.
pub fn shift_ms(t: u64, jump: i64) -> (r: u64)
    ensures
        r == shifted(t, jump as int),
{
    if jump >= 0 {
        t.saturating_add(jump as u64)
    } else {
        let back: u64 = (0 - jump as i128) as u64;
        t.saturating_sub(back)
    }
}

fn shift_start(t: Option<u64>, jump: i64) -> (r: Option<u64>)
    ensures
        r == shifted_start(t, jump as int),
{
    match t {
        Some(t) => Some(shift_ms(t, jump)),
        None => None,
    }
}

fn shift_times(times: &mut FastMap<String, u64>, jump: i64)
    requires
        old(times).wf(),
    ensures
        final(times).wf(),
        final(times)@ == shifted_map(old(times)@, jump as int),
{
    let ghost before = *times;
    let mut i: usize = 0;
    while i < times.len()
        invariant
            before == *old(times),
            before.wf(),
            times.wf(),
            times.keys() == before.keys(),
            i <= times.keys().len(),
            times@.dom() == before@.dom(),
            forall|j: int|
                0 <= j < i ==> times@[#[trigger] before.keys()[j]] == shifted(
                    before@[before.keys()[j]],
                    jump as int,
                ),
            forall|j: int|
                i <= j < before.keys().len() ==> times@[#[trigger] before.keys()[j]]
                    == before@[before.keys()[j]],
        decreases times.keys().len() - i,
    {
        proof {
            before.lemma_keys();
        }
        let t: u64 = *times.value_at(i);
        times.set_at(i, shift_ms(t, jump));
        proof {
            let k = before.keys()[i as int];
            assert(before@.dom().contains(k));
            assert(times@.dom() =~= before@.dom());
            assert forall|j: int| 0 <= j < before.keys().len() && j != i implies #[trigger] before.keys()[j]
                != k by {}
        }
        i = i + 1;
    }
    proof {
        before.lemma_keys();
        assert forall|k: Seq<char>| before@.dom().contains(k) implies times@[k] == shifted(
            before@[k],
            jump as int,
        ) by {
            assert(before.keys().contains(k));
            let j = choose|j: int| 0 <= j < before.keys().len() && before.keys()[j] == k;
            assert(times@[before.keys()[j]] == shifted(before@[before.keys()[j]], jump as int));
        }
        assert(times@ =~= shifted_map(before@, jump as int));
    }
}

impl DaemonState {
    /// By how much the clock was set between two events, in milliseconds; 0 where time just passed.
    ///
    /// A step forward from a clock that was right before cannot be told from a quiet time, which can
    /// be as long, and counts as one.
    pub fn clock_jump_ms(prev_epoch: u64, now_epoch: u64) -> (jump: i64)
        ensures
            jump == clock_jump(prev_epoch, now_epoch),
    {
        if prev_epoch == 0 {
            0
        } else if now_epoch < prev_epoch || (prev_epoch < RTC_SYNC_FLOOR_MS && now_epoch
            >= RTC_SYNC_FLOOR_MS) {
            let diff: i128 = now_epoch as i128 - prev_epoch as i128;
            if diff > i64::MAX as i128 {
                (diff - 0x1_0000_0000_0000_0000) as i64
            } else if diff < i64::MIN as i128 {
                (diff + 0x1_0000_0000_0000_0000) as i64
            } else {
                diff as i64
            }
        } else {
            0
        }
    }

    /// Moves every stored time by a step of the clock.
    pub fn apply_clock_jump(&mut self, jump_ms: i64)
        requires
            old(self).wf(),
        ensures
            final(self).wf(),
            final(self)@ == old(self)@.after_jump(jump_ms as int),
    {
        if jump_ms == 0 {
            return;
        }
        shift_times(&mut self.alive_apps, jump_ms);
        shift_times(&mut self.recent_deaths, jump_ms);
        self.screen_on_start = shift_start(self.screen_on_start, jump_ms);
        self.screen_off_start = shift_start(self.screen_off_start, jump_ms);
        self.game_session_start = shift_start(self.game_session_start, jump_ms);
        self.fg_since = shift_start(self.fg_since, jump_ms);
        self.session_start = shift_ms(self.session_start, jump_ms);
        assert(self@ =~= old(self)@.after_jump(jump_ms as int));
    }

    /// Reads an event and its time from a line of the log, and lets the stored times follow the clock
    /// if it was set since the event before. A line without an event changes nothing.
    pub fn dispatch_logcat_line<'a>(&mut self, line: &'a str) -> (r: Option<(u64, LogcatEvent<'a>)>)
        requires
            old(self).wf(),
        ensures
            final(self).wf(),
            match r {
                Some((now, ev)) => {
                    &&& parser::epoch_line(line@) == Some((now as nat, ev@))
                    &&& final(self)@ == old(self)@.at(now)
                },
                None => parser::epoch_line(line@) is None && final(self)@ == old(self)@,
            },
    {
        match parser::parse_epoch_line(line) {
            Some((now, ev)) => {
                let jump: i64 = Self::clock_jump_ms(self.last_event_epoch, now);
                self.apply_clock_jump(jump);
                self.last_event_epoch = now;
                assert(self@ =~= old(self)@.at(now));
                Some((now, ev))
            },
            None => None,
        }
    }
}

/// Time that just passes is never taken for a step of the clock, however long it is.
pub proof fn law_quiet_time_is_no_step(prev: u64, now: u64)
    requires
        prev <= now,
        prev >= RTC_SYNC_FLOOR_MS || now < RTC_SYNC_FLOOR_MS || prev == 0,
    ensures
        clock_jump(prev, now) == 0,
        forall|m: DaemonModel|
            m.last_event_epoch == prev ==> #[trigger] m.at(now) == (DaemonModel {
                last_event_epoch: now,
                ..m
            }),
{
}

/// Ages survive a step of the clock: what was so long ago at the event before the step is as long
/// ago at the event behind it. This leaves out the times that a `u64` cannot hold after the step.
pub proof fn law_ages_survive_steps(t: u64, prev: u64, now: u64)
    requires
        clock_was_set(prev, now),
        i64::MIN <= now - prev <= i64::MAX,
        0 <= t + (now - prev) <= u64::MAX,
    ensures
        crate::daemon::elapsed(now, shifted(t, clock_jump(prev, now))) == crate::daemon::elapsed(
            prev,
            t,
        ),
{
}

/// A step of the clock touches times alone: which apps are known, which run and what is counted
/// stays as it is.
pub proof fn law_steps_move_times_only(m: DaemonModel, now: u64)
    ensures
        ({
            let after = m.at(now);
            &&& after.alive.dom() == m.alive.dom()
            &&& after.deaths.dom() == m.deaths.dom()
            &&& after.owner == m.owner
            &&& after.pids == m.pids
            &&& after.uids == m.uids
            &&& after.lru == m.lru
            &&& after.current_fg == m.current_fg
            &&& after.config == m.config
            &&& after.stats == m.stats
            &&& after.user_exclusions == m.user_exclusions
            &&& after.dynamic_exclusions == m.dynamic_exclusions
            &&& after.games == m.games
            &&& after.screen_on == m.screen_on
            &&& after.is_gaming == m.is_gaming
            &&& after.intrusions == m.intrusions
            &&& after.act_mode == m.act_mode
        }),
{
    let after = m.at(now);
    assert(after.alive.dom() =~= m.alive.dom());
    assert(after.deaths.dom() =~= m.deaths.dom());
}

} // verus!
