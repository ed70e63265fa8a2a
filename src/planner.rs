//! The scheduling engine: on each break it decides which activities are
//! due, spacing each activity's remaining reminders evenly over the breaks
//! left in the window.
use std::ops::Range;

use vstd::prelude::*;

use crate::store::{count_of, materialized, Store, StoreView};
use crate::time::{midnight_of, time_of, valid_stamp, zoned_now, Clock, MAX_STAMP, SECS_PER_DAY};
use crate::Activity;

verus! {

/// Why the planner could not plan.
#[derive(Debug, Clone, Copy, PartialEq, Eq)]
pub enum PlanError {
    /// No work/break period is known yet, or it is zero.
    PeriodUnknown,
    /// The system clock reads a time before 1970, or one outside the range
    /// of civil datetimes.
    ClockBeforeEpoch,
}

pub struct Planner {
    /// share of the window the user is expected to be present, in thousandths
    pub load: u32,
    pub store: Store,
    pub activities: Vec<Activity>,
    /// the daily window, in seconds past midnight; `start >= end` wraps
    /// past midnight
    pub window: Range<u32>,
    /// work plus break duration, in seconds
    pub period: Option<u64>,
    /// in seconds
    pub break_duration: Option<u64>,
    pub program_start: i64,
    pub clock: Clock,
}

pub open spec fn abs(x: int) -> int {
    if x < 0 {
        -x
    } else {
        x
    }
}

/// Whether the time of day of `now` lies in the window: `[start, end)`, or
/// `[start, 24:00) ∪ [00:00, end)` for a window that wraps.
pub open spec fn in_window(w: Range<u32>, now: int) -> bool {
    let t = time_of(now);
    if w.start < w.end {
        w.start <= t < w.end
    } else {
        w.start <= t || t < w.end
    }
}

/// When the window that `now` falls in (or last opened before it) opened:
/// today at `start`, or yesterday if `start` is later in the day than `now`.
pub open spec fn window_start_at(w: Range<u32>, now: int) -> int {
    if w.start <= time_of(now) {
        midnight_of(now) + w.start
    } else {
        midnight_of(now) - 86400 + w.start
    }
}

/// When the window closes: today at `end`, or tomorrow if `end` is earlier
/// in the day than `now`.
pub open spec fn window_end_at(w: Range<u32>, now: int) -> int {
    if w.end >= time_of(now) {
        midnight_of(now) + w.end
    } else {
        midnight_of(now) + 86400 + w.end
    }
}

/// `n + 1`, stopping at `usize::MAX`.
pub open spec fn succ_sat(n: int) -> int {
    if n < usize::MAX {
        n + 1
    } else {
        usize::MAX as int
    }
}

impl Planner {
    pub open spec fn period_known(&self) -> bool {
        self.period matches Some(n) && n > 0
    }

    pub open spec fn wf(&self) -> bool {
        &&& self.store.wf()
        &&& self.window.start < 86400
        &&& self.window.end < 86400
        &&& self.load <= 1000
        &&& valid_stamp(self.program_start as int)
        &&& self.clock.wf()
    }

    /// Where planning for an activity starts: one break duration after it
    /// was last issued (or the program's start if it never was, or if that
    /// sum leaves the clock's range), but not before the window opened.
    pub open spec fn reference_instant(&self, last: Option<i64>, now: int) -> int {
        let base = match (last, self.break_duration) {
            (Some(l), Some(b)) if l + b <= MAX_STAMP => l + b,
            _ => self.program_start as int,
        };
        let ws = window_start_at(self.window, now);
        if base < ws {
            ws
        } else {
            base
        }
    }

    /// Break slots between `reference` and the window's end, discounted by
    /// the load.
    pub open spec fn future_breaks(&self, reference: int, now: int) -> int {
        (abs(window_end_at(self.window, now) - reference) * self.load / 1000) / (
        self.period.unwrap() as int)
    }

    /// The number of the break at `now`, counting from `reference`, from 1.
    pub open spec fn elapsed_breaks(&self, reference: int, now: int) -> int {
        abs(now - reference) / (self.period.unwrap() as int) + 1
    }

    /// For an activity done `done` times, last issued at `last`: whether it
    /// is due at `now`, and whether too few breaks are left to put it off.
    pub open spec fn decide(
        &self,
        a: Activity,
        done: usize,
        last: Option<i64>,
        now: int,
        first: bool,
    ) -> (bool, bool) {
        if done >= a.count {
            (false, false)
        } else {
            let rem = a.count - done;
            let reference = self.reference_instant(last, now);
            let fb = self.future_breaks(reference, now);
            let el = self.elapsed_breaks(reference, now);
            let after = if fb > el {
                fb - el
            } else {
                0
            };
            if first && fb / 2 > a.count {
                (false, false)
            } else if after == 2 && rem == 1 {
                (false, false)
            } else {
                (fb / succ_sat(rem) <= el, after < rem)
            }
        }
    }

    pub open spec fn decide_in(&self, v: StoreView, a: Activity, now: int) -> (bool, bool) {
        let d = a.description@;
        let last = if v.last_at.contains_key(d) {
            Some(v.last_at[d])
        } else {
            None
        };
        self.decide(a, count_of(v, d), last, now, v.breaks == 0)
    }

    /// The activities among `acts` that are due, in order.
    pub open spec fn due_among(&self, v: StoreView, now: int, acts: Seq<Activity>) -> Seq<
        Activity,
    >
        decreases acts.len(),
    {
        if acts.len() == 0 {
            Seq::empty()
        } else {
            let prev = self.due_among(v, now, acts.drop_last());
            if self.decide_in(v, acts.last(), now).0 {
                prev.push(acts.last())
            } else {
                prev
            }
        }
    }

    /// Whether some activity among `acts` cannot be put off.
    pub open spec fn any_urgent(&self, v: StoreView, now: int, acts: Seq<Activity>) -> bool {
        exists|i: int| 0 <= i < acts.len() && (#[trigger] self.decide_in(v, acts[i], now)).1
    }
}

/// `v` once the rollover check has run at `now`: a window that opened after
/// the last check starts a new epoch with no counts and no breaks.
pub open spec fn rolled(w: Range<u32>, v: StoreView, now: int) -> StoreView {
    if in_window(w, now) && window_start_at(w, now) > v.last_check {
        StoreView { counts: Map::empty(), breaks: 0, last_check: now as i64, ..v }
    } else {
        v
    }
}

/// `v` with a count (0) written for each of `acts` that had none.
pub open spec fn materialized_all(v: StoreView, acts: Seq<Activity>) -> StoreView
    decreases acts.len(),
{
    if acts.len() == 0 {
        v
    } else {
        materialized(materialized_all(v, acts.drop_last()), acts.last().description@)
    }
}

/// `v` once `d` was completed at `now`.
pub open spec fn marked(v: StoreView, d: Seq<char>, now: int) -> StoreView {
    StoreView {
        counts: v.counts.insert(d, succ_sat(count_of(v, d) as int) as usize),
        last_at: v.last_at.insert(d, now as i64),
        ..v
    }
}

/// `v` once each of `acts` that needs no confirmation was completed at `now`.
pub open spec fn completed(v: StoreView, acts: Seq<Activity>, now: int) -> StoreView
    decreases acts.len(),
{
    if acts.len() == 0 {
        v
    } else {
        let prev = completed(v, acts.drop_last(), now);
        if acts.last().needs_confirm {
            prev
        } else {
            marked(prev, acts.last().description@, now)
        }
    }
}

/// The activities that a break at `now` brings up, and the store after it.
pub open spec fn outcome(p: Planner, v: StoreView, now: int, skip: bool) -> (
    Seq<Activity>,
    StoreView,
) {
    let r = rolled(p.window, v, now);
    if !in_window(p.window, now) {
        (Seq::empty(), r)
    } else {
        let acts = p.activities@;
        let due = p.due_among(r, now, acts);
        let m = materialized_all(r, acts);
        let counted = StoreView { breaks: succ_sat(m.breaks as int) as usize, ..m };
        if skip && !p.any_urgent(r, now, acts) {
            (Seq::empty(), counted)
        } else {
            (due, completed(counted, due, now))
        }
    }
}


/// Everything but the store is the same in `a` and `b`.
pub open spec fn same_config(a: Planner, b: Planner) -> bool {
    &&& a.load == b.load
    &&& a.activities == b.activities
    &&& a.window == b.window
    &&& a.period == b.period
    &&& a.break_duration == b.break_duration
    &&& a.program_start == b.program_start
    &&& a.clock == b.clock
}

pub proof fn lemma_materialized_all(v: StoreView, acts: Seq<Activity>)
    ensures
        forall|d: Seq<char>| #[trigger]
            count_of(materialized_all(v, acts), d) == count_of(v, d),
        materialized_all(v, acts).last_at == v.last_at,
        materialized_all(v, acts).breaks == v.breaks,
        materialized_all(v, acts).last_check == v.last_check,
    decreases acts.len(),
{
    if acts.len() > 0 {
        let p = materialized_all(v, acts.drop_last());
        lemma_materialized_all(v, acts.drop_last());
        assert forall|d: Seq<char>| #[trigger]
            count_of(materialized_all(v, acts), d) == count_of(v, d) by {
            assert(count_of(p, d) == count_of(v, d));
            let e = acts.last().description@;
            if !p.counts.contains_key(e) {
                assert(materialized(p, e).counts == p.counts.insert(e, 0));
            }
        }
    }
}

impl Planner {
    /// Whether `now` lies in the window.
    fn enabled(&self, now: i64) -> (r: bool)
        requires
            self.wf(),
            valid_stamp(now as int),
        ensures
            r == in_window(self.window, now as int),
    {
        let t = crate::time::time_of_day(now);
        if self.window.start < self.window.end {
            self.window.start <= t && t < self.window.end
        } else {
            self.window.start <= t || t < self.window.end
        }
    }

    fn window_start(&self, now: i64) -> (r: i64)
        requires
            self.wf(),
            valid_stamp(now as int),
        ensures
            r == window_start_at(self.window, now as int),
            -86400 <= r <= now,
    {
        let t = crate::time::time_of_day(now);
        let midnight = now - t as i64;
        if self.window.start <= t {
            midnight + self.window.start as i64
        } else {
            midnight - SECS_PER_DAY + self.window.start as i64
        }
    }

    fn window_end(&self, now: i64) -> (r: i64)
        requires
            self.wf(),
            valid_stamp(now as int),
        ensures
            r == window_end_at(self.window, now as int),
            now <= r <= now + 2 * 86400,
    {
        let t = crate::time::time_of_day(now);
        let midnight = now - t as i64;
        if self.window.end >= t {
            midnight + self.window.end as i64
        } else {
            midnight + SECS_PER_DAY + self.window.end as i64
        }
    }

    fn reference(&self, last: Option<i64>, now: i64) -> (r: i64)
        requires
            self.wf(),
            valid_stamp(now as int),
        ensures
            r == self.reference_instant(last, now as int),
            -86400 <= r <= MAX_STAMP,
    {
        let mut base = self.program_start;
        if let Some(l) = last {
            if let Some(b) = self.break_duration {
                if (l as i128) + (b as i128) <= MAX_STAMP as i128 {
                    base = ((l as i128) + (b as i128)) as i64;
                }
            }
        }
        let ws = self.window_start(now);
        if base < ws {
            ws
        } else {
            base
        }
    }

    fn verdict(&self, a: &Activity, done: usize, last: Option<i64>, now: i64, first: bool) -> (r: (
        bool,
        bool,
    ))
        requires
            self.wf(),
            self.period_known(),
            valid_stamp(now as int),
        ensures
            r == self.decide(*a, done, last, now as int, first),
    {
        if done >= a.count {
            return (false, false);
        }
        let rem: usize = a.count - done;
        let reference = self.reference(last, now);
        let period: u64 = self.period.unwrap();
        let we = self.window_end(now);
        let span: u64 = if we >= reference {
            (we - reference) as u64
        } else {
            (reference - we) as u64
        };
        let load = self.load as u64;
        assert(span * load <= 300000000000 * 1000) by (nonlinear_arith)
            requires
                span <= 300000000000,
                load <= 1000,
        ;
        let fb: u64 = span * load / 1000 / period;
        let gap: u64 = if now >= reference {
            (now - reference) as u64
        } else {
            (reference - now) as u64
        };
        assert(gap / period <= gap) by (nonlinear_arith)
            requires
                period >= 1,
        ;
        let el: u64 = gap / period + 1;
        let after: u64 = if fb > el {
            fb - el
        } else {
            0
        };
        if first && fb / 2 > a.count as u64 {
            return (false, false);
        }
        if after == 2 && rem == 1 {
            return (false, false);
        }
        let spacing = fb / (rem.saturating_add(1) as u64);
        (spacing <= el, after < rem as u64)
    }
}

impl Planner {
    /// Marks `description` completed at `now`: its count goes up by one and
    /// `now` becomes its last issue time.
    fn complete_at(&mut self, description: &String, now: i64)
        requires
            old(self).wf(),
        ensures
            final(self).wf(),
            same_config(*final(self), *old(self)),
            final(self).store@ == marked(old(self).store@, description@, now as int),
    {
        let n = match self.store.get_count(description) {
            Some(c) => c.saturating_add(1),
            None => 1,
        };
        self.store.insert_count(description, n);
        self.store.insert_last_at(description, now);
    }

    /// The rollover check: when `now` lies in the window and the window
    /// opened after the last check, the counts and the break tally are
    /// cleared and `now` becomes the last check.
    fn init_store(&mut self, now: i64)
        requires
            old(self).wf(),
            valid_stamp(now as int),
        ensures
            final(self).wf(),
            same_config(*final(self), *old(self)),
            final(self).store@ == rolled(old(self).window, old(self).store@, now as int),
    {
        if self.enabled(now) && self.window_start(now) > self.store.last_check() {
            self.store.clear_counts();
            self.store.set_breaks(0);
            self.store.set_last_check(now);
        }
    }

    /// Plans the break at `now`: runs the rollover check, and if `now` lies
    /// in the window returns the activities that are due, marking those
    /// that need no confirmation as completed. When
    /// `should_skip_if_reasonable` is set and every activity can still be
    /// put off, nothing is returned and nothing is marked.
    pub fn reminder_at(&mut self, now: i64, should_skip_if_reasonable: bool) -> (r: Vec<Activity>)
        requires
            old(self).wf(),
            old(self).period_known(),
            valid_stamp(now as int),
        ensures
            final(self).wf(),
            same_config(*final(self), *old(self)),
            (r@, final(self).store@) == outcome(
                *old(self),
                old(self).store@,
                now as int,
                should_skip_if_reasonable,
            ),
    {
        self.init_store(now);
        if !self.enabled(now) {
            return Vec::new();
        }
        let ghost v = self.store@;
        let ghost acts = self.activities@;
        let first = self.store.breaks() == 0;
        let mut res: Vec<Activity> = Vec::new();
        let mut can_skip_all = true;
        let mut i: usize = 0;
        while i < self.activities.len()
            invariant
                self.wf(),
                self.period_known(),
                valid_stamp(now as int),
                same_config(*self, *old(self)),
                acts == self.activities@,
                first == (v.breaks == 0),
                i <= acts.len(),
                self.store@ == materialized_all(v, acts.take(i as int)),
                res@ == old(self).due_among(v, now as int, acts.take(i as int)),
                can_skip_all == !old(self).any_urgent(v, now as int, acts.take(i as int)),
            decreases acts.len() - i,
        {
            proof {
                lemma_materialized_all(v, acts.take(i as int));
                assert(acts.take(i + 1).drop_last() =~= acts.take(i as int));
            }
            let done = self.store.count_for(&self.activities[i].description);
            let last = self.store.get_last_at(&self.activities[i].description);
            let (due, urgent) = self.verdict(&self.activities[i], done, last, now, first);
            assert((due, urgent) == old(self).decide_in(v, acts[i as int], now as int));
            proof {
                let t = acts.take(i + 1);
                assert(t.last() == acts[i as int]);
                if urgent {
                    assert(t[i as int] == acts[i as int]);
                    assert(old(self).decide_in(v, t[i as int], now as int).1);
                }
                assert(old(self).any_urgent(v, now as int, t) == (old(self).any_urgent(
                    v,
                    now as int,
                    acts.take(i as int),
                ) || urgent)) by {
                    if old(self).any_urgent(v, now as int, acts.take(i as int)) {
                        let k = choose|k: int|
                            0 <= k < i && (#[trigger] old(self).decide_in(
                                v,
                                acts.take(i as int)[k],
                                now as int,
                            )).1;
                        assert(t[k] == acts.take(i as int)[k]);
                    }
                    if old(self).any_urgent(v, now as int, t) {
                        let k = choose|k: int|
                            0 <= k < i + 1 && (#[trigger] old(self).decide_in(
                                v,
                                t[k],
                                now as int,
                            )).1;
                        if k < i {
                            assert(t[k] == acts.take(i as int)[k]);
                        }
                    }
                }
            }
            if urgent {
                can_skip_all = false;
            }
            if due {
                res.push(self.activities[i].duplicate());
            }
            i = i + 1;
        }
        assert(acts.take(acts.len() as int) =~= acts);
        let b = self.store.breaks();
        proof {
            lemma_materialized_all(v, acts);
        }
        self.store.set_breaks(b.saturating_add(1));
        if can_skip_all && should_skip_if_reasonable {
            return Vec::new();
        }
        let ghost counted = self.store@;
        let mut j: usize = 0;
        while j < res.len()
            invariant
                self.wf(),
                same_config(*self, *old(self)),
                j <= res@.len(),
                self.store@ == completed(counted, res@.take(j as int), now as int),
            decreases res@.len() - j,
        {
            proof {
                assert(res@.take(j + 1).drop_last() =~= res@.take(j as int));
            }
            if !res[j].needs_confirm {
                self.complete_at(&res[j].description, now);
            }
            j = j + 1;
        }
        assert(res@.take(res@.len() as int) =~= res@);
        res
    }

    /// Plans the break happening now on the planner's clock; see
    /// `reminder_at`. Fails, changing nothing, when no period is known or
    /// the system clock cannot be read as a time from 1970 on.
    pub fn reminder(&mut self, should_skip_if_reasonable: bool) -> (r: Result<
        Vec<Activity>,
        PlanError,
    >)
        requires
            old(self).wf(),
        ensures
            final(self).wf(),
            same_config(*final(self), *old(self)),
            !old(self).period_known() ==> r == Err::<Vec<Activity>, PlanError>(
                PlanError::PeriodUnknown,
            ),
            r == Err::<Vec<Activity>, PlanError>(PlanError::PeriodUnknown) ==> !old(
                self,
            ).period_known(),
            r matches Err(_) ==> final(self).store@ == old(self).store@,
            r == Err::<Vec<Activity>, PlanError>(PlanError::ClockBeforeEpoch) ==> old(
                self,
            ).clock is Real,
            old(self).period_known() && old(self).clock is Mock ==> r is Ok,
            r matches Ok(list) ==> exists|now: int|
                valid_stamp(now) && (old(self).clock matches Clock::Mock(m) ==> now
                    == m.current) && (list@, final(self).store@) == outcome(
                    *old(self),
                    old(self).store@,
                    now,
                    should_skip_if_reasonable,
                ),
    {
        if !(match self.period {
            Some(n) => n > 0,
            None => false,
        }) {
            return Err(PlanError::PeriodUnknown);
        }
        match zoned_now(&self.clock) {
            Some(now) => Ok(self.reminder_at(now, should_skip_if_reasonable)),
            None => Err(PlanError::ClockBeforeEpoch),
        }
    }

    /// Marks `description` completed now on the planner's clock: its count
    /// goes up by one (stopping at `usize::MAX`) and the reading becomes its
    /// last issue time. Fails, changing nothing, when the system clock cannot
    /// be read as a time from 1970 on.
    pub fn mark_completed(&mut self, description: &String) -> (r: Result<(), PlanError>)
        requires
            old(self).wf(),
        ensures
            final(self).wf(),
            same_config(*final(self), *old(self)),
            r is Err ==> final(self).store@ == old(self).store@ && old(self).clock is Real,
            old(self).clock is Mock ==> r is Ok,
            r is Ok ==> exists|now: int|
                valid_stamp(now) && (old(self).clock matches Clock::Mock(m) ==> now
                    == m.current) && final(self).store@ == marked(
                    old(self).store@,
                    description@,
                    now,
                ),
    {
        match zoned_now(&self.clock) {
            Some(now) => {
                self.complete_at(description, now);
                Ok(())
            },
            None => Err(PlanError::ClockBeforeEpoch),
        }
    }
}

} // verus!
