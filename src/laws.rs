//! Properties of the planner that hold across calls and restarts, proved
//! over the model that `Planner::reminder_at` is verified against.
use vstd::prelude::*;

use crate::planner::{
    completed, in_window, lemma_materialized_all, materialized_all, outcome, rolled,
    succ_sat, window_start_at, Planner,
};
use crate::store::{count_of, StoreView};
use crate::time::{time_of, valid_stamp, MAX_STAMP};
use crate::Activity;

verus! {

/// Rollover: when the window is open at `now` and opened after the last
/// check, the break is planned from a fresh epoch: every count reads 0, the
/// break tally is 0 (so the first-break rule applies) and the last check
/// becomes `now`; the last issue times are kept. Whatever counts and break
/// tally the previous epoch left, the outcome is the same as from a store
/// with no counts and no breaks.
pub proof fn lemma_rollover_forgets_epoch(p: Planner, v: StoreView, now: int, skip: bool)
    requires
        in_window(p.window, now),
        window_start_at(p.window, now) > v.last_check,
    ensures
        rolled(p.window, v, now).counts == Map::<Seq<char>, usize>::empty(),
        forall|d: Seq<char>| #[trigger] count_of(rolled(p.window, v, now), d) == 0,
        rolled(p.window, v, now).breaks == 0,
        rolled(p.window, v, now).last_at == v.last_at,
        rolled(p.window, v, now).last_check == now as i64,
        outcome(p, v, now, skip) == outcome(
            p,
            StoreView { counts: Map::empty(), breaks: 0, ..v },
            now,
            skip,
        ),
{
    let fresh = StoreView { counts: Map::empty(), breaks: 0, ..v };
    assert(rolled(p.window, v, now) == rolled(p.window, fresh, now));
}

/// The rollover happens once per epoch: after the check at `now`, inside
/// the window, a check at any time whose window opened at the same instant
/// changes nothing.
pub proof fn lemma_rollover_once_per_epoch(p: Planner, v: StoreView, now: int, later: int)
    requires
        valid_stamp(now),
        p.window.start < 86400,
        in_window(p.window, now),
        window_start_at(p.window, later) == window_start_at(p.window, now),
    ensures
        rolled(p.window, rolled(p.window, v, now), later) == rolled(p.window, v, now),
{
    assert(0 <= time_of(now) < 86400);
    assert(window_start_at(p.window, now) <= now);
}

/// Two planners that differ at most in when the program started.
pub open spec fn same_but_start(a: Planner, b: Planner) -> bool {
    &&& a.load == b.load
    &&& a.activities@ == b.activities@
    &&& a.window == b.window
    &&& a.period == b.period
    &&& a.break_duration == b.break_duration
}

/// Every activity of `p` was issued before, at a time from which one more
/// break duration stays in the clock's range.
pub open spec fn all_issued(p: Planner, v: StoreView) -> bool {
    p.break_duration is Some && forall|i: int|
        0 <= i < p.activities@.len() ==> {
            let d = (#[trigger] p.activities@[i]).description@;
            v.last_at.contains_key(d) && v.last_at[d] + p.break_duration.unwrap() <= MAX_STAMP
        }
}

proof fn lemma_due_among_same(a: Planner, b: Planner, v: StoreView, now: int, acts: Seq<Activity>)
    requires
        forall|i: int|
            0 <= i < acts.len() ==> a.decide_in(v, acts[i], now) == b.decide_in(
                v,
                #[trigger] acts[i],
                now,
            ),
    ensures
        a.due_among(v, now, acts) == b.due_among(v, now, acts),
    decreases acts.len(),
{
    if acts.len() > 0 {
        let p = acts.drop_last();
        assert forall|i: int| 0 <= i < p.len() implies a.decide_in(v, p[i], now) == b.decide_in(
            v,
            #[trigger] p[i],
            now,
        ) by {
            assert(p[i] == acts[i]);
        }
        lemma_due_among_same(a, b, v, now, p);
        assert(acts.last() == acts[acts.len() - 1]);
    }
}

/// Recovery: a planner started afresh over a store whose activities were
/// all issued before plans every break exactly as the planner that ran
/// before it would have, whenever either of them was started.
pub proof fn lemma_restart_keeps_schedule(
    a: Planner,
    b: Planner,
    v: StoreView,
    now: int,
    skip: bool,
)
    requires
        same_but_start(a, b),
        all_issued(a, v),
    ensures
        outcome(a, v, now, skip) == outcome(b, v, now, skip),
{
    let r = rolled(a.window, v, now);
    let acts = a.activities@;
    assert(r.last_at == v.last_at);
    assert forall|i: int| 0 <= i < acts.len() implies a.decide_in(r, acts[i], now)
        == b.decide_in(r, #[trigger] acts[i], now) by {
        let d = acts[i].description@;
        assert(v.last_at.contains_key(d));
        let last = Some(r.last_at[d]);
        assert(a.reference_instant(last, now) == b.reference_instant(last, now));
    }
    lemma_due_among_same(a, b, r, now, acts);
    assert(a.any_urgent(r, now, acts) == b.any_urgent(r, now, acts)) by {
        if a.any_urgent(r, now, acts) {
            let i = choose|i: int| 0 <= i < acts.len() && (#[trigger] a.decide_in(r, acts[i], now)).1;
            assert(b.decide_in(r, acts[i], now).1);
        }
        if b.any_urgent(r, now, acts) {
            let i = choose|i: int| 0 <= i < acts.len() && (#[trigger] b.decide_in(r, acts[i], now)).1;
            assert(a.decide_in(r, acts[i], now).1);
        }
    }
    assert(b.activities@ == acts);
}

/// No two activities share a description.
pub open spec fn unique_descriptions(acts: Seq<Activity>) -> bool {
    forall|i: int, j: int|
        0 <= i < j < acts.len() ==> (#[trigger] acts[i]).description@ != (#[trigger] acts[j]).description@
}

/// Some activity among `acts` described `d` is due and needs no confirmation.
pub open spec fn auto_due(p: Planner, v: StoreView, now: int, acts: Seq<Activity>, d: Seq<char>) -> bool {
    exists|j: int|
        0 <= j < acts.len() && (#[trigger] acts[j]).description@ == d && p.decide_in(v, acts[j], now).0
            && !acts[j].needs_confirm
}

proof fn lemma_completed_counts(
    p: Planner,
    v: StoreView,
    c: StoreView,
    now: int,
    acts: Seq<Activity>,
    d: Seq<char>,
)
    requires
        unique_descriptions(acts),
    ensures
        count_of(completed(c, p.due_among(v, now, acts), now), d) == if auto_due(p, v, now, acts, d) {
            succ_sat(count_of(c, d) as int)
        } else {
            count_of(c, d) as int
        },
    decreases acts.len(),
{
    if acts.len() > 0 {
        let pre = acts.drop_last();
        let x = acts.last();
        assert(unique_descriptions(pre)) by {
            assert forall|i: int, j: int| 0 <= i < j < pre.len() implies (#[trigger] pre[i]).description@
                != (#[trigger] pre[j]).description@ by {
                assert(pre[i] == acts[i] && pre[j] == acts[j]);
            }
        }
        lemma_completed_counts(p, v, c, now, pre, d);
        let dp = p.due_among(v, now, pre);
        if p.decide_in(v, x, now).0 {
            assert(dp.push(x).drop_last() =~= dp);
        }
        if auto_due(p, v, now, pre, d) {
            let j = choose|j: int|
                0 <= j < pre.len() && (#[trigger] pre[j]).description@ == d && p.decide_in(
                    v,
                    pre[j],
                    now,
                ).0 && !pre[j].needs_confirm;
            assert(acts[j] == pre[j]);
            assert(auto_due(p, v, now, acts, d));
            assert(acts[j].description@ != acts[acts.len() - 1].description@);
        }
        if auto_due(p, v, now, acts, d) && !auto_due(p, v, now, pre, d) {
            let j = choose|j: int|
                0 <= j < acts.len() && (#[trigger] acts[j]).description@ == d && p.decide_in(
                    v,
                    acts[j],
                    now,
                ).0 && !acts[j].needs_confirm;
            if j < acts.len() - 1 {
                assert(pre[j] == acts[j]);
            }
            assert(j == acts.len() - 1);
        }
        if !auto_due(p, v, now, acts, d) && x.description@ == d && p.decide_in(v, x, now).0 {
            assert(acts[acts.len() - 1] == x);
            assert(x.needs_confirm);
        }
        if x.description@ == d && auto_due(p, v, now, pre, d) {
            let j = choose|j: int|
                0 <= j < pre.len() && (#[trigger] pre[j]).description@ == d && p.decide_in(
                    v,
                    pre[j],
                    now,
                ).0 && !pre[j].needs_confirm;
            assert(acts[j] == pre[j]);
            assert(acts[j].description@ != acts[acts.len() - 1].description@);
        }
    }
}

/// No more than the target: an activity whose count is within its target
/// before a break still is after it. A reminder is only ever counted while
/// at least one repetition remains, so over any run of breaks an activity
/// with target `N` is delivered at most `N` times per window.
pub proof fn lemma_counts_stay_within_targets(p: Planner, v: StoreView, now: int, skip: bool)
    requires
        unique_descriptions(p.activities@),
    ensures
        forall|i: int|
            0 <= i < p.activities@.len() && count_of(v, (#[trigger] p.activities@[i]).description@)
                <= p.activities@[i].count ==> count_of(
                outcome(p, v, now, skip).1,
                p.activities@[i].description@,
            ) <= p.activities@[i].count,
{
    let acts = p.activities@;
    let r = rolled(p.window, v, now);
    if in_window(p.window, now) {
        let m = materialized_all(r, acts);
        let counted = StoreView { breaks: succ_sat(m.breaks as int) as usize, ..m };
        lemma_materialized_all(r, acts);
        assert forall|i: int|
            0 <= i < acts.len() && count_of(v, (#[trigger] acts[i]).description@)
                <= acts[i].count implies count_of(
            outcome(p, v, now, skip).1,
            acts[i].description@,
        ) <= acts[i].count by {
            let d = acts[i].description@;
            assert(count_of(r, d) <= count_of(v, d));
            assert(count_of(counted, d) == count_of(m, d));
            lemma_completed_counts(p, r, counted, now, acts, d);
            if auto_due(p, r, now, acts, d) {
                let j = choose|j: int|
                    0 <= j < acts.len() && (#[trigger] acts[j]).description@ == d && p.decide_in(
                        r,
                        acts[j],
                        now,
                    ).0 && !acts[j].needs_confirm;
                if j != i {
                    if j < i {
                        assert(acts[j].description@ != acts[i].description@);
                    } else {
                        assert(acts[i].description@ != acts[j].description@);
                    }
                }
                assert(count_of(r, d) < acts[i].count);
            }
        }
    }
}

proof fn lemma_due_from(p: Planner, v: StoreView, now: int, acts: Seq<Activity>)
    ensures
        forall|k: int|
            0 <= k < p.due_among(v, now, acts).len() ==> acts.contains(
                #[trigger] p.due_among(v, now, acts)[k],
            ) && p.decide_in(v, p.due_among(v, now, acts)[k], now).0,
    decreases acts.len(),
{
    if acts.len() > 0 {
        let pre = acts.drop_last();
        lemma_due_from(p, v, now, pre);
        let dp = p.due_among(v, now, pre);
        let due = p.due_among(v, now, acts);
        let x = acts.last();
        assert(x == acts[acts.len() - 1]);
        assert forall|k: int| 0 <= k < due.len() implies acts.contains(#[trigger] due[k])
            && p.decide_in(v, due[k], now).0 by {
            if k < dp.len() {
                assert(due[k] == dp[k]);
                assert(pre.contains(dp[k]));
                let j = choose|j: int| 0 <= j < pre.len() && pre[j] == dp[k];
                assert(acts[j] == pre[j]);
            } else {
                assert(due[k] == x);
            }
        }
    }
}

/// Done for this window: an activity whose count has reached its target
/// (once the rollover check has run) is not brought up, and its count
/// stays where it is, also where it lies above a target that was lowered.
pub proof fn lemma_done_activity_untouched(p: Planner, v: StoreView, now: int, skip: bool, i: int)
    requires
        unique_descriptions(p.activities@),
        0 <= i < p.activities@.len(),
        count_of(rolled(p.window, v, now), p.activities@[i].description@) >= p.activities@[i].count,
    ensures
        forall|k: int|
            0 <= k < outcome(p, v, now, skip).0.len() ==> (#[trigger] outcome(
                p,
                v,
                now,
                skip,
            ).0[k]).description@ != p.activities@[i].description@,
        count_of(outcome(p, v, now, skip).1, p.activities@[i].description@) == count_of(
            rolled(p.window, v, now),
            p.activities@[i].description@,
        ),
{
    let acts = p.activities@;
    let d = acts[i].description@;
    let r = rolled(p.window, v, now);
    if in_window(p.window, now) {
        let m = materialized_all(r, acts);
        let counted = StoreView { breaks: succ_sat(m.breaks as int) as usize, ..m };
        lemma_materialized_all(r, acts);
        lemma_due_from(p, r, now, acts);
        let due = p.due_among(r, now, acts);
        assert(!p.decide_in(r, acts[i], now).0);
        assert forall|k: int| 0 <= k < due.len() implies (#[trigger] due[k]).description@ != d by {
            assert(acts.contains(due[k]) && p.decide_in(r, due[k], now).0);
            let j = choose|j: int| 0 <= j < acts.len() && acts[j] == due[k];
            if j < i {
                assert(acts[j].description@ != acts[i].description@);
            } else if j > i {
                assert(acts[i].description@ != acts[j].description@);
            }
        }
        assert(count_of(m, d) == count_of(r, d));
        assert(count_of(counted, d) == count_of(r, d));
        lemma_completed_counts(p, r, counted, now, acts, d);
        if auto_due(p, r, now, acts, d) {
            let j = choose|j: int|
                0 <= j < acts.len() && (#[trigger] acts[j]).description@ == d && p.decide_in(
                    r,
                    acts[j],
                    now,
                ).0 && !acts[j].needs_confirm;
            if j < i {
                assert(acts[j].description@ != acts[i].description@);
            } else if j > i {
                assert(acts[i].description@ != acts[j].description@);
            }
        }
    }
}

} // verus!
