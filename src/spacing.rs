//! The spacing property: over a window that offers `k` evenly spaced
//! breaks, an activity with a target of at most `k` is delivered exactly as
//! often as its target.
use vstd::arithmetic::div_mod::{lemma_fundamental_div_mod, lemma_fundamental_div_mod_converse};
use vstd::prelude::*;

use crate::planner::{
    completed, in_window, marked, materialized_all, outcome, rolled, succ_sat, window_end_at,
    window_start_at, Planner,
};
use crate::store::{count_of, materialized, StoreView};
use crate::time::{midnight_of, time_of, MAX_STAMP};
use crate::Activity;

verus! {

/// A planner with a single activity that needs no confirmation, a target of
/// at most `k`, full load, and a window of exactly `k` periods that opens on
/// the day starting at `day`, when the program started.
pub open spec fn evenly_spaced(p: Planner, day: int, k: int) -> bool {
    &&& p.activities@.len() == 1
    &&& !p.activities@[0].needs_confirm
    &&& p.activities@[0].count <= k
    &&& p.load == 1000
    &&& p.period matches Some(per) && per > 0
    &&& p.break_duration matches Some(b) && 0 < b < p.period.unwrap()
    &&& k >= 1
    &&& p.window.start + k * p.period.unwrap() == p.window.end
    &&& p.window.end < 86400
    &&& day >= 0 && day % 86400 == 0
    &&& day + 86400 <= MAX_STAMP
    &&& p.program_start == day + p.window.start
}

/// When break `i` of the window starts: one work duration into period `i`.
pub open spec fn break_at(p: Planner, day: int, i: int) -> int {
    day + p.window.start + i * p.period.unwrap() + (p.period.unwrap() - p.break_duration.unwrap())
}

/// The reminders delivered over the first `i` breaks, and the store after
/// them.
pub open spec fn run(p: Planner, v: StoreView, day: int, i: nat) -> (nat, StoreView)
    decreases i,
{
    if i == 0 {
        (0, v)
    } else {
        let prev = run(p, v, day, (i - 1) as nat);
        let next = outcome(p, prev.1, break_at(p, day, i - 1), false);
        (prev.0 + next.0.len(), next.1)
    }
}

/// A store that holds nothing from this window yet.
pub open spec fn fresh(p: Planner, v: StoreView, day: int) -> bool {
    &&& !v.last_at.contains_key(p.activities@[0].description@)
    &&& v.last_check < day + p.window.start
}

/// What holds after `i` breaks with `n` reminders delivered, with `sl`
/// breaks to spare.
spec fn progress(
    p: Planner,
    v: StoreView,
    day: int,
    k: int,
    sl: int,
    i: int,
    n: int,
    w: StoreView,
) -> bool {
    let d = p.activities@[0].description@;
    let target = p.activities@[0].count as int;
    &&& 0 <= n <= target
    &&& target - n <= k - i - sl
    &&& i == 0 ==> w == v && n == 0
    &&& i > 0 ==> {
        &&& count_of(w, d) == n
        &&& w.breaks == i
        &&& w.last_check == break_at(p, day, 0)
        &&& n == 0 ==> !w.last_at.contains_key(d)
        &&& n > 0 ==> w.last_at.contains_key(d) && exists|j: int|
            0 <= j < i && w.last_at[d] == break_at(p, day, j)
    }
}

proof fn lemma_tight(m: int, e: int, r: int)
    requires
        1 <= e <= m,
        m - e <= r,
    ensures
        m / (r + 1) <= e,
{
    lemma_fundamental_div_mod(m, r + 1);
    let q = m / (r + 1);
    assert(m == (r + 1) * q + m % (r + 1));
    assert(0 <= m % (r + 1));
    if q > e {
        assert((r + 1) * q >= (r + 1) * (e + 1)) by (nonlinear_arith)
            requires
                q >= e + 1,
                r + 1 > 0,
        ;
        assert((r + 1) * (e + 1) > m) by (nonlinear_arith)
            requires
                m - e <= r,
                1 <= e <= m,
        ;
    }
}

proof fn lemma_one_break(
    p: Planner,
    v: StoreView,
    day: int,
    k: int,
    sl: int,
    i: int,
    n: int,
    w: StoreView,
)
    requires
        evenly_spaced(p, day, k),
        fresh(p, v, day),
        0 <= sl <= 1,
        0 <= i < k - sl,
        progress(p, v, day, k, sl, i, n, w),
    ensures
        ({
            let next = outcome(p, w, break_at(p, day, i), false);
            progress(p, v, day, k, sl, i + 1, n + next.0.len(), next.1)
        }),
{
    let a = p.activities@[0];
    let d = a.description@;
    let target = a.count as int;
    let per = p.period.unwrap() as int;
    let b = p.break_duration.unwrap() as int;
    let wk = per - b;
    let s = p.window.start as int;
    let e = p.window.end as int;
    let t = break_at(p, day, i);
    // where the break falls in its day
    assert(s + i * per + wk < e && s + i * per + wk >= s) by (nonlinear_arith)
        requires
            0 <= i < k,
            s + k * per == e,
            e < 86400,
            0 < wk < per,
            s >= 0,
    ;
    lemma_fundamental_div_mod(day, 86400);
    assert(day % 86400 == 0);
    let q = day / 86400;
    assert(day == 86400 * q);
    lemma_fundamental_div_mod_converse(t, 86400, q, s + i * per + wk);
    assert(time_of(t) == s + i * per + wk);
    assert(midnight_of(t) == day);
    assert(s < e) by (nonlinear_arith)
        requires
            s + k * per == e,
            k >= 1,
            per > 0,
    ;
    assert(in_window(p.window, t));
    assert(window_start_at(p.window, t) == day + s);
    assert(window_end_at(p.window, t) == day + e);
    let r = rolled(p.window, w, t);
    if i == 0 {
        assert(r.counts == Map::<Seq<char>, usize>::empty());
        assert(r.breaks == 0);
    } else {
        assert(w.last_check >= day + s);
        assert(r == w);
    }
    assert(r.last_at == w.last_at || i == 0);
    assert(count_of(r, d) == n);
    assert(r.breaks == i);
    // the reference, as a period boundary `jj + 1` periods into the window
    let jj: int = if n == 0 {
        -1
    } else {
        choose|j: int| 0 <= j < i && w.last_at[d] == break_at(p, day, j)
    };
    assert(-1 <= jj < i);
    let last = if r.last_at.contains_key(d) {
        Some(r.last_at[d])
    } else {
        None::<i64>
    };
    if n == 0 {
        assert(!r.last_at.contains_key(d));
    } else {
        assert(r.last_at.contains_key(d));
        assert(r.last_at[d] == break_at(p, day, jj));
        assert(break_at(p, day, jj) + b == day + s + (jj + 1) * per) by (nonlinear_arith)
            requires
                break_at(p, day, jj) == day + s + jj * per + (per - b),
        ;
        assert(s + (jj + 1) * per <= e) by (nonlinear_arith)
            requires
                jj + 1 <= k,
                s + k * per == e,
                per > 0,
        ;
    }
    let reference = p.reference_instant(last, t);
    assert(reference == day + s + (jj + 1) * per);
    // slots left and the number of this break
    let m = k - jj - 1;
    let el_ = i - jj;
    assert(window_end_at(p.window, t) - reference == m * per) by (nonlinear_arith)
        requires
            window_end_at(p.window, t) == day + e,
            reference == day + s + (jj + 1) * per,
            s + k * per == e,
            m == k - jj - 1,
    ;
    assert(m * per >= 0) by (nonlinear_arith)
        requires
            m >= 0,
            per > 0,
    ;
    lemma_fundamental_div_mod_converse(m * per * 1000, 1000, m * per, 0);
    lemma_fundamental_div_mod_converse(m * per, per, m, 0);
    assert(p.future_breaks(reference, t) == m);
    assert(t - reference == (el_ - 1) * per + wk) by (nonlinear_arith)
        requires
            t == day + s + i * per + wk,
            reference == day + s + (jj + 1) * per,
            el_ == i - jj,
    ;
    assert((el_ - 1) * per + wk >= 0) by (nonlinear_arith)
        requires
            el_ >= 1,
            per > 0,
            wk > 0,
    ;
    lemma_fundamental_div_mod_converse(t - reference, per, el_ - 1, wk);
    assert(p.elapsed_breaks(reference, t) == el_);
    let first = r.breaks == 0;
    let dec = p.decide(a, count_of(r, d), last, t, first);
    assert(p.decide_in(r, a, t) == dec);
    if n < target && target - n == k - i - sl {
        // no slack left: this break must deliver
        let rem = target - n;
        assert(succ_sat(rem) == rem + 1);
        lemma_tight(m, el_, rem);
        if first {
            assert(i == 0 && jj == -1 && m == k);
            assert(m / 2 <= target);
        }
        assert(dec.0);
    }
    let acts = p.activities@;
    assert(acts.drop_last() =~= Seq::<Activity>::empty());
    assert(acts.last() == a);
    let due = p.due_among(r, t, acts);
    assert(due == if dec.0 {
        seq![a]
    } else {
        Seq::<Activity>::empty()
    }) by {
        assert(p.due_among(r, t, acts.drop_last()) == Seq::<Activity>::empty());
        if dec.0 {
            assert(Seq::<Activity>::empty().push(a) =~= seq![a]);
        }
    }
    let mm = materialized_all(r, acts);
    assert(mm == materialized(r, d)) by {
        assert(materialized_all(r, acts.drop_last()) == r);
    }
    assert(count_of(mm, d) == n);
    let counted = StoreView { breaks: succ_sat(mm.breaks as int) as usize, ..mm };
    let next = outcome(p, w, t, false);
    assert(next.0 == due);
    assert(next.1 == completed(counted, due, t));
    if dec.0 {
        assert(n < target);
        assert(due.drop_last() =~= Seq::<Activity>::empty());
        assert(completed(counted, due.drop_last(), t) == counted);
        assert(due.last() == a);
        assert(next.1 == marked(counted, d, t));
        assert(next.1.last_at[d] == break_at(p, day, i));
        assert(count_of(next.1, d) == n + 1);
    } else {
        assert(next.1 == counted);
        if n > 0 {
            let j = choose|j: int| 0 <= j < i && w.last_at[d] == break_at(p, day, j);
            assert(next.1.last_at[d] == break_at(p, day, j));
        }
    }
    assert(k < 86400) by (nonlinear_arith)
        requires
            s + k * per == e,
            e < 86400,
            per >= 1,
            s >= 0,
    ;
    assert(mm.breaks == i);
    assert(counted.breaks == i + 1);
    assert(next.1.breaks == i + 1);
    assert(next.1.last_check == break_at(p, day, 0));
}

proof fn lemma_progress(p: Planner, v: StoreView, day: int, k: int, sl: int, i: nat)
    requires
        evenly_spaced(p, day, k),
        fresh(p, v, day),
        0 <= sl <= 1,
        p.activities@[0].count <= k - sl,
        i <= k - sl,
    ensures
        progress(p, v, day, k, sl, i as int, run(p, v, day, i).0 as int, run(p, v, day, i).1),
    decreases i,
{
    if i > 0 {
        lemma_progress(p, v, day, k, sl, (i - 1) as nat);
        let prev = run(p, v, day, (i - 1) as nat);
        lemma_one_break(p, v, day, k, sl, i - 1, prev.0 as int, prev.1);
    }
}

/// Spacing: over a window of `k` periods with a break in each, a planner
/// started when the window opens, with one activity whose target is at
/// most `k`, delivers that activity exactly as often as its target, and its
/// count ends there.
pub proof fn lemma_target_met(p: Planner, v: StoreView, day: int, k: nat)
    requires
        evenly_spaced(p, day, k as int),
        fresh(p, v, day),
    ensures
        run(p, v, day, k).0 == p.activities@[0].count,
        count_of(run(p, v, day, k).1, p.activities@[0].description@) == p.activities@[0].count,
{
    lemma_progress(p, v, day, k as int, 0, k);
}

/// Not on the last break when an earlier one would do: with a target below
/// `k`, every reminder is delivered within the first `k - 1` breaks, so the
/// last break of the window brings none.
pub proof fn lemma_last_break_spared(p: Planner, v: StoreView, day: int, k: nat)
    requires
        evenly_spaced(p, day, k as int),
        fresh(p, v, day),
        p.activities@[0].count < k,
    ensures
        run(p, v, day, (k - 1) as nat).0 == p.activities@[0].count,
        run(p, v, day, k).0 == p.activities@[0].count,
        outcome(p, run(p, v, day, (k - 1) as nat).1, break_at(p, day, k - 1), false).0.len() == 0,
{
    lemma_progress(p, v, day, k as int, 1, (k - 1) as nat);
    lemma_progress(p, v, day, k as int, 0, k);
}

} // verus!
