//! The decisions around the planner while the program runs: which
//! reminders are on screen, when the reminder window opens and closes, and
//! the confirmation of reminders that need one, which only counts once a
//! short dwell has passed since the user's click.
use std::ops::Range;

use vstd::prelude::*;

use crate::planner::{outcome, marked, same_config, Planner};
use crate::store::Store;
use crate::text::{contains_seq, str_contains};
use crate::time::{valid_stamp, zoned_now, Clock};
use crate::{Activity, PlanError};

verus! {

/// How long a confirmation must stand before it counts, in milliseconds.
pub const CONFIRM_DWELL_MS: u64 = 300;

/// The lower-case form of `s`, as std gives it.
pub uninterp spec fn lower_of(s: Seq<char>) -> Seq<char>;

/// Relies on str::to_lowercase: the lower-case form of `s`, which depends on
/// its characters alone.
#[verifier::external_body]
fn lowercase(s: &str) -> (r: String)
    ensures
        r@ == lower_of(s@),
{
    s.to_lowercase()
}

/// Some title among `titles` holds some pattern among `patterns`.
pub open spec fn any_holds(titles: Seq<Seq<char>>, patterns: Seq<Seq<char>>) -> bool {
    exists|i: int, j: int|
        0 <= i < titles.len() && 0 <= j < patterns.len() && contains_seq(
            #[trigger] titles[i],
            #[trigger] patterns[j],
        )
}

pub open spec fn texts(v: Seq<String>) -> Seq<Seq<char>> {
    v.map_values(|s: String| s@)
}

pub open spec fn lowered(v: Seq<String>) -> Seq<Seq<char>> {
    v.map_values(|s: String| lower_of(s@))
}

/// Whether some title holds some pattern, both taken as they are.
pub fn any_title_holds(titles: &Vec<String>, patterns: &Vec<String>) -> (r: bool)
    ensures
        r == any_holds(texts(titles@), texts(patterns@)),
{
    let mut i: usize = 0;
    while i < titles.len()
        invariant
            i <= titles@.len(),
            forall|a: int, b: int|
                0 <= a < i && 0 <= b < patterns@.len() ==> !contains_seq(
                    titles@[a]@,
                    patterns@[b]@,
                ),
        decreases titles@.len() - i,
    {
        let mut j: usize = 0;
        while j < patterns.len()
            invariant
                i < titles@.len(),
                j <= patterns@.len(),
                forall|a: int, b: int|
                    0 <= a < i && 0 <= b < patterns@.len() ==> !contains_seq(
                        titles@[a]@,
                        patterns@[b]@,
                    ),
                forall|b: int| 0 <= b < j ==> !contains_seq(titles@[i as int]@, patterns@[b]@),
            decreases patterns@.len() - j,
        {
            if str_contains(titles[i].as_str(), patterns[j].as_str()) {
                assert(texts(titles@)[i as int] == titles@[i as int]@);
                assert(texts(patterns@)[j as int] == patterns@[j as int]@);
                return true;
            }
            j = j + 1;
        }
        i = i + 1;
    }
    assert forall|a: int, b: int|
        0 <= a < texts(titles@).len() && 0 <= b < texts(patterns@).len() implies !contains_seq(
        #[trigger] texts(titles@)[a],
        #[trigger] texts(patterns@)[b],
    ) by {
        assert(texts(titles@)[a] == titles@[a]@);
        assert(texts(patterns@)[b] == patterns@[b]@);
    }
    false
}

fn lower_all(v: &Vec<String>) -> (r: Vec<String>)
    ensures
        texts(r@) == lowered(v@),
{
    let mut r: Vec<String> = Vec::new();
    let mut i: usize = 0;
    while i < v.len()
        invariant
            i <= v@.len(),
            r@.len() == i,
            forall|k: int| 0 <= k < i ==> r@[k]@ == lower_of(v@[k]@),
        decreases v@.len() - i,
    {
        r.push(lowercase(v[i].as_str()));
        i = i + 1;
    }
    assert(texts(r@) =~= lowered(v@));
    r
}

/// Whether a reminder may be put off: some visible window's title holds
/// the title of an app that blocks activities, ignoring case.
pub fn should_skip(visible: &Vec<String>, blocking: &Vec<String>) -> (r: bool)
    ensures
        r == any_holds(lowered(visible@), lowered(blocking@)),
{
    any_title_holds(&lower_all(visible), &lower_all(blocking))
}

/// A reminder on screen. `checkbox` is `None` for one that needs no
/// confirmation, else whether the user has confirmed it.
#[derive(Debug, Clone, PartialEq, Eq)]
pub struct DisplayedActivity {
    pub description: String,
    pub checkbox: Option<bool>,
}

/// How a planned activity is shown.
pub open spec fn shown(a: Activity) -> DisplayedActivity {
    DisplayedActivity {
        description: a.description,
        checkbox: if a.needs_confirm {
            Some(false)
        } else {
            None
        },
    }
}

/// What the caller is to do once a message was handled.
#[derive(Debug, Clone, Copy, PartialEq, Eq)]
pub enum Action {
    Nothing,
    OpenWindow,
    CloseWindow,
    /// Hand the same message back after this many milliseconds.
    ResendLater { delay_ms: u64 },
}

/// The reminders shown on screen, and the planner behind them.
pub struct Session {
    pub planner: Planner,
    pub window_open: bool,
    pub active_reminders: Vec<DisplayedActivity>,
    pub skip_when_visible: Vec<String>,
}

/// The confirmed reminders among `v`, in order: those still waiting for
/// their dwell.
pub open spec fn confirmed_only(v: Seq<DisplayedActivity>) -> Seq<DisplayedActivity>
    decreases v.len(),
{
    if v.len() == 0 {
        v
    } else if v.last().checkbox == Some(true) {
        confirmed_only(v.drop_last()).push(v.last())
    } else {
        confirmed_only(v.drop_last())
    }
}

/// `p` is the first place in `v` that shows `d`.
pub open spec fn is_first_shown(v: Seq<DisplayedActivity>, d: Seq<char>, p: int) -> bool {
    0 <= p < v.len() && v[p].description@ == d && forall|k: int|
        0 <= k < p ==> (#[trigger] v[k]).description@ != d
}

/// The part of the dwell still to wait at `now` for a confirmation given
/// at `at`, in milliseconds.
pub open spec fn dwell_left(at: int, now: int) -> int {
    let elapsed = if now > at {
        now - at
    } else {
        0
    };
    if elapsed >= CONFIRM_DWELL_MS {
        0
    } else {
        CONFIRM_DWELL_MS - elapsed
    }
}

impl Session {
    pub open spec fn wf(&self) -> bool {
        self.planner.wf()
    }

    /// A session over `store`, with no period known yet, planning from the
    /// clock's present reading. `None` when the system clock cannot be read
    /// as a time from 1970 on.
    pub fn new(
        activity: Vec<Activity>,
        window: Range<u32>,
        load: u32,
        skip_when_visible: Vec<String>,
        store: Store,
        clock: Clock,
    ) -> (r: Option<Session>)
        requires
            store.wf(),
            clock.wf(),
            window.start < 86400,
            window.end < 86400,
            load <= 1000,
        ensures
            clock is Mock ==> r is Some,
            r matches Some(s) ==> s.wf() && !s.window_open && s.active_reminders@.len() == 0
                && s.skip_when_visible == skip_when_visible && s.planner.activities == activity
                && s.planner.window == window && s.planner.load == load && s.planner.period
                is None && s.planner.break_duration is None && s.planner.store == store
                && s.planner.clock == clock && (clock matches Clock::Mock(m) ==> s.planner.program_start
                == m.current),
    {
        match zoned_now(&clock) {
            Some(now) => Some(
                Session {
                    planner: Planner {
                        load,
                        store,
                        activities: activity,
                        window,
                        period: None,
                        break_duration: None,
                        program_start: now,
                        clock,
                    },
                    window_open: false,
                    active_reminders: Vec::new(),
                    skip_when_visible,
                },
            ),
            None => None,
        }
    }

    /// Takes the break timer's durations (seconds): the period is their
    /// sum, stopping at `u64::MAX`.
    pub fn set_parameters(&mut self, break_duration: u64, work_duration: u64)
        requires
            old(self).wf(),
        ensures
            final(self).wf(),
            final(self).planner.period == Some(
                (if break_duration + work_duration <= u64::MAX {
                    break_duration + work_duration
                } else {
                    u64::MAX as int
                }) as u64,
            ),
            final(self).planner.break_duration == Some(break_duration),
            final(self).planner.store == old(self).planner.store,
            final(self).planner.activities == old(self).planner.activities,
            final(self).planner.clock == old(self).planner.clock,
            final(self).planner.program_start == old(self).planner.program_start,
            final(self).active_reminders == old(self).active_reminders,
            final(self).window_open == old(self).window_open,
            final(self).skip_when_visible == old(self).skip_when_visible,
    {
        self.planner.period = Some(break_duration.saturating_add(work_duration));
        self.planner.break_duration = Some(break_duration);
    }

    /// Puts `list` on screen, opening the window when it is not empty.
    fn show(&mut self, list: Vec<Activity>) -> (r: Action)
        ensures
            final(self).planner == old(self).planner,
            final(self).skip_when_visible == old(self).skip_when_visible,
            final(self).active_reminders@ == list@.map_values(|a: Activity| shown(a)),
            final(self).window_open == (old(self).window_open || list@.len() > 0),
            r == if list@.len() == 0 {
                Action::Nothing
            } else {
                Action::OpenWindow
            },
    {
        let mut shown_now: Vec<DisplayedActivity> = Vec::new();
        let mut i: usize = 0;
        while i < list.len()
            invariant
                i <= list@.len(),
                shown_now@ =~= list@.take(i as int).map_values(|a: Activity| shown(a)),
            decreases list@.len() - i,
        {
            let checkbox = if list[i].needs_confirm {
                Some(false)
            } else {
                None
            };
            shown_now.push(DisplayedActivity { description: list[i].description.clone(), checkbox });
            assert(list@.take(i + 1).map_values(|a: Activity| shown(a)) =~= list@.take(
                i as int,
            ).map_values(|a: Activity| shown(a)).push(shown(list@[i as int])));
            i = i + 1;
        }
        assert(list@.take(list@.len() as int) =~= list@);
        self.active_reminders = shown_now;
        if list.len() == 0 {
            Action::Nothing
        } else {
            self.window_open = true;
            Action::OpenWindow
        }
    }

    /// A break started: unless the window is already open, plans the break,
    /// putting it off where a blocking app is visible and every activity
    /// can wait, and shows what is due.
    pub fn break_started(&mut self, visible: &Vec<String>) -> (r: Result<Action, PlanError>)
        requires
            old(self).wf(),
        ensures
            final(self).wf(),
            same_config(final(self).planner, old(self).planner),
            final(self).skip_when_visible == old(self).skip_when_visible,
            old(self).window_open ==> r == Ok::<Action, PlanError>(Action::Nothing) && *final(self)
                == *old(self),
            !old(self).window_open && !old(self).planner.period_known() ==> r == Err::<
                Action,
                PlanError,
            >(PlanError::PeriodUnknown),
            r == Err::<Action, PlanError>(PlanError::PeriodUnknown) ==> !old(
                self,
            ).planner.period_known(),
            r == Err::<Action, PlanError>(PlanError::ClockBeforeEpoch) ==> old(
                self,
            ).planner.clock is Real,
            !old(self).window_open && old(self).planner.period_known() && old(
                self,
            ).planner.clock is Mock ==> r is Ok,
            r is Err ==> final(self).planner.store@ == old(self).planner.store@
                && final(self).active_reminders == old(self).active_reminders
                && final(self).window_open == old(self).window_open,
            !old(self).window_open && r is Ok ==> exists|now: int|
                valid_stamp(now) && (old(self).planner.clock matches Clock::Mock(m) ==> now
                    == m.current) && ({
                    let (list, st) = outcome(
                        old(self).planner,
                        old(self).planner.store@,
                        now,
                        any_holds(lowered(visible@), lowered(old(self).skip_when_visible@)),
                    );
                    &&& final(self).planner.store@ == st
                    &&& final(self).active_reminders@ == list.map_values(|a: Activity| shown(a))
                    &&& final(self).window_open == (list.len() > 0)
                    &&& r == Ok::<Action, PlanError>(
                        if list.len() == 0 {
                            Action::Nothing
                        } else {
                            Action::OpenWindow
                        },
                    )
                }),
    {
        if self.window_open {
            return Ok(Action::Nothing);
        }
        let skip = should_skip(visible, &self.skip_when_visible);
        match self.planner.reminder(skip) {
            Ok(list) => Ok(self.show(list)),
            Err(e) => Err(e),
        }
    }

    /// A break ended: reminders not yet confirmed leave the screen, and the
    /// window closes when none is left.
    pub fn break_ended(&mut self) -> (r: Action)
        requires
            old(self).wf(),
        ensures
            final(self).wf(),
            final(self).planner == old(self).planner,
            final(self).skip_when_visible == old(self).skip_when_visible,
            final(self).active_reminders@ == confirmed_only(old(self).active_reminders@),
            old(self).window_open && confirmed_only(old(self).active_reminders@).len() == 0 ==> r
                == Action::CloseWindow && !final(self).window_open,
            !(old(self).window_open && confirmed_only(old(self).active_reminders@).len() == 0)
                ==> r == Action::Nothing && final(self).window_open == old(self).window_open,
    {
        let mut kept: Vec<DisplayedActivity> = Vec::new();
        let mut i: usize = 0;
        let ghost v = self.active_reminders@;
        while i < self.active_reminders.len()
            invariant
                v == self.active_reminders@,
                i <= v.len(),
                kept@ == confirmed_only(v.take(i as int)),
            decreases v.len() - i,
        {
            assert(v.take(i + 1).drop_last() =~= v.take(i as int));
            if self.active_reminders[i].checkbox == Some(true) {
                kept.push(
                    DisplayedActivity {
                        description: self.active_reminders[i].description.clone(),
                        checkbox: Some(true),
                    },
                );
            }
            i = i + 1;
        }
        assert(v.take(v.len() as int) =~= v);
        self.active_reminders = kept;
        if self.window_open && self.active_reminders.len() == 0 {
            self.window_open = false;
            Action::CloseWindow
        } else {
            Action::Nothing
        }
    }

    fn position_of(&self, description: &String) -> (r: Option<usize>)
        ensures
            match r {
                Some(p) => is_first_shown(self.active_reminders@, description@, p as int),
                None => forall|k: int|
                    0 <= k < self.active_reminders@.len() ==> (
                    #[trigger] self.active_reminders@[k]).description@ != description@,
            },
    {
        let mut i: usize = 0;
        while i < self.active_reminders.len()
            invariant
                i <= self.active_reminders@.len(),
                forall|k: int|
                    0 <= k < i ==> (#[trigger] self.active_reminders@[k]).description@
                        != description@,
            decreases self.active_reminders@.len() - i,
        {
            if self.active_reminders[i].description == *description {
                return Some(i);
            }
            i = i + 1;
        }
        None
    }

    /// The user confirmed `activity` at `at` (milliseconds of a monotonic
    /// clock that reads `now` at this call). The reminder is ticked; once
    /// the dwell has passed it leaves the screen and is marked completed,
    /// else the caller is to hand the confirmation back when it has.
    pub fn confirmed(&mut self, activity: &String, at: u64, now: u64) -> (r: Result<
        Action,
        PlanError,
    >)
        requires
            old(self).wf(),
        ensures
            final(self).wf(),
            same_config(final(self).planner, old(self).planner),
            final(self).skip_when_visible == old(self).skip_when_visible,
            (forall|k: int|
                0 <= k < old(self).active_reminders@.len() ==> (#[trigger] old(
                    self,
                ).active_reminders@[k]).description@ != activity@) ==> r == Ok::<
                Action,
                PlanError,
            >(Action::Nothing) && *final(self) == *old(self),
            forall|p: int|
                #![trigger is_first_shown(old(self).active_reminders@, activity@, p)]
                is_first_shown(old(self).active_reminders@, activity@, p) ==> {
                    let ticked = old(self).active_reminders@.update(
                        p,
                        DisplayedActivity {
                            description: old(self).active_reminders@[p].description,
                            checkbox: Some(true),
                        },
                    );
                    let left = ticked.update(p, ticked.last()).drop_last();
                    if dwell_left(at as int, now as int) > 0 {
                        &&& r == Ok::<Action, PlanError>(
                            Action::ResendLater { delay_ms: dwell_left(at as int, now as int) as u64 },
                        )
                        &&& final(self).active_reminders@ == ticked
                        &&& final(self).planner == old(self).planner
                        &&& final(self).window_open == old(self).window_open
                    } else {
                        &&& final(self).active_reminders@ == left
                        &&& r is Err ==> final(self).planner.store@ == old(self).planner.store@
                            && old(self).planner.clock is Real
                        &&& old(self).planner.clock is Mock ==> r is Ok
                        &&& r is Ok ==> exists|t: int|
                            valid_stamp(t) && (old(self).planner.clock matches Clock::Mock(m)
                                ==> t == m.current) && final(self).planner.store@ == marked(
                                old(self).planner.store@,
                                activity@,
                                t,
                            )
                        &&& r is Ok ==> if old(self).window_open && left.len() == 0 {
                            r == Ok::<Action, PlanError>(Action::CloseWindow)
                                && !final(self).window_open
                        } else {
                            r == Ok::<Action, PlanError>(Action::Nothing)
                                && final(self).window_open == old(self).window_open
                        }
                    }
                },
    {
        let p = match self.position_of(activity) {
            Some(p) => p,
            None => {
                return Ok(Action::Nothing);
            },
        };
        let ticked = DisplayedActivity {
            description: self.active_reminders[p].description.clone(),
            checkbox: Some(true),
        };
        self.active_reminders.set(p, ticked);
        let elapsed = now.saturating_sub(at);
        let left = CONFIRM_DWELL_MS.saturating_sub(elapsed);
        if left > 0 {
            return Ok(Action::ResendLater { delay_ms: left });
        }
        self.active_reminders.swap_remove(p);
        match self.planner.mark_completed(activity) {
            Ok(()) => {},
            Err(e) => {
                return Err(e);
            },
        }
        if self.window_open && self.active_reminders.len() == 0 {
            self.window_open = false;
            Ok(Action::CloseWindow)
        } else {
            Ok(Action::Nothing)
        }
    }
}

} // verus!
