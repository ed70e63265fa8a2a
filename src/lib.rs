//! Decides, at each break of a recurring work/break cadence, which
//! activities to remind the user of, spacing them evenly over a daily
//! window and keeping the counters that make those decisions survive
//! restarts.
pub mod cli;
pub mod laws;
pub mod planner;
pub mod session;
pub mod spacing;
pub mod store;
pub mod text;
pub mod time;

pub use planner::{PlanError, Planner};
pub use store::Store;

use vstd::prelude::*;

verus! {

/// Something to remind the user of, and how often per window.
#[derive(Debug, Clone, PartialEq, Eq)]
pub struct Activity {
    pub description: String,
    /// reminders per window; `usize::MAX` stands for every break
    pub count: usize,
    /// whether the user must confirm it before it counts as done
    pub needs_confirm: bool,
}

impl Activity {
    /// A copy of this activity.
    pub fn duplicate(&self) -> (r: Activity)
        ensures
            r == *self,
    {
        Activity {
            description: self.description.clone(),
            count: self.count,
            needs_confirm: self.needs_confirm,
        }
    }
}

/// What reaches the reminder session: news from the break timer and
/// confirmations from the user.
#[derive(Debug, Clone)]
pub enum Message {
    BreakStarted,
    BreakEnded,
    /// durations in seconds
    ParameterChange { break_duration: u64, work_duration: u64 },
    /// `at` is a reading of a monotonic clock, in milliseconds
    Confirmed { activity: String, at: u64 },
}

} // verus!
