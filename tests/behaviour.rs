use break_filler::time::{self, Clock, MockClock};
use break_filler::{Activity, PlanError, Planner, Store};

const WORK: u64 = 25 * 60;
const BREAK: u64 = 5 * 60;

fn planner_at(start: u32, end: u32, activities: Vec<Activity>, store: Store) -> Planner {
    let clock = time::setup_mock_with(12 * 3600, BREAK, WORK).unwrap();
    Planner {
        load: 1000,
        store,
        activities,
        window: start..end,
        period: Some(WORK + BREAK),
        break_duration: Some(BREAK),
        program_start: time::zoned_now(&clock).unwrap(),
        clock,
    }
}

fn one(count: usize, needs_confirm: bool) -> Vec<Activity> {
    vec![Activity { description: "test".to_owned(), count, needs_confirm }]
}

fn now(p: &Planner) -> i64 {
    time::zoned_now(&p.clock).unwrap()
}

/// Runs `k` breaks of a window of `k` periods opening at 12:00 and returns
/// the indices of the breaks that brought the activity up.
fn deliveries(count: usize, k: u32) -> Vec<u32> {
    let mut p = planner_at(12 * 3600, 12 * 3600 + k * 1800, one(count, false), Store::new());
    let mut due = Vec::new();
    for i in 0..k {
        time::next_break(&mut p.clock);
        if !p.reminder(false).unwrap().is_empty() {
            due.push(i);
        }
        time::break_ends(&mut p.clock);
    }
    due
}

#[test]
fn every_target_is_met_exactly() {
    for k in 1..=20 {
        for n in 0..=k {
            let due = deliveries(n as usize, k);
            assert_eq!(due.len(), n as usize, "target {n} over {k} breaks: {due:?}");
            if n < k {
                assert!(!due.contains(&(k - 1)), "last break used: {n} over {k}: {due:?}");
            }
        }
    }
}

#[test]
fn more_than_the_breaks_is_capped_by_the_breaks() {
    assert_eq!(deliveries(6, 4), vec![0, 1, 2, 3]);
}

#[test]
fn outside_the_window_nothing_happens() {
    let mut p = planner_at(14 * 3600, 16 * 3600, one(2, false), Store::new());
    time::next_break(&mut p.clock);
    assert!(p.reminder(false).unwrap().is_empty());
    assert_eq!(p.store.breaks(), 0);
    assert_eq!(p.store.get_count(&"test".to_owned()), None);
}

#[test]
fn rollover_clears_the_last_epoch() {
    let mut store = Store::new();
    let d = "test".to_owned();
    store.insert_count(&d, 2);
    store.set_breaks(9);
    store.set_last_check(5);
    let mut p = planner_at(12 * 3600, 14 * 3600, one(2, false), store);
    time::next_break(&mut p.clock);
    // counts were reset, so the first break of scenario A applies
    assert_eq!(p.reminder(false).unwrap().len(), 1);
    assert_eq!(p.store.get_count(&d), Some(1));
    assert_eq!(p.store.breaks(), 1);
    assert_eq!(p.store.last_check(), now(&p));
    assert_eq!(p.store.get_last_at(&d), Some(now(&p)));
}

#[test]
fn no_rollover_within_the_epoch() {
    let mut p = planner_at(12 * 3600, 14 * 3600, one(2, false), Store::new());
    time::next_break(&mut p.clock);
    p.reminder(false).unwrap();
    let first_check = p.store.last_check();
    time::break_ends(&mut p.clock);
    time::next_break(&mut p.clock);
    p.reminder(false).unwrap();
    assert_eq!(p.store.last_check(), first_check);
    assert_eq!(p.store.breaks(), 2);
    assert_eq!(p.store.get_count(&"test".to_owned()), Some(1));
}

#[test]
fn skip_when_reasonable_defers_everything() {
    let mut p = planner_at(12 * 3600, 14 * 3600, one(2, false), Store::new());
    time::next_break(&mut p.clock);
    assert!(p.reminder(true).unwrap().is_empty());
    assert_eq!(p.store.get_count(&"test".to_owned()), Some(0));
    assert_eq!(p.store.breaks(), 1);
}

#[test]
fn skip_is_refused_when_time_runs_out() {
    // one break left for one remaining reminder: it cannot be put off
    let mut p = planner_at(12 * 3600, 14 * 3600, one(1, false), Store::new());
    for _ in 0..3 {
        time::next_break(&mut p.clock);
        assert!(p.reminder(true).unwrap().is_empty());
        time::break_ends(&mut p.clock);
    }
    time::next_break(&mut p.clock);
    assert_eq!(p.reminder(true).unwrap().len(), 1);
    assert_eq!(p.store.get_count(&"test".to_owned()), Some(1));
}

#[test]
fn confirmation_is_left_to_the_caller() {
    let mut p = planner_at(12 * 3600, 14 * 3600, one(2, true), Store::new());
    time::next_break(&mut p.clock);
    let due = p.reminder(false).unwrap();
    assert_eq!(due.len(), 1);
    assert!(due[0].needs_confirm);
    assert_eq!(p.store.get_count(&"test".to_owned()), Some(0));
    p.mark_completed(&"test".to_owned()).unwrap();
    assert_eq!(p.store.get_count(&"test".to_owned()), Some(1));
    assert_eq!(p.store.get_last_at(&"test".to_owned()), Some(now(&p)));
}

#[test]
fn planning_without_a_period_fails() {
    let mut p = planner_at(12 * 3600, 14 * 3600, one(2, false), Store::new());
    p.period = None;
    time::next_break(&mut p.clock);
    assert_eq!(p.reminder(false), Err(PlanError::PeriodUnknown));
    assert_eq!(p.store.breaks(), 0);
    p.period = Some(0);
    assert_eq!(p.reminder(false), Err(PlanError::PeriodUnknown));
}

#[test]
fn reminder_at_uses_the_given_time() {
    let mut p = planner_at(12 * 3600, 14 * 3600, one(2, false), Store::new());
    let t = now(&p) + 25 * 60;
    assert_eq!(p.reminder_at(t, false).len(), 1);
    assert_eq!(p.store.get_last_at(&"test".to_owned()), Some(t));
}

#[test]
fn half_load_halves_the_horizon() {
    // four slots at full load, two at half load: one reminder lands on
    // the first break, where full load would wait for the third
    let mut p = planner_at(12 * 3600, 14 * 3600, one(1, false), Store::new());
    p.load = 500;
    time::next_break(&mut p.clock);
    assert_eq!(p.reminder(false).unwrap().len(), 1);
}

#[test]
fn mock_clock_steps() {
    let mut c = Clock::Mock(MockClock { current: 1000, break_duration: 5, work_duration: 20 });
    time::next_break(&mut c);
    assert_eq!(time::zoned_now(&c), Some(1020));
    time::break_ends(&mut c);
    assert_eq!(time::zoned_now(&c), Some(1025));
    let day = time::setup_mock_with(12 * 3600, 5, 20).unwrap();
    assert_eq!(time::zoned_now(&day).unwrap() % 86400, 12 * 3600);
}

#[test]
fn real_clock_is_after_1970() {
    assert!(time::zoned_now(&Clock::Real).unwrap() > 1_600_000_000);
}

#[test]
fn mock_clock_from_arguments() {
    let args = break_filler::cli::TestArgs {
        run_args: break_filler::cli::RunArgs {
            activity: vec![],
            window: 0..3600,
            load: 1000,
            skip_when_visible: vec![],
        },
        work_duration: 1500,
        break_duration: 300,
        program_start: 9 * 3600,
        periods: 3,
    };
    match time::setup_mock_from_args(&args).unwrap() {
        Clock::Mock(m) => {
            assert_eq!(m.current % 86400, 9 * 3600);
            assert_eq!(m.work_duration, 1500);
            assert_eq!(m.break_duration, 300);
        }
        Clock::Real => panic!("expected a mock clock"),
    }
}

#[test]
fn raw_readings_before_1970_are_refused() {
    assert_eq!(time::stamp_of(-5), None);
    assert_eq!(time::stamp_of(0), Some(0));
    assert_eq!(time::stamp_of(1_700_000_000), Some(1_700_000_000));
}

#[test]
fn count_above_a_lowered_target_stays() {
    let mut p = planner_at(12 * 3600, 14 * 3600, one(2, false), Store::new());
    time::next_break(&mut p.clock);
    p.reminder(false).unwrap();
    time::break_ends(&mut p.clock);
    let d = "test".to_owned();
    p.store.insert_count(&d, 3);
    for _ in 0..3 {
        time::next_break(&mut p.clock);
        assert!(p.reminder(false).unwrap().is_empty());
        assert_eq!(p.store.get_count(&d), Some(3));
        time::break_ends(&mut p.clock);
    }
}
