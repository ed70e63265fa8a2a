use break_filler::time::{self, Clock};
use break_filler::{Activity, Planner, Store};

const WORK: u64 = 25 * 60;
const BREAK: u64 = 5 * 60;

fn hour(h: u32) -> u32 {
    h * 3600
}

fn new_planner(store: Store, clock: Clock, count: usize, end_hour: u32) -> Planner {
    let program_start = time::zoned_now(&clock).unwrap();
    Planner {
        load: 1000,
        store,
        activities: vec![Activity {
            description: "test".to_owned(),
            count,
            needs_confirm: false,
        }],
        window: hour(12)..hour(end_hour),
        period: Some(WORK + BREAK),
        break_duration: Some(BREAK),
        program_start,
        clock,
    }
}

fn setup_test(activity_count: usize, end_hour: u32) -> Planner {
    let clock = time::setup_mock_with(hour(12), BREAK, WORK).unwrap();
    new_planner(Store::new(), clock, activity_count, end_hour)
}

#[test]
fn planner_reminders2_breaks4() {
    let mut planner = setup_test(2, 14);

    // `12:25 break - 12:55 break - 13:25 break - 13:55 break `
    // ` reminder                     reminder                `

    time::next_break(&mut planner.clock);
    println!("\nfirst break, should have a reminder");
    assert_ne!(planner.reminder(false).unwrap(), Vec::new());
    time::break_ends(&mut planner.clock);

    time::next_break(&mut planner.clock);
    println!("\nsecond break, should have no reminder");
    assert_eq!(planner.reminder(false).unwrap(), Vec::new());
    time::break_ends(&mut planner.clock);

    time::next_break(&mut planner.clock);
    println!("\nthird break, should have a reminder");
    assert_ne!(planner.reminder(false).unwrap(), Vec::new());
    time::break_ends(&mut planner.clock);

    time::next_break(&mut planner.clock);
    println!("\nlast break, should have no reminder");
    assert_eq!(planner.reminder(false).unwrap(), Vec::new());
    time::break_ends(&mut planner.clock);
}

#[test]
fn planner_reminders1_breaks4() {
    let mut planner = setup_test(1, 14);

    time::next_break(&mut planner.clock);
    println!("\nfirst break, should have no reminder");
    assert!(planner.reminder(false).unwrap().is_empty());
    time::break_ends(&mut planner.clock);

    time::next_break(&mut planner.clock);
    println!("\nsecond break, should have no reminder");
    assert!(planner.reminder(false).unwrap().is_empty());
    time::break_ends(&mut planner.clock);

    time::next_break(&mut planner.clock);
    println!("\nthird break, should have reminder");
    assert!(!planner.reminder(false).unwrap().is_empty());
    time::break_ends(&mut planner.clock);

    time::next_break(&mut planner.clock);
    println!("\nlast break, should have no reminder");
    assert!(planner.reminder(false).unwrap().is_empty());
    time::break_ends(&mut planner.clock);
}

#[test]
fn planner_reminders2_breaks12() {
    let mut planner = setup_test(2, 18);

    for i in 0..12 {
        time::next_break(&mut planner.clock);
        println!("\nbreak {i}");
        let reminders = planner.reminder(false).unwrap();
        if i == 3 || i == 7 {
            assert!(!reminders.is_empty(), "should have a reminder");
        } else {
            assert!(reminders.is_empty(), "should be no reminders");
        }
        time::break_ends(&mut planner.clock);
    }
}

#[test]
fn reminders_inf_breaks4() {
    let mut planner = setup_test(usize::MAX, 14);

    time::next_break(&mut planner.clock);
    println!("\nfirst break, should have a reminder");
    assert_ne!(planner.reminder(false).unwrap(), Vec::new());
    time::break_ends(&mut planner.clock);

    time::next_break(&mut planner.clock);
    println!("\nsecond break, should have no reminder");
    assert_ne!(planner.reminder(false).unwrap(), Vec::new());
    time::break_ends(&mut planner.clock);

    time::next_break(&mut planner.clock);
    println!("\nthird break, should have a reminder");
    assert_ne!(planner.reminder(false).unwrap(), Vec::new());
    time::break_ends(&mut planner.clock);

    time::next_break(&mut planner.clock);
    println!("\nlast break, should have no reminder");
    assert_ne!(planner.reminder(false).unwrap(), Vec::new());
    time::break_ends(&mut planner.clock);
}

#[test]
fn recovers() {
    let clock = time::setup_mock_with(hour(12), BREAK, WORK).unwrap();
    let mut planner = new_planner(Store::new(), clock, 2, 18);
    for i in 0..6 {
        time::next_break(&mut planner.clock);
        println!("\nbreak {i}");
        let reminders = planner.reminder(false).unwrap();
        if i == 3 {
            assert!(!reminders.is_empty(), "should have a reminder");
        } else {
            assert!(reminders.is_empty(), "should be no reminders");
        }
        time::break_ends(&mut planner.clock);
    }

    // a new process over the same store, started at 15:00
    let store = planner.store;
    let clock = time::setup_mock_with(hour(15), BREAK, WORK).unwrap();
    let mut planner = new_planner(store, clock, 2, 18);

    for i in 6..12 {
        time::next_break(&mut planner.clock);
        println!("\nbreak {i}");
        let reminders = planner.reminder(false).unwrap();
        if i == 7 {
            assert!(!reminders.is_empty(), "should have a reminder");
        } else {
            assert!(reminders.is_empty(), "should be no reminders");
        }
        time::break_ends(&mut planner.clock);
    }
}
