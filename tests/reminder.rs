use break_filler::time;
use break_filler::{Activity, Planner, Store};

fn planner(count: usize, end_hour: u32) -> Planner {
    let store = Store::new();

    let program_start = 12 * 3600;
    let work_duration = 25 * 60;
    let break_duration = 5 * 60;
    let clock = time::setup_mock_with(program_start, break_duration, work_duration).unwrap();

    Planner {
        load: 1000,
        store,
        activities: vec![Activity {
            description: "test".to_owned(),
            count,
            needs_confirm: false,
        }],
        window: 12 * 3600..end_hour * 3600,
        period: Some(work_duration + break_duration),
        break_duration: Some(break_duration),
        program_start: time::zoned_now(&clock).unwrap(),
        clock,
    }
}

#[test]
fn reminder_reminders2_breaks4() {
    let mut planner = planner(2, 14);

    // `12:25 break - 12:55 break - 13:25 break - 13:55 break `
    // ` reminder                     reminder                `

    time::next_break(&mut planner.clock);
    println!("\nfirst break, should have a reminder");
    assert_ne!(planner.reminder(false).unwrap(), Vec::new());
    time::break_ends(&mut planner.clock);

    time::next_break(&mut planner.clock);
    println!("\nsecond break, should have no reminder");
    assert_eq!(planner.reminder(false).unwrap(), Vec::new());
    time::break_ends(&mut planner.clock);

    time::next_break(&mut planner.clock);
    println!("\nthird break, should have a reminder");
    assert_ne!(planner.reminder(false).unwrap(), Vec::new());
    time::break_ends(&mut planner.clock);

    time::next_break(&mut planner.clock);
    println!("\nlast break, should have no reminder");
    assert_eq!(planner.reminder(false).unwrap(), Vec::new());
    time::break_ends(&mut planner.clock);
}

#[test]
fn reminder_reminders1_breaks4() {
    let mut planner = planner(1, 14);

    time::next_break(&mut planner.clock);
    println!("\nfirst break, should have no reminder");
    assert!(planner.reminder(false).unwrap().is_empty());
    time::break_ends(&mut planner.clock);

    time::next_break(&mut planner.clock);
    println!("\nsecond break, should have no reminder");
    assert!(planner.reminder(false).unwrap().is_empty());
    time::break_ends(&mut planner.clock);

    time::next_break(&mut planner.clock);
    println!("\nthird break, should have reminder");
    let due = planner.reminder(false).unwrap();
    assert_eq!(due.len(), 1);
    assert_eq!(due[0].description, "test");
    time::break_ends(&mut planner.clock);

    time::next_break(&mut planner.clock);
    println!("\nlast break, should have no reminder");
    assert!(planner.reminder(false).unwrap().is_empty());
    time::break_ends(&mut planner.clock);
}

#[test]
fn reminder_reminders2_breaks12() {
    let mut planner = planner(2, 18);

    for i in 0..12 {
        time::next_break(&mut planner.clock);
        println!("\nbreak {i}");
        let reminders = planner.reminder(false).unwrap();
        if i == 3 || i == 7 {
            assert!(!reminders.is_empty(), "should have a reminder");
        } else {
            assert!(reminders.is_empty(), "should be no reminders");
        }
        time::break_ends(&mut planner.clock);
    }
}
