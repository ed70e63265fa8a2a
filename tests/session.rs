use break_filler::session::{should_skip, Action, DisplayedActivity, Session};
use break_filler::time;
use break_filler::{Activity, Store};

fn session(needs_confirm: bool) -> Session {
    let clock = time::setup_mock_with(12 * 3600, 5 * 60, 25 * 60).unwrap();
    let mut s = Session::new(
        vec![Activity { description: "stretch".to_owned(), count: 2, needs_confirm }],
        12 * 3600..14 * 3600,
        1000,
        vec!["YouTube".to_owned()],
        Store::new(),
        clock,
    )
    .unwrap();
    s.set_parameters(5 * 60, 25 * 60);
    s
}

#[test]
fn blocking_app_match_ignores_case() {
    let visible = vec!["Firefox - youtube.com".to_owned(), "terminal".to_owned()];
    assert!(should_skip(&visible, &vec!["YouTube".to_owned()]));
    assert!(!should_skip(&visible, &vec!["mpv".to_owned()]));
    assert!(!should_skip(&vec![], &vec!["mpv".to_owned()]));
    assert!(should_skip(&vec!["MPV Player".to_owned()], &vec!["mpv".to_owned()]));
}

#[test]
fn parameters_set_the_period() {
    let s = session(false);
    assert_eq!(s.planner.period, Some(30 * 60));
    assert_eq!(s.planner.break_duration, Some(5 * 60));
}

#[test]
fn due_reminder_opens_and_break_end_closes() {
    let mut s = session(false);
    time::next_break(&mut s.planner.clock);
    assert_eq!(s.break_started(&vec![]), Ok(Action::OpenWindow));
    assert!(s.window_open);
    assert_eq!(
        s.active_reminders,
        vec![DisplayedActivity { description: "stretch".to_owned(), checkbox: None }]
    );
    // a second notice while open changes nothing
    assert_eq!(s.break_started(&vec![]), Ok(Action::Nothing));
    assert_eq!(s.break_ended(), Action::CloseWindow);
    assert!(!s.window_open);
    assert!(s.active_reminders.is_empty());
}

#[test]
fn visible_blocking_app_defers_the_break() {
    let mut s = session(false);
    time::next_break(&mut s.planner.clock);
    assert_eq!(s.break_started(&vec!["youtube - video".to_owned()]), Ok(Action::Nothing));
    assert!(!s.window_open);
}

#[test]
fn confirmation_waits_for_the_dwell() {
    let mut s = session(true);
    time::next_break(&mut s.planner.clock);
    assert_eq!(s.break_started(&vec![]), Ok(Action::OpenWindow));
    assert_eq!(
        s.active_reminders,
        vec![DisplayedActivity { description: "stretch".to_owned(), checkbox: Some(false) }]
    );
    let d = "stretch".to_owned();
    assert_eq!(s.confirmed(&d, 1000, 1100), Ok(Action::ResendLater { delay_ms: 200 }));
    assert_eq!(s.active_reminders[0].checkbox, Some(true));
    assert_eq!(s.planner.store.get_count(&d), Some(0));
    assert_eq!(s.confirmed(&d, 1000, 1300), Ok(Action::CloseWindow));
    assert!(s.active_reminders.is_empty());
    assert_eq!(s.planner.store.get_count(&d), Some(1));
}

#[test]
fn unconfirmed_reminders_leave_at_break_end() {
    let mut s = session(true);
    time::next_break(&mut s.planner.clock);
    s.break_started(&vec![]).unwrap();
    assert_eq!(s.break_ended(), Action::CloseWindow);
    assert!(s.active_reminders.is_empty());
    assert_eq!(s.planner.store.get_count(&"stretch".to_owned()), Some(0));
}

#[test]
fn confirming_something_not_shown_does_nothing() {
    let mut s = session(true);
    assert_eq!(s.confirmed(&"other".to_owned(), 0, 1000), Ok(Action::Nothing));
}
