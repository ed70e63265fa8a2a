use break_filler::cli::{
    duration_parser, into_argument, reminder_parser, time_argument, time_parser, window_parser,
};
use break_filler::Activity;

#[test]
fn activity_with_count() {
    let a = reminder_parser("drink:3").unwrap();
    assert_eq!(a, Activity { description: "drink".to_owned(), count: 3, needs_confirm: false });
}

#[test]
fn activity_with_spaces_and_confirmation() {
    let a = reminder_parser("!drink some water:2").unwrap();
    assert_eq!(
        a,
        Activity { description: "drink some water".to_owned(), count: 2, needs_confirm: true }
    );
    let b = reminder_parser("!!eat:1").unwrap();
    assert_eq!(b, Activity { description: "eat".to_owned(), count: 1, needs_confirm: true });
}

#[test]
fn activity_without_count_is_every_break() {
    let a = reminder_parser("stretch").unwrap();
    assert_eq!(a.count, usize::MAX);
    assert_eq!(a.description, "stretch");
    assert!(!a.needs_confirm);
}

#[test]
fn activity_count_with_plus_sign() {
    assert_eq!(reminder_parser("walk:+12").unwrap().count, 12);
}

#[test]
fn activity_with_two_colons_is_refused() {
    assert_eq!(
        reminder_parser("a:1:2").unwrap_err(),
        "Activity argument may only contain one colon (:)"
    );
}

#[test]
fn activity_with_bad_count_is_refused() {
    assert_eq!(
        reminder_parser("a:x").unwrap_err(),
        "Could not parse count as number: invalid digit found in string"
    );
    assert_eq!(
        reminder_parser("a:").unwrap_err(),
        "Could not parse count as number: cannot parse integer from empty string"
    );
    assert_eq!(
        reminder_parser("a:-1").unwrap_err(),
        "Could not parse count as number: invalid digit found in string"
    );
    assert_eq!(
        reminder_parser("a:99999999999999999999999").unwrap_err(),
        "Could not parse count as number: number too large to fit in target type"
    );
}

#[test]
fn window_is_read() {
    let w = window_parser("12:00..14:30").unwrap();
    assert_eq!(w, 12 * 3600..14 * 3600 + 30 * 60);
}

#[test]
fn window_may_wrap_midnight() {
    let w = window_parser("23:00..01:00").unwrap();
    assert_eq!(w, 23 * 3600..3600);
}

#[test]
fn window_needs_exactly_one_range_marker() {
    let msg = "Range must contain exactly one occurence of ..";
    assert_eq!(window_parser("12:00-14:00").unwrap_err(), msg);
    assert_eq!(window_parser("12:00...14:00").unwrap_err(), msg);
    assert_eq!(window_parser("12:00..14:00..15:00").unwrap_err(), msg);
}

#[test]
fn window_with_bad_times_is_refused() {
    let e = window_parser("25:00..14:00").unwrap_err();
    assert!(e.starts_with("Could not parse start time"), "{e}");
    let e = window_parser("12:00..noon").unwrap_err();
    assert!(e.starts_with("Could not parse end time"), "{e}");
}

#[test]
fn duration_is_read_in_seconds() {
    assert_eq!(duration_parser("00:25").unwrap(), 25 * 60);
    assert_eq!(duration_parser("01:05").unwrap(), 3900);
    assert!(duration_parser("five").unwrap_err().starts_with("Could not parse time"));
}

#[test]
fn time_is_read_in_seconds_past_midnight() {
    assert_eq!(time_parser("12:34").unwrap(), 12 * 3600 + 34 * 60);
    assert_eq!(time_parser("00:00").unwrap(), 0);
    assert!(time_parser("24:00").is_err());
}

#[test]
fn activity_is_written_back() {
    let a = Activity { description: "drink".to_owned(), count: 3, needs_confirm: false };
    assert_eq!(into_argument(a), "drink:3");
    let b = Activity { description: "walk".to_owned(), count: 10, needs_confirm: true };
    assert_eq!(into_argument(b), "!walk:10");
    let c = Activity { description: "x".to_owned(), count: usize::MAX, needs_confirm: false };
    assert_eq!(reminder_parser(&into_argument(c)).unwrap().count, usize::MAX);
    let d = Activity { description: "eat".to_owned(), count: 1, needs_confirm: true };
    assert_eq!(reminder_parser(&into_argument(d.clone())).unwrap(), d);
}

#[test]
fn window_is_written_back() {
    assert_eq!(time_argument(12 * 3600..14 * 3600 + 30 * 60), "12:00..14:30");
    assert_eq!(time_argument(0..23 * 3600 + 59 * 60), "00:00..23:59");
    assert_eq!(time_argument(9 * 3600 + 5 * 60..3600), "09:05..01:00");
}
