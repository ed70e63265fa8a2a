//! The program's arguments, and the parsers and formatters for the values
//! they carry: activities (`[!]description[:count]`), windows
//! (`HH:MM..HH:MM`), durations and times of day (`HH:MM`).
use std::ops::Range;

use itertools::Itertools;
use vstd::prelude::*;
use vstd::string::*;

use crate::text::{
    count_char, count_of_char, decimal, decimal_string, find_char, first_index,
    lemma_count_absent, lemma_count_present, lemma_first_unique, parse_usize, reason_text,
    strip_leading, trim_start, two_digit_string, two_digits, usize_of,
};
use crate::Activity;

verus! {

/// What a normal run is given.
pub struct RunArgs {
    pub activity: Vec<Activity>,
    /// in seconds past midnight
    pub window: Range<u32>,
    /// share of the window the user is expected to be present, in thousandths
    pub load: u32,
    /// titles of windows during which reminders are put off where possible
    pub skip_when_visible: Vec<String>,
}

/// What a simulated run is given.
pub struct TestArgs {
    pub run_args: RunArgs,
    /// in seconds
    pub work_duration: u64,
    /// in seconds
    pub break_duration: u64,
    /// in seconds past midnight
    pub program_start: u32,
    pub periods: usize,
}

/// An activity argument read as (description, count), or the message that
/// rejects it. Leading `!`s are dropped; without a `:` the count is
/// `usize::MAX`, every break.
pub open spec fn activity_of(s: Seq<char>) -> Result<(Seq<char>, usize), Seq<char>> {
    let t = strip_leading(s, '!');
    if count_char(t, ':') > 1 {
        Err("Activity argument may only contain one colon (:)"@)
    } else if count_char(t, ':') == 1 {
        let k = first_index(t, ':');
        match usize_of(t.subrange(k + 1, t.len() as int)) {
            Ok(n) => Ok((t.subrange(0, k), n)),
            Err(e) => Err("Could not parse count as number: "@ + reason_text(e)),
        }
    } else {
        Ok((t, usize::MAX))
    }
}

/// Reads an activity argument: `description[:count]`, with a leading `!`
/// for one that needs confirming.
pub fn reminder_parser(s: &str) -> (r: Result<Activity, String>)
    ensures
        match r {
            Ok(a) => activity_of(s@) == Ok::<(Seq<char>, usize), Seq<char>>(
                (a.description@, a.count),
            ) && a.needs_confirm == (s@.len() > 0 && s@[0] == '!'),
            Err(e) => activity_of(s@) == Err::<(Seq<char>, usize), Seq<char>>(e@),
        },
{
    let needs_confirm = s.unicode_len() > 0 && s.get_char(0) == '!';
    let t = trim_start(s, '!');
    if count_of_char(t, ':') > 1 {
        return Err("Activity argument may only contain one colon (:)".to_owned());
    }
    match find_char(t, ':') {
        Some(k) => {
            proof {
                lemma_first_unique(t@, ':', k as int);
                lemma_count_present(t@, ':', k as int);
            }
            let n = t.unicode_len();
            let description = t.substring_char(0, k);
            let count = t.substring_char(k + 1, n);
            match parse_usize(count) {
                Ok(c) => Ok(Activity { description: description.to_owned(), count: c, needs_confirm }),
                Err(e) => Err("Could not parse count as number: ".to_owned().concat(e.reason())),
            }
        },
        None => {
            proof {
                lemma_count_absent(t@, ':');
            }
            Ok(Activity { description: t.to_owned(), count: usize::MAX, needs_confirm })
        },
    }
}

/// Formats an activity as an argument: `description:count`, with a
/// leading `!` for one that needs confirming.
pub fn into_argument(activity: Activity) -> (r: String)
    ensures
        r@ == (if activity.needs_confirm {
            seq!['!']
        } else {
            Seq::<char>::empty()
        }) + activity.description@ + ":"@ + decimal(activity.count as nat),
{
    proof {
        reveal_strlit("!");
    }
    let mut r = if activity.needs_confirm {
        "!".to_owned()
    } else {
        String::new()
    };
    r.append(activity.description.as_str());
    r.append(":");
    r.append(decimal_string(activity.count).as_str());
    r
}

/// The hour and minute of the civil time that jiff reads from `input`
/// under `format`, when it reads one.
pub uninterp spec fn strptime_hm(format: Seq<char>, input: Seq<char>) -> Option<(u8, u8)>;

/// Relies on jiff::civil::Time::strptime: the hour and minute of the time
/// that `input` gives under `format`, or jiff's error in words. A civil
/// time's hour lies in 0..=23 and its minute in 0..=59.
#[verifier::external_body]
fn strptime(format: &str, input: &str) -> (r: Result<(u8, u8), String>)
    ensures
        match r {
            Ok(hm) => strptime_hm(format@, input@) == Some(hm) && hm.0 < 24 && hm.1 < 60,
            Err(_) => strptime_hm(format@, input@) is None,
        },
{
    match jiff::civil::Time::strptime(format, input) {
        Ok(t) => Ok((t.hour() as u8, t.minute() as u8)),
        Err(e) => Err(e.to_string()),
    }
}

/// The neighbouring pairs of characters of `s`, in order.
pub open spec fn pairs_of(s: Seq<char>) -> Seq<(char, char)> {
    if s.len() == 0 {
        Seq::empty()
    } else {
        Seq::new((s.len() - 1) as nat, |i: int| (s[i], s[i + 1]))
    }
}

/// Relies on itertools::Itertools::tuple_windows: the windows of two
/// neighbouring characters of `s`, in order.
#[verifier::external_body]
fn char_pairs(s: &str) -> (r: Vec<(char, char)>)
    ensures
        r@ == pairs_of(s@),
{
    s.chars().tuple_windows().collect()
}

/// How many of the pairs `p` are `('.', '.')`.
pub open spec fn count_dots(p: Seq<(char, char)>) -> nat
    decreases p.len(),
{
    if p.len() == 0 {
        0
    } else {
        count_dots(p.drop_last()) + if p.last() == ('.', '.') {
            1nat
        } else {
            0nat
        }
    }
}

/// `s` holds `..` at `j`.
pub open spec fn dots_at(s: Seq<char>, j: int) -> bool {
    s[j] == '.' && s[j + 1] == '.'
}

/// `k` is where `..` first occurs in `s`.
pub open spec fn is_first_dots(s: Seq<char>, k: int) -> bool {
    &&& 0 <= k && k + 1 < s.len()
    &&& s[k] == '.' && s[k + 1] == '.'
    &&& forall|j: int| 0 <= j < k ==> !dots_at(s, j)
}

pub open spec fn first_dots(s: Seq<char>) -> int {
    choose|k: int| is_first_dots(s, k)
}

/// Seconds past midnight of an hour and minute.
pub open spec fn hm_secs(hm: (u8, u8)) -> int {
    hm.0 * 3600 + hm.1 * 60
}

proof fn lemma_no_dots(p: Seq<(char, char)>)
    requires
        forall|i: int| 0 <= i < p.len() ==> p[i] != ('.', '.'),
    ensures
        count_dots(p) == 0,
    decreases p.len(),
{
    if p.len() > 0 {
        lemma_no_dots(p.drop_last());
    }
}

fn count_dot_pairs(p: &Vec<(char, char)>) -> (r: usize)
    ensures
        r == count_dots(p@),
{
    let mut i: usize = 0;
    let mut k: usize = 0;
    while i < p.len()
        invariant
            i <= p@.len(),
            k == count_dots(p@.take(i as int)),
            k <= i,
        decreases p@.len() - i,
    {
        proof {
            assert(p@.take(i + 1).drop_last() =~= p@.take(i as int));
        }
        let (a, b) = p[i];
        if a == '.' && b == '.' {
            k = k + 1;
        }
        i = i + 1;
    }
    assert(p@.take(p@.len() as int) =~= p@);
    k
}

fn find_dots(s: &str) -> (r: Option<usize>)
    ensures
        match r {
            Some(k) => is_first_dots(s@, k as int),
            None => forall|j: int| 0 <= j && j + 1 < s@.len() ==> !dots_at(s@, j),
        },
{
    let n = s.unicode_len();
    let mut i: usize = 0;
    while i < n && i + 1 < n
        invariant
            i <= n,
            n == s@.len(),
            forall|j: int| 0 <= j < i && j + 1 < s@.len() ==> !dots_at(s@, j),
        decreases n - i,
    {
        if s.get_char(i) == '.' && s.get_char(i + 1) == '.' {
            return Some(i);
        }
        i = i + 1;
    }
    None
}

/// Reads a window `HH:MM..HH:MM` as seconds past midnight of its start and
/// end. The text must hold `..` exactly once, counting overlapping pairs of
/// dots; each side is read by jiff under `%H:%M`.
pub fn window_parser(s: &str) -> (r: Result<Range<u32>, String>)
    ensures
        count_dots(pairs_of(s@)) != 1 ==> (r matches Err(e) && e@
            == "Range must contain exactly one occurence of .."@),
        count_dots(pairs_of(s@)) == 1 ==> ({
            let k = first_dots(s@);
            let a = strptime_hm("%H:%M"@, s@.subrange(0, k));
            let b = strptime_hm("%H:%M"@, s@.subrange(k + 2, s@.len() as int));
            match r {
                Ok(w) => a matches Some(x) && b matches Some(y) && w.start == hm_secs(x)
                    && w.end == hm_secs(y),
                Err(_) => a is None || b is None,
            }
        }),
        r matches Ok(w) ==> w.start < 86400 && w.end < 86400,
{
    let pairs = char_pairs(s);
    if count_dot_pairs(&pairs) != 1 {
        return Err("Range must contain exactly one occurence of ..".to_owned());
    }
    match find_dots(s) {
        Some(k) => {
            proof {
                let j = first_dots(s@);
                assert(is_first_dots(s@, j));
                if j < k {
                    assert(!dots_at(s@, j));
                }
                if k < j {
                    assert(!dots_at(s@, k as int));
                }
            }
            let n = s.unicode_len();
            let start = match strptime("%H:%M", s.substring_char(0, k)) {
                Ok(hm) => hm,
                Err(e) => {
                    return Err(
                        "Could not parse start time, should be in format: 12:34 (hh:mm). Parse error: ".to_owned().concat(
                        e.as_str()),
                    );
                },
            };
            let end = match strptime("%H:%M", s.substring_char(k + 2, n)) {
                Ok(hm) => hm,
                Err(e) => {
                    return Err(
                        "Could not parse end time, should be in format: 12:34 (hh:mm). Parse error: ".to_owned().concat(
                        e.as_str()),
                    );
                },
            };
            Ok(
                Range {
                    start: start.0 as u32 * 3600 + start.1 as u32 * 60,
                    end: end.0 as u32 * 3600 + end.1 as u32 * 60,
                },
            )
        },
        None => {
            proof {
                assert forall|i: int| 0 <= i < pairs@.len() implies pairs@[i] != ('.', '.') by {
                    assert(pairs@[i] == (s@[i], s@[i + 1]));
                    assert(!dots_at(s@, i));
                }
                lemma_no_dots(pairs@);
            }
            Err("Range must contain exactly one occurence of ..".to_owned())
        },
    }
}

/// Reads a duration `HH:MM` as seconds; jiff reads it under `%H:%M`.
pub fn duration_parser(s: &str) -> (r: Result<u64, String>)
    ensures
        match r {
            Ok(d) => strptime_hm("%H:%M"@, s@) matches Some(x) && d == hm_secs(x),
            Err(_) => strptime_hm("%H:%M"@, s@) is None,
        },
{
    match strptime("%H:%M", s) {
        Ok(hm) => Ok(hm.0 as u64 * 3600 + hm.1 as u64 * 60),
        Err(e) => Err(
            "Could not parse time, should be in format: 12:34 (hh:mm). Parse error: ".to_owned().concat(
            e.as_str()),
        ),
    }
}

/// Reads a time of day `HH:MM` as seconds past midnight; jiff reads it
/// under `%H:%M`.
pub fn time_parser(s: &str) -> (r: Result<u32, String>)
    ensures
        match r {
            Ok(t) => strptime_hm("%H:%M"@, s@) matches Some(x) && t == hm_secs(x) && t < 86400,
            Err(_) => strptime_hm("%H:%M"@, s@) is None,
        },
{
    match strptime("%H:%M", s) {
        Ok(hm) => Ok(hm.0 as u32 * 3600 + hm.1 as u32 * 60),
        Err(e) => Err(
            "Could not parse time, should be in format: 12:34 (hh:mm). Parse error: ".to_owned().concat(
            e.as_str()),
        ),
    }
}

/// A time of day (seconds past midnight) as `HH:MM`; seconds are dropped.
pub open spec fn hhmm(t: int) -> Seq<char> {
    two_digits(t / 3600) + ":"@ + two_digits((t % 3600) / 60)
}

/// Formats a window as an argument: `HH:MM..HH:MM`.
pub fn time_argument(window: Range<u32>) -> (r: String)
    requires
        window.start < 86400,
        window.end < 86400,
    ensures
        r@ == hhmm(window.start as int) + ".."@ + hhmm(window.end as int),
{
    let r = two_digit_string(window.start / 3600).concat(":");
    let r = r.concat(two_digit_string((window.start % 3600) / 60).as_str());
    let r = r.concat("..");
    let r = r.concat(two_digit_string(window.end / 3600).as_str());
    let r = r.concat(":");
    r.concat(two_digit_string((window.end % 3600) / 60).as_str())
}

} // verus!
