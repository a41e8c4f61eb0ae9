//! The titles above dumps of files and of the standard input.

use vstd::prelude::*;

use crate::text::{decimal_text, zero_padded};

verus! {

/// The title of a dump of the standard input.
pub const STDIN_TITLE: &'static str = "stdin";

/// How the time of the last change is written, in the notation of `chrono`'s `format`.
pub const TIME_PATTERN: &'static str = "%-d %b %Y %H:%M:%S";

/// A point in time, as calendar and clock show it in some time zone.
#[derive(Clone, Copy, PartialEq, Eq, Structural, Debug)]
pub struct LocalTime {
    /// The year, in the proleptic Gregorian calendar.
    pub year: i32,
    /// The month, from 1 to 12.
    pub month: u32,
    /// The day of the month, from 1.
    pub day: u32,
    /// The hour, from 0 to 23.
    pub hour: u32,
    /// The minute, from 0 to 59.
    pub minute: u32,
    /// The second, from 0 to 59.
    pub second: u32,
}

/// Whether February has 29 days in `year`.
pub open spec fn is_leap_year(year: int) -> bool {
    year % 4 == 0 && (year % 100 != 0 || year % 400 == 0)
}

/// How many days `month` has in `year`.
pub open spec fn days_in_month(year: int, month: int) -> int {
    if month == 2 {
        if is_leap_year(year) {
            29
        } else {
            28
        }
    } else if month == 4 || month == 6 || month == 9 || month == 11 {
        30
    } else {
        31
    }
}

/// The English name of a month, cut to three letters.
pub open spec fn month_name(month: int) -> Seq<char> {
    if month == 1 {
        "Jan"@
    } else if month == 2 {
        "Feb"@
    } else if month == 3 {
        "Mar"@
    } else if month == 4 {
        "Apr"@
    } else if month == 5 {
        "May"@
    } else if month == 6 {
        "Jun"@
    } else if month == 7 {
        "Jul"@
    } else if month == 8 {
        "Aug"@
    } else if month == 9 {
        "Sep"@
    } else if month == 10 {
        "Oct"@
    } else if month == 11 {
        "Nov"@
    } else {
        "Dec"@
    }
}

/// A year with at least four digits, and with a sign where it is before 0 or after 9999.
pub open spec fn year_text(year: int) -> Seq<char> {
    if year < 0 {
        "-"@ + zero_padded(decimal_text((-year) as nat), 4)
    } else if year <= 9999 {
        zero_padded(decimal_text(year as nat), 4)
    } else {
        "+"@ + decimal_text(year as nat)
    }
}

/// A number with at least two digits.
pub open spec fn two_digits(n: nat) -> Seq<char> {
    zero_padded(decimal_text(n), 2)
}

impl LocalTime {
    /// Whether there is such a time, in a year that `chrono` knows.
    pub open spec fn wf(&self) -> bool {
        &&& -262143 <= self.year <= 262142
        &&& 1 <= self.month <= 12
        &&& 1 <= self.day <= days_in_month(self.year as int, self.month as int)
        &&& self.hour < 24
        &&& self.minute < 60
        &&& self.second < 60
    }

    /// Day, month, year and time of day, as in `5 Mar 2024 07:08:09`.
    pub open spec fn text(&self) -> Seq<char> {
        decimal_text(self.day as nat) + " "@ + month_name(self.month as int) + " "@ + year_text(
            self.year as int,
        ) + " "@ + two_digits(self.hour as nat) + ":"@ + two_digits(self.minute as nat) + ":"@
            + two_digits(self.second as nat)
    }

    /// The time with these parts, where there is one.
    pub fn new(
        year: i32,
        month: u32,
        day: u32,
        hour: u32,
        minute: u32,
        second: u32,
    ) -> (r: Option<LocalTime>)
        ensures
            ({
                let time = LocalTime { year, month, day, hour, minute, second };
                r == if time.wf() {
                    Some(time)
                } else {
                    None
                }
            }),
    {
        if year < -262143 || 262142 < year {
            return None;
        }
        let days: u32 = if month == 2 {
            if leap_year(year) {
                29
            } else {
                28
            }
        } else if month == 4 || month == 6 || month == 9 || month == 11 {
            30
        } else {
            31
        };
        if 1 <= month && month <= 12 && 1 <= day && day <= days && hour < 24 && minute < 60 && second
            < 60 {
            Some(LocalTime { year, month, day, hour, minute, second })
        } else {
            None
        }
    }
}

/// Computes [`is_leap_year`].
fn leap_year(year: i32) -> (leap: bool)
    requires
        -400_000 <= year <= 400_000,
    ensures
        leap == is_leap_year(year as int),
{
    // The calendar repeats itself every 400 years.
    let later: u32 = (year + 400_000) as u32;
    assert(later % 4 == year as int % 4);
    assert(later % 100 == year as int % 100);
    assert(later % 400 == year as int % 400);
    later % 4 == 0 && (later % 100 != 0 || later % 400 == 0)
}

/// The text that the `Display` of `size::Size::from_bytes(bytes)` gives.
pub uninterp spec fn size_text(bytes: u64) -> Seq<char>;

/// `size::Size::from_bytes` and the `Display` of what it returns: a size with a unit, for people to
/// read. The text depends on `bytes` alone, and only the name [`size_text`] is given to it.
#[verifier::external_body]
fn format_size(bytes: u64) -> (text: String)
    ensures
        text@ == size_text(bytes),
{
    size::Size::from_bytes(bytes).to_string()
}

/// `chrono`'s `NaiveDate::from_ymd_opt` and `and_hms_opt`, which give the time with the parts of
/// `time` where there is one, and the text of its `format` with `pattern`. The claim is made for
/// [`TIME_PATTERN`] only: the day without padding, the English name of the month cut to three
/// letters, the year with at least four digits and with a sign outside of 0 to 9999, and hour,
/// minute and second with two digits each.
#[verifier::external_body]
fn format_time(time: &LocalTime, pattern: &str) -> (text: String)
    requires
        time.wf(),
        pattern@ == TIME_PATTERN@,
    ensures
        text@ == time.text(),
{
    chrono::NaiveDate::from_ymd_opt(time.year, time.month, time.day)
        .unwrap()
        .and_hms_opt(time.hour, time.minute, time.second)
        .unwrap()
        .format(pattern)
        .to_string()
}

/// The name of a file, in quotes where it holds a space.
pub open spec fn shown_name(name: Seq<char>) -> Seq<char> {
    if name.contains(' ') {
        "'"@ + name + "'"@
    } else {
        name
    }
}

/// The title of a dump of a file: its name in bold, its size, and the time of its last change.
pub open spec fn title_text(name: Seq<char>, size: Seq<char>, time: Seq<char>) -> Seq<char> {
    "\x1b[1m"@ + shown_name(name) + "\x1b[0m   "@ + size + "   "@ + time
}

/// Whether `text` holds a space.
fn has_space(text: &str) -> (r: bool)
    ensures
        r == text@.contains(' '),
{
    let len = text.unicode_len();
    let mut i: usize = 0;
    while i < len
        invariant
            i <= len,
            len == text@.len(),
            forall|j: int| 0 <= j < i ==> text@[j] != ' ',
        decreases len - i,
    {
        if text.get_char(i) == ' ' {
            return true;
        }
        i = i + 1;
    }
    false
}

/// Computes [`title_text`].
pub fn build_title(name: &str, size: &str, time: &str) -> (title: String)
    ensures
        title@ == title_text(name@, size@, time@),
{
    let mut title = "\x1b[1m".to_owned();
    if has_space(name) {
        title.append("'");
        title.append(name);
        title.append("'");
    } else {
        title.append(name);
    }
    title.append("\x1b[0m   ");
    title.append(size);
    title.append("   ");
    title.append(time);
    assert(title@ =~= title_text(name@, size@, time@));
    title
}

/// The title of a dump of the file `name`, which has `size` bytes and was last changed at
/// `modified`.
pub fn file_title(name: &str, size: u64, modified: &LocalTime) -> (title: String)
    requires
        modified.wf(),
    ensures
        title@ == title_text(name@, size_text(size), modified.text()),
{
    let size = format_size(size);
    let time = format_time(modified, TIME_PATTERN);
    build_title(name, size.as_str(), time.as_str())
}

} // verus!
