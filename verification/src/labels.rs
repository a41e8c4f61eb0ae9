//! What titles, times and messages tell their reader.

use vstd::prelude::*;
use vstd::string::to_string_from_display_ensures;

use crate::error::{io_message, pager_message, HexlerError};
use crate::reading::{
    all_digits, denotes, law_decimals_read_back, law_padding_keeps_the_number, value,
};
use crate::shown::occurs;
use crate::text::{decimal_text, number_text, zero_padded};
use crate::title::{
    build_title, days_in_month, file_title, month_name, title_text, two_digits, year_text,
    LocalTime,
};

verus! {

/// Whether `part` stands in `text` from the character `at` on.
pub open spec fn stands_at(part: Seq<char>, text: Seq<char>, at: int) -> bool {
    &&& 0 <= at
    &&& at + part.len() <= text.len()
    &&& text.subrange(at, at + part.len()) == part
}

/// How many quotes stand in front of `name`: one where it holds a space.
pub open spec fn quotes(name: Seq<char>) -> int {
    if exists|i: int| 0 <= i < name.len() && #[trigger] name[i] == ' ' {
        1
    } else {
        0
    }
}

/// Where the parts of a title stand.
proof fn lemma_parts_of_a_title(name: Seq<char>, size: Seq<char>, time: Seq<char>)
    ensures
        ({
            let title = title_text(name, size, time);
            let q = quotes(name);
            let end = 4 + q + name.len() + q;
            &&& stands_at("\x1b[1m"@, title, 0)
            &&& q == 1 ==> title[4] == '\'' && title[end - 1] == '\''
            &&& stands_at(name, title, 4 + q)
            &&& stands_at("\x1b[0m   "@, title, end)
            &&& stands_at(size, title, end + 7)
            &&& stands_at("   "@, title, end + 7 + size.len())
            &&& stands_at(time, title, end + 10 + size.len())
            &&& title.len() == end + 10 + size.len() + time.len()
        }),
{
    let title = title_text(name, size, time);
    let q = quotes(name);
    let end = 4 + q + name.len() + q;
    reveal_strlit("\x1b[1m");
    reveal_strlit("\x1b[0m   ");
    reveal_strlit("   ");
    reveal_strlit("'");
    assert(name.contains(' ') <==> q == 1);
    assert(title.subrange(0, 0int + 4) =~= "\x1b[1m"@);
    assert(title.subrange(4 + q, 4 + q + name.len()) =~= name);
    assert(title.subrange(end, end + 7) =~= "\x1b[0m   "@);
    assert(title.subrange(end + 7, end + 7 + size.len()) =~= size);
    assert(title.subrange(end + 7 + size.len(), end + 7 + size.len() + 3) =~= "   "@);
    assert(title.subrange(end + 10 + size.len(), end + 10 + size.len() + time.len()) =~= time);
}

/// A title holds the whole name of the file, right behind the escape sequence for bold or behind that
/// and a quote; then, behind the quote and the reset, three spaces, the size, three more spaces and
/// the time. Nothing else stands in it.
pub proof fn law_title_holds_its_parts(name: &str, size: &str, time: &str, title: String)
    requires
        call_ensures(build_title, (name, size, time), title),
    ensures
        occurs(name@, title@),
        ({
            let q = quotes(name@);
            let end = 4 + q + name@.len() + q;
            &&& stands_at("\x1b[1m"@, title@, 0)
            &&& q == 1 ==> title@[4] == '\'' && title@[end - 1] == '\''
            &&& stands_at(name@, title@, 4 + q)
            &&& stands_at("\x1b[0m   "@, title@, end)
            &&& stands_at(size@, title@, end + 7)
            &&& stands_at("   "@, title@, end + 7 + size@.len())
            &&& stands_at(time@, title@, end + 10 + size@.len())
            &&& title@.len() == end + 10 + size@.len() + time@.len()
        }),
{
    lemma_parts_of_a_title(name@, size@, time@);
    let at = 4 + quotes(name@);
    assert(title@.subrange(at, at + name@.len()) == name@);
}

/// Two files with different names never have the same title, where size and time are the same.
pub proof fn law_titles_tell_names_apart(
    name: &str,
    other: &str,
    size: &str,
    time: &str,
    title: String,
    second: String,
)
    requires
        call_ensures(build_title, (name, size, time), title),
        call_ensures(build_title, (other, size, time), second),
        name@ != other@,
    ensures
        title@ != second@,
{
    lemma_parts_of_a_title(name@, size@, time@);
    lemma_parts_of_a_title(other@, size@, time@);
    if title@ == second@ {
        lemma_equal_titles(name@, other@, size@, time@);
    }
}

/// Equal titles with the same size and time are those of one name.
proof fn lemma_equal_titles(a: Seq<char>, b: Seq<char>, size: Seq<char>, time: Seq<char>)
    requires
        title_text(a, size, time) == title_text(b, size, time),
    ensures
        a == b,
{
    lemma_parts_of_a_title(a, size, time);
    lemma_parts_of_a_title(b, size, time);
    let title = title_text(a, size, time);
    if quotes(a) == quotes(b) {
        assert(a.len() == b.len());
    } else if quotes(a) == 1 {
        let i = choose|i: int| 0 <= i < a.len() && #[trigger] a[i] == ' ';
        assert(title.subrange(5, 5 + a.len() as int)[i] == title[5 + i]);
        assert(title.subrange(4, 4 + b.len() as int)[i + 1] == title[5 + i]);
        assert(b[i + 1] == ' ');
    } else {
        let i = choose|i: int| 0 <= i < b.len() && #[trigger] b[i] == ' ';
        assert(title.subrange(5, 5 + b.len() as int)[i] == title[5 + i]);
        assert(title.subrange(4, 4 + a.len() as int)[i + 1] == title[5 + i]);
        assert(a[i + 1] == ' ');
    }
}

/// The title of a file holds its whole name, and ends with the time of its last change.
pub proof fn law_file_title_holds_name_and_time(
    name: &str,
    size: u64,
    modified: &LocalTime,
    title: String,
)
    requires
        call_ensures(file_title, (name, size, modified), title),
    ensures
        stands_at("\x1b[1m"@, title@, 0),
        stands_at(name@, title@, 4 + quotes(name@)),
        stands_at(modified.text(), title@, title@.len() - modified.text().len()),
{
    lemma_parts_of_a_title(name@, crate::title::size_text(size), modified.text());
}

/// How many digits small numbers have.
proof fn lemma_decimal_length(n: nat)
    ensures
        n < 10 <==> decimal_text(n).len() == 1,
        n < 100 <==> decimal_text(n).len() <= 2,
        n < 1000 <==> decimal_text(n).len() <= 3,
        n < 10000 <==> decimal_text(n).len() <= 4,
{
    reveal_with_fuel(number_text, 6);
}

/// The months as they are written, one behind the other.
pub open spec fn months() -> Seq<char> {
    "JanFebMarAprMayJunJulAugSepOctNovDec"@
}

/// A month is written as its three letters in the row of all months.
pub proof fn law_months_are_in_order(month: int)
    requires
        1 <= month <= 12,
    ensures
        month_name(month) == months().subrange(3 * month - 3, 3 * month),
{
    reveal_strlit("JanFebMarAprMayJunJulAugSepOctNovDec");
    reveal_strlit("Jan");
    reveal_strlit("Feb");
    reveal_strlit("Mar");
    reveal_strlit("Apr");
    reveal_strlit("May");
    reveal_strlit("Jun");
    reveal_strlit("Jul");
    reveal_strlit("Aug");
    reveal_strlit("Sep");
    reveal_strlit("Oct");
    reveal_strlit("Nov");
    reveal_strlit("Dec");
    assert(month_name(month) =~= months().subrange(3 * month - 3, 3 * month));
}

/// A year is written with at least four digits that denote it, behind a minus before the year 0 and
/// behind a plus after the year 9999.
pub proof fn law_years_read_back(year: int)
    ensures
        0 <= year <= 9999 ==> {
            &&& year_text(year).len() == 4
            &&& all_digits(year_text(year), 10)
            &&& value(year_text(year), 10) == year
        },
        year < 0 ==> {
            &&& year_text(year).len() >= 5
            &&& year_text(year)[0] == '-'
            &&& all_digits(year_text(year).skip(1), 10)
            &&& value(year_text(year).skip(1), 10) == -year
            &&& year_text(year).len() > 5 ==> year_text(year)[1] != '0'
        },
        year > 9999 ==> {
            &&& year_text(year).len() > 5
            &&& year_text(year)[0] == '+'
            &&& denotes(year_text(year).skip(1), 10, year as nat)
        },
{
    reveal_strlit("-");
    reveal_strlit("+");
    if year < 0 {
        law_padding_keeps_the_number((-year) as nat, 10, 4);
        let digits = zero_padded(decimal_text((-year) as nat), 4);
        assert(year_text(year).skip(1) =~= digits);
        assert(year_text(year)[1] == digits[0]);
    } else {
        law_padding_keeps_the_number(year as nat, 10, 4);
        lemma_decimal_length(year as nat);
        if year > 9999 {
            law_decimals_read_back(year as nat);
            assert(year_text(year).skip(1) =~= decimal_text(year as nat));
        }
    }
}

/// Numbers below 100 take two digits, and can be read.
proof fn lemma_two_digits(n: nat)
    requires
        n < 100,
    ensures
        two_digits(n).len() == 2,
        all_digits(two_digits(n), 10),
        value(two_digits(n), 10) == n,
{
    law_padding_keeps_the_number(n, 10, 2);
    lemma_decimal_length(n);
}

/// Whether the two characters of `text` from `at` on are digits that denote `n`.
pub open spec fn two_digits_at(text: Seq<char>, at: int, n: int) -> bool {
    &&& 0 <= at
    &&& at + 2 <= text.len()
    &&& all_digits(text.subrange(at, at + 2), 10)
    &&& value(text.subrange(at, at + 2), 10) == n
}

/// A time can be read: the day in front, the month behind it, hour, minute and second at the end,
/// with colons between them, and the year in the middle.
pub proof fn law_times_read_back(time: LocalTime)
    requires
        time.wf(),
    ensures
        ({
            let text = time.text();
            let n = text.len() as int;
            let d: int = if time.day < 10 {
                1
            } else {
                2
            };
            &&& n >= d + 18
            &&& denotes(text.take(d), 10, time.day as nat)
            &&& text[d] == ' '
            &&& stands_at(
                months().subrange(3 * time.month - 3, 3 * time.month as int),
                text,
                d + 1,
            )
            &&& text[d + 4] == ' '
            &&& text.subrange(d + 5, n - 9) == year_text(time.year as int)
            &&& text[n - 9] == ' '
            &&& two_digits_at(text, n - 8, time.hour as int)
            &&& text[n - 6] == ':'
            &&& two_digits_at(text, n - 5, time.minute as int)
            &&& text[n - 3] == ':'
            &&& two_digits_at(text, n - 2, time.second as int)
        }),
{
    let text = time.text();
    let n = text.len() as int;
    let day = decimal_text(time.day as nat);
    let d = day.len() as int;
    let year = year_text(time.year as int);
    reveal_strlit(" ");
    reveal_strlit(":");
    lemma_decimal_length(time.day as nat);
    law_decimals_read_back(time.day as nat);
    law_months_are_in_order(time.month as int);
    reveal_strlit("JanFebMarAprMayJunJulAugSepOctNovDec");
    law_years_read_back(time.year as int);
    lemma_two_digits(time.hour as nat);
    lemma_two_digits(time.minute as nat);
    lemma_two_digits(time.second as nat);
    assert(n == d + 5 + year.len() + 9);
    assert(text.take(d) =~= day);
    assert(text.subrange(d + 1, d + 1 + 3) =~= month_name(time.month as int));
    assert(text.subrange(d + 5, n - 9) =~= year);
    assert(text.subrange(n - 8, n - 8 + 2) =~= two_digits(time.hour as nat));
    assert(text.subrange(n - 5, n - 5 + 2) =~= two_digits(time.minute as nat));
    assert(text.subrange(n - 2, n - 2 + 2) =~= two_digits(time.second as nat));
}

/// A time with these parts is made exactly where the calendar has that day and the clock that time of
/// day, and it has these parts. Every month has 28 days, all but February have 30, seven have 31, and
/// February has 29 in every fourth year but for the centuries that 400 does not divide.
pub proof fn law_calendar(
    year: i32,
    month: u32,
    day: u32,
    hour: u32,
    minute: u32,
    second: u32,
    r: Option<LocalTime>,
)
    requires
        call_ensures(LocalTime::new, (year, month, day, hour, minute, second), r),
    ensures
        r is Some <==> {
            &&& -262143 <= year <= 262142
            &&& 1 <= month <= 12
            &&& hour <= 23
            &&& minute <= 59
            &&& second <= 59
            &&& 1 <= day
            &&& {
                ||| day <= 28
                ||| day <= 30 && month != 2
                ||| day == 31 && (month <= 7 && month % 2 == 1 || month >= 8 && month % 2 == 0)
                ||| day == 29 && (year as int % 400 == 0 || year as int % 4 == 0 && year as int % 100
                    != 0)
            }
        },
        r matches Some(time) ==> {
            &&& time.wf()
            &&& time.year == year
            &&& time.month == month
            &&& time.day == day
            &&& time.hour == hour
            &&& time.minute == minute
            &&& time.second == second
        },
{
}

/// A year has 365 or 366 days, and the calendar repeats itself every 400 years.
pub proof fn law_length_of_years(year: int, month: int)
    ensures
        ({
            let days = days_in_month(year, 1) + days_in_month(year, 2) + days_in_month(year, 3)
                + days_in_month(year, 4) + days_in_month(year, 5) + days_in_month(year, 6)
                + days_in_month(year, 7) + days_in_month(year, 8) + days_in_month(year, 9)
                + days_in_month(year, 10) + days_in_month(year, 11) + days_in_month(year, 12);
            days == if days_in_month(year, 2) == 29 {
                366int
            } else {
                365
            }
        }),
        days_in_month(year + 400, month) == days_in_month(year, month),
{
}

/// An error that is taken over is carried unchanged.
pub proof fn law_errors_are_carried(
    io: std::io::Error,
    pager: minus::error::MinusError,
    first: HexlerError,
    second: HexlerError,
)
    requires
        call_ensures(<HexlerError as From<std::io::Error>>::from, (io,), first),
        call_ensures(<HexlerError as From<minus::error::MinusError>>::from, (pager,), second),
    ensures
        first == HexlerError::Io(io),
        second == HexlerError::Pager(pager),
{
}

/// The message about a number of bytes per line ends with that number, in decimal. So two numbers
/// never have the same message.
pub proof fn law_message_names_the_number(n: usize, message: String)
    requires
        call_ensures(HexlerError::to_string, (&HexlerError::InvalidBytesPerLine(n),), message),
    ensures
        ({
            let words = "bytes per line must be a multiple of 8 with a minimum of 8, got "@;
            &&& stands_at(words, message@, 0)
            &&& denotes(message@.skip(words.len() as int), 10, n as nat)
        }),
{
    let words = "bytes per line must be a multiple of 8 with a minimum of 8, got "@;
    law_decimals_read_back(n as nat);
    assert(message@.subrange(0, 0 + words.len() as int) =~= words);
    assert(message@.skip(words.len() as int) =~= decimal_text(n as nat));
}

/// Errors that describe themselves are shown by a prefix and that description, and a terminal without
/// a width by a sentence of its own.
pub proof fn law_messages_of_errors(error: HexlerError, message: String)
    requires
        call_ensures(HexlerError::to_string, (&error,), message),
    ensures
        error matches HexlerError::Io(inner) ==> exists|detail: String| {
            &&& #[trigger] to_string_from_display_ensures::<std::io::Error>(&inner, detail)
            &&& message@ == "IO error: "@ + detail@
        },
        error matches HexlerError::Pager(inner) ==> exists|detail: String| {
            &&& #[trigger] to_string_from_display_ensures::<minus::error::MinusError>(
                &inner,
                detail,
            )
            &&& message@ == "pager error: "@ + detail@
        },
        error is TerminalSizeError ==> message@ == "failed to determine terminal width"@,
{
}

/// The message for an I/O or a pager error ends with how the error describes itself, whole.
pub proof fn law_messages_keep_the_detail(detail: &str, io: String, pager: String)
    requires
        call_ensures(io_message, (detail,), io),
        call_ensures(pager_message, (detail,), pager),
    ensures
        stands_at("IO error: "@, io@, 0),
        stands_at(detail@, io@, "IO error: "@.len() as int),
        io@.len() == "IO error: "@.len() + detail@.len(),
        stands_at("pager error: "@, pager@, 0),
        stands_at(detail@, pager@, "pager error: "@.len() as int),
        pager@.len() == "pager error: "@.len() + detail@.len(),
{
    let i = "IO error: "@.len() as int;
    let p = "pager error: "@.len() as int;
    assert(io@.subrange(0, 0 + i) =~= "IO error: "@);
    assert(io@.subrange(i, i + detail@.len()) =~= detail@);
    assert(pager@.subrange(0, 0 + p) =~= "pager error: "@);
    assert(pager@.subrange(p, p + detail@.len()) =~= detail@);
}

} // verus!
