use chrono::Datelike;
use vstd::prelude::*;

verus! {

/// The strftime pattern of the timestamp that an exported article carries, e.g. `<2019-02-06 Wed>`.
pub const TIMESTAMP_FORMAT: &'static str = "<%Y-%m-%d %a>";

/// The strftime pattern of the feed-ready publication date, e.g. `Wed, 06 Feb 2019 1:01:00 EST`.
pub const PUB_DATE_FORMAT: &'static str = "%a, %d %b %Y 1:01:00 EST";

/// First and last year of the dates that chrono's `NaiveDate` can hold.
pub const MIN_YEAR: i32 = -262143;

pub const MAX_YEAR: i32 = 262142;

/// A calendar date of the proleptic Gregorian calendar.
#[derive(Clone, Copy, Debug, PartialEq, Eq, Structural)]
pub struct PublishDate {
    pub year: i32,
    pub month: u32,
    pub day: u32,
}

pub open spec fn is_leap_year(y: int) -> bool {
    (y % 4 == 0 && y % 100 != 0) || y % 400 == 0
}

pub open spec fn days_in_month(y: int, m: int) -> int {
    if m == 2 {
        if is_leap_year(y) {
            29
        } else {
            28
        }
    } else if m == 4 || m == 6 || m == 9 || m == 11 {
        30
    } else {
        31
    }
}

/// Days from 1970-01-01 to the given date (negative before it).
pub open spec fn days_from_civil(y: int, m: int, d: int) -> int {
    let y1 = if m <= 2 { y - 1 } else { y };
    let era = y1 / 400;
    let yoe = y1 - era * 400;
    let mp = (m + 9) % 12;
    let doy = (153 * mp + 2) / 5 + d - 1;
    let doe = yoe * 365 + yoe / 4 - yoe / 100 + doy;
    era * 146097 + doe - 719468
}

/// 0 for Sunday up to 6 for Saturday.
pub open spec fn weekday_from_sunday(y: int, m: int, d: int) -> int {
    (days_from_civil(y, m, d) + 4) % 7
}

pub open spec fn weekday_abbrev(w: int) -> Seq<char> {
    if w == 0 {
        seq!['S', 'u', 'n']
    } else if w == 1 {
        seq!['M', 'o', 'n']
    } else if w == 2 {
        seq!['T', 'u', 'e']
    } else if w == 3 {
        seq!['W', 'e', 'd']
    } else if w == 4 {
        seq!['T', 'h', 'u']
    } else if w == 5 {
        seq!['F', 'r', 'i']
    } else {
        seq!['S', 'a', 't']
    }
}

pub open spec fn month_abbrev(m: int) -> Seq<char> {
    if m == 1 {
        seq!['J', 'a', 'n']
    } else if m == 2 {
        seq!['F', 'e', 'b']
    } else if m == 3 {
        seq!['M', 'a', 'r']
    } else if m == 4 {
        seq!['A', 'p', 'r']
    } else if m == 5 {
        seq!['M', 'a', 'y']
    } else if m == 6 {
        seq!['J', 'u', 'n']
    } else if m == 7 {
        seq!['J', 'u', 'l']
    } else if m == 8 {
        seq!['A', 'u', 'g']
    } else if m == 9 {
        seq!['S', 'e', 'p']
    } else if m == 10 {
        seq!['O', 'c', 't']
    } else if m == 11 {
        seq!['N', 'o', 'v']
    } else {
        seq!['D', 'e', 'c']
    }
}

pub open spec fn digit_char(n: int) -> char {
    seq!['0', '1', '2', '3', '4', '5', '6', '7', '8', '9'][n]
}

/// The decimal digits of `n`, without leading zeros.
pub open spec fn decimal(n: nat) -> Seq<char>
    decreases n,
{
    if n < 10 {
        seq![digit_char(n as int)]
    } else {
        decimal(n / 10).push(digit_char((n % 10) as int))
    }
}

/// The decimal digits of `n`, with leading zeros up to `width` characters.
pub open spec fn zero_padded(n: nat, width: nat) -> Seq<char> {
    let digits = decimal(n);
    if digits.len() >= width {
        digits
    } else {
        Seq::new((width - digits.len()) as nat, |_i: int| '0') + digits
    }
}

/// A year as `%Y` writes it: four digits within 0..=9999, else a sign and at least four digits.
pub open spec fn year_text(y: int) -> Seq<char> {
    if 0 <= y <= 9999 {
        zero_padded(y as nat, 4)
    } else if y < 0 {
        seq!['-'] + zero_padded((-y) as nat, 4)
    } else {
        seq!['+'] + zero_padded(y as nat, 4)
    }
}

pub open spec fn timestamp_pattern() -> Seq<char> {
    TIMESTAMP_FORMAT@
}

pub open spec fn pub_date_pattern() -> Seq<char> {
    PUB_DATE_FORMAT@
}

/// The date that chrono's `NaiveDate::parse_from_str` reads from `text` under the
/// strftime pattern `pattern`, as (year, month, day); `None` where it refuses the text.
pub uninterp spec fn chrono_parsed_date(text: Seq<char>, pattern: Seq<char>) -> Option<(i32, u32, u32)>;

/// The code point of `c`, with ASCII upper-case letters taken to lower case.
pub open spec fn folded(c: char) -> int {
    if 'A' <= c && c <= 'Z' {
        c as int + 32
    } else {
        c as int
    }
}

pub open spec fn same_letters(a: Seq<char>, b: Seq<char>) -> bool {
    &&& a.len() == 3
    &&& b.len() == 3
    &&& folded(a[0]) == folded(b[0])
    &&& folded(a[1]) == folded(b[1])
    &&& folded(a[2]) == folded(b[2])
}

/// `t` ends with the three letters of a weekday abbreviation, in any case, then `>`.
pub open spec fn ends_with_weekday(t: Seq<char>) -> bool {
    let a = t.subrange(t.len() - 4, t.len() - 1);
    &&& t.len() >= 4
    &&& t.last() == '>'
    &&& (same_letters(a, weekday_abbrev(0)) || same_letters(a, weekday_abbrev(1))
        || same_letters(a, weekday_abbrev(2)) || same_letters(a, weekday_abbrev(3))
        || same_letters(a, weekday_abbrev(4)) || same_letters(a, weekday_abbrev(5))
        || same_letters(a, weekday_abbrev(6)))
}

impl PublishDate {
    /// A real calendar date within chrono's range.
    pub open spec fn valid(self) -> bool {
        &&& MIN_YEAR <= self.year <= MAX_YEAR
        &&& 1 <= self.month <= 12
        &&& 1 <= self.day <= days_in_month(self.year as int, self.month as int)
    }

    pub open spec fn weekday(self) -> int {
        weekday_from_sunday(self.year as int, self.month as int, self.day as int)
    }

    /// `self` is the same day as `other` or an earlier one.
    pub open spec fn not_after(self, other: PublishDate) -> bool {
        ||| self.year < other.year
        ||| (self.year == other.year && self.month < other.month)
        ||| (self.year == other.year && self.month == other.month && self.day <= other.day)
    }

    /// The canonical timestamp text of the date, e.g. `<2019-02-06 Wed>`.
    pub open spec fn timestamp_text(self) -> Seq<char> {
        seq!['<'] + year_text(self.year as int) + seq!['-'] + zero_padded(self.month as nat, 2)
            + seq!['-'] + zero_padded(self.day as nat, 2) + seq![' '] + weekday_abbrev(
            self.weekday(),
        ) + seq!['>']
    }

    /// The publication date text, e.g. `Wed, 06 Feb 2019 1:01:00 EST`.
    pub open spec fn pub_date_text(self) -> Seq<char> {
        weekday_abbrev(self.weekday()) + seq![',', ' '] + zero_padded(self.day as nat, 2) + seq![
            ' ',
        ] + month_abbrev(self.month as int) + seq![' '] + year_text(self.year as int) + seq![
            ' ',
            '1',
            ':',
            '0',
            '1',
            ':',
            '0',
            '0',
            ' ',
            'E',
            'S',
            'T',
        ]
    }

    /// Whether `self` falls on the same day as `other` or before it.
    pub fn is_not_after(&self, other: &PublishDate) -> (r: bool)
        ensures
            r == self.not_after(*other),
    {
        if self.year != other.year {
            self.year < other.year
        } else if self.month != other.month {
            self.month < other.month
        } else {
            self.day <= other.day
        }
    }
}

/// Relies on chrono's `NaiveDate::parse_from_str`: what it returns depends on the
/// text and the pattern alone, a `NaiveDate` is always a real date of chrono's range,
/// and the canonical text of a date with a four-digit year under `%Y-%m-%d %a` is read
/// back as that date. Under the timestamp pattern, `%a` reads exactly three letters of
/// a weekday name in any case, the literal `>` must follow, and nothing may be left.
#[verifier::external_body]
pub(crate) fn parse_date(text: &str, pattern: &str) -> (r: Option<PublishDate>)
    ensures
        r matches Some(d) ==> d.valid() && chrono_parsed_date(text@, pattern@) == Some(
            (d.year, d.month, d.day),
        ),
        r is None ==> chrono_parsed_date(text@, pattern@) is None,
        forall|d: PublishDate|
            pattern@ == timestamp_pattern() && d.valid() && 0 <= d.year <= 9999 && text@
                == #[trigger] d.timestamp_text() ==> r == Some(d),
        pattern@ == timestamp_pattern() && !ends_with_weekday(text@) ==> r is None,
{
    match chrono::NaiveDate::parse_from_str(text, pattern) {
        Ok(d) => Some(PublishDate { year: d.year(), month: d.month(), day: d.day() }),
        Err(_) => None,
    }
}

/// Relies on chrono's `NaiveDate::from_ymd_opt`, which accepts every valid date, and on
/// `NaiveDate::format`, which writes `%a`, `%d`, `%b` and `%Y` in English, with no locale.
#[verifier::external_body]
pub(crate) fn format_date(date: &PublishDate, pattern: &str) -> (r: String)
    requires
        date.valid(),
        pattern@ == pub_date_pattern(),
    ensures
        r@ == date.pub_date_text(),
{
    let d = chrono::NaiveDate::from_ymd_opt(date.year, date.month, date.day).unwrap();
    d.format(pattern).to_string()
}

/// Reads the timestamp of an article, e.g. `<2019-02-06 Wed>`, as a date.
pub fn parse_timestamp(text: &str) -> (r: Option<PublishDate>)
    ensures
        r matches Some(d) ==> d.valid() && chrono_parsed_date(text@, timestamp_pattern()) == Some(
            (d.year, d.month, d.day),
        ),
        r is None ==> chrono_parsed_date(text@, timestamp_pattern()) is None,
        forall|d: PublishDate|
            d.valid() && 0 <= d.year <= 9999 && text@ == #[trigger] d.timestamp_text() ==> r
                == Some(d),
        !ends_with_weekday(text@) ==> r is None,
{
    parse_date(text, TIMESTAMP_FORMAT)
}

/// The feed-ready text of a date, e.g. `Wed, 06 Feb 2019 1:01:00 EST`.
pub fn format_pub_date(date: &PublishDate) -> (r: String)
    requires
        date.valid(),
    ensures
        r@ == date.pub_date_text(),
{
    format_date(date, PUB_DATE_FORMAT)
}

} // verus!
