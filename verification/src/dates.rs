//! Expiration dates of option series, in the proleptic Gregorian calendar.
use vstd::prelude::*;

verus! {

/// Whether `y` is a leap year of the proleptic Gregorian calendar (year 0 is 1 BCE).
pub open spec fn is_leap_year(y: int) -> bool {
    y % 4 == 0 && (y % 100 != 0 || y % 400 == 0)
}

/// The number of days of month `m` of year `y`.
pub open spec fn days_in_month(y: int, m: int) -> int {
    if m == 2 {
        if is_leap_year(y) {
            29
        } else {
            28
        }
    } else if m == 4 || m == 6 || m == 9 || m == 11 {
        30
    } else {
        31
    }
}

/// The smallest year a `chrono::NaiveDate` holds.
pub open spec fn first_year() -> int {
    -262143
}

/// The largest year a `chrono::NaiveDate` holds.
pub open spec fn last_year() -> int {
    262142
}

/// Whether the calendar date exists and lies in the years a `chrono::NaiveDate` holds.
pub open spec fn calendar_date_exists(y: int, m: int, d: int) -> bool {
    &&& first_year() <= y <= last_year()
    &&& 1 <= m <= 12
    &&& 1 <= d <= days_in_month(y, m)
}

/// The days of the years before year `y`, counted from 1 January of year 1.
pub open spec fn days_before_year(y: int) -> int {
    365 * (y - 1) + (y - 1) / 4 - (y - 1) / 100 + (y - 1) / 400
}

/// The days of year `y` before month `m`.
pub open spec fn days_before_month(y: int, m: int) -> int {
    let common: int = if m == 1 {
        0
    } else if m == 2 {
        31
    } else if m == 3 {
        59
    } else if m == 4 {
        90
    } else if m == 5 {
        120
    } else if m == 6 {
        151
    } else if m == 7 {
        181
    } else if m == 8 {
        212
    } else if m == 9 {
        243
    } else if m == 10 {
        273
    } else if m == 11 {
        304
    } else {
        334
    };
    if m > 2 && is_leap_year(y) {
        common + 1
    } else {
        common
    }
}

/// The number of a day, counting 1 January of year 1 as day 1.
pub open spec fn day_number(y: int, m: int, d: int) -> int {
    days_before_year(y) + days_before_month(y, m) + d
}

/// The character of the digit `d`.
pub open spec fn digit_char(d: int) -> char {
    (48 + d) as char
}

/// The decimal text of `n`, padded with zeros on the left to at least `width` characters.
pub open spec fn padded_decimal(n: nat, width: nat) -> Seq<char>
    decreases n + width,
{
    if n < 10 && width <= 1 {
        seq![digit_char(n as int)]
    } else if width == 0 {
        padded_decimal(n / 10, 0).push(digit_char((n % 10) as int))
    } else {
        padded_decimal(n / 10, (width - 1) as nat).push(digit_char((n % 10) as int))
    }
}

/// The year as `chrono` writes it: four digits for years 0 to 9999, else a sign and
/// at least four digits.
pub open spec fn year_text(y: int) -> Seq<char> {
    if 0 <= y <= 9999 {
        padded_decimal(y as nat, 4)
    } else if y < 0 {
        seq!['-'] + padded_decimal((-y) as nat, 4)
    } else {
        seq!['+'] + padded_decimal(y as nat, 4)
    }
}

/// The date as `chrono::NaiveDate` displays it: `%Y-%m-%d`.
pub open spec fn iso_date_text(y: int, m: int, d: int) -> Seq<char> {
    year_text(y) + seq!['-'] + padded_decimal(m as nat, 2) + seq!['-'] + padded_decimal(d as nat, 2)
}

/// The characters of `s` other than `c`, in order.
pub open spec fn without_char(s: Seq<char>, c: char) -> Seq<char>
    decreases s.len(),
{
    if s.len() == 0 {
        s
    } else if s.last() == c {
        without_char(s.drop_last(), c)
    } else {
        without_char(s.drop_last(), c).push(s.last())
    }
}

/// `chrono::NaiveDate::from_ymd_opt(year, month, day).is_some()`: whether chrono holds the date.
#[verifier::external_body]
fn chrono_date_exists(year: i32, month: u32, day: u32) -> (held: bool)
    ensures
        held == calendar_date_exists(year as int, month as int, day as int),
{
    chrono::NaiveDate::from_ymd_opt(year, month, day).is_some()
}

/// `chrono::NaiveDate`'s `Display` (through `to_string`) of an existing date.
#[verifier::external_body]
fn chrono_date_text(year: i32, month: u32, day: u32) -> (text: String)
    requires
        calendar_date_exists(year as int, month as int, day as int),
    ensures
        text@ == iso_date_text(year as int, month as int, day as int),
{
    chrono::NaiveDate::from_ymd_opt(year, month, day).unwrap().to_string()
}

/// `chrono::NaiveDate - chrono::NaiveDate`, then `TimeDelta::num_days`: the signed number
/// of days from the second date to the first.
#[verifier::external_body]
fn chrono_days_between(
    later_year: i32,
    later_month: u32,
    later_day: u32,
    earlier_year: i32,
    earlier_month: u32,
    earlier_day: u32,
) -> (days: i64)
    requires
        calendar_date_exists(later_year as int, later_month as int, later_day as int),
        calendar_date_exists(earlier_year as int, earlier_month as int, earlier_day as int),
    ensures
        days == day_number(later_year as int, later_month as int, later_day as int) - day_number(
            earlier_year as int,
            earlier_month as int,
            earlier_day as int,
        ),
{
    let later = chrono::NaiveDate::from_ymd_opt(later_year, later_month, later_day).unwrap();
    let earlier = chrono::NaiveDate::from_ymd_opt(earlier_year, earlier_month, earlier_day).unwrap();
    (later - earlier).num_days()
}

/// `str::replace(text, '-', "")`: the text without its dashes.
#[verifier::external_body]
fn without_dashes(text: &str) -> (res: String)
    ensures
        res@ == without_char(text@, '-'),
{
    text.replace('-', "")
}

/// A calendar date that chrono holds.
#[derive(Debug, Clone, Copy, PartialEq, Eq, Hash, Structural)]
pub struct ExpiryDate {
    year: i32,
    month: u32,
    day: u32,
}

impl ExpiryDate {
    #[verifier::type_invariant]
    closed spec fn is_held(self) -> bool {
        calendar_date_exists(self.year as int, self.month as int, self.day as int)
    }

    /// The year.
    pub closed spec fn y(self) -> int {
        self.year as int
    }

    /// The month, 1 to 12.
    pub closed spec fn m(self) -> int {
        self.month as int
    }

    /// The day of the month.
    pub closed spec fn d(self) -> int {
        self.day as int
    }

    /// The date value of a year, month and day.
    pub closed spec fn of(year: i32, month: u32, day: u32) -> ExpiryDate {
        ExpiryDate { year, month, day }
    }

    /// A date value has the year, month and day it was made of.
    pub proof fn lemma_of(year: i32, month: u32, day: u32)
        ensures
            ExpiryDate::of(year, month, day).y() == year,
            ExpiryDate::of(year, month, day).m() == month,
            ExpiryDate::of(year, month, day).d() == day,
    {
    }

    /// The date of the given year, month and day, where it exists.
    pub fn from_ymd(year: i32, month: u32, day: u32) -> (date: Option<ExpiryDate>)
        ensures
            match date {
                Some(dt) => calendar_date_exists(year as int, month as int, day as int) && dt
                    == ExpiryDate::of(year, month, day) && dt.y() == year && dt.m() == month && dt.d() == day,
                None => !calendar_date_exists(year as int, month as int, day as int),
            },
    {
        if chrono_date_exists(year, month, day) {
            Some(ExpiryDate { year, month, day })
        } else {
            None
        }
    }

    /// 1 January 1970, the date `chrono::NaiveDate::default` gives.
    pub fn epoch() -> (date: ExpiryDate)
        ensures
            date.y() == 1970 && date.m() == 1 && date.d() == 1,
    {
        ExpiryDate { year: 1970, month: 1, day: 1 }
    }

    pub fn year(&self) -> (y: i32)
        ensures
            y == self.y(),
    {
        self.year
    }

    pub fn month(&self) -> (m: u32)
        ensures
            m == self.m(),
    {
        self.month
    }

    pub fn day(&self) -> (d: u32)
        ensures
            d == self.d(),
    {
        self.day
    }

    /// The date as chrono displays it, `%Y-%m-%d`.
    pub fn to_text(&self) -> (text: String)
        ensures
            text@ == iso_date_text(self.y(), self.m(), self.d()),
    {
        proof {
            use_type_invariant(self);
        }
        chrono_date_text(self.year, self.month, self.day)
    }

    /// The date as a request names an expiry: its text without dashes (`YYYYMMDD`).
    pub fn expiry_code(&self) -> (code: String)
        ensures
            code@ == without_char(iso_date_text(self.y(), self.m(), self.d()), '-'),
    {
        let text = self.to_text();
        without_dashes(text.as_str())
    }

    /// The signed number of days from this date to `later`.
    pub fn days_until(&self, later: &ExpiryDate) -> (days: i64)
        ensures
            days == day_number(later.y(), later.m(), later.d()) - day_number(self.y(), self.m(), self.d()),
    {
        proof {
            use_type_invariant(self);
            use_type_invariant(later);
        }
        chrono_days_between(later.year, later.month, later.day, self.year, self.month, self.day)
    }
}

} // verus!
