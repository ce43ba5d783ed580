//! Calendar dates: validation, parsing, and day, month and year arithmetic.
use crate::text::{
    chars_of, contains_char, decimal, decimal_string, is_digit, is_piece, lemma_number_of_decimal,
    lemma_number_of_padded, lemma_numeral_chars, lemma_split_last_piece,
    lemma_split_without_separator, number, padded, parse_number, split, split_ranges,
};
use std::cmp::Ordering;
use vstd::prelude::*;
use vstd::string::*;

verus! {

/// Upper bound on a lifespan, in years. An age must stay strictly below it.
pub const MAX_YEARS_OLD: u16 = 100;

/// Why a text or a triple of numbers is not a date.
#[derive(Debug, PartialEq, Eq, Clone, Copy, Structural)]
pub enum ParseError {
    SeparatorNotFound,
    InvalidPartsCount,
    NumberConversionError,
    InvalidYear,
    InvalidMonth,
    InvalidDay,
}

/// The mathematical model of a date: three unbounded integers.
pub ghost struct Civil {
    pub year: int,
    pub month: int,
    pub day: int,
}

/// A day of the Gregorian calendar, from year 1 to year 65535.
#[derive(Debug, PartialEq, Eq, Ord, Clone, Copy, Structural)]
pub struct Date {
    year: u16,
    month: u8,
    day: u8,
}

/// Leap years are the multiples of 4 that are not multiples of 100, and the
/// multiples of 400.
pub open spec fn is_leap(year: int) -> bool {
    year % 4 == 0 && year % 100 != 0 || year % 400 == 0
}

/// Length of a month in days. Any month number other than February and the
/// seven long months counts 30 days.
pub open spec fn days_in_month(year: int, month: int) -> int {
    if month == 2 {
        if is_leap(year) {
            29
        } else {
            28
        }
    } else if month == 1 || month == 3 || month == 5 || month == 7 || month == 8 || month == 10
        || month == 12 {
        31
    } else {
        30
    }
}

/// A triple that names a real day of the calendar.
pub open spec fn valid(c: Civil) -> bool {
    &&& 1 <= c.year
    &&& 1 <= c.month <= 12
    &&& 1 <= c.day <= days_in_month(c.year, c.month)
}

/// What building a date from three numbers gives: the year is judged first,
/// then the month, then the day.
pub open spec fn build_spec(year: int, month: int, day: int) -> Result<Civil, ParseError> {
    if year < 1 || year > u16::MAX {
        Err(ParseError::InvalidYear)
    } else if month < 1 || month > 12 {
        Err(ParseError::InvalidMonth)
    } else if day < 1 || day > days_in_month(year, month) {
        Err(ParseError::InvalidDay)
    } else {
        Ok(Civil { year, month, day })
    }
}

/// A result with its date replaced by the date's model.
pub open spec fn outcome(r: Result<Date, ParseError>) -> Result<Civil, ParseError> {
    match r {
        Ok(d) => Ok(d@),
        Err(e) => Err(e),
    }
}

/// The calendar's order: by year, then by month, then by day.
pub open spec fn before(a: Civil, b: Civil) -> bool {
    a.year < b.year || (a.year == b.year && (a.month < b.month || (a.month == b.month && a.day
        < b.day)))
}

/// The same day of the following month, or that month's last day where the
/// month is too short. January follows December.
pub open spec fn successor_month(c: Civil) -> Civil {
    let year = if c.month == 12 {
        c.year + 1
    } else {
        c.year
    };
    let month = if c.month == 12 {
        1
    } else {
        c.month + 1
    };
    let last = days_in_month(year, month);
    Civil { year, month, day: if c.day > last { last } else { c.day } }
}

/// The following day.
pub open spec fn successor_day(c: Civil) -> Civil {
    if c.day < days_in_month(c.year, c.month) {
        Civil { year: c.year, month: c.month, day: c.day + 1 }
    } else if c.month < 12 {
        Civil { year: c.year, month: c.month + 1, day: 1 }
    } else {
        Civil { year: c.year + 1, month: 1, day: 1 }
    }
}

/// Whether the day and month of `a` come earlier in a year than those of `b`.
pub open spec fn earlier_in_year(a: Civil, b: Civil) -> bool {
    a.month < b.month || (a.month == b.month && a.day < b.day)
}

/// Full years elapsed between two dates, whichever comes first: the
/// difference of the years, less one while the later date has not reached the
/// earlier one's day and month.
pub open spec fn full_years_between(a: Civil, b: Civil) -> int {
    let lo = if before(b, a) {
        b
    } else {
        a
    };
    let hi = if before(b, a) {
        a
    } else {
        b
    };
    if earlier_in_year(hi, lo) {
        hi.year - lo.year - 1
    } else {
        hi.year - lo.year
    }
}

/// English name of a month, from 1 for January to 12 for December.
pub open spec fn month_name(month: int) -> Seq<char> {
    if month == 1 {
        "January"@
    } else if month == 2 {
        "February"@
    } else if month == 3 {
        "March"@
    } else if month == 4 {
        "April"@
    } else if month == 5 {
        "May"@
    } else if month == 6 {
        "June"@
    } else if month == 7 {
        "July"@
    } else if month == 8 {
        "August"@
    } else if month == 9 {
        "September"@
    } else if month == 10 {
        "October"@
    } else if month == 11 {
        "November"@
    } else {
        "December"@
    }
}

/// The separator that a written date uses: the first of `.`, `/`, `-` and the
/// space, in this order, that occurs anywhere in the text.
pub open spec fn first_separator(s: Seq<char>) -> Option<char> {
    if s.contains('.') {
        Some('.')
    } else if s.contains('/') {
        Some('/')
    } else if s.contains('-') {
        Some('-')
    } else if s.contains(' ') {
        Some(' ')
    } else {
        None
    }
}

/// Whether every piece writes a number.
pub open spec fn all_numbers(parts: Seq<Seq<char>>) -> bool {
    forall|i: int| 0 <= i < parts.len() ==> (#[trigger] number(parts[i])) is Some
}

/// What reading a date from a text gives. The text is split at its
/// separator; there must be three pieces, the day, the month and the year;
/// every piece must write a number; and the three must then name a date.
pub open spec fn parse_spec(s: Seq<char>) -> Result<Civil, ParseError> {
    match first_separator(s) {
        None => Err(ParseError::SeparatorNotFound),
        Some(sep) => {
            let parts = split(s, sep);
            if parts.len() != 3 {
                Err(ParseError::InvalidPartsCount)
            } else if !all_numbers(parts) {
                Err(ParseError::NumberConversionError)
            } else {
                build_spec(number(parts[2])->0, number(parts[1])->0, number(parts[0])->0)
            }
        },
    }
}

/// How a date is shown: the day, the month's name and the year, with one
/// space between them.
pub open spec fn display(c: Civil) -> Seq<char> {
    decimal(c.day) + seq![' '] + month_name(c.month) + seq![' '] + decimal(c.year)
}

/// Whether `c` is one of the four separators of a written date.
pub open spec fn is_separator(c: char) -> bool {
    c == '.' || c == '/' || c == '-' || c == ' '
}

/// A date written in numbers: the day, the month and the year in decimal,
/// with `sep` between them.
pub open spec fn written(c: Civil, sep: char) -> Seq<char> {
    decimal(c.day) + seq![sep] + decimal(c.month) + seq![sep] + decimal(c.year)
}

/// A date written in numbers of a fixed width: two digits for the day, two
/// for the month and four for the year, with `sep` between them.
pub open spec fn written_padded(c: Civil, sep: char) -> Seq<char> {
    padded(c.day, 2) + seq![sep] + padded(c.month, 2) + seq![sep] + padded(c.year, 4)
}

/// Building a date succeeds exactly on the triples that name a real day with
/// a year up to 65535, and then gives that triple.
pub proof fn lemma_build_succeeds_iff_valid(year: int, month: int, day: int)
    ensures
        build_spec(year, month, day) is Ok <==> valid(Civil { year, month, day }) && year
            <= u16::MAX,
        build_spec(year, month, day) is Ok ==> build_spec(year, month, day) == Ok::<
            Civil,
            ParseError,
        >(Civil { year, month, day }),
{
}

/// The calendar's order is a strict total order: no date comes before
/// itself, of two different dates exactly one comes before the other, and
/// what comes before an earlier date comes before a later one.
pub proof fn lemma_before_is_a_total_order(a: Civil, b: Civil, c: Civil)
    ensures
        !before(a, a),
        !(before(a, b) && before(b, a)),
        a != b ==> before(a, b) || before(b, a),
        before(a, b) && before(b, c) ==> before(a, c),
{
}

/// The following day is a real day, comes after the day it follows, and no
/// real day lies between the two.
pub proof fn lemma_successor_day_is_next(c: Civil, other: Civil)
    requires
        valid(c),
        valid(other),
    ensures
        valid(successor_day(c)),
        before(c, successor_day(c)),
        !(before(c, other) && before(other, successor_day(c))),
{
}

/// A month later is a real day of the month that follows: the same day
/// where that month has it, else its last day.
pub proof fn lemma_successor_month_is_valid(c: Civil)
    requires
        valid(c),
    ensures
        valid(successor_month(c)),
        before(c, successor_month(c)),
        successor_month(c).year * 12 + successor_month(c).month == c.year * 12 + c.month + 1,
        ({
            let next = successor_month(c);
            let last = days_in_month(next.year, next.month);
            if c.day <= last {
                next.day == c.day
            } else {
                next.day == last
            }
        }),
{
}

/// The full years between two real days do not depend on the order in which
/// the days are given, are never negative, and are the difference of the
/// years or one less.
pub proof fn lemma_full_years_between(a: Civil, b: Civil)
    requires
        valid(a),
        valid(b),
    ensures
        full_years_between(a, b) == full_years_between(b, a),
        full_years_between(a, b) >= 0,
        before(a, b) ==> b.year - a.year - 1 <= full_years_between(a, b) <= b.year - a.year,
{
}

/// Three numerals for the day, the month and the year of a real day, with
/// one of the four separators between them, read as that day.
pub proof fn lemma_parse_reads_numerals(
    d: Seq<char>,
    m: Seq<char>,
    y: Seq<char>,
    sep: char,
    c: Civil,
)
    requires
        valid(c),
        c.year <= u16::MAX,
        is_separator(sep),
        number(d) == Some(c.day),
        number(m) == Some(c.month),
        number(y) == Some(c.year),
    ensures
        parse_spec(d + seq![sep] + m + seq![sep] + y) == Ok::<Civil, ParseError>(c),
{
    let s = d + seq![sep] + m + seq![sep] + y;
    lemma_numeral_chars(d);
    lemma_numeral_chars(m);
    lemma_numeral_chars(y);
    assert(s[d.len() as int] == sep);
    assert forall|i: int| 0 <= i < s.len() implies is_digit(#[trigger] s[i]) || s[i] == '+'
        || s[i] == sep by {
        if i < d.len() {
            assert(s[i] == d[i]);
        } else if i == d.len() {
        } else if i < d.len() + 1 + m.len() {
            assert(s[i] == m[i - d.len() - 1]);
        } else if i == d.len() + 1 + m.len() {
        } else {
            assert(s[i] == y[i - d.len() - m.len() - 2]);
        }
    }
    assert(first_separator(s) == Some(sep));
    assert(!d.contains(sep));
    assert(!m.contains(sep));
    assert(!y.contains(sep));
    lemma_split_without_separator(d, sep);
    lemma_split_last_piece(d, m, sep);
    lemma_split_last_piece(d + seq![sep] + m, y, sep);
    let parts = split(s, sep);
    assert(parts =~= seq![d, m, y]);
    assert(parts[0] == d && parts[1] == m && parts[2] == y);
}

/// A date written in numbers with any of the four separators reads back as
/// the same date.
pub proof fn lemma_parse_reads_back(c: Civil, sep: char)
    requires
        valid(c),
        c.year <= u16::MAX,
        is_separator(sep),
    ensures
        parse_spec(written(c, sep)) == Ok::<Civil, ParseError>(c),
{
    lemma_number_of_decimal(c.day);
    lemma_number_of_decimal(c.month);
    lemma_number_of_decimal(c.year);
    lemma_parse_reads_numerals(decimal(c.day), decimal(c.month), decimal(c.year), sep, c);
}

/// A date written as two digits, two digits and four digits with any of the
/// four separators reads back as the same date.
pub proof fn lemma_parse_reads_back_padded(c: Civil, sep: char)
    requires
        valid(c),
        c.year <= u16::MAX,
        is_separator(sep),
    ensures
        parse_spec(written_padded(c, sep)) == Ok::<Civil, ParseError>(c),
{
    lemma_number_of_padded(c.day, 2);
    lemma_number_of_padded(c.month, 2);
    lemma_number_of_padded(c.year, 4);
    lemma_parse_reads_numerals(padded(c.day, 2), padded(c.month, 2), padded(c.year, 4), sep, c);
}

impl View for Date {
    type V = Civil;

    closed spec fn view(&self) -> Civil {
        Civil { year: self.year as int, month: self.month as int, day: self.day as int }
    }
}

impl Date {
    /// Every `Date` is a real day whose year fits sixteen bits.
    #[verifier::type_invariant]
    pub open spec fn inv(self) -> bool {
        valid(self@) && self@.year <= u16::MAX
    }

    /// Two dates with the same model are the same date.
    pub proof fn lemma_view_injective(a: Date, b: Date)
        requires
            a@ == b@,
        ensures
            a == b,
    {
    }

    /// Builds the date from a year, a month and a day of any machine width.
    pub fn from_civil(year: i32, month: u32, day: u32) -> (r: Result<Date, ParseError>)
        ensures
            outcome(r) == build_spec(year as int, month as int, day as int),
    {
        if year < 1 || year > 0xffff {
            return Err(ParseError::InvalidYear);
        }
        if month < 1 || month > 12 {
            return Err(ParseError::InvalidMonth);
        }
        let y: u16 = year as u16;
        let m: u8 = month as u8;
        if day < 1 || day > Date::max_day_of(y, m) as u32 {
            return Err(ParseError::InvalidDay);
        }
        Ok(Date { year: y, month: m, day: day as u8 })
    }

    /// Builds the date from a year, a month and a day.
    pub fn build(year: u16, month: u8, day: u8) -> (r: Result<Date, ParseError>)
        ensures
            outcome(r) == build_spec(year as int, month as int, day as int),
    {
        Date::from_civil(year as i32, month as u32, day as u32)
    }

    /// Reads a date written as day, month and year with one of the
    /// separators `.`, `/`, `-` or space between them.
    pub fn parse(s: &String) -> (r: Result<Date, ParseError>)
        ensures
            outcome(r) == parse_spec(s@),
    {
        let chars = chars_of(s.as_str());
        let sep: char = if contains_char(&chars, '.') {
            '.'
        } else if contains_char(&chars, '/') {
            '/'
        } else if contains_char(&chars, '-') {
            '-'
        } else if contains_char(&chars, ' ') {
            ' '
        } else {
            return Err(ParseError::SeparatorNotFound);
        };
        let ranges = split_ranges(&chars, sep);
        let ghost parts = split(s@, sep);
        if ranges.len() != 3 {
            return Err(ParseError::InvalidPartsCount);
        }
        let mut numbers: Vec<u16> = Vec::new();
        let mut k: usize = 0;
        while k < ranges.len()
            invariant
                k <= ranges@.len(),
                chars@ == s@,
                first_separator(s@) == Some(sep),
                parts == split(s@, sep),
                ranges@.len() == parts.len(),
                ranges@.len() == 3,
                forall|j: int| 0 <= j < ranges@.len() ==> is_piece(chars@, #[trigger] ranges@[j], parts[j]),
                numbers@.len() == k,
                forall|j: int| 0 <= j < k ==> number(parts[j]) == Some(#[trigger] numbers@[j] as int),
            decreases ranges@.len() - k,
        {
            let range = ranges[k];
            match parse_number(&chars, range.0, range.1) {
                Some(n) => {
                    numbers.push(n);
                },
                None => {
                    proof {
                        assert(number(parts[k as int]) is None);
                    }
                    return Err(ParseError::NumberConversionError);
                },
            }
            k += 1;
        }
        proof {
            assert forall|j: int| 0 <= j < parts.len() implies (#[trigger] number(parts[j])) is Some by {
                assert(number(parts[j]) == Some(numbers@[j] as int));
            }
        }
        Date::from_civil(numbers[2] as i32, numbers[1] as u32, numbers[0] as u32)
    }

    /// Tells whether `year` is a leap year.
    pub fn is_leap_year(year: u16) -> (r: bool)
        ensures
            r == is_leap(year as int),
    {
        year % 4 == 0 && year % 100 != 0 || year % 400 == 0
    }

    /// Tells whether this date's year is a leap year.
    pub fn leap_year(&self) -> (r: bool)
        ensures
            r == is_leap(self@.year),
    {
        Date::is_leap_year(self.year)
    }

    /// Number of days of `month` in `year`.
    pub fn max_day_of(year: u16, month: u8) -> (r: u8)
        ensures
            r == days_in_month(year as int, month as int),
    {
        if month == 2 {
            if Date::is_leap_year(year) {
                return 29;
            }
            return 28;
        }
        if month == 1 || month == 3 || month == 5 || month == 7 || month == 8 || month == 10
            || month == 12 {
            return 31;
        }
        30
    }

    /// Number of days of this date's month.
    pub fn get_max_day(&self) -> (r: u8)
        ensures
            r == days_in_month(self@.year, self@.month),
    {
        Date::max_day_of(self.year, self.month)
    }

    /// Name of this date's month.
    pub fn get_month_name(&self) -> (r: &'static str)
        ensures
            r@ == month_name(self@.month),
    {
        proof {
            use_type_invariant(self);
        }
        match self.month {
            1 => "January",
            2 => "February",
            3 => "March",
            4 => "April",
            5 => "May",
            6 => "June",
            7 => "July",
            8 => "August",
            9 => "September",
            10 => "October",
            11 => "November",
            _ => "December",
        }
    }

    /// The date one month later. The last month of year 65535 has none.
    pub fn next_month(&self) -> (r: Date)
        requires
            self@.month < 12 || self@.year < u16::MAX,
        ensures
            r@ == successor_month(self@),
    {
        proof {
            use_type_invariant(self);
        }
        let year: u16 = if self.month == 12 {
            self.year + 1
        } else {
            self.year
        };
        let month: u8 = if self.month == 12 {
            1
        } else {
            self.month + 1
        };
        let last: u8 = Date::max_day_of(year, month);
        let day: u8 = if self.day > last {
            last
        } else {
            self.day
        };
        Date { year, month, day }
    }

    /// The following day. The last day of year 65535 has none.
    pub fn next_day(&self) -> (r: Date)
        requires
            before(self@, (Civil { year: u16::MAX as int, month: 12, day: 31 })),
        ensures
            r@ == successor_day(self@),
            before(self@, r@),
    {
        proof {
            use_type_invariant(self);
        }
        if self.day < self.get_max_day() {
            Date { year: self.year, month: self.month, day: self.day + 1 }
        } else if self.month < 12 {
            Date { year: self.year, month: self.month + 1, day: 1 }
        } else {
            Date { year: self.year + 1, month: 1, day: 1 }
        }
    }

    /// Whether this date comes strictly before `other`.
    pub fn is_before(&self, other: &Date) -> (r: bool)
        ensures
            r == before(self@, other@),
    {
        self.year < other.year || (self.year == other.year && (self.month < other.month || (
        self.month == other.month && self.day < other.day)))
    }

    /// Number of full years between this date and `other`, whichever comes
    /// first.
    pub fn years_from(&self, other: Date) -> (r: u16)
        ensures
            r == full_years_between(self@, other@),
    {
        proof {
            use_type_invariant(self);
            use_type_invariant(&other);
        }
        let swap = other.is_before(self);
        let left: Date = if swap {
            other
        } else {
            *self
        };
        let right: Date = if swap {
            *self
        } else {
            other
        };
        let mut diff: u16 = right.year - left.year;
        if right.month < left.month || (right.month == left.month && right.day < left.day) {
            diff -= 1;
        }
        diff
    }

    /// This date as a text: the day, the month's name and the year.
    pub fn to_string(&self) -> (r: String)
        ensures
            r@ == display(self@),
    {
        proof {
            reveal_strlit(" ");
        }
        let mut s = decimal_string(self.day as u16);
        s.append(" ");
        s.append(self.get_month_name());
        s.append(" ");
        let year = decimal_string(self.year);
        s.append(year.as_str());
        assert(s@ =~= display(self@));
        s
    }

    /// The year, from 1.
    pub fn year(&self) -> (r: u16)
        ensures
            r == self@.year,
            r >= 1,
    {
        proof {
            use_type_invariant(self);
        }
        self.year
    }

    /// The month, from 1 to 12.
    pub fn month(&self) -> (r: u8)
        ensures
            r == self@.month,
            1 <= r <= 12,
    {
        proof {
            use_type_invariant(self);
        }
        self.month
    }

    /// The day of the month, from 1.
    pub fn day(&self) -> (r: u8)
        ensures
            r == self@.day,
            1 <= r <= days_in_month(self@.year, self@.month),
    {
        proof {
            use_type_invariant(self);
        }
        self.day
    }
}

impl PartialOrd for Date {
    /// Dates are totally ordered: the result is never `None`.
    fn partial_cmp(&self, other: &Date) -> (r: Option<Ordering>) {
        if self.is_before(other) {
            Some(Ordering::Less)
        } else if other.is_before(self) {
            Some(Ordering::Greater)
        } else {
            Some(Ordering::Equal)
        }
    }
}

impl vstd::std_specs::cmp::PartialOrdSpecImpl for Date {
    open spec fn obeys_partial_cmp_spec() -> bool {
        true
    }

    open spec fn partial_cmp_spec(&self, other: &Date) -> Option<Ordering> {
        if before(self@, other@) {
            Some(Ordering::Less)
        } else if before(other@, self@) {
            Some(Ordering::Greater)
        } else {
            Some(Ordering::Equal)
        }
    }
}

} // verus!
