//! Civil calendar dates (proleptic Gregorian), held as plain year/month/day
//! values so that scheduling and status logic can be reasoned about.

use vstd::prelude::*;

use crate::text::{padded, padded_digits, string_of};

verus! {

/// Smallest representable year.
pub const MIN_YEAR: i16 = -9999;

/// Largest representable year.
pub const MAX_YEAR: i16 = 9999;

/// A civil date: a year, a month (1..=12) and a day of that month.
///
/// A `Date` is well formed when [`Date::wf`] holds; every constructor of this
/// library produces well-formed dates.
#[derive(Debug, Clone, Copy, PartialEq, Eq, Structural)]
pub struct Date {
    pub year: i16,
    pub month: i8,
    pub day: i8,
}

/// Whether `y` is a leap year of the Gregorian calendar.
pub open spec fn is_leap_year(y: int) -> bool {
    (y % 4 == 0 && y % 100 != 0) || y % 400 == 0
}

/// The number of days in month `m` (1..=12) of year `y`.
pub open spec fn month_length(y: int, m: int) -> int {
    if m == 2 {
        if is_leap_year(y) { 29 } else { 28 }
    } else if m == 4 || m == 6 || m == 9 || m == 11 {
        30
    } else {
        31
    }
}

/// Whether (`y`, `m`, `d`) names a representable calendar date.
pub open spec fn valid_ymd(y: int, m: int, d: int) -> bool {
    &&& MIN_YEAR <= y <= MAX_YEAR
    &&& 1 <= m <= 12
    &&& 1 <= d <= month_length(y, m)
}

impl Date {
    /// The date is a real calendar date within the representable range.
    pub open spec fn wf(self) -> bool {
        valid_ymd(self.year as int, self.month as int, self.day as int)
    }

    /// Strict chronological order: `self` comes before `other`.
    pub open spec fn before(self, other: Date) -> bool {
        ||| self.year < other.year
        ||| (self.year == other.year && self.month < other.month)
        ||| (self.year == other.year && self.month == other.month && self.day < other.day)
    }

    /// `self` is on or before `other`.
    pub open spec fn on_or_before(self, other: Date) -> bool {
        self.before(other) || self == other
    }

    /// Builds the date (`year`, `month`, `day`), or `None` when those values do
    /// not name a representable calendar date.
    pub fn new(year: i16, month: i8, day: i8) -> (res: Option<Date>)
        ensures
            res is Some <==> valid_ymd(year as int, month as int, day as int),
            res matches Some(d) ==> d.year == year && d.month == month && d.day == day,
    {
        if year < MIN_YEAR || year > MAX_YEAR || month < 1 || month > 12 || day < 1 {
            return None;
        }
        if day > days_in_month(year, month) {
            return None;
        }
        Some(Date { year, month, day })
    }

    /// Whether `self` comes strictly before `other`.
    pub fn is_before(&self, other: &Date) -> (res: bool)
        ensures
            res == self.before(*other),
    {
        if self.year != other.year {
            self.year < other.year
        } else if self.month != other.month {
            self.month < other.month
        } else {
            self.day < other.day
        }
    }

    /// The later of two dates.
    pub fn latest(self, other: Date) -> (res: Date)
        ensures
            res == (if self.before(other) { other } else { self }),
    {
        if self.is_before(&other) {
            other
        } else {
            self
        }
    }
}

/// Builds a date that is known to be valid.
pub fn date(year: i16, month: i8, day: i8) -> (res: Date)
    requires
        valid_ymd(year as int, month as int, day as int),
    ensures
        res.year == year,
        res.month == month,
        res.day == day,
        res.wf(),
{
    Date { year, month, day }
}

/// Whether `year` is a Gregorian leap year.
pub fn leap_year(year: i16) -> (res: bool)
    ensures
        res == is_leap_year(year as int),
{
    let y: i32 = year as i32;
    let by4: bool = y % 4 == 0;
    let by100: bool = y % 100 == 0;
    let by400: bool = y % 400 == 0;
    proof {
        lemma_rem_zero_agrees(y as int, 4);
        lemma_rem_zero_agrees(y as int, 100);
        lemma_rem_zero_agrees(y as int, 400);
    }
    (by4 && !by100) || by400
}

/// Rust's truncating remainder is zero exactly when the Euclidean one is.
proof fn lemma_rem_zero_agrees(y: int, k: int)
    requires
        k > 0,
        -40000 <= y <= 40000,
    ensures
        (y % k == 0) <==> ((if y >= 0 { y % k } else { -((-y) % k) }) == 0),
{
    if y < 0 {
        let a: int = -y;
        let q: int = a / k;
        let r: int = a % k;
        assert(a == k * q + r) by (nonlinear_arith)
            requires
                k > 0,
                q == a / k,
                r == a % k,
        ;
        if r == 0 {
            assert(y == k * (-q)) by (nonlinear_arith)
                requires
                    a == k * q,
                    y == -a,
            ;
            vstd::arithmetic::div_mod::lemma_mod_multiples_basic(-q, k);
            assert(y % k == (k * (-q)) % k);
            assert((-q) * k == k * (-q)) by (nonlinear_arith);
        } else {
            if y % k == 0 {
                let q2: int = y / k;
                assert(y == k * q2) by (nonlinear_arith)
                    requires
                        k > 0,
                        q2 == y / k,
                        y % k == 0,
                ;
                assert(a == k * (-q2)) by (nonlinear_arith)
                    requires
                        y == k * q2,
                        a == -y,
                ;
                vstd::arithmetic::div_mod::lemma_mod_multiples_basic(-q2, k);
                assert((-q2) * k == k * (-q2)) by (nonlinear_arith);
                assert(false);
            }
        }
    }
}

/// The number of days in `month` of `year`.
pub fn days_in_month(year: i16, month: i8) -> (res: i8)
    requires
        1 <= month <= 12,
    ensures
        res as int == month_length(year as int, month as int),
        28 <= res <= 31,
{
    if month == 2 {
        if leap_year(year) {
            29
        } else {
            28
        }
    } else if month == 4 || month == 6 || month == 9 || month == 11 {
        30
    } else {
        31
    }
}

/// The number of days from 0001-01-01 to the first day of year `y`
/// (negative for earlier years), in the proleptic Gregorian calendar.
pub open spec fn days_before_year(y: int) -> int {
    365 * (y - 1) + (y - 1) / 4 - (y - 1) / 100 + (y - 1) / 400
}

/// The number of days in the months of year `y` before month `m`.
pub open spec fn days_before_month(y: int, m: int) -> int
    decreases m,
{
    if m <= 1 {
        0
    } else {
        days_before_month(y, m - 1) + month_length(y, m - 1)
    }
}

/// The day number of a date: 0001-01-01 is day 0, and consecutive dates have
/// consecutive numbers.
pub open spec fn day_number(d: Date) -> int {
    days_before_year(d.year as int) + days_before_month(d.year as int, d.month as int) + d.day - 1
}

/// The number of days in year `y`.
pub open spec fn year_length(y: int) -> int {
    if is_leap_year(y) { 366 } else { 365 }
}

/// A year holds 365 days, or 366 in a leap year.
proof fn lemma_year_length(y: int)
    ensures
        days_before_year(y + 1) == days_before_year(y) + year_length(y),
{
    let a = y - 1;
    assert((a + 1) / 4 - a / 4 == if y % 4 == 0 { 1int } else { 0int });
    assert((a + 1) / 100 - a / 100 == if y % 100 == 0 { 1int } else { 0int });
    assert((a + 1) / 400 - a / 400 == if y % 400 == 0 { 1int } else { 0int });
}

/// Years start later the later they are.
proof fn lemma_days_before_year_grows(y1: int, y2: int)
    requires
        y1 < y2,
    ensures
        days_before_year(y1) + year_length(y1) <= days_before_year(y2),
    decreases y2 - y1,
{
    lemma_year_length(y1);
    if y1 + 1 < y2 {
        lemma_days_before_year_grows(y1 + 1, y2);
    }
}

/// Months start later the later they are, and the twelve months fill the
/// year.
proof fn lemma_days_before_month_grows(y: int, m1: int, m2: int)
    requires
        1 <= m1 <= m2 <= 13,
    ensures
        days_before_month(y, m1) <= days_before_month(y, m2),
        0 <= days_before_month(y, m1),
        days_before_month(y, 13) == year_length(y),
    decreases m2 - m1,
{
    reveal_with_fuel(days_before_month, 13);
    if m1 < m2 {
        lemma_days_before_month_grows(y, m1 + 1, m2);
    }
}

/// Day numbers follow the order of dates.
pub proof fn lemma_day_number_order(a: Date, b: Date)
    requires
        a.wf(),
        b.wf(),
        a.before(b),
    ensures
        day_number(a) < day_number(b),
{
    let (ya, yb) = (a.year as int, b.year as int);
    let (ma, mb) = (a.month as int, b.month as int);
    if ya < yb {
        lemma_days_before_month_grows(ya, ma + 1, 13);
        lemma_days_before_month_grows(yb, 1, mb);
        lemma_days_before_year_grows(ya, yb);
    } else if ma < mb {
        lemma_days_before_month_grows(ya, ma + 1, mb);
    }
}

/// Two real dates with the same day number are the same date.
pub proof fn lemma_day_number_injective(a: Date, b: Date)
    requires
        a.wf(),
        b.wf(),
        day_number(a) == day_number(b),
    ensures
        a == b,
{
    if a.before(b) {
        lemma_day_number_order(a, b);
    } else if b.before(a) {
        lemma_day_number_order(b, a);
    }
}

/// The text of a date as `jiff` writes it: the year with at least four
/// digits (a negative year as `-00` and four digits), then `-MM-DD`.
pub open spec fn date_text_of(d: Date) -> Seq<char> {
    let y = if d.year < 0 { -(d.year as int) } else { d.year as int };
    (if d.year < 0 { "-00"@ } else { Seq::empty() }) + padded(y as nat, 4) + "-"@ + padded(
        d.month as nat,
        2,
    ) + "-"@ + padded(d.day as nat, 2)
}

/// The text of a date (`2026-06-06`), as `jiff`'s `Display` writes it.
pub fn date_text(d: Date) -> (res: String)
    requires
        d.wf(),
    ensures
        res@ == date_text_of(d),
{
    let mut out: Vec<char> = Vec::new();
    let y: u64 = if d.year < 0 {
        out.push('-');
        out.push('0');
        out.push('0');
        (-(d.year as i32)) as u64
    } else {
        d.year as u64
    };
    let ghost sign = out@;
    let yd: Vec<char> = padded_digits(y, 4);
    let md: Vec<char> = padded_digits(d.month as u64, 2);
    let dd: Vec<char> = padded_digits(d.day as u64, 2);
    let mut s: Vec<char> = out;
    append_chars(&mut s, &yd);
    s.push('-');
    append_chars(&mut s, &md);
    s.push('-');
    append_chars(&mut s, &dd);
    proof {
        reveal_strlit("-00");
        reveal_strlit("-");
        if d.year < 0 {
            assert(sign =~= "-00"@);
        } else {
            assert(sign =~= Seq::<char>::empty());
        }
        assert(s@ =~= date_text_of(d));
    }
    string_of(s.as_slice())
}

/// Appends the characters of `v` to `s`.
fn append_chars(s: &mut Vec<char>, v: &Vec<char>)
    ensures
        final(s)@ == old(s)@ + v@,
{
    let mut i: usize = 0;
    while i < v.len()
        invariant
            i <= v@.len(),
            s@ == old(s)@ + v@.take(i as int),
        decreases v@.len() - i,
    {
        s.push(v[i]);
        assert(v@.take(i + 1) =~= v@.take(i as int).push(v@[i as int]));
        i = i + 1;
    }
    assert(v@.take(v@.len() as int) =~= v@);
}

/// The Gregorian month lengths, by the knuckle rule: from January to July the
/// odd months have 31 days, from August to December the even ones do; the
/// other months have 30, except February, which has 29 in a leap year and 28
/// otherwise. The twelve months make up the year.
pub proof fn lemma_month_lengths(y: int, m: int)
    requires
        1 <= m <= 12,
    ensures
        m != 2 ==> month_length(y, m) == (if (m <= 7) == (m % 2 == 1) { 31int } else { 30int }),
        m == 2 ==> month_length(y, m) == (if (y % 4 == 0 && y % 100 != 0) || y % 400 == 0 {
            29int
        } else {
            28int
        }),
        month_length(y, 1) + month_length(y, 2) + month_length(y, 3) + month_length(y, 4)
            + month_length(y, 5) + month_length(y, 6) + month_length(y, 7) + month_length(y, 8)
            + month_length(y, 9) + month_length(y, 10) + month_length(y, 11) + month_length(y, 12)
            == (if (y % 4 == 0 && y % 100 != 0) || y % 400 == 0 { 366int } else { 365int }),
{
}

/// Consecutive dates have consecutive day numbers: the day after a date is
/// the next day of its month, else the first of the next month, else (after
/// December 31) January 1 of the next year, and its number is one more.
pub proof fn lemma_next_day(d: Date)
    requires
        d.wf(),
        d.year < MAX_YEAR || d.month < 12 || d.day < month_length(d.year as int, d.month as int),
    ensures
        ({
            let next = if d.day < month_length(d.year as int, d.month as int) {
                Date { year: d.year, month: d.month, day: (d.day + 1) as i8 }
            } else if d.month < 12 {
                Date { year: d.year, month: (d.month + 1) as i8, day: 1 }
            } else {
                Date { year: (d.year + 1) as i16, month: 1, day: 1 }
            };
            next.wf() && d.before(next) && day_number(next) == day_number(d) + 1
        }),
{
    let y = d.year as int;
    if d.day < month_length(y, d.month as int) {
    } else if d.month < 12 {
        assert(days_before_month(y, d.month + 1) == days_before_month(y, d.month as int) + month_length(
            y,
            d.month as int,
        ));
    } else {
        lemma_days_before_month_grows(y, 1, 13);
        lemma_year_length(y);
        reveal_with_fuel(days_before_month, 13);
    }
}

} // verus!
