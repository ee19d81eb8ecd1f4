//! Scheduling engine: recurrence intervals, relative and calendar-fixed
//! schedules, and the parsing of `every`/`on` specs.

use vstd::prelude::*;

use crate::date::{
    date, day_number, days_in_month, lemma_day_number_injective, month_length, Date, MAX_YEAR,
    MIN_YEAR,
};
use crate::error::Error;
use crate::schema::{OnSpec, OnSpecView};
use crate::text::{
    chars_eq, chars_of, debug_quoted, decimal_text, digits_value, int_to_string, lowercase,
    parse_i64, spec_parse_i64, split_words, str_debug, string_of, to_lowercase, trim_chars,
    trimmed, words, all_digits,
};

verus! {

#[verifier::external_type_specification]
#[verifier::external_body]
pub struct ExSpan(jiff::Span);

/// The calendar unit of an [`Interval`].
#[derive(Debug, Clone, Copy, PartialEq, Eq, Structural)]
pub enum SpanUnit {
    Days,
    Weeks,
    Months,
    Years,
}

/// A length of calendar time: `count` whole units (what the data files call
/// an interval, e.g. `6 months`).
#[derive(Debug, Clone, Copy, PartialEq, Eq, Structural)]
pub struct Interval {
    pub unit: SpanUnit,
    pub count: i64,
}

/// The largest number of each unit that a `jiff::Span` can hold.
pub open spec fn span_limit(u: SpanUnit) -> int {
    match u {
        SpanUnit::Days => 7_304_484,
        SpanUnit::Weeks => 1_043_497,
        SpanUnit::Months => 239_976,
        SpanUnit::Years => 19_998,
    }
}

impl Interval {
    /// The interval can be represented as a `jiff::Span`.
    pub open spec fn fits(self) -> bool {
        -span_limit(self.unit) <= self.count <= span_limit(self.unit)
    }
}

/// The smaller of two integers.
pub open spec fn min_int(a: int, b: int) -> int {
    if a <= b { a } else { b }
}

/// The date `n` months after `d` (negative `n`: before), with the day clamped
/// to the length of the target month; `None` when the year leaves the
/// representable range.
pub open spec fn months_later(d: Date, n: int) -> Option<Date> {
    let total = d.month - 1 + n;
    let y = d.year + total / 12;
    let m = total % 12 + 1;
    if MIN_YEAR <= y <= MAX_YEAR {
        Some(
            Date {
                year: y as i16,
                month: m as i8,
                day: min_int(d.day as int, month_length(y, m)) as i8,
            },
        )
    } else {
        None
    }
}

/// The real date whose day number is `n`, if there is one in the
/// representable range.
pub open spec fn date_of_day(n: int) -> Option<Date> {
    if exists|r: Date| r.wf() && day_number(r) == n {
        Some(choose|r: Date| r.wf() && day_number(r) == n)
    } else {
        None
    }
}

/// The date `days` days after `d` (before it, for negative `days`).
pub open spec fn days_later(d: Date, days: int) -> Option<Date> {
    date_of_day(day_number(d) + days)
}

/// The number of whole days in `sign * i`, for a day or week interval.
pub open spec fn span_days(i: Interval, sign: int) -> int {
    match i.unit {
        SpanUnit::Weeks => 7 * sign * i.count,
        _ => sign * i.count,
    }
}

/// The interval is counted in whole days (days or weeks).
pub open spec fn in_days(i: Interval) -> bool {
    i.unit is Days || i.unit is Weeks
}

/// The date `sign * i` after `d`, as `jiff` computes it: day and week spans
/// move by whole days, month and year spans move the month and clamp the day.
pub open spec fn shifted(d: Date, i: Interval, sign: int) -> Option<Date> {
    match i.unit {
        SpanUnit::Days => days_later(d, sign * i.count),
        SpanUnit::Weeks => days_later(d, 7 * sign * i.count),
        SpanUnit::Months => months_later(d, sign * i.count),
        SpanUnit::Years => months_later(d, 12 * sign * i.count),
    }
}

/// Builds the `jiff::Span` of `count` units (`Span::new().days(..)` and its
/// siblings); nothing is stated of the opaque result.
#[verifier::external_body]
fn jiff_span(i: Interval) -> jiff::Span
    requires
        i.fits(),
{
    match i.unit {
        SpanUnit::Days => jiff::Span::new().days(i.count),
        SpanUnit::Weeks => jiff::Span::new().weeks(i.count),
        SpanUnit::Months => jiff::Span::new().months(i.count),
        SpanUnit::Years => jiff::Span::new().years(i.count),
    }
}

/// The text of the error that `jiff`'s `Span::try_days` (or its sibling for
/// the unit) reports for an interval beyond the unit's limit.
pub uninterp spec fn jiff_span_error(i: Interval) -> Seq<char>;

/// The text of the error that `jiff`'s `Date::checked_add` reports when
/// adding the span of `i` to `d` leaves the representable range.
pub uninterp spec fn jiff_add_error(d: Date, i: Interval) -> Seq<char>;

/// The text of the error that `jiff`'s `Date::checked_sub` reports when
/// subtracting the span of `i` from `d` leaves the representable range.
pub uninterp spec fn jiff_sub_error(d: Date, i: Interval) -> Seq<char>;

/// Asks `jiff` whether the interval is a valid span (`Span::try_days` and its
/// siblings). Claims what their documentation gives: they fail exactly
/// outside `-limit..=limit` for the unit. The error's text is named
/// [`jiff_span_error`] of the interval, not spelled out.
#[verifier::external_body]
fn jiff_check_span(i: Interval) -> (res: Result<(), String>)
    ensures
        res is Ok <==> i.fits(),
        res matches Err(m) ==> m@ == jiff_span_error(i),
{
    let r = match i.unit {
        SpanUnit::Days => jiff::Span::new().try_days(i.count),
        SpanUnit::Weeks => jiff::Span::new().try_weeks(i.count),
        SpanUnit::Months => jiff::Span::new().try_months(i.count),
        SpanUnit::Years => jiff::Span::new().try_years(i.count),
    };
    match r {
        Ok(_) => Ok(()),
        Err(e) => Err(e.to_string()),
    }
}

/// Calls `jiff::civil::Date::checked_add` with the span of `i`.
///
/// Claims what `jiff`'s source shows: day and week spans move by that many
/// whole days (a week is seven days), month and year spans move the month
/// (carrying into the year) and clamp the day to the target month; the call
/// fails exactly when no date in `-9999..=9999` is the target. Any result is a
/// valid date, later than `d` for a positive span and earlier for a negative
/// one. The error's text is named [`jiff_add_error`] of the arguments.
#[verifier::external_body]
fn jiff_checked_add(d: Date, i: Interval) -> (res: Result<Date, String>)
    requires
        d.wf(),
        i.fits(),
    ensures
        res is Ok <==> shifted(d, i, 1) is Some,
        res matches Err(m) ==> m@ == jiff_add_error(d, i),
        res matches Ok(r) ==> r.wf() && (i.count > 0 ==> d.before(r)) && (i.count < 0
            ==> r.before(d)),
        res matches Ok(r) ==> (in_days(i) ==> day_number(r) == day_number(d) + span_days(i, 1)),
        res matches Ok(r) ==> (!in_days(i) ==> shifted(d, i, 1) == Some(r)),
{
    let day = jiff::civil::date(d.year, d.month, d.day);
    match day.checked_add(jiff_span(i)) {
        Ok(r) => Ok(Date { year: r.year(), month: r.month(), day: r.day() }),
        Err(e) => Err(e.to_string()),
    }
}

/// Calls `jiff::civil::Date::checked_sub` with the span of `i`, which `jiff`
/// documents as `checked_add` with the span negated; claims the same as
/// [`jiff_checked_add`] for `-i`. The error's text is named
/// [`jiff_sub_error`] of the arguments.
#[verifier::external_body]
fn jiff_checked_sub(d: Date, i: Interval) -> (res: Result<Date, String>)
    requires
        d.wf(),
        i.fits(),
    ensures
        res is Ok <==> shifted(d, i, -1) is Some,
        res matches Err(m) ==> m@ == jiff_sub_error(d, i),
        res matches Ok(r) ==> r.wf() && (i.count > 0 ==> r.before(d)) && (i.count < 0
            ==> d.before(r)),
        res matches Ok(r) ==> (in_days(i) ==> day_number(r) == day_number(d) + span_days(i, -1)),
        res matches Ok(r) ==> (!in_days(i) ==> shifted(d, i, -1) == Some(r)),
{
    let day = jiff::civil::date(d.year, d.month, d.day);
    match day.checked_sub(jiff_span(i)) {
        Ok(r) => Ok(Date { year: r.year(), month: r.month(), day: r.day() }),
        Err(e) => Err(e.to_string()),
    }
}

/// A real date with the day number `n` is the date of day `n`.
proof fn lemma_date_of_day(r: Date, n: int)
    requires
        r.wf(),
        day_number(r) == n,
    ensures
        date_of_day(n) == Some(r),
{
    let c = choose|c: Date| c.wf() && day_number(c) == n;
    lemma_day_number_injective(c, r);
}

/// `d` moved forward by the interval `i`.
pub fn date_plus(d: Date, i: Interval) -> (res: Result<Date, Error>)
    requires
        d.wf(),
        i.fits(),
    ensures
        res is Ok <==> shifted(d, i, 1) is Some,
        res matches Ok(r) ==> shifted(d, i, 1) == Some(r) && r.wf(),
        res matches Ok(r) ==> (i.count > 0 ==> d.before(r)),
        res matches Err(e) ==> (e matches Error::Schedule(m) && m@ == jiff_add_error(d, i)),
{
    match jiff_checked_add(d, i) {
        Ok(r) => {
            proof {
                if in_days(i) {
                    lemma_date_of_day(r, day_number(d) + span_days(i, 1));
                }
            }
            Ok(r)
        },
        Err(m) => Err(Error::Schedule(m)),
    }
}

/// `d` moved back by the interval `i`.
pub fn date_minus(d: Date, i: Interval) -> (res: Result<Date, Error>)
    requires
        d.wf(),
        i.fits(),
    ensures
        res is Ok <==> shifted(d, i, -1) is Some,
        res matches Ok(r) ==> shifted(d, i, -1) == Some(r) && r.wf(),
        res matches Ok(r) ==> (i.count > 0 ==> r.before(d)),
        res matches Err(e) ==> (e matches Error::Schedule(m) && m@ == jiff_sub_error(d, i)),
{
    match jiff_checked_sub(d, i) {
        Ok(r) => {
            proof {
                if in_days(i) {
                    lemma_date_of_day(r, day_number(d) + span_days(i, -1));
                }
            }
            Ok(r)
        },
        Err(m) => Err(Error::Schedule(m)),
    }
}

/// What a recurrence interval spec parses to.
pub enum IntervalOutcome {
    /// A valid interval.
    Parsed(Interval),
    /// Rejected, with this message.
    Rejected(Seq<char>),
    /// Well formed, but too large for a `jiff::Span`.
    OutOfRange(Interval),
}

/// The unit named by a word of an `N <unit>` interval.
pub open spec fn unit_named(w: Seq<char>) -> Option<SpanUnit> {
    if w == "day"@ || w == "days"@ {
        Some(SpanUnit::Days)
    } else if w == "week"@ || w == "weeks"@ {
        Some(SpanUnit::Weeks)
    } else if w == "month"@ || w == "months"@ {
        Some(SpanUnit::Months)
    } else if w == "year"@ || w == "years"@ {
        Some(SpanUnit::Years)
    } else {
        None
    }
}

/// The interval of a named cadence (`weekly`, `monthly`, `quarterly`, `yearly`).
pub open spec fn named_interval(norm: Seq<char>) -> Option<Interval> {
    if norm == "weekly"@ {
        Some(Interval { unit: SpanUnit::Weeks, count: 1 })
    } else if norm == "monthly"@ {
        Some(Interval { unit: SpanUnit::Months, count: 1 })
    } else if norm == "quarterly"@ {
        Some(Interval { unit: SpanUnit::Months, count: 3 })
    } else if norm == "yearly"@ {
        Some(Interval { unit: SpanUnit::Years, count: 1 })
    } else {
        None
    }
}

/// The words of `ws` are the single word `w`.
pub open spec fn is_word(ws: Seq<Seq<char>>, w: Seq<char>) -> bool {
    ws.len() == 1 && ws[0] == w
}

/// The meaning of an interval spec `text` whose trimmed, lower-cased form is
/// `norm`: a single named cadence, or exactly two words `N <unit>` with
/// `N >= 1`. Messages quote `text` as written.
pub open spec fn interval_outcome_of(text: Seq<char>, norm: Seq<char>) -> IntervalOutcome {
    let ws = words(norm);
    if ws.len() == 1 && named_interval(ws[0]) is Some {
        IntervalOutcome::Parsed(named_interval(ws[0])->0)
    } else {
        if ws.len() != 2 {
            IntervalOutcome::Rejected("unrecognized interval: "@ + str_debug(text))
        } else {
            match spec_parse_i64(ws[0]) {
                None => IntervalOutcome::Rejected("invalid interval count: "@ + str_debug(ws[0])),
                Some(c) => if c < 1 {
                    IntervalOutcome::Rejected(
                        "interval count must be >= 1, got "@ + decimal_text(c as int),
                    )
                } else {
                    match unit_named(ws[1]) {
                        None => IntervalOutcome::Rejected(
                            "unknown interval unit: "@ + str_debug(ws[1]),
                        ),
                        Some(u) => {
                            let i = Interval { unit: u, count: c };
                            if i.fits() {
                                IntervalOutcome::Parsed(i)
                            } else {
                                IntervalOutcome::OutOfRange(i)
                            }
                        },
                    }
                },
            }
        }
    }
}

/// The meaning of an interval spec `text`: it is trimmed and lower-cased, then
/// read by [`interval_outcome_of`].
pub open spec fn interval_outcome(text: Seq<char>) -> IntervalOutcome {
    interval_outcome_of(text, lowercase(trimmed(text)))
}

/// `e` is the error that an interval spec `text` is rejected with.
pub open spec fn interval_error(text: Seq<char>, e: Error) -> bool {
    match interval_outcome(text) {
        IntervalOutcome::Parsed(_) => false,
        IntervalOutcome::Rejected(msg) => e matches Error::Schedule(m) && m@ == msg,
        IntervalOutcome::OutOfRange(i) => e matches Error::Schedule(m) && m@ == jiff_span_error(i),
    }
}

/// The interval that `text` parses to, if any.
pub open spec fn interval_of(text: Seq<char>) -> Option<Interval> {
    match interval_outcome(text) {
        IntervalOutcome::Parsed(i) => Some(i),
        _ => None,
    }
}

/// `res` is what [`parse_interval`] owes for `text`.
pub open spec fn parse_interval_result(text: Seq<char>, res: Result<Interval, Error>) -> bool {
    match res {
        Ok(i) => interval_of(text) == Some(i),
        Err(e) => interval_error(text, e),
    }
}

/// `res` is what parsing the interval spec `text`, whose trimmed, lower-cased
/// form is `norm`, owes.
pub open spec fn lowered_interval_result(text: Seq<char>, norm: Seq<char>, res: Result<Interval, Error>) -> bool {
    match interval_outcome_of(text, norm) {
        IntervalOutcome::Parsed(i) => res == Ok::<Interval, Error>(i),
        IntervalOutcome::Rejected(msg) => res matches Err(Error::Schedule(m)) && m@ == msg,
        IntervalOutcome::OutOfRange(i) => res matches Err(Error::Schedule(m)) && m@ == jiff_span_error(i),
    }
}

/// Parses the interval spec `text` from its trimmed, lower-cased form
/// `lowered` (what [`parse_interval`] does after normalising); messages quote
/// `text`.
pub fn parse_lowered_interval(text: &str, lowered: &str) -> (res: Result<Interval, Error>)
    ensures
        lowered_interval_result(text@, lowered@, res),
        res matches Ok(i) ==> i.fits() && i.count >= 1,
{
    let norm: Vec<char> = chars_of(lowered);
    let tokens: Vec<Vec<char>> = split_words(&norm);
    proof {
        assert(tokens@.len() == words(norm@).len());
    }
    if tokens.len() == 1 {
        proof {
            assert(tokens@[0]@ == words(norm@)[0]);
        }
        let w: &Vec<char> = &tokens[0];
        if chars_eq(w, "weekly") {
            return Ok(Interval { unit: SpanUnit::Weeks, count: 1 });
        }
        if chars_eq(w, "monthly") {
            return Ok(Interval { unit: SpanUnit::Months, count: 1 });
        }
        if chars_eq(w, "quarterly") {
            return Ok(Interval { unit: SpanUnit::Months, count: 3 });
        }
        if chars_eq(w, "yearly") {
            return Ok(Interval { unit: SpanUnit::Years, count: 1 });
        }
    }
    if tokens.len() != 2 {
        let mut msg: String = String::from_str("unrecognized interval: ");
        msg.append(debug_quoted(text).as_str());
        return Err(Error::Schedule(msg));
    }
    proof {
        assert(tokens@[0]@ == words(norm@)[0]);
        assert(tokens@[1]@ == words(norm@)[1]);
    }
    let count: i64 = match parse_i64(&tokens[0]) {
        Some(c) => c,
        None => {
            let mut msg: String = String::from_str("invalid interval count: ");
            msg.append(debug_quoted(string_of(tokens[0].as_slice()).as_str()).as_str());
            return Err(Error::Schedule(msg));
        },
    };
    if count < 1 {
        let mut msg: String = String::from_str("interval count must be >= 1, got ");
        msg.append(int_to_string(count).as_str());
        return Err(Error::Schedule(msg));
    }
    let unit_word: &Vec<char> = &tokens[1];
    let unit: SpanUnit = if chars_eq(unit_word, "day") || chars_eq(unit_word, "days") {
        SpanUnit::Days
    } else if chars_eq(unit_word, "week") || chars_eq(unit_word, "weeks") {
        SpanUnit::Weeks
    } else if chars_eq(unit_word, "month") || chars_eq(unit_word, "months") {
        SpanUnit::Months
    } else if chars_eq(unit_word, "year") || chars_eq(unit_word, "years") {
        SpanUnit::Years
    } else {
        let mut msg: String = String::from_str("unknown interval unit: ");
        msg.append(debug_quoted(string_of(unit_word.as_slice()).as_str()).as_str());
        return Err(Error::Schedule(msg));
    };
    let interval = Interval { unit, count };
    match jiff_check_span(interval) {
        Ok(()) => Ok(interval),
        Err(m) => Err(Error::Schedule(m)),
    }
}

/// The trimmed, lower-cased form of `text`.
fn lowered_form(text: &str) -> (res: String)
    ensures
        res@ == lowercase(trimmed(text@)),
{
    let trimmed_chars: Vec<char> = trim_chars(&chars_of(text));
    let trimmed_text: String = string_of(trimmed_chars.as_slice());
    to_lowercase(trimmed_text.as_str())
}

/// Parses a recurrence interval.
///
/// Accepts the named intervals `"weekly"`, `"monthly"`, `"quarterly"`, and
/// `"yearly"`, as well as the form `"N days|weeks|months|years"` (singular
/// units too) where `N` is an integer greater than or equal to one. Input is
/// trimmed and lowercased before matching.
pub fn parse_interval(text: &str) -> (res: Result<Interval, Error>)
    ensures
        parse_interval_result(text@, res),
        res matches Ok(i) ==> i.fits() && i.count >= 1,
{
    let lowered: String = lowered_form(text);
    parse_lowered_interval(text, lowered.as_str())
}

/// A calendar-anchored schedule.
#[derive(Debug, Clone, Copy, PartialEq, Eq, Structural)]
pub enum Fixed {
    /// Due on `month`-`day` every year.
    Yearly { month: i8, day: i8 },
    /// Due on `day` of every month.
    Monthly { day: i8 },
}

impl Fixed {
    /// The month and day are in range (days past a month's end are clamped).
    pub open spec fn wf(self) -> bool {
        match self {
            Fixed::Yearly { month, day } => 1 <= month <= 12 && 1 <= day <= 31,
            Fixed::Monthly { day } => 1 <= day <= 31,
        }
    }
}

/// The occurrence of day `day` in month `m` of year `y`, clamped to the month.
pub open spec fn occurrence(y: int, m: int, day: int) -> Date {
    Date { year: y as i16, month: m as i8, day: min_int(day, month_length(y, m)) as i8 }
}

/// `d` is a date on which the fixed schedule `f` falls due.
pub open spec fn fixed_occurs(f: Fixed, d: Date) -> bool {
    &&& d.wf()
    &&& match f {
        Fixed::Yearly { month, day } => d.month == month && d.day == min_int(
            day as int,
            month_length(d.year as int, month as int),
        ),
        Fixed::Monthly { day } => d.day == min_int(
            day as int,
            month_length(d.year as int, d.month as int),
        ),
    }
}

/// `d` counts as a candidate relative to `anchor`: strictly after it, or on it
/// when `inclusive`.
pub open spec fn reaches(anchor: Date, d: Date, inclusive: bool) -> bool {
    anchor.before(d) || (inclusive && d == anchor)
}

/// The first occurrence of `f` after `anchor` (or on it, when `inclusive`);
/// `None` when it would fall past the representable range.
pub open spec fn fixed_next(f: Fixed, anchor: Date, inclusive: bool) -> Option<Date> {
    match f {
        Fixed::Yearly { month, day } => {
            let c = occurrence(anchor.year as int, month as int, day as int);
            if reaches(anchor, c, inclusive) {
                Some(c)
            } else if anchor.year < MAX_YEAR {
                Some(occurrence(anchor.year + 1, month as int, day as int))
            } else {
                None
            }
        },
        Fixed::Monthly { day } => {
            let c = occurrence(anchor.year as int, anchor.month as int, day as int);
            if reaches(anchor, c, inclusive) {
                Some(c)
            } else if anchor.month < 12 {
                Some(occurrence(anchor.year as int, anchor.month + 1, day as int))
            } else if anchor.year < MAX_YEAR {
                Some(occurrence(anchor.year + 1, 1, day as int))
            } else {
                None
            }
        },
    }
}

/// The occurrence of `day` in (`year`, `month`), clamped to the month's length.
fn clamped(year: i16, month: i8, day: i8) -> (res: Date)
    requires
        MIN_YEAR <= year <= MAX_YEAR,
        1 <= month <= 12,
        1 <= day,
    ensures
        res == occurrence(year as int, month as int, day as int),
        res.wf(),
{
    let last: i8 = days_in_month(year, month);
    let d: i8 = if day <= last { day } else { last };
    date(year, month, d)
}

/// The message used when a fixed schedule has no occurrence left in range.
pub open spec fn out_of_range_message() -> Seq<char> {
    "no occurrence within the representable date range"@
}

/// The first occurrence of `f` after (or, when `inclusive`, on) `anchor`.
fn fixed_search(f: Fixed, anchor: Date, inclusive: bool) -> (res: Result<Date, Error>)
    requires
        f.wf(),
        anchor.wf(),
    ensures
        fixed_next(f, anchor, inclusive) matches Some(d) ==> res == Ok::<Date, Error>(d),
        fixed_next(f, anchor, inclusive) is None ==> (res matches Err(Error::Schedule(m)) && m@
            == out_of_range_message()),
{
    let c: Date = match f {
        Fixed::Yearly { month, day } => clamped(anchor.year, month, day),
        Fixed::Monthly { day } => clamped(anchor.year, anchor.month, day),
    };
    if anchor.is_before(&c) || (inclusive && c == anchor) {
        return Ok(c);
    }
    match f {
        Fixed::Yearly { month, day } => {
            if anchor.year < MAX_YEAR {
                return Ok(clamped(anchor.year + 1, month, day));
            }
        },
        Fixed::Monthly { day } => {
            if anchor.month < 12 {
                return Ok(clamped(anchor.year, anchor.month + 1, day));
            } else if anchor.year < MAX_YEAR {
                return Ok(clamped(anchor.year + 1, 1, day));
            }
        },
    }
    Err(Error::Schedule(String::from_str("no occurrence within the representable date range")))
}

/// The first-occurrence law of fixed schedules: `fixed_next` gives an
/// occurrence of the schedule that lies after the anchor (or on it, when
/// inclusive), no occurrence lies between the anchor and it, and when it gives
/// nothing no occurrence lies after the anchor at all.
pub proof fn lemma_fixed_next_is_first_occurrence(
    f: Fixed,
    anchor: Date,
    inclusive: bool,
    other: Date,
)
    requires
        f.wf(),
        anchor.wf(),
    ensures
        fixed_next(f, anchor, inclusive) matches Some(r) ==> fixed_occurs(f, r) && reaches(
            anchor,
            r,
            inclusive,
        ),
        fixed_next(f, anchor, inclusive) matches Some(r) ==> (fixed_occurs(f, other) && reaches(
            anchor,
            other,
            inclusive,
        ) ==> r.on_or_before(other)),
        fixed_next(f, anchor, inclusive) is None ==> !(fixed_occurs(f, other) && reaches(
            anchor,
            other,
            inclusive,
        )),
{
}

/// A recurrence schedule for a maintenance task.
#[derive(Debug, Clone, Copy, PartialEq, Eq, Structural)]
pub enum Schedule {
    /// A relative interval applied to an anchor date (the last completion).
    Relative(Interval),
    /// A calendar-anchored schedule.
    Fixed(Fixed),
}

impl Schedule {
    /// The schedule's parameters are in range.
    pub open spec fn wf(self) -> bool {
        match self {
            Schedule::Relative(i) => i.fits() && i.count >= 1,
            Schedule::Fixed(f) => f.wf(),
        }
    }

    /// The next due date strictly after `anchor`, when there is one.
    pub open spec fn spec_next_due(self, anchor: Date) -> Option<Date> {
        match self {
            Schedule::Relative(i) => shifted(anchor, i, 1),
            Schedule::Fixed(f) => fixed_next(f, anchor, false),
        }
    }

    /// The message of the error when no next due date follows `anchor`:
    /// `jiff`'s for a relative schedule, the out-of-range message for a fixed
    /// one.
    pub open spec fn next_due_error(self, anchor: Date) -> Seq<char> {
        match self {
            Schedule::Relative(i) => jiff_add_error(anchor, i),
            Schedule::Fixed(_) => out_of_range_message(),
        }
    }

    /// The first due date on or after `on_or_after`, when there is one.
    pub open spec fn spec_first_due(self, on_or_after: Date) -> Option<Date> {
        match self {
            Schedule::Relative(_) => Some(on_or_after),
            Schedule::Fixed(f) => fixed_next(f, on_or_after, true),
        }
    }

    /// Returns the next due date strictly after `anchor`.
    ///
    /// For a [`Schedule::Relative`] this is `anchor` plus the interval; for a
    /// [`Schedule::Fixed`] it is the first calendar occurrence after `anchor`.
    pub fn next_due(&self, anchor: Date) -> (res: Result<Date, Error>)
        requires
            self.wf(),
            anchor.wf(),
        ensures
            self.spec_next_due(anchor) matches Some(d) ==> res == Ok::<Date, Error>(d),
            self.spec_next_due(anchor) is None ==> (res matches Err(Error::Schedule(m)) && m@
                == self.next_due_error(anchor)),
            res matches Ok(d) ==> d.wf() && anchor.before(d),
    {
        match self {
            Schedule::Relative(i) => date_plus(anchor, *i),
            Schedule::Fixed(f) => {
                proof {
                    lemma_fixed_next_is_first_occurrence(*f, anchor, false, anchor);
                }
                fixed_search(*f, anchor, false)
            },
        }
    }

    /// Returns the first due date on or after `on_or_after`.
    ///
    /// For a [`Schedule::Relative`] schedule any date satisfies the interval,
    /// so the boundary date itself is returned unchanged.
    pub fn first_due(&self, on_or_after: Date) -> (res: Result<Date, Error>)
        requires
            self.wf(),
            on_or_after.wf(),
        ensures
            self.spec_first_due(on_or_after) matches Some(d) ==> res == Ok::<Date, Error>(d),
            self.spec_first_due(on_or_after) is None ==> (res matches Err(Error::Schedule(m))
                && m@ == out_of_range_message()),
            res matches Ok(d) ==> d.wf() && on_or_after.on_or_before(d),
    {
        match self {
            Schedule::Relative(_) => Ok(on_or_after),
            Schedule::Fixed(f) => {
                proof {
                    lemma_fixed_next_is_first_occurrence(*f, on_or_after, true, on_or_after);
                }
                fixed_search(*f, on_or_after, true)
            },
        }
    }
}

/// What an `every`/`on` pair parses to.
pub enum ScheduleOutcome {
    /// A valid schedule.
    Parsed(Schedule),
    /// Rejected, with this message.
    Rejected(Seq<char>),
    /// A relative interval too large for a `jiff::Span`.
    OutOfRange(Interval),
}

/// The month and day written as `M-D` or `MM-DD` (one or two ASCII digits on
/// each side of a single `-`), when `t` has that shape.
pub open spec fn month_day_of(t: Seq<char>) -> Option<(int, int)> {
    if t.len() >= 3 && t[1] == '-' {
        split_month_day(t, 1)
    } else if t.len() >= 4 && t[2] == '-' {
        split_month_day(t, 2)
    } else {
        None
    }
}

/// `t` split around the dash at `p`, when both sides are 1 or 2 digits.
pub open spec fn split_month_day(t: Seq<char>, p: int) -> Option<(int, int)> {
    let a = t.take(p);
    let b = t.skip(p + 1);
    if all_digits(a) && all_digits(b) && 1 <= b.len() <= 2 {
        Some((digits_value(a), digits_value(b)))
    } else {
        None
    }
}

/// The meaning of a task's `every` and `on` fields.
///
/// Without `on` the task is relative and `every` is an interval. With `on`,
/// `every` (trimmed, lower-cased) must be `yearly` with an `"MM-DD"` (month
/// 1..=12, day 1..=31) or `monthly` with a day 1..=31.
pub open spec fn schedule_outcome(every: Seq<char>, on: Option<OnSpecView>) -> ScheduleOutcome {
    schedule_outcome_of(every, lowercase(trimmed(every)), on)
}

/// The meaning of a task's `every` and `on` fields, where `lowered` is the
/// trimmed, lower-cased form of `every` (messages quote `every` as written).
pub open spec fn schedule_outcome_of(every: Seq<char>, lowered: Seq<char>, on: Option<OnSpecView>) -> ScheduleOutcome {
    match on {
        None => match interval_outcome_of(every, lowered) {
            IntervalOutcome::Parsed(i) => ScheduleOutcome::Parsed(Schedule::Relative(i)),
            IntervalOutcome::Rejected(m) => ScheduleOutcome::Rejected(m),
            IntervalOutcome::OutOfRange(i) => ScheduleOutcome::OutOfRange(i),
        },
        Some(o) => {
            let period = words(lowered);
            if is_word(period, "yearly"@) {
                match o {
                    OnSpecView::Day(n) => ScheduleOutcome::Rejected(
                        "yearly `on` must be 'MM-DD', got "@ + decimal_text(n as int),
                    ),
                    OnSpecView::MonthDay(s) => match month_day_of(trimmed(s)) {
                        None => ScheduleOutcome::Rejected(
                            "yearly `on` must be 'MM-DD', got "@ + str_debug(s),
                        ),
                        Some((m, d)) => if 1 <= m <= 12 && 1 <= d <= 31 {
                            ScheduleOutcome::Parsed(
                                Schedule::Fixed(Fixed::Yearly { month: m as i8, day: d as i8 }),
                            )
                        } else {
                            ScheduleOutcome::Rejected("invalid month/day in `on`: "@ + str_debug(s))
                        },
                    },
                }
            } else if is_word(period, "monthly"@) {
                match o {
                    OnSpecView::Day(n) => if 1 <= n <= 31 {
                        ScheduleOutcome::Parsed(Schedule::Fixed(Fixed::Monthly { day: n }))
                    } else {
                        ScheduleOutcome::Rejected(
                            "monthly `on` day must be 1..31, got "@ + decimal_text(n as int),
                        )
                    },
                    OnSpecView::MonthDay(s) => ScheduleOutcome::Rejected(
                        "monthly `on` must be a day integer, got "@ + str_debug(s),
                    ),
                }
            } else {
                ScheduleOutcome::Rejected(
                    "fixed schedules require every: yearly|monthly, got "@ + str_debug(every),
                )
            }
        },
    }
}

/// `e` is the error that the `every`/`on` pair is rejected with.
pub open spec fn schedule_error(every: Seq<char>, on: Option<OnSpecView>, e: Error) -> bool {
    match schedule_outcome(every, on) {
        ScheduleOutcome::Parsed(_) => false,
        ScheduleOutcome::Rejected(msg) => e matches Error::Schedule(m) && m@ == msg,
        ScheduleOutcome::OutOfRange(i) => e matches Error::Schedule(m) && m@ == jiff_span_error(i),
    }
}

/// The schedule that the `every`/`on` pair parses to, if any.
pub open spec fn schedule_of(every: Seq<char>, on: Option<OnSpecView>) -> Option<Schedule> {
    match schedule_outcome(every, on) {
        ScheduleOutcome::Parsed(s) => Some(s),
        _ => None,
    }
}

/// The view of an optional `on:` field.
pub open spec fn on_view(on: Option<&OnSpec>) -> Option<OnSpecView> {
    match on {
        Some(o) => Some(o@),
        None => None,
    }
}

/// The value of one or two ASCII digits.
fn small_digits_value(v: &Vec<char>, lo: usize, hi: usize) -> (res: i8)
    requires
        lo < hi <= v@.len(),
        hi - lo <= 2,
        all_digits(v@.subrange(lo as int, hi as int)),
    ensures
        res as int == digits_value(v@.subrange(lo as int, hi as int)),
{
    let ghost s = v@.subrange(lo as int, hi as int);
    assert(s[0] == v@[lo as int]);
    assert('0' <= s[0] <= '9');
    let first: i8 = (v[lo] as u32 - '0' as u32) as i8;
    if hi - lo == 1 {
        assert(s.drop_last() =~= Seq::<char>::empty());
        assert(digits_value(s.drop_last()) == 0);
        assert(s.last() == s[0]);
        first
    } else {
        assert(s[1] == v@[lo + 1]);
        assert('0' <= s[1] <= '9');
        let second: i8 = (v[lo + 1] as u32 - '0' as u32) as i8;
        assert(s.drop_last() =~= seq![s[0]]);
        assert(seq![s[0]].drop_last() =~= Seq::<char>::empty());
        assert(digits_value(seq![s[0]].drop_last()) == 0);
        assert(digits_value(seq![s[0]]) == first);
        assert(s.last() == s[1]);
        first * 10 + second
    }
}

/// Whether `v[lo..hi]` is all ASCII digits.
fn digits_between(v: &Vec<char>, lo: usize, hi: usize) -> (res: bool)
    requires
        lo <= hi <= v@.len(),
    ensures
        res == all_digits(v@.subrange(lo as int, hi as int)),
{
    let mut i: usize = lo;
    while i < hi
        invariant
            lo <= i <= hi <= v@.len(),
            forall|k: int| lo <= k < i ==> '0' <= #[trigger] v@[k] && v@[k] <= '9',
        decreases hi - i,
    {
        if v[i] < '0' || v[i] > '9' {
            assert(v@.subrange(lo as int, hi as int)[i - lo] == v@[i as int]);
            return false;
        }
        i = i + 1;
    }
    assert forall|k: int| 0 <= k < hi - lo implies '0' <= #[trigger] v@.subrange(
        lo as int,
        hi as int,
    )[k] && v@.subrange(lo as int, hi as int)[k] <= '9' by {
        assert(v@.subrange(lo as int, hi as int)[k] == v@[lo + k]);
    }
    true
}

/// Parses an `"MM-DD"` text (after trimming) into its month and day values.
fn parse_month_day(t: &Vec<char>) -> (res: Option<(i8, i8)>)
    ensures
        match month_day_of(t@) {
            Some((m, d)) => res matches Some((rm, rd)) && rm as int == m && rd as int == d,
            None => res is None,
        },
{
    let n: usize = t.len();
    let p: usize = if n >= 3 && t[1] == '-' {
        1
    } else if n >= 4 && t[2] == '-' {
        2
    } else {
        return None;
    };
    assert(t@.take(p as int) =~= t@.subrange(0, p as int));
    assert(t@.skip(p + 1) =~= t@.subrange(p + 1, n as int));
    if !digits_between(t, 0, p) || !digits_between(t, p + 1, n) || n - (p + 1) > 2 {
        return None;
    }
    let m: i8 = small_digits_value(t, 0, p);
    let d: i8 = small_digits_value(t, p + 1, n);
    Some((m, d))
}

/// `res` is what parsing `every` (whose trimmed, lower-cased form is
/// `lowered`) with `on` owes.
pub open spec fn lowered_schedule_result(every: Seq<char>, lowered: Seq<char>, on: Option<OnSpecView>, res: Result<Schedule, Error>) -> bool {
    match schedule_outcome_of(every, lowered, on) {
        ScheduleOutcome::Parsed(s) => res == Ok::<Schedule, Error>(s),
        ScheduleOutcome::Rejected(msg) => res matches Err(Error::Schedule(m)) && m@ == msg,
        ScheduleOutcome::OutOfRange(i) => res matches Err(Error::Schedule(m)) && m@ == jiff_span_error(i),
    }
}

/// Builds the schedule of a task from its `every` and optional `on` fields.
///
/// Without `on` the schedule is relative and `every` is parsed with
/// [`parse_interval`]. With `on`, the schedule is fixed: `every: yearly` with
/// `on: "MM-DD"`, or `every: monthly` with a day-of-month `on`.
pub fn parse_schedule(every: &str, on: Option<&OnSpec>) -> (res: Result<Schedule, Error>)
    ensures
        match res {
            Ok(s) => schedule_of(every@, on_view(on)) == Some(s) && s.wf(),
            Err(e) => schedule_error(every@, on_view(on), e),
        },
{
    let lowered: String = lowered_form(every);
    parse_lowered_schedule(every, lowered.as_str(), on)
}

/// Builds the schedule from `every`, its trimmed, lower-cased form `lowered`
/// and `on` (what [`parse_schedule`] does after normalising).
pub fn parse_lowered_schedule(every: &str, lowered: &str, on: Option<&OnSpec>) -> (res: Result<Schedule, Error>)
    ensures
        lowered_schedule_result(every@, lowered@, on_view(on), res),
        res matches Ok(s) ==> s.wf(),
{
    let o: &OnSpec = match on {
        None => {
            return match parse_lowered_interval(every, lowered) {
                Ok(i) => Ok(Schedule::Relative(i)),
                Err(e) => Err(e),
            };
        },
        Some(o) => o,
    };
    let norm: Vec<char> = chars_of(lowered);
    let period: Vec<Vec<char>> = split_words(&norm);
    proof {
        assert(period@.len() == words(norm@).len());
        if period@.len() == 1 {
            assert(period@[0]@ == words(norm@)[0]);
        }
    }
    let is_yearly: bool = period.len() == 1 && chars_eq(&period[0], "yearly");
    let is_monthly: bool = period.len() == 1 && chars_eq(&period[0], "monthly");
    if is_yearly {
        match o {
            OnSpec::Day(n) => {
                let mut msg: String = String::from_str("yearly `on` must be 'MM-DD', got ");
                msg.append(int_to_string(*n as i64).as_str());
                Err(Error::Schedule(msg))
            },
            OnSpec::MonthDay(s) => {
                let md: Vec<char> = trim_chars(&chars_of(s.as_str()));
                match parse_month_day(&md) {
                    None => {
                        let mut msg: String = String::from_str(
                            "yearly `on` must be 'MM-DD', got ",
                        );
                        msg.append(debug_quoted(s.as_str()).as_str());
                        Err(Error::Schedule(msg))
                    },
                    Some((m, d)) => {
                        if 1 <= m && m <= 12 && 1 <= d && d <= 31 {
                            Ok(Schedule::Fixed(Fixed::Yearly { month: m, day: d }))
                        } else {
                            let mut msg: String = String::from_str("invalid month/day in `on`: ");
                            msg.append(debug_quoted(s.as_str()).as_str());
                            Err(Error::Schedule(msg))
                        }
                    },
                }
            },
        }
    } else if is_monthly {
        match o {
            OnSpec::Day(n) => {
                if 1 <= *n && *n <= 31 {
                    Ok(Schedule::Fixed(Fixed::Monthly { day: *n }))
                } else {
                    let mut msg: String = String::from_str("monthly `on` day must be 1..31, got ");
                    msg.append(int_to_string(*n as i64).as_str());
                    Err(Error::Schedule(msg))
                }
            },
            OnSpec::MonthDay(s) => {
                let mut msg: String = String::from_str(
                    "monthly `on` must be a day integer, got ",
                );
                msg.append(debug_quoted(s.as_str()).as_str());
                Err(Error::Schedule(msg))
            },
        }
    } else {
        let mut msg: String = String::from_str(
            "fixed schedules require every: yearly|monthly, got ",
        );
        msg.append(debug_quoted(every).as_str());
        Err(Error::Schedule(msg))
    }
}

/// The normalisation law of parsing: letter case and whitespace (around and
/// between words) do not matter. Two `every` texts whose trimmed,
/// lower-cased forms have the same words parse, with the same `on`, to the
/// same schedule, and as intervals to the same interval.
pub proof fn lemma_parse_ignores_case_and_padding(a: Seq<char>, b: Seq<char>, on: Option<OnSpecView>)
    requires
        words(lowercase(trimmed(a))) == words(lowercase(trimmed(b))),
    ensures
        interval_of(a) == interval_of(b),
        schedule_of(a, on) == schedule_of(b, on),
{
}

/// The unit law of interval parsing: singular and plural unit names are
/// interchangeable (`day`/`days`, `week`/`weeks`, `month`/`months`,
/// `year`/`years`), and `N <unit>` with a count `N >= 1` that fits a span
/// parses to `N` of that unit. `norm_s` and `norm_p` are normalised texts
/// whose words are the count followed by the singular and the plural name.
pub proof fn lemma_unit_names(
    text: Seq<char>,
    n: Seq<char>,
    singular: Seq<char>,
    plural: Seq<char>,
    unit: SpanUnit,
    norm_s: Seq<char>,
    norm_p: Seq<char>,
)
    requires
        (singular == "day"@ && plural == "days"@ && unit == SpanUnit::Days) || (singular == "week"@
            && plural == "weeks"@ && unit == SpanUnit::Weeks) || (singular == "month"@ && plural
            == "months"@ && unit == SpanUnit::Months) || (singular == "year"@ && plural == "years"@
            && unit == SpanUnit::Years),
        words(norm_s) == seq![n, singular],
        words(norm_p) == seq![n, plural],
    ensures
        interval_outcome_of(text, norm_s) == interval_outcome_of(text, norm_p),
        spec_parse_i64(n) matches Some(c) ==> (c >= 1 && (Interval { unit, count: c }).fits()
            ==> interval_outcome_of(text, norm_p) == IntervalOutcome::Parsed(Interval { unit, count: c })),
{
    reveal_strlit("day");
    reveal_strlit("days");
    reveal_strlit("week");
    reveal_strlit("weeks");
    reveal_strlit("month");
    reveal_strlit("months");
    reveal_strlit("year");
    reveal_strlit("years");
    assert(unit_named(singular) == Some(unit) && unit_named(plural) == Some(unit)) by {
        assert("day"@[0] == 'd' && "days"@[0] == 'd');
        assert("week"@[0] == 'w' && "weeks"@[0] == 'w');
        assert("month"@[0] == 'm' && "months"@[0] == 'm');
        assert("year"@[0] == 'y' && "years"@[0] == 'y');
    }
    let ws = words(norm_s);
    let wp = words(norm_p);
    assert(ws.len() == 2 && ws[0] == n && ws[1] == singular);
    assert(wp.len() == 2 && wp[0] == n && wp[1] == plural);
}

/// The named cadences: `weekly` is one week, `monthly` one month,
/// `quarterly` three months and `yearly` one year.
pub proof fn lemma_named_cadences(text: Seq<char>, norm: Seq<char>, w: Seq<char>)
    requires
        words(norm) == seq![w],
    ensures
        w == "weekly"@ ==> interval_outcome_of(text, norm) == IntervalOutcome::Parsed(
            Interval { unit: SpanUnit::Weeks, count: 1 },
        ),
        w == "monthly"@ ==> interval_outcome_of(text, norm) == IntervalOutcome::Parsed(
            Interval { unit: SpanUnit::Months, count: 1 },
        ),
        w == "quarterly"@ ==> interval_outcome_of(text, norm) == IntervalOutcome::Parsed(
            Interval { unit: SpanUnit::Months, count: 3 },
        ),
        w == "yearly"@ ==> interval_outcome_of(text, norm) == IntervalOutcome::Parsed(
            Interval { unit: SpanUnit::Years, count: 1 },
        ),
{
    reveal_strlit("weekly");
    reveal_strlit("monthly");
    reveal_strlit("quarterly");
    reveal_strlit("yearly");
    assert("weekly"@[0] == 'w' && "monthly"@[0] == 'm' && "quarterly"@[0] == 'q' && "yearly"@[0]
        == 'y');
    assert(words(norm)[0] == w);
}

/// The calendar laws of shifting a date: a year is twelve months and a week
/// is seven days; moving by months lands `n` months later in the calendar
/// (carrying into the year), on the same day of the month or, when that
/// month is shorter, on its last day.
pub proof fn lemma_shift_units(d: Date, n: i64, months: i64, days: i64, sign: int)
    requires
        d.wf(),
        months == 12 * n,
        days == 7 * n,
    ensures
        shifted(d, Interval { unit: SpanUnit::Years, count: n }, sign) == shifted(
            d,
            Interval { unit: SpanUnit::Months, count: months },
            sign,
        ),
        shifted(d, Interval { unit: SpanUnit::Weeks, count: n }, sign) == shifted(
            d,
            Interval { unit: SpanUnit::Days, count: days },
            sign,
        ),
        months_later(d, sign * n) matches Some(r) ==> r.year * 12 + r.month == d.year * 12
            + d.month + sign * n && 1 <= r.month <= 12 && (r.day == d.day || (r.day == month_length(
            r.year as int,
            r.month as int,
        ) && r.day < d.day)),
{
    assert(12 * sign * n == sign * months) by (nonlinear_arith)
        requires
            months == 12 * n,
    ;
    assert(7 * sign * n == sign * days) by (nonlinear_arith)
        requires
            days == 7 * n,
    ;
}

/// The clamping law of fixed schedules: an occurrence of `on: day` falls on
/// that day of its month, or on the month's last day when the month is
/// shorter, never later and never on an earlier day otherwise.
pub proof fn lemma_occurrence_clamps(y: int, m: int, day: int)
    requires
        1 <= m <= 12,
        1 <= day <= 31,
    ensures
        occurrence(y, m, day).day == day || (occurrence(y, m, day).day == month_length(y, m)
            && month_length(y, m) < day),
        occurrence(y, m, day).day <= day,
        occurrence(y, m, day).day <= month_length(y, m),
{
}

} // verus!
