//! Argument logic of the command-line interface: dollar amounts and bucket
//! markers. Argument parsing and output are done by the `lm` binary.

use vstd::prelude::*;

use crate::model::{Completion, Vendor};
use crate::date::{date_text, date_text_of, Date};
use crate::status::{bucket_name, Bucket, TaskStatus};
use crate::text::{
    all_digits, chars_of, debug_quoted, digits_value, parse_i64, slice_chars, spec_parse_i64,
    str_debug, string_of, trim_chars, trimmed,
};

verus! {

/// The index of the first `'.'` in `t`, if any.
pub open spec fn first_dot(t: Seq<char>) -> Option<int> {
    if exists|i: int| 0 <= i < t.len() && t[i] == '.' {
        Some(choose|i: int| 0 <= i < t.len() && t[i] == '.' && forall|j: int| 0 <= j < i ==> t[j] != '.')
    } else {
        None
    }
}

/// The value in cents of a fractional part of one or two digits (`"5"` is 50
/// cents, `"05"` is 5).
pub open spec fn cents_of_fraction(f: Seq<char>) -> int {
    if f.len() == 1 {
        digits_value(f) * 10
    } else {
        digits_value(f)
    }
}

/// The outcome of parsing a dollar amount `s`: the amount in cents, or the
/// message it is rejected with.
///
/// The text is trimmed; it must not be empty nor start with `-`; it is an
/// optional integer dollar part, optionally followed by `.` and one or two
/// digits of cents (an empty dollar part before the `.` is zero dollars).
pub open spec fn cents_outcome(s: Seq<char>) -> Result<int, Seq<char>> {
    let t = trimmed(s);
    if t.len() == 0 {
        Err("cost must not be empty"@)
    } else if t[0] == '-' {
        Err("cost must not be negative"@)
    } else {
        let q = str_debug(t);
        let (dollars, frac, too_many) = match first_dot(t) {
            None => (t, "0"@, false),
            Some(p) => {
                let rest = t.skip(p + 1);
                (t.take(p), rest, first_dot(rest) is Some)
            },
        };
        let dollar_value = if dollars.len() == 0 {
            Some(0i64)
        } else {
            spec_parse_i64(dollars)
        };
        if too_many {
            Err("invalid cost "@ + q + ": too many decimal points"@)
        } else {
            match dollar_value {
                None => Err("invalid cost "@ + q + ": bad dollar amount"@),
                Some(d) => if frac.len() == 0 || frac.len() > 2 || !all_digits(frac) {
                    Err("invalid cost "@ + q + ": cents must be 1 or 2 digits"@)
                } else {
                    Ok(d * 100 + cents_of_fraction(frac))
                },
            }
        }
    }
}

/// The amount that `s` parses to fits in an `i64` (larger ones overflow).
pub open spec fn cents_fit(s: Seq<char>) -> bool {
    cents_outcome(s) matches Ok(v) ==> i64::MIN <= v <= i64::MAX
}

/// The position of the first `'.'` in `v` at or after `from`, or `v.len()`.
fn find_dot(v: &Vec<char>, from: usize) -> (res: usize)
    requires
        from <= v@.len(),
    ensures
        from <= res <= v@.len(),
        res < v@.len() ==> v@[res as int] == '.',
        forall|j: int| from <= j < res ==> v@[j] != '.',
{
    let mut i: usize = from;
    while i < v.len() && v[i] != '.'
        invariant
            from <= i <= v@.len(),
            forall|j: int| from <= j < i ==> v@[j] != '.',
        decreases v@.len() - i,
    {
        i = i + 1;
    }
    i
}

proof fn lemma_first_dot(t: Seq<char>, p: int)
    requires
        0 <= p <= t.len(),
        p < t.len() ==> t[p] == '.',
        forall|j: int| 0 <= j < p ==> t[j] != '.',
    ensures
        p < t.len() ==> first_dot(t) == Some(p),
        p == t.len() ==> first_dot(t) is None,
{
    if p < t.len() {
        let q = choose|i: int| 0 <= i < t.len() && t[i] == '.' && forall|j: int| 0 <= j < i ==> t[j] != '.';
        assert(q == p) by {
            if q < p {
                assert(t[q] != '.');
            }
            if q > p {
                assert(t[p] != '.');
            }
        }
    } else {
        if exists|i: int| 0 <= i < t.len() && t[i] == '.' {
            let i = choose|i: int| 0 <= i < t.len() && t[i] == '.';
            assert(t[i] != '.');
        }
    }
}

/// Parses a dollar amount into cents, as an `i128` (which never overflows).
fn parse_cents_wide(s: &str) -> (res: Result<i128, String>)
    ensures
        match cents_outcome(s@) {
            Ok(v) => res matches Ok(r) && r == v,
            Err(msg) => res matches Err(m) && m@ == msg,
        },
{
    let t: Vec<char> = trim_chars(&chars_of(s));
    if t.len() == 0 {
        return Err(String::from_str("cost must not be empty"));
    }
    if t[0] == '-' {
        return Err(String::from_str("cost must not be negative"));
    }
    let q: String = debug_quoted(string_of(t.as_slice()).as_str());
    let p: usize = find_dot(&t, 0);
    proof {
        lemma_first_dot(t@, p as int);
    }
    let dollars: Vec<char> = slice_chars(&t, 0, p);
    assert(dollars@ =~= t@.take(p as int));
    let frac: Vec<char> = if p < t.len() {
        let p2: usize = find_dot(&t, p + 1);
        proof {
            let rest = t@.skip(p + 1);
            assert forall|j: int| 0 <= j < p2 - (p + 1) implies rest[j] != '.' by {
                assert(rest[j] == t@[p + 1 + j]);
            }
            if p2 < t.len() {
                assert(rest[p2 - (p + 1)] == t@[p2 as int]);
            }
            lemma_first_dot(rest, p2 - (p + 1));
        }
        if p2 < t.len() {
            let mut m: String = String::from_str("invalid cost ");
            m.append(q.as_str());
            m.append(": too many decimal points");
            return Err(m);
        }
        let f: Vec<char> = slice_chars(&t, p + 1, t.len());
        assert(f@ =~= t@.skip(p + 1));
        f
    } else {
        let f: Vec<char> = chars_of("0");
        assert(t@.take(p as int) =~= t@);
        f
    };
    let d: i64 = if dollars.len() == 0 {
        0
    } else {
        match parse_i64(&dollars) {
            Some(d) => d,
            None => {
                let mut m: String = String::from_str("invalid cost ");
                m.append(q.as_str());
                m.append(": bad dollar amount");
                return Err(m);
            },
        }
    };
    let n: usize = frac.len();
    let mut all_ok: bool = n > 0 && n <= 2;
    let mut i: usize = 0;
    while i < n
        invariant
            i <= n == frac@.len(),
            all_ok ==> 0 < n <= 2,
            all_ok ==> forall|j: int| 0 <= j < i ==> '0' <= #[trigger] frac@[j] && frac@[j] <= '9',
            !all_ok ==> (n == 0 || n > 2 || !all_digits(frac@)),
        decreases n - i,
    {
        if frac[i] < '0' || frac[i] > '9' {
            all_ok = false;
        }
        i = i + 1;
    }
    if !all_ok {
        let mut m: String = String::from_str("invalid cost ");
        m.append(q.as_str());
        m.append(": cents must be 1 or 2 digits");
        return Err(m);
    }
    assert('0' <= frac@[0] <= '9');
    let first: i128 = (frac[0] as u32 - '0' as u32) as i128;
    let cents: i128 = if n == 1 {
        assert(frac@.drop_last() =~= Seq::<char>::empty());
        assert(digits_value(frac@.drop_last()) == 0);
        assert(frac@.last() == frac@[0]);
        assert(digits_value(frac@) == first);
        first * 10
    } else {
        assert('0' <= frac@[1] <= '9');
        let second: i128 = (frac[1] as u32 - '0' as u32) as i128;
        assert(frac@.drop_last() =~= seq![frac@[0]]);
        assert(seq![frac@[0]].drop_last() =~= Seq::<char>::empty());
        assert(digits_value(seq![frac@[0]].drop_last()) == 0);
        assert(digits_value(seq![frac@[0]]) == first);
        assert(frac@.last() == frac@[1]);
        assert(digits_value(frac@) == first * 10 + second);
        first * 10 + second
    };
    Ok(d as i128 * 100 + cents)
}

/// Whether the amount written by `s` (if valid) fits in an `i64` of cents.
pub fn cents_in_range(s: &str) -> (res: bool)
    ensures
        res == cents_fit(s@),
{
    match parse_cents_wide(s) {
        Ok(v) => i64::MIN as i128 <= v && v <= i64::MAX as i128,
        Err(_) => true,
    }
}

/// Parse a dollar amount into integer cents without using floating point.
///
/// Accepts an optional integer part and up to two fractional digits, e.g.
/// `42`, `42.5`, `42.50`. Negative amounts are rejected. Returns a
/// human-readable error message on any malformed input.
pub fn parse_cents(s: &str) -> (res: Result<i64, String>)
    requires
        cents_fit(s@),
    ensures
        match cents_outcome(s@) {
            Ok(v) => res matches Ok(r) && r == v,
            Err(msg) => res matches Err(m) && m@ == msg,
        },
{
    match parse_cents_wide(s) {
        Ok(v) => Ok(v as i64),
        Err(m) => Err(m),
    }
}

/// The text marker of a bucket.
pub open spec fn bucket_marker_text(bucket: Bucket) -> Seq<char> {
    match bucket {
        Bucket::Overdue => "!!"@,
        Bucket::Due => "->"@,
        Bucket::Prep => ".."@,
        Bucket::Upcoming => "  "@,
    }
}

/// The text marker for a bucket.
pub fn bucket_marker(bucket: Bucket) -> (res: &'static str)
    ensures
        res@ == bucket_marker_text(bucket),
{
    match bucket {
        Bucket::Overdue => "!!",
        Bucket::Due => "->",
        Bucket::Prep => "..",
        Bucket::Upcoming => "  ",
    }
}

/// The text of an optional field, empty when absent.
pub open spec fn text_or_empty(o: Option<String>) -> Seq<char> {
    match o {
        Some(s) => s@,
        None => Seq::empty(),
    }
}

/// The text of an optional field, empty when absent.
fn str_or_empty(o: &Option<String>) -> (res: &str)
    ensures
        res@ == text_or_empty(*o),
{
    match o {
        Some(s) => s.as_str(),
        None => {
            proof {
                reveal_strlit("");
            }
            ""
        },
    }
}

/// The text line of a task status: `<marker> <id>  <bucket>  <next due>`.
pub fn status_line(s: &TaskStatus) -> (res: String)
    requires
        s.next_due.wf(),
    ensures
        res@ == bucket_marker_text(s.bucket) + " "@ + s.task.id@ + "  "@ + bucket_name(s.bucket) + "  "@
            + date_text_of(s.next_due),
{
    let next_due: String = date_text(s.next_due);
    let mut line: String = String::from_str(bucket_marker(s.bucket));
    line.append(" ");
    line.append(s.task.id.as_str());
    line.append("  ");
    line.append(s.bucket.name());
    line.append("  ");
    line.append(next_due.as_str());
    proof {
        reveal_strlit(" ");
        reveal_strlit("  ");
    }
    line
}

/// The text line of a vendor: `<id>  <name>  <phone>` (the phone empty when
/// absent).
pub fn vendor_line(v: &Vendor) -> (res: String)
    ensures
        res@ == v.id@ + "  "@ + v.name@ + "  "@ + text_or_empty(v.phone),
{
    let mut line: String = v.id.clone();
    line.append("  ");
    line.append(v.name.as_str());
    line.append("  ");
    line.append(str_or_empty(&v.phone));
    proof {
        reveal_strlit("  ");
    }
    line
}

/// The text line of a completion: `<done>  <id>  by <by>  <note>` (absent
/// fields empty).
pub fn history_line(c: &Completion) -> (res: String)
    requires
        c.done.wf(),
    ensures
        res@ == date_text_of(c.done) + "  "@ + c.id@ + "  by "@ + text_or_empty(c.by) + "  "@
            + text_or_empty(c.note),
{
    let mut line: String = date_text(c.done);
    line.append("  ");
    line.append(c.id.as_str());
    line.append("  by ");
    line.append(str_or_empty(&c.by));
    line.append("  ");
    line.append(str_or_empty(&c.note));
    proof {
        reveal_strlit("  ");
        reveal_strlit("  by ");
    }
    line
}

/// What `jiff` reads from a date argument (`2026-06-06` and the other forms
/// of its date grammar), if it reads a date.
pub uninterp spec fn jiff_date_of(s: Seq<char>) -> Option<Date>;

/// Calls `str::parse::<jiff::civil::Date>` on `s`. The result is named
/// [`jiff_date_of`] of the text; `jiff`'s grammar is not spelled out. Claims
/// what its documentation gives: a parsed date is a valid date, and the text
/// that `jiff` writes for a date reads back as that date.
#[verifier::external_body]
fn jiff_parse_date(s: &str) -> (res: Option<Date>)
    ensures
        res == jiff_date_of(s@),
        res matches Some(d) ==> d.wf(),
        forall|d: Date| d.wf() && s@ == date_text_of(d) ==> res == Some(d),
{
    s.parse::<jiff::civil::Date>().ok().map(|d| Date { year: d.year(), month: d.month(), day: d.day() })
}

/// The message for a date argument that is not a date.
pub open spec fn invalid_date_message(s: Seq<char>) -> Seq<char> {
    "invalid date "@ + str_debug(s) + ": expected YYYY-MM-DD"@
}

/// Parses a `YYYY-MM-DD` date argument (`--today`, `--on`, `--since`, a punt
/// date), reporting a clear error on failure.
pub fn parse_date(s: &str) -> (res: Result<Date, String>)
    ensures
        match jiff_date_of(s@) {
            Some(d) => res == Ok::<Date, String>(d),
            None => res matches Err(m) && m@ == invalid_date_message(s@),
        },
        res matches Ok(d) ==> d.wf(),
{
    match jiff_parse_date(s) {
        Some(d) => Ok(d),
        None => {
            let mut m: String = String::from_str("invalid date ");
            m.append(debug_quoted(s).as_str());
            m.append(": expected YYYY-MM-DD");
            Err(m)
        },
    }
}

/// The value of one ASCII digit.
pub open spec fn digit_value(c: char) -> int {
    c as int - '0' as int
}

/// The cents law of dollar amounts: `D.X` is `D` dollars and `X` tenths (so
/// `42.5` is 4250 cents, the same as `42.50`), `D.XY` is `D` dollars and `XY`
/// cents, and `D` alone is `D` dollars; an empty dollar part (`.5`) is zero
/// dollars. Surrounding whitespace is ignored.
pub proof fn lemma_cents_value(s1: Seq<char>, s2: Seq<char>, ds: Seq<char>, x: char, y: char)
    requires
        trimmed(s1) == ds + seq!['.', x],
        trimmed(s2) == ds + seq!['.', x, y],
        all_digits(ds),
        '0' <= x <= '9',
        '0' <= y <= '9',
        digits_value(ds) <= i64::MAX,
    ensures
        cents_outcome(s1) == Ok::<int, Seq<char>>(digits_value(ds) * 100 + digit_value(x) * 10),
        cents_outcome(s2) == Ok::<int, Seq<char>>(digits_value(ds) * 100 + digit_value(x) * 10
            + digit_value(y)),
{
    lemma_cents_shape(ds, seq![x]);
    lemma_cents_shape(ds, seq![x, y]);
    assert(seq![x].drop_last() =~= Seq::<char>::empty());
    assert(seq![x, y].drop_last() =~= seq![x]);
    assert(digits_value(Seq::<char>::empty()) == 0);
    assert(seq![x].last() == x);
    assert(seq![x, y].last() == y);
    assert(digits_value(seq![x]) == digit_value(x));
    assert(digits_value(seq![x, y]) == digit_value(x) * 10 + digit_value(y));
    assert(ds + seq!['.', x] =~= ds + seq!['.'] + seq![x]);
    assert(ds + seq!['.', x, y] =~= ds + seq!['.'] + seq![x, y]);
    assert(trimmed(s1) == ds + seq!['.'] + seq![x]);
    assert(trimmed(s2) == ds + seq!['.'] + seq![x, y]);
}

/// The whole-dollar case of the cents law: `D` is `D` dollars.
pub proof fn lemma_whole_dollars(s: Seq<char>, ds: Seq<char>)
    requires
        trimmed(s) == ds,
        ds.len() > 0,
        all_digits(ds),
        digits_value(ds) <= i64::MAX,
    ensures
        cents_outcome(s) == Ok::<int, Seq<char>>(digits_value(ds) * 100),
{
    lemma_first_dot(ds, ds.len() as int);
    lemma_digits_parse(ds);
    reveal_strlit("0");
    assert("0"@ =~= seq!['0']);
    assert(seq!['0'].drop_last() =~= Seq::<char>::empty());
    assert(digits_value(Seq::<char>::empty()) == 0);
    assert(seq!['0'].last() == '0');
    assert(digits_value("0"@) == 0);
    assert(cents_of_fraction("0"@) == 0);
    assert(first_dot(trimmed(s)) is None);
    assert(trimmed(s)[0] != '-');
    assert(all_digits("0"@));
}

/// Digits parse to their value.
proof fn lemma_digits_parse(ds: Seq<char>)
    requires
        ds.len() > 0,
        all_digits(ds),
        digits_value(ds) <= i64::MAX,
    ensures
        spec_parse_i64(ds) == Some(digits_value(ds) as i64),
        ds[0] != '-',
{
    crate::text::lemma_digits_value_nonneg(ds);
}

/// How `cents_outcome` reads digits, a dot and a fraction `f` of one or two
/// digits.
proof fn lemma_cents_shape(ds: Seq<char>, f: Seq<char>)
    requires
        all_digits(ds),
        1 <= f.len() <= 2,
        all_digits(f),
        digits_value(ds) <= i64::MAX,
    ensures
        forall|s: Seq<char>| #[trigger] trimmed(s) == ds + seq!['.'] + f ==> cents_outcome(s) == Ok::<
            int,
            Seq<char>,
        >(digits_value(ds) * 100 + cents_of_fraction(f)),
{
    let t = ds + seq!['.'] + f;
    let p = ds.len() as int;
    assert(t[p] == '.');
    assert forall|j: int| 0 <= j < p implies t[j] != '.' by {
        assert(t[j] == ds[j]);
    }
    lemma_first_dot(t, p);
    let rest = t.skip(p + 1);
    assert(rest =~= f);
    assert forall|j: int| 0 <= j < rest.len() implies rest[j] != '.' by {
        assert(rest[j] == f[j]);
    }
    lemma_first_dot(rest, rest.len() as int);
    assert(t.take(p) =~= ds);
    if ds.len() > 0 {
        lemma_digits_parse(ds);
        assert(t[0] == ds[0]);
    } else {
        assert(t[0] == '.');
    }
}

} // verus!
