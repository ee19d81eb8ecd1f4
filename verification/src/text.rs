//! Character-level text helpers: whitespace, trimming, splitting into words,
//! substring search and integer parsing, each stated over `Seq<char>`.

use vstd::prelude::*;

verus! {

/// The Unicode `White_Space` property, which `char::is_whitespace` tests.
pub open spec fn is_ws(c: char) -> bool {
    ||| ('\u{9}' <= c && c <= '\u{d}')
    ||| c == ' '
    ||| c == '\u{85}'
    ||| c == '\u{a0}'
    ||| c == '\u{1680}'
    ||| ('\u{2000}' <= c && c <= '\u{200a}')
    ||| c == '\u{2028}'
    ||| c == '\u{2029}'
    ||| c == '\u{202f}'
    ||| c == '\u{205f}'
    ||| c == '\u{3000}'
}

/// Whether `c` is white space in the sense of `char::is_whitespace`.
pub fn is_whitespace(c: char) -> (res: bool)
    ensures
        res == is_ws(c),
{
    ('\u{9}' <= c && c <= '\u{d}') || c == ' ' || c == '\u{85}' || c == '\u{a0}' || c
        == '\u{1680}' || ('\u{2000}' <= c && c <= '\u{200a}') || c == '\u{2028}' || c
        == '\u{2029}' || c == '\u{202f}' || c == '\u{205f}' || c == '\u{3000}'
}

/// Every character of `s` is white space.
pub open spec fn all_ws(s: Seq<char>) -> bool {
    forall|i: int| 0 <= i < s.len() ==> is_ws(#[trigger] s[i])
}

/// `s` without its leading and trailing white space (as `str::trim`).
pub open spec fn trimmed(s: Seq<char>) -> Seq<char> {
    trim_end(trim_start(s))
}

/// `s` without its leading white space.
pub open spec fn trim_start(s: Seq<char>) -> Seq<char>
    decreases s.len(),
{
    if s.len() > 0 && is_ws(s[0]) {
        trim_start(s.drop_first())
    } else {
        s
    }
}

/// `s` without its trailing white space.
pub open spec fn trim_end(s: Seq<char>) -> Seq<char>
    decreases s.len(),
{
    if s.len() > 0 && is_ws(s.last()) {
        trim_end(s.drop_last())
    } else {
        s
    }
}

/// The longest prefix of `s` that holds no white space.
pub open spec fn leading_word(s: Seq<char>) -> Seq<char>
    decreases s.len(),
{
    if s.len() == 0 || is_ws(s[0]) {
        Seq::empty()
    } else {
        seq![s[0]] + leading_word(s.drop_first())
    }
}

/// The maximal runs of non-white-space characters of `s`, in order (as
/// `str::split_whitespace`).
pub open spec fn words(s: Seq<char>) -> Seq<Seq<char>>
    decreases s.len(),
{
    if s.len() == 0 {
        Seq::empty()
    } else if is_ws(s[0]) {
        words(s.drop_first())
    } else {
        let w = leading_word(s);
        proof {
            lemma_leading_word_len(s);
        }
        seq![w] + words(s.skip(w.len() as int))
    }
}

/// The leading word of a string that starts with a non-white-space character
/// is a non-empty prefix of it.
pub proof fn lemma_leading_word_len(s: Seq<char>)
    ensures
        leading_word(s).len() <= s.len(),
        s.len() > 0 && !is_ws(s[0]) ==> leading_word(s).len() >= 1,
    decreases s.len(),
{
    if s.len() > 0 && !is_ws(s[0]) {
        lemma_leading_word_len(s.drop_first());
    }
}

/// The characters of `text` as a sequence of words: `words(text)`.
pub open spec fn word_views(v: Seq<Vec<char>>) -> Seq<Seq<char>> {
    v.map_values(|w: Vec<char>| w@)
}

/// `needle` occurs in `hay` as a contiguous run.
pub open spec fn has_substring(hay: Seq<char>, needle: Seq<char>) -> bool {
    exists|i: int| 0 <= i <= hay.len() - needle.len() && #[trigger] hay.subrange(i, i + needle.len()) == needle
}

/// The value of a non-empty run of ASCII digits.
pub open spec fn digits_value(s: Seq<char>) -> int
    decreases s.len(),
{
    if s.len() == 0 {
        0
    } else {
        digits_value(s.drop_last()) * 10 + (s.last() as int - '0' as int)
    }
}

/// Every character of `s` is an ASCII digit.
pub open spec fn all_digits(s: Seq<char>) -> bool {
    forall|i: int| 0 <= i < s.len() ==> '0' <= #[trigger] s[i] && s[i] <= '9'
}

/// The integer written by `s`: an optional `+` or `-` followed by one or more
/// ASCII digits (as `<i64 as FromStr>`, which also rejects values outside the
/// `i64` range).
pub open spec fn spec_parse_i64(s: Seq<char>) -> Option<i64> {
    let neg = s.len() > 0 && s[0] == '-';
    let signed = s.len() > 0 && (s[0] == '-' || s[0] == '+');
    let ds = if signed { s.drop_first() } else { s };
    let v = if neg { -digits_value(ds) } else { digits_value(ds) };
    if ds.len() > 0 && all_digits(ds) && i64::MIN <= v <= i64::MAX {
        Some(v as i64)
    } else {
        None
    }
}

/// The characters of `s`.
pub fn chars_of(s: &str) -> (res: Vec<char>)
    ensures
        res@ == s@,
{
    let n: usize = s.unicode_len();
    let mut v: Vec<char> = Vec::new();
    for i in 0..n
        invariant
            n == s@.len(),
            v@ == s@.take(i as int),
    {
        let c: char = s.get_char(i);
        v.push(c);
        assert(s@.take(i + 1) == s@.take(i as int).push(c));
    }
    assert(s@.take(n as int) == s@);
    v
}

/// The `String` made of the characters `v`.
#[verifier::external_body]
pub(crate) fn string_of(v: &[char]) -> (res: String)
    ensures
        res@ == v@,
{
    String::from_iter(v.iter())
}

/// The characters of `s` from `lo` up to (not including) `hi`.
pub fn slice_chars(s: &Vec<char>, lo: usize, hi: usize) -> (res: Vec<char>)
    requires
        lo <= hi <= s@.len(),
    ensures
        res@ == s@.subrange(lo as int, hi as int),
{
    let mut v: Vec<char> = Vec::new();
    let mut i: usize = lo;
    while i < hi
        invariant
            lo <= i <= hi <= s@.len(),
            v@ == s@.subrange(lo as int, i as int),
        decreases hi - i,
    {
        v.push(s[i]);
        assert(s@.subrange(lo as int, i + 1) == s@.subrange(lo as int, i as int).push(s@[i as int]));
        i = i + 1;
    }
    v
}

proof fn lemma_trim_start_skip(s: Seq<char>, i: int)
    requires
        0 <= i <= s.len(),
        all_ws(s.take(i)),
    ensures
        trim_start(s) == trim_start(s.skip(i)),
    decreases i,
{
    if i > 0 {
        assert(is_ws(s.take(i)[0]));
        assert(s.drop_first().take(i - 1) =~= s.take(i).drop_first());
        lemma_trim_start_skip(s.drop_first(), i - 1);
        assert(s.drop_first().skip(i - 1) =~= s.skip(i));
    } else {
        assert(s.skip(0) =~= s);
    }
}

proof fn lemma_trim_end_take(s: Seq<char>, j: int)
    requires
        0 <= j <= s.len(),
        all_ws(s.skip(j)),
    ensures
        trim_end(s) == trim_end(s.take(j)),
    decreases s.len() - j,
{
    if j < s.len() {
        assert(is_ws(s.skip(j)[s.len() - j - 1]));
        assert(s.drop_last().skip(j) =~= s.skip(j).drop_last());
        lemma_trim_end_take(s.drop_last(), j);
        assert(s.drop_last().take(j) =~= s.take(j));
    } else {
        assert(s.take(j) =~= s);
    }
}

/// `s` with leading and trailing white space removed.
pub fn trim_chars(s: &Vec<char>) -> (res: Vec<char>)
    ensures
        res@ == trimmed(s@),
{
    let n: usize = s.len();
    let mut i: usize = 0;
    while i < n && is_whitespace(s[i])
        invariant
            i <= n == s@.len(),
            all_ws(s@.take(i as int)),
        decreases n - i,
    {
        assert(s@.take(i + 1) =~= s@.take(i as int).push(s@[i as int]));
        i = i + 1;
    }
    proof {
        lemma_trim_start_skip(s@, i as int);
        if i < n {
            assert(!is_ws(s@.skip(i as int)[0]));
        }
        assert(trim_start(s@) == s@.skip(i as int));
    }
    let ghost rest = s@.skip(i as int);
    let mut j: usize = n;
    while j > i && is_whitespace(s[j - 1])
        invariant
            i <= j <= n == s@.len(),
            rest == s@.skip(i as int),
            all_ws(rest.skip(j - i)),
        decreases j,
    {
        assert(rest.skip(j - 1 - i) =~= seq![s@[j - 1]] + rest.skip(j - i));
        j = j - 1;
    }
    proof {
        lemma_trim_end_take(rest, j - i);
        if j > i {
            assert(rest.take(j - i).last() == s@[j - 1]);
        }
        assert(rest.take(j - i) =~= s@.subrange(i as int, j as int));
    }
    slice_chars(s, i, j)
}

proof fn lemma_leading_word(s: Seq<char>, j: int)
    requires
        0 <= j <= s.len(),
        forall|k: int| 0 <= k < j ==> !is_ws(#[trigger] s[k]),
        j == s.len() || is_ws(s[j]),
    ensures
        leading_word(s) == s.take(j),
    decreases j,
{
    if j == 0 {
        assert(s.take(0) =~= Seq::<char>::empty());
    } else {
        lemma_leading_word(s.drop_first(), j - 1);
        assert(s.take(j) =~= seq![s[0]] + s.drop_first().take(j - 1));
    }
}

/// The words of `s`: its maximal runs of non-white-space characters.
pub fn split_words(s: &Vec<char>) -> (res: Vec<Vec<char>>)
    ensures
        word_views(res@) == words(s@),
{
    let n: usize = s.len();
    let mut out: Vec<Vec<char>> = Vec::new();
    let mut i: usize = 0;
    assert(s@.skip(0) =~= s@);
    while i < n
        invariant
            i <= n == s@.len(),
            words(s@) == word_views(out@) + words(s@.skip(i as int)),
        decreases n - i,
    {
        let ghost rest = s@.skip(i as int);
        if is_whitespace(s[i]) {
            assert(rest.drop_first() =~= s@.skip(i + 1));
            i = i + 1;
        } else {
            let mut j: usize = i + 1;
            while j < n && !is_whitespace(s[j])
                invariant
                    i < j <= n == s@.len(),
                    forall|k: int| i <= k < j ==> !is_ws(#[trigger] s@[k]),
                decreases n - j,
            {
                j = j + 1;
            }
            proof {
                lemma_leading_word(rest, j - i);
                assert(rest.take(j - i) =~= s@.subrange(i as int, j as int));
                assert(rest.skip(j - i) =~= s@.skip(j as int));
            }
            let w: Vec<char> = slice_chars(s, i, j);
            let ghost before = out@;
            out.push(w);
            assert(word_views(out@) =~= word_views(before) + seq![w@]);
            i = j;
        }
    }
    assert(s@.skip(n as int) =~= Seq::<char>::empty());
    assert(word_views(out@) + Seq::<Seq<char>>::empty() =~= word_views(out@));
    out
}

/// Whether `needle` occurs in `hay`.
pub fn contains_chars(hay: &Vec<char>, needle: &Vec<char>) -> (res: bool)
    ensures
        res == has_substring(hay@, needle@),
{
    let n: usize = hay.len();
    let m: usize = needle.len();
    if m > n {
        return false;
    }
    let mut i: usize = 0;
    while i <= n - m
        invariant
            m <= n == hay@.len(),
            m == needle@.len(),
            i <= n - m + 1,
            forall|k: int| 0 <= k < i ==> #[trigger] hay@.subrange(k, k + m) != needle@,
        decreases n - m + 1 - i,
    {
        let mut j: usize = 0;
        while j < m && hay[i + j] == needle[j]
            invariant
                i + m <= n == hay@.len(),
                m == needle@.len(),
                j <= m,
                forall|k: int| 0 <= k < j ==> hay@[i + k] == needle@[k],
            decreases m - j,
        {
            j = j + 1;
        }
        if j == m {
            assert(hay@.subrange(i as int, i + m) =~= needle@);
            return true;
        }
        assert(hay@.subrange(i as int, i + m)[j as int] != needle@[j as int]);
        i = i + 1;
    }
    false
}

proof fn lemma_digits_value_push(s: Seq<char>, c: char)
    ensures
        digits_value(s.push(c)) == digits_value(s) * 10 + (c as int - '0' as int),
{
    assert(s.push(c).drop_last() =~= s);
}

pub(crate) proof fn lemma_digits_value_nonneg(s: Seq<char>)
    requires
        all_digits(s),
    ensures
        digits_value(s) >= 0,
    decreases s.len(),
{
    if s.len() > 0 {
        assert(all_digits(s.drop_last()));
        lemma_digits_value_nonneg(s.drop_last());
    }
}

/// Parses `s` as `<i64 as FromStr>` does.
pub fn parse_i64(s: &Vec<char>) -> (res: Option<i64>)
    ensures
        res == spec_parse_i64(s@),
{
    let n: usize = s.len();
    if n == 0 {
        return None;
    }
    let neg: bool = s[0] == '-';
    let signed: bool = s[0] == '-' || s[0] == '+';
    let start: usize = if signed { 1 } else { 0 };
    let ghost ds = if signed { s@.drop_first() } else { s@ };
    assert(ds =~= s@.skip(start as int));
    if start == n {
        return None;
    }
    // The largest magnitude the sign allows.
    let limit: u64 = if neg { 9223372036854775808 } else { 9223372036854775807 };
    let mut acc: u64 = 0;
    let mut i: usize = start;
    while i < n
        invariant
            start <= i <= n == s@.len(),
            1 <= n,
            ds == s@.skip(start as int),
            ds == (if s@[0] == '-' || s@[0] == '+' { s@.drop_first() } else { s@ }),
            neg == (s@[0] == '-'),
            all_digits(s@.subrange(start as int, i as int)),
            acc == digits_value(s@.subrange(start as int, i as int)),
            acc <= limit,
            limit == (if neg { 9223372036854775808u64 } else { 9223372036854775807u64 }),
        decreases n - i,
    {
        let c: char = s[i];
        proof {
            lemma_digits_value_push(s@.subrange(start as int, i as int), c);
            assert(s@.subrange(start as int, i + 1) =~= s@.subrange(start as int, i as int).push(c));
        }
        if c < '0' || c > '9' {
            proof {
                assert(ds[i - start] == c);
                assert(!all_digits(ds));
            }
            return None;
        }
        let d: u64 = (c as u32 - '0' as u32) as u64;
        if acc > (limit - d) / 10 {
            proof {
                assert(all_digits(s@.subrange(start as int, i + 1)));
                lemma_suffix_grows(s@, start as int, i as int + 1);
                assert(acc * 10 + d > limit) by (nonlinear_arith)
                    requires
                        acc > (limit - d) / 10,
                        d <= 9,
                        d <= limit,
                ;
                if all_digits(ds) {
                    assert(digits_value(ds) > limit);
                    if neg {
                        assert(-digits_value(ds) < i64::MIN);
                    }
                }
            }
            return None;
        }
        assert(acc * 10 + d <= limit) by (nonlinear_arith)
            requires
                acc <= (limit - d) / 10,
                d <= limit,
        ;
        acc = acc * 10 + d;
        i = i + 1;
    }
    assert(s@.subrange(start as int, n as int) =~= ds);
    if neg {
        if acc == 9223372036854775808 {
            Some(i64::MIN)
        } else {
            Some(-(acc as i64))
        }
    } else {
        Some(acc as i64)
    }
}

/// A longer run of digits never has a smaller value than its prefix.
proof fn lemma_suffix_grows(s: Seq<char>, start: int, k: int)
    requires
        0 <= start <= k <= s.len(),
        all_digits(s.subrange(start, k)),
    ensures
        all_digits(s.skip(start)) ==> digits_value(s.skip(start)) >= digits_value(s.subrange(start, k)),
    decreases s.len() - k,
{
    if all_digits(s.skip(start)) {
        if k == s.len() {
            assert(s.skip(start) =~= s.subrange(start, k));
        } else {
            assert(all_digits(s.subrange(start, k + 1)));
            lemma_suffix_grows(s, start, k + 1);
            lemma_digits_value_push(s.subrange(start, k), s[k]);
            assert(s.subrange(start, k + 1) =~= s.subrange(start, k).push(s[k]));
            lemma_digits_value_nonneg(s.subrange(start, k));
        }
    }
}

/// The decimal digit character for `d` (0..=9).
pub open spec fn digit_char(d: int) -> char {
    ('0' as int + d) as char
}

/// The decimal digits of `n`, most significant first, without leading zeros.
pub open spec fn digits_of(n: nat) -> Seq<char>
    decreases n,
{
    if n < 10 {
        seq![digit_char(n as int)]
    } else {
        digits_of(n / 10).push(digit_char((n % 10) as int))
    }
}

/// The decimal text of `n`, as `Display` for integers writes it.
pub open spec fn decimal_text(n: int) -> Seq<char> {
    if n < 0 {
        seq!['-'] + digits_of((-n) as nat)
    } else {
        digits_of(n as nat)
    }
}

fn digits_u64(m: u64) -> (res: Vec<char>)
    ensures
        res@ == digits_of(m as nat),
    decreases m,
{
    let d: u8 = (m % 10) as u8;
    let c: char = (48u8 + d) as char;
    assert(c == digit_char((m % 10) as int));
    if m < 10 {
        let mut v: Vec<char> = Vec::new();
        v.push(c);
        assert(v@ =~= seq![c]);
        v
    } else {
        let mut v: Vec<char> = digits_u64(m / 10);
        v.push(c);
        v
    }
}

/// `n` in decimal with at least `w` digits, padded with leading zeros.
pub open spec fn padded(n: nat, w: nat) -> Seq<char> {
    let ds = digits_of(n);
    if ds.len() >= w {
        ds
    } else {
        Seq::new((w - ds.len()) as nat, |_i: int| '0') + ds
    }
}

/// `n` in decimal with at least `w` digits, padded with leading zeros.
pub(crate) fn padded_digits(n: u64, w: usize) -> (res: Vec<char>)
    ensures
        res@ == padded(n as nat, w as nat),
{
    let ds: Vec<char> = digits_u64(n);
    let mut out: Vec<char> = Vec::new();
    if ds.len() < w {
        let k: usize = w - ds.len();
        while out.len() < k
            invariant
                out@.len() <= k,
                forall|j: int| 0 <= j < out@.len() ==> out@[j] == '0',
            decreases k - out@.len(),
        {
            out.push('0');
        }
        assert(out@ =~= Seq::new(k as nat, |_i: int| '0'));
    }
    let mut i: usize = 0;
    let ghost start = out@;
    while i < ds.len()
        invariant
            i <= ds@.len(),
            out@ == start + ds@.take(i as int),
        decreases ds@.len() - i,
    {
        out.push(ds[i]);
        assert(ds@.take(i + 1) =~= ds@.take(i as int).push(ds@[i as int]));
        i = i + 1;
    }
    assert(ds@.take(ds@.len() as int) =~= ds@);
    if ds.len() >= w {
        assert(start =~= Seq::<char>::empty());
        assert(out@ =~= ds@);
    }
    out
}

/// The decimal text of the unsigned `n`.
pub fn u64_to_string(n: u64) -> (res: String)
    ensures
        res@ == decimal_text(n as int),
{
    let ds: Vec<char> = digits_u64(n);
    string_of(ds.as_slice())
}

/// The decimal text of `n`.
pub fn int_to_string(n: i64) -> (res: String)
    ensures
        res@ == decimal_text(n as int),
{
    if n < 0 {
        let m: u64 = if n == i64::MIN { 9223372036854775808 } else { (-n) as u64 };
        let mut v: Vec<char> = Vec::new();
        v.push('-');
        let ds: Vec<char> = digits_u64(m);
        let mut i: usize = 0;
        while i < ds.len()
            invariant
                i <= ds@.len(),
                v@ == seq!['-'] + ds@.take(i as int),
            decreases ds@.len() - i,
        {
            v.push(ds[i]);
            assert(ds@.take(i + 1) =~= ds@.take(i as int).push(ds@[i as int]));
            i = i + 1;
        }
        assert(ds@.take(ds@.len() as int) =~= ds@);
        string_of(v.as_slice())
    } else {
        let ds: Vec<char> = digits_u64(n as u64);
        string_of(ds.as_slice())
    }
}

/// Whether the characters `v` spell exactly `lit`.
pub fn chars_eq(v: &Vec<char>, lit: &str) -> (res: bool)
    ensures
        res == (v@ == lit@),
{
    let w: Vec<char> = chars_of(lit);
    if v.len() != w.len() {
        return false;
    }
    let mut i: usize = 0;
    while i < v.len()
        invariant
            v@.len() == w@.len(),
            w@ == lit@,
            i <= v@.len(),
            forall|k: int| 0 <= k < i ==> v@[k] == w@[k],
        decreases v@.len() - i,
    {
        if v[i] != w[i] {
            return false;
        }
        i = i + 1;
    }
    assert(v@ =~= w@);
    true
}

/// The text that `Debug` writes for a string: the string in double quotes,
/// with quotes, backslashes and non-printable characters escaped.
pub uninterp spec fn str_debug(s: Seq<char>) -> Seq<char>;

/// Calls `format!("{:?}", s)` on a string slice; the result is named
/// [`str_debug`] of the input. The escaping rules are not stated.
#[verifier::external_body]
pub(crate) fn debug_quoted(s: &str) -> (res: String)
    ensures
        res@ == str_debug(s@),
{
    format!("{:?}", s)
}

/// `s` in lower case, as `str::to_lowercase` maps it.
pub uninterp spec fn lowercase(s: Seq<char>) -> Seq<char>;

/// Calls `str::to_lowercase`; the result is named [`lowercase`] of the input.
/// What that mapping is (Unicode's full lower-case mapping) is not stated.
#[verifier::external_body]
pub(crate) fn to_lowercase(s: &str) -> (res: String)
    ensures
        res@ == lowercase(s@),
{
    s.to_lowercase()
}

/// Decimal digits read back as their number.
proof fn lemma_digits_of_value(m: nat)
    ensures
        digits_of(m).len() > 0,
        all_digits(digits_of(m)),
        digits_value(digits_of(m)) == m,
    decreases m,
{
    let k = (m % 10) as int;
    assert(digit_char(k) as int == '0' as int + k);
    if m >= 10 {
        lemma_digits_of_value(m / 10);
        let p = digits_of(m / 10);
        assert(digits_of(m).drop_last() =~= p);
        assert(digits_of(m).last() == digit_char(k));
    } else {
        assert(digits_of(m).drop_last() =~= Seq::<char>::empty());
        assert(digits_value(Seq::<char>::empty()) == 0);
        assert(digits_of(m).last() == digit_char(m as int));
    }
}

/// The integer parsing law: the decimal text of every `i64` parses back to
/// it.
pub proof fn lemma_parse_decimal_text(n: i64)
    ensures
        spec_parse_i64(decimal_text(n as int)) == Some(n),
{
    if n < 0 {
        let m = (-(n as int)) as nat;
        lemma_digits_of_value(m);
        let t = decimal_text(n as int);
        assert(t.drop_first() =~= digits_of(m));
        assert(t[0] == '-');
    } else {
        lemma_digits_of_value(n as nat);
        let t = decimal_text(n as int);
        assert(t[0] != '-' && t[0] != '+') by {
            assert(all_digits(digits_of(n as nat)));
        }
    }
}

/// `trim_start` drops exactly the leading white space.
proof fn lemma_trim_start_shape(s: Seq<char>) -> (i: int)
    ensures
        0 <= i <= s.len(),
        trim_start(s) == s.skip(i),
        all_ws(s.take(i)),
        i < s.len() ==> !is_ws(s[i]),
    decreases s.len(),
{
    if s.len() > 0 && is_ws(s[0]) {
        let k = lemma_trim_start_shape(s.drop_first());
        assert(s.drop_first().skip(k) =~= s.skip(k + 1));
        assert forall|t: int| 0 <= t < k + 1 implies is_ws(#[trigger] s.take(k + 1)[t]) by {
            if t > 0 {
                assert(s.take(k + 1)[t] == s.drop_first().take(k)[t - 1]);
            }
        }
        if k + 1 < s.len() {
            assert(s[k + 1] == s.drop_first()[k]);
        }
        k + 1
    } else {
        assert(s.skip(0) =~= s);
        0
    }
}

/// `trim_end` drops exactly the trailing white space.
proof fn lemma_trim_end_shape(s: Seq<char>) -> (j: int)
    ensures
        0 <= j <= s.len(),
        trim_end(s) == s.take(j),
        all_ws(s.skip(j)),
        j > 0 ==> !is_ws(s[j - 1]),
    decreases s.len(),
{
    if s.len() > 0 && is_ws(s.last()) {
        let k = lemma_trim_end_shape(s.drop_last());
        assert(s.drop_last().take(k) =~= s.take(k));
        assert forall|t: int| 0 <= t < s.len() - k implies is_ws(#[trigger] s.skip(k)[t]) by {
            if t < s.len() - k - 1 {
                assert(s.skip(k)[t] == s.drop_last().skip(k)[t]);
            } else {
                assert(s.skip(k)[t] == s.last());
            }
        }
        if k > 0 {
            assert(s[k - 1] == s.drop_last()[k - 1]);
        }
        k
    } else {
        assert(s.take(s.len() as int) =~= s);
        s.len() as int
    }
}

/// The trimming law: trimming keeps a contiguous part of the text and drops
/// only white space around it; what is left is empty exactly when the text
/// is all white space, and otherwise starts and ends with a character that is
/// not white space.
pub proof fn lemma_trim_law(s: Seq<char>)
    ensures
        trimmed(s).len() == 0 <==> all_ws(s),
        trimmed(s).len() > 0 ==> !is_ws(trimmed(s)[0]) && !is_ws(trimmed(s).last()),
        exists|i: int, j: int|
            0 <= i <= j <= s.len() && trimmed(s) == s.subrange(i, j) && all_ws(s.take(i)) && all_ws(
                s.skip(j),
            ),
{
    let i = lemma_trim_start_shape(s);
    let u = s.skip(i);
    let j = lemma_trim_end_shape(u);
    assert(trimmed(s) == u.take(j));
    assert(u.take(j) =~= s.subrange(i, i + j));
    assert forall|t: int| 0 <= t < s.len() - (i + j) implies is_ws(#[trigger] s.skip(i + j)[t]) by {
        assert(s.skip(i + j)[t] == u.skip(j)[t]);
    }
    if j == 0 {
        assert forall|t: int| 0 <= t < s.len() implies is_ws(#[trigger] s[t]) by {
            if t < i {
                assert(s.take(i)[t] == s[t]);
            } else {
                assert(s.skip(i + j)[t - i] == s[t]);
            }
        }
    } else {
        assert(u[0] == s[i]);
        assert(trimmed(s)[0] == u[0]);
        assert(trimmed(s).last() == u[j - 1]);
        assert(!is_ws(s[i]));
        if all_ws(s) {
            assert(is_ws(s[i]));
        }
    }
    assert(all_ws(s.skip(i + j)));
    assert(0 <= i <= i + j <= s.len() && trimmed(s) == s.subrange(i, i + j) && all_ws(s.take(i))
        && all_ws(s.skip(i + j)));
}

} // verus!
