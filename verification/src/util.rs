//! Basic types and helpers: report scope, month keys, labels and text layout.
use vstd::prelude::*;

use vstd::string::StrSliceExecFns;

use crate::amount::{decimal_round_dp, decimal_to_text_2dp, decimal_rounded, Amount};
use crate::text::{
    is_within, chars_find, chars_rfind, first_index_of, last_index_of, lemma_first_index_of,
    lemma_last_index_of, push_chars, push_str, seq_lt, slice_chars, str_chars, string_from_chars,
    string_push,
};

verus! {

broadcast use vstd::string::group_string_axioms;

/// Budget statistics scope: the target month only, or everything up to it.
#[derive(Clone, Copy, Debug, PartialEq, Eq)]
pub enum ReportScope {
    Month,
    Cumulative,
}

pub open spec fn scope_label(scope: ReportScope) -> Seq<char> {
    match scope {
        ReportScope::Month => "month"@,
        ReportScope::Cumulative => "cumulative"@,
    }
}

impl ReportScope {
    /// Short label used in file names and report titles.
    pub fn label(self) -> (r: &'static str)
        ensures
            r@ == scope_label(self),
    {
        match self {
            ReportScope::Month => "month",
            ReportScope::Cumulative => "cumulative",
        }
    }
}

/// `content` without a leading byte-order mark.
pub open spec fn strip_bom_spec(s: Seq<char>) -> Seq<char> {
    if s.len() > 0 && s[0] == '\u{feff}' {
        s.drop_first()
    } else {
        s
    }
}

/// Removes a leading UTF-8 byte-order mark.
pub fn strip_bom(content: &str) -> (r: &str)
    ensures
        r@ == strip_bom_spec(content@),
{
    let n = content.unicode_len();
    if n > 0 && content.get_char(0) == '\u{feff}' {
        let r = content.substring_char(1, n);
        assert(r@ =~= content@.drop_first());
        r
    } else {
        content
    }
}

/// The bucket that unannotated spending falls back to.
pub fn default_expense_bucket() -> (r: String)
    ensures
        r@ == "生活费"@,
{
    "生活费".to_string()
}

/// The name before the last `.` of a dotted bucket name.
pub open spec fn parent_bucket_spec(b: Seq<char>) -> Option<Seq<char>> {
    match last_index_of(b, '.') {
        Some(i) => Some(b.take(i)),
        None => None,
    }
}

/// Parent of a dotted bucket: `"生活费.交通"` → `Some("生活费")`, `"数码"` → `None`.
pub fn parent_bucket(bucket: &str) -> (r: Option<&str>)
    ensures
        r matches Some(p) ==> parent_bucket_spec(bucket@) == Some(p@),
        r is None ==> parent_bucket_spec(bucket@) is None,
{
    let v = str_chars(bucket);
    match chars_rfind(&v, '.') {
        Some(i) => {
            proof {
                lemma_last_index_of(bucket@, '.');
            }
            let p = bucket.substring_char(0, i);
            assert(p@ =~= bucket@.take(i as int));
            Some(p)
        },
        None => None,
    }
}

/// A bucket lying within `b` starts with `b`, followed by `.` unless it is `b`.
pub proof fn lemma_within_shape(b: Seq<char>, x: Seq<char>)
    requires
        is_within(b, x),
    ensures
        b.len() <= x.len(),
        x.take(b.len() as int) == b,
        b != x ==> b.len() < x.len() && x[b.len() as int] == '.',
{
    if b != x {
        assert(x.subrange(0, b.len() + 1int)[b.len() as int] == '.');
        assert(x.take(b.len() as int) =~= x.subrange(0, b.len() + 1int).take(b.len() as int));
        assert(b.push('.').take(b.len() as int) =~= b);
    } else {
        assert(x.take(b.len() as int) =~= x);
    }
}

/// A bucket lies within `b` exactly when it is `b` or it is `b`, a dot and
/// more: `生活费.饮食` lies within `生活费`, `生活费用` does not.
pub proof fn lemma_within_is_dotted_descent(b: Seq<char>, x: Seq<char>)
    ensures
        is_within(b, x) <==> (x == b || exists|rest: Seq<char>| x == #[trigger] (b + seq!['.'] + rest)),
{
    if is_within(b, x) && x != b {
        lemma_within_shape(b, x);
        let rest = x.skip(b.len() as int + 1);
        assert(x =~= b + seq!['.'] + rest);
    }
    if exists|rest: Seq<char>| x == #[trigger] (b + seq!['.'] + rest) {
        let rest = choose|rest: Seq<char>| x == #[trigger] (b + seq!['.'] + rest);
        assert(x.subrange(0, b.push('.').len() as int) =~= b.push('.'));
    }
}

/// Of two buckets that `s` lies within, the shorter holds the longer.
pub proof fn lemma_within_nested(a: Seq<char>, p: Seq<char>, s: Seq<char>)
    requires
        is_within(a, s),
        is_within(p, s),
        a.len() <= p.len(),
    ensures
        is_within(a, p),
{
    lemma_within_shape(a, s);
    lemma_within_shape(p, s);
    if a.len() == p.len() {
        assert(a =~= p);
    } else {
        assert(p.subrange(0, a.len() + 1int) =~= s.subrange(0, a.len() + 1int));
        assert(s.subrange(0, a.len() + 1int) =~= a.push('.'));
    }
}

/// A bucket strictly inside another lies within it by transitivity.
pub proof fn lemma_within_trans(a: Seq<char>, p: Seq<char>, s: Seq<char>)
    requires
        is_within(a, p),
        is_within(p, s),
    ensures
        is_within(a, s),
{
    lemma_within_shape(a, p);
    lemma_within_shape(p, s);
    if a != s && a != p && p != s {
        assert(s.subrange(0, a.len() + 1int) =~= p.subrange(0, a.len() + 1int));
    }
}

/// The parent of a bucket lies over it, and every bucket strictly over it
/// lies within its parent.
pub proof fn lemma_parent_bucket(p: Seq<char>, a: Seq<char>)
    ensures
        parent_bucket_spec(p) matches Some(q) ==> is_within(q, p) && q.len() < p.len(),
        is_within(a, p) && a != p ==> parent_bucket_spec(p) is Some && a.len()
            <= parent_bucket_spec(p).unwrap().len(),
{
    lemma_last_index_of(p, '.');
    match last_index_of(p, '.') {
        Some(i) => {
            let q = p.take(i);
            assert(p.subrange(0, i + 1) =~= q.push('.'));
            if is_within(a, p) && a != p {
                lemma_within_shape(a, p);
            }
        },
        None => {
            if is_within(a, p) && a != p {
                lemma_within_shape(a, p);
            }
        },
    }
}

// ---------------------------------------------------------------------------
// Integers as `str::parse` reads them
// ---------------------------------------------------------------------------

use crate::amount::{all_digits, digit_value, digits_value, is_ascii_digit};

/// `str::parse::<T>()` for an integer type with range `lo..=hi`: an optional
/// sign (`-` only when `signed`), then at least one ASCII digit.
pub open spec fn parse_int_spec(s: Seq<char>, signed: bool, lo: int, hi: int) -> Option<int> {
    let neg = s.len() > 0 && s[0] == '-' && signed;
    let has_sign = s.len() > 0 && (s[0] == '+' || (s[0] == '-' && signed));
    let digits = if has_sign {
        s.drop_first()
    } else {
        s
    };
    if digits.len() == 0 || !all_digits(digits) {
        None
    } else {
        let v = if neg {
            -digits_value(digits)
        } else {
            digits_value(digits)
        };
        if lo <= v <= hi {
            Some(v)
        } else {
            None
        }
    }
}

proof fn lemma_digits_value_nonneg(s: Seq<char>)
    requires
        all_digits(s),
    ensures
        digits_value(s) >= 0,
    decreases s.len(),
{
    if s.len() > 0 {
        lemma_digits_value_nonneg(s.drop_last());
    }
}

proof fn lemma_digits_value_prefix(s: Seq<char>, i: int)
    requires
        all_digits(s),
        0 <= i <= s.len(),
    ensures
        digits_value(s.take(i)) <= digits_value(s),
    decreases s.len() - i,
{
    if i < s.len() {
        lemma_digits_value_prefix(s, i + 1);
        assert(s.take(i + 1).drop_last() =~= s.take(i));
        lemma_digits_value_nonneg(s.take(i));
    } else {
        assert(s.take(i) =~= s);
    }
}

/// Reads the digits `s[from..]` as a number no larger than `bound`.
fn parse_digits(s: &Vec<char>, from: usize, bound: u64) -> (r: Option<u64>)
    requires
        from <= s.len(),
        bound < 0x0100_0000_0000_0000u64,
    ensures
        r matches Some(v) ==> from < s.len() && all_digits(s@.skip(from as int)) && v
            == digits_value(s@.skip(from as int)) && v <= bound,
        r is None ==> !(from < s.len() && all_digits(s@.skip(from as int)) && digits_value(
            s@.skip(from as int),
        ) <= bound),
{
    if from == s.len() {
        return None;
    }
    let ghost t = s@.skip(from as int);
    let mut acc: u64 = 0;
    let mut i = from;
    while i < s.len()
        invariant
            from <= i <= s.len(),
            t == s@.skip(from as int),
            bound < 0x0100_0000_0000_0000u64,
            acc <= bound,
            all_digits(t.take(i - from)),
            acc == digits_value(t.take(i - from)),
        decreases s.len() - i,
    {
        let c = s[i];
        if !('0' <= c && c <= '9') {
            proof {
                assert(!is_ascii_digit(t[i - from]));
            }
            return None;
        }
        let d = (c as u32 - '0' as u32) as u64;
        assert(d < 10 && d == digit_value(c));
        assert(t.take(i - from + 1).drop_last() =~= t.take(i - from));
        assert(digits_value(t.take(i - from + 1)) == acc * 10 + digit_value(c));
        if acc > bound / 10 {
            proof {
                assert(all_digits(t.take(i - from + 1)));
                assert(acc * 10 + digit_value(c) > bound) by (nonlinear_arith)
                    requires
                        acc > bound / 10,
                        digit_value(c) >= 0,
                ;
                if all_digits(t) {
                    lemma_digits_value_prefix(t, i - from + 1);
                }
            }
            return None;
        }
        assert(acc * 10 <= bound) by (nonlinear_arith)
            requires
                acc <= bound / 10,
        ;
        let a10 = acc * 10;
        assert(a10 + d < 0x0200_0000_0000_0000);
        if a10 + d > bound {
            proof {
                assert(all_digits(t.take(i - from + 1)));
                if all_digits(t) {
                    lemma_digits_value_prefix(t, i - from + 1);
                }
            }
            return None;
        }
        acc = a10 + d;
        i += 1;
    }
    assert(t.take(i - from) =~= t);
    Some(acc)
}

/// `str::parse::<i32>()`.
pub fn parse_i32(s: &Vec<char>) -> (r: Option<i32>)
    ensures
        r matches Some(v) ==> parse_int_spec(s@, true, i32::MIN as int, i32::MAX as int) == Some(
            v as int,
        ),
        r is None ==> parse_int_spec(s@, true, i32::MIN as int, i32::MAX as int) is None,
{
    let neg = s.len() > 0 && s[0] == '-';
    let has_sign = s.len() > 0 && (s[0] == '+' || s[0] == '-');
    let from: usize = if has_sign {
        1
    } else {
        0
    };
    assert(s@.skip(from as int) =~= (if has_sign {
        s@.drop_first()
    } else {
        s@
    }));
    let bound: u64 = if neg {
        2147483648
    } else {
        2147483647
    };
    match parse_digits(s, from, bound) {
        Some(v) => {
            if neg {
                if v == 2147483648 {
                    Some(i32::MIN)
                } else {
                    Some(-(v as i32))
                }
            } else {
                Some(v as i32)
            }
        },
        None => {
            proof {
                if from < s.len() && all_digits(s@.skip(from as int)) {
                    lemma_digits_value_nonneg(s@.skip(from as int));
                }
            }
            None
        },
    }
}

/// `str::parse::<u32>()`.
pub fn parse_u32(s: &Vec<char>) -> (r: Option<u32>)
    ensures
        r matches Some(v) ==> parse_int_spec(s@, false, 0, u32::MAX as int) == Some(v as int),
        r is None ==> parse_int_spec(s@, false, 0, u32::MAX as int) is None,
{
    let has_sign = s.len() > 0 && s[0] == '+';
    let from: usize = if has_sign {
        1
    } else {
        0
    };
    assert(s@.skip(from as int) =~= (if has_sign {
        s@.drop_first()
    } else {
        s@
    }));
    match parse_digits(s, from, 4294967295) {
        Some(v) => {
            proof {
                lemma_digits_value_nonneg(s@.skip(from as int));
            }
            Some(v as u32)
        },
        None => {
            proof {
                if from < s.len() && all_digits(s@.skip(from as int)) {
                    lemma_digits_value_nonneg(s@.skip(from as int));
                }
            }
            None
        },
    }
}

// ---------------------------------------------------------------------------
// Calendar dates (chrono)
// ---------------------------------------------------------------------------

pub open spec fn is_leap_year(y: int) -> bool {
    (y % 4 == 0 && y % 100 != 0) || y % 400 == 0
}

pub open spec fn days_in_month(y: int, m: int) -> int {
    if m == 2 {
        if is_leap_year(y) {
            29
        } else {
            28
        }
    } else if m == 4 || m == 6 || m == 9 || m == 11 {
        30
    } else {
        31
    }
}

/// The proleptic Gregorian dates `chrono::NaiveDate` can hold.
pub open spec fn date_exists(y: int, m: int, d: int) -> bool {
    &&& -262143 <= y <= 262142
    &&& 1 <= m <= 12
    &&& 1 <= d <= days_in_month(y, m)
}

/// `chrono::NaiveDate::from_ymd_opt(y, m, d).is_some()`.  Claimed: the date
/// exists in the proleptic Gregorian calendar and its year lies in chrono's
/// range `-262143..=262142`, as chrono's documentation and source state.
#[verifier::external_body]
pub(crate) fn chrono_date_exists(y: i32, m: u32, d: u32) -> (r: bool)
    ensures
        r == date_exists(y as int, m as int, d as int),
{
    chrono::NaiveDate::from_ymd_opt(y, m, d).is_some()
}

/// Why a month string was refused.
#[derive(Clone, Copy, Debug, PartialEq, Eq)]
pub enum MonthError {
    /// Not two `-`-separated parts, or a part is not a number.
    Format,
    /// Numbers that do not make a calendar month.
    NoSuchMonth,
}

/// `YYYY-MM`: four ASCII digits, a dash and two ASCII digits.
pub open spec fn month_shape(raw: Seq<char>) -> bool {
    &&& raw.len() == 7
    &&& is_ascii_digit(raw[0]) && is_ascii_digit(raw[1]) && is_ascii_digit(raw[2])
        && is_ascii_digit(raw[3])
    &&& raw[4] == '-'
    &&& is_ascii_digit(raw[5]) && is_ascii_digit(raw[6])
}

/// Year and month of a `YYYY-MM` string.
pub open spec fn month_parts(raw: Seq<char>) -> Option<(int, int)> {
    if month_shape(raw) {
        Some(
            (
                digit_value(raw[0]) * 1000 + digit_value(raw[1]) * 100 + digit_value(raw[2]) * 10
                    + digit_value(raw[3]),
                digit_value(raw[5]) * 10 + digit_value(raw[6]),
            ),
        )
    } else {
        None
    }
}

fn digit_char_value(c: char) -> (r: i32)
    requires
        is_ascii_digit(c),
    ensures
        r == digit_value(c),
{
    ((c as u32) - ('0' as u32)) as i32
}

fn is_digit_char(c: char) -> (r: bool)
    ensures
        r == is_ascii_digit(c),
{
    '0' <= c && c <= '9'
}

/// A `YYYY-MM` string names a real month exactly when its two month digits
/// read 01 to 12; any string of another shape is refused as a format error.
pub proof fn lemma_month_accepted(raw: Seq<char>)
    ensures
        month_shape(raw) ==> ((month_parts(raw) matches Some((y, m)) && date_exists(y, m, 1)) <==> 1
            <= digit_value(raw[5]) * 10 + digit_value(raw[6]) <= 12),
        !month_shape(raw) ==> month_parts(raw) is None,
{
}

/// Checks that `raw` is `YYYY-MM` (four digits, a dash, two digits) naming a
/// real month (`2026-06` passes; `2026-13`, `2026-6` and `2026-06-01` do not).
pub fn validate_month(raw: &str) -> (r: Result<(), MonthError>)
    ensures
        r is Ok <==> (month_parts(raw@) matches Some((y, m)) && date_exists(y, m, 1)),
        r == Err::<(), MonthError>(MonthError::Format) <==> month_parts(raw@) is None,
{
    let v = str_chars(raw);
    if !(v.len() == 7 && is_digit_char(v[0]) && is_digit_char(v[1]) && is_digit_char(v[2])
        && is_digit_char(v[3]) && v[4] == '-' && is_digit_char(v[5]) && is_digit_char(v[6])) {
        return Err(MonthError::Format);
    }
    let y: i32 = digit_char_value(v[0]) * 1000 + digit_char_value(v[1]) * 100 + digit_char_value(
        v[2],
    ) * 10 + digit_char_value(v[3]);
    let m: i32 = digit_char_value(v[5]) * 10 + digit_char_value(v[6]);
    if chrono_date_exists(y, m as u32, 1) {
        Ok(())
    } else {
        Err(MonthError::NoSuchMonth)
    }
}

// ---------------------------------------------------------------------------
// Decimal digits
// ---------------------------------------------------------------------------

/// Decimal digits of `n` (no sign, no leading zeros; `"0"` for zero).
pub open spec fn decimal_digits(n: nat) -> Seq<char>
    decreases n,
{
    if n < 10 {
        seq![(('0' as int) + n) as char]
    } else {
        decimal_digits(n / 10).push((('0' as int) + n % 10) as char)
    }
}

/// `n` in decimal, left-padded with zeros to `width` characters.
pub open spec fn zero_padded(n: nat, width: nat) -> Seq<char> {
    let d = decimal_digits(n);
    if d.len() >= width {
        d
    } else {
        Seq::new((width - d.len()) as nat, |i: int| '0') + d
    }
}

pub fn push_decimal(out: &mut String, n: u64)
    ensures
        final(out)@ == old(out)@ + decimal_digits(n as nat),
    decreases n,
{
    if n < 10 {
        let c = char_of_digit(n as u32);
        string_push(out, c);
        assert(old(out)@ + decimal_digits(n as nat) =~= old(out)@.push(c));
    } else {
        push_decimal(out, n / 10);
        let c = char_of_digit((n % 10) as u32);
        string_push(out, c);
        assert(old(out)@ + decimal_digits(n as nat) =~= old(out)@ + decimal_digits(
            (n / 10) as nat,
        ) + seq![c]);
    }
}

fn char_of_digit(d: u32) -> (c: char)
    requires
        d < 10,
    ensures
        c == (('0' as int) + d) as char,
{
    match d {
        0 => '0',
        1 => '1',
        2 => '2',
        3 => '3',
        4 => '4',
        5 => '5',
        6 => '6',
        7 => '7',
        8 => '8',
        _ => '9',
    }
}

/// Number of decimal digits of `n`, computed.
fn decimal_len(n: u64) -> (len: u64)
    ensures
        len == decimal_digits(n as nat).len(),
        1 <= len <= n / 10 + 1,
    decreases n,
{
    if n < 10 {
        1
    } else {
        let l = decimal_len(n / 10);
        assert(decimal_digits(n as nat).len() == decimal_digits((n / 10) as nat).len() + 1);
        l + 1
    }
}

/// Appends `n` zero-padded to `width` characters (`{:0width$}`).
pub fn push_zero_padded(out: &mut String, n: u64, width: u64)
    ensures
        final(out)@ == old(out)@ + zero_padded(n as nat, width as nat),
{
    let len = decimal_len(n);
    let mut k: u64 = len;
    while k < width
        invariant
            len <= k,
            k <= width || k == len,
            len == decimal_digits(n as nat).len(),
            out@ == old(out)@ + Seq::new((k - len) as nat, |i: int| '0'),
        decreases width - k,
    {
        string_push(out, '0');
        assert(old(out)@ + Seq::new((k - len) as nat, |i: int| '0') + seq!['0'] =~= old(out)@
            + Seq::new((k + 1 - len) as nat, |i: int| '0'));
        k += 1;
    }
    push_decimal(out, n);
    assert(old(out)@ + zero_padded(n as nat, width as nat) =~= old(out)@ + Seq::new(
        (k - len) as nat,
        |i: int| '0',
    ) + decimal_digits(n as nat));
}

/// `{:04}` of an `i32`: the sign, then zeros, then the digits, four
/// characters at least.
pub open spec fn year_text(y: int) -> Seq<char> {
    if y >= 0 {
        zero_padded(y as nat, 4)
    } else {
        seq!['-'] + zero_padded((-y) as nat, 3)
    }
}

pub fn push_year(out: &mut String, y: i32)
    ensures
        final(out)@ == old(out)@ + year_text(y as int),
{
    if y >= 0 {
        push_zero_padded(out, y as u64, 4);
    } else {
        string_push(out, '-');
        let m: u64 = if y == i32::MIN {
            2147483648
        } else {
            (-y) as u64
        };
        push_zero_padded(out, m, 3);
        assert(old(out)@ + year_text(y as int) =~= old(out)@.push('-') + zero_padded(m as nat, 3));
    }
}

// ---------------------------------------------------------------------------
// Currencies and months
// ---------------------------------------------------------------------------

pub open spec fn ascii_upper(c: char) -> char {
    if 'a' <= c <= 'z' {
        ((c as int) - 32) as char
    } else {
        c
    }
}

pub open spec fn ascii_upper_seq(s: Seq<char>) -> Seq<char> {
    s.map_values(|c: char| ascii_upper(c))
}

/// `str::to_ascii_uppercase`.
pub fn to_ascii_uppercase(s: &str) -> (r: String)
    ensures
        r@ == ascii_upper_seq(s@),
{
    let v = str_chars(s);
    let mut out: Vec<char> = Vec::new();
    let mut i: usize = 0;
    while i < v.len()
        invariant
            i <= v.len(),
            out@ == ascii_upper_seq(v@.take(i as int)),
        decreases v.len() - i,
    {
        let c = v[i];
        let u = if 'a' <= c && c <= 'z' {
            char_from_u32_ascii(c as u32 - 32)
        } else {
            c
        };
        out.push(u);
        assert(ascii_upper_seq(v@.take(i + 1)) =~= ascii_upper_seq(v@.take(i as int)).push(
            ascii_upper(c),
        ));
        i += 1;
    }
    assert(v@.take(v.len() as int) =~= v@);
    string_from_chars(&out)
}

fn char_from_u32_ascii(u: u32) -> (c: char)
    requires
        u < 128,
    ensures
        c == u as char,
{
    (u as u8) as char
}

pub open spec fn ascii_lower(c: char) -> char {
    if 'A' <= c <= 'Z' {
        ((c as int) + 32) as char
    } else {
        c
    }
}

pub open spec fn ascii_lower_seq(s: Seq<char>) -> Seq<char> {
    s.map_values(|c: char| ascii_lower(c))
}

/// `str::to_ascii_lowercase`, on characters.
pub fn to_ascii_lowercase_chars(v: &Vec<char>) -> (r: Vec<char>)
    ensures
        r@ == ascii_lower_seq(v@),
{
    let mut out: Vec<char> = Vec::new();
    let mut i: usize = 0;
    while i < v.len()
        invariant
            i <= v.len(),
            out@ == ascii_lower_seq(v@.take(i as int)),
        decreases v.len() - i,
    {
        let c = v[i];
        let u = if 'A' <= c && c <= 'Z' {
            char_from_u32_ascii(c as u32 + 32)
        } else {
            c
        };
        out.push(u);
        assert(ascii_lower_seq(v@.take(i + 1)) =~= ascii_lower_seq(v@.take(i as int)).push(
            ascii_lower(c),
        ));
        i += 1;
    }
    assert(v@.take(v.len() as int) =~= v@);
    out
}

/// The posting's currency (the target one when absent) equals `target`,
/// ignoring ASCII letter case.
pub open spec fn is_target_currency_spec(posting: Option<Seq<char>>, target: Seq<char>) -> bool {
    ascii_upper_seq(
        match posting {
            Some(c) => c,
            None => target,
        },
    ) == ascii_upper_seq(target)
}

/// Currency matching: a posting without a currency, or with the target's own
/// code, is in the target currency; a code whose capital letters are
/// written small (`cny` for `CNY`) still is; a code of another length never
/// is.
pub proof fn lemma_currency_match(c: Seq<char>, t: Seq<char>)
    ensures
        is_target_currency_spec(None, t),
        is_target_currency_spec(Some(t), t),
        c.len() != t.len() ==> !is_target_currency_spec(Some(c), t),
        c.len() == t.len() && (forall|i: int|
            0 <= i < c.len() ==> #[trigger] c[i] == t[i] || ('A' <= t[i] <= 'Z' && c[i] as int
                == t[i] as int + 32)) ==> is_target_currency_spec(Some(c), t),
{
    if c.len() != t.len() {
        assert(ascii_upper_seq(c).len() != ascii_upper_seq(t).len());
    }
    if c.len() == t.len() && (forall|i: int|
        0 <= i < c.len() ==> #[trigger] c[i] == t[i] || ('A' <= t[i] <= 'Z' && c[i] as int == t[i]
            as int + 32)) {
        assert(ascii_upper_seq(c) =~= ascii_upper_seq(t)) by {
            assert forall|i: int| 0 <= i < c.len() implies ascii_upper(c[i]) == ascii_upper(
                t[i],
            ) by {
                if c[i] != t[i] {
                    assert('a' <= c[i] <= 'z');
                    assert(ascii_upper(c[i]) as int == c[i] as int - 32);
                }
            }
        }
    }
}

/// Whether a posting's currency is the target one; a missing code counts as
/// the target, and letter case is ignored.
pub fn is_target_currency(posting_currency: Option<&str>, target_currency: &str) -> (r: bool)
    ensures
        r == is_target_currency_spec(
            match posting_currency {
                Some(c) => Some(c@),
                None => None,
            },
            target_currency@,
        ),
{
    let c = match posting_currency {
        Some(c) => c,
        None => target_currency,
    };
    let up = to_ascii_uppercase(c);
    let t = to_ascii_uppercase(target_currency);
    up == t
}

/// Bytes `c` takes in UTF-8.
pub open spec fn utf8_width(c: char) -> nat {
    let u = c as u32;
    if u < 0x80 {
        1
    } else if u < 0x800 {
        2
    } else if u < 0x10000 {
        3
    } else {
        4
    }
}

/// Bytes `s` takes in UTF-8.
pub open spec fn utf8_len(s: Seq<char>) -> nat
    decreases s.len(),
{
    if s.len() == 0 {
        0
    } else {
        utf8_len(s.drop_last()) + utf8_width(s.last())
    }
}

/// Byte offset `n` of `s` falls between characters and inside the string.
pub open spec fn is_char_boundary(s: Seq<char>, n: nat) -> bool {
    exists|k: int| 0 <= k <= s.len() && utf8_len(s.take(k)) == n
}

/// `(year, month)` as `is_month_in_scope` reads it: `s[..4]` as `i32`,
/// `s[5..]` as `u32`.
pub open spec fn month_key(s: Seq<char>) -> Option<(int, int)> {
    if s.len() >= 5 && utf8_width(s[4]) == 1 && (forall|i: int|
        0 <= i < 4 ==> utf8_width(#[trigger] s[i]) == 1) {
        match (
            parse_int_spec(s.take(4), true, i32::MIN as int, i32::MAX as int),
            parse_int_spec(s.skip(5), false, 0, u32::MAX as int),
        ) {
            (Some(y), Some(m)) => Some((y, m)),
            _ => None,
        }
    } else {
        None
    }
}

/// Slicing `s[..4]` and, when that reads as a number, `s[5..]` does not panic.
pub open spec fn month_key_slices_ok(s: Seq<char>) -> bool {
    &&& is_char_boundary(s, 4)
    &&& year_prefix_reads(s) ==> s.len() >= 5 && utf8_width(s[4]) == 1
}

/// The first four bytes of `s` are four ASCII characters that read as an `i32`.
pub open spec fn year_prefix_reads(s: Seq<char>) -> bool {
    &&& s.len() >= 4
    &&& forall|i: int| 0 <= i < 4 ==> utf8_width(#[trigger] s[i]) == 1
    &&& parse_int_spec(s.take(4), true, i32::MIN as int, i32::MAX as int) is Some
}

/// `a <= b` in the order of `str`.
pub open spec fn seq_le(a: Seq<char>, b: Seq<char>) -> bool {
    a == b || seq_lt(a, b)
}

/// Whether `month` counts for `target` under `scope`: equal to it for
/// `Month`; for `Cumulative`, not later than it, comparing `(year, month)`
/// numerically when both read as numbers and as strings otherwise.
pub open spec fn month_in_scope(month: Seq<char>, target: Seq<char>, scope: ReportScope) -> bool {
    match scope {
        ReportScope::Month => month == target,
        ReportScope::Cumulative => match (month_key(month), month_key(target)) {
            (Some((y1, m1)), Some((y2, m2))) => y1 < y2 || (y1 == y2 && m1 <= m2),
            _ => seq_le(month, target),
        },
    }
}

/// The inputs on which `is_month_in_scope` does not panic.
pub open spec fn month_scope_ok(month: Seq<char>, target: Seq<char>, scope: ReportScope) -> bool {
    scope == ReportScope::Cumulative ==> month_key_slices_ok(month) && month_key_slices_ok(target)
}

proof fn lemma_utf8_len_ascii_prefix(s: Seq<char>, k: int)
    requires
        0 <= k <= s.len(),
        forall|i: int| 0 <= i < k ==> utf8_width(#[trigger] s[i]) == 1,
    ensures
        utf8_len(s.take(k)) == k,
    decreases k,
{
    if k > 0 {
        assert(s.take(k).drop_last() =~= s.take(k - 1));
        lemma_utf8_len_ascii_prefix(s, k - 1);
    }
}

fn is_ascii_char(c: char) -> (r: bool)
    ensures
        r == (utf8_width(c) == 1),
{
    (c as u32) < 128
}

fn month_key_exec(s: &Vec<char>) -> (r: Option<(i32, u32)>)
    ensures
        r matches Some((y, m)) ==> month_key(s@) == Some((y as int, m as int)),
        r is None ==> month_key(s@) is None,
{
    if s.len() >= 5 && is_ascii_char(s[0]) && is_ascii_char(s[1]) && is_ascii_char(s[2])
        && is_ascii_char(s[3]) && is_ascii_char(s[4]) {
        let y = parse_i32(&slice_chars(s, 0, 4));
        let m = parse_u32(&slice_chars(s, 5, s.len()));
        assert(s@.subrange(5, s@.len() as int) =~= s@.skip(5));
        match (y, m) {
            (Some(y), Some(m)) => Some((y, m)),
            _ => None,
        }
    } else {
        proof {
            if s.len() >= 5 && utf8_width(s@[4]) == 1 && (forall|i: int|
                0 <= i < 4 ==> utf8_width(#[trigger] s@[i]) == 1) {
                assert(utf8_width(s@[0]) == 1);
                assert(utf8_width(s@[1]) == 1);
                assert(utf8_width(s@[2]) == 1);
                assert(utf8_width(s@[3]) == 1);
            }
        }
        None
    }
}

/// Whether `month` falls within the scope of `target_month`.
pub fn is_month_in_scope(month: &str, target_month: &str, scope: ReportScope) -> (r: bool)
    requires
        month_scope_ok(month@, target_month@, scope),
    ensures
        r == month_in_scope(month@, target_month@, scope),
{
    let a = str_chars(month);
    let b = str_chars(target_month);
    match scope {
        ReportScope::Month => crate::text::chars_eq(&a, &b),
        ReportScope::Cumulative => {
            match (month_key_exec(&a), month_key_exec(&b)) {
                (Some((y1, m1)), Some((y2, m2))) => y1 < y2 || (y1 == y2 && m1 <= m2),
                _ => crate::text::chars_eq(&a, &b) || crate::text::chars_lt(&a, &b),
            }
        },
    }
}

/// The number four ASCII digits write, read as `digits_value` does.
proof fn lemma_four_digits(s: Seq<char>)
    requires
        s.len() == 4,
        all_digits(s),
    ensures
        crate::amount::digits_value(s) == digit_value(s[0]) * 1000 + digit_value(s[1]) * 100
            + digit_value(s[2]) * 10 + digit_value(s[3]),
{
    assert(s.drop_last() =~= s.take(3));
    assert(s.take(3).drop_last() =~= s.take(2));
    assert(s.take(2).drop_last() =~= s.take(1));
    assert(s.take(1).drop_last() =~= Seq::<char>::empty());
    assert(crate::amount::digits_value(Seq::<char>::empty()) == 0);
    assert(s.take(1).last() == s[0]);
    assert(crate::amount::digits_value(s.take(1)) == digit_value(s[0]));
    assert(crate::amount::digits_value(s.take(2)) == digit_value(s[0]) * 10 + digit_value(s[1]));
    assert(crate::amount::digits_value(s.take(3)) == (digit_value(s[0]) * 10 + digit_value(s[1]))
        * 10 + digit_value(s[2]));
}

/// A `YYYY-MM` string reads, as `is_month_in_scope` reads it, as its year and
/// month numbers.
proof fn lemma_month_key_of_shape(s: Seq<char>)
    requires
        month_shape(s),
    ensures
        month_key(s) == month_parts(s),
{
    let y = s.take(4);
    let mo = s.skip(5);
    assert(forall|i: int| 0 <= i < 4 ==> utf8_width(#[trigger] s[i]) == 1) by {
        assert forall|i: int| 0 <= i < 4 implies utf8_width(#[trigger] s[i]) == 1 by {
            if i == 0 {
            } else if i == 1 {
            } else if i == 2 {
            } else {
            }
        }
    }
    assert(utf8_width(s[4]) == 1);
    assert(all_digits(y)) by {
        assert forall|i: int| 0 <= i < 4 implies is_ascii_digit(#[trigger] y[i]) by {
            if i == 0 {
            } else if i == 1 {
            } else if i == 2 {
            } else {
            }
        }
    }
    lemma_four_digits(y);
    assert(mo.len() == 2 && mo[0] == s[5] && mo[1] == s[6]);
    assert(crate::amount::all_digits(mo)) by {
        assert forall|i: int| 0 <= i < 2 implies is_ascii_digit(#[trigger] mo[i]) by {
            if i == 0 {
            } else {
            }
        }
    }
    assert(mo.drop_last() =~= mo.take(1));
    assert(mo.take(1).drop_last() =~= Seq::<char>::empty());
    assert(crate::amount::digits_value(Seq::<char>::empty()) == 0);
    assert(mo.take(1).last() == s[5]);
    assert(crate::amount::digits_value(mo.take(1)) == digit_value(s[5]));
    assert(crate::amount::digits_value(mo) == digit_value(s[5]) * 10 + digit_value(s[6]));
    assert(parse_int_spec(y, true, i32::MIN as int, i32::MAX as int) == Some(
        crate::amount::digits_value(y),
    ));
    assert(parse_int_spec(mo, false, 0, u32::MAX as int) == Some(crate::amount::digits_value(mo)));
}

/// In month scope a month counts only for itself.
pub proof fn lemma_month_scope_is_same_month(m: Seq<char>, t: Seq<char>)
    ensures
        month_in_scope(m, t, ReportScope::Month) <==> m == t,
{
}

/// For `YYYY-MM` months the cumulative scope is the calendar order: a month
/// counts up to the target exactly when its year is earlier, or the year is
/// the same and its month number is not larger.  So every month of an
/// earlier year counts, whatever its month number.
pub proof fn lemma_cumulative_scope_is_chronological(m: Seq<char>, t: Seq<char>)
    requires
        month_shape(m),
        month_shape(t),
    ensures
        month_in_scope(m, t, ReportScope::Cumulative) <==> ({
            let year_m = digit_value(m[0]) * 1000 + digit_value(m[1]) * 100 + digit_value(m[2]) * 10
                + digit_value(m[3]);
            let year_t = digit_value(t[0]) * 1000 + digit_value(t[1]) * 100 + digit_value(t[2]) * 10
                + digit_value(t[3]);
            let mon_m = digit_value(m[5]) * 10 + digit_value(m[6]);
            let mon_t = digit_value(t[5]) * 10 + digit_value(t[6]);
            year_m < year_t || (year_m == year_t && mon_m <= mon_t)
        }),
{
    lemma_month_key_of_shape(m);
    lemma_month_key_of_shape(t);
}

/// A month string `YYYY-MM` of ASCII characters satisfies the slicing
/// condition of `is_month_in_scope`.
pub proof fn lemma_ascii_month_slices_ok(s: Seq<char>)
    requires
        s.len() >= 5,
        forall|i: int| 0 <= i < s.len() ==> utf8_width(#[trigger] s[i]) == 1,
    ensures
        month_key_slices_ok(s),
{
    lemma_utf8_len_ascii_prefix(s, 4);
    assert(utf8_width(s[4]) == 1);
}

/// A month counted under `Month` scope is counted under `Cumulative` scope.
pub proof fn lemma_month_scope_within_cumulative(month: Seq<char>, target: Seq<char>)
    requires
        month_in_scope(month, target, ReportScope::Month),
    ensures
        month_in_scope(month, target, ReportScope::Cumulative),
{
}

// ---------------------------------------------------------------------------
// Text layout
// ---------------------------------------------------------------------------

/// `format!("{:.2}", v.round_dp(2))`: see [`crate::amount::text_2dp_spec`];
/// an amount with at most two digits after the point is written as it is.
pub fn fmt_decimal(v: Amount) -> (r: String)
    ensures
        r@ == crate::amount::text_2dp_spec(decimal_rounded(v@, 2)),
        v@.1 <= 2 ==> r@ == crate::amount::text_2dp_spec(v@),
{
    let rounded = decimal_round_dp(v, 2);
    decimal_to_text_2dp(rounded)
}

/// Every character of `s` is printable ASCII (a space up to `~`).
pub open spec fn printable_ascii(s: Seq<char>) -> bool {
    forall|i: int| 0 <= i < s.len() ==> ' ' <= #[trigger] s[i] <= '~'
}

/// Terminal columns `unicode_width::UnicodeWidthStr::width` gives a string.
pub uninterp spec fn unicode_display_width(s: Seq<char>) -> nat;

/// `UnicodeWidthStr::width(s)` (unicode-width): the columns a terminal
/// gives `s` (East Asian wide characters take two).  The rules take pages;
/// the result is left to the name `unicode_display_width`.  Claimed beyond
/// the name: the empty string takes no columns (the source folds over the
/// characters from 0), and a string of printable ASCII characters takes one
/// column each (`lookup::width_in_str` gives 1 to every character up to
/// U+00A0 but a line feed and a carriage return before one).
#[verifier::external_body]
pub fn display_width(s: &str) -> (r: usize)
    ensures
        r as nat == unicode_display_width(s@),
        s@.len() == 0 ==> r == 0,
        printable_ascii(s@) ==> r == s@.len(),
{
    unicode_width::UnicodeWidthStr::width(s)
}

pub open spec fn spaces(n: nat) -> Seq<char> {
    Seq::new(n, |i: int| ' ')
}

/// The longest of the first `n` prefixes of `s` (by length, at most `n`
/// characters) that fits in `width` columns; 0 when none but the empty one
/// does.
pub open spec fn fit_len(s: Seq<char>, width: nat, n: nat) -> nat
    decreases n,
{
    if n == 0 {
        0
    } else if unicode_display_width(s.take(n as int)) <= width {
        n
    } else {
        fit_len(s, width, (n - 1) as nat)
    }
}

/// `s` when it fits in `width` columns, else its longest prefix that does.
pub open spec fn fit_text(s: Seq<char>, width: nat) -> Seq<char> {
    if unicode_display_width(s) <= width {
        s
    } else {
        s.take(fit_len(s, width, (s.len() - 1) as nat) as int)
    }
}

/// `s` cut to `width` terminal columns when wider, then padded with spaces
/// to `width` columns.
pub open spec fn pad_display_spec(s: Seq<char>, width: nat, left_align: bool) -> Seq<char> {
    let t = fit_text(s, width);
    let tw = unicode_display_width(t);
    if left_align {
        t + spaces((width - tw) as nat)
    } else {
        spaces((width - tw) as nat) + t
    }
}

proof fn lemma_fit_len(s: Seq<char>, width: nat, n: nat)
    requires
        n <= s.len(),
        unicode_display_width(s.take(0)) == 0,
    ensures
        fit_len(s, width, n) <= n,
        unicode_display_width(s.take(fit_len(s, width, n) as int)) <= width,
    decreases n,
{
    if n > 0 && !(unicode_display_width(s.take(n as int)) <= width) {
        lemma_fit_len(s, width, (n - 1) as nat);
    }
}

pub fn push_spaces(out: &mut String, n: usize)
    ensures
        final(out)@ == old(out)@ + spaces(n as nat),
{
    let mut k: usize = 0;
    while k < n
        invariant
            k <= n,
            out@ == old(out)@ + spaces(k as nat),
        decreases n - k,
    {
        string_push(out, ' ');
        assert(old(out)@ + spaces(k as nat) + seq![' '] =~= old(out)@ + spaces((k + 1) as nat));
        k += 1;
    }
}

/// Pads `s` with spaces to `width` display columns, left- or right-aligned;
/// text wider than `width` is first cut to its longest prefix that fits.
pub fn pad_display(s: &str, width: usize, left_align: bool) -> (r: String)
    ensures
        r@ == pad_display_spec(s@, width as nat, left_align),
        unicode_display_width(fit_text(s@, width as nat)) <= width,
        printable_ascii(s@) && s@.len() <= width ==> r@ == (if left_align {
            s@ + spaces((width - s@.len()) as nat)
        } else {
            spaces((width - s@.len()) as nat) + s@
        }),
{
    let v = str_chars(s);
    let e = String::new();
    let _ = display_width(e.as_str());
    assert(s@.take(0) =~= e@);
    let dw = display_width(s);
    let t = if dw <= width {
        s.to_string()
    } else {
        let n = v.len();
        if n == 0 {
            assert(s@ =~= s@.take(0));
        }
        let mut k: usize = n - 1;
        loop
            invariant
                v@ == s@,
                n == v.len(),
                n > 0,
                k < n,
                fit_len(s@, width as nat, (n - 1) as nat) == fit_len(s@, width as nat, k as nat),
            ensures
                k < n,
                fit_len(s@, width as nat, (n - 1) as nat) == k,
            decreases k,
        {
            let p = string_from_chars(&slice_chars(&v, 0, k));
            assert(p@ =~= s@.take(k as int));
            let pw = display_width(p.as_str());
            if pw <= width || k == 0 {
                break;
            }
            k -= 1;
        }
        proof {
            lemma_fit_len(s@, width as nat, (n - 1) as nat);
        }
        let p = string_from_chars(&slice_chars(&v, 0, k));
        assert(p@ =~= s@.take(k as int));
        p
    };
    assert(t@ == fit_text(s@, width as nat));
    proof {
        if !(unicode_display_width(s@) <= width) {
            lemma_fit_len(s@, width as nat, (s@.len() - 1) as nat);
        }
    }
    let tw = display_width(t.as_str());
    if left_align {
        let mut out = t;
        push_spaces(&mut out, width - tw);
        out
    } else {
        let mut out = String::new();
        push_spaces(&mut out, width - tw);
        push_str(&mut out, t.as_str());
        assert(out@ =~= spaces((width - tw) as nat) + t@);
        out
    }
}

/// `"payee" "narration"`, each quoted; `"(无标题)"` when both are missing.
pub open spec fn tx_title_spec(payee: Option<Seq<char>>, narration: Option<Seq<char>>) -> Seq<
    char,
> {
    match (payee, narration) {
        (Some(p), Some(n)) => seq!['\u{22}'] + p + seq!['\u{22}', ' ', '\u{22}'] + n + seq!['\u{22}'],
        (Some(p), None) => seq!['\u{22}'] + p + seq!['\u{22}'],
        (None, Some(n)) => seq!['\u{22}'] + n + seq!['\u{22}'],
        (None, None) => seq!['\u{22}'] + "(无标题)"@ + seq!['\u{22}'],
    }
}

pub open spec fn opt_view(o: Option<&str>) -> Option<Seq<char>> {
    match o {
        Some(s) => Some(s@),
        None => None,
    }
}

/// Formats a transaction title from its payee and narration.
pub fn format_tx_title(payee: Option<&str>, narration: Option<&str>) -> (r: String)
    ensures
        r@ == tx_title_spec(opt_view(payee), opt_view(narration)),
{
    let mut out = String::new();
    string_push(&mut out, '\u{22}');
    match (payee, narration) {
        (Some(p), Some(n)) => {
            push_str(&mut out, p);
            string_push(&mut out, '\u{22}');
            string_push(&mut out, ' ');
            string_push(&mut out, '\u{22}');
            push_str(&mut out, n);
        },
        (Some(p), None) => {
            push_str(&mut out, p);
        },
        (None, Some(n)) => {
            push_str(&mut out, n);
        },
        (None, None) => {
            push_str(&mut out, "(无标题)");
        },
    }
    string_push(&mut out, '\u{22}');
    assert(out@ =~= tx_title_spec(opt_view(payee), opt_view(narration)));
    out
}

/// The last two `:`-separated parts of an account name, joined by `:`; the
/// whole name when it has no `:`.
pub open spec fn shorten_account_spec(a: Seq<char>) -> Seq<char> {
    match last_index_of(a, ':') {
        None => a,
        Some(i) => match last_index_of(a.take(i), ':') {
            None => a,
            Some(j) => a.skip(j + 1),
        },
    }
}

/// Keeps the last two levels of an account (`Assets:Bank:中国:建设银行` →
/// `中国:建设银行`).
pub fn shorten_account_label(account: &str) -> (r: String)
    ensures
        r@ == shorten_account_spec(account@),
{
    let v = str_chars(account);
    proof {
        lemma_last_index_of(v@, ':');
    }
    match chars_rfind(&v, ':') {
        None => account.to_string(),
        Some(i) => {
            let head = slice_chars(&v, 0, i);
            assert(head@ =~= v@.take(i as int));
            proof {
                lemma_last_index_of(head@, ':');
            }
            match chars_rfind(&head, ':') {
                None => account.to_string(),
                Some(j) => {
                    let tail = slice_chars(&v, j + 1, v.len());
                    assert(tail@ =~= v@.skip(j + 1));
                    string_from_chars(&tail)
                },
            }
        },
    }
}

/// Characters a file name may not hold.
pub open spec fn is_unsafe_filename_char(c: char) -> bool {
    c == '/' || c == '\u{5c}' || c == ':' || c == '*' || c == '?' || c == '\u{22}' || c == '<' || c
        == '>' || c == '|'
}

pub open spec fn sanitize_char(c: char) -> char {
    if is_unsafe_filename_char(c) {
        '_'
    } else {
        c
    }
}

/// Each unsafe character replaced by `_`.
pub open spec fn sanitize_seq(s: Seq<char>) -> Seq<char> {
    s.map_values(|c: char| sanitize_char(c))
}

/// Replaces each character a file name may not hold by `_`.
pub fn sanitize_filename(raw: &str) -> (r: String)
    ensures
        r@ == sanitize_seq(raw@),
{
    let v = str_chars(raw);
    let mut out = String::new();
    let mut i: usize = 0;
    while i < v.len()
        invariant
            i <= v.len(),
            out@ == v@.take(i as int).map_values(|c: char| sanitize_char(c)),
        decreases v.len() - i,
    {
        let c = v[i];
        let d = if c == '/' || c == '\u{5c}' || c == ':' || c == '*' || c == '?' || c == '\u{22}' || c
            == '<' || c == '>' || c == '|' {
            '_'
        } else {
            c
        };
        string_push(&mut out, d);
        assert(v@.take(i + 1).map_values(|c: char| sanitize_char(c)) =~= v@.take(
            i as int,
        ).map_values(|c: char| sanitize_char(c)).push(sanitize_char(c)));
        i += 1;
    }
    assert(v@.take(v.len() as int) =~= v@);
    out
}

/// A sanitized name keeps its length, holds no unsafe character, and is
/// left unchanged by sanitizing again.
pub proof fn lemma_sanitize_filename(raw: Seq<char>)
    ensures
        sanitize_seq(raw).len() == raw.len(),
        forall|i: int| 0 <= i < raw.len() ==> !is_unsafe_filename_char(#[trigger] sanitize_seq(raw)[i]),
        sanitize_seq(sanitize_seq(raw)) == sanitize_seq(raw),
{
    assert(sanitize_seq(sanitize_seq(raw)) =~= sanitize_seq(raw));
}

// ---------------------------------------------------------------------------
// Transaction dates
// ---------------------------------------------------------------------------

/// A calendar date as the ledger writes it.
#[derive(Clone, Copy, Debug, PartialEq, Eq)]
pub struct LedgerDate {
    pub year: i32,
    pub month: u32,
    pub day: u32,
}

/// `a` comes before `b` in the calendar.
pub open spec fn date_before(a: LedgerDate, b: LedgerDate) -> bool {
    a.year < b.year || (a.year == b.year && (a.month < b.month || (a.month == b.month && a.day
        < b.day)))
}

/// Whether `a` comes before `b`.
pub fn date_lt(a: &LedgerDate, b: &LedgerDate) -> (r: bool)
    ensures
        r == date_before(*a, *b),
{
    a.year < b.year || (a.year == b.year && (a.month < b.month || (a.month == b.month && a.day
        < b.day)))
}

/// `YYYY-MM` of a date (`format!("{:04}-{:02}", year, month)`).
pub open spec fn month_of_date_spec(d: LedgerDate) -> Seq<char> {
    year_text(d.year as int) + seq!['-'] + zero_padded(d.month as nat, 2)
}

/// The `YYYY-MM` month of a date.
pub fn month_of_date(date: LedgerDate) -> (r: String)
    ensures
        r@ == month_of_date_spec(date),
{
    let mut out = String::new();
    push_year(&mut out, date.year);
    string_push(&mut out, '-');
    push_zero_padded(&mut out, date.month as u64, 2);
    out
}

} // verus!
