//! Beancount ledger text: transactions, their metadata and their postings.
//!
//! A simplified reader: a transaction starts at a `YYYY-MM-DD *` (or `!`)
//! header line and gathers the indented metadata (`  key: value`) and posting
//! (`  Account  10.00 CNY`) lines after it, until a blank line or the next
//! header.  Other directives (`include`, `balance`, `price`, ...) are skipped.
use vstd::prelude::*;

use crate::amount::{Amount, decimal_from_str, decimal_parse, digit_value, is_ascii_digit};
use crate::cli::opt_seq;
use crate::strmap::StrMap;
use crate::text::{
    char_is_ws, chars_nonws_end, chars_replace2, chars_trim, chars_trim_end, chars_ws_end,
    is_ws, nonws_end, replace_all, slice_chars, str_chars, string_from_chars, trim, trim_end,
    ws_end,
};
use crate::util::{LedgerDate, date_exists, strip_bom, strip_bom_spec};

verus! {

broadcast use vstd::string::group_string_axioms;

// ---------------------------------------------------------------------------
// Data
// ---------------------------------------------------------------------------

/// One posting line.
#[derive(Debug)]
pub struct LedgerPosting {
    /// Full account name, e.g. `Expenses:Food:Groceries`.
    pub account: String,
    /// The amount, when the line carries one that parses.
    pub amount: Option<Amount>,
    /// Currency code; `None` counts as the target currency.
    pub currency: Option<String>,
    /// The total price written after `@@` (amount and currency), if any.
    pub total_price: Option<(Amount, String)>,
}

/// One transaction.
#[derive(Debug)]
pub struct LedgerTransaction {
    pub date: LedgerDate,
    pub payee: Option<String>,
    pub narration: Option<String>,
    /// Metadata key/value pairs (the `budget` tag among them).
    pub metadata: StrMap<String>,
    pub postings: Vec<LedgerPosting>,
}

/// Why a ledger text was refused.
#[derive(Debug)]
pub enum LedgerError {
    /// A header line's date is no calendar date; the date text.
    InvalidDate(String),
}

/// A posting as plain values.
pub struct PostingView {
    pub account: Seq<char>,
    pub amount: Option<(int, nat, bool)>,
    pub currency: Option<Seq<char>>,
    pub total_price: Option<((int, nat, bool), Seq<char>)>,
}

/// A transaction as plain values.
pub struct TxView {
    pub date: LedgerDate,
    pub payee: Option<Seq<char>>,
    pub narration: Option<Seq<char>>,
    pub metadata: Map<Seq<char>, Seq<char>>,
    pub postings: Seq<PostingView>,
}

pub open spec fn opt_amount(o: Option<Amount>) -> Option<(int, nat, bool)> {
    match o {
        Some(a) => Some(a@),
        None => None,
    }
}

pub open spec fn opt_price(o: Option<(Amount, String)>) -> Option<((int, nat, bool), Seq<char>)> {
    match o {
        Some(p) => Some((p.0@, p.1@)),
        None => None,
    }
}

impl View for LedgerPosting {
    type V = PostingView;

    open spec fn view(&self) -> PostingView {
        PostingView {
            account: self.account@,
            amount: opt_amount(self.amount),
            currency: opt_seq(self.currency),
            total_price: opt_price(self.total_price),
        }
    }
}

pub open spec fn string_views(m: Map<Seq<char>, String>) -> Map<Seq<char>, Seq<char>> {
    m.map_values(|v: String| v@)
}

pub open spec fn posting_views(s: Seq<LedgerPosting>) -> Seq<PostingView> {
    s.map_values(|p: LedgerPosting| p@)
}

impl View for LedgerTransaction {
    type V = TxView;

    open spec fn view(&self) -> TxView {
        TxView {
            date: self.date,
            payee: opt_seq(self.payee),
            narration: opt_seq(self.narration),
            metadata: string_views(self.metadata@),
            postings: posting_views(self.postings@),
        }
    }
}

pub open spec fn tx_views(s: Seq<LedgerTransaction>) -> Seq<TxView> {
    s.map_values(|t: LedgerTransaction| t@)
}

// ---------------------------------------------------------------------------
// Character classes and runs
// ---------------------------------------------------------------------------

/// `[A-Za-z_]`
pub open spec fn is_key_start(c: char) -> bool {
    ('A' <= c <= 'Z') || ('a' <= c <= 'z') || c == '_'
}

/// `[A-Za-z0-9_]`
pub open spec fn is_key_char(c: char) -> bool {
    is_key_start(c) || is_ascii_digit(c)
}

/// `[A-Za-z0-9_.-]`
pub open spec fn is_currency_char(c: char) -> bool {
    is_key_char(c) || c == '.' || c == '-'
}

fn char_is_key_start(c: char) -> (r: bool)
    ensures
        r == is_key_start(c),
{
    ('A' <= c && c <= 'Z') || ('a' <= c && c <= 'z') || c == '_'
}

fn char_is_digit(c: char) -> (r: bool)
    ensures
        r == is_ascii_digit(c),
{
    '0' <= c && c <= '9'
}

fn char_is_key_char(c: char) -> (r: bool)
    ensures
        r == is_key_char(c),
{
    char_is_key_start(c) || char_is_digit(c)
}

fn char_is_currency_char(c: char) -> (r: bool)
    ensures
        r == is_currency_char(c),
{
    char_is_key_char(c) || c == '.' || c == '-'
}

/// End of the run of key characters starting at `i`.
pub open spec fn key_end(s: Seq<char>, i: int) -> int
    decreases s.len() - i,
{
    if 0 <= i < s.len() && is_key_char(s[i]) {
        key_end(s, i + 1)
    } else {
        i
    }
}

/// End of the run of ASCII digits starting at `i`.
pub open spec fn digits_end(s: Seq<char>, i: int) -> int
    decreases s.len() - i,
{
    if 0 <= i < s.len() && is_ascii_digit(s[i]) {
        digits_end(s, i + 1)
    } else {
        i
    }
}

/// End of the run of currency characters starting at `i`.
pub open spec fn currency_end(s: Seq<char>, i: int) -> int
    decreases s.len() - i,
{
    if 0 <= i < s.len() && is_currency_char(s[i]) {
        currency_end(s, i + 1)
    } else {
        i
    }
}

fn chars_key_end(s: &Vec<char>, i: usize) -> (r: usize)
    requires
        i <= s.len(),
    ensures
        r as int == key_end(s@, i as int),
        i <= r <= s.len(),
{
    let mut j = i;
    while j < s.len() && char_is_key_char(s[j])
        invariant
            i <= j <= s.len(),
            key_end(s@, i as int) == key_end(s@, j as int),
        decreases s.len() - j,
    {
        j += 1;
    }
    j
}

fn chars_digits_end(s: &Vec<char>, i: usize) -> (r: usize)
    requires
        i <= s.len(),
    ensures
        r as int == digits_end(s@, i as int),
        i <= r <= s.len(),
{
    let mut j = i;
    while j < s.len() && char_is_digit(s[j])
        invariant
            i <= j <= s.len(),
            digits_end(s@, i as int) == digits_end(s@, j as int),
        decreases s.len() - j,
    {
        j += 1;
    }
    j
}

fn chars_currency_end(s: &Vec<char>, i: usize) -> (r: usize)
    requires
        i <= s.len(),
    ensures
        r as int == currency_end(s@, i as int),
        i <= r <= s.len(),
{
    let mut j = i;
    while j < s.len() && char_is_currency_char(s[j])
        invariant
            i <= j <= s.len(),
            currency_end(s@, i as int) == currency_end(s@, j as int),
        decreases s.len() - j,
    {
        j += 1;
    }
    j
}

// ---------------------------------------------------------------------------
// Line shapes
// ---------------------------------------------------------------------------

/// `\d{4}-\d{2}-\d{2}` at the start of `t`.
pub open spec fn date_prefix(t: Seq<char>) -> bool {
    &&& t.len() >= 10
    &&& is_ascii_digit(t[0]) && is_ascii_digit(t[1]) && is_ascii_digit(t[2]) && is_ascii_digit(t[3])
    &&& t[4] == '-'
    &&& is_ascii_digit(t[5]) && is_ascii_digit(t[6])
    &&& t[7] == '-'
    &&& is_ascii_digit(t[8]) && is_ascii_digit(t[9])
}

/// A transaction header: `^\d{4}-\d{2}-\d{2}\s+[*!](?:\s|$)`.
pub open spec fn is_header(t: Seq<char>) -> bool {
    date_prefix(t) && {
        let j = ws_end(t, 10);
        &&& j > 10
        &&& j < t.len()
        &&& (t[j] == '*' || t[j] == '!')
        &&& (j + 1 == t.len() || is_ws(t[j + 1]))
    }
}

/// The year written by the first four digits.
pub open spec fn header_year(t: Seq<char>) -> int {
    digit_value(t[0]) * 1000 + digit_value(t[1]) * 100 + digit_value(t[2]) * 10 + digit_value(t[3])
}

pub open spec fn header_month(t: Seq<char>) -> int {
    digit_value(t[5]) * 10 + digit_value(t[6])
}

pub open spec fn header_day(t: Seq<char>) -> int {
    digit_value(t[8]) * 10 + digit_value(t[9])
}

/// A metadata line `^\s{2}([A-Za-z_][A-Za-z0-9_]*)\s*:\s+(.+?)\s*$`: the key and
/// the raw value.
pub open spec fn meta_match(t: Seq<char>) -> Option<(Seq<char>, Seq<char>)> {
    if t.len() >= 3 && is_ws(t[0]) && is_ws(t[1]) && is_key_start(t[2]) {
        let k = key_end(t, 2);
        let c = ws_end(t, k);
        if c < t.len() && t[c] == ':' {
            let v = ws_end(t, c + 1);
            if c + 1 < v < t.len() {
                Some((t.subrange(2, k), trim_end(t.subrange(v, t.len() as int))))
            } else {
                None
            }
        } else {
            None
        }
    } else {
        None
    }
}

/// Where the account starts on a posting line: after a `*`/`!` flag and its
/// spaces, when the line has one.
pub open spec fn account_start(t: Seq<char>) -> int {
    if (t[2] == '*' || t[2] == '!') && t.len() > 3 && is_ws(t[3]) && ws_end(t, 3) < t.len() {
        ws_end(t, 3)
    } else {
        2
    }
}

/// End of the number `[+-]?\d+(?:\.\d+)?` starting at `w`, if one does.
pub open spec fn number_end(t: Seq<char>, w: int) -> Option<int> {
    let d0 = if w < t.len() && (t[w] == '+' || t[w] == '-') {
        w + 1
    } else {
        w
    };
    let d1 = digits_end(t, d0);
    if d1 == d0 {
        None
    } else if d1 < t.len() && t[d1] == '.' && digits_end(t, d1 + 1) > d1 + 1 {
        Some(digits_end(t, d1 + 1))
    } else {
        Some(d1)
    }
}

/// A posting line
/// `^\s{2}(?:[*!]\s+)?(\S+)(?:\s{2,}([+-]?\d+(?:\.\d+)?)(?:\s+([A-Za-z0-9_.-]+))?)?`:
/// the account, the number text and the currency.
pub open spec fn posting_match(t: Seq<char>) -> Option<
    (Seq<char>, Option<Seq<char>>, Option<Seq<char>>),
> {
    if t.len() >= 3 && is_ws(t[0]) && is_ws(t[1]) && !is_ws(t[2]) {
        let a = account_start(t);
        let e = nonws_end(t, a);
        let w = ws_end(t, e);
        let account = t.subrange(a, e);
        if w >= e + 2 && number_end(t, w) is Some {
            let n = number_end(t, w).unwrap();
            let c0 = ws_end(t, n);
            let c1 = currency_end(t, c0);
            let currency = if c0 > n && c1 > c0 {
                Some(t.subrange(c0, c1))
            } else {
                None
            };
            Some((account, Some(t.subrange(w, n)), currency))
        } else {
            Some((account, None, None))
        }
    } else {
        None
    }
}

/// The total price of a posting line with an amount and a currency:
/// `\s+@@\s+([+-]?\d+(?:\.\d+)?)\s+([A-Za-z0-9_.-]+)` right after the
/// currency gives the price's number text and currency.
pub open spec fn price_match(t: Seq<char>) -> Option<(Seq<char>, Seq<char>)> {
    if t.len() >= 3 && is_ws(t[0]) && is_ws(t[1]) && !is_ws(t[2]) {
        let a = account_start(t);
        let e = nonws_end(t, a);
        let w = ws_end(t, e);
        if w >= e + 2 && number_end(t, w) is Some {
            let n = number_end(t, w).unwrap();
            let c0 = ws_end(t, n);
            let c1 = currency_end(t, c0);
            let p0 = ws_end(t, c1);
            if c0 > n && c1 > c0 && p0 > c1 && p0 + 1 < t.len() && t[p0] == '@' && t[p0 + 1]
                == '@' {
                let q = ws_end(t, p0 + 2);
                if q > p0 + 2 && number_end(t, q) is Some {
                    let n2 = number_end(t, q).unwrap();
                    let c2 = ws_end(t, n2);
                    let c3 = currency_end(t, c2);
                    if c2 > n2 && c3 > c2 {
                        Some((t.subrange(q, n2), t.subrange(c2, c3)))
                    } else {
                        None
                    }
                } else {
                    None
                }
            } else {
                None
            }
        } else {
            None
        }
    } else {
        None
    }
}

fn match_price(t: &Vec<char>) -> (r: Option<(Vec<char>, Vec<char>)>)
    ensures
        r is None <==> price_match(t@) is None,
        r matches Some(p) ==> price_match(t@) == Some((p.0@, p.1@)),
{
    if !(t.len() >= 3 && char_is_ws(t[0]) && char_is_ws(t[1]) && !char_is_ws(t[2])) {
        return None;
    }
    let mut a: usize = 2;
    if (t[2] == '*' || t[2] == '!') && t.len() > 3 && char_is_ws(t[3]) {
        let f = chars_ws_end(t, 3);
        if f < t.len() {
            a = f;
        }
    }
    assert(a as int == account_start(t@));
    let e = chars_nonws_end(t, a);
    let w = chars_ws_end(t, e);
    if w - e < 2 {
        return None;
    }
    let n = match chars_number_end(t, w) {
        Some(n) => n,
        None => {
            return None;
        },
    };
    let c0 = chars_ws_end(t, n);
    let c1 = chars_currency_end(t, c0);
    let p0 = chars_ws_end(t, c1);
    if !(c0 > n && c1 > c0 && p0 > c1 && p0 < t.len() && t.len() - p0 > 1 && t[p0] == '@' && t[p0 + 1] == '@') {
        return None;
    }
    let q = chars_ws_end(t, p0 + 2);
    if q <= p0 + 2 {
        return None;
    }
    let n2 = match chars_number_end(t, q) {
        Some(n2) => n2,
        None => {
            return None;
        },
    };
    let c2 = chars_ws_end(t, n2);
    let c3 = chars_currency_end(t, c2);
    if c2 > n2 && c3 > c2 {
        Some((slice_chars(t, q, n2), slice_chars(t, c2, c3)))
    } else {
        None
    }
}

fn chars_date_prefix(t: &Vec<char>) -> (r: bool)
    ensures
        r == date_prefix(t@),
{
    t.len() >= 10 && char_is_digit(t[0]) && char_is_digit(t[1]) && char_is_digit(t[2])
        && char_is_digit(t[3]) && t[4] == '-' && char_is_digit(t[5]) && char_is_digit(t[6])
        && t[7] == '-' && char_is_digit(t[8]) && char_is_digit(t[9])
}

fn line_is_header(t: &Vec<char>) -> (r: bool)
    ensures
        r == is_header(t@),
{
    if !chars_date_prefix(t) {
        return false;
    }
    let j = chars_ws_end(t, 10);
    j > 10 && j < t.len() && (t[j] == '*' || t[j] == '!') && (j + 1 == t.len() || char_is_ws(
        t[j + 1],
    ))
}

/// What `chrono::NaiveDate::parse_from_str(s, "%Y-%m-%d")` gives, as
/// (year, month, day).
pub uninterp spec fn ymd_parse(s: Seq<char>) -> Option<(int, int, int)>;

/// `chrono::NaiveDate::parse_from_str(s, "%Y-%m-%d")`, taken apart.
///
/// chrono's parser is lenient (signs, spaces, short fields); its result is
/// left to the name `ymd_parse`.  Claimed beyond the name: whatever it gives
/// is a date of chrono's calendar; and for ten characters `dddd-dd-dd` of
/// ASCII digits chrono reads the three numbers and gives a date exactly when
/// that calendar date exists (a month `1..=12`, a day within the month, leap
/// years by the Gregorian rule), as `Parsed::to_naive_date` and
/// `NaiveDate::from_ymd_opt` in its source do.
#[verifier::external_body]
pub(crate) fn chrono_parse_date(s: &str) -> (r: Option<LedgerDate>)
    ensures
        r matches Some(d) ==> ymd_parse(s@) == Some((d.year as int, d.month as int, d.day as int)),
        r is None ==> ymd_parse(s@) is None,
        r matches Some(d) ==> date_exists(d.year as int, d.month as int, d.day as int),
        date_prefix(s@) && s@.len() == 10 ==> (r is Some <==> date_exists(
            header_year(s@),
            header_month(s@),
            header_day(s@),
        )),
        date_prefix(s@) && s@.len() == 10 && r is Some ==> r.unwrap().year == header_year(s@)
            && r.unwrap().month == header_month(s@) && r.unwrap().day == header_day(s@),
{
    match chrono::NaiveDate::parse_from_str(s, "%Y-%m-%d") {
        Ok(d) => Some(
            LedgerDate {
                year: chrono::Datelike::year(&d),
                month: chrono::Datelike::month(&d),
                day: chrono::Datelike::day(&d),
            },
        ),
        Err(_) => None,
    }
}

pub open spec fn opt_chars(o: Option<Vec<char>>) -> Option<Seq<char>> {
    match o {
        Some(v) => Some(v@),
        None => None,
    }
}

fn match_metadata(t: &Vec<char>) -> (r: Option<(Vec<char>, Vec<char>)>)
    ensures
        r is None <==> meta_match(t@) is None,
        r matches Some(kv) ==> meta_match(t@) == Some((kv.0@, kv.1@)),
{
    if !(t.len() >= 3 && char_is_ws(t[0]) && char_is_ws(t[1]) && char_is_key_start(t[2])) {
        return None;
    }
    let k = chars_key_end(t, 2);
    let c = chars_ws_end(t, k);
    if !(c < t.len() && t[c] == ':') {
        return None;
    }
    let v = chars_ws_end(t, c + 1);
    if !(c + 1 < v && v < t.len()) {
        return None;
    }
    let key = slice_chars(t, 2, k);
    let raw = slice_chars(t, v, t.len());
    let value = chars_trim_end(&raw);
    Some((key, value))
}

fn chars_number_end(t: &Vec<char>, w: usize) -> (r: Option<usize>)
    requires
        w <= t.len(),
    ensures
        opt_int(r) == number_end(t@, w as int),
        r matches Some(n) ==> w < n <= t.len(),
{
    let d0 = if w < t.len() && (t[w] == '+' || t[w] == '-') {
        w + 1
    } else {
        w
    };
    let d1 = chars_digits_end(t, d0);
    if d1 == d0 {
        None
    } else if d1 < t.len() && t[d1] == '.' {
        let d2 = chars_digits_end(t, d1 + 1);
        if d2 > d1 + 1 {
            Some(d2)
        } else {
            Some(d1)
        }
    } else {
        Some(d1)
    }
}

pub open spec fn opt_int(o: Option<usize>) -> Option<int> {
    match o {
        Some(n) => Some(n as int),
        None => None,
    }
}

fn match_posting(t: &Vec<char>) -> (r: Option<(Vec<char>, Option<Vec<char>>, Option<Vec<char>>)>)
    ensures
        r is None <==> posting_match(t@) is None,
        r matches Some(p) ==> posting_match(t@) == Some((p.0@, opt_chars(p.1), opt_chars(p.2))),
{
    if !(t.len() >= 3 && char_is_ws(t[0]) && char_is_ws(t[1]) && !char_is_ws(t[2])) {
        return None;
    }
    let mut a: usize = 2;
    if (t[2] == '*' || t[2] == '!') && t.len() > 3 && char_is_ws(t[3]) {
        let f = chars_ws_end(t, 3);
        if f < t.len() {
            a = f;
        }
    }
    assert(a as int == account_start(t@));
    let e = chars_nonws_end(t, a);
    let w = chars_ws_end(t, e);
    let account = slice_chars(t, a, e);
    if w - e >= 2 {
        match chars_number_end(t, w) {
            Some(n) => {
                let c0 = chars_ws_end(t, n);
                let c1 = chars_currency_end(t, c0);
                let currency = if c0 > n && c1 > c0 {
                    Some(slice_chars(t, c0, c1))
                } else {
                    None
                };
                let number = slice_chars(t, w, n);
                return Some((account, Some(number), currency));
            },
            None => {},
        }
    }
    Some((account, None, None))
}

// ---------------------------------------------------------------------------
// Quoted text
// ---------------------------------------------------------------------------

/// Index of the quote closing a quoted text whose body starts at `i`: the first
/// `"` not escaped by a backslash (`"((?:\\.|[^"\\])*)"`).
pub open spec fn close_quote(s: Seq<char>, i: int) -> Option<int>
    decreases s.len() - i,
{
    if i < 0 || i >= s.len() {
        None
    } else if s[i] == '\u{22}' {
        Some(i)
    } else if s[i] == '\u{5c}' {
        if i + 1 < s.len() && s[i + 1] != '\n' {
            close_quote(s, i + 2)
        } else {
            None
        }
    } else {
        close_quote(s, i + 1)
    }
}

pub proof fn lemma_close_quote(s: Seq<char>, i: int)
    requires
        0 <= i,
    ensures
        close_quote(s, i) matches Some(c) ==> i <= c < s.len(),
    decreases s.len() - i,
{
    if 0 <= i < s.len() && s[i] != '\u{22}' {
        if s[i] == '\u{5c}' {
            if i + 1 < s.len() && s[i + 1] != '\n' {
                lemma_close_quote(s, i + 2);
            }
        } else {
            lemma_close_quote(s, i + 1);
        }
    }
}

/// The bodies of the quoted texts of `s` from position `p` on, left to right.
pub open spec fn quoted_texts(s: Seq<char>, p: int) -> Seq<Seq<char>>
    decreases s.len() - p,
{
    if p < 0 || p >= s.len() {
        Seq::empty()
    } else if s[p] == '\u{22}' && close_quote(s, p + 1) is Some {
        let c = close_quote(s, p + 1).unwrap();
        proof {
            lemma_close_quote(s, p + 1);
        }
        seq![s.subrange(p + 1, c)] + quoted_texts(s, c + 1)
    } else {
        quoted_texts(s, p + 1)
    }
}

/// `raw.replace("\\\"", "\"").replace("\\\\", "\\")`.
pub open spec fn unescape_spec(raw: Seq<char>) -> Seq<char> {
    replace_all(
        replace_all(raw, seq!['\u{5c}', '\u{22}'], seq!['\u{22}']),
        seq!['\u{5c}', '\u{5c}'],
        seq!['\u{5c}'],
    )
}

/// Payee and narration of a header line: its first and second quoted texts.
pub open spec fn title_spec(t: Seq<char>) -> (Option<Seq<char>>, Option<Seq<char>>) {
    let q = quoted_texts(t, 0);
    (
        if q.len() > 0 {
            Some(unescape_spec(q[0]))
        } else {
            None
        },
        if q.len() > 1 {
            Some(unescape_spec(q[1]))
        } else {
            None
        },
    )
}

pub open spec fn chars_views(v: Seq<Vec<char>>) -> Seq<Seq<char>> {
    v.map_values(|x: Vec<char>| x@)
}

fn chars_close_quote(s: &Vec<char>, i: usize) -> (r: Option<usize>)
    requires
        i <= s.len(),
    ensures
        opt_int(r) == close_quote(s@, i as int),
        r matches Some(c) ==> i <= c < s.len(),
{
    let mut j = i;
    while j < s.len()
        invariant
            i <= j <= s.len(),
            close_quote(s@, i as int) == close_quote(s@, j as int),
        decreases s.len() - j,
    {
        if s[j] == '\u{22}' {
            return Some(j);
        } else if s[j] == '\u{5c}' {
            if j + 1 < s.len() && s[j + 1] != '\n' {
                j += 2;
            } else {
                return None;
            }
        } else {
            j += 1;
        }
    }
    None
}

fn chars_quoted_texts(s: &Vec<char>) -> (r: Vec<Vec<char>>)
    ensures
        chars_views(r@) == quoted_texts(s@, 0),
{
    let mut found: Vec<Vec<char>> = Vec::new();
    let mut p: usize = 0;
    assert(chars_views(found@) =~= Seq::<Seq<char>>::empty());
    while p < s.len()
        invariant
            p <= s.len(),
            quoted_texts(s@, 0) == chars_views(found@) + quoted_texts(s@, p as int),
        decreases s.len() - p,
    {
        if s[p] == '\u{22}' {
            match chars_close_quote(s, p + 1) {
                Some(c) => {
                    let body = slice_chars(s, p + 1, c);
                    let ghost before = found@;
                    found.push(body);
                    assert(chars_views(found@) =~= chars_views(before) + seq![body@]);
                    p = c + 1;
                },
                None => {
                    p += 1;
                },
            }
        } else {
            p += 1;
        }
    }
    assert(chars_views(found@) + Seq::<Seq<char>>::empty() =~= chars_views(found@));
    found
}

fn chars_unescape(raw: &Vec<char>) -> (r: Vec<char>)
    ensures
        r@ == unescape_spec(raw@),
{
    let once = chars_replace2(raw, '\u{5c}', '\u{22}', '\u{22}');
    chars_replace2(&once, '\u{5c}', '\u{5c}', '\u{5c}')
}

/// `raw` with its `\"` and `\\` escapes undone.
pub fn unescape_quoted_text(raw: &str) -> (r: String)
    ensures
        r@ == unescape_spec(raw@),
{
    string_from_chars(&chars_unescape(&str_chars(raw)))
}

/// Payee and narration from a header line: its first and second quoted
/// texts, unescaped.
pub fn parse_tx_title(line: &str) -> (r: (Option<String>, Option<String>))
    ensures
        (opt_seq(r.0), opt_seq(r.1)) == title_spec(line@),
{
    chars_tx_title(&str_chars(line))
}

/// Payee and narration from a header line.
fn chars_tx_title(t: &Vec<char>) -> (r: (Option<String>, Option<String>))
    ensures
        (opt_seq(r.0), opt_seq(r.1)) == title_spec(t@),
{
    let q = chars_quoted_texts(t);
    proof {
        assert(q@.len() == chars_views(q@).len());
    }
    let payee = if q.len() > 0 {
        assert(chars_views(q@)[0] == q@[0]@);
        Some(string_from_chars(&chars_unescape(&q[0])))
    } else {
        None
    };
    let narration = if q.len() > 1 {
        assert(chars_views(q@)[1] == q@[1]@);
        Some(string_from_chars(&chars_unescape(&q[1])))
    } else {
        None
    };
    (payee, narration)
}

/// The value of a metadata line: trimmed, with one pair of surrounding double
/// quotes (whose `\"` and `\\` escapes are undone) or single quotes removed.
pub open spec fn metadata_value_spec(raw: Seq<char>) -> Seq<char> {
    let t = trim(raw);
    if t.len() >= 2 && t[0] == '\u{22}' && t.last() == '\u{22}' {
        trim(unescape_spec(t.subrange(1, t.len() - 1)))
    } else if t.len() >= 2 && t[0] == '\u{27}' && t.last() == '\u{27}' {
        trim(t.subrange(1, t.len() - 1))
    } else {
        t
    }
}

fn chars_metadata_value(raw: &Vec<char>) -> (r: Vec<char>)
    ensures
        r@ == metadata_value_spec(raw@),
{
    let t = chars_trim(raw);
    let n = t.len();
    if n >= 2 && t[0] == '\u{22}' && t[n - 1] == '\u{22}' {
        let inner = slice_chars(&t, 1, n - 1);
        chars_trim(&chars_unescape(&inner))
    } else if n >= 2 && t[0] == '\u{27}' && t[n - 1] == '\u{27}' {
        let inner = slice_chars(&t, 1, n - 1);
        chars_trim(&inner)
    } else {
        t
    }
}

/// Reads the value of a metadata line, accepting double quotes, single quotes
/// or none.
pub fn parse_metadata_value(raw: &str) -> (r: String)
    ensures
        r@ == metadata_value_spec(raw@),
{
    let v = chars_metadata_value(&str_chars(raw));
    string_from_chars(&v)
}

// ---------------------------------------------------------------------------
// The reader
// ---------------------------------------------------------------------------

/// The finished transactions with the open one closed.
pub open spec fn flush(done: Seq<TxView>, cur: Option<TxView>) -> Seq<TxView> {
    match cur {
        Some(t) => done.push(t),
        None => done,
    }
}

/// The transaction a header line opens.
pub open spec fn new_tx(t: Seq<char>) -> TxView {
    TxView {
        date: LedgerDate {
            year: header_year(t) as i32,
            month: header_month(t) as u32,
            day: header_day(t) as u32,
        },
        payee: title_spec(t).0,
        narration: title_spec(t).1,
        metadata: Map::empty(),
        postings: Seq::empty(),
    }
}

/// The posting a posting line adds: its number read by `Decimal::from_str`,
/// and the total price after `@@` when its number parses.
pub open spec fn posting_of(
    m: (Seq<char>, Option<Seq<char>>, Option<Seq<char>>),
    price: Option<(Seq<char>, Seq<char>)>,
) -> PostingView {
    PostingView {
        account: m.0,
        amount: match m.1 {
            Some(n) => decimal_parse(n),
            None => None,
        },
        currency: m.2,
        total_price: match price {
            Some((n, c)) => match decimal_parse(n) {
                Some(v) => Some((v, c)),
                None => None,
            },
            None => None,
        },
    }
}

/// One (right-trimmed) line read in the state `(done, cur)`: a blank line
/// closes the open transaction, a header closes it and opens the next one (or
/// fails on a date that does not exist), metadata and posting lines add to the
/// open transaction, and anything else is skipped.
pub open spec fn step(t: Seq<char>, done: Seq<TxView>, cur: Option<TxView>) -> Result<
    (Seq<TxView>, Option<TxView>),
    Seq<char>,
> {
    if trim(t).len() == 0 {
        Ok((flush(done, cur), None))
    } else if is_header(t) {
        if date_exists(header_year(t), header_month(t), header_day(t)) {
            Ok((flush(done, cur), Some(new_tx(t))))
        } else {
            Err(t.subrange(0, 10))
        }
    } else {
        match cur {
            None => Ok((done, None)),
            Some(tx) => match meta_match(t) {
                Some(kv) => Ok(
                    (
                        done,
                        Some(
                            TxView {
                                metadata: tx.metadata.insert(kv.0, metadata_value_spec(kv.1)),
                                ..tx
                            },
                        ),
                    ),
                ),
                None => match posting_match(t) {
                    Some(m) => Ok(
                        (done, Some(TxView { postings: tx.postings.push(posting_of(m, price_match(t))), ..tx })),
                    ),
                    None => Ok((done, Some(tx))),
                },
            },
        }
    }
}

/// End of the line starting at `i`: the next `\n`, or the end of the text.
pub open spec fn line_end(s: Seq<char>, i: int) -> int
    decreases s.len() - i,
{
    if 0 <= i < s.len() && s[i] != '\n' {
        line_end(s, i + 1)
    } else {
        i
    }
}

pub proof fn lemma_line_end(s: Seq<char>, i: int)
    requires
        0 <= i <= s.len(),
    ensures
        i <= line_end(s, i) <= s.len(),
    decreases s.len() - i,
{
    if i < s.len() && s[i] != '\n' {
        lemma_line_end(s, i + 1);
    }
}

/// Reads the lines of `s` from position `i` on.
pub open spec fn parse_run(s: Seq<char>, i: int, done: Seq<TxView>, cur: Option<TxView>) -> Result<
    Seq<TxView>,
    Seq<char>,
>
    decreases s.len() - i,
{
    if i < 0 || i > s.len() {
        Ok(flush(done, cur))
    } else {
        let e = line_end(s, i);
        proof {
            lemma_line_end(s, i);
        }
        match step(trim_end(s.subrange(i, e)), done, cur) {
            Err(d) => Err(d),
            Ok(next) => if e >= s.len() {
                Ok(flush(next.0, next.1))
            } else {
                parse_run(s, e + 1, next.0, next.1)
            },
        }
    }
}

/// The transactions of a ledger text (a leading byte-order mark is ignored),
/// or the date text of the first header whose date does not exist.
pub open spec fn ledger_spec(content: Seq<char>) -> Result<Seq<TxView>, Seq<char>> {
    parse_run(strip_bom_spec(content), 0, Seq::empty(), None)
}

pub open spec fn opt_tx(o: Option<LedgerTransaction>) -> Option<TxView> {
    match o {
        Some(t) => Some(t@),
        None => None,
    }
}

pub open spec fn ledger_result(r: Result<Vec<LedgerTransaction>, LedgerError>) -> Result<
    Seq<TxView>,
    Seq<char>,
> {
    match r {
        Ok(v) => Ok(tx_views(v@)),
        Err(LedgerError::InvalidDate(d)) => Err(d@),
    }
}

fn chars_line_end(s: &Vec<char>, i: usize) -> (r: usize)
    requires
        i <= s.len(),
    ensures
        r as int == line_end(s@, i as int),
        i <= r <= s.len(),
{
    let mut j = i;
    while j < s.len() && s[j] != '\n'
        invariant
            i <= j <= s.len(),
            line_end(s@, i as int) == line_end(s@, j as int),
        decreases s.len() - j,
    {
        j += 1;
    }
    j
}

fn flush_current(done: &mut Vec<LedgerTransaction>, cur: &mut Option<LedgerTransaction>)
    ensures
        tx_views(final(done)@) == flush(tx_views(old(done)@), opt_tx(*old(cur))),
        (*final(cur)) is None,
{
    match cur.take() {
        Some(tx) => {
            let ghost before = done@;
            done.push(tx);
            assert(tx_views(done@) =~= tx_views(before).push(tx@));
        },
        None => {},
    }
}

/// Reads one right-trimmed line into the state `(done, cur)`; see [`step`].
fn apply_line(t: &Vec<char>, done: &mut Vec<LedgerTransaction>, cur: &mut Option<LedgerTransaction>) -> (r:
    Result<(), LedgerError>)
    ensures
        step(t@, tx_views(old(done)@), opt_tx(*old(cur))) matches Ok(next) ==> r is Ok && tx_views(
            final(done)@,
        ) == next.0 && opt_tx(*final(cur)) == next.1,
        step(t@, tx_views(old(done)@), opt_tx(*old(cur))) matches Err(d) ==> (r matches Err(
            LedgerError::InvalidDate(x),
        ) && x@ == d),
{
    if chars_trim(t).len() == 0 {
        flush_current(done, cur);
        return Ok(());
    }
    if line_is_header(t) {
        let date_text = string_from_chars(&slice_chars(t, 0, 10));
        proof {
            assert(date_text@ == t@.subrange(0, 10));
            assert(date_prefix(date_text@));
        }
        match chrono_parse_date(date_text.as_str()) {
            None => {
                return Err(LedgerError::InvalidDate(date_text));
            },
            Some(date) => {
                flush_current(done, cur);
                let (payee, narration) = chars_tx_title(t);
                let tx = LedgerTransaction {
                    date,
                    payee,
                    narration,
                    metadata: StrMap::new(),
                    postings: Vec::new(),
                };
                proof {
                    assert(string_views(tx.metadata@) =~= Map::<Seq<char>, Seq<char>>::empty());
                    assert(posting_views(tx.postings@) =~= Seq::<PostingView>::empty());
                }
                *cur = Some(tx);
                return Ok(());
            },
        }
    }
    if cur.is_none() {
        return Ok(());
    }
    match match_metadata(t) {
        Some(kv) => {
            let mut tx = cur.take().unwrap();
            let ghost before = tx.metadata@;
            let value = string_from_chars(&chars_metadata_value(&kv.1));
            let key = string_from_chars(&kv.0);
            tx.metadata.insert(key, value);
            proof {
                assert(string_views(tx.metadata@) =~= string_views(before).insert(
                    kv.0@,
                    metadata_value_spec(kv.1@),
                ));
            }
            *cur = Some(tx);
            return Ok(());
        },
        None => {},
    }
    match match_posting(t) {
        Some(m) => {
            let mut tx = cur.take().unwrap();
            let amount = match &m.1 {
                Some(n) => {
                    let text = string_from_chars(n);
                    decimal_from_str(text.as_str())
                },
                None => None,
            };
            let currency = match &m.2 {
                Some(c) => Some(string_from_chars(c)),
                None => None,
            };
            let total_price = match match_price(t) {
                Some((pn, pc)) => {
                    let text = string_from_chars(&pn);
                    match decimal_from_str(text.as_str()) {
                        Some(v) => Some((v, string_from_chars(&pc))),
                        None => None,
                    }
                },
                None => None,
            };
            let posting = LedgerPosting {
                account: string_from_chars(&m.0),
                amount,
                currency,
                total_price,
            };
            assert(posting@ == posting_of((m.0@, opt_chars(m.1), opt_chars(m.2)), price_match(t@)));
            let ghost before = tx.postings@;
            tx.postings.push(posting);
            assert(posting_views(tx.postings@) =~= posting_views(before).push(posting@));
            *cur = Some(tx);
        },
        None => {},
    }
    Ok(())
}

/// Reads a ledger text into its transactions, in file order.
///
/// A transaction runs from its header line to the next blank line or header;
/// lines outside any transaction are skipped.
pub fn parse_ledger_content(content: &str) -> (r: Result<Vec<LedgerTransaction>, LedgerError>)
    ensures
        ledger_result(r) == ledger_spec(content@),
{
    let body = strip_bom(content);
    let s = str_chars(body);
    let mut done: Vec<LedgerTransaction> = Vec::new();
    let mut cur: Option<LedgerTransaction> = None;
    let mut i: usize = 0;
    assert(tx_views(done@) =~= Seq::<TxView>::empty());
    loop
        invariant_except_break
            i <= s.len(),
            ledger_spec(content@) == parse_run(s@, i as int, tx_views(done@), opt_tx(cur)),
        ensures
            ledger_spec(content@) == Ok::<Seq<TxView>, Seq<char>>(
                flush(tx_views(done@), opt_tx(cur)),
            ),
        decreases s.len() - i,
    {
        let e = chars_line_end(&s, i);
        let line = slice_chars(&s, i, e);
        let t = chars_trim_end(&line);
        match apply_line(&t, &mut done, &mut cur) {
            Err(x) => {
                return Err(x);
            },
            Ok(()) => {},
        }
        if e >= s.len() {
            break ;
        }
        i = e + 1;
    }
    flush_current(&mut done, &mut cur);
    Ok(done)
}

} // verus!
