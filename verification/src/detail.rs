//! One bucket's history: month by month, its budget entries and its
//! transactions, with a summary at the end of each year.
use vstd::prelude::*;

use crate::amount::{abs_int, decimal_sum, fits_at, max_nat, Amount};
use crate::budget::{dirs_magnitude, flows_magnitude, totals_fit, BucketTxFlow};
use crate::cli::{opt_seq, range_display, range_end, BucketView, DateRange, ReportConfig};
use crate::config::{kind_label, BucketKind, BudgetDirective};
use crate::report::{asset_locations_view, fmt_text};
use crate::scoped::{ScopedBucketData, actual_view, location_sum, location_value, locations_fit, locations_scale};
use crate::strmap::{sorted_dom, StrMap};
use crate::text::{push_str, str_chars, string_push};
use crate::util::{
    date_before, is_char_boundary, opt_view, tx_title_spec, utf8_len, utf8_width, zero_padded,
    LedgerDate, ReportScope,
};

verus! {

broadcast use vstd::string::group_string_axioms;

// ---------------------------------------------------------------------------
// Byte offsets
// ---------------------------------------------------------------------------

/// The character position at which byte offset `n` of `s` falls.
pub open spec fn byte_index(s: Seq<char>, n: nat) -> int {
    choose|k: int| 0 <= k <= s.len() && utf8_len(s.take(k)) == n
}

/// `&s[..n]` by bytes.
pub open spec fn byte_prefix(s: Seq<char>, n: nat) -> Seq<char> {
    s.take(byte_index(s, n))
}

/// `&s[n..]` by bytes.
pub open spec fn byte_suffix(s: Seq<char>, n: nat) -> Seq<char> {
    s.skip(byte_index(s, n))
}

proof fn lemma_utf8_len_step(s: Seq<char>, k: int)
    requires
        0 <= k < s.len(),
    ensures
        utf8_len(s.take(k + 1)) == utf8_len(s.take(k)) + utf8_width(s[k]),
        utf8_width(s[k]) >= 1,
{
    assert(s.take(k + 1).drop_last() =~= s.take(k));
}

proof fn lemma_utf8_len_strict(s: Seq<char>, a: int, b: int)
    requires
        0 <= a < b <= s.len(),
    ensures
        utf8_len(s.take(a)) < utf8_len(s.take(b)),
    decreases b - a,
{
    lemma_utf8_len_step(s, b - 1);
    if a < b - 1 {
        lemma_utf8_len_strict(s, a, b - 1);
    }
}

fn char_utf8_width(c: char) -> (r: usize)
    ensures
        r == utf8_width(c),
{
    let u = c as u32;
    if u < 0x80 {
        1
    } else if u < 0x800 {
        2
    } else if u < 0x10000 {
        3
    } else {
        4
    }
}

/// The character position of byte offset `n`, which falls between
/// characters.
/// Whether byte offset `n` of `s` falls between characters and inside it
/// (`str::is_char_boundary`).
pub(crate) fn char_boundary_at(s: &Vec<char>, n: usize) -> (r: bool)
    requires
        n <= 1000,
    ensures
        r == is_char_boundary(s@, n as nat),
{
    let mut k: usize = 0;
    let mut total: usize = 0;
    assert(s@.take(0) =~= Seq::<char>::empty());
    while k < s.len() && total < n
        invariant
            k <= s.len(),
            total == utf8_len(s@.take(k as int)),
            total <= n + 4,
            n <= 1000,
            forall|j: int| 0 <= j < k ==> utf8_len(s@.take(j)) < n,
        decreases s.len() - k,
    {
        proof {
            lemma_utf8_len_step(s@, k as int);
        }
        let w = char_utf8_width(s[k]);
        total = total + w;
        k += 1;
    }
    proof {
        if total == n {
            assert(is_char_boundary(s@, n as nat));
        } else if is_char_boundary(s@, n as nat) {
            let j = choose|j: int| 0 <= j <= s@.len() && utf8_len(s@.take(j)) == n;
            if j > k {
                lemma_utf8_len_strict(s@, k as int, j);
            } else if j < k {
            }
        }
    }
    total == n
}

fn char_index_of_byte(s: &Vec<char>, n: usize) -> (k: usize)
    requires
        is_char_boundary(s@, n as nat),
    ensures
        k == byte_index(s@, n as nat),
        k <= s@.len(),
{
    let ghost k0 = byte_index(s@, n as nat);
    let mut k: usize = 0;
    let mut acc: usize = 0;
    assert(s@.take(0) =~= Seq::<char>::empty());
    while acc < n
        invariant
            0 <= k <= k0 <= s@.len(),
            s@.len() == s.len(),
            utf8_len(s@.take(k0)) == n,
            acc == utf8_len(s@.take(k as int)),
        decreases k0 - k,
    {
        proof {
            if k == k0 {
                assert(false);
            }
            lemma_utf8_len_step(s@, k as int);
            if k + 1 < k0 {
                lemma_utf8_len_strict(s@, k + 1, k0);
            }
        }
        acc = acc + char_utf8_width(s[k]);
        k = k + 1;
    }
    proof {
        if k < k0 {
            lemma_utf8_len_strict(s@, k as int, k0);
        }
    }
    k
}

/// `s[..n]` by bytes, as characters.
pub(crate) fn chars_byte_prefix(s: &Vec<char>, n: usize) -> (r: Vec<char>)
    requires
        is_char_boundary(s@, n as nat),
    ensures
        r@ == byte_prefix(s@, n as nat),
{
    let k = char_index_of_byte(s, n);
    crate::text::slice_chars(s, 0, k)
}

/// `s[n..]` by bytes, as characters.
fn chars_byte_suffix(s: &Vec<char>, n: usize) -> (r: Vec<char>)
    requires
        is_char_boundary(s@, n as nat),
    ensures
        r@ == byte_suffix(s@, n as nat),
{
    let k = char_index_of_byte(s, n);
    let r = crate::text::slice_chars(s, k, s.len());
    assert(r@ =~= s@.skip(k as int));
    r
}

/// Bytes `s` takes in UTF-8, for a string no longer than memory allows.
fn chars_utf8_len(s: &Vec<char>) -> (r: usize)
    requires
        utf8_len(s@) < usize::MAX,
    ensures
        r == utf8_len(s@),
{
    let mut i: usize = 0;
    let mut acc: usize = 0;
    assert(s@.take(0) =~= Seq::<char>::empty());
    while i < s.len()
        invariant
            i <= s@.len(),
            acc == utf8_len(s@.take(i as int)),
            utf8_len(s@) < usize::MAX,
        decreases s@.len() - i,
    {
        proof {
            lemma_utf8_len_step(s@, i as int);
            if i + 1 < s@.len() {
                lemma_utf8_len_strict(s@, i + 1, s@.len() as int);
            }
            assert(s@.take(s@.len() as int) =~= s@);
        }
        acc = acc + char_utf8_width(s[i]);
        i = i + 1;
    }
    assert(s@.take(s@.len() as int) =~= s@);
    acc
}

// ---------------------------------------------------------------------------
// Dates
// ---------------------------------------------------------------------------

/// `%Y` of chrono: four digits, zero-padded, for the years 0 to 9999; for
/// any other year its sign and at least four digits.
pub open spec fn date_year_text(y: int) -> Seq<char> {
    if 0 <= y <= 9999 {
        zero_padded(y as nat, 4)
    } else if y > 9999 {
        seq!['+'] + zero_padded(y as nat, 4)
    } else {
        seq!['-'] + zero_padded((-y) as nat, 4)
    }
}

/// A date as `format("%Y-%m-%d")` writes it.
pub open spec fn date_text(d: LedgerDate) -> Seq<char> {
    date_year_text(d.year as int) + seq!['-'] + zero_padded(d.month as nat, 2) + seq!['-']
        + zero_padded(d.day as nat, 2)
}

/// Appends the date as `%Y-%m-%d`.
pub fn push_date(out: &mut String, d: LedgerDate)
    ensures
        final(out)@ == old(out)@ + date_text(d),
{
    let y = d.year;
    if 0 <= y && y <= 9999 {
        crate::util::push_zero_padded(out, y as u64, 4);
    } else if y > 9999 {
        string_push(out, '+');
        crate::util::push_zero_padded(out, y as u64, 4);
    } else {
        string_push(out, '-');
        let m: u64 = if y == i32::MIN {
            2147483648
        } else {
            (-y) as u64
        };
        crate::util::push_zero_padded(out, m, 4);
    }
    let ghost mid = out@;
    string_push(out, '-');
    crate::util::push_zero_padded(out, d.month as u64, 2);
    string_push(out, '-');
    crate::util::push_zero_padded(out, d.day as u64, 2);
    assert(mid =~= old(out)@ + date_year_text(d.year as int));
    assert(out@ =~= old(out)@ + date_text(d));
}

/// A date as `%Y-%m-%d`.
pub fn format_date_text(d: LedgerDate) -> (r: String)
    ensures
        r@ == date_text(d),
{
    let mut out = String::new();
    push_date(&mut out, d);
    out
}

// ---------------------------------------------------------------------------
// The lines of the history
// ---------------------------------------------------------------------------

/// What a budget entry is called: `预算收入` for an expense bucket, `存入`
/// for an asset bucket.
pub open spec fn income_label(kind: BucketKind) -> Seq<char> {
    match kind {
        BucketKind::Expense => "预算收入"@,
        BucketKind::Asset => "存入"@,
    }
}

/// What the money going out is called: `支出` or `转出`.
pub open spec fn expense_label(kind: BucketKind) -> Seq<char> {
    match kind {
        BucketKind::Expense => "支出"@,
        BucketKind::Asset => "转出"@,
    }
}

fn labels(kind: BucketKind) -> (r: (&'static str, &'static str))
    ensures
        r.0@ == income_label(kind),
        r.1@ == expense_label(kind),
{
    match kind {
        BucketKind::Expense => ("预算收入", "支出"),
        BucketKind::Asset => ("存入", "转出"),
    }
}

/// The name of a child bucket relative to `bucket` (the bytes after
/// `bucket` and the dot), empty for the bucket itself.
pub open spec fn child_name(item: Seq<char>, bucket: Seq<char>) -> Seq<char> {
    if item != bucket {
        byte_suffix(item, utf8_len(bucket) + 1)
    } else {
        Seq::empty()
    }
}

/// ` [child]` after a budget entry of a child bucket.
pub open spec fn dir_tag(item: Seq<char>, bucket: Seq<char>) -> Seq<char> {
    if child_name(item, bucket).len() == 0 {
        Seq::empty()
    } else {
        " ["@ + child_name(item, bucket) + seq![']']
    }
}

/// A budget entry: its month, its label when it has one, the entry's name,
/// the child tag, the amount and the currency.
pub open spec fn dir_line(d: BudgetDirective, bucket: Seq<char>, kind: BucketKind, currency: Seq<char>) -> Seq<
    char,
> {
    let rest = income_label(kind) + dir_tag(d.bucket@, bucket) + seq![' '] + fmt_text(d.amount@) + seq![' ']
        + currency + seq!['\n'];
    match d.label {
        Some(l) => d.month@ + seq![' '] + l@ + "："@ + rest,
        None => d.month@ + "："@ + rest,
    }
}

/// A budget entry is listed unless it is a zero amount of the bucket itself.
pub open spec fn dir_listed(d: BudgetDirective, bucket: Seq<char>) -> bool {
    !(d.amount@.0 == 0 && d.bucket@ == bucket)
}

/// How a transaction moved the bucket's money.
pub open spec fn flow_action(f: BucketTxFlow) -> Seq<char> {
    match f.kind {
        BucketKind::Expense => if f.flow@.2 {
            "支出"@
        } else {
            "入账"@
        },
        BucketKind::Asset => if !f.flow@.2 {
            "存入"@
        } else {
            "转出"@
        },
    }
}

/// ` [child]` after a transaction of a child bucket (even an empty name).
pub open spec fn flow_tag(item: Seq<char>, bucket: Seq<char>) -> Seq<char> {
    if item != bucket {
        " ["@ + child_name(item, bucket) + seq![']']
    } else {
        Seq::empty()
    }
}

/// A transaction: date, title, child tag, action, signed amount, currency.
pub open spec fn flow_line(f: BucketTxFlow, bucket: Seq<char>, currency: Seq<char>) -> Seq<char> {
    date_text(f.date) + "："@ + tx_title_spec(opt_seq(f.payee), opt_seq(f.narration)) + flow_tag(
        f.bucket@,
        bucket,
    ) + seq![' '] + flow_action(f) + seq![' '] + fmt_text(f.flow@) + seq![' '] + currency + seq!['\n']
}

/// The summary closing a year.
pub open spec fn year_summary_text(
    year: Seq<char>,
    currency: Seq<char>,
    kind: BucketKind,
    yi: (int, nat, bool),
    ye: (int, nat, bool),
    ci: (int, nat, bool),
    ce: (int, nat, bool),
) -> Seq<char> {
    seq!['\n'] + "========== "@ + year + " 年小结 ==========\n"@ + income_label(kind) + " 本年合计: "@
        + fmt_text(yi) + seq![' '] + currency + seq!['\n'] + income_label(kind) + " 累计合计: "@ + fmt_text(
        ci,
    ) + seq![' '] + currency + seq!['\n'] + expense_label(kind) + " 本年合计: "@ + fmt_text(ye) + seq![
        ' ',
    ] + currency + seq!['\n'] + expense_label(kind) + " 累计合计: "@ + fmt_text(ce) + seq![' ']
        + currency + seq!['\n'] + "==============================\n"@ + seq!['\n']
}

// ---------------------------------------------------------------------------
// The history as a fold over the months
// ---------------------------------------------------------------------------

/// The history written so far, the year being written, and the year's and
/// all years' totals of entries and transactions.
pub struct HistoryState {
    pub text: Seq<char>,
    pub year: Seq<char>,
    pub yi: (int, nat, bool),
    pub ye: (int, nat, bool),
    pub ci: (int, nat, bool),
    pub ce: (int, nat, bool),
}

pub open spec fn zero_view() -> (int, nat, bool) {
    (0, 0, false)
}

pub open spec fn initial_history() -> HistoryState {
    HistoryState {
        text: Seq::empty(),
        year: Seq::empty(),
        yi: zero_view(),
        ye: zero_view(),
        ci: zero_view(),
        ce: zero_view(),
    }
}

/// The summary of the year being written.
pub open spec fn state_summary(st: HistoryState, currency: Seq<char>, kind: BucketKind) -> Seq<char> {
    year_summary_text(st.year, currency, kind, st.yi, st.ye, st.ci, st.ce)
}

/// Entering year `y`: when it is a new year, the last year's summary (if
/// there was one) is written and the year's totals start from zero.
pub open spec fn year_switch(st: HistoryState, y: Seq<char>, currency: Seq<char>, kind: BucketKind) -> HistoryState {
    if y != st.year {
        HistoryState {
            text: st.text + if st.year.len() > 0 {
                state_summary(st, currency, kind)
            } else {
                Seq::empty()
            },
            year: y,
            yi: zero_view(),
            ye: zero_view(),
            ci: st.ci,
            ce: st.ce,
        }
    } else {
        st
    }
}

/// One budget entry written and counted.
pub open spec fn dir_step(
    st: HistoryState,
    d: BudgetDirective,
    bucket: Seq<char>,
    kind: BucketKind,
    currency: Seq<char>,
) -> HistoryState {
    HistoryState {
        text: st.text + dir_line(d, bucket, kind, currency),
        year: st.year,
        yi: decimal_sum(st.yi, d.amount@),
        ye: st.ye,
        ci: decimal_sum(st.ci, d.amount@),
        ce: st.ce,
    }
}

/// The listed budget entries of month `m`, in their order.
pub open spec fn dirs_fold(
    st: HistoryState,
    d: Seq<BudgetDirective>,
    m: Seq<char>,
    bucket: Seq<char>,
    kind: BucketKind,
    currency: Seq<char>,
) -> HistoryState
    decreases d.len(),
{
    if d.len() == 0 {
        st
    } else {
        let s0 = dirs_fold(st, d.drop_last(), m, bucket, kind, currency);
        if d.last().month@ == m && dir_listed(d.last(), bucket) {
            dir_step(s0, d.last(), bucket, kind, currency)
        } else {
            s0
        }
    }
}

/// One transaction written and counted.
pub open spec fn flow_step(st: HistoryState, f: BucketTxFlow, bucket: Seq<char>, currency: Seq<char>) -> HistoryState {
    HistoryState {
        text: st.text + flow_line(f, bucket, currency),
        year: st.year,
        yi: st.yi,
        ye: decimal_sum(st.ye, actual_view(f@)),
        ci: st.ci,
        ce: decimal_sum(st.ce, actual_view(f@)),
    }
}

/// The transactions `fs`, in their order.
pub open spec fn flows_fold(st: HistoryState, fs: Seq<BucketTxFlow>, bucket: Seq<char>, currency: Seq<char>) -> HistoryState
    decreases fs.len(),
{
    if fs.len() == 0 {
        st
    } else {
        flow_step(flows_fold(st, fs.drop_last(), bucket, currency), fs.last(), bucket, currency)
    }
}

/// The transactions of month `m`, in their order.
pub open spec fn month_flows(f: Seq<BucketTxFlow>, m: Seq<char>) -> Seq<BucketTxFlow>
    decreases f.len(),
{
    if f.len() == 0 {
        Seq::empty()
    } else if f.last().month@ == m {
        month_flows(f.drop_last(), m).push(f.last())
    } else {
        month_flows(f.drop_last(), m)
    }
}

/// Position of the first transaction dated after `d`.
pub open spec fn first_after(t: Seq<BucketTxFlow>, d: LedgerDate) -> int
    decreases t.len(),
{
    if t.len() == 0 {
        0
    } else if date_before(d, t[0].date) {
        0
    } else {
        1 + first_after(t.drop_first(), d)
    }
}

/// The transactions by date, those of one date in their order (a stable
/// sort).
pub open spec fn date_sorted(fs: Seq<BucketTxFlow>) -> Seq<BucketTxFlow>
    decreases fs.len(),
{
    if fs.len() == 0 {
        Seq::empty()
    } else {
        let t = date_sorted(fs.drop_last());
        t.insert(first_after(t, fs.last().date), fs.last())
    }
}

/// One month: the year's summary when the year changes, the month's budget
/// entries, then its transactions by date.
pub open spec fn month_step(
    st: HistoryState,
    m: Seq<char>,
    d: Seq<BudgetDirective>,
    f: Seq<BucketTxFlow>,
    bucket: Seq<char>,
    kind: BucketKind,
    currency: Seq<char>,
) -> HistoryState {
    let s1 = year_switch(st, byte_prefix(m, 4), currency, kind);
    let s2 = dirs_fold(s1, d, m, bucket, kind, currency);
    flows_fold(s2, date_sorted(month_flows(f, m)), bucket, currency)
}

/// The months `months`, in their order.
pub open spec fn months_fold(
    st: HistoryState,
    months: Seq<Seq<char>>,
    d: Seq<BudgetDirective>,
    f: Seq<BucketTxFlow>,
    bucket: Seq<char>,
    kind: BucketKind,
    currency: Seq<char>,
) -> HistoryState
    decreases months.len(),
{
    if months.len() == 0 {
        st
    } else {
        month_step(
            months_fold(st, months.drop_last(), d, f, bucket, kind, currency),
            months.last(),
            d,
            f,
            bucket,
            kind,
            currency,
        )
    }
}

/// Every month of the budget entries and transactions.
pub open spec fn all_months(d: Seq<BudgetDirective>, f: Seq<BucketTxFlow>) -> Set<Seq<char>> {
    (d.map_values(|x: BudgetDirective| x.month@) + f.map_values(|x: BucketTxFlow| x.month@)).to_set()
}

/// The history: `历史明细:`, then every month in order, and the last year's
/// summary.
pub open spec fn history_text(
    d: Seq<BudgetDirective>,
    f: Seq<BucketTxFlow>,
    bucket: Seq<char>,
    kind: BucketKind,
    currency: Seq<char>,
) -> Seq<char> {
    let st = months_fold(initial_history(), sorted_dom(all_months(d, f)), d, f, bucket, kind, currency);
    "\n历史明细:\n"@ + st.text + if st.year.len() > 0 {
        state_summary(st, currency, kind)
    } else {
        Seq::empty()
    }
}

/// The history can be written: every month has its year in its first four
/// bytes, every child bucket's name can be cut after the bucket's name and
/// the dot, and the totals stay exact (the number of items squared times the
/// sum of their sizes fits a 96-bit mantissa at their common scale).
pub open spec fn history_ok(d: Seq<BudgetDirective>, f: Seq<BucketTxFlow>, bucket: Seq<char>) -> bool {
    &&& utf8_len(bucket) + 1 < usize::MAX
    &&& forall|i: int| 0 <= i < d.len() ==> is_char_boundary((#[trigger] d[i]).month@, 4)
    &&& forall|j: int| 0 <= j < f.len() ==> is_char_boundary((#[trigger] f[j]).month@, 4)
    &&& forall|i: int|
        0 <= i < d.len() && (#[trigger] d[i]).bucket@ != bucket ==> is_char_boundary(
            d[i].bucket@,
            utf8_len(bucket) + 1,
        )
    &&& forall|j: int|
        0 <= j < f.len() && (#[trigger] f[j]).bucket@ != bucket ==> is_char_boundary(
            f[j].bucket@,
            utf8_len(bucket) + 1,
        )
    &&& exists|s: nat| history_fit(d, f, s)
}

/// The amounts have at most `s` digits after the point, and the number of
/// items squared times the sum of their sizes fits at that scale.
pub open spec fn history_fit(d: Seq<BudgetDirective>, f: Seq<BucketTxFlow>, s: nat) -> bool {
    &&& totals_fit(d, f, s)
    &&& fits_at(
        (d.len() + f.len()) * (d.len() + f.len()) * (dirs_magnitude(d) + flows_magnitude(f)),
        s,
    )
}

// ---------------------------------------------------------------------------
// Writing the lines
// ---------------------------------------------------------------------------

fn opt_str(o: &Option<String>) -> (r: Option<&str>)
    ensures
        opt_view(r) == opt_seq(*o),
{
    match o {
        Some(x) => Some(x.as_str()),
        None => None,
    }
}

/// The child name of `item` under `bucket`, cut at byte `cut`.
fn child_chars(item: &str, bucket: &str, cut: usize) -> (r: Vec<char>)
    requires
        cut == utf8_len(bucket@) + 1,
        item@ != bucket@ ==> is_char_boundary(item@, cut as nat),
    ensures
        r@ == child_name(item@, bucket@),
{
    if crate::text::str_eq(item, bucket) {
        Vec::new()
    } else {
        chars_byte_suffix(&str_chars(item), cut)
    }
}

#[verifier::rlimit(50)]
fn push_dir_line(
    out: &mut String,
    d: &BudgetDirective,
    bucket: &str,
    cut: usize,
    kind: BucketKind,
    currency: &str,
)
    requires
        cut == utf8_len(bucket@) + 1,
        d.bucket@ != bucket@ ==> is_char_boundary(d.bucket@, cut as nat),
    ensures
        final(out)@ == old(out)@ + dir_line(*d, bucket@, kind, currency@),
{
    let (il, _) = labels(kind);
    push_str(out, d.month.as_str());
    match &d.label {
        Some(l) => {
            string_push(out, ' ');
            push_str(out, l.as_str());
        },
        None => {},
    }
    push_str(out, "：");
    push_str(out, il);
    let child = child_chars(d.bucket.as_str(), bucket, cut);
    if child.len() > 0 {
        push_str(out, " [");
        crate::text::push_chars(out, &child);
        string_push(out, ']');
    }
    string_push(out, ' ');
    push_str(out, crate::util::fmt_decimal(d.amount).as_str());
    string_push(out, ' ');
    push_str(out, currency);
    string_push(out, '\n');
    assert(out@ =~= old(out)@ + dir_line(*d, bucket@, kind, currency@));
}

/// Date, title and child tag of a transaction's line.
pub open spec fn flow_head(f: BucketTxFlow, bucket: Seq<char>) -> Seq<char> {
    date_text(f.date) + "："@ + tx_title_spec(opt_seq(f.payee), opt_seq(f.narration)) + flow_tag(
        f.bucket@,
        bucket,
    )
}

/// Action, amount and currency of a transaction's line.
pub open spec fn flow_tail(f: BucketTxFlow, currency: Seq<char>) -> Seq<char> {
    seq![' '] + flow_action(f) + seq![' '] + fmt_text(f.flow@) + seq![' '] + currency + seq!['\n']
}

fn push_flow_head(out: &mut String, f: &BucketTxFlow, bucket: &str, cut: usize)
    requires
        cut == utf8_len(bucket@) + 1,
        f.bucket@ != bucket@ ==> is_char_boundary(f.bucket@, cut as nat),
    ensures
        final(out)@ == old(out)@ + flow_head(*f, bucket@),
{
    push_date(out, f.date);
    push_str(out, "：");
    let title = crate::util::format_tx_title(opt_str(&f.payee), opt_str(&f.narration));
    push_str(out, title.as_str());
    let ghost mid = out@;
    if !crate::text::str_eq(f.bucket.as_str(), bucket) {
        let child = child_chars(f.bucket.as_str(), bucket, cut);
        push_str(out, " [");
        crate::text::push_chars(out, &child);
        string_push(out, ']');
    }
    assert(out@ =~= mid + flow_tag(f.bucket@, bucket@));
    assert(out@ =~= old(out)@ + flow_head(*f, bucket@));
}

fn push_flow_tail(out: &mut String, f: &BucketTxFlow, currency: &str)
    ensures
        final(out)@ == old(out)@ + flow_tail(*f, currency@),
{
    string_push(out, ' ');
    let action = match f.kind {
        BucketKind::Expense => if f.flow.is_sign_negative() {
            "支出"
        } else {
            "入账"
        },
        BucketKind::Asset => if f.flow.is_sign_positive() {
            "存入"
        } else {
            "转出"
        },
    };
    push_str(out, action);
    string_push(out, ' ');
    push_str(out, crate::util::fmt_decimal(f.flow).as_str());
    string_push(out, ' ');
    push_str(out, currency);
    string_push(out, '\n');
    assert(out@ =~= old(out)@ + flow_tail(*f, currency@));
}

fn push_flow_line(out: &mut String, f: &BucketTxFlow, bucket: &str, cut: usize, currency: &str)
    requires
        cut == utf8_len(bucket@) + 1,
        f.bucket@ != bucket@ ==> is_char_boundary(f.bucket@, cut as nat),
    ensures
        final(out)@ == old(out)@ + flow_line(*f, bucket@, currency@),
{
    push_flow_head(out, f, bucket, cut);
    push_flow_tail(out, f, currency);
    assert(out@ =~= old(out)@ + flow_line(*f, bucket@, currency@));
}

#[verifier::rlimit(50)]
fn push_year_summary(
    out: &mut String,
    year: &str,
    currency: &str,
    kind: BucketKind,
    yi: Amount,
    ye: Amount,
    ci: Amount,
    ce: Amount,
)
    ensures
        final(out)@ == old(out)@ + year_summary_text(year@, currency@, kind, yi@, ye@, ci@, ce@),
{
    let (il, el) = labels(kind);
    string_push(out, '\n');
    push_str(out, "========== ");
    push_str(out, year);
    push_str(out, " 年小结 ==========\n");
    push_str(out, il);
    push_str(out, " 本年合计: ");
    push_str(out, crate::util::fmt_decimal(yi).as_str());
    string_push(out, ' ');
    push_str(out, currency);
    string_push(out, '\n');
    push_str(out, il);
    push_str(out, " 累计合计: ");
    push_str(out, crate::util::fmt_decimal(ci).as_str());
    string_push(out, ' ');
    push_str(out, currency);
    string_push(out, '\n');
    push_str(out, el);
    push_str(out, " 本年合计: ");
    push_str(out, crate::util::fmt_decimal(ye).as_str());
    string_push(out, ' ');
    push_str(out, currency);
    string_push(out, '\n');
    push_str(out, el);
    push_str(out, " 累计合计: ");
    push_str(out, crate::util::fmt_decimal(ce).as_str());
    string_push(out, ' ');
    push_str(out, currency);
    string_push(out, '\n');
    push_str(out, "==============================\n");
    string_push(out, '\n');
    assert(out@ =~= old(out)@ + year_summary_text(year@, currency@, kind, yi@, ye@, ci@, ce@));
}

// ---------------------------------------------------------------------------
// The order of a month's transactions
// ---------------------------------------------------------------------------

/// The flows at the positions `idx`.
pub open spec fn pick(f: Seq<BucketTxFlow>, idx: Seq<usize>) -> Seq<BucketTxFlow> {
    idx.map_values(|x: usize| f[x as int])
}

proof fn lemma_first_after_prefix(t: Seq<BucketTxFlow>, d: LedgerDate, k: int)
    requires
        0 <= k <= t.len(),
        forall|j: int| 0 <= j < k ==> !date_before(d, (#[trigger] t[j]).date),
    ensures
        first_after(t, d) == k + first_after(t.skip(k), d),
    decreases k,
{
    if k > 0 {
        assert(!date_before(d, t[0].date));
        assert(t.drop_first().skip(k - 1) =~= t.skip(k));
        lemma_first_after_prefix(t.drop_first(), d, k - 1);
    } else {
        assert(t.skip(0) =~= t);
    }
}

/// The positions of the flows of month `m`, ordered by date (a stable
/// sort).
fn month_flow_order(flows: &Vec<BucketTxFlow>, m: &str) -> (r: Vec<usize>)
    ensures
        pick(flows@, r@) == date_sorted(month_flows(flows@, m@)),
        r@.len() <= flows@.len(),
        forall|k: int| 0 <= k < r@.len() ==> r@[k] < flows@.len(),
{
    let ghost f = flows@;
    let mut idx: Vec<usize> = Vec::new();
    let mut j: usize = 0;
    assert(f.take(0) =~= Seq::<BucketTxFlow>::empty());
    assert(pick(f, idx@) =~= Seq::<BucketTxFlow>::empty());
    while j < flows.len()
        invariant
            f == flows@,
            j <= f.len(),
            pick(f, idx@) == date_sorted(month_flows(f.take(j as int), m@)),
            idx@.len() <= j,
            forall|k: int| 0 <= k < idx@.len() ==> idx@[k] < j,
        decreases f.len() - j,
    {
        let g = &flows[j];
        proof {
            assert(f.take(j + 1).drop_last() =~= f.take(j as int));
            assert(f.take(j + 1).last() == f[j as int]);
        }
        if crate::text::str_eq(g.month.as_str(), m) {
            let ghost t = pick(f, idx@);
            let mut k: usize = 0;
            while k < idx.len() && !crate::util::date_lt(&g.date, &flows[idx[k]].date)
                invariant
                    f == flows@,
                    j < f.len(),
                    g.date == f[j as int].date,
                    t == pick(f, idx@),
                    forall|q: int| 0 <= q < idx@.len() ==> idx@[q] < j,
                    k <= idx@.len(),
                    forall|q: int| 0 <= q < k ==> !date_before(f[j as int].date, (#[trigger] t[q]).date),
                decreases idx@.len() - k,
            {
                assert(t[k as int] == f[idx@[k as int] as int]);
                k += 1;
            }
            proof {
                lemma_first_after_prefix(t, f[j as int].date, k as int);
                if k < idx@.len() {
                    assert(t.skip(k as int)[0] == t[k as int]);
                }
                assert(first_after(t, f[j as int].date) == k);
                let ms = month_flows(f.take(j as int), m@);
                assert(ms.push(f[j as int]).drop_last() =~= ms);
            }
            idx.insert(k, j);
            proof {
                assert(pick(f, idx@) =~= t.insert(k as int, f[j as int]));
            }
        }
        j += 1;
    }
    assert(f.take(f.len() as int) =~= f);
    idx
}

// ---------------------------------------------------------------------------
// Writing the history
// ---------------------------------------------------------------------------

/// The running state: the year being written and the four totals.
struct HistoryAcc {
    year: String,
    yi: Amount,
    ye: Amount,
    ci: Amount,
    ce: Amount,
}

spec fn acc_is(a: HistoryAcc, st: HistoryState) -> bool {
    &&& a.year@ == st.year
    &&& a.yi@ == st.yi
    &&& a.ye@ == st.ye
    &&& a.ci@ == st.ci
    &&& a.ce@ == st.ce
}

/// After `c` additions of amounts of size at most `mm`, every total is at
/// most `c * mm` in size; all have at most `s` digits after the point.
spec fn acc_bound(a: HistoryAcc, c: int, mm: int, s: nat) -> bool {
    &&& abs_int(a.yi.units()) <= c * mm
    &&& abs_int(a.ye.units()) <= c * mm
    &&& abs_int(a.ci.units()) <= c * mm
    &&& abs_int(a.ce.units()) <= c * mm
    &&& a.yi@.1 <= s
    &&& a.ye@.1 <= s
    &&& a.ci@.1 <= s
    &&& a.ce@.1 <= s
}

proof fn lemma_add_bound(x: int, a: int, c: int, mm: int, cap: int)
    requires
        abs_int(x) <= c * mm,
        abs_int(a) <= mm,
        0 <= c,
        c + 1 <= cap,
        mm >= 0,
    ensures
        abs_int(x + a) <= (c + 1) * mm,
        abs_int(x + a) <= cap * mm,
        cap * mm >= 0,
        c * mm <= (c + 1) * mm,
{
    assert((c + 1) * mm == c * mm + mm) by (nonlinear_arith);
    assert((c + 1) * mm <= cap * mm) by (nonlinear_arith)
        requires
            c + 1 <= cap,
            mm >= 0,
    ;
    assert(cap * mm >= 0) by (nonlinear_arith)
        requires
            cap >= 1,
            mm >= 0,
    ;
}

/// Adds `a` to the total `x` (exactly: the sum stays within `cap * mm`).
fn add_counted(x: Amount, a: Amount, Ghost(c): Ghost<int>, Ghost(mm): Ghost<int>, Ghost(s): Ghost<nat>, Ghost(cap): Ghost<int>) -> (r: Amount)
    requires
        abs_int(x.units()) <= c * mm,
        abs_int(a.units()) <= mm,
        0 <= c,
        c + 1 <= cap,
        mm >= 0,
        x@.1 <= s,
        a@.1 <= s,
        s <= 28,
        fits_at(cap * mm, s),
    ensures
        r@ == decimal_sum(x@, a@),
        abs_int(r.units()) <= (c + 1) * mm,
        r@.1 <= s,
{
    proof {
        lemma_add_bound(x.units(), a.units(), c, mm, cap);
        crate::budget::lemma_fits_mono(cap * mm, x.units() + a.units(), max_nat(x@.1, a@.1), s);
    }
    crate::amount::decimal_add(x, a)
}

fn history_dirs(
    out: &mut String,
    acc: &mut HistoryAcc,
    directives: &Vec<BudgetDirective>,
    m: &str,
    bucket: &str,
    cut: usize,
    kind: BucketKind,
    currency: &str,
    Ghost(st0): Ghost<HistoryState>,
    Ghost(base): Ghost<Seq<char>>,
    Ghost(c0): Ghost<int>,
    Ghost(mm): Ghost<int>,
    Ghost(s): Ghost<nat>,
    Ghost(cap): Ghost<int>,
) -> (c1: Ghost<int>)
    requires
        old(out)@ == base + st0.text,
        acc_is(*old(acc), st0),
        acc_bound(*old(acc), c0, mm, s),
        0 <= c0,
        c0 + directives@.len() <= cap,
        mm >= 0,
        s <= 28,
        fits_at(cap * mm, s),
        forall|i: int|
            0 <= i < directives@.len() ==> abs_int((#[trigger] directives@[i]).amount.units()) <= mm
                && directives@[i].amount@.1 <= s,
        cut == utf8_len(bucket@) + 1,
        forall|i: int|
            0 <= i < directives@.len() && (#[trigger] directives@[i]).bucket@ != bucket@
                ==> is_char_boundary(directives@[i].bucket@, cut as nat),
    ensures
        final(out)@ == base + dirs_fold(st0, directives@, m@, bucket@, kind, currency@).text,
        acc_is(*final(acc), dirs_fold(st0, directives@, m@, bucket@, kind, currency@)),
        acc_bound(*final(acc), c1@, mm, s),
        c0 <= c1@ <= c0 + directives@.len(),
{
    let ghost d = directives@;
    let ghost mut c: int = c0;
    let mut j: usize = 0;
    assert(d.take(0) =~= Seq::<BudgetDirective>::empty());
    while j < directives.len()
        invariant
            d == directives@,
            j <= d.len(),
            out@ == base + dirs_fold(st0, d.take(j as int), m@, bucket@, kind, currency@).text,
            acc_is(*acc, dirs_fold(st0, d.take(j as int), m@, bucket@, kind, currency@)),
            acc_bound(*acc, c, mm, s),
            0 <= c0 <= c <= c0 + j,
            c0 + d.len() <= cap,
            mm >= 0,
            s <= 28,
            fits_at(cap * mm, s),
            forall|i: int|
                0 <= i < d.len() ==> abs_int((#[trigger] d[i]).amount.units()) <= mm && d[i].amount@.1
                    <= s,
            cut == utf8_len(bucket@) + 1,
            forall|i: int|
                0 <= i < d.len() && (#[trigger] d[i]).bucket@ != bucket@ ==> is_char_boundary(
                    d[i].bucket@,
                    cut as nat,
                ),
        decreases d.len() - j,
    {
        let item = &directives[j];
        proof {
            assert(d.take(j + 1).drop_last() =~= d.take(j as int));
            assert(d.take(j + 1).last() == d[j as int]);
            assert(abs_int(d[j as int].amount.units()) <= mm);
        }
        if crate::text::str_eq(item.month.as_str(), m) && !(item.amount.is_zero()
            && crate::text::str_eq(item.bucket.as_str(), bucket)) {
            push_dir_line(out, item, bucket, cut, kind, currency);
            let yi = add_counted(acc.yi, item.amount, Ghost(c), Ghost(mm), Ghost(s), Ghost(cap));
            let ci = add_counted(acc.ci, item.amount, Ghost(c), Ghost(mm), Ghost(s), Ghost(cap));
            proof {
                lemma_add_bound(0, 0, c, mm, cap);
            }
            acc.yi = yi;
            acc.ci = ci;
            proof {
                c = c + 1;
            }
        }
        j += 1;
    }
    assert(d.take(d.len() as int) =~= d);
    Ghost(c)
}

fn history_flows(
    out: &mut String,
    acc: &mut HistoryAcc,
    flows: &Vec<BucketTxFlow>,
    order: &Vec<usize>,
    bucket: &str,
    cut: usize,
    currency: &str,
    Ghost(st0): Ghost<HistoryState>,
    Ghost(base): Ghost<Seq<char>>,
    Ghost(c0): Ghost<int>,
    Ghost(mm): Ghost<int>,
    Ghost(s): Ghost<nat>,
    Ghost(cap): Ghost<int>,
) -> (c1: Ghost<int>)
    requires
        old(out)@ == base + st0.text,
        acc_is(*old(acc), st0),
        acc_bound(*old(acc), c0, mm, s),
        0 <= c0,
        c0 + order@.len() <= cap,
        mm >= 0,
        s <= 28,
        fits_at(cap * mm, s),
        forall|k: int| 0 <= k < order@.len() ==> order@[k] < flows@.len(),
        forall|i: int|
            0 <= i < flows@.len() ==> abs_int((#[trigger] flows@[i]).flow.units()) <= mm
                && flows@[i].flow@.1 <= s,
        cut == utf8_len(bucket@) + 1,
        forall|i: int|
            0 <= i < flows@.len() && (#[trigger] flows@[i]).bucket@ != bucket@
                ==> is_char_boundary(flows@[i].bucket@, cut as nat),
    ensures
        final(out)@ == base + flows_fold(st0, pick(flows@, order@), bucket@, currency@).text,
        acc_is(*final(acc), flows_fold(st0, pick(flows@, order@), bucket@, currency@)),
        acc_bound(*final(acc), c1@, mm, s),
        c0 <= c1@ <= c0 + order@.len(),
{
    let ghost f = flows@;
    let ghost p = pick(f, order@);
    let ghost mut c: int = c0;
    let mut k: usize = 0;
    assert(p.take(0) =~= Seq::<BucketTxFlow>::empty());
    while k < order.len()
        invariant
            f == flows@,
            p == pick(f, order@),
            k <= order@.len(),
            out@ == base + flows_fold(st0, p.take(k as int), bucket@, currency@).text,
            acc_is(*acc, flows_fold(st0, p.take(k as int), bucket@, currency@)),
            acc_bound(*acc, c, mm, s),
            0 <= c0 <= c <= c0 + k,
            c0 + order@.len() <= cap,
            mm >= 0,
            s <= 28,
            fits_at(cap * mm, s),
            forall|q: int| 0 <= q < order@.len() ==> order@[q] < f.len(),
            forall|i: int|
                0 <= i < f.len() ==> abs_int((#[trigger] f[i]).flow.units()) <= mm && f[i].flow@.1
                    <= s,
            cut == utf8_len(bucket@) + 1,
            forall|i: int|
                0 <= i < f.len() && (#[trigger] f[i]).bucket@ != bucket@ ==> is_char_boundary(
                    f[i].bucket@,
                    cut as nat,
                ),
        decreases order@.len() - k,
    {
        let x = order[k];
        let g = &flows[x];
        proof {
            assert(p.take(k + 1).drop_last() =~= p.take(k as int));
            assert(p.take(k + 1).last() == f[x as int]);
            assert(abs_int(f[x as int].flow.units()) <= mm);
        }
        push_flow_line(out, g, bucket, cut, currency);
        let a = g.actual_amount();
        let ye = add_counted(acc.ye, a, Ghost(c), Ghost(mm), Ghost(s), Ghost(cap));
        let ce = add_counted(acc.ce, a, Ghost(c), Ghost(mm), Ghost(s), Ghost(cap));
        proof {
            lemma_add_bound(0, 0, c, mm, cap);
        }
        acc.ye = ye;
        acc.ce = ce;
        proof {
            c = c + 1;
        }
        k += 1;
    }
    assert(p.take(order@.len() as int) =~= p);
    Ghost(c)
}

fn history_year(
    out: &mut String,
    acc: &mut HistoryAcc,
    y: &Vec<char>,
    currency: &str,
    kind: BucketKind,
    Ghost(st0): Ghost<HistoryState>,
    Ghost(base): Ghost<Seq<char>>,
    Ghost(c0): Ghost<int>,
    Ghost(mm): Ghost<int>,
    Ghost(s): Ghost<nat>,
)
    requires
        old(out)@ == base + st0.text,
        acc_is(*old(acc), st0),
        acc_bound(*old(acc), c0, mm, s),
        0 <= c0,
        mm >= 0,
    ensures
        final(out)@ == base + year_switch(st0, y@, currency@, kind).text,
        acc_is(*final(acc), year_switch(st0, y@, currency@, kind)),
        acc_bound(*final(acc), c0, mm, s),
{
    let current = str_chars(acc.year.as_str());
    if !crate::text::chars_eq(y, &current) {
        if current.len() > 0 {
            push_year_summary(out, acc.year.as_str(), currency, kind, acc.yi, acc.ye, acc.ci, acc.ce);
        }
        acc.year = crate::text::string_from_chars(y);
        acc.yi = Amount::zero();
        acc.ye = Amount::zero();
        proof {
            assert(c0 * mm >= 0) by (nonlinear_arith)
                requires
                    c0 >= 0,
                    mm >= 0,
            ;
        }
    }
    assert(out@ =~= base + year_switch(st0, y@, currency@, kind).text);
}

/// The months of the budget entries and transactions, as a set-like map.
fn all_month_keys(directives: &Vec<BudgetDirective>, flows: &Vec<BucketTxFlow>) -> (r: StrMap<()>)
    ensures
        r@.dom() == all_months(directives@, flows@),
{
    let ghost d = directives@;
    let ghost f = flows@;
    let ghost dm = d.map_values(|x: BudgetDirective| x.month@);
    let ghost fm = f.map_values(|x: BucketTxFlow| x.month@);
    let mut keys: StrMap<()> = StrMap::new();
    let mut i: usize = 0;
    while i < directives.len()
        invariant
            d == directives@,
            i <= d.len(),
            forall|x: Seq<char>| #[trigger]
                keys@.contains_key(x) <==> exists|k: int| 0 <= k < i && d[k].month@ == x,
        decreases d.len() - i,
    {
        let ghost before = keys@;
        keys.insert(directives[i].month.clone(), ());
        proof {
            assert forall|x: Seq<char>| #[trigger]
                keys@.contains_key(x) <==> exists|k: int| 0 <= k < i + 1 && d[k].month@ == x by {
                if before.contains_key(x) {
                    let k = choose|k: int| 0 <= k < i && d[k].month@ == x;
                    assert(0 <= k < i + 1);
                }
            }
        }
        i += 1;
    }
    let mut j: usize = 0;
    while j < flows.len()
        invariant
            d == directives@,
            f == flows@,
            j <= f.len(),
            forall|x: Seq<char>| #[trigger]
                keys@.contains_key(x) <==> (exists|k: int| 0 <= k < d.len() && d[k].month@ == x) || (exists|
                    k: int,
                | 0 <= k < j && f[k].month@ == x),
        decreases f.len() - j,
    {
        let ghost before = keys@;
        keys.insert(flows[j].month.clone(), ());
        proof {
            assert forall|x: Seq<char>| #[trigger]
                keys@.contains_key(x) <==> (exists|k: int| 0 <= k < d.len() && d[k].month@ == x) || (exists|
                    k: int,
                | 0 <= k < j + 1 && f[k].month@ == x) by {
                if before.contains_key(x) {
                    if exists|k: int| 0 <= k < j && f[k].month@ == x {
                        let k = choose|k: int| 0 <= k < j && f[k].month@ == x;
                        assert(0 <= k < j + 1);
                    }
                }
            }
        }
        j += 1;
    }
    proof {
        let all = dm + fm;
        assert forall|x: Seq<char>| keys@.dom().contains(x) == all.to_set().contains(x) by {
            if keys@.contains_key(x) {
                if exists|k: int| 0 <= k < d.len() && d[k].month@ == x {
                    let k = choose|k: int| 0 <= k < d.len() && d[k].month@ == x;
                    assert(all[k] == x);
                } else {
                    let k = choose|k: int| 0 <= k < f.len() && f[k].month@ == x;
                    assert(all[d.len() + k] == x);
                }
            }
            if all.to_set().contains(x) {
                assert(all.contains(x));
                let q = choose|q: int| 0 <= q < all.len() && all[q] == x;
                if q < d.len() {
                    assert(d[q].month@ == x);
                } else {
                    assert(f[q - d.len()].month@ == x);
                }
            }
        }
        assert(keys@.dom() =~= all_months(d, f));
    }
    keys
}

proof fn lemma_item_bounds(d: Seq<BudgetDirective>, f: Seq<BucketTxFlow>)
    ensures
        forall|i: int|
            0 <= i < d.len() ==> abs_int((#[trigger] d[i]).amount.units()) <= dirs_magnitude(d)
                + flows_magnitude(f),
        forall|j: int|
            0 <= j < f.len() ==> abs_int((#[trigger] f[j]).flow.units()) <= dirs_magnitude(d)
                + flows_magnitude(f),
        dirs_magnitude(d) + flows_magnitude(f) >= 0,
{
    crate::budget::lemma_dirs_magnitude_nonneg(d);
    crate::budget::lemma_flows_magnitude_nonneg(f);
    assert forall|i: int| 0 <= i < d.len() implies abs_int((#[trigger] d[i]).amount.units())
        <= dirs_magnitude(d) + flows_magnitude(f) by {
        crate::budget::lemma_dirs_magnitude_prefix(d, i);
        crate::budget::lemma_dirs_magnitude_prefix(d, i + 1);
        assert(d.take(i + 1).drop_last() =~= d.take(i));
    }
    assert forall|j: int| 0 <= j < f.len() implies abs_int((#[trigger] f[j]).flow.units())
        <= dirs_magnitude(d) + flows_magnitude(f) by {
        crate::budget::lemma_flows_magnitude_prefix(f, j);
        crate::budget::lemma_flows_magnitude_prefix(f, j + 1);
        assert(f.take(j + 1).drop_last() =~= f.take(j));
    }
}

/// A month of the entries or transactions has its year in its first four
/// bytes.
proof fn lemma_month_boundary(d: Seq<BudgetDirective>, f: Seq<BucketTxFlow>, m: Seq<char>)
    requires
        forall|i: int| 0 <= i < d.len() ==> is_char_boundary((#[trigger] d[i]).month@, 4),
        forall|j: int| 0 <= j < f.len() ==> is_char_boundary((#[trigger] f[j]).month@, 4),
        all_months(d, f).contains(m),
    ensures
        is_char_boundary(m, 4),
{
    let all = d.map_values(|x: BudgetDirective| x.month@) + f.map_values(|x: BucketTxFlow| x.month@);
    assert(all.contains(m));
    let q = choose|q: int| 0 <= q < all.len() && all[q] == m;
    if q < d.len() {
        assert(d[q].month@ == m);
    } else {
        assert(f[q - d.len()].month@ == m);
    }
}

/// Appends a bucket's history (see [`history_text`]).
pub fn append_bucket_history(
    out: &mut String,
    currency: &str,
    bucket: &str,
    kind: BucketKind,
    directives: &Vec<BudgetDirective>,
    flows: &Vec<BucketTxFlow>,
)
    requires
        history_ok(directives@, flows@, bucket@),
    ensures
        final(out)@ == old(out)@ + history_text(directives@, flows@, bucket@, kind, currency@),
{
    let ghost d = directives@;
    let ghost f = flows@;
    let ghost s: nat = choose|s: nat| history_fit(d, f, s);
    let ghost l: int = (d.len() + f.len()) as int;
    let ghost mm: int = dirs_magnitude(d) + flows_magnitude(f);
    let ghost cap: int = l * l;
    let bchars = str_chars(bucket);
    let cut = chars_utf8_len(&bchars) + 1;
    push_str(out, "\n历史明细:\n");
    let ghost base = out@;
    let months = all_month_keys(directives, flows);
    let n = months.len();
    let ghost mk = months.keys();
    proof {
        months.lemma_keys_sorted();
        (d.map_values(|x: BudgetDirective| x.month@) + f.map_values(
            |x: BucketTxFlow| x.month@,
        )).lemma_cardinality_of_set();
        assert(n <= l);
        lemma_item_bounds(d, f);
        assert(l * l >= 0) by (nonlinear_arith);
    }
    let mut acc = HistoryAcc {
        year: String::new(),
        yi: Amount::zero(),
        ye: Amount::zero(),
        ci: Amount::zero(),
        ce: Amount::zero(),
    };
    let ghost mut c: int = 0;
    let mut i: usize = 0;
    assert(mk.take(0) =~= Seq::<Seq<char>>::empty());
    while i < n
        invariant
            d == directives@,
            f == flows@,
            n == mk.len(),
            mk == months.keys(),
            months@.dom() == all_months(d, f),
            n <= l,
            l == d.len() + f.len(),
            cap == l * l,
            mm == dirs_magnitude(d) + flows_magnitude(f),
            mm >= 0,
            history_ok(d, f, bucket@),
            history_fit(d, f, s),
            cut == utf8_len(bucket@) + 1,
            forall|q: int| 0 <= q < d.len() ==> abs_int((#[trigger] d[q]).amount.units()) <= mm,
            forall|q: int| 0 <= q < f.len() ==> abs_int((#[trigger] f[q]).flow.units()) <= mm,
            i <= n,
            out@ == base + months_fold(
                initial_history(),
                mk.take(i as int),
                d,
                f,
                bucket@,
                kind,
                currency@,
            ).text,
            acc_is(acc, months_fold(initial_history(), mk.take(i as int), d, f, bucket@, kind, currency@)),
            acc_bound(acc, c, mm, s),
            0 <= c <= i * l,
        decreases n - i,
    {
        let m = months.key_at(i);
        let ghost st0 = months_fold(initial_history(), mk.take(i as int), d, f, bucket@, kind, currency@);
        proof {
            assert(mk.take(i + 1).drop_last() =~= mk.take(i as int));
            assert(mk.take(i + 1).last() == m@);
            assert(mk.contains(m@));
            lemma_month_boundary(d, f, m@);
            assert((i + 1) * l <= l * l) by (nonlinear_arith)
                requires
                    i + 1 <= l,
                    l >= 0,
            ;
            assert(i * l + l == (i + 1) * l) by (nonlinear_arith);
        }
        let y = chars_byte_prefix(&str_chars(m.as_str()), 4);
        history_year(out, &mut acc, &y, currency, kind, Ghost(st0), Ghost(base), Ghost(c), Ghost(mm), Ghost(s));
        let ghost st1 = year_switch(st0, y@, currency@, kind);
        let c1 = history_dirs(
            out,
            &mut acc,
            directives,
            m.as_str(),
            bucket,
            cut,
            kind,
            currency,
            Ghost(st1),
            Ghost(base),
            Ghost(c),
            Ghost(mm),
            Ghost(s),
            Ghost(cap),
        );
        let ghost st2 = dirs_fold(st1, d, m@, bucket@, kind, currency@);
        let order = month_flow_order(flows, m.as_str());
        let c2 = history_flows(
            out,
            &mut acc,
            flows,
            &order,
            bucket,
            cut,
            currency,
            Ghost(st2),
            Ghost(base),
            c1,
            Ghost(mm),
            Ghost(s),
            Ghost(cap),
        );
        proof {
            c = c2@;
        }
        i += 1;
    }
    assert(mk.take(n as int) =~= mk);
    if str_chars(acc.year.as_str()).len() > 0 {
        push_year_summary(out, acc.year.as_str(), currency, kind, acc.yi, acc.ye, acc.ci, acc.ce);
    }
    proof {
        reveal_strlit("\n历史明细:\n");
    }
    assert(out@ =~= old(out)@ + history_text(d, f, bucket@, kind, currency@));
}

// ---------------------------------------------------------------------------
// The detail view
// ---------------------------------------------------------------------------

/// Some flow of `bucket` itself records where money moved.
pub open spec fn has_located_flows(all: Seq<BucketTxFlow>, bucket: Seq<char>) -> bool {
    exists|i: int|
        0 <= i < all.len() && (#[trigger] all[i]).bucket@ == bucket && all[i].location_deltas@.dom()
            != Set::<Seq<char>>::empty()
}

/// The accounts holding (or having given) money of `bucket` up to `target`,
/// with the amounts `collect_asset_locations` gives them.
pub open spec fn collected_view(all: Seq<BucketTxFlow>, bucket: Seq<char>, target: Seq<char>) -> Map<
    Seq<char>,
    (int, nat, bool),
> {
    Map::new(
        |a: Seq<char>| location_sum(all, bucket, target, a) != 0,
        |a: Seq<char>| location_value(all, bucket, target, a),
    )
}

/// Sum of the sizes (units) of the location totals of `keys`.
pub open spec fn located_magnitude(
    all: Seq<BucketTxFlow>,
    bucket: Seq<char>,
    target: Seq<char>,
    keys: Seq<Seq<char>>,
) -> int
    decreases keys.len(),
{
    if keys.len() == 0 {
        0
    } else {
        located_magnitude(all, bucket, target, keys.drop_last()) + abs_int(
            location_sum(all, bucket, target, keys.last()),
        )
    }
}

/// The location totals can be collected and added up exactly.
pub open spec fn locations_view_ok(all: Seq<BucketTxFlow>, bucket: Seq<char>, target: Seq<char>) -> bool {
    &&& forall|i: int|
        0 <= i < all.len() ==> crate::util::month_scope_ok(
            (#[trigger] all[i]).month@,
            target,
            ReportScope::Cumulative,
        )
    &&& exists|s: nat| locations_fit(all, s)
    &&& fits_at(
        located_magnitude(
            all,
            bucket,
            target,
            sorted_dom(collected_view(all, bucket, target).dom()),
        ),
        locations_scale(all),
    )
}

/// The detail view of a bucket: its history and, where shown, where its
/// money is.
pub open spec fn detail_view(
    currency: Seq<char>,
    bucket: Seq<char>,
    kind: BucketKind,
    target: Seq<char>,
    d: Seq<BudgetDirective>,
    f: Seq<BucketTxFlow>,
    all: Seq<BucketTxFlow>,
    show_locations: bool,
    remain: (int, nat, bool),
) -> Seq<char> {
    history_text(d, f, bucket, kind, currency) + if (kind == BucketKind::Asset || has_located_flows(
        all,
        bucket,
    )) && show_locations {
        asset_locations_view(target, currency, collected_view(all, bucket, target), remain)
    } else {
        Seq::empty()
    }
}

fn has_located_flows_exec(all: &Vec<BucketTxFlow>, bucket: &str) -> (r: bool)
    ensures
        r == has_located_flows(all@, bucket@),
{
    let mut i: usize = 0;
    while i < all.len()
        invariant
            i <= all@.len(),
            forall|k: int|
                0 <= k < i ==> !((#[trigger] all@[k]).bucket@ == bucket@ && all@[k].location_deltas@.dom()
                    != Set::<Seq<char>>::empty()),
        decreases all@.len() - i,
    {
        let g = &all[i];
        let same = crate::text::str_eq(g.bucket.as_str(), bucket);
        let none = g.location_deltas.is_empty();
        if same && !none {
            assert(g.location_deltas@.dom() != Set::<Seq<char>>::empty()) by {
                if g.location_deltas@.dom() == Set::<Seq<char>>::empty() {
                    assert(g.location_deltas@ =~= Map::<Seq<char>, Amount>::empty());
                }
            }
            return true;
        }
        proof {
            if g.location_deltas@ == Map::<Seq<char>, Amount>::empty() {
                assert(g.location_deltas@.dom() =~= Set::<Seq<char>>::empty());
            }
        }
        i += 1;
    }
    false
}

proof fn lemma_located_magnitude(
    r: StrMap<Amount>,
    all: Seq<BucketTxFlow>,
    bucket: Seq<char>,
    target: Seq<char>,
    keys: Seq<Seq<char>>,
)
    requires
        forall|k: int| 0 <= k < keys.len() ==> r@.contains_key(#[trigger] keys[k]),
        forall|a: Seq<char>| #[trigger]
            r@.contains_key(a) ==> r@[a].units() == location_sum(all, bucket, target, a),
    ensures
        crate::report::keys_magnitude(crate::budget::amount_views(r@), keys) == located_magnitude(
            all,
            bucket,
            target,
            keys,
        ),
    decreases keys.len(),
{
    if keys.len() > 0 {
        lemma_located_magnitude(r, all, bucket, target, keys.drop_last());
        assert(r@.contains_key(keys[keys.len() - 1]));
    }
}

/// Appends a bucket's detail view: its history (see [`history_text`]) and,
/// when `show_locations_in_detail` and the bucket is an asset bucket or has
/// flows recording where money moved, where its money is up to
/// `target_month` (see `asset_locations_view`).
pub fn append_bucket_detail_view(
    out: &mut String,
    currency: &str,
    bucket: &str,
    bucket_kind: BucketKind,
    target_month: &str,
    directives: &Vec<BudgetDirective>,
    flows: &Vec<BucketTxFlow>,
    all_flows: &Vec<BucketTxFlow>,
    show_locations_in_detail: bool,
    remain: Amount,
    scope: ReportScope,
)
    requires
        history_ok(directives@, flows@, bucket@),
        locations_view_ok(all_flows@, bucket@, target_month@),
    ensures
        final(out)@ == old(out)@ + detail_view(
            currency@,
            bucket@,
            bucket_kind,
            target_month@,
            directives@,
            flows@,
            all_flows@,
            show_locations_in_detail,
            remain@,
        ),
{
    append_bucket_history(out, currency, bucket, bucket_kind, directives, flows);
    let is_asset = match bucket_kind {
        BucketKind::Asset => true,
        BucketKind::Expense => false,
    };
    if (is_asset || has_located_flows_exec(all_flows, bucket)) && show_locations_in_detail {
        push_collected_locations(out, bucket, target_month, currency, all_flows, remain);
    }
}

// ---------------------------------------------------------------------------
// The report of one bucket
// ---------------------------------------------------------------------------

/// `超支` when the remainder carries a negative sign, else `正常`.
pub open spec fn status_of(remain: (int, nat, bool)) -> Seq<char> {
    crate::report::status_text(remain)
}

/// Name, kind and range of a bucket's terminal report.
pub open spec fn bucket_head_names(data: ScopedBucketData, range: DateRange) -> Seq<char> {
    "预算桶: "@ + data.bucket@ + seq!['\n'] + "类型: "@ + kind_label(data.kind) + seq!['\n'] + "统计区间: "@
        + range_display(range) + seq!['\n']
}

/// Planned, actual, remainder and status of a bucket's terminal report.
pub open spec fn bucket_head_totals(data: ScopedBucketData, currency: Seq<char>) -> Seq<char> {
    "月预算: "@ + fmt_text(data.planned@) + seq![' '] + currency + seq!['\n'] + "已支出: "@ + fmt_text(
        data.actual@,
    ) + seq![' '] + currency + seq!['\n'] + "结余:   "@ + fmt_text(data.remain@) + seq![' '] + currency
        + seq!['\n'] + "状态: "@ + status_of(data.remain@) + seq!['\n']
}

/// The head of a bucket's terminal report: name, kind, range, planned,
/// actual, remainder and status.
pub open spec fn bucket_head_text(data: ScopedBucketData, range: DateRange, currency: Seq<char>) -> Seq<char> {
    bucket_head_names(data, range) + bucket_head_totals(data, currency)
}

/// Whether the terminal report shows where the money is after the chosen
/// view: in the summary view when asked, always after the monthly view,
/// never after the detail view (which shows it itself).
pub open spec fn shows_locations_after(view: BucketView, show_locations: bool) -> bool {
    match view {
        BucketView::Summary => show_locations,
        BucketView::Monthly => true,
        BucketView::Detail => false,
    }
}

/// The terminal report of one bucket.
pub open spec fn bucket_report_text(
    data: ScopedBucketData,
    scope: ReportScope,
    currency: Seq<char>,
    view: BucketView,
    show_locations: bool,
    all: Seq<BucketTxFlow>,
    range: DateRange,
) -> Seq<char> {
    let end = range_end(range);
    bucket_head_text(data, range, currency) + match view {
        BucketView::Summary => Seq::empty(),
        BucketView::Monthly => crate::report::monthly_view(
            data.bucket@,
            data.kind,
            end,
            scope,
            currency,
            data.directives@,
            data.flows@,
        ),
        BucketView::Detail => detail_view(
            currency,
            data.bucket@,
            data.kind,
            end,
            data.directives@,
            data.flows@,
            all,
            true,
            data.remain@,
        ),
    } + if (data.kind == BucketKind::Asset || has_located_flows(all, data.bucket@))
        && shows_locations_after(view, show_locations) {
        asset_locations_view(end, currency, collected_view(all, data.bucket@, end), data.remain@)
    } else {
        Seq::empty()
    }
}

/// What rendering a bucket's report needs: its history can be written, its
/// months tested and summed, its locations collected.
pub open spec fn bucket_report_ok(data: ScopedBucketData, scope: ReportScope, all: Seq<BucketTxFlow>, end: Seq<char>) -> bool {
    &&& history_ok(data.directives@, data.flows@, data.bucket@)
    &&& crate::report::view_inputs_ok(data.directives@, data.flows@, end, scope)
    &&& locations_view_ok(all, data.bucket@, end)
}

fn push_bucket_names(out: &mut String, data: &ScopedBucketData, range: &DateRange)
    ensures
        final(out)@ == old(out)@ + bucket_head_names(*data, *range),
{
    push_str(out, "预算桶: ");
    push_str(out, data.bucket.as_str());
    string_push(out, '\n');
    push_str(out, "类型: ");
    push_str(out, data.kind.label());
    string_push(out, '\n');
    push_str(out, "统计区间: ");
    push_str(out, range.display().as_str());
    string_push(out, '\n');
    assert(out@ =~= old(out)@ + bucket_head_names(*data, *range));
}

#[verifier::rlimit(50)]
fn push_bucket_totals(out: &mut String, data: &ScopedBucketData, currency: &str)
    ensures
        final(out)@ == old(out)@ + bucket_head_totals(*data, currency@),
{
    push_str(out, "月预算: ");
    push_str(out, crate::util::fmt_decimal(data.planned).as_str());
    string_push(out, ' ');
    push_str(out, currency);
    string_push(out, '\n');
    push_str(out, "已支出: ");
    push_str(out, crate::util::fmt_decimal(data.actual).as_str());
    string_push(out, ' ');
    push_str(out, currency);
    string_push(out, '\n');
    push_str(out, "结余:   ");
    push_str(out, crate::util::fmt_decimal(data.remain).as_str());
    string_push(out, ' ');
    push_str(out, currency);
    string_push(out, '\n');
    push_str(out, "状态: ");
    push_str(out, if data.remain.is_sign_negative() {
        "超支"
    } else {
        "正常"
    });
    string_push(out, '\n');
    assert(out@ =~= old(out)@ + bucket_head_totals(*data, currency@));
}

fn push_bucket_head(out: &mut String, data: &ScopedBucketData, range: &DateRange, currency: &str)
    ensures
        final(out)@ == old(out)@ + bucket_head_text(*data, *range, currency@),
{
    push_bucket_names(out, data, range);
    push_bucket_totals(out, data, currency);
    assert(out@ =~= old(out)@ + bucket_head_text(*data, *range, currency@));
}

/// Appends where the money of `bucket` is up to `end` (collected from all
/// flows).
fn push_collected_locations(
    out: &mut String,
    bucket: &str,
    end: &str,
    currency: &str,
    all_flows: &Vec<BucketTxFlow>,
    remain: Amount,
)
    requires
        locations_view_ok(all_flows@, bucket@, end@),
    ensures
        final(out)@ == old(out)@ + asset_locations_view(
            end@,
            currency@,
            collected_view(all_flows@, bucket@, end@),
            remain@,
        ),
{
    let locations = crate::scoped::collect_asset_locations(bucket, end, all_flows);
    let ghost cv = collected_view(all_flows@, bucket@, end@);
    let _ = locations.len();
    proof {
        assert(crate::budget::amount_views(locations@) =~= cv);
        locations.lemma_keys_sorted();
        assert(locations@.dom() =~= cv.dom());
        assert forall|k: int| 0 <= k < locations.keys().len() implies locations@.contains_key(
            #[trigger] locations.keys()[k],
        ) by {
            locations.lemma_index(k);
        }
        lemma_located_magnitude(locations, all_flows@, bucket@, end@, locations.keys());
        let s = locations_scale(all_flows@);
        assert(locations_fit(all_flows@, s));
        assert(s <= 28 && (forall|k: Seq<char>| #[trigger]
            locations@.contains_key(k) ==> locations@[k]@.1 <= s) && fits_at(
            crate::report::keys_magnitude(crate::budget::amount_views(locations@), locations.keys()),
            s,
        ));
    }
    crate::report::append_asset_locations_view(out, end, currency, &locations, remain);
}

/// The terminal report of one bucket: its head, the chosen view (nothing
/// more, month by month, or its history) and, where that view calls for
/// it, where its money is.
pub fn render_bucket_report_text(
    data: &ScopedBucketData,
    config: &ReportConfig,
    currency: &str,
    bucket_view: BucketView,
    show_locations: bool,
    all_flows: &Vec<BucketTxFlow>,
    range: &DateRange,
) -> (r: String)
    requires
        bucket_report_ok(*data, config.scope, all_flows@, range_end(*range)),
    ensures
        r@ == bucket_report_text(
            *data,
            config.scope,
            currency@,
            bucket_view,
            show_locations,
            all_flows@,
            *range,
        ),
{
    let mut out = String::new();
    push_bucket_head(&mut out, data, range, currency);
    let end = range.end_month();
    match bucket_view {
        BucketView::Summary => {},
        BucketView::Monthly => crate::report::append_bucket_monthly_view(
            &mut out,
            data.bucket.as_str(),
            data.kind,
            end,
            config.scope,
            currency,
            &data.directives,
            &data.flows,
        ),
        BucketView::Detail => append_bucket_detail_view(
            &mut out,
            currency,
            data.bucket.as_str(),
            data.kind,
            end,
            &data.directives,
            &data.flows,
            all_flows,
            true,
            data.remain,
            config.scope,
        ),
    }
    let is_asset = match data.kind {
        BucketKind::Asset => true,
        BucketKind::Expense => false,
    };
    if is_asset || has_located_flows_exec(all_flows, data.bucket.as_str()) {
        let show_here = match bucket_view {
            BucketView::Summary => show_locations,
            BucketView::Monthly => true,
            BucketView::Detail => false,
        };
        if show_here {
            push_collected_locations(&mut out, data.bucket.as_str(), end, currency, all_flows, data.remain);
        }
    }
    assert(out@ =~= bucket_report_text(
        *data,
        config.scope,
        currency@,
        bucket_view,
        show_locations,
        all_flows@,
        *range,
    ));
    out
}

/// Some flow records where money moved.
pub open spec fn any_located(f: Seq<BucketTxFlow>) -> bool {
    exists|i: int| 0 <= i < f.len() && (#[trigger] f[i]).location_deltas@.dom() != Set::<Seq<char>>::empty()
}

pub(crate) fn any_located_exec(f: &Vec<BucketTxFlow>) -> (r: bool)
    ensures
        r == any_located(f@),
{
    let mut i: usize = 0;
    while i < f.len()
        invariant
            i <= f@.len(),
            forall|k: int| 0 <= k < i ==> (#[trigger] f@[k]).location_deltas@.dom() == Set::<Seq<char>>::empty(),
        decreases f@.len() - i,
    {
        let none = f[i].location_deltas.is_empty();
        if !none {
            assert(f@[i as int].location_deltas@.dom() != Set::<Seq<char>>::empty()) by {
                if f@[i as int].location_deltas@.dom() == Set::<Seq<char>>::empty() {
                    assert(f@[i as int].location_deltas@ =~= Map::<Seq<char>, Amount>::empty());
                }
            }
            return true;
        }
        assert(f@[i as int].location_deltas@.dom() =~= Set::<Seq<char>>::empty());
        i += 1;
    }
    false
}

/// A Markdown table of accounts: title, header and rows.
pub open spec fn md_location_table(title: Seq<char>, m: Map<Seq<char>, (int, nat, bool)>, keys: Seq<Seq<char>>) -> Seq<
    char,
> {
    "**"@ + title + "**\n\n| 账户 | 金额 |\n|---|---:|\n"@ + crate::report::md_location_rows(m, keys)
}

/// The Markdown section on where the money is: a table of the accounts
/// holding it and one of those it was spent from, or a note that there are
/// none.
pub open spec fn md_locations_section(m: Map<Seq<char>, (int, nat, bool)>) -> Seq<char> {
    let keys = sorted_dom(m.dom());
    let h = crate::report::signed_keys(keys, m, false);
    let so = crate::report::signed_keys(keys, m, true);
    "\n## 资产位置\n\n"@ + if m.dom() == Set::<Seq<char>>::empty() {
        "(无资产位置数据)\n"@
    } else {
        (if h.len() > 0 {
            md_location_table("资金存放"@, m, h) + if so.len() > 0 {
                seq!['\n']
            } else {
                Seq::empty()
            }
        } else {
            Seq::empty()
        }) + if so.len() > 0 {
            md_location_table("支出来源"@, m, so)
        } else {
            Seq::empty()
        }
    }
}

/// The Markdown report of one bucket: its head, the month-by-month view, the
/// history and, for an asset bucket or one with flows recording where money
/// moved, where its money is.
pub open spec fn bucket_report_markdown(
    data: ScopedBucketData,
    scope: ReportScope,
    currency: Seq<char>,
    all: Seq<BucketTxFlow>,
    range: DateRange,
) -> Seq<char> {
    let end = range_end(range);
    "# 预算桶报告："@ + data.bucket@ + "\n\n- 类型: `"@ + kind_label(data.kind) + "`\n- 统计区间: `"@
        + range_display(range) + "`\n- 月预算: `"@ + fmt_text(data.planned@) + "` "@ + currency
        + "\n- 已支出: `"@ + fmt_text(data.actual@) + "` "@ + currency + "\n- 结余: `"@ + fmt_text(
        data.remain@,
    ) + "` "@ + currency + "\n- 状态: `"@ + status_of(data.remain@) + "`\n\n"@ + crate::report::monthly_view(
        data.bucket@,
        data.kind,
        end,
        scope,
        currency,
        data.directives@,
        data.flows@,
    ) + seq!['\n'] + detail_view(
        currency,
        data.bucket@,
        data.kind,
        end,
        data.directives@,
        data.flows@,
        all,
        false,
        data.remain@,
    ) + if data.kind == BucketKind::Asset || any_located(data.flows@) {
        md_locations_section(collected_view(all, data.bucket@, end))
    } else {
        Seq::empty()
    }
}

fn push_md_bucket_head(out: &mut String, data: &ScopedBucketData, range: &DateRange, currency: &str)
    ensures
        final(out)@ == old(out)@ + "# 预算桶报告："@ + data.bucket@ + "\n\n- 类型: `"@ + kind_label(data.kind)
            + "`\n- 统计区间: `"@ + range_display(*range) + "`\n- 月预算: `"@ + fmt_text(data.planned@)
            + "` "@ + currency@ + "\n- 已支出: `"@ + fmt_text(data.actual@) + "` "@ + currency@
            + "\n- 结余: `"@ + fmt_text(data.remain@) + "` "@ + currency@ + "\n- 状态: `"@ + status_of(
            data.remain@,
        ) + "`\n\n"@,
{
    push_str(out, "# 预算桶报告：");
    push_str(out, data.bucket.as_str());
    push_str(out, "\n\n- 类型: `");
    push_str(out, data.kind.label());
    push_str(out, "`\n- 统计区间: `");
    push_str(out, range.display().as_str());
    push_str(out, "`\n- 月预算: `");
    push_str(out, crate::util::fmt_decimal(data.planned).as_str());
    push_str(out, "` ");
    push_str(out, currency);
    push_str(out, "\n- 已支出: `");
    push_str(out, crate::util::fmt_decimal(data.actual).as_str());
    push_str(out, "` ");
    push_str(out, currency);
    push_str(out, "\n- 结余: `");
    push_str(out, crate::util::fmt_decimal(data.remain).as_str());
    push_str(out, "` ");
    push_str(out, currency);
    push_str(out, "\n- 状态: `");
    push_str(out, if data.remain.is_sign_negative() {
        "超支"
    } else {
        "正常"
    });
    push_str(out, "`\n\n");
}

fn push_md_location_table(out: &mut String, title: &str, locations: &StrMap<Amount>, neg: bool)
    ensures
        final(out)@ == old(out)@ + md_location_table(
            title@,
            crate::budget::amount_views(locations@),
            crate::report::signed_keys(locations.keys(), crate::budget::amount_views(locations@), neg),
        ),
{
    push_str(out, "**");
    push_str(out, title);
    push_str(out, "**\n\n| 账户 | 金额 |\n|---|---:|\n");
    crate::report::push_md_location_rows(out, locations, false, neg);
    proof {
        reveal_strlit("**");
    }
    assert(out@ =~= old(out)@ + md_location_table(
        title@,
        crate::budget::amount_views(locations@),
        crate::report::signed_keys(locations.keys(), crate::budget::amount_views(locations@), neg),
    ));
}

fn push_md_locations_section(
    out: &mut String,
    bucket: &str,
    end: &str,
    all_flows: &Vec<BucketTxFlow>,
)
    requires
        locations_view_ok(all_flows@, bucket@, end@),
    ensures
        final(out)@ == old(out)@ + md_locations_section(collected_view(all_flows@, bucket@, end@)),
{
    let locations = crate::scoped::collect_asset_locations(bucket, end, all_flows);
    let ghost cv = collected_view(all_flows@, bucket@, end@);
    let n = locations.len();
    proof {
        assert(crate::budget::amount_views(locations@) =~= cv);
        locations.lemma_keys_sorted();
        assert(locations@.dom() =~= cv.dom());
    }
    push_str(out, "\n## 资产位置\n\n");
    if locations.is_empty() {
        push_str(out, "(无资产位置数据)\n");
    } else {
        let mut nh: usize = 0;
        let mut ns: usize = 0;
        let ghost keys = locations.keys();
        let ghost m = crate::budget::amount_views(locations@);
        let mut i: usize = 0;
        assert(keys.take(0) =~= Seq::<Seq<char>>::empty());
        while i < n
            invariant
                n == keys.len(),
                keys == locations.keys(),
                m == crate::budget::amount_views(locations@),
                locations.well_ordered(),
                i <= n,
                nh == crate::report::signed_keys(keys.take(i as int), m, false).len(),
                ns == crate::report::signed_keys(keys.take(i as int), m, true).len(),
                nh + ns == i,
            decreases n - i,
        {
            let v = *locations.value_at(i);
            proof {
                locations.lemma_index(i as int);
                assert(keys.take(i + 1).drop_last() =~= keys.take(i as int));
            }
            if v.is_sign_negative() {
                ns = ns + 1;
            } else {
                nh = nh + 1;
            }
            i += 1;
        }
        assert(keys.take(n as int) =~= keys);
        if nh > 0 {
            push_md_location_table(out, "资金存放", &locations, false);
            if ns > 0 {
                string_push(out, '\n');
            }
        }
        if ns > 0 {
            push_md_location_table(out, "支出来源", &locations, true);
        }
        proof {
            assert(locations@.contains_key(keys[0]));
        }
    }
    proof {
        reveal_strlit("\n## 资产位置\n\n");
        reveal_strlit("(无资产位置数据)\n");
        reveal_strlit("资金存放");
        reveal_strlit("支出来源");
    }
    assert(out@ =~= old(out)@ + md_locations_section(cv));
}

/// The Markdown report of one bucket (see [`bucket_report_markdown`]).
pub fn render_bucket_markdown(
    data: &ScopedBucketData,
    config: &ReportConfig,
    currency: &str,
    all_flows: &Vec<BucketTxFlow>,
    range: &DateRange,
) -> (r: String)
    requires
        bucket_report_ok(*data, config.scope, all_flows@, range_end(*range)),
    ensures
        r@ == bucket_report_markdown(*data, config.scope, currency@, all_flows@, *range),
{
    let mut out = String::new();
    push_md_bucket_head(&mut out, data, range, currency);
    let end = range.end_month();
    crate::report::append_bucket_monthly_view(
        &mut out,
        data.bucket.as_str(),
        data.kind,
        end,
        config.scope,
        currency,
        &data.directives,
        &data.flows,
    );
    string_push(&mut out, '\n');
    append_bucket_detail_view(
        &mut out,
        currency,
        data.bucket.as_str(),
        data.kind,
        end,
        &data.directives,
        &data.flows,
        all_flows,
        false,
        data.remain,
        config.scope,
    );
    let is_asset = match data.kind {
        BucketKind::Asset => true,
        BucketKind::Expense => false,
    };
    if is_asset || any_located_exec(&data.flows) {
        push_md_locations_section(&mut out, data.bucket.as_str(), end, all_flows);
    }
    assert(out@ =~= bucket_report_markdown(*data, config.scope, currency@, all_flows@, *range));
    out
}

} // verus!
