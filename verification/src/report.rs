//! Reports: the terminal text, Markdown, CSV and JSON renderings of the
//! totals and of one bucket's history.
use vstd::prelude::*;

use crate::amount::{
    abs_int, decimal_div, decimal_mul, decimal_product, decimal_quotient, decimal_round_dp,
    decimal_rounded, decimal_to_text_5_1, fits_at, lemma_pow10_pos, mantissa_bound,
    pow10, view_units, Amount,
};
use crate::budget::{actual_units, amount_views, BucketSummary, BucketTxFlow};
use crate::scoped::actual_view;
use crate::cli::{range_contains, range_contains_ok, range_display, DateRange};
use crate::scoped::WarningStats;
use crate::strmap::StrMap;
use crate::text::{push_str, string_push};
use crate::util::{is_month_in_scope, month_in_scope, shorten_account_spec, spaces, ReportScope};
use crate::config::{BucketKind, BudgetDirective};

verus! {

broadcast use vstd::string::group_string_axioms;

// ---------------------------------------------------------------------------
// Layout
// ---------------------------------------------------------------------------

/// `format!("{:<w$}", s)`: `s` followed by spaces up to `w` characters.
pub open spec fn left_aligned(s: Seq<char>, w: nat) -> Seq<char> {
    if s.len() >= w {
        s
    } else {
        s + spaces((w - s.len()) as nat)
    }
}

/// `format!("{:>w$}", s)`: spaces up to `w` characters, then `s`.
pub open spec fn right_aligned(s: Seq<char>, w: nat) -> Seq<char> {
    if s.len() >= w {
        s
    } else {
        spaces((w - s.len()) as nat) + s
    }
}

/// `n` dashes.
pub open spec fn dashes(n: nat) -> Seq<char> {
    Seq::new(n, |i: int| '-')
}

fn char_count(s: &str) -> (r: usize)
    ensures
        r == s@.len(),
{
    crate::text::str_chars(s).len()
}

/// Appends `s` padded on the right to `w` characters.
pub fn push_left(out: &mut String, s: &str, w: usize)
    ensures
        final(out)@ == old(out)@ + left_aligned(s@, w as nat),
{
    push_str(out, s);
    let n = char_count(s);
    if n < w {
        crate::util::push_spaces(out, w - n);
        assert(out@ =~= old(out)@ + left_aligned(s@, w as nat));
    }
}

/// Appends `s` padded on the left to `w` characters.
pub fn push_right(out: &mut String, s: &str, w: usize)
    ensures
        final(out)@ == old(out)@ + right_aligned(s@, w as nat),
{
    let n = char_count(s);
    if n < w {
        crate::util::push_spaces(out, w - n);
    }
    push_str(out, s);
    assert(out@ =~= old(out)@ + right_aligned(s@, w as nat));
}

/// Appends `n` dashes.
pub fn push_dashes(out: &mut String, n: usize)
    ensures
        final(out)@ == old(out)@ + dashes(n as nat),
{
    let mut k: usize = 0;
    while k < n
        invariant
            k <= n,
            out@ == old(out)@ + dashes(k as nat),
        decreases n - k,
    {
        string_push(out, '-');
        assert(old(out)@ + dashes(k as nat) + seq!['-'] =~= old(out)@ + dashes((k + 1) as nat));
        k += 1;
    }
}

/// `超支` (over budget) when the remainder carries a negative sign, else
/// `正常`.
pub open spec fn status_text(remain: (int, nat, bool)) -> Seq<char> {
    if remain.2 {
        "超支"@
    } else {
        "正常"@
    }
}

fn status_str(remain: Amount) -> (r: &'static str)
    ensures
        r@ == status_text(remain@),
{
    if remain.is_sign_negative() {
        "超支"
    } else {
        "正常"
    }
}

/// `items` joined by `sep`.
pub open spec fn joined(items: Seq<Seq<char>>, sep: Seq<char>) -> Seq<char>
    decreases items.len(),
{
    if items.len() == 0 {
        Seq::empty()
    } else if items.len() == 1 {
        items[0]
    } else {
        joined(items.drop_last(), sep) + sep + items.last()
    }
}

/// The keys of a set-like map joined by `, `.
fn join_keys(m: &StrMap<()>) -> (r: String)
    ensures
        r@ == joined(m.keys(), ", "@),
{
    let mut out = String::new();
    let n = m.len();
    let mut i: usize = 0;
    proof {
        reveal_strlit(", ");
        assert(m.keys().take(0) =~= Seq::<Seq<char>>::empty());
    }
    while i < n
        invariant
            n == m.keys().len(),
            i <= n,
            out@ == joined(m.keys().take(i as int), ", "@),
        decreases n - i,
    {
        let k = m.key_at(i);
        if i > 0 {
            push_str(&mut out, ", ");
        }
        push_str(&mut out, k.as_str());
        proof {
            assert(m.keys().take(i + 1).drop_last() =~= m.keys().take(i as int));
            if i == 0 {
                assert(m.keys().take(1)[0] == k@);
                assert(out@ =~= k@);
            }
        }
        i += 1;
    }
    assert(m.keys().take(n as int) =~= m.keys());
    out
}

// ---------------------------------------------------------------------------
// Percentages
// ---------------------------------------------------------------------------

/// `100` as plain values.
pub open spec fn hundred() -> (int, nat, bool) {
    (100, 0, false)
}

/// The share `actual / planned` in percent, one digit after the point, as
/// `{:5.1}%`; `  --` when nothing is planned.
pub open spec fn pct_text(actual: (int, nat, bool), planned: (int, nat, bool)) -> Seq<char> {
    if planned.0 == 0 {
        "  --"@
    } else {
        crate::amount::text_5_1_spec(
            decimal_rounded(decimal_product(decimal_quotient(actual, planned), hundred()), 1),
        ) + "%"@
    }
}

/// `actual / planned * 100` stays in range (or nothing is planned).
pub open spec fn pct_ok(actual_units: int, planned_units: int) -> bool {
    planned_units == 0 || 100 * (abs_int(actual_units) + abs_int(planned_units))
        < mantissa_bound() / 2 * abs_int(planned_units)
}

proof fn lemma_pct_bounds(a: int, p: int, q: int, t: int)
    requires
        p != 0,
        t > 0,
        100 * (abs_int(a) + abs_int(p)) < mantissa_bound() / 2 * abs_int(p),
        abs_int(q) * abs_int(p) <= (abs_int(a) + abs_int(p)) * t,
    ensures
        abs_int(a) < mantissa_bound() / 2 * abs_int(p),
        abs_int(q * (100 * t)) < mantissa_bound() / 2 * t * t,
{
    let ap = abs_int(a) + abs_int(p);
    let m = mantissa_bound() / 2;
    assert(abs_int(q * (100 * t)) == abs_int(q) * 100 * t) by (nonlinear_arith)
        requires
            t > 0,
    ;
    assert(abs_int(q) * 100 * abs_int(p) * t <= ap * 100 * t * t) by (nonlinear_arith)
        requires
            abs_int(q) * abs_int(p) <= ap * t,
            t > 0,
    ;
    assert(ap * 100 * t * t < m * abs_int(p) * t * t) by (nonlinear_arith)
        requires
            100 * ap < m * abs_int(p),
            t > 0,
    ;
    assert(abs_int(q) * 100 * t < m * t * t) by (nonlinear_arith)
        requires
            abs_int(q) * 100 * abs_int(p) * t < m * abs_int(p) * t * t,
            abs_int(p) > 0,
    ;
}

/// `actual / planned * 100`, rounded to one digit, as `{:5.1}%`; `  --`
/// when nothing is planned.
pub fn fmt_pct(actual: Amount, planned: Amount) -> (r: String)
    requires
        pct_ok(actual.units(), planned.units()),
    ensures
        r@ == pct_text(actual@, planned@),
{
    if planned.is_zero() {
        return "  --".to_string();
    }
    let q = decimal_div_checked(actual, planned);
    let h = Amount::new(100, 0);
    proof {
        lemma_pow10_pos(28);
        assert(h.units() == 100 * pow10(28));
        lemma_pct_bounds(actual.units(), planned.units(), q.units(), pow10(28));
    }
    let scaled = decimal_mul(q, h);
    let rounded = decimal_round_dp(scaled, 1);
    let mut out = decimal_to_text_5_1(rounded);
    push_str(&mut out, "%");
    out
}

fn decimal_div_checked(a: Amount, b: Amount) -> (r: Amount)
    requires
        b.units() != 0,
        pct_ok(a.units(), b.units()),
    ensures
        r@ == decimal_quotient(a@, b@),
        abs_int(r.units()) * abs_int(b.units()) <= (abs_int(a.units()) + abs_int(b.units())) * pow10(
            28,
        ),
{
    proof {
        lemma_pow10_pos(28);
        lemma_pct_bounds(a.units(), b.units(), 0, pow10(28));
    }
    decimal_div(a, b)
}

// ---------------------------------------------------------------------------
// The buckets of the summary table, in order
// ---------------------------------------------------------------------------

/// Order of the summary table's rows.
#[derive(Clone, Copy, Debug, PartialEq, Eq, Structural)]
pub enum SortKey {
    Name,
    Planned,
    Actual,
    Remain,
}

/// `planned` and `actual` sort by that amount, largest first; `remain` by
/// the remainder, smallest (most overspent) first; any other value, or none,
/// by name.
pub open spec fn sort_key_of(o: Option<Seq<char>>) -> SortKey {
    match o {
        Some(v) => if v == "planned"@ {
            SortKey::Planned
        } else if v == "actual"@ {
            SortKey::Actual
        } else if v == "remain"@ {
            SortKey::Remain
        } else {
            SortKey::Name
        },
        None => SortKey::Name,
    }
}

pub(crate) fn sort_key(o: Option<&str>) -> (r: SortKey)
    ensures
        r == sort_key_of(crate::util::opt_view(o)),
{
    match o {
        Some(v) => if crate::text::str_eq(v, "planned") {
            SortKey::Planned
        } else if crate::text::str_eq(v, "actual") {
            SortKey::Actual
        } else if crate::text::str_eq(v, "remain") {
            SortKey::Remain
        } else {
            SortKey::Name
        },
        None => SortKey::Name,
    }
}

/// The amount a row is sorted by (units), largest first: the plan, the
/// spending, or for `remain` the overspend (spending minus plan), so that the
/// smallest remain comes first.
pub open spec fn summary_value(m: Map<Seq<char>, BucketSummary>, b: Seq<char>, key: SortKey) -> int {
    match key {
        SortKey::Planned => m[b].planned.units(),
        SortKey::Actual => m[b].actual.units(),
        SortKey::Remain => m[b].actual.units() - m[b].planned.units(),
        SortKey::Name => 0,
    }
}

/// Position of the first row whose amount is smaller than `v`.
pub open spec fn first_smaller(s: Seq<Seq<char>>, m: Map<Seq<char>, BucketSummary>, key: SortKey, v: int) -> int
    decreases s.len(),
{
    if s.len() == 0 {
        0
    } else if summary_value(m, s[0], key) < v {
        0
    } else {
        1 + first_smaller(s.drop_first(), m, key, v)
    }
}

/// Rows sorted by amount, largest first, rows of equal amount in their given
/// order (a stable sort).
pub open spec fn sort_desc(s: Seq<Seq<char>>, m: Map<Seq<char>, BucketSummary>, key: SortKey) -> Seq<Seq<char>>
    decreases s.len(),
{
    if s.len() == 0 {
        Seq::empty()
    } else {
        let t = sort_desc(s.drop_last(), m, key);
        t.insert(first_smaller(t, m, key, summary_value(m, s.last(), key)), s.last())
    }
}

/// A bucket whose parent has a row of its own.
pub open spec fn is_hidden_child(m: Map<Seq<char>, BucketSummary>, b: Seq<char>) -> bool {
    match crate::util::parent_bucket_spec(b) {
        Some(p) => m.contains_key(p),
        None => false,
    }
}

/// The buckets shown: all when expanded, else those whose parent has no row.
pub open spec fn visible_keys(keys: Seq<Seq<char>>, m: Map<Seq<char>, BucketSummary>, expand: bool) -> Seq<Seq<char>>
    decreases keys.len(),
{
    if keys.len() == 0 {
        Seq::empty()
    } else if expand || !is_hidden_child(m, keys.last()) {
        visible_keys(keys.drop_last(), m, expand).push(keys.last())
    } else {
        visible_keys(keys.drop_last(), m, expand)
    }
}

/// The summary table's buckets, in the order of its rows.
pub open spec fn shown_entries(s: StrMap<BucketSummary>, sort_by: Option<Seq<char>>, expand: bool) -> Seq<Seq<char>> {
    let v = visible_keys(s.keys(), s@, expand);
    match sort_key_of(sort_by) {
        SortKey::Name => v,
        k => sort_desc(v, s@, k),
    }
}

proof fn lemma_first_smaller_bound(s: Seq<Seq<char>>, m: Map<Seq<char>, BucketSummary>, key: SortKey, v: int)
    ensures
        0 <= first_smaller(s, m, key, v) <= s.len(),
    decreases s.len(),
{
    if s.len() > 0 && !(summary_value(m, s[0], key) < v) {
        lemma_first_smaller_bound(s.drop_first(), m, key, v);
    }
}

proof fn lemma_sort_desc_elements(s: Seq<Seq<char>>, m: Map<Seq<char>, BucketSummary>, key: SortKey)
    ensures
        sort_desc(s, m, key).len() == s.len(),
        forall|k: int| 0 <= k < s.len() ==> s.contains(#[trigger] sort_desc(s, m, key)[k]),
    decreases s.len(),
{
    if s.len() > 0 {
        lemma_sort_desc_elements(s.drop_last(), m, key);
        let t = sort_desc(s.drop_last(), m, key);
        let p = first_smaller(t, m, key, summary_value(m, s.last(), key));
        lemma_first_smaller_bound(t, m, key, summary_value(m, s.last(), key));
        assert forall|k: int| 0 <= k < s.len() implies s.contains(#[trigger] sort_desc(s, m, key)[k]) by {
            if k < p {
                assert(sort_desc(s, m, key)[k] == t[k]);
                assert(s.drop_last().contains(t[k]));
                let j = choose|j: int| 0 <= j < s.drop_last().len() && s.drop_last()[j] == t[k];
                assert(s[j] == t[k]);
            } else if k == p {
                assert(s[s.len() - 1] == s.last());
            } else {
                assert(sort_desc(s, m, key)[k] == t[k - 1]);
                assert(s.drop_last().contains(t[k - 1]));
                let j = choose|j: int| 0 <= j < s.drop_last().len() && s.drop_last()[j] == t[k - 1];
                assert(s[j] == t[k - 1]);
            }
        }
    }
}

proof fn lemma_visible_keys(keys: Seq<Seq<char>>, m: Map<Seq<char>, BucketSummary>, expand: bool)
    ensures
        visible_keys(keys, m, expand).len() <= keys.len(),
        forall|k: int|
            0 <= k < visible_keys(keys, m, expand).len() ==> keys.contains(
                #[trigger] visible_keys(keys, m, expand)[k],
            ),
    decreases keys.len(),
{
    if keys.len() > 0 {
        lemma_visible_keys(keys.drop_last(), m, expand);
        let v = visible_keys(keys.drop_last(), m, expand);
        assert forall|k: int|
            0 <= k < visible_keys(keys, m, expand).len() implies keys.contains(
            #[trigger] visible_keys(keys, m, expand)[k],
        ) by {
            if k < v.len() {
                assert(visible_keys(keys, m, expand)[k] == v[k]);
                assert(keys.drop_last().contains(v[k]));
                let j = choose|j: int| 0 <= j < keys.drop_last().len() && keys.drop_last()[j] == v[k];
                assert(keys[j] == v[k]);
            } else {
                assert(keys[keys.len() - 1] == keys.last());
            }
        }
    }
}

/// The shown buckets are buckets of the map, no more of them than it has.
pub proof fn lemma_shown_entries(s: StrMap<BucketSummary>, sort_by: Option<Seq<char>>, expand: bool)
    requires
        s.well_ordered(),
    ensures
        shown_entries(s, sort_by, expand).len() <= s.keys().len(),
        forall|k: int|
            0 <= k < shown_entries(s, sort_by, expand).len() ==> s@.contains_key(
                #[trigger] shown_entries(s, sort_by, expand)[k],
            ),
{
    lemma_visible_keys(s.keys(), s@, expand);
    let v = visible_keys(s.keys(), s@, expand);
    lemma_sort_desc_elements(v, s@, sort_key_of(sort_by));
    assert forall|k: int| 0 <= k < shown_entries(s, sort_by, expand).len() implies s@.contains_key(
        #[trigger] shown_entries(s, sort_by, expand)[k],
    ) by {
        let e = shown_entries(s, sort_by, expand)[k];
        if sort_key_of(sort_by) != SortKey::Name {
            assert(v.contains(e));
            let j = choose|j: int| 0 <= j < v.len() && v[j] == e;
            assert(s.keys().contains(v[j]));
        } else {
            assert(s.keys().contains(e));
        }
        assert(s.keys().contains(e));
    }
}

/// `planned - actual` of a row can be computed exactly.
pub open spec fn remain_fits(e: BucketSummary) -> bool {
    crate::amount::fits_at(
        e.planned.units() - e.actual.units(),
        crate::amount::max_nat(e.planned@.1, e.actual@.1),
    )
}

pub open spec fn strings_view(v: Seq<String>) -> Seq<Seq<char>> {
    v.map_values(|x: String| x@)
}

fn summary_of(s: &StrMap<BucketSummary>, k: &String) -> (r: BucketSummary)
    requires
        s@.contains_key(k@),
    ensures
        r == s@[k@],
{
    match s.get(k.as_str()) {
        Some(e) => *e,
        None => {
            assert(false);
            BucketSummary { planned: Amount::zero(), actual: Amount::zero() }
        },
    }
}

/// Whether `a` sorts below `b` (`value(a) < value(b)`).
fn value_lt(a: BucketSummary, b: BucketSummary, key: SortKey) -> (r: bool)
    requires
        remain_fits(a),
        remain_fits(b),
    ensures
        r == (match key {
            SortKey::Planned => a.planned.units() < b.planned.units(),
            SortKey::Actual => a.actual.units() < b.actual.units(),
            SortKey::Remain => a.actual.units() - a.planned.units() < b.actual.units()
                - b.planned.units(),
            SortKey::Name => false,
        }),
{
    match key {
        SortKey::Planned => crate::amount::decimal_gt(b.planned, a.planned),
        SortKey::Actual => crate::amount::decimal_gt(b.actual, a.actual),
        SortKey::Remain => {
            let ra = crate::amount::decimal_sub(a.planned, a.actual);
            let rb = crate::amount::decimal_sub(b.planned, b.actual);
            crate::amount::decimal_gt(ra, rb)
        },
        SortKey::Name => false,
    }
}

/// The buckets of the summary table, in row order; see [`shown_entries`].
pub fn summary_entries(s: &StrMap<BucketSummary>, sort_by: Option<&str>, expand: bool) -> (r: Vec<
    String,
>)
    requires
        forall|k: Seq<char>| #[trigger] s@.contains_key(k) ==> remain_fits(s@[k]),
    ensures
        strings_view(r@) == shown_entries(*s, crate::util::opt_view(sort_by), expand),
{
    let n = s.len();
    let ghost keys = s.keys();
    let ghost m = s@;
    let mut vis: Vec<String> = Vec::new();
    let mut i: usize = 0;
    assert(strings_view(vis@) =~= visible_keys(keys.take(0), m, expand));
    while i < n
        invariant
            n == keys.len(),
            keys == s.keys(),
            m == s@,
            s.well_ordered(),
            i <= n,
            strings_view(vis@) == visible_keys(keys.take(i as int), m, expand),
        decreases n - i,
    {
        let k = s.key_at(i);
        let hidden = match crate::util::parent_bucket(k.as_str()) {
            Some(p) => s.contains_key(p),
            None => false,
        };
        proof {
            assert(keys.take(i + 1).drop_last() =~= keys.take(i as int));
            assert(keys.take(i + 1).last() == k@);
        }
        if expand || !hidden {
            let ghost before = vis@;
            vis.push(k.clone());
            assert(strings_view(vis@) =~= strings_view(before).push(k@));
        }
        i += 1;
    }
    proof {
        assert(keys.take(n as int) =~= keys);
        lemma_visible_keys(keys, m, expand);
    }
    let key = sort_key(sort_by);
    if key == SortKey::Name {
        return vis;
    }
    let ghost v = strings_view(vis@);
    let mut out: Vec<String> = Vec::new();
    let mut t: usize = 0;
    assert(strings_view(out@) =~= sort_desc(v.take(0), m, key));
    while t < vis.len()
        invariant
            v == strings_view(vis@),
            m == s@,
            key != SortKey::Name,
            forall|k: Seq<char>| #[trigger] m.contains_key(k) ==> remain_fits(m[k]),
            forall|j: int| 0 <= j < v.len() ==> keys.contains(#[trigger] v[j]),
            keys == s.keys(),
            s.well_ordered(),
            t <= vis.len(),
            strings_view(out@) == sort_desc(v.take(t as int), m, key),
            forall|j: int| 0 <= j < out@.len() ==> m.contains_key(#[trigger] out@[j]@),
        decreases vis.len() - t,
    {
        let x = &vis[t];
        proof {
            assert(keys.contains(v[t as int]));
            assert(m.contains_key(x@));
        }
        let xv = summary_of(s, x);
        let ghost sorted = strings_view(out@);
        let mut j: usize = 0;
        assert(sorted.skip(0) =~= sorted);
        while j < out.len()
            invariant
                j <= out.len(),
                sorted == strings_view(out@),
                m == s@,
                xv == m[x@],
                remain_fits(xv),
                forall|k: Seq<char>| #[trigger] m.contains_key(k) ==> remain_fits(m[k]),
                forall|q: int| 0 <= q < out@.len() ==> m.contains_key(#[trigger] out@[q]@),
                first_smaller(sorted, m, key, summary_value(m, x@, key)) == j + first_smaller(
                    sorted.skip(j as int),
                    m,
                    key,
                    summary_value(m, x@, key),
                ),
            ensures
                j <= out.len(),
                first_smaller(sorted, m, key, summary_value(m, x@, key)) == j,
            decreases out.len() - j,
        {
            let yv = summary_of(s, &out[j]);
            proof {
                assert(sorted.skip(j as int)[0] == out@[j as int]@);
                assert(sorted.skip(j as int).drop_first() =~= sorted.skip(j + 1));
            }
            if value_lt(yv, xv, key) {
                proof {
                    assert(summary_value(m, sorted.skip(j as int)[0], key) < summary_value(m, x@, key));
                }
                break ;
            }
            j += 1;
        }
        proof {
            assert(v.take(t + 1).drop_last() =~= v.take(t as int));
            assert(v.take(t + 1).last() == x@);
        }
        out.insert(j, x.clone());
        proof {
            assert(strings_view(out@) =~= sorted.insert(j as int, x@));
        }
        t += 1;
    }
    proof {
        assert(v.take(vis.len() as int) =~= v);
    }
    out
}

// ---------------------------------------------------------------------------
// The summary table
// ---------------------------------------------------------------------------

/// `{:.2}` of the amount rounded to cents (`fmt_decimal`).
pub open spec fn fmt_text(v: (int, nat, bool)) -> Seq<char> {
    crate::amount::text_2dp_spec(decimal_rounded(v, 2))
}

/// `planned - actual` of a row as `rust_decimal` computes it.
pub open spec fn remain_view(e: BucketSummary) -> (int, nat, bool) {
    crate::amount::decimal_difference(e.planned@, e.actual@)
}

/// A terminal table row: `{:<20} {:>12} {:>12} {:>7} {:>12} {:>7}`.
pub open spec fn text_row(
    c1: Seq<char>,
    c2: Seq<char>,
    c3: Seq<char>,
    c4: Seq<char>,
    c5: Seq<char>,
    c6: Seq<char>,
) -> Seq<char> {
    left_aligned(c1, 20) + seq![' '] + right_aligned(c2, 12) + seq![' '] + right_aligned(c3, 12)
        + seq![' '] + right_aligned(c4, 7) + seq![' '] + right_aligned(c5, 12) + seq![' ']
        + right_aligned(c6, 7) + seq!['\n']
}

/// A Markdown table row: `| c1 | c2 | ... | c6 |`.
pub open spec fn md_row(
    c1: Seq<char>,
    c2: Seq<char>,
    c3: Seq<char>,
    c4: Seq<char>,
    c5: Seq<char>,
    c6: Seq<char>,
) -> Seq<char> {
    seq!['|', ' '] + c1 + seq![' ', '|', ' '] + c2 + seq![' ', '|', ' '] + c3 + seq![' ', '|', ' ']
        + c4 + seq![' ', '|', ' '] + c5 + seq![' ', '|', ' '] + c6 + seq![' ', '|', '\n']
}

pub open spec fn table_row(
    md: bool,
    c1: Seq<char>,
    c2: Seq<char>,
    c3: Seq<char>,
    c4: Seq<char>,
    c5: Seq<char>,
    c6: Seq<char>,
) -> Seq<char> {
    if md {
        md_row(c1, c2, c3, c4, c5, c6)
    } else {
        text_row(c1, c2, c3, c4, c5, c6)
    }
}

/// Bold in Markdown, plain in the terminal.
pub open spec fn bold(md: bool, c: Seq<char>) -> Seq<char> {
    if md {
        seq!['*', '*'] + c + seq!['*', '*']
    } else {
        c
    }
}

/// The row of one bucket.
pub open spec fn summary_row(md: bool, b: Seq<char>, e: BucketSummary) -> Seq<char> {
    table_row(
        md,
        b,
        fmt_text(e.planned@),
        fmt_text(e.actual@),
        pct_text(e.actual@, e.planned@),
        fmt_text(remain_view(e)),
        status_text(remain_view(e)),
    )
}

/// The rows of the buckets with a planned amount (tracking buckets, planned
/// zero, get none).
pub open spec fn summary_rows(md: bool, m: Map<Seq<char>, BucketSummary>, entries: Seq<Seq<char>>) -> Seq<char>
    decreases entries.len(),
{
    if entries.len() == 0 {
        Seq::empty()
    } else {
        summary_rows(md, m, entries.drop_last()) + if m[entries.last()].planned@.0 != 0 {
            summary_row(md, entries.last(), m[entries.last()])
        } else {
            Seq::empty()
        }
    }
}

/// Planned and actual totals of the rows, as `rust_decimal` adds them.
pub open spec fn summary_totals(m: Map<Seq<char>, BucketSummary>, entries: Seq<Seq<char>>) -> (
    (int, nat, bool),
    (int, nat, bool),
)
    decreases entries.len(),
{
    if entries.len() == 0 {
        ((0, 0, false), (0, 0, false))
    } else {
        let t = summary_totals(m, entries.drop_last());
        let e = m[entries.last()];
        if e.planned@.0 != 0 {
            (crate::amount::decimal_sum(t.0, e.planned@), crate::amount::decimal_sum(t.1, e.actual@))
        } else {
            t
        }
    }
}

/// The same totals, exactly (units).
pub open spec fn summary_total_units(m: Map<Seq<char>, BucketSummary>, entries: Seq<Seq<char>>) -> (int, int)
    decreases entries.len(),
{
    if entries.len() == 0 {
        (0, 0)
    } else {
        let t = summary_total_units(m, entries.drop_last());
        let e = m[entries.last()];
        if e.planned@.0 != 0 {
            (t.0 + e.planned.units(), t.1 + e.actual.units())
        } else {
            t
        }
    }
}

/// The table's total row.
pub open spec fn total_row(md: bool, totals: ((int, nat, bool), (int, nat, bool))) -> Seq<char> {
    let r = crate::amount::decimal_difference(totals.0, totals.1);
    table_row(
        md,
        bold(md, "合计"@),
        bold(md, fmt_text(totals.0)),
        bold(md, fmt_text(totals.1)),
        bold(md, pct_text(totals.1, totals.0)),
        bold(md, fmt_text(r)),
        bold(md, status_text(r)),
    )
}

/// The rows, (in the terminal) a rule, and the total row.
pub open spec fn summary_table(md: bool, m: Map<Seq<char>, BucketSummary>, entries: Seq<Seq<char>>) -> Seq<char> {
    summary_rows(md, m, entries) + (if md {
        Seq::empty()
    } else {
        dashes(76) + seq!['\n']
    }) + total_row(md, summary_totals(m, entries))
}

/// Every amount of the map has at most `sc` digits after the point and at
/// most `bound` in size, and twice their count times `bound` fits a 96-bit
/// mantissa: totals and remainders stay exact.
pub open spec fn summary_bounds(s: StrMap<BucketSummary>, sc: nat, bound: int) -> bool {
    &&& sc <= 28
    &&& bound >= 0
    &&& forall|k: Seq<char>| #[trigger]
        s@.contains_key(k) ==> s@[k].planned@.1 <= sc && s@[k].actual@.1 <= sc && abs_int(
            s@[k].planned.units(),
        ) <= bound && abs_int(s@[k].actual.units()) <= bound
    &&& crate::amount::fits_at(2 * s.keys().len() * bound, sc)
}

/// The summary of `s` can be rendered: its amounts are in range, and the
/// percentages of the rows and of the totals are.
pub open spec fn summary_render_ok(s: StrMap<BucketSummary>, sort_by: Option<Seq<char>>, expand: bool) -> bool {
    &&& exists|sc: nat, bound: int| summary_bounds(s, sc, bound)
    &&& forall|k: int|
        0 <= k < shown_entries(s, sort_by, expand).len() ==> pct_ok(
            s@[#[trigger] shown_entries(s, sort_by, expand)[k]].actual.units(),
            s@[shown_entries(s, sort_by, expand)[k]].planned.units(),
        )
    &&& pct_ok(
        summary_total_units(s@, shown_entries(s, sort_by, expand)).1,
        summary_total_units(s@, shown_entries(s, sort_by, expand)).0,
    )
}

proof fn lemma_bounds_remain(s: StrMap<BucketSummary>, sc: nat, bound: int)
    requires
        summary_bounds(s, sc, bound),
        s.well_ordered(),
    ensures
        forall|k: Seq<char>| #[trigger] s@.contains_key(k) ==> remain_fits(s@[k]),
{
    assert forall|k: Seq<char>| #[trigger] s@.contains_key(k) implies remain_fits(s@[k]) by {
        assert(s.keys().contains(k));
        assert(s.keys().len() >= 1);
        assert(2 * bound <= 2 * s.keys().len() * bound) by (nonlinear_arith)
            requires
                s.keys().len() >= 1,
                bound >= 0,
        ;
        crate::budget::lemma_fits_mono(
            2 * s.keys().len() * bound,
            s@[k].planned.units() - s@[k].actual.units(),
            crate::amount::max_nat(s@[k].planned@.1, s@[k].actual@.1),
            sc,
        );
    }
}

fn push_md_row(out: &mut String, c1: &str, c2: &str, c3: &str, c4: &str, c5: &str, c6: &str)
    ensures
        final(out)@ == old(out)@ + md_row(c1@, c2@, c3@, c4@, c5@, c6@),
{
    push_str(out, "| ");
    push_str(out, c1);
    push_str(out, " | ");
    push_str(out, c2);
    push_str(out, " | ");
    push_str(out, c3);
    push_str(out, " | ");
    push_str(out, c4);
    push_str(out, " | ");
    push_str(out, c5);
    push_str(out, " | ");
    push_str(out, c6);
    push_str(out, " |\n");
    proof {
        reveal_strlit("| ");
        reveal_strlit(" | ");
        reveal_strlit(" |\n");
    }
    assert(out@ =~= old(out)@ + md_row(c1@, c2@, c3@, c4@, c5@, c6@));
}

#[verifier::rlimit(50)]
fn push_text_row(out: &mut String, c1: &str, c2: &str, c3: &str, c4: &str, c5: &str, c6: &str)
    ensures
        final(out)@ == old(out)@ + text_row(c1@, c2@, c3@, c4@, c5@, c6@),
{
    push_left(out, c1, 20);
    string_push(out, ' ');
    push_right(out, c2, 12);
    string_push(out, ' ');
    push_right(out, c3, 12);
    string_push(out, ' ');
    let ghost mid = out@;
    push_right(out, c4, 7);
    string_push(out, ' ');
    push_right(out, c5, 12);
    string_push(out, ' ');
    push_right(out, c6, 7);
    string_push(out, '\n');
    assert(out@ =~= mid + (right_aligned(c4@, 7) + seq![' '] + right_aligned(c5@, 12) + seq![' ']
        + right_aligned(c6@, 7) + seq!['\n']));
    assert(out@ =~= old(out)@ + text_row(c1@, c2@, c3@, c4@, c5@, c6@));
}

/// Appends a table row.
fn push_row(out: &mut String, md: bool, c1: &str, c2: &str, c3: &str, c4: &str, c5: &str, c6: &str)
    ensures
        final(out)@ == old(out)@ + table_row(md, c1@, c2@, c3@, c4@, c5@, c6@),
{
    if md {
        push_md_row(out, c1, c2, c3, c4, c5, c6);
    } else {
        push_text_row(out, c1, c2, c3, c4, c5, c6);
    }
}

fn bolded(md: bool, c: &str) -> (r: String)
    ensures
        r@ == bold(md, c@),
{
    let mut out = String::new();
    if md {
        push_str(&mut out, "**");
        push_str(&mut out, c);
        push_str(&mut out, "**");
        proof {
            reveal_strlit("**");
        }
        assert(out@ =~= bold(md, c@));
    } else {
        push_str(&mut out, c);
        assert(out@ =~= bold(md, c@));
    }
    out
}

/// Appends the rows and the total row for `entries` (see [`summary_table`]).
fn push_summary_table(
    out: &mut String,
    md: bool,
    s: &StrMap<BucketSummary>,
    entries: &Vec<String>,
    Ghost(sc): Ghost<nat>,
    Ghost(bound): Ghost<int>,
)
    requires
        summary_bounds(*s, sc, bound),
        entries@.len() <= s.keys().len(),
        forall|k: int| 0 <= k < entries@.len() ==> s@.contains_key(#[trigger] entries@[k]@),
        forall|k: int|
            0 <= k < entries@.len() ==> pct_ok(
                s@[#[trigger] entries@[k]@].actual.units(),
                s@[entries@[k]@].planned.units(),
            ),
        pct_ok(
            summary_total_units(s@, strings_view(entries@)).1,
            summary_total_units(s@, strings_view(entries@)).0,
        ),
    ensures
        final(out)@ == old(out)@ + summary_table(md, s@, strings_view(entries@)),
{
    let ghost m = s@;
    let ghost e = strings_view(entries@);
    let ghost n = s.keys().len();
    let mut tp = Amount::zero();
    let mut ta = Amount::zero();
    let mut i: usize = 0;
    let _ = s.len();
    proof {
        lemma_bounds_remain(*s, sc, bound);
        lemma_pow10_pos(28);
        assert(e.take(0) =~= Seq::<Seq<char>>::empty());
        assert(out@ =~= old(out)@ + summary_rows(md, m, e.take(0)));
    }
    while i < entries.len()
        invariant
            m == s@,
            e == strings_view(entries@),
            n == s.keys().len(),
            summary_bounds(*s, sc, bound),
            entries@.len() <= n,
            forall|k: Seq<char>| #[trigger] m.contains_key(k) ==> remain_fits(m[k]),
            forall|k: int| 0 <= k < entries@.len() ==> m.contains_key(#[trigger] entries@[k]@),
            forall|k: int|
                0 <= k < entries@.len() ==> pct_ok(
                    m[#[trigger] entries@[k]@].actual.units(),
                    m[entries@[k]@].planned.units(),
                ),
            i <= entries.len(),
            out@ == old(out)@ + summary_rows(md, m, e.take(i as int)),
            (tp@, ta@) == summary_totals(m, e.take(i as int)),
            (tp.units(), ta.units()) == summary_total_units(m, e.take(i as int)),
            tp@.1 <= sc,
            ta@.1 <= sc,
            abs_int(tp.units()) <= i * bound,
            abs_int(ta.units()) <= i * bound,
        decreases entries.len() - i,
    {
        let k = &entries[i];
        let entry = summary_of(s, k);
        proof {
            assert(e.take(i + 1).drop_last() =~= e.take(i as int));
            assert(e.take(i + 1).last() == k@);
            assert(e[i as int] == k@);
        }
        if !entry.planned.is_zero() {
            let remain = crate::amount::decimal_sub(entry.planned, entry.actual);
            proof {
                assert((i + 1) * bound <= n * bound) by (nonlinear_arith)
                    requires
                        i + 1 <= n,
                        bound >= 0,
                ;
                assert(n * bound <= 2 * n * bound) by (nonlinear_arith)
                    requires
                        bound >= 0,
                        n >= 0,
                ;
                assert(i * bound + bound == (i + 1) * bound) by (nonlinear_arith);
                crate::budget::lemma_fits_mono(
                    2 * n * bound,
                    tp.units() + entry.planned.units(),
                    crate::amount::max_nat(tp@.1, entry.planned@.1),
                    sc,
                );
                crate::budget::lemma_fits_mono(
                    2 * n * bound,
                    ta.units() + entry.actual.units(),
                    crate::amount::max_nat(ta@.1, entry.actual@.1),
                    sc,
                );
            }
            tp = crate::amount::decimal_add(tp, entry.planned);
            ta = crate::amount::decimal_add(ta, entry.actual);
            let c2 = crate::util::fmt_decimal(entry.planned);
            let c3 = crate::util::fmt_decimal(entry.actual);
            let c4 = fmt_pct(entry.actual, entry.planned);
            let c5 = crate::util::fmt_decimal(remain);
            let c6 = status_str(remain);
            push_row(out, md, k.as_str(), c2.as_str(), c3.as_str(), c4.as_str(), c5.as_str(), c6);
        } else {
            proof {
                assert(i * bound <= (i + 1) * bound) by (nonlinear_arith)
                    requires
                        bound >= 0,
                ;
            }
        }
        i += 1;
    }
    proof {
        assert(e.take(entries.len() as int) =~= e);
        assert(abs_int(tp.units()) + abs_int(ta.units()) <= 2 * n * bound) by (nonlinear_arith)
            requires
                abs_int(tp.units()) <= i * bound,
                abs_int(ta.units()) <= i * bound,
                i <= n,
                bound >= 0,
        ;
        crate::budget::lemma_fits_mono(
            2 * n * bound,
            tp.units() - ta.units(),
            crate::amount::max_nat(tp@.1, ta@.1),
            sc,
        );
    }
    if !md {
        push_dashes(out, 76);
        string_push(out, '\n');
    }
    let total_remain = crate::amount::decimal_sub(tp, ta);
    let c1 = bolded(md, "合计");
    let c2 = bolded(md, crate::util::fmt_decimal(tp).as_str());
    let c3 = bolded(md, crate::util::fmt_decimal(ta).as_str());
    let c4 = bolded(md, fmt_pct(ta, tp).as_str());
    let c5 = bolded(md, crate::util::fmt_decimal(total_remain).as_str());
    let c6 = bolded(md, status_str(total_remain));
    push_row(out, md, c1.as_str(), c2.as_str(), c3.as_str(), c4.as_str(), c5.as_str(), c6.as_str());
    assert(out@ =~= old(out)@ + summary_table(md, m, e));
}


// ---------------------------------------------------------------------------
// The summary report
// ---------------------------------------------------------------------------

/// The column titles of the summary table, as a terminal or Markdown row.
pub open spec fn summary_header(md: bool) -> Seq<char> {
    table_row(md, "预算桶"@, "月预算"@, "已支出"@, "使用率"@, "结余"@, "状态"@)
}

/// The line on unknown buckets: their total size and their names.
pub open spec fn warning_line(w: WarningStats, currency: Seq<char>) -> Seq<char> {
    "警告: unknown buckets amount = "@ + fmt_text(w.unknown_bucket_amount@) + seq![' '] + currency
        + " (buckets: "@ + joined(w.unknown_bucket_names.keys(), ", "@) + seq![')', '\n']
}

/// Whether the report carries the line on unknown buckets.
pub open spec fn warns_unknown(w: WarningStats) -> bool {
    w.unknown_bucket_amount@.0 != 0
}

/// The terminal summary report.
pub open spec fn summary_report_text(
    range: DateRange,
    currency: Seq<char>,
    s: StrMap<BucketSummary>,
    w: WarningStats,
    sort_by: Option<Seq<char>>,
    expand: bool,
) -> Seq<char> {
    "预算报告 ("@ + range_display(range) + seq![')', ' ', '['] + currency + seq![']', '\n']
        + summary_header(false) + dashes(76) + seq!['\n'] + summary_table(
        false,
        s@,
        shown_entries(s, sort_by, expand),
    ) + if warns_unknown(w) {
        warning_line(w, currency)
    } else {
        Seq::empty()
    }
}

/// The Markdown summary report.
pub open spec fn summary_report_markdown(
    range: DateRange,
    currency: Seq<char>,
    s: StrMap<BucketSummary>,
    w: WarningStats,
    sort_by: Option<Seq<char>>,
    expand: bool,
) -> Seq<char> {
    "# 预算汇总报告\n\n- 统计区间: `"@ + range_display(range) + "`\n- 币种: `"@ + currency
        + "`\n\n"@ + summary_header(true) + "|---:|---:|---:|---:|---:|---|\n"@ + summary_table(
        true,
        s@,
        shown_entries(s, sort_by, expand),
    ) + if warns_unknown(w) {
        "\n> "@ + warning_line(w, currency)
    } else {
        Seq::empty()
    }
}

fn push_header(out: &mut String, md: bool)
    ensures
        final(out)@ == old(out)@ + summary_header(md),
{
    push_row(out, md, "预算桶", "月预算", "已支出", "使用率", "结余", "状态");
    proof {
        reveal_strlit("预算桶");
        reveal_strlit("月预算");
        reveal_strlit("已支出");
        reveal_strlit("使用率");
        reveal_strlit("结余");
        reveal_strlit("状态");
    }
}

fn push_warning(out: &mut String, w: &WarningStats, currency: &str)
    ensures
        final(out)@ == old(out)@ + warning_line(*w, currency@),
{
    push_str(out, "警告: unknown buckets amount = ");
    let amount = crate::util::fmt_decimal(w.unknown_bucket_amount);
    push_str(out, amount.as_str());
    string_push(out, ' ');
    push_str(out, currency);
    push_str(out, " (buckets: ");
    let names = join_keys(&w.unknown_bucket_names);
    push_str(out, names.as_str());
    string_push(out, ')');
    string_push(out, '\n');
    proof {
        reveal_strlit("警告: unknown buckets amount = ");
        reveal_strlit(" (buckets: ");
    }
    assert(out@ =~= old(out)@ + warning_line(*w, currency@));
}

/// The viewer's note on unknown buckets, put after its summary: a new line,
/// their total size with two digits after the point, `CNY` and their names;
/// nothing when there are none.
pub open spec fn viewer_warning_spec(w: WarningStats) -> Seq<char> {
    if warns_unknown(w) {
        "\n警告: unknown buckets amount = "@ + crate::amount::text_2dp_spec(
            w.unknown_bucket_amount@,
        ) + " CNY (buckets: "@ + joined(w.unknown_bucket_names.keys(), ", "@) + seq![')']
    } else {
        Seq::empty()
    }
}

/// The viewer's note on unknown buckets (see [`viewer_warning_spec`]).
pub fn viewer_warning_text(w: &WarningStats) -> (r: String)
    ensures
        r@ == viewer_warning_spec(*w),
{
    let mut out = String::new();
    if w.unknown_bucket_amount.is_zero() {
        assert(out@ =~= Seq::<char>::empty());
        return out;
    }
    push_str(&mut out, "\n警告: unknown buckets amount = ");
    let amount = crate::amount::decimal_to_text_2dp(w.unknown_bucket_amount);
    push_str(&mut out, amount.as_str());
    push_str(&mut out, " CNY (buckets: ");
    let names = join_keys(&w.unknown_bucket_names);
    push_str(&mut out, names.as_str());
    string_push(&mut out, ')');
    assert(out@ =~= viewer_warning_spec(*w));
    out
}

/// Appends the rows of the summary table and its total row.
fn push_summary_body(
    out: &mut String,
    md: bool,
    summaries: &StrMap<BucketSummary>,
    sort_by: Option<&str>,
    expand: bool,
)
    requires
        summary_render_ok(*summaries, crate::util::opt_view(sort_by), expand),
    ensures
        final(out)@ == old(out)@ + summary_table(
            md,
            summaries@,
            shown_entries(*summaries, crate::util::opt_view(sort_by), expand),
        ),
{
    let ghost so = crate::util::opt_view(sort_by);
    let ghost (sc, bound) = choose|sc: nat, bound: int| summary_bounds(*summaries, sc, bound);
    let _ = summaries.len();
    proof {
        lemma_bounds_remain(*summaries, sc, bound);
        lemma_shown_entries(*summaries, so, expand);
    }
    let entries = summary_entries(summaries, sort_by, expand);
    proof {
        let e = shown_entries(*summaries, so, expand);
        assert forall|k: int| 0 <= k < entries@.len() implies summaries@.contains_key(
            #[trigger] entries@[k]@,
        ) by {
            assert(strings_view(entries@)[k] == entries@[k]@);
            assert(summaries@.contains_key(e[k]));
        }
        assert forall|k: int| 0 <= k < entries@.len() implies pct_ok(
            summaries@[#[trigger] entries@[k]@].actual.units(),
            summaries@[entries@[k]@].planned.units(),
        ) by {
            assert(strings_view(entries@)[k] == entries@[k]@);
            assert(e[k] == entries@[k]@);
        }
    }
    push_summary_table(out, md, summaries, &entries, Ghost(sc), Ghost(bound));
}

/// The summary report for the terminal: title, the table (buckets whose
/// parent has a row of its own are left out unless `expand`; tracking
/// buckets, with nothing planned, get no row), the total row and, when
/// unknown buckets carry an amount, a warning line.
pub fn render_summary_report_text(
    range: &DateRange,
    currency: &str,
    summaries: &StrMap<BucketSummary>,
    warnings: &WarningStats,
    sort_by: Option<&str>,
    expand: bool,
) -> (r: String)
    requires
        summary_render_ok(*summaries, crate::util::opt_view(sort_by), expand),
    ensures
        r@ == summary_report_text(
            *range,
            currency@,
            *summaries,
            *warnings,
            crate::util::opt_view(sort_by),
            expand,
        ),
{
    let mut out = String::new();
    push_str(&mut out, "预算报告 (");
    let shown = range.display();
    push_str(&mut out, shown.as_str());
    string_push(&mut out, ')');
    string_push(&mut out, ' ');
    string_push(&mut out, '[');
    push_str(&mut out, currency);
    string_push(&mut out, ']');
    string_push(&mut out, '\n');
    push_header(&mut out, false);
    push_dashes(&mut out, 76);
    string_push(&mut out, '\n');
    push_summary_body(&mut out, false, summaries, sort_by, expand);
    if !warnings.unknown_bucket_amount.is_zero() {
        push_warning(&mut out, warnings, currency);
    }
    proof {
        reveal_strlit("预算报告 (");
    }
    assert(out@ =~= summary_report_text(
        *range,
        currency@,
        *summaries,
        *warnings,
        crate::util::opt_view(sort_by),
        expand,
    ));
    out
}

/// The summary report as Markdown: title, range and currency, the table
/// (as in [`render_summary_report_text`]) and the warning as a quote.
pub fn render_summary_markdown(
    range: &DateRange,
    currency: &str,
    summaries: &StrMap<BucketSummary>,
    warnings: &WarningStats,
    sort_by: Option<&str>,
    expand: bool,
) -> (r: String)
    requires
        summary_render_ok(*summaries, crate::util::opt_view(sort_by), expand),
    ensures
        r@ == summary_report_markdown(
            *range,
            currency@,
            *summaries,
            *warnings,
            crate::util::opt_view(sort_by),
            expand,
        ),
{
    let mut out = String::new();
    push_str(&mut out, "# 预算汇总报告\n\n- 统计区间: `");
    let shown = range.display();
    push_str(&mut out, shown.as_str());
    push_str(&mut out, "`\n- 币种: `");
    push_str(&mut out, currency);
    push_str(&mut out, "`\n\n");
    push_header(&mut out, true);
    push_str(&mut out, "|---:|---:|---:|---:|---:|---|\n");
    push_summary_body(&mut out, true, summaries, sort_by, expand);
    if !warnings.unknown_bucket_amount.is_zero() {
        push_str(&mut out, "\n> ");
        push_warning(&mut out, warnings, currency);
    }
    proof {
        reveal_strlit("# 预算汇总报告\n\n- 统计区间: `");
        reveal_strlit("`\n- 币种: `");
        reveal_strlit("`\n\n");
        reveal_strlit("|---:|---:|---:|---:|---:|---|\n");
        reveal_strlit("\n> ");
    }
    assert(out@ =~= summary_report_markdown(
        *range,
        currency@,
        *summaries,
        *warnings,
        crate::util::opt_view(sort_by),
        expand,
    ));
    out
}

// ---------------------------------------------------------------------------
// CSV and JSON
// ---------------------------------------------------------------------------

/// `OVER` when the remainder carries a negative sign, else `OK`.
pub open spec fn csv_status(remain: (int, nat, bool)) -> Seq<char> {
    if remain.2 {
        "OVER"@
    } else {
        "OK"@
    }
}

/// `bucket,planned,actual,remain,status` of one bucket.
pub open spec fn csv_row(b: Seq<char>, e: BucketSummary) -> Seq<char> {
    b + seq![','] + fmt_text(e.planned@) + seq![','] + fmt_text(e.actual@) + seq![','] + fmt_text(
        remain_view(e),
    ) + seq![','] + csv_status(remain_view(e)) + seq!['\n']
}

/// The CSV rows of `keys`, in that order.
pub open spec fn csv_rows(m: Map<Seq<char>, BucketSummary>, keys: Seq<Seq<char>>) -> Seq<char>
    decreases keys.len(),
{
    if keys.len() == 0 {
        Seq::empty()
    } else {
        csv_rows(m, keys.drop_last()) + csv_row(keys.last(), m[keys.last()])
    }
}

/// The summary as CSV: a header line and one line per bucket, by name.
pub open spec fn summary_csv(s: StrMap<BucketSummary>) -> Seq<char> {
    "bucket,planned,actual,remain,status\n"@ + csv_rows(s@, s.keys())
}

fn status_csv(remain: Amount) -> (r: &'static str)
    ensures
        r@ == csv_status(remain@),
{
    if remain.is_sign_negative() {
        "OVER"
    } else {
        "OK"
    }
}

/// Every bucket of the summary, by name, as CSV (tracking buckets too).
#[verifier::rlimit(40)]
pub fn render_summary_csv(summaries: &StrMap<BucketSummary>) -> (r: String)
    requires
        forall|k: Seq<char>| #[trigger] summaries@.contains_key(k) ==> remain_fits(summaries@[k]),
    ensures
        r@ == summary_csv(*summaries),
{
    let mut out = String::new();
    push_str(&mut out, "bucket,planned,actual,remain,status\n");
    proof {
        reveal_strlit("bucket,planned,actual,remain,status\n");
    }
    let n = summaries.len();
    let ghost keys = summaries.keys();
    let ghost m = summaries@;
    let ghost head = out@;
    let mut i: usize = 0;
    assert(keys.take(0) =~= Seq::<Seq<char>>::empty());
    while i < n
        invariant
            n == keys.len(),
            keys == summaries.keys(),
            m == summaries@,
            summaries.well_ordered(),
            forall|k: Seq<char>| #[trigger] m.contains_key(k) ==> remain_fits(m[k]),
            i <= n,
            out@ == head + csv_rows(m, keys.take(i as int)),
        decreases n - i,
    {
        let k = summaries.key_at(i);
        let e = *summaries.value_at(i);
        proof {
            summaries.lemma_index(i as int);
            assert(keys.take(i + 1).drop_last() =~= keys.take(i as int));
            assert(keys.take(i + 1).last() == k@);
        }
        let remain = crate::amount::decimal_sub(e.planned, e.actual);
        push_str(&mut out, k.as_str());
        string_push(&mut out, ',');
        push_str(&mut out, crate::util::fmt_decimal(e.planned).as_str());
        string_push(&mut out, ',');
        push_str(&mut out, crate::util::fmt_decimal(e.actual).as_str());
        string_push(&mut out, ',');
        push_str(&mut out, crate::util::fmt_decimal(remain).as_str());
        string_push(&mut out, ',');
        push_str(&mut out, status_csv(remain));
        string_push(&mut out, '\n');
        assert(out@ =~= head + csv_rows(m, keys.take(i + 1)));
        i += 1;
    }
    assert(keys.take(n as int) =~= keys);
    out
}

/// `"` as a one-character sequence.
pub open spec fn quote() -> Seq<char> {
    seq!['\u{22}']
}

/// A JSON number: `Display` of the amount rounded to cents.
pub open spec fn json_number(v: (int, nat, bool)) -> Seq<char> {
    crate::amount::display_text_spec(decimal_rounded(v, 2))
}

/// `"key":` as JSON.
pub open spec fn json_key(k: Seq<char>) -> Seq<char> {
    quote() + k + quote() + seq![':']
}

/// The first half of a bucket's JSON object: its name and planned amount.
pub open spec fn json_entry_head(b: Seq<char>, e: BucketSummary) -> Seq<char> {
    "    {"@ + json_key("name"@) + quote() + b + quote() + seq![','] + json_key("planned"@) + json_number(
        e.planned@,
    ) + seq![',']
}

/// The second half: actual amount, remainder and status.
pub open spec fn json_entry_tail(e: BucketSummary) -> Seq<char> {
    json_key("actual"@) + json_number(e.actual@) + seq![','] + json_key("remain"@) + json_number(
        remain_view(e),
    ) + seq![','] + json_key("status"@) + quote() + status_text(remain_view(e)) + quote() + seq!['}']
}

/// One bucket of the JSON list, without its trailing comma.
pub open spec fn json_entry(b: Seq<char>, e: BucketSummary) -> Seq<char> {
    json_entry_head(b, e) + json_entry_tail(e)
}

/// The JSON list lines of `keys` (`total` entries in all).
pub open spec fn json_entries(m: Map<Seq<char>, BucketSummary>, keys: Seq<Seq<char>>, total: nat) -> Seq<
    char,
>
    decreases keys.len(),
{
    if keys.len() == 0 {
        Seq::empty()
    } else {
        json_entries(m, keys.drop_last(), total) + json_entry(keys.last(), m[keys.last()]) + (if keys.len()
            < total {
            seq![',']
        } else {
            Seq::empty()
        }) + seq!['\n']
    }
}

/// The summary as JSON: range, currency and the buckets by name.
pub open spec fn summary_json(s: StrMap<BucketSummary>, range: DateRange, currency: Seq<char>) -> Seq<
    char,
> {
    "{\n  "@ + quote() + "range"@ + quote() + ": "@ + quote() + range_display(range) + quote() + ",\n  "@
        + quote() + "currency"@ + quote() + ": "@ + quote() + currency + quote() + ",\n  "@ + quote()
        + "buckets"@ + quote() + ": [\n"@ + json_entries(s@, s.keys(), s.keys().len()) + "  ]\n}\n"@
}

fn push_quoted_key(out: &mut String, key: &str)
    ensures
        final(out)@ == old(out)@ + quote() + key@ + quote(),
{
    string_push(out, '\u{22}');
    push_str(out, key);
    string_push(out, '\u{22}');
    assert(out@ =~= old(out)@ + quote() + key@ + quote());
}

fn push_json_key(out: &mut String, key: &str)
    ensures
        final(out)@ == old(out)@ + json_key(key@),
{
    push_quoted_key(out, key);
    string_push(out, ':');
    assert(out@ =~= old(out)@ + json_key(key@));
}

fn push_json_number(out: &mut String, v: Amount)
    ensures
        final(out)@ == old(out)@ + json_number(v@),
{
    let t = crate::amount::decimal_to_text(crate::amount::decimal_round_dp(v, 2));
    push_str(out, t.as_str());
}

fn push_json_entry_head(out: &mut String, k: &str, e: BucketSummary)
    ensures
        final(out)@ == old(out)@ + json_entry_head(k@, e),
{
    push_str(out, "    {");
    push_json_key(out, "name");
    push_quoted_key(out, k);
    string_push(out, ',');
    push_json_key(out, "planned");
    push_json_number(out, e.planned);
    string_push(out, ',');
    proof {
        reveal_strlit("    {");
        reveal_strlit("name");
        reveal_strlit("planned");
    }
    assert(out@ =~= old(out)@ + json_entry_head(k@, e));
}

fn push_json_entry_tail(out: &mut String, e: BucketSummary, remain: Amount)
    requires
        remain@ == remain_view(e),
    ensures
        final(out)@ == old(out)@ + json_entry_tail(e),
{
    push_json_key(out, "actual");
    push_json_number(out, e.actual);
    string_push(out, ',');
    push_json_key(out, "remain");
    push_json_number(out, remain);
    string_push(out, ',');
    push_json_key(out, "status");
    push_quoted_key(out, status_str(remain));
    string_push(out, '}');
    proof {
        reveal_strlit("actual");
        reveal_strlit("remain");
        reveal_strlit("status");
    }
    assert(out@ =~= old(out)@ + json_entry_tail(e));
}

fn push_json_entry(out: &mut String, k: &str, e: BucketSummary, remain: Amount)
    requires
        remain@ == remain_view(e),
    ensures
        final(out)@ == old(out)@ + json_entry(k@, e),
{
    push_json_entry_head(out, k, e);
    push_json_entry_tail(out, e, remain);
    assert(out@ =~= old(out)@ + json_entry(k@, e));
}

/// The summary as JSON: range, currency and every bucket by name with its
/// amounts rounded to cents.
pub fn render_summary_json(summaries: &StrMap<BucketSummary>, range: &DateRange, currency: &str) -> (r:
    String)
    requires
        forall|k: Seq<char>| #[trigger] summaries@.contains_key(k) ==> remain_fits(summaries@[k]),
    ensures
        r@ == summary_json(*summaries, *range, currency@),
{
    let mut out = String::new();
    push_str(&mut out, "{\n  ");
    push_quoted_key(&mut out, "range");
    push_str(&mut out, ": ");
    push_quoted_key(&mut out, range.display().as_str());
    push_str(&mut out, ",\n  ");
    push_quoted_key(&mut out, "currency");
    push_str(&mut out, ": ");
    push_quoted_key(&mut out, currency);
    push_str(&mut out, ",\n  ");
    push_quoted_key(&mut out, "buckets");
    push_str(&mut out, ": [\n");
    let ghost head = out@;
    proof {
        reveal_strlit("{\n  ");
        reveal_strlit("range");
        reveal_strlit(": ");
        reveal_strlit(",\n  ");
        reveal_strlit("currency");
        reveal_strlit("buckets");
        reveal_strlit(": [\n");
    }
    let n = summaries.len();
    let ghost keys = summaries.keys();
    let ghost m = summaries@;
    let mut i: usize = 0;
    assert(keys.take(0) =~= Seq::<Seq<char>>::empty());
    while i < n
        invariant
            n == keys.len(),
            keys == summaries.keys(),
            m == summaries@,
            summaries.well_ordered(),
            forall|k: Seq<char>| #[trigger] m.contains_key(k) ==> remain_fits(m[k]),
            i <= n,
            out@ == head + json_entries(m, keys.take(i as int), n as nat),
        decreases n - i,
    {
        let k = summaries.key_at(i);
        let e = *summaries.value_at(i);
        proof {
            summaries.lemma_index(i as int);
            assert(keys.take(i + 1).drop_last() =~= keys.take(i as int));
            assert(keys.take(i + 1).last() == k@);
        }
        let remain = crate::amount::decimal_sub(e.planned, e.actual);
        push_json_entry(&mut out, k.as_str(), e, remain);
        if i + 1 < n {
            string_push(&mut out, ',');
        }
        string_push(&mut out, '\n');
        assert(out@ =~= head + json_entries(m, keys.take(i + 1), n as nat));
        i += 1;
    }
    assert(keys.take(n as int) =~= keys);
    push_str(&mut out, "  ]\n}\n");
    proof {
        reveal_strlit("  ]\n}\n");
    }
    assert(out@ =~= summary_json(*summaries, *range, currency@));
    out
}

// ---------------------------------------------------------------------------
// The monthly pivot table
// ---------------------------------------------------------------------------

/// A flow the pivot table counts: in the range, with a non-zero amount.
pub open spec fn pivot_counts(f: BucketTxFlow, range: DateRange) -> bool {
    range_contains(range, f.month@) && actual_view(f@).0 != 0
}

/// The months of the counted flows.
pub open spec fn pivot_months(f: Seq<BucketTxFlow>, range: DateRange) -> Set<Seq<char>> {
    Set::new(
        |m: Seq<char>| exists|i: int| 0 <= i < f.len() && pivot_counts(f[i], range) && #[trigger] f[i].month@ == m,
    )
}

/// The buckets of the counted flows.
pub open spec fn pivot_buckets(f: Seq<BucketTxFlow>, range: DateRange) -> Set<Seq<char>> {
    Set::new(
        |b: Seq<char>| exists|i: int| 0 <= i < f.len() && pivot_counts(f[i], range) && #[trigger] f[i].bucket@ == b,
    )
}

/// The actual amounts of the counted flows of month `m` and bucket `b`,
/// added left to right from zero as `rust_decimal` adds them.
pub open spec fn pivot_cell(f: Seq<BucketTxFlow>, range: DateRange, m: Seq<char>, b: Seq<char>) -> (
    int,
    nat,
    bool,
)
    decreases f.len(),
{
    if f.len() == 0 {
        (0, 0, false)
    } else {
        let acc = pivot_cell(f.drop_last(), range, m, b);
        let g = f.last();
        if pivot_counts(g, range) && g.month@ == m && g.bucket@ == b {
            crate::amount::decimal_sum(acc, actual_view(g@))
        } else {
            acc
        }
    }
}

/// The same sum, exactly (units).
pub open spec fn pivot_units(f: Seq<BucketTxFlow>, range: DateRange, m: Seq<char>, b: Seq<char>) -> int
    decreases f.len(),
{
    if f.len() == 0 {
        0
    } else {
        pivot_units(f.drop_last(), range, m, b) + if pivot_counts(f.last(), range) && f.last().month@
            == m && f.last().bucket@ == b {
            actual_units(f.last())
        } else {
            0
        }
    }
}

/// `,bucket` for each bucket.
pub open spec fn pivot_header(buckets: Seq<Seq<char>>) -> Seq<char>
    decreases buckets.len(),
{
    if buckets.len() == 0 {
        Seq::empty()
    } else {
        pivot_header(buckets.drop_last()) + seq![','] + buckets.last()
    }
}

/// `,amount` of month `m` for each bucket.
pub open spec fn pivot_cells(f: Seq<BucketTxFlow>, range: DateRange, m: Seq<char>, buckets: Seq<Seq<char>>) -> Seq<
    char,
>
    decreases buckets.len(),
{
    if buckets.len() == 0 {
        Seq::empty()
    } else {
        pivot_cells(f, range, m, buckets.drop_last()) + seq![','] + fmt_text(
            pivot_cell(f, range, m, buckets.last()),
        )
    }
}

/// One line per month.
pub open spec fn pivot_lines(
    f: Seq<BucketTxFlow>,
    range: DateRange,
    months: Seq<Seq<char>>,
    buckets: Seq<Seq<char>>,
) -> Seq<char>
    decreases months.len(),
{
    if months.len() == 0 {
        Seq::empty()
    } else {
        pivot_lines(f, range, months.drop_last(), buckets) + months.last() + pivot_cells(
            f,
            range,
            months.last(),
            buckets,
        ) + seq!['\n']
    }
}

/// The pivot table as CSV: one row per month, one column per bucket, each
/// cell the actual amount of that bucket in that month.
pub open spec fn pivot_csv(f: Seq<BucketTxFlow>, range: DateRange) -> Seq<char> {
    let buckets = crate::strmap::sorted_dom(pivot_buckets(f, range));
    "月份"@ + pivot_header(buckets) + seq!['\n'] + pivot_lines(
        f,
        range,
        crate::strmap::sorted_dom(pivot_months(f, range)),
        buckets,
    )
}

/// The months of the flows can be tested against the range, and their
/// amounts add up exactly.
pub open spec fn pivot_ok(f: Seq<BucketTxFlow>, range: DateRange) -> bool {
    &&& forall|i: int| 0 <= i < f.len() ==> range_contains_ok(range, (#[trigger] f[i]).month@)
    &&& exists|s: nat| crate::budget::totals_fit(Seq::empty(), f, s)
}

fn pivot_cell_amount(
    flows: &Vec<BucketTxFlow>,
    range: &DateRange,
    m: &str,
    b: &str,
    Ghost(s): Ghost<nat>,
) -> (r: Amount)
    requires
        forall|i: int| 0 <= i < flows@.len() ==> range_contains_ok(*range, (#[trigger] flows@[i]).month@),
        crate::budget::totals_fit(Seq::empty(), flows@, s),
    ensures
        r@ == pivot_cell(flows@, *range, m@, b@),
{
    let ghost f = flows@;
    let mut acc = Amount::zero();
    let mut j: usize = 0;
    proof {
        assert(f.take(0) =~= Seq::<BucketTxFlow>::empty());
        crate::budget::lemma_flows_magnitude_nonneg(f);
        assert(crate::budget::dirs_magnitude(Seq::empty()) == 0);
    }
    while j < flows.len()
        invariant
            f == flows@,
            forall|i: int| 0 <= i < f.len() ==> range_contains_ok(*range, (#[trigger] f[i]).month@),
            crate::budget::totals_fit(Seq::empty(), f, s),
            crate::budget::dirs_magnitude(Seq::empty()) == 0,
            j <= f.len(),
            acc@ == pivot_cell(f.take(j as int), *range, m@, b@),
            acc.units() == pivot_units(f.take(j as int), *range, m@, b@),
            abs_int(acc.units()) <= crate::budget::flows_magnitude(f.take(j as int)),
            acc@.1 <= s,
        decreases f.len() - j,
    {
        let g = &flows[j];
        proof {
            assert(f.take(j + 1).drop_last() =~= f.take(j as int));
            assert(f.take(j + 1).last() == f[j as int]);
            crate::budget::lemma_flows_magnitude_prefix(f, j + 1);
        }
        let a = g.actual_amount();
        if range.contains(g.month.as_str()) && !a.is_zero() && crate::text::str_eq(g.month.as_str(), m)
            && crate::text::str_eq(g.bucket.as_str(), b) {
            proof {
                assert(g.flow@.1 <= s);
                crate::budget::lemma_fits_mono(
                    crate::budget::dirs_magnitude(Seq::empty()) + crate::budget::flows_magnitude(f),
                    acc.units() + a.units(),
                    crate::amount::max_nat(acc@.1, a@.1),
                    s,
                );
            }
            acc = crate::amount::decimal_add(acc, a);
        }
        j += 1;
    }
    proof {
        assert(f.take(f.len() as int) =~= f);
    }
    acc
}

/// Inserts the month (or the bucket) of each counted flow into `keys`.
fn pivot_keys(flows: &Vec<BucketTxFlow>, range: &DateRange, by_month: bool) -> (r: StrMap<()>)
    requires
        forall|i: int| 0 <= i < flows@.len() ==> range_contains_ok(*range, (#[trigger] flows@[i]).month@),
    ensures
        by_month ==> r@.dom() == pivot_months(flows@, *range),
        !by_month ==> r@.dom() == pivot_buckets(flows@, *range),
{
    let ghost f = flows@;
    let mut keys: StrMap<()> = StrMap::new();
    let mut i: usize = 0;
    while i < flows.len()
        invariant
            f == flows@,
            forall|k: int| 0 <= k < f.len() ==> range_contains_ok(*range, (#[trigger] f[k]).month@),
            i <= f.len(),
            forall|x: Seq<char>| #[trigger]
                keys@.contains_key(x) <==> exists|k: int|
                    0 <= k < i && pivot_counts(f[k], *range) && (if by_month {
                        f[k].month@
                    } else {
                        f[k].bucket@
                    }) == x,
        decreases f.len() - i,
    {
        let g = &flows[i];
        let a = g.actual_amount();
        let ghost before = keys@;
        if range.contains(g.month.as_str()) && !a.is_zero() {
            if by_month {
                keys.insert(g.month.clone(), ());
            } else {
                keys.insert(g.bucket.clone(), ());
            }
        }
        proof {
            assert forall|x: Seq<char>| #[trigger]
                keys@.contains_key(x) <==> exists|k: int|
                    0 <= k < i + 1 && pivot_counts(f[k], *range) && (if by_month {
                        f[k].month@
                    } else {
                        f[k].bucket@
                    }) == x by {
                if keys@.contains_key(x) && !before.contains_key(x) {
                    assert(pivot_counts(f[i as int], *range));
                }
                if before.contains_key(x) {
                    let k = choose|k: int|
                        0 <= k < i && pivot_counts(f[k], *range) && (if by_month {
                            f[k].month@
                        } else {
                            f[k].bucket@
                        }) == x;
                    assert(0 <= k < i + 1);
                }
            }
        }
        i += 1;
    }
    proof {
        if by_month {
            assert forall|x: Seq<char>| keys@.dom().contains(x) == pivot_months(f, *range).contains(x) by {
                if keys@.contains_key(x) {
                    let k = choose|k: int|
                        0 <= k < f.len() && pivot_counts(f[k], *range) && f[k].month@ == x;
                    assert(f[k].month@ == x);
                }
            }
            assert(keys@.dom() =~= pivot_months(f, *range));
        } else {
            assert forall|x: Seq<char>| keys@.dom().contains(x) == pivot_buckets(f, *range).contains(x) by {
                if keys@.contains_key(x) {
                    let k = choose|k: int|
                        0 <= k < f.len() && pivot_counts(f[k], *range) && f[k].bucket@ == x;
                    assert(f[k].bucket@ == x);
                }
            }
            assert(keys@.dom() =~= pivot_buckets(f, *range));
        }
    }
    keys
}

/// The monthly pivot table as CSV: a row per month and a column per bucket
/// of the flows in the range with a non-zero amount; each cell is the actual
/// amount of that bucket in that month (zero where there is none).
pub fn render_pivot_csv(flows: &Vec<BucketTxFlow>, range: &DateRange) -> (r: String)
    requires
        pivot_ok(flows@, *range),
    ensures
        r@ == pivot_csv(flows@, *range),
{
    let ghost s: nat = choose|s: nat| crate::budget::totals_fit(Seq::empty(), flows@, s);
    let months = pivot_keys(flows, range, true);
    let buckets = pivot_keys(flows, range, false);
    let nb = buckets.len();
    let nm = months.len();
    let ghost bk = buckets.keys();
    let ghost mk = months.keys();
    proof {
        buckets.lemma_keys_sorted();
        months.lemma_keys_sorted();
    }
    let mut out = String::new();
    push_str(&mut out, "月份");
    proof {
        reveal_strlit("月份");
    }
    let mut j: usize = 0;
    assert(bk.take(0) =~= Seq::<Seq<char>>::empty());
    while j < nb
        invariant
            nb == bk.len(),
            bk == buckets.keys(),
            j <= nb,
            out@ == "月份"@ + pivot_header(bk.take(j as int)),
        decreases nb - j,
    {
        let b = buckets.key_at(j);
        proof {
            assert(bk.take(j + 1).drop_last() =~= bk.take(j as int));
            assert(bk.take(j + 1).last() == b@);
        }
        string_push(&mut out, ',');
        push_str(&mut out, b.as_str());
        assert(out@ =~= "月份"@ + pivot_header(bk.take(j + 1)));
        j += 1;
    }
    assert(bk.take(nb as int) =~= bk);
    string_push(&mut out, '\n');
    let ghost head = out@;
    let mut i: usize = 0;
    assert(mk.take(0) =~= Seq::<Seq<char>>::empty());
    while i < nm
        invariant
            nm == mk.len(),
            mk == months.keys(),
            nb == bk.len(),
            bk == buckets.keys(),
            pivot_ok(flows@, *range),
            crate::budget::totals_fit(Seq::empty(), flows@, s),
            i <= nm,
            out@ == head + pivot_lines(flows@, *range, mk.take(i as int), bk),
        decreases nm - i,
    {
        let m = months.key_at(i);
        proof {
            assert(mk.take(i + 1).drop_last() =~= mk.take(i as int));
            assert(mk.take(i + 1).last() == m@);
        }
        push_str(&mut out, m.as_str());
        let ghost cells_start = out@;
        let mut j: usize = 0;
        assert(bk.take(0) =~= Seq::<Seq<char>>::empty());
        while j < nb
            invariant
                nb == bk.len(),
                bk == buckets.keys(),
                pivot_ok(flows@, *range),
                crate::budget::totals_fit(Seq::empty(), flows@, s),
                j <= nb,
                out@ == cells_start + pivot_cells(flows@, *range, m@, bk.take(j as int)),
            decreases nb - j,
        {
            let b = buckets.key_at(j);
            proof {
                assert(bk.take(j + 1).drop_last() =~= bk.take(j as int));
                assert(bk.take(j + 1).last() == b@);
            }
            let cell = pivot_cell_amount(flows, range, m.as_str(), b.as_str(), Ghost(s));
            string_push(&mut out, ',');
            push_str(&mut out, crate::util::fmt_decimal(cell).as_str());
            assert(out@ =~= cells_start + pivot_cells(flows@, *range, m@, bk.take(j + 1)));
            j += 1;
        }
        assert(bk.take(nb as int) =~= bk);
        string_push(&mut out, '\n');
        assert(out@ =~= head + pivot_lines(flows@, *range, mk.take(i + 1), bk));
        i += 1;
    }
    assert(mk.take(nm as int) =~= mk);
    out
}

// ---------------------------------------------------------------------------
// Where an asset bucket's money is
// ---------------------------------------------------------------------------

/// The accounts among `keys` whose amount's sign flag is `neg`, in order:
/// with `false` where the money is held, with `true` where it was spent from.
pub open spec fn signed_keys(keys: Seq<Seq<char>>, m: Map<Seq<char>, (int, nat, bool)>, neg: bool) -> Seq<Seq<char>>
    decreases keys.len(),
{
    if keys.len() == 0 {
        Seq::empty()
    } else {
        let t = signed_keys(keys.drop_last(), m, neg);
        if m[keys.last()].2 == neg {
            t.push(keys.last())
        } else {
            t
        }
    }
}

/// The amounts of `keys`, added left to right from zero.
pub open spec fn group_sum(m: Map<Seq<char>, (int, nat, bool)>, keys: Seq<Seq<char>>) -> (int, nat, bool)
    decreases keys.len(),
{
    if keys.len() == 0 {
        (0, 0, false)
    } else {
        crate::amount::decimal_sum(group_sum(m, keys.drop_last()), m[keys.last()])
    }
}

/// The same sum, exactly (units).
pub open spec fn group_units(m: Map<Seq<char>, (int, nat, bool)>, keys: Seq<Seq<char>>) -> int
    decreases keys.len(),
{
    if keys.len() == 0 {
        0
    } else {
        group_units(m, keys.drop_last()) + view_units(m[keys.last()])
    }
}

/// Sum of the sizes (units) of the amounts of `keys`.
pub open spec fn keys_magnitude(m: Map<Seq<char>, (int, nat, bool)>, keys: Seq<Seq<char>>) -> int
    decreases keys.len(),
{
    if keys.len() == 0 {
        0
    } else {
        keys_magnitude(m, keys.drop_last()) + abs_int(view_units(m[keys.last()]))
    }
}

/// The amounts of a location map have at most `s` digits after the point
/// and their sizes add up within a 96-bit mantissa at that scale.
pub open spec fn locations_ok(loc: StrMap<Amount>) -> bool {
    exists|s: nat|
        s <= 28 && (forall|k: Seq<char>| #[trigger] loc@.contains_key(k) ==> loc@[k]@.1 <= s) && fits_at(
            keys_magnitude(amount_views(loc@), loc.keys()),
            s,
        )
}

/// `account: amount currency` lines of `keys`.
pub open spec fn location_lines(m: Map<Seq<char>, (int, nat, bool)>, keys: Seq<Seq<char>>, currency: Seq<char>) -> Seq<
    char,
>
    decreases keys.len(),
{
    if keys.len() == 0 {
        Seq::empty()
    } else {
        location_lines(m, keys.drop_last(), currency) + shorten_account_spec(keys.last()) + ": "@
            + fmt_text(m[keys.last()]) + seq![' '] + currency + seq!['\n']
    }
}

/// Where the money is held, unless the bucket is overspent.
pub open spec fn held_part(
    target: Seq<char>,
    currency: Seq<char>,
    m: Map<Seq<char>, (int, nat, bool)>,
    remain: (int, nat, bool),
) -> Seq<char> {
    let h = signed_keys(crate::strmap::sorted_dom(m.dom()), m, false);
    if h.len() > 0 && !remain.2 {
        seq!['\n'] + "资金存放"@ + "（截至 "@ + target + "）:\n"@ + location_lines(m, h, currency)
    } else {
        Seq::empty()
    }
}

/// Where the money was spent from.
pub open spec fn source_part(target: Seq<char>, currency: Seq<char>, m: Map<Seq<char>, (int, nat, bool)>) -> Seq<
    char,
> {
    let so = signed_keys(crate::strmap::sorted_dom(m.dom()), m, true);
    if so.len() > 0 {
        seq!['\n'] + "支出来源"@ + "（截至 "@ + target + "）:\n"@ + location_lines(m, so, currency)
    } else {
        Seq::empty()
    }
}

/// What was spent: the sum of both totals, negated, when both kinds of
/// account occur and it is not zero.
pub open spec fn spent_part(target: Seq<char>, currency: Seq<char>, m: Map<Seq<char>, (int, nat, bool)>) -> Seq<
    char,
> {
    let keys = crate::strmap::sorted_dom(m.dom());
    let h = signed_keys(keys, m, false);
    let so = signed_keys(keys, m, true);
    let spent = crate::amount::decimal_sum(group_sum(m, so), group_sum(m, h));
    if spent.0 != 0 && h.len() > 0 && so.len() > 0 {
        seq!['\n'] + "已支出"@ + "（截至 "@ + target + "）: "@ + fmt_text((-spent.0, spent.1, !spent.2))
            + seq![' '] + currency + " ← 资金存放与支出来源的差额\n"@
    } else {
        Seq::empty()
    }
}

/// The note that there are no locations (never for a non-empty map).
pub open spec fn none_part(target: Seq<char>, m: Map<Seq<char>, (int, nat, bool)>) -> Seq<char> {
    let keys = crate::strmap::sorted_dom(m.dom());
    if signed_keys(keys, m, false).len() == 0 && signed_keys(keys, m, true).len() == 0 {
        seq!['\n'] + "资产位置"@ + "（截至 "@ + target + "）:\n"@ + "(无资产位置数据)\n"@
    } else {
        Seq::empty()
    }
}

/// The location view of the terminal reports: where the money is held
/// (unless the bucket is overspent), where it was spent from, what was spent
/// (the two totals' difference, when both kinds of account occur), or a note
/// that there are none; nothing for an empty map.
pub open spec fn asset_locations_view(
    target: Seq<char>,
    currency: Seq<char>,
    m: Map<Seq<char>, (int, nat, bool)>,
    remain: (int, nat, bool),
) -> Seq<char> {
    if m.dom() == Set::<Seq<char>>::empty() {
        Seq::empty()
    } else {
        held_part(target, currency, m, remain) + source_part(target, currency, m) + spent_part(
            target,
            currency,
            m,
        ) + none_part(target, m)
    }
}

proof fn lemma_keys_magnitude_prefix(m: Map<Seq<char>, (int, nat, bool)>, keys: Seq<Seq<char>>, i: int)
    requires
        0 <= i <= keys.len(),
    ensures
        0 <= keys_magnitude(m, keys.take(i)) <= keys_magnitude(m, keys),
    decreases keys.len() - i,
{
    if i < keys.len() {
        lemma_keys_magnitude_prefix(m, keys, i + 1);
        assert(keys.take(i + 1).drop_last() =~= keys.take(i));
    } else {
        assert(keys.take(i) =~= keys);
    }
    lemma_keys_magnitude_nonneg(m, keys.take(i));
}

proof fn lemma_keys_magnitude_nonneg(m: Map<Seq<char>, (int, nat, bool)>, keys: Seq<Seq<char>>)
    ensures
        keys_magnitude(m, keys) >= 0,
    decreases keys.len(),
{
    if keys.len() > 0 {
        lemma_keys_magnitude_nonneg(m, keys.drop_last());
    }
}

/// The held and the spent-from totals of a location map, with the numbers
/// of accounts of each kind.
fn location_totals(loc: &StrMap<Amount>) -> (r: (Amount, Amount, usize, usize))
    requires
        locations_ok(*loc),
    ensures
        r.0@ == group_sum(amount_views(loc@), signed_keys(loc.keys(), amount_views(loc@), false)),
        r.1@ == group_sum(amount_views(loc@), signed_keys(loc.keys(), amount_views(loc@), true)),
        r.2 == signed_keys(loc.keys(), amount_views(loc@), false).len(),
        r.3 == signed_keys(loc.keys(), amount_views(loc@), true).len(),
        fits_at(
            r.1.units() + r.0.units(),
            crate::amount::max_nat(r.1@.1, r.0@.1),
        ),
{
    let ghost s: nat = choose|s: nat|
        s <= 28 && (forall|k: Seq<char>| #[trigger] loc@.contains_key(k) ==> loc@[k]@.1 <= s) && fits_at(
            keys_magnitude(amount_views(loc@), loc.keys()),
            s,
        );
    let ghost m = amount_views(loc@);
    let ghost keys = loc.keys();
    let n = loc.len();
    let mut h = Amount::zero();
    let mut so = Amount::zero();
    let mut nh: usize = 0;
    let mut ns: usize = 0;
    let mut i: usize = 0;
    proof {
        assert(keys.take(0) =~= Seq::<Seq<char>>::empty());
        lemma_keys_magnitude_nonneg(m, keys);
    }
    while i < n
        invariant
            n == keys.len(),
            keys == loc.keys(),
            loc.well_ordered(),
            s <= 28,
            m == amount_views(loc@),
            forall|k: Seq<char>| #[trigger] loc@.contains_key(k) ==> loc@[k]@.1 <= s,
            fits_at(keys_magnitude(m, keys), s),
            i <= n,
            h@ == group_sum(m, signed_keys(keys.take(i as int), m, false)),
            so@ == group_sum(m, signed_keys(keys.take(i as int), m, true)),
            h.units() == group_units(m, signed_keys(keys.take(i as int), m, false)),
            so.units() == group_units(m, signed_keys(keys.take(i as int), m, true)),
            nh == signed_keys(keys.take(i as int), m, false).len(),
            ns == signed_keys(keys.take(i as int), m, true).len(),
            nh + ns == i,
            abs_int(h.units()) + abs_int(so.units()) <= keys_magnitude(m, keys.take(i as int)),
            h@.1 <= s,
            so@.1 <= s,
        decreases n - i,
    {
        let k = loc.key_at(i);
        let v = *loc.value_at(i);
        let ghost th = signed_keys(keys.take(i as int), m, false);
        let ghost ts = signed_keys(keys.take(i as int), m, true);
        proof {
            loc.lemma_index(i as int);
            assert(keys.take(i + 1).drop_last() =~= keys.take(i as int));
            assert(keys.take(i + 1).last() == k@);
            assert(th.push(k@).drop_last() =~= th);
            assert(ts.push(k@).drop_last() =~= ts);
            lemma_keys_magnitude_prefix(m, keys, i + 1);
        }
        if v.is_sign_negative() {
            proof {
                crate::budget::lemma_fits_mono(
                    keys_magnitude(m, keys),
                    so.units() + v.units(),
                    crate::amount::max_nat(so@.1, v@.1),
                    s,
                );
            }
            so = crate::amount::decimal_add(so, v);
            ns = ns + 1;
        } else {
            proof {
                crate::budget::lemma_fits_mono(
                    keys_magnitude(m, keys),
                    h.units() + v.units(),
                    crate::amount::max_nat(h@.1, v@.1),
                    s,
                );
            }
            h = crate::amount::decimal_add(h, v);
            nh = nh + 1;
        }
        i += 1;
    }
    proof {
        assert(keys.take(n as int) =~= keys);
        crate::budget::lemma_fits_mono(
            keys_magnitude(m, keys),
            so.units() + h.units(),
            crate::amount::max_nat(so@.1, h@.1),
            s,
        );
    }
    (h, so, nh, ns)
}

/// Appends the `account: amount currency` lines of the accounts whose sign
/// flag is `neg`.
fn push_location_lines(out: &mut String, loc: &StrMap<Amount>, neg: bool, currency: &str)
    ensures
        final(out)@ == old(out)@ + location_lines(
            amount_views(loc@),
            signed_keys(loc.keys(), amount_views(loc@), neg),
            currency@,
        ),
{
    let ghost m = amount_views(loc@);
    let ghost keys = loc.keys();
    let n = loc.len();
    let mut i: usize = 0;
    assert(keys.take(0) =~= Seq::<Seq<char>>::empty());
    while i < n
        invariant
            n == keys.len(),
            keys == loc.keys(),
            m == amount_views(loc@),
            loc.well_ordered(),
            i <= n,
            out@ == old(out)@ + location_lines(m, signed_keys(keys.take(i as int), m, neg), currency@),
        decreases n - i,
    {
        let k = loc.key_at(i);
        let v = *loc.value_at(i);
        let ghost t = signed_keys(keys.take(i as int), m, neg);
        proof {
            loc.lemma_index(i as int);
            assert(keys.take(i + 1).drop_last() =~= keys.take(i as int));
            assert(keys.take(i + 1).last() == k@);
            assert(t.push(k@).drop_last() =~= t);
        }
        if v.is_sign_negative() == neg {
            push_str(out, crate::util::shorten_account_label(k.as_str()).as_str());
            push_str(out, ": ");
            push_str(out, crate::util::fmt_decimal(v).as_str());
            string_push(out, ' ');
            push_str(out, currency);
            string_push(out, '\n');
            proof {
                reveal_strlit(": ");
            }
            assert(out@ =~= old(out)@ + location_lines(m, signed_keys(keys.take(i + 1), m, neg), currency@));
        }
        i += 1;
    }
    assert(keys.take(n as int) =~= keys);
}

/// Appends `\n<title>（截至 <month>）` and the rest of the heading line.
fn push_location_heading(out: &mut String, title: &str, target_month: &str, tail: &str)
    ensures
        final(out)@ == old(out)@ + seq!['\n'] + title@ + "（截至 "@ + target_month@ + tail@,
{
    string_push(out, '\n');
    push_str(out, title);
    push_str(out, "（截至 ");
    push_str(out, target_month);
    push_str(out, tail);
    assert(out@ =~= old(out)@ + seq!['\n'] + title@ + "（截至 "@ + target_month@ + tail@);
}

/// Appends where an asset bucket's money is (see [`asset_locations_view`]).
fn push_held_and_sources(
    out: &mut String,
    target_month: &str,
    currency: &str,
    locations: &StrMap<Amount>,
    remain: Amount,
    nh: usize,
    ns: usize,
)
    requires
        locations.keys() == crate::strmap::sorted_dom(amount_views(locations@).dom()),
        nh == signed_keys(locations.keys(), amount_views(locations@), false).len(),
        ns == signed_keys(locations.keys(), amount_views(locations@), true).len(),
    ensures
        final(out)@ == old(out)@ + held_part(target_month@, currency@, amount_views(locations@), remain@)
            + source_part(target_month@, currency@, amount_views(locations@)),
{
    proof {
        reveal_strlit("资金存放");
        reveal_strlit("支出来源");
        reveal_strlit("）:\n");
    }
    if nh > 0 && !remain.is_sign_negative() {
        push_location_heading(out, "资金存放", target_month, "）:\n");
        push_location_lines(out, locations, false, currency);
    }
    let ghost p1 = out@;
    if ns > 0 {
        push_location_heading(out, "支出来源", target_month, "）:\n");
        push_location_lines(out, locations, true, currency);
    }
    assert(p1 =~= old(out)@ + held_part(target_month@, currency@, amount_views(locations@), remain@));
    assert(out@ =~= p1 + source_part(target_month@, currency@, amount_views(locations@)));
}

fn push_spent_and_none(
    out: &mut String,
    target_month: &str,
    currency: &str,
    locations: &StrMap<Amount>,
    h: Amount,
    so: Amount,
    nh: usize,
    ns: usize,
)
    requires
        locations.keys() == crate::strmap::sorted_dom(amount_views(locations@).dom()),
        h@ == group_sum(amount_views(locations@), signed_keys(locations.keys(), amount_views(locations@), false)),
        so@ == group_sum(amount_views(locations@), signed_keys(locations.keys(), amount_views(locations@), true)),
        nh == signed_keys(locations.keys(), amount_views(locations@), false).len(),
        ns == signed_keys(locations.keys(), amount_views(locations@), true).len(),
        fits_at(so.units() + h.units(), crate::amount::max_nat(so@.1, h@.1)),
    ensures
        final(out)@ == old(out)@ + spent_part(target_month@, currency@, amount_views(locations@))
            + none_part(target_month@, amount_views(locations@)),
{
    proof {
        reveal_strlit("已支出");
        reveal_strlit("资产位置");
        reveal_strlit("）:\n");
        reveal_strlit("）: ");
        reveal_strlit(" ← 资金存放与支出来源的差额\n");
        reveal_strlit("(无资产位置数据)\n");
    }
    let spent = crate::amount::decimal_add(so, h);
    if !spent.is_zero() && nh > 0 && ns > 0 {
        push_location_heading(out, "已支出", target_month, "）: ");
        push_str(out, crate::util::fmt_decimal(spent.neg()).as_str());
        string_push(out, ' ');
        push_str(out, currency);
        push_str(out, " ← 资金存放与支出来源的差额\n");
    }
    let ghost p1 = out@;
    if nh == 0 && ns == 0 {
        push_location_heading(out, "资产位置", target_month, "）:\n");
        push_str(out, "(无资产位置数据)\n");
    }
    assert(p1 =~= old(out)@ + spent_part(target_month@, currency@, amount_views(locations@)));
    assert(out@ =~= p1 + none_part(target_month@, amount_views(locations@)));
}

/// Appends where an asset bucket's money is (see [`asset_locations_view`]).
pub fn append_asset_locations_view(
    out: &mut String,
    target_month: &str,
    currency: &str,
    locations: &StrMap<Amount>,
    remain: Amount,
)
    requires
        locations_ok(*locations),
    ensures
        final(out)@ == old(out)@ + asset_locations_view(
            target_month@,
            currency@,
            amount_views(locations@),
            remain@,
        ),
{
    let _ = locations.len();
    proof {
        locations.lemma_keys_sorted();
        assert(amount_views(locations@).dom() =~= locations@.dom());
    }
    if locations.is_empty() {
        assert(old(out)@ + asset_locations_view(
            target_month@,
            currency@,
            amount_views(locations@),
            remain@,
        ) =~= out@);
        return ;
    }
    let (h, so, nh, ns) = location_totals(locations);
    push_held_and_sources(out, target_month, currency, locations, remain, nh, ns);
    push_spent_and_none(out, target_month, currency, locations, h, so, nh, ns);
    proof {
        assert(locations@.contains_key(locations.keys()[0]));
        assert(amount_views(locations@).dom() != Set::<Seq<char>>::empty());
    }
    assert(out@ =~= old(out)@ + asset_locations_view(
        target_month@,
        currency@,
        amount_views(locations@),
        remain@,
    ));
}

/// `| account | amount |` rows of `keys`.
pub open spec fn md_location_rows(m: Map<Seq<char>, (int, nat, bool)>, keys: Seq<Seq<char>>) -> Seq<char>
    decreases keys.len(),
{
    if keys.len() == 0 {
        Seq::empty()
    } else {
        md_location_rows(m, keys.drop_last()) + "| "@ + shorten_account_spec(keys.last()) + " | "@
            + fmt_text(m[keys.last()]) + " |\n"@
    }
}

/// Appends the `| account | amount |` rows of the accounts among `loc`'s
/// whose sign flag is `neg` (`all`: of every account).
pub(crate) fn push_md_location_rows(out: &mut String, loc: &StrMap<Amount>, all: bool, neg: bool)
    ensures
        all ==> final(out)@ == old(out)@ + md_location_rows(amount_views(loc@), loc.keys()),
        !all ==> final(out)@ == old(out)@ + md_location_rows(
            amount_views(loc@),
            signed_keys(loc.keys(), amount_views(loc@), neg),
        ),
{
    let ghost m = amount_views(loc@);
    let ghost keys = loc.keys();
    let n = loc.len();
    let mut i: usize = 0;
    assert(keys.take(0) =~= Seq::<Seq<char>>::empty());
    proof {
        reveal_strlit("| ");
        reveal_strlit(" | ");
        reveal_strlit(" |\n");
    }
    while i < n
        invariant
            n == keys.len(),
            keys == loc.keys(),
            m == amount_views(loc@),
            loc.well_ordered(),
            i <= n,
            all ==> out@ == old(out)@ + md_location_rows(m, keys.take(i as int)),
            !all ==> out@ == old(out)@ + md_location_rows(m, signed_keys(keys.take(i as int), m, neg)),
        decreases n - i,
    {
        let k = loc.key_at(i);
        let v = *loc.value_at(i);
        let ghost t = signed_keys(keys.take(i as int), m, neg);
        proof {
            loc.lemma_index(i as int);
            assert(keys.take(i + 1).drop_last() =~= keys.take(i as int));
            assert(keys.take(i + 1).last() == k@);
            assert(t.push(k@).drop_last() =~= t);
        }
        if all || v.is_sign_negative() == neg {
            push_str(out, "| ");
            push_str(out, crate::util::shorten_account_label(k.as_str()).as_str());
            push_str(out, " | ");
            push_str(out, crate::util::fmt_decimal(v).as_str());
            push_str(out, " |\n");
        }
        proof {
            if all {
                assert(out@ =~= old(out)@ + md_location_rows(m, keys.take(i + 1)));
            } else {
                assert(out@ =~= old(out)@ + md_location_rows(m, signed_keys(keys.take(i + 1), m, neg)));
            }
        }
        i += 1;
    }
    assert(keys.take(n as int) =~= keys);
}

/// The location report of a bucket as Markdown: every account with its
/// amount, or a row saying there are none.
pub open spec fn asset_locations_markdown(
    bucket: Seq<char>,
    target: Seq<char>,
    currency: Seq<char>,
    m: Map<Seq<char>, (int, nat, bool)>,
) -> Seq<char> {
    "# 资产位置报告："@ + bucket + "\n\n- 截至月份: `"@ + target + "`\n- 币种: `"@ + currency
        + "`\n\n| 账户 | 金额 |\n|---|---:|\n"@ + if m.dom() == Set::<Seq<char>>::empty() {
        "| (无资产位置数据) | 0.00 |\n"@
    } else {
        md_location_rows(m, crate::strmap::sorted_dom(m.dom()))
    }
}

/// The location report of a bucket as Markdown.
pub fn render_asset_locations_markdown(
    bucket: &str,
    target_month: &str,
    currency: &str,
    locations: &StrMap<Amount>,
) -> (r: String)
    ensures
        r@ == asset_locations_markdown(bucket@, target_month@, currency@, amount_views(locations@)),
{
    let _ = locations.len();
    proof {
        locations.lemma_keys_sorted();
        assert(amount_views(locations@).dom() =~= locations@.dom());
        if locations.keys().len() > 0 {
            assert(locations@.contains_key(locations.keys()[0]));
        } else {
            assert(locations@.dom() =~= Set::<Seq<char>>::empty());
        }
    }
    let mut out = String::new();
    push_str(&mut out, "# 资产位置报告：");
    push_str(&mut out, bucket);
    push_str(&mut out, "\n\n- 截至月份: `");
    push_str(&mut out, target_month);
    push_str(&mut out, "`\n- 币种: `");
    push_str(&mut out, currency);
    push_str(&mut out, "`\n\n| 账户 | 金额 |\n|---|---:|\n");
    proof {
        reveal_strlit("# 资产位置报告：");
        reveal_strlit("\n\n- 截至月份: `");
        reveal_strlit("`\n- 币种: `");
        reveal_strlit("`\n\n| 账户 | 金额 |\n|---|---:|\n");
        reveal_strlit("| (无资产位置数据) | 0.00 |\n");
    }
    if locations.is_empty() {
        push_str(&mut out, "| (无资产位置数据) | 0.00 |\n");
    } else {
        push_md_location_rows(&mut out, locations, true, false);
    }
    assert(out@ =~= asset_locations_markdown(
        bucket@,
        target_month@,
        currency@,
        amount_views(locations@),
    ));
    out
}

// ---------------------------------------------------------------------------
// A bucket month by month
// ---------------------------------------------------------------------------

/// The planned amounts of month `m` (when in scope), added left to right
/// from zero.
pub open spec fn month_planned(d: Seq<BudgetDirective>, target: Seq<char>, scope: ReportScope, m: Seq<char>) -> (
    int,
    nat,
    bool,
)
    decreases d.len(),
{
    if d.len() == 0 {
        (0, 0, false)
    } else {
        let acc = month_planned(d.drop_last(), target, scope, m);
        if month_in_scope(d.last().month@, target, scope) && d.last().month@ == m {
            crate::amount::decimal_sum(acc, d.last().amount@)
        } else {
            acc
        }
    }
}

/// The same sum, exactly (units).
pub open spec fn month_planned_units(
    d: Seq<BudgetDirective>,
    target: Seq<char>,
    scope: ReportScope,
    m: Seq<char>,
) -> int
    decreases d.len(),
{
    if d.len() == 0 {
        0
    } else {
        month_planned_units(d.drop_last(), target, scope, m) + if month_in_scope(
            d.last().month@,
            target,
            scope,
        ) && d.last().month@ == m {
            d.last().amount.units()
        } else {
            0
        }
    }
}

/// The actual amounts of month `m` (when in scope), added left to right
/// from zero.
pub open spec fn month_actual(f: Seq<BucketTxFlow>, target: Seq<char>, scope: ReportScope, m: Seq<char>) -> (
    int,
    nat,
    bool,
)
    decreases f.len(),
{
    if f.len() == 0 {
        (0, 0, false)
    } else {
        let acc = month_actual(f.drop_last(), target, scope, m);
        if month_in_scope(f.last().month@, target, scope) && f.last().month@ == m {
            crate::amount::decimal_sum(acc, actual_view(f.last()@))
        } else {
            acc
        }
    }
}

/// The same sum, exactly (units).
pub open spec fn month_actual_units(f: Seq<BucketTxFlow>, target: Seq<char>, scope: ReportScope, m: Seq<char>) -> int
    decreases f.len(),
{
    if f.len() == 0 {
        0
    } else {
        month_actual_units(f.drop_last(), target, scope, m) + if month_in_scope(
            f.last().month@,
            target,
            scope,
        ) && f.last().month@ == m {
            actual_units(f.last())
        } else {
            0
        }
    }
}

/// The months in scope of the directives and flows.
pub open spec fn scoped_months(
    d: Seq<BudgetDirective>,
    f: Seq<BucketTxFlow>,
    target: Seq<char>,
    scope: ReportScope,
) -> Set<Seq<char>> {
    Set::new(
        |m: Seq<char>|
            (exists|i: int| 0 <= i < d.len() && month_in_scope(d[i].month@, target, scope) && #[trigger] d[i].month@ == m)
                || (exists|j: int|
                0 <= j < f.len() && month_in_scope(f[j].month@, target, scope) && #[trigger] f[j].month@ == m),
    )
}

/// The line of one month: planned, actual and their difference, in the
/// words of the bucket's kind.
pub open spec fn monthly_line(
    kind: BucketKind,
    m: Seq<char>,
    p: (int, nat, bool),
    a: (int, nat, bool),
    currency: Seq<char>,
) -> Seq<char> {
    let r = crate::amount::decimal_difference(p, a);
    match kind {
        BucketKind::Expense => m + "：预算收入 "@ + fmt_text(p) + seq![' '] + currency + "，支出 "@ + fmt_text(a)
            + seq![' '] + currency + "，结余 "@ + fmt_text(r) + seq![' '] + currency + seq!['\n'],
        BucketKind::Asset => m + "：预算存入目标 "@ + fmt_text(p) + seq![' '] + currency + "，实际存入 "@
            + fmt_text(a) + seq![' '] + currency + "，差额 "@ + fmt_text(r) + seq![' '] + currency + seq![
            '\n',
        ],
    }
}

/// The lines of `months`.
pub open spec fn monthly_lines(
    d: Seq<BudgetDirective>,
    f: Seq<BucketTxFlow>,
    target: Seq<char>,
    scope: ReportScope,
    kind: BucketKind,
    currency: Seq<char>,
    months: Seq<Seq<char>>,
) -> Seq<char>
    decreases months.len(),
{
    if months.len() == 0 {
        Seq::empty()
    } else {
        let m = months.last();
        monthly_lines(d, f, target, scope, kind, currency, months.drop_last()) + monthly_line(
            kind,
            m,
            month_planned(d, target, scope, m),
            month_actual(f, target, scope, m),
            currency,
        )
    }
}

/// The month-by-month view of a bucket: a line per month in scope, in order.
pub open spec fn monthly_view(
    bucket: Seq<char>,
    kind: BucketKind,
    target: Seq<char>,
    scope: ReportScope,
    currency: Seq<char>,
    d: Seq<BudgetDirective>,
    f: Seq<BucketTxFlow>,
) -> Seq<char> {
    seq!['\n'] + bucket + " 分月视图:\n"@ + monthly_lines(
        d,
        f,
        target,
        scope,
        kind,
        currency,
        crate::strmap::sorted_dom(scoped_months(d, f, target, scope)),
    )
}

/// The directives' and flows' months can be tested against `target`, and
/// their amounts add up exactly.
pub open spec fn view_inputs_ok(
    d: Seq<BudgetDirective>,
    f: Seq<BucketTxFlow>,
    target: Seq<char>,
    scope: ReportScope,
) -> bool {
    &&& crate::budget::months_comparable(d, f, target, scope)
    &&& exists|s: nat| crate::budget::totals_fit(d, f, s)
}

fn month_sums(
    directives: &Vec<BudgetDirective>,
    flows: &Vec<BucketTxFlow>,
    target_month: &str,
    scope: ReportScope,
    m: &str,
    Ghost(s): Ghost<nat>,
) -> (r: (Amount, Amount, Amount))
    requires
        crate::budget::months_comparable(directives@, flows@, target_month@, scope),
        crate::budget::totals_fit(directives@, flows@, s),
    ensures
        r.0@ == month_planned(directives@, target_month@, scope, m@),
        r.1@ == month_actual(flows@, target_month@, scope, m@),
        r.2@ == crate::amount::decimal_difference(r.0@, r.1@),
{
    let ghost d = directives@;
    let ghost f = flows@;
    let mut p = Amount::zero();
    let mut j: usize = 0;
    proof {
        assert(d.take(0) =~= Seq::<BudgetDirective>::empty());
        crate::budget::lemma_flows_magnitude_nonneg(f);
        crate::budget::lemma_dirs_magnitude_nonneg(d);
    }
    while j < directives.len()
        invariant
            d == directives@,
            f == flows@,
            crate::budget::months_comparable(d, f, target_month@, scope),
            crate::budget::totals_fit(d, f, s),
            crate::budget::flows_magnitude(f) >= 0,
            j <= d.len(),
            p@ == month_planned(d.take(j as int), target_month@, scope, m@),
            p.units() == month_planned_units(d.take(j as int), target_month@, scope, m@),
            abs_int(p.units()) <= crate::budget::dirs_magnitude(d.take(j as int)),
            p@.1 <= s,
        decreases d.len() - j,
    {
        let item = &directives[j];
        proof {
            assert(d.take(j + 1).drop_last() =~= d.take(j as int));
            assert(d.take(j + 1).last() == d[j as int]);
            crate::budget::lemma_dirs_magnitude_prefix(d, j + 1);
        }
        if is_month_in_scope(item.month.as_str(), target_month, scope) && crate::text::str_eq(
            item.month.as_str(),
            m,
        ) {
            proof {
                assert(item.amount@.1 <= s);
                crate::budget::lemma_fits_mono(
                    crate::budget::dirs_magnitude(d) + crate::budget::flows_magnitude(f),
                    p.units() + item.amount.units(),
                    crate::amount::max_nat(p@.1, item.amount@.1),
                    s,
                );
            }
            p = crate::amount::decimal_add(p, item.amount);
        }
        j += 1;
    }
    let mut a = Amount::zero();
    let mut k: usize = 0;
    proof {
        assert(d.take(d.len() as int) =~= d);
        assert(f.take(0) =~= Seq::<BucketTxFlow>::empty());
    }
    while k < flows.len()
        invariant
            d == directives@,
            f == flows@,
            crate::budget::months_comparable(d, f, target_month@, scope),
            crate::budget::totals_fit(d, f, s),
            crate::budget::dirs_magnitude(d) >= 0,
            k <= f.len(),
            a@ == month_actual(f.take(k as int), target_month@, scope, m@),
            a.units() == month_actual_units(f.take(k as int), target_month@, scope, m@),
            abs_int(a.units()) <= crate::budget::flows_magnitude(f.take(k as int)),
            a@.1 <= s,
        decreases f.len() - k,
    {
        let g = &flows[k];
        proof {
            assert(f.take(k + 1).drop_last() =~= f.take(k as int));
            assert(f.take(k + 1).last() == f[k as int]);
            crate::budget::lemma_flows_magnitude_prefix(f, k + 1);
        }
        if is_month_in_scope(g.month.as_str(), target_month, scope) && crate::text::str_eq(
            g.month.as_str(),
            m,
        ) {
            let x = g.actual_amount();
            proof {
                assert(g.flow@.1 <= s);
                crate::budget::lemma_fits_mono(
                    crate::budget::dirs_magnitude(d) + crate::budget::flows_magnitude(f),
                    a.units() + x.units(),
                    crate::amount::max_nat(a@.1, x@.1),
                    s,
                );
            }
            a = crate::amount::decimal_add(a, x);
        }
        k += 1;
    }
    proof {
        assert(f.take(f.len() as int) =~= f);
        crate::budget::lemma_fits_mono(
            crate::budget::dirs_magnitude(d) + crate::budget::flows_magnitude(f),
            p.units() - a.units(),
            crate::amount::max_nat(p@.1, a@.1),
            s,
        );
    }
    let r = crate::amount::decimal_sub(p, a);
    (p, a, r)
}

/// The months in scope of the directives and flows, as a set-like map.
fn scoped_month_keys(
    directives: &Vec<BudgetDirective>,
    flows: &Vec<BucketTxFlow>,
    target_month: &str,
    scope: ReportScope,
) -> (r: StrMap<()>)
    requires
        crate::budget::months_comparable(directives@, flows@, target_month@, scope),
    ensures
        r@.dom() == scoped_months(directives@, flows@, target_month@, scope),
{
    let ghost d = directives@;
    let ghost f = flows@;
    let mut keys: StrMap<()> = StrMap::new();
    let mut i: usize = 0;
    while i < directives.len()
        invariant
            d == directives@,
            f == flows@,
            crate::budget::months_comparable(d, f, target_month@, scope),
            i <= d.len(),
            forall|x: Seq<char>| #[trigger]
                keys@.contains_key(x) <==> exists|k: int|
                    0 <= k < i && month_in_scope(d[k].month@, target_month@, scope) && d[k].month@ == x,
        decreases d.len() - i,
    {
        let item = &directives[i];
        let ghost before = keys@;
        if is_month_in_scope(item.month.as_str(), target_month, scope) {
            keys.insert(item.month.clone(), ());
        }
        proof {
            assert forall|x: Seq<char>| #[trigger]
                keys@.contains_key(x) <==> exists|k: int|
                    0 <= k < i + 1 && month_in_scope(d[k].month@, target_month@, scope) && d[k].month@ == x by {
                if before.contains_key(x) {
                    let k = choose|k: int|
                        0 <= k < i && month_in_scope(d[k].month@, target_month@, scope) && d[k].month@ == x;
                    assert(0 <= k < i + 1);
                }
            }
        }
        i += 1;
    }
    let mut j: usize = 0;
    while j < flows.len()
        invariant
            d == directives@,
            f == flows@,
            crate::budget::months_comparable(d, f, target_month@, scope),
            j <= f.len(),
            forall|x: Seq<char>| #[trigger]
                keys@.contains_key(x) <==> (exists|k: int|
                    0 <= k < d.len() && month_in_scope(d[k].month@, target_month@, scope) && d[k].month@ == x)
                    || (exists|k: int|
                    0 <= k < j && month_in_scope(f[k].month@, target_month@, scope) && f[k].month@ == x),
        decreases f.len() - j,
    {
        let g = &flows[j];
        let ghost before = keys@;
        if is_month_in_scope(g.month.as_str(), target_month, scope) {
            keys.insert(g.month.clone(), ());
        }
        proof {
            assert forall|x: Seq<char>| #[trigger]
                keys@.contains_key(x) <==> (exists|k: int|
                    0 <= k < d.len() && month_in_scope(d[k].month@, target_month@, scope) && d[k].month@ == x)
                    || (exists|k: int|
                    0 <= k < j + 1 && month_in_scope(f[k].month@, target_month@, scope) && f[k].month@ == x) by {
                if before.contains_key(x) {
                    if exists|k: int|
                        0 <= k < j && month_in_scope(f[k].month@, target_month@, scope) && f[k].month@ == x {
                        let k = choose|k: int|
                            0 <= k < j && month_in_scope(f[k].month@, target_month@, scope) && f[k].month@ == x;
                        assert(0 <= k < j + 1);
                    }
                }
                if keys@.contains_key(x) && !before.contains_key(x) {
                    assert(f[j as int].month@ == x);
                }
            }
        }
        j += 1;
    }
    proof {
        assert forall|x: Seq<char>|
            keys@.dom().contains(x) == scoped_months(d, f, target_month@, scope).contains(x) by {
            if keys@.contains_key(x) {
                if exists|k: int|
                    0 <= k < d.len() && month_in_scope(d[k].month@, target_month@, scope) && d[k].month@ == x {
                    let k = choose|k: int|
                        0 <= k < d.len() && month_in_scope(d[k].month@, target_month@, scope) && d[k].month@ == x;
                    assert(d[k].month@ == x);
                } else {
                    let k = choose|k: int|
                        0 <= k < f.len() && month_in_scope(f[k].month@, target_month@, scope) && f[k].month@ == x;
                    assert(f[k].month@ == x);
                }
            }
        }
        assert(keys@.dom() =~= scoped_months(d, f, target_month@, scope));
    }
    keys
}

fn push_monthly_line(
    out: &mut String,
    kind: BucketKind,
    m: &str,
    p: Amount,
    a: Amount,
    r: Amount,
    currency: &str,
)
    requires
        r@ == crate::amount::decimal_difference(p@, a@),
    ensures
        final(out)@ == old(out)@ + monthly_line(kind, m@, p@, a@, currency@),
{
    let (l1, l2, l3) = match kind {
        BucketKind::Expense => ("：预算收入 ", "，支出 ", "，结余 "),
        BucketKind::Asset => ("：预算存入目标 ", "，实际存入 ", "，差额 "),
    };
    push_str(out, m);
    push_str(out, l1);
    push_str(out, crate::util::fmt_decimal(p).as_str());
    string_push(out, ' ');
    push_str(out, currency);
    push_str(out, l2);
    push_str(out, crate::util::fmt_decimal(a).as_str());
    string_push(out, ' ');
    push_str(out, currency);
    push_str(out, l3);
    push_str(out, crate::util::fmt_decimal(r).as_str());
    string_push(out, ' ');
    push_str(out, currency);
    string_push(out, '\n');
    assert(out@ =~= old(out)@ + monthly_line(kind, m@, p@, a@, currency@));
}

/// Appends a bucket's month-by-month view: for each month in scope, in
/// order, what was planned, what was spent (or, for an asset bucket,
/// deposited) and the difference.
#[verifier::rlimit(60)]
pub fn append_bucket_monthly_view(
    out: &mut String,
    bucket: &str,
    bucket_kind: BucketKind,
    target_month: &str,
    scope: ReportScope,
    currency: &str,
    directives: &Vec<BudgetDirective>,
    flows: &Vec<BucketTxFlow>,
)
    requires
        view_inputs_ok(directives@, flows@, target_month@, scope),
    ensures
        final(out)@ == old(out)@ + monthly_view(
            bucket@,
            bucket_kind,
            target_month@,
            scope,
            currency@,
            directives@,
            flows@,
        ),
{
    let ghost s: nat = choose|s: nat| crate::budget::totals_fit(directives@, flows@, s);
    let months = scoped_month_keys(directives, flows, target_month, scope);
    let n = months.len();
    let ghost mk = months.keys();
    proof {
        months.lemma_keys_sorted();
        reveal_strlit(" 分月视图:\n");
    }
    string_push(out, '\n');
    push_str(out, bucket);
    push_str(out, " 分月视图:\n");
    let ghost head = out@;
    let mut i: usize = 0;
    assert(mk.take(0) =~= Seq::<Seq<char>>::empty());
    while i < n
        invariant
            n == mk.len(),
            mk == months.keys(),
            crate::budget::months_comparable(directives@, flows@, target_month@, scope),
            crate::budget::totals_fit(directives@, flows@, s),
            i <= n,
            out@ == head + monthly_lines(
                directives@,
                flows@,
                target_month@,
                scope,
                bucket_kind,
                currency@,
                mk.take(i as int),
            ),
        decreases n - i,
    {
        let m = months.key_at(i);
        proof {
            assert(mk.take(i + 1).drop_last() =~= mk.take(i as int));
            assert(mk.take(i + 1).last() == m@);
        }
        let (p, a, r) = month_sums(directives, flows, target_month, scope, m.as_str(), Ghost(s));
        push_monthly_line(out, bucket_kind, m.as_str(), p, a, r, currency);
        i += 1;
    }
    assert(mk.take(n as int) =~= mk);
}

} // verus!
