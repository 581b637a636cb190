//! The comparison of two periods' totals, bucket by bucket.
use vstd::prelude::*;

use crate::amount::Amount;
use crate::budget::BucketSummary;
use crate::cli::{range_display, DateRange};
use crate::report::{
    dashes, fmt_text, left_aligned, push_dashes, push_left, push_right, remain_fits, right_aligned,
    sort_key_of, strings_view, SortKey,
};
use crate::strmap::{sorted_dom, StrMap};
use crate::text::{push_str, string_push};
use crate::util::parent_bucket_spec;

verus! {

broadcast use vstd::string::group_string_axioms;

/// A bucket is compared unless its parent has a total in either period.
pub open spec fn compared(
    cur: Map<Seq<char>, BucketSummary>,
    other: Map<Seq<char>, BucketSummary>,
    b: Seq<char>,
) -> bool {
    match parent_bucket_spec(b) {
        Some(p) => !(cur.contains_key(p) || other.contains_key(p)),
        None => true,
    }
}

/// The buckets compared: those of either period whose parent has no total.
pub open spec fn compared_buckets(cur: Map<Seq<char>, BucketSummary>, other: Map<Seq<char>, BucketSummary>) -> Set<
    Seq<char>,
> {
    Set::new(
        |b: Seq<char>| (cur.contains_key(b) || other.contains_key(b)) && compared(cur, other, b),
    )
}

/// A period's totals of a bucket, zero where it has none.
pub open spec fn totals_or_zero(m: Map<Seq<char>, BucketSummary>, b: Seq<char>) -> (
    (int, nat, bool),
    (int, nat, bool),
) {
    if m.contains_key(b) {
        (m[b].planned@, m[b].actual@)
    } else {
        ((0, 0, false), (0, 0, false))
    }
}

/// The amount the rows are ordered by: the current period's planned or
/// actual amount, or its remainder (units).
pub open spec fn compare_value(cur: Map<Seq<char>, BucketSummary>, key: SortKey, b: Seq<char>) -> int {
    if cur.contains_key(b) {
        match key {
            SortKey::Planned => cur[b].planned.units(),
            SortKey::Actual => cur[b].actual.units(),
            SortKey::Remain => cur[b].planned.units() - cur[b].actual.units(),
            SortKey::Name => 0,
        }
    } else {
        0
    }
}

/// Position of the first row that the value `v` goes before: a smaller
/// value when sorting down, a larger one when sorting up.
pub open spec fn first_beyond(
    t: Seq<Seq<char>>,
    cur: Map<Seq<char>, BucketSummary>,
    key: SortKey,
    v: int,
    down: bool,
) -> int
    decreases t.len(),
{
    if t.len() == 0 {
        0
    } else if (if down {
        compare_value(cur, key, t[0]) < v
    } else {
        compare_value(cur, key, t[0]) > v
    }) {
        0
    } else {
        1 + first_beyond(t.drop_first(), cur, key, v, down)
    }
}

/// The rows sorted by value, down or up, rows of equal value in their given
/// order (a stable sort).
pub open spec fn stable_sorted(
    s: Seq<Seq<char>>,
    cur: Map<Seq<char>, BucketSummary>,
    key: SortKey,
    down: bool,
) -> Seq<Seq<char>>
    decreases s.len(),
{
    if s.len() == 0 {
        Seq::empty()
    } else {
        let t = stable_sorted(s.drop_last(), cur, key, down);
        t.insert(first_beyond(t, cur, key, compare_value(cur, key, s.last()), down), s.last())
    }
}

/// The compared buckets in row order: by name; by the current planned or
/// actual amount, largest first; or by the current remainder, smallest
/// first.
pub open spec fn compare_rows_order(
    cur: Map<Seq<char>, BucketSummary>,
    other: Map<Seq<char>, BucketSummary>,
    sort_by: Option<Seq<char>>,
) -> Seq<Seq<char>> {
    let keys = sorted_dom(compared_buckets(cur, other));
    match sort_key_of(sort_by) {
        SortKey::Name => keys,
        SortKey::Remain => stable_sorted(keys, cur, SortKey::Remain, false),
        k => stable_sorted(keys, cur, k, true),
    }
}

/// The current period's columns of a row: `{:<16} {:>10} {:>10} {:>10} | `.
pub open spec fn compare_left(c1: Seq<char>, c2: Seq<char>, c3: Seq<char>, c4: Seq<char>) -> Seq<char> {
    left_aligned(c1, 16) + seq![' '] + right_aligned(c2, 10) + seq![' '] + right_aligned(c3, 10)
        + seq![' '] + right_aligned(c4, 10) + seq![' ', '|', ' ']
}

/// The other period's columns and the difference: `{:>10} {:>10} {:>10} |
/// {:>10}` and the line end.
pub open spec fn compare_right(c5: Seq<char>, c6: Seq<char>, c7: Seq<char>, c8: Seq<char>) -> Seq<
    char,
> {
    right_aligned(c5, 10) + seq![' '] + right_aligned(c6, 10) + seq![' '] + right_aligned(c7, 10)
        + seq![' ', '|', ' '] + right_aligned(c8, 10) + seq!['\n']
}

/// A row of the comparison:
/// `{:<16} {:>10} {:>10} {:>10} | {:>10} {:>10} {:>10} | {:>10}`.
pub open spec fn compare_row(
    c1: Seq<char>,
    c2: Seq<char>,
    c3: Seq<char>,
    c4: Seq<char>,
    c5: Seq<char>,
    c6: Seq<char>,
    c7: Seq<char>,
    c8: Seq<char>,
) -> Seq<char> {
    compare_left(c1, c2, c3, c4) + compare_right(c5, c6, c7, c8)
}

/// The row of one bucket: planned, actual and remainder of each period, then
/// the difference in spending (this period's actual minus the other's).
pub open spec fn bucket_compare_row(
    cur: Map<Seq<char>, BucketSummary>,
    other: Map<Seq<char>, BucketSummary>,
    b: Seq<char>,
) -> Seq<char> {
    let c = totals_or_zero(cur, b);
    let p = totals_or_zero(other, b);
    compare_row(
        b,
        fmt_text(c.0),
        fmt_text(c.1),
        fmt_text(crate::amount::decimal_difference(c.0, c.1)),
        fmt_text(p.0),
        fmt_text(p.1),
        fmt_text(crate::amount::decimal_difference(p.0, p.1)),
        fmt_text(crate::amount::decimal_difference(c.1, p.1)),
    )
}

/// The rows of `order`.
pub open spec fn compare_rows(
    cur: Map<Seq<char>, BucketSummary>,
    other: Map<Seq<char>, BucketSummary>,
    order: Seq<Seq<char>>,
) -> Seq<char>
    decreases order.len(),
{
    if order.len() == 0 {
        Seq::empty()
    } else {
        compare_rows(cur, other, order.drop_last()) + bucket_compare_row(cur, other, order.last())
    }
}

/// The comparison report: title, the two ranges and the currency, column
/// titles, a rule and a row per compared bucket.
pub open spec fn compare_report(
    cur_range: DateRange,
    cur: StrMap<BucketSummary>,
    other_range: DateRange,
    other: StrMap<BucketSummary>,
    currency: Seq<char>,
    sort_by: Option<Seq<char>>,
) -> Seq<char> {
    "预算对比报告\n本期: "@ + range_display(cur_range) + "  对比: "@ + range_display(other_range) + "  ["@
        + currency + seq![']', '\n'] + compare_row(
        "预算桶"@,
        "月预算"@,
        "已支出"@,
        "结余"@,
        "月预算"@,
        "已支出"@,
        "结余"@,
        "差异"@,
    ) + dashes(87) + seq!['\n'] + compare_rows(cur@, other@, compare_rows_order(cur@, other@, sort_by))
}

fn push_compare_left(out: &mut String, c1: &str, c2: &str, c3: &str, c4: &str)
    ensures
        final(out)@ == old(out)@ + compare_left(c1@, c2@, c3@, c4@),
{
    push_left(out, c1, 16);
    string_push(out, ' ');
    push_right(out, c2, 10);
    string_push(out, ' ');
    push_right(out, c3, 10);
    string_push(out, ' ');
    push_right(out, c4, 10);
    string_push(out, ' ');
    string_push(out, '|');
    string_push(out, ' ');
    assert(out@ =~= old(out)@ + compare_left(c1@, c2@, c3@, c4@));
}

fn push_compare_right(out: &mut String, c5: &str, c6: &str, c7: &str, c8: &str)
    ensures
        final(out)@ == old(out)@ + compare_right(c5@, c6@, c7@, c8@),
{
    push_right(out, c5, 10);
    string_push(out, ' ');
    push_right(out, c6, 10);
    string_push(out, ' ');
    push_right(out, c7, 10);
    string_push(out, ' ');
    string_push(out, '|');
    string_push(out, ' ');
    push_right(out, c8, 10);
    string_push(out, '\n');
    assert(out@ =~= old(out)@ + compare_right(c5@, c6@, c7@, c8@));
}

fn push_compare_row(
    out: &mut String,
    c1: &str,
    c2: &str,
    c3: &str,
    c4: &str,
    c5: &str,
    c6: &str,
    c7: &str,
    c8: &str,
)
    ensures
        final(out)@ == old(out)@ + compare_row(c1@, c2@, c3@, c4@, c5@, c6@, c7@, c8@),
{
    push_compare_left(out, c1, c2, c3, c4);
    push_compare_right(out, c5, c6, c7, c8);
    assert(out@ =~= old(out)@ + compare_row(c1@, c2@, c3@, c4@, c5@, c6@, c7@, c8@));
}

/// A period's totals of a bucket, zero where it has none.
fn totals_of(m: &StrMap<BucketSummary>, b: &str) -> (r: (Amount, Amount))
    ensures
        (r.0@, r.1@) == totals_or_zero(m@, b@),
        m@.contains_key(b@) ==> r.0 == m@[b@].planned && r.1 == m@[b@].actual,
        !m@.contains_key(b@) ==> r.0.units() == 0 && r.1.units() == 0,
{
    match m.get(b) {
        Some(e) => (e.planned, e.actual),
        None => (Amount::zero(), Amount::zero()),
    }
}

/// Every remainder of the map can be computed exactly.
pub open spec fn remains_fit(m: StrMap<BucketSummary>) -> bool {
    forall|k: Seq<char>| #[trigger] m@.contains_key(k) ==> remain_fits(m@[k])
}

fn remain_of(p: Amount, a: Amount, Ghost(m): Ghost<StrMap<BucketSummary>>, Ghost(b): Ghost<Seq<char>>) -> (r: Amount)
    requires
        remains_fit(m),
        (p@, a@) == totals_or_zero(m@, b),
        m@.contains_key(b) ==> p == m@[b].planned && a == m@[b].actual,
        !m@.contains_key(b) ==> p.units() == 0 && a.units() == 0,
    ensures
        r@ == crate::amount::decimal_difference(p@, a@),
        r.units() == p.units() - a.units(),
{
    proof {
        if !m@.contains_key(b) {
            crate::amount::lemma_pow10_pos(28);
            assert(crate::amount::fits_at(0, 0));
        } else {
            assert(remain_fits(m@[b]));
        }
    }
    crate::amount::decimal_sub(p, a)
}

/// The change in spending of every bucket both periods have can be computed
/// exactly.
pub open spec fn spending_changes_fit(cur: StrMap<BucketSummary>, other: StrMap<BucketSummary>) -> bool {
    forall|k: Seq<char>|
        #[trigger] cur@.contains_key(k) && other@.contains_key(k) ==> crate::amount::fits_at(
            cur@[k].actual.units() - other@[k].actual.units(),
            crate::amount::max_nat(cur@[k].actual@.1, other@[k].actual@.1),
        )
}

/// Whether every remainder of the map can be computed exactly (see
/// [`remains_fit`]).
fn remains_ok(m: &StrMap<BucketSummary>) -> (r: bool)
    ensures
        r == remains_fit(*m),
{
    let n = m.len();
    let mut i: usize = 0;
    while i < n
        invariant
            n == m.keys().len(),
            m.well_ordered(),
            i <= n,
            forall|j: int| 0 <= j < i ==> remain_fits(m@[#[trigger] m.keys()[j]]),
        decreases n - i,
    {
        let e = m.value_at(i);
        proof {
            m.lemma_shape();
            m.lemma_index(i as int);
        }
        if !crate::fit::diff_fits(e.planned, e.actual) {
            return false;
        }
        i += 1;
    }
    proof {
        m.lemma_keys_sorted();
        assert forall|k: Seq<char>| #[trigger] m@.contains_key(k) implies remain_fits(m@[k]) by {
            assert(m.keys().to_set().contains(k));
            let j = m.keys().index_of(k);
            assert(m.keys()[j] == k);
        }
    }
    true
}

/// Whether every change in spending can be computed exactly (see
/// [`spending_changes_fit`]).
fn changes_ok(cur: &StrMap<BucketSummary>, other: &StrMap<BucketSummary>) -> (r: bool)
    ensures
        r == spending_changes_fit(*cur, *other),
{
    let n = cur.len();
    let mut i: usize = 0;
    while i < n
        invariant
            n == cur.keys().len(),
            cur.well_ordered(),
            i <= n,
            forall|j: int|
                0 <= j < i && #[trigger] other@.contains_key(cur.keys()[j])
                    ==> crate::amount::fits_at(
                    cur@[cur.keys()[j]].actual.units() - other@[cur.keys()[j]].actual.units(),
                    crate::amount::max_nat(
                        cur@[cur.keys()[j]].actual@.1,
                        other@[cur.keys()[j]].actual@.1,
                    ),
                ),
        decreases n - i,
    {
        let k = cur.key_at(i);
        let e = cur.value_at(i);
        proof {
            cur.lemma_shape();
            cur.lemma_index(i as int);
        }
        match other.get(k.as_str()) {
            Some(o) => {
                if !crate::fit::diff_fits(e.actual, o.actual) {
                    return false;
                }
            },
            None => {},
        }
        i += 1;
    }
    proof {
        cur.lemma_keys_sorted();
        assert forall|k: Seq<char>| #[trigger]
            cur@.contains_key(k) && other@.contains_key(k) implies crate::amount::fits_at(
            cur@[k].actual.units() - other@[k].actual.units(),
            crate::amount::max_nat(cur@[k].actual@.1, other@[k].actual@.1),
        ) by {
            assert(cur.keys().to_set().contains(k));
            let j = cur.keys().index_of(k);
            assert(cur.keys()[j] == k);
        }
    }
    true
}

/// Whether the totals of both periods meet the requirements of
/// [`render_compare_report_text`]: every remainder and every change in
/// spending can be computed exactly.  The program checks this first.
pub fn compare_inputs_ok(cur: &StrMap<BucketSummary>, other: &StrMap<BucketSummary>) -> (r: bool)
    ensures
        r == (remains_fit(*cur) && remains_fit(*other) && spending_changes_fit(*cur, *other)),
{
    let a = remains_ok(cur);
    let b = remains_ok(other);
    let c = changes_ok(cur, other);
    a && b && c
}

fn spending_change(
    ca: Amount,
    pa: Amount,
    Ghost(cur): Ghost<StrMap<BucketSummary>>,
    Ghost(other): Ghost<StrMap<BucketSummary>>,
    Ghost(b): Ghost<Seq<char>>,
) -> (r: Amount)
    requires
        spending_changes_fit(cur, other),
        ca@ == totals_or_zero(cur@, b).1,
        pa@ == totals_or_zero(other@, b).1,
        cur@.contains_key(b) ==> ca == cur@[b].actual,
        other@.contains_key(b) ==> pa == other@[b].actual,
        !cur@.contains_key(b) ==> ca.units() == 0,
        !other@.contains_key(b) ==> pa.units() == 0,
    ensures
        r@ == crate::amount::decimal_difference(ca@, pa@),
{
    ca.check_valid();
    pa.check_valid();
    proof {
        if !(cur@.contains_key(b) && other@.contains_key(b)) {
            crate::amount::lemma_valid_fits(ca);
            crate::amount::lemma_valid_fits(pa);
            crate::amount::lemma_pow10_pos(28);
        }
    }
    crate::amount::decimal_sub(ca, pa)
}

fn push_bucket_compare_row(
    out: &mut String,
    cur: &StrMap<BucketSummary>,
    other: &StrMap<BucketSummary>,
    b: &str,
)
    requires
        remains_fit(*cur),
        remains_fit(*other),
        spending_changes_fit(*cur, *other),
    ensures
        final(out)@ == old(out)@ + bucket_compare_row(cur@, other@, b@),
{
    let (cp, ca) = totals_of(cur, b);
    let cr = remain_of(cp, ca, Ghost(*cur), Ghost(b@));
    let (pp, pa) = totals_of(other, b);
    let pr = remain_of(pp, pa, Ghost(*other), Ghost(b@));
    let diff = spending_change(ca, pa, Ghost(*cur), Ghost(*other), Ghost(b@));
    push_compare_row(
        out,
        b,
        crate::util::fmt_decimal(cp).as_str(),
        crate::util::fmt_decimal(ca).as_str(),
        crate::util::fmt_decimal(cr).as_str(),
        crate::util::fmt_decimal(pp).as_str(),
        crate::util::fmt_decimal(pa).as_str(),
        crate::util::fmt_decimal(pr).as_str(),
        crate::util::fmt_decimal(diff).as_str(),
    );
}

/// Inserts the compared buckets of `m` into `keys`.
fn insert_compared(
    keys: &mut StrMap<()>,
    m: &StrMap<BucketSummary>,
    cur: &StrMap<BucketSummary>,
    other: &StrMap<BucketSummary>,
)
    ensures
        forall|x: Seq<char>| #[trigger]
            final(keys)@.contains_key(x) <==> old(keys)@.contains_key(x) || (m@.contains_key(x)
                && compared(cur@, other@, x)),
{
    let n = m.len();
    let ghost mk = m.keys();
    let mut i: usize = 0;
    while i < n
        invariant
            n == mk.len(),
            mk == m.keys(),
            m.well_ordered(),
            i <= n,
            forall|x: Seq<char>| #[trigger]
                keys@.contains_key(x) <==> old(keys)@.contains_key(x) || (exists|k: int|
                    0 <= k < i && mk[k] == x && compared(cur@, other@, x)),
        decreases n - i,
    {
        let b = m.key_at(i);
        let keep = match crate::util::parent_bucket(b.as_str()) {
            Some(p) => !(cur.contains_key(p) || other.contains_key(p)),
            None => true,
        };
        if keep {
            keys.insert(b.clone(), ());
        }
        proof {
            assert forall|x: Seq<char>| #[trigger]
                keys@.contains_key(x) <==> old(keys)@.contains_key(x) || (exists|k: int|
                    0 <= k < i + 1 && mk[k] == x && compared(cur@, other@, x)) by {
                if exists|k: int| 0 <= k < i && mk[k] == x && compared(cur@, other@, x) {
                    let k = choose|k: int| 0 <= k < i && mk[k] == x && compared(cur@, other@, x);
                    assert(0 <= k < i + 1);
                }
                if exists|k: int| 0 <= k < i + 1 && mk[k] == x && compared(cur@, other@, x) {
                    let k = choose|k: int| 0 <= k < i + 1 && mk[k] == x && compared(cur@, other@, x);
                    if k == i {
                        assert(keep);
                    }
                }
            }
        }
        i += 1;
    }
    proof {
        m.lemma_keys_sorted();
        assert forall|x: Seq<char>| #[trigger]
            keys@.contains_key(x) <==> old(keys)@.contains_key(x) || (m@.contains_key(x) && compared(
                cur@,
                other@,
                x,
            )) by {
            if m@.contains_key(x) {
                assert(mk.to_set().contains(x));
                assert(mk.contains(x));
            }
            if exists|k: int| 0 <= k < n && mk[k] == x && compared(cur@, other@, x) {
                let k = choose|k: int| 0 <= k < n && mk[k] == x && compared(cur@, other@, x);
                m.lemma_index(k);
            }
        }
    }
}

/// The value a row is ordered by, as an amount.
fn value_of(cur: &StrMap<BucketSummary>, b: &str, key: SortKey) -> (r: Amount)
    requires
        remains_fit(*cur),
    ensures
        r.units() == compare_value(cur@, key, b@),
{
    let (p, a) = totals_of(cur, b);
    match key {
        SortKey::Planned => p,
        SortKey::Actual => a,
        SortKey::Remain => remain_of(p, a, Ghost(*cur), Ghost(b@)),
        SortKey::Name => Amount::zero(),
    }
}

/// The buckets in the order of [`compare_rows_order`].
fn compare_order(
    cur: &StrMap<BucketSummary>,
    other: &StrMap<BucketSummary>,
    sort_by: Option<&str>,
) -> (r: Vec<String>)
    requires
        remains_fit(*cur),
    ensures
        strings_view(r@) == compare_rows_order(cur@, other@, crate::util::opt_view(sort_by)),
{
    let mut keys: StrMap<()> = StrMap::new();
    insert_compared(&mut keys, cur, cur, other);
    insert_compared(&mut keys, other, cur, other);
    let n = keys.len();
    let ghost kk = keys.keys();
    proof {
        keys.lemma_keys_sorted();
        assert(keys@.dom() =~= compared_buckets(cur@, other@));
    }
    let mut vis: Vec<String> = Vec::new();
    let mut i: usize = 0;
    assert(strings_view(vis@) =~= kk.take(0));
    while i < n
        invariant
            n == kk.len(),
            kk == keys.keys(),
            i <= n,
            strings_view(vis@) == kk.take(i as int),
        decreases n - i,
    {
        let k = keys.key_at(i);
        let ghost before = vis@;
        vis.push(k.clone());
        assert(strings_view(vis@) =~= strings_view(before).push(k@));
        assert(kk.take(i + 1) =~= kk.take(i as int).push(kk[i as int]));
        i += 1;
    }
    assert(kk.take(n as int) =~= kk);
    let key = crate::report::sort_key(sort_by);
    if key == SortKey::Name {
        return vis;
    }
    let down = key != SortKey::Remain;
    let ghost v = strings_view(vis@);
    let mut out: Vec<String> = Vec::new();
    let mut t: usize = 0;
    assert(strings_view(out@) =~= stable_sorted(v.take(0), cur@, key, down));
    while t < vis.len()
        invariant
            v == strings_view(vis@),
            remains_fit(*cur),
            key != SortKey::Name,
            down == (key != SortKey::Remain),
            t <= vis.len(),
            strings_view(out@) == stable_sorted(v.take(t as int), cur@, key, down),
        decreases vis.len() - t,
    {
        let x = &vis[t];
        let xv = value_of(cur, x.as_str(), key);
        let ghost sorted = strings_view(out@);
        let ghost target = compare_value(cur@, key, x@);
        let mut j: usize = 0;
        assert(sorted.skip(0) =~= sorted);
        while j < out.len()
            invariant
                j <= out.len(),
                sorted == strings_view(out@),
                remains_fit(*cur),
                xv.units() == target,
                first_beyond(sorted, cur@, key, target, down) == j + first_beyond(
                    sorted.skip(j as int),
                    cur@,
                    key,
                    target,
                    down,
                ),
            ensures
                j <= out.len(),
                first_beyond(sorted, cur@, key, target, down) == j,
            decreases out.len() - j,
        {
            let yv = value_of(cur, out[j].as_str(), key);
            proof {
                assert(sorted.skip(j as int)[0] == out@[j as int]@);
                assert(sorted.skip(j as int).drop_first() =~= sorted.skip(j + 1));
            }
            let beyond = if down {
                crate::amount::decimal_gt(xv, yv)
            } else {
                crate::amount::decimal_gt(yv, xv)
            };
            if beyond {
                break ;
            }
            j += 1;
        }
        proof {
            assert(v.take(t + 1).drop_last() =~= v.take(t as int));
            assert(v.take(t + 1).last() == x@);
        }
        out.insert(j, x.clone());
        proof {
            assert(strings_view(out@) =~= sorted.insert(j as int, x@));
        }
        t += 1;
    }
    proof {
        assert(v.take(vis.len() as int) =~= v);
    }
    out
}

/// The comparison of two periods (see [`compare_report`]).
pub fn render_compare_report_text(
    cur_range: &DateRange,
    cur_summaries: &StrMap<BucketSummary>,
    cur_warnings: &crate::scoped::WarningStats,
    other_range: &DateRange,
    other_summaries: &StrMap<BucketSummary>,
    other_warnings: &crate::scoped::WarningStats,
    currency: &str,
    sort_by: Option<&str>,
) -> (r: String)
    requires
        remains_fit(*cur_summaries),
        remains_fit(*other_summaries),
        spending_changes_fit(*cur_summaries, *other_summaries),
    ensures
        r@ == compare_report(
            *cur_range,
            *cur_summaries,
            *other_range,
            *other_summaries,
            currency@,
            crate::util::opt_view(sort_by),
        ),
{
    let order = compare_order(cur_summaries, other_summaries, sort_by);
    let mut out = String::new();
    push_str(&mut out, "预算对比报告\n本期: ");
    push_str(&mut out, cur_range.display().as_str());
    push_str(&mut out, "  对比: ");
    push_str(&mut out, other_range.display().as_str());
    push_str(&mut out, "  [");
    push_str(&mut out, currency);
    string_push(&mut out, ']');
    string_push(&mut out, '\n');
    push_compare_row(
        &mut out,
        "预算桶",
        "月预算",
        "已支出",
        "结余",
        "月预算",
        "已支出",
        "结余",
        "差异",
    );
    push_dashes(&mut out, 87);
    string_push(&mut out, '\n');
    let ghost head = out@;
    let ghost ord = strings_view(order@);
    let mut i: usize = 0;
    assert(ord.take(0) =~= Seq::<Seq<char>>::empty());
    while i < order.len()
        invariant
            ord == strings_view(order@),
            remains_fit(*cur_summaries),
            remains_fit(*other_summaries),
            spending_changes_fit(*cur_summaries, *other_summaries),
            i <= order.len(),
            out@ == head + compare_rows(cur_summaries@, other_summaries@, ord.take(i as int)),
        decreases order.len() - i,
    {
        proof {
            assert(ord.take(i + 1).drop_last() =~= ord.take(i as int));
            assert(ord.take(i + 1).last() == order@[i as int]@);
        }
        push_bucket_compare_row(&mut out, cur_summaries, other_summaries, order[i].as_str());
        i += 1;
    }
    assert(ord.take(order.len() as int) =~= ord);
    proof {
        reveal_strlit("预算对比报告\n本期: ");
        reveal_strlit("  对比: ");
        reveal_strlit("  [");
        reveal_strlit("预算桶");
        reveal_strlit("月预算");
        reveal_strlit("已支出");
        reveal_strlit("结余");
        reveal_strlit("差异");
    }
    assert(out@ =~= compare_report(
        *cur_range,
        *cur_summaries,
        *other_range,
        *other_summaries,
        currency@,
        crate::util::opt_view(sort_by),
    ));
    out
}

} // verus!
