//! The budget engine: money flows per bucket, and the totals per bucket.
//!
//! Each transaction is mapped to the buckets it concerns (by its `budget`
//! metadata, or by its expense accounts), giving one [`BucketTxFlow`] per
//! bucket.  [`summarize_buckets`] then adds planned and actual amounts per
//! bucket, and every bucket's totals include those of the buckets under it.
use vstd::prelude::*;

use crate::amount::{
    abs_int, decimal_add, decimal_difference, decimal_div, decimal_from_str, decimal_gt,
    decimal_mul, decimal_parse, decimal_sub,
    decimal_product, decimal_quotient, decimal_round_dp, decimal_rounded, decimal_sum, fits_at,
    is_ascii_digit, lemma_nonzero_magnitude, lemma_pow10_add, lemma_pow10_mono, lemma_pow10_pos,
    mantissa_bound, max_nat, pow10, view_units, Amount,
};
use crate::ledger::{posting_views, string_views, tx_views, LedgerTransaction, PostingView, TxView};
use crate::cli::opt_seq;
use crate::strmap::sorted_dom;
use crate::config::{bucket_by_account_spec, resolve_bucket_by_account};
use crate::text::{
    chars_find, chars_trim, chars_trim_end, first_index_of, lemma_first_index_of, slice_chars,
    starts_with, str_chars, str_starts_with, string_from_chars, trim, trim_end,
};
use crate::ledger::chars_views;
use crate::util::{is_target_currency, is_target_currency_spec};
use crate::config::{bucket_kind_spec, is_tracking_spec, BucketKind, BudgetDirective, BudgetMappings};
use crate::strmap::StrMap;
use crate::text::is_within;
use crate::util::{
    date_before, date_lt, is_month_in_scope, lemma_parent_bucket, lemma_within_nested,
    lemma_within_shape, month_in_scope, month_of_date, month_of_date_spec, month_scope_ok,
    parent_bucket, parent_bucket_spec, LedgerDate, ReportScope,
};

verus! {

broadcast use vstd::string::group_string_axioms;

// ---------------------------------------------------------------------------
// Data
// ---------------------------------------------------------------------------

/// What one transaction moves for one bucket.
#[derive(Debug)]
pub struct BucketTxFlow {
    pub date: LedgerDate,
    /// Month `YYYY-MM` of the transaction.
    pub month: String,
    pub bucket: String,
    pub kind: BucketKind,
    /// Signed effect on the bucket: spending is negative for an expense
    /// bucket, a deposit positive for an asset bucket.
    pub flow: Amount,
    pub payee: Option<String>,
    pub narration: Option<String>,
    /// For asset buckets: account → change of the money held there.
    pub location_deltas: StrMap<Amount>,
    /// The transaction's metadata (searched by the keyword filter).
    pub metadata: StrMap<String>,
}

/// The kinds are the same.
pub fn same_kind(a: BucketKind, b: BucketKind) -> (r: bool)
    ensures
        r == (a == b),
{
    match (a, b) {
        (BucketKind::Expense, BucketKind::Expense) => true,
        (BucketKind::Asset, BucketKind::Asset) => true,
        _ => false,
    }
}

/// The actual amount of a flow, as units: spending counts positive for an
/// expense bucket, deposits positive for an asset bucket.
pub open spec fn actual_units(f: BucketTxFlow) -> int {
    match f.kind {
        BucketKind::Expense => -f.flow.units(),
        BucketKind::Asset => f.flow.units(),
    }
}

impl BucketTxFlow {
    /// The flow's effect on the bucket's balance: `-flow` for an expense
    /// bucket, `flow` for an asset bucket.
    pub fn actual_amount(&self) -> (r: Amount)
        ensures
            r.units() == actual_units(*self),
            r@.1 == self.flow@.1,
            r@ == (match self.kind {
                BucketKind::Expense => (-self.flow@.0, self.flow@.1, !self.flow@.2),
                BucketKind::Asset => self.flow@,
            }),
    {
        match self.kind {
            BucketKind::Expense => self.flow.neg(),
            BucketKind::Asset => self.flow,
        }
    }
}

/// Planned and actual totals of one bucket.
#[derive(Clone, Copy, Debug)]
pub struct BucketSummary {
    pub planned: Amount,
    pub actual: Amount,
}

// ---------------------------------------------------------------------------
// Totals per bucket
// ---------------------------------------------------------------------------

/// A directive counts for `target`/`scope`.
pub open spec fn dir_counts(d: BudgetDirective, target: Seq<char>, scope: ReportScope) -> bool {
    month_in_scope(d.month@, target, scope)
}

/// A flow counts: in scope, and of the kind its bucket is configured with.
pub open spec fn flow_counts(
    f: BucketTxFlow,
    target: Seq<char>,
    scope: ReportScope,
    m: BudgetMappings,
) -> bool {
    month_in_scope(f.month@, target, scope) && f.kind == bucket_kind_spec(m, f.bucket@)
}

/// What a directive or flow of bucket `x` adds to: `x` and every bucket over
/// it, except that a tracking bucket rolls up no further than its tracking
/// buckets (it never reaches a bucket outside tracking).
pub open spec fn rolls_into(m: BudgetMappings, k: Seq<char>, x: Seq<char>) -> bool {
    is_within(k, x) && (is_tracking_spec(m, x) ==> is_tracking_spec(m, k))
}

/// Planned amounts, as units, of the counted directives of buckets within `b`.
pub open spec fn planned_within(
    d: Seq<BudgetDirective>,
    target: Seq<char>,
    scope: ReportScope,
    m: BudgetMappings,
    b: Seq<char>) -> int
    decreases d.len(),
{
    if d.len() == 0 {
        0
    } else {
        planned_within(d.drop_last(), target, scope, m, b) + if dir_counts(d.last(), target, scope)
            && rolls_into(m, b, d.last().bucket@) {
            d.last().amount.units()
        } else {
            0
        }
    }
}

/// Actual amounts, as units, of the counted flows of buckets within `b`.
pub open spec fn actual_within(
    f: Seq<BucketTxFlow>,
    target: Seq<char>,
    scope: ReportScope,
    m: BudgetMappings,
    b: Seq<char>,
) -> int
    decreases f.len(),
{
    if f.len() == 0 {
        0
    } else {
        actual_within(f.drop_last(), target, scope, m, b) + if flow_counts(
            f.last(),
            target,
            scope,
            m,
        ) && rolls_into(m, b, f.last().bucket@) {
            actual_units(f.last())
        } else {
            0
        }
    }
}

/// Some counted directive or flow lies within `b`: `b` has a total.
pub open spec fn has_total(
    d: Seq<BudgetDirective>,
    f: Seq<BucketTxFlow>,
    target: Seq<char>,
    scope: ReportScope,
    m: BudgetMappings,
    b: Seq<char>,
) -> bool {
    ||| exists|i: int|
        0 <= i < d.len() && dir_counts(#[trigger] d[i], target, scope) && rolls_into(m, b, d[i].bucket@)
    ||| exists|j: int|
        0 <= j < f.len() && flow_counts(#[trigger] f[j], target, scope, m) && rolls_into(m, b, f[j].bucket@)
}

/// A bucket that only begins with the letters of `b` (`生活费用` for
/// `生活费`) does not lie within `b`.
proof fn lemma_not_within_without_dot(b: Seq<char>, rest: Seq<char>)
    requires
        rest.len() > 0,
        rest[0] != '.',
    ensures
        !is_within(b, b + rest),
{
    if is_within(b, b + rest) {
        crate::util::lemma_within_shape(b, b + rest);
        assert((b + rest)[b.len() as int] == rest[0]);
    }
}

/// Parent totals add up their children: with no tracking buckets
/// configured, a directive in scope of `b`, or of a bucket under `b` (`b`, a
/// dot and more), adds its amount to the planned total of `b`; one out of
/// scope, or of a bucket that only begins with the letters of `b`, adds
/// nothing.
pub proof fn lemma_directive_rolls_up(
    d: Seq<BudgetDirective>,
    x: BudgetDirective,
    target: Seq<char>,
    scope: ReportScope,
    m: BudgetMappings,
    b: Seq<char>,
    rest: Seq<char>,
)
    requires
        m.tracking_buckets.len() == 0,
    ensures
        month_in_scope(x.month@, target, scope) && (x.bucket@ == b || x.bucket@ == b + seq!['.']
            + rest) ==> planned_within(d.push(x), target, scope, m, b) == planned_within(
            d,
            target,
            scope,
            m,
            b,
        ) + x.amount.units(),
        !month_in_scope(x.month@, target, scope) ==> planned_within(d.push(x), target, scope, m, b)
            == planned_within(d, target, scope, m, b),
        rest.len() > 0 && rest[0] != '.' && x.bucket@ == b + rest ==> planned_within(
            d.push(x),
            target,
            scope,
            m,
            b,
        ) == planned_within(d, target, scope, m, b),
{
    assert(d.push(x).drop_last() =~= d);
    assert(d.push(x).last() == x);
    assert(!is_tracking_spec(m, x.bucket@));
    crate::util::lemma_within_is_dotted_descent(b, x.bucket@);
    if x.bucket@ == b + seq!['.'] + rest {
        assert(is_within(b, x.bucket@));
    }
    if rest.len() > 0 && rest[0] != '.' && x.bucket@ == b + rest {
        lemma_not_within_without_dot(b, rest);
    }
}

/// The same for spending and asset flows: with no tracking buckets
/// configured, a flow in scope of `b` or of a bucket under it, whose kind is
/// the kind configured for its bucket, adds to the actual total of `b` the
/// money spent (minus the flow) for an expense flow and the money put in
/// (the flow) for an asset flow; a flow of the other kind, or out of scope,
/// adds nothing.
pub proof fn lemma_flow_rolls_up(
    f: Seq<BucketTxFlow>,
    x: BucketTxFlow,
    target: Seq<char>,
    scope: ReportScope,
    m: BudgetMappings,
    b: Seq<char>,
    rest: Seq<char>,
)
    requires
        m.tracking_buckets.len() == 0,
    ensures
        month_in_scope(x.month@, target, scope) && x.kind == bucket_kind_spec(m, x.bucket@) && (
        x.bucket@ == b || x.bucket@ == b + seq!['.'] + rest) ==> actual_within(
            f.push(x),
            target,
            scope,
            m,
            b,
        ) == actual_within(f, target, scope, m, b) + (if x.kind == BucketKind::Expense {
            -x.flow.units()
        } else {
            x.flow.units()
        }),
        !month_in_scope(x.month@, target, scope) || x.kind != bucket_kind_spec(m, x.bucket@)
            ==> actual_within(f.push(x), target, scope, m, b) == actual_within(f, target, scope, m, b),
{
    assert(f.push(x).drop_last() =~= f);
    assert(f.push(x).last() == x);
    assert(!is_tracking_spec(m, x.bucket@));
    crate::util::lemma_within_is_dotted_descent(b, x.bucket@);
    if x.bucket@ == b + seq!['.'] + rest {
        assert(is_within(b, x.bucket@));
    }
}

/// Sum of the magnitudes (units) of the directives' amounts.
pub open spec fn dirs_magnitude(d: Seq<BudgetDirective>) -> int
    decreases d.len(),
{
    if d.len() == 0 {
        0
    } else {
        dirs_magnitude(d.drop_last()) + abs_int(d.last().amount.units())
    }
}

/// Sum of the magnitudes (units) of the flows' amounts.
pub open spec fn flows_magnitude(f: Seq<BucketTxFlow>) -> int
    decreases f.len(),
{
    if f.len() == 0 {
        0
    } else {
        flows_magnitude(f.drop_last()) + abs_int(f.last().flow.units())
    }
}

/// Every directive amount has at most `s` digits after the point.
pub open spec fn dirs_scale_at_most(d: Seq<BudgetDirective>, s: nat) -> bool {
    forall|i: int| 0 <= i < d.len() ==> (#[trigger] d[i]).amount@.1 <= s
}

/// Every flow amount has at most `s` digits after the point.
pub open spec fn flows_scale_at_most(f: Seq<BucketTxFlow>, s: nat) -> bool {
    forall|i: int| 0 <= i < f.len() ==> (#[trigger] f[i]).flow@.1 <= s
}

/// The inputs of [`summarize_buckets`] whose totals `rust_decimal` holds
/// exactly: with `s` digits after the point, the sum of all magnitudes fits
/// its 96-bit mantissa.
pub open spec fn totals_fit(d: Seq<BudgetDirective>, f: Seq<BucketTxFlow>, s: nat) -> bool {
    &&& dirs_scale_at_most(d, s)
    &&& flows_scale_at_most(f, s)
    &&& s <= 28
    &&& fits_at(dirs_magnitude(d) + flows_magnitude(f), s)
}

/// The months of all directives and flows can be compared with `target`.
pub open spec fn months_comparable(
    d: Seq<BudgetDirective>,
    f: Seq<BucketTxFlow>,
    target: Seq<char>,
    scope: ReportScope,
) -> bool {
    &&& forall|i: int| 0 <= i < d.len() ==> month_scope_ok((#[trigger] d[i]).month@, target, scope)
    &&& forall|j: int| 0 <= j < f.len() ==> month_scope_ok((#[trigger] f[j]).month@, target, scope)
}

/// Entries of a totals map all have at most `s` digits after the point and
/// magnitudes at most `bound`.
pub open spec fn sums_bounded(m: Map<Seq<char>, BucketSummary>, bound: int, s: nat) -> bool {
    forall|k: Seq<char>|
        #[trigger] m.contains_key(k) ==> m[k].planned@.1 <= s && m[k].actual@.1 <= s && abs_int(
            m[k].planned.units(),
        ) <= bound && abs_int(m[k].actual.units()) <= bound
}

pub(crate) proof fn lemma_fits_mono(x: int, y: int, s: nat, t: nat)
    requires
        fits_at(x, t),
        abs_int(y) <= abs_int(x),
        s <= t <= 28,
    ensures
        fits_at(y, s),
{
    lemma_pow10_mono((28 - t) as nat, (28 - s) as nat);
    assert(0x1_0000_0000_0000_0000_0000_0000 * pow10((28 - t) as nat)
        <= 0x1_0000_0000_0000_0000_0000_0000 * pow10((28 - s) as nat)) by (nonlinear_arith)
        requires
            pow10((28 - t) as nat) <= pow10((28 - s) as nat),
    ;
}

/// Adds `amount` to the planned (or actual) total of `bucket` and of every
/// bucket over it that it rolls into (see [`rolls_into`]).
fn add_to_chain(
    sums: &mut StrMap<BucketSummary>,
    bucket: &str,
    amount: Amount,
    planned: bool,
    mappings: &BudgetMappings,
    Ghost(bound): Ghost<int>,
    Ghost(s): Ghost<nat>,
)
    requires
        sums_bounded(old(sums)@, bound, s),
        amount@.1 <= s <= 28,
        bound >= 0,
        fits_at(bound + abs_int(amount.units()), s),
    ensures
        sums_bounded(final(sums)@, bound + abs_int(amount.units()), s),
        forall|k: Seq<char>| #[trigger]
            final(sums)@.contains_key(k) <==> old(sums)@.contains_key(k) || rolls_into(*mappings, k, bucket@),
        forall|k: Seq<char>|
            #[trigger] final(sums)@.contains_key(k) ==> final(sums)@[k].planned.units() == (if old(
                sums,
            )@.contains_key(k) {
                old(sums)@[k].planned.units()
            } else {
                0
            }) + if planned && rolls_into(*mappings, k, bucket@) {
                amount.units()
            } else {
                0
            },
        forall|k: Seq<char>|
            #[trigger] final(sums)@.contains_key(k) ==> final(sums)@[k].actual.units() == (if old(
                sums,
            )@.contains_key(k) {
                old(sums)@[k].actual.units()
            } else {
                0
            }) + if !planned && rolls_into(*mappings, k, bucket@) {
                amount.units()
            } else {
                0
            },
{
    let ghost start = sums@;
    let ghost u = amount.units();
    let tracked_bucket = mappings.is_tracking_bucket(bucket);
    let mut cur: Option<&str> = Some(bucket);
    proof {
        lemma_pow10_pos((28 - s) as nat);
    }
    while cur.is_some()
        invariant
            amount@.1 <= s <= 28,
            bound >= 0,
            fits_at(bound + abs_int(u), s),
            u == amount.units(),
            tracked_bucket == is_tracking_spec(*mappings, bucket@),
            cur matches Some(p) ==> is_within(p@, bucket@),
            sums_bounded(sums@, bound + abs_int(u), s),
            forall|k: Seq<char>|
                #[trigger] sums@.contains_key(k) <==> start.contains_key(k) || (rolls_into(
                    *mappings,
                    k,
                    bucket@,
                ) && (cur is None || k.len() > cur.unwrap()@.len())),
            forall|k: Seq<char>|
                #[trigger] sums@.contains_key(k) ==> sums@[k].planned.units() == (if start.contains_key(
                    k,
                ) {
                    start[k].planned.units()
                } else {
                    0
                }) + if planned && rolls_into(*mappings, k, bucket@) && (cur is None || k.len()
                    > cur.unwrap()@.len()) {
                    u
                } else {
                    0
                },
            forall|k: Seq<char>|
                #[trigger] sums@.contains_key(k) ==> sums@[k].actual.units() == (if start.contains_key(
                    k,
                ) {
                    start[k].actual.units()
                } else {
                    0
                }) + if !planned && rolls_into(*mappings, k, bucket@) && (cur is None || k.len()
                    > cur.unwrap()@.len()) {
                    u
                } else {
                    0
                },
            forall|k: Seq<char>|
                start.contains_key(k) ==> abs_int(#[trigger] start[k].planned.units()) <= bound
                    && abs_int(start[k].actual.units()) <= bound,
        decreases
                match cur {
                    Some(p) => p@.len() + 1,
                    None => 0,
                },
    {
        let p = cur.unwrap();
        let ghost pv = p@;
        proof {
            lemma_within_shape(pv, bucket@);
        }
        let ghost before = sums@;
        let hit = !tracked_bucket || mappings.is_tracking_bucket(p);
        if hit {
            let old_entry = match sums.get(p) {
                Some(e) => *e,
                None => BucketSummary { planned: Amount::zero(), actual: Amount::zero() },
            };
            old_entry.planned.check_valid();
            old_entry.actual.check_valid();
            proof {
                if start.contains_key(pv) {
                    assert(abs_int(start[pv].planned.units()) <= bound);
                }
                lemma_fits_mono(
                    bound + abs_int(u),
                    old_entry.planned.units() + u,
                    max_nat(old_entry.planned@.1, amount@.1),
                    s,
                );
                lemma_fits_mono(
                    bound + abs_int(u),
                    old_entry.actual.units() + u,
                    max_nat(old_entry.actual@.1, amount@.1),
                    s,
                );
            }
            let new_entry = if planned {
                BucketSummary { planned: decimal_add(old_entry.planned, amount), actual: old_entry.actual }
            } else {
                BucketSummary { planned: old_entry.planned, actual: decimal_add(old_entry.actual, amount) }
            };
            sums.insert(p.to_string(), new_entry);
            proof {
                assert(sums@ == before.insert(pv, new_entry));
            }
        }
        let next = parent_bucket(p);
        proof {
            lemma_parent_bucket(pv, pv);
            assert forall|k: Seq<char>| is_within(k, bucket@) implies (cur is None || k.len()
                > pv.len() || k == pv) == (next is None || k.len() > next.unwrap()@.len()) by {
                lemma_within_shape(k, bucket@);
                if k.len() <= pv.len() && k != pv {
                    lemma_within_nested(k, pv, bucket@);
                    lemma_parent_bucket(pv, k);
                }
                if k.len() == pv.len() {
                    assert(k =~= pv);
                }
                if let Some(q) = next {
                    if k.len() > q@.len() && k.len() < pv.len() {
                        lemma_within_nested(k, pv, bucket@);
                        lemma_parent_bucket(pv, k);
                    }
                }
            }
            if let Some(q) = next {
                crate::util::lemma_within_trans(q@, pv, bucket@);
            }
            assert(hit == rolls_into(*mappings, pv, bucket@));
        }
        cur = next;
    }
}

proof fn lemma_dirs_prefix(d: Seq<BudgetDirective>, i: int, target: Seq<char>, scope: ReportScope, m: BudgetMappings, b: Seq<char>)
    requires
        0 <= i < d.len(),
    ensures
        d.take(i + 1).drop_last() == d.take(i),
        d.take(i + 1).last() == d[i],
        dirs_magnitude(d.take(i + 1)) == dirs_magnitude(d.take(i)) + abs_int(d[i].amount.units()),
        planned_within(d.take(i + 1), target, scope, m, b) == planned_within(d.take(i), target, scope, m, b)
            + if dir_counts(d[i], target, scope) && rolls_into(m, b, d[i].bucket@) {
            d[i].amount.units()
        } else {
            0
        },
{
    assert(d.take(i + 1).drop_last() =~= d.take(i));
}

proof fn lemma_flows_prefix(
    f: Seq<BucketTxFlow>,
    i: int,
    target: Seq<char>,
    scope: ReportScope,
    m: BudgetMappings,
    b: Seq<char>,
)
    requires
        0 <= i < f.len(),
    ensures
        f.take(i + 1).drop_last() == f.take(i),
        f.take(i + 1).last() == f[i],
        flows_magnitude(f.take(i + 1)) == flows_magnitude(f.take(i)) + abs_int(f[i].flow.units()),
        actual_within(f.take(i + 1), target, scope, m, b) == actual_within(f.take(i), target, scope, m, b)
            + if flow_counts(f[i], target, scope, m) && rolls_into(m, b, f[i].bucket@) {
            actual_units(f[i])
        } else {
            0
        },
{
    assert(f.take(i + 1).drop_last() =~= f.take(i));
}

pub(crate) proof fn lemma_dirs_magnitude_prefix(d: Seq<BudgetDirective>, i: int)
    requires
        0 <= i <= d.len(),
    ensures
        0 <= dirs_magnitude(d.take(i)) <= dirs_magnitude(d),
    decreases d.len() - i,
{
    if i < d.len() {
        lemma_dirs_magnitude_prefix(d, i + 1);
        lemma_dirs_prefix(
            d,
            i,
            Seq::empty(),
            ReportScope::Month,
            vstd::pervasive::arbitrary::<BudgetMappings>(),
            Seq::empty(),
        );
        lemma_dirs_magnitude_nonneg(d.take(i));
    } else {
        assert(d.take(i) =~= d);
        lemma_dirs_magnitude_nonneg(d);
    }
}

pub(crate) proof fn lemma_dirs_magnitude_nonneg(d: Seq<BudgetDirective>)
    ensures
        dirs_magnitude(d) >= 0,
    decreases d.len(),
{
    if d.len() > 0 {
        lemma_dirs_magnitude_nonneg(d.drop_last());
    }
}

pub(crate) proof fn lemma_flows_magnitude_prefix(f: Seq<BucketTxFlow>, i: int)
    requires
        0 <= i <= f.len(),
    ensures
        0 <= flows_magnitude(f.take(i)) <= flows_magnitude(f),
    decreases f.len() - i,
{
    if i < f.len() {
        lemma_flows_magnitude_prefix(f, i + 1);
        assert(f.take(i + 1).drop_last() =~= f.take(i));
        lemma_flows_magnitude_nonneg(f.take(i));
    } else {
        assert(f.take(i) =~= f);
        lemma_flows_magnitude_nonneg(f);
    }
}

pub(crate) proof fn lemma_flows_magnitude_nonneg(f: Seq<BucketTxFlow>)
    ensures
        flows_magnitude(f) >= 0,
    decreases f.len(),
{
    if f.len() > 0 {
        lemma_flows_magnitude_nonneg(f.drop_last());
    }
}

proof fn lemma_planned_none(d: Seq<BudgetDirective>, target: Seq<char>, scope: ReportScope, m: BudgetMappings, b: Seq<char>)
    requires
        forall|j: int|
            0 <= j < d.len() ==> !(dir_counts(#[trigger] d[j], target, scope) && rolls_into(m, b, d[j].bucket@)),
    ensures
        planned_within(d, target, scope, m, b) == 0,
    decreases d.len(),
{
    if d.len() > 0 {
        assert(d.last() == d[d.len() - 1]);
        lemma_planned_none(d.drop_last(), target, scope, m, b);
    }
}

proof fn lemma_actual_none(
    f: Seq<BucketTxFlow>,
    target: Seq<char>,
    scope: ReportScope,
    m: BudgetMappings,
    b: Seq<char>,
)
    requires
        forall|j: int|
            0 <= j < f.len() ==> !(flow_counts(#[trigger] f[j], target, scope, m) && rolls_into(m, b, f[j].bucket@)),
    ensures
        actual_within(f, target, scope, m, b) == 0,
    decreases f.len(),
{
    if f.len() > 0 {
        assert(f.last() == f[f.len() - 1]);
        lemma_actual_none(f.drop_last(), target, scope, m, b);
    }
}

/// What [`totals_inputs_ok`] accepts: the months can be compared with the
/// target (see [`months_comparable`]) and some scale fits the totals (see
/// [`totals_fit`]): exactly the requirements of [`summarize_buckets`].
pub open spec fn totals_inputs_checked(
    d: Seq<BudgetDirective>,
    f: Seq<BucketTxFlow>,
    target: Seq<char>,
    scope: ReportScope,
) -> bool {
    &&& months_comparable(d, f, target, scope)
    &&& exists|s: nat| totals_fit(d, f, s)
}

/// The amounts of the directives, then those of the flows, as legs.
pub open spec fn totals_legs(d: Seq<BudgetDirective>, f: Seq<BucketTxFlow>) -> Seq<
    (Seq<char>, (int, nat, bool)),
> {
    d.map_values(|x: BudgetDirective| (Seq::<char>::empty(), x.amount@)) + f.map_values(
        |x: BucketTxFlow| (Seq::<char>::empty(), x.flow@),
    )
}

proof fn lemma_magnitude_concat(a: Seq<(Seq<char>, (int, nat, bool))>, b: Seq<(Seq<char>, (int, nat, bool))>)
    ensures
        legs_magnitude(a + b) == legs_magnitude(a) + legs_magnitude(b),
    decreases b.len(),
{
    if b.len() > 0 {
        assert((a + b).drop_last() =~= a + b.drop_last());
        lemma_magnitude_concat(a, b.drop_last());
    } else {
        assert(a + b =~= a);
    }
}

proof fn lemma_dirs_legs(d: Seq<BudgetDirective>)
    ensures
        legs_magnitude(d.map_values(|x: BudgetDirective| (Seq::<char>::empty(), x.amount@)))
            == dirs_magnitude(d),
    decreases d.len(),
{
    if d.len() > 0 {
        assert(d.map_values(|x: BudgetDirective| (Seq::<char>::empty(), x.amount@)).drop_last()
            =~= d.drop_last().map_values(|x: BudgetDirective| (Seq::<char>::empty(), x.amount@)));
        lemma_dirs_legs(d.drop_last());
    }
}

proof fn lemma_flows_legs(f: Seq<BucketTxFlow>)
    ensures
        legs_magnitude(f.map_values(|x: BucketTxFlow| (Seq::<char>::empty(), x.flow@)))
            == flows_magnitude(f),
    decreases f.len(),
{
    if f.len() > 0 {
        assert(f.map_values(|x: BucketTxFlow| (Seq::<char>::empty(), x.flow@)).drop_last()
            =~= f.drop_last().map_values(|x: BucketTxFlow| (Seq::<char>::empty(), x.flow@)));
        lemma_flows_legs(f.drop_last());
    }
}

/// The totals' magnitude and scales, as those of [`totals_legs`].
proof fn lemma_totals_legs(d: Seq<BudgetDirective>, f: Seq<BucketTxFlow>, s: nat)
    ensures
        legs_magnitude(totals_legs(d, f)) == dirs_magnitude(d) + flows_magnitude(f),
        crate::fit::scales_at_most(totals_legs(d, f), s) == (dirs_scale_at_most(d, s)
            && flows_scale_at_most(f, s)),
{
    let l1 = d.map_values(|x: BudgetDirective| (Seq::<char>::empty(), x.amount@));
    let l2 = f.map_values(|x: BucketTxFlow| (Seq::<char>::empty(), x.flow@));
    lemma_magnitude_concat(l1, l2);
    lemma_dirs_legs(d);
    lemma_flows_legs(f);
    let l = totals_legs(d, f);
    if crate::fit::scales_at_most(l, s) {
        assert forall|i: int| 0 <= i < d.len() implies (#[trigger] d[i]).amount@.1 <= s by {
            assert(l[i] == l1[i]);
        }
        assert forall|j: int| 0 <= j < f.len() implies (#[trigger] f[j]).flow@.1 <= s by {
            assert(l[d.len() + j] == l2[j]);
        }
    }
    if dirs_scale_at_most(d, s) && flows_scale_at_most(f, s) {
        assert forall|i: int| 0 <= i < l.len() implies (#[trigger] l[i]).1.1 <= s by {
            if i < d.len() {
                assert(l[i] == l1[i]);
            } else {
                assert(l[i] == l2[i - d.len()]);
            }
        }
    }
}

/// The amounts of the directives and flows, as legs.
fn totals_amounts(d: &Vec<BudgetDirective>, f: &Vec<BucketTxFlow>) -> (r: Vec<(String, Amount)>)
    ensures
        leg_views(r@) == totals_legs(d@, f@),
{
    let mut r: Vec<(String, Amount)> = Vec::new();
    let mut i: usize = 0;
    while i < d.len()
        invariant
            i <= d.len(),
            leg_views(r@) == d@.take(i as int).map_values(
                |x: BudgetDirective| (Seq::<char>::empty(), x.amount@),
            ),
        decreases d.len() - i,
    {
        let ghost before = r@;
        let e = String::new();
        assert(e@ == Seq::<char>::empty());
        r.push((e, d[i].amount));
        assert(leg_views(r@) =~= leg_views(before).push((Seq::<char>::empty(), d@[i as int].amount@)));
        assert(d@.take(i + 1).map_values(|x: BudgetDirective| (Seq::<char>::empty(), x.amount@))
            =~= d@.take(i as int).map_values(|x: BudgetDirective| (Seq::<char>::empty(), x.amount@)).push(
            (Seq::<char>::empty(), d@[i as int].amount@),
        ));
        assert(leg_views(r@) =~= d@.take(i + 1).map_values(
            |x: BudgetDirective| (Seq::<char>::empty(), x.amount@),
        ));
        i += 1;
    }
    assert(d@.take(d.len() as int) =~= d@);
    let ghost head = leg_views(r@);
    let mut j: usize = 0;
    while j < f.len()
        invariant
            j <= f.len(),
            leg_views(r@) == head + f@.take(j as int).map_values(
                |x: BucketTxFlow| (Seq::<char>::empty(), x.flow@),
            ),
        decreases f.len() - j,
    {
        let ghost before = r@;
        let e = String::new();
        assert(e@ == Seq::<char>::empty());
        r.push((e, f[j].flow));
        assert(leg_views(r@) =~= leg_views(before).push((Seq::<char>::empty(), f@[j as int].flow@)));
        assert(f@.take(j + 1).map_values(|x: BucketTxFlow| (Seq::<char>::empty(), x.flow@))
            =~= f@.take(j as int).map_values(|x: BucketTxFlow| (Seq::<char>::empty(), x.flow@)).push(
            (Seq::<char>::empty(), f@[j as int].flow@),
        ));
        assert(leg_views(r@) =~= head + f@.take(j + 1).map_values(
            |x: BucketTxFlow| (Seq::<char>::empty(), x.flow@),
        ));
        j += 1;
    }
    assert(f@.take(f.len() as int) =~= f@);
    r
}

/// Whether some scale fits the totals (see [`totals_fit`]), decided exactly
/// at the least scale of all amounts.
fn totals_fit_exact(d: &Vec<BudgetDirective>, f: &Vec<BucketTxFlow>) -> (r: bool)
    ensures
        r == exists|s: nat| totals_fit(d@, f@, s),
{
    let v = totals_amounts(d, f);
    let ghost l = totals_legs(d@, f@);
    let s = legs_max_scale_exec(&v);
    let ghost sn = s as nat;
    proof {
        lemma_legs_max_scale(l, sn);
        lemma_totals_legs(d@, f@, sn);
        crate::fit::lemma_scaled_sum(l, sn);
        lemma_pow10_pos((28 - sn) as nat);
        lemma_dirs_magnitude_nonneg(d@);
        lemma_flows_magnitude_nonneg(f@);
        if exists|s0: nat| totals_fit(d@, f@, s0) {
            let s0 = choose|s0: nat| totals_fit(d@, f@, s0);
            lemma_totals_legs(d@, f@, s0);
            lemma_legs_max_scale(l, s0);
            lemma_fits_mono(
                dirs_magnitude(d@) + flows_magnitude(f@),
                dirs_magnitude(d@) + flows_magnitude(f@),
                sn,
                s0,
            );
            assert(totals_fit(d@, f@, sn));
        }
    }
    match crate::fit::legs_scaled_sum(&v, s) {
        None => {
            proof {
                lemma_no_fit(l, sn, crate::fit::scaled_sum(l, sn));
            }
            false
        },
        Some(x) => {
            if x >= 0x1_0000_0000_0000_0000_0000_0000 {
                proof {
                    lemma_no_fit(l, sn, x as int);
                }
                false
            } else {
                proof {
                    lemma_fits_from_sum(l, sn, x as int);
                    assert(totals_fit(d@, f@, sn));
                }
                true
            }
        },
    }
}

/// Whether slicing a month key by bytes, as `is_month_in_scope` does, cannot
/// panic (see [`month_key_slices_ok`]).
fn month_slices_ok(m: &String) -> (r: bool)
    ensures
        r == crate::util::month_key_slices_ok(m@),
{
    let v = crate::text::str_chars(m.as_str());
    if !crate::detail::char_boundary_at(&v, 4) {
        return false;
    }
    let reads = v.len() >= 4 && (v[0] as u32) < 0x80 && (v[1] as u32) < 0x80 && (v[2] as u32) < 0x80
        && (v[3] as u32) < 0x80 && crate::util::parse_i32(&crate::text::slice_chars(&v, 0, 4)).is_some();
    proof {
        if v.len() >= 4 {
            assert(v@.subrange(0, 4) =~= v@.take(4));
            assert((forall|i: int| 0 <= i < 4 ==> crate::util::utf8_width(#[trigger] v@[i]) == 1) == (
            (v@[0] as u32) < 0x80 && (v@[1] as u32) < 0x80 && (v@[2] as u32) < 0x80 && (v@[3] as u32)
                < 0x80)) by {
                if (v@[0] as u32) < 0x80 && (v@[1] as u32) < 0x80 && (v@[2] as u32) < 0x80 && (
                v@[3] as u32) < 0x80 {
                    assert forall|i: int| 0 <= i < 4 implies crate::util::utf8_width(
                        #[trigger] v@[i],
                    ) == 1 by {
                        if i == 0 {
                        } else if i == 1 {
                        } else if i == 2 {
                        } else {
                        }
                    }
                }
                assert(crate::util::utf8_width(v@[0]) == 1 ==> (v@[0] as u32) < 0x80);
                assert(crate::util::utf8_width(v@[1]) == 1 ==> (v@[1] as u32) < 0x80);
                assert(crate::util::utf8_width(v@[2]) == 1 ==> (v@[2] as u32) < 0x80);
                assert(crate::util::utf8_width(v@[3]) == 1 ==> (v@[3] as u32) < 0x80);
            }
        }
        assert(reads == crate::util::year_prefix_reads(m@));
    }
    if !reads {
        return true;
    }
    v.len() >= 5 && (v[4] as u32) < 0x80
}

fn months_ok(
    directives: &Vec<BudgetDirective>,
    flows: &Vec<BucketTxFlow>,
    target_month: &str,
    scope: ReportScope,
) -> (r: bool)
    ensures
        r == months_comparable(directives@, flows@, target_month@, scope),
{
    if let ReportScope::Month = scope {
        return true;
    }
    if !month_slices_ok(&target_month.to_string()) {
        proof {
            if directives.len() > 0 {
                assert(!month_scope_ok(directives@[0].month@, target_month@, scope));
            }
            if flows.len() > 0 {
                assert(!month_scope_ok(flows@[0].month@, target_month@, scope));
            }
        }
        return directives.len() == 0 && flows.len() == 0;
    }
    let mut i: usize = 0;
    while i < directives.len()
        invariant
            scope == ReportScope::Cumulative,
            crate::util::month_key_slices_ok(target_month@),
            i <= directives.len(),
            forall|k: int| 0 <= k < i ==> month_scope_ok((#[trigger] directives@[k]).month@, target_month@, scope),
        decreases directives.len() - i,
    {
        if !month_slices_ok(&directives[i].month) {
            assert(!month_scope_ok(directives@[i as int].month@, target_month@, scope));
            return false;
        }
        i += 1;
    }
    let mut j: usize = 0;
    while j < flows.len()
        invariant
            scope == ReportScope::Cumulative,
            crate::util::month_key_slices_ok(target_month@),
            forall|k: int| 0 <= k < directives@.len() ==> month_scope_ok((#[trigger] directives@[k]).month@, target_month@, scope),
            j <= flows.len(),
            forall|k: int| 0 <= k < j ==> month_scope_ok((#[trigger] flows@[k]).month@, target_month@, scope),
        decreases flows.len() - j,
    {
        if !month_slices_ok(&flows[j].month) {
            assert(!month_scope_ok(flows@[j as int].month@, target_month@, scope));
            return false;
        }
        j += 1;
    }
    true
}

/// Whether the directives and flows meet the requirements of
/// [`summarize_buckets`] and `build_scoped_bucket_data` (see
/// [`totals_inputs_checked`]); the program checks this first.
pub fn totals_inputs_ok(
    directives: &Vec<BudgetDirective>,
    flows: &Vec<BucketTxFlow>,
    target_month: &str,
    scope: ReportScope,
) -> (r: bool)
    ensures
        r == totals_inputs_checked(directives@, flows@, target_month@, scope),
        r ==> months_comparable(directives@, flows@, target_month@, scope),
        r ==> exists|s: nat| totals_fit(directives@, flows@, s),
{
    months_ok(directives, flows, target_month, scope) && totals_fit_exact(directives, flows)
}

/// Planned and actual totals per bucket, for the directives and flows whose
/// month counts for `target_month` under `scope` (flows only when their kind
/// is the kind configured for their bucket).
///
/// Every bucket's totals include those of the buckets under it: the planned
/// total of `生活费` adds up the directives of `生活费` and of `生活费.饮食`,
/// `生活费.交通`, ...; a bucket appears exactly when something counted rolls
/// into it.  Tracking buckets are not rolled up into the buckets over them
/// outside tracking (see [`rolls_into`]).
pub fn summarize_buckets(
    directives: &Vec<BudgetDirective>,
    flows: &Vec<BucketTxFlow>,
    target_month: &str,
    scope: ReportScope,
    mappings: &BudgetMappings,
) -> (r: StrMap<BucketSummary>)
    requires
        months_comparable(directives@, flows@, target_month@, scope),
        exists|s: nat| totals_fit(directives@, flows@, s),
    ensures
        forall|b: Seq<char>| #[trigger]
            r@.contains_key(b) <==> has_total(
                directives@,
                flows@,
                target_month@,
                scope,
                *mappings,
                b,
            ),
        forall|b: Seq<char>|
            #[trigger] r@.contains_key(b) ==> r@[b].planned.units() == planned_within(
                directives@,
                target_month@,
                scope,
                *mappings,
                b) && r@[b].actual.units() == actual_within(flows@, target_month@, scope, *mappings, b),
{
    let ghost s: nat = choose|s: nat| totals_fit(directives@, flows@, s);
    let ghost d = directives@;
    let ghost f = flows@;
    let ghost target = target_month@;
    let ghost total = dirs_magnitude(d) + flows_magnitude(f);
    let mut sums: StrMap<BucketSummary> = StrMap::new();
    proof {
        lemma_dirs_magnitude_nonneg(d);
        lemma_flows_magnitude_nonneg(f);
    }
    let mut i: usize = 0;
    while i < directives.len()
        invariant
            d == directives@,
            f == flows@,
            target == target_month@,
            i <= d.len(),
            totals_fit(d, f, s),
            total == dirs_magnitude(d) + flows_magnitude(f),
            months_comparable(d, f, target, scope),
            sums_bounded(sums@, dirs_magnitude(d.take(i as int)), s),
            forall|k: Seq<char>| #[trigger]
                sums@.contains_key(k) <==> exists|j: int|
                    0 <= j < i && dir_counts(#[trigger] d[j], target, scope) && rolls_into(*mappings, k, d[j].bucket@),
            forall|k: Seq<char>|
                #[trigger] sums@.contains_key(k) ==> sums@[k].planned.units() == planned_within(
                    d.take(i as int),
                    target,
                    scope,
                    *mappings,
                    k) && sums@[k].actual.units() == 0,
        decreases d.len() - i,
    {
        let item = &directives[i];
        proof {
            lemma_dirs_magnitude_prefix(d, i + 1);
            lemma_dirs_magnitude_nonneg(d.take(i as int));
            lemma_flows_magnitude_nonneg(f);
            assert forall|k: Seq<char>| true implies planned_within(
                d.take(i + 1),
                target,
                scope,
                *mappings,
                k) == planned_within(d.take(i as int), target, scope, *mappings, k) + if dir_counts(
                d[i as int],
                target,
                scope,
            ) && rolls_into(*mappings, k, d[i as int].bucket@) {
                d[i as int].amount.units()
            } else {
                0
            } by {
                lemma_dirs_prefix(d, i as int, target, scope, *mappings, k);
            }
            lemma_dirs_prefix(d, i as int, target, scope, *mappings, Seq::empty());
            assert(month_scope_ok(d[i as int].month@, target, scope));
        }
        item.amount.check_valid();
        if is_month_in_scope(item.month.as_str(), target_month, scope) {
            let ghost before = sums@;
            proof {
                lemma_fits_mono(total, dirs_magnitude(d.take(i + 1)), s, s);
                assert forall|k: Seq<char>| !before.contains_key(k) implies planned_within(
                    d.take(i as int),
                    target,
                    scope,
                    *mappings,
                    k) == 0 by {
                    assert forall|t: int| 0 <= t < d.take(i as int).len() implies !(dir_counts(
                        #[trigger] d.take(i as int)[t],
                        target,
                        scope,
                    ) && rolls_into(*mappings, k, d.take(i as int)[t].bucket@)) by {
                        assert(d.take(i as int)[t] == d[t]);
                    }
                    lemma_planned_none(d.take(i as int), target, scope, *mappings, k);
                }
            }
            add_to_chain(
                &mut sums,
                item.bucket.as_str(),
                item.amount,
                true,
                mappings,
                Ghost(dirs_magnitude(d.take(i as int))),
                Ghost(s),
            );
            proof {
                assert forall|k: Seq<char>| #[trigger]
                    sums@.contains_key(k) <== exists|j: int|
                        0 <= j < i + 1 && dir_counts(#[trigger] d[j], target, scope) && rolls_into(*mappings, k, d[j].bucket@) by {
                    if exists|j: int|
                        0 <= j < i + 1 && dir_counts(#[trigger] d[j], target, scope) && rolls_into(*mappings, k, d[j].bucket@) {
                        let j = choose|j: int|
                            0 <= j < i + 1 && dir_counts(#[trigger] d[j], target, scope)
                                && rolls_into(*mappings, k, d[j].bucket@);
                        if j < i {
                            assert(before.contains_key(k));
                        }
                    }
                }
                assert forall|k: Seq<char>| #[trigger]
                    sums@.contains_key(k) ==> exists|j: int|
                        0 <= j < i + 1 && dir_counts(#[trigger] d[j], target, scope) && rolls_into(*mappings, k, d[j].bucket@) by {
                    if sums@.contains_key(k) && !before.contains_key(k) {
                        assert(dir_counts(d[i as int], target, scope) && rolls_into(*mappings, k, d[i as int].bucket@));
                    }
                }
            }
        } else {
            proof {
                assert forall|k: Seq<char>| #[trigger]
                    sums@.contains_key(k) <==> exists|j: int|
                        0 <= j < i + 1 && dir_counts(#[trigger] d[j], target, scope) && rolls_into(*mappings, k, d[j].bucket@) by {
                    if exists|j: int|
                        0 <= j < i + 1 && dir_counts(#[trigger] d[j], target, scope) && rolls_into(*mappings, k, d[j].bucket@) {
                        let j = choose|j: int|
                            0 <= j < i + 1 && dir_counts(#[trigger] d[j], target, scope)
                                && rolls_into(*mappings, k, d[j].bucket@);
                        assert(j < i);
                    }
                }
            }
        }
        i += 1;
    }
    proof {
        assert(d.take(d.len() as int) =~= d);
    }
    let mut j: usize = 0;
    while j < flows.len()
        invariant
            d == directives@,
            f == flows@,
            target == target_month@,
            j <= f.len(),
            totals_fit(d, f, s),
            total == dirs_magnitude(d) + flows_magnitude(f),
            months_comparable(d, f, target, scope),
            sums_bounded(sums@, dirs_magnitude(d) + flows_magnitude(f.take(j as int)), s),
            forall|k: Seq<char>| #[trigger]
                sums@.contains_key(k) <==> (exists|i: int|
                    0 <= i < d.len() && dir_counts(#[trigger] d[i], target, scope) && rolls_into(*mappings, k, d[i].bucket@)) || (exists|t: int|
                    0 <= t < j && flow_counts(#[trigger] f[t], target, scope, *mappings)
                        && rolls_into(*mappings, k, f[t].bucket@)),
            forall|k: Seq<char>|
                #[trigger] sums@.contains_key(k) ==> sums@[k].planned.units() == planned_within(
                    d,
                    target,
                    scope,
                    *mappings,
                    k) && sums@[k].actual.units() == actual_within(
                    f.take(j as int),
                    target,
                    scope,
                    *mappings,
                    k,
                ),
        decreases f.len() - j,
    {
        let fl = &flows[j];
        proof {
            lemma_flows_magnitude_prefix(f, j + 1);
            lemma_flows_magnitude_nonneg(f.take(j as int));
            lemma_dirs_magnitude_nonneg(d);
            assert forall|k: Seq<char>| true implies actual_within(
                f.take(j + 1),
                target,
                scope,
                *mappings,
                k,
            ) == actual_within(f.take(j as int), target, scope, *mappings, k) + if flow_counts(
                f[j as int],
                target,
                scope,
                *mappings,
            ) && rolls_into(*mappings, k, f[j as int].bucket@) {
                actual_units(f[j as int])
            } else {
                0
            } by {
                lemma_flows_prefix(f, j as int, target, scope, *mappings, k);
            }
            lemma_flows_prefix(f, j as int, target, scope, *mappings, Seq::empty());
            assert(month_scope_ok(f[j as int].month@, target, scope));
        }
        fl.flow.check_valid();
        let kind = mappings.bucket_kind(fl.bucket.as_str());
        if is_month_in_scope(fl.month.as_str(), target_month, scope) && same_kind(fl.kind, kind) {
            let ghost before = sums@;
            let amount = fl.actual_amount();
            proof {
                lemma_fits_mono(total, dirs_magnitude(d) + flows_magnitude(f.take(j + 1)), s, s);
                assert forall|k: Seq<char>| !before.contains_key(k) implies planned_within(
                    d,
                    target,
                    scope,
                    *mappings,
                    k) == 0 by {
                    lemma_planned_none(d, target, scope, *mappings, k);
                }
            }
            add_to_chain(
                &mut sums,
                fl.bucket.as_str(),
                amount,
                false,
                mappings,
                Ghost(dirs_magnitude(d) + flows_magnitude(f.take(j as int))),
                Ghost(s),
            );
            proof {
                assert forall|k: Seq<char>| !before.contains_key(k) && #[trigger] sums@.contains_key(
                    k,
                ) implies actual_within(f.take(j as int), target, scope, *mappings, k) == 0 by {
                    assert forall|t: int| 0 <= t < f.take(j as int).len() implies !(flow_counts(
                        #[trigger] f.take(j as int)[t],
                        target,
                        scope,
                        *mappings,
                    ) && rolls_into(*mappings, k, f.take(j as int)[t].bucket@)) by {
                        assert(f.take(j as int)[t] == f[t]);
                    }
                    lemma_actual_none(f.take(j as int), target, scope, *mappings, k);
                }
                assert forall|k: Seq<char>| #[trigger]
                    sums@.contains_key(k) <==> (exists|i: int|
                        0 <= i < d.len() && dir_counts(#[trigger] d[i], target, scope) && rolls_into(*mappings, k, d[i].bucket@)) || (exists|t: int|
                        0 <= t < j + 1 && flow_counts(#[trigger] f[t], target, scope, *mappings)
                            && rolls_into(*mappings, k, f[t].bucket@)) by {
                    if exists|t: int|
                        0 <= t < j + 1 && flow_counts(#[trigger] f[t], target, scope, *mappings)
                            && rolls_into(*mappings, k, f[t].bucket@) {
                        let t = choose|t: int|
                            0 <= t < j + 1 && flow_counts(#[trigger] f[t], target, scope, *mappings)
                                && rolls_into(*mappings, k, f[t].bucket@);
                        if t < j {
                            assert(before.contains_key(k));
                        }
                    }
                    if sums@.contains_key(k) && !before.contains_key(k) {
                        assert(flow_counts(f[j as int], target, scope, *mappings) && rolls_into(*mappings, k, f[j as int].bucket@));
                    }
                }
            }
        } else {
            proof {
                assert forall|k: Seq<char>| #[trigger]
                    sums@.contains_key(k) <==> (exists|i: int|
                        0 <= i < d.len() && dir_counts(#[trigger] d[i], target, scope) && rolls_into(*mappings, k, d[i].bucket@)) || (exists|t: int|
                        0 <= t < j + 1 && flow_counts(#[trigger] f[t], target, scope, *mappings)
                            && rolls_into(*mappings, k, f[t].bucket@)) by {
                    if exists|t: int|
                        0 <= t < j + 1 && flow_counts(#[trigger] f[t], target, scope, *mappings)
                            && rolls_into(*mappings, k, f[t].bucket@) {
                        let t = choose|t: int|
                            0 <= t < j + 1 && flow_counts(#[trigger] f[t], target, scope, *mappings)
                                && rolls_into(*mappings, k, f[t].bucket@);
                        assert(t < j);
                    }
                }
            }
        }
        j += 1;
    }
    proof {
        assert(f.take(f.len() as int) =~= f);
    }
    sums
}

// ---------------------------------------------------------------------------
// Posting legs
// ---------------------------------------------------------------------------

/// A posting leg as plain values: account and amount.
pub open spec fn leg_views(v: Seq<(String, Amount)>) -> Seq<(Seq<char>, (int, nat, bool))> {
    v.map_values(|e: (String, Amount)| (e.0@, e.1@))
}

/// `v` with the sign of `a`: negated when `a` carries the minus sign.
pub open spec fn with_sign_of(v: (int, nat, bool), a: (int, nat, bool)) -> (int, nat, bool) {
    if a.2 {
        (-v.0, v.1, !v.2)
    } else {
        v
    }
}

/// What a posting counts for in the target currency: its amount when it is
/// in that currency; else, when it carries a total price (`@@`) in that
/// currency, the price with the sign of its amount; else nothing.
pub open spec fn leg_value(p: PostingView, currency: Seq<char>) -> Option<(int, nat, bool)> {
    match p.amount {
        None => None,
        Some(a) => if is_target_currency_spec(p.currency, currency) {
            Some(a)
        } else {
            match p.total_price {
                Some((v, c)) => if is_target_currency_spec(Some(c), currency) {
                    Some(with_sign_of(v, a))
                } else {
                    None
                },
                None => None,
            }
        },
    }
}

/// What a posting counts for: its own amount when it is in the target
/// currency (or names none); for a posting in another currency (a code of
/// another length) with a total price `@@` in the target currency, the price
/// with the sign of the amount; without such a price, or without an amount,
/// nothing.
pub proof fn lemma_leg_value_cases(p: PostingView, currency: Seq<char>)
    ensures
        p.amount is None ==> leg_value(p, currency) is None,
        p.amount is Some && (p.currency is None || p.currency == Some(currency)) ==> leg_value(
            p,
            currency,
        ) == p.amount,
        p.amount is Some && p.currency is Some && p.currency.unwrap().len() != currency.len()
            && p.total_price is Some && p.total_price.unwrap().1 == currency ==> leg_value(
            p,
            currency,
        ) is Some && view_units(leg_value(p, currency).unwrap()) == (if p.amount.unwrap().2 {
            -view_units(p.total_price.unwrap().0)
        } else {
            view_units(p.total_price.unwrap().0)
        }),
        p.currency is Some && p.currency.unwrap().len() != currency.len() && p.total_price is None
            ==> leg_value(p, currency) is None,
{
    crate::util::lemma_currency_match(currency, currency);
    if let Some(c) = p.currency {
        crate::util::lemma_currency_match(c, currency);
    }
    if let Some((v, pc)) = p.total_price {
        crate::util::lemma_currency_match(pc, currency);
        assert(view_units((-v.0, v.1, !v.2)) == -view_units(v)) by (nonlinear_arith);
    }
}

/// The legs of the postings whose account starts with `prefix`, that carry an
/// amount, and whose currency is `currency`, in posting order.
pub open spec fn legs(ps: Seq<PostingView>, prefix: Seq<char>, currency: Seq<char>) -> Seq<
    (Seq<char>, (int, nat, bool)),
>
    decreases ps.len(),
{
    if ps.len() == 0 {
        Seq::empty()
    } else {
        let rest = legs(ps.drop_last(), prefix, currency);
        let p = ps.last();
        if starts_with(p.account, prefix) && leg_value(p, currency) is Some {
            rest.push((p.account, leg_value(p, currency).unwrap()))
        } else {
            rest
        }
    }
}

/// Sum of the magnitudes (units) of the legs' amounts.
pub open spec fn legs_magnitude(l: Seq<(Seq<char>, (int, nat, bool))>) -> int
    decreases l.len(),
{
    if l.len() == 0 {
        0
    } else {
        legs_magnitude(l.drop_last()) + abs_int(view_units(l.last().1))
    }
}

/// The legs' amounts have at most `s` digits after the point and their sum of
/// magnitudes fits a 96-bit mantissa at that scale.
pub open spec fn legs_fit(l: Seq<(Seq<char>, (int, nat, bool))>, s: nat) -> bool {
    &&& s <= 28
    &&& forall|i: int| 0 <= i < l.len() ==> (#[trigger] l[i]).1.1 <= s
    &&& fits_at(legs_magnitude(l), s)
}

/// The most digits after the point among the legs' amounts.
pub open spec fn legs_max_scale(l: Seq<(Seq<char>, (int, nat, bool))>) -> nat
    decreases l.len(),
{
    if l.len() == 0 {
        0
    } else {
        max_nat(legs_max_scale(l.drop_last()), l.last().1.1)
    }
}

proof fn lemma_legs_max_scale(l: Seq<(Seq<char>, (int, nat, bool))>, t: nat)
    ensures
        forall|i: int| 0 <= i < l.len() ==> (#[trigger] l[i]).1.1 <= legs_max_scale(l),
        (forall|i: int| 0 <= i < l.len() ==> (#[trigger] l[i]).1.1 <= t) ==> legs_max_scale(l)
            <= t,
    decreases l.len(),
{
    if l.len() > 0 {
        lemma_legs_max_scale(l.drop_last(), t);
        assert forall|i: int| 0 <= i < l.len() implies (#[trigger] l[i]).1.1 <= legs_max_scale(l) by {
            if i < l.len() - 1 {
                assert(l.drop_last()[i] == l[i]);
            }
        }
        if forall|i: int| 0 <= i < l.len() ==> (#[trigger] l[i]).1.1 <= t {
            assert forall|i: int| 0 <= i < l.drop_last().len() implies (
            #[trigger] l.drop_last()[i]).1.1 <= t by {
                assert(l.drop_last()[i] == l[i]);
            }
            assert(l[l.len() - 1].1.1 <= t);
        }
    }
}

/// `Decimal::ZERO` as plain values.
pub open spec fn zero_view() -> (int, nat, bool) {
    (0, 0, false)
}

/// The sum `rust_decimal` computes of the legs' amounts, left to right from zero.
pub open spec fn legs_sum(l: Seq<(Seq<char>, (int, nat, bool))>) -> (int, nat, bool)
    decreases l.len(),
{
    if l.len() == 0 {
        zero_view()
    } else {
        decimal_sum(legs_sum(l.drop_last()), l.last().1)
    }
}

/// The exact sum (units) of the legs' amounts.
pub open spec fn legs_units(l: Seq<(Seq<char>, (int, nat, bool))>) -> int
    decreases l.len(),
{
    if l.len() == 0 {
        0
    } else {
        legs_units(l.drop_last()) + view_units(l.last().1)
    }
}

/// Per account, the sum `rust_decimal` computes of its legs' amounts.
pub open spec fn legs_deltas(l: Seq<(Seq<char>, (int, nat, bool))>) -> Map<
    Seq<char>,
    (int, nat, bool),
>
    decreases l.len(),
{
    if l.len() == 0 {
        Map::empty()
    } else {
        let m = legs_deltas(l.drop_last());
        let a = l.last().0;
        m.insert(
            a,
            decimal_sum(
                if m.contains_key(a) {
                    m[a]
                } else {
                    zero_view()
                },
                l.last().1,
            ),
        )
    }
}

/// The exact sum (units) of the amounts of the legs of account `a`.
pub open spec fn account_units(l: Seq<(Seq<char>, (int, nat, bool))>, a: Seq<char>) -> int
    decreases l.len(),
{
    if l.len() == 0 {
        0
    } else {
        account_units(l.drop_last(), a) + if l.last().0 == a {
            view_units(l.last().1)
        } else {
            0
        }
    }
}

pub open spec fn amount_views(m: Map<Seq<char>, Amount>) -> Map<Seq<char>, (int, nat, bool)> {
    m.map_values(|a: Amount| a@)
}

pub open spec fn strings_view(v: Seq<String>) -> Seq<Seq<char>> {
    v.map_values(|s: String| s@)
}

/// Which legs a selection keeps.
pub enum LegFilter {
    /// Accounts starting with one of the prefixes.
    Prefixed(Seq<Seq<char>>),
    /// Amounts with a clear sign flag (`is_sign_positive`).
    Positive,
    /// Accounts in the set.
    Known(Set<Seq<char>>),
}

pub open spec fn has_prefix_in(account: Seq<char>, prefixes: Seq<Seq<char>>) -> bool {
    exists|i: int| 0 <= i < prefixes.len() && starts_with(account, #[trigger] prefixes[i])
}

pub open spec fn leg_kept(f: LegFilter, e: (Seq<char>, (int, nat, bool))) -> bool {
    match f {
        LegFilter::Prefixed(ps) => has_prefix_in(e.0, ps),
        LegFilter::Positive => !e.1.2,
        LegFilter::Known(k) => k.contains(e.0),
    }
}

pub open spec fn legs_filter(l: Seq<(Seq<char>, (int, nat, bool))>, f: LegFilter) -> Seq<
    (Seq<char>, (int, nat, bool)),
>
    decreases l.len(),
{
    if l.len() == 0 {
        Seq::empty()
    } else if leg_kept(f, l.last()) {
        legs_filter(l.drop_last(), f).push(l.last())
    } else {
        legs_filter(l.drop_last(), f)
    }
}

/// A leg that the filter keeps is among the kept legs, and every kept leg is
/// one of the legs that the filter keeps.
proof fn lemma_legs_filter_members(
    l: Seq<(Seq<char>, (int, nat, bool))>,
    f: LegFilter,
    e: (Seq<char>, (int, nat, bool)),
)
    ensures
        legs_filter(l, f).contains(e) <==> l.contains(e) && leg_kept(f, e),
    decreases l.len(),
{
    if l.len() > 0 {
        let r = legs_filter(l.drop_last(), f);
        lemma_legs_filter_members(l.drop_last(), f, e);
        assert(l =~= l.drop_last().push(l.last()));
        if l.contains(e) && leg_kept(f, e) && !l.drop_last().contains(e) {
            let k = choose|k: int| 0 <= k < l.len() && l[k] == e;
            if k < l.len() - 1 {
                assert(l.drop_last()[k] == e);
            }
            assert(r.push(l.last())[r.len() as int] == e);
        }
        if leg_kept(f, l.last()) {
            if r.push(l.last()).contains(e) && !r.contains(e) {
                let k = choose|k: int| 0 <= k < r.len() + 1 && r.push(l.last())[k] == e;
                assert(k == r.len());
                assert(l[l.len() - 1] == e);
            }
            if r.contains(e) {
                let k = choose|k: int| 0 <= k < r.len() && r[k] == e;
                assert(r.push(l.last())[k] == e);
            }
        }
        if l.drop_last().contains(e) {
            let k = choose|k: int| 0 <= k < l.len() - 1 && l.drop_last()[k] == e;
            assert(l[k] == e);
        }
    }
}

/// Without configured prefixes, the incoming legs are those whose amount
/// has a clear sign flag, and the legs of known places are those whose
/// account is among them; each selection keeps exactly such legs.
pub proof fn lemma_positive_and_known_legs_kept(
    l: Seq<(Seq<char>, (int, nat, bool))>,
    known: Set<Seq<char>>,
    e: (Seq<char>, (int, nat, bool)),
)
    ensures
        legs_filter(l, LegFilter::Positive).contains(e) <==> l.contains(e) && !e.1.2,
        legs_filter(l, LegFilter::Known(known)).contains(e) <==> l.contains(e) && known.contains(e.0),
{
    lemma_legs_filter_members(l, LegFilter::Positive, e);
    lemma_legs_filter_members(l, LegFilter::Known(known), e);
}

/// With configured account prefixes, the legs kept are exactly the legs
/// whose account is one of the prefixes followed by more text (possibly
/// none): a sub-account of a configured account is kept, any other leg is
/// not.
pub proof fn lemma_prefixed_legs_kept(
    l: Seq<(Seq<char>, (int, nat, bool))>,
    ps: Seq<Seq<char>>,
    e: (Seq<char>, (int, nat, bool)),
)
    ensures
        legs_filter(l, LegFilter::Prefixed(ps)).contains(e) <==> l.contains(e) && exists|j: int, rest: Seq<char>|
            0 <= j < ps.len() && e.0 == #[trigger] (ps[j] + rest),
{
    lemma_legs_filter_members(l, LegFilter::Prefixed(ps), e);
    if has_prefix_in(e.0, ps) {
        let j = choose|j: int| 0 <= j < ps.len() && starts_with(e.0, #[trigger] ps[j]);
        let rest = e.0.skip(ps[j].len() as int);
        assert(e.0 =~= ps[j] + rest);
    }
    if exists|j: int, rest: Seq<char>| 0 <= j < ps.len() && e.0 == #[trigger] (ps[j] + rest) {
        let (j, rest) = choose|j: int, rest: Seq<char>| 0 <= j < ps.len() && e.0 == #[trigger] (ps[j] + rest);
        assert(e.0.subrange(0, ps[j].len() as int) =~= ps[j]);
        assert(starts_with(e.0, ps[j]));
    }
}

proof fn lemma_filter_fits(l: Seq<(Seq<char>, (int, nat, bool))>, f: LegFilter, s: nat)
    ensures
        legs_magnitude(legs_filter(l, f)) <= legs_magnitude(l),
        0 <= legs_magnitude(legs_filter(l, f)),
        (forall|i: int| 0 <= i < l.len() ==> (#[trigger] l[i]).1.1 <= s) ==> (forall|i: int|
            0 <= i < legs_filter(l, f).len() ==> (#[trigger] legs_filter(l, f)[i]).1.1 <= s),
    decreases l.len(),
{
    if l.len() > 0 {
        lemma_filter_fits(l.drop_last(), f, s);
        let fl = legs_filter(l.drop_last(), f);
        assert(fl.push(l.last()).drop_last() =~= fl);
        if forall|i: int| 0 <= i < l.len() ==> (#[trigger] l[i]).1.1 <= s {
            assert forall|i: int| 0 <= i < l.drop_last().len() implies (
            #[trigger] l.drop_last()[i]).1.1 <= s by {
                assert(l.drop_last()[i] == l[i]);
            }
            assert(l.last() == l[l.len() - 1]);
        }
    }
}

/// Accounts of the first `k` legs whose amount has a clear sign flag.
pub open spec fn positive_accounts_upto(l: Seq<(Seq<char>, (int, nat, bool))>, k: int) -> Set<
    Seq<char>,
> {
    Set::new(|a: Seq<char>| exists|i: int| 0 <= i < k && (#[trigger] l[i]).0 == a && !l[i].1.2)
}

/// Accounts of the legs whose amount has a clear sign flag.
pub open spec fn positive_accounts(l: Seq<(Seq<char>, (int, nat, bool))>) -> Set<Seq<char>> {
    positive_accounts_upto(l, l.len() as int)
}

/// The inferred accounts of each asset bucket, as sets.
pub open spec fn inferred_view(m: StrMap<StrMap<()>>) -> Map<Seq<char>, Set<Seq<char>>> {
    m@.map_values(|s: StrMap<()>| s@.dom())
}

/// `inf` with the positive accounts of `l` recorded under `bucket`.
pub open spec fn with_accounts(
    inf: Map<Seq<char>, Set<Seq<char>>>,
    bucket: Seq<char>,
    l: Seq<(Seq<char>, (int, nat, bool))>,
) -> Map<Seq<char>, Set<Seq<char>>> {
    if exists|i: int| 0 <= i < l.len() && !(#[trigger] l[i]).1.2 {
        inf.insert(
            bucket,
            (if inf.contains_key(bucket) {
                inf[bucket]
            } else {
                Set::empty()
            }).union(positive_accounts(l)),
        )
    } else {
        inf
    }
}

/// The prefixes configured for an asset bucket (none when it has no entry).
pub open spec fn configured_prefixes(m: BudgetMappings, bucket: Seq<char>) -> Seq<Seq<char>> {
    if m.asset_bucket_accounts@.contains_key(bucket) {
        strings_view(m.asset_bucket_accounts@[bucket]@)
    } else {
        Seq::empty()
    }
}

/// The asset legs that count for `bucket`: those of the configured accounts
/// when the bucket has any; else the incoming (positive) legs; else the legs
/// of accounts seen flowing into the bucket before; else all of them.
/// `None` when there is no asset leg, or no leg of a configured account.
pub open spec fn asset_selection(
    l: Seq<(Seq<char>, (int, nat, bool))>,
    bucket: Seq<char>,
    m: BudgetMappings,
    inf: Map<Seq<char>, Set<Seq<char>>>,
) -> Option<Seq<(Seq<char>, (int, nat, bool))>> {
    let prefixes = configured_prefixes(m, bucket);
    let positive = legs_filter(l, LegFilter::Positive);
    if l.len() == 0 {
        None
    } else if prefixes.len() > 0 {
        let sel = legs_filter(l, LegFilter::Prefixed(prefixes));
        if sel.len() == 0 {
            None
        } else {
            Some(sel)
        }
    } else if positive.len() > 0 {
        Some(positive)
    } else if inf.contains_key(bucket) && legs_filter(l, LegFilter::Known(inf[bucket])).len() > 0 {
        Some(legs_filter(l, LegFilter::Known(inf[bucket])))
    } else {
        Some(l)
    }
}

/// Collects the legs of `tx` under `prefix` in `currency`.
fn collect_legs(tx: &LedgerTransaction, prefix: &str, currency: &str) -> (r: Vec<(String, Amount)>)
    ensures
        leg_views(r@) == legs(posting_views(tx.postings@), prefix@, currency@),
{
    let ghost ps = posting_views(tx.postings@);
    let mut out: Vec<(String, Amount)> = Vec::new();
    let mut i: usize = 0;
    assert(leg_views(out@) =~= legs(ps.take(0), prefix@, currency@));
    while i < tx.postings.len()
        invariant
            ps == posting_views(tx.postings@),
            i <= tx.postings.len(),
            leg_views(out@) == legs(ps.take(i as int), prefix@, currency@),
        decreases tx.postings.len() - i,
    {
        let p = &tx.postings[i];
        proof {
            assert(ps.take(i + 1).drop_last() =~= ps.take(i as int));
            assert(ps.take(i + 1).last() == p@);
        }
        if str_starts_with(p.account.as_str(), prefix) {
            match p.amount {
                Some(a) => {
                    let cur = match &p.currency {
                        Some(c) => Some(c.as_str()),
                        None => None,
                    };
                    if is_target_currency(cur, currency) {
                        let ghost before = out@;
                        out.push((p.account.clone(), a));
                        assert(leg_views(out@) =~= leg_views(before).push((p.account@, a@)));
                    } else {
                        match &p.total_price {
                            Some((v, c)) => {
                                if is_target_currency(Some(c.as_str()), currency) {
                                    let val = if a.is_sign_negative() {
                                        v.neg()
                                    } else {
                                        *v
                                    };
                                    let ghost before = out@;
                                    out.push((p.account.clone(), val));
                                    assert(leg_views(out@) =~= leg_views(before).push(
                                        (p.account@, val@),
                                    ));
                                }
                            },
                            None => {},
                        }
                    }
                },
                None => {},
            }
        }
        i += 1;
    }
    assert(ps.take(tx.postings.len() as int) =~= ps);
    out
}

fn keep_leg(f: &LegFilterArg, e: &(String, Amount)) -> (r: bool)
    ensures
        r == leg_kept(f.spec(), (e.0@, e.1@)),
{
    match f {
        LegFilterArg::Prefixed(ps) => {
            let mut i: usize = 0;
            while i < ps.len()
                invariant
                    i <= ps.len(),
                    f.spec() == LegFilter::Prefixed(strings_view(ps@)),
                    forall|j: int| 0 <= j < i ==> !starts_with(e.0@, #[trigger] strings_view(ps@)[j]),
                decreases ps.len() - i,
            {
                if str_starts_with(e.0.as_str(), ps[i].as_str()) {
                    assert(starts_with(e.0@, strings_view(ps@)[i as int]));
                    assert(has_prefix_in(e.0@, strings_view(ps@)));
                    return true;
                }
                i += 1;
            }
            false
        },
        LegFilterArg::Positive => e.1.is_sign_positive(),
        LegFilterArg::Known(k) => k.contains_key(e.0.as_str()),
    }
}

/// A leg filter as the values that carry it.
pub enum LegFilterArg<'a> {
    Prefixed(&'a Vec<String>),
    Positive,
    Known(&'a StrMap<()>),
}

impl<'a> LegFilterArg<'a> {
    pub open spec fn spec(&self) -> LegFilter {
        match self {
            LegFilterArg::Prefixed(ps) => LegFilter::Prefixed(strings_view(ps@)),
            LegFilterArg::Positive => LegFilter::Positive,
            LegFilterArg::Known(k) => LegFilter::Known(k@.dom()),
        }
    }
}

fn filter_legs(l: &Vec<(String, Amount)>, f: &LegFilterArg) -> (r: Vec<(String, Amount)>)
    ensures
        leg_views(r@) == legs_filter(leg_views(l@), f.spec()),
{
    let ghost v = leg_views(l@);
    let mut out: Vec<(String, Amount)> = Vec::new();
    let mut i: usize = 0;
    assert(leg_views(out@) =~= legs_filter(v.take(0), f.spec()));
    while i < l.len()
        invariant
            v == leg_views(l@),
            i <= l.len(),
            leg_views(out@) == legs_filter(v.take(i as int), f.spec()),
        decreases l.len() - i,
    {
        proof {
            assert(v.take(i + 1).drop_last() =~= v.take(i as int));
            assert(v.take(i + 1).last() == (l@[i as int].0@, l@[i as int].1@));
        }
        if keep_leg(f, &l[i]) {
            let ghost before = out@;
            out.push((l[i].0.clone(), l[i].1));
            assert(leg_views(out@) =~= leg_views(before).push((l@[i as int].0@, l@[i as int].1@)));
        }
        i += 1;
    }
    assert(v.take(l.len() as int) =~= v);
    out
}

proof fn lemma_legs_magnitude_prefix(l: Seq<(Seq<char>, (int, nat, bool))>, i: int)
    requires
        0 <= i <= l.len(),
    ensures
        0 <= legs_magnitude(l.take(i)) <= legs_magnitude(l),
    decreases l.len() - i,
{
    if i < l.len() {
        lemma_legs_magnitude_prefix(l, i + 1);
        assert(l.take(i + 1).drop_last() =~= l.take(i));
        lemma_legs_magnitude_nonneg(l.take(i));
    } else {
        assert(l.take(i) =~= l);
        lemma_legs_magnitude_nonneg(l);
    }
}

proof fn lemma_legs_magnitude_nonneg(l: Seq<(Seq<char>, (int, nat, bool))>)
    ensures
        legs_magnitude(l) >= 0,
    decreases l.len(),
{
    if l.len() > 0 {
        lemma_legs_magnitude_nonneg(l.drop_last());
    }
}

/// The sum of the legs' amounts and, per account, the sum of its legs.
fn sum_legs(l: &Vec<(String, Amount)>, Ghost(s): Ghost<nat>) -> (r: (Amount, StrMap<Amount>))
    requires
        legs_fit(leg_views(l@), s),
    ensures
        r.0@ == legs_sum(leg_views(l@)),
        r.0.units() == legs_units(leg_views(l@)),
        r.0@.1 <= s,
        r.0@.1 <= legs_max_scale(leg_views(l@)),
        abs_int(r.0.units()) <= legs_magnitude(leg_views(l@)),
        amount_views(r.1@) == legs_deltas(leg_views(l@)),
        forall|k: Seq<char>| #[trigger]
            r.1@.contains_key(k) ==> r.1@[k]@.1 <= s && abs_int(r.1@[k].units()) <= legs_magnitude(
                leg_views(l@),
            ),
        forall|k: Seq<char>| #[trigger]
            r.1@.contains_key(k) ==> r.1@[k].units() == account_units(leg_views(l@), k),
{
    let ghost v = leg_views(l@);
    let mut acc = Amount::zero();
    let mut deltas: StrMap<Amount> = StrMap::new();
    let mut i: usize = 0;
    proof {
        assert(v.take(0) =~= Seq::<(Seq<char>, (int, nat, bool))>::empty());
        assert(amount_views(deltas@) =~= Map::<Seq<char>, (int, nat, bool)>::empty());
        lemma_legs_magnitude_nonneg(v);
    }
    while i < l.len()
        invariant
            v == leg_views(l@),
            legs_fit(v, s),
            i <= l.len(),
            acc@ == legs_sum(v.take(i as int)),
            acc.units() == legs_units(v.take(i as int)),
            acc@.1 <= s,
            acc@.1 <= legs_max_scale(v.take(i as int)),
            abs_int(acc.units()) <= legs_magnitude(v.take(i as int)),
            amount_views(deltas@) == legs_deltas(v.take(i as int)),
            forall|k: Seq<char>| #[trigger]
                deltas@.contains_key(k) ==> deltas@[k]@.1 <= s && abs_int(deltas@[k].units())
                    <= legs_magnitude(v.take(i as int)),
            forall|k: Seq<char>| #[trigger]
                deltas@.contains_key(k) ==> deltas@[k].units() == account_units(v.take(i as int), k),
            forall|k: Seq<char>|
                !deltas@.contains_key(k) ==> #[trigger] account_units(v.take(i as int), k) == 0,
        decreases l.len() - i,
    {
        let e = &l[i];
        let ghost w = v.take(i + 1);
        proof {
            assert(w.drop_last() =~= v.take(i as int));
            assert(w.last() == v[i as int]);
            assert(v[i as int] == (e.0@, e.1@));
            assert(v[i as int].1.1 <= s);
            lemma_legs_magnitude_prefix(v, i + 1);
            lemma_legs_magnitude_nonneg(v.take(i as int));
            lemma_fits_mono(legs_magnitude(v), acc.units() + e.1.units(), max_nat(acc@.1, e.1@.1), s);
        }
        acc = decimal_add(acc, e.1);
        let prev = match deltas.get(e.0.as_str()) {
            Some(x) => *x,
            None => Amount::zero(),
        };
        proof {
            lemma_fits_mono(
                legs_magnitude(v),
                prev.units() + e.1.units(),
                max_nat(prev@.1, e.1@.1),
                s,
            );
        }
        let next = decimal_add(prev, e.1);
        let ghost before = deltas@;
        deltas.insert(e.0.clone(), next);
        proof {
            assert(amount_views(deltas@) =~= amount_views(before).insert(e.0@, next@));
            assert(amount_views(before).contains_key(e.0@) == before.contains_key(e.0@));
            if before.contains_key(e.0@) {
                assert(amount_views(before)[e.0@] == prev@);
            }
            assert forall|k: Seq<char>| true implies #[trigger] account_units(w, k) == account_units(
                v.take(i as int),
                k,
            ) + if k == e.0@ {
                e.1.units()
            } else {
                0
            } by {}
        }
        i += 1;
    }
    proof {
        assert(v.take(l.len() as int) =~= v);
    }
    (acc, deltas)
}

/// Records the accounts of the incoming legs as places where `bucket`'s money
/// sits.
fn record_accounts(inferred: &mut StrMap<StrMap<()>>, bucket: &str, l: &Vec<(String, Amount)>)
    ensures
        inferred_view(*final(inferred)) == with_accounts(
            inferred_view(*old(inferred)),
            bucket@,
            leg_views(l@),
        ),
{
    let ghost v = leg_views(l@);
    let mut any = false;
    let mut i: usize = 0;
    while i < l.len()
        invariant
            v == leg_views(l@),
            i <= l.len(),
            any == exists|j: int| 0 <= j < i && !(#[trigger] v[j]).1.2,
        decreases l.len() - i,
    {
        if l[i].1.is_sign_positive() {
            assert(!v[i as int].1.2);
            any = true;
        }
        i += 1;
    }
    if !any {
        return;
    }
    let ghost old_view = inferred_view(*inferred);
    let mut set = match inferred.get(bucket) {
        Some(x) => x.copied(),
        None => StrMap::new(),
    };
    let ghost base = if old_view.contains_key(bucket@) {
        old_view[bucket@]
    } else {
        Set::<Seq<char>>::empty()
    };
    assert(set@.dom() =~= base.union(positive_accounts_upto(v, 0)));
    let mut k: usize = 0;
    while k < l.len()
        invariant
            v == leg_views(l@),
            k <= l.len(),
            set@.dom() == base.union(positive_accounts_upto(v, k as int)),
        decreases l.len() - k,
    {
        let ghost before = set@;
        if l[k].1.is_sign_positive() {
            set.insert(l[k].0.clone(), ());
        }
        proof {
            assert(v[k as int] == (l@[k as int].0@, l@[k as int].1@));
            assert forall|a: Seq<char>| #[trigger]
                positive_accounts_upto(v, k + 1).contains(a) == (positive_accounts_upto(
                    v,
                    k as int,
                ).contains(a) || (v[k as int].0 == a && !v[k as int].1.2)) by {
                if positive_accounts_upto(v, k + 1).contains(a) {
                    let j = choose|j: int| 0 <= j < k + 1 && (#[trigger] v[j]).0 == a && !v[j].1.2;
                    if j < k {
                        assert(positive_accounts_upto(v, k as int).contains(a));
                    }
                }
            }
            assert(set@.dom() =~= base.union(positive_accounts_upto(v, k + 1)));
        }
        k += 1;
    }
    inferred.insert(bucket.to_string(), set);
    proof {
        assert(inferred_view(*inferred) =~= old_view.insert(bucket@, set@.dom()));
    }
}

/// The result of summing selected legs: the flow and the per-account deltas.
pub open spec fn sums_of(r: (Amount, StrMap<Amount>), sel: Seq<(Seq<char>, (int, nat, bool))>) -> bool {
    &&& r.0@ == legs_sum(sel)
    &&& r.0.units() == legs_units(sel)
    &&& amount_views(r.1@) == legs_deltas(sel)
    &&& forall|k: Seq<char>| #[trigger] r.1@.contains_key(k) ==> r.1@[k].units() == account_units(sel, k)
}

/// The asset legs of a transaction in the target currency.
pub open spec fn asset_legs(tx: TxView, currency: Seq<char>) -> Seq<(Seq<char>, (int, nat, bool))> {
    legs(tx.postings, "Assets:"@, currency)
}

/// What a transaction moves into (or out of) the asset bucket `bucket`: the
/// sum of the selected asset legs (see [`asset_selection`]) and the change per
/// account.  The accounts of incoming selected legs are remembered in
/// `inferred` as places of the bucket's money, for later withdrawals.
pub fn derive_asset_bucket_flow(
    tx: &LedgerTransaction,
    bucket: &str,
    target_currency: &str,
    mappings: &BudgetMappings,
    inferred: &mut StrMap<StrMap<()>>,
) -> (r: Option<(Amount, StrMap<Amount>)>)
    requires
        exists|s: nat| legs_fit(asset_legs(tx@, target_currency@), s),
    ensures
        asset_selection(
            asset_legs(tx@, target_currency@),
            bucket@,
            *mappings,
            inferred_view(*old(inferred)),
        ) is None ==> r is None && inferred_view(*final(inferred)) == inferred_view(*old(inferred)),
        asset_selection(
            asset_legs(tx@, target_currency@),
            bucket@,
            *mappings,
            inferred_view(*old(inferred)),
        ) matches Some(sel) ==> r is Some && sums_of(r.unwrap(), sel) && inferred_view(
            *final(inferred),
        ) == with_accounts(inferred_view(*old(inferred)), bucket@, sel),
        r matches Some(x) ==> x.0@.1 <= legs_max_scale(asset_legs(tx@, target_currency@))
            && forall|k: Seq<char>| #[trigger]
            x.1@.contains_key(k) ==> abs_int(x.1@[k].units()) <= legs_magnitude(
                asset_legs(tx@, target_currency@),
            ),
{
    let ghost s: nat = choose|s: nat| legs_fit(asset_legs(tx@, target_currency@), s);
    let l = collect_legs(tx, "Assets:", target_currency);
    let ghost v = leg_views(l@);
    let ghost inf0 = inferred_view(*inferred);
    assert(v == asset_legs(tx@, target_currency@));
    if l.len() == 0 {
        return None;
    }
    proof {
        lemma_legs_max_scale(v, s);
        assert forall|f: LegFilter| true implies legs_max_scale(legs_filter(v, f)) <= legs_max_scale(v)
            && legs_magnitude(legs_filter(v, f)) <= legs_magnitude(v) by {
            lemma_legs_max_scale(v, 0);
            lemma_filter_fits(v, f, legs_max_scale(v));
            lemma_legs_max_scale(legs_filter(v, f), legs_max_scale(v));
        }
    }
    match mappings.configured_asset_prefixes(bucket) {
        Some(prefixes) => {
            if prefixes.len() > 0 {
                let f = LegFilterArg::Prefixed(prefixes);
                let sel = filter_legs(&l, &f);
                assert(configured_prefixes(*mappings, bucket@) == strings_view(prefixes@));
                if sel.len() == 0 {
                    return None;
                }
                proof {
                    lemma_filter_fits(v, f.spec(), s);
                    lemma_fits_mono(legs_magnitude(v), legs_magnitude(leg_views(sel@)), s, s);
                }
                let sums = sum_legs(&sel, Ghost(s));
                record_accounts(inferred, bucket, &sel);
                return Some(sums);
            }
        },
        None => {},
    }
    let pos = filter_legs(&l, &LegFilterArg::Positive);
    if pos.len() > 0 {
        proof {
            lemma_filter_fits(v, LegFilter::Positive, s);
            lemma_fits_mono(legs_magnitude(v), legs_magnitude(leg_views(pos@)), s, s);
        }
        let sums = sum_legs(&pos, Ghost(s));
        record_accounts(inferred, bucket, &pos);
        return Some(sums);
    }
    let known_sel = match inferred.get(bucket) {
        Some(known) => {
            let sel = filter_legs(&l, &LegFilterArg::Known(known));
            proof {
                lemma_filter_fits(v, LegFilter::Known(known@.dom()), s);
                assert(inf0[bucket@] == known@.dom());
            }
            if sel.len() > 0 {
                Some(sel)
            } else {
                None
            }
        },
        None => None,
    };
    match known_sel {
        Some(sel) => {
            proof {
                lemma_fits_mono(legs_magnitude(v), legs_magnitude(leg_views(sel@)), s, s);
            }
            let sums = sum_legs(&sel, Ghost(s));
            record_accounts(inferred, bucket, &sel);
            Some(sums)
        },
        None => {
            let sums = sum_legs(&l, Ghost(s));
            record_accounts(inferred, bucket, &l);
            Some(sums)
        },
    }
}

// ---------------------------------------------------------------------------
// `budget` tags
// ---------------------------------------------------------------------------

/// Characters an amount glued to a bucket name is made of (`储蓄900`).
pub open spec fn is_number_char(c: char) -> bool {
    is_ascii_digit(c) || c == '.' || c == '-'
}

/// Index of the last character that cannot belong to a glued amount.
pub open spec fn last_non_number(s: Seq<char>) -> Option<int>
    decreases s.len(),
{
    if s.len() == 0 {
        None
    } else if !is_number_char(s.last()) {
        Some(s.len() - 1)
    } else {
        last_non_number(s.drop_last())
    }
}

proof fn lemma_last_non_number(s: Seq<char>)
    ensures
        last_non_number(s) matches Some(p) ==> 0 <= p < s.len() && !is_number_char(s[p])
            && forall|k: int| p < k < s.len() ==> is_number_char(s[k]),
        last_non_number(s) is None ==> forall|k: int| 0 <= k < s.len() ==> is_number_char(s[k]),
    decreases s.len(),
{
    if s.len() > 0 && is_number_char(s.last()) {
        lemma_last_non_number(s.drop_last());
        assert forall|k: int| 0 <= k < s.len() - 1 implies s[k] == s.drop_last()[k] by {}
    }
}

/// The first `:` (or full-width `：`) of a tag, which separates name and amount.
pub open spec fn tag_colon(raw: Seq<char>) -> Option<int> {
    match first_index_of(raw, ':') {
        Some(i) => Some(i),
        None => first_index_of(raw, '：'),
    }
}

/// A tag `name:amount`, `name：amount` or `name900` split into the bucket name
/// and the amount, read by `Decimal::from_str`: with a colon, the trimmed text
/// before and after it; else a trailing run of digits, `.` and `-` that parses,
/// after a non-empty name; else the whole trimmed tag and no amount.
pub open spec fn bucket_amount_spec(raw: Seq<char>) -> (Seq<char>, Option<(int, nat, bool)>) {
    match tag_colon(raw) {
        Some(i) => (trim(raw.take(i)), decimal_parse(trim(raw.skip(i + 1)))),
        None => {
            let t = trim(raw);
            match last_non_number(t) {
                Some(p) => {
                    let num = t.skip(p + 1);
                    let name = trim_end(t.take(p + 1));
                    if num.len() > 0 && decimal_parse(num) is Some && name.len() > 0 {
                        (name, decimal_parse(num))
                    } else {
                        (t, None)
                    }
                },
                None => (t, None),
            }
        },
    }
}

fn chars_last_non_number(s: &Vec<char>) -> (r: Option<usize>)
    ensures
        opt_index(r) == last_non_number(s@),
{
    let mut i = s.len();
    assert(s@.take(i as int) =~= s@);
    while i > 0
        invariant
            i <= s.len(),
            last_non_number(s@) == last_non_number(s@.take(i as int)),
        decreases i,
    {
        let c = s[i - 1];
        assert(s@.take(i as int).last() == c);
        assert(s@.take(i as int).drop_last() =~= s@.take(i - 1));
        if !(('0' <= c && c <= '9') || c == '.' || c == '-') {
            return Some(i - 1);
        }
        i -= 1;
    }
    None
}

pub open spec fn opt_index(o: Option<usize>) -> Option<int> {
    match o {
        Some(i) => Some(i as int),
        None => None,
    }
}

pub open spec fn opt_amount_view(o: Option<Amount>) -> Option<(int, nat, bool)> {
    match o {
        Some(a) => Some(a@),
        None => None,
    }
}

fn parse_amount_chars(v: &Vec<char>) -> (r: Option<Amount>)
    ensures
        opt_amount_view(r) == decimal_parse(v@),
{
    let text = string_from_chars(v);
    decimal_from_str(text.as_str())
}

/// A tag with a colon (half-width `:`, or else full-width `：`) names the
/// bucket before the first such colon and the amount after it, both trimmed.
pub proof fn lemma_tag_colon_split(name: Seq<char>, c: char, amount: Seq<char>)
    requires
        c == ':' || (c == '：' && forall|k: int| 0 <= k < amount.len() ==> #[trigger] amount[k] != ':'),
        forall|k: int| 0 <= k < name.len() ==> #[trigger] name[k] != ':' && name[k] != '：',
    ensures
        bucket_amount_spec(name + seq![c] + amount) == (trim(name), decimal_parse(trim(amount))),
{
    let raw = name + seq![c] + amount;
    assert forall|k: int| 0 <= k < name.len() implies raw[k] != ':' && raw[k] != '：' by {
        assert(raw[k] == name[k]);
    }
    assert(raw[name.len() as int] == c);
    if c == ':' {
        crate::text::lemma_first_index_of_unique(raw, ':', name.len() as int);
    } else {
        assert forall|k: int| 0 <= k < raw.len() implies raw[k] != ':' by {
            if k > name.len() {
                assert(raw[k] == amount[k - name.len() - 1]);
            }
        }
        crate::text::lemma_first_index_of_none(raw, ':');
        crate::text::lemma_first_index_of_unique(raw, '：', name.len() as int);
    }
    assert(raw.take(name.len() as int) =~= name);
    assert(raw.skip(name.len() as int + 1) =~= amount);
}

/// `s` followed by number characters ends its numberless part where `s`
/// does.
proof fn lemma_last_non_number_append(s: Seq<char>, tail: Seq<char>)
    requires
        s.len() > 0,
        !is_number_char(s.last()),
        forall|k: int| 0 <= k < tail.len() ==> is_number_char(#[trigger] tail[k]),
    ensures
        last_non_number(s + tail) == Some(s.len() - 1),
    decreases tail.len(),
{
    if tail.len() == 0 {
        assert(s + tail =~= s);
    } else {
        assert((s + tail).drop_last() =~= s + tail.drop_last());
        assert((s + tail).last() == tail.last());
        lemma_last_non_number_append(s, tail.drop_last());
    }
}

/// A tag without colons made of a name and the digits of its amount glued
/// on (`电子产品900`) names the bucket and the amount apart, when the name
/// neither starts nor ends with a blank and does not end in a digit, `.` or
/// `-`, and the digits read as a number.
pub proof fn lemma_tag_glued_amount(name: Seq<char>, digits: Seq<char>)
    requires
        name.len() > 0,
        !crate::text::is_ws(name[0]),
        !crate::text::is_ws(name.last()),
        !is_number_char(name.last()),
        digits.len() > 0,
        forall|k: int| 0 <= k < digits.len() ==> is_ascii_digit(#[trigger] digits[k]),
        forall|k: int| 0 <= k < name.len() ==> #[trigger] name[k] != ':' && name[k] != '：',
        decimal_parse(digits) is Some,
    ensures
        bucket_amount_spec(name + digits) == (name, decimal_parse(digits)),
{
    let raw = name + digits;
    assert forall|k: int| 0 <= k < raw.len() implies raw[k] != ':' && raw[k] != '：' by {
        if k >= name.len() {
            assert(raw[k] == digits[k - name.len()]);
        } else {
            assert(raw[k] == name[k]);
        }
    }
    crate::text::lemma_first_index_of_none(raw, ':');
    crate::text::lemma_first_index_of_none(raw, '：');
    assert(raw.last() == digits.last());
    assert(trim_end(raw) == raw);
    assert(raw[0] == name[0]);
    assert(crate::text::trim_start(raw) == raw);
    assert forall|k: int| 0 <= k < digits.len() implies is_number_char(#[trigger] digits[k]) by {}
    lemma_last_non_number_append(name, digits);
    assert(raw.skip(name.len() as int) =~= digits);
    assert(raw.take(name.len() as int) =~= name);
    assert(trim_end(name) == name);
}

/// Splits a `budget` tag into bucket name and optional amount; see
/// [`bucket_amount_spec`].
pub fn parse_bucket_amount(raw: &str) -> (r: (String, Option<Amount>))
    ensures
        (r.0@, opt_amount_view(r.1)) == bucket_amount_spec(raw@),
{
    let v = str_chars(raw);
    let colon = match chars_find(&v, ':') {
        Some(i) => Some(i),
        None => chars_find(&v, '：'),
    };
    proof {
        lemma_first_index_of(v@, ':');
        lemma_first_index_of(v@, '：');
    }
    match colon {
        Some(i) => {
            let name = chars_trim(&slice_chars(&v, 0, i));
            let amt = chars_trim(&slice_chars(&v, i + 1, v.len()));
            proof {
                assert(v@.subrange(0, i as int) =~= v@.take(i as int));
                assert(v@.subrange(i + 1, v@.len() as int) =~= v@.skip(i + 1));
            }
            let parsed = parse_amount_chars(&amt);
            return (string_from_chars(&name), parsed);
        },
        None => {},
    }
    let t = chars_trim(&v);
    match chars_last_non_number(&t) {
        Some(p) => {
            proof {
                lemma_last_non_number(t@);
                assert(opt_index(Some(p)) == last_non_number(t@));
                assert(p < t.len());
            }
            let num = slice_chars(&t, p + 1, t.len());
            assert(num@ =~= t@.skip(p + 1));
            if num.len() > 0 {
                let parsed = parse_amount_chars(&num);
                if parsed.is_some() {
                    let head = slice_chars(&t, 0, p + 1);
                    assert(head@ =~= t@.take(p + 1));
                    let name = chars_trim_end(&head);
                    if name.len() > 0 {
                        return (string_from_chars(&name), parsed);
                    }
                }
            }
            (string_from_chars(&t), None)
        },
        None => (string_from_chars(&t), None),
    }
}

/// The text of a transaction's `budget` tag (`budge` when there is no
/// `budget`), trimmed; `None` when absent or blank.
pub open spec fn override_text(meta: Map<Seq<char>, Seq<char>>) -> Option<Seq<char>> {
    let v = if meta.contains_key("budget"@) {
        Some(meta["budget"@])
    } else if meta.contains_key("budge"@) {
        Some(meta["budge"@])
    } else {
        None
    };
    match v {
        Some(x) => if trim(x).len() > 0 {
            Some(trim(x))
        } else {
            None
        },
        None => None,
    }
}

/// The pieces of `s` between commas (`str::split(',')`).
pub open spec fn comma_pieces(s: Seq<char>) -> Seq<Seq<char>>
    decreases s.len(),
{
    match first_index_of(s, ',') {
        Some(i) => {
            proof {
                lemma_first_index_of(s, ',');
            }
            seq![s.take(i)] + comma_pieces(s.skip(i + 1))
        },
        None => seq![s],
    }
}

/// Full-width commas read as commas.
pub open spec fn normalize_commas(s: Seq<char>) -> Seq<char> {
    s.map_values(|c: char| if c == '，' { ',' } else { c })
}

/// The non-blank trimmed pieces of a list.
pub open spec fn nonblank_trimmed(p: Seq<Seq<char>>) -> Seq<Seq<char>>
    decreases p.len(),
{
    if p.len() == 0 {
        Seq::empty()
    } else if trim(p.last()).len() > 0 {
        nonblank_trimmed(p.drop_last()).push(trim(p.last()))
    } else {
        nonblank_trimmed(p.drop_last())
    }
}

/// The bucket tags of a `budget` text: comma-separated (half- or full-width).
pub open spec fn tag_items(text: Seq<char>) -> Seq<Seq<char>> {
    nonblank_trimmed(comma_pieces(normalize_commas(text)))
}

/// The tags of a `budget` text, split into bucket names and amounts.
pub open spec fn bucket_tags(text: Seq<char>) -> Seq<(Seq<char>, Option<(int, nat, bool)>)> {
    tag_items(text).map_values(|t: Seq<char>| bucket_amount_spec(t))
}

/// Splitting at commas: a comma between two texts splits the pieces of
/// the first from those of the second.
proof fn lemma_comma_pieces_concat(x: Seq<char>, y: Seq<char>)
    ensures
        comma_pieces(x + seq![','] + y) == comma_pieces(x) + comma_pieces(y),
    decreases x.len(),
{
    let w = x + seq![','] + y;
    lemma_first_index_of(x, ',');
    match first_index_of(x, ',') {
        Some(i) => {
            assert(w[i] == ',');
            assert forall|k: int| 0 <= k < i implies w[k] != ',' by {
                assert(w[k] == x[k]);
            }
            crate::text::lemma_first_index_of_unique(w, ',', i);
            assert(w.take(i) =~= x.take(i));
            assert(w.skip(i + 1) =~= x.skip(i + 1) + seq![','] + y);
            lemma_comma_pieces_concat(x.skip(i + 1), y);
            assert(comma_pieces(w) =~= seq![x.take(i)] + (comma_pieces(x.skip(i + 1)) + comma_pieces(y)));
        },
        None => {
            assert(w[x.len() as int] == ',');
            assert forall|k: int| 0 <= k < x.len() implies w[k] != ',' by {
                assert(w[k] == x[k]);
            }
            crate::text::lemma_first_index_of_unique(w, ',', x.len() as int);
            assert(w.take(x.len() as int) =~= x);
            assert(w.skip(x.len() as int + 1) =~= y);
        },
    }
}

/// The non-blank trimmed pieces of two lists, one after the other.
proof fn lemma_nonblank_trimmed_concat(p: Seq<Seq<char>>, q: Seq<Seq<char>>)
    ensures
        nonblank_trimmed(p + q) == nonblank_trimmed(p) + nonblank_trimmed(q),
    decreases q.len(),
{
    if q.len() == 0 {
        assert(p + q =~= p);
        assert(nonblank_trimmed(p) + nonblank_trimmed(q) =~= nonblank_trimmed(p));
    } else {
        assert((p + q).drop_last() =~= p + q.drop_last());
        assert((p + q).last() == q.last());
        lemma_nonblank_trimmed_concat(p, q.drop_last());
        if trim(q.last()).len() > 0 {
            assert(nonblank_trimmed(p + q) =~= nonblank_trimmed(p) + nonblank_trimmed(q));
        } else {
            assert(nonblank_trimmed(p + q) =~= nonblank_trimmed(p) + nonblank_trimmed(q));
        }
    }
}

/// A `budget` text with no comma of either width is one tag: the text
/// trimmed, or no tag when that is empty.
pub proof fn lemma_tag_without_commas(text: Seq<char>)
    requires
        forall|i: int| 0 <= i < text.len() ==> #[trigger] text[i] != ',' && text[i] != '，',
    ensures
        tag_items(text) == (if trim(text).len() > 0 {
            seq![trim(text)]
        } else {
            Seq::<Seq<char>>::empty()
        }),
{
    assert(normalize_commas(text) =~= text);
    crate::text::lemma_first_index_of_none(text, ',');
    assert(comma_pieces(text) == seq![text]);
    let p = seq![text];
    assert(p.drop_last() =~= Seq::<Seq<char>>::empty());
    assert(p.last() == text);
    assert(nonblank_trimmed(Seq::<Seq<char>>::empty()) == Seq::<Seq<char>>::empty());
    if trim(text).len() > 0 {
        assert(nonblank_trimmed(seq![text]) =~= seq![trim(text)]);
    } else {
        assert(nonblank_trimmed(seq![text]) =~= Seq::<Seq<char>>::empty());
    }
}

/// A `budget` text lists its tags split at commas, half-width `,` or
/// full-width `，` alike: the tags of two texts joined by either comma are
/// the tags of the first followed by the tags of the second.
pub proof fn lemma_tags_split_at_either_comma(a: Seq<char>, c: char, b: Seq<char>)
    requires
        c == ',' || c == '，',
    ensures
        tag_items(a + seq![c] + b) == tag_items(a) + tag_items(b),
        bucket_tags(a + seq![c] + b) == bucket_tags(a) + bucket_tags(b),
{
    let na = normalize_commas(a);
    let nb = normalize_commas(b);
    assert(normalize_commas(a + seq![c] + b) =~= na + seq![','] + nb);
    lemma_comma_pieces_concat(na, nb);
    lemma_nonblank_trimmed_concat(comma_pieces(na), comma_pieces(nb));
    assert(tag_items(a + seq![c] + b) == tag_items(a) + tag_items(b));
    assert(bucket_tags(a + seq![c] + b) =~= bucket_tags(a) + bucket_tags(b));
}

/// `k` names a bucket whose last parts are `n`: it ends with `.` and `n`.
pub open spec fn is_dot_suffix(n: Seq<char>, k: Seq<char>) -> bool {
    &&& k.len() > n.len()
    &&& k[k.len() - n.len() - 1] == '.'
    &&& crate::text::ends_with(k, n)
}

/// The known buckets whose name ends with `.` and `n`, in order.
pub open spec fn suffix_matches(keys: Seq<Seq<char>>, n: Seq<char>) -> Seq<Seq<char>>
    decreases keys.len(),
{
    if keys.len() == 0 {
        Seq::empty()
    } else if is_dot_suffix(n, keys.last()) {
        suffix_matches(keys.drop_last(), n).push(keys.last())
    } else {
        suffix_matches(keys.drop_last(), n)
    }
}

/// A tag's bucket name completed against the known buckets: a known name
/// stays; a short name that exactly one known bucket ends with (after a `.`)
/// becomes that bucket (`额外储蓄` becomes `投资.额外储蓄`); any other name
/// stays.
pub open spec fn complete_name(keys: Seq<Seq<char>>, n: Seq<char>) -> Seq<char> {
    if keys.contains(n) {
        n
    } else if suffix_matches(keys, n).len() == 1 {
        suffix_matches(keys, n)[0]
    } else {
        n
    }
}

/// The known buckets that end with `.` and `n` are exactly `suffix_matches`'s
/// members.
proof fn lemma_suffix_matches_members(keys: Seq<Seq<char>>, n: Seq<char>, x: Seq<char>)
    ensures
        suffix_matches(keys, n).contains(x) <==> keys.contains(x) && is_dot_suffix(n, x),
    decreases keys.len(),
{
    if keys.len() > 0 {
        let r = suffix_matches(keys.drop_last(), n);
        lemma_suffix_matches_members(keys.drop_last(), n, x);
        assert(keys =~= keys.drop_last().push(keys.last()));
        if keys.contains(x) && !keys.drop_last().contains(x) {
            let k = choose|k: int| 0 <= k < keys.len() && keys[k] == x;
            if k < keys.len() - 1 {
                assert(keys.drop_last()[k] == x);
            }
        }
        if keys.drop_last().contains(x) {
            let k = choose|k: int| 0 <= k < keys.len() - 1 && keys.drop_last()[k] == x;
            assert(keys[k] == x);
        }
        if is_dot_suffix(n, keys.last()) {
            if r.contains(x) {
                let k = choose|k: int| 0 <= k < r.len() && r[k] == x;
                assert(r.push(keys.last())[k] == x);
            }
            if r.push(keys.last()).contains(x) && !r.contains(x) {
                let k = choose|k: int| 0 <= k < r.len() + 1 && r.push(keys.last())[k] == x;
                assert(k == r.len());
            }
            if keys.last() == x {
                assert(r.push(keys.last())[r.len() as int] == x);
            }
        }
    }
}

/// With distinct keys of which only `k` ends with `.` and `n`, the matches
/// are `k` alone.
proof fn lemma_suffix_matches_single(keys: Seq<Seq<char>>, n: Seq<char>, k: Seq<char>)
    requires
        keys.contains(k),
        is_dot_suffix(n, k),
        forall|i: int, j: int| 0 <= i < j < keys.len() ==> keys[i] != keys[j],
        forall|i: int| 0 <= i < keys.len() && is_dot_suffix(n, #[trigger] keys[i]) ==> keys[i] == k,
    ensures
        suffix_matches(keys, n) == seq![k],
    decreases keys.len(),
{
    let d = keys.drop_last();
    if keys.last() == k {
        assert forall|i: int| 0 <= i < d.len() implies !is_dot_suffix(n, #[trigger] d[i]) by {
            assert(keys[i] == d[i]);
            if is_dot_suffix(n, d[i]) {
                assert(keys[i] == k);
                assert(keys[i] != keys[keys.len() - 1]);
            }
        }
        lemma_suffix_matches_none(d, n);
        assert(suffix_matches(keys, n) =~= seq![k]);
    } else {
        let c = choose|c: int| 0 <= c < keys.len() && keys[c] == k;
        assert(d[c] == k);
        assert forall|i: int, j: int| 0 <= i < j < d.len() implies d[i] != d[j] by {
            assert(d[i] == keys[i] && d[j] == keys[j]);
        }
        assert forall|i: int| 0 <= i < d.len() && is_dot_suffix(n, #[trigger] d[i]) implies d[i] == k by {
            assert(keys[i] == d[i]);
        }
        lemma_suffix_matches_single(d, n, k);
        assert(!is_dot_suffix(n, keys.last())) by {
            if is_dot_suffix(n, keys.last()) {
                assert(keys[keys.len() - 1] == k);
            }
        }
    }
}

/// No key ending with `.` and `n`: no matches.
proof fn lemma_suffix_matches_none(keys: Seq<Seq<char>>, n: Seq<char>)
    requires
        forall|i: int| 0 <= i < keys.len() ==> !is_dot_suffix(n, #[trigger] keys[i]),
    ensures
        suffix_matches(keys, n) == Seq::<Seq<char>>::empty(),
    decreases keys.len(),
{
    if keys.len() > 0 {
        let d = keys.drop_last();
        assert forall|i: int| 0 <= i < d.len() implies !is_dot_suffix(n, #[trigger] d[i]) by {
            assert(keys[i] == d[i]);
        }
        lemma_suffix_matches_none(d, n);
        assert(!is_dot_suffix(n, keys[keys.len() - 1]));
    }
}

/// Short tag names: a known bucket name stays as it is; a name that is not
/// known becomes the one known bucket named `prefix.name` when exactly one
/// known bucket is so named; and a name only ever turns into a known bucket
/// that ends with `.` and the name.
pub proof fn lemma_short_name_completion(keys: Seq<Seq<char>>, n: Seq<char>, prefix: Seq<char>)
    requires
        forall|i: int, j: int| 0 <= i < j < keys.len() ==> keys[i] != keys[j],
    ensures
        keys.contains(n) ==> complete_name(keys, n) == n,
        complete_name(keys, n) != n ==> keys.contains(complete_name(keys, n)) && exists|p: Seq<char>|
            complete_name(keys, n) == #[trigger] (p + seq!['.'] + n),
        !keys.contains(n) && keys.contains(prefix + seq!['.'] + n) && (forall|i: int|
            0 <= i < keys.len() && #[trigger] keys[i].len() > n.len() && keys[i].skip(
                keys[i].len() - n.len() - 1,
            ) == seq!['.'] + n ==> keys[i] == prefix + seq!['.'] + n) ==> complete_name(keys, n)
            == prefix + seq!['.'] + n,
{
    let k = prefix + seq!['.'] + n;
    assert(is_dot_suffix(n, k)) by {
        assert(k[k.len() - n.len() - 1] == '.');
        assert(k.subrange(k.len() - n.len(), k.len() as int) =~= n);
    }
    if complete_name(keys, n) != n {
        let x = suffix_matches(keys, n)[0];
        assert(suffix_matches(keys, n).contains(x));
        lemma_suffix_matches_members(keys, n, x);
        let p = x.take(x.len() - n.len() - 1);
        assert(x =~= p + seq!['.'] + n) by {
            assert(x.subrange(x.len() - n.len(), x.len() as int) == n);
        }
    }
    if !keys.contains(n) && keys.contains(k) && (forall|i: int|
        0 <= i < keys.len() && #[trigger] keys[i].len() > n.len() && keys[i].skip(
            keys[i].len() - n.len() - 1,
        ) == seq!['.'] + n ==> keys[i] == k) {
        assert forall|i: int| 0 <= i < keys.len() && is_dot_suffix(n, #[trigger] keys[i]) implies keys[i] == k by {
            let x = keys[i];
            assert(x.subrange(x.len() - n.len(), x.len() as int) == n);
            assert(x.skip(x.len() - n.len() - 1) =~= seq!['.'] + n);
        }
        lemma_suffix_matches_single(keys, n, k);
    }
}

/// Tags with their bucket names completed.
pub open spec fn complete_tags(
    tags: Seq<(Seq<char>, Option<(int, nat, bool)>)>,
    keys: Seq<Seq<char>>,
) -> Seq<(Seq<char>, Option<(int, nat, bool)>)> {
    tags.map_values(|t: (Seq<char>, Option<(int, nat, bool)>)| (complete_name(keys, t.0), t.1))
}

fn chars_dot_suffix(n: &Vec<char>, k: &Vec<char>) -> (r: bool)
    ensures
        r == is_dot_suffix(n@, k@),
{
    if k.len() <= n.len() {
        return false;
    }
    let off = k.len() - n.len();
    if k[off - 1] != '.' {
        return false;
    }
    let mut i: usize = 0;
    while i < n.len()
        invariant
            off == k.len() - n.len(),
            k.len() > n.len(),
            i <= n.len(),
            forall|j: int| 0 <= j < i ==> k@[off + j] == n@[j],
        decreases n.len() - i,
    {
        if k[off + i] != n[i] {
            assert(k@.subrange(off as int, k.len() as int)[i as int] != n@[i as int]);
            return false;
        }
        i += 1;
    }
    assert(k@.subrange(off as int, k.len() as int) =~= n@);
    true
}

/// Completes a tag's bucket name against the known buckets; see
/// [`complete_name`].
pub fn complete_bucket_name(known: &StrMap<()>, name: &String) -> (r: String)
    ensures
        r@ == complete_name(known.keys(), name@),
{
    let cnt = known.len();
    proof {
        known.lemma_keys_sorted();
    }
    if known.contains_key(name.as_str()) {
        assert(known.keys().to_set().contains(name@));
        return name.clone();
    }
    assert(!known.keys().contains(name@)) by {
        if known.keys().contains(name@) {
            assert(known.keys().to_set().contains(name@));
        }
    }
    let ghost keys = known.keys();
    let nc = str_chars(name.as_str());
    let mut count: usize = 0;
    let mut found: Option<String> = None;
    let mut i: usize = 0;
    assert(keys.take(0) =~= Seq::<Seq<char>>::empty());
    while i < cnt
        invariant
            keys == known.keys(),
            cnt == keys.len(),
            nc@ == name@,
            i <= cnt,
            count == suffix_matches(keys.take(i as int), name@).len(),
            count <= i,
            count >= 1 ==> (found matches Some(f) && f@ == suffix_matches(keys.take(i as int), name@)[0]),
        decreases cnt - i,
    {
        let k = known.key_at(i);
        let kc = str_chars(k.as_str());
        proof {
            assert(keys.take(i + 1).drop_last() =~= keys.take(i as int));
            assert(keys.take(i + 1).last() == keys[i as int]);
        }
        if chars_dot_suffix(&nc, &kc) {
            if count == 0 {
                found = Some(k.clone());
            }
            count += 1;
        }
        i += 1;
    }
    assert(keys.take(cnt as int) =~= keys);
    if count == 1 {
        match found {
            Some(f) => f,
            None => name.clone(),
        }
    } else {
        name.clone()
    }
}

fn chars_normalize_commas(v: &Vec<char>) -> (r: Vec<char>)
    ensures
        r@ == normalize_commas(v@),
{
    let mut out: Vec<char> = Vec::new();
    let mut i: usize = 0;
    while i < v.len()
        invariant
            i <= v.len(),
            out@ == normalize_commas(v@.take(i as int)),
        decreases v.len() - i,
    {
        let c = if v[i] == '，' {
            ','
        } else {
            v[i]
        };
        let ghost before = out@;
        out.push(c);
        assert(normalize_commas(v@.take(i + 1)) =~= before.push(c));
        i += 1;
    }
    assert(v@.take(v.len() as int) =~= v@);
    out
}

/// The trimmed, non-blank comma-separated items of `v`.
fn chars_tag_items(v: &Vec<char>) -> (r: Vec<Vec<char>>)
    ensures
        chars_views(r@) == nonblank_trimmed(comma_pieces(v@)),
{
    let mut out: Vec<Vec<char>> = Vec::new();
    let mut rest = slice_chars(v, 0, v.len());
    assert(rest@ =~= v@);
    let ghost done: Seq<Seq<char>> = Seq::empty();
    assert(chars_views(out@) =~= nonblank_trimmed(done));
    loop
        invariant_except_break
            comma_pieces(v@) == done + comma_pieces(rest@),
            chars_views(out@) == nonblank_trimmed(done),
        ensures
            chars_views(out@) == nonblank_trimmed(comma_pieces(v@)),
        decreases rest.len(),
    {
        proof {
            lemma_first_index_of(rest@, ',');
        }
        let (piece, next) = match chars_find(&rest, ',') {
            Some(i) => {
                let p = slice_chars(&rest, 0, i);
                let n = slice_chars(&rest, i + 1, rest.len());
                assert(p@ =~= rest@.take(i as int));
                assert(n@ =~= rest@.skip(i + 1));
                (p, Some(n))
            },
            None => (slice_chars(&rest, 0, rest.len()), None),
        };
        let t = chars_trim(&piece);
        let ghost before = out@;
        proof {
            assert((done.push(piece@)).drop_last() =~= done);
        }
        if t.len() > 0 {
            out.push(t);
            assert(chars_views(out@) =~= chars_views(before).push(t@));
        }
        proof {
            done = done.push(piece@);
        }
        match next {
            Some(n) => {
                assert(comma_pieces(v@) =~= done + comma_pieces(n@));
                rest = n;
            },
            None => {
                assert(piece@ =~= rest@);
                assert(comma_pieces(v@) =~= done);
                break ;
            },
        }
    }
    out
}

/// The bucket tags of a transaction, when it has a `budget` tag.
pub fn transaction_tags(tx: &LedgerTransaction) -> (r: Option<Vec<(String, Option<Amount>)>>)
    ensures
        override_text(tx@.metadata) is None ==> r is None,
        override_text(tx@.metadata) matches Some(t) ==> r is Some && tag_views(r.unwrap()@)
            == bucket_tags(t),
{
    let raw = match tx.metadata.get("budget") {
        Some(v) => Some(v),
        None => tx.metadata.get("budge"),
    };
    proof {
        reveal_strlit("budget");
        reveal_strlit("budge");
    }
    let raw = match raw {
        Some(v) => v,
        None => {
            return None;
        },
    };
    let trimmed = chars_trim(&str_chars(raw.as_str()));
    if trimmed.len() == 0 {
        return None;
    }
    let items = chars_tag_items(&chars_normalize_commas(&trimmed));
    let mut out: Vec<(String, Option<Amount>)> = Vec::new();
    let mut i: usize = 0;
    while i < items.len()
        invariant
            i <= items.len(),
            out@.len() == i,
            tag_views(out@) == chars_views(items@).take(i as int).map_values(
                |t: Seq<char>| bucket_amount_spec(t),
            ),
        decreases items.len() - i,
    {
        let text = string_from_chars(&items[i]);
        let tag = parse_bucket_amount(text.as_str());
        let ghost tag_view = (tag.0@, opt_amount_view(tag.1));
        let ghost before = out@;
        out.push(tag);
        proof {
            assert(chars_views(items@)[i as int] == items@[i as int]@);
            assert(tag_views(out@)[i as int] == tag_view);
            assert(tag_views(out@).drop_last() =~= tag_views(before));
            assert forall|j: int| 0 <= j < i implies tag_views(out@)[j] == tag_views(before)[j] by {
                assert(tag_views(out@).drop_last()[j] == tag_views(out@)[j]);
            }
            let rhs = chars_views(items@).take(i + 1).map_values(
                |t: Seq<char>| bucket_amount_spec(t),
            );
            let lhs0 = chars_views(items@).take(i as int).map_values(
                |t: Seq<char>| bucket_amount_spec(t),
            );
            assert(tag_view == bucket_amount_spec(items@[i as int]@));
            assert forall|j: int| 0 <= j < i + 1 implies tag_views(out@)[j] == rhs[j] by {
                if j < i {
                    assert(tag_views(before)[j] == lhs0[j]);
                }
            }
            assert(tag_views(out@) =~= rhs);
        }
        i += 1;
    }
    assert(chars_views(items@).take(items.len() as int) =~= chars_views(items@));
    Some(out)
}

pub open spec fn tag_views(v: Seq<(String, Option<Amount>)>) -> Seq<(Seq<char>, Option<(int, nat, bool)>)> {
    v.map_values(|e: (String, Option<Amount>)| (e.0@, opt_amount_view(e.1)))
}

// ---------------------------------------------------------------------------
// Fixed amounts (`储蓄:500`)
// ---------------------------------------------------------------------------

/// `(cap / flow).round_dp(6)`.
pub open spec fn cap_ratio(cap: (int, nat, bool), flow: (int, nat, bool)) -> (int, nat, bool) {
    decimal_rounded(decimal_quotient(cap, flow), 6)
}

/// Each delta times `ratio`, rounded to cents; the zeros dropped.
pub open spec fn scaled_deltas(d: Map<Seq<char>, (int, nat, bool)>, ratio: (int, nat, bool)) -> Map<
    Seq<char>,
    (int, nat, bool),
> {
    Map::new(
        |k: Seq<char>| d.contains_key(k) && decimal_rounded(decimal_product(d[k], ratio), 2).0 != 0,
        |k: Seq<char>| decimal_rounded(decimal_product(d[k], ratio), 2),
    )
}

/// A fixed amount replaces the flow; the deltas are scaled by the same ratio
/// (they stay as they are when the flow was zero).
pub open spec fn capped(
    flow: (int, nat, bool),
    deltas: Map<Seq<char>, (int, nat, bool)>,
    cap: Option<(int, nat, bool)>,
) -> ((int, nat, bool), Map<Seq<char>, (int, nat, bool)>) {
    match cap {
        None => (flow, deltas),
        Some(c) => if view_units(flow) == 0 {
            (c, deltas)
        } else {
            (c, scaled_deltas(deltas, cap_ratio(c, flow)))
        },
    }
}

/// A fixed amount small enough that scaling deltas of magnitude at most
/// `bound` (flows with at most `s` digits after the point) stays in range.
pub open spec fn cap_in_range(c: (int, nat, bool), s: nat, bound: int) -> bool {
    &&& abs_int(view_units(c)) < mantissa_bound() / 2 * pow10((28 - s) as nat)
    &&& bound * (abs_int(view_units(c)) * pow10(s) + 2 * pow10(28)) < mantissa_bound() / 2 * pow10(
        28,
    ) * pow10(28)
}

proof fn lemma_ratio_bound(c: int, f: int, q: int, r: int, p: int, x: int, t: int)
    requires
        f >= p > 0,
        x >= 1,
        t == p * x,
        c >= 0,
        q >= 0,
        r >= 0,
        q * f <= (c + f) * t,
        r <= q + t,
    ensures
        r <= c * x + 2 * t,
{
    assert(q <= c * x + t) by (nonlinear_arith)
        requires
            f >= p > 0,
            t == p * x,
            x >= 1,
            c >= 0,
            q >= 0,
            q * f <= (c + f) * t,
    ;
}

proof fn lemma_product_bound(a: int, r: int, b: int, rb: int, k: int)
    requires
        0 <= a <= b,
        0 <= r <= rb,
        b * rb < k,
    ensures
        a * r < k,
{
    assert(a * r <= b * rb) by (nonlinear_arith)
        requires
            0 <= a <= b,
            0 <= r <= rb,
    ;
}

/// Replaces the flow by a fixed amount and scales the deltas alike.
fn apply_cap(
    flow: Amount,
    deltas: StrMap<Amount>,
    cap: Option<Amount>,
    Ghost(s): Ghost<nat>,
    Ghost(bound): Ghost<int>,
) -> (r: (Amount, StrMap<Amount>))
    requires
        flow@.1 <= s <= 28,
        bound >= 0,
        forall|k: Seq<char>| #[trigger]
            deltas@.contains_key(k) ==> abs_int(deltas@[k].units()) <= bound,
        cap matches Some(c) ==> cap_in_range(c@, s, bound),
    ensures
        (r.0@, amount_views(r.1@)) == capped(flow@, amount_views(deltas@), opt_amount_view(cap)),
{
    let c = match cap {
        None => {
            return (flow, deltas);
        },
        Some(c) => c,
    };
    if flow.is_zero() {
        return (c, deltas);
    }
    flow.check_valid();
    c.check_valid();
    let ghost p = pow10((28 - s) as nat);
    proof {
        lemma_nonzero_magnitude(flow, s);
        lemma_pow10_pos((28 - s) as nat);
        lemma_pow10_pos(s);
        assert(mantissa_bound() / 2 * p <= mantissa_bound() / 2 * abs_int(flow.units()))
            by (nonlinear_arith)
            requires
                p <= abs_int(flow.units()),
        ;
    }
    let q = decimal_div(c, flow);
    let ratio = decimal_round_dp(q, 6);
    let ghost rb = abs_int(c.units()) * pow10(s) + 2 * pow10(28);
    proof {
        lemma_pow10_add((28 - s) as nat, s);
        assert((28 - s) as nat + s == 28);
        lemma_ratio_bound(
            abs_int(c.units()),
            abs_int(flow.units()),
            abs_int(q.units()),
            abs_int(ratio.units()),
            p,
            pow10(s),
            pow10(28),
        );
    }
    let mut out: StrMap<Amount> = StrMap::new();
    let n = deltas.len();
    let mut i: usize = 0;
    let ghost d = amount_views(deltas@);
    let ghost keys = deltas.keys();
    while i < n
        invariant
            n == keys.len(),
            keys == deltas.keys(),
            d == amount_views(deltas@),
            deltas.well_ordered(),
            i <= n,
            abs_int(ratio.units()) <= rb,
            bound * rb < mantissa_bound() / 2 * pow10(28) * pow10(28),
            bound >= 0,
            forall|k: Seq<char>| #[trigger]
                deltas@.contains_key(k) ==> abs_int(deltas@[k].units()) <= bound,
            amount_views(out@) == Map::new(
                |k: Seq<char>| keys.take(i as int).contains(k) && decimal_rounded(
                    decimal_product(d[k], ratio@),
                    2,
                ).0 != 0,
                |k: Seq<char>| decimal_rounded(decimal_product(d[k], ratio@), 2),
            ),
        decreases n - i,
    {
        let k = deltas.key_at(i);
        let v = *deltas.value_at(i);
        proof {
            deltas.lemma_index(i as int);
            lemma_product_bound(
                abs_int(v.units()),
                abs_int(ratio.units()),
                bound,
                rb,
                mantissa_bound() / 2 * pow10(28) * pow10(28),
            );
            assert(abs_int(v.units() * ratio.units()) == abs_int(v.units()) * abs_int(
                ratio.units(),
            )) by (nonlinear_arith);
        }
        let prod = decimal_mul(v, ratio);
        let rounded = decimal_round_dp(prod, 2);
        let ghost before = out@;
        proof {
            assert(d[k@] == v@);
        }
        if !rounded.is_zero() {
            out.insert(k.clone(), rounded);
            assert(amount_views(out@) =~= amount_views(before).insert(k@, rounded@));
        } else {
            assert(amount_views(out@) =~= amount_views(before));
        }
        proof {
            assert(rounded@ == decimal_rounded(decimal_product(d[k@], ratio@), 2));
            assert(k@ == keys[i as int]);
            assert forall|key: Seq<char>| #[trigger]
                keys.take(i + 1).contains(key) == (keys.take(i as int).contains(key) || key
                    == keys[i as int]) by {
                if keys.take(i + 1).contains(key) {
                    let j = choose|j: int| 0 <= j < i + 1 && #[trigger] keys.take(i + 1)[j] == key;
                    if j < i {
                        assert(keys.take(i as int)[j] == key);
                    }
                }
                if keys.take(i as int).contains(key) {
                    let j = choose|j: int| 0 <= j < i && #[trigger] keys.take(i as int)[j] == key;
                    assert(keys.take(i + 1)[j] == key);
                }
                if key == keys[i as int] {
                    assert(keys.take(i + 1)[i as int] == key);
                }
            }
            assert(amount_views(out@) =~= Map::new(
                |key: Seq<char>| keys.take(i + 1).contains(key) && decimal_rounded(
                    decimal_product(d[key], ratio@),
                    2,
                ).0 != 0,
                |key: Seq<char>| decimal_rounded(decimal_product(d[key], ratio@), 2),
            ));
        }
        i += 1;
    }
    proof {
        assert(keys.take(n as int) =~= keys);
        assert(amount_views(out@) =~= scaled_deltas(d, cap_ratio(c@, flow@)));
    }
    (c, out)
}

// ---------------------------------------------------------------------------
// Flows of transactions
// ---------------------------------------------------------------------------

/// A flow as plain values.
pub struct FlowView {
    pub date: LedgerDate,
    pub month: Seq<char>,
    pub bucket: Seq<char>,
    pub kind: BucketKind,
    pub flow: (int, nat, bool),
    pub payee: Option<Seq<char>>,
    pub narration: Option<Seq<char>>,
    pub location_deltas: Map<Seq<char>, (int, nat, bool)>,
    pub metadata: Map<Seq<char>, Seq<char>>,
}

impl View for BucketTxFlow {
    type V = FlowView;

    open spec fn view(&self) -> FlowView {
        FlowView {
            date: self.date,
            month: self.month@,
            bucket: self.bucket@,
            kind: self.kind,
            flow: self.flow@,
            payee: opt_seq(self.payee),
            narration: opt_seq(self.narration),
            location_deltas: amount_views(self.location_deltas@),
            metadata: string_views(self.metadata@),
        }
    }
}

pub open spec fn flow_views(s: Seq<BucketTxFlow>) -> Seq<FlowView> {
    s.map_values(|f: BucketTxFlow| f@)
}

/// The flow a transaction gives a bucket.
pub open spec fn make_flow(
    tx: TxView,
    month: Seq<char>,
    bucket: Seq<char>,
    kind: BucketKind,
    flow: (int, nat, bool),
    deltas: Map<Seq<char>, (int, nat, bool)>,
) -> FlowView {
    FlowView {
        date: tx.date,
        month,
        bucket,
        kind,
        flow,
        payee: tx.payee,
        narration: tx.narration,
        location_deltas: deltas,
        metadata: tx.metadata,
    }
}

/// The expense legs of a transaction in the target currency.
pub open spec fn expense_legs(tx: TxView, currency: Seq<char>) -> Seq<(Seq<char>, (int, nat, bool))> {
    legs(tx.postings, "Expenses:"@, currency)
}

/// `0 - a1 - a2 - ...` as `rust_decimal` computes it.
pub open spec fn legs_neg_sum(l: Seq<(Seq<char>, (int, nat, bool))>) -> (int, nat, bool)
    decreases l.len(),
{
    if l.len() == 0 {
        zero_view()
    } else {
        decimal_difference(legs_neg_sum(l.drop_last()), l.last().1)
    }
}

/// A flow whose size exceeds the fixed amount is cut to it, keeping its sign.
pub open spec fn clamp_to_cap(flow: (int, nat, bool), cap: Option<(int, nat, bool)>) -> (
    int,
    nat,
    bool,
) {
    match cap {
        None => flow,
        Some(c) => if abs_int(view_units(flow)) > abs_int(view_units(c)) {
            if flow.2 {
                (-abs_int(c.0), c.1, true)
            } else {
                (abs_int(c.0), c.1, false)
            }
        } else {
            flow
        },
    }
}

/// An expense-tagged transaction without spending, recorded as a transfer
/// between asset accounts: all its asset legs, the incoming ones as flow.
pub open spec fn transfer_flows(
    tx: TxView,
    month: Seq<char>,
    bucket: Seq<char>,
    cap: Option<(int, nat, bool)>,
    currency: Seq<char>,
) -> Seq<FlowView> {
    let a = asset_legs(tx, currency);
    let scaled = capped(legs_sum(legs_filter(a, LegFilter::Positive)), legs_deltas(a), cap);
    if a.len() > 0 && scaled.1 != Map::<Seq<char>, (int, nat, bool)>::empty() {
        seq![make_flow(tx, month, bucket, BucketKind::Asset, scaled.0, scaled.1)]
    } else {
        Seq::empty()
    }
}

/// The flows of one `budget` tag, and the inferred asset accounts after it.
pub open spec fn tag_flows(
    tx: TxView,
    month: Seq<char>,
    bucket: Seq<char>,
    cap: Option<(int, nat, bool)>,
    m: BudgetMappings,
    currency: Seq<char>,
    inf: Map<Seq<char>, Set<Seq<char>>>,
) -> (Seq<FlowView>, Map<Seq<char>, Set<Seq<char>>>) {
    match bucket_kind_spec(m, bucket) {
        BucketKind::Expense => {
            let f = legs_neg_sum(expense_legs(tx, currency));
            if view_units(f) == 0 {
                (transfer_flows(tx, month, bucket, cap, currency), inf)
            } else {
                (
                    seq![
                        make_flow(
                            tx,
                            month,
                            bucket,
                            BucketKind::Expense,
                            clamp_to_cap(f, cap),
                            Map::empty(),
                        ),
                    ],
                    inf,
                )
            }
        },
        BucketKind::Asset => match asset_selection(asset_legs(tx, currency), bucket, m, inf) {
            None => (Seq::empty(), inf),
            Some(sel) => {
                let scaled = capped(legs_sum(sel), legs_deltas(sel), cap);
                (
                    if view_units(scaled.0) != 0 || scaled.1 != Map::<
                        Seq<char>,
                        (int, nat, bool),
                    >::empty() {
                        seq![make_flow(tx, month, bucket, BucketKind::Asset, scaled.0, scaled.1)]
                    } else {
                        Seq::empty()
                    },
                    with_accounts(inf, bucket, sel),
                )
            },
        },
    }
}

/// The flows of a list of tags, in order.
pub open spec fn tags_flows(
    tags: Seq<(Seq<char>, Option<(int, nat, bool)>)>,
    tx: TxView,
    month: Seq<char>,
    m: BudgetMappings,
    currency: Seq<char>,
    inf: Map<Seq<char>, Set<Seq<char>>>,
) -> (Seq<FlowView>, Map<Seq<char>, Set<Seq<char>>>)
    decreases tags.len(),
{
    if tags.len() == 0 {
        (Seq::empty(), inf)
    } else {
        let before = tags_flows(tags.drop_last(), tx, month, m, currency, inf);
        let last = tag_flows(tx, month, tags.last().0, tags.last().1, m, currency, before.1);
        (before.0 + last.0, last.1)
    }
}

/// The bucket an untagged expense account maps to.
pub open spec fn implicit_bucket(m: BudgetMappings, account: Seq<char>) -> Seq<char> {
    match bucket_by_account_spec(m, account) {
        Some(b) => b,
        None => m.default_expense_bucket@,
    }
}

/// Per bucket, `0 - a1 - a2 - ...` over the legs mapped to it.
pub open spec fn implicit_sums(l: Seq<(Seq<char>, (int, nat, bool))>, m: BudgetMappings) -> Map<
    Seq<char>,
    (int, nat, bool),
>
    decreases l.len(),
{
    if l.len() == 0 {
        Map::empty()
    } else {
        let s = implicit_sums(l.drop_last(), m);
        let b = implicit_bucket(m, l.last().0);
        s.insert(
            b,
            decimal_difference(
                if s.contains_key(b) {
                    s[b]
                } else {
                    zero_view()
                },
                l.last().1,
            ),
        )
    }
}

/// One expense flow per bucket in `keys` whose sum is not zero.
pub open spec fn implicit_from(
    keys: Seq<Seq<char>>,
    sums: Map<Seq<char>, (int, nat, bool)>,
    tx: TxView,
    month: Seq<char>,
) -> Seq<FlowView>
    decreases keys.len(),
{
    if keys.len() == 0 {
        Seq::empty()
    } else {
        let before = implicit_from(keys.drop_last(), sums, tx, month);
        let k = keys.last();
        if sums[k].0 != 0 {
            before.push(make_flow(tx, month, k, BucketKind::Expense, sums[k], Map::empty()))
        } else {
            before
        }
    }
}

/// Untagged transactions: the spending per mapped bucket, buckets in order.
pub open spec fn implicit_flows(
    tx: TxView,
    month: Seq<char>,
    m: BudgetMappings,
    currency: Seq<char>,
) -> Seq<FlowView> {
    let sums = implicit_sums(expense_legs(tx, currency), m);
    implicit_from(sorted_dom(sums.dom()), sums, tx, month)
}

/// The flows of one transaction, and the inferred asset accounts after it;
/// tag names are completed against the known buckets `keys`.
pub open spec fn tx_flows(
    tx: TxView,
    m: BudgetMappings,
    currency: Seq<char>,
    keys: Seq<Seq<char>>,
    inf: Map<Seq<char>, Set<Seq<char>>>,
) -> (Seq<FlowView>, Map<Seq<char>, Set<Seq<char>>>) {
    let month = month_of_date_spec(tx.date);
    match override_text(tx.metadata) {
        Some(text) => tags_flows(complete_tags(bucket_tags(text), keys), tx, month, m, currency, inf),
        None => (implicit_flows(tx, month, m, currency), inf),
    }
}

/// The flows of transactions taken in order.
pub open spec fn txs_flows(
    txs: Seq<TxView>,
    m: BudgetMappings,
    currency: Seq<char>,
    keys: Seq<Seq<char>>,
) -> (Seq<FlowView>, Map<Seq<char>, Set<Seq<char>>>)
    decreases txs.len(),
{
    if txs.len() == 0 {
        (Seq::empty(), Map::empty())
    } else {
        let before = txs_flows(txs.drop_last(), m, currency, keys);
        let last = tx_flows(txs.last(), m, currency, keys, before.1);
        (before.0 + last.0, last.1)
    }
}

/// Where a transaction dated `d` goes among transactions sorted by date:
/// after all those not later than it.
pub open spec fn first_later(s: Seq<TxView>, d: LedgerDate) -> int
    decreases s.len(),
{
    if s.len() == 0 {
        0
    } else if date_before(d, s[0].date) {
        0
    } else {
        1 + first_later(s.drop_first(), d)
    }
}

/// Transactions sorted by date, keeping the order of those of the same date.
pub open spec fn sort_by_date(s: Seq<TxView>) -> Seq<TxView>
    decreases s.len(),
{
    if s.len() == 0 {
        Seq::empty()
    } else {
        let sorted = sort_by_date(s.drop_last());
        sorted.insert(first_later(sorted, s.last().date), s.last())
    }
}

proof fn lemma_first_later_bound(s: Seq<TxView>, d: LedgerDate)
    ensures
        0 <= first_later(s, d) <= s.len(),
    decreases s.len(),
{
    if s.len() > 0 && !date_before(d, s[0].date) {
        lemma_first_later_bound(s.drop_first(), d);
    }
}

proof fn lemma_sort_len(s: Seq<TxView>)
    ensures
        sort_by_date(s).len() == s.len(),
    decreases s.len(),
{
    if s.len() > 0 {
        lemma_sort_len(s.drop_last());
        lemma_first_later_bound(sort_by_date(s.drop_last()), s.last().date);
    }
}

/// Sorts transactions by date, stably.
fn sort_txs_by_date(txs: Vec<LedgerTransaction>) -> (r: Vec<LedgerTransaction>)
    ensures
        tx_views(r@) == sort_by_date(tx_views(txs@)),
{
    let ghost v = tx_views(txs@);
    let mut input = txs;
    let mut out: Vec<LedgerTransaction> = Vec::new();
    let ghost mut i: int = 0;
    assert(v.take(0) =~= Seq::<TxView>::empty());
    assert(tx_views(out@) =~= Seq::<TxView>::empty());
    assert(input@ =~= txs@.skip(0));
    while input.len() > 0
        invariant
            0 <= i <= v.len(),
            v == tx_views(txs@),
            input@ == txs@.skip(i),
            tx_views(out@) == sort_by_date(v.take(i)),
        decreases input.len(),
    {
        let x = input.remove(0);
        let ghost sorted = tx_views(out@);
        let mut j: usize = 0;
        proof {
            lemma_sort_len(v.take(i));
            assert(sorted.skip(0) =~= sorted);
        }
        while j < out.len() && !date_lt(&x.date, &out[j].date)
            invariant
                j <= out.len(),
                sorted == tx_views(out@),
                first_later(sorted, x.date) == j + first_later(sorted.skip(j as int), x.date),
            decreases out.len() - j,
        {
            proof {
                assert(sorted.skip(j as int)[0] == out@[j as int]@);
                assert(sorted.skip(j as int).drop_first() =~= sorted.skip(j + 1));
            }
            j += 1;
        }
        proof {
            if j < out.len() {
                assert(sorted.skip(j as int)[0] == out@[j as int]@);
            }
            assert(first_later(sorted, x.date) == j);
            assert(v.take(i + 1).drop_last() =~= v.take(i));
            assert(v.take(i + 1).last() == x@);
            assert(x == txs@[i]);
        }
        out.insert(j, x);
        proof {
            assert(tx_views(out@) =~= sorted.insert(j as int, x@));
            assert(input@ =~= txs@.skip(i + 1));
            i = i + 1;
        }
    }
    proof {
        assert(txs@.skip(i).len() == 0);
        assert(v.take(i) =~= v);
    }
    out
}

/// `legs_neg_sum` with its exact value, for legs that fit.
fn neg_sum_legs(l: &Vec<(String, Amount)>, Ghost(s): Ghost<nat>) -> (r: Amount)
    requires
        legs_fit(leg_views(l@), s),
    ensures
        r@ == legs_neg_sum(leg_views(l@)),
        r.units() == -legs_units(leg_views(l@)),
        r@.1 <= s,
{
    let ghost v = leg_views(l@);
    let mut acc = Amount::zero();
    let mut i: usize = 0;
    proof {
        lemma_legs_magnitude_nonneg(v);
    }
    while i < l.len()
        invariant
            v == leg_views(l@),
            legs_fit(v, s),
            i <= l.len(),
            acc@ == legs_neg_sum(v.take(i as int)),
            acc.units() == -legs_units(v.take(i as int)),
            acc@.1 <= s,
            abs_int(acc.units()) <= legs_magnitude(v.take(i as int)),
        decreases l.len() - i,
    {
        let e = &l[i];
        proof {
            assert(v.take(i + 1).drop_last() =~= v.take(i as int));
            assert(v[i as int] == (e.0@, e.1@));
            assert(v[i as int].1.1 <= s);
            lemma_legs_magnitude_prefix(v, i + 1);
            lemma_fits_mono(legs_magnitude(v), acc.units() - e.1.units(), max_nat(acc@.1, e.1@.1), s);
        }
        acc = decimal_sub(acc, e.1);
        i += 1;
    }
    proof {
        assert(v.take(l.len() as int) =~= v);
    }
    acc
}

/// No cap, or one that can scale deltas of magnitude `b` at scale `s`.
pub open spec fn tag_cap_ok(o: Option<(int, nat, bool)>, s: nat, b: int) -> bool {
    match o {
        Some(c) => cap_in_range(c, s, b),
        None => true,
    }
}

/// The flow arithmetic of a transaction stays within `rust_decimal`'s range
/// at scale `s` and magnitude `b`: its expense and asset legs fit at `s` with
/// magnitudes at most `b`, and each `budget` tag amount can cap them.
pub open spec fn tx_fits(tx: TxView, currency: Seq<char>, s: nat, b: int) -> bool {
    &&& legs_fit(expense_legs(tx, currency), s)
    &&& legs_fit(asset_legs(tx, currency), s)
    &&& legs_magnitude(expense_legs(tx, currency)) <= b
    &&& legs_magnitude(asset_legs(tx, currency)) <= b
    &&& override_text(tx.metadata) matches Some(text) ==> forall|j: int|
        0 <= j < bucket_tags(text).len() ==> tag_cap_ok((#[trigger] bucket_tags(text)[j]).1, s, b)
}

/// A transaction whose flows `rust_decimal` computes without overflow: some
/// scale and magnitude bound fit it (see [`tx_fits`]).
pub open spec fn tx_in_range(tx: TxView, currency: Seq<char>) -> bool {
    exists|s: nat, b: int| tx_fits(tx, currency, s, b)
}

proof fn lemma_legs_len(ps: Seq<PostingView>, prefix: Seq<char>, currency: Seq<char>)
    ensures
        legs(ps, prefix, currency).len() <= ps.len(),
    decreases ps.len(),
{
    if ps.len() > 0 {
        lemma_legs_len(ps.drop_last(), prefix, currency);
    }
}

proof fn lemma_pow10_values()
    ensures
        pow10(6) == 1_000_000,
        pow10(12) == 1_000_000_000_000,
        pow10(16) == 10_000_000_000_000_000,
        pow10(22) == 10_000_000_000_000_000_000_000,
        pow10(34) == 10_000_000_000_000_000_000_000_000_000_000_000,
        pow10(28) == 10_000_000_000_000_000_000_000_000_000,
        pow10(37) == 10_000_000_000_000_000_000_000_000_000_000_000_000,
{
    reveal_with_fuel(pow10, 38);
}

fn push_flow(
    out: &mut Vec<BucketTxFlow>,
    tx: &LedgerTransaction,
    month: &String,
    bucket: &String,
    kind: BucketKind,
    flow: Amount,
    deltas: StrMap<Amount>,
)
    ensures
        flow_views(final(out)@) == flow_views(old(out)@).push(
            make_flow(tx@, month@, bucket@, kind, flow@, amount_views(deltas@)),
        ),
{
    let f = BucketTxFlow {
        date: tx.date,
        month: month.clone(),
        bucket: bucket.clone(),
        kind,
        flow,
        payee: match &tx.payee {
            Some(p) => Some(p.clone()),
            None => None,
        },
        narration: match &tx.narration {
            Some(n) => Some(n.clone()),
            None => None,
        },
        location_deltas: deltas,
        metadata: tx.metadata.duplicate(),
    };
    let ghost before = out@;
    out.push(f);
    assert(flow_views(out@) =~= flow_views(before).push(f@));
}

/// An expense-tagged transaction without spending: its asset legs as a
/// transfer; see [`transfer_flows`].
fn process_as_asset(
    tx: &LedgerTransaction,
    month: &String,
    bucket: &String,
    cap: Option<Amount>,
    currency: &str,
    out: &mut Vec<BucketTxFlow>,
    Ghost(sc): Ghost<nat>,
    Ghost(mb): Ghost<int>,
)
    requires
        tx_fits(tx@, currency@, sc, mb),
        cap matches Some(c) ==> cap_in_range(c@, sc, mb),
    ensures
        flow_views(final(out)@) == flow_views(old(out)@) + transfer_flows(
            tx@,
            month@,
            bucket@,
            opt_amount_view(cap),
            currency@,
        ),
{
    let a = collect_legs(tx, "Assets:", currency);
    let ghost v = leg_views(a@);
    assert(v == asset_legs(tx@, currency@));
    if a.len() == 0 {
        assert(flow_views(out@) + Seq::<FlowView>::empty() =~= flow_views(out@));
        return;
    }
    proof {
        lemma_legs_len(tx@.postings, "Assets:"@, currency@);
        lemma_legs_magnitude_nonneg(v);
        lemma_filter_fits(v, LegFilter::Positive, sc);
        lemma_fits_mono(legs_magnitude(v), legs_magnitude(legs_filter(v, LegFilter::Positive)), sc, sc);
    }
    let all = sum_legs(&a, Ghost(sc));
    let pos = filter_legs(&a, &LegFilterArg::Positive);
    let pos_sum = sum_legs(&pos, Ghost(sc));
    let (flow, deltas) = apply_cap(
        pos_sum.0,
        all.1,
        cap,
        Ghost(sc),
        Ghost(mb),
    );
    proof {
        lemma_empty_views(deltas@);
    }
    if !deltas.is_empty() {
        push_flow(out, tx, month, bucket, BucketKind::Asset, flow, deltas);
    } else {
        assert(flow_views(out@) + Seq::<FlowView>::empty() =~= flow_views(out@));
    }
}

proof fn lemma_empty_views(m: Map<Seq<char>, Amount>)
    ensures
        (m == Map::<Seq<char>, Amount>::empty()) == (amount_views(m) == Map::<
            Seq<char>,
            (int, nat, bool),
        >::empty()),
{
    if m != Map::<Seq<char>, Amount>::empty() {
        assert(!(m =~= Map::<Seq<char>, Amount>::empty()));
        let k = choose|k: Seq<char>| m.contains_key(k);
        assert(amount_views(m).contains_key(k));
    } else {
        assert(amount_views(m) =~= Map::<Seq<char>, (int, nat, bool)>::empty());
    }
}

/// The flows of one `budget` tag; see [`tag_flows`].
fn push_tag_flows(
    tx: &LedgerTransaction,
    month: &String,
    bucket: &String,
    cap: Option<Amount>,
    mappings: &BudgetMappings,
    currency: &str,
    inferred: &mut StrMap<StrMap<()>>,
    out: &mut Vec<BucketTxFlow>,
    Ghost(sc): Ghost<nat>,
    Ghost(mb): Ghost<int>,
)
    requires
        tx_fits(tx@, currency@, sc, mb),
        cap matches Some(c) ==> cap_in_range(c@, sc, mb),
    ensures
        flow_views(final(out)@) == flow_views(old(out)@) + tag_flows(
            tx@,
            month@,
            bucket@,
            opt_amount_view(cap),
            *mappings,
            currency@,
            inferred_view(*old(inferred)),
        ).0,
        inferred_view(*final(inferred)) == tag_flows(
            tx@,
            month@,
            bucket@,
            opt_amount_view(cap),
            *mappings,
            currency@,
            inferred_view(*old(inferred)),
        ).1,
{
    proof {
        lemma_legs_len(tx@.postings, "Expenses:"@, currency@);
        lemma_legs_len(tx@.postings, "Assets:"@, currency@);
        lemma_legs_magnitude_nonneg(expense_legs(tx@, currency@));
        lemma_legs_magnitude_nonneg(asset_legs(tx@, currency@));
    }
    match mappings.bucket_kind(bucket.as_str()) {
        BucketKind::Expense => {
            let e = collect_legs(tx, "Expenses:", currency);
            let mut flow = neg_sum_legs(&e, Ghost(sc));
            if flow.is_zero() {
                process_as_asset(tx, month, bucket, cap, currency, out, Ghost(sc), Ghost(mb));
                return;
            }
            match cap {
                Some(c) => {
                    let ca = c.abs();
                    if decimal_gt(flow.abs(), ca) {
                        flow = if flow.is_sign_negative() {
                            ca.neg()
                        } else {
                            ca
                        };
                    }
                },
                None => {},
            }
            proof {
                assert(flow@ == clamp_to_cap(legs_neg_sum(expense_legs(tx@, currency@)), opt_amount_view(cap)));
            }
            push_flow(out, tx, month, bucket, BucketKind::Expense, flow, StrMap::new());
            proof {
                assert(amount_views(Map::<Seq<char>, Amount>::empty()) =~= Map::<
                    Seq<char>,
                    (int, nat, bool),
                >::empty());
            }
        },
        BucketKind::Asset => {
            proof {
                lemma_legs_max_scale(asset_legs(tx@, currency@), sc);
            }
            match derive_asset_bucket_flow(tx, bucket.as_str(), currency, mappings, inferred) {
                None => {
                    assert(flow_views(out@) + Seq::<FlowView>::empty() =~= flow_views(out@));
                },
                Some((f, d)) => {
                    let (f2, d2) = apply_cap(
                        f,
                        d,
                        cap,
                        Ghost(sc),
                        Ghost(mb),
                    );
                    f2.check_valid();
                    proof {
                        lemma_empty_views(d2@);
                    }
                    if !f2.is_zero() || !d2.is_empty() {
                        push_flow(out, tx, month, bucket, BucketKind::Asset, f2, d2);
                    } else {
                        assert(flow_views(out@) + Seq::<FlowView>::empty() =~= flow_views(out@));
                    }
                },
            }
        },
    }
}

/// Untagged spending per mapped bucket; see [`implicit_flows`].
fn push_implicit_flows(
    tx: &LedgerTransaction,
    month: &String,
    mappings: &BudgetMappings,
    currency: &str,
    out: &mut Vec<BucketTxFlow>,
    Ghost(sc): Ghost<nat>,
    Ghost(mb): Ghost<int>,
)
    requires
        tx_fits(tx@, currency@, sc, mb),
    ensures
        flow_views(final(out)@) == flow_views(old(out)@) + implicit_flows(
            tx@,
            month@,
            *mappings,
            currency@,
        ),
{
    let e = collect_legs(tx, "Expenses:", currency);
    let ghost v = leg_views(e@);
    assert(v == expense_legs(tx@, currency@));
    proof {
        lemma_legs_len(tx@.postings, "Expenses:"@, currency@);
        lemma_legs_magnitude_nonneg(v);
    }
    let mut sums: StrMap<Amount> = StrMap::new();
    let mut i: usize = 0;
    assert(amount_views(sums@) =~= implicit_sums(v.take(0), *mappings));
    while i < e.len()
        invariant
            v == leg_views(e@),
            legs_fit(v, sc),
            i <= e.len(),
            amount_views(sums@) == implicit_sums(v.take(i as int), *mappings),
            forall|k: Seq<char>| #[trigger]
                sums@.contains_key(k) ==> sums@[k]@.1 <= sc && abs_int(sums@[k].units())
                    <= legs_magnitude(v.take(i as int)),
        decreases e.len() - i,
    {
        let account = e[i].0.as_str();
        let b = match resolve_bucket_by_account(mappings, account) {
            Some(b) => b,
            None => mappings.default_expense_bucket.clone(),
        };
        let prev = match sums.get(b.as_str()) {
            Some(x) => *x,
            None => Amount::zero(),
        };
        proof {
            assert(v.take(i + 1).drop_last() =~= v.take(i as int));
            assert(v[i as int] == (e@[i as int].0@, e@[i as int].1@));
            assert(v[i as int].1.1 <= sc);
            assert(b@ == implicit_bucket(*mappings, v[i as int].0));
            lemma_legs_magnitude_prefix(v, i + 1);
            lemma_legs_magnitude_nonneg(v.take(i as int));
            lemma_fits_mono(
                legs_magnitude(v),
                prev.units() - e[i as int].1.units(),
                max_nat(prev@.1, e[i as int].1@.1),
                sc,
            );
        }
        let next = decimal_sub(prev, e[i].1);
        let ghost before = sums@;
        sums.insert(b, next);
        proof {
            assert(amount_views(sums@) =~= amount_views(before).insert(
                implicit_bucket(*mappings, v[i as int].0),
                next@,
            ));
            if before.contains_key(implicit_bucket(*mappings, v[i as int].0)) {
                assert(amount_views(before)[implicit_bucket(*mappings, v[i as int].0)] == prev@);
            }
        }
        i += 1;
    }
    let n = sums.len();
    proof {
        assert(v.take(e.len() as int) =~= v);
        sums.lemma_keys_sorted();
        assert(amount_views(sums@).dom() =~= sums@.dom());
    }
    let ghost sv = amount_views(sums@);
    let ghost keys = sums.keys();
    let ghost base = flow_views(out@);
    let mut j: usize = 0;
    assert(base + implicit_from(keys.take(0), sv, tx@, month@) =~= base);
    while j < n
        invariant
            n == keys.len(),
            keys == sums.keys(),
            sums.well_ordered(),
            sv == amount_views(sums@),
            j <= n,
            flow_views(out@) == base + implicit_from(keys.take(j as int), sv, tx@, month@),
        decreases n - j,
    {
        let k = sums.key_at(j);
        let amount = *sums.value_at(j);
        proof {
            sums.lemma_index(j as int);
            assert(keys.take(j + 1).drop_last() =~= keys.take(j as int));
            assert(sv[k@] == amount@);
        }
        if !amount.is_zero() {
            push_flow(out, tx, month, k, BucketKind::Expense, amount, StrMap::new());
            proof {
                assert(amount_views(Map::<Seq<char>, Amount>::empty()) =~= Map::<
                    Seq<char>,
                    (int, nat, bool),
                >::empty());
                assert(flow_views(out@) =~= base + implicit_from(
                    keys.take(j + 1),
                    sv,
                    tx@,
                    month@,
                ));
            }
        }
        j += 1;
    }
    proof {
        assert(keys.take(n as int) =~= keys);
    }
}

/// The flows of one transaction; see [`tx_flows`].
fn push_tx_flows(
    tx: &LedgerTransaction,
    mappings: &BudgetMappings,
    currency: &str,
    known: &StrMap<()>,
    inferred: &mut StrMap<StrMap<()>>,
    out: &mut Vec<BucketTxFlow>,
)
    requires
        tx_in_range(tx@, currency@),
    ensures
        flow_views(final(out)@) == flow_views(old(out)@) + tx_flows(
            tx@,
            *mappings,
            currency@,
            known.keys(),
            inferred_view(*old(inferred)),
        ).0,
        inferred_view(*final(inferred)) == tx_flows(
            tx@,
            *mappings,
            currency@,
            known.keys(),
            inferred_view(*old(inferred)),
        ).1,
{
    let ghost pick: (nat, int) = choose|sc: nat, mb: int| tx_fits(tx@, currency@, sc, mb);
    let ghost sc = pick.0;
    let ghost mb = pick.1;
    let month = month_of_date(tx.date);
    match transaction_tags(tx) {
        None => {
            push_implicit_flows(tx, &month, mappings, currency, out, Ghost(sc), Ghost(mb));
        },
        Some(tags) => {
            let ghost tv = complete_tags(tag_views(tags@), known.keys());
            let ghost base = flow_views(out@);
            let ghost inf0 = inferred_view(*inferred);
            let mut i: usize = 0;
            assert(tv.take(0) =~= Seq::<(Seq<char>, Option<(int, nat, bool)>)>::empty());
            assert(base + Seq::<FlowView>::empty() =~= base);
            while i < tags.len()
                invariant
                    tv == complete_tags(tag_views(tags@), known.keys()),
                    tv.len() == tags@.len(),
                    override_text(tx@.metadata) matches Some(text) && tag_views(tags@) == bucket_tags(
                        text,
                    ),
                    tx_fits(tx@, currency@, sc, mb),
                    month@ == month_of_date_spec(tx@.date),
                    i <= tags.len(),
                    flow_views(out@) == base + tags_flows(
                        tv.take(i as int),
                        tx@,
                        month@,
                        *mappings,
                        currency@,
                        inf0,
                    ).0,
                    inferred_view(*inferred) == tags_flows(
                        tv.take(i as int),
                        tx@,
                        month@,
                        *mappings,
                        currency@,
                        inf0,
                    ).1,
                decreases tags.len() - i,
            {
                proof {
                    assert(tv.take(i + 1).drop_last() =~= tv.take(i as int));
                    assert(tag_views(tags@)[i as int] == (
                        tags@[i as int].0@,
                        opt_amount_view(tags@[i as int].1),
                    ));
                    assert(tag_cap_ok(tag_views(tags@)[i as int].1, sc, mb));
                }
                let name = complete_bucket_name(known, &tags[i].0);
                assert(tv[i as int] == (name@, opt_amount_view(tags@[i as int].1)));
                push_tag_flows(
                    tx,
                    &month,
                    &name,
                    tags[i].1,
                    mappings,
                    currency,
                    inferred,
                    out,
                    Ghost(sc),
                    Ghost(mb),
                );
                proof {
                    assert(flow_views(out@) =~= base + tags_flows(
                        tv.take(i + 1),
                        tx@,
                        month@,
                        *mappings,
                        currency@,
                        inf0,
                    ).0);
                }
                i += 1;
            }
            assert(tv.take(tags.len() as int) =~= tv);
        },
    }
}

proof fn lemma_sort_elements(s: Seq<TxView>)
    ensures
        sort_by_date(s).len() == s.len(),
        forall|k: int|
            0 <= k < sort_by_date(s).len() ==> exists|i: int|
                0 <= i < s.len() && s[i] == #[trigger] sort_by_date(s)[k],
    decreases s.len(),
{
    lemma_sort_len(s);
    if s.len() > 0 {
        lemma_sort_elements(s.drop_last());
        let sorted = sort_by_date(s.drop_last());
        let p = first_later(sorted, s.last().date);
        lemma_first_later_bound(sorted, s.last().date);
        assert forall|k: int| 0 <= k < sort_by_date(s).len() implies exists|i: int|
            0 <= i < s.len() && s[i] == #[trigger] sort_by_date(s)[k] by {
            if k < p {
                assert(sort_by_date(s)[k] == sorted[k]);
                let i = choose|i: int|
                    0 <= i < s.drop_last().len() && s.drop_last()[i] == #[trigger] sorted[k];
                assert(s[i] == sorted[k]);
            } else if k == p {
                assert(s[s.len() - 1] == sort_by_date(s)[k]);
            } else {
                assert(sort_by_date(s)[k] == sorted[k - 1]);
                let i = choose|i: int|
                    0 <= i < s.drop_last().len() && s.drop_last()[i] == #[trigger] sorted[k - 1];
                assert(s[i] == sorted[k - 1]);
            }
        }
    }
}

/// The flows of all transactions, taken in date order (transactions of the
/// same date in their given order): for each, the flows of its `budget` tags
/// in order (a short bucket name completed to the one known bucket that
/// ends with it, see [`complete_name`]), or its untagged spending per
/// bucket; see [`tx_flows`].  The
/// asset accounts inferred for a bucket carry over from one transaction to
/// the next.
pub fn collect_bucket_tx_flows(
    txs: Vec<LedgerTransaction>,
    mappings: &BudgetMappings,
    target_currency: &str,
    known: &StrMap<()>,
) -> (r: Vec<BucketTxFlow>)
    requires
        forall|i: int| 0 <= i < txs@.len() ==> tx_in_range((#[trigger] txs@[i])@, target_currency@),
    ensures
        flow_views(r@) == txs_flows(sort_by_date(tx_views(txs@)), *mappings, target_currency@, known.keys()).0,
{
    let ghost orig = tx_views(txs@);
    let sorted = sort_txs_by_date(txs);
    let ghost sv = tx_views(sorted@);
    proof {
        lemma_sort_elements(orig);
        assert forall|k: int| 0 <= k < sorted@.len() implies tx_in_range(
            (#[trigger] sorted@[k])@,
            target_currency@,
        ) by {
            assert(sv[k] == sorted@[k]@);
            let i = choose|i: int| 0 <= i < orig.len() && orig[i] == #[trigger] sort_by_date(orig)[k];
            assert(orig[i] == txs@[i]@);
        }
    }
    let mut inferred: StrMap<StrMap<()>> = StrMap::new();
    let mut out: Vec<BucketTxFlow> = Vec::new();
    let mut i: usize = 0;
    proof {
        assert(sv.take(0) =~= Seq::<TxView>::empty());
        assert(flow_views(out@) =~= Seq::<FlowView>::empty());
        assert(inferred_view(inferred) =~= Map::<Seq<char>, Set<Seq<char>>>::empty());
    }
    while i < sorted.len()
        invariant
            sv == tx_views(sorted@),
            forall|k: int| 0 <= k < sorted@.len() ==> tx_in_range(
                (#[trigger] sorted@[k])@,
                target_currency@,
            ),
            i <= sorted.len(),
            flow_views(out@) == txs_flows(sv.take(i as int), *mappings, target_currency@, known.keys()).0,
            inferred_view(inferred) == txs_flows(sv.take(i as int), *mappings, target_currency@, known.keys()).1,
        decreases sorted.len() - i,
    {
        proof {
            assert(sv.take(i + 1).drop_last() =~= sv.take(i as int));
            assert(sv.take(i + 1).last() == sorted@[i as int]@);
        }
        push_tx_flows(&sorted[i], mappings, target_currency, known, &mut inferred, &mut out);
        i += 1;
    }
    proof {
        assert(sv.take(sorted.len() as int) =~= sv);
    }
    out
}

pub(crate) fn pow10_i128(n: u32) -> (r: i128)
    requires
        n <= 37,
    ensures
        r == pow10(n as nat),
{
    let mut r: i128 = 1;
    let mut i: u32 = 0;
    while i < n
        invariant
            i <= n <= 37,
            r == pow10(i as nat),
        decreases n - i,
    {
        proof {
            lemma_pow10_mono((i + 1) as nat, 37);
            lemma_pow10_values();
            assert(pow10((i + 1) as nat) == 10 * pow10(i as nat));
            assert(r * 10 <= 10_000_000_000_000_000_000_000_000_000_000_000_000);
            lemma_pow10_pos(i as nat);
        }
        r = r * 10;
        i += 1;
    }
    r
}

/// The least scale at which all legs of a transaction can be counted.
pub open spec fn tx_scale(tx: TxView, currency: Seq<char>) -> nat {
    max_nat(legs_max_scale(expense_legs(tx, currency)), legs_max_scale(asset_legs(tx, currency)))
}

/// The larger of the legs' magnitudes.
pub open spec fn tx_bound(tx: TxView, currency: Seq<char>) -> int {
    let me = legs_magnitude(expense_legs(tx, currency));
    let ma = legs_magnitude(asset_legs(tx, currency));
    if me >= ma {
        me
    } else {
        ma
    }
}

proof fn lemma_cap_mono(c: (int, nat, bool), s: nat, b: int, s2: nat, b2: int)
    requires
        cap_in_range(c, s, b),
        s2 <= s <= 28,
        0 <= b2 <= b,
    ensures
        cap_in_range(c, s2, b2),
{
    lemma_pow10_mono((28 - s) as nat, (28 - s2) as nat);
    lemma_pow10_mono(s2, s);
    lemma_pow10_pos(s2);
    lemma_pow10_pos(28);
    let cu = abs_int(view_units(c));
    let h = mantissa_bound() / 2;
    assert(h * pow10((28 - s) as nat) <= h * pow10((28 - s2) as nat)) by (nonlinear_arith)
        requires
            pow10((28 - s) as nat) <= pow10((28 - s2) as nat),
            h >= 0,
    ;
    assert(b2 * (cu * pow10(s2) + 2 * pow10(28)) <= b * (cu * pow10(s) + 2 * pow10(28)))
        by (nonlinear_arith)
        requires
            0 <= b2 <= b,
            cu >= 0,
            1 <= pow10(s2) <= pow10(s),
            pow10(28) >= 0,
    ;
}

/// Any scale and bound that fit a transaction can be lowered to its least
/// scale and its largest magnitude: those fit it too.
proof fn lemma_tx_canonical(tx: TxView, currency: Seq<char>, s: nat, b: int)
    requires
        tx_fits(tx, currency, s, b),
    ensures
        tx_fits(tx, currency, tx_scale(tx, currency), tx_bound(tx, currency)),
{
    let e = expense_legs(tx, currency);
    let a = asset_legs(tx, currency);
    let sc = tx_scale(tx, currency);
    let bd = tx_bound(tx, currency);
    lemma_legs_max_scale(e, s);
    lemma_legs_max_scale(a, s);
    lemma_legs_magnitude_nonneg(e);
    lemma_legs_magnitude_nonneg(a);
    lemma_fits_mono(legs_magnitude(e), legs_magnitude(e), sc, s);
    lemma_fits_mono(legs_magnitude(a), legs_magnitude(a), sc, s);
    assert(legs_fit(e, sc));
    assert(legs_fit(a, sc));
    if let Some(text) = override_text(tx.metadata) {
        assert forall|j: int| 0 <= j < bucket_tags(text).len() implies tag_cap_ok(
            #[trigger] bucket_tags(text)[j].1,
            sc,
            bd,
        ) by {
            assert(tag_cap_ok(bucket_tags(text)[j].1, s, b));
            if let Some(c) = bucket_tags(text)[j].1 {
                lemma_cap_mono(c, s, b, sc, bd);
            }
        }
    }
}

/// The most digits after the point among the legs' amounts, at most 28.
fn legs_max_scale_exec(l: &Vec<(String, Amount)>) -> (r: u32)
    ensures
        r == legs_max_scale(leg_views(l@)),
        r <= 28,
{
    let ghost v = leg_views(l@);
    let mut r: u32 = 0;
    let mut i: usize = 0;
    assert(v.take(0) =~= Seq::<(Seq<char>, (int, nat, bool))>::empty());
    while i < l.len()
        invariant
            v == leg_views(l@),
            i <= l.len(),
            r == legs_max_scale(v.take(i as int)),
            r <= 28,
        decreases l.len() - i,
    {
        assert(v.take(i + 1).drop_last() =~= v.take(i as int));
        assert(v.take(i + 1).last() == v[i as int]);
        assert(v[i as int] == (l@[i as int].0@, l@[i as int].1@));
        l[i].1.check_valid();
        let sc = l[i].1.scale();
        if sc > r {
            r = sc;
        }
        i += 1;
    }
    assert(v.take(l.len() as int) =~= v);
    r
}

/// Whether a transaction is in the range [`collect_bucket_tx_flows`] works
/// on (see [`tx_in_range`]), decided exactly: its legs are counted at their
/// least common scale and each `budget` tag amount is checked against them.
pub fn tx_is_in_range(tx: &LedgerTransaction, currency: &str) -> (r: bool)
    ensures
        r == tx_in_range(tx@, currency@),
{
    let e = collect_legs(tx, "Expenses:", currency);
    let a = collect_legs(tx, "Assets:", currency);
    let ghost ev = expense_legs(tx@, currency@);
    let ghost av = asset_legs(tx@, currency@);
    assert(leg_views(e@) == ev);
    assert(leg_views(a@) == av);
    let se = legs_max_scale_exec(&e);
    let sa = legs_max_scale_exec(&a);
    let s = if se >= sa {
        se
    } else {
        sa
    };
    let ghost sn = s as nat;
    assert(sn == tx_scale(tx@, currency@));
    proof {
        lemma_legs_max_scale(ev, sn);
        lemma_legs_max_scale(av, sn);
        crate::fit::lemma_scaled_sum(ev, sn);
        crate::fit::lemma_scaled_sum(av, sn);
        lemma_pow10_pos((28 - sn) as nat);
        if tx_in_range(tx@, currency@) {
            let (s0, b0) = choose|s0: nat, b0: int| tx_fits(tx@, currency@, s0, b0);
            lemma_tx_canonical(tx@, currency@, s0, b0);
        }
    }
    let bound: u128 = 0x1_0000_0000_0000_0000_0000_0000;
    let me = match crate::fit::legs_scaled_sum(&e, s) {
        Some(v) => v,
        None => {
            proof {
                lemma_no_fit(ev, sn, crate::fit::scaled_sum(ev, sn));
            }
            return false;
        },
    };
    let ma = match crate::fit::legs_scaled_sum(&a, s) {
        Some(v) => v,
        None => {
            proof {
                lemma_no_fit(av, sn, crate::fit::scaled_sum(av, sn));
            }
            return false;
        },
    };
    if me >= bound {
        proof {
            lemma_no_fit(ev, sn, me as int);
        }
        return false;
    }
    if ma >= bound {
        proof {
            lemma_no_fit(av, sn, ma as int);
        }
        return false;
    }
    let m = if me >= ma {
        me
    } else {
        ma
    };
    let ghost bd = m * pow10((28 - sn) as nat);
    proof {
        assert(bd == tx_bound(tx@, currency@)) by (nonlinear_arith)
            requires
                bd == m * pow10((28 - sn) as nat),
                legs_magnitude(ev) == me * pow10((28 - sn) as nat),
                legs_magnitude(av) == ma * pow10((28 - sn) as nat),
                pow10((28 - sn) as nat) >= 1,
                m == (if me >= ma { me } else { ma }),
                tx_bound(tx@, currency@) == (if legs_magnitude(ev) >= legs_magnitude(av) {
                    legs_magnitude(ev)
                } else {
                    legs_magnitude(av)
                }),
        ;
        lemma_fits_from_sum(ev, sn, me as int);
        lemma_fits_from_sum(av, sn, ma as int);
        assert(legs_magnitude(ev) <= bd && legs_magnitude(av) <= bd) by (nonlinear_arith)
            requires
                bd == m * pow10((28 - sn) as nat),
                legs_magnitude(ev) == me * pow10((28 - sn) as nat),
                legs_magnitude(av) == ma * pow10((28 - sn) as nat),
                pow10((28 - sn) as nat) >= 1,
                me <= m,
                ma <= m,
        ;
    }
    match transaction_tags(tx) {
        None => {
            assert(tx_fits(tx@, currency@, sn, bd));
            true
        },
        Some(tags) => {
            let mut j: usize = 0;
            while j < tags.len()
                invariant
                    j <= tags.len(),
                    override_text(tx@.metadata) matches Some(text) && tag_views(tags@) == bucket_tags(
                        text,
                    ),
                    sn == s,
                    s <= 28,
                    bd == m * pow10((28 - sn) as nat),
                    tx_in_range(tx@, currency@) ==> tx_fits(tx@, currency@, sn, bd),
                    forall|k: int| 0 <= k < j ==> tag_cap_ok(#[trigger] tag_views(tags@)[k].1, sn, bd),
                decreases tags.len() - j,
            {
                assert(tag_views(tags@)[j as int].1 == opt_amount_view(tags@[j as int].1));
                match tags[j].1 {
                    Some(c) => {
                        c.check_valid();
                        let ok = crate::fit::cap_ok_exact(c, s, m);
                        proof {
                            crate::fit::lemma_cap_normal(c@, sn, m as int);
                        }
                        if !ok {
                            return false;
                        }
                    },
                    None => {},
                }
                j += 1;
            }
            assert(tx_fits(tx@, currency@, sn, bd));
            true
        },
    }
}

/// Legs whose sum at scale `s` reaches `2^96` do not fit at `s`.
proof fn lemma_no_fit(l: Seq<(Seq<char>, (int, nat, bool))>, s: nat, v: int)
    requires
        s <= 28,
        crate::fit::scales_at_most(l, s),
        v >= 0x1_0000_0000_0000_0000_0000_0000,
        crate::fit::scaled_sum(l, s) >= v,
    ensures
        !fits_at(legs_magnitude(l), s),
{
    crate::fit::lemma_scaled_sum(l, s);
    lemma_pow10_pos((28 - s) as nat);
    assert(legs_magnitude(l) >= mantissa_bound() * pow10((28 - s) as nat)) by (nonlinear_arith)
        requires
            legs_magnitude(l) == crate::fit::scaled_sum(l, s) * pow10((28 - s) as nat),
            crate::fit::scaled_sum(l, s) >= v,
            v >= mantissa_bound(),
            pow10((28 - s) as nat) >= 1,
    ;
}

/// Legs whose sum at scale `s` stays below `2^96` fit at `s`.
proof fn lemma_fits_from_sum(l: Seq<(Seq<char>, (int, nat, bool))>, s: nat, v: int)
    requires
        s <= 28,
        crate::fit::scales_at_most(l, s),
        0 <= v < 0x1_0000_0000_0000_0000_0000_0000,
        crate::fit::scaled_sum(l, s) == v,
    ensures
        legs_fit(l, s),
        legs_magnitude(l) == v * pow10((28 - s) as nat),
{
    crate::fit::lemma_scaled_sum(l, s);
    lemma_pow10_pos((28 - s) as nat);
    assert(legs_magnitude(l) < mantissa_bound() * pow10((28 - s) as nat)) by (nonlinear_arith)
        requires
            legs_magnitude(l) == v * pow10((28 - s) as nat),
            v < mantissa_bound(),
            pow10((28 - s) as nat) >= 1,
    ;
    lemma_legs_magnitude_nonneg(l);
}

/// [`collect_bucket_tx_flows`] when every transaction is in its range (see
/// [`tx_in_range`]), else `None`.
pub fn try_collect_bucket_tx_flows(
    txs: Vec<LedgerTransaction>,
    mappings: &BudgetMappings,
    target_currency: &str,
    known: &StrMap<()>,
) -> (r: Option<Vec<BucketTxFlow>>)
    ensures
        r is Some <==> forall|i: int|
            0 <= i < txs@.len() ==> tx_in_range((#[trigger] txs@[i])@, target_currency@),
        r matches Some(f) ==> flow_views(f@) == txs_flows(
            sort_by_date(tx_views(txs@)),
            *mappings,
            target_currency@,
            known.keys(),
        ).0,
{
    let mut i: usize = 0;
    while i < txs.len()
        invariant
            i <= txs.len(),
            forall|k: int| 0 <= k < i ==> tx_in_range((#[trigger] txs@[k])@, target_currency@),
        decreases txs.len() - i,
    {
        if !tx_is_in_range(&txs[i], target_currency) {
            return None;
        }
        i += 1;
    }
    Some(collect_bucket_tx_flows(txs, mappings, target_currency, known))
}

} // verus!
