//! What the reports read off the flows: the data of one bucket, the unknown
//! buckets met in scope, the places of an asset bucket's money, and the
//! buckets to export.
use vstd::prelude::*;

use crate::amount::{
    abs_int, decimal_add, decimal_difference, decimal_sub, decimal_sum, fits_at, max_nat,
    view_units, Amount,
};
use crate::cli::opt_seq;
use crate::budget::{
    amount_views, flow_views, flows_magnitude, flows_scale_at_most, months_comparable, same_kind,
    totals_fit, BucketTxFlow, FlowView, BucketSummary,
};
use crate::cli::{range_contains, range_contains_ok, DateRange, ReportConfig};
use crate::config::{bucket_kind_spec, BudgetDirective, BudgetMappings, BucketKind};
use crate::ledger::string_views;
use crate::strmap::StrMap;
use crate::util::{is_month_in_scope, month_in_scope, ReportScope};
use crate::text::is_within;

verus! {

broadcast use vstd::string::group_string_axioms;

impl BucketTxFlow {
    /// A copy of the flow.
    pub fn duplicate(&self) -> (r: BucketTxFlow)
        ensures
            r@ == self@,
    {
        BucketTxFlow {
            date: self.date,
            month: self.month.clone(),
            bucket: self.bucket.clone(),
            kind: self.kind,
            flow: self.flow,
            payee: match &self.payee {
                Some(p) => Some(p.clone()),
                None => None,
            },
            narration: match &self.narration {
                Some(n) => Some(n.clone()),
                None => None,
            },
            location_deltas: self.location_deltas.copied(),
            metadata: self.metadata.duplicate(),
        }
    }
}

// ---------------------------------------------------------------------------
// Range filters
// ---------------------------------------------------------------------------

pub open spec fn dir_views_months(d: Seq<BudgetDirective>) -> Seq<Seq<char>> {
    d.map_values(|x: BudgetDirective| x.month@)
}

/// The directives whose month lies in `range`, in order.
pub open spec fn dirs_in_range(d: Seq<BudgetDirective>, range: DateRange) -> Seq<BudgetDirective>
    decreases d.len(),
{
    if d.len() == 0 {
        Seq::empty()
    } else if range_contains(range, d.last().month@) {
        dirs_in_range(d.drop_last(), range).push(d.last())
    } else {
        dirs_in_range(d.drop_last(), range)
    }
}

/// The flows whose month lies in `range`, in order.
pub open spec fn flows_in_range(f: Seq<FlowView>, range: DateRange) -> Seq<FlowView>
    decreases f.len(),
{
    if f.len() == 0 {
        Seq::empty()
    } else if range_contains(range, f.last().month) {
        flows_in_range(f.drop_last(), range).push(f.last())
    } else {
        flows_in_range(f.drop_last(), range)
    }
}

/// Keeps the directives whose month lies in `range`.
pub fn filter_directives_by_range(directives: Vec<BudgetDirective>, range: &DateRange) -> (r: Vec<
    BudgetDirective,
>)
    requires
        forall|i: int|
            0 <= i < directives@.len() ==> range_contains_ok(*range, (#[trigger] directives@[i]).month@),
    ensures
        r@ == dirs_in_range(directives@, *range),
{
    let mut input = directives;
    let ghost orig = input@;
    let mut out: Vec<BudgetDirective> = Vec::new();
    let ghost mut i: int = 0;
    assert(orig.take(0) =~= Seq::<BudgetDirective>::empty());
    assert(input@ =~= orig.skip(0));
    while input.len() > 0
        invariant
            0 <= i <= orig.len(),
            input@ == orig.skip(i),
            out@ == dirs_in_range(orig.take(i), *range),
            forall|k: int| 0 <= k < orig.len() ==> range_contains_ok(*range, (#[trigger] orig[k]).month@),
        decreases input.len(),
    {
        let d = input.remove(0);
        proof {
            assert(d == orig[i]);
            assert(orig.take(i + 1).drop_last() =~= orig.take(i));
            assert(input@ =~= orig.skip(i + 1));
        }
        if range.contains(d.month.as_str()) {
            out.push(d);
        }
        proof {
            i = i + 1;
        }
    }
    assert(orig.take(i) =~= orig);
    out
}

/// Keeps the flows whose month lies in `range`.
pub fn filter_flows_by_range(flows: Vec<BucketTxFlow>, range: &DateRange) -> (r: Vec<BucketTxFlow>)
    requires
        forall|i: int| 0 <= i < flows@.len() ==> range_contains_ok(*range, (#[trigger] flows@[i]).month@),
    ensures
        flow_views(r@) == flows_in_range(flow_views(flows@), *range),
{
    let mut input = flows;
    let ghost orig = flow_views(input@);
    let ghost raw = input@;
    let mut out: Vec<BucketTxFlow> = Vec::new();
    let ghost mut i: int = 0;
    assert(orig.take(0) =~= Seq::<FlowView>::empty());
    assert(flow_views(out@) =~= Seq::<FlowView>::empty());
    assert(input@ =~= raw.skip(0));
    while input.len() > 0
        invariant
            0 <= i <= raw.len(),
            orig == flow_views(raw),
            input@ == raw.skip(i),
            flow_views(out@) == flows_in_range(orig.take(i), *range),
            forall|k: int| 0 <= k < raw.len() ==> range_contains_ok(*range, (#[trigger] raw[k]).month@),
        decreases input.len(),
    {
        let f = input.remove(0);
        proof {
            assert(f == raw[i]);
            assert(orig[i] == f@);
            assert(orig.take(i + 1).drop_last() =~= orig.take(i));
            assert(input@ =~= raw.skip(i + 1));
        }
        if range.contains(f.month.as_str()) {
            let ghost before = out@;
            out.push(f);
            assert(flow_views(out@) =~= flow_views(before).push(f@));
        }
        proof {
            i = i + 1;
        }
    }
    assert(orig.take(i) =~= orig);
    out
}

// ---------------------------------------------------------------------------
// Unknown buckets
// ---------------------------------------------------------------------------

/// Buckets met in scope that neither the budget nor the configuration knows.
#[derive(Debug)]
pub struct WarningStats {
    /// Sum of the sizes of their actual amounts.
    pub unknown_bucket_amount: Amount,
    /// Their names.
    pub unknown_bucket_names: StrMap<()>,
}

/// A flow in scope whose bucket is unknown.
pub open spec fn warns(f: BucketTxFlow, known: Set<Seq<char>>, target: Seq<char>, scope: ReportScope) -> bool {
    month_in_scope(f.month@, target, scope) && !known.contains(f.bucket@)
}

/// The sizes (units) of the unknown flows' amounts, added up.
pub open spec fn unknown_total(
    f: Seq<BucketTxFlow>,
    known: Set<Seq<char>>,
    target: Seq<char>,
    scope: ReportScope,
) -> int
    decreases f.len(),
{
    if f.len() == 0 {
        0
    } else {
        unknown_total(f.drop_last(), known, target, scope) + if warns(f.last(), known, target, scope) {
            abs_int(f.last().flow.units())
        } else {
            0
        }
    }
}

proof fn lemma_unknown_total_bound(
    f: Seq<BucketTxFlow>,
    known: Set<Seq<char>>,
    target: Seq<char>,
    scope: ReportScope,
)
    ensures
        0 <= unknown_total(f, known, target, scope) <= flows_magnitude(f),
    decreases f.len(),
{
    if f.len() > 0 {
        lemma_unknown_total_bound(f.drop_last(), known, target, scope);
    }
}

/// The unknown buckets among the flows in scope, and their total size.
pub fn collect_scope_warnings(
    flows: &Vec<BucketTxFlow>,
    known_buckets: &StrMap<()>,
    target_month: &str,
    scope: ReportScope,
) -> (r: WarningStats)
    requires
        months_comparable(Seq::empty(), flows@, target_month@, scope),
        exists|s: nat| totals_fit(Seq::empty(), flows@, s),
    ensures
        forall|b: Seq<char>| #[trigger]
            r.unknown_bucket_names@.contains_key(b) <==> exists|j: int|
                0 <= j < flows@.len() && warns(
                    #[trigger] flows@[j],
                    known_buckets@.dom(),
                    target_month@,
                    scope,
                ) && flows@[j].bucket@ == b,
        r.unknown_bucket_amount.units() == unknown_total(
            flows@,
            known_buckets@.dom(),
            target_month@,
            scope,
        ),
{
    let ghost s: nat = choose|s: nat| totals_fit(Seq::empty(), flows@, s);
    let ghost f = flows@;
    let ghost known = known_buckets@.dom();
    let mut names: StrMap<()> = StrMap::new();
    let mut total = Amount::zero();
    let mut i: usize = 0;
    proof {
        crate::budget::lemma_dirs_magnitude_nonneg(Seq::empty());
    }
    while i < flows.len()
        invariant
            f == flows@,
            known == known_buckets@.dom(),
            totals_fit(Seq::empty(), f, s),
            months_comparable(Seq::empty(), f, target_month@, scope),
            i <= f.len(),
            total.units() == unknown_total(f.take(i as int), known, target_month@, scope),
            total@.1 <= s,
            forall|b: Seq<char>| #[trigger]
                names@.contains_key(b) <==> exists|j: int|
                    0 <= j < i && warns(#[trigger] f[j], known, target_month@, scope) && f[j].bucket@
                        == b,
        decreases f.len() - i,
    {
        let fl = &flows[i];
        proof {
            assert(f.take(i + 1).drop_last() =~= f.take(i as int));
            assert(f.take(i + 1).last() == f[i as int]);
            assert(month_scope_ok_flow(f, i as int, target_month@, scope));
            crate::budget::lemma_flows_magnitude_prefix(f, i + 1);
            lemma_unknown_total_bound(f.take(i + 1), known, target_month@, scope);
            assert(f[i as int].flow@.1 <= s);
        }
        if is_month_in_scope(fl.month.as_str(), target_month, scope) && !known_buckets.contains_key(
            fl.bucket.as_str(),
        ) {
            let ghost before = names@;
            names.insert(fl.bucket.clone(), ());
            let size = fl.actual_amount().abs();
            fl.flow.check_valid();
            proof {
                crate::budget::lemma_fits_mono(
                    crate::budget::dirs_magnitude(Seq::empty()) + flows_magnitude(f),
                    total.units() + size.units(),
                    max_nat(total@.1, size@.1),
                    s,
                );
            }
            total = decimal_add(total, size);
            proof {
                assert forall|b: Seq<char>| #[trigger]
                    names@.contains_key(b) <==> exists|j: int|
                        0 <= j < i + 1 && warns(#[trigger] f[j], known, target_month@, scope)
                            && f[j].bucket@ == b by {
                    if exists|j: int|
                        0 <= j < i + 1 && warns(#[trigger] f[j], known, target_month@, scope)
                            && f[j].bucket@ == b {
                        let j = choose|j: int|
                            0 <= j < i + 1 && warns(#[trigger] f[j], known, target_month@, scope)
                                && f[j].bucket@ == b;
                        if j < i {
                            assert(before.contains_key(b));
                        }
                    }
                }
            }
        } else {
            proof {
                assert forall|b: Seq<char>| #[trigger]
                    names@.contains_key(b) <==> exists|j: int|
                        0 <= j < i + 1 && warns(#[trigger] f[j], known, target_month@, scope)
                            && f[j].bucket@ == b by {
                    if exists|j: int|
                        0 <= j < i + 1 && warns(#[trigger] f[j], known, target_month@, scope)
                            && f[j].bucket@ == b {
                        let j = choose|j: int|
                            0 <= j < i + 1 && warns(#[trigger] f[j], known, target_month@, scope)
                                && f[j].bucket@ == b;
                        assert(j < i);
                    }
                }
            }
        }
        i += 1;
    }
    assert(f.take(f.len() as int) =~= f);
    WarningStats { unknown_bucket_amount: total, unknown_bucket_names: names }
}

pub open spec fn month_scope_ok_flow(f: Seq<BucketTxFlow>, i: int, target: Seq<char>, scope: ReportScope) -> bool {
    crate::util::month_scope_ok(f[i].month@, target, scope)
}

// ---------------------------------------------------------------------------
// Buckets to export
// ---------------------------------------------------------------------------

/// The buckets to export: the one asked for; else every bucket with totals
/// and every bucket of a directive or flow in scope.
pub fn collect_buckets_for_export(
    config: &ReportConfig,
    directives: &Vec<BudgetDirective>,
    flows: &Vec<BucketTxFlow>,
    summaries: &StrMap<BucketSummary>,
) -> (r: StrMap<()>)
    requires
        months_comparable(directives@, flows@, config.month@, config.scope),
    ensures
        config.bucket matches Some(b) ==> r@.dom() == set![b@],
        config.bucket is None ==> forall|k: Seq<char>| #[trigger]
            r@.contains_key(k) <==> summaries@.contains_key(k) || (exists|i: int|
                0 <= i < directives@.len() && month_in_scope(
                    (#[trigger] directives@[i]).month@,
                    config.month@,
                    config.scope,
                ) && directives@[i].bucket@ == k) || (exists|j: int|
                0 <= j < flows@.len() && month_in_scope(
                    (#[trigger] flows@[j]).month@,
                    config.month@,
                    config.scope,
                ) && flows@[j].bucket@ == k),
{
    let mut out: StrMap<()> = StrMap::new();
    match &config.bucket {
        Some(b) => {
            out.insert(b.clone(), ());
            assert(out@.dom() =~= set![b@]);
            return out;
        },
        None => {},
    }
    let ghost d = directives@;
    let ghost f = flows@;
    let n = summaries.len();
    let mut k: usize = 0;
    while k < n
        invariant
            n == summaries.keys().len(),
            summaries.well_ordered(),
            k <= n,
            forall|key: Seq<char>| #[trigger]
                out@.contains_key(key) <==> exists|t: int|
                    0 <= t < k && summaries.keys()[t] == key,
        decreases n - k,
    {
        let ghost before = out@;
        out.insert(summaries.key_at(k).clone(), ());
        proof {
            assert forall|key: Seq<char>| #[trigger]
                out@.contains_key(key) <==> exists|t: int|
                    0 <= t < k + 1 && summaries.keys()[t] == key by {
                if exists|t: int| 0 <= t < k + 1 && summaries.keys()[t] == key {
                    let t = choose|t: int| 0 <= t < k + 1 && summaries.keys()[t] == key;
                    if t < k {
                        assert(before.contains_key(key));
                    }
                }
            }
        }
        k += 1;
    }
    proof {
        assert forall|key: Seq<char>|
            (exists|t: int| 0 <= t < n && summaries.keys()[t] == key) == summaries@.contains_key(
                key,
            ) by {
            if summaries@.contains_key(key) {
                assert(summaries.keys().contains(key));
            }
        }
    }
    let mut i: usize = 0;
    while i < directives.len()
        invariant
            d == directives@,
            f == flows@,
            months_comparable(d, f, config.month@, config.scope),
            i <= d.len(),
            forall|key: Seq<char>| #[trigger]
                out@.contains_key(key) <==> summaries@.contains_key(key) || exists|t: int|
                    0 <= t < i && month_in_scope(
                        (#[trigger] d[t]).month@,
                        config.month@,
                        config.scope,
                    ) && d[t].bucket@ == key,
        decreases d.len() - i,
    {
        let ghost before = out@;
        proof {
            assert(crate::util::month_scope_ok(d[i as int].month@, config.month@, config.scope));
        }
        let hit = is_month_in_scope(directives[i].month.as_str(), config.month.as_str(), config.scope);
        if hit {
            out.insert(directives[i].bucket.clone(), ());
        }
        proof {
            assert forall|key: Seq<char>| #[trigger]
                out@.contains_key(key) <==> summaries@.contains_key(key) || exists|t: int|
                    0 <= t < i + 1 && month_in_scope(
                        (#[trigger] d[t]).month@,
                        config.month@,
                        config.scope,
                    ) && d[t].bucket@ == key by {
                if exists|t: int|
                    0 <= t < i + 1 && month_in_scope(
                        (#[trigger] d[t]).month@,
                        config.month@,
                        config.scope,
                    ) && d[t].bucket@ == key {
                    let t = choose|t: int|
                        0 <= t < i + 1 && month_in_scope(
                            (#[trigger] d[t]).month@,
                            config.month@,
                            config.scope,
                        ) && d[t].bucket@ == key;
                    if t < i {
                        assert(before.contains_key(key));
                    }
                }
            }
        }
        i += 1;
    }
    let mut j: usize = 0;
    while j < flows.len()
        invariant
            d == directives@,
            f == flows@,
            months_comparable(d, f, config.month@, config.scope),
            j <= f.len(),
            forall|key: Seq<char>| #[trigger]
                out@.contains_key(key) <==> summaries@.contains_key(key) || (exists|t: int|
                    0 <= t < d.len() && month_in_scope(
                        (#[trigger] d[t]).month@,
                        config.month@,
                        config.scope,
                    ) && d[t].bucket@ == key) || (exists|t: int|
                    0 <= t < j && month_in_scope(
                        (#[trigger] f[t]).month@,
                        config.month@,
                        config.scope,
                    ) && f[t].bucket@ == key),
        decreases f.len() - j,
    {
        let ghost before = out@;
        proof {
            assert(crate::util::month_scope_ok(f[j as int].month@, config.month@, config.scope));
        }
        let hit = is_month_in_scope(flows[j].month.as_str(), config.month.as_str(), config.scope);
        if hit {
            out.insert(flows[j].bucket.clone(), ());
        }
        proof {
            assert forall|key: Seq<char>| #[trigger]
                out@.contains_key(key) <==> summaries@.contains_key(key) || (exists|t: int|
                    0 <= t < d.len() && month_in_scope(
                        (#[trigger] d[t]).month@,
                        config.month@,
                        config.scope,
                    ) && d[t].bucket@ == key) || (exists|t: int|
                    0 <= t < j + 1 && month_in_scope(
                        (#[trigger] f[t]).month@,
                        config.month@,
                        config.scope,
                    ) && f[t].bucket@ == key) by {
                if exists|t: int|
                    0 <= t < j + 1 && month_in_scope(
                        (#[trigger] f[t]).month@,
                        config.month@,
                        config.scope,
                    ) && f[t].bucket@ == key {
                    let t = choose|t: int|
                        0 <= t < j + 1 && month_in_scope(
                            (#[trigger] f[t]).month@,
                            config.month@,
                            config.scope,
                        ) && f[t].bucket@ == key;
                    if t < j {
                        assert(before.contains_key(key));
                    }
                }
            }
        }
        j += 1;
    }
    out
}

// ---------------------------------------------------------------------------
// Where an asset bucket's money sits
// ---------------------------------------------------------------------------

/// An asset flow of `bucket` (or a bucket under it) up to `target`.
pub open spec fn locates(f: BucketTxFlow, bucket: Seq<char>, target: Seq<char>) -> bool {
    f.kind == BucketKind::Asset && is_within(bucket, f.bucket@) && month_in_scope(
        f.month@,
        target,
        ReportScope::Cumulative,
    )
}

/// The change (units) the counted flows bring to account `a`.
pub open spec fn location_sum(f: Seq<BucketTxFlow>, bucket: Seq<char>, target: Seq<char>, a: Seq<char>) -> int
    decreases f.len(),
{
    if f.len() == 0 {
        0
    } else {
        location_sum(f.drop_last(), bucket, target, a) + if locates(f.last(), bucket, target)
            && f.last().location_deltas@.contains_key(a) {
            f.last().location_deltas@[a].units()
        } else {
            0
        }
    }
}

/// The changes to account `a`, added left to right from zero as
/// `rust_decimal` adds them.
pub open spec fn location_value(f: Seq<BucketTxFlow>, bucket: Seq<char>, target: Seq<char>, a: Seq<char>) -> (
    int,
    nat,
    bool,
)
    decreases f.len(),
{
    if f.len() == 0 {
        (0, 0, false)
    } else {
        let acc = location_value(f.drop_last(), bucket, target, a);
        if locates(f.last(), bucket, target) && f.last().location_deltas@.contains_key(a) {
            decimal_sum(acc, f.last().location_deltas@[a]@)
        } else {
            acc
        }
    }
}

/// The amount of `a` in `m`, zero where it has none.
pub open spec fn base_value(m: Map<Seq<char>, Amount>, a: Seq<char>) -> (int, nat, bool) {
    if m.contains_key(a) {
        m[a]@
    } else {
        (0, 0, false)
    }
}

/// Sum of the sizes (units) of the first `n` deltas of a flow.
pub open spec fn deltas_magnitude(d: StrMap<Amount>, n: int) -> int
    decreases n,
{
    if n <= 0 {
        0
    } else {
        deltas_magnitude(d, n - 1) + abs_int(d@[d.keys()[n - 1]].units())
    }
}

/// Sum of the sizes (units) of all deltas of the flows.
pub open spec fn locations_magnitude(f: Seq<BucketTxFlow>) -> int
    decreases f.len(),
{
    if f.len() == 0 {
        0
    } else {
        locations_magnitude(f.drop_last()) + deltas_magnitude(
            f.last().location_deltas,
            f.last().location_deltas.keys().len() as int,
        )
    }
}

/// The deltas of all flows have at most `s` digits after the point and all
/// their sizes add up within a 96-bit mantissa at that scale.
pub open spec fn locations_fit(f: Seq<BucketTxFlow>, s: nat) -> bool {
    &&& s <= 28
    &&& forall|i: int, a: Seq<char>|
        0 <= i < f.len() && #[trigger] f[i].location_deltas@.contains_key(a) ==> f[i].location_deltas@[a]@.1 <= s
    &&& fits_at(locations_magnitude(f), s)
}

/// A scale at which the deltas of the flows fit (see [`locations_fit`]).
pub open spec fn locations_scale(f: Seq<BucketTxFlow>) -> nat {
    choose|s: nat| locations_fit(f, s)
}

proof fn lemma_deltas_magnitude_nonneg(d: StrMap<Amount>, n: int)
    ensures
        deltas_magnitude(d, n) >= 0,
    decreases n,
{
    if n > 0 {
        lemma_deltas_magnitude_nonneg(d, n - 1);
    }
}

proof fn lemma_locations_magnitude_prefix(f: Seq<BucketTxFlow>, i: int)
    requires
        0 <= i <= f.len(),
    ensures
        0 <= locations_magnitude(f.take(i)) <= locations_magnitude(f),
    decreases f.len() - i,
{
    if i < f.len() {
        lemma_locations_magnitude_prefix(f, i + 1);
        assert(f.take(i + 1).drop_last() =~= f.take(i));
        lemma_deltas_magnitude_nonneg(
            f[i].location_deltas,
            f[i].location_deltas.keys().len() as int,
        );
    } else {
        assert(f.take(i) =~= f);
    }
    lemma_locations_magnitude_nonneg(f.take(i));
}

proof fn lemma_locations_magnitude_nonneg(f: Seq<BucketTxFlow>)
    ensures
        locations_magnitude(f) >= 0,
    decreases f.len(),
{
    if f.len() > 0 {
        lemma_locations_magnitude_nonneg(f.drop_last());
        lemma_deltas_magnitude_nonneg(
            f.last().location_deltas,
            f.last().location_deltas.keys().len() as int,
        );
    }
}

/// Per account, the money of asset bucket `bucket` (with the buckets under
/// it) held there up to `target_month`; accounts whose total is zero are left
/// out.
pub fn collect_asset_locations(bucket: &str, target_month: &str, flows: &Vec<BucketTxFlow>) -> (r:
    StrMap<Amount>)
    requires
        forall|i: int|
            0 <= i < flows@.len() ==> crate::util::month_scope_ok(
                (#[trigger] flows@[i]).month@,
                target_month@,
                ReportScope::Cumulative,
            ),
        exists|s: nat| locations_fit(flows@, s),
    ensures
        forall|a: Seq<char>| #[trigger]
            r@.contains_key(a) <==> location_sum(flows@, bucket@, target_month@, a) != 0,
        forall|a: Seq<char>| #[trigger]
            r@.contains_key(a) ==> r@[a].units() == location_sum(
                flows@,
                bucket@,
                target_month@,
                a,
            ),
        forall|a: Seq<char>| #[trigger]
            r@.contains_key(a) ==> r@[a]@ == location_value(flows@, bucket@, target_month@, a),
        forall|a: Seq<char>| #[trigger] r@.contains_key(a) ==> r@[a]@.1 <= locations_scale(flows@),
{
    let ghost s: nat = locations_scale(flows@);
    let ghost f = flows@;
    let b = crate::text::str_chars(bucket);
    let mut locs: StrMap<Amount> = StrMap::new();
    let mut i: usize = 0;
    proof {
        lemma_locations_magnitude_nonneg(f);
    }
    while i < flows.len()
        invariant
            f == flows@,
            b@ == bucket@,
            locations_fit(f, s),
            forall|k: int|
                0 <= k < f.len() ==> crate::util::month_scope_ok(
                    (#[trigger] f[k]).month@,
                    target_month@,
                    ReportScope::Cumulative,
                ),
            i <= f.len(),
            forall|a: Seq<char>| #[trigger]
                locs@.contains_key(a) ==> locs@[a].units() == location_sum(
                    f.take(i as int),
                    bucket@,
                    target_month@,
                    a,
                ) && locs@[a]@.1 <= s && abs_int(locs@[a].units()) <= locations_magnitude(
                    f.take(i as int),
                ),
            forall|a: Seq<char>|
                !locs@.contains_key(a) ==> location_sum(
                    f.take(i as int),
                    bucket@,
                    target_month@,
                    a,
                ) == 0,
            forall|a: Seq<char>| #[trigger]
                locs@.contains_key(a) ==> locs@[a]@ == location_value(
                    f.take(i as int),
                    bucket@,
                    target_month@,
                    a,
                ),
            forall|a: Seq<char>|
                !locs@.contains_key(a) ==> location_value(
                    f.take(i as int),
                    bucket@,
                    target_month@,
                    a,
                ) == (0int, 0nat, false),
        decreases f.len() - i,
    {
        let fl = &flows[i];
        proof {
            assert(f.take(i + 1).drop_last() =~= f.take(i as int));
            assert(f.take(i + 1).last() == f[i as int]);
            lemma_locations_magnitude_prefix(f, i + 1);
            lemma_locations_magnitude_nonneg(f.take(i as int));
        }
        let counts = match fl.kind {
            BucketKind::Asset => crate::text::chars_is_within(&b, &crate::text::str_chars(fl.bucket.as_str()))
                && is_month_in_scope(fl.month.as_str(), target_month, ReportScope::Cumulative),
            BucketKind::Expense => false,
        };
        let d = &fl.location_deltas;
        let n = d.len();
        let ghost keys = d.keys();
        let ghost base = locs@;
        let ghost m0 = locations_magnitude(f.take(i as int));
        if counts {
            let mut j: usize = 0;
            while j < n
                invariant
                    n == keys.len(),
                    keys == d.keys(),
                    d.well_ordered(),
                    j <= n,
                    i < f.len(),
                    locations_fit(f, s),
                    f[i as int].location_deltas == *d,
                    m0 + deltas_magnitude(*d, n as int) <= locations_magnitude(f),
                    m0 >= 0,
                    forall|a: Seq<char>| #[trigger]
                        locs@.contains_key(a) ==> locs@[a]@.1 <= s && abs_int(locs@[a].units())
                            <= m0 + deltas_magnitude(*d, j as int) && locs@[a].units() == (if base.contains_key(a) {
                            base[a].units()
                        } else {
                            0
                        }) + if keys.take(j as int).contains(a) {
                            d@[a].units()
                        } else {
                            0
                        },
                    forall|a: Seq<char>|
                        !(#[trigger] locs@.contains_key(a)) ==> !base.contains_key(a) && !keys.take(
                            j as int,
                        ).contains(a),
                    forall|a: Seq<char>| #[trigger]
                        base.contains_key(a) ==> abs_int(base[a].units()) <= m0,
                    forall|a: Seq<char>| #[trigger]
                        locs@.contains_key(a) ==> (keys.take(j as int).contains(a) || base.contains_key(a))
                            && locs@[a]@ == (if keys.take(j as int).contains(a) {
                            decimal_sum(base_value(base, a), d@[a]@)
                        } else {
                            base_value(base, a)
                        }),
                decreases n - j,
            {
                let k = d.key_at(j);
                let delta = *d.value_at(j);
                let prev = match locs.get(k.as_str()) {
                    Some(x) => *x,
                    None => Amount::zero(),
                };
                proof {
                    d.lemma_index(j as int);
                    assert(i < f.len());
                    assert(f[i as int].location_deltas@.contains_key(k@));
                    assert(delta@.1 <= s);
                    assert(!keys.take(j as int).contains(k@)) by {
                        if keys.take(j as int).contains(k@) {
                            let t = choose|t: int| 0 <= t < j && #[trigger] keys.take(j as int)[t] == k@;
                            assert(keys[t] == keys[j as int]);
                            crate::text::lemma_seq_lt_irrefl(k@);
                        }
                    }
                    lemma_deltas_magnitude_nonneg(*d, j as int);
                    assert(abs_int(prev.units()) <= m0 + deltas_magnitude(*d, j as int));
                    lemma_deltas_magnitude_mono(*d, j + 1, n as int);
                    crate::budget::lemma_fits_mono(
                        locations_magnitude(f),
                        prev.units() + delta.units(),
                        max_nat(prev@.1, delta@.1),
                        s,
                    );
                }
                let next = decimal_add(prev, delta);
                let ghost before = locs@;
                locs.insert(k.clone(), next);
                proof {
                    assert forall|a: Seq<char>| #[trigger]
                        keys.take(j + 1).contains(a) == (keys.take(j as int).contains(a) || a
                            == keys[j as int]) by {
                        if keys.take(j + 1).contains(a) {
                            let t = choose|t: int| 0 <= t < j + 1 && #[trigger] keys.take(j + 1)[t] == a;
                            if t < j {
                                assert(keys.take(j as int)[t] == a);
                            }
                        }
                        if keys.take(j as int).contains(a) {
                            let t = choose|t: int| 0 <= t < j && #[trigger] keys.take(j as int)[t] == a;
                            assert(keys.take(j + 1)[t] == a);
                        }
                        if a == keys[j as int] {
                            assert(keys.take(j + 1)[j as int] == a);
                        }
                    }
                    assert(locs@ == before.insert(k@, next));
                    assert forall|a: Seq<char>| !(#[trigger] locs@.contains_key(a)) implies !base.contains_key(a)
                        && !keys.take(j + 1).contains(a) by {
                        assert(!before.contains_key(a));
                        assert(a != keys[j as int]);
                    }
                    assert forall|a: Seq<char>| #[trigger]
                        locs@.contains_key(a) implies (keys.take(j + 1).contains(a) || base.contains_key(a))
                            && locs@[a]@ == (if keys.take(j + 1).contains(a) {
                            decimal_sum(base_value(base, a), d@[a]@)
                        } else {
                            base_value(base, a)
                        }) by {
                        if a == k@ {
                            assert(keys.take(j + 1).contains(a));
                            assert(d@[a] == delta);
                            if before.contains_key(a) {
                                assert(before[a]@ == base_value(base, a));
                            }
                        } else {
                            assert(before.contains_key(a));
                        }
                    }
                }
                j += 1;
            }
            proof {
                assert(keys.take(n as int) =~= keys);
                assert forall|a: Seq<char>| keys.contains(a) == d@.contains_key(a) by {}
            }
        }
        proof {
            lemma_deltas_magnitude_nonneg(*d, n as int);
            assert(f.take(i + 1).last().location_deltas == *d);
            assert(locations_magnitude(f.take(i + 1)) == m0 + deltas_magnitude(*d, n as int));
            assert forall|a: Seq<char>| #[trigger]
                locs@.contains_key(a) implies locs@[a]@.1 <= s && abs_int(locs@[a].units()) <= m0
                    + deltas_magnitude(*d, n as int) && locs@[a].units() == (if base.contains_key(
                    a,
                ) {
                    base[a].units()
                } else {
                    0
                }) + if counts && d@.contains_key(a) {
                    d@[a].units()
                } else {
                    0
                } by {
                if base.contains_key(a) {
                    assert(abs_int(base[a].units()) <= m0);
                }
            }
            assert forall|a: Seq<char>|
                !locs@.contains_key(a) implies !base.contains_key(a) && !(counts
                    && d@.contains_key(a)) by {}
            assert forall|a: Seq<char>| #[trigger]
                locs@.contains_key(a) implies locs@[a]@ == (if counts && d@.contains_key(a) {
                    decimal_sum(base_value(base, a), d@[a]@)
                } else {
                    base_value(base, a)
                }) by {}
        }
        proof {
            assert forall|a: Seq<char>| true implies location_sum(
                f.take(i + 1),
                bucket@,
                target_month@,
                a,
            ) == location_sum(f.take(i as int), bucket@, target_month@, a) + if locates(
                f[i as int],
                bucket@,
                target_month@,
            ) && f[i as int].location_deltas@.contains_key(a) {
                f[i as int].location_deltas@[a].units()
            } else {
                0
            } by {}
            assert(counts == locates(f[i as int], bucket@, target_month@));
            assert forall|a: Seq<char>| !base.contains_key(a) implies location_sum(
                f.take(i as int),
                bucket@,
                target_month@,
                a,
            ) == 0 by {}
            assert forall|a: Seq<char>| !locs@.contains_key(a) implies location_sum(
                f.take(i + 1),
                bucket@,
                target_month@,
                a,
            ) == 0 by {
                assert(!base.contains_key(a));
            }
            assert forall|a: Seq<char>| true implies location_value(
                f.take(i + 1),
                bucket@,
                target_month@,
                a,
            ) == (if locates(f[i as int], bucket@, target_month@)
                && f[i as int].location_deltas@.contains_key(a) {
                decimal_sum(
                    location_value(f.take(i as int), bucket@, target_month@, a),
                    f[i as int].location_deltas@[a]@,
                )
            } else {
                location_value(f.take(i as int), bucket@, target_month@, a)
            }) by {}
            assert forall|a: Seq<char>| #[trigger]
                locs@.contains_key(a) implies locs@[a]@ == location_value(
                f.take(i + 1),
                bucket@,
                target_month@,
                a,
            ) by {
                let lv = location_value(f.take(i as int), bucket@, target_month@, a);
                if base.contains_key(a) {
                    assert(base[a]@ == lv);
                } else {
                    assert(lv == (0int, 0nat, false));
                }
                assert(base_value(base, a) == lv);
            }
            assert forall|a: Seq<char>| !locs@.contains_key(a) implies location_value(
                f.take(i + 1),
                bucket@,
                target_month@,
                a,
            ) == (0int, 0nat, false) by {
                assert(!base.contains_key(a));
            }
        }
        i += 1;
    }
    assert(f.take(f.len() as int) =~= f);
    let mut out: StrMap<Amount> = StrMap::new();
    let n = locs.len();
    let ghost keys = locs.keys();
    let mut k: usize = 0;
    while k < n
        invariant
            n == keys.len(),
            keys == locs.keys(),
            locs.well_ordered(),
            k <= n,
            forall|a: Seq<char>| #[trigger]
                out@.contains_key(a) <==> keys.take(k as int).contains(a) && locs@[a].units() != 0,
            forall|a: Seq<char>| #[trigger] out@.contains_key(a) ==> out@[a] == locs@[a],
        decreases n - k,
    {
        let key = locs.key_at(k);
        let v = *locs.value_at(k);
        proof {
            locs.lemma_index(k as int);
        }
        if !v.is_zero() {
            out.insert(key.clone(), v);
        }
        proof {
            assert forall|a: Seq<char>| #[trigger]
                keys.take(k + 1).contains(a) == (keys.take(k as int).contains(a) || a
                    == keys[k as int]) by {
                if keys.take(k + 1).contains(a) {
                    let t = choose|t: int| 0 <= t < k + 1 && #[trigger] keys.take(k + 1)[t] == a;
                    if t < k {
                        assert(keys.take(k as int)[t] == a);
                    }
                }
                if keys.take(k as int).contains(a) {
                    let t = choose|t: int| 0 <= t < k && #[trigger] keys.take(k as int)[t] == a;
                    assert(keys.take(k + 1)[t] == a);
                }
                if a == keys[k as int] {
                    assert(keys.take(k + 1)[k as int] == a);
                }
            }
        }
        k += 1;
    }
    proof {
        assert(keys.take(n as int) =~= keys);
        assert forall|a: Seq<char>| keys.contains(a) == locs@.contains_key(a) by {}
    }
    out
}

proof fn lemma_deltas_magnitude_mono(d: StrMap<Amount>, a: int, b: int)
    requires
        0 <= a <= b,
    ensures
        deltas_magnitude(d, a) <= deltas_magnitude(d, b),
        b > 0 && a == b ==> deltas_magnitude(d, b) == deltas_magnitude(d, b - 1) + abs_int(
            d@[d.keys()[b - 1]].units(),
        ),
    decreases b - a,
{
    if a < b {
        lemma_deltas_magnitude_mono(d, a, b - 1);
    }
}

// ---------------------------------------------------------------------------
// One bucket's data
// ---------------------------------------------------------------------------

/// A bucket's directives and flows in scope, with its totals.
#[derive(Debug)]
pub struct ScopedBucketData {
    pub bucket: String,
    pub kind: BucketKind,
    pub planned: Amount,
    pub actual: Amount,
    /// `planned - actual`
    pub remain: Amount,
    pub directives: Vec<BudgetDirective>,
    pub flows: Vec<BucketTxFlow>,
}

/// What `str::to_lowercase` returns: the Unicode lowercase mapping.
pub uninterp spec fn lowercase_text(s: Seq<char>) -> Seq<char>;

/// Every character is ASCII.
pub open spec fn all_ascii(s: Seq<char>) -> bool {
    forall|i: int| 0 <= i < s.len() ==> (#[trigger] s[i] as u32) < 0x80
}

/// `str::to_lowercase`.  Its result is left to the name `lowercase_text`;
/// it depends on the text alone (Unicode's case tables, not the locale).
/// Claimed beyond the name: ASCII text is mapped character by character to
/// ASCII lowercase (`A`..`Z` to `a`..`z`, all else kept), as Unicode's
/// lowercase mapping, which the documentation names, does for ASCII.
#[verifier::external_body]
pub(crate) fn to_lowercase(s: &str) -> (r: String)
    ensures
        r@ == lowercase_text(s@),
        all_ascii(s@) ==> r@ == crate::util::ascii_lower_seq(s@),
{
    s.to_lowercase()
}

/// `sub` occurs in `s` (`str::contains`).
pub open spec fn has_substring(s: Seq<char>, sub: Seq<char>) -> bool {
    exists|i: int| 0 <= i && i + sub.len() <= s.len() && #[trigger] s.subrange(i, i + sub.len()) == sub
}

/// Whether `sub` occurs in `s`.
pub fn chars_contains(s: &Vec<char>, sub: &Vec<char>) -> (r: bool)
    ensures
        r == has_substring(s@, sub@),
{
    if sub.len() > s.len() {
        return false;
    }
    let last = s.len() - sub.len();
    let mut i: usize = 0;
    loop
        invariant_except_break
            sub.len() <= s.len(),
            last == s.len() - sub.len(),
            i <= last,
            forall|t: int| 0 <= t < i ==> #[trigger] s@.subrange(t, t + sub@.len()) != sub@,
        ensures
            forall|t: int| 0 <= t <= last ==> #[trigger] s@.subrange(t, t + sub@.len()) != sub@,
        decreases last - i,
    {
        let piece = crate::text::slice_chars(s, i, i + sub.len());
        if crate::text::chars_eq(&piece, sub) {
            return true;
        }
        if i == last {
            break ;
        }
        i += 1;
    }
    proof {
        assert forall|t: int| 0 <= t && t + sub@.len() <= s@.len() implies #[trigger] s@.subrange(
            t,
            t + sub@.len(),
        ) != sub@ by {
            assert(t <= last);
        }
    }
    false
}

/// Lowercased text of an optional field; empty when absent.
pub open spec fn lowered(o: Option<Seq<char>>) -> Seq<char> {
    match o {
        Some(t) => lowercase_text(t),
        None => Seq::empty(),
    }
}

/// The lowercased keyword occurs in a flow's lowercased payee, narration or
/// one of its metadata values.
pub open spec fn flow_mentions(f: FlowView, kw: Seq<char>) -> bool {
    ||| has_substring(lowered(f.payee), kw)
    ||| has_substring(lowered(f.narration), kw)
    ||| exists|k: Seq<char>|
        f.metadata.contains_key(k) && has_substring(lowercase_text(#[trigger] f.metadata[k]), kw)
}

/// A directive of `bucket` (or a bucket under it) in scope.
pub open spec fn dir_in_bucket(d: BudgetDirective, bucket: Seq<char>, target: Seq<char>, scope: ReportScope) -> bool {
    is_within(bucket, d.bucket@) && month_in_scope(d.month@, target, scope)
}

/// A flow of `bucket` (or a bucket under it) in scope, mentioning the keyword
/// when there is one, and not an asset flow when those are hidden.
pub open spec fn flow_kept(
    f: FlowView,
    bucket: Seq<char>,
    target: Seq<char>,
    scope: ReportScope,
    kw: Option<Seq<char>>,
    hide_assets: bool,
) -> bool {
    &&& is_within(bucket, f.bucket)
    &&& month_in_scope(f.month, target, scope)
    &&& (kw matches Some(k) ==> flow_mentions(f, lowercase_text(k)))
    &&& !(hide_assets && f.kind == BucketKind::Asset)
}

/// A directive as plain values: month, label, source key, bucket, amount.
pub open spec fn dir_view(d: BudgetDirective) -> (Seq<char>, Option<Seq<char>>, Seq<char>, Seq<char>, (int, nat, bool)) {
    (d.month@, opt_seq(d.label), d.source_key@, d.bucket@, d.amount@)
}

pub open spec fn dir_views(d: Seq<BudgetDirective>) -> Seq<(Seq<char>, Option<Seq<char>>, Seq<char>, Seq<char>, (int, nat, bool))> {
    d.map_values(|x: BudgetDirective| dir_view(x))
}

/// The directives of the bucket in scope, in order.
pub open spec fn scoped_dirs(d: Seq<BudgetDirective>, bucket: Seq<char>, target: Seq<char>, scope: ReportScope) -> Seq<BudgetDirective>
    decreases d.len(),
{
    if d.len() == 0 {
        Seq::empty()
    } else if dir_in_bucket(d.last(), bucket, target, scope) {
        scoped_dirs(d.drop_last(), bucket, target, scope).push(d.last())
    } else {
        scoped_dirs(d.drop_last(), bucket, target, scope)
    }
}

/// The flows of the bucket that are kept, in order.
pub open spec fn scoped_flows(
    f: Seq<FlowView>,
    bucket: Seq<char>,
    target: Seq<char>,
    scope: ReportScope,
    kw: Option<Seq<char>>,
    hide_assets: bool,
) -> Seq<FlowView>
    decreases f.len(),
{
    if f.len() == 0 {
        Seq::empty()
    } else if flow_kept(f.last(), bucket, target, scope, kw, hide_assets) {
        scoped_flows(f.drop_last(), bucket, target, scope, kw, hide_assets).push(f.last())
    } else {
        scoped_flows(f.drop_last(), bucket, target, scope, kw, hide_assets)
    }
}

/// A flow that `flow_kept` keeps is among the scoped flows.
proof fn lemma_scoped_flows_contains(
    f: Seq<FlowView>,
    i: int,
    bucket: Seq<char>,
    target: Seq<char>,
    scope: ReportScope,
    kw: Option<Seq<char>>,
    hide_assets: bool,
)
    requires
        0 <= i < f.len(),
        flow_kept(f[i], bucket, target, scope, kw, hide_assets),
    ensures
        scoped_flows(f, bucket, target, scope, kw, hide_assets).contains(f[i]),
    decreases f.len(),
{
    let r = scoped_flows(f.drop_last(), bucket, target, scope, kw, hide_assets);
    if i == f.len() - 1 {
        assert(r.push(f.last())[r.len() as int] == f[i]);
    } else {
        assert(f.drop_last()[i] == f[i]);
        lemma_scoped_flows_contains(f.drop_last(), i, bucket, target, scope, kw, hide_assets);
        let j = choose|j: int| 0 <= j < r.len() && r[j] == f[i];
        if flow_kept(f.last(), bucket, target, scope, kw, hide_assets) {
            assert(r.push(f.last())[j] == f[i]);
        }
    }
}

/// Every scoped flow is one of the flows and is kept by `flow_kept`.
proof fn lemma_scoped_flows_members(
    f: Seq<FlowView>,
    bucket: Seq<char>,
    target: Seq<char>,
    scope: ReportScope,
    kw: Option<Seq<char>>,
    hide_assets: bool,
    x: FlowView,
)
    requires
        scoped_flows(f, bucket, target, scope, kw, hide_assets).contains(x),
    ensures
        f.contains(x),
        flow_kept(x, bucket, target, scope, kw, hide_assets),
    decreases f.len(),
{
    let r = scoped_flows(f.drop_last(), bucket, target, scope, kw, hide_assets);
    if r.contains(x) {
        lemma_scoped_flows_members(f.drop_last(), bucket, target, scope, kw, hide_assets, x);
        let k = choose|k: int| 0 <= k < f.len() - 1 && f.drop_last()[k] == x;
        assert(f[k] == x);
    } else {
        let k = choose|k: int| 0 <= k < r.len() + 1 && r.push(f.last())[k] == x;
        if k < r.len() {
            assert(r[k] == x);
        }
        assert(f[f.len() - 1] == x);
    }
}

/// With a keyword filter, every flow kept is a flow of the bucket (or a
/// bucket under it) in scope whose lowercased payee, narration (each empty
/// when missing) or some lowercased metadata value holds the lowercased
/// keyword; no asset flow is kept while those are hidden.
pub proof fn lemma_keyword_filter_keeps_only_matches(
    f: Seq<FlowView>,
    bucket: Seq<char>,
    target: Seq<char>,
    scope: ReportScope,
    kw: Seq<char>,
    hide_assets: bool,
    x: FlowView,
)
    requires
        scoped_flows(f, bucket, target, scope, Some(kw), hide_assets).contains(x),
    ensures
        f.contains(x),
        is_within(bucket, x.bucket),
        month_in_scope(x.month, target, scope),
        !(hide_assets && x.kind == BucketKind::Asset),
        has_substring(lowered(x.payee), lowercase_text(kw)) || has_substring(
            lowered(x.narration),
            lowercase_text(kw),
        ) || (exists|k: Seq<char>|
            x.metadata.contains_key(k) && has_substring(
                #[trigger] lowercase_text(x.metadata[k]),
                lowercase_text(kw),
            )),
{
    lemma_scoped_flows_members(f, bucket, target, scope, Some(kw), hide_assets, x);
}

/// `part` occurs in `before + part + after`.
proof fn lemma_has_substring_middle(before: Seq<char>, part: Seq<char>, after: Seq<char>)
    ensures
        has_substring(before + part + after, part),
{
    let t = before + part + after;
    assert(t.subrange(before.len() as int, (before.len() + part.len()) as int) =~= part);
}

/// With a keyword filter, a flow of the bucket (or a bucket under it) in
/// scope is kept when the lowercased keyword occurs in its lowercased payee,
/// its lowercased narration or one of its lowercased metadata values (and it
/// is not an asset flow while those are hidden).
pub proof fn lemma_keyword_match_keeps_flow(
    f: Seq<FlowView>,
    i: int,
    bucket: Seq<char>,
    target: Seq<char>,
    scope: ReportScope,
    kw: Seq<char>,
    hide_assets: bool,
    before: Seq<char>,
    after: Seq<char>,
)
    requires
        0 <= i < f.len(),
        is_within(bucket, f[i].bucket),
        month_in_scope(f[i].month, target, scope),
        !(hide_assets && f[i].kind == BucketKind::Asset),
        (f[i].payee matches Some(p) && lowercase_text(p) == before + lowercase_text(kw) + after)
            || (f[i].narration matches Some(n) && lowercase_text(n) == before + lowercase_text(kw)
            + after) || (exists|k: Seq<char>|
            f[i].metadata.contains_key(k) && #[trigger] lowercase_text(f[i].metadata[k]) == before
                + lowercase_text(kw) + after),
    ensures
        scoped_flows(f, bucket, target, scope, Some(kw), hide_assets).contains(f[i]),
{
    lemma_has_substring_middle(before, lowercase_text(kw), after);
    if !(f[i].payee matches Some(p) && lowercase_text(p) == before + lowercase_text(kw) + after)
        && !(f[i].narration matches Some(n) && lowercase_text(n) == before + lowercase_text(kw)
        + after) {
        let k = choose|k: Seq<char>|
            f[i].metadata.contains_key(k) && #[trigger] lowercase_text(f[i].metadata[k]) == before
                + lowercase_text(kw) + after;
        assert(f[i].metadata.contains_key(k) && has_substring(
            lowercase_text(f[i].metadata[k]),
            lowercase_text(kw),
        ));
    }
    assert(flow_mentions(f[i], lowercase_text(kw)));
    lemma_scoped_flows_contains(f, i, bucket, target, scope, Some(kw), hide_assets);
}

/// The planned total `rust_decimal` computes, left to right from zero.
pub open spec fn planned_total(d: Seq<BudgetDirective>) -> (int, nat, bool)
    decreases d.len(),
{
    if d.len() == 0 {
        (0, 0, false)
    } else {
        decimal_sum(planned_total(d.drop_last()), d.last().amount@)
    }
}

/// `actual_amount` of a flow, as plain values.
pub open spec fn actual_view(f: FlowView) -> (int, nat, bool) {
    match f.kind {
        BucketKind::Expense => (-f.flow.0, f.flow.1, !f.flow.2),
        BucketKind::Asset => f.flow,
    }
}

/// The actual total of the flows of kind `kind`, left to right from zero.
pub open spec fn actual_total(f: Seq<FlowView>, kind: BucketKind) -> (int, nat, bool)
    decreases f.len(),
{
    if f.len() == 0 {
        (0, 0, false)
    } else if f.last().kind == kind {
        decimal_sum(actual_total(f.drop_last(), kind), actual_view(f.last()))
    } else {
        actual_total(f.drop_last(), kind)
    }
}

/// Does the flow mention the lowercased keyword?
fn mentions(f: &BucketTxFlow, kw: &Vec<char>) -> (r: bool)
    ensures
        r == flow_mentions(f@, kw@),
{
    let payee = match &f.payee {
        Some(p) => crate::text::str_chars(to_lowercase(p.as_str()).as_str()),
        None => Vec::new(),
    };
    if chars_contains(&payee, kw) {
        return true;
    }
    let narration = match &f.narration {
        Some(p) => crate::text::str_chars(to_lowercase(p.as_str()).as_str()),
        None => Vec::new(),
    };
    if chars_contains(&narration, kw) {
        return true;
    }
    let meta = &f.metadata;
    let n = meta.len();
    let mut i: usize = 0;
    while i < n
        invariant
            n == meta.keys().len(),
            meta.well_ordered(),
            f@.metadata == string_views(meta@),
            i <= n,
            !has_substring(lowered(f@.payee), kw@),
            !has_substring(lowered(f@.narration), kw@),
            forall|t: int|
                0 <= t < i ==> !has_substring(
                    lowercase_text(#[trigger] meta@[meta.keys()[t]]@),
                    kw@,
                ),
        decreases n - i,
    {
        let v = meta.value_at(i);
        proof {
            meta.lemma_index(i as int);
        }
        let lv = crate::text::str_chars(to_lowercase(v.as_str()).as_str());
        if chars_contains(&lv, kw) {
            proof {
                let k = meta.keys()[i as int];
                assert(f@.metadata.contains_key(k));
                assert(f@.metadata[k] == meta@[k]@);
            }
            return true;
        }
        i += 1;
    }
    proof {
        assert forall|k: Seq<char>|
            f@.metadata.contains_key(k) implies !has_substring(
            lowercase_text(#[trigger] f@.metadata[k]),
            kw@,
        ) by {
            assert(meta.keys().contains(k));
            let t = choose|t: int| 0 <= t < n && meta.keys()[t] == k;
            assert(f@.metadata[k] == meta@[meta.keys()[t]]@);
        }
    }
    false
}

/// Sum (units) of the directives' amounts.
pub open spec fn dirs_units(d: Seq<BudgetDirective>) -> int
    decreases d.len(),
{
    if d.len() == 0 {
        0
    } else {
        dirs_units(d.drop_last()) + d.last().amount.units()
    }
}

/// Sum (units) of the actual amounts of the flows of kind `kind`.
pub open spec fn flows_actual_units(f: Seq<FlowView>, kind: BucketKind) -> int
    decreases f.len(),
{
    if f.len() == 0 {
        0
    } else {
        flows_actual_units(f.drop_last(), kind) + if f.last().kind == kind {
            view_units(actual_view(f.last()))
        } else {
            0
        }
    }
}

/// The data of one bucket's report: the directives and flows of `bucket` and
/// of the buckets under it in scope (flows also filtered by the keyword and
/// by `hide_asset_flows`), the planned total, the actual total of the flows of
/// the bucket's kind, and what remains.
pub fn build_scoped_bucket_data(
    config: &ReportConfig,
    bucket: &str,
    mappings: &BudgetMappings,
    directives: &Vec<BudgetDirective>,
    flows: &Vec<BucketTxFlow>,
) -> (r: ScopedBucketData)
    requires
        months_comparable(directives@, flows@, config.month@, config.scope),
        exists|s: nat| totals_fit(directives@, flows@, s),
    ensures
        r.bucket@ == bucket@,
        r.kind == bucket_kind_spec(*mappings, bucket@),
        dir_views(r.directives@) == dir_views(
            scoped_dirs(directives@, bucket@, config.month@, config.scope),
        ),
        flow_views(r.flows@) == scoped_flows(
            flow_views(flows@),
            bucket@,
            config.month@,
            config.scope,
            opt_seq(config.filter),
            config.hide_asset_flows,
        ),
        r.planned@ == planned_total(scoped_dirs(directives@, bucket@, config.month@, config.scope)),
        r.planned.units() == dirs_units(scoped_dirs(directives@, bucket@, config.month@, config.scope)),
        r.actual@ == actual_total(flow_views(r.flows@), r.kind),
        r.actual.units() == flows_actual_units(flow_views(r.flows@), r.kind),
        r.remain@ == decimal_difference(r.planned@, r.actual@),
        r.remain.units() == r.planned.units() - r.actual.units(),
{
    let ghost s: nat = choose|s: nat| totals_fit(directives@, flows@, s);
    let ghost d = directives@;
    let ghost fv = flow_views(flows@);
    let ghost f = flows@;
    let ghost target = config.month@;
    let ghost kw = opt_seq(config.filter);
    let b = crate::text::str_chars(bucket);
    let kind = mappings.bucket_kind(bucket);
    let mut planned = Amount::zero();
    let mut kept_dirs: Vec<BudgetDirective> = Vec::new();
    let mut i: usize = 0;
    proof {
        crate::budget::lemma_dirs_magnitude_nonneg(d);
        crate::budget::lemma_flows_magnitude_nonneg(f);
        assert(d.take(0) =~= Seq::<BudgetDirective>::empty());
        assert(dir_views(kept_dirs@) =~= dir_views(Seq::<BudgetDirective>::empty()));
    }
    while i < directives.len()
        invariant
            d == directives@,
            f == flows@,
            b@ == bucket@,
            target == config.month@,
            totals_fit(d, f, s),
            months_comparable(d, f, target, config.scope),
            i <= d.len(),
            dir_views(kept_dirs@) == dir_views(scoped_dirs(d.take(i as int), bucket@, target, config.scope)),
            planned@ == planned_total(scoped_dirs(d.take(i as int), bucket@, target, config.scope)),
            planned.units() == dirs_units(scoped_dirs(d.take(i as int), bucket@, target, config.scope)),
            planned@.1 <= s,
            crate::budget::dirs_magnitude(d) >= 0,
            flows_magnitude(f) >= 0,
            abs_int(planned.units()) <= crate::budget::dirs_magnitude(d.take(i as int)),
        decreases d.len() - i,
    {
        let item = &directives[i];
        proof {
            assert(d.take(i + 1).drop_last() =~= d.take(i as int));
            assert(d.take(i + 1).last() == d[i as int]);
            assert(crate::util::month_scope_ok(d[i as int].month@, target, config.scope));
            crate::budget::lemma_dirs_magnitude_prefix(d, i + 1);
            crate::budget::lemma_dirs_magnitude_nonneg(d.take(i as int));
            assert(d[i as int].amount@.1 <= s);
        }
        if crate::text::chars_is_within(&b, &crate::text::str_chars(item.bucket.as_str()))
            && is_month_in_scope(item.month.as_str(), config.month.as_str(), config.scope) {
            proof {
                crate::budget::lemma_fits_mono(
                    crate::budget::dirs_magnitude(d) + flows_magnitude(f),
                    planned.units() + item.amount.units(),
                    max_nat(planned@.1, item.amount@.1),
                    s,
                );
            }
            planned = decimal_add(planned, item.amount);
            let ghost before = kept_dirs@;
            let copy = item.duplicate();
            kept_dirs.push(copy);
            proof {
                let sd = scoped_dirs(d.take(i as int), bucket@, target, config.scope);
                assert(dir_view(copy) == dir_view(d[i as int]));
                assert(dir_views(kept_dirs@) =~= dir_views(before).push(dir_view(copy)));
                assert(dir_views(sd.push(d[i as int])) =~= dir_views(sd).push(dir_view(d[i as int])));
                assert(dir_views(kept_dirs@) =~= dir_views(sd.push(d[i as int])));
                assert(sd.push(d[i as int]).drop_last() =~= sd);
            }
        }
        i += 1;
    }
    proof {
        assert(d.take(d.len() as int) =~= d);
    }
    let kwl = match &config.filter {
        Some(k) => Some(crate::text::str_chars(to_lowercase(k.as_str()).as_str())),
        None => None,
    };
    let mut actual = Amount::zero();
    let mut kept: Vec<BucketTxFlow> = Vec::new();
    let mut j: usize = 0;
    proof {
        assert(fv.take(0) =~= Seq::<FlowView>::empty());
        assert(flow_views(kept@) =~= Seq::<FlowView>::empty());
    }
    while j < flows.len()
        invariant
            d == directives@,
            f == flows@,
            fv == flow_views(f),
            b@ == bucket@,
            kind == bucket_kind_spec(*mappings, bucket@),
            target == config.month@,
            kw == opt_seq(config.filter),
            kwl matches Some(k) ==> kw is Some && k@ == lowercase_text(kw.unwrap()),
            kwl is None ==> kw is None,
            totals_fit(d, f, s),
            months_comparable(d, f, target, config.scope),
            j <= f.len(),
            flow_views(kept@) == scoped_flows(
                fv.take(j as int),
                bucket@,
                target,
                config.scope,
                kw,
                config.hide_asset_flows,
            ),
            actual@ == actual_total(flow_views(kept@), kind),
            actual.units() == flows_actual_units(flow_views(kept@), kind),
            actual@.1 <= s,
            abs_int(actual.units()) <= flows_magnitude(f.take(j as int)),
            crate::budget::dirs_magnitude(d) >= 0,
            flows_magnitude(f) >= 0,
            abs_int(planned.units()) <= crate::budget::dirs_magnitude(d),
            planned@.1 <= s,
        decreases f.len() - j,
    {
        let fl = &flows[j];
        proof {
            assert(fv.take(j + 1).drop_last() =~= fv.take(j as int));
            assert(fv.take(j + 1).last() == fl@);
            assert(crate::util::month_scope_ok(f[j as int].month@, target, config.scope));
            crate::budget::lemma_flows_magnitude_prefix(f, j + 1);
            crate::budget::lemma_flows_magnitude_nonneg(f.take(j as int));
            assert(f.take(j + 1).drop_last() =~= f.take(j as int));
            assert(f[j as int].flow@.1 <= s);
        }
        let in_scope = crate::text::chars_is_within(&b, &crate::text::str_chars(fl.bucket.as_str()))
            && is_month_in_scope(fl.month.as_str(), config.month.as_str(), config.scope);
        let keyword_ok = match &kwl {
            Some(k) => mentions(fl, k),
            None => true,
        };
        let shown = match fl.kind {
            BucketKind::Asset => !config.hide_asset_flows,
            BucketKind::Expense => true,
        };
        if in_scope && keyword_ok && shown {
            let ghost before = flow_views(kept@);
            if same_kind(fl.kind, kind) {
                let amt = fl.actual_amount();
                fl.flow.check_valid();
                proof {
                    crate::budget::lemma_fits_mono(
                        crate::budget::dirs_magnitude(d) + flows_magnitude(f),
                        actual.units() + amt.units(),
                        max_nat(actual@.1, amt@.1),
                        s,
                    );
                    assert(amt@ == actual_view(fl@));
                }
                actual = decimal_add(actual, amt);
            }
            kept.push(fl.duplicate());
            proof {
                assert(flow_views(kept@) =~= before.push(fl@));
                assert(before.push(fl@).drop_last() =~= before);
            }
        }
        j += 1;
    }
    proof {
        assert(fv.take(f.len() as int) =~= fv);
        assert(f.take(f.len() as int) =~= f);
    }
    proof {
        crate::budget::lemma_fits_mono(
            crate::budget::dirs_magnitude(d) + flows_magnitude(f),
            planned.units() - actual.units(),
            max_nat(planned@.1, actual@.1),
            s,
        );
    }
    let remain = decimal_sub(planned, actual);
    ScopedBucketData {
        bucket: bucket.to_string(),
        kind,
        planned,
        actual,
        remain,
        directives: kept_dirs,
        flows: kept,
    }
}

} // verus!
