//! The budget file's nested amounts, its templates and their flattening into
//! budget directives.
use vstd::prelude::*;

use crate::amount::Amount;
use crate::config::BudgetDirective;
use crate::text::{push_str, string_push};
use crate::strmap::{sorted_keys, StrMap};
use crate::text::seq_lt;

verus! {

broadcast use vstd::string::group_string_axioms;

/// A value of the budget file: an amount, a group of named values (a child
/// bucket each), or nothing (an empty entry, read as zero).
#[derive(Debug)]
pub enum BudgetValue {
    Amount(Amount),
    Group(Vec<(String, BudgetValue)>),
    Null,
}

/// The names of a group's entries, in order.
pub open spec fn entry_names(es: Seq<(String, BudgetValue)>) -> Seq<Seq<char>> {
    es.map_values(|e: (String, BudgetValue)| e.0@)
}

/// Every group lists its entries by name, in ascending order, each name once.
pub open spec fn value_wf(v: BudgetValue) -> bool
    decreases v,
{
    match v {
        BudgetValue::Group(es) => sorted_keys(entry_names(es@)) && forall|i: int|
            0 <= i < es@.len() ==> value_wf(#[trigger] es@[i].1),
        _ => true,
    }
}

/// A budget value as a tree of plain values: an amount, a group of named
/// subtrees, or nothing.
pub enum Tree {
    Leaf((int, nat, bool)),
    Node(Seq<(Seq<char>, Tree)>),
    Empty,
}

/// The tree a value holds.
pub open spec fn tree_of(v: BudgetValue) -> Tree
    decreases v,
{
    match v {
        BudgetValue::Amount(a) => Tree::Leaf(a@),
        BudgetValue::Group(es) => Tree::Node(entries_tree(es@)),
        BudgetValue::Null => Tree::Empty,
    }
}

/// The trees of a group's entries.
pub open spec fn entries_tree(es: Seq<(String, BudgetValue)>) -> Seq<(Seq<char>, Tree)>
    decreases es,
{
    Seq::new(
        es.len(),
        |i: int|
            (
                es[i].0@,
                if 0 <= i < es.len() {
                    tree_of(es[i].1)
                } else {
                    Tree::Empty
                },
            ),
    )
}

// ---------------------------------------------------------------------------
// Groups as sorted maps
// ---------------------------------------------------------------------------

/// Where name `k` belongs in a group: the first entry whose name is not
/// before `k`.
pub open spec fn slot(es: Seq<(Seq<char>, Tree)>, k: Seq<char>) -> int
    decreases es.len(),
{
    if es.len() == 0 {
        0
    } else if !seq_lt(es[0].0, k) {
        0
    } else {
        1 + slot(es.drop_first(), k)
    }
}

/// The subtree named `k`.
pub open spec fn lookup(es: Seq<(Seq<char>, Tree)>, k: Seq<char>) -> Option<Tree> {
    let i = slot(es, k);
    if 0 <= i < es.len() && es[i].0 == k {
        Some(es[i].1)
    } else {
        None
    }
}

/// The group with `k` set to `v` (as `BTreeMap::insert`).
pub open spec fn upsert(es: Seq<(Seq<char>, Tree)>, k: Seq<char>, v: Tree) -> Seq<(Seq<char>, Tree)> {
    let i = slot(es, k);
    if 0 <= i < es.len() && es[i].0 == k {
        es.update(i, (k, v))
    } else {
        es.insert(i, (k, v))
    }
}

/// The names of a group, in order.
pub open spec fn tree_names(es: Seq<(Seq<char>, Tree)>) -> Seq<Seq<char>> {
    es.map_values(|e: (Seq<char>, Tree)| e.0)
}

// ---------------------------------------------------------------------------
// Merging
// ---------------------------------------------------------------------------

/// `override` laid over `base`: each entry of `override`, in order, replaces
/// the entry of that name, except that a group laid over a group merges
/// into it (see `merge_bucket_maps`).
pub open spec fn merge_entries(base: Seq<(Seq<char>, Tree)>, ov: Seq<(Seq<char>, Tree)>) -> Seq<
    (Seq<char>, Tree),
>
    decreases ov,
{
    if ov.len() == 0 {
        base
    } else {
        let m = merge_entries(base, ov.drop_last());
        let k = ov.last().0;
        let v = ov.last().1;
        let nv = match v {
            Tree::Node(oc) => match lookup(m, k) {
                Some(Tree::Node(bc)) => Tree::Node(merge_entries(bc, oc)),
                _ => v,
            },
            _ => v,
        };
        upsert(m, k, nv)
    }
}


// ---------------------------------------------------------------------------
// What a merge gives each name
// ---------------------------------------------------------------------------

/// A group's names ascend, each once.
pub open spec fn entries_sorted(es: Seq<(Seq<char>, Tree)>) -> bool {
    sorted_keys(tree_names(es))
}

proof fn lemma_slot_first(es: Seq<(Seq<char>, Tree)>, k: Seq<char>, j: int)
    requires
        0 <= j <= es.len(),
        forall|q: int| 0 <= q < j ==> seq_lt((#[trigger] es[q]).0, k),
        j < es.len() ==> !seq_lt(es[j].0, k),
    ensures
        slot(es, k) == j,
    decreases j,
{
    if j > 0 {
        assert(seq_lt(es[0].0, k));
        lemma_slot_first(es.drop_first(), k, j - 1);
    }
}

proof fn lemma_slot_bounds(es: Seq<(Seq<char>, Tree)>, k: Seq<char>)
    ensures
        0 <= slot(es, k) <= es.len(),
        forall|q: int| 0 <= q < slot(es, k) ==> seq_lt((#[trigger] es[q]).0, k),
        slot(es, k) < es.len() ==> !seq_lt(es[slot(es, k)].0, k),
    decreases es.len(),
{
    if es.len() > 0 && seq_lt(es[0].0, k) {
        lemma_slot_bounds(es.drop_first(), k);
        assert forall|q: int| 0 <= q < slot(es, k) implies seq_lt((#[trigger] es[q]).0, k) by {
            if q > 0 {
                assert(es[q] == es.drop_first()[q - 1]);
            }
        }
    }
}

/// In a sorted group, the entry named `k` is found where it stands.
proof fn lemma_lookup_at(es: Seq<(Seq<char>, Tree)>, k: Seq<char>, j: int)
    requires
        entries_sorted(es),
        0 <= j < es.len(),
        es[j].0 == k,
    ensures
        slot(es, k) == j,
        lookup(es, k) == Some(es[j].1),
{
    assert forall|q: int| 0 <= q < j implies seq_lt((#[trigger] es[q]).0, k) by {
        assert(tree_names(es)[q] == es[q].0);
        assert(tree_names(es)[j] == es[j].0);
    }
    crate::text::lemma_seq_lt_irrefl(k);
    lemma_slot_first(es, k, j);
}

/// In a sorted group without an entry named `k`, nothing is found.
proof fn lemma_lookup_none(es: Seq<(Seq<char>, Tree)>, k: Seq<char>)
    requires
        forall|q: int| 0 <= q < es.len() ==> (#[trigger] es[q]).0 != k,
    ensures
        lookup(es, k) is None,
{
    lemma_slot_bounds(es, k);
}

/// Setting `k` keeps a group sorted, gives `k` the new value and leaves every
/// other name as it was.
proof fn lemma_upsert(es: Seq<(Seq<char>, Tree)>, k: Seq<char>, v: Tree, k2: Seq<char>)
    requires
        entries_sorted(es),
    ensures
        entries_sorted(upsert(es, k, v)),
        lookup(upsert(es, k, v), k2) == if k2 == k {
            Some(v)
        } else {
            lookup(es, k2)
        },
{
    let i = slot(es, k);
    lemma_slot_bounds(es, k);
    let r = upsert(es, k, v);
    let names = tree_names(es);
    if 0 <= i < es.len() && es[i].0 == k {
        assert(tree_names(r) =~= names);
        assert(r[i].0 == k);
        lemma_lookup_at(r, k, i);
        if k2 != k {
            if exists|q: int| 0 <= q < es.len() && (#[trigger] es[q]).0 == k2 {
                let q = choose|q: int| 0 <= q < es.len() && (#[trigger] es[q]).0 == k2;
                assert(q != i);
                assert(r[q] == es[q]);
                lemma_lookup_at(es, k2, q);
                lemma_lookup_at(r, k2, q);
            } else {
                lemma_lookup_none(es, k2);
                assert forall|q: int| 0 <= q < r.len() implies (#[trigger] r[q]).0 != k2 by {
                    if q != i {
                        assert(r[q] == es[q]);
                    }
                }
                lemma_lookup_none(r, k2);
            }
        }
    } else {
        // `k` goes before everything from `i` on.
        assert forall|q: int| i <= q < es.len() implies seq_lt(k, (#[trigger] es[q]).0) by {
            assert(names[i] == es[i].0);
            assert(names[q] == es[q].0);
            crate::text::lemma_seq_lt_total(k, es[i].0);
            if q > i {
                if seq_lt(k, es[i].0) {
                    crate::text::lemma_seq_lt_trans(k, es[i].0, es[q].0);
                }
            }
        }
        assert(tree_names(r) =~= names.insert(i, k));
        assert forall|a: int, b: int| 0 <= a < b < r.len() implies seq_lt(
            tree_names(r)[a],
            tree_names(r)[b],
        ) by {
            assert(tree_names(r)[a] == r[a].0);
            assert(tree_names(r)[b] == r[b].0);
            if b < i {
                assert(names[a] == es[a].0);
                assert(names[b] == es[b].0);
            } else if b == i {
                assert(r[a] == es[a]);
            } else if a == i {
                assert(r[b] == es[b - 1]);
            } else if a < i {
                assert(r[a] == es[a]);
                assert(r[b] == es[b - 1]);
                assert(names[a] == es[a].0);
                assert(names[b - 1] == es[b - 1].0);
            } else {
                assert(r[a] == es[a - 1]);
                assert(r[b] == es[b - 1]);
                assert(names[a - 1] == es[a - 1].0);
                assert(names[b - 1] == es[b - 1].0);
            }
        }
        assert(r[i].0 == k);
        lemma_lookup_at(r, k, i);
        if k2 != k {
            if exists|q: int| 0 <= q < es.len() && (#[trigger] es[q]).0 == k2 {
                let q = choose|q: int| 0 <= q < es.len() && (#[trigger] es[q]).0 == k2;
                lemma_lookup_at(es, k2, q);
                if q < i {
                    assert(r[q] == es[q]);
                    lemma_lookup_at(r, k2, q);
                } else {
                    assert(r[q + 1] == es[q]);
                    lemma_lookup_at(r, k2, q + 1);
                }
            } else {
                lemma_lookup_none(es, k2);
                assert forall|q: int| 0 <= q < r.len() implies (#[trigger] r[q]).0 != k2 by {
                    if q < i {
                        assert(r[q] == es[q]);
                    } else if q > i {
                        assert(r[q] == es[q - 1]);
                    }
                }
                lemma_lookup_none(r, k2);
            }
        }
    }
}

/// What laying `ov` over `base` gives name `k`: `base`'s entry when `ov` has
/// none; `ov`'s entry otherwise, except that a group laid over a group is
/// the two merged.
pub open spec fn merged_lookup(base: Seq<(Seq<char>, Tree)>, ov: Seq<(Seq<char>, Tree)>, k: Seq<char>) -> Option<
    Tree,
> {
    match lookup(ov, k) {
        None => lookup(base, k),
        Some(Tree::Node(oc)) => match lookup(base, k) {
            Some(Tree::Node(bc)) => Some(Tree::Node(merge_entries(bc, oc))),
            _ => Some(Tree::Node(oc)),
        },
        Some(v) => Some(v),
    }
}

/// Template inheritance: after laying `ov` over `base`, a name that `ov`
/// leaves out keeps `base`'s entry (inherited), a name that `ov` sets to an
/// amount or to nothing takes `ov`'s entry (overridden, not added), a name
/// only `ov` has is kept, and a group laid over a group merges into it; the
/// result lists its names in order, each once.
pub proof fn lemma_merge_lookup(base: Seq<(Seq<char>, Tree)>, ov: Seq<(Seq<char>, Tree)>, k: Seq<char>)
    requires
        entries_sorted(base),
        entries_sorted(ov),
    ensures
        entries_sorted(merge_entries(base, ov)),
        lookup(merge_entries(base, ov), k) == merged_lookup(base, ov, k),
    decreases ov.len(),
{
    if ov.len() > 0 {
        let o2 = ov.drop_last();
        let kl = ov.last().0;
        assert(entries_sorted(o2)) by {
            assert forall|a: int, b: int| 0 <= a < b < o2.len() implies seq_lt(
                tree_names(o2)[a],
                tree_names(o2)[b],
            ) by {
                assert(tree_names(o2)[a] == tree_names(ov)[a]);
                assert(tree_names(o2)[b] == tree_names(ov)[b]);
            }
        }
        lemma_merge_lookup(base, o2, k);
        lemma_merge_lookup(base, o2, kl);
        let m = merge_entries(base, o2);
        let v = ov.last().1;
        let nv = match v {
            Tree::Node(oc) => match lookup(m, kl) {
                Some(Tree::Node(bc)) => Tree::Node(merge_entries(bc, oc)),
                _ => v,
            },
            _ => v,
        };
        lemma_upsert(m, kl, nv, k);
        lemma_lookup_at(ov, kl, ov.len() - 1);
        // `kl` is not among the earlier names.
        assert forall|q: int| 0 <= q < o2.len() implies (#[trigger] o2[q]).0 != kl by {
            assert(tree_names(ov)[q] == ov[q].0);
            assert(tree_names(ov)[ov.len() - 1] == kl);
            crate::text::lemma_seq_lt_irrefl(kl);
        }
        lemma_lookup_none(o2, kl);
        if k != kl {
            if exists|q: int| 0 <= q < o2.len() && (#[trigger] o2[q]).0 == k {
                let q = choose|q: int| 0 <= q < o2.len() && (#[trigger] o2[q]).0 == k;
                lemma_lookup_at(o2, k, q);
                lemma_lookup_at(ov, k, q);
            } else {
                lemma_lookup_none(o2, k);
                assert forall|q: int| 0 <= q < ov.len() implies (#[trigger] ov[q]).0 != k by {
                    if q < o2.len() {
                        assert(ov[q] == o2[q]);
                    }
                }
                lemma_lookup_none(ov, k);
            }
        }
    }
}

// ---------------------------------------------------------------------------
// Merging, executed
// ---------------------------------------------------------------------------

/// A copy of a value.
pub fn copy_value(v: &BudgetValue) -> (r: BudgetValue)
    ensures
        tree_of(r) == tree_of(*v),
    decreases v,
{
    match v {
        BudgetValue::Amount(a) => BudgetValue::Amount(*a),
        BudgetValue::Group(es) => {
            let c = copy_entries(es);
            BudgetValue::Group(c)
        },
        BudgetValue::Null => BudgetValue::Null,
    }
}

/// A copy of a group's entries.
pub fn copy_entries(es: &Vec<(String, BudgetValue)>) -> (r: Vec<(String, BudgetValue)>)
    ensures
        entries_tree(r@) == entries_tree(es@),
    decreases es,
{
    let mut out: Vec<(String, BudgetValue)> = Vec::new();
    let mut i: usize = 0;
    while i < es.len()
        invariant
            i <= es@.len(),
            out@.len() == i,
            forall|q: int| 0 <= q < i ==> (#[trigger] out@[q]).0@ == es@[q].0@ && tree_of(out@[q].1) == tree_of(
                es@[q].1,
            ),
        decreases es@.len() - i,
    {
        let e = &es[i];
        proof {
            assert(decreases_to!(es => es@[i as int].1));
        }
        let v = copy_value(&e.1);
        out.push((e.0.clone(), v));
        i += 1;
    }
    assert(entries_tree(out@) =~= entries_tree(es@));
    out
}

/// `slot` of a group's entries.
fn slot_exec(es: &Vec<(String, BudgetValue)>, k: &str) -> (r: usize)
    ensures
        r == slot(entries_tree(es@), k@),
        r <= es@.len(),
{
    let ghost t = entries_tree(es@);
    let kc = crate::text::str_chars(k);
    let mut i: usize = 0;
    assert(t.skip(0) =~= t);
    while i < es.len()
        invariant
            t == entries_tree(es@),
            kc@ == k@,
            i <= es@.len(),
            slot(t, k@) == i + slot(t.skip(i as int), k@),
        ensures
            i <= es@.len(),
            slot(t, k@) == i,
        decreases es@.len() - i,
    {
        let name = crate::text::str_chars(es[i].0.as_str());
        proof {
            assert(t.skip(i as int)[0] == t[i as int]);
            assert(t.skip(i as int).drop_first() =~= t.skip(i + 1));
        }
        if !crate::text::chars_lt(&name, &kc) {
            break ;
        }
        i += 1;
    }
    i
}

/// Sets `k` to `v` (as `BTreeMap::insert`).
fn upsert_exec(es: &mut Vec<(String, BudgetValue)>, k: String, v: BudgetValue)
    ensures
        entries_tree(final(es)@) == upsert(entries_tree(old(es)@), k@, tree_of(v)),
{
    let i = slot_exec(es, k.as_str());
    let ghost t = entries_tree(old(es)@);
    let ghost kv = k@;
    let ghost tv = tree_of(v);
    if i < es.len() && crate::text::str_eq(es[i].0.as_str(), k.as_str()) {
        es.set(i, (k, v));
        assert(entries_tree(es@) =~= t.update(i as int, (kv, tv)));
    } else {
        es.insert(i, (k, v));
        assert(entries_tree(es@) =~= t.insert(i as int, (kv, tv)));
    }
}

/// `override` laid over `base` (see [`merge_entries`] and
/// [`lemma_merge_lookup`]).
pub fn merge_bucket_maps(base: &Vec<(String, BudgetValue)>, override_map: &Vec<(String, BudgetValue)>) -> (r: Vec<
    (String, BudgetValue),
>)
    ensures
        entries_tree(r@) == merge_entries(entries_tree(base@), entries_tree(override_map@)),
    decreases override_map,
{
    let ghost bt = entries_tree(base@);
    let ghost ot = entries_tree(override_map@);
    let mut merged = copy_entries(base);
    let mut j: usize = 0;
    assert(ot.take(0) =~= Seq::<(Seq<char>, Tree)>::empty());
    while j < override_map.len()
        invariant
            bt == entries_tree(base@),
            ot == entries_tree(override_map@),
            j <= override_map@.len(),
            entries_tree(merged@) == merge_entries(bt, ot.take(j as int)),
        decreases override_map@.len() - j,
    {
        let e = &override_map[j];
        let ghost m = entries_tree(merged@);
        proof {
            assert(ot.take(j + 1).drop_last() =~= ot.take(j as int));
            assert(ot.take(j + 1).last() == (e.0@, tree_of(e.1)));
        }
        let nv = match &e.1 {
            BudgetValue::Group(oc) => {
                let i = slot_exec(&merged, e.0.as_str());
                let mut found: Option<BudgetValue> = None;
                if i < merged.len() && crate::text::str_eq(merged[i].0.as_str(), e.0.as_str()) {
                    match &merged[i].1 {
                        BudgetValue::Group(bc) => {
                            proof {
                                assert(decreases_to!(override_map => oc));
                            }
                            let sub = merge_bucket_maps(bc, oc);
                            found = Some(BudgetValue::Group(sub));
                        },
                        _ => {},
                    }
                }
                match found {
                    Some(x) => x,
                    None => BudgetValue::Group(copy_entries(oc)),
                }
            },
            other => copy_value(other),
        };
        proof {
            let k = e.0@;
            let i = slot(m, k);
            if let BudgetValue::Group(oc) = &e.1 {
                assert(tree_of(e.1) == Tree::Node(entries_tree(oc@)));
            }
        }
        upsert_exec(&mut merged, e.0.clone(), nv);
        j += 1;
    }
    assert(ot.take(override_map@.len() as int) =~= ot);
    merged
}

// ---------------------------------------------------------------------------
// Templates
// ---------------------------------------------------------------------------

/// The trees of a map of groups.
pub open spec fn group_trees(m: Map<Seq<char>, Vec<(String, BudgetValue)>>) -> Map<Seq<char>, Seq<(Seq<char>, Tree)>> {
    Map::new(|k: Seq<char>| m.contains_key(k), |k: Seq<char>| entries_tree(m[k]@))
}

/// The templates of `months`, in order, laid over `start` where their month
/// is not after `target`.
pub open spec fn resolve_over(
    tm: Map<Seq<char>, Seq<(Seq<char>, Tree)>>,
    months: Seq<Seq<char>>,
    start: Seq<(Seq<char>, Tree)>,
    target: Seq<char>,
) -> Seq<(Seq<char>, Tree)>
    decreases months.len(),
{
    if months.len() == 0 {
        start
    } else {
        let e = resolve_over(tm, months.drop_last(), start, target);
        if crate::util::seq_le(months.last(), target) {
            merge_entries(e, tm[months.last()])
        } else {
            e
        }
    }
}

/// The template in force in `target`: the default one with every dated
/// template of a month up to `target` laid over it, oldest first.
pub open spec fn resolve_spec(
    tm: Map<Seq<char>, Seq<(Seq<char>, Tree)>>,
    default: Option<Seq<(Seq<char>, Tree)>>,
    target: Seq<char>,
) -> Seq<(Seq<char>, Tree)> {
    resolve_over(
        tm,
        crate::strmap::sorted_dom(tm.dom()),
        match default {
            Some(d) => d,
            None => Seq::empty(),
        },
        target,
    )
}

pub open spec fn opt_entries_tree(o: Option<Vec<(String, BudgetValue)>>) -> Option<Seq<(Seq<char>, Tree)>> {
    match o {
        Some(v) => Some(entries_tree(v@)),
        None => None,
    }
}

/// The template in force in `target_month` (see [`resolve_spec`]).
pub fn resolve_template(
    templates: &StrMap<Vec<(String, BudgetValue)>>,
    default_template: &Option<Vec<(String, BudgetValue)>>,
    target_month: &str,
) -> (r: Vec<(String, BudgetValue)>)
    ensures
        entries_tree(r@) == resolve_spec(
            group_trees(templates@),
            opt_entries_tree(*default_template),
            target_month@,
        ),
{
    let mut effective = match default_template {
        Some(d) => copy_entries(d),
        None => Vec::new(),
    };
    let ghost start = entries_tree(effective@);
    let ghost tm = group_trees(templates@);
    let n = templates.len();
    let ghost keys = templates.keys();
    proof {
        templates.lemma_keys_sorted();
        assert(tm.dom() =~= templates@.dom());
        if default_template.is_none() {
            assert(entries_tree(effective@) =~= Seq::<(Seq<char>, Tree)>::empty());
        }
    }
    let tc = crate::text::str_chars(target_month);
    let mut i: usize = 0;
    assert(keys.take(0) =~= Seq::<Seq<char>>::empty());
    while i < n
        invariant
            n == keys.len(),
            keys == templates.keys(),
            templates.well_ordered(),
            tm == group_trees(templates@),
            tc@ == target_month@,
            i <= n,
            entries_tree(effective@) == resolve_over(tm, keys.take(i as int), start, target_month@),
        decreases n - i,
    {
        let k = templates.key_at(i);
        let v = templates.value_at(i);
        proof {
            templates.lemma_index(i as int);
            assert(keys.take(i + 1).drop_last() =~= keys.take(i as int));
            assert(keys.take(i + 1).last() == k@);
            assert(tm[k@] == entries_tree(v@));
        }
        let kc = crate::text::str_chars(k.as_str());
        if crate::text::chars_eq(&kc, &tc) || crate::text::chars_lt(&kc, &tc) {
            effective = merge_bucket_maps(&effective, v);
        }
        i += 1;
    }
    assert(keys.take(n as int) =~= keys);
    effective
}

// ---------------------------------------------------------------------------
// Flattening
// ---------------------------------------------------------------------------

/// The full name of entry `k` under `prefix`.
pub open spec fn full_name(prefix: Seq<char>, k: Seq<char>) -> Seq<char> {
    if prefix.len() == 0 {
        k
    } else {
        prefix + seq!['.'] + k
    }
}

/// The amounts of the first `n` entries, with their full names, depth
/// first; nothing counts as zero and a group gives its entries' amounts.
pub open spec fn flat_entries(prefix: Seq<char>, es: Seq<(Seq<char>, Tree)>, n: int) -> Seq<
    (Seq<char>, (int, nat, bool)),
>
    decreases es, n,
{
    if n <= 0 || n > es.len() {
        Seq::empty()
    } else {
        let prev = flat_entries(prefix, es, n - 1);
        let full = full_name(prefix, es[n - 1].0);
        prev + match es[n - 1].1 {
            Tree::Leaf(a) => seq![(full, a)],
            Tree::Node(sub) => flat_entries(full, sub, sub.len() as int),
            Tree::Empty => seq![(full, (0int, 0nat, false))],
        }
    }
}

/// All amounts of a group's entries with their full names.
pub open spec fn flat(prefix: Seq<char>, es: Seq<(Seq<char>, Tree)>) -> Seq<(Seq<char>, (int, nat, bool))> {
    flat_entries(prefix, es, es.len() as int)
}

/// The directive of a flattened amount.
pub open spec fn flat_directive(
    x: (Seq<char>, (int, nat, bool)),
    month: Seq<char>,
    label: Option<Seq<char>>,
    source_key: Seq<char>,
) -> (Seq<char>, Option<Seq<char>>, Seq<char>, Seq<char>, (int, nat, bool)) {
    (month, label, source_key, x.0, x.1)
}

/// The directives of flattened amounts.
pub open spec fn flat_directives(
    xs: Seq<(Seq<char>, (int, nat, bool))>,
    month: Seq<char>,
    label: Option<Seq<char>>,
    source_key: Seq<char>,
) -> Seq<(Seq<char>, Option<Seq<char>>, Seq<char>, Seq<char>, (int, nat, bool))> {
    xs.map_values(|x: (Seq<char>, (int, nat, bool))| flat_directive(x, month, label, source_key))
}

fn full_name_exec(prefix: &str, k: &str) -> (r: String)
    ensures
        r@ == full_name(prefix@, k@),
{
    let p = crate::text::str_chars(prefix);
    if p.len() == 0 {
        k.to_string()
    } else {
        let mut out = prefix.to_string();
        string_push(&mut out, '.');
        push_str(&mut out, k);
        out
    }
}

fn opt_label(label: Option<&str>) -> (r: Option<String>)
    ensures
        crate::cli::opt_seq(r) == crate::util::opt_view(label),
{
    match label {
        Some(l) => Some(l.to_string()),
        None => None,
    }
}

/// Appends a directive for every amount of `map` (see [`flat`]): each gets
/// `month`, `label`, `source_key` and its full name under `prefix`.
pub fn flatten_budget_map(
    prefix: &str,
    map: &Vec<(String, BudgetValue)>,
    month: &str,
    label: Option<&str>,
    source_key: &str,
    directives: &mut Vec<BudgetDirective>,
)
    ensures
        crate::scoped::dir_views(final(directives)@) == crate::scoped::dir_views(old(directives)@)
            + flat_directives(
            flat(prefix@, entries_tree(map@)),
            month@,
            crate::util::opt_view(label),
            source_key@,
        ),
    decreases map,
{
    let ghost t = entries_tree(map@);
    let ghost lv = crate::util::opt_view(label);
    let mut i: usize = 0;
    while i < map.len()
        invariant
            t == entries_tree(map@),
            lv == crate::util::opt_view(label),
            i <= map@.len(),
            crate::scoped::dir_views(directives@) == crate::scoped::dir_views(old(directives)@)
                + flat_directives(flat_entries(prefix@, t, i as int), month@, lv, source_key@),
        decreases map@.len() - i,
    {
        let e = &map[i];
        let full = full_name_exec(prefix, e.0.as_str());
        let ghost before = directives@;
        proof {
            assert(t[i as int] == (e.0@, tree_of(e.1)));
        }
        match &e.1 {
            BudgetValue::Amount(a) => {
                directives.push(
                    BudgetDirective {
                        month: month.to_string(),
                        label: opt_label(label),
                        source_key: source_key.to_string(),
                        bucket: full,
                        amount: *a,
                    },
                );
                proof {
                    assert(crate::scoped::dir_views(directives@) =~= crate::scoped::dir_views(before).push(
                        flat_directive((full_name(prefix@, e.0@), a@), month@, lv, source_key@),
                    ));
                }
            },
            BudgetValue::Group(sub) => {
                proof {
                    assert(decreases_to!(map => sub));
                }
                flatten_budget_map(full.as_str(), sub, month, label, source_key, directives);
            },
            BudgetValue::Null => {
                directives.push(
                    BudgetDirective {
                        month: month.to_string(),
                        label: opt_label(label),
                        source_key: source_key.to_string(),
                        bucket: full,
                        amount: Amount::zero(),
                    },
                );
                proof {
                    assert(crate::scoped::dir_views(directives@) =~= crate::scoped::dir_views(before).push(
                        flat_directive((full_name(prefix@, e.0@), (0int, 0nat, false)), month@, lv, source_key@),
                    ));
                }
            },
        }
        proof {
            let prev = flat_entries(prefix@, t, i as int);
            let nxt = flat_entries(prefix@, t, i + 1);
            assert(flat_directives(nxt, month@, lv, source_key@) =~= flat_directives(prev, month@, lv, source_key@)
                + flat_directives(nxt.subrange(prev.len() as int, nxt.len() as int), month@, lv, source_key@));
        }
        i += 1;
    }
}

// ---------------------------------------------------------------------------
// The budget file
// ---------------------------------------------------------------------------

/// A label marks a template when it contains `template`, in any case.
pub open spec fn is_template_label(l: Option<Seq<char>>) -> bool {
    match l {
        Some(x) => crate::scoped::has_substring(crate::scoped::lowercase_text(x), "template"@),
        None => false,
    }
}

/// The groups of the file's keys, as trees.
pub open spec fn raw_trees(raw: StrMap<Vec<(String, BudgetValue)>>) -> Seq<Seq<(Seq<char>, Tree)>> {
    Seq::new(raw.keys().len(), |i: int| entries_tree(raw.values()[i]@))
}

/// The dated templates among the first `n` keys: month → group; a later key
/// of the same month replaces an earlier one.
pub open spec fn template_fold(keys: Seq<Seq<char>>, vals: Seq<Seq<(Seq<char>, Tree)>>, n: int) -> Map<
    Seq<char>,
    Seq<(Seq<char>, Tree)>,
>
    decreases n,
{
    if n <= 0 || n > keys.len() {
        Map::empty()
    } else {
        let m = template_fold(keys, vals, n - 1);
        let k = keys[n - 1];
        if k == "default_monthly"@ {
            m
        } else {
            match crate::config::budget_key_spec(k) {
                Ok((month, label)) => if is_template_label(label) {
                    m.insert(month, vals[n - 1])
                } else {
                    m
                },
                Err(_) => m,
            }
        }
    }
}

/// The directives of the first `n` keys: for each plain month key, its group
/// laid over the template in force, flattened; for a labelled key that is not
/// a template, its own group alone, flattened (it adds to the base month).
pub open spec fn generated(
    keys: Seq<Seq<char>>,
    vals: Seq<Seq<(Seq<char>, Tree)>>,
    tm: Map<Seq<char>, Seq<(Seq<char>, Tree)>>,
    default: Option<Seq<(Seq<char>, Tree)>>,
    n: int,
) -> Seq<(Seq<char>, Option<Seq<char>>, Seq<char>, Seq<char>, (int, nat, bool))>
    decreases n,
{
    if n <= 0 || n > keys.len() {
        Seq::empty()
    } else {
        let prev = generated(keys, vals, tm, default, n - 1);
        let k = keys[n - 1];
        if k == "default_monthly"@ {
            prev
        } else {
            match crate::config::budget_key_spec(k) {
                Ok((month, label)) => if is_template_label(label) {
                    prev
                } else {
                    prev + flat_directives(
                        flat(
                            Seq::empty(),
                            if label is None {
                                merge_entries(resolve_spec(tm, default, month), vals[n - 1])
                            } else {
                                vals[n - 1]
                            },
                        ),
                        month,
                        label,
                        k,
                    )
                },
                Err(_) => prev,
            }
        }
    }
}

/// `(month, source key, bucket)` of `a` comes before that of `b`.
pub open spec fn dir_key_lt(
    a: (Seq<char>, Option<Seq<char>>, Seq<char>, Seq<char>, (int, nat, bool)),
    b: (Seq<char>, Option<Seq<char>>, Seq<char>, Seq<char>, (int, nat, bool)),
) -> bool {
    seq_lt(a.0, b.0) || (a.0 == b.0 && (seq_lt(a.2, b.2) || (a.2 == b.2 && seq_lt(a.3, b.3))))
}

/// Position of the first directive that `x` sorts before.
pub open spec fn dir_insert_pos(
    t: Seq<(Seq<char>, Option<Seq<char>>, Seq<char>, Seq<char>, (int, nat, bool))>,
    x: (Seq<char>, Option<Seq<char>>, Seq<char>, Seq<char>, (int, nat, bool)),
) -> int
    decreases t.len(),
{
    if t.len() == 0 {
        0
    } else if dir_key_lt(x, t[0]) {
        0
    } else {
        1 + dir_insert_pos(t.drop_first(), x)
    }
}

/// The directives by month, source key and bucket, equal ones in their
/// order (a stable sort).
pub open spec fn dirs_sorted(s: Seq<(Seq<char>, Option<Seq<char>>, Seq<char>, Seq<char>, (int, nat, bool))>) -> Seq<
    (Seq<char>, Option<Seq<char>>, Seq<char>, Seq<char>, (int, nat, bool)),
>
    decreases s.len(),
{
    if s.len() == 0 {
        Seq::empty()
    } else {
        let t = dirs_sorted(s.drop_last());
        t.insert(dir_insert_pos(t, s.last()), s.last())
    }
}

/// The directives a budget file gives (before sorting).
pub open spec fn budget_file_directives(raw: StrMap<Vec<(String, BudgetValue)>>) -> Seq<
    (Seq<char>, Option<Seq<char>>, Seq<char>, Seq<char>, (int, nat, bool)),
> {
    let keys = raw.keys();
    let vals = raw_trees(raw);
    let tm = template_fold(keys, vals, keys.len() as int);
    let default = if raw@.contains_key("default_monthly"@) {
        Some(entries_tree(raw@["default_monthly"@]@))
    } else {
        None
    };
    generated(keys, vals, tm, default, keys.len() as int)
}

fn is_template_exec(label: &Option<String>) -> (r: bool)
    ensures
        r == is_template_label(crate::cli::opt_seq(*label)),
{
    match label {
        Some(l) => {
            let low = crate::scoped::to_lowercase(l.as_str());
            crate::scoped::chars_contains(
                &crate::text::str_chars(low.as_str()),
                &crate::text::str_chars("template"),
            )
        },
        None => false,
    }
}

fn label_str(l: &Option<String>) -> (r: Option<&str>)
    ensures
        crate::util::opt_view(r) == crate::cli::opt_seq(*l),
{
    match l {
        Some(x) => Some(x.as_str()),
        None => None,
    }
}

fn dir_lt(a: &BudgetDirective, b: &BudgetDirective) -> (r: bool)
    ensures
        r == dir_key_lt(crate::scoped::dir_view(*a), crate::scoped::dir_view(*b)),
{
    let am = crate::text::str_chars(a.month.as_str());
    let bm = crate::text::str_chars(b.month.as_str());
    if crate::text::chars_lt(&am, &bm) {
        return true;
    }
    if !crate::text::chars_eq(&am, &bm) {
        return false;
    }
    let ak = crate::text::str_chars(a.source_key.as_str());
    let bk = crate::text::str_chars(b.source_key.as_str());
    if crate::text::chars_lt(&ak, &bk) {
        return true;
    }
    if !crate::text::chars_eq(&ak, &bk) {
        return false;
    }
    let ab = crate::text::str_chars(a.bucket.as_str());
    let bb = crate::text::str_chars(b.bucket.as_str());
    crate::text::chars_lt(&ab, &bb)
}

/// The directives sorted by month, source key and bucket (stable).
fn sort_directives(gen: &Vec<BudgetDirective>) -> (r: Vec<BudgetDirective>)
    ensures
        crate::scoped::dir_views(r@) == dirs_sorted(crate::scoped::dir_views(gen@)),
{
    let ghost v = crate::scoped::dir_views(gen@);
    let mut out: Vec<BudgetDirective> = Vec::new();
    let mut t: usize = 0;
    assert(crate::scoped::dir_views(out@) =~= dirs_sorted(v.take(0)));
    while t < gen.len()
        invariant
            v == crate::scoped::dir_views(gen@),
            t <= gen@.len(),
            crate::scoped::dir_views(out@) == dirs_sorted(v.take(t as int)),
        decreases gen@.len() - t,
    {
        let x = &gen[t];
        let ghost sorted = crate::scoped::dir_views(out@);
        let ghost xv = crate::scoped::dir_view(*x);
        let mut j: usize = 0;
        assert(sorted.skip(0) =~= sorted);
        while j < out.len()
            invariant
                j <= out@.len(),
                sorted == crate::scoped::dir_views(out@),
                xv == crate::scoped::dir_view(*x),
                dir_insert_pos(sorted, xv) == j + dir_insert_pos(sorted.skip(j as int), xv),
            ensures
                j <= out@.len(),
                dir_insert_pos(sorted, xv) == j,
            decreases out@.len() - j,
        {
            proof {
                assert(sorted.skip(j as int)[0] == crate::scoped::dir_view(out@[j as int]));
                assert(sorted.skip(j as int).drop_first() =~= sorted.skip(j + 1));
            }
            if dir_lt(x, &out[j]) {
                break ;
            }
            j += 1;
        }
        proof {
            assert(v.take(t + 1).drop_last() =~= v.take(t as int));
            assert(v.take(t + 1).last() == xv);
        }
        let d = x.duplicate();
        out.insert(j, d);
        proof {
            assert(crate::scoped::dir_views(out@) =~= sorted.insert(j as int, xv));
        }
        t += 1;
    }
    assert(v.take(gen@.len() as int) =~= v);
    out
}

/// The budget directives of a budget file (its keys with their groups):
/// every month key that is not a template, laid over the template in force
/// in its month and flattened, sorted by month, key and bucket (see
/// [`budget_file_directives`]).
pub fn load_budget_directives(raw: &StrMap<Vec<(String, BudgetValue)>>) -> (r: Vec<BudgetDirective>)
    ensures
        crate::scoped::dir_views(r@) == dirs_sorted(budget_file_directives(*raw)),
{
    let n = raw.len();
    let ghost keys = raw.keys();
    let ghost vals = raw_trees(*raw);
    proof {
        raw.lemma_shape();
    }
    let default_monthly: Option<Vec<(String, BudgetValue)>> = match raw.get("default_monthly") {
        Some(v) => Some(copy_entries(v)),
        None => None,
    };
    let ghost default = opt_entries_tree(default_monthly);
    proof {
        reveal_strlit("default_monthly");
    }
    let mut templates: StrMap<Vec<(String, BudgetValue)>> = StrMap::new();
    let mut i: usize = 0;
    assert(group_trees(templates@) =~= template_fold(keys, vals, 0));
    while i < n
        invariant
            n == keys.len(),
            keys == raw.keys(),
            vals == raw_trees(*raw),
            raw.keys().len() == raw.values().len(),
            i <= n,
            group_trees(templates@) == template_fold(keys, vals, i as int),
        decreases n - i,
    {
        let k = raw.key_at(i);
        let v = raw.value_at(i);
        let ghost before = templates@;
        if !crate::text::str_eq(k.as_str(), "default_monthly") {
            match crate::config::parse_budget_key(k.as_str()) {
                Ok((month, label)) => {
                    if is_template_exec(&label) {
                        let c = copy_entries(v);
                        templates.insert(month, c);
                    }
                },
                Err(_) => {},
            }
        }
        proof {
            assert(vals[i as int] == entries_tree(v@));
            assert(group_trees(templates@) =~= template_fold(keys, vals, i + 1));
        }
        i += 1;
    }
    let ghost tm = group_trees(templates@);
    let mut gen: Vec<BudgetDirective> = Vec::new();
    let mut i: usize = 0;
    assert(crate::scoped::dir_views(gen@) =~= generated(keys, vals, tm, default, 0));
    while i < n
        invariant
            n == keys.len(),
            keys == raw.keys(),
            vals == raw_trees(*raw),
            raw.keys().len() == raw.values().len(),
            tm == group_trees(templates@),
            default == opt_entries_tree(default_monthly),
            i <= n,
            crate::scoped::dir_views(gen@) == generated(keys, vals, tm, default, i as int),
        decreases n - i,
    {
        let k = raw.key_at(i);
        let v = raw.value_at(i);
        let ghost before = crate::scoped::dir_views(gen@);
        proof {
            assert(vals[i as int] == entries_tree(v@));
            assert(before == generated(keys, vals, tm, default, i as int));
        }
        if !crate::text::str_eq(k.as_str(), "default_monthly") {
            match crate::config::parse_budget_key(k.as_str()) {
                Ok((month, label)) => {
                    proof {
                        match crate::config::budget_key_spec(k@) {
                            Ok((sm, sl)) => {
                                assert(month@ == sm);
                                assert(crate::cli::opt_seq(label) == sl);
                            },
                            Err(_) => {
                                assert(false);
                            },
                        }
                    }
                    if !is_template_exec(&label) {
                        if label.is_none() {
                            let base = resolve_template(&templates, &default_monthly, month.as_str());
                            let merged = merge_bucket_maps(&base, v);
                            flatten_budget_map(
                                "",
                                &merged,
                                month.as_str(),
                                label_str(&label),
                                k.as_str(),
                                &mut gen,
                            );
                            proof {
                                reveal_strlit("");
                                assert(""@ =~= Seq::<char>::empty());
                                assert(entries_tree(merged@) == merge_entries(
                                    resolve_spec(tm, default, month@),
                                    vals[i as int],
                                ));
                                assert(crate::scoped::dir_views(gen@) == before + flat_directives(
                                    flat(Seq::empty(), entries_tree(merged@)),
                                    month@,
                                    crate::cli::opt_seq(label),
                                    k@,
                                ));
                            }
                        } else {
                            flatten_budget_map(
                                "",
                                v,
                                month.as_str(),
                                label_str(&label),
                                k.as_str(),
                                &mut gen,
                            );
                            proof {
                                reveal_strlit("");
                                assert(""@ =~= Seq::<char>::empty());
                                assert(crate::scoped::dir_views(gen@) == before + flat_directives(
                                    flat(Seq::empty(), entries_tree(v@)),
                                    month@,
                                    crate::cli::opt_seq(label),
                                    k@,
                                ));
                            }
                        }
                    }
                },
                Err(_) => {},
            }
        }
        proof {
            assert(vals[i as int] == entries_tree(v@));
            assert(crate::scoped::dir_views(gen@) =~= generated(keys, vals, tm, default, i + 1));
        }
        i += 1;
    }
    proof {
        let d2 = if raw@.contains_key("default_monthly"@) {
            Some(entries_tree(raw@["default_monthly"@]@))
        } else {
            None
        };
        assert(default == d2);
    }
    sort_directives(&gen)
}

} // verus!
