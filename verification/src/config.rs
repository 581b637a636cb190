//! Budget configuration: bucket kinds, account mappings, budget directives,
//! and the rules that turn `budgets.yml` into directives.
use vstd::prelude::*;

use crate::amount::{all_digits, digits_value, is_ascii_digit, Amount};
use crate::strmap::StrMap;
use crate::text::{
    chars_eq, chars_is_within, chars_starts_with, chars_trim, is_within, is_ws, last_index_of,
    lemma_last_index_of, push_chars, push_str, seq_lt, slice_chars, starts_with, str_chars,
    string_from_chars, string_push, trim, chars_rfind, char_is_ws,
};
use crate::util::{
    date_exists, decimal_digits, parent_bucket_spec, push_decimal, push_zero_padded,
    zero_padded,
};

verus! {

broadcast use vstd::string::group_string_axioms;

/// Kind of a budget bucket: spending, or money set aside in asset accounts.
#[derive(Clone, Copy, Debug, PartialEq, Eq)]
pub enum BucketKind {
    Expense,
    Asset,
}

pub open spec fn kind_label(k: BucketKind) -> Seq<char> {
    match k {
        BucketKind::Expense => "expense"@,
        BucketKind::Asset => "asset"@,
    }
}

impl BucketKind {
    /// Short label of the kind.
    pub fn label(self) -> (r: &'static str)
        ensures
            r@ == kind_label(self),
    {
        match self {
            BucketKind::Expense => "expense",
            BucketKind::Asset => "asset",
        }
    }
}

/// The global configuration (`config.yml`).
pub struct BudgetMappings {
    /// account prefix → bucket
    pub defaults: StrMap<String>,
    /// Bucket for unannotated spending that no prefix maps.
    pub default_expense_bucket: String,
    /// bucket → kind
    pub bucket_types: StrMap<BucketKind>,
    /// asset bucket → account prefixes where its money sits
    pub asset_bucket_accounts: StrMap<Vec<String>>,
    /// Buckets only tracked: no plan, no totals, no roll-up into parents.
    pub tracking_buckets: Vec<String>,
}

/// The kind a bucket has: declared, else asset when it has asset accounts,
/// else expense.
pub open spec fn bucket_kind_spec(m: BudgetMappings, bucket: Seq<char>) -> BucketKind {
    if m.bucket_types@.contains_key(bucket) {
        m.bucket_types@[bucket]
    } else if m.asset_bucket_accounts@.contains_key(bucket) {
        BucketKind::Asset
    } else {
        BucketKind::Expense
    }
}

/// How a bucket's kind is decided: a kind declared in `bucket_types` wins;
/// a bucket not declared there but listed in `asset_bucket_accounts` is an
/// asset bucket; any other bucket is an expense bucket.
pub proof fn lemma_bucket_kind_priority(m: BudgetMappings, bucket: Seq<char>)
    ensures
        m.bucket_types@.contains_key(bucket) ==> bucket_kind_spec(m, bucket)
            == m.bucket_types@[bucket],
        !m.bucket_types@.contains_key(bucket) && m.asset_bucket_accounts@.contains_key(bucket)
            ==> bucket_kind_spec(m, bucket) == BucketKind::Asset,
        !m.bucket_types@.contains_key(bucket) && !m.asset_bucket_accounts@.contains_key(bucket)
            ==> bucket_kind_spec(m, bucket) == BucketKind::Expense,
{
}

/// `bucket` is a tracking bucket or lies under one.
pub open spec fn is_tracking_spec(m: BudgetMappings, bucket: Seq<char>) -> bool {
    exists|i: int| 0 <= i < m.tracking_buckets.len() && is_within(m.tracking_buckets@[i]@, bucket)
}

impl BudgetMappings {
    /// No mappings, kinds or tracking buckets, and an empty fallback bucket
    /// name (what `#[derive(Default)]` gave).
    pub fn new() -> (m: BudgetMappings)
        ensures
            m.defaults@ == Map::<Seq<char>, String>::empty(),
            m.default_expense_bucket@ == Seq::<char>::empty(),
            m.bucket_types@ == Map::<Seq<char>, BucketKind>::empty(),
            m.asset_bucket_accounts@ == Map::<Seq<char>, Vec<String>>::empty(),
            m.tracking_buckets@ == Seq::<String>::empty(),
    {
        BudgetMappings {
            defaults: StrMap::new(),
            default_expense_bucket: String::new(),
            bucket_types: StrMap::new(),
            asset_bucket_accounts: StrMap::new(),
            tracking_buckets: Vec::new(),
        }
    }

    /// The kind of `bucket`: declared in `bucket_types`, else `Asset` when
    /// listed in `asset_bucket_accounts`, else `Expense`.
    pub fn bucket_kind(&self, bucket: &str) -> (k: BucketKind)
        ensures
            k == bucket_kind_spec(*self, bucket@),
    {
        if let Some(k) = self.bucket_types.get(bucket) {
            return *k;
        }
        if self.asset_bucket_accounts.contains_key(bucket) {
            return BucketKind::Asset;
        }
        BucketKind::Expense
    }

    /// The account prefixes configured for an asset bucket.
    pub fn configured_asset_prefixes(&self, bucket: &str) -> (r: Option<&Vec<String>>)
        ensures
            r matches Some(v) ==> self.asset_bucket_accounts@.contains_key(bucket@) && *v
                == self.asset_bucket_accounts@[bucket@],
            r is None ==> !self.asset_bucket_accounts@.contains_key(bucket@),
    {
        self.asset_bucket_accounts.get(bucket)
    }

    /// Whether `bucket` is a tracking bucket or a child of one.
    pub fn is_tracking_bucket(&self, bucket: &str) -> (r: bool)
        ensures
            r == is_tracking_spec(*self, bucket@),
    {
        let b = str_chars(bucket);
        let mut i: usize = 0;
        while i < self.tracking_buckets.len()
            invariant
                i <= self.tracking_buckets.len(),
                b@ == bucket@,
                forall|j: int| 0 <= j < i ==> !is_within(self.tracking_buckets@[j]@, bucket@),
            decreases self.tracking_buckets.len() - i,
        {
            let t = str_chars(self.tracking_buckets[i].as_str());
            if chars_is_within(&t, &b) {
                return true;
            }
            i += 1;
        }
        false
    }
}

/// One budget amount from `budgets.yml`.
#[derive(Debug)]
pub struct BudgetDirective {
    /// Month `YYYY-MM`.
    pub month: String,
    /// Extra label (`绩效`); `None` for the regular budget.
    pub label: Option<String>,
    /// The YAML key it came from.
    pub source_key: String,
    /// Full dotted bucket name.
    pub bucket: String,
    /// Planned amount.
    pub amount: Amount,
}

impl BudgetDirective {
    /// A copy of the directive.
    pub fn duplicate(&self) -> (r: BudgetDirective)
        ensures
            r.month@ == self.month@,
            r.label == self.label,
            r.source_key@ == self.source_key@,
            r.bucket@ == self.bucket@,
            r.amount == self.amount,
    {
        BudgetDirective {
            month: self.month.clone(),
            label: match &self.label {
                Some(l) => Some(l.clone()),
                None => None,
            },
            source_key: self.source_key.clone(),
            bucket: self.bucket.clone(),
            amount: self.amount,
        }
    }
}

// ---------------------------------------------------------------------------
// Budget keys
// ---------------------------------------------------------------------------

pub open spec fn is_date_sep(c: char) -> bool {
    c == '-' || c == '.' || c == '/'
}

/// Length (0, 1 or 2) of the run of ASCII digits at `i`, at most two long.
pub open spec fn digit_run2(s: Seq<char>, i: int) -> int {
    if i < s.len() && is_ascii_digit(s[i]) {
        if i + 1 < s.len() && is_ascii_digit(s[i + 1]) {
            2
        } else {
            1
        }
    } else {
        0
    }
}

/// The pieces of a budget key: year, month and optional day digits, and the
/// optional label; `None` when the key does not have the shape
/// `YYYY[-./]M[M]([-./]D[D])?(\s+label)?`.
pub open spec fn budget_key_pieces(s: Seq<char>) -> Option<
    (Seq<char>, Seq<char>, Option<Seq<char>>, Option<Seq<char>>),
> {
    if s.len() < 6 || !all_digits(s.take(4)) || !is_date_sep(s[4]) || digit_run2(s, 5) == 0 {
        None
    } else {
        let me = 5 + digit_run2(s, 5);
        let has_day = me < s.len() && is_date_sep(s[me]) && digit_run2(s, me + 1) > 0;
        let de = if has_day {
            me + 1 + digit_run2(s, me + 1)
        } else {
            me
        };
        let day = if has_day {
            Some(s.subrange(me + 1, de))
        } else {
            None
        };
        if de == s.len() {
            Some((s.take(4), s.subrange(5, me), day, None))
        } else if is_ws(s[de]) {
            let ls = label_start(s, de);
            if ls < s.len() && no_newline(s.skip(ls)) {
                Some((s.take(4), s.subrange(5, me), day, Some(s.skip(ls))))
            } else {
                None
            }
        } else {
            None
        }
    }
}

/// First index at or after `i` that is not whitespace.
pub open spec fn label_start(s: Seq<char>, i: int) -> int
    decreases s.len() - i,
{
    if i < s.len() && is_ws(s[i]) {
        label_start(s, i + 1)
    } else {
        i
    }
}

pub open spec fn no_newline(s: Seq<char>) -> bool {
    forall|k: int| 0 <= k < s.len() ==> s[k] != '\n'
}

/// `str::trim_start_matches('0')`.
pub open spec fn strip_leading_zeros(s: Seq<char>) -> Seq<char>
    decreases s.len(),
{
    if s.len() > 0 && s[0] == '0' {
        strip_leading_zeros(s.drop_first())
    } else {
        s
    }
}

/// Why a budget key was refused.
#[derive(Clone, Copy, Debug, PartialEq, Eq)]
pub enum BudgetKeyError {
    /// Not `YYYY-MM`, `YYYY.M.D` or `YYYY/M/D`, with an optional label.
    Shape,
    /// A month number outside 1..=12.
    NoSuchMonth,
}

/// The month a key names (`YYYY-MM`) and its label: the day as `D日`, then
/// the text, joined by a space.
pub open spec fn budget_key_spec(raw: Seq<char>) -> Result<
    (Seq<char>, Option<Seq<char>>),
    BudgetKeyError,
> {
    match budget_key_pieces(trim(raw)) {
        None => Err(BudgetKeyError::Shape),
        Some((y, m, day, text)) => {
            if !date_exists(digits_value(y), digits_value(m), 1) {
                Err(BudgetKeyError::NoSuchMonth)
            } else {
                let month = zero_padded(digits_value(y) as nat, 4) + seq!['-'] + zero_padded(
                    digits_value(m) as nat,
                    2,
                );
                let label = match (day, text) {
                    (Some(d), Some(t)) => Some(strip_leading_zeros(d) + "日 "@ + t),
                    (Some(d), None) => Some(strip_leading_zeros(d) + "日"@),
                    (None, Some(t)) => Some(t),
                    (None, None) => None,
                };
                Ok((month, label))
            }
        },
    }
}

proof fn lemma_digits_value_small(s: Seq<char>)
    requires
        all_digits(s),
    ensures
        0 <= digits_value(s) < crate::amount::pow10(s.len()),
    decreases s.len(),
{
    if s.len() > 0 {
        lemma_digits_value_small(s.drop_last());
    }
}

fn digit_run2_exec(s: &Vec<char>, i: usize) -> (r: usize)
    ensures
        r as int == digit_run2(s@, i as int),
{
    if i < s.len() && '0' <= s[i] && s[i] <= '9' {
        if i + 1 < s.len() && '0' <= s[i + 1] && s[i + 1] <= '9' {
            2
        } else {
            1
        }
    } else {
        0
    }
}

fn digits_u32(s: &Vec<char>) -> (r: u32)
    requires
        all_digits(s@),
        s.len() <= 4,
    ensures
        r as int == digits_value(s@),
{
    let mut acc: u32 = 0;
    let mut i: usize = 0;
    while i < s.len()
        invariant
            i <= s.len() <= 4,
            all_digits(s@),
            acc as int == digits_value(s@.take(i as int)),
            acc < crate::amount::pow10(i as nat),
        decreases s.len() - i,
    {
        assert(s@.take(i + 1).drop_last() =~= s@.take(i as int));
        assert(is_ascii_digit(s@[i as int]));
        let d = s[i] as u32 - '0' as u32;
        assert(crate::amount::pow10((i + 1) as nat) == 10 * crate::amount::pow10(i as nat));
        assert(crate::amount::pow10(4) == 10000) by {
            reveal_with_fuel(crate::amount::pow10, 5);
        }
        proof {
            if i < 4 {
                crate::amount::lemma_pow10_mono((i + 1) as nat, 4);
            }
        }
        acc = acc * 10 + d;
        i += 1;
    }
    assert(s@.take(s.len() as int) =~= s@);
    acc
}

/// Reads a budget key: `2026-06` → (`2026-06`, none); `2026.1.4 绩效` →
/// (`2026-01`, `4日 绩效`); `2026-06 绩效` → (`2026-06`, `绩效`).
#[verifier::loop_isolation(false)]
pub fn parse_budget_key(raw: &str) -> (r: Result<(String, Option<String>), BudgetKeyError>)
    ensures
        match (r, budget_key_spec(raw@)) {
            (Ok((m, l)), Ok((sm, sl))) => m@ == sm && match (l, sl) {
                (Some(a), Some(b)) => a@ == b,
                (None, None) => true,
                _ => false,
            },
            (Err(a), Err(b)) => a == b,
            _ => false,
        },
{
    let v0 = str_chars(raw);
    let s = chars_trim(&v0);
    if s.len() < 6 {
        return Err(BudgetKeyError::Shape);
    }
    let mut k: usize = 0;
    while k < 4
        invariant
            k <= 4,
            s.len() >= 6,
            forall|j: int| 0 <= j < k ==> is_ascii_digit(s@[j]),
        decreases 4 - k,
    {
        if !('0' <= s[k] && s[k] <= '9') {
            proof {
                assert(!all_digits(s@.take(4))) by {
                    assert(s@.take(4)[k as int] == s@[k as int]);
                }
            }
            return Err(BudgetKeyError::Shape);
        }
        k += 1;
    }
    assert(all_digits(s@.take(4)));
    if !(s[4] == '-' || s[4] == '.' || s[4] == '/') {
        return Err(BudgetKeyError::Shape);
    }
    let mr = digit_run2_exec(&s, 5);
    if mr == 0 {
        return Err(BudgetKeyError::Shape);
    }
    let me = 5 + mr;
    let dr = if me < s.len() && (s[me] == '-' || s[me] == '.' || s[me] == '/') {
        digit_run2_exec(&s, me + 1)
    } else {
        0
    };
    let has_day = dr > 0;
    let de = if has_day {
        me + 1 + dr
    } else {
        me
    };
    let mut text: Option<Vec<char>> = None;
    let ghost mut text_g: Option<Seq<char>> = None;
    if de < s.len() {
        if !char_is_ws(s[de]) {
            return Err(BudgetKeyError::Shape);
        }
        let mut ls = de;
        while ls < s.len() && char_is_ws(s[ls])
            invariant
                de <= ls <= s.len(),
                label_start(s@, de as int) == label_start(s@, ls as int),
            decreases s.len() - ls,
        {
            ls += 1;
        }
        if ls == s.len() {
            return Err(BudgetKeyError::Shape);
        }
        let mut q = ls;
        while q < s.len()
            invariant
                ls <= q <= s.len(),
                forall|j: int| ls <= j < q ==> s@[j] != '\n',
            decreases s.len() - q,
        {
            if s[q] == '\n' {
                proof {
                    assert(s@.skip(ls as int)[q - ls] == '\n');
                }
                return Err(BudgetKeyError::Shape);
            }
            q += 1;
        }
        assert(no_newline(s@.skip(ls as int)));
        let t = slice_chars(&s, ls, s.len());
        assert(t@ =~= s@.skip(ls as int));
        proof {
            text_g = Some(s@.skip(ls as int));
        }
        text = Some(t);
    }
    assert(budget_key_pieces(s@) == Some((s@.take(4), s@.subrange(5, me as int), if has_day {
        Some(s@.subrange(me + 1, de as int))
    } else {
        None
    }, text_g)));
    let yd = slice_chars(&s, 0, 4);
    let md = slice_chars(&s, 5, me);
    assert(yd@ =~= s@.take(4));
    assert(all_digits(md@));
    let y = digits_u32(&yd);
    let m = digits_u32(&md);
    if !crate::util::chrono_date_exists(y as i32, m, 1) {
        return Err(BudgetKeyError::NoSuchMonth);
    }
    let mut month = String::new();
    push_zero_padded(&mut month, y as u64, 4);
    string_push(&mut month, '-');
    push_zero_padded(&mut month, m as u64, 2);
    let day: Option<Vec<char>> = if has_day {
        let d = slice_chars(&s, me + 1, de);
        let mut z: usize = 0;
        assert(d@.skip(0) =~= d@);
        while z < d.len() && d[z] == '0'
            invariant
                z <= d.len(),
                strip_leading_zeros(d@) == strip_leading_zeros(d@.skip(z as int)),
            decreases d.len() - z,
        {
            assert(d@.skip(z as int).drop_first() =~= d@.skip(z + 1));
            z += 1;
        }
        let stripped = slice_chars(&d, z, d.len());
        assert(stripped@ =~= d@.skip(z as int));
        Some(stripped)
    } else {
        None
    };
    proof {
        lemma_digits_value_small(yd@);
        lemma_digits_value_small(md@);
        assert(crate::amount::pow10(4) == 10000) by {
            reveal_with_fuel(crate::amount::pow10, 5);
        }
    }
    assert(month@ == zero_padded(digits_value(yd@) as nat, 4) + seq!['-'] + zero_padded(
        digits_value(md@) as nat,
        2,
    ));
    let label = match (day, text) {
        (Some(d), Some(t)) => {
            let mut l = string_from_chars(&d);
            push_str(&mut l, "日 ");
            push_chars(&mut l, &t);
            Some(l)
        },
        (Some(d), None) => {
            let mut l = string_from_chars(&d);
            push_str(&mut l, "日");
            Some(l)
        },
        (None, Some(t)) => Some(string_from_chars(&t)),
        (None, None) => None,
    };
    Ok((month, label))
}

// ---------------------------------------------------------------------------
// Account mapping
// ---------------------------------------------------------------------------

/// The bucket of the longest configured prefix of `account`, if any.
pub open spec fn bucket_by_account_spec(m: BudgetMappings, account: Seq<char>) -> Option<
    Seq<char>,
> {
    if exists|p: Seq<char>| m.defaults@.contains_key(p) && starts_with(account, p) {
        let p = choose|p: Seq<char>|
            m.defaults@.contains_key(p) && starts_with(account, p) && (forall|q: Seq<char>|
                m.defaults@.contains_key(q) && starts_with(account, q) ==> q.len() <= p.len());
        Some(m.defaults@[p]@)
    } else {
        None
    }
}

/// Maps an account to a bucket by the longest matching prefix in
/// `defaults`, so `Expenses:Consume:电子` beats `Expenses:Consume`.
pub fn resolve_bucket_by_account(mappings: &BudgetMappings, account: &str) -> (r: Option<String>)
    ensures
        r matches Some(b) ==> exists|p: Seq<char>|
            mappings.defaults@.contains_key(p) && starts_with(account@, p)
                && mappings.defaults@[p]@ == b@ && (forall|q: Seq<char>|
                mappings.defaults@.contains_key(q) && starts_with(account@, q) ==> q.len()
                    <= p.len()),
        r is None ==> !exists|p: Seq<char>|
            mappings.defaults@.contains_key(p) && starts_with(account@, p),
        r matches Some(b) ==> bucket_by_account_spec(*mappings, account@) == Some(b@),
        r is None ==> bucket_by_account_spec(*mappings, account@) is None,
{
    let a = str_chars(account);
    let n = mappings.defaults.len();
    let mut best: Option<usize> = None;
    let mut i: usize = 0;
    while i < n
        invariant
            i <= n,
            n == mappings.defaults.keys().len(),
            mappings.defaults.well_ordered(),
            a@ == account@,
            best matches Some(b) ==> b < i && starts_with(account@, mappings.defaults.keys()[b as int])
                && forall|j: int|
                0 <= j < i && starts_with(account@, mappings.defaults.keys()[j]) ==> mappings.defaults.keys()[j].len()
                    <= mappings.defaults.keys()[b as int].len(),
            best is None ==> forall|j: int|
                0 <= j < i ==> !starts_with(account@, mappings.defaults.keys()[j]),
        decreases n - i,
    {
        let k = str_chars(mappings.defaults.key_at(i).as_str());
        if chars_starts_with(&a, &k) {
            match best {
                Some(b) => {
                    let kb = str_chars(mappings.defaults.key_at(b).as_str());
                    if k.len() >= kb.len() {
                        best = Some(i);
                    }
                },
                None => {
                    best = Some(i);
                },
            }
        }
        i += 1;
    }
    match best {
        Some(b) => {
            proof {
                mappings.defaults.lemma_index(b as int);
                let p = mappings.defaults.keys()[b as int];
                assert forall|q: Seq<char>|
                    mappings.defaults@.contains_key(q) && starts_with(account@, q) implies q.len()
                    <= p.len() by {
                    assert(mappings.defaults.keys().contains(q));
                    let j = choose|j: int| 0 <= j < n && mappings.defaults.keys()[j] == q;
                }
                let c = choose|c: Seq<char>|
                    mappings.defaults@.contains_key(c) && starts_with(account@, c) && (forall|
                        q: Seq<char>,
                    |
                        mappings.defaults@.contains_key(q) && starts_with(account@, q) ==> q.len()
                            <= c.len());
                assert(mappings.defaults@.contains_key(c) && starts_with(account@, c));
                assert(c.len() == p.len());
                assert(c =~= p) by {
                    assert forall|t: int| 0 <= t < c.len() implies c[t] == p[t] by {
                        assert(account@.subrange(0, c.len() as int)[t] == c[t]);
                        assert(account@.subrange(0, p.len() as int)[t] == p[t]);
                    }
                }
            }
            Some(mappings.defaults.value_at(b).clone())
        },
        None => {
            proof {
                assert forall|p: Seq<char>|
                    mappings.defaults@.contains_key(p) implies !starts_with(account@, p) by {
                    assert(mappings.defaults.keys().contains(p));
                    let j = choose|j: int| 0 <= j < n && mappings.defaults.keys()[j] == p;
                }
            }
            None
        },
    }
}

// ---------------------------------------------------------------------------
// Known buckets
// ---------------------------------------------------------------------------

/// `a` is a proper dotted ancestor of `b` (`生活费` of `生活费.交通`).
pub open spec fn is_ancestor(a: Seq<char>, b: Seq<char>) -> bool {
    starts_with(b, a.push('.'))
}

/// The buckets the configuration knows: every directive's bucket and its
/// ancestors, the declared kinds, the asset buckets, and the fallback bucket.
pub open spec fn known_bucket_spec(
    directives: Seq<BudgetDirective>,
    m: BudgetMappings,
    p: Seq<char>,
) -> bool {
    ||| exists|i: int|
        0 <= i < directives.len() && (directives[i].bucket@ == p || is_ancestor(
            p,
            directives[i].bucket@,
        ))
    ||| m.bucket_types@.contains_key(p)
    ||| m.asset_bucket_accounts@.contains_key(p)
    ||| p == m.default_expense_bucket@
}

proof fn lemma_ancestor_index(b: Seq<char>, p: Seq<char>)
    ensures
        is_ancestor(p, b) <==> (p.len() < b.len() && b[p.len() as int] == '.' && b.take(
            p.len() as int,
        ) == p),
{
    if is_ancestor(p, b) {
        let q = b.subrange(0, p.len() as int + 1);
        assert(q == p.push('.'));
        assert(q[p.len() as int] == '.');
        assert forall|k: int| 0 <= k < p.len() implies b.take(p.len() as int)[k] == p[k] by {
            assert(q[k] == p.push('.')[k]);
        }
        assert(b.take(p.len() as int) =~= p);
    }
    if p.len() < b.len() && b[p.len() as int] == '.' && b.take(p.len() as int) == p {
        assert(b.subrange(0, p.len() as int + 1) =~= p.push('.'));
    }
}

/// Collects all known bucket names (the set the warnings compare against).
pub fn collect_known_buckets(directives: &Vec<BudgetDirective>, mappings: &BudgetMappings) -> (r:
    StrMap<()>)
    ensures
        forall|p: Seq<char>| #[trigger]
            r@.contains_key(p) <==> known_bucket_spec(directives@, *mappings, p),
{
    let mut set: StrMap<()> = StrMap::new();
    let mut i: usize = 0;
    while i < directives.len()
        invariant
            i <= directives.len(),
            forall|p: Seq<char>| #[trigger]
                set@.contains_key(p) <==> exists|k: int|
                    0 <= k < i && (directives@[k].bucket@ == p || is_ancestor(
                        p,
                        directives@[k].bucket@,
                    )),
        decreases directives.len() - i,
    {
        let b = str_chars(directives[i].bucket.as_str());
        set.insert(directives[i].bucket.clone(), ());
        let mut j: usize = b.len();
        while j > 0
            invariant
                j <= b.len(),
                b@ == directives@[i as int].bucket@,
                i < directives.len(),
                forall|p: Seq<char>| #[trigger]
                    set@.contains_key(p) <==> (exists|k: int|
                        0 <= k < i && (directives@[k].bucket@ == p || is_ancestor(
                            p,
                            directives@[k].bucket@,
                        ))) || p == b@ || (is_ancestor(p, b@) && p.len() >= j),
            decreases j,
        {
            j -= 1;
            if b[j] == '.' {
                let pre = slice_chars(&b, 0, j);
                proof {
                    lemma_ancestor_index(b@, pre@);
                }
                set.insert(string_from_chars(&pre), ());
                proof {
                    assert forall|p: Seq<char>| is_ancestor(p, b@) && p.len() >= j implies p.len()
                        == j ==> p == pre@ by {
                        lemma_ancestor_index(b@, p);
                        assert(pre@ =~= b@.take(j as int));
                    }
                    assert forall|p: Seq<char>| #[trigger] set@.contains_key(p) <==> (exists|k: int|
                        0 <= k < i && (directives@[k].bucket@ == p || is_ancestor(
                            p,
                            directives@[k].bucket@,
                        ))) || p == b@ || (is_ancestor(p, b@) && p.len() >= j) by {
                        lemma_ancestor_index(b@, p);
                        if p == pre@ {
                            assert(pre@ =~= b@.take(j as int));
                        }
                    }
                }
            } else {
                proof {
                    assert forall|p: Seq<char>| is_ancestor(p, b@) && p.len() >= j implies p.len()
                        > j by {
                        lemma_ancestor_index(b@, p);
                    }
                }
            }
        }
        proof {
            assert forall|p: Seq<char>| #[trigger] set@.contains_key(p) <==> exists|k: int|
                0 <= k < i + 1 && (directives@[k].bucket@ == p || is_ancestor(
                    p,
                    directives@[k].bucket@,
                )) by {
                if p == b@ || is_ancestor(p, b@) {
                    assert(directives@[i as int].bucket@ == p || is_ancestor(p, directives@[i as int].bucket@));
                }
            }
        }
        i += 1;
    }
    let n = mappings.bucket_types.len();
    let mut k: usize = 0;
    while k < n
        invariant
            k <= n,
            n == mappings.bucket_types.keys().len(),
            mappings.bucket_types.well_ordered(),
            forall|p: Seq<char>| #[trigger]
                set@.contains_key(p) <==> (exists|x: int|
                    0 <= x < directives.len() && (directives@[x].bucket@ == p || is_ancestor(
                        p,
                        directives@[x].bucket@,
                    ))) || (exists|x: int| 0 <= x < k && mappings.bucket_types.keys()[x] == p),
        decreases n - k,
    {
        set.insert(mappings.bucket_types.key_at(k).clone(), ());
        k += 1;
    }
    proof {
        assert forall|p: Seq<char>| (exists|x: int| 0 <= x < n && mappings.bucket_types.keys()[x] == p)
            <==> #[trigger] mappings.bucket_types@.contains_key(p) by {
            if exists|x: int| 0 <= x < n && mappings.bucket_types.keys()[x] == p {
                let x = choose|x: int| 0 <= x < n && mappings.bucket_types.keys()[x] == p;
                mappings.bucket_types.lemma_index(x);
            }
            if mappings.bucket_types@.contains_key(p) {
                assert(mappings.bucket_types.keys().contains(p));
            }
        }
    }
    let n2 = mappings.asset_bucket_accounts.len();
    let mut k2: usize = 0;
    while k2 < n2
        invariant
            k2 <= n2,
            n2 == mappings.asset_bucket_accounts.keys().len(),
            mappings.asset_bucket_accounts.well_ordered(),
            forall|p: Seq<char>| #[trigger]
                set@.contains_key(p) <==> (exists|x: int|
                    0 <= x < directives.len() && (directives@[x].bucket@ == p || is_ancestor(
                        p,
                        directives@[x].bucket@,
                    ))) || mappings.bucket_types@.contains_key(p) || (exists|x: int|
                    0 <= x < k2 && mappings.asset_bucket_accounts.keys()[x] == p),
        decreases n2 - k2,
    {
        set.insert(mappings.asset_bucket_accounts.key_at(k2).clone(), ());
        k2 += 1;
    }
    proof {
        assert forall|p: Seq<char>| (exists|x: int|
            0 <= x < n2 && mappings.asset_bucket_accounts.keys()[x] == p)
            <==> #[trigger] mappings.asset_bucket_accounts@.contains_key(p) by {
            if exists|x: int| 0 <= x < n2 && mappings.asset_bucket_accounts.keys()[x] == p {
                let x = choose|x: int| 0 <= x < n2 && mappings.asset_bucket_accounts.keys()[x] == p;
                mappings.asset_bucket_accounts.lemma_index(x);
            }
            if mappings.asset_bucket_accounts@.contains_key(p) {
                assert(mappings.asset_bucket_accounts.keys().contains(p));
            }
        }
    }
    set.insert(mappings.default_expense_bucket.clone(), ());
    set
}

} // verus!
