//! Command-line parameters, the query's time range, and the ledger inputs.
use vstd::prelude::*;

pub use crate::util::ReportScope;

use crate::strmap::StrMap;
use crate::text::{
    chars_eq, chars_lt, last_index_of, lemma_last_index_of, push_str, seq_lt, slice_chars,
    str_chars, string_push, chars_rfind,
};
use crate::util::{
    month_in_scope, month_parts, month_scope_ok, parse_i32, parse_int_spec, push_year,
    scope_label, seq_le, validate_month, year_text, MonthError, date_exists, ascii_lower_seq,
    to_ascii_lowercase_chars,
};

verus! {

broadcast use vstd::string::group_string_axioms;

/// Granularity of a single bucket's history: totals, per month, or per
/// transaction.
#[derive(Clone, Copy, Debug, PartialEq, Eq)]
pub enum BucketView {
    Summary,
    Monthly,
    Detail,
}

/// The period a report covers: a month with its scope, or an inclusive
/// range of months.
#[derive(Clone, Debug)]
pub enum DateRange {
    Month { target: String, scope: ReportScope },
    Range { from: String, to: String },
}

/// Whether `month` lies in the range.
pub open spec fn range_contains(r: DateRange, month: Seq<char>) -> bool {
    match r {
        DateRange::Month { target, scope } => month_in_scope(month, target@, scope),
        DateRange::Range { from, to } => seq_le(from@, month) && seq_le(month, to@),
    }
}

/// `contains(month)` does not panic.
pub open spec fn range_contains_ok(r: DateRange, month: Seq<char>) -> bool {
    match r {
        DateRange::Month { target, scope } => month_scope_ok(month, target@, scope),
        DateRange::Range { .. } => true,
    }
}

pub open spec fn range_label(r: DateRange) -> Seq<char> {
    match r {
        DateRange::Month { target, scope } => target@ + seq!['-'] + scope_label(scope),
        DateRange::Range { from, to } => from@ + seq!['_'] + to@,
    }
}

pub open spec fn range_display(r: DateRange) -> Seq<char> {
    match r {
        DateRange::Month { target, scope } => target@ + seq![' ', '('] + scope_label(scope) + seq![
            ')',
        ],
        DateRange::Range { from, to } => from@ + seq![' ', '~', ' '] + to@,
    }
}

pub open spec fn range_end(r: DateRange) -> Seq<char> {
    match r {
        DateRange::Month { target, .. } => target@,
        DateRange::Range { to, .. } => to@,
    }
}

fn chars_le(a: &Vec<char>, b: &Vec<char>) -> (r: bool)
    ensures
        r == seq_le(a@, b@),
{
    chars_eq(a, b) || chars_lt(a, b)
}

impl DateRange {
    /// Whether `month` lies in the range.
    pub fn contains(&self, month: &str) -> (r: bool)
        requires
            range_contains_ok(*self, month@),
        ensures
            r == range_contains(*self, month@),
    {
        match self {
            DateRange::Month { target, scope } => crate::util::is_month_in_scope(
                month,
                target.as_str(),
                *scope,
            ),
            DateRange::Range { from, to } => {
                let m = str_chars(month);
                let f = str_chars(from.as_str());
                let t = str_chars(to.as_str());
                chars_le(&f, &m) && chars_le(&m, &t)
            },
        }
    }

    /// Label for titles and file names: `2026-06-month`, `2026-01_2026-06`.
    pub fn label(&self) -> (r: String)
        ensures
            r@ == range_label(*self),
    {
        match self {
            DateRange::Month { target, scope } => {
                let mut out = target.clone();
                string_push(&mut out, '-');
                push_str(&mut out, scope.label());
                out
            },
            DateRange::Range { from, to } => {
                let mut out = from.clone();
                string_push(&mut out, '_');
                push_str(&mut out, to.as_str());
                out
            },
        }
    }

    /// Human-readable form: `2026-06 (month)`, `2026-01 ~ 2026-06`.
    pub fn display(&self) -> (r: String)
        ensures
            r@ == range_display(*self),
    {
        match self {
            DateRange::Month { target, scope } => {
                let mut out = target.clone();
                string_push(&mut out, ' ');
                string_push(&mut out, '(');
                push_str(&mut out, scope.label());
                string_push(&mut out, ')');
                assert(out@ =~= range_display(*self));
                out
            },
            DateRange::Range { from, to } => {
                let mut out = from.clone();
                string_push(&mut out, ' ');
                string_push(&mut out, '~');
                string_push(&mut out, ' ');
                push_str(&mut out, to.as_str());
                assert(out@ =~= range_display(*self));
                out
            },
        }
    }

    /// The last month the range covers.
    pub fn end_month(&self) -> (r: &str)
        ensures
            r@ == range_end(*self),
    {
        match self {
            DateRange::Month { target, .. } => target.as_str(),
            DateRange::Range { to, .. } => to.as_str(),
        }
    }
}

/// All command-line parameters.
#[derive(Clone, Debug)]
pub struct Cli {
    pub ledgers: Vec<String>,
    pub ledger_dirs: Vec<String>,
    pub month: Option<String>,
    pub budgets: String,
    pub config_file: String,
    pub currency: String,
    pub scope: ReportScope,
    pub bucket: Option<String>,
    pub bucket_view: BucketView,
    pub sort_by: Option<String>,
    pub expand: bool,
    pub filter: Option<String>,
    pub show_locations: bool,
    pub hide_asset_flows: bool,
    pub compare: Option<String>,
    pub out_dir: Option<String>,
    pub csv_pivot: bool,
    pub out_json: bool,
    pub strict: bool,
    pub from: Option<String>,
    pub to: Option<String>,
    pub year: Option<String>,
}

/// The parameters the reports read.
#[derive(Clone, Debug)]
pub struct ReportConfig {
    pub scope: ReportScope,
    pub month: String,
    pub filter: Option<String>,
    pub hide_asset_flows: bool,
    pub bucket_view: BucketView,
    pub show_locations: bool,
    pub sort_by: Option<String>,
    pub csv_pivot: bool,
    pub bucket: Option<String>,
    pub strict: bool,
    pub expand: bool,
    pub out_json: bool,
}

impl Cli {
    /// The report parameters; the month is `?` when none was given.
    pub fn report_config(&self) -> (c: ReportConfig)
        ensures
            c.scope == self.scope,
            c.month@ == (match self.month {
                Some(m) => m@,
                None => "?"@,
            }),
            c.filter == self.filter,
            c.hide_asset_flows == self.hide_asset_flows,
            c.bucket_view == self.bucket_view,
            c.show_locations == self.show_locations,
            c.sort_by == self.sort_by,
            c.csv_pivot == self.csv_pivot,
            c.bucket == self.bucket,
            c.strict == self.strict,
            c.expand == self.expand,
            c.out_json == self.out_json,
    {
        let month = match &self.month {
            Some(m) => m.clone(),
            None => "?".to_string(),
        };
        ReportConfig {
            scope: self.scope,
            month,
            filter: self.filter.clone(),
            hide_asset_flows: self.hide_asset_flows,
            bucket_view: self.bucket_view,
            show_locations: self.show_locations,
            sort_by: self.sort_by.clone(),
            csv_pivot: self.csv_pivot,
            bucket: self.bucket.clone(),
            strict: self.strict,
            expand: self.expand,
            out_json: self.out_json,
        }
    }
}

/// Why the time range of a query could not be settled.
#[derive(Clone, Copy, Debug, PartialEq, Eq)]
pub enum DateRangeError {
    /// `--year` together with `--month`, `--from` or `--to`.
    YearWithOtherRange,
    /// `--year` that is not an `i32`.
    YearNotNumber,
    /// `--from` without `--to`.
    FromWithoutTo,
    /// `--to` without `--from`.
    ToWithoutFrom,
    /// Neither `--month` nor `--from`/`--to`.
    NoRange,
    /// `--from`/`--to` together with `--month`.
    RangeWithMonth,
    /// A month that `validate_month` refuses.
    BadMonth(MonthError),
    /// `--from` later than `--to`.
    FromAfterTo,
}

pub open spec fn opt_seq(o: Option<String>) -> Option<Seq<char>> {
    match o {
        Some(s) => Some(s@),
        None => None,
    }
}

pub open spec fn month_ok(m: Seq<char>) -> bool {
    month_parts(m) matches Some((y, mo)) && date_exists(y, mo, 1)
}

/// The error `validate_month` gives a month that is not `month_ok`.
pub open spec fn month_refusal(m: Seq<char>) -> MonthError {
    if month_parts(m) is None {
        MonthError::Format
    } else {
        MonthError::NoSuchMonth
    }
}

/// The range a query without `--year` covers, or why there is none.
pub open spec fn date_range_spec(cli: Cli) -> Result<DateRange, DateRangeError> {
    match cli.year {
        Some(_) => Err(DateRangeError::YearWithOtherRange),
        None => match (cli.from, cli.to, cli.month) {
            (Some(f), Some(t), None) => {
                if !month_ok(f@) {
                    Err(DateRangeError::BadMonth(month_refusal(f@)))
                } else if !month_ok(t@) {
                    Err(DateRangeError::BadMonth(month_refusal(t@)))
                } else if seq_lt(t@, f@) {
                    Err(DateRangeError::FromAfterTo)
                } else {
                    Ok(DateRange::Range { from: f, to: t })
                }
            },
            (None, None, Some(m)) => {
                if !month_ok(m@) {
                    Err(DateRangeError::BadMonth(month_refusal(m@)))
                } else {
                    Ok(DateRange::Month { target: m, scope: cli.scope })
                }
            },
            (Some(_), None, _) => Err(DateRangeError::FromWithoutTo),
            (None, Some(_), _) => Err(DateRangeError::ToWithoutFrom),
            (None, None, None) => Err(DateRangeError::NoRange),
            (Some(_), Some(_), Some(_)) => Err(DateRangeError::RangeWithMonth),
        },
    }
}

/// Settles the time range from `--year`, `--from`/`--to` or `--month`.
pub fn resolve_date_range(cli: &Cli) -> (r: Result<DateRange, DateRangeError>)
    ensures
        cli.year matches Some(year) ==> match r {
            Err(DateRangeError::YearWithOtherRange) => cli.month is Some || cli.from is Some
                || cli.to is Some,
            Err(DateRangeError::YearNotNumber) => !(cli.month is Some || cli.from is Some
                || cli.to is Some) && parse_int_spec(year@, true, i32::MIN as int, i32::MAX as int)
                is None,
            Ok(DateRange::Range { from, to }) => !(cli.month is Some || cli.from is Some
                || cli.to is Some) && (parse_int_spec(
                year@,
                true,
                i32::MIN as int,
                i32::MAX as int,
            ) matches Some(y) && from@ == year_text(y) + "-01"@ && to@ == year_text(y) + "-12"@),
            _ => false,
        },
        cli.year is None ==> match (r, date_range_spec(*cli)) {
            (Ok(a), Ok(b)) => a == b,
            (Err(a), Err(b)) => a == b,
            _ => false,
        },
{
    if let Some(year) = &cli.year {
        if cli.month.is_some() || cli.from.is_some() || cli.to.is_some() {
            return Err(DateRangeError::YearWithOtherRange);
        }
        let yc = str_chars(year.as_str());
        let y = match parse_i32(&yc) {
            Some(y) => y,
            None => {
                return Err(DateRangeError::YearNotNumber);
            },
        };
        let mut from = String::new();
        push_year(&mut from, y);
        push_str(&mut from, "-01");
        let mut to = String::new();
        push_year(&mut to, y);
        push_str(&mut to, "-12");
        return Ok(DateRange::Range { from, to });
    }
    match (&cli.from, &cli.to, &cli.month) {
        (Some(from), Some(to), None) => {
            match validate_month(from.as_str()) {
                Ok(()) => {},
                Err(e) => {
                    return Err(DateRangeError::BadMonth(e));
                },
            }
            match validate_month(to.as_str()) {
                Ok(()) => {},
                Err(e) => {
                    return Err(DateRangeError::BadMonth(e));
                },
            }
            let f = str_chars(from.as_str());
            let t = str_chars(to.as_str());
            if chars_lt(&t, &f) {
                return Err(DateRangeError::FromAfterTo);
            }
            Ok(DateRange::Range { from: from.clone(), to: to.clone() })
        },
        (None, None, Some(month)) => {
            match validate_month(month.as_str()) {
                Ok(()) => {},
                Err(e) => {
                    return Err(DateRangeError::BadMonth(e));
                },
            }
            Ok(DateRange::Month { target: month.clone(), scope: cli.scope })
        },
        (Some(_), None, _) => Err(DateRangeError::FromWithoutTo),
        (None, Some(_), _) => Err(DateRangeError::ToWithoutFrom),
        (None, None, None) => Err(DateRangeError::NoRange),
        (Some(_), Some(_), Some(_)) => Err(DateRangeError::RangeWithMonth),
    }
}

// ---------------------------------------------------------------------------
// Ledger inputs
// ---------------------------------------------------------------------------

/// The final component of a `/`-separated path.
pub open spec fn file_name_of(path: Seq<char>) -> Seq<char> {
    match last_index_of(path, '/') {
        Some(i) => path.skip(i + 1),
        None => path,
    }
}

/// `Path::extension`: what follows the last `.` of the file name, unless the
/// name is `..`, has no `.`, or has its only `.` in front.
pub open spec fn extension_of(path: Seq<char>) -> Option<Seq<char>> {
    let name = file_name_of(path);
    if name == ".."@ {
        None
    } else {
        match last_index_of(name, '.') {
            Some(i) => if i == 0 {
                None
            } else {
                Some(name.skip(i + 1))
            },
            None => None,
        }
    }
}

/// The extension is `bean` or `beancount`, in any case.
pub open spec fn is_ledger_path(path: Seq<char>) -> bool {
    extension_of(path) matches Some(e) && (ascii_lower_seq(e) == "bean"@ || ascii_lower_seq(e)
        == "beancount"@)
}

/// Whether a file found under `--ledger-dir` is a ledger (`.bean` or
/// `.beancount`, in any case).
pub fn is_ledger_file_name(path: &str) -> (r: bool)
    ensures
        r == is_ledger_path(path@),
{
    let v = str_chars(path);
    proof {
        lemma_last_index_of(v@, '/');
    }
    let name = match chars_rfind(&v, '/') {
        Some(i) => slice_chars(&v, i + 1, v.len()),
        None => v.clone(),
    };
    assert(name@ =~= file_name_of(path@));
    let dotdot = str_chars("..");
    if chars_eq(&name, &dotdot) {
        return false;
    }
    proof {
        lemma_last_index_of(name@, '.');
    }
    match chars_rfind(&name, '.') {
        Some(i) => {
            if i == 0 {
                return false;
            }
            let ext = slice_chars(&name, i + 1, name.len());
            assert(ext@ =~= name@.skip(i + 1));
            let low = to_ascii_lowercase_chars(&ext);
            let bean = str_chars("bean");
            let beancount = str_chars("beancount");
            chars_eq(&low, &bean) || chars_eq(&low, &beancount)
        },
        None => false,
    }
}

/// Why no ledger list could be made.
#[derive(Clone, Debug, PartialEq, Eq)]
pub enum LedgerInputError {
    /// Neither `--ledger` nor `--ledger-dir` was given.
    NoInput,
    /// A `--ledger` path that is not a file.
    FileNotFound(String),
    /// A `--ledger-dir` path that could not be scanned.
    DirNotFound(String),
    /// Nothing with a ledger extension was found.
    NoLedgerFiles,
}

/// What scanning found: for each `--ledger` whether it is a file, and for
/// each `--ledger-dir` the files under it (recursively), or `None` when the
/// directory could not be read.
pub struct LedgerScan {
    pub ledger_is_file: Vec<bool>,
    pub dir_files: Vec<Option<Vec<String>>>,
}

/// `p` is one of `paths`.
pub open spec fn listed(paths: Seq<String>, p: Seq<char>) -> bool {
    exists|k: int| 0 <= k < paths.len() && paths[k]@ == p
}

/// Directory `k` was scanned and its listing holds `p`.
pub open spec fn dir_has(scan: LedgerScan, k: int, p: Seq<char>) -> bool {
    &&& scan.dir_files@[k] is Some
    &&& exists|j: int|
        0 <= j < scan.dir_files@[k].unwrap()@.len() && scan.dir_files@[k].unwrap()@[j]@ == p
}

/// The set of ledger files `resolve_ledger_inputs` collects.
pub open spec fn collected_ledgers(cli: Cli, scan: LedgerScan) -> Set<Seq<char>> {
    Set::new(
        |p: Seq<char>|
            (exists|i: int| 0 <= i < cli.ledgers@.len() && cli.ledgers@[i]@ == p) || (exists|
                i: int,
            | 0 <= i < scan.dir_files@.len() && dir_has(scan, i, p) && is_ledger_path(p)),
    )
}

/// Collects the ledger files: every `--ledger` (each must be a file) and
/// every `.bean`/`.beancount` file under each `--ledger-dir`, without
/// duplicates, in ascending order.
#[verifier::spinoff_prover]
pub fn resolve_ledger_inputs(cli: &Cli, scan: &LedgerScan) -> (r: Result<
    Vec<String>,
    LedgerInputError,
>)
    requires
        scan.ledger_is_file.len() == cli.ledgers.len(),
        scan.dir_files.len() == cli.ledger_dirs.len(),
    ensures
        (cli.ledgers.len() == 0 && cli.ledger_dirs.len() == 0) <==> r == Err::<
            Vec<String>,
            LedgerInputError,
        >(LedgerInputError::NoInput),
        r matches Err(LedgerInputError::FileNotFound(p)) ==> exists|i: int|
            0 <= i < cli.ledgers.len() && !scan.ledger_is_file@[i] && cli.ledgers@[i] == p,
        r matches Err(LedgerInputError::DirNotFound(p)) ==> exists|i: int|
            0 <= i < cli.ledger_dirs.len() && scan.dir_files@[i] is None && cli.ledger_dirs@[i]
                == p,
        (r is Ok || r == Err::<Vec<String>, LedgerInputError>(LedgerInputError::NoLedgerFiles)) ==> (forall|i: int|
            0 <= i < cli.ledgers.len() ==> scan.ledger_is_file@[i]) && (forall|i: int|
            0 <= i < cli.ledger_dirs.len() ==> scan.dir_files@[i] is Some),
        r matches Err(LedgerInputError::NoLedgerFiles) ==> collected_ledgers(*cli, *scan)
            =~= Set::<Seq<char>>::empty(),
        r matches Ok(paths) ==> paths.len() > 0,
        r is Ok ==> (forall|p: Seq<char>|
            #[trigger] collected_ledgers(*cli, *scan).contains(p) == listed(r.unwrap()@, p)),
        r matches Ok(paths) ==> forall|a: int, b: int|
            0 <= a < b < paths.len() ==> seq_lt(paths@[a]@, paths@[b]@),
{
    if cli.ledgers.len() == 0 && cli.ledger_dirs.len() == 0 {
        return Err(LedgerInputError::NoInput);
    }
    let mut set: StrMap<()> = StrMap::new();
    let mut i: usize = 0;
    while i < cli.ledgers.len()
        invariant
            i <= cli.ledgers.len(),
            scan.ledger_is_file.len() == cli.ledgers.len(),
            forall|k: int| 0 <= k < i ==> scan.ledger_is_file@[k],
            forall|p: Seq<char>|
                #![trigger set@.contains_key(p)]
                set@.contains_key(p) <==> exists|k: int|
                    0 <= k < i && cli.ledgers@[k]@ == p,
        decreases cli.ledgers.len() - i,
    {
        if !scan.ledger_is_file[i] {
            return Err(LedgerInputError::FileNotFound(cli.ledgers[i].clone()));
        }
        set.insert(cli.ledgers[i].clone(), ());
        i += 1;
    }
    let mut d: usize = 0;
    while d < cli.ledger_dirs.len()
        invariant
            d <= cli.ledger_dirs.len(),
            scan.dir_files.len() == cli.ledger_dirs.len(),
            forall|k: int| 0 <= k < cli.ledgers.len() ==> scan.ledger_is_file@[k],
            forall|k: int| 0 <= k < d ==> scan.dir_files@[k] is Some,
            forall|p: Seq<char>|
                #![trigger set@.contains_key(p)]
                set@.contains_key(p) <==> (exists|k: int|
                    0 <= k < cli.ledgers.len() && cli.ledgers@[k]@ == p) || (exists|k: int|
                    0 <= k < d && dir_has(*scan, k, p) && is_ledger_path(p)),
        decreases cli.ledger_dirs.len() - d,
    {
        match &scan.dir_files[d] {
            None => {
                return Err(LedgerInputError::DirNotFound(cli.ledger_dirs[d].clone()));
            },
            Some(files) => {
                let mut j: usize = 0;
                while j < files.len()
                    invariant
                        j <= files.len(),
                        d < cli.ledger_dirs.len(),
                        scan.dir_files.len() == cli.ledger_dirs.len(),
                        scan.dir_files@[d as int] == Some(*files),
                        forall|p: Seq<char>|
                            #![trigger set@.contains_key(p)]
                            set@.contains_key(p) <==> (exists|k: int|
                                0 <= k < cli.ledgers.len() && cli.ledgers@[k]@ == p) || (exists|
                                k: int,
                            | 0 <= k < d && dir_has(*scan, k, p) && is_ledger_path(p)) || (exists|
                                jj: int,
                            | 0 <= jj < j && files@[jj]@ == p && is_ledger_path(p)),
                    decreases files.len() - j,
                {
                    if is_ledger_file_name(files[j].as_str()) {
                        set.insert(files[j].clone(), ());
                    }
                    j += 1;
                }
                proof {
                    assert forall|p: Seq<char>| #[trigger] set@.contains_key(p) <==> (exists|k: int|
                        0 <= k < cli.ledgers.len() && cli.ledgers@[k]@ == p) || (exists|k: int|
                        0 <= k < d + 1 && dir_has(*scan, k, p) && is_ledger_path(p)) by {
                        if exists|jj: int| 0 <= jj < files.len() && files@[jj]@ == p && is_ledger_path(p) {
                            assert(dir_has(*scan, d as int, p));
                        }
                        if exists|k: int| 0 <= k < d + 1 && dir_has(*scan, k, p) && is_ledger_path(p) {
                            let k = choose|k: int| 0 <= k < d + 1 && dir_has(*scan, k, p) && is_ledger_path(p);
                            if k == d {
                                let jj = choose|jj: int|
                                    0 <= jj < scan.dir_files@[k].unwrap()@.len() && scan.dir_files@[k].unwrap()@[jj]@ == p;
                                assert(files@[jj]@ == p);
                            }
                        }
                    }
                }
            },
        }
        d += 1;
    }
    let n = set.len();
    if n == 0 {
        proof {
            assert forall|p: Seq<char>| !collected_ledgers(*cli, *scan).contains(p) by {
                assert(!set@.contains_key(p));
            }
        }
        return Err(LedgerInputError::NoLedgerFiles);
    }
    assert forall|p: Seq<char>| #[trigger] set@.contains_key(p) <==> collected_ledgers(*cli, *scan).contains(p) by {}
    let mut out: Vec<String> = Vec::new();
    let mut k: usize = 0;
    while k < n
        invariant
            forall|p: Seq<char>| #[trigger] set@.contains_key(p) <==> collected_ledgers(*cli, *scan).contains(p),
            k <= n,
            n == set.keys().len(),
            set.well_ordered(),
            out.len() == k,
            forall|x: int| 0 <= x < k ==> out@[x]@ == set.keys()[x],
        decreases n - k,
    {
        out.push(set.key_at(k).clone());
        k += 1;
    }
    proof {
        assert forall|p: Seq<char>|
            #[trigger] collected_ledgers(*cli, *scan).contains(p) == listed(out@, p) by {
            if set@.contains_key(p) {
                assert(set.keys().contains(p));
                let x = choose|x: int| 0 <= x < set.keys().len() && set.keys()[x] == p;
                assert(out@[x]@ == p);
            }
            if exists|x: int| 0 <= x < out.len() && out@[x]@ == p {
                let x = choose|x: int| 0 <= x < out.len() && out@[x]@ == p;
                set.lemma_index(x);
            }
            if collected_ledgers(*cli, *scan).contains(p) {
                assert(set@.contains_key(p));
            }
        }
        assert forall|a: int, b: int| 0 <= a < b < out.len() implies seq_lt(out@[a]@, out@[b]@) by {
            assert(out@[a]@ == set.keys()[a]);
            assert(out@[b]@ == set.keys()[b]);
        }
    }
    Ok(out)
}

} // verus!
