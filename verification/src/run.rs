//! The decisions of a report run: the month and scope it is counted for, the
//! period it is compared with, the files it exports and when strict mode
//! fails it.
use vstd::prelude::*;

use crate::cli::{range_label, DateRange, ReportConfig};
use crate::detail::byte_prefix;
use crate::scoped::{ScopedBucketData, WarningStats};
use crate::text::{push_str, string_push};
use crate::util::{date_exists, month_parts, sanitize_seq, MonthError, ReportScope};

verus! {

broadcast use vstd::string::group_string_axioms;

/// The month and scope the totals are counted for: for a range of months,
/// its last month, cumulatively; otherwise the given month (`?` when there
/// is none) and scope.
pub open spec fn report_month_spec(month: Option<Seq<char>>, scope: ReportScope, range: DateRange) -> (
    Seq<char>,
    ReportScope,
) {
    match range {
        DateRange::Range { to, .. } => (to@, ReportScope::Cumulative),
        DateRange::Month { .. } => (
            match month {
                Some(m) => m,
                None => "?"@,
            },
            scope,
        ),
    }
}

/// The month and scope the totals are counted for (see
/// [`report_month_spec`]).
pub fn report_month(month: Option<&str>, scope: ReportScope, range: &DateRange) -> (r: (
    String,
    ReportScope,
))
    ensures
        (r.0@, r.1) == report_month_spec(crate::util::opt_view(month), scope, *range),
{
    match range {
        DateRange::Range { to, .. } => (to.clone(), ReportScope::Cumulative),
        DateRange::Month { .. } => {
            proof {
                reveal_strlit("?");
            }
            match month {
                Some(m) => (m.to_string(), scope),
                None => ("?".to_string(), scope),
            }
        },
    }
}

/// The error `validate_month` gives a month string, if any.
pub open spec fn month_error(m: Seq<char>) -> Option<MonthError> {
    match month_parts(m) {
        None => Some(MonthError::Format),
        Some((y, mm)) => if date_exists(y, mm, 1) {
            None
        } else {
            Some(MonthError::NoSuchMonth)
        },
    }
}

/// Whether `r` is the period compared with `range`: the month `m` in the
/// same scope, or for a range of months the months of `m`'s year up to `m`.
pub open spec fn is_compare_range(r: DateRange, range: DateRange, m: Seq<char>) -> bool {
    match (range, r) {
        (DateRange::Month { scope, .. }, DateRange::Month { target, scope: s2 }) => target@ == m && s2
            == scope,
        (DateRange::Range { .. }, DateRange::Range { from, to }) => from@ == byte_prefix(m, 4) + "-01"@
            && to@ == m,
        _ => false,
    }
}

/// The period compared with `range`; an invalid month is refused with the
/// error `validate_month` gives.
pub fn compare_range(range: &DateRange, compare_month: &str) -> (r: Result<DateRange, MonthError>)
    requires
        month_error(compare_month@) is None && range is Range ==> crate::util::is_char_boundary(
            compare_month@,
            4,
        ),
    ensures
        match r {
            Ok(c) => month_error(compare_month@) is None && is_compare_range(c, *range, compare_month@),
            Err(e) => month_error(compare_month@) == Some(e),
        },
{
    match crate::util::validate_month(compare_month) {
        Ok(()) => {},
        Err(e) => {
            proof {
                if e == MonthError::NoSuchMonth {
                    assert(month_parts(compare_month@) is Some);
                }
            }
            return Err(e);
        },
    }
    match range {
        DateRange::Month { scope, .. } => Ok(DateRange::Month { target: compare_month.to_string(), scope: *scope }),
        DateRange::Range { .. } => {
            let year = crate::detail::chars_byte_prefix(&crate::text::str_chars(compare_month), 4);
            let mut from = crate::text::string_from_chars(&year);
            push_str(&mut from, "-01");
            Ok(DateRange::Range { from, to: compare_month.to_string() })
        },
    }
}

/// The message with which strict mode fails a run, if it does: when unknown
/// buckets carry an amount.
pub open spec fn strict_failure_spec(strict: bool, w: WarningStats, currency: Seq<char>) -> Option<Seq<char>> {
    if strict && w.unknown_bucket_amount@.0 != 0 {
        Some(
            "Strict mode failed: unknown budget buckets amount = "@ + crate::report::fmt_text(
                w.unknown_bucket_amount@,
            ) + seq![' '] + currency,
        )
    } else {
        None
    }
}

/// Whether strict mode fails the run, and with what message.
pub fn strict_failure(strict: bool, warnings: &WarningStats, currency: &str) -> (r: Option<String>)
    ensures
        match (r, strict_failure_spec(strict, *warnings, currency@)) {
            (Some(a), Some(b)) => a@ == b,
            (None, None) => true,
            _ => false,
        },
{
    if strict && !warnings.unknown_bucket_amount.is_zero() {
        let mut out = String::new();
        push_str(&mut out, "Strict mode failed: unknown budget buckets amount = ");
        push_str(&mut out, crate::util::fmt_decimal(warnings.unknown_bucket_amount).as_str());
        string_push(&mut out, ' ');
        push_str(&mut out, currency);
        proof {
            reveal_strlit("Strict mode failed: unknown budget buckets amount = ");
        }
        Some(out)
    } else {
        None
    }
}

// ---------------------------------------------------------------------------
// Exported files
// ---------------------------------------------------------------------------

/// The files an export writes.
#[derive(Clone, Copy, Debug, PartialEq, Eq, Structural)]
pub enum ExportFile {
    SummaryMarkdown,
    SummaryText,
    BucketsCsv,
    PivotCsv,
    SummaryJson,
    Bucket,
    AssetLocations,
}

/// The summary files an export writes, in order: the Markdown and text
/// summaries and the bucket CSV, then the pivot CSV when `csv_pivot` is set
/// and the JSON summary when `out_json` is set.
pub open spec fn summary_export_files_spec(csv_pivot: bool, out_json: bool) -> Seq<ExportFile> {
    seq![ExportFile::SummaryMarkdown, ExportFile::SummaryText, ExportFile::BucketsCsv] + (if csv_pivot {
        seq![ExportFile::PivotCsv]
    } else {
        Seq::empty()
    }) + (if out_json {
        seq![ExportFile::SummaryJson]
    } else {
        Seq::empty()
    })
}

/// The summary files an export of `config` writes (see
/// [`summary_export_files_spec`]).
pub fn summary_export_files(config: &ReportConfig) -> (r: Vec<ExportFile>)
    ensures
        r@ == summary_export_files_spec(config.csv_pivot, config.out_json),
{
    let mut r: Vec<ExportFile> = Vec::new();
    r.push(ExportFile::SummaryMarkdown);
    r.push(ExportFile::SummaryText);
    r.push(ExportFile::BucketsCsv);
    if config.csv_pivot {
        r.push(ExportFile::PivotCsv);
    }
    if config.out_json {
        r.push(ExportFile::SummaryJson);
    }
    assert(r@ =~= summary_export_files_spec(config.csv_pivot, config.out_json));
    r
}

/// The name of an exported file: its kind, the bucket's name made safe for a
/// file name where it is about a bucket, and the range's label.
pub open spec fn export_file_name_spec(file: ExportFile, bucket: Seq<char>, range: DateRange) -> Seq<char> {
    let l = range_label(range);
    match file {
        ExportFile::SummaryMarkdown => "summary-"@ + l + ".md"@,
        ExportFile::SummaryText => "summary-"@ + l + ".txt"@,
        ExportFile::BucketsCsv => "buckets-"@ + l + ".csv"@,
        ExportFile::PivotCsv => "pivot-"@ + l + ".csv"@,
        ExportFile::SummaryJson => "summary-"@ + l + ".json"@,
        ExportFile::Bucket => "bucket-"@ + sanitize_seq(bucket) + seq!['-'] + l + ".md"@,
        ExportFile::AssetLocations => "asset-locations-"@ + sanitize_seq(bucket) + seq!['-'] + l
            + ".md"@,
    }
}

/// The name of an exported file (see [`export_file_name_spec`]).
pub fn export_file_name(file: ExportFile, bucket: &str, range: &DateRange) -> (r: String)
    ensures
        r@ == export_file_name_spec(file, bucket@, *range),
{
    let l = range.label();
    let (head, per_bucket, tail) = match file {
        ExportFile::SummaryMarkdown => ("summary-", false, ".md"),
        ExportFile::SummaryText => ("summary-", false, ".txt"),
        ExportFile::BucketsCsv => ("buckets-", false, ".csv"),
        ExportFile::PivotCsv => ("pivot-", false, ".csv"),
        ExportFile::SummaryJson => ("summary-", false, ".json"),
        ExportFile::Bucket => ("bucket-", true, ".md"),
        ExportFile::AssetLocations => ("asset-locations-", true, ".md"),
    };
    let mut out = String::new();
    push_str(&mut out, head);
    if per_bucket {
        push_str(&mut out, crate::util::sanitize_filename(bucket).as_str());
        string_push(&mut out, '-');
    }
    push_str(&mut out, l.as_str());
    push_str(&mut out, tail);
    assert(out@ =~= export_file_name_spec(file, bucket@, *range));
    out
}

/// An export writes a location report for a bucket that is an asset bucket
/// or has flows recording where money moved.
pub fn needs_location_report(data: &ScopedBucketData) -> (r: bool)
    ensures
        r == (data.kind == crate::config::BucketKind::Asset || crate::detail::any_located(data.flows@)),
{
    match data.kind {
        crate::config::BucketKind::Asset => true,
        crate::config::BucketKind::Expense => crate::detail::any_located_exec(&data.flows),
    }
}

} // verus!
