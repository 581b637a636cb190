use beancount_budget_tool::amount::Amount;
use beancount_budget_tool::budget::{BucketSummary, BucketTxFlow};
use beancount_budget_tool::cli::{DateRange, ReportConfig, BucketView};
use beancount_budget_tool::compare::{compare_inputs_ok, render_compare_report_text};
use beancount_budget_tool::config::{BucketKind, BudgetDirective, BudgetMappings};
use beancount_budget_tool::detail::{
    append_bucket_detail_view, render_bucket_markdown, render_bucket_report_text,
};
use beancount_budget_tool::report::{
    append_asset_locations_view, append_bucket_monthly_view, fmt_pct, render_asset_locations_markdown,
    render_pivot_csv, render_summary_csv, render_summary_json, render_summary_markdown,
    render_summary_report_text, viewer_warning_text,
};
use beancount_budget_tool::run::{
    compare_range, export_file_name, report_month, strict_failure, ExportFile,
};
use beancount_budget_tool::scoped::{build_scoped_bucket_data, collect_asset_locations, WarningStats};
use beancount_budget_tool::strmap::StrMap;
use beancount_budget_tool::util::{fmt_decimal, LedgerDate, MonthError, ReportScope};

fn same_value(a: Amount, b: Amount) -> bool {
    a == b
}

fn dec(n: i64) -> Amount {
    Amount::new(n, 0)
}

fn summary(planned: i64, actual: i64) -> BucketSummary {
    BucketSummary { planned: dec(planned), actual: dec(actual) }
}

fn no_warnings() -> WarningStats {
    WarningStats { unknown_bucket_amount: Amount::zero(), unknown_bucket_names: StrMap::new() }
}

fn month_range(m: &str, scope: ReportScope) -> DateRange {
    DateRange::Month { target: m.to_string(), scope }
}

fn row(a: &str, b: &str, c: &str, d: &str, e: &str, f: &str) -> String {
    format!("{:<20} {:>12} {:>12} {:>7} {:>12} {:>7}\n", a, b, c, d, e, f)
}

fn flow(date: (i32, u32, u32), bucket: &str, kind: BucketKind, amount: i64) -> BucketTxFlow {
    BucketTxFlow {
        date: LedgerDate { year: date.0, month: date.1, day: date.2 },
        month: format!("{:04}-{:02}", date.0, date.1),
        bucket: bucket.to_string(),
        kind,
        flow: dec(amount),
        payee: None,
        narration: None,
        location_deltas: StrMap::new(),
        metadata: StrMap::new(),
    }
}

fn directive(month: &str, label: Option<&str>, bucket: &str, amount: i64) -> BudgetDirective {
    BudgetDirective {
        month: month.to_string(),
        label: label.map(|s| s.to_string()),
        source_key: match label {
            Some(l) => format!("{} {}", month, l),
            None => month.to_string(),
        },
        bucket: bucket.to_string(),
        amount: dec(amount),
    }
}

fn one_bucket() -> StrMap<BucketSummary> {
    let mut s = StrMap::new();
    s.insert("数码".to_string(), summary(4000, 1000));
    s
}

#[test]
fn summary_text_lists_rows_and_totals() {
    let r = render_summary_report_text(
        &month_range("2026-06", ReportScope::Month),
        "CNY",
        &one_bucket(),
        &no_warnings(),
        None,
        false,
    );
    let rule = "-".repeat(76);
    let expected = String::from("预算报告 (2026-06 (month)) [CNY]\n")
        + &row("预算桶", "月预算", "已支出", "使用率", "结余", "状态")
        + &rule
        + "\n"
        + &row("数码", "4000.00", "1000.00", " 25.0%", "3000.00", "正常")
        + &rule
        + "\n"
        + &row("合计", "4000.00", "1000.00", " 25.0%", "3000.00", "正常");
    assert_eq!(r, expected);
}

#[test]
fn summary_text_warns_of_unknown_buckets() {
    let mut names = StrMap::new();
    names.insert("旅行".to_string(), ());
    let w = WarningStats { unknown_bucket_amount: dec(300), unknown_bucket_names: names };
    let r = render_summary_report_text(
        &month_range("2026-06", ReportScope::Month),
        "CNY",
        &one_bucket(),
        &w,
        None,
        false,
    );
    assert!(r.ends_with("警告: unknown buckets amount = 300.00 CNY (buckets: 旅行)\n"));
}

#[test]
fn summary_hides_children_of_listed_parents_unless_expanded() {
    let mut s = StrMap::new();
    s.insert("生活费".to_string(), summary(4000, 0));
    s.insert("生活费.交通".to_string(), summary(1500, 0));
    let range = month_range("2026-06", ReportScope::Month);
    let folded = render_summary_report_text(&range, "CNY", &s, &no_warnings(), None, false);
    assert!(!folded.contains("生活费.交通"));
    let expanded = render_summary_report_text(&range, "CNY", &s, &no_warnings(), None, true);
    assert!(expanded.contains("生活费.交通"));
}

#[test]
fn summary_skips_tracking_buckets_and_marks_overspending() {
    let mut s = StrMap::new();
    s.insert("旅游".to_string(), summary(0, 300));
    s.insert("数码".to_string(), summary(100, 150));
    let r = render_summary_report_text(
        &month_range("2026-06", ReportScope::Month),
        "CNY",
        &s,
        &no_warnings(),
        None,
        false,
    );
    assert!(!r.contains("旅游"));
    assert!(r.contains(&row("数码", "100.00", "150.00", "150.0%", "-50.00", "超支")));
}

#[test]
fn summary_sorts_by_amount_largest_first() {
    let mut s = StrMap::new();
    s.insert("A".to_string(), summary(100, 0));
    s.insert("B".to_string(), summary(300, 0));
    let r = render_summary_report_text(
        &month_range("2026-06", ReportScope::Month),
        "CNY",
        &s,
        &no_warnings(),
        Some("planned"),
        false,
    );
    let a = r.find("\nA ").expect("A");
    let b = r.find("\nB ").expect("B");
    assert!(b < a);
}

#[test]
fn summary_sorts_by_remain_smallest_first() {
    let mut s = StrMap::new();
    s.insert("A".to_string(), summary(100, 150));
    s.insert("B".to_string(), summary(300, 0));
    s.insert("C".to_string(), summary(50, 20));
    let r = render_summary_report_text(
        &month_range("2026-06", ReportScope::Month),
        "CNY",
        &s,
        &no_warnings(),
        Some("remain"),
        false,
    );
    let a = r.find("\nA ").expect("A");
    let b = r.find("\nB ").expect("B");
    let c = r.find("\nC ").expect("C");
    assert!(a < c && c < b);
}

#[test]
fn summary_markdown_has_table_and_bold_totals() {
    let r = render_summary_markdown(
        &month_range("2026-06", ReportScope::Month),
        "CNY",
        &one_bucket(),
        &no_warnings(),
        None,
        false,
    );
    let expected = "# 预算汇总报告\n\n- 统计区间: `2026-06 (month)`\n- 币种: `CNY`\n\n\
| 预算桶 | 月预算 | 已支出 | 使用率 | 结余 | 状态 |\n|---:|---:|---:|---:|---:|---|\n\
| 数码 | 4000.00 | 1000.00 |  25.0% | 3000.00 | 正常 |\n\
| **合计** | **4000.00** | **1000.00** | ** 25.0%** | **3000.00** | **正常** |\n";
    assert_eq!(r, expected);
}

#[test]
fn summary_csv_marks_overspent_buckets() {
    let mut s = one_bucket();
    s.insert("旅行".to_string(), summary(100, 150));
    let r = render_summary_csv(&s);
    assert_eq!(
        r,
        "bucket,planned,actual,remain,status\n数码,4000.00,1000.00,3000.00,OK\n旅行,100.00,150.00,-50.00,OVER\n"
    );
}

#[test]
fn summary_json_lists_buckets() {
    let r = render_summary_json(&one_bucket(), &month_range("2026-06", ReportScope::Month), "CNY");
    let expected = "{\n  \"range\": \"2026-06 (month)\",\n  \"currency\": \"CNY\",\n  \"buckets\": [\n    \
{\"name\":\"数码\",\"planned\":4000,\"actual\":1000,\"remain\":3000,\"status\":\"正常\"}\n  ]\n}\n";
    assert_eq!(r, expected);
}

#[test]
fn pivot_csv_has_a_row_per_month_and_a_column_per_bucket() {
    let flows = vec![
        flow((2026, 5, 3), "A", BucketKind::Expense, -100),
        flow((2026, 6, 1), "B", BucketKind::Expense, -30),
        flow((2026, 6, 9), "A", BucketKind::Expense, -20),
        flow((2026, 7, 9), "C", BucketKind::Expense, -20),
    ];
    let range = DateRange::Range { from: "2026-05".to_string(), to: "2026-06".to_string() };
    let r = render_pivot_csv(&flows, &range);
    assert_eq!(r, "月份,A,B\n2026-05,100.00,0.00\n2026-06,20.00,30.00\n");
}

#[test]
fn percentage_is_rounded_to_one_digit() {
    assert_eq!(fmt_pct(dec(1000), dec(4000)), " 25.0%");
    assert_eq!(fmt_pct(dec(1), dec(3)), " 33.3%");
    assert_eq!(fmt_pct(dec(5), Amount::zero()), "  --");
}

#[test]
fn compare_report_pairs_the_two_periods() {
    let mut cur = StrMap::new();
    cur.insert("A".to_string(), summary(100, 20));
    cur.insert("A.x".to_string(), summary(10, 0));
    let mut other = StrMap::new();
    other.insert("B".to_string(), summary(50, 5));
    let r = render_compare_report_text(
        &month_range("2026-06", ReportScope::Month),
        &cur,
        &no_warnings(),
        &month_range("2026-05", ReportScope::Month),
        &other,
        &no_warnings(),
        "CNY",
        None,
    );
    let line = |a: &str, b: &str, c: &str, d: &str, e: &str, f: &str, g: &str, h: &str| {
        format!(
            "{:<16} {:>10} {:>10} {:>10} | {:>10} {:>10} {:>10} | {:>10}\n",
            a, b, c, d, e, f, g, h
        )
    };
    let expected = String::from("预算对比报告\n本期: 2026-06 (month)  对比: 2026-05 (month)  [CNY]\n")
        + &line("预算桶", "月预算", "已支出", "结余", "月预算", "已支出", "结余", "差异")
        + &"-".repeat(87)
        + "\n"
        + &line("A", "100.00", "20.00", "80.00", "0.00", "0.00", "0.00", "20.00")
        + &line("B", "0.00", "0.00", "0.00", "50.00", "5.00", "45.00", "-5.00");
    assert_eq!(r, expected);

    let by_remain = render_compare_report_text(
        &month_range("2026-06", ReportScope::Month),
        &cur,
        &no_warnings(),
        &month_range("2026-05", ReportScope::Month),
        &other,
        &no_warnings(),
        "CNY",
        Some("remain"),
    );
    assert!(by_remain.find("\nB ").expect("B") < by_remain.find("\nA ").expect("A"));
    assert!(compare_inputs_ok(&cur, &other));
}

#[test]
fn monthly_view_lists_each_month_in_scope() {
    let dirs = vec![directive("2026-05", None, "X", 300), directive("2026-06", None, "X", 200)];
    let flows = vec![flow((2026, 6, 2), "X", BucketKind::Expense, -50)];
    let mut out = String::new();
    append_bucket_monthly_view(
        &mut out,
        "X",
        BucketKind::Expense,
        "2026-06",
        ReportScope::Cumulative,
        "CNY",
        &dirs,
        &flows,
    );
    assert_eq!(
        out,
        "\nX 分月视图:\n2026-05：预算收入 300.00 CNY，支出 0.00 CNY，结余 300.00 CNY\n\
2026-06：预算收入 200.00 CNY，支出 50.00 CNY，结余 150.00 CNY\n"
    );

    let mut asset = String::new();
    append_bucket_monthly_view(
        &mut asset,
        "S",
        BucketKind::Asset,
        "2026-06",
        ReportScope::Month,
        "CNY",
        &vec![directive("2026-06", None, "S", 500)],
        &vec![flow((2026, 6, 2), "S", BucketKind::Asset, 400)],
    );
    assert_eq!(
        asset,
        "\nS 分月视图:\n2026-06：预算存入目标 500.00 CNY，实际存入 400.00 CNY，差额 100.00 CNY\n"
    );
}

#[test]
fn detail_view_closes_each_year_with_a_summary() {
    let dirs = vec![directive("2025-12", None, "X", 100), directive("2026-01", Some("绩效"), "X.y", 50)];
    let mut f = flow((2026, 1, 5), "X.y", BucketKind::Expense, -30);
    f.payee = Some("店".to_string());
    let flows = vec![f];
    let mut out = String::new();
    append_bucket_detail_view(
        &mut out,
        "CNY",
        "X",
        BucketKind::Expense,
        "2026-06",
        &dirs,
        &flows,
        &flows,
        false,
        dec(120),
        ReportScope::Month,
    );
    let expected = "\n历史明细:\n2025-12：预算收入 100.00 CNY\n\
\n========== 2025 年小结 ==========\n预算收入 本年合计: 100.00 CNY\n预算收入 累计合计: 100.00 CNY\n\
支出 本年合计: 0.00 CNY\n支出 累计合计: 0.00 CNY\n==============================\n\n\
2026-01 绩效：预算收入 [y] 50.00 CNY\n2026-01-05：\"店\" [y] 支出 -30.00 CNY\n\
\n========== 2026 年小结 ==========\n预算收入 本年合计: 50.00 CNY\n预算收入 累计合计: 150.00 CNY\n\
支出 本年合计: 30.00 CNY\n支出 累计合计: 30.00 CNY\n==============================\n\n";
    assert_eq!(out, expected);
}

fn locations() -> StrMap<Amount> {
    let mut m = StrMap::new();
    m.insert("Assets:Bank:ICBC".to_string(), dec(70));
    m.insert("Assets:Cash".to_string(), dec(-20));
    m
}

#[test]
fn asset_locations_show_holdings_sources_and_spending() {
    let mut out = String::new();
    append_asset_locations_view(&mut out, "2026-06", "CNY", &locations(), dec(50));
    assert_eq!(
        out,
        "\n资金存放（截至 2026-06）:\nBank:ICBC: 70.00 CNY\n\
\n支出来源（截至 2026-06）:\nAssets:Cash: -20.00 CNY\n\
\n已支出（截至 2026-06）: -50.00 CNY ← 资金存放与支出来源的差额\n"
    );

    let mut overspent = String::new();
    append_asset_locations_view(&mut overspent, "2026-06", "CNY", &locations(), dec(-5));
    assert!(!overspent.contains("资金存放（"));

    let mut none = String::new();
    append_asset_locations_view(&mut none, "2026-06", "CNY", &StrMap::new(), dec(0));
    assert_eq!(none, "");
}

#[test]
fn asset_locations_markdown_lists_accounts() {
    let r = render_asset_locations_markdown("储蓄", "2026-06", "CNY", &locations());
    assert_eq!(
        r,
        "# 资产位置报告：储蓄\n\n- 截至月份: `2026-06`\n- 币种: `CNY`\n\n| 账户 | 金额 |\n|---|---:|\n\
| Bank:ICBC | 70.00 |\n| Assets:Cash | -20.00 |\n"
    );
    let empty = render_asset_locations_markdown("储蓄", "2026-06", "CNY", &StrMap::new());
    assert!(empty.ends_with("| (无资产位置数据) | 0.00 |\n"));
}

#[test]
fn collected_locations_sum_the_moves_of_the_bucket() {
    let mut a = flow((2026, 5, 1), "储蓄", BucketKind::Asset, 100);
    a.location_deltas.insert("Assets:Bank:ICBC".to_string(), dec(100));
    a.location_deltas.insert("Assets:Cash".to_string(), dec(-100));
    let mut b = flow((2026, 6, 1), "储蓄.应急", BucketKind::Asset, 30);
    b.location_deltas.insert("Assets:Cash".to_string(), dec(100));
    let mut later = flow((2026, 7, 1), "储蓄", BucketKind::Asset, 1);
    later.location_deltas.insert("Assets:Cash".to_string(), dec(1));
    let locs = collect_asset_locations("储蓄", "2026-06", &vec![a, b, later]);
    assert!(same_value(*locs.get("Assets:Bank:ICBC").expect("bank"), dec(100)));
    assert!(locs.get("Assets:Cash").is_none());
}

fn config(view: BucketView) -> ReportConfig {
    ReportConfig {
        scope: ReportScope::Month,
        month: "2026-06".into(),
        filter: None,
        hide_asset_flows: false,
        bucket_view: view,
        show_locations: false,
        sort_by: None,
        csv_pivot: false,
        bucket: None,
        strict: false,
        expand: false,
        out_json: false,
    }
}

#[test]
fn bucket_report_text_heads_with_the_totals() {
    let dirs = vec![directive("2026-06", None, "X", 200)];
    let flows = vec![flow((2026, 6, 2), "X", BucketKind::Expense, -50)];
    let cfg = config(BucketView::Summary);
    let data = build_scoped_bucket_data(&cfg, "X", &BudgetMappings::new(), &dirs, &flows);
    let r = render_bucket_report_text(
        &data,
        &cfg,
        "CNY",
        BucketView::Summary,
        false,
        &flows,
        &month_range("2026-06", ReportScope::Month),
    );
    assert_eq!(
        r,
        "预算桶: X\n类型: expense\n统计区间: 2026-06 (month)\n月预算: 200.00 CNY\n已支出: 50.00 CNY\n\
结余:   150.00 CNY\n状态: 正常\n"
    );
    let md = render_bucket_markdown(&data, &cfg, "CNY", &flows, &month_range("2026-06", ReportScope::Month));
    assert!(md.starts_with("# 预算桶报告：X\n\n- 类型: `expense`\n"));
    assert!(md.contains("\nX 分月视图:\n"));
    assert!(md.contains("\n历史明细:\n"));
}

#[test]
fn compare_range_follows_the_report_range() {
    match compare_range(&month_range("2026-06", ReportScope::Cumulative), "2026-05") {
        Ok(DateRange::Month { target, scope }) => {
            assert_eq!(target, "2026-05");
            assert_eq!(scope, ReportScope::Cumulative);
        },
        _ => panic!("month expected"),
    }
    let range = DateRange::Range { from: "2025-01".to_string(), to: "2025-06".to_string() };
    match compare_range(&range, "2026-05") {
        Ok(DateRange::Range { from, to }) => {
            assert_eq!(from, "2026-01");
            assert_eq!(to, "2026-05");
        },
        _ => panic!("range expected"),
    }
    assert!(matches!(compare_range(&range, "2026-13"), Err(MonthError::NoSuchMonth)));
    assert!(matches!(compare_range(&range, "June"), Err(MonthError::Format)));
}

#[test]
fn strict_mode_fails_on_unknown_amounts() {
    let mut names = StrMap::new();
    names.insert("旅行".to_string(), ());
    let w = WarningStats { unknown_bucket_amount: dec(300), unknown_bucket_names: names };
    assert_eq!(
        strict_failure(true, &w, "CNY"),
        Some("Strict mode failed: unknown budget buckets amount = 300.00 CNY".to_string())
    );
    assert_eq!(strict_failure(false, &w, "CNY"), None);
    assert_eq!(strict_failure(true, &no_warnings(), "CNY"), None);
}

#[test]
fn export_file_names_carry_the_range_label() {
    let m = month_range("2026-06", ReportScope::Month);
    assert_eq!(export_file_name(ExportFile::SummaryMarkdown, "", &m), "summary-2026-06-month.md");
    assert_eq!(export_file_name(ExportFile::BucketsCsv, "", &m), "buckets-2026-06-month.csv");
    let r = DateRange::Range { from: "2026-01".to_string(), to: "2026-03".to_string() };
    assert_eq!(export_file_name(ExportFile::Bucket, "生活/费", &r), "bucket-生活_费-2026-01_2026-03.md");
    assert_eq!(
        export_file_name(ExportFile::AssetLocations, "储蓄", &m),
        "asset-locations-储蓄-2026-06-month.md"
    );
}

#[test]
fn a_range_is_counted_cumulatively_up_to_its_end() {
    let r = DateRange::Range { from: "2026-01".to_string(), to: "2026-03".to_string() };
    assert_eq!(
        report_month(Some("2026-06"), ReportScope::Month, &r),
        ("2026-03".to_string(), ReportScope::Cumulative)
    );
    assert_eq!(
        report_month(None, ReportScope::Month, &month_range("2026-06", ReportScope::Month)),
        ("?".to_string(), ReportScope::Month)
    );
}

#[test]
fn viewer_warning_names_the_unknown_buckets() {
    assert_eq!(viewer_warning_text(&no_warnings()), "");
    let mut names = StrMap::new();
    names.insert("X".to_string(), ());
    names.insert("Y".to_string(), ());
    let w = WarningStats { unknown_bucket_amount: Amount::new(1250, 2), unknown_bucket_names: names };
    assert_eq!(viewer_warning_text(&w), "\n警告: unknown buckets amount = 12.50 CNY (buckets: X, Y)");
}

#[test]
fn viewer_warning_cuts_extra_digits() {
    let mut names = StrMap::new();
    names.insert("Z".to_string(), ());
    let w = WarningStats { unknown_bucket_amount: Amount::new(12349, 3), unknown_bucket_names: names };
    assert_eq!(viewer_warning_text(&w), "\n警告: unknown buckets amount = 12.34 CNY (buckets: Z)");
}

#[test]
fn plain_and_percent_text_of_amounts() {
    assert_eq!(fmt_pct(Amount::new(1, 0), Amount::new(8, 0)), " 12.5%");
    assert_eq!(fmt_pct(Amount::new(-3, 0), Amount::new(2, 0)), "-150.0%");
    assert_eq!(fmt_pct(Amount::new(1234, 0), Amount::new(1, 0)), "123400.0%");
}

#[test]
fn two_decimal_text_of_amounts() {
    assert_eq!(fmt_decimal(Amount::new(7, 0)), "7.00");
    assert_eq!(fmt_decimal(Amount::new(1234, 2)), "12.34");
    assert_eq!(fmt_decimal(Amount::new(-5, 1)), "-0.50");
    assert_eq!(fmt_decimal(Amount::new(3, 2)), "0.03");
    assert_eq!(fmt_decimal(Amount::new(12345, 3)), "12.34");
}
