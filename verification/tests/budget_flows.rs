use beancount_budget_tool::amount::Amount;
use beancount_budget_tool::budget::{
    collect_bucket_tx_flows, summarize_buckets, totals_inputs_ok, try_collect_bucket_tx_flows,
    BucketTxFlow,
};
use beancount_budget_tool::cli::{BucketView, ReportConfig};
use beancount_budget_tool::config::{
    collect_known_buckets,
    parse_budget_key, resolve_bucket_by_account, BucketKind, BudgetDirective, BudgetMappings,
};
use beancount_budget_tool::ledger::{parse_ledger_content, parse_metadata_value};
use beancount_budget_tool::scoped::build_scoped_bucket_data;
use beancount_budget_tool::strmap::StrMap;
use beancount_budget_tool::template::{load_budget_directives, BudgetValue};
use beancount_budget_tool::util::{
    default_expense_bucket, is_month_in_scope, parent_bucket, ReportScope,
};

fn dec(n: i64) -> Amount {
    Amount::new(n, 0)
}

fn same(a: Amount, b: Amount) -> bool {
    a == b
}

fn mappings(
    defaults: &[(&str, &str)],
    default_bucket: &str,
    types: &[(&str, BucketKind)],
    assets: &[(&str, Vec<&str>)],
) -> BudgetMappings {
    let mut m = BudgetMappings::new();
    for (k, v) in defaults {
        m.defaults.insert(k.to_string(), v.to_string());
    }
    m.default_expense_bucket = default_bucket.to_string();
    for (k, v) in types {
        m.bucket_types.insert(k.to_string(), *v);
    }
    for (k, v) in assets {
        m.asset_bucket_accounts
            .insert(k.to_string(), v.iter().map(|s| s.to_string()).collect());
    }
    m
}

fn flows_of(ledger: &str, m: &BudgetMappings) -> Vec<BucketTxFlow> {
    let txs = parse_ledger_content(ledger).expect("ledger parse should succeed");
    collect_bucket_tx_flows(txs, m, "CNY", &collect_known_buckets(&vec![], m))
}

fn directive(month: &str, label: Option<&str>, key: &str, bucket: &str, amount: i64) -> BudgetDirective {
    BudgetDirective {
        month: month.to_string(),
        label: label.map(|s| s.to_string()),
        source_key: key.to_string(),
        bucket: bucket.to_string(),
        amount: dec(amount),
    }
}

#[test]
fn parses_budget_metadata_and_expense_posting() {
    let ledger = "2026-05-10 * \"iPad\"\n  budget: \"数码\"\n  Expenses:Consume:电子  4999 CNY\n  Liabilities:CreditCard  -4999 CNY\n";

    let txs = parse_ledger_content(ledger).expect("ledger parse should succeed");
    assert_eq!(txs.len(), 1);
    assert_eq!(txs[0].metadata.get("budget").map(String::as_str), Some("数码"));
    assert_eq!(txs[0].postings.len(), 2);
    assert_eq!(txs[0].postings[0].account, "Expenses:Consume:电子");
    assert!(same(txs[0].postings[0].amount.expect("amount"), dec(4999)));
    assert_eq!(txs[0].payee.as_deref(), Some("iPad"));
}

#[test]
fn metadata_parser_unquotes_values() {
    assert_eq!(parse_metadata_value("\"electronics\""), "electronics");
    assert_eq!(parse_metadata_value(" 'travel' "), "travel");
    assert_eq!(parse_metadata_value("unquoted"), "unquoted");
}

#[test]
fn longest_prefix_mapping_wins() {
    let m = mappings(
        &[("Expenses:Consume", "消费"), ("Expenses:Consume:电子", "数码")],
        &default_expense_bucket(),
        &[],
        &[],
    );
    let bucket = resolve_bucket_by_account(&m, "Expenses:Consume:电子:配件").expect("should match");
    assert_eq!(bucket, "数码");
}

#[test]
fn parses_budget_key_with_optional_label() {
    let (m1, l1) = parse_budget_key("2026-06").expect("valid");
    assert_eq!(m1, "2026-06");
    assert_eq!(l1, None);

    let (m2, l2) = parse_budget_key("2026-06 绩效").expect("valid");
    assert_eq!(m2, "2026-06");
    assert_eq!(l2.as_deref(), Some("绩效"));
}

#[test]
fn untagged_expense_falls_back_to_default_bucket() {
    let m = mappings(&[], "生活费", &[], &[]);
    let flows = flows_of(
        "2026-06-16 * \"中国工商银行\" \"网购\"\n  Expenses:Consume:人情礼物  40 CNY\n  Assets:Bank:ICBC  -40 CNY\n",
        &m,
    );
    assert_eq!(flows.len(), 1);
    assert_eq!(flows[0].bucket, "生活费");
    assert_eq!(flows[0].kind, BucketKind::Expense);
    assert!(same(flows[0].flow, dec(-40)));
}

#[test]
fn asset_bucket_transfer_is_counted_and_locatable() {
    let m = mappings(&[], "生活费", &[("储蓄", BucketKind::Asset)], &[]);
    let flows = flows_of(
        "2026-06-17 * \"中国工商银行\" \"储蓄\"\n  budget: \"储蓄\"\n  Assets:Bank:建设银行:卡号  40 CNY\n  Assets:Bank:工商银行:卡号  -40 CNY\n",
        &m,
    );
    assert_eq!(flows.len(), 1);
    assert_eq!(flows[0].bucket, "储蓄");
    assert_eq!(flows[0].kind, BucketKind::Asset);
    assert!(same(flows[0].flow, dec(40)));
    assert!(same(
        *flows[0].location_deltas.get("Assets:Bank:建设银行:卡号").expect("delta"),
        dec(40)
    ));
}

#[test]
fn summarize_supports_month_and_cumulative_scope() {
    let directives = vec![
        directive("2026-05", None, "2026-05", "旅行", 3000),
        directive("2026-06", None, "2026-06", "旅行", 2000),
        directive("2026-06", Some("绩效"), "2026-06 绩效", "旅行", 2000),
    ];
    let m = mappings(&[], "生活费", &[], &[]);
    let flows = flows_of(
        "2026-05-16 * \"工行\" \"旅行费用\"\n  budget: \"旅行\"\n  Expenses:Consume:机酒旅行  1000 CNY\n  Assets:Bank:ICBC  -1000 CNY\n",
        &m,
    );

    let month_summary = summarize_buckets(&directives, &flows, "2026-06", ReportScope::Month, &m);
    let t = month_summary.get("旅行").expect("旅行");
    assert!(same(t.planned, dec(4000)));
    assert!(same(t.actual, dec(0)));

    let cum_summary = summarize_buckets(&directives, &flows, "2026-06", ReportScope::Cumulative, &m);
    let t = cum_summary.get("旅行").expect("旅行");
    assert!(same(t.planned, dec(7000)));
    assert!(same(t.actual, dec(1000)));
}

#[test]
fn month_scope_filter_works() {
    assert!(is_month_in_scope("2026-06", "2026-06", ReportScope::Month));
    assert!(!is_month_in_scope("2026-05", "2026-06", ReportScope::Month));
    assert!(is_month_in_scope("2026-05", "2026-06", ReportScope::Cumulative));
}

#[test]
fn multi_bucket_metadata_splits_into_multiple_flows() {
    let m = mappings(
        &[],
        "生活费",
        &[("储蓄", BucketKind::Asset), ("投资", BucketKind::Asset)],
        &[
            ("储蓄", vec!["Assets:Invest:货币基金"]),
            ("投资", vec!["Assets:Invest:货币基金"]),
        ],
    );
    let flows = flows_of(
        "2026-06-20 * \"应急\" \"赎回货币基金\"\n  budget: \"储蓄, 投资\"\n  Assets:Bank:工商银行  5000 CNY\n  Assets:Invest:货币基金  -5000 CNY\n",
        &m,
    );
    assert_eq!(flows.len(), 2);

    let savings = flows.iter().find(|f| f.bucket == "储蓄").expect("储蓄 flow");
    let invest = flows.iter().find(|f| f.bucket == "投资").expect("投资 flow");

    assert_eq!(savings.kind, BucketKind::Asset);
    assert!(same(savings.flow, dec(-5000)));
    assert!(same(
        *savings.location_deltas.get("Assets:Invest:货币基金").expect("delta"),
        dec(-5000)
    ));

    assert_eq!(invest.kind, BucketKind::Asset);
    assert!(same(invest.flow, dec(-5000)));
    assert!(same(
        *invest.location_deltas.get("Assets:Invest:货币基金").expect("delta"),
        dec(-5000)
    ));
}

#[test]
fn parent_bucket_extracts_parent_name() {
    assert_eq!(parent_bucket("生活费.交通"), Some("生活费"));
    assert_eq!(parent_bucket("数码"), None);
    assert_eq!(parent_bucket("A.B.C"), Some("A.B"));
}

#[test]
fn nested_yaml_flattens_to_dotted_names() {
    // "2026-06": { 生活费: { 交通: 1500, 饮食: 2500 }, 数码: 5000 }
    let living = BudgetValue::Group(vec![
        ("交通".to_string(), BudgetValue::Amount(dec(1500))),
        ("饮食".to_string(), BudgetValue::Amount(dec(2500))),
    ]);
    let month = vec![
        ("数码".to_string(), BudgetValue::Amount(dec(5000))),
        ("生活费".to_string(), living),
    ];
    let mut raw: StrMap<Vec<(String, BudgetValue)>> = StrMap::new();
    raw.insert("2026-06".to_string(), month);

    let directives = load_budget_directives(&raw);
    let buckets: Vec<String> = directives.iter().map(|d| d.bucket.clone()).collect();
    assert!(buckets.contains(&"生活费.交通".to_string()));
    assert!(buckets.contains(&"生活费.饮食".to_string()));
    assert!(buckets.contains(&"数码".to_string()));
    assert!(!buckets.contains(&"生活费".to_string()));
}

#[test]
fn summarize_hierarchy_aggregates_children_into_parent() {
    let directives = vec![
        directive("2026-06", None, "2026-06", "生活费.交通", 1500),
        directive("2026-06", None, "2026-06", "生活费.饮食", 2500),
    ];
    let flows: Vec<BucketTxFlow> = vec![];
    let m = mappings(&[], "生活费", &[], &[]);
    let summaries = summarize_buckets(&directives, &flows, "2026-06", ReportScope::Month, &m);

    assert!(same(summaries.get("生活费.交通").expect("交通").planned, dec(1500)));
    assert!(same(summaries.get("生活费.饮食").expect("饮食").planned, dec(2500)));
    assert!(same(summaries.get("生活费").expect("生活费").planned, dec(4000)));
}

fn month_config() -> ReportConfig {
    ReportConfig {
        scope: ReportScope::Month,
        month: "2026-06".into(),
        filter: None,
        hide_asset_flows: false,
        bucket_view: BucketView::Summary,
        show_locations: false,
        sort_by: None,
        csv_pivot: false,
        bucket: None,
        strict: false,
        expand: false,
        out_json: false,
    }
}

#[test]
fn scoped_bucket_data_includes_children_for_parent() {
    let config = month_config();
    let directives = vec![
        directive("2026-06", None, "2026-06", "生活费.交通", 1500),
        directive("2026-06", None, "2026-06", "生活费.饮食", 2500),
    ];
    let m = mappings(&[], "生活费", &[], &[]);
    let flows: Vec<BucketTxFlow> = vec![];

    let data = build_scoped_bucket_data(&config, "生活费", &m, &directives, &flows);
    assert!(same(data.planned, dec(4000)));
    assert_eq!(data.directives.len(), 2);

    let data = build_scoped_bucket_data(&config, "生活费.交通", &m, &directives, &flows);
    assert!(same(data.planned, dec(1500)));
    assert_eq!(data.directives.len(), 1);
}

#[test]
fn tracking_bucket_is_not_rolled_into_its_parent() {
    let mut m = mappings(&[], "生活费", &[], &[]);
    m.tracking_buckets.push("基金.旅游".to_string());
    let directives = vec![directive("2026-06", None, "2026-06", "基金.储备", 1000)];
    let ledger = "2026-06-10 * \"旅行\"\n  budget: \"基金.旅游\"\n  Expenses:Travel  300 CNY\n  Assets:Bank:工行  -300 CNY\n";
    let flows = flows_of(ledger, &m);
    let s = summarize_buckets(&directives, &flows, "2026-06", ReportScope::Month, &m);
    let parent = s.get("基金").expect("parent");
    assert!(same(parent.planned, dec(1000)));
    assert!(same(parent.actual, dec(0)));
    let travel = s.get("基金.旅游").expect("travel");
    assert!(same(travel.actual, dec(300)));
}

#[test]
fn short_tag_names_complete_to_the_unique_known_bucket() {
    let m = mappings(&[], "生活费", &[("投资.额外储蓄", BucketKind::Expense)], &[]);
    let ledger = "2026-06-18 * \"工行\" \"加投\"\n  budget: \"额外储蓄13847\"\n  Expenses:Consume:杂项  13847 CNY\n  Assets:Bank:工行  -13847 CNY\n";
    let flows = flows_of(ledger, &m);
    assert_eq!(flows.len(), 1);
    assert_eq!(flows[0].bucket, "投资.额外储蓄");
    assert!(same(flows[0].flow, dec(-13847)));
}

#[test]
fn total_price_converts_a_foreign_currency_leg() {
    let m = mappings(&[], "生活费", &[], &[]);
    let ledger = "2026-07-16 * \"Hotel\" \"日本旅行住宿\"\n  budget: \"宁波日本之旅\"\n  Expenses:Travel  158.12 USD @@ 1070.16 CNY\n  Liabilities:CreditCard  -158.12 USD @@ 1070.16 CNY\n";
    let txs = parse_ledger_content(ledger).expect("ledger parse should succeed");
    let price = txs[0].postings[0].total_price.as_ref().expect("price");
    assert!(same(price.0, Amount::new(107016, 2)));
    assert_eq!(price.1, "CNY");
    let flows = flows_of(ledger, &m);
    assert_eq!(flows.len(), 1);
    assert_eq!(flows[0].bucket, "宁波日本之旅");
    assert_eq!(flows[0].kind, BucketKind::Expense);
    assert!(same(flows[0].flow, Amount::new(-107016, 2)));
}

#[test]
fn seven_decimal_places_are_accepted() {
    let m = mappings(&[], "生活费", &[], &[]);
    let ledger = "2026-06-01 * \"店\"\n  budget: \"数码\"\n  Expenses:Consume:电子  1.1234567 CNY\n  Assets:Bank:工行  -1.1234567 CNY\n";
    let txs = parse_ledger_content(ledger).expect("ledger parse should succeed");
    let flows = try_collect_bucket_tx_flows(txs, &m, "CNY", &collect_known_buckets(&vec![], &m))
        .expect("in range");
    assert_eq!(flows.len(), 1);
    assert!(same(flows[0].flow, Amount::new(-11234567, 7)));
}

#[test]
fn totals_check_accepts_ordinary_inputs_and_refuses_odd_months() {
    let m = mappings(&[], "生活费", &[], &[]);
    let directives = vec![directive("2026-06", None, "2026-06", "数码", 1000)];
    let ledger = "2026-06-10 * \"店\"\n  budget: \"数码\"\n  Expenses:Consume:电子  300 CNY\n  Assets:Bank:工行  -300 CNY\n";
    let flows = flows_of(ledger, &m);
    assert!(totals_inputs_ok(&directives, &flows, "2026-06", ReportScope::Cumulative));
    assert!(totals_inputs_ok(&directives, &flows, "2026-06", ReportScope::Month));
    assert!(!totals_inputs_ok(&directives, &flows, "六月", ReportScope::Cumulative));
}

#[test]
fn fifteen_decimal_places_are_accepted_and_overflowing_caps_refused() {
    let m = mappings(&[], "生活费", &[], &[]);
    let fine = "2026-06-01 * \"店\"\n  budget: \"数码\"\n  Expenses:Consume:电子  1.123456789012345 CNY\n  Assets:Bank:工行  -1.123456789012345 CNY\n";
    let txs = parse_ledger_content(fine).expect("ledger parse should succeed");
    let flows = try_collect_bucket_tx_flows(txs, &m, "CNY", &collect_known_buckets(&vec![], &m))
        .expect("in range");
    assert_eq!(flows.len(), 1);
    let huge = "2026-06-01 * \"店\"\n  budget: \"数码1\"\n  Expenses:Consume:电子  79228162514264337593543950335 CNY\n  Assets:Bank:工行  -1 CNY\n";
    let txs = parse_ledger_content(huge).expect("ledger parse should succeed");
    assert!(try_collect_bucket_tx_flows(txs, &m, "CNY", &collect_known_buckets(&vec![], &m)).is_none());
}
