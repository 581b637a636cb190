use beancount_budget_tool::amount::Amount;
use beancount_budget_tool::budget::parse_bucket_amount;
use beancount_budget_tool::cli::{resolve_date_range, BucketView, Cli, DateRange, DateRangeError};
use beancount_budget_tool::config::{parse_budget_key, BudgetKeyError};
use beancount_budget_tool::ledger::{
    parse_ledger_content, parse_tx_title, unescape_quoted_text, LedgerError,
};
use beancount_budget_tool::strmap::StrMap;
use beancount_budget_tool::template::{
    load_budget_directives, merge_bucket_maps, resolve_template, BudgetValue,
};
use beancount_budget_tool::tui::{KeyInput, TuiAction, TuiState};
use beancount_budget_tool::util::{
    display_width, is_target_currency, pad_display, validate_month, LedgerDate, MonthError,
    ReportScope,
};

fn same_value(a: Amount, b: Amount) -> bool {
    a == b
}

fn dec(n: i64) -> Amount {
    Amount::new(n, 0)
}

fn amount(v: i64) -> BudgetValue {
    BudgetValue::Amount(dec(v))
}

fn entry(k: &str, v: BudgetValue) -> (String, BudgetValue) {
    (k.to_string(), v)
}

fn amount_of(es: &Vec<(String, BudgetValue)>, k: &str) -> Option<Amount> {
    es.iter().find(|e| e.0 == k).and_then(|e| match &e.1 {
        BudgetValue::Amount(a) => Some(*a),
        _ => None,
    })
}

fn budget_file() -> StrMap<Vec<(String, BudgetValue)>> {
    let mut raw = StrMap::new();
    raw.insert(
        "default_monthly".to_string(),
        vec![
            entry("储蓄", amount(700)),
            entry("数码", amount(3000)),
            entry("生活费", BudgetValue::Group(vec![entry("交通", amount(300)), entry("饮食", amount(2000))])),
        ],
    );
    raw.insert("2026-06".to_string(), vec![entry("数码", amount(5000))]);
    raw.insert("2026-06 绩效".to_string(), vec![entry("数码", amount(2000))]);
    raw.insert(
        "2026-07-01 template".to_string(),
        vec![entry("储蓄", amount(1200)), entry("生活费", amount(3000))],
    );
    raw.insert("2026-07".to_string(), vec![entry("数码", amount(0))]);
    raw
}

#[test]
fn month_keys_inherit_the_template_and_override_what_they_write() {
    let dirs = load_budget_directives(&budget_file());
    let find = |month: &str, key: &str, bucket: &str| {
        dirs.iter()
            .find(|d| d.month == month && d.source_key == key && d.bucket == bucket)
            .map(|d| d.amount)
    };
    // Overridden.
    assert!(same_value(find("2026-06", "2026-06", "数码").expect("数码"), dec(5000)));
    // Inherited from default_monthly.
    assert!(same_value(find("2026-06", "2026-06", "生活费.饮食").expect("饮食"), dec(2000)));
    assert!(same_value(find("2026-06", "2026-06", "储蓄").expect("储蓄"), dec(700)));
    // The labelled key stacks its own amount.
    assert!(same_value(find("2026-06", "2026-06 绩效", "数码").expect("绩效"), dec(2000)));
    // ... and nothing of the template.
    assert!(find("2026-06", "2026-06 绩效", "储蓄").is_none());
    // From July the dated template is in force: a leaf replaces the group.
    assert!(same_value(find("2026-07", "2026-07", "储蓄").expect("储蓄"), dec(1200)));
    assert!(same_value(find("2026-07", "2026-07", "生活费").expect("生活费"), dec(3000)));
    assert!(find("2026-07", "2026-07", "生活费.饮食").is_none());
    // Writing 0 overrides the template, it does not add.
    assert!(same_value(find("2026-07", "2026-07", "数码").expect("数码"), dec(0)));
    // Templates themselves give no directives; sorted by month, key, bucket.
    assert_eq!(dirs.len(), 8);
    assert!(dirs.iter().all(|d| !d.source_key.contains("template")));
    for w in dirs.windows(2) {
        assert!((&w[0].month, &w[0].source_key, &w[0].bucket) <= (&w[1].month, &w[1].source_key, &w[1].bucket));
    }
}

#[test]
fn merging_keeps_base_entries_and_merges_groups() {
    let base = vec![
        entry("A", amount(1)),
        entry("G", BudgetValue::Group(vec![entry("x", amount(2)), entry("y", amount(3))])),
    ];
    let over = vec![
        entry("B", BudgetValue::Null),
        entry("G", BudgetValue::Group(vec![entry("y", amount(30))])),
    ];
    let merged = merge_bucket_maps(&base, &over);
    let names: Vec<&str> = merged.iter().map(|e| e.0.as_str()).collect();
    assert_eq!(names, vec!["A", "B", "G"]);
    assert!(same_value(amount_of(&merged, "A").expect("A"), dec(1)));
    assert!(matches!(merged[1].1, BudgetValue::Null));
    match &merged[2].1 {
        BudgetValue::Group(g) => {
            assert!(same_value(amount_of(g, "x").expect("x"), dec(2)));
            assert!(same_value(amount_of(g, "y").expect("y"), dec(30)));
        },
        _ => panic!("group expected"),
    }
}

#[test]
fn only_templates_up_to_the_month_apply() {
    let mut templates: StrMap<Vec<(String, BudgetValue)>> = StrMap::new();
    templates.insert("2026-03".to_string(), vec![entry("A", amount(30))]);
    templates.insert("2026-08".to_string(), vec![entry("A", amount(80))]);
    let default = Some(vec![entry("A", amount(1)), entry("B", amount(2))]);
    let before = resolve_template(&templates, &default, "2026-02");
    assert!(same_value(amount_of(&before, "A").expect("A"), dec(1)));
    let mid = resolve_template(&templates, &default, "2026-06");
    assert!(same_value(amount_of(&mid, "A").expect("A"), dec(30)));
    assert!(same_value(amount_of(&mid, "B").expect("B"), dec(2)));
    let late = resolve_template(&templates, &None, "2026-09");
    assert!(same_value(amount_of(&late, "A").expect("A"), dec(80)));
    assert!(amount_of(&late, "B").is_none());
}

#[test]
fn budget_keys_accept_dates_and_labels() {
    let (m, l) = parse_budget_key("2026.1.4 绩效").expect("valid");
    assert_eq!(m, "2026-01");
    assert_eq!(l.as_deref(), Some("4日 绩效"));
    let (m, l) = parse_budget_key("2026/01/03").expect("valid");
    assert_eq!(m, "2026-01");
    assert_eq!(l.as_deref(), Some("3日"));
    assert!(matches!(parse_budget_key("June"), Err(BudgetKeyError::Shape)));
    assert!(matches!(parse_budget_key("2026-13"), Err(BudgetKeyError::NoSuchMonth)));
}

#[test]
fn month_validation_names_its_errors() {
    assert!(validate_month("2026-06").is_ok());
    assert_eq!(validate_month("2026-13"), Err(MonthError::NoSuchMonth));
    assert_eq!(validate_month("2026-06-01"), Err(MonthError::Format));
    assert_eq!(validate_month("June"), Err(MonthError::Format));
    assert_eq!(validate_month("2026-6"), Err(MonthError::Format));
    assert_eq!(validate_month("+2026-06"), Err(MonthError::Format));
    assert_eq!(validate_month("26-06"), Err(MonthError::Format));
}

#[test]
fn ledger_with_an_impossible_date_is_refused() {
    match parse_ledger_content("2026-02-30 * \"x\"\n  Expenses:Food  1 CNY\n") {
        Err(LedgerError::InvalidDate(d)) => assert_eq!(d, "2026-02-30"),
        _ => panic!("invalid date expected"),
    }
}

#[test]
fn titles_and_escapes() {
    assert_eq!(
        parse_tx_title("2026-06-01 * \"Shop \\\"A\\\"\" \"lunch\""),
        (Some("Shop \"A\"".to_string()), Some("lunch".to_string()))
    );
    assert_eq!(unescape_quoted_text("a\\\\b"), "a\\b");
}

#[test]
fn bucket_amounts_are_read_as_decimals() {
    let (name, amount) = parse_bucket_amount("旅行:12.5");
    assert_eq!(name, "旅行");
    assert!(same_value(amount.expect("amount"), Amount::new(125, 1)));
    assert!(Amount::parse("abc").is_none());
    assert!(same_value(Amount::parse("-3.25").expect("number"), Amount::new(-325, 2)));
}

#[test]
fn wide_characters_take_two_columns() {
    assert_eq!(display_width("数码"), 4);
    assert_eq!(display_width("ab"), 2);
    assert_eq!(pad_display("数码", 6, true), "数码  ");
    assert_eq!(pad_display("ab", 4, false), "  ab");
    assert_eq!(pad_display("数码电子", 5, true), "数码 ");
    assert_eq!(pad_display("abcdef", 3, false), "abc");
    assert_eq!(pad_display("ab", 2, true), "ab");
}

fn cli() -> Cli {
    Cli {
        ledgers: vec![],
        ledger_dirs: vec![],
        month: None,
        budgets: "budgets.yml".to_string(),
        config_file: "config.yml".to_string(),
        currency: "CNY".to_string(),
        scope: ReportScope::Month,
        bucket: None,
        bucket_view: BucketView::Summary,
        sort_by: None,
        expand: false,
        filter: None,
        show_locations: false,
        hide_asset_flows: false,
        compare: None,
        out_dir: None,
        csv_pivot: false,
        out_json: false,
        strict: false,
        from: None,
        to: None,
        year: None,
    }
}

#[test]
fn date_ranges_come_from_year_range_or_month() {
    let mut c = cli();
    c.year = Some("2025".to_string());
    match resolve_date_range(&c) {
        Ok(DateRange::Range { from, to }) => {
            assert_eq!(from, "2025-01");
            assert_eq!(to, "2025-12");
        },
        _ => panic!("range expected"),
    }
    c.month = Some("2025-03".to_string());
    assert!(matches!(resolve_date_range(&c), Err(DateRangeError::YearWithOtherRange)));

    let mut c = cli();
    c.from = Some("2026-05".to_string());
    c.to = Some("2026-02".to_string());
    assert!(matches!(resolve_date_range(&c), Err(DateRangeError::FromAfterTo)));
    c.to = None;
    assert!(matches!(resolve_date_range(&c), Err(DateRangeError::FromWithoutTo)));

    let c = cli();
    assert!(matches!(resolve_date_range(&c), Err(DateRangeError::NoRange)));

    let mut c = cli();
    c.month = Some("2026-13".to_string());
    assert!(matches!(resolve_date_range(&c), Err(DateRangeError::BadMonth(MonthError::NoSuchMonth))));
}

#[test]
fn viewer_keys_change_the_parameters() {
    let today = LedgerDate { year: 2026, month: 6, day: 15 };
    let mut s = TuiState::new(today);
    assert_eq!(s.month_str(), "2026-06");
    assert_eq!(s.handle_key(KeyInput::Char('s'), today), TuiAction::Nothing);
    assert_eq!(s.sort_by.as_deref(), Some("planned"));
    s.handle_key(KeyInput::Tab, today);
    assert_eq!(s.scope, ReportScope::Cumulative);
    s.handle_key(KeyInput::Left, today);
    assert_eq!(s.month_str(), "2026-05");
    assert_eq!((s.month.year, s.month.month, s.month.day), (2026, 5, 1));
    s.handle_key(KeyInput::Right, today);
    assert_eq!((s.month.year, s.month.month, s.month.day), (2026, 6, 1));
    s.handle_key(KeyInput::Right, today);
    assert_eq!((s.month.year, s.month.month, s.month.day), (2026, 6, 1));
    s.handle_key(KeyInput::Left, today);
    assert_eq!(s.handle_key(KeyInput::Char('r'), today), TuiAction::RunReport);
    s.handle_key(KeyInput::Char('q'), today);
    assert!(!s.running);
}

#[test]
fn target_currency_ignores_letter_case() {
    assert!(is_target_currency(None, "cny"));
    assert!(is_target_currency(Some("cny"), "CNY"));
    assert!(is_target_currency(Some("CNY"), "Cny"));
    assert!(!is_target_currency(Some("USD"), "CNY"));
}
