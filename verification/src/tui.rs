//! The interactive viewer's state and what each key does to it.
//!
//! Drawing, reading keys and running reports are left to the program; here
//! is the viewer's state machine: a key (and today's date) in, the new state
//! and the action to take out.
use vstd::prelude::*;

use crate::cli::{BucketView, Cli, ReportScope};
use crate::ledger::{chrono_parse_date, ymd_parse};
use crate::text::{push_str, str_chars, string_from_chars, slice_chars};
use crate::util::{
    chrono_date_exists, date_before, date_exists, date_lt, days_in_month, month_of_date,
    month_of_date_spec, zero_padded, LedgerDate,
};

verus! {

broadcast use vstd::string::group_string_axioms;

/// A key as the viewer reads it.
#[derive(Clone, Copy, Debug, PartialEq, Eq, Structural)]
pub enum KeyInput {
    Char(char),
    Enter,
    Esc,
    Backspace,
    Left,
    Right,
    Up,
    Down,
    Tab,
    PageUp,
    PageDown,
    Other,
}

/// What the program does after a key.
#[derive(Clone, Copy, Debug, PartialEq, Eq)]
pub enum TuiAction {
    Nothing,
    RunReport,
}

/// Which date the open date prompt sets.
#[derive(Clone, Copy, Debug, PartialEq, Eq)]
pub enum DatePicker {
    Month,
    From,
    To,
}

/// The viewer's parameters and input state.
pub struct TuiState {
    /// The month shown (a date; its day is 1 until moved by days).
    pub month: LedgerDate,
    pub scope: ReportScope,
    pub bucket: Option<String>,
    /// `name` | `planned` | `actual` | `remain`
    pub sort_by: Option<String>,
    pub expand: bool,
    pub filter: Option<String>,
    pub show_locations: bool,
    pub hide_asset_flows: bool,
    pub compare: Option<String>,
    pub out_dir: Option<String>,
    pub csv_pivot: bool,
    pub out_json: bool,
    pub strict: bool,
    pub bucket_view: BucketView,
    /// The keyword prompt is open.
    pub filter_editing: bool,
    /// The bucket prompt is open.
    pub bucket_picker: bool,
    /// The date prompt is open, for this date.
    pub date_picker: Option<DatePicker>,
    /// Text typed into the open prompt.
    pub filter_buf: String,
    /// A range of months instead of one month.
    pub range_mode: bool,
    /// In range mode, the start (else the end) is being moved.
    pub adjusting_from: bool,
    pub from_date: LedgerDate,
    pub to_date: LedgerDate,
    pub scroll: usize,
    pub running: bool,
}

/// The viewer's state as plain values.
pub struct TuiView {
    pub month: LedgerDate,
    pub scope: ReportScope,
    pub bucket: Option<Seq<char>>,
    pub sort_by: Option<Seq<char>>,
    pub expand: bool,
    pub filter: Option<Seq<char>>,
    pub show_locations: bool,
    pub hide_asset_flows: bool,
    pub compare: Option<Seq<char>>,
    pub out_dir: Option<Seq<char>>,
    pub csv_pivot: bool,
    pub out_json: bool,
    pub strict: bool,
    pub bucket_view: BucketView,
    pub filter_editing: bool,
    pub bucket_picker: bool,
    pub date_picker: Option<DatePicker>,
    pub filter_buf: Seq<char>,
    pub range_mode: bool,
    pub adjusting_from: bool,
    pub from_date: LedgerDate,
    pub to_date: LedgerDate,
    pub scroll: int,
    pub running: bool,
}

pub open spec fn opt_text(o: Option<String>) -> Option<Seq<char>> {
    match o {
        Some(s) => Some(s@),
        None => None,
    }
}

impl View for TuiState {
    type V = TuiView;

    open spec fn view(&self) -> TuiView {
        TuiView {
            month: self.month,
            scope: self.scope,
            bucket: opt_text(self.bucket),
            sort_by: opt_text(self.sort_by),
            expand: self.expand,
            filter: opt_text(self.filter),
            show_locations: self.show_locations,
            hide_asset_flows: self.hide_asset_flows,
            compare: opt_text(self.compare),
            out_dir: opt_text(self.out_dir),
            csv_pivot: self.csv_pivot,
            out_json: self.out_json,
            strict: self.strict,
            bucket_view: self.bucket_view,
            filter_editing: self.filter_editing,
            bucket_picker: self.bucket_picker,
            date_picker: self.date_picker,
            filter_buf: self.filter_buf@,
            range_mode: self.range_mode,
            adjusting_from: self.adjusting_from,
            from_date: self.from_date,
            to_date: self.to_date,
            scroll: self.scroll as int,
            running: self.running,
        }
    }
}

pub open spec fn valid_date(d: LedgerDate) -> bool {
    date_exists(d.year as int, d.month as int, d.day as int)
}

// ---------------------------------------------------------------------------
// Calendar steps (chrono)
// ---------------------------------------------------------------------------

/// The next calendar day, within chrono's range.
pub open spec fn next_day(d: LedgerDate) -> Option<LedgerDate> {
    if (d.day as int) < days_in_month(d.year as int, d.month as int) {
        Some(LedgerDate { day: (d.day + 1) as u32, ..d })
    } else if d.month < 12 {
        Some(LedgerDate { year: d.year, month: (d.month + 1) as u32, day: 1 })
    } else if d.year < 262142 {
        Some(LedgerDate { year: (d.year + 1) as i32, month: 1, day: 1 })
    } else {
        None
    }
}

/// The previous calendar day, within chrono's range.
pub open spec fn prev_day(d: LedgerDate) -> Option<LedgerDate> {
    if d.day > 1 {
        Some(LedgerDate { day: (d.day - 1) as u32, ..d })
    } else if d.month > 1 {
        Some(
            LedgerDate {
                year: d.year,
                month: (d.month - 1) as u32,
                day: days_in_month(d.year as int, d.month - 1) as u32,
            },
        )
    } else if d.year > -262143 {
        Some(LedgerDate { year: (d.year - 1) as i32, month: 12, day: 31 })
    } else {
        None
    }
}

/// The first day of the month before `d`'s, within chrono's range.
pub open spec fn prev_month_start(d: LedgerDate) -> Option<LedgerDate> {
    if d.month > 1 {
        Some(LedgerDate { year: d.year, month: (d.month - 1) as u32, day: 1 })
    } else if d.year > -262143 {
        Some(LedgerDate { year: (d.year - 1) as i32, month: 12, day: 1 })
    } else {
        None
    }
}

/// The first day of the month after `d`'s, within chrono's range.
pub open spec fn next_month_start(d: LedgerDate) -> Option<LedgerDate> {
    if d.month < 12 {
        Some(LedgerDate { year: d.year, month: (d.month + 1) as u32, day: 1 })
    } else if d.year < 262142 {
        Some(LedgerDate { year: (d.year + 1) as i32, month: 1, day: 1 })
    } else {
        None
    }
}

/// The first day of the previous month, or `d` itself at chrono's first year.
fn step_month_back(d: LedgerDate) -> (r: LedgerDate)
    requires
        valid_date(d),
    ensures
        r == or_same(prev_month_start(d), d),
        valid_date(r),
{
    if d.month > 1 {
        LedgerDate { year: d.year, month: d.month - 1, day: 1 }
    } else if d.year > -262143 {
        LedgerDate { year: d.year - 1, month: 12, day: 1 }
    } else {
        d
    }
}

/// The first day of the next month, or `d` itself at chrono's last year.
fn step_month_forward(d: LedgerDate) -> (r: LedgerDate)
    requires
        valid_date(d),
    ensures
        r == or_same(next_month_start(d), d),
        valid_date(r),
{
    if d.month < 12 {
        LedgerDate { year: d.year, month: d.month + 1, day: 1 }
    } else if d.year < 262142 {
        LedgerDate { year: d.year + 1, month: 1, day: 1 }
    } else {
        d
    }
}

/// `NaiveDate::succ_opt`: the next day, `None` past chrono's last date
/// (262142-12-31), as its documentation states.
#[verifier::external_body]
fn chrono_succ(d: LedgerDate) -> (r: Option<LedgerDate>)
    requires
        valid_date(d),
    ensures
        r == next_day(d),
{
    let nd = chrono::NaiveDate::from_ymd_opt(d.year, d.month, d.day).unwrap();
    match nd.succ_opt() {
        Some(n) => Some(
            LedgerDate {
                year: chrono::Datelike::year(&n),
                month: chrono::Datelike::month(&n),
                day: chrono::Datelike::day(&n),
            },
        ),
        None => None,
    }
}

/// `NaiveDate::pred_opt`: the previous day, `None` before chrono's first date
/// (-262143-01-01), as its documentation states.
#[verifier::external_body]
fn chrono_pred(d: LedgerDate) -> (r: Option<LedgerDate>)
    requires
        valid_date(d),
    ensures
        r == prev_day(d),
{
    let nd = chrono::NaiveDate::from_ymd_opt(d.year, d.month, d.day).unwrap();
    match nd.pred_opt() {
        Some(n) => Some(
            LedgerDate {
                year: chrono::Datelike::year(&n),
                month: chrono::Datelike::month(&n),
                day: chrono::Datelike::day(&n),
            },
        ),
        None => None,
    }
}

/// The first day of the month a prompt's text names: `text` followed by
/// `-01`, read as a `%Y-%m-%d` date.
pub open spec fn month_start_parse(text: Seq<char>) -> Option<(int, int, int)> {
    ymd_parse(text + "-01"@)
}

/// Reads the first day of the month a prompt's text names.
fn parse_month_start(text: &str) -> (r: Option<LedgerDate>)
    ensures
        r == to_date_opt(month_start_parse(text@)),
        r matches Some(d) ==> valid_date(d),
{
    let mut full = String::new();
    push_str(&mut full, text);
    push_str(&mut full, "-01");
    assert(full@ == text@ + "-01"@);
    let r = chrono_parse_date(full.as_str());
    proof {
        match r {
            Some(d) => {
                assert(to_date_opt(Some((d.year as int, d.month as int, d.day as int))) == Some(d));
            },
            None => {},
        }
    }
    r
}

pub open spec fn to_date_opt(o: Option<(int, int, int)>) -> Option<LedgerDate> {
    match o {
        Some(t) => Some(LedgerDate { year: t.0 as i32, month: t.1 as u32, day: t.2 as u32 }),
        None => None,
    }
}

// ---------------------------------------------------------------------------
// Keys
// ---------------------------------------------------------------------------

/// A prompt's text after a key: Backspace drops the last character, a
/// character is appended, anything else leaves it.
pub open spec fn edit_buf(buf: Seq<char>, key: KeyInput) -> Seq<char> {
    match key {
        KeyInput::Backspace => if buf.len() > 0 {
            buf.drop_last()
        } else {
            buf
        },
        KeyInput::Char(c) => buf.push(c),
        _ => buf,
    }
}

pub open spec fn nonempty_text(buf: Seq<char>) -> Option<Seq<char>> {
    if buf.len() == 0 {
        None
    } else {
        Some(buf)
    }
}

/// Opens the date prompt for the date being moved in range mode, filled with
/// its month.
pub open spec fn open_range_picker(s: TuiView) -> TuiView {
    if s.adjusting_from {
        TuiView {
            date_picker: Some(DatePicker::From),
            filter_buf: month_of_date_spec(s.from_date),
            ..s
        }
    } else {
        TuiView { date_picker: Some(DatePicker::To), filter_buf: month_of_date_spec(s.to_date), ..s }
    }
}

/// The order `s` walks through: name → planned → actual → remain → none.
pub open spec fn next_sort(o: Option<Seq<char>>) -> Option<Seq<char>> {
    match o {
        None => Some("planned"@),
        Some(v) => if v == "name"@ {
            Some("planned"@)
        } else if v == "planned"@ {
            Some("actual"@)
        } else if v == "actual"@ {
            Some("remain"@)
        } else {
            None
        },
    }
}

pub open spec fn next_view(v: BucketView) -> BucketView {
    match v {
        BucketView::Summary => BucketView::Monthly,
        BucketView::Monthly => BucketView::Detail,
        BucketView::Detail => BucketView::Summary,
    }
}

pub open spec fn other_scope(s: ReportScope) -> ReportScope {
    match s {
        ReportScope::Month => ReportScope::Cumulative,
        ReportScope::Cumulative => ReportScope::Month,
    }
}

pub open spec fn or_same(o: Option<LedgerDate>, d: LedgerDate) -> LedgerDate {
    match o {
        Some(x) => x,
        None => d,
    }
}

/// Left and Right: move the month (or the date being moved in range mode)
/// by a day; forward only up to today (the start: up to the end).
pub open spec fn move_step(s: TuiView, key: KeyInput, today: LedgerDate) -> TuiView {
    if key == KeyInput::Left {
        if s.range_mode {
            if s.adjusting_from {
                TuiView { from_date: or_same(prev_day(s.from_date), s.from_date), ..s }
            } else {
                TuiView { to_date: or_same(prev_day(s.to_date), s.to_date), ..s }
            }
        } else {
            TuiView { month: or_same(prev_month_start(s.month), s.month), ..s }
        }
    } else {
        if s.range_mode {
            if s.adjusting_from {
                let next = or_same(next_day(s.from_date), s.from_date);
                if !date_before(s.to_date, next) {
                    TuiView { from_date: next, ..s }
                } else {
                    s
                }
            } else {
                let next = or_same(next_day(s.to_date), s.to_date);
                if !date_before(today, next) {
                    TuiView { to_date: next, ..s }
                } else {
                    s
                }
            }
        } else {
            let next = or_same(next_month_start(s.month), s.month);
            if !date_before(today, next) {
                TuiView { month: next, ..s }
            } else {
                s
            }
        }
    }
}

/// Up, Down, PageUp, PageDown: scroll by a line or by twenty.
pub open spec fn scroll_step(s: TuiView, key: KeyInput) -> TuiView {
    TuiView {
        scroll: match key {
            KeyInput::Up => if s.scroll > 0 {
                s.scroll - 1
            } else {
                s.scroll
            },
            KeyInput::Down => s.scroll + 1,
            KeyInput::PageUp => if s.scroll >= 20 {
                s.scroll - 20
            } else {
                0
            },
            _ => s.scroll + 20,
        },
        ..s
    }
}

/// `q` quits, `r` runs, `t` switches range mode, `d` (and Enter in range
/// mode) opens the date prompt, Tab switches the scope (in range mode: which
/// end moves).
pub open spec fn mode_step(s: TuiView, key: KeyInput) -> (TuiView, TuiAction) {
    match key {
        KeyInput::Char('q') => (TuiView { running: false, ..s }, TuiAction::Nothing),
        KeyInput::Char('r') => (s, TuiAction::RunReport),
        KeyInput::Char('t') => (
            TuiView {
                range_mode: !s.range_mode,
                adjusting_from: if !s.range_mode {
                    true
                } else {
                    s.adjusting_from
                },
                ..s
            },
            TuiAction::Nothing,
        ),
        KeyInput::Char('d') => if !s.range_mode {
            (
                TuiView {
                    date_picker: Some(DatePicker::Month),
                    filter_buf: month_of_date_spec(s.month),
                    ..s
                },
                TuiAction::Nothing,
            )
        } else {
            (open_range_picker(s), TuiAction::Nothing)
        },
        KeyInput::Enter => if s.range_mode {
            (open_range_picker(s), TuiAction::Nothing)
        } else {
            (s, TuiAction::Nothing)
        },
        _ => (
            if s.range_mode {
                TuiView { adjusting_from: !s.adjusting_from, ..s }
            } else {
                TuiView { scope: other_scope(s.scope), ..s }
            },
            TuiAction::Nothing,
        ),
    }
}

/// The switches: sort order, expand, keyword and bucket prompts, locations,
/// hidden asset flows, view, comparison, output directory, pivot, JSON.
pub open spec fn switch_step(s: TuiView, key: KeyInput) -> TuiView {
    match key {
        KeyInput::Char('s') => TuiView { sort_by: next_sort(s.sort_by), ..s },
        KeyInput::Char('e') => TuiView { expand: !s.expand, ..s },
        KeyInput::Char('f') => TuiView {
            filter_editing: true,
            filter_buf: match s.filter {
                Some(f) => f,
                None => Seq::empty(),
            },
            ..s
        },
        KeyInput::Char('b') => TuiView {
            bucket_picker: true,
            filter_buf: match s.bucket {
                Some(b) => b,
                None => Seq::empty(),
            },
            ..s
        },
        KeyInput::Char('l') => TuiView { show_locations: !s.show_locations, ..s },
        KeyInput::Char('h') => TuiView { hide_asset_flows: !s.hide_asset_flows, ..s },
        KeyInput::Char('v') => TuiView { bucket_view: next_view(s.bucket_view), ..s },
        KeyInput::Char('c') => TuiView {
            compare: if s.compare is Some {
                None
            } else {
                Some(month_of_date_spec(s.month))
            },
            ..s
        },
        KeyInput::Char('o') => TuiView {
            out_dir: if s.out_dir is Some {
                None
            } else {
                Some("./reports"@)
            },
            ..s
        },
        KeyInput::Char('p') => TuiView { csv_pivot: !s.csv_pivot, ..s },
        KeyInput::Char('j') => TuiView { out_json: !s.out_json, ..s },
        _ => s,
    }
}

pub open spec fn is_mode_key(key: KeyInput) -> bool {
    key == KeyInput::Char('q') || key == KeyInput::Char('r') || key == KeyInput::Char('t') || key
        == KeyInput::Char('d') || key == KeyInput::Enter || key == KeyInput::Tab
}

pub open spec fn is_scroll_key(key: KeyInput) -> bool {
    key == KeyInput::Up || key == KeyInput::Down || key == KeyInput::PageUp || key
        == KeyInput::PageDown
}

/// A key with no prompt open.
pub open spec fn main_step(s: TuiView, key: KeyInput, today: LedgerDate) -> (TuiView, TuiAction) {
    if key == KeyInput::Left || key == KeyInput::Right {
        (move_step(s, key, today), TuiAction::Nothing)
    } else if is_scroll_key(key) {
        (scroll_step(s, key), TuiAction::Nothing)
    } else if is_mode_key(key) {
        mode_step(s, key)
    } else {
        (switch_step(s, key), TuiAction::Nothing)
    }
}

/// A key in a text prompt: Enter accepts the text (`None` when empty), Esc
/// clears the value, other keys edit the text.
pub open spec fn text_prompt_step(
    buf: Seq<char>,
    key: KeyInput,
) -> (bool, Option<Seq<char>>, Seq<char>) {
    match key {
        KeyInput::Enter => (false, nonempty_text(buf), Seq::empty()),
        KeyInput::Esc => (false, None, Seq::empty()),
        _ => (true, None, edit_buf(buf, key)),
    }
}

/// A key in the keyword prompt.
pub open spec fn filter_prompt_step(s: TuiView, key: KeyInput) -> TuiView {
    let (open, value, buf) = text_prompt_step(s.filter_buf, key);
    if open {
        TuiView { filter_buf: buf, ..s }
    } else {
        TuiView { filter: value, filter_editing: false, filter_buf: buf, ..s }
    }
}

/// A key in the bucket prompt.
pub open spec fn bucket_prompt_step(s: TuiView, key: KeyInput) -> TuiView {
    let (open, value, buf) = text_prompt_step(s.filter_buf, key);
    if open {
        TuiView { filter_buf: buf, ..s }
    } else {
        TuiView { bucket: value, bucket_picker: false, filter_buf: buf, ..s }
    }
}

/// A key in the date prompt; Enter sets the date when the text names a month.
pub open spec fn date_prompt_step(s: TuiView, key: KeyInput, picked: Option<LedgerDate>) -> TuiView {
    match key {
        KeyInput::Enter => {
            let set = match picked {
                Some(d) => match s.date_picker {
                    Some(DatePicker::From) => TuiView { from_date: d, ..s },
                    Some(DatePicker::To) => TuiView { to_date: d, ..s },
                    _ => TuiView { month: d, ..s },
                },
                None => s,
            };
            TuiView { date_picker: None, filter_buf: Seq::empty(), ..set }
        },
        KeyInput::Esc => TuiView { date_picker: None, filter_buf: Seq::empty(), ..s },
        _ => TuiView { filter_buf: edit_buf(s.filter_buf, key), ..s },
    }
}

/// What a key does: an open prompt takes it first; else see [`main_step`].
/// `picked` is the first day of the month the date prompt's text names.
pub open spec fn key_step(
    s: TuiView,
    key: KeyInput,
    today: LedgerDate,
    picked: Option<LedgerDate>,
) -> (TuiView, TuiAction) {
    if s.filter_editing {
        (filter_prompt_step(s, key), TuiAction::Nothing)
    } else if s.bucket_picker {
        (bucket_prompt_step(s, key), TuiAction::Nothing)
    } else if s.date_picker is Some {
        (date_prompt_step(s, key, picked), TuiAction::Nothing)
    } else {
        main_step(s, key, today)
    }
}

/// In month mode with no prompt open, Left moves the selected month to the
/// first day of the month before, and Right to the first day of the month
/// after unless that lies after `today`; the day stays 1 from a first day,
/// and nothing else changes.
pub proof fn lemma_month_keys_step(s: TuiView, today: LedgerDate, picked: Option<LedgerDate>)
    requires
        !s.filter_editing,
        !s.bucket_picker,
        s.date_picker is None,
        !s.range_mode,
        valid_date(s.month),
    ensures
        key_step(s, KeyInput::Left, today, picked) == (
            TuiView { month: or_same(prev_month_start(s.month), s.month), ..s },
            TuiAction::Nothing,
        ),
        key_step(s, KeyInput::Right, today, picked) == (
            if !date_before(today, or_same(next_month_start(s.month), s.month)) {
                TuiView { month: or_same(next_month_start(s.month), s.month), ..s }
            } else {
                s
            },
            TuiAction::Nothing,
        ),
        s.month.day == 1 ==> key_step(s, KeyInput::Left, today, picked).0.month.day == 1,
        s.month.day == 1 ==> key_step(s, KeyInput::Right, today, picked).0.month.day == 1,
        s.month.month > 1 ==> key_step(s, KeyInput::Left, today, picked).0.month == (LedgerDate {
            year: s.month.year,
            month: (s.month.month - 1) as u32,
            day: 1,
        }),
        s.month.month == 1 && s.month.year > -262143 ==> key_step(
            s,
            KeyInput::Left,
            today,
            picked,
        ).0.month == (LedgerDate { year: (s.month.year - 1) as i32, month: 12, day: 1 }),
{
}

/// With no prompt open, `s` changes only the sort key, which runs through
/// none, planned, actual, remain and back to none: four presses give back
/// the state they started from.
pub proof fn lemma_sort_key_cycles(s: TuiView, today: LedgerDate, picked: Option<LedgerDate>)
    requires
        !s.filter_editing,
        !s.bucket_picker,
        s.date_picker is None,
        s.sort_by is None || s.sort_by == Some("planned"@) || s.sort_by == Some("actual"@)
            || s.sort_by == Some("remain"@),
    ensures
        key_step(s, KeyInput::Char('s'), today, picked) == (
            TuiView { sort_by: next_sort(s.sort_by), ..s },
            TuiAction::Nothing,
        ),
        next_sort(None) == Some("planned"@),
        next_sort(Some("planned"@)) == Some("actual"@),
        next_sort(Some("actual"@)) == Some("remain"@),
        next_sort(Some("remain"@)) is None,
        ({
            let s1 = key_step(s, KeyInput::Char('s'), today, picked).0;
            let s2 = key_step(s1, KeyInput::Char('s'), today, picked).0;
            let s3 = key_step(s2, KeyInput::Char('s'), today, picked).0;
            key_step(s3, KeyInput::Char('s'), today, picked).0 == s
        }),
{
    reveal_strlit("name");
    reveal_strlit("planned");
    reveal_strlit("actual");
    reveal_strlit("remain");
    assert("name"@[0] == 'n' && "planned"@[0] == 'p' && "actual"@[0] == 'a' && "remain"@[0]
        == 'r');
    assert("planned"@ != "name"@);
    assert("actual"@ != "name"@ && "actual"@ != "planned"@);
    assert("remain"@ != "name"@ && "remain"@ != "planned"@ && "remain"@ != "actual"@);
    let s1 = key_step(s, KeyInput::Char('s'), today, picked).0;
    let s2 = key_step(s1, KeyInput::Char('s'), today, picked).0;
    let s3 = key_step(s2, KeyInput::Char('s'), today, picked).0;
    let s4 = key_step(s3, KeyInput::Char('s'), today, picked).0;
    assert(s4 == s);
}

pub proof fn lemma_day_steps_valid(d: LedgerDate)
    requires
        valid_date(d),
    ensures
        next_day(d) matches Some(n) ==> valid_date(n),
        prev_day(d) matches Some(p) ==> valid_date(p),
{
}

fn clone_opt(o: &Option<String>) -> (r: Option<String>)
    ensures
        opt_text(r) == opt_text(*o),
{
    match o {
        Some(s) => Some(s.clone()),
        None => None,
    }
}

fn edited(buf: &String, key: KeyInput) -> (r: String)
    ensures
        r@ == edit_buf(buf@, key),
{
    match key {
        KeyInput::Backspace => {
            let v = str_chars(buf.as_str());
            if v.len() > 0 {
                let w = slice_chars(&v, 0, v.len() - 1);
                assert(w@ =~= buf@.drop_last());
                string_from_chars(&w)
            } else {
                buf.clone()
            }
        },
        KeyInput::Char(c) => {
            let mut out = buf.clone();
            crate::text::string_push(&mut out, c);
            out
        },
        _ => buf.clone(),
    }
}

fn nonempty(buf: &String) -> (r: Option<String>)
    ensures
        opt_text(r) == nonempty_text(buf@),
{
    if str_chars(buf.as_str()).len() == 0 {
        None
    } else {
        Some(buf.clone())
    }
}

fn sort_after(o: &Option<String>) -> (r: Option<String>)
    ensures
        opt_text(r) == next_sort(opt_text(*o)),
{
    match o {
        None => Some("planned".to_string()),
        Some(v) => {
            if crate::text::str_eq(v.as_str(), "name") {
                Some("planned".to_string())
            } else if crate::text::str_eq(v.as_str(), "planned") {
                Some("actual".to_string())
            } else if crate::text::str_eq(v.as_str(), "actual") {
                Some("remain".to_string())
            } else {
                None
            }
        },
    }
}

fn text_or_empty(o: &Option<String>) -> (r: String)
    ensures
        r@ == (match opt_text(*o) {
            Some(t) => t,
            None => Seq::empty(),
        }),
{
    match o {
        Some(t) => t.clone(),
        None => String::new(),
    }
}

impl TuiState {
    /// The state the viewer starts in on `today`: this month, the range from
    /// January to this month.
    pub fn new(today: LedgerDate) -> (r: TuiState)
        requires
            valid_date(today),
        ensures
            r.month == (LedgerDate { day: 1, ..today }),
            r.from_date == (LedgerDate { month: 1, day: 1, ..today }),
            r.to_date == r.month,
            r.scope == ReportScope::Month,
            r.bucket is None && r.sort_by is None && r.filter is None && r.compare is None
                && r.out_dir is None,
            !r.expand && !r.show_locations && !r.hide_asset_flows && !r.csv_pivot && !r.out_json
                && !r.strict,
            r.bucket_view == BucketView::Summary,
            !r.filter_editing && !r.bucket_picker && r.date_picker is None && r.filter_buf@
                == Seq::<char>::empty(),
            !r.range_mode && r.adjusting_from,
            r.scroll == 0,
            r.running,
    {
        let month = LedgerDate { year: today.year, month: today.month, day: 1 };
        let from_date = LedgerDate { year: today.year, month: 1, day: 1 };
        TuiState {
            month,
            scope: ReportScope::Month,
            bucket: None,
            sort_by: None,
            expand: false,
            filter: None,
            show_locations: false,
            hide_asset_flows: false,
            compare: None,
            out_dir: None,
            csv_pivot: false,
            out_json: false,
            strict: false,
            bucket_view: BucketView::Summary,
            filter_editing: false,
            bucket_picker: false,
            date_picker: None,
            filter_buf: String::new(),
            range_mode: false,
            adjusting_from: true,
            from_date,
            to_date: month,
            scroll: 0,
            running: true,
        }
    }

    /// The month shown, `YYYY-MM`.
    pub fn month_str(&self) -> (r: String)
        ensures
            r@ == month_of_date_spec(self.month),
    {
        month_of_date(self.month)
    }

    fn open_range_picker(&mut self)
        ensures
            final(self)@ == open_range_picker(old(self)@),
    {
        if self.adjusting_from {
            self.date_picker = Some(DatePicker::From);
            self.filter_buf = month_of_date(self.from_date);
        } else {
            self.date_picker = Some(DatePicker::To);
            self.filter_buf = month_of_date(self.to_date);
        }
    }

    fn filter_prompt_key(&mut self, key: KeyInput)
        ensures
            final(self)@ == filter_prompt_step(old(self)@, key),
            final(self).month == old(self).month,
            final(self).from_date == old(self).from_date,
            final(self).to_date == old(self).to_date,
    {
        let closes = key == KeyInput::Enter || key == KeyInput::Esc;
        let value = match key {
            KeyInput::Enter => nonempty(&self.filter_buf),
            KeyInput::Esc => None,
            _ => clone_opt(&self.filter),
        };
        let buf = if closes {
            String::new()
        } else {
            edited(&self.filter_buf, key)
        };
        let editing = if closes {
            false
        } else {
            self.filter_editing
        };
        self.filter = value;
        self.filter_editing = editing;
        self.filter_buf = buf;
    }

    fn bucket_prompt_key(&mut self, key: KeyInput)
        ensures
            final(self)@ == bucket_prompt_step(old(self)@, key),
            final(self).month == old(self).month,
            final(self).from_date == old(self).from_date,
            final(self).to_date == old(self).to_date,
    {
        let closes = key == KeyInput::Enter || key == KeyInput::Esc;
        let value = match key {
            KeyInput::Enter => nonempty(&self.filter_buf),
            KeyInput::Esc => None,
            _ => clone_opt(&self.bucket),
        };
        let buf = if closes {
            String::new()
        } else {
            edited(&self.filter_buf, key)
        };
        let picking = if closes {
            false
        } else {
            self.bucket_picker
        };
        self.bucket = value;
        self.bucket_picker = picking;
        self.filter_buf = buf;
    }

    #[verifier::rlimit(60)]
    fn date_prompt_key(&mut self, key: KeyInput)
        requires
            valid_date(old(self).month),
            valid_date(old(self).from_date),
            valid_date(old(self).to_date),
        ensures
            final(self)@ == date_prompt_step(
                old(self)@,
                key,
                to_date_opt(month_start_parse(old(self).filter_buf@)),
            ),
            valid_date(final(self).month),
            valid_date(final(self).from_date),
            valid_date(final(self).to_date),
    {
        let closes = key == KeyInput::Enter || key == KeyInput::Esc;
        let picked = if key == KeyInput::Enter {
            parse_month_start(self.filter_buf.as_str())
        } else {
            None
        };
        let (month, from_date, to_date) = match picked {
            Some(d) => match self.date_picker {
                Some(DatePicker::From) => (self.month, d, self.to_date),
                Some(DatePicker::To) => (self.month, self.from_date, d),
                _ => (d, self.from_date, self.to_date),
            },
            None => (self.month, self.from_date, self.to_date),
        };
        let picker = if closes {
            None
        } else {
            self.date_picker
        };
        let buf = if closes {
            String::new()
        } else {
            edited(&self.filter_buf, key)
        };
        self.month = month;
        self.from_date = from_date;
        self.to_date = to_date;
        self.date_picker = picker;
        self.filter_buf = buf;
    }

    fn move_key(&mut self, key: KeyInput, today: LedgerDate)
        requires
            key == KeyInput::Left || key == KeyInput::Right,
            valid_date(old(self).month),
            valid_date(old(self).from_date),
            valid_date(old(self).to_date),
        ensures
            final(self)@ == move_step(old(self)@, key, today),
            valid_date(final(self).month),
            valid_date(final(self).from_date),
            valid_date(final(self).to_date),
    {
        proof {
            lemma_day_steps_valid(self.month);
            lemma_day_steps_valid(self.from_date);
            lemma_day_steps_valid(self.to_date);
        }
        let m = self.month;
        let f = self.from_date;
        let t = self.to_date;
        let (month, from_date, to_date) = if key == KeyInput::Left {
            if self.range_mode {
                if self.adjusting_from {
                    (m, match chrono_pred(f) {
                        Some(p) => p,
                        None => f,
                    }, t)
                } else {
                    (m, f, match chrono_pred(t) {
                        Some(p) => p,
                        None => t,
                    })
                }
            } else {
                (step_month_back(m), f, t)
            }
        } else {
            if self.range_mode {
                if self.adjusting_from {
                    let next = match chrono_succ(f) {
                        Some(n) => n,
                        None => f,
                    };
                    if !date_lt(&t, &next) {
                        (m, next, t)
                    } else {
                        (m, f, t)
                    }
                } else {
                    let next = match chrono_succ(t) {
                        Some(n) => n,
                        None => t,
                    };
                    if !date_lt(&today, &next) {
                        (m, f, next)
                    } else {
                        (m, f, t)
                    }
                }
            } else {
                let next = step_month_forward(m);
                if !date_lt(&today, &next) {
                    (next, f, t)
                } else {
                    (m, f, t)
                }
            }
        };
        self.month = month;
        self.from_date = from_date;
        self.to_date = to_date;
    }

    fn scroll_key(&mut self, key: KeyInput)
        requires
            old(self).scroll + 20 <= usize::MAX,
        ensures
            final(self)@ == scroll_step(old(self)@, key),
            final(self).month == old(self).month,
            final(self).from_date == old(self).from_date,
            final(self).to_date == old(self).to_date,
    {
        let cur = self.scroll;
        let next = match key {
            KeyInput::Up => if cur > 0 {
                cur - 1
            } else {
                cur
            },
            KeyInput::Down => cur + 1,
            KeyInput::PageUp => if cur >= 20 {
                cur - 20
            } else {
                0
            },
            _ => cur + 20,
        };
        self.scroll = next;
    }

    #[verifier::rlimit(60)]
    fn mode_key(&mut self, key: KeyInput) -> (r: TuiAction)
        requires
            is_mode_key(key),
        ensures
            (final(self)@, r) == mode_step(old(self)@, key),
            final(self).month == old(self).month,
            final(self).from_date == old(self).from_date,
            final(self).to_date == old(self).to_date,
    {
        let running = if key == KeyInput::Char('q') {
            false
        } else {
            self.running
        };
        let range_mode = if key == KeyInput::Char('t') {
            !self.range_mode
        } else {
            self.range_mode
        };
        let opens_range = self.range_mode && (key == KeyInput::Char('d') || key == KeyInput::Enter);
        let adjusting_from = if key == KeyInput::Char('t') {
            if !self.range_mode {
                true
            } else {
                self.adjusting_from
            }
        } else if key == KeyInput::Tab && self.range_mode {
            !self.adjusting_from
        } else {
            self.adjusting_from
        };
        let scope = if key == KeyInput::Tab && !self.range_mode {
            match self.scope {
                ReportScope::Month => ReportScope::Cumulative,
                ReportScope::Cumulative => ReportScope::Month,
            }
        } else {
            self.scope
        };
        let picker = if key == KeyInput::Char('d') && !self.range_mode {
            Some(DatePicker::Month)
        } else if opens_range {
            if self.adjusting_from {
                Some(DatePicker::From)
            } else {
                Some(DatePicker::To)
            }
        } else {
            self.date_picker
        };
        let buf = if key == KeyInput::Char('d') && !self.range_mode {
            self.month_str()
        } else if opens_range {
            if self.adjusting_from {
                month_of_date(self.from_date)
            } else {
                month_of_date(self.to_date)
            }
        } else {
            self.filter_buf.clone()
        };
        self.running = running;
        self.range_mode = range_mode;
        self.adjusting_from = adjusting_from;
        self.scope = scope;
        self.date_picker = picker;
        self.filter_buf = buf;
        if key == KeyInput::Char('r') {
            TuiAction::RunReport
        } else {
            TuiAction::Nothing
        }
    }

    #[verifier::rlimit(60)]
    fn switch_key(&mut self, key: KeyInput)
        ensures
            final(self)@ == switch_step(old(self)@, key),
            final(self).month == old(self).month,
            final(self).from_date == old(self).from_date,
            final(self).to_date == old(self).to_date,
    {
        let sort_by = if key == KeyInput::Char('s') {
            sort_after(&self.sort_by)
        } else {
            clone_opt(&self.sort_by)
        };
        let expand = if key == KeyInput::Char('e') {
            !self.expand
        } else {
            self.expand
        };
        let filter_editing = key == KeyInput::Char('f') || self.filter_editing;
        let bucket_picker = key == KeyInput::Char('b') || self.bucket_picker;
        let buf = if key == KeyInput::Char('f') {
            text_or_empty(&self.filter)
        } else if key == KeyInput::Char('b') {
            text_or_empty(&self.bucket)
        } else {
            self.filter_buf.clone()
        };
        let show_locations = if key == KeyInput::Char('l') {
            !self.show_locations
        } else {
            self.show_locations
        };
        let hide = if key == KeyInput::Char('h') {
            !self.hide_asset_flows
        } else {
            self.hide_asset_flows
        };
        let view = if key == KeyInput::Char('v') {
            match self.bucket_view {
                BucketView::Summary => BucketView::Monthly,
                BucketView::Monthly => BucketView::Detail,
                BucketView::Detail => BucketView::Summary,
            }
        } else {
            self.bucket_view
        };
        let compare = if key == KeyInput::Char('c') {
            if self.compare.is_some() {
                None
            } else {
                Some(self.month_str())
            }
        } else {
            clone_opt(&self.compare)
        };
        let out_dir = if key == KeyInput::Char('o') {
            if self.out_dir.is_some() {
                None
            } else {
                Some("./reports".to_string())
            }
        } else {
            clone_opt(&self.out_dir)
        };
        let csv_pivot = if key == KeyInput::Char('p') {
            !self.csv_pivot
        } else {
            self.csv_pivot
        };
        let out_json = if key == KeyInput::Char('j') {
            !self.out_json
        } else {
            self.out_json
        };
        self.sort_by = sort_by;
        self.expand = expand;
        self.filter_editing = filter_editing;
        self.bucket_picker = bucket_picker;
        self.filter_buf = buf;
        self.show_locations = show_locations;
        self.hide_asset_flows = hide;
        self.bucket_view = view;
        self.compare = compare;
        self.out_dir = out_dir;
        self.csv_pivot = csv_pivot;
        self.out_json = out_json;
    }

    /// Applies one key; see [`key_step`].  Dates stay calendar dates.
    pub fn handle_key(&mut self, key: KeyInput, today: LedgerDate) -> (r: TuiAction)
        requires
            valid_date(old(self).month),
            valid_date(old(self).from_date),
            valid_date(old(self).to_date),
            old(self).scroll + 20 <= usize::MAX,
        ensures
            (final(self)@, r) == key_step(
                old(self)@,
                key,
                today,
                to_date_opt(month_start_parse(old(self).filter_buf@)),
            ),
            valid_date(final(self).month),
            valid_date(final(self).from_date),
            valid_date(final(self).to_date),
            !old(self).filter_editing && !old(self).bucket_picker && old(self).date_picker is None
                && !old(self).range_mode && key == KeyInput::Left ==> final(self)@ == (TuiView {
                month: or_same(prev_month_start(old(self).month), old(self).month),
                ..old(self)@
            }) && r == TuiAction::Nothing,
            !old(self).filter_editing && !old(self).bucket_picker && old(self).date_picker is None
                && !old(self).range_mode && key == KeyInput::Right ==> final(self)@ == (if !date_before(
                today,
                or_same(next_month_start(old(self).month), old(self).month),
            ) {
                TuiView {
                    month: or_same(next_month_start(old(self).month), old(self).month),
                    ..old(self)@
                }
            } else {
                old(self)@
            }) && r == TuiAction::Nothing,
            !old(self).filter_editing && !old(self).bucket_picker && old(self).date_picker is None
                && key == KeyInput::Char('s') ==> final(self)@ == (TuiView {
                sort_by: next_sort(old(self)@.sort_by),
                ..old(self)@
            }) && r == TuiAction::Nothing,
            !old(self).filter_editing && !old(self).bucket_picker && old(self).date_picker is None
                && !old(self).range_mode && (key == KeyInput::Left || key == KeyInput::Right)
                && old(self).month.day == 1 ==> final(self).month.day == 1,
    {
        proof {
            if !self.filter_editing && !self.bucket_picker && self.date_picker is None
                && !self.range_mode {
                lemma_month_keys_step(
                    self@,
                    today,
                    to_date_opt(month_start_parse(self.filter_buf@)),
                );
            }
        }
        if self.filter_editing {
            self.filter_prompt_key(key);
            return TuiAction::Nothing;
        }
        if self.bucket_picker {
            self.bucket_prompt_key(key);
            return TuiAction::Nothing;
        }
        if self.date_picker.is_some() {
            self.date_prompt_key(key);
            return TuiAction::Nothing;
        }
        if key == KeyInput::Left || key == KeyInput::Right {
            self.move_key(key, today);
            TuiAction::Nothing
        } else if key == KeyInput::Up || key == KeyInput::Down || key == KeyInput::PageUp || key
            == KeyInput::PageDown {
            self.scroll_key(key);
            TuiAction::Nothing
        } else if key == KeyInput::Char('q') || key == KeyInput::Char('r') || key == KeyInput::Char(
            't',
        ) || key == KeyInput::Char('d') || key == KeyInput::Enter || key == KeyInput::Tab {
            self.mode_key(key)
        } else {
            self.switch_key(key);
            TuiAction::Nothing
        }
    }

    /// The parameters of a run: the month (or the range of months) shown and
    /// the viewer's switches, with the given ledger and configuration paths.
    pub fn build_cli(
        &self,
        ledgers: Vec<String>,
        ledger_dir: &String,
        budgets: &String,
        config_file: &String,
        currency: &String,
    ) -> (r: Cli)
        ensures
            r.ledgers@ == ledgers@,
            r.ledger_dirs@.len() == 1 && r.ledger_dirs@[0]@ == ledger_dir@,
            self.range_mode ==> r.month is None && opt_text(r.from) == Some(
                month_of_date_spec(self.from_date),
            ) && opt_text(r.to) == Some(month_of_date_spec(self.to_date)),
            !self.range_mode ==> opt_text(r.month) == Some(month_of_date_spec(self.month))
                && r.from is None && r.to is None,
            r.budgets@ == budgets@,
            r.config_file@ == config_file@,
            r.currency@ == currency@,
            r.scope == self.scope,
            opt_text(r.bucket) == opt_text(self.bucket),
            r.bucket_view == self.bucket_view,
            opt_text(r.sort_by) == opt_text(self.sort_by),
            r.expand == self.expand,
            opt_text(r.filter) == opt_text(self.filter),
            r.show_locations == self.show_locations,
            r.hide_asset_flows == self.hide_asset_flows,
            opt_text(r.compare) == opt_text(self.compare),
            opt_text(r.out_dir) == opt_text(self.out_dir),
            r.csv_pivot == self.csv_pivot,
            r.out_json == self.out_json,
            r.strict == self.strict,
            r.year is None,
    {
        let (month, from, to) = if self.range_mode {
            (None, Some(month_of_date(self.from_date)), Some(month_of_date(self.to_date)))
        } else {
            (Some(self.month_str()), None, None)
        };
        let mut dirs: Vec<String> = Vec::new();
        dirs.push(ledger_dir.clone());
        Cli {
            ledgers,
            ledger_dirs: dirs,
            month,
            budgets: budgets.clone(),
            config_file: config_file.clone(),
            currency: currency.clone(),
            scope: self.scope,
            bucket: clone_opt(&self.bucket),
            bucket_view: self.bucket_view,
            sort_by: clone_opt(&self.sort_by),
            expand: self.expand,
            filter: clone_opt(&self.filter),
            show_locations: self.show_locations,
            hide_asset_flows: self.hide_asset_flows,
            compare: clone_opt(&self.compare),
            out_dir: clone_opt(&self.out_dir),
            csv_pivot: self.csv_pivot,
            out_json: self.out_json,
            strict: self.strict,
            from,
            to,
            year: None,
        }
    }
}

/// What the status line calls a bucket view.
pub open spec fn view_label(v: BucketView) -> Seq<char> {
    match v {
        BucketView::Summary => "汇总"@,
        BucketView::Monthly => "分月"@,
        BucketView::Detail => "明细"@,
    }
}

/// The status line after a run: the bucket and its view, or, when no bucket
/// is chosen (or the one named `全部`), the month and a tick.
pub open spec fn run_status_spec(bucket: Option<Seq<char>>, view: BucketView, month: Seq<char>) -> Seq<char> {
    let b = match bucket {
        Some(x) => x,
        None => "全部"@,
    };
    if b != "全部"@ {
        b + " ("@ + view_label(view) + ")"@
    } else {
        month + " ✓"@
    }
}

impl TuiState {
    /// The status line after a run (see [`run_status_spec`]).
    pub fn run_status(&self) -> (r: String)
        ensures
            r@ == run_status_spec(opt_text(self.bucket), self.bucket_view, month_of_date_spec(self.month)),
    {
        let b: &str = match &self.bucket {
            Some(x) => x.as_str(),
            None => "全部",
        };
        if !crate::text::str_eq(b, "全部") {
            let label = match self.bucket_view {
                BucketView::Summary => "汇总",
                BucketView::Monthly => "分月",
                BucketView::Detail => "明细",
            };
            let mut out = b.to_string();
            crate::text::push_str(&mut out, " (");
            crate::text::push_str(&mut out, label);
            crate::text::push_str(&mut out, ")");
            out
        } else {
            let mut out = self.month_str();
            crate::text::push_str(&mut out, " ✓");
            out
        }
    }
}

} // verus!
