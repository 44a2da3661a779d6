use ttd_v2::Date;
use ttd_v2::DateTime;
use ttd_v2::Todo;
use ttd_v2::TodoKind;
use ttd_v2::TodoState;
use ttd_v2::Weekday;

fn moment(y: u32, mo: u32, d: u32, h: u32, mi: u32, s: u32) -> DateTime {
    DateTime { date: Date { year: y, month: mo, day: d }, hour: h, minute: mi, second: s }
}

#[test]
fn todo_kind_parse_test() {
    let input = [
        "do something awesome! -2024-12-22",
        "do something awesome! -Mon",
        "do something awesome! -24",
        "do something awesome! -SaT",
        "do something awesome! -243",
        "do something awesome! -abcdefg",
    ];
    assert_eq!(
        Todo::input_parse(input[0]).1,
        TodoKind::Once(Date { year: 2024, month: 12, day: 22 })
    );
    assert_eq!(Todo::input_parse(input[1]).1, TodoKind::Week(Weekday::Mon));
    assert_eq!(Todo::input_parse(input[2]).1, TodoKind::Month(24));
    assert_eq!(Todo::input_parse(input[3]).1, TodoKind::Week(Weekday::Sat));
    assert_eq!(Todo::input_parse(input[4]).1, TodoKind::default());
    assert_eq!(Todo::input_parse(input[5]).1, TodoKind::default());
}

#[test]
fn input_parse_trims_text() {
    let (text, kind) = Todo::input_parse("  buy milk  -Mon");
    assert_eq!(text, "buy milk");
    assert_eq!(kind, TodoKind::Week(Weekday::Mon));
}

#[test]
fn input_parse_progress_note() {
    let (text, kind) = Todo::input_parse("thesis @ chapter two");
    assert_eq!(text, "thesis");
    assert_eq!(kind, TodoKind::Progress(String::from("chapter two")));
}

#[test]
fn input_parse_plain_text() {
    let (text, kind) = Todo::input_parse("just a note");
    assert_eq!(text, "just a note");
    assert_eq!(kind, TodoKind::General);
}

#[test]
fn input_parse_empty_sides_stay_general() {
    assert_eq!(Todo::input_parse("-Mon").1, TodoKind::General);
    assert_eq!(Todo::input_parse("task-").1, TodoKind::General);
    assert_eq!(Todo::input_parse("@note").1, TodoKind::General);
}

#[test]
fn input_parse_day_bounds() {
    assert_eq!(Todo::input_parse("t -31").1, TodoKind::Month(31));
    assert_eq!(Todo::input_parse("t -32").1, TodoKind::General);
    assert_eq!(Todo::input_parse("t -0").1, TodoKind::General);
}

#[test]
fn new_todo_stamps_creation_and_state() {
    let now = moment(2024, 12, 22, 10, 30, 0);
    let todo = Todo::new("ship the release -2024-12-22", &now, Weekday::Sun);
    assert_eq!(todo.text, "ship the release");
    assert_eq!(todo.created_at, "2024-12-22 10:30:00");
    assert_eq!(todo.kind, TodoKind::Once(Date { year: 2024, month: 12, day: 22 }));
    assert_eq!(todo.state, TodoState::InProgress);
    assert!(!todo.is_hidden);
}

#[test]
fn state_check_once_expired_and_upcoming() {
    let now = moment(2024, 12, 22, 8, 0, 0);
    let mut past = Todo::new("old -2024-12-21", &now, Weekday::Sun);
    past.state_check(&now.date, Weekday::Sun);
    assert_eq!(past.state, TodoState::Expired);
    let mut future = Todo::new("soon -2024-12-23", &now, Weekday::Sun);
    future.state_check(&now.date, Weekday::Sun);
    assert_eq!(future.state, TodoState::UpComing);
}

#[test]
fn state_check_week_and_month() {
    let now = moment(2024, 12, 22, 8, 0, 0);
    let mut weekly = Todo::new("gym -Sun", &now, Weekday::Sun);
    weekly.state_check(&now.date, Weekday::Sun);
    assert_eq!(weekly.state, TodoState::InProgress);
    weekly.state_check(&now.date, Weekday::Mon);
    assert_eq!(weekly.state, TodoState::UpComing);
    let mut monthly = Todo::new("rent -22", &now, Weekday::Sun);
    monthly.state_check(&now.date, Weekday::Sun);
    assert_eq!(monthly.state, TodoState::InProgress);
    let other_day = Date { year: 2024, month: 12, day: 23 };
    monthly.state_check(&other_day, Weekday::Mon);
    assert_eq!(monthly.state, TodoState::UpComing);
}

#[test]
fn state_check_derives_no_deadline_for_plain_and_progress() {
    let now = moment(2024, 12, 22, 8, 0, 0);
    let mut plain = Todo::new("note", &now, Weekday::Sun);
    plain.state = TodoState::Expired;
    plain.state_check(&now.date, Weekday::Sun);
    assert_eq!(plain.state, TodoState::NoDeadline);
    let mut progress = Todo::new("thesis @ half", &now, Weekday::Sun);
    progress.state = TodoState::UpComing;
    progress.state_check(&now.date, Weekday::Sun);
    assert_eq!(progress.state, TodoState::NoDeadline);
}

#[test]
fn reset_hidden_flag_clears_only_visibility() {
    let now = moment(2024, 12, 22, 8, 0, 0);
    let mut todo = Todo::new("note", &now, Weekday::Sun);
    todo.is_hidden = true;
    todo.reset_hidden_flag();
    assert!(!todo.is_hidden);
    assert_eq!(todo.text, "note");
}

#[test]
fn print_info_labels() {
    assert_eq!(TodoState::NoDeadline.print_info(), "NoDeadline");
    assert_eq!(TodoState::InProgress.print_info(), "InProgress");
    assert_eq!(TodoState::UpComing.print_info(), "UpComing");
    assert_eq!(TodoState::Expired.print_info(), "Expired");
    assert_eq!(TodoKind::General.print_info(), "General");
    assert_eq!(TodoKind::Progress(String::from("half")).print_info(), "Prog: half");
    assert_eq!(TodoKind::Week(Weekday::Tue).print_info(), "Week: Tue");
    assert_eq!(TodoKind::Month(7).print_info(), "Month: 7");
    assert_eq!(
        TodoKind::Once(Date { year: 2024, month: 1, day: 2 }).print_info(),
        "Once: 2024-01-02"
    );
}

#[test]
fn date_parse_accepts_real_dates_only() {
    assert_eq!(Date::parse("2024-12-22"), Some(Date { year: 2024, month: 12, day: 22 }));
    assert_eq!(Date::parse("2024-02-29"), Some(Date { year: 2024, month: 2, day: 29 }));
    assert_eq!(Date::parse("2023-02-29"), None);
    assert_eq!(Date::parse("2024-13-01"), None);
    assert_eq!(Date::parse("2024-00-10"), None);
    assert_eq!(Date::parse("2024-1-2"), None);
    assert_eq!(Date::parse("nonsense"), None);
}

#[test]
fn weekday_parse_folds_case_and_long_names() {
    assert_eq!(Weekday::parse("mon"), Some(Weekday::Mon));
    assert_eq!(Weekday::parse("MONDAY"), Some(Weekday::Mon));
    assert_eq!(Weekday::parse("SaT"), Some(Weekday::Sat));
    assert_eq!(Weekday::parse("saturday"), Some(Weekday::Sat));
    assert_eq!(Weekday::parse("satur"), None);
    assert_eq!(Weekday::parse(""), None);
}

#[test]
fn datetime_text_forms() {
    let now = moment(2024, 12, 22, 10, 30, 5);
    assert_eq!(now.to_text('T'), "2024-12-22T10:30:05");
    assert_eq!(now.to_text(' '), "2024-12-22 10:30:05");
    assert_eq!(DateTime::parse("2024-12-22T10:30:05", 'T'), Some(now));
    assert_eq!(DateTime::parse("2024-12-22T25:30:05", 'T'), None);
}

#[test]
fn datetime_order_is_by_components() {
    let a = moment(2024, 12, 22, 10, 30, 0);
    let b = moment(2024, 12, 22, 10, 30, 1);
    let c = moment(2025, 1, 1, 0, 0, 0);
    assert!(a.lt(&b));
    assert!(b.lt(&c));
    assert!(!c.lt(&a));
}
