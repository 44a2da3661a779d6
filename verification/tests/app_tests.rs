use ttd_v2::App;
use ttd_v2::AppEffect;
use ttd_v2::Date;
use ttd_v2::DateTime;
use ttd_v2::FilterType;
use ttd_v2::InputMode;
use ttd_v2::Key;
use ttd_v2::Message;
use ttd_v2::SyncAction;
use ttd_v2::TodoKind;
use ttd_v2::Weekday;
use ttd_v2::key_to_message;

fn moment(y: u32, mo: u32, d: u32, h: u32, mi: u32, s: u32) -> DateTime {
    DateTime { date: Date { year: y, month: mo, day: d }, hour: h, minute: mi, second: s }
}

fn app_with(entries: &[&str], now: &DateTime, weekday: Weekday) -> App {
    let mut app = App::new();
    for e in entries {
        app.set_input(String::from(*e));
        app.update(Message::Add, now, weekday);
    }
    app
}

#[test]
fn add_appends_record_and_requests_save() {
    let now = moment(2024, 12, 22, 10, 0, 0);
    let mut app = App::new();
    app.set_input(String::from("water plants -Mon"));
    let (next, effect) = app.update(Message::Add, &now, Weekday::Sun);
    assert_eq!(next, Some(Message::Save));
    assert_eq!(effect, AppEffect::Nothing);
    assert_eq!(app.todo_list.len(), 1);
    assert_eq!(app.todo_list[0].kind, TodoKind::Week(Weekday::Mon));
    assert_eq!(app.input_value, "");
    assert_eq!(app.selected, Some(0));
}

#[test]
fn add_with_empty_input_changes_nothing() {
    let now = moment(2024, 12, 22, 10, 0, 0);
    let mut app = App::new();
    let (next, effect) = app.update(Message::Add, &now, Weekday::Sun);
    assert_eq!(next, Some(Message::Save));
    assert_eq!(effect, AppEffect::Nothing);
    assert!(app.todo_list.is_empty());
}

#[test]
fn save_stamps_sync_state_and_persists() {
    let now = moment(2024, 12, 22, 10, 0, 0);
    let later = moment(2024, 12, 22, 11, 0, 0);
    let mut app = app_with(&["a task"], &now, Weekday::Sun);
    let (next, effect) = app.update(Message::Save, &later, Weekday::Sun);
    assert_eq!(next, None);
    assert_eq!(effect, AppEffect::Persist);
    assert_eq!(app.sync_state.last_sync_kind, SyncAction::LocalSave);
    assert_eq!(app.sync_state.last_save_at, later);
}

#[test]
fn delete_removes_selected_record() {
    let now = moment(2024, 12, 22, 10, 0, 0);
    let mut app = app_with(&["one", "two", "three"], &now, Weekday::Sun);
    app.selected = Some(1);
    let (next, _) = app.update(Message::Delete, &now, Weekday::Sun);
    assert_eq!(next, Some(Message::Save));
    assert_eq!(app.todo_list.len(), 2);
    assert_eq!(app.todo_list[0].text, "one");
    assert_eq!(app.todo_list[1].text, "three");
}

#[test]
fn delete_with_stale_selection_changes_nothing() {
    let now = moment(2024, 12, 22, 10, 0, 0);
    let mut app = app_with(&["one"], &now, Weekday::Sun);
    app.selected = Some(9);
    app.update(Message::Delete, &now, Weekday::Sun);
    assert_eq!(app.todo_list.len(), 1);
}

#[test]
fn filters_hide_by_kind_and_state() {
    let now = moment(2024, 12, 22, 10, 0, 0);
    let mut app = app_with(&["plain", "weekly -Mon", "soon -2024-12-23"], &now, Weekday::Sun);
    app.update(Message::Filter(FilterType::Week), &now, Weekday::Sun);
    assert!(app.todo_list[0].is_hidden);
    assert!(!app.todo_list[1].is_hidden);
    assert!(app.todo_list[2].is_hidden);
    app.update(Message::Filter(FilterType::UpComing), &now, Weekday::Sun);
    assert!(app.todo_list[0].is_hidden);
    assert!(!app.todo_list[2].is_hidden);
    app.update(Message::Filter(FilterType::All), &now, Weekday::Sun);
    assert!(app.todo_list.iter().all(|t| !t.is_hidden));
}

#[test]
fn save_resets_hidden_flags_before_persisting() {
    let now = moment(2024, 12, 22, 10, 0, 0);
    let mut app = app_with(&["plain", "weekly -Mon"], &now, Weekday::Sun);
    app.update(Message::Filter(FilterType::Week), &now, Weekday::Sun);
    assert!(app.todo_list[0].is_hidden);
    app.update(Message::Save, &now, Weekday::Sun);
    assert!(app.todo_list.iter().all(|t| !t.is_hidden));
}

#[test]
fn rewrite_loads_selected_record_into_input() {
    let now = moment(2024, 12, 22, 10, 0, 0);
    let mut app = app_with(&["oil the hinges -Sat"], &now, Weekday::Sun);
    app.selected = Some(0);
    let (next, effect) = app.update(Message::Rewrite, &now, Weekday::Sun);
    assert_eq!(next, None);
    assert_eq!(effect, AppEffect::Nothing);
    assert_eq!(app.input_value, "oil the hinges - Sat");
    assert_eq!(app.input_mode, InputMode::Insert);
    assert_eq!(app.update_cache.as_deref(), Some("2024-12-22 10:00:00"));
}

#[test]
fn rewritten_record_is_replaced_on_add() {
    let now = moment(2024, 12, 22, 10, 0, 0);
    let later = moment(2024, 12, 22, 10, 5, 0);
    let mut app = app_with(&["oil the hinges -Sat"], &now, Weekday::Sun);
    app.selected = Some(0);
    app.update(Message::Rewrite, &now, Weekday::Sun);
    app.set_input(String::from("oil the hinges -Sun"));
    app.update(Message::Add, &later, Weekday::Sun);
    assert_eq!(app.todo_list.len(), 1);
    assert_eq!(app.todo_list[0].kind, TodoKind::Week(Weekday::Sun));
    assert!(app.update_cache.is_none());
}

#[test]
fn leaving_insert_mode_clears_pending_edit() {
    let now = moment(2024, 12, 22, 10, 0, 0);
    let mut app = app_with(&["task -Sat"], &now, Weekday::Sun);
    app.selected = Some(0);
    app.update(Message::Rewrite, &now, Weekday::Sun);
    app.update(Message::InputModeChange(InputMode::Normal), &now, Weekday::Sun);
    assert_eq!(app.input_mode, InputMode::Normal);
    assert_eq!(app.input_value, "");
    assert!(app.update_cache.is_none());
}

#[test]
fn selection_wraps_both_ways() {
    let now = moment(2024, 12, 22, 10, 0, 0);
    let mut app = app_with(&["a", "b", "c"], &now, Weekday::Sun);
    app.selected = None;
    app.update(Message::SelectNext, &now, Weekday::Sun);
    assert_eq!(app.selected, Some(2));
    app.update(Message::SelectNext, &now, Weekday::Sun);
    assert_eq!(app.selected, Some(0));
    app.update(Message::SelectPrevious, &now, Weekday::Sun);
    assert_eq!(app.selected, Some(2));
    app.update(Message::SelectPrevious, &now, Weekday::Sun);
    assert_eq!(app.selected, Some(1));
}

#[test]
fn quit_persists_and_exits() {
    let now = moment(2024, 12, 22, 10, 0, 0);
    let mut app = app_with(&["a"], &now, Weekday::Sun);
    let (next, effect) = app.update(Message::Quit, &now, Weekday::Sun);
    assert_eq!(next, None);
    assert_eq!(effect, AppEffect::Persist);
    assert!(app.exit);
}

#[test]
fn keys_map_by_mode() {
    assert_eq!(
        key_to_message(&InputMode::Normal, Key::Char('q')),
        Some(Message::Quit)
    );
    assert_eq!(
        key_to_message(&InputMode::Normal, Key::Char('w')),
        Some(Message::Filter(FilterType::Week))
    );
    assert_eq!(
        key_to_message(&InputMode::Normal, Key::Enter),
        Some(Message::InputModeChange(InputMode::Insert))
    );
    assert_eq!(key_to_message(&InputMode::Normal, Key::Up), Some(Message::SelectPrevious));
    assert_eq!(key_to_message(&InputMode::Normal, Key::Char('z')), None);
    assert_eq!(key_to_message(&InputMode::Insert, Key::Enter), Some(Message::Add));
    assert_eq!(
        key_to_message(&InputMode::Insert, Key::Esc),
        Some(Message::InputModeChange(InputMode::Normal))
    );
    assert_eq!(key_to_message(&InputMode::Insert, Key::Char('q')), None);
}

#[test]
fn rewrite_counts_only_visible_rows() {
    let now = moment(2024, 12, 22, 10, 0, 0);
    let mut app = app_with(&["plain", "weekly -Mon", "note"], &now, Weekday::Sun);
    app.update(Message::Filter(FilterType::Week), &now, Weekday::Sun);
    app.selected = Some(0);
    app.update(Message::Rewrite, &now, Weekday::Sun);
    assert_eq!(app.input_value, "weekly - Mon");
}

#[test]
fn visible_count_follows_filters() {
    let now = moment(2024, 12, 22, 10, 0, 0);
    let mut app = app_with(&["plain", "weekly -Mon", "note"], &now, Weekday::Sun);
    assert_eq!(ttd_v2::count_visible(&app.todo_list), 3);
    app.update(Message::Filter(FilterType::Week), &now, Weekday::Sun);
    assert_eq!(ttd_v2::count_visible(&app.todo_list), 1);
    app.update(Message::Filter(FilterType::All), &now, Weekday::Sun);
    assert_eq!(ttd_v2::count_visible(&app.todo_list), 3);
}

#[test]
fn number_texts_have_exact_forms() {
    assert_eq!(ttd_v2::u32_to_string(0), "0");
    assert_eq!(ttd_v2::u32_to_string(42), "42");
    assert_eq!(ttd_v2::u32_to_string(4294967295), "4294967295");
    assert_eq!(ttd_v2::parse_u32("42"), Some(42));
    assert_eq!(ttd_v2::parse_u32("+7"), Some(7));
    assert_eq!(ttd_v2::parse_u32("007"), Some(7));
    assert_eq!(ttd_v2::parse_u32("4294967295"), Some(4294967295));
    assert_eq!(ttd_v2::parse_u32("4294967296"), None);
    assert_eq!(ttd_v2::parse_u32(""), None);
    assert_eq!(ttd_v2::parse_u32("-1"), None);
    assert_eq!(ttd_v2::parse_u32("1a"), None);
}
