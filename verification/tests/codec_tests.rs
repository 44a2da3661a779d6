use ttd_v2::Date;
use ttd_v2::DateTime;
use ttd_v2::SyncAction;
use ttd_v2::SyncState;
use ttd_v2::Todo;
use ttd_v2::TodoKind;
use ttd_v2::TodoState;
use ttd_v2::Weekday;
use ttd_v2::decode_sync_state;
use ttd_v2::decode_todo_list;
use ttd_v2::encode_sync_state;
use ttd_v2::encode_todo_list;

fn moment(y: u32, mo: u32, d: u32, h: u32, mi: u32, s: u32) -> DateTime {
    DateTime { date: Date { year: y, month: mo, day: d }, hour: h, minute: mi, second: s }
}

fn sample_state() -> SyncState {
    SyncState {
        id: String::from("abc"),
        last_sync_kind: SyncAction::LocalSave,
        last_save_at: moment(2024, 12, 22, 10, 30, 0),
    }
}

fn sample_todo(text: &str, created: &str, kind: TodoKind) -> Todo {
    Todo {
        text: String::from(text),
        created_at: String::from(created),
        kind,
        state: TodoState::NoDeadline,
        is_hidden: false,
    }
}

#[test]
fn sync_state_encodes_exact_shape() {
    let enc = encode_sync_state(&sample_state());
    assert_eq!(
        enc,
        "{\"id\":\"abc\",\"last_sync_kind\":\"LocalSave\",\"last_save_at\":\"2024-12-22T10:30:00\"}"
    );
}

#[test]
fn sync_state_roundtrips() {
    let st = sample_state();
    let enc = encode_sync_state(&st);
    let back = decode_sync_state(&enc).unwrap();
    assert_eq!(back, st);
}

#[test]
fn sync_state_all_kinds_roundtrip() {
    for kind in [
        SyncAction::Init,
        SyncAction::LocalSave,
        SyncAction::UploadToServer,
        SyncAction::DownloadFromServer,
    ] {
        let st = SyncState {
            id: String::from("box-1"),
            last_sync_kind: kind,
            last_save_at: moment(2020, 1, 2, 3, 4, 5),
        };
        let back = decode_sync_state(&encode_sync_state(&st)).unwrap();
        assert_eq!(back, st);
    }
}

#[test]
fn sync_state_accepts_subsecond_stamps_from_other_writers() {
    let text =
        "{\"id\":\"abc\",\"last_sync_kind\":\"LocalSave\",\"last_save_at\":\"2024-12-22T10:30:00.123456789\"}";
    let st = decode_sync_state(text).unwrap();
    assert_eq!(st.last_save_at, moment(2024, 12, 22, 10, 30, 0));
    assert!(decode_sync_state(
        "{\"id\":\"abc\",\"last_sync_kind\":\"LocalSave\",\"last_save_at\":\"2024-12-22T10:30:00.\"}"
    )
    .is_none());
}

#[test]
fn sync_state_rejects_trailing_text() {
    let mut enc = encode_sync_state(&sample_state());
    enc.push(' ');
    assert!(decode_sync_state(&enc).is_none());
    assert!(decode_sync_state("not a record").is_none());
    assert!(decode_sync_state("").is_none());
}

#[test]
fn empty_todo_list_roundtrips() {
    let todos: Vec<Todo> = Vec::new();
    let enc = encode_todo_list(&todos);
    assert_eq!(enc, "[]");
    let back = decode_todo_list(&enc).unwrap();
    assert!(back.is_empty());
}

#[test]
fn todo_list_encodes_exact_shape() {
    let todos = vec![sample_todo("read", "2024-12-22 10:30:00", TodoKind::General)];
    let enc = encode_todo_list(&todos);
    assert_eq!(
        enc,
        "[{\"text\":\"read\",\"created_at\":\"2024-12-22 10:30:00\",\"kind\":\"General\",\"state\":\"NoDeadline\",\"is_hidden\":false}]"
    );
}

#[test]
fn todo_list_all_kinds_roundtrip() {
    let todos = vec![
        sample_todo("a", "2024-01-01 00:00:01", TodoKind::General),
        sample_todo("b", "2024-01-01 00:00:02", TodoKind::Progress(String::from("half done"))),
        sample_todo("c", "2024-01-01 00:00:03", TodoKind::Week(Weekday::Wed)),
        sample_todo("d", "2024-01-01 00:00:04", TodoKind::Month(31)),
        sample_todo(
            "e",
            "2024-01-01 00:00:05",
            TodoKind::Once(Date { year: 2025, month: 2, day: 28 }),
        ),
    ];
    let enc = encode_todo_list(&todos);
    let back = decode_todo_list(&enc).unwrap();
    assert_eq!(back, todos);
}

#[test]
fn todo_text_escapes_roundtrip() {
    let tricky = "say \"hi\"\\ tab\there\nnewline \u{1} end";
    let todos = vec![sample_todo(tricky, "2024-01-01 00:00:01", TodoKind::General)];
    let enc = encode_todo_list(&todos);
    let back = decode_todo_list(&enc).unwrap();
    assert_eq!(back[0].text, tricky);
}

#[test]
fn todo_states_and_hidden_roundtrip() {
    let mut todos = Vec::new();
    for (i, state) in [
        TodoState::NoDeadline,
        TodoState::InProgress,
        TodoState::UpComing,
        TodoState::Expired,
    ]
    .into_iter()
    .enumerate()
    {
        let mut t = sample_todo("t", "2024-01-01 00:00:00", TodoKind::General);
        t.state = state;
        t.is_hidden = i % 2 == 1;
        todos.push(t);
    }
    let back = decode_todo_list(&encode_todo_list(&todos)).unwrap();
    assert_eq!(back, todos);
}

#[test]
fn todo_list_rejects_malformed_text() {
    assert!(decode_todo_list("").is_none());
    assert!(decode_todo_list("[").is_none());
    assert!(decode_todo_list("[{\"text\":\"a\"}]").is_none());
    assert!(decode_todo_list("[] ").is_none());
}

#[test]
fn loader_defaults_cover_empty_and_unreadable_texts() {
    let (st, ok) = ttd_v2::decode_sync_state_or_default("");
    assert!(ok);
    assert_eq!(st, SyncState::default());
    let (st, ok) = ttd_v2::decode_sync_state_or_default("corrupt");
    assert!(!ok);
    assert_eq!(st, SyncState::default());
    let good = encode_sync_state(&sample_state());
    let (st, ok) = ttd_v2::decode_sync_state_or_default(&good);
    assert!(ok);
    assert_eq!(st, sample_state());

    let (todos, ok) = ttd_v2::decode_todo_list_or_empty("");
    assert!(ok);
    assert!(todos.is_empty());
    let (todos, ok) = ttd_v2::decode_todo_list_or_empty("[oops");
    assert!(!ok);
    assert!(todos.is_empty());
    let one = vec![sample_todo("keep", "2024-01-01 00:00:01", TodoKind::General)];
    let (todos, ok) = ttd_v2::decode_todo_list_or_empty(&encode_todo_list(&one));
    assert!(ok);
    assert_eq!(todos, one);
}

#[test]
fn encoded_state_is_plain_json_to_other_readers() {
    let enc = encode_sync_state(&sample_state());
    let v: serde_json::Value = serde_json::from_str(&enc).unwrap();
    assert_eq!(v["id"].as_str(), Some("abc"));
    assert_eq!(v["last_sync_kind"].as_str(), Some("LocalSave"));
    assert_eq!(v["last_save_at"].as_str(), Some("2024-12-22T10:30:00"));
}

#[test]
fn encoded_todos_are_plain_json_to_other_readers() {
    let todos = vec![
        sample_todo("quote \" here", "2024-01-01 00:00:01", TodoKind::Week(Weekday::Fri)),
        sample_todo("n", "2024-01-01 00:00:02", TodoKind::Month(9)),
    ];
    let enc = encode_todo_list(&todos);
    let v: serde_json::Value = serde_json::from_str(&enc).unwrap();
    assert_eq!(v[0]["text"].as_str(), Some("quote \" here"));
    assert_eq!(v[0]["kind"]["Week"].as_str(), Some("Fri"));
    assert_eq!(v[1]["kind"]["Month"].as_u64(), Some(9));
    assert_eq!(v[1]["is_hidden"].as_bool(), Some(false));
}

#[test]
fn decoder_reads_other_writers_compact_json() {
    let text =
        "[{\"text\":\"from the old files\",\"created_at\":\"2023-05-06 07:08:09\",\"kind\":{\"Once\":\"2023-06-01\"},\"state\":\"Expired\",\"is_hidden\":false}]";
    let back = decode_todo_list(text).unwrap();
    assert_eq!(back.len(), 1);
    assert_eq!(back[0].kind, TodoKind::Once(Date { year: 2023, month: 6, day: 1 }));
    assert_eq!(back[0].state, TodoState::Expired);
}
