use ttd_v2::Date;
use ttd_v2::DateTime;
use ttd_v2::DiscoveryEvent;
use ttd_v2::DiscoveryStep;
use ttd_v2::ProtocolError;
use ttd_v2::SyncAction;
use ttd_v2::SyncReply;
use ttd_v2::SyncState;
use ttd_v2::Todo;
use ttd_v2::TodoKind;
use ttd_v2::TodoState;
use ttd_v2::apply_sync_reply;
use ttd_v2::build_frame;
use ttd_v2::build_sync_request;
use ttd_v2::discovery_decide;
use ttd_v2::discovery_reply_bytes;
use ttd_v2::discovery_request_bytes;
use ttd_v2::encode_todo_list;
use ttd_v2::is_discovery_reply;
use ttd_v2::is_discovery_request;
use ttd_v2::parse_sync_response;
use ttd_v2::server_session;
use ttd_v2::split_frame;

fn moment(y: u32, mo: u32, d: u32, h: u32, mi: u32, s: u32) -> DateTime {
    DateTime { date: Date { year: y, month: mo, day: d }, hour: h, minute: mi, second: s }
}

fn state(kind: SyncAction, at: DateTime) -> SyncState {
    SyncState { id: String::from("peer"), last_sync_kind: kind, last_save_at: at }
}

fn task(text: &str, created: &str) -> Todo {
    Todo {
        text: String::from(text),
        created_at: String::from(created),
        kind: TodoKind::General,
        state: TodoState::NoDeadline,
        is_hidden: false,
    }
}

#[test]
fn framing_roundtrip_three_records() {
    let c = "[{\"text\":\"a\"},{\"text\":\"b\"},{\"text\":\"c\"}]";
    let s = "{\"id\":\"x\"}";
    let frame = build_frame(c, s);
    let (c2, s2) = split_frame(&frame).unwrap();
    assert_eq!(c2, c);
    assert_eq!(s2, s);
}

#[test]
fn framing_splits_at_first_delimiter() {
    let frame = build_frame("left", "middle----right");
    let (a, b) = split_frame(&frame).unwrap();
    assert_eq!(a, "left");
    assert_eq!(b, "middle----right");
    assert!(split_frame("no delimiter here").is_none());
}

#[test]
fn discovery_tokens_are_distinct_fixed_bytes() {
    let req = discovery_request_bytes();
    let rep = discovery_reply_bytes();
    assert_eq!(req, b"yuri".to_vec());
    assert_eq!(rep, b"lily".to_vec());
    assert!(is_discovery_request(&req));
    assert!(!is_discovery_request(&rep));
    assert!(is_discovery_reply(&rep));
    assert!(!is_discovery_reply(&req));
    assert!(!is_discovery_reply(&b"lilyx".to_vec()));
}

#[test]
fn scenario_fresh_installations_tie_and_transfer_nothing() {
    let client_state = SyncState::default();
    let client_todos: Vec<Todo> = Vec::new();
    let request = build_sync_request(&client_todos, &client_state);
    let outcome = server_session(&request, "", "").unwrap();
    assert_eq!(outcome.response, "synced");
    assert!(outcome.persist.is_none());
    let reply = parse_sync_response(&outcome.response).unwrap();
    assert!(matches!(reply, SyncReply::AlreadySynced));
    let mut todos = client_todos;
    let mut st = client_state;
    apply_sync_reply(&mut todos, &mut st, Some(reply));
    assert!(todos.is_empty());
    assert_eq!(st, SyncState::default());
}

#[test]
fn scenario_newer_client_uploads_to_server() {
    let t1 = moment(2024, 12, 22, 9, 0, 0);
    let t2 = moment(2024, 12, 22, 10, 0, 0);
    let server_state = state(SyncAction::LocalSave, t1);
    let server_todos = vec![task("old", "2024-12-20 08:00:00")];
    let stored_state = ttd_v2::encode_sync_state(&server_state);
    let stored_todos = encode_todo_list(&server_todos);

    let client_state = state(SyncAction::LocalSave, t2);
    let client_todos = vec![
        task("one", "2024-12-22 09:10:00"),
        task("two", "2024-12-22 09:20:00"),
        task("three", "2024-12-22 09:30:00"),
    ];
    let request = build_sync_request(&client_todos, &client_state);

    let outcome = server_session(&request, &stored_state, &stored_todos).unwrap();
    assert_eq!(outcome.response, "synced");
    let (new_state, new_todos) = outcome.persist.unwrap();
    assert_eq!(new_state.last_sync_kind, SyncAction::UploadToServer);
    assert_eq!(new_state.last_save_at, t2);
    assert_eq!(new_todos, client_todos);

    let reply = parse_sync_response(&outcome.response).unwrap();
    assert!(matches!(reply, SyncReply::AlreadySynced));
}

#[test]
fn scenario_stale_client_downloads_from_server() {
    let t1 = moment(2024, 12, 22, 9, 0, 0);
    let t2 = moment(2024, 12, 22, 10, 0, 0);
    let server_state = state(SyncAction::LocalSave, t2);
    let server_todos = vec![task("authoritative", "2024-12-21 08:00:00")];
    let stored_state = ttd_v2::encode_sync_state(&server_state);
    let stored_todos = encode_todo_list(&server_todos);

    let client_state = state(SyncAction::LocalSave, t1);
    let mut client_todos = vec![task("stale", "2024-12-19 08:00:00")];
    let request = build_sync_request(&client_todos, &client_state);

    let outcome = server_session(&request, &stored_state, &stored_todos).unwrap();
    let (persist_state, persist_todos) = outcome.persist.unwrap();
    assert_eq!(persist_state.last_sync_kind, SyncAction::DownloadFromServer);
    assert_eq!(persist_todos, server_todos);

    let reply = parse_sync_response(&outcome.response).unwrap();
    let mut client_state = client_state;
    apply_sync_reply(&mut client_todos, &mut client_state, Some(reply));
    assert_eq!(client_todos, server_todos);
    assert_eq!(client_state.last_sync_kind, SyncAction::DownloadFromServer);
    assert_eq!(client_state.last_save_at, t2);
}

#[test]
fn scenario_no_peer_leaves_store_untouched() {
    let step = discovery_decide(&DiscoveryEvent::RecvTimeout);
    assert_eq!(step, DiscoveryStep::KeepWaiting);
    let noise = discovery_decide(&DiscoveryEvent::Datagram(b"oops".to_vec()));
    assert_eq!(noise, DiscoveryStep::KeepWaiting);
    let done = discovery_decide(&DiscoveryEvent::DeadlineExpired);
    assert_eq!(done, DiscoveryStep::GiveUp);
    let hit = discovery_decide(&DiscoveryEvent::Datagram(b"lily".to_vec()));
    assert_eq!(hit, DiscoveryStep::Connect);

    let mut todos = vec![task("mine", "2024-12-22 09:10:00")];
    let expected = vec![task("mine", "2024-12-22 09:10:00")];
    let mut st = SyncState::default();
    apply_sync_reply(&mut todos, &mut st, None);
    assert_eq!(todos, expected);
    assert_eq!(st, SyncState::default());
}

#[test]
fn response_without_delimiter_is_missing_delimiter() {
    assert!(matches!(
        parse_sync_response("complete garbage"),
        Err(ProtocolError::MissingDelimiter)
    ));
}

#[test]
fn response_with_bad_payload_is_malformed() {
    assert!(matches!(
        parse_sync_response("junk----more junk"),
        Err(ProtocolError::MalformedPayload)
    ));
}

#[test]
fn request_without_delimiter_is_missing_delimiter() {
    assert!(matches!(
        server_session("nonsense", "", ""),
        Err(ProtocolError::MissingDelimiter)
    ));
}

#[test]
fn request_with_bad_state_is_malformed() {
    assert!(matches!(
        server_session("[]----nonsense", "", ""),
        Err(ProtocolError::MalformedPayload)
    ));
}

#[test]
fn corrupt_stored_state_is_malformed() {
    let request = build_sync_request(&Vec::new(), &SyncState::default());
    assert!(matches!(
        server_session(&request, "corrupt", "[]"),
        Err(ProtocolError::MalformedPayload)
    ));
}
