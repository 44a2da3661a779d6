//! The wire protocol: delimiter framing, discovery tokens, and the
//! client side of a sync session.
//!
//! A session's request and a data-bearing response both carry two
//! payloads around a fixed four-character delimiter; a response may
//! instead be the fixed acknowledgment. Discovery exchanges two fixed
//! four-byte tokens over the broadcast port. The functions here turn
//! payloads into frames and frames back into payloads; the sockets that
//! carry them live in the application shell.

use vstd::prelude::*;

use crate::codec::dec_sync_state;
use crate::codec::dec_todo_list;
use crate::codec::decode_sync_state;
use crate::codec::decode_todo_list;
use crate::codec::enc_sync_state;
use crate::codec::enc_todo_list;
use crate::codec::encode_sync_state;
use crate::codec::encode_todo_list;
use crate::codec::views_of;
use crate::sync::SyncAction;
use crate::sync::SyncState;
use crate::sync::SyncStateView;
use crate::sync::ReconcileOutcome;
use crate::sync::spec_reconcile;
use crate::todo::Todo;
use crate::todo::TodoView;
use crate::todo::wf_todo;
use crate::date::valid_datetime;

verus! {

/// The four-character run that separates the two payloads of a frame.
pub open spec fn frame_sep() -> Seq<char> {
    seq!['-', '-', '-', '-']
}

/// The delimiter stands at position `i`.
pub open spec fn sep_at(s: Seq<char>, i: int) -> bool {
    0 <= i && i + 4 <= s.len() && s[i] == '-' && s[i + 1] == '-' && s[i + 2] == '-'
        && s[i + 3] == '-'
}

/// Position of the first delimiter at or after `i`; negative if none.
pub open spec fn first_sep(s: Seq<char>, i: int) -> int
    decreases s.len() - i,
{
    if i < 0 || i + 4 > s.len() {
        -1
    } else if sep_at(s, i) {
        i
    } else {
        first_sep(s, i + 1)
    }
}

/// The two payloads of a frame, split at the first delimiter.
pub open spec fn spec_split_frame(s: Seq<char>) -> Option<(Seq<char>, Seq<char>)> {
    let k = first_sep(s, 0);
    if k >= 0 {
        Some((s.subrange(0, k), s.subrange(k + 4, s.len() as int)))
    } else {
        None
    }
}

/// A frame: the first payload, the delimiter, the second payload.
pub open spec fn spec_frame(a: Seq<char>, b: Seq<char>) -> Seq<char> {
    a + frame_sep() + b
}

/// Joins two payloads around the delimiter.
pub fn build_frame(a: &str, b: &str) -> (r: String)
    ensures
        r@ == spec_frame(a@, b@),
{
    let mut out = String::new();
    out.append(a);
    out.append("----");
    out.append(b);
    proof {
        reveal_strlit("----");
        assert("----"@ =~= frame_sep());
        assert(out@ =~= spec_frame(a@, b@));
    }
    out
}

fn sep_at_exec(s: &str, i: usize) -> (r: bool)
    requires
        i + 4 <= s@.len() <= usize::MAX,
    ensures
        r == sep_at(s@, i as int),
{
    s.get_char(i) == '-' && s.get_char(i + 1) == '-' && s.get_char(i + 2) == '-'
        && s.get_char(i + 3) == '-'
}

/// Splits a frame at the first delimiter, if one stands anywhere in it.
pub fn split_frame(s: &str) -> (r: Option<(&str, &str)>)
    requires
        s@.len() <= usize::MAX,
    ensures
        r is Some <==> spec_split_frame(s@) is Some,
        r is Some ==> r.unwrap().0@ == spec_split_frame(s@).unwrap().0 && r.unwrap().1@
            == spec_split_frame(s@).unwrap().1 && r.unwrap().0@.len() <= s@.len()
            && r.unwrap().1@.len() <= s@.len(),
{
    let n = s.unicode_len();
    let mut i: usize = 0;
    while n >= 4 && i <= n - 4
        invariant
            0 <= i <= n,
            n == s@.len() <= usize::MAX,
            first_sep(s@, 0) == first_sep(s@, i as int),
        decreases n - i,
    {
        if sep_at_exec(s, i) {
            return Some((s.substring_char(0, i), s.substring_char(i + 4, n)));
        }
        i = i + 1;
    }
    None
}

/// The delimiter at the join is the first one whenever the first
/// payload holds no delimiter run and does not end in the delimiter's
/// character; splitting the frame then recovers both payloads exactly.
pub proof fn lemma_frame_roundtrip(a: Seq<char>, b: Seq<char>)
    requires
        forall|j: int| !sep_at(a, j),
        a.len() > 0 ==> a[a.len() - 1] != '-',
    ensures
        spec_split_frame(spec_frame(a, b)) == Some((a, b)),
{
    let w = spec_frame(a, b);
    assert(sep_at(w, a.len() as int)) by {
        assert(w[a.len() as int] == frame_sep()[0]);
        assert(w[a.len() as int + 1] == frame_sep()[1]);
        assert(w[a.len() as int + 2] == frame_sep()[2]);
        assert(w[a.len() as int + 3] == frame_sep()[3]);
    }
    assert forall|j: int| 0 <= j < a.len() implies !#[trigger] sep_at(w, j) by {
        if sep_at(w, j) {
            if j + 4 <= a.len() {
                assert(w[j] == a[j]);
                assert(w[j + 1] == a[j + 1]);
                assert(w[j + 2] == a[j + 2]);
                assert(w[j + 3] == a[j + 3]);
                assert(sep_at(a, j));
            } else {
                let m = a.len() as int - 1;
                assert(j <= m < j + 4);
                assert(w[m] == a[m]);
                assert(w[m] == '-');
            }
        }
    }
    lemma_first_sep_fixed(w, 0, a.len() as int);
    assert(w.subrange(0, a.len() as int) =~= a);
    assert(w.subrange(a.len() as int + 4, w.len() as int) =~= b);
}

proof fn lemma_first_sep_fixed(s: Seq<char>, i: int, k: int)
    requires
        0 <= i <= k,
        k + 4 <= s.len(),
        sep_at(s, k),
        forall|j: int| i <= j < k ==> !#[trigger] sep_at(s, j),
    ensures
        first_sep(s, i) == k,
    decreases k - i,
{
    if i < k {
        lemma_first_sep_fixed(s, i + 1, k);
    }
}

/// The token a client broadcasts to look for a peer.
pub open spec fn discovery_request_token() -> Seq<u8> {
    seq![121u8, 117u8, 114u8, 105u8]
}

/// The token a server sends back to a discovered client.
pub open spec fn discovery_reply_token() -> Seq<u8> {
    seq![108u8, 105u8, 108u8, 121u8]
}

/// The request token as bytes to send.
pub fn discovery_request_bytes() -> (r: Vec<u8>)
    ensures
        r@ == discovery_request_token(),
{
    let mut v: Vec<u8> = Vec::new();
    v.push(121);
    v.push(117);
    v.push(114);
    v.push(105);
    proof {
        assert(v@ =~= discovery_request_token());
    }
    v
}

/// The reply token as bytes to send.
pub fn discovery_reply_bytes() -> (r: Vec<u8>)
    ensures
        r@ == discovery_reply_token(),
{
    let mut v: Vec<u8> = Vec::new();
    v.push(108);
    v.push(105);
    v.push(108);
    v.push(121);
    proof {
        assert(v@ =~= discovery_reply_token());
    }
    v
}

/// Whether a datagram is the client's discovery request.
pub fn is_discovery_request(buf: &Vec<u8>) -> (r: bool)
    ensures
        r == (buf@ == discovery_request_token()),
{
    if buf.len() == 4 && buf[0] == 121 && buf[1] == 117 && buf[2] == 114 && buf[3] == 105 {
        proof {
            assert(buf@ =~= discovery_request_token());
        }
        true
    } else {
        false
    }
}

/// Whether a datagram is the server's discovery reply.
pub fn is_discovery_reply(buf: &Vec<u8>) -> (r: bool)
    ensures
        r == (buf@ == discovery_reply_token()),
{
    if buf.len() == 4 && buf[0] == 108 && buf[1] == 105 && buf[2] == 108 && buf[3] == 121 {
        proof {
            assert(buf@ =~= discovery_reply_token());
        }
        true
    } else {
        false
    }
}

/// What the discovery loop sees while waiting for a peer.
#[derive(Debug)]
pub enum DiscoveryEvent {
    /// A datagram arrived with this payload.
    Datagram(Vec<u8>),
    /// One receive attempt timed out.
    RecvTimeout,
    /// The overall discovery deadline passed.
    DeadlineExpired,
}

/// What the discovery loop does next.
#[derive(Clone, Copy, Debug, PartialEq, Eq, Structural)]
pub enum DiscoveryStep {
    /// Keep receiving: nothing decisive arrived.
    KeepWaiting,
    /// The peer answered: open the transfer connection to the sender.
    Connect,
    /// No peer within the window: a normal outcome, not an error.
    GiveUp,
}

/// Decides one step of the discovery loop: connect on the reply token,
/// give up when the deadline passes, keep waiting otherwise.
pub fn discovery_decide(ev: &DiscoveryEvent) -> (r: DiscoveryStep)
    ensures
        r == match ev {
            DiscoveryEvent::Datagram(p) => if p@ == discovery_reply_token() {
                DiscoveryStep::Connect
            } else {
                DiscoveryStep::KeepWaiting
            },
            DiscoveryEvent::RecvTimeout => DiscoveryStep::KeepWaiting,
            DiscoveryEvent::DeadlineExpired => DiscoveryStep::GiveUp,
        },
{
    match ev {
        DiscoveryEvent::Datagram(p) => {
            if is_discovery_reply(p) {
                DiscoveryStep::Connect
            } else {
                DiscoveryStep::KeepWaiting
            }
        },
        DiscoveryEvent::RecvTimeout => DiscoveryStep::KeepWaiting,
        DiscoveryEvent::DeadlineExpired => DiscoveryStep::GiveUp,
    }
}

/// A response or file holds exactly one collection when the whole text
/// reads as one.
pub open spec fn full_todo_list(s: Seq<char>) -> Option<Seq<TodoView>> {
    if dec_todo_list(s, 0) is Some && dec_todo_list(s, 0).unwrap().1 == s.len() {
        Some(dec_todo_list(s, 0).unwrap().0)
    } else {
        None
    }
}

/// A response or file holds exactly one sync state when the whole text
/// reads as one.
pub open spec fn full_sync_state(s: Seq<char>) -> Option<SyncStateView> {
    if dec_sync_state(s, 0) is Some && dec_sync_state(s, 0).unwrap().1 == s.len() {
        Some(dec_sync_state(s, 0).unwrap().0)
    } else {
        None
    }
}

/// The fixed acknowledgment opens the response: the local data was
/// authoritative or already current.
pub open spec fn is_ack(s: Seq<char>) -> bool {
    s.len() >= 6 && s.subrange(0, 6) == "synced"@
}

/// Why a session was abandoned; nothing is applied in either case.
#[derive(Clone, Copy, Debug, PartialEq, Eq, Structural)]
pub enum ProtocolError {
    /// A data-bearing message held no delimiter run.
    MissingDelimiter,
    /// A payload did not read back as a collection or sync state.
    MalformedPayload,
}

/// What a sync session told the client to do.
#[derive(Debug)]
pub enum SyncReply {
    /// The server acknowledged: local data stands, nothing to apply.
    AlreadySynced,
    /// The server was newer: adopt its collection and sync state
    /// wholesale.
    Adopt { state: SyncState, todos: Vec<Todo> },
}

/// The request a client sends: its collection and sync state around
/// the delimiter.
pub fn build_sync_request(todos: &Vec<Todo>, st: &SyncState) -> (r: String)
    requires
        forall|k: int| 0 <= k < todos@.len() ==> wf_todo(#[trigger] todos@[k]@),
        valid_datetime(st@.last_save_at),
    ensures
        r@ == spec_frame(enc_todo_list(views_of(todos@)), enc_sync_state(st@)),
{
    let a = encode_todo_list(todos);
    let b = encode_sync_state(st);
    build_frame(a.as_str(), b.as_str())
}

/// Reads a server's response: the acknowledgment means nothing to
/// apply; a data-bearing frame means the server was newer, and its
/// state is adopted with the operation kind stamped as a download; a
/// response with no delimiter or an unreadable payload abandons the
/// session.
pub fn parse_sync_response(resp: &str) -> (r: Result<SyncReply, ProtocolError>)
    requires
        resp@.len() <= usize::MAX,
    ensures
        is_ack(resp@) ==> r matches Ok(SyncReply::AlreadySynced),
        !is_ack(resp@) && spec_split_frame(resp@) is None ==> r == Err::<SyncReply,
            ProtocolError>(ProtocolError::MissingDelimiter),
        !is_ack(resp@) ==> (spec_split_frame(resp@) matches Some((c, t)) ==> ((
        full_todo_list(c) is None || full_sync_state(t) is None) ==> r == Err::<SyncReply,
            ProtocolError>(ProtocolError::MalformedPayload))),
        !is_ack(resp@) ==> (spec_split_frame(resp@) matches Some((c, t)) ==> (
        full_todo_list(c) matches Some(l) ==> (full_sync_state(t) matches Some(v) ==> (
        r matches Ok(SyncReply::Adopt { state, todos }) && state@ == (SyncStateView {
            last_sync_kind: SyncAction::DownloadFromServer,
            ..v
        }) && views_of(todos@) == l)))),
{
    proof {
        reveal_strlit("synced");
    }
    if let Some(_) = crate::codec::expect_lit(resp, 0, "synced") {
        return Ok(SyncReply::AlreadySynced);
    }
    let (craw, ctext) = match split_frame(resp) {
        Some(p) => p,
        None => {
            return Err(ProtocolError::MissingDelimiter);
        },
    };
    let todos = match decode_todo_list(craw) {
        Some(v) => v,
        None => {
            return Err(ProtocolError::MalformedPayload);
        },
    };
    let st = match decode_sync_state(ctext) {
        Some(v) => v,
        None => {
            return Err(ProtocolError::MalformedPayload);
        },
    };
    Ok(SyncReply::Adopt {
        state: SyncState {
            id: st.id,
            last_sync_kind: SyncAction::DownloadFromServer,
            last_save_at: st.last_save_at,
        },
        todos,
    })
}

/// Applies what a sync attempt brought back: a peer's newer data
/// replaces the collection and state wholesale; anything else leaves
/// them untouched.
pub fn apply_sync_reply(todos: &mut Vec<Todo>, state: &mut SyncState, reply: Option<SyncReply>)
    ensures
        match reply {
            Some(SyncReply::Adopt { state: s2, todos: t2 }) => final(todos)@ == t2@
                && final(state)@ == s2@,
            _ => final(todos)@ == old(todos)@ && final(state)@ == old(state)@,
        },
{
    match reply {
        Some(SyncReply::Adopt { state: s2, todos: t2 }) => {
            *todos = t2;
            *state = s2;
        },
        _ => {},
    }
}

/// What the stored server files hold: a missing or empty pair reads as
/// a fresh installation.
pub open spec fn spec_stored_state(state_text: Seq<char>, todos_text: Seq<char>)
    -> Option<SyncStateView> {
    if state_text.len() == 0 || todos_text.len() == 0 {
        Some(crate::sync::spec_fresh_sync_state())
    } else {
        full_sync_state(state_text)
    }
}

/// Reads a stored sync state as the loader does: an empty text is a
/// fresh installation, and an unreadable one falls back to fresh as a
/// recoverable condition. The flag says whether the text was readable.
pub fn decode_sync_state_or_default(s: &str) -> (r: (SyncState, bool))
    requires
        s@.len() <= usize::MAX,
    ensures
        s@.len() == 0 ==> r.0@ == crate::sync::spec_fresh_sync_state() && r.1,
        s@.len() > 0 ==> match full_sync_state(s@) {
            Some(v) => r.0@ == v && r.1,
            None => r.0@ == crate::sync::spec_fresh_sync_state() && !r.1,
        },
{
    if s.unicode_len() == 0 {
        return (SyncState::default(), true);
    }
    match decode_sync_state(s) {
        Some(st) => (st, true),
        None => (SyncState::default(), false),
    }
}

/// Reads a stored collection as the loader does: an empty text is an
/// empty collection, and an unreadable one falls back to empty as a
/// recoverable condition. The flag says whether the text was readable.
pub fn decode_todo_list_or_empty(s: &str) -> (r: (Vec<Todo>, bool))
    requires
        s@.len() <= usize::MAX,
    ensures
        s@.len() == 0 ==> views_of(r.0@) == Seq::<TodoView>::empty() && r.1,
        s@.len() > 0 ==> match full_todo_list(s@) {
            Some(l) => views_of(r.0@) == l && r.1,
            None => views_of(r.0@) == Seq::<TodoView>::empty() && !r.1,
        },
{
    if s.unicode_len() == 0 {
        let v: Vec<Todo> = Vec::new();
        proof {
            assert(views_of(v@) =~= Seq::<TodoView>::empty());
        }
        return (v, true);
    }
    match decode_todo_list(s) {
        Some(v) => (v, true),
        None => {
            let v: Vec<Todo> = Vec::new();
            proof {
                assert(views_of(v@) =~= Seq::<TodoView>::empty());
            }
            (v, false)
        },
    }
}

/// The two parts of a request, when it is well formed: the raw
/// collection text and the decoded sync state.
pub open spec fn spec_request_parts(req: Seq<char>) -> Option<(Seq<char>, SyncStateView)> {
    match spec_split_frame(req) {
        None => None,
        Some((c, t)) => match full_sync_state(t) {
            None => None,
            Some(v) => Some((c, v)),
        },
    }
}

/// What one server session produced: the bytes to send back, and the
/// pair to persist in place of the stored one, if it changed.
#[derive(Debug)]
pub struct ServerSessionOutcome {
    pub response: String,
    pub persist: Option<(SyncState, Vec<Todo>)>,
}

/// Runs one server-side session over a received request and the stored
/// pair: a tie is acknowledged and nothing changes; a newer client is
/// adopted, stamped as an upload, and acknowledged; a newer server
/// sends its own collection and state back, stamped as a download, and
/// persists that stamp. An unreadable request or store abandons the
/// session and changes nothing.
pub fn server_session(req: &str, stored_state: &str, stored_todos: &str) -> (r: Result<
    ServerSessionOutcome,
    ProtocolError,
>)
    requires
        req@.len() <= usize::MAX,
        stored_state@.len() <= usize::MAX,
        stored_todos@.len() <= usize::MAX,
    ensures
        spec_split_frame(req@) is None <==> r == Err::<ServerSessionOutcome,
            ProtocolError>(ProtocolError::MissingDelimiter),
        spec_split_frame(req@) matches Some((c, t)) && full_sync_state(t) is None ==> r
            == Err::<ServerSessionOutcome, ProtocolError>(ProtocolError::MalformedPayload),
        spec_request_parts(req@) is Some && spec_stored_state(stored_state@,
            stored_todos@) is None ==> r == Err::<ServerSessionOutcome, ProtocolError>(
            ProtocolError::MalformedPayload),
        spec_request_parts(req@) matches Some((craw, cst)) ==> (spec_stored_state(
            stored_state@, stored_todos@) matches Some(srv) ==> match spec_reconcile(srv,
            cst) {
            ReconcileOutcome::Tie => r matches Ok(o) && o.response@ == "synced"@
                && o.persist is None,
            ReconcileOutcome::IncomingWins => match full_todo_list(craw) {
                None => r == Err::<ServerSessionOutcome, ProtocolError>(
                    ProtocolError::MalformedPayload),
                Some(l) => r matches Ok(o) && o.response@ == "synced"@ && (
                o.persist matches Some((st2, td2)) && st2@ == (SyncStateView {
                    last_sync_kind: SyncAction::UploadToServer,
                    ..cst
                }) && views_of(td2@) == l),
            },
            ReconcileOutcome::IncumbentWins => match full_todo_list(stored_todos@) {
                None => r == Err::<ServerSessionOutcome, ProtocolError>(
                    ProtocolError::MalformedPayload),
                Some(l) => r matches Ok(o) && o.response@ == spec_frame(stored_todos@,
                    enc_sync_state(SyncStateView {
                    last_sync_kind: SyncAction::DownloadFromServer,
                    ..srv
                })) && (o.persist matches Some((st2, td2)) && st2@ == (SyncStateView {
                    last_sync_kind: SyncAction::DownloadFromServer,
                    ..srv
                }) && views_of(td2@) == l),
            },
        }),
{
    let (craw, ctext) = match split_frame(req) {
        Some(p) => p,
        None => {
            return Err(ProtocolError::MissingDelimiter);
        },
    };
    let client_state = match decode_sync_state(ctext) {
        Some(v) => v,
        None => {
            return Err(ProtocolError::MalformedPayload);
        },
    };
    let server_state = if stored_state.unicode_len() == 0 || stored_todos.unicode_len()
        == 0 {
        SyncState::default()
    } else {
        match decode_sync_state(stored_state) {
            Some(v) => v,
            None => {
                return Err(ProtocolError::MalformedPayload);
            },
        }
    };
    match crate::sync::reconcile(&server_state, &client_state) {
        ReconcileOutcome::Tie => Ok(ServerSessionOutcome {
            response: String::from_str("synced"),
            persist: None,
        }),
        ReconcileOutcome::IncomingWins => {
            let todos = match decode_todo_list(craw) {
                Some(v) => v,
                None => {
                    return Err(ProtocolError::MalformedPayload);
                },
            };
            let new_state = SyncState {
                id: client_state.id,
                last_sync_kind: SyncAction::UploadToServer,
                last_save_at: client_state.last_save_at,
            };
            Ok(ServerSessionOutcome {
                response: String::from_str("synced"),
                persist: Some((new_state, todos)),
            })
        },
        ReconcileOutcome::IncumbentWins => {
            let todos = match decode_todo_list(stored_todos) {
                Some(v) => v,
                None => {
                    return Err(ProtocolError::MalformedPayload);
                },
            };
            let new_state = SyncState {
                id: server_state.id,
                last_sync_kind: SyncAction::DownloadFromServer,
                last_save_at: server_state.last_save_at,
            };
            proof {
                crate::date::lemma_parse_datetime_valid(ctext@, 'T');
            }
            proof {
                if !(stored_state@.len() == 0 || stored_todos@.len() == 0) {
                    crate::date::lemma_parse_datetime_valid(stored_state@, 'T');
                }
            }
            let enc = encode_sync_state(&new_state);
            let response = build_frame(stored_todos, enc.as_str());
            Ok(ServerSessionOutcome { response, persist: Some((new_state, todos)) })
        },
    }
}

} // verus!
