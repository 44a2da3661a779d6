//! Core of a peer-synchronized personal task tracker.
//!
//! The library holds the verified logic of the system: the task record
//! model and its suffix grammar, the sync metadata and the reconciliation
//! rule, the field-tagged text codec used for persistence and transfer,
//! the delimiter framing of the wire protocol, and the decision functions
//! of the client and server sync sessions. Network and file I/O, the
//! terminal interface, and the clock live outside, in the application
//! shell, which hands plain values in and takes plain values back.

pub mod app;
pub mod chars;
pub mod codec;
pub mod date;
pub mod protocol;
pub mod sync;
pub mod todo;

pub use app::App;
pub use app::AppEffect;
pub use app::AppView;
pub use app::FilterType;
pub use app::InputMode;
pub use app::Key;
pub use app::Message;
pub use app::count_visible;
pub use app::key_to_message;
pub use app::nth_visible;
pub use app::reset_hidden_flags;
pub use app::rewrite_text;
pub use app::set_hidden_flags;
pub use chars::parse_u32;
pub use chars::u32_to_string;
pub use codec::decode_sync_state;
pub use codec::decode_todo_list;
pub use codec::encode_sync_state;
pub use codec::encode_todo_list;
pub use date::Date;
pub use date::DateTime;
pub use date::Weekday;
pub use protocol::DiscoveryEvent;
pub use protocol::DiscoveryStep;
pub use protocol::ProtocolError;
pub use protocol::ServerSessionOutcome;
pub use protocol::SyncReply;
pub use protocol::apply_sync_reply;
pub use protocol::build_frame;
pub use protocol::build_sync_request;
pub use protocol::decode_sync_state_or_default;
pub use protocol::decode_todo_list_or_empty;
pub use protocol::discovery_decide;
pub use protocol::discovery_reply_bytes;
pub use protocol::discovery_request_bytes;
pub use protocol::is_discovery_reply;
pub use protocol::is_discovery_request;
pub use protocol::parse_sync_response;
pub use protocol::server_session;
pub use protocol::split_frame;
pub use sync::ReconcileOutcome;
pub use sync::SyncAction;
pub use sync::SyncState;
pub use sync::SyncStateView;
pub use sync::reconcile;
pub use todo::KindView;
pub use todo::Todo;
pub use todo::TodoKind;
pub use todo::TodoState;
pub use todo::TodoView;
