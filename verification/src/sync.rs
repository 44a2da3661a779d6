//! Sync metadata and the reconciliation rule.
//!
//! A [`SyncState`] travels beside the task collection and is the sole
//! input of conflict resolution: an identity string, the kind of the last
//! operation, and the time of the last local save. [`reconcile`] compares
//! two such states and decides which side's collection becomes
//! authoritative; the decision is keyed only by the save time.

use vstd::prelude::*;

use crate::date::DateTime;
use crate::date::datetime_lt;
use crate::date::spec_epoch;
use crate::date::valid_datetime;

verus! {

/// The kind of the operation that last touched the local data.
#[derive(Clone, Copy, Debug, PartialEq, Eq, Structural)]
pub enum SyncAction {
    /// Fresh installation: nothing has ever been saved or synchronized.
    Init,
    /// A user action saved the collection locally.
    LocalSave,
    /// A server adopted this collection from a client.
    UploadToServer,
    /// A client adopted this collection from a server.
    DownloadFromServer,
}

impl Default for SyncAction {
    /// A fresh installation starts at the `Init` marker.
    fn default() -> (r: Self)
        ensures
            r == SyncAction::Init,
    {
        SyncAction::Init
    }
}

/// Metadata that travels beside the task collection; the sole input of
/// conflict resolution.
#[derive(Debug)]
pub struct SyncState {
    pub id: String,
    pub last_sync_kind: SyncAction,
    pub last_save_at: DateTime,
}

/// Mathematical image of a [`SyncState`]: the identity as a character
/// sequence, the other fields as plain values.
pub struct SyncStateView {
    pub id: Seq<char>,
    pub last_sync_kind: SyncAction,
    pub last_save_at: DateTime,
}

impl View for SyncState {
    type V = SyncStateView;

    open spec fn view(&self) -> SyncStateView {
        SyncStateView {
            id: self.id@,
            last_sync_kind: self.last_sync_kind,
            last_save_at: self.last_save_at,
        }
    }
}

/// The state of a fresh installation: empty identity, the `Init`
/// marker, the epoch save time.
pub open spec fn spec_fresh_sync_state() -> SyncStateView {
    SyncStateView {
        id: Seq::empty(),
        last_sync_kind: SyncAction::Init,
        last_save_at: spec_epoch(),
    }
}

/// A state that can actually arise: the `Init` marker goes with the epoch
/// save time and nothing else, since every mutating save stamps the clock,
/// and the save time is a real calendar value.
pub open spec fn wf_sync_state(v: SyncStateView) -> bool {
    &&& valid_datetime(v.last_save_at)
    &&& (v.last_sync_kind == SyncAction::Init ==> v.last_save_at == spec_epoch())
    &&& (v.last_sync_kind != SyncAction::Init ==> datetime_lt(spec_epoch(), v.last_save_at))
}

impl PartialEq for SyncState {
    /// Two states are equal when all their fields are.
    fn eq(&self, other: &SyncState) -> (r: bool) {
        self.id == other.id && self.last_sync_kind == other.last_sync_kind
            && self.last_save_at == other.last_save_at
    }
}

impl vstd::std_specs::cmp::PartialEqSpecImpl for SyncState {
    open spec fn obeys_eq_spec() -> bool {
        true
    }

    open spec fn eq_spec(&self, other: &SyncState) -> bool {
        self@ == other@
    }
}

impl SyncState {
    /// Copies the state field by field.
    pub fn duplicate(&self) -> (r: SyncState)
        ensures
            r@ == self@,
    {
        SyncState {
            id: self.id.clone(),
            last_sync_kind: self.last_sync_kind,
            last_save_at: self.last_save_at,
        }
    }
}

impl Default for SyncState {
    /// A fresh installation: empty identity, `Init`, epoch save time.
    fn default() -> (r: Self)
        ensures
            r@ == spec_fresh_sync_state(),
            wf_sync_state(r@),
    {
        SyncState {
            id: String::new(),
            last_sync_kind: SyncAction::Init,
            last_save_at: DateTime::epoch(),
        }
    }
}

/// The reconciler's verdict on a pair (incumbent `A`, incoming `B`).
#[derive(Clone, Copy, Debug, PartialEq, Eq, Structural)]
pub enum ReconcileOutcome {
    /// Both sides already hold the authoritative snapshot; no transfer.
    Tie,
    /// The incoming side's collection becomes authoritative.
    IncomingWins,
    /// The incumbent keeps its collection; the incoming side must adopt it.
    IncumbentWins,
}

/// The reconciliation rule on two states `a` (incumbent) and `b`
/// (incoming): fresh against fresh is a tie, equal save times are a tie,
/// and otherwise the later save time wins outright, a never-saved
/// incumbent losing to any saved incoming side.
pub open spec fn spec_reconcile(a: SyncStateView, b: SyncStateView) -> ReconcileOutcome {
    if a.last_sync_kind == SyncAction::Init && b.last_sync_kind == SyncAction::Init {
        ReconcileOutcome::Tie
    } else if a.last_save_at == b.last_save_at {
        ReconcileOutcome::Tie
    } else if datetime_lt(a.last_save_at, b.last_save_at) || a.last_sync_kind
        == SyncAction::Init {
        ReconcileOutcome::IncomingWins
    } else {
        ReconcileOutcome::IncumbentWins
    }
}

/// Decides which of two sync states holds the authoritative collection.
pub fn reconcile(a: &SyncState, b: &SyncState) -> (r: ReconcileOutcome)
    ensures
        r == spec_reconcile(a@, b@),
{
    if a.last_sync_kind == SyncAction::Init && b.last_sync_kind == SyncAction::Init {
        ReconcileOutcome::Tie
    } else if a.last_save_at == b.last_save_at {
        ReconcileOutcome::Tie
    } else if a.last_save_at.lt(&b.last_save_at) || a.last_sync_kind == SyncAction::Init {
        ReconcileOutcome::IncomingWins
    } else {
        ReconcileOutcome::IncumbentWins
    }
}

/// The reconciler is a total order on well-formed states: each pair gets
/// exactly one verdict, swapping the sides turns a win for one side into
/// a win for the same side seen from the other end, and a tie stays a tie.
pub proof fn lemma_reconcile_total_order(a: SyncStateView, b: SyncStateView)
    requires
        wf_sync_state(a),
        wf_sync_state(b),
    ensures
        spec_reconcile(a, b) == ReconcileOutcome::IncomingWins <==> spec_reconcile(b, a)
            == ReconcileOutcome::IncumbentWins,
        spec_reconcile(a, b) == ReconcileOutcome::Tie <==> spec_reconcile(b, a)
            == ReconcileOutcome::Tie,
{
    crate::date::lemma_datetime_order_trichotomy(a.last_save_at, b.last_save_at);
}

/// Reconciling any state against itself is a tie.
pub proof fn lemma_reconcile_idempotent(a: SyncStateView)
    ensures
        spec_reconcile(a, a) == ReconcileOutcome::Tie,
{
}

/// An earlier save time loses to a later one whatever the operation
/// kinds, the one exception being two fresh installations, which tie.
pub proof fn lemma_reconcile_monotone(a: SyncStateView, b: SyncStateView)
    requires
        datetime_lt(a.last_save_at, b.last_save_at),
    ensures
        a.last_sync_kind == SyncAction::Init && b.last_sync_kind == SyncAction::Init
            ==> spec_reconcile(a, b) == ReconcileOutcome::Tie,
        !(a.last_sync_kind == SyncAction::Init && b.last_sync_kind == SyncAction::Init)
            ==> spec_reconcile(a, b) == ReconcileOutcome::IncomingWins,
{
    crate::date::lemma_datetime_order_trichotomy(a.last_save_at, b.last_save_at);
}

} // verus!
