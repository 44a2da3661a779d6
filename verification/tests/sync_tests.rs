use ttd_v2::Date;
use ttd_v2::DateTime;
use ttd_v2::ReconcileOutcome;
use ttd_v2::SyncAction;
use ttd_v2::SyncState;
use ttd_v2::reconcile;

fn moment(y: u32, mo: u32, d: u32, h: u32, mi: u32, s: u32) -> DateTime {
    DateTime { date: Date { year: y, month: mo, day: d }, hour: h, minute: mi, second: s }
}

fn state(kind: SyncAction, at: DateTime) -> SyncState {
    SyncState { id: String::from("peer"), last_sync_kind: kind, last_save_at: at }
}

#[test]
fn both_fresh_installations_tie() {
    let a = SyncState::default();
    let b = SyncState::default();
    assert_eq!(reconcile(&a, &b), ReconcileOutcome::Tie);
}

#[test]
fn equal_save_times_tie() {
    let t = moment(2024, 12, 22, 10, 0, 0);
    let a = state(SyncAction::LocalSave, t);
    let b = state(SyncAction::UploadToServer, t);
    assert_eq!(reconcile(&a, &b), ReconcileOutcome::Tie);
}

#[test]
fn later_save_wins_either_side() {
    let t1 = moment(2024, 12, 22, 10, 0, 0);
    let t2 = moment(2024, 12, 22, 10, 0, 1);
    let older = state(SyncAction::LocalSave, t1);
    let newer = state(SyncAction::LocalSave, t2);
    assert_eq!(reconcile(&older, &newer), ReconcileOutcome::IncomingWins);
    assert_eq!(reconcile(&newer, &older), ReconcileOutcome::IncumbentWins);
}

#[test]
fn fresh_incumbent_loses_to_any_saved_state() {
    let fresh = SyncState::default();
    let saved = state(SyncAction::LocalSave, moment(2024, 1, 1, 0, 0, 0));
    assert_eq!(reconcile(&fresh, &saved), ReconcileOutcome::IncomingWins);
    assert_eq!(reconcile(&saved, &fresh), ReconcileOutcome::IncumbentWins);
}

#[test]
fn reconcile_is_a_tie_on_itself() {
    let a = state(SyncAction::DownloadFromServer, moment(2024, 3, 4, 5, 6, 7));
    assert_eq!(reconcile(&a, &a), ReconcileOutcome::Tie);
    let fresh = SyncState::default();
    assert_eq!(reconcile(&fresh, &fresh), ReconcileOutcome::Tie);
}

#[test]
fn operation_kind_does_not_override_time() {
    let t1 = moment(2024, 12, 22, 10, 0, 0);
    let t2 = moment(2024, 12, 23, 10, 0, 0);
    for kind_a in [
        SyncAction::LocalSave,
        SyncAction::UploadToServer,
        SyncAction::DownloadFromServer,
    ] {
        for kind_b in [
            SyncAction::LocalSave,
            SyncAction::UploadToServer,
            SyncAction::DownloadFromServer,
        ] {
            let a = state(kind_a, t1);
            let b = state(kind_b, t2);
            assert_eq!(reconcile(&a, &b), ReconcileOutcome::IncomingWins);
        }
    }
}

#[test]
fn default_state_is_fresh() {
    let d = SyncState::default();
    assert_eq!(d.id, "");
    assert_eq!(d.last_sync_kind, SyncAction::Init);
    assert_eq!(d.last_save_at, DateTime::epoch());
}
