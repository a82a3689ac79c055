use carpool::model::{
    AdminStoreError, AdminStoreErrorKind, CarKeyDraft, CarManagementDraft, CarManagementResult,
    CarSeatDraft, NewClientKey, PreparedCarManagement, StoredReceipt, Timestamp,
};
use carpool::save::{
    conflict, refusal_error, SaveAction, SaveChecks, SavePhase, SaveRefusal, SaveRun,
    SeatSaveChecks,
};

const UPDATED: Timestamp = Timestamp { seconds: 1_700_000_000, nanos: 123_000 };

fn key(id: &str, create: bool) -> CarKeyDraft {
    CarKeyDraft {
        id: id.to_owned(),
        create,
        name: id.to_owned(),
        label: None,
        enabled: true,
        revoke: false,
        openai_client_profile_override: None,
        xai_client_profile_override: None,
    }
}

fn seat(id: &str, keys: Vec<CarKeyDraft>) -> CarSeatDraft {
    CarSeatDraft {
        id: id.to_owned(),
        name: id.to_owned(),
        enabled: true,
        max_concurrency: 2,
        requests_per_minute: 20,
        weight: "5".to_owned(),
        daily_limit_usd: "130".to_owned(),
        weekly_limit_usd: "260".to_owned(),
        keys,
    }
}

fn draft(policy: &str, capacity: Option<&str>) -> CarManagementDraft {
    CarManagementDraft {
        request_id: "550e8400-e29b-41d4-a716-446655440000".to_owned(),
        expected_revision: 7,
        quota_updated_at: Some(UPDATED),
        group_id: "grp_1".to_owned(),
        create: false,
        name: "整车编辑".to_owned(),
        description: None,
        color: "#2563ebff".to_owned(),
        enabled: true,
        disable_fast: false,
        account_id: "acct_car".to_owned(),
        quota_policy: policy.to_owned(),
        allocation: "custom".to_owned(),
        total_weight: "20".to_owned(),
        initial_capacity_usd: capacity.map(str::to_owned),
        seats: vec![
            seat("seat_1", vec![key("key_c", false), key("key_new", true), key("key_a", false)]),
            seat("seat_2", vec![]),
        ],
    }
}

fn new_key(id: &str, seat: &str) -> NewClientKey {
    NewClientKey {
        id: id.to_owned(),
        seat_id: Some(seat.to_owned()),
        name: id.to_owned(),
        label: None,
        group_ids: Vec::new(),
        plaintext: format!("sk_{id}"),
        openai_client_profile_override: None,
        xai_client_profile_override: None,
    }
}

fn command(d: CarManagementDraft) -> PreparedCarManagement {
    PreparedCarManagement {
        draft: d,
        fingerprint: "fp".to_owned(),
        new_keys: vec![new_key("key_new", "seat_1")],
    }
}

fn checks(d: &CarManagementDraft) -> SaveChecks {
    SaveChecks {
        group_id_valid: true,
        seats: d
            .seats
            .iter()
            .map(|s| SeatSaveChecks {
                id_valid: true,
                weight_valid: true,
                daily_limit_valid: true,
                weekly_limit_valid: true,
                key_ids_valid: s.keys.iter().map(|_| true).collect(),
            })
            .collect(),
    }
}

fn start(d: CarManagementDraft) -> (SaveRun, SaveAction) {
    let c = checks(&d);
    SaveRun::new(command(d), c)
}

/// What a database in a given state replies to each action.
struct World {
    revision: u64,
    receipt: Option<StoredReceipt>,
    policy: Option<String>,
    cycle: Option<Timestamp>,
    seats: Vec<String>,
    retained: Vec<String>,
    accounts: Vec<String>,
    incomplete: bool,
    running: bool,
    zero: bool,
}

fn world() -> World {
    World {
        revision: 8,
        receipt: None,
        policy: Some("manual".to_owned()),
        cycle: Some(UPDATED),
        seats: vec!["seat_1".to_owned()],
        retained: vec!["key_b".to_owned(), "key_a".to_owned()],
        accounts: vec!["acct_car".to_owned()],
        incomplete: false,
        running: false,
        zero: false,
    }
}

/// Runs a save to its end against `w`, recording the actions it asked for.
fn run(d: CarManagementDraft, w: World) -> (SaveRun, Vec<SaveAction>) {
    let (mut r, mut a) = start(d);
    let mut w = w;
    let mut log = vec![a];
    while a != SaveAction::Finish {
        a = match a {
            SaveAction::BumpRevision => r.on_revision(w.revision),
            SaveAction::FindReceipt => r.on_receipt(w.receipt.take()),
            SaveAction::LockGroup => r.on_group(w.policy.clone()),
            SaveAction::LockCycle => r.on_cycle(w.cycle),
            SaveAction::ListSeats => r.on_ids(w.seats.clone()),
            SaveAction::ListRetainedKeys => r.on_ids(w.retained.clone()),
            SaveAction::ListAccounts => r.on_ids(w.accounts.clone()),
            SaveAction::CheckLedger => r.on_ledger(w.incomplete, w.running),
            SaveAction::Allocate => r.on_allocation(w.zero),
            _ => r.on_done(),
        };
        log.push(a);
    }
    (r, log)
}

fn refused_with(r: &SaveRun, reason: SaveRefusal) {
    let expected = refusal_error(reason);
    match &r.outcome {
        Some(Err(e)) => {
            assert_eq!(e.kind, expected.kind);
            assert_eq!(e.scope, expected.scope);
            assert_eq!(e.message, expected.message);
        }
        other => panic!("expected a refusal, got {other:?}"),
    }
}

#[test]
fn conflict_errors_concern_the_car() {
    let e = conflict("配置已变化");
    assert_eq!(e.kind, AdminStoreErrorKind::Conflict);
    assert_eq!(e.scope, "car");
    assert_eq!(e.message, "配置已变化");
    let e = refusal_error(SaveRefusal::AllocationTooSmall);
    assert_eq!(e.kind, AdminStoreErrorKind::Invalid);
    assert_eq!(e.message, "分配后的额度小于金额精度，请提高总额度或车位份额，不能保存为不限");
}

#[test]
fn switching_to_automatic_publishes_capacity_then_saves_every_seat_and_key() {
    let (r, log) = run(draft("automatic", Some("100")), world());
    assert_eq!(
        log,
        vec![
            SaveAction::BumpRevision, SaveAction::FindReceipt, SaveAction::LockGroup, SaveAction::LockCycle, SaveAction::ListSeats, SaveAction::ListRetainedKeys,
            SaveAction::LockRows, SaveAction::ListAccounts, SaveAction::UpdateGroup, SaveAction::PublishCapacity, SaveAction::UpdatePolicy, SaveAction::SaveSeat,
            SaveAction::JoinSeat, SaveAction::WriteKey, SaveAction::WriteKey, SaveAction::WriteKey, SaveAction::SaveSeat, SaveAction::Allocate, SaveAction::Finalize, SaveAction::Commit, SaveAction::Finish,
        ]
    );
    assert_eq!(r.lock_ids, vec!["key_a", "key_b", "key_c"]);
    assert_eq!(r.color, "#2563EBFF");
    assert_eq!(r.reason.as_deref(), Some("等待账号周期观测确认"));
    match &r.outcome {
        Some(Ok(result)) => {
            assert_eq!(result.config_revision, 8);
            assert_eq!(result.group_id, "grp_1");
            assert_eq!(result.created_key_ids, vec!["key_new"]);
        }
        other => panic!("{other:?}"),
    }
}

#[test]
fn each_key_is_written_with_its_prepared_credential() {
    let (mut r, mut a) = start(draft("cycle", None));
    let mut w = world();
    w.policy = Some("cycle".to_owned());
    let mut written = Vec::new();
    while a != SaveAction::Finish {
        if a == SaveAction::WriteKey {
            let k = &r.command.draft.seats[r.seat].keys[r.key];
            written.push((r.seat, r.key, k.create.then_some(r.prepared)));
        }
        a = match a {
            SaveAction::BumpRevision => r.on_revision(w.revision),
            SaveAction::FindReceipt => r.on_receipt(None),
            SaveAction::LockGroup => r.on_group(w.policy.clone()),
            SaveAction::LockCycle => r.on_cycle(w.cycle),
            SaveAction::ListSeats => r.on_ids(w.seats.clone()),
            SaveAction::ListRetainedKeys => r.on_ids(w.retained.clone()),
            SaveAction::ListAccounts => r.on_ids(w.accounts.clone()),
            SaveAction::Allocate => r.on_allocation(false),
            _ => r.on_done(),
        };
    }
    assert_eq!(written, vec![(0, 0, None), (0, 1, Some(0)), (0, 2, None)]);
    assert_eq!(r.reason, None);
}

#[test]
fn a_retry_with_the_same_draft_replays_the_stored_answer() {
    let mut w = world();
    w.receipt = Some(StoredReceipt {
        fingerprint: "fp".to_owned(),
        result: Some(CarManagementResult {
            config_revision: 5,
            group_id: "grp_1".to_owned(),
            created_key_ids: vec!["key_new".to_owned()],
        }),
    });
    let (r, log) = run(draft("automatic", Some("100")), w);
    assert_eq!(
        log,
        vec![SaveAction::BumpRevision, SaveAction::FindReceipt, SaveAction::Rollback, SaveAction::Finish]
    );
    match &r.outcome {
        Some(Ok(result)) => {
            assert_eq!(result.config_revision, 5);
            assert_eq!(result.created_key_ids, vec!["key_new"]);
        }
        other => panic!("{other:?}"),
    }
}

#[test]
fn a_retry_with_another_draft_is_a_conflict() {
    let mut w = world();
    w.receipt = Some(StoredReceipt { fingerprint: "other".to_owned(), result: None });
    let (r, log) = run(draft("automatic", Some("100")), w);
    assert_eq!(log.last(), Some(&SaveAction::Finish));
    assert!(!log.contains(&SaveAction::Commit));
    refused_with(&r, SaveRefusal::ReusedRequest);
    let e = match &r.outcome {
        Some(Err(e)) => e,
        _ => unreachable!(),
    };
    assert_eq!(e.message, "保存请求已用于另一份配置，请重新预览");
}

#[test]
fn an_unreadable_receipt_is_refused() {
    let mut w = world();
    w.receipt = Some(StoredReceipt { fingerprint: "fp".to_owned(), result: None });
    let (r, _) = run(draft("automatic", Some("100")), w);
    refused_with(&r, SaveRefusal::UnreadableReceipt);
}

#[test]
fn a_draft_made_against_an_older_revision_is_a_conflict() {
    let mut w = world();
    w.revision = 9;
    let (r, log) = run(draft("automatic", Some("100")), w);
    refused_with(&r, SaveRefusal::StaleRevision);
    assert!(!log.contains(&SaveAction::LockGroup));
}

#[test]
fn group_and_quota_changes_are_conflicts() {
    let mut w = world();
    w.policy = None;
    let (r, _) = run(draft("automatic", Some("100")), w);
    refused_with(&r, SaveRefusal::GroupChanged);
    let mut w = world();
    w.cycle = Some(Timestamp { seconds: UPDATED.seconds, nanos: UPDATED.nanos + 1 });
    let (r, _) = run(draft("automatic", Some("100")), w);
    refused_with(&r, SaveRefusal::QuotaChanged);
    let mut d = draft("automatic", Some("100"));
    d.create = true;
    let (r, _) = run(d, world());
    refused_with(&r, SaveRefusal::GroupChanged);
}

#[test]
fn creating_a_group_inserts_it_before_binding_the_account() {
    let mut d = draft("manual", None);
    d.create = true;
    let mut w = world();
    w.policy = None;
    w.seats = Vec::new();
    w.accounts = Vec::new();
    let (r, log) = run(d, w);
    assert_eq!(
        &log[..11],
        &[
            SaveAction::BumpRevision, SaveAction::FindReceipt, SaveAction::LockGroup, SaveAction::LockCycle, SaveAction::ListSeats, SaveAction::ListRetainedKeys,
            SaveAction::LockRows, SaveAction::InsertGroup, SaveAction::ListAccounts, SaveAction::RebindAccount, SaveAction::UpdateGroup,
        ]
    );
    assert_eq!(log[11], SaveAction::UpdatePolicy);
    assert!(matches!(r.outcome, Some(Ok(_))));
}

#[test]
fn existing_seats_cannot_be_dropped() {
    let mut w = world();
    w.seats = vec!["seat_1".to_owned(), "seat_9".to_owned()];
    let (r, _) = run(draft("automatic", Some("100")), w);
    refused_with(&r, SaveRefusal::SeatRemoved);
}

#[test]
fn a_car_with_seats_keeps_its_account() {
    let mut w = world();
    w.accounts = vec!["acct_other".to_owned()];
    let (r, log) = run(draft("automatic", Some("100")), w);
    refused_with(&r, SaveRefusal::AccountRebound);
    assert!(!log.contains(&SaveAction::RebindAccount));
    let mut w = world();
    w.accounts = vec!["acct_other".to_owned()];
    w.seats = Vec::new();
    let (r, log) = run(draft("automatic", Some("100")), w);
    assert!(log.contains(&SaveAction::RebindAccount));
    assert!(matches!(r.outcome, Some(Ok(_))));
}

#[test]
fn the_initial_capacity_belongs_to_switching_on_automatic_management() {
    let (r, _) = run(draft("automatic", None), world());
    refused_with(&r, SaveRefusal::CapacityMissing);
    let (r, _) = run(draft("cycle", Some("100")), world());
    refused_with(&r, SaveRefusal::CapacityUnexpected);
    let mut w = world();
    w.policy = Some("automatic".to_owned());
    let (r, log) = run(draft("automatic", Some("100")), w);
    refused_with(&r, SaveRefusal::CapacityUnexpected);
    assert!(!log.contains(&SaveAction::PublishCapacity));
    let mut w = world();
    w.policy = Some("automatic".to_owned());
    let (r, log) = run(draft("automatic", None), w);
    assert!(!log.contains(&SaveAction::PublishCapacity));
    assert!(matches!(r.outcome, Some(Ok(_))));
}

#[test]
fn switching_to_manual_needs_a_settled_ledger() {
    let mut w = world();
    w.policy = Some("cycle".to_owned());
    w.running = true;
    let (r, log) = run(draft("manual", None), w);
    refused_with(&r, SaveRefusal::LedgerUnsettled);
    assert!(log.contains(&SaveAction::CheckLedger));
    let mut w = world();
    w.policy = Some("automatic".to_owned());
    w.incomplete = true;
    let (r, _) = run(draft("manual", None), w);
    refused_with(&r, SaveRefusal::LedgerUnsettled);
    let mut w = world();
    w.policy = Some("cycle".to_owned());
    let (r, log) = run(draft("manual", None), w);
    assert!(log.contains(&SaveAction::ResetWindows));
    assert_eq!(r.reason.as_deref(), Some("手动设置额度与窗口"));
    assert!(matches!(r.outcome, Some(Ok(_))));
    let (r, log) = run(draft("manual", None), world());
    assert!(!log.contains(&SaveAction::CheckLedger));
    assert_eq!(r.reason, None);
}

#[test]
fn an_allocation_that_rounds_a_seat_to_zero_is_refused() {
    let mut w = world();
    w.zero = true;
    let (r, log) = run(draft("automatic", Some("100")), w);
    refused_with(&r, SaveRefusal::AllocationTooSmall);
    assert!(!log.contains(&SaveAction::Commit));
    assert!(!log.contains(&SaveAction::Finalize));
}

#[test]
fn unreadable_ids_and_amounts_refuse_the_save() {
    let cases: Vec<(Box<dyn Fn(&mut SaveChecks)>, SaveRefusal)> = vec![
        (Box::new(|c| c.group_id_valid = false), SaveRefusal::BadGroupId),
        (Box::new(|c| c.seats[1].id_valid = false), SaveRefusal::BadSeatId),
        (Box::new(|c| c.seats[0].weight_valid = false), SaveRefusal::BadWeight),
        (Box::new(|c| c.seats[0].daily_limit_valid = false), SaveRefusal::BadDailyLimit),
        (Box::new(|c| c.seats[0].weekly_limit_valid = false), SaveRefusal::BadWeeklyLimit),
        (Box::new(|c| c.seats[0].key_ids_valid[2] = false), SaveRefusal::BadKeyId),
    ];
    for (change, reason) in cases {
        let d = draft("automatic", Some("100"));
        let mut c = checks(&d);
        change(&mut c);
        let (mut r, mut a) = SaveRun::new(command(d), c);
        let w = world();
        while a != SaveAction::Finish {
            a = match a {
                SaveAction::BumpRevision => r.on_revision(w.revision),
                SaveAction::FindReceipt => r.on_receipt(None),
                SaveAction::LockGroup => r.on_group(w.policy.clone()),
                SaveAction::LockCycle => r.on_cycle(w.cycle),
                SaveAction::ListSeats => r.on_ids(w.seats.clone()),
                SaveAction::ListRetainedKeys => r.on_ids(w.retained.clone()),
                SaveAction::ListAccounts => r.on_ids(w.accounts.clone()),
                SaveAction::Allocate => r.on_allocation(false),
                _ => r.on_done(),
            };
        }
        refused_with(&r, reason);
    }
}

#[test]
fn a_key_to_create_needs_its_prepared_credential() {
    let d = draft("automatic", Some("100"));
    let c = checks(&d);
    let cmd = PreparedCarManagement {
        draft: d,
        fingerprint: "fp".to_owned(),
        new_keys: vec![new_key("key_other", "seat_1")],
    };
    let (mut r, mut a) = SaveRun::new(cmd, c);
    let w = world();
    while a != SaveAction::Finish {
        a = match a {
            SaveAction::BumpRevision => r.on_revision(w.revision),
            SaveAction::FindReceipt => r.on_receipt(None),
            SaveAction::LockGroup => r.on_group(w.policy.clone()),
            SaveAction::LockCycle => r.on_cycle(w.cycle),
            SaveAction::ListSeats => r.on_ids(w.seats.clone()),
            SaveAction::ListRetainedKeys => r.on_ids(w.retained.clone()),
            SaveAction::ListAccounts => r.on_ids(w.accounts.clone()),
            SaveAction::Allocate => r.on_allocation(false),
            _ => r.on_done(),
        };
    }
    refused_with(&r, SaveRefusal::MissingCredential);
}

#[test]
fn a_failed_action_ends_the_save_with_its_error_and_no_commit() {
    let (mut r, a) = start(draft("automatic", Some("100")));
    assert_eq!(a, SaveAction::BumpRevision);
    assert_eq!(r.on_revision(8), SaveAction::FindReceipt);
    assert_eq!(r.on_receipt(None), SaveAction::LockGroup);
    let a = r.on_failure(AdminStoreError {
        kind: AdminStoreErrorKind::Database,
        scope: "car".to_owned(),
        message: "connection reset".to_owned(),
    });
    assert_eq!(a, SaveAction::Finish);
    assert_eq!(r.phase, SavePhase::Finished);
    match &r.outcome {
        Some(Err(e)) => {
            assert_eq!(e.kind, AdminStoreErrorKind::Database);
            assert_eq!(e.message, "connection reset");
        }
        other => panic!("{other:?}"),
    }
}

#[test]
fn an_answer_that_cannot_be_stored_is_refused() {
    let (mut r, mut a) = start(draft("manual", None));
    let w = world();
    while a != SaveAction::Finalize {
        a = match a {
            SaveAction::BumpRevision => r.on_revision(w.revision),
            SaveAction::FindReceipt => r.on_receipt(None),
            SaveAction::LockGroup => r.on_group(w.policy.clone()),
            SaveAction::LockCycle => r.on_cycle(w.cycle),
            SaveAction::ListSeats => r.on_ids(w.seats.clone()),
            SaveAction::ListRetainedKeys => r.on_ids(w.retained.clone()),
            SaveAction::ListAccounts => r.on_ids(w.accounts.clone()),
            SaveAction::Allocate => r.on_allocation(false),
            _ => r.on_done(),
        };
    }
    assert_eq!(r.on_unencodable(), SaveAction::Finish);
    refused_with(&r, SaveRefusal::UnreadableReceipt);
}
