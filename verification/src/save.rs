//! The decisions of the transactional save of a prepared car configuration.
//!
//! A save is a conversation with the database inside one transaction. The
//! run below holds the state of that conversation: each call hands it what
//! the last requested action produced and answers the next action. The run
//! decides every refusal; the caller only performs the actions. Nothing is
//! committed unless the run reaches `Commit`, which it does only after every
//! check has passed and every write has succeeded.

use vstd::prelude::*;

use crate::model::{
    AdminStoreError, AdminStoreErrorKind, CarManagementDraft, CarManagementResult, NewClientKey,
    PreparedCarManagement, StoredReceipt, Timestamp,
};
use crate::order::{sorted_unique, strictly_sorted};
use crate::outside::{to_uppercase, uppercase};
use crate::text::same_text;

verus! {

// ---------------------------------------------------------------------------
// Refusals
// ---------------------------------------------------------------------------

/// The reasons for which a save is refused.
#[derive(Clone, Copy, Debug, PartialEq, Eq, Structural)]
pub enum SaveRefusal {
    /// The request id was already used to save a different draft.
    ReusedRequest,
    /// The configuration changed since the draft was previewed.
    StaleRevision,
    /// The group was created or removed since the draft was made.
    GroupChanged,
    /// The account cycle or capacity changed since the draft was previewed.
    QuotaChanged,
    /// The stored answer of this request cannot be read or written.
    UnreadableReceipt,
    /// The draft leaves out a seat that the car already has.
    SeatRemoved,
    /// The draft moves a car that has seats to another account.
    AccountRebound,
    /// Automatic management is switched on without an initial capacity.
    CapacityMissing,
    /// An initial capacity is given without switching automatic management on.
    CapacityUnexpected,
    /// The ledger cannot yet explain the usage of the seat windows.
    LedgerUnsettled,
    BadGroupId,
    BadSeatId,
    BadWeight,
    BadDailyLimit,
    BadWeeklyLimit,
    BadKeyId,
    /// A key to create has no prepared credential.
    MissingCredential,
    /// Some seat's allocated weekly limit rounds to zero.
    AllocationTooSmall,
}

/// The message of a refusal.
pub open spec fn refusal_message(r: SaveRefusal) -> Seq<char> {
    match r {
        SaveRefusal::ReusedRequest => "保存请求已用于另一份配置，请重新预览"@,
        SaveRefusal::StaleRevision => "配置已变化，请刷新后重新预览，当前草稿尚未保存"@,
        SaveRefusal::GroupChanged => "分组状态已变化，请刷新后重新编辑"@,
        SaveRefusal::QuotaChanged => "账号周期或额度已变化，请刷新后重新预览"@,
        SaveRefusal::UnreadableReceipt => "保存回执无效"@,
        SaveRefusal::SeatRemoved => "已有车位不能删除，请保留或停用"@,
        SaveRefusal::AccountRebound => "已有车位的拼车不能换绑账号"@,
        SaveRefusal::CapacityMissing => "请确认自动管理的初始总额度"@,
        SaveRefusal::CapacityUnexpected => "初始总额度只在启用自动管理时设置"@,
        SaveRefusal::LedgerUnsettled => "当前账务尚不能安全切换窗口，请保留跟随账号周期模式"@,
        SaveRefusal::BadGroupId => "分组 ID 无效"@,
        SaveRefusal::BadSeatId => "车位 ID 无效"@,
        SaveRefusal::BadWeight => "份额无效"@,
        SaveRefusal::BadDailyLimit => "日额度无效"@,
        SaveRefusal::BadWeeklyLimit => "周期额度无效"@,
        SaveRefusal::BadKeyId => "Key ID 无效"@,
        SaveRefusal::MissingCredential => "新 Key 凭据未准备"@,
        SaveRefusal::AllocationTooSmall => "分配后的额度小于金额精度，请提高总额度或车位份额，不能保存为不限"@,
    }
}

/// Whether a refusal is a conflict with concurrent changes (as opposed to an
/// invalid request).
pub open spec fn is_conflict(r: SaveRefusal) -> bool {
    match r {
        SaveRefusal::ReusedRequest | SaveRefusal::StaleRevision | SaveRefusal::GroupChanged
        | SaveRefusal::QuotaChanged => true,
        _ => false,
    }
}

/// The store error of a refusal: conflicts concern the car, everything else
/// is an invalid request about the seats.
pub open spec fn refusal_view(r: SaveRefusal) -> (AdminStoreErrorKind, Seq<char>, Seq<char>) {
    if is_conflict(r) {
        (AdminStoreErrorKind::Conflict, "car"@, refusal_message(r))
    } else {
        (AdminStoreErrorKind::Invalid, "seat"@, refusal_message(r))
    }
}

/// A conflict about the car.
pub fn conflict(message: &str) -> (e: AdminStoreError)
    ensures
        e@ == (AdminStoreErrorKind::Conflict, "car"@, message@),
{
    AdminStoreError {
        kind: AdminStoreErrorKind::Conflict,
        scope: "car".to_owned(),
        message: message.to_owned(),
    }
}

/// An invalid request about the seats.
pub fn rejected(message: &str) -> (e: AdminStoreError)
    ensures
        e@ == (AdminStoreErrorKind::Invalid, "seat"@, message@),
{
    AdminStoreError {
        kind: AdminStoreErrorKind::Invalid,
        scope: "seat".to_owned(),
        message: message.to_owned(),
    }
}

/// The store error of a refusal.
pub fn refusal_error(r: SaveRefusal) -> (e: AdminStoreError)
    ensures
        e@ == refusal_view(r),
{
    match r {
        SaveRefusal::ReusedRequest => conflict("保存请求已用于另一份配置，请重新预览"),
        SaveRefusal::StaleRevision => conflict("配置已变化，请刷新后重新预览，当前草稿尚未保存"),
        SaveRefusal::GroupChanged => conflict("分组状态已变化，请刷新后重新编辑"),
        SaveRefusal::QuotaChanged => conflict("账号周期或额度已变化，请刷新后重新预览"),
        SaveRefusal::UnreadableReceipt => rejected("保存回执无效"),
        SaveRefusal::SeatRemoved => rejected("已有车位不能删除，请保留或停用"),
        SaveRefusal::AccountRebound => rejected("已有车位的拼车不能换绑账号"),
        SaveRefusal::CapacityMissing => rejected("请确认自动管理的初始总额度"),
        SaveRefusal::CapacityUnexpected => rejected("初始总额度只在启用自动管理时设置"),
        SaveRefusal::LedgerUnsettled => rejected("当前账务尚不能安全切换窗口，请保留跟随账号周期模式"),
        SaveRefusal::BadGroupId => rejected("分组 ID 无效"),
        SaveRefusal::BadSeatId => rejected("车位 ID 无效"),
        SaveRefusal::BadWeight => rejected("份额无效"),
        SaveRefusal::BadDailyLimit => rejected("日额度无效"),
        SaveRefusal::BadWeeklyLimit => rejected("周期额度无效"),
        SaveRefusal::BadKeyId => rejected("Key ID 无效"),
        SaveRefusal::MissingCredential => rejected("新 Key 凭据未准备"),
        SaveRefusal::AllocationTooSmall => rejected("分配后的额度小于金额精度，请提高总额度或车位份额，不能保存为不限"),
    }
}


// ---------------------------------------------------------------------------
// The run
// ---------------------------------------------------------------------------

/// What the domain core reports about the ids and amounts of one seat that the
/// save parses again: whether the seat id, the weight and the two limits read,
/// and, key by key, whether each key id reads.
#[derive(Debug)]
pub struct SeatSaveChecks {
    pub id_valid: bool,
    pub weight_valid: bool,
    pub daily_limit_valid: bool,
    pub weekly_limit_valid: bool,
    pub key_ids_valid: Vec<bool>,
}

/// What the domain core reports about the draft that the save parses again.
#[derive(Debug)]
pub struct SaveChecks {
    pub group_id_valid: bool,
    pub seats: Vec<SeatSaveChecks>,
}

impl SaveChecks {
    /// The checks have one entry per seat and per key of `draft`.
    pub open spec fn fits(&self, draft: &CarManagementDraft) -> bool {
        &&& self.seats@.len() == draft.seats@.len()
        &&& forall|i: int|
            0 <= i < draft.seats@.len() ==> #[trigger] self.seats@[i].key_ids_valid@.len()
                == draft.seats@[i].keys@.len()
    }
}

/// What the run waits for: the reply to the action it answered last.
#[derive(Clone, Copy, Debug, PartialEq, Eq, Structural)]
pub enum SavePhase {
    Revision,
    Receipt,
    Replay,
    Group,
    Cycle,
    OldSeats,
    RetainedKeys,
    Locks,
    GroupInserted,
    Accounts,
    AccountRebound,
    GroupUpdated,
    CapacityPublished,
    Ledger,
    WindowsReset,
    PolicyUpdated,
    SeatSaved,
    SeatJoined,
    KeyWritten,
    Allocated,
    Finalized,
    Committed,
    Finished,
}

/// The next thing to do in the transaction.
#[derive(Clone, Copy, Debug, PartialEq, Eq, Structural)]
pub enum SaveAction {
    /// Bump the configuration revision; reply with the new revision.
    BumpRevision,
    /// Look up the receipt of the draft's request id; reply with it, if any.
    FindReceipt,
    /// Roll the transaction back; reply when done.
    Rollback,
    /// Lock the group row; reply with its quota policy, if the row exists.
    LockGroup,
    /// Lock the group's quota cycle row; reply with its update time, if any.
    LockCycle,
    /// List the ids of the group's seats; reply with them.
    ListSeats,
    /// List the ids of the keys that sit in the group's seats; reply with them.
    ListRetainedKeys,
    /// Lock the keys listed in `lock_ids`, in that order, then the group's
    /// seats; reply when done.
    LockRows,
    /// Insert the group row (with the upper-cased `color`); reply when done.
    InsertGroup,
    /// List the accounts bound to the group; reply with their ids.
    ListAccounts,
    /// Bind the group to the draft's account alone; reply when done.
    RebindAccount,
    /// Update the group row (with `color`) and make sure its quota cycle row
    /// exists; reply when done.
    UpdateGroup,
    /// Publish the draft's initial capacity on the quota cycle; reply when done.
    PublishCapacity,
    /// Ask whether the ledger leaves a seat window unexplained and whether a
    /// request is still running; reply with both answers.
    CheckLedger,
    /// Realign the seat windows to the ledger and forget the cycle
    /// observation; reply when done.
    ResetWindows,
    /// Set the group's quota policy (and the prediction `reason`, if any);
    /// reply when done.
    UpdatePolicy,
    /// Save seat `seat` of the draft; reply when done.
    SaveSeat,
    /// Join the kept keys of seat `seat` to it; reply when done.
    JoinSeat,
    /// Write key `key` of seat `seat`: insert it with prepared key `prepared`
    /// if it is created, update it otherwise, then set its enabled and
    /// revoked state; reply when done.
    WriteKey,
    /// Allocate the weekly limits; reply whether some limit is zero.
    Allocate,
    /// Touch the quota cycle, store the receipt of `result` and append the
    /// audit event; reply when done, or that the result cannot be encoded.
    Finalize,
    /// Commit the transaction; reply when done.
    Commit,
    /// Stop: `outcome` holds the answer.
    Finish,
}

/// A save in progress.
pub struct SaveRun {
    pub command: PreparedCarManagement,
    pub checks: SaveChecks,
    pub phase: SavePhase,
    pub seat: usize,
    pub key: usize,
    pub prepared: usize,
    pub revision: u64,
    pub old_policy: String,
    pub old_seats_empty: bool,
    pub lock_ids: Vec<String>,
    pub color: String,
    pub reason: Option<String>,
    pub replay: Option<CarManagementResult>,
    pub result: Option<CarManagementResult>,
    pub outcome: Option<Result<CarManagementResult, AdminStoreError>>,
}

/// The abstract state of a save in progress.
pub struct RunState {
    /// The prepared command as a whole: no step may change it.
    pub command: PreparedCarManagement,
    pub draft: CarManagementDraft,
    pub fingerprint: Seq<char>,
    pub new_key_ids: Seq<Seq<char>>,
    pub checks: SaveChecks,
    pub phase: SavePhase,
    pub seat: int,
    pub key: int,
    pub prepared: int,
    pub revision: u64,
    pub old_policy: Seq<char>,
    pub old_seats_empty: bool,
    pub lock_ids: Seq<Seq<char>>,
    pub color: Seq<char>,
    pub reason: Option<Seq<char>>,
    pub replay: Option<(u64, Seq<char>, Seq<Seq<char>>)>,
    pub result: Option<(u64, Seq<char>, Seq<Seq<char>>)>,
    pub outcome: Option<
        Result<(u64, Seq<char>, Seq<Seq<char>>), (AdminStoreErrorKind, Seq<char>, Seq<char>)>,
    >,
}

/// The view of an optional result.
pub open spec fn result_view(r: Option<CarManagementResult>) -> Option<
    (u64, Seq<char>, Seq<Seq<char>>),
> {
    match r {
        Some(x) => Some(x@),
        None => None,
    }
}

/// The view of an optional outcome.
pub open spec fn outcome_view(o: Option<Result<CarManagementResult, AdminStoreError>>) -> Option<
    Result<(u64, Seq<char>, Seq<Seq<char>>), (AdminStoreErrorKind, Seq<char>, Seq<char>)>,
> {
    match o {
        Some(Ok(x)) => Some(Ok(x@)),
        Some(Err(e)) => Some(Err(e@)),
        None => None,
    }
}

/// The ids of the prepared keys.
pub open spec fn prepared_ids(keys: Seq<NewClientKey>) -> Seq<Seq<char>> {
    keys.map_values(|k: NewClientKey| k.id@)
}

impl View for SaveRun {
    type V = RunState;

    open spec fn view(&self) -> RunState {
        RunState {
            command: self.command,
            draft: self.command.draft,
            fingerprint: self.command.fingerprint@,
            new_key_ids: prepared_ids(self.command.new_keys@),
            checks: self.checks,
            phase: self.phase,
            seat: self.seat as int,
            key: self.key as int,
            prepared: self.prepared as int,
            revision: self.revision,
            old_policy: self.old_policy@,
            old_seats_empty: self.old_seats_empty,
            lock_ids: self.lock_ids.deep_view(),
            color: self.color@,
            reason: self.reason.deep_view(),
            replay: result_view(self.replay),
            result: result_view(self.result),
            outcome: outcome_view(self.outcome),
        }
    }
}

/// The number of seats of the draft.
pub open spec fn seat_count(s: RunState) -> int {
    s.draft.seats@.len() as int
}

/// The keys of seat `i` of the draft.
pub open spec fn seat_keys(s: RunState, i: int) -> Seq<crate::model::CarKeyDraft> {
    s.draft.seats@[i].keys@
}

/// `j` is the first position of `x` in `ids`.
pub open spec fn found_at(ids: Seq<Seq<char>>, x: Seq<char>, j: int) -> bool {
    &&& 0 <= j < ids.len()
    &&& ids[j] == x
    &&& forall|q: int| 0 <= q < j ==> ids[q] != x
}

/// The first position of `x` in `ids`, or -1.
pub open spec fn first_position(ids: Seq<Seq<char>>, x: Seq<char>) -> int {
    if exists|j: int| found_at(ids, x, j) {
        choose|j: int| found_at(ids, x, j)
    } else {
        -1
    }
}

impl RunState {
    /// The invariant of a run.
    pub open spec fn wf(self) -> bool {
        &&& self.checks.fits(&self.draft)
        &&& (self.phase == SavePhase::SeatSaved || self.phase == SavePhase::SeatJoined) ==> 0
            <= self.seat < seat_count(self)
        &&& self.phase == SavePhase::KeyWritten ==> {
            &&& 0 <= self.seat < seat_count(self)
            &&& 0 <= self.key < seat_keys(self, self.seat).len()
            &&& seat_keys(self, self.seat)[self.key].create ==> self.prepared == first_position(
                self.new_key_ids,
                seat_keys(self, self.seat)[self.key].id@,
            ) && 0 <= self.prepared < self.new_key_ids.len()
        }
        &&& self.phase == SavePhase::Allocated ==> self.seat == seat_count(self)
        &&& self.phase == SavePhase::Replay ==> self.replay is Some
        &&& (self.phase == SavePhase::Finalized || self.phase == SavePhase::Committed)
            ==> self.result == Some((self.revision, self.draft.group_id@, self.new_key_ids))
        &&& self.phase == SavePhase::Finished <==> self.outcome is Some
    }
}

// ---------------------------------------------------------------------------
// The transitions of a run
// ---------------------------------------------------------------------------

/// Move to `phase` and ask for `action`.
pub open spec fn go(s: RunState, phase: SavePhase, action: SaveAction) -> (RunState, SaveAction) {
    (RunState { phase, ..s }, action)
}

/// Stop with `outcome`.
pub open spec fn finish(
    s: RunState,
    outcome: Result<(u64, Seq<char>, Seq<Seq<char>>), (AdminStoreErrorKind, Seq<char>, Seq<char>)>,
) -> (RunState, SaveAction) {
    (RunState { phase: SavePhase::Finished, outcome: Some(outcome), ..s }, SaveAction::Finish)
}

/// Stop with a refusal.
pub open spec fn refuse(s: RunState, r: SaveRefusal) -> (RunState, SaveAction) {
    finish(s, Err(refusal_view(r)))
}

/// Start seat `i` (or the allocation, after the last seat): its id and
/// amounts must read, in that order.
pub open spec fn start_seat(s: RunState, i: int) -> (RunState, SaveAction) {
    if i >= seat_count(s) {
        (RunState { phase: SavePhase::Allocated, seat: i, ..s }, SaveAction::Allocate)
    } else {
        let sc = s.checks.seats@[i];
        if !sc.id_valid {
            refuse(s, SaveRefusal::BadSeatId)
        } else if !sc.weight_valid {
            refuse(s, SaveRefusal::BadWeight)
        } else if !sc.daily_limit_valid {
            refuse(s, SaveRefusal::BadDailyLimit)
        } else if !sc.weekly_limit_valid {
            refuse(s, SaveRefusal::BadWeeklyLimit)
        } else {
            (RunState { phase: SavePhase::SeatSaved, seat: i, ..s }, SaveAction::SaveSeat)
        }
    }
}

/// Start key `k` of seat `i` (or the next seat, after the last key): a key
/// to create needs its prepared credential.
pub open spec fn start_key(s: RunState, i: int, k: int) -> (RunState, SaveAction) {
    if k >= seat_keys(s, i).len() {
        start_seat(s, i + 1)
    } else {
        let key = seat_keys(s, i)[k];
        if key.create {
            let j = first_position(s.new_key_ids, key.id@);
            if j < 0 {
                refuse(s, SaveRefusal::MissingCredential)
            } else {
                (
                    RunState { phase: SavePhase::KeyWritten, seat: i, key: k, prepared: j, ..s },
                    SaveAction::WriteKey,
                )
            }
        } else {
            (RunState { phase: SavePhase::KeyWritten, seat: i, key: k, ..s }, SaveAction::WriteKey)
        }
    }
}

/// Some key of seat `i` is kept (not created) and its id does not read.
pub open spec fn has_bad_member(s: RunState, i: int) -> bool {
    exists|k: int|
        0 <= k < seat_keys(s, i).len() && !(#[trigger] seat_keys(s, i)[k]).create
            && !s.checks.seats@[i].key_ids_valid@[k]
}

/// Some key of seat `i` is kept (not created).
pub open spec fn has_member(s: RunState, i: int) -> bool {
    exists|k: int| 0 <= k < seat_keys(s, i).len() && !(#[trigger] seat_keys(s, i)[k]).create
}

/// After a seat is saved: its kept keys must have ids that read; they join the
/// seat if there are any.
pub open spec fn after_seat_saved(s: RunState) -> (RunState, SaveAction) {
    if has_bad_member(s, s.seat) {
        refuse(s, SaveRefusal::BadKeyId)
    } else if has_member(s, s.seat) {
        go(s, SavePhase::SeatJoined, SaveAction::JoinSeat)
    } else {
        start_key(s, s.seat, 0)
    }
}

/// The prediction reason set when the policy changes to or from manual.
pub open spec fn reason_for(old_policy: Seq<char>, policy: Seq<char>) -> Option<Seq<char>> {
    if old_policy != policy && (old_policy == "manual"@ || policy == "manual"@) {
        if policy == "manual"@ {
            Some("手动设置额度与窗口"@)
        } else {
            Some("等待账号周期观测确认"@)
        }
    } else {
        None
    }
}

/// Set the policy, with the prediction reason that its change calls for.
pub open spec fn policy_step(s: RunState) -> (RunState, SaveAction) {
    (
        RunState {
            reason: reason_for(s.old_policy, s.draft.quota_policy@),
            phase: SavePhase::PolicyUpdated,
            ..s
        },
        SaveAction::UpdatePolicy,
    )
}

/// After the capacity: switching to manual first checks the ledger.
pub open spec fn after_capacity(s: RunState) -> (RunState, SaveAction) {
    if s.draft.quota_policy@ == "manual"@ && s.old_policy != "manual"@ {
        go(s, SavePhase::Ledger, SaveAction::CheckLedger)
    } else {
        policy_step(s)
    }
}

/// The initial capacity is published exactly when automatic management is
/// switched on, and must be given exactly then.
pub open spec fn capacity_step(s: RunState) -> (RunState, SaveAction) {
    if s.draft.quota_policy@ == "automatic"@ && s.old_policy != "automatic"@ {
        if s.draft.initial_capacity_usd is None {
            refuse(s, SaveRefusal::CapacityMissing)
        } else {
            go(s, SavePhase::CapacityPublished, SaveAction::PublishCapacity)
        }
    } else if s.draft.initial_capacity_usd is Some {
        refuse(s, SaveRefusal::CapacityUnexpected)
    } else {
        after_capacity(s)
    }
}

/// Reply: the new revision.
pub open spec fn revision_step(s: RunState, revision: u64) -> (RunState, SaveAction) {
    (RunState { revision, phase: SavePhase::Receipt, ..s }, SaveAction::FindReceipt)
}

/// The revision that the draft must have been made against.
pub open spec fn previous_revision(revision: u64) -> u64 {
    if revision == 0 {
        0
    } else {
        (revision - 1) as u64
    }
}

/// Reply: the receipt of the request, if any (its fingerprint, and its
/// answer if that decodes).
pub open spec fn receipt_step(
    s: RunState,
    stored: Option<(Seq<char>, Option<(u64, Seq<char>, Seq<Seq<char>>)>)>,
) -> (RunState, SaveAction) {
    match stored {
        Some((fingerprint, answer)) => if fingerprint != s.fingerprint {
            refuse(s, SaveRefusal::ReusedRequest)
        } else {
            match answer {
                None => refuse(s, SaveRefusal::UnreadableReceipt),
                Some(r) => (
                    RunState { replay: Some(r), phase: SavePhase::Replay, ..s },
                    SaveAction::Rollback,
                ),
            }
        },
        None => if previous_revision(s.revision) != s.draft.expected_revision {
            refuse(s, SaveRefusal::StaleRevision)
        } else {
            go(s, SavePhase::Group, SaveAction::LockGroup)
        },
    }
}

/// Reply: the group's current quota policy, if the group exists.
pub open spec fn group_step(s: RunState, policy: Option<Seq<char>>) -> (RunState, SaveAction) {
    if s.draft.create != (policy is None) {
        refuse(s, SaveRefusal::GroupChanged)
    } else {
        (
            RunState {
                old_policy: match policy {
                    Some(p) => p,
                    None => "manual"@,
                },
                phase: SavePhase::Cycle,
                ..s
            },
            SaveAction::LockCycle,
        )
    }
}

/// Reply: when the quota cycle was last updated, if it exists.
pub open spec fn cycle_step(s: RunState, updated_at: Option<Timestamp>) -> (RunState, SaveAction) {
    if updated_at != s.draft.quota_updated_at {
        refuse(s, SaveRefusal::QuotaChanged)
    } else {
        go(s, SavePhase::OldSeats, SaveAction::ListSeats)
    }
}

/// The draft lists a seat with this id.
pub open spec fn draft_has_seat(d: CarManagementDraft, id: Seq<char>) -> bool {
    exists|i: int| 0 <= i < d.seats@.len() && (#[trigger] d.seats@[i]).id@ == id
}

/// The draft keeps (does not create) a key with this id.
pub open spec fn draft_keeps_key(d: CarManagementDraft, id: Seq<char>) -> bool {
    exists|i: int, k: int|
        0 <= i < d.seats@.len() && 0 <= k < d.seats@[i].keys@.len() && !(#[trigger] d.seats@[i].keys@[k]).create
            && d.seats@[i].keys@[k].id@ == id
}

/// The keys to lock, in order: every key that the draft keeps or that sits in
/// the car already, each once, in increasing order.
pub open spec fn lock_order(d: CarManagementDraft, retained: Seq<Seq<char>>) -> Seq<Seq<char>> {
    choose|q: Seq<Seq<char>>|
        strictly_sorted(q) && forall|t: Seq<char>|
            q.contains(t) <==> (draft_keeps_key(d, t) || retained.contains(t))
}

/// Reply: a list of ids (the car's seats, the keys in them, or the group's
/// accounts, by phase).
pub open spec fn ids_step(s: RunState, ids: Seq<Seq<char>>) -> (RunState, SaveAction) {
    if s.phase == SavePhase::OldSeats {
        if exists|j: int| 0 <= j < ids.len() && !draft_has_seat(s.draft, #[trigger] ids[j]) {
            refuse(s, SaveRefusal::SeatRemoved)
        } else {
            (
                RunState {
                    old_seats_empty: ids.len() == 0,
                    phase: SavePhase::RetainedKeys,
                    ..s
                },
                SaveAction::ListRetainedKeys,
            )
        }
    } else if s.phase == SavePhase::RetainedKeys {
        (
            RunState { lock_ids: lock_order(s.draft, ids), phase: SavePhase::Locks, ..s },
            SaveAction::LockRows,
        )
    } else if ids == seq![s.draft.account_id@] {
        go(s, SavePhase::GroupUpdated, SaveAction::UpdateGroup)
    } else if !s.old_seats_empty {
        refuse(s, SaveRefusal::AccountRebound)
    } else {
        go(s, SavePhase::AccountRebound, SaveAction::RebindAccount)
    }
}

/// Reply: whether the ledger leaves a window unexplained, and whether a
/// request is still running.
pub open spec fn ledger_step(s: RunState, incomplete: bool, running: bool) -> (
    RunState,
    SaveAction,
) {
    if incomplete || running {
        refuse(s, SaveRefusal::LedgerUnsettled)
    } else {
        go(s, SavePhase::WindowsReset, SaveAction::ResetWindows)
    }
}

/// Reply: whether some allocated limit is zero.
pub open spec fn allocation_step(s: RunState, zero: bool) -> (RunState, SaveAction) {
    if zero {
        refuse(s, SaveRefusal::AllocationTooSmall)
    } else {
        (
            RunState {
                result: Some((s.revision, s.draft.group_id@, s.new_key_ids)),
                phase: SavePhase::Finalized,
                ..s
            },
            SaveAction::Finalize,
        )
    }
}

/// Reply: the last action is done.
pub open spec fn done_step(s: RunState) -> (RunState, SaveAction) {
    match s.phase {
        SavePhase::Replay => finish(s, Ok(s.replay.unwrap())),
        SavePhase::Locks => {
            let t = RunState { color: uppercase(s.draft.color@), ..s };
            if s.draft.create {
                go(t, SavePhase::GroupInserted, SaveAction::InsertGroup)
            } else {
                go(t, SavePhase::Accounts, SaveAction::ListAccounts)
            }
        },
        SavePhase::GroupInserted => go(s, SavePhase::Accounts, SaveAction::ListAccounts),
        SavePhase::AccountRebound => go(s, SavePhase::GroupUpdated, SaveAction::UpdateGroup),
        SavePhase::GroupUpdated => capacity_step(s),
        SavePhase::CapacityPublished => after_capacity(s),
        SavePhase::WindowsReset => policy_step(s),
        SavePhase::PolicyUpdated => if !s.checks.group_id_valid {
            refuse(s, SaveRefusal::BadGroupId)
        } else {
            start_seat(s, 0)
        },
        SavePhase::SeatSaved => after_seat_saved(s),
        SavePhase::SeatJoined => start_key(s, s.seat, 0),
        SavePhase::KeyWritten => start_key(s, s.seat, s.key + 1),
        SavePhase::Finalized => go(s, SavePhase::Committed, SaveAction::Commit),
        _ => finish(s, Ok(s.result.unwrap())),
    }
}

/// The phases in which the run waits for an action to be done.
pub open spec fn waits_for_done(p: SavePhase) -> bool {
    ||| p == SavePhase::Replay
    ||| p == SavePhase::Locks
    ||| p == SavePhase::GroupInserted
    ||| p == SavePhase::AccountRebound
    ||| p == SavePhase::GroupUpdated
    ||| p == SavePhase::CapacityPublished
    ||| p == SavePhase::WindowsReset
    ||| p == SavePhase::PolicyUpdated
    ||| p == SavePhase::SeatSaved
    ||| p == SavePhase::SeatJoined
    ||| p == SavePhase::KeyWritten
    ||| p == SavePhase::Finalized
    ||| p == SavePhase::Committed
}

/// The phases in which the run waits for a list of ids.
pub open spec fn waits_for_ids(p: SavePhase) -> bool {
    p == SavePhase::OldSeats || p == SavePhase::RetainedKeys || p == SavePhase::Accounts
}


// ---------------------------------------------------------------------------
// Running
// ---------------------------------------------------------------------------

/// A copy of a list of texts.
pub fn copy_texts(v: &Vec<String>) -> (r: Vec<String>)
    ensures
        r.deep_view() == v.deep_view(),
{
    let mut r: Vec<String> = Vec::new();
    let mut i: usize = 0;
    while i < v.len()
        invariant
            i <= v@.len(),
            r.deep_view() =~= v.deep_view().take(i as int),
        decreases v@.len() - i,
    {
        let ghost prev = r.deep_view();
        let item = v[i].clone();
        r.push(item);
        assert(r.deep_view() =~= prev.push(v@[i as int]@));
        assert(v.deep_view().take(i + 1) =~= v.deep_view().take(i as int).push(v@[i as int]@));
        i = i + 1;
    }
    assert(v.deep_view().take(i as int) =~= v.deep_view());
    r
}

/// A copy of a save's answer.
pub fn copy_result(r: &CarManagementResult) -> (c: CarManagementResult)
    ensures
        c@ == r@,
{
    CarManagementResult {
        config_revision: r.config_revision,
        group_id: r.group_id.clone(),
        created_key_ids: copy_texts(&r.created_key_ids),
    }
}

impl SaveRun {
    /// Starts the save of a prepared draft: the first action bumps the
    /// configuration revision.
    pub fn new(command: PreparedCarManagement, checks: SaveChecks) -> (r: (SaveRun, SaveAction))
        requires
            checks.fits(&command.draft),
        ensures
            r.0@.wf(),
            r.0.command == command,
            r.0.checks == checks,
            r.0@.phase == SavePhase::Revision,
            r.0@.replay is None,
            r.0@.result is None,
            r.1 == SaveAction::BumpRevision,
    {
        (
            SaveRun {
                command,
                checks,
                phase: SavePhase::Revision,
                seat: 0,
                key: 0,
                prepared: 0,
                revision: 0,
                old_policy: String::new(),
                old_seats_empty: true,
                lock_ids: Vec::new(),
                color: String::new(),
                reason: None,
                replay: None,
                result: None,
                outcome: None,
            },
            SaveAction::BumpRevision,
        )
    }

    fn stop(&mut self, outcome: Result<CarManagementResult, AdminStoreError>) -> (a: SaveAction)
        requires
            old(self)@.wf(),
        ensures
            final(self)@.wf(),
            (final(self)@, a) == finish(
                old(self)@,
                match outcome {
                    Ok(x) => Ok(x@),
                    Err(e) => Err(e@),
                },
            ),
    {
        self.phase = SavePhase::Finished;
        self.outcome = Some(outcome);
        SaveAction::Finish
    }

    fn refuse(&mut self, r: SaveRefusal) -> (a: SaveAction)
        requires
            old(self)@.wf(),
        ensures
            final(self)@.wf(),
            (final(self)@, a) == refuse(old(self)@, r),
    {
        self.stop(Err(refusal_error(r)))
    }

    /// Reply: the action failed with `error`. The run stops with that error;
    /// nothing is committed.
    pub fn on_failure(&mut self, error: AdminStoreError) -> (a: SaveAction)
        requires
            old(self)@.wf(),
            old(self)@.phase != SavePhase::Finished,
        ensures
            final(self)@.wf(),
            (final(self)@, a) == finish(old(self)@, Err(error@)),
    {
        self.stop(Err(error))
    }

    /// Reply to `BumpRevision`: the new configuration revision.
    pub fn on_revision(&mut self, revision: u64) -> (a: SaveAction)
        requires
            old(self)@.wf(),
            old(self)@.phase == SavePhase::Revision,
        ensures
            final(self)@.wf(),
            (final(self)@, a) == revision_step(old(self)@, revision),
    {
        self.revision = revision;
        self.phase = SavePhase::Receipt;
        SaveAction::FindReceipt
    }

    /// Reply to `FindReceipt`: the stored receipt of the request, if any.
    pub fn on_receipt(&mut self, stored: Option<StoredReceipt>) -> (a: SaveAction)
        requires
            old(self)@.wf(),
            old(self)@.phase == SavePhase::Receipt,
        ensures
            final(self)@.wf(),
            (final(self)@, a) == receipt_step(
                old(self)@,
                match stored {
                    Some(r) => Some((r.fingerprint@, result_view(r.result))),
                    None => None,
                },
            ),
    {
        match stored {
            Some(receipt) => {
                if receipt.fingerprint != self.command.fingerprint {
                    return self.refuse(SaveRefusal::ReusedRequest);
                }
                match receipt.result {
                    None => self.refuse(SaveRefusal::UnreadableReceipt),
                    Some(r) => {
                        self.replay = Some(r);
                        self.phase = SavePhase::Replay;
                        SaveAction::Rollback
                    },
                }
            },
            None => {
                if self.revision.saturating_sub(1) != self.command.draft.expected_revision {
                    return self.refuse(SaveRefusal::StaleRevision);
                }
                self.phase = SavePhase::Group;
                SaveAction::LockGroup
            },
        }
    }

    /// Reply to `LockGroup`: the group's quota policy, if the group exists.
    pub fn on_group(&mut self, policy: Option<String>) -> (a: SaveAction)
        requires
            old(self)@.wf(),
            old(self)@.phase == SavePhase::Group,
        ensures
            final(self)@.wf(),
            (final(self)@, a) == group_step(old(self)@, policy.deep_view()),
    {
        if self.command.draft.create != policy.is_none() {
            return self.refuse(SaveRefusal::GroupChanged);
        }
        self.old_policy = match policy {
            Some(p) => p,
            None => "manual".to_owned(),
        };
        self.phase = SavePhase::Cycle;
        SaveAction::LockCycle
    }

    /// Reply to `LockCycle`: when the quota cycle was last updated, if it
    /// exists.
    pub fn on_cycle(&mut self, updated_at: Option<Timestamp>) -> (a: SaveAction)
        requires
            old(self)@.wf(),
            old(self)@.phase == SavePhase::Cycle,
        ensures
            final(self)@.wf(),
            (final(self)@, a) == cycle_step(old(self)@, updated_at),
    {
        if updated_at != self.command.draft.quota_updated_at {
            return self.refuse(SaveRefusal::QuotaChanged);
        }
        self.phase = SavePhase::OldSeats;
        SaveAction::ListSeats
    }

    /// Reply to `CheckLedger`: whether the ledger leaves a seat window
    /// unexplained, and whether a request is still running.
    pub fn on_ledger(&mut self, incomplete: bool, running: bool) -> (a: SaveAction)
        requires
            old(self)@.wf(),
            old(self)@.phase == SavePhase::Ledger,
        ensures
            final(self)@.wf(),
            (final(self)@, a) == ledger_step(old(self)@, incomplete, running),
    {
        if incomplete || running {
            return self.refuse(SaveRefusal::LedgerUnsettled);
        }
        self.phase = SavePhase::WindowsReset;
        SaveAction::ResetWindows
    }

    /// Reply to `Allocate`: whether some allocated weekly limit is zero.
    pub fn on_allocation(&mut self, zero: bool) -> (a: SaveAction)
        requires
            old(self)@.wf(),
            old(self)@.phase == SavePhase::Allocated,
        ensures
            final(self)@.wf(),
            (final(self)@, a) == allocation_step(old(self)@, zero),
    {
        if zero {
            return self.refuse(SaveRefusal::AllocationTooSmall);
        }
        let mut created: Vec<String> = Vec::new();
        let mut i: usize = 0;
        while i < self.command.new_keys.len()
            invariant
                i <= self.command.new_keys@.len(),
                created.deep_view() =~= prepared_ids(self.command.new_keys@).take(i as int),
            decreases self.command.new_keys@.len() - i,
        {
            let ghost prev = created.deep_view();
            let id = self.command.new_keys[i].id.clone();
            created.push(id);
            assert(created.deep_view() =~= prev.push(self.command.new_keys@[i as int].id@));
            assert(prepared_ids(self.command.new_keys@).take(i + 1) =~= prepared_ids(
                self.command.new_keys@,
            ).take(i as int).push(self.command.new_keys@[i as int].id@));
            i = i + 1;
        }
        assert(prepared_ids(self.command.new_keys@).take(i as int) =~= prepared_ids(
            self.command.new_keys@,
        ));
        self.result = Some(
            CarManagementResult {
                config_revision: self.revision,
                group_id: self.command.draft.group_id.clone(),
                created_key_ids: created,
            },
        );
        self.phase = SavePhase::Finalized;
        SaveAction::Finalize
    }

    /// Reply to `Finalize`: the answer could not be encoded for its receipt.
    pub fn on_unencodable(&mut self) -> (a: SaveAction)
        requires
            old(self)@.wf(),
            old(self)@.phase == SavePhase::Finalized,
        ensures
            final(self)@.wf(),
            (final(self)@, a) == refuse(old(self)@, SaveRefusal::UnreadableReceipt),
    {
        self.refuse(SaveRefusal::UnreadableReceipt)
    }
}


// ---------------------------------------------------------------------------
// Lookups over the draft
// ---------------------------------------------------------------------------

/// A key of seat `i2`, position `k2`, is kept with id `t` and comes before key
/// `k` of seat `i` in the draft.
pub open spec fn keeps_key_before(d: CarManagementDraft, i: int, k: int, t: Seq<char>) -> bool {
    exists|i2: int, k2: int|
        0 <= i2 < d.seats@.len() && 0 <= k2 < d.seats@[i2].keys@.len() && (i2 < i || (i2 == i
            && k2 < k)) && !(#[trigger] d.seats@[i2].keys@[k2]).create && d.seats@[i2].keys@[k2].id@
            == t
}

proof fn lemma_keeps_before_grows(d: CarManagementDraft, i: int, k: int, t: Seq<char>)
    requires
        keeps_key_before(d, i, k, t),
    ensures
        keeps_key_before(d, i, k + 1, t),
{
    let (i2, k2) = choose|i2: int, k2: int|
        0 <= i2 < d.seats@.len() && 0 <= k2 < d.seats@[i2].keys@.len() && (i2 < i || (i2 == i
            && k2 < k)) && !(#[trigger] d.seats@[i2].keys@[k2]).create && d.seats@[i2].keys@[k2].id@
            == t;
    assert(!d.seats@[i2].keys@[k2].create);
}

/// The ids of the keys that the draft keeps, in its order.
fn kept_key_ids(d: &CarManagementDraft) -> (r: Vec<String>)
    ensures
        forall|t: Seq<char>| r.deep_view().contains(t) <==> draft_keeps_key(*d, t),
{
    let mut r: Vec<String> = Vec::new();
    let n = d.seats.len();
    let mut i: usize = 0;
    while i < n
        invariant
            n == d.seats@.len(),
            i <= n,
            forall|t: Seq<char>| r.deep_view().contains(t) <==> keeps_key_before(*d, i as int, 0, t),
        decreases n - i,
    {
        let keys = &d.seats[i].keys;
        let m = keys.len();
        let mut k: usize = 0;
        while k < m
            invariant
                n == d.seats@.len(),
                i < n,
                *keys == d.seats@[i as int].keys,
                m == keys@.len(),
                k <= m,
                forall|t: Seq<char>|
                    r.deep_view().contains(t) <==> keeps_key_before(*d, i as int, k as int, t),
            decreases m - k,
        {
            if !keys[k].create {
                let ghost prev = r.deep_view();
                assert(forall|t: Seq<char>|
                    prev.contains(t) <==> keeps_key_before(*d, i as int, k as int, t));
                let id = keys[k].id.clone();
                r.push(id);
                assert(r.deep_view() =~= prev.push(keys@[k as int].id@));
                assert forall|t: Seq<char>|
                    r.deep_view().contains(t) <==> keeps_key_before(
                        *d,
                        i as int,
                        k + 1,
                        t,
                    ) by {
                    if r.deep_view().contains(t) {
                        let w = choose|w: int|
                            0 <= w < r.deep_view().len() && #[trigger] r.deep_view()[w] == t;
                        if w < prev.len() {
                            assert(prev[w] == t);
                            assert(prev.contains(t));
                            lemma_keeps_before_grows(*d, i as int, k as int, t);
                        } else {
                            assert(d.seats@[i as int].keys@[k as int].id@ == t);
                            assert(keeps_key_before(*d, i as int, k + 1, t));
                        }
                    }
                    if keeps_key_before(*d, i as int, k + 1, t) {
                        let (i2, k2) = choose|i2: int, k2: int|
                            0 <= i2 < d.seats@.len() && 0 <= k2 < d.seats@[i2].keys@.len() && (i2
                                < i || (i2 == i && k2 < k + 1)) && !(#[trigger] d.seats@[i2].keys@[k2]).create
                                && d.seats@[i2].keys@[k2].id@ == t;
                        if i2 == i && k2 == k {
                            assert(r.deep_view()[prev.len() as int] == t);
                        } else {
                            assert(keeps_key_before(*d, i as int, k as int, t));
                            assert(prev.contains(t));
                            let w = choose|w: int| 0 <= w < prev.len() && #[trigger] prev[w] == t;
                            assert(r.deep_view()[w] == t);
                        }
                    }
                }
            } else {
                assert forall|t: Seq<char>|
                    keeps_key_before(*d, i as int, k as int, t) <==> keeps_key_before(
                        *d,
                        i as int,
                        k + 1,
                        t,
                    ) by {
                    if keeps_key_before(*d, i as int, k + 1, t) {
                        let (i2, k2) = choose|i2: int, k2: int|
                            0 <= i2 < d.seats@.len() && 0 <= k2 < d.seats@[i2].keys@.len() && (i2
                                < i || (i2 == i && k2 < k + 1)) && !(#[trigger] d.seats@[i2].keys@[k2]).create
                                && d.seats@[i2].keys@[k2].id@ == t;
                        assert(!(i2 == i && k2 == k));
                    }
                }
            }
            k = k + 1;
        }
        assert forall|t: Seq<char>|
            keeps_key_before(*d, i as int, m as int, t) <==> keeps_key_before(
                *d,
                i + 1,
                0,
                t,
            ) by {
            if keeps_key_before(*d, i + 1, 0, t) {
                let (i2, k2) = choose|i2: int, k2: int|
                    0 <= i2 < d.seats@.len() && 0 <= k2 < d.seats@[i2].keys@.len() && (i2 < i + 1
                        || (i2 == i + 1 && k2 < 0)) && !(#[trigger] d.seats@[i2].keys@[k2]).create
                        && d.seats@[i2].keys@[k2].id@ == t;
                assert(keeps_key_before(*d, i as int, m as int, t));
            }
        }
        i = i + 1;
    }
    assert forall|t: Seq<char>| keeps_key_before(*d, n as int, 0, t) <==> draft_keeps_key(*d, t) by {
        if draft_keeps_key(*d, t) {
            let (i2, k2) = choose|i2: int, k2: int|
                0 <= i2 < d.seats@.len() && 0 <= k2 < d.seats@[i2].keys@.len() && !(#[trigger] d.seats@[i2].keys@[k2]).create
                    && d.seats@[i2].keys@[k2].id@ == t;
            assert(keeps_key_before(*d, n as int, 0, t));
        }
    }
    r
}

/// Whether the draft lists a seat with id `id`.
fn lists_seat(d: &CarManagementDraft, id: &String) -> (r: bool)
    ensures
        r == draft_has_seat(*d, id@),
{
    let mut i: usize = 0;
    while i < d.seats.len()
        invariant
            i <= d.seats@.len(),
            forall|j: int| 0 <= j < i ==> (#[trigger] d.seats@[j]).id@ != id@,
        decreases d.seats@.len() - i,
    {
        if d.seats[i].id == *id {
            assert(d.seats@[i as int].id@ == id@);
            return true;
        }
        i = i + 1;
    }
    false
}

/// The position of the prepared key with id `id`, if any: the first one.
fn find_prepared(keys: &Vec<NewClientKey>, id: &String) -> (r: Option<usize>)
    ensures
        match r {
            Some(j) => j == first_position(prepared_ids(keys@), id@) && j < keys@.len(),
            None => first_position(prepared_ids(keys@), id@) == -1,
        },
{
    let ghost ids = prepared_ids(keys@);
    let mut j: usize = 0;
    while j < keys.len()
        invariant
            ids == prepared_ids(keys@),
            j <= keys@.len(),
            forall|q: int| 0 <= q < j ==> ids[q] != id@,
        decreases keys@.len() - j,
    {
        if keys[j].id == *id {
            proof {
                assert(found_at(ids, id@, j as int));
                let c = choose|c: int| found_at(ids, id@, c);
                if c < j {
                    assert(ids[c] != id@);
                } else if c > j {
                    assert(ids[j as int] != id@);
                }
                assert(c == j);
            }
            return Some(j);
        }
        j = j + 1;
    }
    assert(!exists|c: int| found_at(ids, id@, c)) by {
        if exists|c: int| found_at(ids, id@, c) {
            let c = choose|c: int| found_at(ids, id@, c);
            assert(ids[c] != id@);
        }
    }
    None
}


// ---------------------------------------------------------------------------
// Running the seats, the keys and the policy
// ---------------------------------------------------------------------------

impl SaveRun {
    fn start_seat(&mut self, i: usize) -> (a: SaveAction)
        requires
            old(self)@.wf(),
            i <= seat_count(old(self)@),
            old(self)@.phase != SavePhase::Finished,
        ensures
            final(self)@.wf(),
            (final(self)@, a) == start_seat(old(self)@, i as int),
    {
        if i >= self.command.draft.seats.len() {
            self.seat = i;
            self.phase = SavePhase::Allocated;
            return SaveAction::Allocate;
        }
        let sc = &self.checks.seats[i];
        if !sc.id_valid {
            return self.refuse(SaveRefusal::BadSeatId);
        }
        if !sc.weight_valid {
            return self.refuse(SaveRefusal::BadWeight);
        }
        if !sc.daily_limit_valid {
            return self.refuse(SaveRefusal::BadDailyLimit);
        }
        if !sc.weekly_limit_valid {
            return self.refuse(SaveRefusal::BadWeeklyLimit);
        }
        self.seat = i;
        self.phase = SavePhase::SeatSaved;
        SaveAction::SaveSeat
    }

    fn start_key(&mut self, i: usize, k: usize) -> (a: SaveAction)
        requires
            old(self)@.wf(),
            i < seat_count(old(self)@),
            k <= seat_keys(old(self)@, i as int).len(),
            old(self)@.phase != SavePhase::Finished,
        ensures
            final(self)@.wf(),
            (final(self)@, a) == start_key(old(self)@, i as int, k as int),
    {
        let n = self.command.draft.seats.len();
        if k >= self.command.draft.seats[i].keys.len() {
            assert(i < n);
            return self.start_seat(i + 1);
        }
        if self.command.draft.seats[i].keys[k].create {
            match find_prepared(&self.command.new_keys, &self.command.draft.seats[i].keys[k].id) {
                None => self.refuse(SaveRefusal::MissingCredential),
                Some(j) => {
                    self.seat = i;
                    self.key = k;
                    self.prepared = j;
                    self.phase = SavePhase::KeyWritten;
                    SaveAction::WriteKey
                },
            }
        } else {
            self.seat = i;
            self.key = k;
            self.phase = SavePhase::KeyWritten;
            SaveAction::WriteKey
        }
    }

    fn after_seat_saved(&mut self) -> (a: SaveAction)
        requires
            old(self)@.wf(),
            old(self)@.phase == SavePhase::SeatSaved,
        ensures
            final(self)@.wf(),
            (final(self)@, a) == after_seat_saved(old(self)@),
    {
        let i = self.seat;
        let ghost s = self@;
        let m = self.command.draft.seats[i].keys.len();
        let mut bad = false;
        let mut member = false;
        let mut k: usize = 0;
        while k < m
            invariant
                s == self@,
                s.wf(),
                s.phase == SavePhase::SeatSaved,
                i == s.seat,
                m == seat_keys(s, i as int).len(),
                k <= m,
                bad == exists|q: int|
                    0 <= q < k && !(#[trigger] seat_keys(s, i as int)[q]).create
                        && !s.checks.seats@[i as int].key_ids_valid@[q],
                member == exists|q: int| 0 <= q < k && !(#[trigger] seat_keys(s, i as int)[q]).create,
            decreases m - k,
        {
            if !self.command.draft.seats[i].keys[k].create {
                member = true;
                if !self.checks.seats[i].key_ids_valid[k] {
                    bad = true;
                }
            }
            k = k + 1;
        }
        if bad {
            return self.refuse(SaveRefusal::BadKeyId);
        }
        if member {
            self.phase = SavePhase::SeatJoined;
            return SaveAction::JoinSeat;
        }
        self.start_key(i, 0)
    }

    fn policy_step(&mut self) -> (a: SaveAction)
        requires
            old(self)@.wf(),
            old(self)@.phase != SavePhase::Finished,
        ensures
            final(self)@.wf(),
            (final(self)@, a) == policy_step(old(self)@),
    {
        let old_policy = self.old_policy.as_str();
        let policy = self.command.draft.quota_policy.as_str();
        let changes = !same_text(old_policy, policy) && (same_text(old_policy, "manual")
            || same_text(policy, "manual"));
        self.reason = if changes {
            if same_text(policy, "manual") {
                Some("手动设置额度与窗口".to_owned())
            } else {
                Some("等待账号周期观测确认".to_owned())
            }
        } else {
            None
        };
        self.phase = SavePhase::PolicyUpdated;
        SaveAction::UpdatePolicy
    }

    fn after_capacity(&mut self) -> (a: SaveAction)
        requires
            old(self)@.wf(),
            old(self)@.phase != SavePhase::Finished,
        ensures
            final(self)@.wf(),
            (final(self)@, a) == after_capacity(old(self)@),
    {
        if same_text(self.command.draft.quota_policy.as_str(), "manual") && !same_text(
            self.old_policy.as_str(),
            "manual",
        ) {
            self.phase = SavePhase::Ledger;
            return SaveAction::CheckLedger;
        }
        self.policy_step()
    }

    fn capacity_step(&mut self) -> (a: SaveAction)
        requires
            old(self)@.wf(),
            old(self)@.phase != SavePhase::Finished,
        ensures
            final(self)@.wf(),
            (final(self)@, a) == capacity_step(old(self)@),
    {
        if same_text(self.command.draft.quota_policy.as_str(), "automatic") && !same_text(
            self.old_policy.as_str(),
            "automatic",
        ) {
            if self.command.draft.initial_capacity_usd.is_none() {
                return self.refuse(SaveRefusal::CapacityMissing);
            }
            self.phase = SavePhase::CapacityPublished;
            return SaveAction::PublishCapacity;
        }
        if self.command.draft.initial_capacity_usd.is_some() {
            return self.refuse(SaveRefusal::CapacityUnexpected);
        }
        self.after_capacity()
    }

    /// Reply to `ListSeats`, `ListRetainedKeys` or `ListAccounts`: the ids
    /// listed.
    pub fn on_ids(&mut self, ids: Vec<String>) -> (a: SaveAction)
        requires
            old(self)@.wf(),
            waits_for_ids(old(self)@.phase),
        ensures
            final(self)@.wf(),
            (final(self)@, a) == ids_step(old(self)@, ids.deep_view()),
            old(self)@.phase == SavePhase::RetainedKeys ==> {
                &&& strictly_sorted(final(self)@.lock_ids)
                &&& forall|t: Seq<char>|
                    final(self)@.lock_ids.contains(t) <==> (draft_keeps_key(old(self)@.draft, t)
                        || ids.deep_view().contains(t))
            },
    {
        let ghost s0 = self@;
        if self.phase == SavePhase::OldSeats {
            let mut j: usize = 0;
            while j < ids.len()
                invariant
                    s0 == self@,
                    s0 == old(self)@,
                    s0.wf(),
                    s0.phase == SavePhase::OldSeats,
                    j <= ids@.len(),
                    forall|q: int| 0 <= q < j ==> draft_has_seat(self.command.draft, #[trigger] ids.deep_view()[q]),
                decreases ids@.len() - j,
            {
                if !lists_seat(&self.command.draft, &ids[j]) {
                    assert(!draft_has_seat(self.command.draft, ids.deep_view()[j as int]));
                    assert(exists|q: int|
                        0 <= q < ids.deep_view().len() && !draft_has_seat(
                            self.command.draft,
                            #[trigger] ids.deep_view()[q],
                        ));
                    return self.refuse(SaveRefusal::SeatRemoved);
                }
                j = j + 1;
            }
            self.old_seats_empty = ids.len() == 0;
            self.phase = SavePhase::RetainedKeys;
            return SaveAction::ListRetainedKeys;
        }
        if self.phase == SavePhase::RetainedKeys {
            let mut all = kept_key_ids(&self.command.draft);
            let ghost kept = all.deep_view();
            let mut j: usize = 0;
            while j < ids.len()
                invariant
                    s0 == self@,
                    s0 == old(self)@,
                    s0.wf(),
                    s0.phase == SavePhase::RetainedKeys,
                    j <= ids@.len(),
                    forall|t: Seq<char>| kept.contains(t) <==> draft_keeps_key(self.command.draft, t),
                    forall|t: Seq<char>|
                        all.deep_view().contains(t) <==> (kept.contains(t) || ids.deep_view().take(
                            j as int,
                        ).contains(t)),
                decreases ids@.len() - j,
            {
                let ghost prev = all.deep_view();
                let ghost before = ids.deep_view().take(j as int);
                let ghost after = ids.deep_view().take(j + 1);
                let ghost x = ids.deep_view()[j as int];
                assert(forall|t: Seq<char>| prev.contains(t) <==> (kept.contains(t) || before.contains(t)));
                let id = ids[j].clone();
                all.push(id);
                assert(all.deep_view() =~= prev.push(x));
                assert(after =~= before.push(x));
                assert forall|t: Seq<char>|
                    all.deep_view().contains(t) <==> (kept.contains(t) || after.contains(t)) by {
                    crate::order::lemma_contains_after_push(prev, x, t);
                    crate::order::lemma_contains_after_push(before, x, t);
                }
                j = j + 1;
                assert(after == ids.deep_view().take(j as int));
            }
            assert(ids.deep_view().take(j as int) =~= ids.deep_view());
            let order = sorted_unique(&all);
            proof {
                let d = self.command.draft;
                let q = order.deep_view();
                assert(strictly_sorted(q) && forall|t: Seq<char>|
                    q.contains(t) <==> (draft_keeps_key(d, t) || ids.deep_view().contains(t)));
                let c = lock_order(d, ids.deep_view());
                crate::order::lemma_sorted_determined(c, q);
            }
            self.lock_ids = order;
            self.phase = SavePhase::Locks;
            return SaveAction::LockRows;
        }
        if ids.len() == 1 && ids[0] == self.command.draft.account_id {
            assert(ids.deep_view() =~= seq![self.command.draft.account_id@]);
            self.phase = SavePhase::GroupUpdated;
            return SaveAction::UpdateGroup;
        }
        proof {
            if ids.deep_view() == seq![self.command.draft.account_id@] {
                assert(ids.deep_view()[0] == self.command.draft.account_id@);
            }
        }
        if !self.old_seats_empty {
            return self.refuse(SaveRefusal::AccountRebound);
        }
        self.phase = SavePhase::AccountRebound;
        SaveAction::RebindAccount
    }

    /// Reply to any action whose reply is only that it is done.
    pub fn on_done(&mut self) -> (a: SaveAction)
        requires
            old(self)@.wf(),
            waits_for_done(old(self)@.phase),
        ensures
            final(self)@.wf(),
            (final(self)@, a) == done_step(old(self)@),
    {
        match self.phase {
            SavePhase::Replay => {
                let answer = match &self.replay {
                    Some(r) => copy_result(r),
                    None => {
                        assert(false);
                        return self.refuse(SaveRefusal::UnreadableReceipt);
                    },
                };
                self.stop(Ok(answer))
            },
            SavePhase::Locks => {
                self.color = to_uppercase(self.command.draft.color.as_str());
                if self.command.draft.create {
                    self.phase = SavePhase::GroupInserted;
                    SaveAction::InsertGroup
                } else {
                    self.phase = SavePhase::Accounts;
                    SaveAction::ListAccounts
                }
            },
            SavePhase::GroupInserted => {
                self.phase = SavePhase::Accounts;
                SaveAction::ListAccounts
            },
            SavePhase::AccountRebound => {
                self.phase = SavePhase::GroupUpdated;
                SaveAction::UpdateGroup
            },
            SavePhase::GroupUpdated => self.capacity_step(),
            SavePhase::CapacityPublished => self.after_capacity(),
            SavePhase::WindowsReset => self.policy_step(),
            SavePhase::PolicyUpdated => {
                if !self.checks.group_id_valid {
                    return self.refuse(SaveRefusal::BadGroupId);
                }
                self.start_seat(0)
            },
            SavePhase::SeatSaved => self.after_seat_saved(),
            SavePhase::SeatJoined => {
                let i = self.seat;
                self.start_key(i, 0)
            },
            SavePhase::KeyWritten => {
                let i = self.seat;
                let k = self.key;
                let m = self.command.draft.seats[i].keys.len();
                assert(k < m);
                self.start_key(i, k + 1)
            },
            SavePhase::Finalized => {
                self.phase = SavePhase::Committed;
                SaveAction::Commit
            },
            _ => {
                let answer = match &self.result {
                    Some(r) => copy_result(r),
                    None => {
                        assert(false);
                        return self.refuse(SaveRefusal::UnreadableReceipt);
                    },
                };
                self.stop(Ok(answer))
            },
        }
    }
}


// ---------------------------------------------------------------------------
// Laws of a save
// ---------------------------------------------------------------------------

proof fn lemma_seat_steps_never_commit(s: RunState, i: int)
    ensures
        start_seat(s, i).1 != SaveAction::Commit,
        forall|k: int| #[trigger] start_key(s, i, k).1 != SaveAction::Commit,
        after_seat_saved(s).1 != SaveAction::Commit,
{
    assert forall|k: int| #[trigger] start_key(s, i, k).1 != SaveAction::Commit by {
        if k >= seat_keys(s, i).len() {
            assert(start_seat(s, i + 1).1 != SaveAction::Commit);
        }
    }
    assert(start_seat(s, i + 1).1 != SaveAction::Commit);
    assert(start_key(s, s.seat, 0).1 != SaveAction::Commit);
}

/// The transaction is committed only after every check and every write of
/// the save: no reply but "done" to `Finalize` asks for `Commit`, so a save
/// that is refused, or whose action fails, never commits anything.
pub proof fn lemma_commit_only_after_finalize(
    s: RunState,
    revision: u64,
    stored: Option<(Seq<char>, Option<(u64, Seq<char>, Seq<Seq<char>>)>)>,
    policy: Option<Seq<char>>,
    updated_at: Option<Timestamp>,
    ids: Seq<Seq<char>>,
    incomplete: bool,
    running: bool,
    zero: bool,
    error: (AdminStoreErrorKind, Seq<char>, Seq<char>),
)
    ensures
        revision_step(s, revision).1 != SaveAction::Commit,
        receipt_step(s, stored).1 != SaveAction::Commit,
        group_step(s, policy).1 != SaveAction::Commit,
        cycle_step(s, updated_at).1 != SaveAction::Commit,
        ids_step(s, ids).1 != SaveAction::Commit,
        ledger_step(s, incomplete, running).1 != SaveAction::Commit,
        allocation_step(s, zero).1 != SaveAction::Commit,
        finish(s, Err(error)).1 != SaveAction::Commit,
        done_step(s).1 == SaveAction::Commit ==> s.phase == SavePhase::Finalized,
{
    lemma_seat_steps_never_commit(s, 0);
    lemma_seat_steps_never_commit(s, s.seat);
    assert(start_key(s, s.seat, s.key + 1).1 != SaveAction::Commit);
}

/// A failure of any action ends the save with exactly that error.
pub proof fn lemma_failure_is_final(s: RunState, error: (AdminStoreErrorKind, Seq<char>, Seq<char>))
    ensures
        finish(s, Err(error)).0.phase == SavePhase::Finished,
        finish(s, Err(error)).0.outcome == Some(
            Err::<(u64, Seq<char>, Seq<Seq<char>>), _>(error),
        ),
        finish(s, Err(error)).1 == SaveAction::Finish,
{
}

/// A retry of a saved request with the same draft is answered what the first
/// save answered: the transaction is rolled back and nothing is written.
pub proof fn lemma_retry_answers_the_receipt(s: RunState, answer: (u64, Seq<char>, Seq<Seq<char>>))
    requires
        s.phase == SavePhase::Receipt,
    ensures
        receipt_step(s, Some((s.fingerprint, Some(answer)))).1 == SaveAction::Rollback,
        done_step(receipt_step(s, Some((s.fingerprint, Some(answer)))).0).1 == SaveAction::Finish,
        done_step(receipt_step(s, Some((s.fingerprint, Some(answer)))).0).0.outcome == Some(
            Ok::<_, (AdminStoreErrorKind, Seq<char>, Seq<char>)>(answer),
        ),
{
}

/// A request id that was used for another draft is refused as a conflict,
/// whatever its stored answer.
pub proof fn lemma_reused_request_conflicts(
    s: RunState,
    fingerprint: Seq<char>,
    answer: Option<(u64, Seq<char>, Seq<Seq<char>>)>,
)
    requires
        fingerprint != s.fingerprint,
    ensures
        receipt_step(s, Some((fingerprint, answer))).0.outcome == Some(
            Err::<(u64, Seq<char>, Seq<Seq<char>>), _>(refusal_view(SaveRefusal::ReusedRequest)),
        ),
        refusal_view(SaveRefusal::ReusedRequest).0 == AdminStoreErrorKind::Conflict,
{
}

/// A new request made against another revision than the one before the save
/// is refused as a conflict.
pub proof fn lemma_stale_draft_conflicts(s: RunState)
    requires
        previous_revision(s.revision) != s.draft.expected_revision,
    ensures
        receipt_step(s, None).0.outcome == Some(
            Err::<(u64, Seq<char>, Seq<Seq<char>>), _>(refusal_view(SaveRefusal::StaleRevision)),
        ),
        refusal_view(SaveRefusal::StaleRevision).0 == AdminStoreErrorKind::Conflict,
{
}

/// A save that commits answers the new revision, the group id and the ids of
/// the keys it created, in the order in which they were prepared.
pub proof fn lemma_committed_answer(s: RunState)
    requires
        s.wf(),
        s.phase == SavePhase::Committed,
    ensures
        done_step(s).0.outcome == Some(
            Ok::<_, (AdminStoreErrorKind, Seq<char>, Seq<char>)>(
                (s.revision, s.draft.group_id@, s.new_key_ids),
            ),
        ),
{
}

/// A car that already has seats is never moved to another account.
pub proof fn lemma_seated_car_keeps_account(s: RunState, ids: Seq<Seq<char>>)
    requires
        s.phase == SavePhase::Accounts,
        !s.old_seats_empty,
        ids != seq![s.draft.account_id@],
    ensures
        ids_step(s, ids).1 == SaveAction::Finish,
        ids_step(s, ids).0.outcome == Some(
            Err::<(u64, Seq<char>, Seq<Seq<char>>), _>(refusal_view(SaveRefusal::AccountRebound)),
        ),
{
}

/// A seat that the car has is never dropped by a save.
pub proof fn lemma_seats_are_never_dropped(s: RunState, ids: Seq<Seq<char>>, j: int)
    requires
        s.phase == SavePhase::OldSeats,
        0 <= j < ids.len(),
        !draft_has_seat(s.draft, ids[j]),
    ensures
        ids_step(s, ids).0.outcome == Some(
            Err::<(u64, Seq<char>, Seq<Seq<char>>), _>(refusal_view(SaveRefusal::SeatRemoved)),
        ),
{
}


/// The initial capacity is published only when the save switches automatic
/// management on, and then it must be given: every other save that gives one
/// is refused.
pub proof fn lemma_capacity_only_when_switching_on(s: RunState)
    requires
        s.phase == SavePhase::GroupUpdated,
    ensures
        done_step(s).1 == SaveAction::PublishCapacity <==> (s.draft.quota_policy@ == "automatic"@
            && s.old_policy != "automatic"@ && s.draft.initial_capacity_usd is Some),
        s.draft.initial_capacity_usd is Some && !(s.draft.quota_policy@ == "automatic"@
            && s.old_policy != "automatic"@) ==> done_step(s).0.outcome == Some(
            Err::<(u64, Seq<char>, Seq<Seq<char>>), _>(
                refusal_view(SaveRefusal::CapacityUnexpected),
            ),
        ),
{
    assert(after_capacity(s).1 != SaveAction::PublishCapacity);
}

/// The seat windows are realigned only after the ledger was found settled,
/// and a switch to manual management always asks the ledger first.
pub proof fn lemma_windows_reset_needs_settled_ledger(s: RunState, incomplete: bool, running: bool)
    ensures
        s.phase == SavePhase::Ledger ==> (ledger_step(s, incomplete, running).1
            == SaveAction::ResetWindows <==> !incomplete && !running),
        s.phase == SavePhase::GroupUpdated && s.draft.quota_policy@ == "manual"@ && s.old_policy
            != "manual"@ && s.draft.initial_capacity_usd is None ==> done_step(s).1
            == SaveAction::CheckLedger,
{
    reveal_strlit("manual");
    reveal_strlit("automatic");
    assert("manual"@ != "automatic"@) by {
        assert("manual"@[0] != "automatic"@[0]);
    }
}


// ---------------------------------------------------------------------------
// Laws of the policy switch and of the seat loop
// ---------------------------------------------------------------------------

proof fn lemma_policy_names_differ()
    ensures
        "manual"@ != "automatic"@,
        "manual"@ != "cycle"@,
        "cycle"@ != "automatic"@,
{
    reveal_strlit("manual");
    reveal_strlit("automatic");
    reveal_strlit("cycle");
    assert("manual"@[0] != "automatic"@[0]);
    assert("manual"@[0] != "cycle"@[0]);
    assert("cycle"@[0] != "automatic"@[0]);
}

/// A group that does not exist yet counts as manually managed: the old policy
/// of a car being created is "manual", and an existing group keeps its own.
pub proof fn lemma_missing_group_counts_as_manual(s: RunState, policy: Option<Seq<char>>)
    requires
        s.draft.create == (policy is None),
    ensures
        group_step(s, policy).1 == SaveAction::LockCycle,
        group_step(s, policy).0.phase == SavePhase::Cycle,
        policy is None ==> group_step(s, policy).0.old_policy == "manual"@,
        policy matches Some(p) ==> group_step(s, policy).0.old_policy == p,
{
}

/// Creating a car with automatic management and an initial capacity
/// publishes that capacity: the missing group counts as manual, so the save
/// switches automatic management on.
pub proof fn lemma_new_automatic_car_publishes_capacity(s: RunState)
    requires
        s.draft.create,
        s.draft.quota_policy@ == "automatic"@,
        s.draft.initial_capacity_usd is Some,
    ensures
        done_step(RunState { phase: SavePhase::GroupUpdated, ..group_step(s, None).0 }).1
            == SaveAction::PublishCapacity,
{
    lemma_policy_names_differ();
}

/// Creating a car with automatic management and no initial capacity is
/// refused: switching automatic management on needs a capacity.
pub proof fn lemma_new_automatic_car_needs_capacity(s: RunState)
    requires
        s.draft.create,
        s.draft.quota_policy@ == "automatic"@,
        s.draft.initial_capacity_usd is None,
    ensures
        done_step(RunState { phase: SavePhase::GroupUpdated, ..group_step(s, None).0 }).0.outcome
            == Some(
            Err::<(u64, Seq<char>, Seq<Seq<char>>), _>(refusal_view(SaveRefusal::CapacityMissing)),
        ),
{
    lemma_policy_names_differ();
}

/// The ledger is checked (and the seat windows realigned) exactly when the
/// save switches a car to manual management; every other policy change goes
/// straight to setting the policy.
pub proof fn lemma_ledger_checked_only_when_switching_to_manual(s: RunState)
    ensures
        after_capacity(s).1 == SaveAction::CheckLedger <==> (s.draft.quota_policy@ == "manual"@
            && s.old_policy != "manual"@),
        after_capacity(s).1 != SaveAction::CheckLedger ==> after_capacity(s).1
            == SaveAction::UpdatePolicy,
        s.draft.quota_policy@ != "manual"@ && (s.phase == SavePhase::GroupUpdated || s.phase
            == SavePhase::CapacityPublished) ==> done_step(s).1 != SaveAction::CheckLedger
            && done_step(s).1 != SaveAction::ResetWindows,
{
}

/// The prediction reason changes exactly when the policy changes to or from
/// manual: to manual it says the quota is set by hand, from manual it says the
/// account cycle awaits confirmation.
pub proof fn lemma_prediction_reason(s: RunState)
    ensures
        policy_step(s).1 == SaveAction::UpdatePolicy,
        s.draft.quota_policy@ == "manual"@ && s.old_policy != "manual"@ ==> policy_step(
            s,
        ).0.reason == Some("手动设置额度与窗口"@),
        s.old_policy == "manual"@ && s.draft.quota_policy@ != "manual"@ ==> policy_step(
            s,
        ).0.reason == Some("等待账号周期观测确认"@),
        s.old_policy == s.draft.quota_policy@ ==> policy_step(s).0.reason is None,
        s.old_policy != "manual"@ && s.draft.quota_policy@ != "manual"@ ==> policy_step(
            s,
        ).0.reason is None,
{
}

/// After a seat is saved, its kept keys (created ones excepted, at any
/// position) join it when all their ids read; a kept key whose id does not
/// read refuses the save; a seat without kept keys goes on to its keys.
pub proof fn lemma_kept_keys_join_their_seat(s: RunState)
    requires
        s.wf(),
        s.phase == SavePhase::SeatSaved,
    ensures
        (exists|k: int|
            0 <= k < s.draft.seats@[s.seat].keys@.len() && !(#[trigger] s.draft.seats@[s.seat].keys@[k]).create
                && !s.checks.seats@[s.seat].key_ids_valid@[k]) ==> after_seat_saved(s).0.outcome
            == Some(Err::<(u64, Seq<char>, Seq<Seq<char>>), _>(refusal_view(SaveRefusal::BadKeyId))),
        (exists|k: int|
            0 <= k < s.draft.seats@[s.seat].keys@.len() && !(#[trigger] s.draft.seats@[s.seat].keys@[k]).create)
            && (forall|k: int|
            0 <= k < s.draft.seats@[s.seat].keys@.len() && !(#[trigger] s.draft.seats@[s.seat].keys@[k]).create
                ==> s.checks.seats@[s.seat].key_ids_valid@[k]) ==> after_seat_saved(s).1
            == SaveAction::JoinSeat && after_seat_saved(s).0.seat == s.seat,
        (forall|k: int|
            0 <= k < s.draft.seats@[s.seat].keys@.len() ==> (#[trigger] s.draft.seats@[s.seat].keys@[k]).create)
            ==> after_seat_saved(s).1 != SaveAction::JoinSeat,
{
    if exists|k: int|
        0 <= k < s.draft.seats@[s.seat].keys@.len() && !(#[trigger] s.draft.seats@[s.seat].keys@[k]).create
            && !s.checks.seats@[s.seat].key_ids_valid@[k] {
        let k = choose|k: int|
            0 <= k < s.draft.seats@[s.seat].keys@.len() && !(#[trigger] s.draft.seats@[s.seat].keys@[k]).create
                && !s.checks.seats@[s.seat].key_ids_valid@[k];
        assert(!(seat_keys(s, s.seat)[k]).create);
        assert(has_bad_member(s, s.seat));
    }
    if exists|k: int|
        0 <= k < s.draft.seats@[s.seat].keys@.len() && !(#[trigger] s.draft.seats@[s.seat].keys@[k]).create {
        let k = choose|k: int|
            0 <= k < s.draft.seats@[s.seat].keys@.len() && !(#[trigger] s.draft.seats@[s.seat].keys@[k]).create;
        assert(!(seat_keys(s, s.seat)[k]).create);
        assert(has_member(s, s.seat));
    }
    if forall|k: int|
        0 <= k < s.draft.seats@[s.seat].keys@.len() ==> (#[trigger] s.draft.seats@[s.seat].keys@[k]).create {
        assert(!has_member(s, s.seat));
        assert(!has_bad_member(s, s.seat));
        if seat_keys(s, s.seat).len() > 0 {
            assert(seat_keys(s, s.seat)[0].create);
        } else {
            assert(start_seat(s, s.seat + 1).1 != SaveAction::JoinSeat);
        }
    }
}

/// Each seat is taken in turn: a seat whose id and amounts read is saved, the
/// first one that does not refuses the save with the matching reason, and
/// after the last seat come the allocations.
pub proof fn lemma_seats_in_turn(s: RunState, i: int)
    requires
        0 <= i,
    ensures
        i >= s.draft.seats@.len() ==> start_seat(s, i).1 == SaveAction::Allocate,
        i < s.draft.seats@.len() && s.checks.seats@[i].id_valid && s.checks.seats@[i].weight_valid
            && s.checks.seats@[i].daily_limit_valid && s.checks.seats@[i].weekly_limit_valid
            ==> start_seat(s, i).1 == SaveAction::SaveSeat && start_seat(s, i).0.seat == i,
        i < s.draft.seats@.len() && !s.checks.seats@[i].id_valid ==> start_seat(s, i).0.outcome
            == Some(Err::<(u64, Seq<char>, Seq<Seq<char>>), _>(refusal_view(SaveRefusal::BadSeatId))),
        i < s.draft.seats@.len() && s.checks.seats@[i].id_valid && !s.checks.seats@[i].weight_valid
            ==> start_seat(s, i).0.outcome == Some(
            Err::<(u64, Seq<char>, Seq<Seq<char>>), _>(refusal_view(SaveRefusal::BadWeight)),
        ),
{
}

/// Each key is written in turn: a kept key as it is, a created key with the
/// first prepared key of the same id (refused when there is none), and after
/// the last key of a seat comes the next seat.
pub proof fn lemma_keys_in_turn(s: RunState, i: int, k: int)
    requires
        0 <= i < s.draft.seats@.len(),
        0 <= k,
    ensures
        k >= s.draft.seats@[i].keys@.len() ==> start_key(s, i, k) == start_seat(s, i + 1),
        k < s.draft.seats@[i].keys@.len() && !s.draft.seats@[i].keys@[k].create ==> start_key(
            s,
            i,
            k,
        ).1 == SaveAction::WriteKey && start_key(s, i, k).0.seat == i && start_key(s, i, k).0.key
            == k,
        k < s.draft.seats@[i].keys@.len() && s.draft.seats@[i].keys@[k].create && (exists|j: int|
            0 <= j < s.new_key_ids.len() && #[trigger] s.new_key_ids[j] == s.draft.seats@[i].keys@[k].id@)
            ==> {
            let t = start_key(s, i, k).0;
            &&& start_key(s, i, k).1 == SaveAction::WriteKey
            &&& t.seat == i && t.key == k
            &&& 0 <= t.prepared < s.new_key_ids.len()
            &&& s.new_key_ids[t.prepared] == s.draft.seats@[i].keys@[k].id@
            &&& forall|q: int| 0 <= q < t.prepared ==> s.new_key_ids[q] != s.draft.seats@[i].keys@[k].id@
        },
        k < s.draft.seats@[i].keys@.len() && s.draft.seats@[i].keys@[k].create && (forall|j: int|
            0 <= j < s.new_key_ids.len() ==> #[trigger] s.new_key_ids[j] != s.draft.seats@[i].keys@[k].id@)
            ==> start_key(s, i, k).0.outcome == Some(
            Err::<(u64, Seq<char>, Seq<Seq<char>>), _>(refusal_view(SaveRefusal::MissingCredential)),
        ),
{
    if k < s.draft.seats@[i].keys@.len() && s.draft.seats@[i].keys@[k].create {
        let ids = s.new_key_ids;
        let x = s.draft.seats@[i].keys@[k].id@;
        if exists|j: int| 0 <= j < ids.len() && #[trigger] ids[j] == x {
            lemma_first_position_found(ids, x);
        } else {
            if exists|j: int| found_at(ids, x, j) {
                let j = choose|j: int| found_at(ids, x, j);
                assert(ids[j] == x);
            }
        }
    }
}

proof fn lemma_first_position_found(ids: Seq<Seq<char>>, x: Seq<char>)
    requires
        exists|j: int| 0 <= j < ids.len() && #[trigger] ids[j] == x,
    ensures
        found_at(ids, x, first_position(ids, x)),
    decreases ids.len(),
{
    let j = choose|j: int| 0 <= j < ids.len() && #[trigger] ids[j] == x;
    lemma_least_position(ids, x, j);
}

proof fn lemma_least_position(ids: Seq<Seq<char>>, x: Seq<char>, j: int)
    requires
        0 <= j < ids.len(),
        ids[j] == x,
    ensures
        exists|m: int| found_at(ids, x, m),
    decreases j,
{
    if exists|q: int| 0 <= q < j && ids[q] == x {
        let q = choose|q: int| 0 <= q < j && ids[q] == x;
        lemma_least_position(ids, x, q);
    } else {
        assert(found_at(ids, x, j));
    }
}

/// The other answers of the conversation: the revision is kept and the
/// receipt asked for; a new request made against the revision before the
/// save locks the group; the cycle must not have moved; the accounts must be
/// exactly the draft's account or be rebound on a car without seats.
pub proof fn lemma_conversation(s: RunState, revision: u64, updated_at: Option<Timestamp>, ids: Seq<Seq<char>>)
    ensures
        revision_step(s, revision).0.revision == revision,
        revision_step(s, revision).1 == SaveAction::FindReceipt,
        previous_revision(s.revision) == s.draft.expected_revision ==> receipt_step(s, None).1
            == SaveAction::LockGroup,
        updated_at == s.draft.quota_updated_at ==> cycle_step(s, updated_at).1
            == SaveAction::ListSeats,
        updated_at != s.draft.quota_updated_at ==> cycle_step(s, updated_at).0.outcome == Some(
            Err::<(u64, Seq<char>, Seq<Seq<char>>), _>(refusal_view(SaveRefusal::QuotaChanged)),
        ),
        s.phase == SavePhase::Accounts && ids == seq![s.draft.account_id@] ==> ids_step(s, ids).1
            == SaveAction::UpdateGroup,
        s.phase == SavePhase::Accounts && ids != seq![s.draft.account_id@] && s.old_seats_empty
            ==> ids_step(s, ids).1 == SaveAction::RebindAccount,
        s.phase == SavePhase::OldSeats && (forall|j: int|
            0 <= j < ids.len() ==> draft_has_seat(s.draft, #[trigger] ids[j])) ==> ids_step(
            s,
            ids,
        ).1 == SaveAction::ListRetainedKeys && ids_step(s, ids).0.old_seats_empty == (ids.len()
            == 0),
        s.phase == SavePhase::Allocated ==> (allocation_step(s, false).1 == SaveAction::Finalize
            && allocation_step(s, false).0.result == Some(
            (s.revision, s.draft.group_id@, s.new_key_ids),
        )),
        s.phase == SavePhase::Locks ==> done_step(s).0.color == uppercase(s.draft.color@) && (
        s.draft.create ==> done_step(s).1 == SaveAction::InsertGroup) && (!s.draft.create
            ==> done_step(s).1 == SaveAction::ListAccounts),
{
}

} // verus!
