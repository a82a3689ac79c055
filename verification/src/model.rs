//! The values that a car configuration draft, its preparation and its save
//! are made of.

use vstd::prelude::*;

verus! {

// ---------------------------------------------------------------------------
// Errors
// ---------------------------------------------------------------------------

/// The kinds of error that the administration layer reports.
#[derive(Clone, Copy, Debug, PartialEq, Eq, Structural)]
pub enum AdminErrorKind {
    Invalid,
    NotFound,
    Conflict,
    Unavailable,
    Internal,
}

/// An error of the administration layer: its kind and a message for the user.
#[derive(Debug)]
pub struct AdminError {
    pub kind: AdminErrorKind,
    pub message: String,
}

impl View for AdminError {
    type V = (AdminErrorKind, Seq<char>);

    open spec fn view(&self) -> (AdminErrorKind, Seq<char>) {
        (self.kind, self.message@)
    }
}

/// The kinds of error that the configuration store reports.
#[derive(Clone, Copy, Debug, PartialEq, Eq, Structural)]
pub enum AdminStoreErrorKind {
    Invalid,
    NotFound,
    Conflict,
    Database,
    Internal,
}

/// An error of the configuration store: its kind, the area it concerns and a
/// message for the user.
#[derive(Debug)]
pub struct AdminStoreError {
    pub kind: AdminStoreErrorKind,
    pub scope: String,
    pub message: String,
}

impl View for AdminStoreError {
    type V = (AdminStoreErrorKind, Seq<char>, Seq<char>);

    open spec fn view(&self) -> (AdminStoreErrorKind, Seq<char>, Seq<char>) {
        (self.kind, self.scope@, self.message@)
    }
}

// ---------------------------------------------------------------------------
// The draft
// ---------------------------------------------------------------------------

/// A point in time, as whole seconds since the Unix epoch and the nanoseconds
/// within that second.
#[derive(Clone, Copy, Debug, PartialEq, Eq, Structural)]
pub struct Timestamp {
    pub seconds: i64,
    pub nanos: u32,
}

/// One member key of a seat in a draft: either an existing key to keep or a
/// new key to create.
#[derive(Debug)]
pub struct CarKeyDraft {
    pub id: String,
    pub create: bool,
    pub name: String,
    pub label: Option<String>,
    pub enabled: bool,
    pub revoke: bool,
    pub openai_client_profile_override: Option<String>,
    pub xai_client_profile_override: Option<String>,
}

/// One seat of a car in a draft.
#[derive(Debug)]
pub struct CarSeatDraft {
    pub id: String,
    pub name: String,
    pub enabled: bool,
    pub max_concurrency: u64,
    pub requests_per_minute: u64,
    pub weight: String,
    pub daily_limit_usd: String,
    pub weekly_limit_usd: String,
    pub keys: Vec<CarKeyDraft>,
}

/// A complete car configuration as edited by an administrator.
#[derive(Debug)]
pub struct CarManagementDraft {
    pub request_id: String,
    pub expected_revision: u64,
    pub quota_updated_at: Option<Timestamp>,
    pub group_id: String,
    pub create: bool,
    pub name: String,
    pub description: Option<String>,
    pub color: String,
    pub enabled: bool,
    pub disable_fast: bool,
    pub account_id: String,
    pub quota_policy: String,
    pub allocation: String,
    pub total_weight: String,
    pub initial_capacity_usd: Option<String>,
    pub seats: Vec<CarSeatDraft>,
}

/// A member key that will be created, with its freshly generated secret.
#[derive(Debug)]
pub struct NewClientKey {
    pub id: String,
    pub seat_id: Option<String>,
    pub name: String,
    pub label: Option<String>,
    pub group_ids: Vec<String>,
    pub plaintext: String,
    pub openai_client_profile_override: Option<String>,
    pub xai_client_profile_override: Option<String>,
}

/// A draft that passed every input rule, its fingerprint, and the keys that
/// its save will create.
#[derive(Debug)]
pub struct PreparedCarManagement {
    pub draft: CarManagementDraft,
    pub fingerprint: String,
    pub new_keys: Vec<NewClientKey>,
}

// ---------------------------------------------------------------------------
// What the domain core reports about a draft
// ---------------------------------------------------------------------------

/// A decimal amount as read by the domain core: its canonical text and
/// whether it is zero.
#[derive(Debug)]
pub struct AmountReading {
    pub canonical: String,
    pub is_zero: bool,
}

/// What the domain core and the provider registry report about one member key
/// of a draft: whether its id is well formed, and the verdict on each
/// provider profile override that the key carries (`Ok` where it has none).
#[derive(Debug)]
pub struct KeyChecks {
    pub id_valid: bool,
    pub openai_profile: Result<(), AdminError>,
    pub xai_profile: Result<(), AdminError>,
}

/// What the domain core reports about one seat of a draft: whether its id is
/// well formed and how its three amounts read (`None` where one does not
/// parse as a decimal).
#[derive(Debug)]
pub struct SeatChecks {
    pub id_valid: bool,
    pub weight: Option<AmountReading>,
    pub daily_limit: Option<AmountReading>,
    pub weekly_limit: Option<AmountReading>,
    pub keys: Vec<KeyChecks>,
}

/// What the domain core reports about a whole draft, seat by seat and key by
/// key in the draft's own order.
#[derive(Debug)]
pub struct DraftChecks {
    pub group_id_valid: bool,
    pub account_id_valid: bool,
    pub color_valid: bool,
    pub total_weight: Option<AmountReading>,
    pub initial_capacity: Option<AmountReading>,
    pub seats: Vec<SeatChecks>,
}

impl DraftChecks {
    /// The checks have one entry per seat and per key of `draft`.
    pub open spec fn fits(&self, draft: &CarManagementDraft) -> bool {
        &&& self.seats@.len() == draft.seats@.len()
        &&& forall|i: int|
            0 <= i < draft.seats@.len() ==> #[trigger] self.seats@[i].keys@.len()
                == draft.seats@[i].keys@.len()
    }
}

// ---------------------------------------------------------------------------
// The outcome of a save
// ---------------------------------------------------------------------------

/// What a successful save answers, and what a retry of the same request is
/// answered again.
#[derive(Debug)]
pub struct CarManagementResult {
    pub config_revision: u64,
    pub group_id: String,
    pub created_key_ids: Vec<String>,
}

impl View for CarManagementResult {
    type V = (u64, Seq<char>, Seq<Seq<char>>);

    open spec fn view(&self) -> (u64, Seq<char>, Seq<Seq<char>>) {
        (self.config_revision, self.group_id@, self.created_key_ids.deep_view())
    }
}

/// The receipt of an earlier save of the same request: the fingerprint of the
/// draft it saved and its stored answer, `None` where that answer no longer
/// decodes.
#[derive(Debug)]
pub struct StoredReceipt {
    pub fingerprint: String,
    pub result: Option<CarManagementResult>,
}

} // verus!
