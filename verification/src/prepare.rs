//! The input rules of a complete car draft, and its preparation: the
//! fingerprint that identifies it and the credentials of the keys it creates.

use vstd::prelude::*;
use vstd::string::StringSliceAdditionalSpecFns;
use vstd::utf8::encode_utf8;

use crate::model::{
    AdminError, AdminErrorKind, AmountReading, CarKeyDraft, CarManagementDraft, CarSeatDraft,
    DraftChecks, KeyChecks, NewClientKey, PreparedCarManagement,
};
use crate::outside::{
    base64_url, encode_base64_url, lowercase, os_random_32, parses_as_uuid, sha256, sha256_digest,
    to_lowercase, uuid_text,
};
use crate::text::{
    char_count_at_most, contains_text, copy_optional_text, same_text, spec_valid_name, valid_name,
};

verus! {

// ---------------------------------------------------------------------------
// Errors
// ---------------------------------------------------------------------------

/// The one answer to a draft that breaks an input rule.
pub open spec fn invalid_view() -> (AdminErrorKind, Seq<char>) {
    (AdminErrorKind::Invalid, "拼车配置无效，请检查名称、份额、额度及共享限制"@)
}

/// The answer to a draft whose initial total capacity reads as zero.
pub open spec fn zero_capacity_view() -> (AdminErrorKind, Seq<char>) {
    (AdminErrorKind::Invalid, "初始总额度必须大于零"@)
}

/// The answer when the system's random source fails while keys are created.
pub open spec fn no_randomness_view() -> (AdminErrorKind, Seq<char>) {
    (AdminErrorKind::Unavailable, "系统随机源不可用，请稍后重试"@)
}

/// The error for a draft that breaks an input rule.
pub fn invalid() -> (e: AdminError)
    ensures
        e@ == invalid_view(),
{
    AdminError {
        kind: AdminErrorKind::Invalid,
        message: "拼车配置无效，请检查名称、份额、额度及共享限制".to_owned(),
    }
}

fn zero_capacity() -> (e: AdminError)
    ensures
        e@ == zero_capacity_view(),
{
    AdminError { kind: AdminErrorKind::Invalid, message: "初始总额度必须大于零".to_owned() }
}

fn no_randomness() -> (e: AdminError)
    ensures
        e@ == no_randomness_view(),
{
    AdminError { kind: AdminErrorKind::Unavailable, message: "系统随机源不可用，请稍后重试".to_owned() }
}

fn copy_error(e: &AdminError) -> (r: AdminError)
    ensures
        r@ == e@,
{
    AdminError { kind: e.kind, message: e.message.clone() }
}

// ---------------------------------------------------------------------------
// Amounts
// ---------------------------------------------------------------------------

/// The text (as UTF-8 bytes) has a `.` and more than one byte follows the
/// first one.
pub open spec fn has_long_fraction(b: Seq<u8>) -> bool {
    exists|j: int|
        0 <= j < b.len() && #[trigger] b[j] == 0x2Eu8 && (forall|k: int| 0 <= k < j ==> b[k] != 0x2Eu8)
            && b.len() - j - 1 > 1
}

/// An amount is accepted when it parses and its canonical text does not start
/// with `-`; a weight must moreover be non-zero and have at most one decimal
/// place.
pub open spec fn amount_accepted(r: Option<AmountReading>, weight: bool) -> bool {
    match r {
        None => false,
        Some(a) => {
            let b = encode_utf8(a.canonical@);
            &&& !(b.len() > 0 && b[0] == 0x2Du8)
            &&& weight ==> !a.is_zero && !has_long_fraction(b)
        },
    }
}

/// Checks an amount as read by the domain core (`None` where the text did not
/// parse) and, when it is accepted, answers whether it is zero.
pub fn amount(reading: &Option<AmountReading>, weight: bool) -> (r: Result<bool, AdminError>)
    ensures
        r is Ok <==> amount_accepted(*reading, weight),
        r matches Ok(zero) ==> reading matches Some(a) && zero == a.is_zero,
        r matches Err(e) ==> e@ == invalid_view(),
{
    match reading {
        None => Err(invalid()),
        Some(a) => {
            let b = a.canonical.as_str().as_bytes();
            proof {
                assert(b@ == encode_utf8(a.canonical@));
            }
            if b.len() > 0 && b[0] == 0x2Du8 {
                return Err(invalid());
            }
            if weight {
                if a.is_zero {
                    return Err(invalid());
                }
                let mut j: usize = 0;
                while j < b.len()
                    invariant
                        j <= b@.len(),
                        forall|k: int| 0 <= k < j ==> b@[k] != 0x2Eu8,
                    ensures
                        j <= b@.len(),
                        forall|k: int| 0 <= k < j ==> b@[k] != 0x2Eu8,
                        j < b@.len() ==> b@[j as int] == 0x2Eu8,
                    decreases b@.len() - j,
                {
                    if b[j] == 0x2Eu8 {
                        break;
                    }
                    j = j + 1;
                }
                if j < b.len() && b.len() - j - 1 > 1 {
                    assert(b@[j as int] == 0x2Eu8);
                    assert(has_long_fraction(b@));
                    return Err(invalid());
                }
                proof {
                    if has_long_fraction(b@) {
                        let w = choose|w: int|
                            0 <= w < b@.len() && #[trigger] b@[w] == 0x2Eu8 && (forall|k: int|
                                0 <= k < w ==> b@[k] != 0x2Eu8) && b@.len() - w - 1 > 1;
                        if w < j {
                        } else if w > j {
                            assert(b@[j as int] == 0x2Eu8);
                        }
                    }
                }
            }
            Ok(a.is_zero)
        },
    }
}


// ---------------------------------------------------------------------------
// The rules of a draft
// ---------------------------------------------------------------------------

/// The number of member keys over all seats.
pub open spec fn key_total(seats: Seq<CarSeatDraft>) -> int
    decreases seats.len(),
{
    if seats.len() == 0 {
        0
    } else {
        key_total(seats.drop_last()) + seats.last().keys@.len()
    }
}

/// The ids of a list of member keys.
pub open spec fn key_ids(keys: Seq<CarKeyDraft>) -> Seq<Seq<char>> {
    keys.map_values(|k: CarKeyDraft| k.id@)
}

/// The ids that the draft lists before seat `i`: each earlier seat's id
/// followed by the ids of its keys.
pub open spec fn ids_before_seat(seats: Seq<CarSeatDraft>, i: int) -> Seq<Seq<char>>
    decreases i,
{
    if i <= 0 || i > seats.len() {
        seq![]
    } else {
        ids_before_seat(seats, i - 1).push(seats[i - 1].id@) + key_ids(seats[i - 1].keys@)
    }
}

/// The ids that the draft lists before key `k` of seat `i`.
pub open spec fn ids_before_key(seats: Seq<CarSeatDraft>, i: int, k: int) -> Seq<Seq<char>> {
    ids_before_seat(seats, i).push(seats[i].id@) + key_ids(seats[i].keys@.take(k))
}

/// The lower-cased names of the seats before seat `i`.
pub open spec fn names_before_seat(seats: Seq<CarSeatDraft>, i: int) -> Seq<Seq<char>> {
    seats.take(i).map_values(|s: CarSeatDraft| lowercase(s.name@))
}

/// The rules of the draft as a whole.
pub open spec fn header_valid(d: CarManagementDraft, c: DraftChecks) -> bool {
    &&& uuid_text(encode_utf8(d.request_id@))
    &&& c.group_id_valid
    &&& c.account_id_valid
    &&& spec_valid_name(d.name@)
    &&& c.color_valid
    &&& (d.description matches Some(t) ==> t@.len() <= 500)
    &&& (d.quota_policy@ == "manual"@ || d.quota_policy@ == "cycle"@ || d.quota_policy@
        == "automatic"@)
    &&& (d.allocation@ == "custom"@ || d.allocation@ == "equal"@)
    &&& 0 < d.seats@.len() <= 100
    &&& key_total(d.seats@) <= 500
}

/// The rules of seat `i`: a well-formed id not used before in the draft, a
/// name that no earlier seat has (ignoring case), a valid name, a concurrency
/// in `1..=u32::MAX`, a rate that fits in `u32`, and acceptable amounts.
pub open spec fn seat_passes(d: CarManagementDraft, c: DraftChecks, i: int) -> bool {
    let s = d.seats@[i];
    let sc = c.seats@[i];
    &&& sc.id_valid
    &&& !ids_before_seat(d.seats@, i).contains(s.id@)
    &&& !names_before_seat(d.seats@, i).contains(lowercase(s.name@))
    &&& spec_valid_name(s.name@)
    &&& 0 < s.max_concurrency <= u32::MAX
    &&& s.requests_per_minute <= u32::MAX
    &&& amount_accepted(sc.weight, true)
    &&& amount_accepted(sc.daily_limit, false)
    &&& amount_accepted(sc.weekly_limit, false)
}

/// The rules of key `k` of seat `i`: a well-formed id not used before in the
/// draft, a valid name, and not both created and revoked.
pub open spec fn key_passes(d: CarManagementDraft, c: DraftChecks, i: int, k: int) -> bool {
    let key = d.seats@[i].keys@[k];
    let kc = c.seats@[i].keys@[k];
    &&& kc.id_valid
    &&& !ids_before_key(d.seats@, i, k).contains(key.id@)
    &&& spec_valid_name(key.name@)
    &&& !(key.create && key.revoke)
}

/// The verdict of the provider registry on the profile overrides of a key:
/// the first refusal, the OpenAI profile before the xAI one.
pub open spec fn profile_refusal(key: CarKeyDraft, kc: KeyChecks) -> Option<
    (AdminErrorKind, Seq<char>),
> {
    match (key.openai_client_profile_override, kc.openai_profile) {
        (Some(_), Err(e)) => Some(e@),
        _ => match (key.xai_client_profile_override, kc.xai_profile) {
            (Some(_), Err(e)) => Some(e@),
            _ => None,
        },
    }
}

/// The outcome of the seats and keys from seat `i` on, key `k` (`k < 0`: the
/// seat itself): the first rule broken, in the draft's order.
pub open spec fn walk(d: CarManagementDraft, c: DraftChecks, i: int, k: int) -> Result<
    (),
    (AdminErrorKind, Seq<char>),
>
    decreases d.seats@.len() - i, d.seats@[i].keys@.len() - k,
{
    if i < 0 || i >= d.seats@.len() {
        Ok(())
    } else if k < 0 {
        if !seat_passes(d, c, i) {
            Err(invalid_view())
        } else {
            walk(d, c, i, 0)
        }
    } else if k >= d.seats@[i].keys@.len() {
        walk(d, c, i + 1, -1)
    } else if !key_passes(d, c, i, k) {
        Err(invalid_view())
    } else {
        match profile_refusal(d.seats@[i].keys@[k], c.seats@[i].keys@[k]) {
            Some(e) => Err(e),
            None => walk(d, c, i, k + 1),
        }
    }
}

/// The outcome of checking a draft: the first rule it breaks, or `Ok`.
/// `serialized` says whether the draft could be serialized for its
/// fingerprint.
pub open spec fn draft_outcome(d: CarManagementDraft, c: DraftChecks, serialized: bool) -> Result<
    (),
    (AdminErrorKind, Seq<char>),
> {
    if !header_valid(d, c) || !amount_accepted(c.total_weight, true) {
        Err(invalid_view())
    } else if d.initial_capacity_usd is Some && !amount_accepted(c.initial_capacity, false) {
        Err(invalid_view())
    } else if d.initial_capacity_usd is Some && c.initial_capacity.unwrap().is_zero {
        Err(zero_capacity_view())
    } else if !serialized {
        Err(invalid_view())
    } else {
        walk(d, c, 0, -1)
    }
}


// ---------------------------------------------------------------------------
// Checking a draft
// ---------------------------------------------------------------------------

proof fn lemma_key_total_prefix(seats: Seq<CarSeatDraft>, i: int)
    requires
        0 <= i <= seats.len(),
    ensures
        key_total(seats.take(i)) <= key_total(seats),
    decreases seats.len(),
{
    if i < seats.len() {
        lemma_key_total_prefix(seats.drop_last(), i);
        assert(seats.drop_last().take(i) =~= seats.take(i));
    } else {
        assert(seats.take(i) =~= seats);
    }
}

/// Whether the draft lists at most `limit` member keys over all its seats.
fn key_total_at_most(seats: &Vec<CarSeatDraft>, limit: usize) -> (r: bool)
    ensures
        r == (key_total(seats@) <= limit),
{
    let mut sum: usize = 0;
    let mut i: usize = 0;
    while i < seats.len()
        invariant
            i <= seats@.len(),
            sum == key_total(seats@.take(i as int)),
            sum <= limit,
        decreases seats@.len() - i,
    {
        assert(seats@.take(i + 1).drop_last() =~= seats@.take(i as int));
        let n = seats[i].keys.len();
        if n > limit - sum {
            proof {
                lemma_key_total_prefix(seats@, i + 1);
            }
            return false;
        }
        sum = sum + n;
        i = i + 1;
    }
    assert(seats@.take(i as int) =~= seats@);
    true
}

/// Whether the draft as a whole meets its rules (before its seats).
fn header_check(d: &CarManagementDraft, c: &DraftChecks) -> (r: bool)
    ensures
        r == header_valid(*d, *c),
{
    let description_ok = match &d.description {
        Some(t) => char_count_at_most(t.as_str(), 500),
        None => true,
    };
    let policy = d.quota_policy.as_str();
    let allocation = d.allocation.as_str();
    parses_as_uuid(d.request_id.as_str()) && c.group_id_valid && c.account_id_valid && valid_name(
        d.name.as_str(),
    ) && c.color_valid && description_ok && (same_text(policy, "manual") || same_text(
        policy,
        "cycle",
    ) || same_text(policy, "automatic")) && (same_text(allocation, "custom") || same_text(
        allocation,
        "equal",
    )) && d.seats.len() > 0 && d.seats.len() <= 100 && key_total_at_most(&d.seats, 500)
}

/// The verdict on the profile overrides of one key.
fn profile_check(key: &CarKeyDraft, kc: &KeyChecks) -> (r: Option<AdminError>)
    ensures
        r matches Some(e) ==> profile_refusal(*key, *kc) == Some(e@),
        r is None ==> profile_refusal(*key, *kc) is None,
{
    if key.openai_client_profile_override.is_some() {
        if let Err(e) = &kc.openai_profile {
            return Some(copy_error(e));
        }
    }
    if key.xai_client_profile_override.is_some() {
        if let Err(e) = &kc.xai_profile {
            return Some(copy_error(e));
        }
    }
    None
}

/// Checks a draft against every input rule and answers the first rule it
/// breaks, in the order of the draft. `serialized` says whether the draft
/// could be serialized for its fingerprint.
pub fn check_draft(draft: &CarManagementDraft, checks: &DraftChecks, serialized: bool) -> (r:
    Result<(), AdminError>)
    requires
        checks.fits(draft),
    ensures
        r is Ok <==> draft_outcome(*draft, *checks, serialized) is Ok,
        r matches Err(e) ==> draft_outcome(*draft, *checks, serialized) == Err::<(), _>(e@),
{
    if !header_check(draft, checks) {
        return Err(invalid());
    }
    if amount(&checks.total_weight, true).is_err() {
        return Err(invalid());
    }
    if draft.initial_capacity_usd.is_some() {
        match amount(&checks.initial_capacity, false) {
            Err(e) => return Err(e),
            Ok(zero) => {
                if zero {
                    return Err(zero_capacity());
                }
            },
        }
    }
    if !serialized {
        return Err(invalid());
    }
    let ghost d = *draft;
    let ghost c = *checks;
    let mut ids: Vec<String> = Vec::new();
    let mut names: Vec<String> = Vec::new();
    let n = draft.seats.len();
    let mut i: usize = 0;
    assert(ids.deep_view() =~= ids_before_seat(d.seats@, 0));
    assert(names.deep_view() =~= names_before_seat(d.seats@, 0));
    while i < n
        invariant
            d == *draft,
            c == *checks,
            checks.fits(draft),
            n == draft.seats@.len(),
            i <= n,
            ids.deep_view() == ids_before_seat(d.seats@, i as int),
            names.deep_view() == names_before_seat(d.seats@, i as int),
            draft_outcome(d, c, serialized) == walk(d, c, i as int, -1),
        decreases n - i,
    {
        let seat = &draft.seats[i];
        let sc = &checks.seats[i];
        let lower = to_lowercase(seat.name.as_str());
        let seat_ok = sc.id_valid && !contains_text(&ids, &seat.id) && !contains_text(
            &names,
            &lower,
        ) && valid_name(seat.name.as_str()) && seat.max_concurrency > 0 && seat.max_concurrency
            <= 0xFFFF_FFFFu64 && seat.requests_per_minute <= 0xFFFF_FFFFu64 && amount(
            &sc.weight,
            true,
        ).is_ok() && amount(&sc.daily_limit, false).is_ok() && amount(
            &sc.weekly_limit,
            false,
        ).is_ok();
        if !seat_ok {
            return Err(invalid());
        }
        assert(seat_passes(d, c, i as int));
        assert(names_before_seat(d.seats@, i + 1) =~= names_before_seat(d.seats@, i as int).push(
            lowercase(seat.name@),
        ));
        ids.push(seat.id.clone());
        names.push(lower);
        assert(ids.deep_view() =~= ids_before_key(d.seats@, i as int, 0));
        let m = seat.keys.len();
        let mut k: usize = 0;
        while k < m
            invariant
                d == *draft,
                c == *checks,
                checks.fits(draft),
                n == draft.seats@.len(),
                i < n,
                seat == draft.seats@[i as int],
                sc == checks.seats@[i as int],
                m == seat.keys@.len(),
                k <= m,
                ids.deep_view() == ids_before_key(d.seats@, i as int, k as int),
                names.deep_view() == names_before_seat(d.seats@, i + 1),
                draft_outcome(d, c, serialized) == walk(d, c, i as int, k as int),
            decreases m - k,
        {
            let key = &seat.keys[k];
            let kc = &sc.keys[k];
            if !kc.id_valid || contains_text(&ids, &key.id) || !valid_name(key.name.as_str()) || (
            key.create && key.revoke) {
                return Err(invalid());
            }
            assert(key_passes(d, c, i as int, k as int));
            if let Some(e) = profile_check(key, kc) {
                return Err(e);
            }
            assert(key_ids(seat.keys@.take(k + 1)) =~= key_ids(seat.keys@.take(k as int)).push(
                key.id@,
            ));
            let ghost prev = ids.deep_view();
            assert(prev.push(key.id@) =~= ids_before_key(d.seats@, i as int, k + 1));
            ids.push(key.id.clone());
            assert(ids.deep_view() =~= prev.push(key.id@));
            k = k + 1;
        }
        assert(seat.keys@.take(m as int) =~= seat.keys@);
        assert(ids.deep_view() =~= ids_before_seat(d.seats@, i + 1));
        i = i + 1;
    }
    Ok(())
}


// ---------------------------------------------------------------------------
// Preparing a draft
// ---------------------------------------------------------------------------

/// The plaintext credential made from a secret: `sk_` and the secret in
/// URL-safe base64 without padding.
pub open spec fn credential_for(secret: Seq<u8>) -> Seq<char> {
    "sk_"@ + base64_url(secret)
}

/// The fingerprint of a serialized draft: its SHA-256 digest in URL-safe
/// base64 without padding.
pub open spec fn fingerprint_of(serialized: Seq<u8>) -> Seq<char> {
    base64_url(sha256_digest(serialized))
}

/// The keys that a list of seat keys creates, each with the id of its seat.
pub open spec fn key_creations(seat_id: Seq<char>, keys: Seq<CarKeyDraft>) -> Seq<
    (Seq<char>, CarKeyDraft),
>
    decreases keys.len(),
{
    if keys.len() == 0 {
        seq![]
    } else {
        key_creations(seat_id, keys.drop_last()) + if keys.last().create {
            seq![(seat_id, keys.last())]
        } else {
            seq![]
        }
    }
}

/// The keys that a draft creates, seat by seat and key by key in its order.
pub open spec fn creations(seats: Seq<CarSeatDraft>) -> Seq<(Seq<char>, CarKeyDraft)>
    decreases seats.len(),
{
    if seats.len() == 0 {
        seq![]
    } else {
        creations(seats.drop_last()) + key_creations(seats.last().id@, seats.last().keys@)
    }
}

/// A new key made for `key` of the seat `seat_id`: the key's id, name, label
/// and profile overrides, its seat, and no group.
pub open spec fn new_key_matches(nk: NewClientKey, seat_id: Seq<char>, key: CarKeyDraft) -> bool {
    &&& nk.id@ == key.id@
    &&& nk.seat_id.deep_view() == Some(seat_id)
    &&& nk.name@ == key.name@
    &&& nk.label.deep_view() == key.label.deep_view()
    &&& nk.group_ids@.len() == 0
    &&& nk.openai_client_profile_override.deep_view()
        == key.openai_client_profile_override.deep_view()
    &&& nk.xai_client_profile_override.deep_view() == key.xai_client_profile_override.deep_view()
}

proof fn lemma_key_creation_counted(seat_id: Seq<char>, keys: Seq<CarKeyDraft>, k: int)
    requires
        0 <= k < keys.len(),
        keys[k].create,
    ensures
        key_creations(seat_id, keys).len() > 0,
    decreases keys.len(),
{
    if k < keys.len() - 1 {
        lemma_key_creation_counted(seat_id, keys.drop_last(), k);
    }
}

/// A draft with a key to create creates at least one key.
proof fn lemma_creation_counted(seats: Seq<CarSeatDraft>, i: int, k: int)
    requires
        0 <= i < seats.len(),
        0 <= k < seats[i].keys@.len(),
        seats[i].keys@[k].create,
    ensures
        creations(seats).len() > 0,
    decreases seats.len(),
{
    if i < seats.len() - 1 {
        lemma_creation_counted(seats.drop_last(), i, k);
    } else {
        lemma_key_creation_counted(seats.last().id@, seats.last().keys@, k);
    }
}

/// The key that a seat's draft key creates, with the given secret.
pub fn new_client_key(seat_id: &String, key: &CarKeyDraft, secret: &[u8; 32]) -> (nk: NewClientKey)
    ensures
        new_key_matches(nk, seat_id@, *key),
        nk.plaintext@ == credential_for(secret@),
{
    let mut plaintext = "sk_".to_owned();
    let encoded = encode_base64_url(secret.as_slice());
    plaintext.append(encoded.as_str());
    NewClientKey {
        id: key.id.clone(),
        seat_id: Some(seat_id.clone()),
        name: key.name.clone(),
        label: copy_optional_text(&key.label),
        group_ids: Vec::new(),
        plaintext,
        openai_client_profile_override: copy_optional_text(&key.openai_client_profile_override),
        xai_client_profile_override: copy_optional_text(&key.xai_client_profile_override),
    }
}

/// Checks a complete draft and prepares its save: the fingerprint of its
/// serialized form (`None` where it could not be serialized) and a fresh
/// credential for each key that it creates.
pub fn prepare(draft: CarManagementDraft, checks: &DraftChecks, serialized: Option<Vec<u8>>) -> (r:
    Result<PreparedCarManagement, AdminError>)
    requires
        checks.fits(&draft),
    ensures
        draft_outcome(draft, *checks, serialized is Some) matches Err(e) ==> r matches Err(f) && f@
            == e,
        draft_outcome(draft, *checks, serialized is Some) is Ok ==> match r {
            Ok(p) => {
                &&& p.draft == draft
                &&& p.fingerprint@ == fingerprint_of(serialized.unwrap()@)
                &&& p.fingerprint@.len() == 43
                &&& p.new_keys@.len() == creations(draft.seats@).len()
                &&& forall|j: int|
                    0 <= j < p.new_keys@.len() ==> {
                        &&& new_key_matches(
                            #[trigger] p.new_keys@[j],
                            creations(draft.seats@)[j].0,
                            creations(draft.seats@)[j].1,
                        )
                        &&& exists|secret: Seq<u8>|
                            secret.len() == 32 && p.new_keys@[j].plaintext@ == credential_for(
                                secret,
                            )
                    }
            },
            Err(e) => e@ == no_randomness_view() && creations(draft.seats@).len() > 0,
        },
        draft_outcome(draft, *checks, serialized is Some) is Ok && creations(draft.seats@).len()
            == 0 ==> r is Ok,
{
    check_draft(&draft, checks, serialized.is_some())?;
    let bytes = match serialized {
        Some(b) => b,
        None => return Err(invalid()),
    };
    let digest = sha256(bytes.as_slice());
    let fingerprint = encode_base64_url(digest.as_slice());
    proof {
        lemma_base64_url_length(digest@);
    }
    let ghost plan = creations(draft.seats@);
    let mut new_keys: Vec<NewClientKey> = Vec::new();
    let n = draft.seats.len();
    let mut i: usize = 0;
    while i < n
        invariant
            draft_outcome(draft, *checks, true) is Ok,
                serialized is Some,
            n == draft.seats@.len(),
            i <= n,
            plan == creations(draft.seats@),
            new_keys@.len() == creations(draft.seats@.take(i as int)).len(),
            forall|j: int|
                0 <= j < new_keys@.len() ==> {
                    &&& new_key_matches(
                        #[trigger] new_keys@[j],
                        creations(draft.seats@.take(i as int))[j].0,
                        creations(draft.seats@.take(i as int))[j].1,
                    )
                    &&& exists|secret: Seq<u8>|
                        secret.len() == 32 && new_keys@[j].plaintext@ == credential_for(secret)
                },
        decreases n - i,
    {
        let seat = &draft.seats[i];
        let ghost before = creations(draft.seats@.take(i as int));
        assert(draft.seats@.take(i + 1).drop_last() =~= draft.seats@.take(i as int));
        let m = seat.keys.len();
        let mut k: usize = 0;
        assert(seat.keys@.take(0) =~= Seq::<CarKeyDraft>::empty());
        assert(before + key_creations(seat.id@, seat.keys@.take(0)) =~= before);
        while k < m
            invariant
                draft_outcome(draft, *checks, true) is Ok,
                serialized is Some,
                n == draft.seats@.len(),
                i < n,
                seat == draft.seats@[i as int],
                m == seat.keys@.len(),
                k <= m,
                before == creations(draft.seats@.take(i as int)),
                new_keys@.len() == before.len() + key_creations(seat.id@, seat.keys@.take(k as int)).len(),
                forall|j: int|
                    0 <= j < new_keys@.len() ==> {
                        &&& new_key_matches(
                            #[trigger] new_keys@[j],
                            (before + key_creations(seat.id@, seat.keys@.take(k as int)))[j].0,
                            (before + key_creations(seat.id@, seat.keys@.take(k as int)))[j].1,
                        )
                        &&& exists|secret: Seq<u8>|
                            secret.len() == 32 && new_keys@[j].plaintext@ == credential_for(
                                secret,
                            )
                    },
            decreases m - k,
        {
            let key = &seat.keys[k];
            assert(seat.keys@.take(k + 1).drop_last() =~= seat.keys@.take(k as int));
            assert(seat.keys@.take(k + 1).last() == *key);
            if key.create {
                let secret = match os_random_32() {
                    Some(s) => s,
                    None => {
                        proof {
                            lemma_creation_counted(draft.seats@, i as int, k as int);
                        }
                        return Err(no_randomness());
                    },
                };
                let nk = new_client_key(&seat.id, key, &secret);
                let ghost prev = new_keys@;
                new_keys.push(nk);
                assert forall|j: int| 0 <= j < new_keys@.len() implies {
                    &&& new_key_matches(
                        #[trigger] new_keys@[j],
                        (before + key_creations(seat.id@, seat.keys@.take(k + 1)))[j].0,
                        (before + key_creations(seat.id@, seat.keys@.take(k + 1)))[j].1,
                    )
                    &&& exists|secret: Seq<u8>|
                        secret.len() == 32 && new_keys@[j].plaintext@ == credential_for(secret)
                } by {
                    if j < prev.len() {
                        assert(new_keys@[j] == prev[j]);
                    } else {
                        assert(new_keys@[j] == nk);
                        assert(secret@.len() == 32);
                    }
                }
            } else {
                assert(key_creations(seat.id@, seat.keys@.take(k + 1)) =~= key_creations(
                    seat.id@,
                    seat.keys@.take(k as int),
                ));
            }
            k = k + 1;
        }
        assert(seat.keys@.take(m as int) =~= seat.keys@);
        assert(draft.seats@.take(i + 1).last() == *seat);
        i = i + 1;
    }
    assert(draft.seats@.take(n as int) =~= draft.seats@);
    Ok(PreparedCarManagement { draft, fingerprint, new_keys })
}

} // verus!

verus! {

// ---------------------------------------------------------------------------
// Laws of a draft
// ---------------------------------------------------------------------------

/// Every seat from `i` on, and each of its keys, meets its rules.
pub open spec fn passes_from(d: CarManagementDraft, c: DraftChecks, i: int) -> bool {
    forall|i2: int|
        i <= i2 < d.seats@.len() ==> #[trigger] seat_passes(d, c, i2) && forall|k: int|
            0 <= k < d.seats@[i2].keys@.len() ==> #[trigger] key_passes(d, c, i2, k)
}

proof fn lemma_walk_ok(d: CarManagementDraft, c: DraftChecks, i: int, k: int)
    requires
        0 <= i < d.seats@.len(),
        -1 <= k <= d.seats@[i].keys@.len(),
        walk(d, c, i, k) is Ok,
    ensures
        k == -1 ==> seat_passes(d, c, i),
        forall|k2: int| k <= k2 < d.seats@[i].keys@.len() && 0 <= k2 ==> #[trigger] key_passes(d, c, i, k2),
        passes_from(d, c, i + 1),
    decreases d.seats@.len() - i, d.seats@[i].keys@.len() - k,
{
    if k < 0 {
        lemma_walk_ok(d, c, i, 0);
    } else if k >= d.seats@[i].keys@.len() {
        if i + 1 < d.seats@.len() {
            lemma_walk_ok(d, c, i + 1, -1);
        }
    } else {
        lemma_walk_ok(d, c, i, k + 1);
    }
}

proof fn lemma_push_distinct(s: Seq<Seq<char>>, x: Seq<char>)
    requires
        s.no_duplicates(),
        !s.contains(x),
    ensures
        s.push(x).no_duplicates(),
{
    assert forall|a: int, b: int| 0 <= a < s.len() + 1 && 0 <= b < s.len() + 1 && a != b implies s.push(
        x,
    )[a] != s.push(x)[b] by {
        if a == s.len() {
            assert(s.push(x)[b] == s[b]);
        } else if b == s.len() {
            assert(s.push(x)[a] == s[a]);
        }
    }
}

proof fn lemma_key_prefix_distinct(d: CarManagementDraft, c: DraftChecks, i: int, k: int)
    requires
        0 <= i < d.seats@.len(),
        0 <= k <= d.seats@[i].keys@.len(),
        passes_from(d, c, 0),
        ids_before_seat(d.seats@, i).no_duplicates(),
    ensures
        ids_before_key(d.seats@, i, k).no_duplicates(),
    decreases k,
{
    let seats = d.seats@;
    let keys = seats[i].keys@;
    if k == 0 {
        assert(seat_passes(d, c, i));
        lemma_push_distinct(ids_before_seat(seats, i), seats[i].id@);
        assert(ids_before_key(seats, i, 0) =~= ids_before_seat(seats, i).push(seats[i].id@));
    } else {
        lemma_key_prefix_distinct(d, c, i, k - 1);
        assert(seat_passes(d, c, i));
        assert(key_passes(d, c, i, k - 1));
        lemma_push_distinct(ids_before_key(seats, i, k - 1), keys[k - 1].id@);
        assert(key_ids(keys.take(k)) =~= key_ids(keys.take(k - 1)).push(keys[k - 1].id@));
        assert(ids_before_key(seats, i, k) =~= ids_before_key(seats, i, k - 1).push(
            keys[k - 1].id@,
        ));
    }
}

proof fn lemma_ids_distinct_up_to(d: CarManagementDraft, c: DraftChecks, i: int)
    requires
        0 <= i <= d.seats@.len(),
        passes_from(d, c, 0),
    ensures
        ids_before_seat(d.seats@, i).no_duplicates(),
        names_before_seat(d.seats@, i).no_duplicates(),
    decreases i,
{
    let seats = d.seats@;
    if i == 0 {
        assert(names_before_seat(seats, 0) =~= Seq::<Seq<char>>::empty());
    } else {
        lemma_ids_distinct_up_to(d, c, i - 1);
        assert(seat_passes(d, c, i - 1));
        let keys = seats[i - 1].keys@;
        lemma_key_prefix_distinct(d, c, i - 1, keys.len() as int);
        assert(keys.take(keys.len() as int) =~= keys);
        assert(ids_before_seat(seats, i) =~= ids_before_key(seats, i - 1, keys.len() as int));
        assert(names_before_seat(seats, i) =~= names_before_seat(seats, i - 1).push(
            lowercase(seats[i - 1].name@),
        ));
        lemma_push_distinct(names_before_seat(seats, i - 1), lowercase(seats[i - 1].name@));
    }
}

/// A draft that meets every rule names each seat and key by an id used once
/// over the whole draft, gives no two seats the same name up to case, and
/// has only valid names and no key that is both created and revoked.
pub proof fn lemma_accepted_draft_is_unambiguous(
    d: CarManagementDraft,
    c: DraftChecks,
    serialized: bool,
)
    requires
        c.fits(&d),
        draft_outcome(d, c, serialized) is Ok,
    ensures
        ids_before_seat(d.seats@, d.seats@.len() as int).no_duplicates(),
        names_before_seat(d.seats@, d.seats@.len() as int).no_duplicates(),
        spec_valid_name(d.name@),
        forall|i: int| 0 <= i < d.seats@.len() ==> spec_valid_name(#[trigger] d.seats@[i].name@),
        forall|i: int, k: int|
            0 <= i < d.seats@.len() && 0 <= k < d.seats@[i].keys@.len() ==> {
                &&& spec_valid_name((#[trigger] d.seats@[i].keys@[k]).name@)
                &&& !(d.seats@[i].keys@[k].create && d.seats@[i].keys@[k].revoke)
            },
{
    lemma_walk_ok(d, c, 0, -1);
    assert forall|i: int| 0 <= i < d.seats@.len() implies spec_valid_name(
        #[trigger] d.seats@[i].name@,
    ) by {
        assert(seat_passes(d, c, i));
    }
    assert forall|i: int, k: int|
        0 <= i < d.seats@.len() && 0 <= k < d.seats@[i].keys@.len() implies {
        &&& spec_valid_name((#[trigger] d.seats@[i].keys@[k]).name@)
        &&& !(d.seats@[i].keys@[k].create && d.seats@[i].keys@[k].revoke)
    } by {
        assert(seat_passes(d, c, i));
        assert(key_passes(d, c, i, k));
    }
    assert forall|i2: int| 0 <= i2 < d.seats@.len() implies #[trigger] seat_passes(d, c, i2)
        && forall|k: int|
        0 <= k < d.seats@[i2].keys@.len() ==> #[trigger] key_passes(d, c, i2, k) by {
        if i2 > 0 {
            assert(seat_passes(d, c, i2));
        }
    }
    assert(passes_from(d, c, 0));
    lemma_ids_distinct_up_to(d, c, d.seats@.len() as int);
}

/// URL-safe base64 without padding turns `n` bytes into `(4n + 2) / 3`
/// characters.
pub proof fn lemma_base64_url_length(b: Seq<u8>)
    ensures
        base64_url(b).len() == (4 * b.len() + 2) / 3,
    decreases b.len(),
{
    if b.len() >= 3 {
        lemma_base64_url_length(b.subrange(3, b.len() as int));
    }
}

/// A member credential is `sk_` followed by 43 characters: 46 in all.
pub proof fn lemma_credential_shape(secret: Seq<u8>)
    requires
        secret.len() == 32,
    ensures
        credential_for(secret).len() == 46,
        credential_for(secret).take(3) == "sk_"@,
{
    reveal_strlit("sk_");
    lemma_base64_url_length(secret);
    assert(credential_for(secret).take(3) =~= "sk_"@);
}

} // verus!

verus! {

// ---------------------------------------------------------------------------
// Laws of the draft rules
// ---------------------------------------------------------------------------

/// The quota policy may be any of "manual", "cycle" and "automatic", and
/// which of the three a draft chooses never changes how it is judged; any
/// other policy is refused.
pub proof fn lemma_quota_policies(
    d1: CarManagementDraft,
    d2: CarManagementDraft,
    c: DraftChecks,
    serialized: bool,
)
    requires
        d2 == (CarManagementDraft { quota_policy: d2.quota_policy, ..d1 }),
        d1.quota_policy@ == "manual"@ || d1.quota_policy@ == "cycle"@ || d1.quota_policy@
            == "automatic"@,
    ensures
        (d2.quota_policy@ == "manual"@ || d2.quota_policy@ == "cycle"@ || d2.quota_policy@
            == "automatic"@) ==> draft_outcome(d2, c, serialized) == draft_outcome(
            d1,
            c,
            serialized,
        ),
        !(d2.quota_policy@ == "manual"@ || d2.quota_policy@ == "cycle"@ || d2.quota_policy@
            == "automatic"@) ==> draft_outcome(d2, c, serialized) == Err::<(), _>(invalid_view()),
{
    assert(d2.seats == d1.seats);
    assert(walk(d2, c, 0, -1) == walk(d1, c, 0, -1)) by {
        lemma_walk_same_seats(d1, d2, c, 0, -1);
    }
}

/// The allocation may be "custom" or "equal", and which of the two a draft
/// chooses never changes how it is judged; any other is refused.
pub proof fn lemma_allocations(
    d1: CarManagementDraft,
    d2: CarManagementDraft,
    c: DraftChecks,
    serialized: bool,
)
    requires
        d2 == (CarManagementDraft { allocation: d2.allocation, ..d1 }),
        d1.allocation@ == "custom"@ || d1.allocation@ == "equal"@,
    ensures
        (d2.allocation@ == "custom"@ || d2.allocation@ == "equal"@) ==> draft_outcome(
            d2,
            c,
            serialized,
        ) == draft_outcome(d1, c, serialized),
        !(d2.allocation@ == "custom"@ || d2.allocation@ == "equal"@) ==> draft_outcome(
            d2,
            c,
            serialized,
        ) == Err::<(), _>(invalid_view()),
{
    assert(d2.seats == d1.seats);
    assert(walk(d2, c, 0, -1) == walk(d1, c, 0, -1)) by {
        lemma_walk_same_seats(d1, d2, c, 0, -1);
    }
}

proof fn lemma_walk_same_seats(
    d1: CarManagementDraft,
    d2: CarManagementDraft,
    c: DraftChecks,
    i: int,
    k: int,
)
    requires
        d1.seats == d2.seats,
    ensures
        walk(d1, c, i, k) == walk(d2, c, i, k),
    decreases d1.seats@.len() - i, d1.seats@[i].keys@.len() - k,
{
    if i < 0 || i >= d1.seats@.len() {
    } else if k < 0 {
        lemma_walk_same_seats(d1, d2, c, i, 0);
    } else if k >= d1.seats@[i].keys@.len() {
        lemma_walk_same_seats(d1, d2, c, i + 1, -1);
    } else {
        lemma_walk_same_seats(d1, d2, c, i, k + 1);
    }
}

/// A key made for a draft key carries that key's id, name, label and both
/// provider profile overrides unchanged, sits in the seat it was made for, and
/// belongs to no group.
pub proof fn lemma_new_key_copies_the_draft_key(nk: NewClientKey, seat_id: Seq<char>, key: CarKeyDraft)
    requires
        new_key_matches(nk, seat_id, key),
    ensures
        nk.id@ == key.id@,
        nk.name@ == key.name@,
        nk.seat_id.deep_view() == Some(seat_id),
        nk.label.deep_view() == key.label.deep_view(),
        nk.openai_client_profile_override.deep_view()
            == key.openai_client_profile_override.deep_view(),
        nk.xai_client_profile_override.deep_view() == key.xai_client_profile_override.deep_view(),
        nk.group_ids@.len() == 0,
{
}

/// An amount is accepted exactly when it parses and its canonical text does
/// not start with a minus sign; a weight must moreover be non-zero and have at
/// most one byte after its decimal point.
pub proof fn lemma_amount_rules(a: AmountReading)
    ensures
        !amount_accepted(None, true),
        !amount_accepted(None, false),
        amount_accepted(Some(a), false) <==> !(encode_utf8(a.canonical@).len() > 0 && encode_utf8(
            a.canonical@,
        )[0] == 0x2Du8),
        amount_accepted(Some(a), true) ==> amount_accepted(Some(a), false) && !a.is_zero,
        amount_accepted(Some(a), true) ==> forall|j: int|
            0 <= j < encode_utf8(a.canonical@).len() && encode_utf8(a.canonical@)[j] == 0x2Eu8
                ==> encode_utf8(a.canonical@).len() - j - 1 <= 1 || exists|q: int|
                0 <= q < j && encode_utf8(a.canonical@)[q] == 0x2Eu8,
        amount_accepted(Some(a), false) && !a.is_zero && (forall|j: int|
            0 <= j < encode_utf8(a.canonical@).len() ==> encode_utf8(a.canonical@)[j] != 0x2Eu8)
            ==> amount_accepted(Some(a), true),
{
}

} // verus!
