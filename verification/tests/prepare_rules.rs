use base64::Engine;
use carpool::model::{
    AdminError, AdminErrorKind, AmountReading, CarKeyDraft, CarManagementDraft, CarSeatDraft,
    DraftChecks, KeyChecks, SeatChecks, Timestamp,
};
use carpool::prepare::{amount, check_draft, invalid, new_client_key, prepare};
use sha2::Digest;

const INVALID: &str = "拼车配置无效，请检查名称、份额、额度及共享限制";

fn reading(text: &str) -> Option<AmountReading> {
    Some(AmountReading {
        canonical: text.to_owned(),
        is_zero: text == "0",
    })
}

fn key(id: &str, create: bool) -> CarKeyDraft {
    CarKeyDraft {
        id: id.to_owned(),
        create,
        name: id.to_owned(),
        label: None,
        enabled: true,
        revoke: false,
        openai_client_profile_override: None,
        xai_client_profile_override: None,
    }
}

fn seat(id: &str, name: &str, keys: Vec<CarKeyDraft>) -> CarSeatDraft {
    CarSeatDraft {
        id: id.to_owned(),
        name: name.to_owned(),
        enabled: true,
        max_concurrency: 2,
        requests_per_minute: 20,
        weight: "5".to_owned(),
        daily_limit_usd: "130".to_owned(),
        weekly_limit_usd: "260".to_owned(),
        keys,
    }
}

fn draft(seats: Vec<CarSeatDraft>) -> CarManagementDraft {
    CarManagementDraft {
        request_id: "550e8400-e29b-41d4-a716-446655440000".to_owned(),
        expected_revision: 7,
        quota_updated_at: Some(Timestamp { seconds: 1_700_000_000, nanos: 0 }),
        group_id: "grp_00000000000000000000000000000001".to_owned(),
        create: false,
        name: "整车编辑".to_owned(),
        description: None,
        color: "#2563EBFF".to_owned(),
        enabled: true,
        disable_fast: false,
        account_id: "acct_car".to_owned(),
        quota_policy: "automatic".to_owned(),
        allocation: "custom".to_owned(),
        total_weight: "20".to_owned(),
        initial_capacity_usd: Some("100".to_owned()),
        seats,
    }
}

fn checks_for(d: &CarManagementDraft) -> DraftChecks {
    DraftChecks {
        group_id_valid: true,
        account_id_valid: true,
        color_valid: true,
        total_weight: reading(&d.total_weight),
        initial_capacity: d.initial_capacity_usd.as_deref().and_then(reading),
        seats: d
            .seats
            .iter()
            .map(|s| SeatChecks {
                id_valid: true,
                weight: reading(&s.weight),
                daily_limit: reading(&s.daily_limit_usd),
                weekly_limit: reading(&s.weekly_limit_usd),
                keys: s
                    .keys
                    .iter()
                    .map(|_| KeyChecks {
                        id_valid: true,
                        openai_profile: Ok(()),
                        xai_profile: Ok(()),
                    })
                    .collect(),
            })
            .collect(),
    }
}

fn two_seats() -> CarManagementDraft {
    draft(vec![
        seat(
            "seat_00000000000000000000000000000001",
            "主车位",
            vec![key("key_a", false), key("key_new", true)],
        ),
        seat("seat_00000000000000000000000000000002", "空车位", vec![]),
    ])
}

fn error_of(d: CarManagementDraft, c: &DraftChecks) -> AdminError {
    match prepare(d, c, Some(b"{}".to_vec())) {
        Err(e) => e,
        Ok(_) => panic!("the draft was accepted"),
    }
}

fn assert_invalid(e: AdminError) {
    assert_eq!(e.kind, AdminErrorKind::Invalid);
    assert_eq!(e.message, INVALID);
}

#[test]
fn invalid_draft_error_carries_the_one_message() {
    let e = invalid();
    assert_eq!(e.kind, AdminErrorKind::Invalid);
    assert_eq!(e.message, INVALID);
}

#[test]
fn amounts_must_be_non_negative_and_weights_positive_with_one_decimal() {
    assert_eq!(amount(&reading("12.5"), true).unwrap(), false);
    assert_eq!(amount(&reading("5"), true).unwrap(), false);
    assert!(amount(&reading("12.55"), true).is_err());
    assert_eq!(amount(&reading("12.55"), false).unwrap(), false);
    assert!(amount(&reading("0"), true).is_err());
    assert_eq!(amount(&reading("0"), false).unwrap(), true);
    assert!(amount(&reading("-1"), false).is_err());
    assert!(amount(&None, false).is_err());
    assert_invalid(amount(&reading("-0.5"), true).unwrap_err());
}

#[test]
fn a_complete_draft_is_prepared_with_fingerprint_and_fresh_credentials() {
    let d = two_seats();
    let c = checks_for(&d);
    let bytes = br#"{"draft":"two seats"}"#.to_vec();
    let prepared = prepare(d, &c, Some(bytes.clone())).unwrap();
    let expected = base64::engine::general_purpose::URL_SAFE_NO_PAD.encode(sha2::Sha256::digest(&bytes));
    assert_eq!(prepared.fingerprint, expected);
    assert_eq!(prepared.fingerprint.len(), 43);
    assert_eq!(prepared.draft.seats.len(), 2);
    assert_eq!(prepared.new_keys.len(), 1);
    let created = &prepared.new_keys[0];
    assert_eq!(created.id, "key_new");
    assert_eq!(created.seat_id.as_deref(), Some("seat_00000000000000000000000000000001"));
    assert_eq!(created.name, "key_new");
    assert!(created.group_ids.is_empty());
    assert!(created.plaintext.starts_with("sk_"));
    assert_eq!(created.plaintext.chars().count(), 46);
    let secret = base64::engine::general_purpose::URL_SAFE_NO_PAD
        .decode(&created.plaintext[3..])
        .unwrap();
    assert_eq!(secret.len(), 32);
}

#[test]
fn two_preparations_draw_different_credentials() {
    let first = prepare(two_seats(), &checks_for(&two_seats()), Some(vec![1])).unwrap();
    let second = prepare(two_seats(), &checks_for(&two_seats()), Some(vec![1])).unwrap();
    assert_eq!(first.fingerprint, second.fingerprint);
    assert_ne!(first.new_keys[0].plaintext, second.new_keys[0].plaintext);
}

#[test]
fn new_client_key_encodes_the_secret_behind_sk() {
    let k = CarKeyDraft {
        label: Some("标签".to_owned()),
        openai_client_profile_override: Some("{\"a\":1}".to_owned()),
        ..key("key_x", true)
    };
    let nk = new_client_key(&"seat_1".to_owned(), &k, &[0u8; 32]);
    assert_eq!(nk.plaintext, "sk_AAAAAAAAAAAAAAAAAAAAAAAAAAAAAAAAAAAAAAAAAAA");
    let nk = new_client_key(&"seat_1".to_owned(), &k, &[0xFFu8; 32]);
    assert_eq!(nk.plaintext, format!("sk_{}", "_".repeat(42) + "8"));
    assert_eq!(nk.label.as_deref(), Some("标签"));
    assert_eq!(nk.openai_client_profile_override.as_deref(), Some("{\"a\":1}"));
    assert_eq!(nk.xai_client_profile_override, None);
    assert_eq!(nk.seat_id.as_deref(), Some("seat_1"));
}

#[test]
fn request_ids_must_be_uuids_in_any_accepted_form() {
    for id in [
        "550e8400e29b41d4a716446655440000",
        "{550E8400-E29B-41D4-A716-446655440000}",
        "URN:uuid:550e8400-e29b-41d4-a716-446655440000",
    ] {
        let mut d = two_seats();
        d.request_id = id.to_owned();
        let c = checks_for(&d);
        assert!(check_draft(&d, &c, true).is_ok(), "{id}");
    }
    for id in [
        "550e8400-e29b-41d4-a716-44665544000g",
        "550e8400-e29b-41d4-a716_446655440000",
        "(550e8400-e29b-41d4-a716-446655440000)",
        "",
        "urn:uuld:550e8400-e29b-41d4-a716-446655440000",
    ] {
        let mut d = two_seats();
        d.request_id = id.to_owned();
        let c = checks_for(&d);
        assert_invalid(error_of(d, &c));
    }
}

#[test]
fn header_rules_reject_with_the_invalid_error() {
    let cases: Vec<Box<dyn Fn(&mut CarManagementDraft)>> = vec![
        Box::new(|d| d.name = " 整车".to_owned()),
        Box::new(|d| d.description = Some("说".repeat(501))),
        Box::new(|d| d.quota_policy = "weekly".to_owned()),
        Box::new(|d| d.allocation = "weighted".to_owned()),
        Box::new(|d| d.seats.clear()),
        Box::new(|d| d.total_weight = "20.25".to_owned()),
        Box::new(|d| d.total_weight = "0".to_owned()),
        Box::new(|d| d.initial_capacity_usd = Some("-100".to_owned())),
    ];
    for change in cases {
        let mut d = two_seats();
        change(&mut d);
        let c = checks_for(&d);
        assert_invalid(error_of(d, &c));
    }
    let mut d = two_seats();
    d.description = Some("说".repeat(500));
    let c = checks_for(&d);
    assert!(check_draft(&d, &c, true).is_ok());
}

#[test]
fn domain_core_verdicts_reject_the_draft() {
    let d = two_seats();
    let mut c = checks_for(&d);
    c.color_valid = false;
    assert_invalid(error_of(two_seats(), &c));
    let mut c = checks_for(&d);
    c.group_id_valid = false;
    assert_invalid(error_of(two_seats(), &c));
    let mut c = checks_for(&d);
    c.seats[1].id_valid = false;
    assert_invalid(error_of(two_seats(), &c));
    let mut c = checks_for(&d);
    c.seats[0].keys[1].id_valid = false;
    assert_invalid(error_of(two_seats(), &c));
    let mut c = checks_for(&d);
    c.seats[0].weekly_limit = None;
    assert_invalid(error_of(two_seats(), &c));
}

#[test]
fn zero_initial_capacity_has_its_own_message() {
    let mut d = two_seats();
    d.initial_capacity_usd = Some("0".to_owned());
    let c = checks_for(&d);
    let e = error_of(d, &c);
    assert_eq!(e.kind, AdminErrorKind::Invalid);
    assert_eq!(e.message, "初始总额度必须大于零");
}

#[test]
fn unserializable_draft_is_invalid() {
    let d = two_seats();
    let c = checks_for(&d);
    assert_invalid(prepare(d, &c, None).unwrap_err());
}

#[test]
fn seat_and_key_ids_are_unique_over_the_whole_draft() {
    let mut d = two_seats();
    d.seats[1].id = d.seats[0].id.clone();
    let c = checks_for(&d);
    assert_invalid(error_of(d, &c));
    let mut d = two_seats();
    d.seats[1].keys.push(key("key_a", false));
    let c = checks_for(&d);
    assert_invalid(error_of(d, &c));
    let mut d = two_seats();
    d.seats[1].keys.push(key("seat_00000000000000000000000000000001", true));
    let c = checks_for(&d);
    assert_invalid(error_of(d, &c));
    let mut d = two_seats();
    d.seats[0].keys.push(key("seat_00000000000000000000000000000002", false));
    let c = checks_for(&d);
    assert_invalid(error_of(d, &c));
}

#[test]
fn seat_names_are_unique_ignoring_case() {
    let mut d = two_seats();
    d.seats[0].name = "Seat".to_owned();
    d.seats[1].name = "SEAT".to_owned();
    let c = checks_for(&d);
    assert_invalid(error_of(d, &c));
    let mut d = two_seats();
    d.seats[0].name = "Seat".to_owned();
    d.seats[1].name = "Seats".to_owned();
    let c = checks_for(&d);
    assert!(check_draft(&d, &c, true).is_ok());
}

#[test]
fn seat_limits_bound_concurrency_and_rate() {
    for (concurrency, rate, ok) in [
        (0u64, 20u64, false),
        (1, 0, true),
        (u64::from(u32::MAX), u64::from(u32::MAX), true),
        (u64::from(u32::MAX) + 1, 20, false),
        (2, u64::from(u32::MAX) + 1, false),
    ] {
        let mut d = two_seats();
        d.seats[1].max_concurrency = concurrency;
        d.seats[1].requests_per_minute = rate;
        let c = checks_for(&d);
        assert_eq!(check_draft(&d, &c, true).is_ok(), ok, "{concurrency} {rate}");
    }
}

#[test]
fn seat_count_and_key_count_are_bounded() {
    let seats: Vec<CarSeatDraft> = (0..101)
        .map(|i| seat(&format!("seat_{i:032x}"), &format!("车位{i}"), vec![]))
        .collect();
    let d = draft(seats);
    let c = checks_for(&d);
    assert_invalid(error_of(d, &c));
    let seats: Vec<CarSeatDraft> = (0..100)
        .map(|i| seat(&format!("seat_{i:032x}"), &format!("车位{i}"), vec![]))
        .collect();
    let d = draft(seats);
    let c = checks_for(&d);
    assert!(check_draft(&d, &c, true).is_ok());
    let keys = |s: usize, n: usize| (0..n).map(|k| key(&format!("key_{s}_{k}"), false)).collect::<Vec<_>>();
    let d = draft(vec![
        seat("seat_a", "甲", keys(0, 250)),
        seat("seat_b", "乙", keys(1, 251)),
    ]);
    let c = checks_for(&d);
    assert_invalid(error_of(d, &c));
    let d = draft(vec![
        seat("seat_a", "甲", keys(0, 250)),
        seat("seat_b", "乙", keys(1, 250)),
    ]);
    let c = checks_for(&d);
    assert!(check_draft(&d, &c, true).is_ok());
}

#[test]
fn a_key_cannot_be_created_and_revoked_at_once() {
    let mut d = two_seats();
    d.seats[0].keys[1].revoke = true;
    let c = checks_for(&d);
    assert_invalid(error_of(d, &c));
    let mut d = two_seats();
    d.seats[0].keys[0].revoke = true;
    let c = checks_for(&d);
    assert!(check_draft(&d, &c, true).is_ok());
}

#[test]
fn provider_refusal_of_a_profile_is_returned_as_is() {
    let mut d = two_seats();
    d.seats[0].keys[0].xai_client_profile_override = Some("{}".to_owned());
    let mut c = checks_for(&d);
    c.seats[0].keys[0].xai_profile = Err(AdminError {
        kind: AdminErrorKind::Unavailable,
        message: "client profile unavailable".to_owned(),
    });
    let e = error_of(d, &c);
    assert_eq!(e.kind, AdminErrorKind::Unavailable);
    assert_eq!(e.message, "client profile unavailable");
    // A verdict on a profile the key does not carry is ignored.
    let d = two_seats();
    assert!(check_draft(&d, &c, true).is_ok());
}

#[test]
fn the_first_broken_rule_decides_the_answer() {
    let mut d = two_seats();
    d.seats[0].keys[0].openai_client_profile_override = Some("{}".to_owned());
    d.seats[1].name = String::new();
    let mut c = checks_for(&d);
    c.seats[0].keys[0].openai_profile = Err(AdminError {
        kind: AdminErrorKind::Conflict,
        message: "provider".to_owned(),
    });
    let e = error_of(d, &c);
    assert_eq!(e.kind, AdminErrorKind::Conflict);
    let mut d = two_seats();
    d.seats[0].keys[0].openai_client_profile_override = Some("{}".to_owned());
    d.seats[0].name = String::new();
    let e = error_of(d, &c);
    assert_invalid(e);
}

fn plain_draft(second_name: &str) -> CarManagementDraft {
    let mut d = draft(vec![
        seat(&format!("seat_{:032x}", 1), "Front", vec![]),
        seat(&format!("seat_{:032x}", 2), second_name, vec![]),
    ]);
    d.request_id = "67e55044-10b1-426f-9247-bb680e5fe0c8".to_owned();
    d.name = "car".to_owned();
    d.quota_policy = "manual".to_owned();
    d.total_weight = "2".to_owned();
    d.initial_capacity_usd = None;
    for s in &mut d.seats {
        s.weight = "1".to_owned();
        s.max_concurrency = 1;
    }
    d
}

#[test]
fn a_draft_that_creates_no_key_is_prepared_without_new_keys() {
    let d = plain_draft("Back");
    let c = checks_for(&d);
    let p = prepare(d, &c, Some(b"{}".to_vec())).unwrap();
    assert!(p.new_keys.is_empty());
    assert_eq!(p.draft.seats[1].name, "Back");
    let d = plain_draft("front");
    let c = checks_for(&d);
    assert_invalid(error_of(d, &c));
}
