use chrono::{DateTime, NaiveDateTime, Utc};
use indradb::errors::ValidationError;
use indradb::util::{
    checked_nanos_since_epoch, generate_random_secret, generate_uuid_v1, nanos_since_epoch,
    next_uuid, secret_from_generator, secret_from_octets, uuid_from_u128, uuid_to_u128, Timestamp,
};
use uuid::{Variant, Version};
use rand::rngs::OsRng;
use regex::Regex;
use std::str::FromStr;
use uuid::Uuid;

fn timestamp_of(datetime: &DateTime<Utc>) -> Timestamp {
    Timestamp { seconds: datetime.timestamp(), nanoseconds: datetime.timestamp_subsec_nanos() }
}

#[test]
fn should_generate_new_uuid_v1() {
    let first = generate_uuid_v1();
    let second = generate_uuid_v1();
    assert_ne!(first, second);
}

#[test]
fn should_generate_random_secret() {
    let secret = generate_random_secret(8).unwrap();
    assert!(Regex::new(r"[a-zA-Z0-9]{8}").unwrap().is_match(&secret[..]));
}

#[test]
fn random_secret_has_the_length_asked_for() {
    let pattern = Regex::new(r"^[a-zA-Z0-9]*$").unwrap();
    for count in [0usize, 1, 8, 100] {
        let secret = generate_random_secret(count).unwrap();
        assert_eq!(secret.len(), count);
        assert!(pattern.is_match(&secret));
    }
    assert_ne!(generate_random_secret(32).unwrap(), generate_random_secret(32).unwrap());
}

#[test]
fn should_generate_next_uuid() {
    let result = next_uuid(Uuid::from_str("16151dea-a538-4bf1-9559-851e256cf139").unwrap());
    assert!(result.is_ok());
    assert_eq!(
        result.unwrap(),
        Uuid::from_str("16151dea-a538-4bf1-9559-851e256cf13a").unwrap()
    );

    let from_uuid = Uuid::from_str("ffffffff-ffff-ffff-ffff-ffffffffffff").unwrap();
    assert!(next_uuid(from_uuid).is_err());
}

#[test]
fn next_uuid_carries_into_higher_octets() {
    let result = next_uuid(Uuid::from_str("00000000-0000-0000-0000-0000000000ff").unwrap());
    assert_eq!(result.unwrap(), Uuid::from_str("00000000-0000-0000-0000-000000000100").unwrap());
    let result = next_uuid(Uuid::from_str("16151dea-a538-4bf1-9559-ffffffffffff").unwrap());
    assert_eq!(result.unwrap(), Uuid::from_str("16151dea-a538-4bf1-955a-000000000000").unwrap());
    let result = next_uuid(Uuid::from_str("fffffffe-ffff-ffff-ffff-ffffffffffff").unwrap());
    assert_eq!(result.unwrap(), Uuid::from_str("ffffffff-0000-0000-0000-000000000000").unwrap());
    let result = next_uuid(Uuid::from_str("00000000-0000-0000-0000-000000000000").unwrap());
    assert_eq!(result.unwrap(), Uuid::from_str("00000000-0000-0000-0000-000000000001").unwrap());
}

#[test]
fn next_uuid_fails_with_its_own_error() {
    let greatest = Uuid::from_str("ffffffff-ffff-ffff-ffff-ffffffffffff").unwrap();
    assert_eq!(next_uuid(greatest), Err(ValidationError::CannotIncrementUuid));
    assert_eq!(ValidationError::CannotIncrementUuid.message(), "could not increment the UUID");
}

#[test]
fn next_uuid_adds_one_to_the_number() {
    for text in [
        "16151dea-a538-4bf1-9559-851e256cf139",
        "00000000-0000-0000-0000-0000000000ff",
        "7fffffff-ffff-ffff-ffff-ffffffffffff",
    ] {
        let id = Uuid::from_str(text).unwrap();
        assert_eq!(uuid_to_u128(&next_uuid(id).unwrap()), uuid_to_u128(&id) + 1);
    }
}

#[test]
fn uuid_reads_as_big_endian_number() {
    let id = Uuid::from_str("00000000-0000-0000-0000-000000000102").unwrap();
    assert_eq!(uuid_to_u128(&id), 258);
    let id = Uuid::from_str("16151dea-a538-4bf1-9559-851e256cf139").unwrap();
    assert_eq!(uuid_to_u128(&id), 0x16151dea_a538_4bf1_9559_851e256cf139);
    assert_eq!(uuid_from_u128(0x16151dea_a538_4bf1_9559_851e256cf139), id);
    assert_eq!(
        uuid_from_u128(u128::MAX),
        Uuid::from_str("ffffffff-ffff-ffff-ffff-ffffffffffff").unwrap()
    );
    assert_eq!(uuid_from_u128(0), Uuid::nil());
    let smaller = Uuid::from_str("00000000-0000-0000-0000-0000000000ff").unwrap();
    let greater = Uuid::from_str("00000000-0000-0000-0000-000000000100").unwrap();
    assert!(smaller < greater);
    assert!(uuid_to_u128(&smaller) < uuid_to_u128(&greater));
}

#[test]
fn should_generate_nanos_since_epoch() {
    #[allow(deprecated)]
    let datetime = DateTime::<Utc>::from_utc(NaiveDateTime::from_timestamp(61, 62), Utc);
    assert_eq!(nanos_since_epoch(&timestamp_of(&datetime)), 61000000062);
}

#[test]
fn checked_nanos_rejects_what_does_not_fit() {
    assert_eq!(checked_nanos_since_epoch(&Timestamp { seconds: 61, nanoseconds: 62 }), Some(61000000062));
    assert_eq!(checked_nanos_since_epoch(&Timestamp { seconds: 0, nanoseconds: 0 }), Some(0));
    assert_eq!(checked_nanos_since_epoch(&Timestamp { seconds: -1, nanoseconds: 0 }), None);
    assert_eq!(
        checked_nanos_since_epoch(&Timestamp { seconds: 18_446_744_073, nanoseconds: 709_551_615 }),
        Some(u64::MAX)
    );
    assert_eq!(
        checked_nanos_since_epoch(&Timestamp { seconds: 18_446_744_073, nanoseconds: 709_551_616 }),
        None
    );
    assert_eq!(checked_nanos_since_epoch(&Timestamp { seconds: i64::MAX, nanoseconds: 0 }), None);
}

#[test]
fn secret_is_made_of_digits_and_letters_alone() {
    assert_eq!(secret_from_octets(b"09azAZ".to_vec()), Some("09azAZ".to_string()));
    assert_eq!(secret_from_octets(Vec::new()), Some(String::new()));
    for refused in [&b"a b"[..], b"a-b", b"/", b":", b"@", b"[", b"`", b"{", b"\xc3\xa9", b"\xff", b"ab\0"] {
        assert_eq!(secret_from_octets(refused.to_vec()), None);
    }
}

#[test]
fn main_types_are_at_the_root() {
    let mut store = indradb::MemoryDatastore::new();
    let txn = indradb::MemoryTransaction::new(1);
    let t = indradb::Type::new("v".to_string()).unwrap();
    let id = txn.create_vertex(&mut store, t).unwrap();
    assert_eq!(txn.get_vertex(&store, id).unwrap().id, id);
    txn.delete_vertex(&mut store, id).unwrap();
    assert!(matches!(txn.get_vertex(&store, id), Err(indradb::Error::VertexNotFound)));
    assert_eq!(
        indradb::Type::new(String::new()).unwrap_err(),
        indradb::ValidationError::InvalidValue
    );
}

#[test]
fn generated_uuid_is_random_and_laid_out_by_rfc_4122() {
    for _ in 0..100 {
        let id = generate_uuid_v1();
        assert_eq!(id.get_version(), Some(Version::Random));
        assert_eq!(id.get_variant(), Some(Variant::RFC4122));
        let bytes = id.as_bytes();
        assert_eq!(bytes.len(), 16);
        assert!((0x40..=0x4f).contains(&bytes[6]));
        assert!((0x80..=0xbf).contains(&bytes[8]));
        let value = uuid_to_u128(&id);
        assert_eq!((value >> 76) & 0xf, 4);
        assert_eq!((value >> 62) & 0x3, 2);
    }
}

#[test]
fn secret_is_drawn_exactly_where_the_generator_is_open() {
    assert_eq!(secret_from_generator(None, 8), None);
    assert_eq!(secret_from_generator(None, 0), None);
    let pattern = Regex::new(r"^[a-zA-Z0-9]*$").unwrap();
    for count in [0usize, 1, 8, 64] {
        let secret = secret_from_generator(OsRng::new().ok(), count).unwrap();
        assert_eq!(secret.chars().count(), count);
        assert!(pattern.is_match(&secret));
    }
    let first = secret_from_generator(OsRng::new().ok(), 32).unwrap();
    let second = secret_from_generator(OsRng::new().ok(), 32).unwrap();
    assert_ne!(first, second);
}

#[test]
fn secrets_draw_on_every_digit_and_letter() {
    let secret = generate_random_secret(20_000).unwrap();
    for wanted in ('0'..='9').chain('a'..='z').chain('A'..='Z') {
        assert!(secret.contains(wanted));
    }
    let mut seen: Vec<char> = secret.chars().collect();
    seen.sort();
    seen.dedup();
    assert_eq!(seen.len(), 62);
}
