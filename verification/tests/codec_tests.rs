use crab_share::codec;

const T: u64 = 1_700_000_000_000;

#[test]
fn encode_decode_round_trip() {
    let id = codec::encode(T, 0x1234_5678_9abc_def0_1234);
    assert_eq!(id.len(), 26);
    assert_eq!(codec::decode(&id), Some(T));
}

#[test]
fn encode_decode_round_trip_zero() {
    let id = codec::encode(0, 0);
    assert_eq!(id, "00000000000000000000000000");
    assert_eq!(codec::decode(&id), Some(0));
}

#[test]
fn encode_decode_round_trip_extremes() {
    let max_t = 0xFFFF_FFFF_FFFF;
    let max_r = 0xFFFF_FFFF_FFFF_FFFF_FFFF;
    let id = codec::encode(max_t, max_r);
    assert_eq!(codec::decode(&id), Some(max_t));
}

#[test]
fn decode_rejects_wrong_length() {
    assert_eq!(codec::decode(""), None);
    assert_eq!(codec::decode("0123456789"), None);
    assert_eq!(codec::decode("000000000000000000000000000"), None);
}

#[test]
fn decode_rejects_bad_alphabet() {
    // 'I', 'L', 'O' and 'U' are not in the alphabet, nor is lower case.
    assert_eq!(codec::decode("0000000000000000000000000I"), None);
    assert_eq!(codec::decode("0000000000000000000000000L"), None);
    assert_eq!(codec::decode("0000000000000000000000000O"), None);
    assert_eq!(codec::decode("0000000000000000000000000U"), None);
    assert_eq!(codec::decode("0000000000000000000000000a"), None);
    assert_eq!(codec::decode("000000000000000000000000 0"), None);
}

#[test]
fn decode_rejects_overflowing_first_digit() {
    // A first character of '8' or above would need more than 128 bits.
    assert_eq!(codec::decode("80000000000000000000000000"), None);
    assert_eq!(codec::decode("Z0000000000000000000000000"), None);
    assert_eq!(codec::decode("7ZZZZZZZZZZZZZZZZZZZZZZZZZ"), Some(0xFFFF_FFFF_FFFF));
}

#[test]
fn thousand_identifiers_same_millisecond_distinct() {
    let mut seen = std::collections::HashSet::new();
    for r in 0..1000u128 {
        let id = codec::encode(T, r);
        assert!(seen.insert(id), "identifier collided");
    }
    assert_eq!(seen.len(), 1000);
}

#[test]
fn identifiers_sort_by_expiry() {
    // A later expiry sorts lexicographically after an earlier one,
    // whatever the random components are.
    let early = codec::encode(T, 0xFFFF_FFFF_FFFF_FFFF_FFFF);
    let late = codec::encode(T + 1, 0);
    assert!(early < late);
}

#[test]
fn matches_ulid_encoding() {
    // The identifiers interoperate with the ulid crate in both directions.
    let r: u128 = 0x0102_0304_0506_0708_090a;
    let ours = codec::encode(T, r);
    let parsed: ulid::Ulid = ours.parse().expect("ulid should parse our identifier");
    assert_eq!(parsed.timestamp_ms(), T);
    assert_eq!(parsed.random(), r);

    let theirs = ulid::Ulid::from_parts(T, r).to_string();
    assert_eq!(theirs, ours);
    assert_eq!(codec::decode(&theirs), Some(T));
}

#[test]
fn fresh_identifier_embeds_expiry() {
    let id = crab_share::codec::fresh_identifier(T);
    assert_eq!(id.len(), 26);
    assert_eq!(codec::decode(&id), Some(T));
}

#[test]
fn expiry_instant_adds_lifetime() {
    // seven days from a fixed "now", in milliseconds
    assert_eq!(codec::expiry_instant(T, 604_800), T + 604_800_000);
}
