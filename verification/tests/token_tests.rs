//! Tests for the refresh-token codec and the decimal machinery it rests on.
use delegated_auth::token::{decode, encode};

const NOW_MS: u64 = 1_700_000_000_000;
const MGMT: &str = "aaaaa-aa";

#[test]
fn encode_produces_exact_json() {
    let s = encode(MGMT, 1234);
    assert_eq!(s, "{\"principal\":\"aaaaa-aa\",\"expiry_epoch_ms\":1234}");
}

#[test]
fn encode_zero_expiry() {
    let s = encode(MGMT, 0);
    assert_eq!(s, "{\"principal\":\"aaaaa-aa\",\"expiry_epoch_ms\":0}");
}

#[test]
fn encode_max_expiry_roundtrips() {
    let s = encode(MGMT, u64::MAX);
    assert_eq!(
        s,
        "{\"principal\":\"aaaaa-aa\",\"expiry_epoch_ms\":18446744073709551615}"
    );
    assert_eq!(decode(&s, NOW_MS).as_deref(), Some(MGMT));
}

#[test]
fn decode_unexpired_token_returns_principal() {
    let s = encode(MGMT, NOW_MS + 1);
    assert_eq!(decode(&s, NOW_MS).as_deref(), Some(MGMT));
}

#[test]
fn decode_at_expiry_instant_still_valid() {
    let s = encode(MGMT, NOW_MS);
    assert_eq!(decode(&s, NOW_MS).as_deref(), Some(MGMT));
}

#[test]
fn decode_expired_token_is_absent() {
    // expiry one millisecond in the past: treated exactly like no token
    let s = encode(MGMT, NOW_MS - 1);
    assert_eq!(decode(&s, NOW_MS), None);
}

#[test]
fn decode_rejects_malformed_json() {
    assert_eq!(decode("", NOW_MS), None);
    assert_eq!(decode("garbage", NOW_MS), None);
    assert_eq!(decode("{\"principal\":\"aaaaa-aa\"}", NOW_MS), None);
    assert_eq!(
        decode("{\"principal\":\"aaaaa-aa\",\"expiry_epoch_ms\":}", NOW_MS),
        None
    );
    assert_eq!(
        decode("{\"principal\":\"aaaaa-aa\",\"expiry_epoch_ms\":12e4}", NOW_MS),
        None
    );
    // trailing garbage after the closing brace
    assert_eq!(
        decode("{\"principal\":\"aaaaa-aa\",\"expiry_epoch_ms\":1} ", NOW_MS),
        None
    );
    // leading zeros are not canonical
    assert_eq!(
        decode("{\"principal\":\"aaaaa-aa\",\"expiry_epoch_ms\":007}", NOW_MS),
        None
    );
    // number too large for u64
    assert_eq!(
        decode(
            "{\"principal\":\"aaaaa-aa\",\"expiry_epoch_ms\":99999999999999999999}",
            NOW_MS
        ),
        None
    );
}

#[test]
fn decode_rejects_invalid_principal_text() {
    let s = encode("not-a-principal", u64::MAX);
    assert_eq!(decode(&s, NOW_MS), None);
}
