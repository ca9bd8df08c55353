//! Tests for the metadata document codec.
use delegated_auth::metadata::{decode_metadata, encode_metadata, UserMetadata};

fn meta(fields: &[(&str, bool)]) -> UserMetadata {
    UserMetadata {
        entries: fields.iter().map(|(k, v)| (k.to_string(), *v)).collect(),
    }
}

#[test]
fn metadata_encode_produces_exact_json() {
    assert_eq!(encode_metadata(&meta(&[])), "{}");
    assert_eq!(encode_metadata(&meta(&[("nsfw", true)])), "{\"nsfw\":true}");
    assert_eq!(
        encode_metadata(&meta(&[("nsfw", false), ("beta", true)])),
        "{\"nsfw\":false,\"beta\":true}"
    );
}

#[test]
fn documents_roundtrip() {
    for m in [
        meta(&[]),
        meta(&[("nsfw", true)]),
        meta(&[("nsfw", false)]),
        meta(&[("", true)]),
        meta(&[("a", true), ("b", false), ("c", true)]),
    ] {
        let text = encode_metadata(&m);
        assert_eq!(decode_metadata(&text), Some(m));
    }
}

#[test]
fn decode_rejects_malformed_documents() {
    for bad in [
        "",
        "{",
        "}",
        "{}}",
        "{\"nsfw\":maybe}",
        "{\"nsfw\":true",
        "{\"nsfw\":true,}",
        "{nsfw:true}",
        "{\"nsfw\" :true}",
        "{\"nsfw\":true} ",
        "[{\"nsfw\":true}]",
    ] {
        assert_eq!(decode_metadata(bad), None, "accepted: {bad}");
    }
}
