use kero::crypto::{sha256, sign, signature_bytes, verify_signature};
use kero::result::{Authorization, Capability, Enforcement, Execution, ExecutionResult, Verification};

#[test]
fn digests_are_lowercase_sha256_hex() {
    assert_eq!(sha256(b""), "sha256:e3b0c44298fc1c149afbf4c8996fb92427ae41e4649b934ca495991b7852b855");
    assert_eq!(sha256(b"abc"), "sha256:ba7816bf8f01cfea414140de5dae2223b00361a396177a9cb410ff61f20015ad");
    assert_eq!(signature_bytes("hmac-sha256:00ABff").unwrap(), vec![0x00, 0xab, 0xff]);
    assert!(signature_bytes("hmac-sha256:abc").is_none());
    assert!(signature_bytes("hmac-sha256:zz").is_none());
}

#[test]
fn signatures_round_trip_and_detect_change() {
    let key = [1_u8; 32];
    let signature = sign(&key, b"payload");
    assert!(signature.starts_with("hmac-sha256:"));
    assert_eq!(signature.len(), 12 + 64);
    assert!(verify_signature(&key, b"payload", &signature));
    assert!(!verify_signature(&key, b"payload!", &signature));
    assert!(!verify_signature(&[2_u8; 32], b"payload", &signature));
    assert!(signature_bytes("sha256:00").is_none());
    assert!(!verify_signature(&key, b"payload", "hmac-sha256:zz"));
    assert_eq!(
        sign(b"key", b"The quick brown fox jumps over the lazy dog"),
        "hmac-sha256:f7bc83f430538424b13298e6aa6fb143ef4d59a14946175997479dbc2d1a3cd8"
    );
}

#[test]
fn result_dimensions_are_reported_apart() {
    let blocked = ExecutionResult::blocked(
        Authorization::Allow,
        Verification::Stale,
        Capability::Can,
        "artifact.expired".to_string(),
    );
    assert_eq!(blocked.reason(), "artifact.expired");
    assert_eq!(blocked.authorization(), Authorization::Allow);
    assert_eq!(blocked.verification(), Verification::Stale);
    assert_eq!(blocked.capability(), Capability::Can);
    assert_eq!(blocked.enforcement(), Enforcement::Advisory);
    assert_eq!(blocked.execution(), Execution::Block);
    assert_eq!(blocked.schema(), "kero/execution-result/v1");
}

#[test]
fn result_dimensions_serialize_independently() {
    let result = ExecutionResult::blocked(
        Authorization::Allow,
        Verification::Stale,
        Capability::Can,
        "artifact.expired".to_string(),
    );
    assert_eq!(result.authorization().text(), "ALLOW");
    assert_eq!(result.verification().text(), "STALE");
    assert_eq!(result.capability().text(), "CAN");
    assert_eq!(result.enforcement().text(), "ADVISORY");
    assert_eq!(result.execution().text(), "BLOCK");
}
