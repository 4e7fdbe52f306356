use kero::enforcement::admission::{admit_attempt, AdmissionError};
use kero::enforcement::audit::{event_line, AuditError, AuditEvent, AuditLine, AuditLog, LineReading};
use kero::enforcement::capability::{observe_command, CapabilityObservation, PathProbe};
use kero::enforcement::deployment::{
    sign_deployment, verify_deployment, DeploymentAttestation, DeploymentError, DeploymentExpectation,
};
use kero::enforcement::model::{Attempt, Lifecycle};
use kero::enforcement::nonce::{NonceError, NonceStore};
use kero::enforcement::recovery::{
    recover_state, sign_checkpoint, verify_checkpoint, Checkpoint, CheckpointError, CheckpointFile,
    RecoveryError,
};
use kero::enforcement::state::{BrokerState, StateError, StateRecord};
use kero::result::Capability;
use serde_json::Value;

fn s(x: &str) -> String {
    x.to_string()
}

fn now() -> (i64, u32) {
    let t = chrono::Utc::now();
    (t.timestamp(), t.timestamp_subsec_nanos())
}

fn text_at(secs: i64) -> String {
    chrono::DateTime::from_timestamp(secs, 0).unwrap().to_rfc3339_opts(chrono::SecondsFormat::Secs, true)
}

fn attempt(generation: u64) -> Attempt {
    Attempt {
        artifact_id: s("artifact.test"),
        nonce: "a".repeat(64),
        boundary: s("broker.test/v1"),
        operation: s("filesystem.write"),
        target_digest: s("sha256:target"),
        snapshot_digest: s("sha256:snapshot"),
        generation,
    }
}

fn checkpoint_value(c: &Checkpoint, with_signature: bool) -> Value {
    let mut m = serde_json::Map::new();
    m.insert(s("schema"), Value::String(c.schema.clone()));
    m.insert(s("generation"), Value::from(c.generation));
    m.insert(s("audit_head"), Value::String(c.audit_head.clone()));
    m.insert(s("snapshot_digest"), Value::String(c.snapshot_digest.clone()));
    m.insert(s("boundary"), Value::String(c.boundary.clone()));
    if with_signature {
        m.insert(s("signature"), Value::String(c.signature.clone()));
    }
    Value::Object(m)
}

fn signed_checkpoint(c: Checkpoint, key: &[u8]) -> Checkpoint {
    sign_checkpoint(c, key)
}

fn file_of(c: &Checkpoint) -> CheckpointFile {
    let bytes = serde_jcs::to_vec(&checkpoint_value(c, true)).unwrap();
    CheckpointFile {
        bytes: bytes.clone(),
        checkpoint: Some(c.clone()),
        canonical: Ok(bytes),
    }
}

fn line_for(previous: &str, lifecycle: Lifecycle) -> AuditLine {
    let event = AuditEvent { schema: s("scope/audit-event/v1"), attempt: attempt(0), lifecycle, previous: s(previous) };
    AuditLine { bytes: event_line(&event), reading: LineReading::Read(event) }
}

fn observation(now: (i64, u32)) -> CapabilityObservation {
    CapabilityObservation {
        schema: s("kero/capability-observation/v1"),
        capability: Capability::Can,
        mechanism: s("fixture/v1"),
        observed_at: text_at(now.0),
        expires_at: text_at(now.0 + 60),
    }
}

#[test]
fn enforcement_common_durable_nonce_admission_rejects_replay_and_disabled_state() {
    let mut state = BrokerState::open(s("/broker/state"), None);
    let nonces = NonceStore::new(state.duplicate());
    let first = nonces.admit_nonce(&"a".repeat(64), 0).unwrap();
    assert_eq!(first, format!("/broker/state/nonces/{}", "a".repeat(64)));
    let again = nonces.admit_nonce(&"a".repeat(64), 0).unwrap();
    assert_eq!(again, first);
    assert!(NonceError::Replay.message().contains("nonce.replay"));
    let generation = state.disable().unwrap();
    assert!(matches!(state.require_active(generation), Err(StateError::Disabled)));
    let nonces = NonceStore::new(state.duplicate());
    assert!(nonces.admit_nonce(&"b".repeat(64), generation).is_err());
}

#[test]
fn malformed_nonces_are_never_admitted() {
    let nonces = NonceStore::new(BrokerState::open(s("/broker/state"), None));
    assert!(matches!(nonces.admit_nonce("nonce.test", 0), Err(NonceError::Invalid)));
    assert!(matches!(nonces.admit_nonce(&"g".repeat(64), 0), Err(NonceError::Invalid)));
    assert!(matches!(
        nonces.admit_nonce(&"a".repeat(64), 1),
        Err(NonceError::State(StateError::Generation))
    ));
}

#[test]
fn enforcement_common_audit_chain_rejects_corruption_before_a_new_event() {
    let log = AuditLog::new(s("/broker/state/audit.jsonl"));
    let empty: Vec<AuditLine> = Vec::new();
    assert_eq!(log.verify(&empty).unwrap(), "sha256:genesis");
    let event = log.append(&empty, attempt(0), Lifecycle::Prepared).unwrap();
    assert_eq!(event.previous, "sha256:genesis");
    assert_eq!(event.lifecycle, Lifecycle::Prepared);
    let first = AuditLine { bytes: event_line(&event), reading: LineReading::Read(event.clone()) };
    let head = kero::crypto::sha256(&first.bytes);
    assert_eq!(log.verify(&vec![first.clone()]).unwrap(), head);
    let second = line_for(&head, Lifecycle::Completed);
    let lines = vec![first, second];
    assert!(log.verify(&lines).unwrap().starts_with("sha256:"));
    assert_eq!(
        String::from_utf8(event_line(&event)).unwrap(),
        format!(
            "{{\"attempt\":{{\"artifact_id\":\"artifact.test\",\"boundary\":\"broker.test/v1\",\"generation\":0,\"nonce\":\"{}\",\"operation\":\"filesystem.write\",\"snapshot_digest\":\"sha256:snapshot\",\"target_digest\":\"sha256:target\"}},\"lifecycle\":\"prepared\",\"previous\":\"sha256:genesis\",\"schema\":\"scope/audit-event/v1\"}}",
            "a".repeat(64)
        )
    );
    let mut reordered = lines[1].clone();
    reordered.bytes = b" ".iter().chain(reordered.bytes.iter()).copied().collect();
    assert!(matches!(log.verify(&vec![lines[0].clone(), reordered]), Err(AuditError::Malformed)));
    let broken = vec![AuditLine { bytes: b"{\"broken\":true}".to_vec(), reading: LineReading::Unparsed }];
    assert!(matches!(log.append(&broken, attempt(0), Lifecycle::Blocked), Err(AuditError::Malformed)));
    let unlinked = vec![line_for("sha256:other", Lifecycle::Prepared)];
    assert!(log.verify(&unlinked).is_err());
}

#[test]
fn enforcement_common_signed_checkpoint_detects_tamper() {
    let key = [7_u8; 32];
    let c = signed_checkpoint(
        Checkpoint {
            schema: s("kero/checkpoint/v1"),
            generation: 1,
            audit_head: s("sha256:audit"),
            snapshot_digest: s("sha256:snapshot"),
            boundary: s("broker.test/v1"),
            signature: String::new(),
        },
        &key,
    );
    assert!(c.signature.starts_with("hmac-sha256:"));
    assert_eq!(verify_checkpoint(file_of(&c), &key).unwrap().generation, 1);
    let mut tampered = c.clone();
    tampered.boundary = s("broker.other/v1");
    assert!(matches!(verify_checkpoint(file_of(&tampered), &key), Err(CheckpointError::Signature)));
    assert!(verify_checkpoint(file_of(&c), &[8_u8; 32]).is_err());
}

#[test]
fn truncated_and_missing_checkpoint_evidence_fails_closed() {
    let key = [5_u8; 32];
    let missing = CheckpointFile {
        bytes: Vec::new(),
        checkpoint: None,
        canonical: Err(s("missing")),
    };
    assert!(matches!(verify_checkpoint(missing, &key), Err(CheckpointError::Malformed)));
    let c = signed_checkpoint(
        Checkpoint {
            schema: s("kero/checkpoint/v1"),
            generation: 0,
            audit_head: s("sha256:genesis"),
            snapshot_digest: s("sha256:snapshot"),
            boundary: s("broker.fixture/v1"),
            signature: String::new(),
        },
        &key,
    );
    let mut truncated = file_of(&c);
    let half = truncated.bytes.len() / 2;
    truncated.bytes.truncate(half);
    assert!(matches!(verify_checkpoint(truncated, &key), Err(CheckpointError::Malformed)));
}

#[test]
fn recovery_requires_matching_signed_checkpoint_and_never_rewinds_generation() {
    let mut state = BrokerState::open(s("state"), None);
    let log = AuditLog::new(state.audit_path());
    let lines = vec![line_for("sha256:genesis", Lifecycle::Prepared)];
    let head = log.verify(&lines).unwrap();
    let generation = state.disable().unwrap();
    let key = [9_u8; 32];
    let signed = signed_checkpoint(
        Checkpoint {
            schema: s("kero/checkpoint/v1"),
            generation,
            audit_head: head.clone(),
            snapshot_digest: s("sha256:snapshot"),
            boundary: s("broker.test/v1"),
            signature: String::new(),
        },
        &key,
    );
    let checkpoint = verify_checkpoint(file_of(&signed), &key).unwrap();
    assert!(matches!(
        recover_state(&mut state, &checkpoint, log.verify(&lines), "sha256:other", "broker.test/v1"),
        Err(RecoveryError::Checkpoint(CheckpointError::Snapshot))
    ));
    assert!(state.record().disabled);
    recover_state(&mut state, &checkpoint, log.verify(&lines), "sha256:snapshot", "broker.test/v1").unwrap();
    state.require_active(generation).unwrap();
    assert!(state.require_active(0).is_err());
    assert_eq!(state.record(), StateRecord { generation, disabled: false });
}

#[test]
fn stale_or_malformed_observations_cannot_be_used() {
    let now = now();
    let observation = observe_command(PathProbe::Missing, "fixture/v1", now, 1).unwrap();
    assert_eq!(observation.capability, Capability::Cannot);
    assert!(observation.is_current(now));
    assert!(!observation.is_current((now.0 + 2, now.1)));
    let malformed = CapabilityObservation { expires_at: s("not-a-time"), ..observation };
    assert!(!malformed.is_current(now));
}

#[test]
fn probes_map_to_capabilities() {
    let now = now();
    assert_eq!(observe_command(PathProbe::File, "m", now, 5).unwrap().capability, Capability::Can);
    assert_eq!(observe_command(PathProbe::Other, "m", now, 5).unwrap().capability, Capability::Cannot);
    assert_eq!(observe_command(PathProbe::Failed, "m", now, 5).unwrap().capability, Capability::Unknown);
    let o = observe_command(PathProbe::File, "m", (0, 0), 60).unwrap();
    assert_eq!(o.observed_at, "1970-01-01T00:00:00Z");
    assert_eq!(o.expires_at, "1970-01-01T00:01:00Z");
    assert!(observe_command(PathProbe::File, "m", (i64::MAX, 0), 1).is_none());
}

#[test]
fn exact_current_attestation_is_required() {
    let now = now();
    let key = [4_u8; 32];
    let paths = vec![s("/broker/state")];
    let mechanisms = vec![s("openat-no-follow")];
    let unsigned = DeploymentAttestation {
        schema: s("kero/deployment-attestation/v1"),
        boundary: s("broker.test/v1"),
        threat_model: s("test/v1"),
        protected_paths: paths.clone(),
        mechanisms: mechanisms.clone(),
        no_alternate_writers_or_executors: true,
        generation: 3,
        issued_at: text_at(now.0),
        expires_at: text_at(now.0 + 60),
        signature: String::new(),
    };
    let attestation = sign_deployment(unsigned.clone(), &key);
    let mut fields = serde_json::Map::new();
    fields.insert(s("schema"), Value::from(unsigned.schema.clone()));
    fields.insert(s("boundary"), Value::from(unsigned.boundary.clone()));
    fields.insert(s("threat_model"), Value::from(unsigned.threat_model.clone()));
    fields.insert(s("protected_paths"), Value::from(unsigned.protected_paths.clone()));
    fields.insert(s("mechanisms"), Value::from(unsigned.mechanisms.clone()));
    fields.insert(s("no_alternate_writers_or_executors"), Value::from(true));
    fields.insert(s("generation"), Value::from(3));
    fields.insert(s("issued_at"), Value::from(unsigned.issued_at.clone()));
    fields.insert(s("expires_at"), Value::from(unsigned.expires_at.clone()));
    let fields = Value::Object(fields);
    assert_eq!(attestation.signature, kero::crypto::sign(&key, &serde_jcs::to_vec(&fields).unwrap()));
    let expectation = DeploymentExpectation {
        boundary: s("broker.test/v1"),
        threat_model: s("test/v1"),
        protected_paths: paths,
        mechanisms,
        generation: 3,
    };
    verify_deployment(&attestation, &key, &expectation, now).unwrap();
    let mismatched = DeploymentExpectation { generation: 4, ..expectation.clone() };
    assert!(verify_deployment(&attestation, &key, &mismatched, now).is_err());
    let tampered = DeploymentAttestation { mechanisms: vec![s("none")], ..attestation.clone() };
    assert!(matches!(verify_deployment(&tampered, &key, &expectation, now), Err(DeploymentError::Signature)));
    assert!(matches!(verify_deployment(&attestation, &[5_u8; 32], &expectation, now), Err(DeploymentError::Signature)));
    assert!(matches!(
        verify_deployment(&attestation, &key, &expectation, (now.0 + 120, 0)),
        Err(DeploymentError::Expired)
    ));
}

#[test]
fn shared_admission_blocks_every_failed_evidence_type_before_side_effect() {
    let now = now();
    let state = BrokerState::open(s("/broker/state"), None);
    let checkpoint = |generation: u64, head: &str| Checkpoint {
        schema: s("kero/checkpoint/v1"),
        generation,
        audit_head: s(head),
        snapshot_digest: s("sha256:snapshot"),
        boundary: s("broker.test/v1"),
        signature: String::new(),
    };
    let admitted = admit_attempt(
        &state,
        &attempt(0),
        &observation(now),
        now,
        Ok(checkpoint(0, "sha256:genesis")),
        Ok(s("sha256:genesis")),
    )
    .unwrap();
    assert_eq!(admitted, format!("/broker/state/nonces/{}", "a".repeat(64)));
    let cannot = CapabilityObservation { capability: Capability::Cannot, ..observation(now) };
    assert!(matches!(
        admit_attempt(&state, &attempt(0), &cannot, now, Ok(checkpoint(0, "sha256:genesis")), Ok(s("sha256:genesis"))),
        Err(AdmissionError::Capability)
    ));
    assert!(matches!(
        admit_attempt(&state, &attempt(0), &observation(now), now, Ok(checkpoint(1, "sha256:genesis")), Ok(s("sha256:genesis"))),
        Err(AdmissionError::Checkpoint(CheckpointError::Boundary))
    ));
    assert!(matches!(
        admit_attempt(&state, &attempt(0), &observation(now), now, Ok(checkpoint(0, "sha256:genesis")), Ok(s("sha256:other"))),
        Err(AdmissionError::Checkpoint(CheckpointError::Audit))
    ));
    assert!(matches!(
        admit_attempt(&state, &attempt(0), &observation(now), now, Err(CheckpointError::Signature), Ok(s("sha256:genesis"))),
        Err(AdmissionError::Checkpoint(CheckpointError::Signature))
    ));
    let mut bad = attempt(0);
    bad.nonce = s("short");
    assert!(matches!(
        admit_attempt(&state, &bad, &observation(now), now, Ok(checkpoint(0, "sha256:genesis")), Ok(s("sha256:genesis"))),
        Err(AdmissionError::Nonce(NonceError::Invalid))
    ));
    assert_eq!(
        AdmissionError::Nonce(NonceError::Replay).message(),
        "admission.nonce: nonce.replay"
    );
}

#[test]
fn observations_beyond_year_9999_are_never_current() {
    let last = 253_402_300_799_i64;
    let inside = observe_command(PathProbe::File, "m", (last - 10, 0), 5).unwrap();
    assert!(inside.is_current((last - 10, 0)));
    let beyond = observe_command(PathProbe::File, "m", (last + 1, 0), 5).unwrap();
    assert!(beyond.observed_at.starts_with('+'));
    assert!(!beyond.is_current((last + 1, 0)));
}

#[test]
fn checkpoint_signatures_cover_every_field_but_the_signature() {
    let key = [3_u8; 32];
    let checkpoint = Checkpoint {
        schema: s("kero/checkpoint/v1"),
        generation: 7,
        audit_head: s("sha256:head"),
        snapshot_digest: s("sha256:snapshot"),
        boundary: s("broker.test/v1"),
        signature: s("hmac-sha256:00"),
    };
    let signed = sign_checkpoint(checkpoint.clone(), &key);
    let payload = b"{\"audit_head\":\"sha256:head\",\"boundary\":\"broker.test/v1\",\"generation\":7,\"schema\":\"kero/checkpoint/v1\",\"snapshot_digest\":\"sha256:snapshot\"}";
    assert_eq!(signed.signature, kero::crypto::sign(&key, payload));
    assert_eq!(serde_jcs::to_vec(&checkpoint_value(&checkpoint, false)).unwrap(), payload.to_vec());
    for changed in [
        Checkpoint { generation: 8, ..signed.clone() },
        Checkpoint { audit_head: s("sha256:other"), ..signed.clone() },
        Checkpoint { boundary: s("broker.other/v1"), ..signed.clone() },
        Checkpoint { snapshot_digest: s("sha256:other"), ..signed.clone() },
    ] {
        assert!(matches!(verify_checkpoint(file_of(&changed), &key), Err(CheckpointError::Signature)));
    }
}
