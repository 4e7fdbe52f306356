use kero::artifact::{
    issue_artifact, issue_with_random, read_key, sign_artifact, trim_ascii, ArtifactAuthentication, ArtifactAuthorization,
    ArtifactBinding, ArtifactError, ArtifactEvidence, ArtifactIssueOptions, ArtifactVerifier,
    AuthorizationArtifact, IssueEvidence, KeyFile, SnapshotBinding,
};
use kero::boundary::workspace_write::{
    completed, consume_outcome, relative_parts, WorkspaceWriteBroker, WorkspaceWriteError,
};
use kero::enforcement::nonce::NonceError;
use kero::enforcement::state::BrokerState;
use kero::json::{JsonNumber, JsonValue};
use kero::payload::{artifact_payload, request_wire};
use kero::policy::model::{PureAuthorizationResult, ScopeValue};
use kero::result::{Authorization, Enforcement, Execution};
use serde_json::Value;

const TEST_KEY: [u8; 32] = [0; 32];
const SNAPSHOT: &[u8] = b"{\"schema\":\"terminal-policy/snapshot/v1\"}\n";

fn s(x: &str) -> String {
    x.to_string()
}

fn now() -> (i64, u32) {
    let t = chrono::Utc::now();
    (t.timestamp(), t.timestamp_subsec_nanos())
}

fn text_at(secs: i64) -> String {
    chrono::DateTime::from_timestamp(secs, 0).unwrap().to_rfc3339_opts(chrono::SecondsFormat::Secs, true)
}

fn json_of(v: &JsonValue) -> Value {
    match v {
        JsonValue::Null => Value::Null,
        JsonValue::Bool(b) => Value::Bool(*b),
        JsonValue::Number(JsonNumber::PosInt(n)) => Value::from(*n),
        JsonValue::Number(JsonNumber::NegInt(n)) => Value::from(*n),
        JsonValue::Number(JsonNumber::Float(bits)) => Value::from(f64::from_bits(*bits)),
        JsonValue::Text(t) => Value::String(t.clone()),
        JsonValue::Array(items) => Value::Array(items.iter().map(json_of).collect()),
        JsonValue::Object(entries) => {
            let mut m = serde_json::Map::new();
            for (k, v) in entries {
                m.insert(k.clone(), json_of(v));
            }
            Value::Object(m)
        }
    }
}

fn canonical(v: &Value) -> Vec<u8> {
    serde_jcs::to_vec(v).unwrap()
}

fn texts(v: &[String]) -> Value {
    Value::Array(v.iter().map(|t| Value::String(t.clone())).collect())
}

fn payload(a: &AuthorizationArtifact) -> Vec<u8> {
    let mut m = serde_json::Map::new();
    m.insert(s("schema"), Value::String(a.schema.clone()));
    m.insert(s("artifact_id"), Value::String(a.artifact_id.clone()));
    let mut auth = serde_json::Map::new();
    let decision = match a.authorization.decision {
        Authorization::Allow => "ALLOW",
        Authorization::Deny => "DENY",
    };
    auth.insert(s("decision"), Value::String(s(decision)));
    auth.insert(s("reason"), Value::String(a.authorization.reason.clone()));
    m.insert(s("authorization"), Value::Object(auth));
    m.insert(s("request_id"), Value::String(a.request_id.clone()));
    m.insert(s("request_digest"), Value::String(a.request_digest.clone()));
    m.insert(s("operation"), Value::String(a.operation.clone()));
    m.insert(s("principal"), Value::String(a.principal.clone()));
    m.insert(s("session_id"), Value::String(a.session_id.clone()));
    m.insert(s("targets"), texts(&a.targets));
    m.insert(s("target_digest"), Value::String(a.target_digest.clone()));
    m.insert(s("trusted_context_digest"), Value::String(a.trusted_context_digest.clone()));
    let mut snap = serde_json::Map::new();
    snap.insert(s("id"), Value::String(a.snapshot.id.clone()));
    snap.insert(s("digest"), Value::String(a.snapshot.digest.clone()));
    snap.insert(s("schema"), Value::String(a.snapshot.schema.clone()));
    snap.insert(s("resolver_version"), Value::String(a.snapshot.resolver_version.clone()));
    m.insert(s("snapshot"), Value::Object(snap));
    m.insert(s("issued_at"), Value::String(a.issued_at.clone()));
    m.insert(s("expires_at"), Value::String(a.expires_at.clone()));
    m.insert(s("nonce"), Value::String(a.nonce.clone()));
    m.insert(s("replay_policy"), Value::String(a.replay_policy.clone()));
    m.insert(s("audience"), Value::String(a.audience.clone()));
    m.insert(
        s("boundary_generation"),
        match a.boundary_generation {
            Some(g) => Value::from(g),
            None => Value::Null,
        },
    );
    m.insert(s("execution_binding"), json_of(&a.execution_binding));
    m.insert(s("execution_binding_digest"), Value::String(a.execution_binding_digest.clone()));
    canonical(&Value::Object(m))
}

fn resign(a: AuthorizationArtifact) -> AuthorizationArtifact {
    let p = payload(&a);
    sign_artifact(a, &TEST_KEY, &p)
}

fn evidence(a: &AuthorizationArtifact) -> ArtifactEvidence {
    ArtifactEvidence {
        key: Ok(KeyFile { mode: Some(0o600), bytes: TEST_KEY.to_vec() }),
        payload: Ok(payload(a)),
        snapshot: Ok(SNAPSHOT.to_vec()),
        execution_binding: Ok(canonical(&json_of(&a.execution_binding))),
    }
}

fn fixture(now: (i64, u32)) -> (ArtifactVerifier, AuthorizationArtifact) {
    let targets = vec![s("path:src/main.rs")];
    let artifact = AuthorizationArtifact {
        schema: s("terminal-enforcement/authorization-artifact/v1"),
        artifact_id: s("artifact.test"),
        authorization: ArtifactAuthorization { decision: Authorization::Allow, reason: s("allow.fixture") },
        request_id: s("request.test"),
        request_digest: s("sha256:fixture"),
        operation: s("filesystem.write"),
        principal: s("principal.test"),
        session_id: s("session.test"),
        targets: targets.clone(),
        target_digest: kero::crypto::sha256(&canonical(&texts(&targets))),
        trusted_context_digest: kero::crypto::sha256(b"[]"),
        snapshot: SnapshotBinding {
            id: s("snapshot.test"),
            digest: kero::crypto::sha256(SNAPSHOT),
            schema: s("terminal-policy/snapshot/v1"),
            resolver_version: s("terminal-policy-resolver/v1"),
        },
        issued_at: text_at(now.0 - 1),
        expires_at: text_at(now.0 + 300),
        nonce: s("nonce.test"),
        replay_policy: s("single-use"),
        audience: s("broker.workspace-write/v1"),
        boundary_generation: None,
        execution_binding: JsonValue::Object(Vec::new()),
        execution_binding_digest: kero::crypto::sha256(b"{}"),
        authentication: ArtifactAuthentication { mechanism: s("hmac-sha256/v1"), signature: String::new() },
    };
    let verifier = ArtifactVerifier::new(
        s("broker.workspace-write/v1"),
        s("filesystem.write"),
        s("/keys/artifact.key"),
        s("/snapshots/snapshot.json"),
    );
    (verifier, resign(artifact))
}

fn binding() -> ArtifactBinding {
    ArtifactBinding {
        principal: s("principal.test"),
        session_id: s("session.test"),
        targets: vec![s("path:src/main.rs")],
        trusted_context_digest: kero::crypto::sha256(b"[]"),
        execution_binding: JsonValue::Object(Vec::new()),
        boundary_generation: None,
    }
}

#[test]
fn verifies_bound_artifact_without_policy_resolution() {
    let now = now();
    let (verifier, artifact) = fixture(now);
    let ev = evidence(&artifact);
    let verified = verifier.verify(artifact, now, &ev).unwrap();
    assert_eq!(verified.artifact().authorization.decision, Authorization::Allow);
}

#[test]
fn rejects_tamper_and_expiry() {
    let now = now();
    let (verifier, mut artifact) = fixture(now);
    artifact.principal = s("principal.attacker");
    let ev = evidence(&artifact);
    assert!(matches!(verifier.verify(artifact, now, &ev), Err(ArtifactError::Signature)));
    let (verifier, mut artifact) = fixture(now);
    artifact.expires_at = text_at(now.0 - 60);
    let artifact = resign(artifact);
    let ev = evidence(&artifact);
    assert!(matches!(verifier.verify(artifact, now, &ev), Err(ArtifactError::Expired)));
}

#[test]
fn rejects_an_authentic_artifact_whose_layer_2_decision_is_deny() {
    let now = now();
    let (verifier, mut artifact) = fixture(now);
    artifact.authorization.decision = Authorization::Deny;
    let artifact = resign(artifact);
    let ev = evidence(&artifact);
    assert!(matches!(verifier.verify(artifact, now, &ev), Err(ArtifactError::AuthorizationDenied)));
}

#[test]
fn verifies_the_full_broker_owned_binding() {
    let now = now();
    let (verifier, artifact) = fixture(now);
    let ev = evidence(&artifact);
    let (_, again) = fixture(now);
    verifier.verify_bound(artifact, now, &ev, &binding()).unwrap();
    let incorrect = ArtifactBinding { principal: s("principal.other"), ..binding() };
    let ev = evidence(&again);
    assert!(matches!(verifier.verify_bound(again, now, &ev, &incorrect), Err(ArtifactError::ExecutionBinding)));
}

#[test]
fn artifacts_from_the_future_and_for_other_boundaries_are_refused() {
    let now = now();
    let (verifier, mut artifact) = fixture(now);
    artifact.issued_at = text_at(now.0 + 60);
    let artifact = resign(artifact);
    let ev = evidence(&artifact);
    assert!(matches!(verifier.verify(artifact, now, &ev), Err(ArtifactError::NotYetValid)));
    let (_, artifact) = fixture(now);
    let other = ArtifactVerifier::new(s("broker.git-push/v1"), s("filesystem.write"), s("k"), s("s"));
    let ev = evidence(&artifact);
    assert!(matches!(other.verify(artifact, now, &ev), Err(ArtifactError::Audience)));
    let (verifier, artifact) = fixture(now);
    let mut ev = evidence(&artifact);
    ev.snapshot = Ok(b"other snapshot".to_vec());
    assert!(matches!(verifier.verify(artifact, now, &ev), Err(ArtifactError::SnapshotDigest)));
}

#[test]
fn keys_must_be_private_and_long_enough() {
    assert_eq!(trim_ascii(b"  key\n"), b"key".to_vec());
    assert_eq!(trim_ascii(b" \t\r\n"), Vec::<u8>::new());
    assert!(matches!(
        read_key(&Ok(KeyFile { mode: Some(0o644), bytes: TEST_KEY.to_vec() })),
        Err(ArtifactError::KeyPermissions)
    ));
    assert!(matches!(read_key(&Ok(KeyFile { mode: Some(0o600), bytes: b"short\n".to_vec() })), Err(ArtifactError::KeyTooShort)));
    assert_eq!(read_key(&Ok(KeyFile { mode: None, bytes: TEST_KEY.to_vec() })).unwrap(), TEST_KEY.to_vec());
    assert!(matches!(read_key(&Err(s("gone"))), Err(ArtifactError::KeyUnavailable(_))));
    assert_eq!(ArtifactError::KeyUnavailable(s("gone")).message(), "key.unavailable: gone");
    assert_eq!(ArtifactError::ExecutionBinding.message(), "artifact.execution-binding-mismatch");
}

fn decision_for(targets: Vec<String>) -> PureAuthorizationResult {
    PureAuthorizationResult {
        schema: s("terminal-policy/authorization-result/v1"),
        request_id: s("request.test"),
        snapshot: kero::policy::model::SnapshotBinding {
            id: s("snapshot.test"),
            digest: kero::crypto::sha256(SNAPSHOT),
            retrieval: s("file:/snapshots/snapshot.json"),
            schema: s("terminal-policy/snapshot/v1"),
            resolver_version: s("terminal-policy-resolver/v1"),
        },
        principal: s("principal.user"),
        operation: s("filesystem.write"),
        targets,
        decision: s("ALLOW"),
        reason: s("allow.applicable"),
        effective_roles: vec![s("role.contributor")],
        indeterminate_roles: Vec::new(),
        assignments: Vec::new(),
        statements: Vec::new(),
        diagnostics: Vec::new(),
    }
}

fn request() -> kero::policy::model::AuthorizationRequest {
    kero::policy::model::AuthorizationRequest {
        schema: s("terminal-policy/request/v1"),
        request_id: s("request.test"),
        principal: s("principal.user"),
        operation: s("filesystem.write"),
        targets: vec![ScopeValue { kind: s("path"), expression: s("src/main.rs") }],
        session: vec![(s("id"), JsonValue::Text(s("session.example")))],
        context: Vec::new(),
    }
}

fn write_binding(body: &[u8]) -> JsonValue {
    JsonValue::Object(vec![
        (s("content_digest"), JsonValue::Text(kero::crypto::sha256(body))),
        (s("path"), JsonValue::Text(s("path:src/main.rs"))),
    ])
}

fn issue_evidence(body: &[u8]) -> IssueEvidence {
    IssueEvidence {
        snapshot: Ok(SNAPSHOT.to_vec()),
        request_wire: Ok(b"{\"request\":\"wire\"}".to_vec()),
        context: Ok(b"[]".to_vec()),
        execution_binding: Ok(canonical(&json_of(&write_binding(body)))),
    }
}

fn issued(body: &[u8], now: (i64, u32)) -> AuthorizationArtifact {
    let a = issue_artifact(
        &decision_for(vec![s("path:src/main.rs")]),
        &request(),
        ArtifactIssueOptions {
            ttl_seconds: 300,
            now,
            audience: s("broker.workspace-write/v1"),
            execution_binding: write_binding(body),
            boundary_generation: Some(0),
        },
        &issue_evidence(body),
    )
    .unwrap();
    resign(a)
}

#[test]
fn layer_2_allow_issues_an_artifact_the_layer_3_verifier_accepts() {
    let now = now();
    let body = b"approved contents\n";
    let artifact = issued(body, now);
    assert_eq!(artifact.nonce.len(), 64);
    assert!(artifact.artifact_id.starts_with("artifact."));
    assert_eq!(artifact.replay_policy, "single-use");
    assert_eq!(artifact.session_id, "session.example");
    let verifier = ArtifactVerifier::new(s("broker.workspace-write/v1"), s("filesystem.write"), s("k"), s("s"));
    let ev = evidence(&artifact);
    assert!(verifier.verify(artifact, now, &ev).is_ok());
}

#[test]
fn layer_2_deny_cannot_be_materialized_as_executable_authority() {
    let mut denied = decision_for(vec![s("path:src/main.rs")]);
    denied.decision = s("DENY");
    let body = b"x";
    let result = issue_artifact(
        &denied,
        &request(),
        ArtifactIssueOptions {
            ttl_seconds: 300,
            now: now(),
            audience: s("broker.workspace-write/v1"),
            execution_binding: write_binding(body),
            boundary_generation: Some(0),
        },
        &issue_evidence(body),
    );
    assert!(matches!(result, Err(ArtifactError::AuthorizationDenied)));
    let too_long = issue_artifact(
        &decision_for(vec![s("path:src/main.rs")]),
        &request(),
        ArtifactIssueOptions {
            ttl_seconds: 3601,
            now: now(),
            audience: s("broker.workspace-write/v1"),
            execution_binding: write_binding(body),
            boundary_generation: Some(0),
        },
        &issue_evidence(body),
    );
    assert!(matches!(too_long, Err(ArtifactError::AuthorizationDenied)));
}

fn write_expectation(body: &[u8]) -> ArtifactBinding {
    ArtifactBinding {
        principal: s("principal.user"),
        session_id: s("session.example"),
        targets: vec![s("path:src/main.rs")],
        trusted_context_digest: kero::crypto::sha256(b"[]"),
        execution_binding: write_binding(body),
        boundary_generation: Some(0),
    }
}

#[test]
fn exact_descriptor_relative_write_is_bound_and_single_use() {
    let now = now();
    let body = b"approved contents\n";
    let artifact = issued(body, now);
    let nonce = artifact.nonce.clone();
    let broker = WorkspaceWriteBroker::new(s("/workspace"), BrokerState::open(s("/broker/state"), None));
    let verifier = ArtifactVerifier::new(s("broker.workspace-write/v1"), s("filesystem.write"), s("k"), s("s"));
    let ev = evidence(&artifact);
    let plan = broker.prepare(&verifier, artifact, now, &ev, &write_expectation(body), body).unwrap();
    assert_eq!(plan.parts, vec![s("src"), s("main.rs")]);
    assert_eq!(plan.nonce_path, format!("/broker/state/nonces/{nonce}"));
    assert_eq!(plan.temporary, format!(".scope-write-{nonce}"));
    assert_eq!(plan.attempt.boundary, "broker.workspace-write/v1");
    assert_eq!(plan.attempt.generation, 0);
    assert!(consume_outcome(Ok(())).is_ok());
    let replay = consume_outcome(Err(NonceError::Replay)).unwrap_err();
    assert!(replay.message().contains("workspace.replay"));
    let done = completed();
    assert_eq!(done.reason(), "workspace.write.completed");
    assert_eq!(done.enforcement(), Enforcement::Advisory);
    assert_eq!(done.execution(), Execution::Execute);
}

#[test]
fn identity_or_context_mismatch_blocks_before_nonce_admission() {
    let now = now();
    let body = b"identity must bind\n";
    let artifact = issued(body, now);
    let broker = WorkspaceWriteBroker::new(s("/workspace"), BrokerState::open(s("/broker/state"), None));
    let verifier = ArtifactVerifier::new(s("broker.workspace-write/v1"), s("filesystem.write"), s("k"), s("s"));
    let mut incorrect = write_expectation(body);
    incorrect.principal = s("principal.other");
    let ev = evidence(&artifact);
    let error = broker.prepare(&verifier, artifact, now, &ev, &incorrect, body).unwrap_err();
    assert!(error.message().contains("artifact.execution-binding-mismatch"));
    let other_content = issued(body, now);
    let ev = evidence(&other_content);
    let error = broker
        .prepare(&verifier, other_content, now, &ev, &write_expectation(body), b"different body")
        .unwrap_err();
    assert!(matches!(error, WorkspaceWriteError::Binding));
}

#[test]
fn workspace_paths_cannot_escape() {
    assert_eq!(relative_parts("src/./lib.rs").unwrap(), vec![s("src"), s("lib.rs")]);
    assert_eq!(relative_parts("a//b/").unwrap(), vec![s("a"), s("b")]);
    for bad in ["", "/etc/passwd", "../secret", "src/../../x", ".", "./src", "a\\b", "a\0b", "//"] {
        assert!(matches!(relative_parts(bad), Err(WorkspaceWriteError::Target)), "accepted {bad:?}");
    }
}

fn refusal(change: impl Fn(&mut AuthorizationArtifact), ev_change: impl Fn(&mut ArtifactEvidence)) -> ArtifactError {
    let now = now();
    let (verifier, mut artifact) = fixture(now);
    change(&mut artifact);
    let artifact = resign(artifact);
    let mut ev = evidence(&artifact);
    ev_change(&mut ev);
    verifier.verify(artifact, now, &ev).unwrap_err()
}

#[test]
fn each_artifact_check_reports_its_own_failure() {
    let none = |_: &mut ArtifactEvidence| {};
    assert!(matches!(refusal(|a| a.schema = s("other/v1"), none), ArtifactError::Schema));
    assert!(matches!(
        refusal(|a| a.authentication.mechanism = s("hmac-sha1/v1"), none),
        ArtifactError::Authentication
    ));
    assert!(matches!(refusal(|a| a.operation = s("git.push"), none), ArtifactError::Operation));
    assert!(matches!(
        refusal(|a| a.targets = vec![s("path:a"), s("path:b")], none),
        ArtifactError::Operation
    ));
    assert!(matches!(refusal(|a| a.replay_policy = s("reusable"), none), ArtifactError::ReplayPolicy));
    assert!(matches!(
        refusal(|a| a.snapshot.resolver_version = s("terminal-policy-resolver/v2"), none),
        ArtifactError::ResolverBinding
    ));
    assert!(matches!(
        refusal(|_| {}, |ev| ev.snapshot = Err(s("missing"))),
        ArtifactError::SnapshotUnavailable(m) if m == "missing"
    ));
    assert!(matches!(refusal(|a| a.issued_at = s("yesterday"), none), ArtifactError::Time));
    assert!(matches!(
        refusal(|a| a.target_digest = kero::crypto::sha256(b"[]"), none),
        ArtifactError::TargetDigest
    ));
    assert!(matches!(
        refusal(|_| {}, |ev| ev.execution_binding = Ok(b"{\"other\":1}".to_vec())),
        ArtifactError::ExecutionBinding
    ));
    assert_eq!(ArtifactError::ReplayPolicy.message(), refusal(|a| a.replay_policy = s("x"), none).message());
}

fn issue_with(decision: PureAuthorizationResult, request: kero::policy::model::AuthorizationRequest, evidence: IssueEvidence) -> Result<AuthorizationArtifact, ArtifactError> {
    let body = b"x";
    issue_artifact(
        &decision,
        &request,
        ArtifactIssueOptions {
            ttl_seconds: 300,
            now: now(),
            audience: s("broker.workspace-write/v1"),
            execution_binding: write_binding(body),
            boundary_generation: Some(0),
        },
        &evidence,
    )
}

#[test]
fn issuing_checks_the_decision_against_its_request_and_snapshot() {
    let body = b"x";
    let decision = || decision_for(vec![s("path:src/main.rs")]);
    let mut other_principal = decision();
    other_principal.principal = s("principal.other");
    assert!(matches!(issue_with(other_principal, request(), issue_evidence(body)), Err(ArtifactError::Operation)));
    let mut sessionless = request();
    sessionless.session = Vec::new();
    assert!(matches!(issue_with(decision(), sessionless, issue_evidence(body)), Err(ArtifactError::Operation)));
    let mut missing = issue_evidence(body);
    missing.snapshot = Err(s("gone"));
    assert!(matches!(issue_with(decision(), request(), missing), Err(ArtifactError::SnapshotUnavailable(_))));
    let mut changed = issue_evidence(body);
    changed.snapshot = Ok(b"changed".to_vec());
    assert!(matches!(issue_with(decision(), request(), changed), Err(ArtifactError::SnapshotDigest)));
    let mut unreadable = issue_evidence(body);
    unreadable.context = Err(s("context unreadable"));
    assert!(matches!(issue_with(decision(), request(), unreadable), Err(ArtifactError::Canonical(_))));
    assert!(issue_with(decision(), request(), issue_evidence(body)).is_ok());
}

#[test]
fn issuing_from_given_random_bytes_is_exact() {
    let body = b"x";
    let random: Vec<u8> = (0u8..32).collect();
    let options = || ArtifactIssueOptions {
        ttl_seconds: 300,
        now: now(),
        audience: s("broker.workspace-write/v1"),
        execution_binding: write_binding(body),
        boundary_generation: Some(0),
    };
    let a = issue_with_random(
        &decision_for(vec![s("path:src/main.rs")]),
        &request(),
        options(),
        &issue_evidence(body),
        &random,
    )
    .unwrap();
    assert_eq!(a.nonce, "000102030405060708090a0b0c0d0e0f101112131415161718191a1b1c1d1e1f");
    assert_eq!(a.artifact_id, "artifact.000102030405060708090a0b0c0d0e0f");
    assert_eq!(a.session_id, "session.example");
    assert_eq!(a.request_digest, kero::crypto::sha256(b"{\"request\":\"wire\"}"));
    let mut denied = decision_for(vec![s("path:src/main.rs")]);
    denied.decision = s("DENY");
    assert!(matches!(
        issue_with_random(&denied, &request(), options(), &issue_evidence(body), &random),
        Err(ArtifactError::AuthorizationDenied)
    ));
    let mut unreadable = issue_evidence(body);
    unreadable.request_wire = Err(s("unreadable"));
    assert!(matches!(
        issue_with_random(&decision_for(vec![s("path:src/main.rs")]), &request(), options(), &unreadable, &random),
        Err(ArtifactError::Canonical(_))
    ));
}

#[test]
fn the_signed_payload_covers_every_field_but_the_authentication() {
    let n = now();
    let (_, artifact) = fixture(n);
    let shaped = canonical(&json_of(&artifact_payload(&artifact)));
    assert_eq!(shaped, payload(&artifact));
    let (_, mut changed) = fixture(n);
    changed.nonce = s("other");
    assert_ne!(canonical(&json_of(&artifact_payload(&changed))), shaped);
    let (_, mut resigned) = fixture(n);
    resigned.authentication.signature = s("hmac-sha256:00");
    assert_eq!(canonical(&json_of(&artifact_payload(&resigned))), shaped);
}

#[test]
fn the_request_digest_covers_the_request_as_issued() {
    let wire = json_of(&request_wire(&request()));
    assert_eq!(
        canonical(&wire),
        b"{\"context\":[],\"operation\":\"filesystem.write\",\"principal\":\"principal.user\",\"request_id\":\"request.test\",\"schema\":\"terminal-policy/request/v1\",\"session\":{\"id\":\"session.example\"},\"targets\":[\"path:src/main.rs\"]}".to_vec()
    );
}
