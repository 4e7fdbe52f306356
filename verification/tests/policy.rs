use kero::json::JsonValue;
use kero::policy::files::{
    load_environment, load_policy, load_request, EnvironmentFile, RawAssignment, RawPrincipal, RawRole,
    RawSource, RawStatement, RecordsFile, RequestFile,
};
use kero::policy::model::{
    Applicability, Condition, ContextEvidence, Diagnostic, PolicySet, PureAuthorizationResult, SnapshotBinding,
};
use kero::policy::load::PolicyLoadError;
use kero::policy::resolve::authorize;
use kero::policy::scope::ScopeError;
use kero::policy::snapshot::{
    existing_outcome, place_snapshot, replay_header, replay_policy, sort_diagnostics, SnapshotError,
};
use kero::policy::validate::validate_policy;

fn s(x: &str) -> String {
    x.to_string()
}

fn strings(xs: &[&str]) -> Vec<String> {
    xs.iter().map(|x| x.to_string()).collect()
}

fn environment() -> EnvironmentFile {
    EnvironmentFile {
        schema: s("terminal-policy/environment/v1"),
        environment_id: s("environment.test"),
        context_providers: strings(&["branch", "time"]),
        sources: vec![RawSource {
            id: s("source.global"),
            kind: s("global-policy"),
            locator: s("records.toml"),
            trust_mode: s("origin"),
            record_actions: strings(&[
                "principal.define",
                "role.define",
                "role.assign",
                "statement.allow",
                "statement.deny",
                "delegation.issue",
            ]),
            operations: strings(&["*"]),
            scopes: Vec::new(),
            scope_universe: strings(&["path", "repository"]),
            digest: None,
        }],
    }
}

fn statement(id: &str, effect: &str, conditions: Vec<Condition>) -> RawStatement {
    RawStatement {
        id: s(id),
        role: s("role.contributor"),
        effect: s(effect),
        operations: strings(&["filesystem.write"]),
        scopes: strings(&["path:src/**"]),
        conditions,
        not_before: None,
        not_after: None,
        revoked: false,
    }
}

fn records(extra: Vec<RawStatement>) -> RecordsFile {
    let mut statements = vec![statement("statement.allow-write", "allow", Vec::new())];
    statements.extend(extra);
    RecordsFile {
        schema: s("terminal-policy/records/v1"),
        source: s("source.global"),
        principals: vec![RawPrincipal { id: s("principal.user"), metadata: Vec::new() }],
        roles: vec![RawRole { id: s("role.contributor"), inherits: Vec::new() }],
        statements,
        assignments: vec![RawAssignment {
            id: s("assignment.user.contributor"),
            principal: s("principal.user"),
            roles: strings(&["role.contributor"]),
            operations: strings(&["filesystem.write"]),
            scopes: strings(&["path:src/**"]),
            conditions: Vec::new(),
            not_before: None,
            not_after: None,
            revoked: false,
        }],
        delegations: Vec::new(),
    }
}

fn request_file(operation: &str, targets: &[&str], session: Vec<(String, JsonValue)>) -> RequestFile {
    RequestFile {
        schema: s("terminal-policy/request/v1"),
        request_id: s("request.test"),
        principal: s("principal.user"),
        operation: s(operation),
        targets: strings(targets),
        session,
        context: Vec::new(),
    }
}

fn session(extra: Vec<(String, JsonValue)>) -> Vec<(String, JsonValue)> {
    let mut entries = vec![(s("id"), JsonValue::Text(s("session.test")))];
    entries.extend(extra);
    entries.sort_by(|a, b| a.0.cmp(&b.0));
    entries
}

fn snapshot() -> SnapshotBinding {
    SnapshotBinding {
        id: s("snapshot.0123456789abcdef"),
        digest: s("sha256:0123456789abcdef"),
        retrieval: s("file:snapshots/0123456789abcdef.json"),
        schema: s("terminal-policy/snapshot/v1"),
        resolver_version: s("terminal-policy-resolver/v1"),
    }
}

fn policy(extra: Vec<RawStatement>) -> PolicySet {
    load_policy(environment(), vec![records(extra)]).unwrap()
}

fn fixture(extra: Vec<RawStatement>, session_extra: Vec<(String, JsonValue)>) -> PureAuthorizationResult {
    let request =
        load_request(request_file("filesystem.write", &["path:src/main.rs"], session(session_extra))).unwrap();
    authorize(&policy(extra), &request, snapshot())
}

#[test]
fn applicable_allow_and_explicit_deny_resolve_deterministically() {
    assert_eq!(fixture(Vec::new(), Vec::new()).decision, "ALLOW");
    let result = fixture(vec![statement("statement.deny-write", "deny", Vec::new())], Vec::new());
    assert_eq!((result.decision.as_str(), result.reason.as_str()), ("DENY", "deny.explicit"));
}

#[test]
fn indeterminate_deny_fails_closed_but_unknown_allow_cannot_grant() {
    let condition = Condition {
        provider: s("branch"),
        key: s("name"),
        operator: s("eq"),
        value: JsonValue::Text(s("main")),
    };
    let deny = fixture(vec![statement("statement.protect-main", "deny", vec![condition])], Vec::new());
    assert_eq!((deny.decision.as_str(), deny.reason.as_str()), ("DENY", "deny.policy-indeterminate"));
    let allow = fixture(Vec::new(), Vec::new())
        .statements
        .into_iter()
        .find(|item| item.effect == "allow")
        .unwrap();
    assert_eq!(allow.applicability, Applicability::Applicable);
}

#[test]
fn session_role_claims_never_create_authority() {
    let result = fixture(
        Vec::new(),
        vec![(s("roles"), JsonValue::Array(vec![JsonValue::Text(s("role.root"))]))],
    );
    assert!(result.diagnostics.iter().any(|item| item.code == "session.roles-ignored"));
    assert!(!result.effective_roles.iter().any(|item| item == "role.root"));
    assert_eq!(result.decision, fixture(Vec::new(), Vec::new()).decision);
}

#[test]
fn session_contents_change_neither_roles_nor_decision() {
    let deny = || vec![statement("statement.deny-write", "deny", Vec::new())];
    let plain = fixture(deny(), Vec::new());
    let claimed = fixture(
        deny(),
        vec![
            (s("roles"), JsonValue::Array(vec![JsonValue::Text(s("role.admin"))])),
            (s("user"), JsonValue::Text(s("someone"))),
        ],
    );
    assert_eq!(plain.effective_roles, claimed.effective_roles);
    assert_eq!(plain.indeterminate_roles, claimed.indeterminate_roles);
    assert_eq!((plain.decision.as_str(), plain.reason.as_str()), ("DENY", "deny.explicit"));
    assert_eq!((claimed.decision.as_str(), claimed.reason.as_str()), ("DENY", "deny.explicit"));
}

#[test]
fn authorized_records_carry_a_delegation_chain() {
    let result = fixture(Vec::new(), Vec::new());
    assert_eq!(result.decision, "ALLOW");
    assert_eq!(result.statements[0].applicability, Applicability::Applicable);
    assert!(!result.statements[0].delegation_chains.is_empty());
}

#[test]
fn allowed_result_carries_request_and_snapshot() {
    let result = fixture(Vec::new(), Vec::new());
    assert_eq!(result.schema, "terminal-policy/authorization-result/v1");
    assert_eq!(result.reason, "allow.applicable");
    assert_eq!(result.request_id, "request.test");
    assert_eq!(result.targets, vec![s("path:src/main.rs")]);
    assert_eq!(result.snapshot, snapshot());
    assert_eq!(result.effective_roles, vec![s("role.contributor")]);
    assert!(result.indeterminate_roles.is_empty());
    assert_eq!(result.statements.len(), 1);
    assert_eq!(result.assignments.len(), 1);
    assert_eq!(result.assignments[0].applicability, Applicability::Applicable);
}

#[test]
fn request_outside_every_scope_is_denied_by_default() {
    let request =
        load_request(request_file("filesystem.write", &["path:docs/index.md"], session(Vec::new()))).unwrap();
    let result = authorize(&policy(Vec::new()), &request, snapshot());
    assert_eq!((result.decision.as_str(), result.reason.as_str()), ("DENY", "deny.default"));
}

#[test]
fn rejects_request_wildcards_and_duplicate_targets() {
    assert!(load_request(request_file("filesystem.*", &["path:src/main.rs"], Vec::new()))
        .unwrap_err()
        .message()
        .contains("request.operation-invalid"));
    assert!(load_request(request_file(
        "filesystem.write",
        &["path:src/main.rs", "path:src/main.rs"],
        Vec::new()
    ))
    .unwrap_err()
    .message()
    .contains("request.targets-duplicate"));
}

#[test]
fn incomplete_and_duplicate_context_is_refused() {
    let evidence = |digest: &str| ContextEvidence {
        provider: s("branch"),
        key: s("name"),
        value: JsonValue::Text(s("main")),
        provenance: s("example.branch-provider/v1"),
        digest: s(digest),
    };
    let mut incomplete = request_file("filesystem.write", &["path:src/main.rs"], Vec::new());
    incomplete.context = vec![evidence("")];
    assert!(load_request(incomplete).unwrap_err().message().contains("context.incomplete"));
    let mut duplicate = request_file("filesystem.write", &["path:src/main.rs"], Vec::new());
    duplicate.context = vec![evidence("sha256:a"), evidence("sha256:b")];
    assert!(load_request(duplicate).unwrap_err().message().contains("context.duplicate"));
}

#[test]
fn unsupported_schemas_are_refused() {
    let mut env = environment();
    env.schema = s("terminal-policy/environment/v0");
    assert_eq!(
        load_environment(env).unwrap_err().message(),
        "policy.schema-unsupported: terminal-policy/environment/v0"
    );
    let mut file = records(Vec::new());
    file.schema = s("terminal-policy/records/v9");
    assert!(load_policy(environment(), vec![file]).unwrap_err().message().contains("policy.schema-unsupported"));
}

#[test]
fn malformed_ids_and_effects_are_refused() {
    let mut file = records(Vec::new());
    file.principals[0].id = s("Principal User");
    assert!(load_policy(environment(), vec![file]).is_err());
    let bad_effect = records(vec![statement("statement.maybe", "maybe", Vec::new())]);
    assert!(load_policy(environment(), vec![bad_effect]).is_err());
}

#[test]
fn invalid_policy_cannot_be_written_as_a_snapshot() {
    let mut p = policy(Vec::new());
    assert!(validate_policy(&p).is_ok());
    p.roles[0].inherits.push(s("role.missing"));
    let error = place_snapshot(&p, b"{}\n", "snapshots").unwrap_err();
    assert!(matches!(error, SnapshotError::PolicyInvalid(_)));
    assert!(error.message().contains("role.inherited-missing"));
}

#[test]
fn snapshot_is_placed_by_its_digest() {
    let p = policy(Vec::new());
    let placement = place_snapshot(&p, b"abc", "store").unwrap();
    assert_eq!(
        placement.digest,
        "sha256:ba7816bf8f01cfea414140de5dae2223b00361a396177a9cb410ff61f20015ad"
    );
    assert_eq!(placement.id, "snapshot.ba7816bf8f01cfea");
    assert_eq!(
        placement.destination,
        "store/ba7816bf8f01cfea414140de5dae2223b00361a396177a9cb410ff61f20015ad.json"
    );
}

#[test]
fn immutable_store_rejects_existing_content_at_digest_path() {
    assert!(existing_outcome(b"same", b"same").is_ok());
    assert!(matches!(existing_outcome(b"different immutable content", b"same"), Err(SnapshotError::Collision)));
}

#[test]
fn replay_checks_digest_schema_and_canonical_bytes() {
    let bytes = b"abc";
    let header = |schema: &str, resolver: &str| Ok((s(schema), s(resolver)));
    assert!(replay_header(
        bytes,
        Some("sha256:ba7816bf8f01cfea414140de5dae2223b00361a396177a9cb410ff61f20015ad"),
        header("terminal-policy/snapshot/v1", "terminal-policy-resolver/v1")
    )
    .is_ok());
    assert!(matches!(
        replay_header(bytes, Some("sha256:wrong"), header("terminal-policy/snapshot/v1", "terminal-policy-resolver/v1")),
        Err(SnapshotError::Digest)
    ));
    assert!(matches!(
        replay_header(bytes, None, header("terminal-policy/snapshot/v0", "terminal-policy-resolver/v1")),
        Err(SnapshotError::Schema)
    ));
    assert!(matches!(
        replay_header(bytes, None, header("terminal-policy/snapshot/v1", "other")),
        Err(SnapshotError::Resolver)
    ));
    assert!(matches!(replay_header(bytes, None, Err(s("eof"))), Err(SnapshotError::Serialization(_))));
    assert!(matches!(
        replay_policy(bytes, policy(Vec::new()), Ok(b"abd".to_vec())),
        Err(SnapshotError::CanonicalMismatch)
    ));
    assert!(replay_policy(bytes, policy(Vec::new()), Ok(bytes.to_vec())).is_ok());
}

#[test]
fn replayed_diagnostics_are_sorted_stably() {
    let d = |code: &str, record: Option<&str>, message: &str| Diagnostic {
        code: s(code),
        severity: s("warning"),
        message: s(message),
        record_id: record.map(s),
    };
    let sorted = sort_diagnostics(vec![
        d("b", Some("x"), "1"),
        d("a", Some("y"), "2"),
        d("b", None, "3"),
        d("a", Some("y"), "4"),
        d("a", Some("b"), "5"),
    ]);
    let order: Vec<&str> = sorted.iter().map(|x| x.message.as_str()).collect();
    assert_eq!(order, vec!["5", "2", "4", "3", "1"]);
}

#[test]
fn duplicate_ids_and_bad_scopes_fail_to_load() {
    let duplicate = records(vec![statement("statement.allow-write", "deny", Vec::new())]);
    assert!(matches!(
        load_policy(environment(), vec![duplicate]),
        Err(PolicyLoadError::Duplicate(id)) if id == "statement.allow-write"
    ));
    let mut unknown = records(Vec::new());
    unknown.statements[0].scopes = strings(&["planet:earth"]);
    assert!(matches!(
        load_policy(environment(), vec![unknown]),
        Err(PolicyLoadError::Scope(ScopeError::UnknownType(t))) if t == "planet"
    ));
    let mut escaping = records(Vec::new());
    escaping.statements[0].scopes = strings(&["path:../outside"]);
    assert!(matches!(
        load_policy(environment(), vec![escaping]),
        Err(PolicyLoadError::Scope(ScopeError::Invalid(_)))
    ));
}

#[test]
fn replay_rejects_noncanonical_snapshot_bytes() {
    let pretty = b"{\n  \"schema\": \"terminal-policy/snapshot/v1\"\n}".to_vec();
    let canonical = b"{\"schema\":\"terminal-policy/snapshot/v1\"}".to_vec();
    assert!(matches!(
        replay_policy(&pretty, policy(Vec::new()), Ok(canonical.clone())),
        Err(SnapshotError::CanonicalMismatch)
    ));
    assert!(matches!(
        replay_policy(&canonical, policy(Vec::new()), Err(s("number out of range"))),
        Err(SnapshotError::Canonical(m)) if m == "number out of range"
    ));
    let replayed = replay_policy(&canonical, policy(Vec::new()), Ok(canonical.clone())).unwrap();
    assert_eq!(replayed.statements.len(), 1);
}
