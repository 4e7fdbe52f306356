use kero::json::JsonValue;
use kero::policy::files::{
    load_policy, load_request, EnvironmentFile, RawAssignment, RawPrincipal, RawRole, RawSource, RawStatement,
    RecordsFile, RequestFile,
};
use kero::policy::model::{Condition, ContextEvidence};

fn s(x: &str) -> String {
    x.to_string()
}

fn strings(xs: &[&str]) -> Vec<String> {
    xs.iter().map(|x| x.to_string()).collect()
}

const ACTIONS: [&str; 6] =
    ["principal.define", "role.define", "role.assign", "statement.allow", "statement.deny", "delegation.issue"];

fn environment_with(schema: &str, actions: &[&str], universe: &[&str]) -> EnvironmentFile {
    EnvironmentFile {
        schema: s(schema),
        environment_id: s("environment.validation"),
        context_providers: strings(&["time", "project"]),
        sources: vec![RawSource {
            id: s("source.origin"),
            kind: s("project-policy"),
            locator: s("records.toml"),
            trust_mode: s("origin"),
            record_actions: strings(actions),
            operations: strings(&["*"]),
            scopes: Vec::new(),
            scope_universe: strings(universe),
            digest: None,
        }],
    }
}

fn environment() -> EnvironmentFile {
    environment_with("terminal-policy/environment/v1", &ACTIONS, &["path"])
}

/// The records the validation cases start from, with the child role's id,
/// the operation and the statement's id as given.
fn records_with(child: &str, operation: &str, statement_id: &str) -> RecordsFile {
    RecordsFile {
        schema: s("terminal-policy/records/v1"),
        source: s("source.origin"),
        principals: vec![RawPrincipal { id: s("principal.user"), metadata: Vec::new() }],
        roles: vec![
            RawRole { id: s("role.parent"), inherits: Vec::new() },
            RawRole { id: s(child), inherits: strings(&["role.parent"]) },
        ],
        statements: vec![RawStatement {
            id: s(statement_id),
            role: s(child),
            effect: s("allow"),
            operations: strings(&[operation]),
            scopes: strings(&["path:src/**"]),
            conditions: Vec::new(),
            not_before: None,
            not_after: None,
            revoked: false,
        }],
        assignments: vec![RawAssignment {
            id: s("assignment.user"),
            principal: s("principal.user"),
            roles: strings(&[child]),
            operations: strings(&[operation]),
            scopes: strings(&["path:src/**"]),
            conditions: Vec::new(),
            not_before: None,
            not_after: None,
            revoked: false,
        }],
        delegations: Vec::new(),
    }
}

fn records() -> RecordsFile {
    records_with("role.child", "filesystem.write", "statement.write")
}

fn load(records: RecordsFile) -> Result<(), String> {
    load_policy(environment(), vec![records]).map(|_| ()).map_err(|e| e.message())
}

fn load_in(environment: EnvironmentFile, records: RecordsFile) -> Result<(), String> {
    load_policy(environment, vec![records]).map(|_| ()).map_err(|e| e.message())
}

#[test]
fn accepts_a_structurally_complete_authorized_policy() {
    load(records()).unwrap();
}

#[test]
fn rejects_malformed_ids_and_unsupported_effects() {
    let malformed = records_with("Role Child", "filesystem.write", "statement.write");
    assert!(load(malformed).unwrap_err().contains("id.malformed"));

    let mut effect = records();
    effect.statements[0].effect = s("permit");
    assert!(load(effect).unwrap_err().contains("statement.effect-unsupported"));
}

#[test]
fn rejects_cross_type_duplicate_ids_and_unknown_record_actions() {
    let duplicate = records_with("role.child", "filesystem.write", "role.child");
    assert!(load(duplicate).unwrap_err().contains("policy.id-duplicate: role.child"));

    let mut actions = ACTIONS.to_vec();
    actions.push("role.superuser");
    let error = load_in(environment_with("terminal-policy/environment/v1", &actions, &["path"]), records())
        .unwrap_err();
    assert!(error.contains("source.record-action-unsupported"));
}

#[test]
fn rejects_malformed_operation_selectors_and_unknown_scope_universe_types() {
    let operation = records_with("role.child", "filesystem*write", "statement.write");
    assert!(load(operation).unwrap_err().contains("operation.selector-invalid"));

    let error = load_in(environment_with("terminal-policy/environment/v1", &ACTIONS, &["filesystem"]), records())
        .unwrap_err();
    assert!(error.contains("scope.universe-type-unknown"));
}

#[test]
fn rejects_unsupported_schema_versions() {
    let error =
        load_in(environment_with("terminal-policy/environment/v2", &ACTIONS, &["path"]), records()).unwrap_err();
    assert!(error.contains("policy.schema-unsupported"));

    let mut later = records();
    later.schema = s("terminal-policy/records/v2");
    assert!(load(later).unwrap_err().contains("policy.schema-unsupported"));
}

#[test]
fn rejects_missing_references_and_role_cycles() {
    let mut missing = records();
    missing.assignments[0].roles = strings(&["role.missing"]);
    assert!(load(missing).unwrap_err().contains("assignment.role-missing"));

    let mut cycle = records();
    cycle.roles[0].inherits = strings(&["role.child"]);
    assert!(load(cycle).unwrap_err().contains("role.inheritance-cycle"));
}

#[test]
fn rejects_unknown_condition_providers_and_unauthorized_records() {
    let mut condition = records();
    condition.statements[0].conditions = vec![Condition {
        provider: s("client"),
        key: s("id"),
        operator: s("eq"),
        value: JsonValue::Text(s("kero")),
    }];
    assert!(load(condition).unwrap_err().contains("condition.provider-unknown"));

    let without_allow: Vec<&str> = ACTIONS.iter().copied().filter(|a| *a != "statement.allow").collect();
    let error = load_in(environment_with("terminal-policy/environment/v1", &without_allow, &["path"]), records())
        .unwrap_err();
    assert!(error.contains("source.unauthorized:statement.write"));
}

#[test]
fn rejects_malformed_or_inverted_validity_windows() {
    let mut malformed = records();
    malformed.statements[0].not_before = Some(s("tomorrow"));
    assert!(load(malformed).unwrap_err().contains("validity.malformed"));

    let mut inverted = records();
    inverted.statements[0].not_before = Some(s("2026-08-20T00:00:00Z"));
    inverted.statements[0].not_after = Some(s("2026-08-19T00:00:00Z"));
    assert!(load(inverted).unwrap_err().contains("validity.inverted"));
}

fn request_with(context: Vec<ContextEvidence>) -> RequestFile {
    RequestFile {
        schema: s("terminal-policy/request/v1"),
        request_id: s("request.validation"),
        principal: s("principal.user"),
        operation: s("filesystem.write"),
        targets: strings(&["path:src/main.rs"]),
        session: Vec::new(),
        context,
    }
}

fn now_evidence(provenance: &str, digest: &str) -> ContextEvidence {
    ContextEvidence {
        provider: s("time"),
        key: s("now"),
        value: JsonValue::Text(s("2026-08-19T00:00:00Z")),
        provenance: s(provenance),
        digest: s(digest),
    }
}

#[test]
fn rejects_incomplete_and_duplicate_request_context() {
    let duplicate =
        request_with(vec![now_evidence("clock.test", "sha256:test"), now_evidence("clock.test", "sha256:test")]);
    assert!(load_request(duplicate).unwrap_err().message().contains("context.duplicate"));

    let incomplete = request_with(vec![now_evidence("", "")]);
    assert!(load_request(incomplete).unwrap_err().message().contains("context.incomplete"));
}
