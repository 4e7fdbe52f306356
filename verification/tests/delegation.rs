use kero::json::JsonValue;
use kero::policy::files::{
    load_policy, load_request, EnvironmentFile, RawAssignment, RawDelegation, RawPrincipal, RawRole, RawSource,
    RawStatement, RecordsFile, RequestFile,
};
use kero::policy::model::{PolicySet, PureAuthorizationResult, SnapshotBinding};
use kero::policy::resolve::authorize;

fn s(x: &str) -> String {
    x.to_string()
}

fn strings(xs: &[&str]) -> Vec<String> {
    xs.iter().map(|x| x.to_string()).collect()
}

fn source(id: &str, kind: &str, trust_mode: &str, record_actions: &[&str], operations: &[&str]) -> RawSource {
    RawSource {
        id: s(id),
        kind: s(kind),
        locator: format!("{id}.toml"),
        trust_mode: s(trust_mode),
        record_actions: strings(record_actions),
        operations: strings(operations),
        scopes: Vec::new(),
        scope_universe: strings(&["path"]),
        digest: None,
    }
}

fn environment(id: &str, sources: Vec<RawSource>) -> EnvironmentFile {
    EnvironmentFile {
        schema: s("terminal-policy/environment/v1"),
        environment_id: s(id),
        context_providers: Vec::new(),
        sources,
    }
}

fn records(source: &str) -> RecordsFile {
    RecordsFile {
        schema: s("terminal-policy/records/v1"),
        source: s(source),
        principals: Vec::new(),
        roles: Vec::new(),
        statements: Vec::new(),
        assignments: Vec::new(),
        delegations: Vec::new(),
    }
}

fn delegation(
    id: &str,
    issuer: &str,
    recipient: &str,
    record_actions: &[&str],
    operations: &[&str],
    scopes: &[&str],
    redelegation: bool,
    max_depth: u32,
) -> RawDelegation {
    RawDelegation {
        id: s(id),
        issuer: s(issuer),
        recipient: s(recipient),
        record_actions: strings(record_actions),
        principals: strings(&["principal.user"]),
        roles: strings(&["role.project.*"]),
        operations: strings(operations),
        scopes: strings(scopes),
        scope_universe: Vec::new(),
        conditions: Vec::new(),
        redelegation,
        max_depth,
        not_before: None,
        not_after: None,
        revoked: false,
    }
}

fn project_records() -> RecordsFile {
    let mut project = records("source.project");
    project.roles = vec![RawRole { id: s("role.project.contributor"), inherits: Vec::new() }];
    project.statements = vec![RawStatement {
        id: s("statement.project.write"),
        role: s("role.project.contributor"),
        effect: s("allow"),
        operations: strings(&["filesystem.write"]),
        scopes: strings(&["path:src/**"]),
        conditions: Vec::new(),
        not_before: None,
        not_after: None,
        revoked: false,
    }];
    project.assignments = vec![RawAssignment {
        id: s("assignment.project.user"),
        principal: s("principal.user"),
        roles: strings(&["role.project.contributor"]),
        operations: strings(&["filesystem.write"]),
        scopes: strings(&["path:src/**"]),
        conditions: Vec::new(),
        not_before: None,
        not_after: None,
        revoked: false,
    }];
    project
}

fn global_records(delegations: Vec<RawDelegation>) -> RecordsFile {
    let mut global = records("source.global");
    global.principals = vec![RawPrincipal { id: s("principal.user"), metadata: Vec::new() }];
    global.delegations = delegations;
    global
}

fn resolve(policy: &PolicySet, request_id: &str) -> PureAuthorizationResult {
    let request = load_request(RequestFile {
        schema: s("terminal-policy/request/v1"),
        request_id: s(request_id),
        principal: s("principal.user"),
        operation: s("filesystem.write"),
        targets: strings(&["path:src/main.rs"]),
        session: vec![(s("id"), JsonValue::Text(s("session.test")))],
        context: Vec::new(),
    })
    .unwrap();
    authorize(policy, &request, snapshot())
}

fn snapshot() -> SnapshotBinding {
    SnapshotBinding {
        id: s("snapshot.0000000000000000"),
        digest: s("sha256:0000000000000000"),
        retrieval: s("file:snapshots/0000000000000000.json"),
        schema: s("terminal-policy/snapshot/v1"),
        resolver_version: s("terminal-policy-resolver/v1"),
    }
}

fn chains_of(result: &PureAuthorizationResult) -> Vec<Vec<String>> {
    result.statements.iter().find(|item| item.id == "statement.project.write").unwrap().delegation_chains.clone()
}

#[test]
fn delegation_delegated_allow_retains_complete_chain() {
    let env = environment(
        "environment.test",
        vec![
            source(
                "source.global",
                "global-policy",
                "origin",
                &["principal.define", "role.define", "role.assign", "statement.allow", "statement.deny", "delegation.issue"],
                &["*"],
            ),
            source("source.project", "project-policy", "delegated", &[], &["filesystem.write"]),
        ],
    );
    let global = global_records(vec![delegation(
        "delegation.global.project",
        "source.global",
        "source.project",
        &["role.define", "role.assign", "statement.allow"],
        &["filesystem.write"],
        &["path:src/**"],
        false,
        0,
    )]);
    let policy = load_policy(env, vec![global, project_records()]).unwrap();
    let result = resolve(&policy, "request.test");
    assert_eq!((result.decision.as_str(), result.reason.as_str()), ("ALLOW", "allow.applicable"));
    assert_eq!(chains_of(&result), vec![vec![s("delegation.global.project")]]);
}

fn multi_hop_environment() -> EnvironmentFile {
    environment(
        "environment.multi-hop",
        vec![
            source("source.global", "global-policy", "origin", &["principal.define", "delegation.issue"], &["*"]),
            source("source.intermediate", "shared-policy", "delegated", &[], &["filesystem.write"]),
            source("source.project", "project-policy", "delegated", &[], &["filesystem.write"]),
        ],
    )
}

fn intermediate_records() -> RecordsFile {
    let mut intermediate = records("source.intermediate");
    intermediate.delegations = vec![delegation(
        "delegation.intermediate.project",
        "source.intermediate",
        "source.project",
        &["role.define", "role.assign", "statement.allow"],
        &["filesystem.write"],
        &["path:src/**"],
        false,
        1,
    )];
    intermediate
}

fn global_hop(id: &str, operations: &[&str], scopes: &[&str], redelegation: bool) -> RawDelegation {
    delegation(
        id,
        "source.global",
        "source.intermediate",
        &["delegation.issue", "role.define", "role.assign", "statement.allow"],
        operations,
        scopes,
        redelegation,
        2,
    )
}

#[test]
fn multi_hop_delegation_requires_redelegation_and_remaining_depth() {
    let global = global_records(vec![global_hop(
        "delegation.global.intermediate",
        &["filesystem.write"],
        &["path:src/**"],
        true,
    )]);
    let policy =
        load_policy(multi_hop_environment(), vec![global, intermediate_records(), project_records()]).unwrap();
    let result = resolve(&policy, "request.multi-hop");
    assert_eq!(result.decision, "ALLOW");
    assert!(chains_of(&result)
        .contains(&vec![s("delegation.global.intermediate"), s("delegation.intermediate.project")]));

    let no_redelegation = global_records(vec![global_hop(
        "delegation.global.intermediate",
        &["filesystem.write"],
        &["path:src/**"],
        false,
    )]);
    let error =
        load_policy(multi_hop_environment(), vec![no_redelegation, intermediate_records(), project_records()])
            .unwrap_err()
            .message();
    assert!(error.contains("source.unauthorized"));

    let split = global_records(vec![
        global_hop("delegation.global.operation-only", &["filesystem.write"], &["path:tests/**"], true),
        global_hop("delegation.global.scope-only", &["filesystem.read"], &["path:src/**"], true),
    ]);
    let error = load_policy(multi_hop_environment(), vec![split, intermediate_records(), project_records()])
        .unwrap_err()
        .message();
    assert!(error.contains("source.unauthorized"));
}

#[test]
fn a_chain_is_never_deeper_than_its_first_delegation_allows() {
    let mut shallow = global_hop("delegation.global.intermediate", &["filesystem.write"], &["path:src/**"], true);
    shallow.max_depth = 1;
    let mut intermediate = intermediate_records();
    intermediate.delegations[0].max_depth = 1;
    let error = load_policy(multi_hop_environment(), vec![global_records(vec![shallow]), intermediate, project_records()])
        .unwrap_err()
        .message();
    assert!(error.contains("source.unauthorized"));
}

#[test]
fn delegation_source_cycles_are_rejected_with_a_stable_reason() {
    let env = environment(
        "environment.cycle",
        vec![
            source("source.first", "global-policy", "origin", &["delegation.issue"], &["*"]),
            source("source.second", "project-policy", "delegated", &[], &["*"]),
        ],
    );
    let hop = |id: &str, issuer: &str, recipient: &str, max_depth: u32| RawDelegation {
        principals: Vec::new(),
        roles: Vec::new(),
        scope_universe: strings(&["path"]),
        ..delegation(id, issuer, recipient, &["delegation.issue"], &["*"], &[], true, max_depth)
    };
    let mut first = records("source.first");
    first.delegations = vec![hop("delegation.first.second", "source.first", "source.second", 2)];
    let mut second = records("source.second");
    second.delegations = vec![hop("delegation.second.first", "source.second", "source.first", 1)];
    let error = load_policy(env, vec![first, second]).unwrap_err().message();
    assert!(error.contains("delegation.cycle:source.first"), "{error}");
}

#[test]
fn restrictive_deny_only_closure_can_narrow_but_cannot_grant() {
    let env = || {
        let mut restrictive_source = source(
            "source.restrictive",
            "project-policy",
            "restrictive",
            &["role.define", "role.assign", "statement.deny"],
            &["filesystem.write"],
        );
        restrictive_source.scopes = strings(&["path:src/protected/**"]);
        environment(
            "environment.restrictive",
            vec![
                source(
                    "source.origin",
                    "global-policy",
                    "origin",
                    &["principal.define", "role.define", "role.assign", "statement.allow"],
                    &["*"],
                ),
                restrictive_source,
            ],
        )
    };
    let origin = || {
        let mut origin = records("source.origin");
        origin.principals = vec![RawPrincipal { id: s("principal.user"), metadata: Vec::new() }];
        origin.roles = vec![RawRole { id: s("role.contributor"), inherits: Vec::new() }];
        origin.statements = vec![statement("statement.allow-write", "role.contributor", "allow", "path:src/**")];
        origin.assignments = vec![assignment("assignment.user.contributor", "role.contributor", "path:src/**")];
        origin
    };
    let restrictive = |effect: &str| {
        let mut r = records("source.restrictive");
        r.roles = vec![RawRole { id: s("role.protected-deny"), inherits: Vec::new() }];
        r.statements =
            vec![statement("statement.deny-protected", "role.protected-deny", effect, "path:src/protected/**")];
        r.assignments =
            vec![assignment("assignment.user.protected-deny", "role.protected-deny", "path:src/protected/**")];
        r
    };
    let policy = load_policy(env(), vec![origin(), restrictive("deny")]).unwrap();
    let request = load_request(RequestFile {
        schema: s("terminal-policy/request/v1"),
        request_id: s("request.restrictive"),
        principal: s("principal.user"),
        operation: s("filesystem.write"),
        targets: strings(&["path:src/protected/main.rs"]),
        session: vec![(s("id"), JsonValue::Text(s("session.test")))],
        context: Vec::new(),
    })
    .unwrap();
    let result = authorize(&policy, &request, snapshot());
    assert_eq!((result.decision.as_str(), result.reason.as_str()), ("DENY", "deny.explicit"));
    let error = load_policy(env(), vec![origin(), restrictive("allow")]).unwrap_err().message();
    assert!(error.contains("source.unauthorized"));
}

fn statement(id: &str, role: &str, effect: &str, scope: &str) -> RawStatement {
    RawStatement {
        id: s(id),
        role: s(role),
        effect: s(effect),
        operations: strings(&["filesystem.write"]),
        scopes: strings(&[scope]),
        conditions: Vec::new(),
        not_before: None,
        not_after: None,
        revoked: false,
    }
}

fn assignment(id: &str, role: &str, scope: &str) -> RawAssignment {
    RawAssignment {
        id: s(id),
        principal: s("principal.user"),
        roles: strings(&[role]),
        operations: strings(&["filesystem.write"]),
        scopes: strings(&[scope]),
        conditions: Vec::new(),
        not_before: None,
        not_after: None,
        revoked: false,
    }
}
