//! The policy data model: records, requests and evaluation results.
use crate::json::JsonValue;
use crate::text::concat3;
use vstd::prelude::*;

verus! {

/// A typed scope such as `path:src/**`: a scope type and an expression.
#[derive(Clone, Debug, PartialEq, Eq, PartialOrd, Ord)]
pub struct ScopeValue {
    pub kind: String,
    pub expression: String,
}

/// The canonical text of a scope: its type, a colon, its expression.
pub open spec fn canonical_text(kind: Seq<char>, expression: Seq<char>) -> Seq<char> {
    kind + seq![':'] + expression
}

impl ScopeValue {
    /// `kind:expression`.
    pub fn canonical(&self) -> (r: String)
        ensures
            r@ == canonical_text(self.kind@, self.expression@),
    {
        let r = concat3(self.kind.as_str(), ":", self.expression.as_str());
        proof {
            reveal_strlit(":");
        }
        r
    }

    /// A copy with the same type and expression.
    pub fn duplicate(&self) -> (r: ScopeValue)
        ensures
            r.kind@ == self.kind@,
            r.expression@ == self.expression@,
    {
        ScopeValue { kind: self.kind.clone(), expression: self.expression.clone() }
    }
}

/// How a record or condition bears on a request.
#[derive(Clone, Copy, Debug, PartialEq, Eq, Structural)]
pub enum Applicability {
    Applicable,
    Inapplicable,
    Indeterminate,
}

/// A condition on request context: provider, key, operator and value.
#[derive(Debug)]
pub struct Condition {
    pub provider: String,
    pub key: String,
    pub operator: String,
    pub value: JsonValue,
}

/// A piece of context evidence carried by a request.
#[derive(Debug)]
pub struct ContextEvidence {
    pub provider: String,
    pub key: String,
    pub value: JsonValue,
    pub provenance: String,
    pub digest: String,
}

/// A policy source: where records come from and what it may author.
#[derive(Clone, Debug, PartialEq, Eq)]
pub struct PolicySource {
    pub id: String,
    pub kind: String,
    pub locator: String,
    pub trust_mode: String,
    pub record_actions: Vec<String>,
    pub operations: Vec<String>,
    pub scopes: Vec<ScopeValue>,
    pub scope_universe: Vec<String>,
    pub digest: Option<String>,
}

/// The policy environment. Sources are held in id order, each id once;
/// context providers in order, each once.
#[derive(Clone, Debug, PartialEq, Eq)]
pub struct PolicyEnvironment {
    pub schema: String,
    pub environment_id: String,
    pub sources: Vec<PolicySource>,
    pub context_providers: Vec<String>,
}

/// A principal record; its metadata entries are in key order.
#[derive(Debug)]
pub struct Principal {
    pub id: String,
    pub source: String,
    pub metadata: Vec<(String, JsonValue)>,
}

/// A role record and the roles it inherits.
#[derive(Clone, Debug, PartialEq, Eq)]
pub struct Role {
    pub id: String,
    pub source: String,
    pub inherits: Vec<String>,
}

/// A statement: an effect of a role on operations within scopes.
#[derive(Debug)]
pub struct Statement {
    pub id: String,
    pub source: String,
    pub role: String,
    pub effect: String,
    pub operations: Vec<String>,
    pub scopes: Vec<ScopeValue>,
    pub conditions: Vec<Condition>,
    pub not_before: Option<String>,
    pub not_after: Option<String>,
    pub revoked: bool,
}

/// An assignment of roles to a principal.
#[derive(Debug)]
pub struct Assignment {
    pub id: String,
    pub source: String,
    pub principal: String,
    pub roles: Vec<String>,
    pub operations: Vec<String>,
    pub scopes: Vec<ScopeValue>,
    pub conditions: Vec<Condition>,
    pub not_before: Option<String>,
    pub not_after: Option<String>,
    pub revoked: bool,
}

/// A delegation from an issuing source to a recipient source.
#[derive(Debug)]
pub struct Delegation {
    pub id: String,
    pub source: String,
    pub issuer: String,
    pub recipient: String,
    pub record_actions: Vec<String>,
    pub principals: Vec<String>,
    pub roles: Vec<String>,
    pub operations: Vec<String>,
    pub scopes: Vec<ScopeValue>,
    pub scope_universe: Vec<String>,
    pub conditions: Vec<Condition>,
    pub redelegation: bool,
    pub max_depth: u32,
    pub not_before: Option<String>,
    pub not_after: Option<String>,
    pub revoked: bool,
}

/// A diagnostic about a policy.
#[derive(Clone, Debug, PartialEq, Eq)]
pub struct Diagnostic {
    pub code: String,
    pub severity: String,
    pub message: String,
    pub record_id: Option<String>,
}

/// A loaded policy. Each record list is in id order, each id once.
#[derive(Debug)]
pub struct PolicySet {
    pub environment: PolicyEnvironment,
    pub principals: Vec<Principal>,
    pub roles: Vec<Role>,
    pub statements: Vec<Statement>,
    pub assignments: Vec<Assignment>,
    pub delegations: Vec<Delegation>,
    pub diagnostics: Vec<Diagnostic>,
}

/// An authorization request; session entries are in key order.
#[derive(Debug)]
pub struct AuthorizationRequest {
    pub schema: String,
    pub request_id: String,
    pub principal: String,
    pub operation: String,
    pub targets: Vec<ScopeValue>,
    pub session: Vec<(String, JsonValue)>,
    pub context: Vec<ContextEvidence>,
}

/// How one statement bears on a request.
#[derive(Clone, Debug, PartialEq, Eq)]
pub struct StatementEvaluation {
    pub id: String,
    pub effect: String,
    pub source: String,
    pub applicability: Applicability,
    pub reasons: Vec<String>,
    pub assignment_paths: Vec<Vec<String>>,
    pub delegation_chains: Vec<Vec<String>>,
}

/// How one assignment bears on a request.
#[derive(Clone, Debug, PartialEq, Eq)]
pub struct AssignmentEvaluation {
    pub id: String,
    pub applicability: Applicability,
    pub reasons: Vec<String>,
}

/// The immutable policy snapshot that a decision was made against.
#[derive(Clone, Debug, PartialEq, Eq)]
pub struct SnapshotBinding {
    pub id: String,
    pub digest: String,
    pub retrieval: String,
    pub schema: String,
    pub resolver_version: String,
}

/// The result of pure policy resolution for one request.
#[derive(Clone, Debug, PartialEq, Eq)]
pub struct PureAuthorizationResult {
    pub schema: String,
    pub request_id: String,
    pub snapshot: SnapshotBinding,
    pub principal: String,
    pub operation: String,
    pub targets: Vec<String>,
    pub decision: String,
    pub reason: String,
    pub effective_roles: Vec<String>,
    pub indeterminate_roles: Vec<String>,
    pub assignments: Vec<AssignmentEvaluation>,
    pub statements: Vec<StatementEvaluation>,
    pub diagnostics: Vec<Diagnostic>,
}

/// The files a policy is loaded from: one environment and its record files.
#[derive(Clone, Debug, PartialEq, Eq)]
pub struct PolicyFiles {
    pub environment: String,
    pub records: Vec<String>,
}

} // verus!
