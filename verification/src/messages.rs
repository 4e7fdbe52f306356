//! What each error of the library says: the text a caller shows for it.

use crate::artifact::ArtifactError;
use crate::boundary::bubblewrap::BubblewrapError;
use crate::boundary::git_push::GitPushError;
use crate::boundary::https_service::HttpsError;
use crate::boundary::workspace_write::WorkspaceWriteError;
use crate::enforcement::admission::AdmissionError;
use crate::enforcement::audit::AuditError;
use crate::enforcement::deployment::DeploymentError;
use crate::enforcement::nonce::NonceError;
use crate::enforcement::recovery::CheckpointError;
use crate::enforcement::recovery::RecoveryError;
use crate::enforcement::state::StateError;
use crate::layout::DiscoveryError;
use crate::layout::LayoutError;
use crate::policy::load::PolicyLoadError;
use crate::policy::scope::ScopeError;
use crate::policy::snapshot::SnapshotError;
use crate::text::{concat2, concat3};
use vstd::prelude::*;

verus! {

/// The text of a `ScopeError`.
pub open spec fn scope_error_text(e: ScopeError) -> Seq<char> {
    match e {
        ScopeError::Invalid(s) => "scope.invalid: "@ + s@,
        ScopeError::UnknownType(s) => "scope.type-unknown: "@ + s@,
    }
}

impl ScopeError {
    /// The text of this error (see `scope_error_text`).
    pub fn message(&self) -> (r: String)
        ensures
            r@ == scope_error_text(*self),
    {
        match self {
            ScopeError::Invalid(s) => concat2("scope.invalid: ", s.as_str()),
            ScopeError::UnknownType(s) => concat2("scope.type-unknown: ", s.as_str()),
        }
    }
}

/// The text of a `PolicyLoadError`.
pub open spec fn policy_load_error_text(e: PolicyLoadError) -> Seq<char> {
    match e {
        PolicyLoadError::Io(s) => "policy.io: "@ + s@,
        PolicyLoadError::Toml(s) => "policy.toml: "@ + s@,
        PolicyLoadError::Scope(e) => scope_error_text(e),
        PolicyLoadError::Schema(s) => "policy.schema-unsupported: "@ + s@,
        PolicyLoadError::Duplicate(s) => "policy.id-duplicate: "@ + s@,
        PolicyLoadError::Invalid(s) => "policy.value-invalid: "@ + s@,
    }
}

impl PolicyLoadError {
    /// The text of this error (see `policy_load_error_text`).
    pub fn message(&self) -> (r: String)
        ensures
            r@ == policy_load_error_text(*self),
    {
        match self {
            PolicyLoadError::Io(s) => concat2("policy.io: ", s.as_str()),
            PolicyLoadError::Toml(s) => concat2("policy.toml: ", s.as_str()),
            PolicyLoadError::Scope(e) => e.message(),
            PolicyLoadError::Schema(s) => concat2("policy.schema-unsupported: ", s.as_str()),
            PolicyLoadError::Duplicate(s) => concat2("policy.id-duplicate: ", s.as_str()),
            PolicyLoadError::Invalid(s) => concat2("policy.value-invalid: ", s.as_str()),
        }
    }
}

/// The text of a `ArtifactError`.
pub open spec fn artifact_error_text(e: ArtifactError) -> Seq<char> {
    match e {
        ArtifactError::ArtifactUnavailable(s) => "artifact.unavailable: "@ + s@,
        ArtifactError::ArtifactMalformed(s) => "artifact.malformed: "@ + s@,
        ArtifactError::KeyUnavailable(s) => "key.unavailable: "@ + s@,
        ArtifactError::KeyPermissions => "key.permissions-not-private"@,
        ArtifactError::KeyTooShort => "key.too-short"@,
        ArtifactError::Schema => "artifact.schema-unsupported"@,
        ArtifactError::Authentication => "artifact.authentication-unsupported"@,
        ArtifactError::Signature => "artifact.signature-invalid"@,
        ArtifactError::Audience => "artifact.audience-mismatch"@,
        ArtifactError::Operation => "artifact.operation-unsupported"@,
        ArtifactError::AuthorizationDenied => "artifact.authorization-denied"@,
        ArtifactError::ReplayPolicy => "artifact.replay-policy-unsupported"@,
        ArtifactError::ResolverBinding => "artifact.resolver-binding-mismatch"@,
        ArtifactError::SnapshotUnavailable(s) => "snapshot.unavailable: "@ + s@,
        ArtifactError::SnapshotDigest => "snapshot.digest-mismatch"@,
        ArtifactError::Time => "artifact.time-malformed"@,
        ArtifactError::NotYetValid => "artifact.not-yet-valid"@,
        ArtifactError::Expired => "artifact.expired"@,
        ArtifactError::TargetDigest => "artifact.target-digest-mismatch"@,
        ArtifactError::ExecutionBinding => "artifact.execution-binding-mismatch"@,
        ArtifactError::Canonical(s) => s@,
    }
}

impl ArtifactError {
    /// The text of this error (see `artifact_error_text`).
    pub fn message(&self) -> (r: String)
        ensures
            r@ == artifact_error_text(*self),
    {
        match self {
            ArtifactError::ArtifactUnavailable(s) => concat2("artifact.unavailable: ", s.as_str()),
            ArtifactError::ArtifactMalformed(s) => concat2("artifact.malformed: ", s.as_str()),
            ArtifactError::KeyUnavailable(s) => concat2("key.unavailable: ", s.as_str()),
            ArtifactError::KeyPermissions => String::from_str("key.permissions-not-private"),
            ArtifactError::KeyTooShort => String::from_str("key.too-short"),
            ArtifactError::Schema => String::from_str("artifact.schema-unsupported"),
            ArtifactError::Authentication => String::from_str("artifact.authentication-unsupported"),
            ArtifactError::Signature => String::from_str("artifact.signature-invalid"),
            ArtifactError::Audience => String::from_str("artifact.audience-mismatch"),
            ArtifactError::Operation => String::from_str("artifact.operation-unsupported"),
            ArtifactError::AuthorizationDenied => String::from_str("artifact.authorization-denied"),
            ArtifactError::ReplayPolicy => String::from_str("artifact.replay-policy-unsupported"),
            ArtifactError::ResolverBinding => String::from_str("artifact.resolver-binding-mismatch"),
            ArtifactError::SnapshotUnavailable(s) => concat2("snapshot.unavailable: ", s.as_str()),
            ArtifactError::SnapshotDigest => String::from_str("snapshot.digest-mismatch"),
            ArtifactError::Time => String::from_str("artifact.time-malformed"),
            ArtifactError::NotYetValid => String::from_str("artifact.not-yet-valid"),
            ArtifactError::Expired => String::from_str("artifact.expired"),
            ArtifactError::TargetDigest => String::from_str("artifact.target-digest-mismatch"),
            ArtifactError::ExecutionBinding => String::from_str("artifact.execution-binding-mismatch"),
            ArtifactError::Canonical(s) => s.clone(),
        }
    }
}

/// The text of a `StateError`.
pub open spec fn state_error_text(e: StateError) -> Seq<char> {
    match e {
        StateError::Io(s) => "state.io: "@ + s@,
        StateError::Malformed => "state.malformed"@,
        StateError::Disabled => "state.disabled"@,
        StateError::Generation => "state.generation-mismatch"@,
    }
}

impl StateError {
    /// The text of this error (see `state_error_text`).
    pub fn message(&self) -> (r: String)
        ensures
            r@ == state_error_text(*self),
    {
        match self {
            StateError::Io(s) => concat2("state.io: ", s.as_str()),
            StateError::Malformed => String::from_str("state.malformed"),
            StateError::Disabled => String::from_str("state.disabled"),
            StateError::Generation => String::from_str("state.generation-mismatch"),
        }
    }
}

/// The text of a `NonceError`.
pub open spec fn nonce_error_text(e: NonceError) -> Seq<char> {
    match e {
        NonceError::State(e) => state_error_text(e),
        NonceError::Invalid => "nonce.invalid"@,
        NonceError::Replay => "nonce.replay"@,
        NonceError::Io(s) => "nonce.io: "@ + s@,
    }
}

impl NonceError {
    /// The text of this error (see `nonce_error_text`).
    pub fn message(&self) -> (r: String)
        ensures
            r@ == nonce_error_text(*self),
    {
        match self {
            NonceError::State(e) => e.message(),
            NonceError::Invalid => String::from_str("nonce.invalid"),
            NonceError::Replay => String::from_str("nonce.replay"),
            NonceError::Io(s) => concat2("nonce.io: ", s.as_str()),
        }
    }
}

/// The text of a `AuditError`.
pub open spec fn audit_error_text(e: AuditError) -> Seq<char> {
    match e {
        AuditError::Io(s) => "audit.io: "@ + s@,
        AuditError::Malformed => "audit.malformed"@,
        AuditError::Canonical(s) => s@,
    }
}

impl AuditError {
    /// The text of this error (see `audit_error_text`).
    pub fn message(&self) -> (r: String)
        ensures
            r@ == audit_error_text(*self),
    {
        match self {
            AuditError::Io(s) => concat2("audit.io: ", s.as_str()),
            AuditError::Malformed => String::from_str("audit.malformed"),
            AuditError::Canonical(s) => s.clone(),
        }
    }
}

/// The text of a `CheckpointError`.
pub open spec fn checkpoint_error_text(e: CheckpointError) -> Seq<char> {
    match e {
        CheckpointError::Io(s) => "checkpoint.io: "@ + s@,
        CheckpointError::Malformed => "checkpoint.malformed"@,
        CheckpointError::Signature => "checkpoint.signature-invalid"@,
        CheckpointError::Boundary => "checkpoint.boundary-mismatch"@,
        CheckpointError::Snapshot => "checkpoint.snapshot-mismatch"@,
        CheckpointError::Audit => "checkpoint.audit-mismatch"@,
        CheckpointError::Canonical(s) => s@,
    }
}

impl CheckpointError {
    /// The text of this error (see `checkpoint_error_text`).
    pub fn message(&self) -> (r: String)
        ensures
            r@ == checkpoint_error_text(*self),
    {
        match self {
            CheckpointError::Io(s) => concat2("checkpoint.io: ", s.as_str()),
            CheckpointError::Malformed => String::from_str("checkpoint.malformed"),
            CheckpointError::Signature => String::from_str("checkpoint.signature-invalid"),
            CheckpointError::Boundary => String::from_str("checkpoint.boundary-mismatch"),
            CheckpointError::Snapshot => String::from_str("checkpoint.snapshot-mismatch"),
            CheckpointError::Audit => String::from_str("checkpoint.audit-mismatch"),
            CheckpointError::Canonical(s) => s.clone(),
        }
    }
}

/// The text of a `AdmissionError`.
pub open spec fn admission_error_text(e: AdmissionError) -> Seq<char> {
    match e {
        AdmissionError::Capability => "admission.capability-unavailable"@,
        AdmissionError::Checkpoint(e) => "admission.checkpoint: "@ + checkpoint_error_text(e),
        AdmissionError::Audit(e) => "admission.audit: "@ + audit_error_text(e),
        AdmissionError::Nonce(e) => "admission.nonce: "@ + nonce_error_text(e),
        AdmissionError::State(e) => "admission.state: "@ + state_error_text(e),
    }
}

impl AdmissionError {
    /// The text of this error (see `admission_error_text`).
    pub fn message(&self) -> (r: String)
        ensures
            r@ == admission_error_text(*self),
    {
        match self {
            AdmissionError::Capability => String::from_str("admission.capability-unavailable"),
            AdmissionError::Checkpoint(e) => concat2("admission.checkpoint: ", e.message().as_str()),
            AdmissionError::Audit(e) => concat2("admission.audit: ", e.message().as_str()),
            AdmissionError::Nonce(e) => concat2("admission.nonce: ", e.message().as_str()),
            AdmissionError::State(e) => concat2("admission.state: ", e.message().as_str()),
        }
    }
}

/// The text of a `DeploymentError`.
pub open spec fn deployment_error_text(e: DeploymentError) -> Seq<char> {
    match e {
        DeploymentError::Malformed => "deployment.malformed"@,
        DeploymentError::Schema => "deployment.schema-unsupported"@,
        DeploymentError::Signature => "deployment.signature-invalid"@,
        DeploymentError::Expired => "deployment.expired"@,
        DeploymentError::Binding => "deployment.binding-mismatch"@,
        DeploymentError::Canonical(s) => s@,
    }
}

impl DeploymentError {
    /// The text of this error (see `deployment_error_text`).
    pub fn message(&self) -> (r: String)
        ensures
            r@ == deployment_error_text(*self),
    {
        match self {
            DeploymentError::Malformed => String::from_str("deployment.malformed"),
            DeploymentError::Schema => String::from_str("deployment.schema-unsupported"),
            DeploymentError::Signature => String::from_str("deployment.signature-invalid"),
            DeploymentError::Expired => String::from_str("deployment.expired"),
            DeploymentError::Binding => String::from_str("deployment.binding-mismatch"),
            DeploymentError::Canonical(s) => s.clone(),
        }
    }
}

/// The text of a `GitPushError`.
pub open spec fn git_push_error_text(e: GitPushError) -> Seq<char> {
    match e {
        GitPushError::Invalid => "git.push-invalid"@,
        GitPushError::Unavailable => "git.capability-unavailable"@,
        GitPushError::Execution(s) => "git.execution: "@ + s@,
        GitPushError::Nonzero => "git.nonzero"@,
        GitPushError::Timeout => "git.timeout"@,
    }
}

impl GitPushError {
    /// The text of this error (see `git_push_error_text`).
    pub fn message(&self) -> (r: String)
        ensures
            r@ == git_push_error_text(*self),
    {
        match self {
            GitPushError::Invalid => String::from_str("git.push-invalid"),
            GitPushError::Unavailable => String::from_str("git.capability-unavailable"),
            GitPushError::Execution(s) => concat2("git.execution: ", s.as_str()),
            GitPushError::Nonzero => String::from_str("git.nonzero"),
            GitPushError::Timeout => String::from_str("git.timeout"),
        }
    }
}

/// The text of a `HttpsError`.
pub open spec fn https_error_text(e: HttpsError) -> Seq<char> {
    match e {
        HttpsError::Invalid => "https.request-invalid"@,
        HttpsError::Unavailable => "https.capability-unavailable"@,
        HttpsError::Execution(s) => "https.execution: "@ + s@,
        HttpsError::Nonzero => "https.nonzero"@,
        HttpsError::Overflow => "https.response-overflow"@,
        HttpsError::Timeout => "https.timeout"@,
    }
}

impl HttpsError {
    /// The text of this error (see `https_error_text`).
    pub fn message(&self) -> (r: String)
        ensures
            r@ == https_error_text(*self),
    {
        match self {
            HttpsError::Invalid => String::from_str("https.request-invalid"),
            HttpsError::Unavailable => String::from_str("https.capability-unavailable"),
            HttpsError::Execution(s) => concat2("https.execution: ", s.as_str()),
            HttpsError::Nonzero => String::from_str("https.nonzero"),
            HttpsError::Overflow => String::from_str("https.response-overflow"),
            HttpsError::Timeout => String::from_str("https.timeout"),
        }
    }
}

/// The text of a `BubblewrapError`.
pub open spec fn bubblewrap_error_text(e: BubblewrapError) -> Seq<char> {
    match e {
        BubblewrapError::Invalid => "sandbox.command-invalid"@,
        BubblewrapError::Unavailable => "sandbox.capability-unavailable"@,
        BubblewrapError::Timeout => "sandbox.timeout"@,
        BubblewrapError::Overflow => "sandbox.output-overflow"@,
        BubblewrapError::Execution(s) => "sandbox.execution: "@ + s@,
    }
}

impl BubblewrapError {
    /// The text of this error (see `bubblewrap_error_text`).
    pub fn message(&self) -> (r: String)
        ensures
            r@ == bubblewrap_error_text(*self),
    {
        match self {
            BubblewrapError::Invalid => String::from_str("sandbox.command-invalid"),
            BubblewrapError::Unavailable => String::from_str("sandbox.capability-unavailable"),
            BubblewrapError::Timeout => String::from_str("sandbox.timeout"),
            BubblewrapError::Overflow => String::from_str("sandbox.output-overflow"),
            BubblewrapError::Execution(s) => concat2("sandbox.execution: ", s.as_str()),
        }
    }
}

/// The text of a `WorkspaceWriteError`.
pub open spec fn workspace_write_error_text(e: WorkspaceWriteError) -> Seq<char> {
    match e {
        WorkspaceWriteError::Root(s) => "workspace.root-unavailable: "@ + s@,
        WorkspaceWriteError::Target => "workspace.target-invalid"@,
        WorkspaceWriteError::TargetMismatch => "workspace.target-mismatch"@,
        WorkspaceWriteError::Binding => "workspace.binding-mismatch"@,
        WorkspaceWriteError::Replay => "workspace.replay"@,
        WorkspaceWriteError::Audit(s) => "workspace.audit: "@ + s@,
        WorkspaceWriteError::Write(s) => "workspace.write: "@ + s@,
    }
}

impl WorkspaceWriteError {
    /// The text of this error (see `workspace_write_error_text`).
    pub fn message(&self) -> (r: String)
        ensures
            r@ == workspace_write_error_text(*self),
    {
        match self {
            WorkspaceWriteError::Root(s) => concat2("workspace.root-unavailable: ", s.as_str()),
            WorkspaceWriteError::Target => String::from_str("workspace.target-invalid"),
            WorkspaceWriteError::TargetMismatch => String::from_str("workspace.target-mismatch"),
            WorkspaceWriteError::Binding => String::from_str("workspace.binding-mismatch"),
            WorkspaceWriteError::Replay => String::from_str("workspace.replay"),
            WorkspaceWriteError::Audit(s) => concat2("workspace.audit: ", s.as_str()),
            WorkspaceWriteError::Write(s) => concat2("workspace.write: ", s.as_str()),
        }
    }
}

/// The text of a `LayoutError`.
pub open spec fn layout_error_text(e: LayoutError) -> Seq<char> {
    match e {
        LayoutError::Io(s) => "layout.io: "@ + s@,
        LayoutError::Root(s) => "layout.root-unavailable: "@ + s@,
    }
}

impl LayoutError {
    /// The text of this error (see `layout_error_text`).
    pub fn message(&self) -> (r: String)
        ensures
            r@ == layout_error_text(*self),
    {
        match self {
            LayoutError::Io(s) => concat2("layout.io: ", s.as_str()),
            LayoutError::Root(s) => concat2("layout.root-unavailable: ", s.as_str()),
        }
    }
}

/// The text of a `DiscoveryError`.
pub open spec fn discovery_error_text(e: DiscoveryError) -> Seq<char> {
    match e {
        DiscoveryError::Io(s) => "kero.discovery.io: "@ + s@,
        DiscoveryError::Toml(s) => "kero.discovery.toml: "@ + s@,
        DiscoveryError::Encode(s) => "kero.discovery.encode: "@ + s@,
        DiscoveryError::HomeUnavailable => "kero.discovery.home-unavailable"@,
        DiscoveryError::GlobalUnconfigured => "kero.discovery.global-unconfigured: run `kero global init`"@,
        DiscoveryError::ProjectNotFound(s) => "kero.discovery.project-not-found: "@ + s@,
        DiscoveryError::IdentityMismatch { expected, actual, path } => "kero.discovery.identity-mismatch: expected "@ + expected@ + ", found "@ + actual@ + " at "@ + path@,
    }
}

impl DiscoveryError {
    /// The text of this error (see `discovery_error_text`).
    pub fn message(&self) -> (r: String)
        ensures
            r@ == discovery_error_text(*self),
    {
        match self {
            DiscoveryError::Io(s) => concat2("kero.discovery.io: ", s.as_str()),
            DiscoveryError::Toml(s) => concat2("kero.discovery.toml: ", s.as_str()),
            DiscoveryError::Encode(s) => concat2("kero.discovery.encode: ", s.as_str()),
            DiscoveryError::HomeUnavailable => String::from_str("kero.discovery.home-unavailable"),
            DiscoveryError::GlobalUnconfigured => String::from_str("kero.discovery.global-unconfigured: run `kero global init`"),
            DiscoveryError::ProjectNotFound(s) => concat2("kero.discovery.project-not-found: ", s.as_str()),
            DiscoveryError::IdentityMismatch { expected, actual, path } => {
                let a = concat3("kero.discovery.identity-mismatch: expected ", expected.as_str(), ", found ");
                let b = concat3(a.as_str(), actual.as_str(), " at ");
                concat2(b.as_str(), path.as_str())
            },
        }
    }
}

/// The text of a `SnapshotError`.
pub open spec fn snapshot_error_text(e: SnapshotError) -> Seq<char> {
    match e {
        SnapshotError::Io(s) => "snapshot.io: "@ + s@,
        SnapshotError::Serialization(s) => "snapshot.serialization: "@ + s@,
        SnapshotError::Canonical(s) => s@,
        SnapshotError::Schema => "snapshot.schema-unsupported"@,
        SnapshotError::Resolver => "snapshot.resolver-unsupported"@,
        SnapshotError::Digest => "snapshot.digest-mismatch"@,
        SnapshotError::CanonicalMismatch => "snapshot.canonical-mismatch"@,
        SnapshotError::Collision => "snapshot.immutable-collision"@,
        SnapshotError::PolicyInvalid(e) => "snapshot.policy-invalid: "@ + policy_load_error_text(e),
    }
}

impl SnapshotError {
    /// The text of this error (see `snapshot_error_text`).
    pub fn message(&self) -> (r: String)
        ensures
            r@ == snapshot_error_text(*self),
    {
        match self {
            SnapshotError::Io(s) => concat2("snapshot.io: ", s.as_str()),
            SnapshotError::Serialization(s) => concat2("snapshot.serialization: ", s.as_str()),
            SnapshotError::Canonical(s) => s.clone(),
            SnapshotError::Schema => String::from_str("snapshot.schema-unsupported"),
            SnapshotError::Resolver => String::from_str("snapshot.resolver-unsupported"),
            SnapshotError::Digest => String::from_str("snapshot.digest-mismatch"),
            SnapshotError::CanonicalMismatch => String::from_str("snapshot.canonical-mismatch"),
            SnapshotError::Collision => String::from_str("snapshot.immutable-collision"),
            SnapshotError::PolicyInvalid(e) => concat2("snapshot.policy-invalid: ", e.message().as_str()),
        }
    }
}

/// The text of a `RecoveryError`.
pub open spec fn recovery_error_text(e: RecoveryError) -> Seq<char> {
    match e {
        RecoveryError::Checkpoint(e) => "recovery.checkpoint: "@ + checkpoint_error_text(e),
        RecoveryError::Audit(e) => "recovery.audit: "@ + audit_error_text(e),
        RecoveryError::State(e) => "recovery.state: "@ + state_error_text(e),
    }
}

impl RecoveryError {
    /// The text of this error (see `recovery_error_text`).
    pub fn message(&self) -> (r: String)
        ensures
            r@ == recovery_error_text(*self),
    {
        match self {
            RecoveryError::Checkpoint(e) => concat2("recovery.checkpoint: ", e.message().as_str()),
            RecoveryError::Audit(e) => concat2("recovery.audit: ", e.message().as_str()),
            RecoveryError::State(e) => concat2("recovery.state: ", e.message().as_str()),
        }
    }
}

} // verus!
