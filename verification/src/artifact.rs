//! Signed authorization artifacts: issuing one from an allowing decision,
//! and verifying one at a native boundary without resolving policy again.
use crate::clock::{before_shifted, instant_lt, instant_minus, parse_rfc3339, rfc3339_instant};
use crate::crypto::{canonical_texts, hex_encode, lemma_signature_round_trip, hex_lower, jcs_texts_of, random_bytes, sha256, sha256_text, sign, signature_tag, signature_text, signature_valid, verify_signature};
use crate::json::{json_same, JsonValue};
use crate::policy::model::{canonical_text, AuthorizationRequest, PureAuthorizationResult, ScopeValue};
use crate::result::Authorization;
use vstd::prelude::*;

verus! {

/// How an artifact is authenticated.
#[derive(Clone, Debug, PartialEq, Eq)]
pub struct ArtifactAuthentication {
    pub mechanism: String,
    pub signature: String,
}

/// The policy decision an artifact carries.
#[derive(Clone, Debug, PartialEq, Eq)]
pub struct ArtifactAuthorization {
    pub decision: Authorization,
    pub reason: String,
}

/// The policy snapshot an artifact was issued against.
#[derive(Clone, Debug, PartialEq, Eq)]
pub struct SnapshotBinding {
    pub id: String,
    pub digest: String,
    pub schema: String,
    pub resolver_version: String,
}

/// A single-use authorization artifact.
#[derive(Debug)]
pub struct AuthorizationArtifact {
    pub schema: String,
    pub artifact_id: String,
    pub authorization: ArtifactAuthorization,
    pub request_id: String,
    pub request_digest: String,
    pub operation: String,
    pub principal: String,
    pub session_id: String,
    pub targets: Vec<String>,
    pub target_digest: String,
    pub trusted_context_digest: String,
    pub snapshot: SnapshotBinding,
    pub issued_at: String,
    pub expires_at: String,
    pub nonce: String,
    pub replay_policy: String,
    pub audience: String,
    pub boundary_generation: Option<u64>,
    pub execution_binding: JsonValue,
    pub execution_binding_digest: String,
    pub authentication: ArtifactAuthentication,
}

/// What a native boundary expects of the artifacts it admits: its
/// audience and operation, and where its key and snapshot are.
#[derive(Clone, Debug, PartialEq, Eq)]
pub struct ArtifactVerifier {
    expected_audience: String,
    expected_operation: String,
    key_path: String,
    snapshot_path: String,
}

/// The boundary's own expected identity and operation binding, from
/// broker-owned configuration, never from an artifact field alone.
#[derive(Debug)]
pub struct ArtifactBinding {
    pub principal: String,
    pub session_id: String,
    pub targets: Vec<String>,
    pub trusted_context_digest: String,
    pub execution_binding: JsonValue,
    pub boundary_generation: Option<u64>,
}

/// An artifact that passed verification.
#[derive(Debug)]
pub struct VerifiedArtifact {
    artifact: AuthorizationArtifact,
}

/// How to issue an artifact: its lifetime, the time now as `(seconds,
/// nanoseconds)`, its audience and its execution binding.
#[derive(Debug)]
pub struct ArtifactIssueOptions {
    pub ttl_seconds: u64,
    pub now: (i64, u32),
    pub audience: String,
    pub execution_binding: JsonValue,
    pub boundary_generation: Option<u64>,
}

/// Why an artifact cannot be issued or admitted.
#[derive(Clone, Debug, PartialEq, Eq)]
pub enum ArtifactError {
    ArtifactUnavailable(String),
    ArtifactMalformed(String),
    KeyUnavailable(String),
    KeyPermissions,
    KeyTooShort,
    Schema,
    Authentication,
    Signature,
    Audience,
    Operation,
    AuthorizationDenied,
    ReplayPolicy,
    ResolverBinding,
    SnapshotUnavailable(String),
    SnapshotDigest,
    Time,
    NotYetValid,
    Expired,
    TargetDigest,
    ExecutionBinding,
    Canonical(String),
}

/// A key file as read: its permission bits where the platform has them,
/// and its bytes.
#[derive(Clone, Debug)]
pub struct KeyFile {
    pub mode: Option<u32>,
    pub bytes: Vec<u8>,
}

/// The bytes ASCII counts as whitespace: space, tab, line feed, form
/// feed and carriage return.
pub open spec fn ascii_space(b: u8) -> bool {
    b == 32 || b == 9 || b == 10 || b == 12 || b == 13
}

/// How many whitespace bytes lead `s`.
pub open spec fn leading_space(s: Seq<u8>) -> int
    decreases s.len(),
{
    if s.len() == 0 || !ascii_space(s[0]) {
        0
    } else {
        1 + leading_space(s.drop_first())
    }
}

/// How many whitespace bytes end `s`.
pub open spec fn trailing_space(s: Seq<u8>) -> int
    decreases s.len(),
{
    if s.len() == 0 || !ascii_space(s.last()) {
        0
    } else {
        1 + trailing_space(s.drop_last())
    }
}

/// `s` without its leading and trailing ASCII whitespace.
pub open spec fn trimmed(s: Seq<u8>) -> Seq<u8> {
    let t = s.skip(leading_space(s));
    t.take(t.len() - trailing_space(t))
}

proof fn lemma_leading(s: Seq<u8>, i: int)
    requires
        0 <= i <= s.len(),
        forall|j: int| 0 <= j < i ==> ascii_space(#[trigger] s[j]),
        i == s.len() || !ascii_space(s[i]),
    ensures
        leading_space(s) == i,
    decreases i,
{
    if i > 0 {
        assert forall|j: int| 0 <= j < i - 1 implies ascii_space(#[trigger] s.drop_first()[j]) by {
            assert(s.drop_first()[j] == s[j + 1]);
        }
        if i - 1 < s.drop_first().len() {
            assert(s.drop_first()[i - 1] == s[i]);
        }
        lemma_leading(s.drop_first(), i - 1);
    }
}

proof fn lemma_trailing(s: Seq<u8>, k: int)
    requires
        0 <= k <= s.len(),
        forall|j: int| s.len() - k <= j < s.len() ==> ascii_space(#[trigger] s[j]),
        k == s.len() || !ascii_space(s[s.len() - k - 1]),
    ensures
        trailing_space(s) == k,
    decreases k,
{
    if k > 0 {
        let d = s.drop_last();
        assert forall|j: int| d.len() - (k - 1) <= j < d.len() implies ascii_space(#[trigger] d[j]) by {
            assert(d[j] == s[j]);
        }
        if k - 1 < d.len() {
            assert(d[d.len() - (k - 1) - 1] == s[s.len() - k - 1]);
        }
        assert(ascii_space(s[s.len() - 1]));
        lemma_trailing(d, k - 1);
    }
}

/// `bytes` without leading and trailing ASCII whitespace.
pub fn trim_ascii(bytes: &[u8]) -> (r: Vec<u8>)
    ensures
        r@ == trimmed(bytes@),
{
    let n = bytes.len();
    let mut start: usize = 0;
    while start < n && (bytes[start] == 32 || bytes[start] == 9 || bytes[start] == 10 || bytes[start] == 12
        || bytes[start] == 13)
        invariant
            n == bytes@.len(),
            start <= n,
            forall|j: int| 0 <= j < start ==> ascii_space(#[trigger] bytes@[j]),
        decreases n - start,
    {
        start = start + 1;
    }
    proof {
        lemma_leading(bytes@, start as int);
    }
    let mut end: usize = n;
    while end > start && (bytes[end - 1] == 32 || bytes[end - 1] == 9 || bytes[end - 1] == 10 || bytes[end
        - 1] == 12 || bytes[end - 1] == 13)
        invariant
            n == bytes@.len(),
            start <= end <= n,
            forall|j: int| end <= j < n ==> ascii_space(#[trigger] bytes@[j]),
        decreases end - start,
    {
        end = end - 1;
    }
    let ghost t = bytes@.skip(start as int);
    proof {
        let k = n - end;
        assert forall|j: int| t.len() - k <= j < t.len() implies ascii_space(#[trigger] t[j]) by {
            assert(t[j] == bytes@[start + j]);
        }
        if k < t.len() {
            assert(t[t.len() - k - 1] == bytes@[end - 1]);
        }
        lemma_trailing(t, k as int);
    }
    let mut out: Vec<u8> = Vec::new();
    let mut i: usize = start;
    while i < end
        invariant
            start <= i <= end <= n,
            n == bytes@.len(),
            out@ == bytes@.subrange(start as int, i as int),
        decreases end - i,
    {
        out.push(bytes[i]);
        assert(out@ =~= bytes@.subrange(start as int, i + 1));
        i = i + 1;
    }
    assert(out@ =~= t.take(t.len() - (n - end)));
    out
}

/// The key a key file gives: refused when group or others may read it,
/// then trimmed, and refused when shorter than 32 bytes.
pub open spec fn key_from(file: KeyFile) -> Result<Seq<u8>, ArtifactError> {
    if file.mode matches Some(m) && m & 63u32 != 0 {
        Err(ArtifactError::KeyPermissions)
    } else if trimmed(file.bytes@).len() < 32 {
        Err(ArtifactError::KeyTooShort)
    } else {
        Ok(trimmed(file.bytes@))
    }
}

/// Reads a key from its file (see `key_from`); a file that could not be
/// read is `KeyUnavailable`.
pub fn read_key(file: &Result<KeyFile, String>) -> (r: Result<Vec<u8>, ArtifactError>)
    ensures
        match *file {
            Err(m) => r == Err::<Vec<u8>, ArtifactError>(ArtifactError::KeyUnavailable(m)),
            Ok(f) => match key_from(f) {
                Ok(k) => r matches Ok(v) && v@ == k,
                Err(e) => r == Err::<Vec<u8>, ArtifactError>(e),
            },
        },
{
    let f = match file {
        Err(m) => return Err(ArtifactError::KeyUnavailable(m.clone())),
        Ok(f) => f,
    };
    match f.mode {
        Some(m) => {
            if m & 63u32 != 0 {
                return Err(ArtifactError::KeyPermissions);
            }
        },
        None => {},
    }
    let key = trim_ascii(f.bytes.as_slice());
    if key.len() < 32 {
        return Err(ArtifactError::KeyTooShort);
    }
    Ok(key)
}

/// The schema of an authorization artifact.
pub open spec fn artifact_schema() -> Seq<char> {
    "terminal-enforcement/authorization-artifact/v1"@
}

/// What a boundary has read for verifying an artifact: its key file, the
/// canonical JSON (RFC 8785) bytes of `payload::artifact_payload` of the
/// artifact (every field but its authentication, which is what the
/// signature covers), the snapshot, and the canonical JSON bytes of the
/// artifact's execution binding. Each is the reading or what failed.
#[derive(Debug)]
pub struct ArtifactEvidence {
    pub key: Result<KeyFile, String>,
    pub payload: Result<Vec<u8>, String>,
    pub snapshot: Result<Vec<u8>, String>,
    pub execution_binding: Result<Vec<u8>, String>,
}

/// The key the evidence gives, or why it gives none.
pub open spec fn evidence_key(key: Result<KeyFile, String>) -> Result<Seq<u8>, ArtifactError> {
    match key {
        Err(m) => Err(ArtifactError::KeyUnavailable(m)),
        Ok(f) => key_from(f),
    }
}

/// The checks a boundary makes of an artifact after its signature: its
/// audience and operation, the decision, the replay policy, the resolver
/// binding, the snapshot digest, its window at `now`, and its two digests.
pub open spec fn artifact_checks(
    v: ArtifactVerifier,
    a: AuthorizationArtifact,
    now: (i64, u32),
    ev: ArtifactEvidence,
) -> Result<(), ArtifactError> {
    if a.audience@ != v@.0 {
        Err(ArtifactError::Audience)
    } else if a.operation@ != v@.1 || a.targets@.len() != 1 {
        Err(ArtifactError::Operation)
    } else if a.authorization.decision != Authorization::Allow {
        Err(ArtifactError::AuthorizationDenied)
    } else if a.replay_policy@ != "single-use"@ {
        Err(ArtifactError::ReplayPolicy)
    } else if a.snapshot.schema@ != "terminal-policy/snapshot/v1"@ || a.snapshot.resolver_version@
        != "terminal-policy-resolver/v1"@ {
        Err(ArtifactError::ResolverBinding)
    } else {
        match ev.snapshot {
            Err(m) => Err(ArtifactError::SnapshotUnavailable(m)),
            Ok(snap) => if sha256_text(snap@) != a.snapshot.digest@ {
                Err(ArtifactError::SnapshotDigest)
            } else {
                match (rfc3339_instant(a.issued_at@), rfc3339_instant(a.expires_at@)) {
                    (Some(issued), Some(expires)) => if before_shifted(now, instant_minus(issued, 5)) {
                        Err(ArtifactError::NotYetValid)
                    } else if instant_lt(expires, now) {
                        Err(ArtifactError::Expired)
                    } else if sha256_text(jcs_texts_of(a.targets.deep_view())) != a.target_digest@ {
                        Err(ArtifactError::TargetDigest)
                    } else {
                        match ev.execution_binding {
                            Err(m) => Err(ArtifactError::Canonical(m)),
                            Ok(b) => if sha256_text(b@) != a.execution_binding_digest@ {
                                Err(ArtifactError::ExecutionBinding)
                            } else {
                                Ok(())
                            },
                        }
                    },
                    _ => Err(ArtifactError::Time),
                }
            },
        }
    }
}

/// What verifying an artifact gives: its schema and authentication
/// mechanism, the key, the signature over its payload, then
/// `artifact_checks`.
pub open spec fn verify_outcome(
    v: ArtifactVerifier,
    a: AuthorizationArtifact,
    now: (i64, u32),
    ev: ArtifactEvidence,
) -> Result<(), ArtifactError> {
    if a.schema@ != artifact_schema() {
        Err(ArtifactError::Schema)
    } else if a.authentication.mechanism@ != "hmac-sha256/v1"@ {
        Err(ArtifactError::Authentication)
    } else {
        match evidence_key(ev.key) {
            Err(e) => Err(e),
            Ok(key) => if signature_tag(a.authentication.signature@) is None {
                Err(ArtifactError::Signature)
            } else {
                match ev.payload {
                    Err(m) => Err(ArtifactError::Canonical(m)),
                    Ok(p) => if !signature_valid(key, p@, a.authentication.signature@) {
                        Err(ArtifactError::Signature)
                    } else {
                        artifact_checks(v, a, now, ev)
                    },
                }
            },
        }
    }
}

impl View for VerifiedArtifact {
    type V = AuthorizationArtifact;

    closed spec fn view(&self) -> AuthorizationArtifact {
        self.artifact
    }
}

impl VerifiedArtifact {
    /// The artifact that passed.
    pub fn artifact(&self) -> (r: &AuthorizationArtifact)
        ensures
            *r == self@,
    {
        &self.artifact
    }
}

/// A verifier as its expected audience, expected operation, key path and
/// snapshot path.
impl View for ArtifactVerifier {
    type V = (Seq<char>, Seq<char>, Seq<char>, Seq<char>);

    closed spec fn view(&self) -> (Seq<char>, Seq<char>, Seq<char>, Seq<char>) {
        (self.expected_audience@, self.expected_operation@, self.key_path@, self.snapshot_path@)
    }
}

fn text_list_equal(a: &Vec<String>, b: &Vec<String>) -> (r: bool)
    ensures
        r == (a.deep_view() == b.deep_view()),
{
    if a.len() != b.len() {
        assert(a.deep_view().len() != b.deep_view().len());
        return false;
    }
    let mut i: usize = 0;
    while i < a.len()
        invariant
            a.len() == b.len(),
            i <= a.len(),
            forall|j: int| 0 <= j < i ==> a.deep_view()[j] == b.deep_view()[j],
        decreases a.len() - i,
    {
        if !crate::text::text_eq(a[i].as_str(), b[i].as_str()) {
            assert(a.deep_view()[i as int] != b.deep_view()[i as int]);
            return false;
        }
        i = i + 1;
    }
    assert(a.deep_view() =~= b.deep_view());
    true
}

/// The artifact matches the boundary's own binding.
pub open spec fn binding_matches(a: AuthorizationArtifact, b: ArtifactBinding) -> bool {
    &&& a.principal@ == b.principal@
    &&& a.session_id@ == b.session_id@
    &&& a.targets.deep_view() == b.targets.deep_view()
    &&& a.trusted_context_digest@ == b.trusted_context_digest@
    &&& a.boundary_generation == b.boundary_generation
    &&& json_same(a.execution_binding, b.execution_binding)
}

impl ArtifactVerifier {
    pub fn new(
        expected_audience: String,
        expected_operation: String,
        key_path: String,
        snapshot_path: String,
    ) -> (r: ArtifactVerifier)
        ensures
            r@ == (expected_audience@, expected_operation@, key_path@, snapshot_path@),
    {
        ArtifactVerifier { expected_audience, expected_operation, key_path, snapshot_path }
    }

    /// Where the boundary's key is.
    pub fn key_path(&self) -> (r: &str)
        ensures
            r@ == self@.2,
    {
        self.key_path.as_str()
    }

    /// Where the policy snapshot is.
    pub fn snapshot_path(&self) -> (r: &str)
        ensures
            r@ == self@.3,
    {
        self.snapshot_path.as_str()
    }

    fn checks(&self, a: &AuthorizationArtifact, now: (i64, u32), ev: &ArtifactEvidence) -> (r: Result<
        (),
        ArtifactError,
    >)
        ensures
            r == artifact_checks(*self, *a, now, *ev),
    {
        if !crate::text::text_eq(a.audience.as_str(), self.expected_audience.as_str()) {
            return Err(ArtifactError::Audience);
        }
        if !crate::text::text_eq(a.operation.as_str(), self.expected_operation.as_str()) || a.targets.len()
            != 1 {
            return Err(ArtifactError::Operation);
        }
        if a.authorization.decision != Authorization::Allow {
            return Err(ArtifactError::AuthorizationDenied);
        }
        if !crate::text::text_eq(a.replay_policy.as_str(), "single-use") {
            return Err(ArtifactError::ReplayPolicy);
        }
        if !crate::text::text_eq(a.snapshot.schema.as_str(), "terminal-policy/snapshot/v1")
            || !crate::text::text_eq(a.snapshot.resolver_version.as_str(), "terminal-policy-resolver/v1") {
            return Err(ArtifactError::ResolverBinding);
        }
        let snap = match &ev.snapshot {
            Err(m) => return Err(ArtifactError::SnapshotUnavailable(m.clone())),
            Ok(b) => b,
        };
        if !crate::text::text_eq(sha256(snap.as_slice()).as_str(), a.snapshot.digest.as_str()) {
            return Err(ArtifactError::SnapshotDigest);
        }
        let issued = match parse_rfc3339(a.issued_at.as_str()) {
            None => return Err(ArtifactError::Time),
            Some(t) => t,
        };
        let expires = match parse_rfc3339(a.expires_at.as_str()) {
            None => return Err(ArtifactError::Time),
            Some(t) => t,
        };
        let shifted: i128 = issued.0 as i128 - 5;
        if (now.0 as i128) < shifted || ((now.0 as i128) == shifted && now.1 < issued.1) {
            return Err(ArtifactError::NotYetValid);
        }
        if crate::clock::is_before(expires, now) {
            return Err(ArtifactError::Expired);
        }
        let targets = canonical_texts(&a.targets);
        if !crate::text::text_eq(sha256(targets.as_slice()).as_str(), a.target_digest.as_str()) {
            return Err(ArtifactError::TargetDigest);
        }
        let binding = match &ev.execution_binding {
            Err(m) => return Err(ArtifactError::Canonical(m.clone())),
            Ok(b) => b,
        };
        if !crate::text::text_eq(sha256(binding.as_slice()).as_str(), a.execution_binding_digest.as_str()) {
            return Err(ArtifactError::ExecutionBinding);
        }
        Ok(())
    }

    /// Verifies an artifact at `now` (see `verify_outcome`) without
    /// resolving policy again.
    pub fn verify(&self, artifact: AuthorizationArtifact, now: (i64, u32), evidence: &ArtifactEvidence) -> (r:
        Result<VerifiedArtifact, ArtifactError>)
        ensures
            match verify_outcome(*self, artifact, now, *evidence) {
                Ok(_) => r matches Ok(v) && v@ == artifact,
                Err(e) => r matches Err(x) && x == e,
            },
    {
        if !crate::text::text_eq(artifact.schema.as_str(), "terminal-enforcement/authorization-artifact/v1") {
            return Err(ArtifactError::Schema);
        }
        if !crate::text::text_eq(artifact.authentication.mechanism.as_str(), "hmac-sha256/v1") {
            return Err(ArtifactError::Authentication);
        }
        let key = match read_key(&evidence.key) {
            Err(e) => return Err(e),
            Ok(k) => k,
        };
        if crate::crypto::signature_bytes(artifact.authentication.signature.as_str()).is_none() {
            return Err(ArtifactError::Signature);
        }
        let payload = match &evidence.payload {
            Err(m) => return Err(ArtifactError::Canonical(m.clone())),
            Ok(p) => p,
        };
        if !verify_signature(key.as_slice(), payload.as_slice(), artifact.authentication.signature.as_str()) {
            return Err(ArtifactError::Signature);
        }
        match self.checks(&artifact, now, evidence) {
            Err(e) => return Err(e),
            Ok(_) => {},
        }
        Ok(VerifiedArtifact { artifact })
    }

    /// Verifies an artifact and then that it matches the boundary's own
    /// binding: principal, session, targets, trusted context, generation
    /// and execution binding (`ExecutionBinding` otherwise).
    pub fn verify_bound(
        &self,
        artifact: AuthorizationArtifact,
        now: (i64, u32),
        evidence: &ArtifactEvidence,
        expected: &ArtifactBinding,
    ) -> (r: Result<VerifiedArtifact, ArtifactError>)
        ensures
            match verify_outcome(*self, artifact, now, *evidence) {
                Ok(_) => if binding_matches(artifact, *expected) {
                    r matches Ok(v) && v@ == artifact
                } else {
                    r matches Err(ArtifactError::ExecutionBinding)
                },
                Err(e) => r matches Err(x) && x == e,
            },
    {
        let verified = match self.verify(artifact, now, evidence) {
            Err(e) => return Err(e),
            Ok(v) => v,
        };
        let a = verified.artifact();
        if !crate::text::text_eq(a.principal.as_str(), expected.principal.as_str())
            || !crate::text::text_eq(a.session_id.as_str(), expected.session_id.as_str())
            || !text_list_equal(&a.targets, &expected.targets)
            || !crate::text::text_eq(a.trusted_context_digest.as_str(), expected.trusted_context_digest.as_str())
            || a.boundary_generation != expected.boundary_generation
            || !crate::json::json_eq(&a.execution_binding, &expected.execution_binding) {
            return Err(ArtifactError::ExecutionBinding);
        }
        Ok(verified)
    }
}

/// What issuing reads besides the decision and the request: the snapshot,
/// and the canonical JSON (RFC 8785) bytes of `payload::request_wire` of the
/// request, of its context evidence, and of the execution binding; each the
/// bytes or what failed.
#[derive(Debug)]
pub struct IssueEvidence {
    pub snapshot: Result<Vec<u8>, String>,
    pub request_wire: Result<Vec<u8>, String>,
    pub context: Result<Vec<u8>, String>,
    pub execution_binding: Result<Vec<u8>, String>,
}

/// The canonical texts of the request's targets.
pub open spec fn request_targets(request: AuthorizationRequest) -> Seq<Seq<char>> {
    request.targets@.map_values(|t: ScopeValue| canonical_text(t.kind@, t.expression@))
}

/// The request's session id: the text of its `id` entry, if that is a
/// non-empty string.
pub open spec fn session_id_of(request: AuthorizationRequest) -> Option<Seq<char>> {
    let s = request.session@;
    if exists|i: int| 0 <= i < s.len() && (#[trigger] s[i]).0@ == "id"@ {
        let i = choose|i: int| 0 <= i < s.len() && (#[trigger] s[i]).0@ == "id"@ && forall|j: int|
            0 <= j < i ==> (#[trigger] s[j]).0@ != "id"@;
        match s[i].1 {
            JsonValue::Text(t) => if t@.len() > 0 {
                Some(t@)
            } else {
                None
            },
            _ => None,
        }
    } else {
        None
    }
}

/// The checks made before anything is drawn at random: an allowing
/// decision of the right schema for a request of the right schema and a
/// lifetime of 1 to 3600 seconds; the decision made for exactly this
/// request and its single target; the snapshot it was made against; and a
/// session id.
pub open spec fn issue_precheck(
    decision: PureAuthorizationResult,
    request: AuthorizationRequest,
    ttl_seconds: u64,
    evidence: IssueEvidence,
) -> Result<Seq<char>, ArtifactError> {
    if !(1 <= ttl_seconds <= 3600) || decision.schema@ != "terminal-policy/authorization-result/v1"@
        || request.schema@ != "terminal-policy/request/v1"@ || decision.decision@ != "ALLOW"@ {
        Err(ArtifactError::AuthorizationDenied)
    } else if decision.request_id@ != request.request_id@ || decision.principal@ != request.principal@
        || decision.operation@ != request.operation@ || decision.targets.deep_view() != request_targets(
        request,
    ) || request.targets@.len() != 1 {
        Err(ArtifactError::Operation)
    } else {
        match evidence.snapshot {
            Err(m) => Err(ArtifactError::SnapshotUnavailable(m)),
            Ok(snap) => if sha256_text(snap@) != decision.snapshot.digest@ {
                Err(ArtifactError::SnapshotDigest)
            } else {
                match session_id_of(request) {
                    None => Err(ArtifactError::Operation),
                    Some(id) => Ok(id),
                }
            },
        }
    }
}

/// The checks made after: the request and context digests, the two times,
/// and the execution binding digest.
pub open spec fn issue_postcheck(now: (i64, u32), ttl_seconds: u64, evidence: IssueEvidence) -> Result<
    (),
    ArtifactError,
> {
    match evidence.request_wire {
        Err(m) => Err(ArtifactError::Canonical(m)),
        Ok(_) => match evidence.context {
            Err(m) => Err(ArtifactError::Canonical(m)),
            Ok(_) => if crate::clock::utc_seconds_text(now.0) is None || !(now.0 + ttl_seconds
                <= i64::MAX) || crate::clock::utc_seconds_text((now.0 + ttl_seconds) as i64) is None {
                Err(ArtifactError::Time)
            } else {
                match evidence.execution_binding {
                    Err(m) => Err(ArtifactError::Canonical(m)),
                    Ok(_) => Ok(()),
                }
            },
        },
    }
}

/// `a` is the unsigned artifact issued for the decision and request, with
/// session id `session` and the random bytes `rnd`.
pub open spec fn issued_as(
    a: AuthorizationArtifact,
    decision: PureAuthorizationResult,
    request: AuthorizationRequest,
    options: ArtifactIssueOptions,
    evidence: IssueEvidence,
    session: Seq<char>,
    rnd: Seq<u8>,
) -> bool {
    &&& a.schema@ == artifact_schema()
    &&& a.artifact_id@ == "artifact."@ + hex_lower(rnd.take(16))
    &&& a.authorization.decision == Authorization::Allow
    &&& a.authorization.reason@ == decision.reason@
    &&& a.request_id@ == request.request_id@
    &&& evidence.request_wire matches Ok(w) && a.request_digest@ == sha256_text(w@)
    &&& a.operation@ == request.operation@
    &&& a.principal@ == request.principal@
    &&& a.session_id@ == session
    &&& a.targets.deep_view() == request_targets(request)
    &&& a.target_digest@ == sha256_text(jcs_texts_of(request_targets(request)))
    &&& evidence.context matches Ok(c) && a.trusted_context_digest@ == sha256_text(c@)
    &&& a.snapshot.id@ == decision.snapshot.id@
    &&& a.snapshot.digest@ == decision.snapshot.digest@
    &&& a.snapshot.schema@ == decision.snapshot.schema@
    &&& a.snapshot.resolver_version@ == decision.snapshot.resolver_version@
    &&& crate::clock::utc_seconds_text(options.now.0) == Some(a.issued_at@)
    &&& crate::clock::four_digit_year(options.now.0 as int) ==> rfc3339_instant(a.issued_at@) == Some(
        (options.now.0, 0u32),
    )
    &&& crate::clock::four_digit_year(options.now.0 + options.ttl_seconds) ==> rfc3339_instant(
        a.expires_at@,
    ) == Some(((options.now.0 + options.ttl_seconds) as i64, 0u32))
    &&& crate::clock::utc_seconds_text((options.now.0 + options.ttl_seconds) as i64) == Some(
        a.expires_at@,
    )
    &&& a.nonce@ == hex_lower(rnd)
    &&& a.replay_policy@ == "single-use"@
    &&& a.audience == options.audience
    &&& a.boundary_generation == options.boundary_generation
    &&& a.execution_binding == options.execution_binding
    &&& evidence.execution_binding matches Ok(b) && a.execution_binding_digest@ == sha256_text(b@)
    &&& a.authentication.mechanism@ == "hmac-sha256/v1"@
    &&& a.authentication.signature@ == Seq::<char>::empty()
}

fn session_id(request: &AuthorizationRequest) -> (r: Option<String>)
    ensures
        match session_id_of(*request) {
            Some(t) => r matches Some(x) && x@ == t,
            None => r is None,
        },
{
    let ghost s = request.session@;
    let mut i: usize = 0;
    while i < request.session.len()
        invariant
            s == request.session@,
            i <= s.len(),
            forall|j: int| 0 <= j < i ==> (#[trigger] s[j]).0@ != "id"@,
        decreases request.session.len() - i,
    {
        if crate::text::text_eq(request.session[i].0.as_str(), "id") {
            proof {
                let k = choose|k: int| 0 <= k < s.len() && (#[trigger] s[k]).0@ == "id"@ && forall|j: int|
                    0 <= j < k ==> (#[trigger] s[j]).0@ != "id"@;
                if k < i {
                    assert(s[k].0@ != "id"@);
                } else if k > i {
                    assert(s[i as int].0@ != "id"@);
                }
            }
            return match &request.session[i].1 {
                JsonValue::Text(t) => if t.unicode_len() > 0 {
                    Some(t.clone())
                } else {
                    None
                },
                _ => None,
            };
        }
        i = i + 1;
    }
    None
}

pub(crate) fn canonical_request_targets(request: &AuthorizationRequest) -> (r: Vec<String>)
    ensures
        r.deep_view() == request_targets(*request),
{
    let mut out: Vec<String> = Vec::new();
    let mut i: usize = 0;
    while i < request.targets.len()
        invariant
            i <= request.targets@.len(),
            out.deep_view() == request_targets(*request).take(i as int),
        decreases request.targets.len() - i,
    {
        let ghost before = out.deep_view();
        let c = request.targets[i].canonical();
        out.push(c);
        assert(out.deep_view() =~= before.push(c@));
        assert(out.deep_view() =~= request_targets(*request).take(i + 1));
        i = i + 1;
    }
    assert(request_targets(*request).take(i as int) =~= request_targets(*request));
    out
}

fn prefix_bytes(v: &Vec<u8>, n: usize) -> (r: Vec<u8>)
    requires
        n <= v@.len(),
    ensures
        r@ == v@.take(n as int),
{
    let mut out: Vec<u8> = Vec::new();
    let mut i: usize = 0;
    while i < n
        invariant
            n <= v@.len(),
            i <= n,
            out@ == v@.take(i as int),
        decreases n - i,
    {
        out.push(v[i]);
        assert(out@ =~= v@.take(i + 1));
        i = i + 1;
    }
    out
}

/// The checks made before anything random is drawn (see
/// `issue_precheck`): gives the request's session id and its canonical
/// targets.
fn precheck(
    decision: &PureAuthorizationResult,
    request: &AuthorizationRequest,
    ttl_seconds: u64,
    evidence: &IssueEvidence,
) -> (r: Result<(String, Vec<String>), ArtifactError>)
    ensures
        match issue_precheck(*decision, *request, ttl_seconds, *evidence) {
            Err(e) => r matches Err(x) && x == e,
            Ok(session) => r matches Ok((s, t)) && s@ == session && t.deep_view() == request_targets(*request),
        },
{
    if !(1 <= ttl_seconds && ttl_seconds <= 3600)
        || !crate::text::text_eq(decision.schema.as_str(), "terminal-policy/authorization-result/v1")
        || !crate::text::text_eq(request.schema.as_str(), "terminal-policy/request/v1")
        || !crate::text::text_eq(decision.decision.as_str(), "ALLOW") {
        return Err(ArtifactError::AuthorizationDenied);
    }
    let targets = canonical_request_targets(request);
    assert(targets.deep_view().len() == request.targets@.len());
    if !crate::text::text_eq(decision.request_id.as_str(), request.request_id.as_str())
        || !crate::text::text_eq(decision.principal.as_str(), request.principal.as_str())
        || !crate::text::text_eq(decision.operation.as_str(), request.operation.as_str())
        || !text_list_equal(&decision.targets, &targets) || targets.len() != 1 {
        return Err(ArtifactError::Operation);
    }
    let snap = match &evidence.snapshot {
        Err(m) => return Err(ArtifactError::SnapshotUnavailable(m.clone())),
        Ok(b) => b,
    };
    if !crate::text::text_eq(sha256(snap.as_slice()).as_str(), decision.snapshot.digest.as_str()) {
        return Err(ArtifactError::SnapshotDigest);
    }
    match session_id(request) {
        None => Err(ArtifactError::Operation),
        Some(s) => Ok((s, targets)),
    }
}

/// Issues an unsigned artifact for an allowing decision (see
/// `issue_precheck`, `issue_postcheck` and `issued_as`) from 32 random
/// bytes `random`, which become its nonce, the first 16 also its id. The
/// caller signs it with `sign_artifact`.
pub fn issue_with_random(
    decision: &PureAuthorizationResult,
    request: &AuthorizationRequest,
    options: ArtifactIssueOptions,
    evidence: &IssueEvidence,
    random: &[u8],
) -> (r: Result<AuthorizationArtifact, ArtifactError>)
    requires
        random@.len() == 32,
    ensures
        match issue_precheck(*decision, *request, options.ttl_seconds, *evidence) {
            Err(e) => r matches Err(x) && x == e,
            Ok(session) => match issue_postcheck(options.now, options.ttl_seconds, *evidence) {
                Err(e) => r matches Err(x) && x == e,
                Ok(_) => r matches Ok(a) && issued_as(
                    a,
                    *decision,
                    *request,
                    options,
                    *evidence,
                    session,
                    random@,
                ),
            },
        },
{
    let (session, targets) = match precheck(decision, request, options.ttl_seconds, evidence) {
        Err(e) => return Err(e),
        Ok(x) => x,
    };
    let random = slice_to_vec(random);
    let head = prefix_bytes(&random, 16);
    let artifact_id = crate::text::concat2("artifact.", hex_encode(head.as_slice()).as_str());
    let nonce = hex_encode(random.as_slice());
    let request_digest = match &evidence.request_wire {
        Err(m) => return Err(ArtifactError::Canonical(m.clone())),
        Ok(w) => sha256(w.as_slice()),
    };
    let target_digest = sha256(canonical_texts(&targets).as_slice());
    let context_digest = match &evidence.context {
        Err(m) => return Err(ArtifactError::Canonical(m.clone())),
        Ok(c) => sha256(c.as_slice()),
    };
    let issued_at = match crate::clock::format_utc_seconds(options.now.0) {
        None => return Err(ArtifactError::Time),
        Some(t) => t,
    };
    if options.now.0 > i64::MAX - options.ttl_seconds as i64 {
        return Err(ArtifactError::Time);
    }
    let expires_at = match crate::clock::format_utc_seconds(options.now.0 + options.ttl_seconds as i64) {
        None => return Err(ArtifactError::Time),
        Some(t) => t,
    };
    let binding_digest = match &evidence.execution_binding {
        Err(m) => return Err(ArtifactError::Canonical(m.clone())),
        Ok(b) => sha256(b.as_slice()),
    };
    let a = AuthorizationArtifact {
        schema: String::from_str("terminal-enforcement/authorization-artifact/v1"),
        artifact_id,
        authorization: ArtifactAuthorization {
            decision: Authorization::Allow,
            reason: decision.reason.clone(),
        },
        request_id: request.request_id.clone(),
        request_digest,
        operation: request.operation.clone(),
        principal: request.principal.clone(),
        session_id: session,
        targets,
        target_digest,
        trusted_context_digest: context_digest,
        snapshot: SnapshotBinding {
            id: decision.snapshot.id.clone(),
            digest: decision.snapshot.digest.clone(),
            schema: decision.snapshot.schema.clone(),
            resolver_version: decision.snapshot.resolver_version.clone(),
        },
        issued_at,
        expires_at,
        nonce,
        replay_policy: String::from_str("single-use"),
        audience: options.audience,
        boundary_generation: options.boundary_generation,
        execution_binding: options.execution_binding,
        execution_binding_digest: binding_digest,
        authentication: ArtifactAuthentication {
            mechanism: String::from_str("hmac-sha256/v1"),
            signature: String::new(),
        },
    };
    assert(issued_as(a, *decision, *request, options, *evidence, session@, random@));
    Ok(a)
}

/// Issues an unsigned artifact for an allowing decision: the checks of
/// `issue_precheck` first, then 32 bytes drawn from the system's random
/// source, then `issue_with_random`. Issuing fails with `Authentication`
/// exactly when the random source fails.
pub fn issue_artifact(
    decision: &PureAuthorizationResult,
    request: &AuthorizationRequest,
    options: ArtifactIssueOptions,
    evidence: &IssueEvidence,
) -> (r: Result<AuthorizationArtifact, ArtifactError>)
    ensures
        match issue_precheck(*decision, *request, options.ttl_seconds, *evidence) {
            Err(e) => r matches Err(x) && x == e,
            Ok(session) => (r matches Err(ArtifactError::Authentication)) || match issue_postcheck(
                options.now,
                options.ttl_seconds,
                *evidence,
            ) {
                Err(e) => r matches Err(x) && x == e,
                Ok(_) => r matches Ok(a) && exists|rnd: Seq<u8>|
                    rnd.len() == 32 && issued_as(a, *decision, *request, options, *evidence, session, rnd),
            },
        },
{
    match precheck(decision, request, options.ttl_seconds, evidence) {
        Err(e) => return Err(e),
        Ok(_) => {},
    }
    let random = match random_bytes(32) {
        None => return Err(ArtifactError::Authentication),
        Some(b) => b,
    };
    issue_with_random(decision, request, options, evidence, random.as_slice())
}

fn slice_to_vec(v: &[u8]) -> (r: Vec<u8>)
    ensures
        r@ == v@,
{
    let mut out: Vec<u8> = Vec::new();
    let mut i: usize = 0;
    while i < v.len()
        invariant
            i <= v@.len(),
            out@ == v@.take(i as int),
        decreases v.len() - i,
    {
        out.push(v[i]);
        assert(out@ =~= v@.take(i + 1));
        i = i + 1;
    }
    assert(out@ =~= v@);
    out
}

/// Signs an issued artifact: its signature becomes the HMAC under `key`
/// of `payload`, the canonical JSON bytes of `payload::artifact_payload`
/// of the artifact.
pub fn sign_artifact(artifact: AuthorizationArtifact, key: &[u8], payload: &[u8]) -> (r: AuthorizationArtifact)
    ensures
        r == (AuthorizationArtifact {
            authentication: ArtifactAuthentication {
                mechanism: artifact.authentication.mechanism,
                signature: r.authentication.signature,
            },
            ..artifact
        }),
        r.authentication.signature@ == signature_text(key@, payload@),
{
    let mut a = artifact;
    a.authentication.signature = sign(key, payload);
    a
}

/// The window an issued artifact is valid in: from five seconds before
/// it was issued until it expires.
pub open spec fn within_lifetime(issued: i64, ttl_seconds: u64, now: (i64, u32)) -> bool {
    !before_shifted(now, instant_minus((issued, 0u32), 5)) && !instant_lt(
        ((issued + ttl_seconds) as i64, 0u32),
        now,
    )
}

/// What a boundary admits: an artifact verifies only when it is addressed
/// to this boundary's audience and operation with one target, carries an
/// allowing decision for single use, is signed over the payload under the
/// key the boundary read, names the snapshot the boundary holds, and `now`
/// lies in its window: not more than five seconds before it was issued and
/// not after it expires.
pub proof fn lemma_verified_artifacts_are_current(
    v: ArtifactVerifier,
    a: AuthorizationArtifact,
    now: (i64, u32),
    ev: ArtifactEvidence,
)
    requires
        verify_outcome(v, a, now, ev) is Ok,
    ensures
        a.audience@ == v@.0,
        a.operation@ == v@.1,
        a.targets@.len() == 1,
        a.authorization.decision == Authorization::Allow,
        a.replay_policy@ == "single-use"@,
        a.authentication.mechanism@ == "hmac-sha256/v1"@,
        evidence_key(ev.key) matches Ok(key) && ev.payload matches Ok(p) && signature_valid(
            key,
            p@,
            a.authentication.signature@,
        ),
        ev.snapshot matches Ok(snap) && sha256_text(snap@) == a.snapshot.digest@,
        rfc3339_instant(a.issued_at@) matches Some(issued) && rfc3339_instant(a.expires_at@) matches Some(
            expires,
        ) && !(expires.0 < now.0 || (expires.0 == now.0 && expires.1 < now.1)) && !(now.0 < issued.0 - 5 || (
        now.0 == issued.0 - 5 && now.1 < issued.1)),
{
}

/// What a boundary admits is what was issued: an artifact issued for an
/// allowing decision, at an instant whose lifetime ends within the years
/// 0 to 9999, and signed under a key verifies under that key at any time
/// within its lifetime, for the boundary of its audience and
/// operation, given the same snapshot and binding and the payload it was
/// signed over.
pub proof fn lemma_issued_artifact_verifies(
    a: AuthorizationArtifact,
    signed: AuthorizationArtifact,
    decision: PureAuthorizationResult,
    request: AuthorizationRequest,
    options: ArtifactIssueOptions,
    evidence: IssueEvidence,
    session: Seq<char>,
    rnd: Seq<u8>,
    verifier: ArtifactVerifier,
    now: (i64, u32),
    ev: ArtifactEvidence,
    key: Seq<u8>,
    payload: Seq<u8>,
)
    requires
        issue_precheck(decision, request, options.ttl_seconds, evidence) == Ok::<
            Seq<char>,
            ArtifactError,
        >(session),
        issued_as(a, decision, request, options, evidence, session, rnd),
        signed == (AuthorizationArtifact {
            authentication: ArtifactAuthentication {
                mechanism: a.authentication.mechanism,
                signature: signed.authentication.signature,
            },
            ..a
        }),
        signed.authentication.signature@ == signature_text(key, payload),
        decision.snapshot.schema@ == "terminal-policy/snapshot/v1"@,
        decision.snapshot.resolver_version@ == "terminal-policy-resolver/v1"@,
        verifier@.0 == a.audience@,
        verifier@.1 == request.operation@,
        evidence_key(ev.key) == Ok::<Seq<u8>, ArtifactError>(key),
        ev.payload matches Ok(p) && p@ == payload,
        ev.snapshot matches Ok(s) && evidence.snapshot matches Ok(t) && s@ == t@,
        ev.execution_binding matches Ok(b) && evidence.execution_binding matches Ok(c) && b@ == c@,
        within_lifetime(options.now.0, options.ttl_seconds, now),
        crate::clock::four_digit_year(options.now.0 as int),
        crate::clock::four_digit_year(options.now.0 + options.ttl_seconds),
    ensures
        verify_outcome(verifier, signed, now, ev) == Ok::<(), ArtifactError>(()),
{
    lemma_signature_round_trip(key, payload);
    assert(a.targets.deep_view().len() == request.targets@.len());
}

} // verus!
