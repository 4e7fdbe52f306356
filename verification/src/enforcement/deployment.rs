//! Authenticated deployment evidence, required before an outcome may be
//! called enforced.
use crate::clock::{before_shifted, instant_lt, instant_minus, parse_rfc3339, rfc3339_instant};
use crate::crypto::{canonical_deployment, jcs_deployment_of, sign, signature_tag, signature_text, signature_valid, verify_signature};
use vstd::prelude::*;

verus! {

/// A signed statement of how a boundary is deployed.
#[derive(Clone, Debug, PartialEq, Eq)]
pub struct DeploymentAttestation {
    pub schema: String,
    pub boundary: String,
    pub threat_model: String,
    pub protected_paths: Vec<String>,
    pub mechanisms: Vec<String>,
    pub no_alternate_writers_or_executors: bool,
    pub generation: u64,
    pub issued_at: String,
    pub expires_at: String,
    pub signature: String,
}

/// The deployment a boundary expects to be running in.
#[derive(Clone, Debug, PartialEq, Eq)]
pub struct DeploymentExpectation {
    pub boundary: String,
    pub threat_model: String,
    pub protected_paths: Vec<String>,
    pub mechanisms: Vec<String>,
    pub generation: u64,
}

/// Why a deployment attestation is refused.
#[derive(Clone, Debug, PartialEq, Eq)]
pub enum DeploymentError {
    Malformed,
    Schema,
    Signature,
    Expired,
    Binding,
    Canonical(String),
}

/// What an attestation's signature covers: the canonical JSON of every
/// field but the signature.
pub open spec fn deployment_signed_bytes(a: DeploymentAttestation) -> Seq<u8> {
    jcs_deployment_of(
        a.schema@,
        a.boundary@,
        a.threat_model@,
        a.protected_paths.deep_view(),
        a.mechanisms.deep_view(),
        a.no_alternate_writers_or_executors,
        a.generation,
        a.issued_at@,
        a.expires_at@,
    )
}

/// Signs an attestation: its signature becomes the HMAC under `key` of the
/// canonical JSON of its other fields.
pub fn sign_deployment(attestation: DeploymentAttestation, key: &[u8]) -> (r: DeploymentAttestation)
    ensures
        r == (DeploymentAttestation { signature: r.signature, ..attestation }),
        r.signature@ == signature_text(key@, deployment_signed_bytes(attestation)),
{
    let payload = canonical_deployment(&attestation);
    let mut a = attestation;
    a.signature = sign(key, payload.as_slice());
    a
}

/// The attestation states exactly the expected deployment, with no
/// alternate writer or executor.
pub open spec fn deployment_matches(a: DeploymentAttestation, e: DeploymentExpectation) -> bool {
    &&& a.boundary@ == e.boundary@
    &&& a.threat_model@ == e.threat_model@
    &&& a.protected_paths.deep_view() == e.protected_paths.deep_view()
    &&& a.mechanisms.deep_view() == e.mechanisms.deep_view()
    &&& a.no_alternate_writers_or_executors
    &&& a.generation == e.generation
}

/// The attestation's window admits `now`: not more than five seconds
/// before it was issued, and not after it expires.
pub open spec fn deployment_window(issued: (i64, u32), expires: (i64, u32), now: (i64, u32)) -> bool {
    !before_shifted(now, instant_minus(issued, 5)) && !instant_lt(expires, now)
}

fn texts_equal(a: &Vec<String>, b: &Vec<String>) -> (r: bool)
    ensures
        r == (a.deep_view() == b.deep_view()),
{
    if a.len() != b.len() {
        assert(a.deep_view().len() != b.deep_view().len());
        return false;
    }
    let mut i: usize = 0;
    while i < a.len()
        invariant
            a.len() == b.len(),
            i <= a.len(),
            forall|j: int| 0 <= j < i ==> a.deep_view()[j] == b.deep_view()[j],
        decreases a.len() - i,
    {
        if !crate::text::text_eq(a[i].as_str(), b[i].as_str()) {
            assert(a.deep_view()[i as int] != b.deep_view()[i as int]);
            return false;
        }
        i = i + 1;
    }
    assert(a.deep_view() =~= b.deep_view());
    true
}

/// What checking an attestation gives at `now`, in order: the schema, the
/// signature's form, the signature over the canonical JSON of its other
/// fields, the two times, the window at `now`, and the binding.
pub open spec fn deployment_outcome(
    attestation: DeploymentAttestation,
    key: Seq<u8>,
    expected: DeploymentExpectation,
    now: (i64, u32),
) -> Result<(), DeploymentError> {
    if attestation.schema@ != "kero/deployment-attestation/v1"@ {
        Err(DeploymentError::Schema)
    } else if signature_tag(attestation.signature@) is None {
        Err(DeploymentError::Signature)
    } else if !signature_valid(key, deployment_signed_bytes(attestation), attestation.signature@) {
        Err(DeploymentError::Signature)
    } else {
        match (rfc3339_instant(attestation.issued_at@), rfc3339_instant(attestation.expires_at@)) {
            (Some(issued), Some(expires)) => if !deployment_window(issued, expires, now) {
                Err(DeploymentError::Expired)
            } else if !deployment_matches(attestation, expected) {
                Err(DeploymentError::Binding)
            } else {
                Ok(())
            },
            _ => Err(DeploymentError::Malformed),
        }
    }
}

/// Succeeds only when the exact current deployment is proven (see
/// `deployment_outcome`).
pub fn verify_deployment(
    attestation: &DeploymentAttestation,
    key: &[u8],
    expected: &DeploymentExpectation,
    now: (i64, u32),
) -> (r: Result<(), DeploymentError>)
    ensures
        r == deployment_outcome(*attestation, key@, *expected, now),
{
    if !crate::text::text_eq(attestation.schema.as_str(), "kero/deployment-attestation/v1") {
        return Err(DeploymentError::Schema);
    }
    if crate::crypto::signature_bytes(attestation.signature.as_str()).is_none() {
        return Err(DeploymentError::Signature);
    }
    let payload = canonical_deployment(attestation);
    if !verify_signature(key, payload.as_slice(), attestation.signature.as_str()) {
        return Err(DeploymentError::Signature);
    }
    let issued = match parse_rfc3339(attestation.issued_at.as_str()) {
        None => return Err(DeploymentError::Malformed),
        Some(t) => t,
    };
    let expires = match parse_rfc3339(attestation.expires_at.as_str()) {
        None => return Err(DeploymentError::Malformed),
        Some(t) => t,
    };
    let shifted: i128 = issued.0 as i128 - 5;
    let early = (now.0 as i128) < shifted || ((now.0 as i128) == shifted && now.1 < issued.1);
    if early || crate::clock::is_before(expires, now) {
        return Err(DeploymentError::Expired);
    }
    if !crate::text::text_eq(attestation.boundary.as_str(), expected.boundary.as_str())
        || !crate::text::text_eq(attestation.threat_model.as_str(), expected.threat_model.as_str())
        || !texts_equal(&attestation.protected_paths, &expected.protected_paths)
        || !texts_equal(&attestation.mechanisms, &expected.mechanisms)
        || !attestation.no_alternate_writers_or_executors
        || attestation.generation != expected.generation {
        return Err(DeploymentError::Binding);
    }
    Ok(())
}

/// An attestation signed under a key (over the canonical JSON of its other
/// fields, as `sign_deployment` signs) verifies under that key at any time
/// within its window, for exactly the deployment it states.
pub proof fn lemma_signed_deployment_verifies(
    attestation: DeploymentAttestation,
    key: Seq<u8>,
    expected: DeploymentExpectation,
    now: (i64, u32),
)
    requires
        attestation.schema@ == "kero/deployment-attestation/v1"@,
        attestation.signature@ == signature_text(key, deployment_signed_bytes(attestation)),
        rfc3339_instant(attestation.issued_at@) matches Some(issued) && rfc3339_instant(attestation.expires_at@)
            matches Some(expires) && deployment_window(issued, expires, now),
        deployment_matches(attestation, expected),
    ensures
        deployment_outcome(attestation, key, expected, now) == Ok::<(), DeploymentError>(()),
{
    crate::crypto::lemma_signature_round_trip(key, deployment_signed_bytes(attestation));
}

/// Only a current, signed, exactly matching attestation verifies: one that
/// verifies has the attestation schema, a signature that is valid for the
/// key over its canonical payload, readable times, an issue time at most
/// five seconds after `now`, an expiry not before `now`, and the expected
/// boundary, threat model, protected paths, mechanisms and generation with
/// no alternate writer or executor. A signed attestation whose expiry is
/// past is refused as expired.
pub proof fn lemma_verified_deployment_is_current(
    attestation: DeploymentAttestation,
    key: Seq<u8>,
    expected: DeploymentExpectation,
    now: (i64, u32),
)
    ensures
        deployment_outcome(attestation, key, expected, now) is Ok ==> {
            &&& attestation.schema@ == "kero/deployment-attestation/v1"@
            &&& signature_valid(key, deployment_signed_bytes(attestation), attestation.signature@)
            &&& rfc3339_instant(attestation.issued_at@) matches Some(issued)
            &&& rfc3339_instant(attestation.expires_at@) matches Some(expires)
            &&& (issued.0 - 5 < now.0 || (issued.0 - 5 == now.0 && issued.1 <= now.1))
            &&& (now.0 < expires.0 || (now.0 == expires.0 && now.1 <= expires.1))
            &&& attestation.boundary@ == expected.boundary@
            &&& attestation.threat_model@ == expected.threat_model@
            &&& attestation.protected_paths.deep_view() == expected.protected_paths.deep_view()
            &&& attestation.mechanisms.deep_view() == expected.mechanisms.deep_view()
            &&& attestation.no_alternate_writers_or_executors
            &&& attestation.generation == expected.generation
        },
        (rfc3339_instant(attestation.expires_at@) matches Some(expires) && (expires.0 < now.0 || (expires.0
            == now.0 && expires.1 < now.1)) && rfc3339_instant(attestation.issued_at@) is Some
            && attestation.schema@ == "kero/deployment-attestation/v1"@ && signature_tag(attestation.signature@) is Some
            && signature_valid(key, deployment_signed_bytes(attestation), attestation.signature@))
            ==> deployment_outcome(attestation, key, expected, now)
            == Err::<(), DeploymentError>(DeploymentError::Expired),
{
}

} // verus!
