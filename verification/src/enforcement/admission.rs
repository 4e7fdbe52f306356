//! The shared, fail-closed checks a native boundary makes before a side
//! effect.
use crate::enforcement::audit::AuditError;
use crate::enforcement::capability::{observation_current, CapabilityObservation};
use crate::enforcement::model::Attempt;
use crate::enforcement::nonce::{nonce_well_formed, NonceError, NonceStore};
use crate::enforcement::recovery::{Checkpoint, CheckpointError};
use crate::enforcement::state::{active_for, joined_path, BrokerState, StateError};
use crate::result::Capability;
use vstd::prelude::*;

verus! {

/// Why an attempt is not admitted.
#[derive(Clone, Debug, PartialEq, Eq)]
pub enum AdmissionError {
    Capability,
    Checkpoint(CheckpointError),
    Audit(AuditError),
    Nonce(NonceError),
    State(StateError),
}

/// The checks of admission, in order: the capability must be available
/// and current; the checkpoint must verify and bind the attempt's
/// generation and boundary; the boundary must be active at that
/// generation; the audit chain must verify and end at the checkpoint's
/// head; and the nonce must be admissible. Gives the nonce file whose
/// exclusive creation consumes it; after that the caller records the
/// attempt as prepared, and only then may perform its side effect.
pub fn admit_attempt(
    state: &BrokerState,
    attempt: &Attempt,
    capability: &CapabilityObservation,
    now: (i64, u32),
    checkpoint: Result<Checkpoint, CheckpointError>,
    audit_head: Result<String, AuditError>,
) -> (r: Result<String, AdmissionError>)
    ensures
        !(capability.capability == Capability::Can && observation_current(*capability, now)) ==> (r matches Err(
            AdmissionError::Capability,
        )),
        capability.capability == Capability::Can && observation_current(*capability, now) ==> match checkpoint {
            Err(e) => r == Err::<String, AdmissionError>(AdmissionError::Checkpoint(e)),
            Ok(c) => if c.generation != attempt.generation || c.boundary@ != attempt.boundary@ {
                r matches Err(AdmissionError::Checkpoint(CheckpointError::Boundary))
            } else if !active_for(state@.1, attempt.generation) {
                r matches Err(AdmissionError::State(_))
            } else {
                match audit_head {
                    Err(e) => r == Err::<String, AdmissionError>(AdmissionError::Audit(e)),
                    Ok(h) => if h@ != c.audit_head@ {
                        r matches Err(AdmissionError::Checkpoint(CheckpointError::Audit))
                    } else if !nonce_well_formed(attempt.nonce@) {
                        r matches Err(AdmissionError::Nonce(NonceError::Invalid))
                    } else {
                        r matches Ok(p) && p@ == joined_path(joined_path(state@.0, "nonces"@), attempt.nonce@)
                    },
                }
            },
        },
{
    if capability.capability != Capability::Can || !capability.is_current(now) {
        return Err(AdmissionError::Capability);
    }
    let c = match checkpoint {
        Err(e) => return Err(AdmissionError::Checkpoint(e)),
        Ok(c) => c,
    };
    if c.generation != attempt.generation || !crate::text::text_eq(c.boundary.as_str(), attempt.boundary.as_str()) {
        return Err(AdmissionError::Checkpoint(CheckpointError::Boundary));
    }
    match state.require_active(attempt.generation) {
        Err(e) => return Err(AdmissionError::State(e)),
        Ok(_) => {},
    }
    let head = match audit_head {
        Err(e) => return Err(AdmissionError::Audit(e)),
        Ok(h) => h,
    };
    if !crate::text::text_eq(head.as_str(), c.audit_head.as_str()) {
        return Err(AdmissionError::Checkpoint(CheckpointError::Audit));
    }
    let store = NonceStore::new(state.duplicate());
    match store.admit_nonce(attempt.nonce.as_str(), attempt.generation) {
        Err(e) => Err(AdmissionError::Nonce(e)),
        Ok(p) => Ok(p),
    }
}

} // verus!
