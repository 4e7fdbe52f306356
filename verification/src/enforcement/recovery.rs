//! Signed recovery checkpoints: the generation, audit head and snapshot a
//! boundary may resume from.
use crate::crypto::{canonical_checkpoint, jcs_checkpoint_of, sign, signature_text, signature_valid, verify_signature};
use crate::enforcement::audit::{bytes_equal, AuditError};
use crate::enforcement::state::{BrokerState, StateError};
use vstd::prelude::*;

verus! {

/// A recovery checkpoint and its signature.
#[derive(Clone, Debug, PartialEq, Eq)]
pub struct Checkpoint {
    pub schema: String,
    pub generation: u64,
    pub audit_head: String,
    pub snapshot_digest: String,
    pub boundary: String,
    pub signature: String,
}

/// Why a checkpoint cannot be used.
#[derive(Clone, Debug, PartialEq, Eq)]
pub enum CheckpointError {
    Io(String),
    Malformed,
    Signature,
    Boundary,
    Snapshot,
    Audit,
    Canonical(String),
}

/// A checkpoint file as read: its bytes, the checkpoint they parse as (if
/// they do), and the canonical form of that checkpoint.
#[derive(Debug)]
pub struct CheckpointFile {
    pub bytes: Vec<u8>,
    pub checkpoint: Option<Checkpoint>,
    pub canonical: Result<Vec<u8>, String>,
}

/// The schema a checkpoint must name.
pub open spec fn checkpoint_schema() -> Seq<char> {
    "kero/checkpoint/v1"@
}

/// What a checkpoint's signature covers: the canonical JSON of every
/// field but the signature.
pub open spec fn checkpoint_signed_bytes(c: Checkpoint) -> Seq<u8> {
    jcs_checkpoint_of(c.schema@, c.generation, c.audit_head@, c.snapshot_digest@, c.boundary@)
}

/// Signs a checkpoint: its signature becomes the HMAC under `key` of the
/// canonical JSON of its other fields.
pub fn sign_checkpoint(checkpoint: Checkpoint, key: &[u8]) -> (r: Checkpoint)
    ensures
        r.schema == checkpoint.schema,
        r.generation == checkpoint.generation,
        r.audit_head == checkpoint.audit_head,
        r.snapshot_digest == checkpoint.snapshot_digest,
        r.boundary == checkpoint.boundary,
        r.signature@ == signature_text(key@, checkpoint_signed_bytes(checkpoint)),
{
    let payload = canonical_checkpoint(
        checkpoint.schema.as_str(),
        checkpoint.generation,
        checkpoint.audit_head.as_str(),
        checkpoint.snapshot_digest.as_str(),
        checkpoint.boundary.as_str(),
    );
    let mut c = checkpoint;
    c.signature = sign(key, payload.as_slice());
    c
}

/// What checking a checkpoint file gives, in order: it must parse
/// (`Malformed`), name the checkpoint schema (`Malformed`), be in canonical
/// form (`Malformed`, or the canonicalization error), and carry a valid
/// signature over the canonical JSON of its other fields (`Signature`).
pub open spec fn checkpoint_outcome(file: CheckpointFile, key: Seq<u8>) -> Result<Checkpoint, CheckpointError> {
    match file.checkpoint {
        None => Err(CheckpointError::Malformed),
        Some(c) => if c.schema@ != checkpoint_schema() {
            Err(CheckpointError::Malformed)
        } else {
            match file.canonical {
                Err(m) => Err(CheckpointError::Canonical(m)),
                Ok(b) => if b@ != file.bytes@ {
                    Err(CheckpointError::Malformed)
                } else if crate::crypto::signature_tag(c.signature@) is None {
                    Err(CheckpointError::Signature)
                } else if signature_valid(key, checkpoint_signed_bytes(c), c.signature@) {
                    Ok(c)
                } else {
                    Err(CheckpointError::Signature)
                },
            }
        },
    }
}

/// Checks a checkpoint file (see `checkpoint_outcome`).
pub fn verify_checkpoint(file: CheckpointFile, key: &[u8]) -> (r: Result<Checkpoint, CheckpointError>)
    ensures
        r == checkpoint_outcome(file, key@),
{
    let c = match file.checkpoint {
        None => return Err(CheckpointError::Malformed),
        Some(c) => c,
    };
    if !crate::text::text_eq(c.schema.as_str(), "kero/checkpoint/v1") {
        return Err(CheckpointError::Malformed);
    }
    let canonical = match file.canonical {
        Err(m) => return Err(CheckpointError::Canonical(m)),
        Ok(b) => b,
    };
    if !bytes_equal(&canonical, &file.bytes) {
        return Err(CheckpointError::Malformed);
    }
    if crate::crypto::signature_bytes(c.signature.as_str()).is_none() {
        return Err(CheckpointError::Signature);
    }
    let payload = canonical_checkpoint(
        c.schema.as_str(),
        c.generation,
        c.audit_head.as_str(),
        c.snapshot_digest.as_str(),
        c.boundary.as_str(),
    );
    if !verify_signature(key, payload.as_slice(), c.signature.as_str()) {
        return Err(CheckpointError::Signature);
    }
    Ok(c)
}

/// A checkpoint signed under a key (over the canonical JSON of its other
/// fields, as `sign_checkpoint` signs) and stored in canonical form
/// verifies under the same key.
pub proof fn lemma_signed_checkpoint_verifies(file: CheckpointFile, key: Seq<u8>)
    requires
        file.checkpoint matches Some(c) && c.schema@ == checkpoint_schema() && c.signature@ == signature_text(
            key,
            checkpoint_signed_bytes(c),
        ),
        file.canonical matches Ok(b) && b@ == file.bytes@,
    ensures
        checkpoint_outcome(file, key) == Ok::<Checkpoint, CheckpointError>(file.checkpoint->0),
{
    crate::crypto::lemma_signature_round_trip(key, checkpoint_signed_bytes(file.checkpoint->0));
}

/// Only an authentic checkpoint verifies: what verifies is the file's own
/// checkpoint, naming the checkpoint schema, stored exactly in canonical
/// form, and signed validly under the key over its other fields; one whose
/// signature is not valid under the key is refused.
pub proof fn lemma_verified_checkpoint_is_authentic(file: CheckpointFile, key: Seq<u8>)
    ensures
        checkpoint_outcome(file, key) matches Ok(c) ==> {
            &&& file.checkpoint == Some(c)
            &&& c.schema@ == "kero/checkpoint/v1"@
            &&& file.canonical matches Ok(b) && b@ == file.bytes@
            &&& signature_valid(key, checkpoint_signed_bytes(c), c.signature@)
        },
        (file.checkpoint matches Some(c) && !signature_valid(key, checkpoint_signed_bytes(c), c.signature@))
            ==> checkpoint_outcome(file, key) is Err,
{
}

/// Why a boundary could not be recovered.
#[derive(Clone, Debug, PartialEq, Eq)]
pub enum RecoveryError {
    Checkpoint(CheckpointError),
    Audit(AuditError),
    State(StateError),
}

/// Re-enables a disabled boundary from a verified checkpoint, checking in
/// order: the checkpoint names this boundary (`Boundary`) and the expected
/// snapshot (`Snapshot`); the audit log verifies (its error otherwise) and
/// ends at the checkpoint's head (`Audit`); and the boundary is still at
/// the checkpoint's generation (`Generation`). Only then is it enabled, at
/// that same generation: recovery never rewinds it. On any failure the
/// state is unchanged.
pub fn recover_state(
    state: &mut BrokerState,
    checkpoint: &Checkpoint,
    audit_head: Result<String, AuditError>,
    snapshot_digest: &str,
    boundary: &str,
) -> (r: Result<(), RecoveryError>)
    ensures
        final(state)@.0 == old(state)@.0,
        checkpoint.boundary@ != boundary@ ==> (r matches Err(RecoveryError::Checkpoint(CheckpointError::Boundary))),
        checkpoint.boundary@ == boundary@ && checkpoint.snapshot_digest@ != snapshot_digest@ ==> (r matches Err(
            RecoveryError::Checkpoint(CheckpointError::Snapshot),
        )),
        checkpoint.boundary@ == boundary@ && checkpoint.snapshot_digest@ == snapshot_digest@ ==> match audit_head {
            Err(e) => r == Err::<(), RecoveryError>(RecoveryError::Audit(e)),
            Ok(h) => if h@ != checkpoint.audit_head@ {
                r matches Err(RecoveryError::Checkpoint(CheckpointError::Audit))
            } else if old(state)@.1.generation != checkpoint.generation {
                r matches Err(RecoveryError::State(StateError::Generation))
            } else {
                r is Ok
            },
        },
        r is Ok ==> final(state)@.1 == (crate::enforcement::state::StateRecord {
            generation: checkpoint.generation,
            disabled: false,
        }),
        r is Err ==> final(state)@.1 == old(state)@.1,
{
    if !crate::text::text_eq(checkpoint.boundary.as_str(), boundary) {
        return Err(RecoveryError::Checkpoint(CheckpointError::Boundary));
    }
    if !crate::text::text_eq(checkpoint.snapshot_digest.as_str(), snapshot_digest) {
        return Err(RecoveryError::Checkpoint(CheckpointError::Snapshot));
    }
    let head = match audit_head {
        Err(e) => return Err(RecoveryError::Audit(e)),
        Ok(h) => h,
    };
    if !crate::text::text_eq(head.as_str(), checkpoint.audit_head.as_str()) {
        return Err(RecoveryError::Checkpoint(CheckpointError::Audit));
    }
    match state.enable_after_recovery(checkpoint.generation) {
        Err(e) => Err(RecoveryError::State(e)),
        Ok(_) => Ok(()),
    }
}

} // verus!
