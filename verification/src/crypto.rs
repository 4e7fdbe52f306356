//! Digests, message authentication, hex text and canonical JSON of text
//! lists, each from its outside crate behind a stated contract.
use crate::enforcement::audit::AuditEvent;
use crate::enforcement::deployment::DeploymentAttestation;
use hmac::Mac;
use serde_json::Value;
use sha2::Digest;
use vstd::prelude::*;

verus! {

/// The SHA-256 digest of some bytes.
pub uninterp spec fn sha256_of(data: Seq<u8>) -> Seq<u8>;

/// The HMAC-SHA-256 tag of `data` under `key`.
pub uninterp spec fn hmac_sha256_of(key: Seq<u8>, data: Seq<u8>) -> Seq<u8>;

/// The canonical (RFC 8785) JSON text of a list of strings, as bytes.
pub uninterp spec fn jcs_texts_of(items: Seq<Seq<char>>) -> Seq<u8>;

/// Computes SHA-256 with the `sha2` crate (`Sha256::digest`): the 32-byte
/// digest, named `sha256_of`.
#[verifier::external_body]
pub(crate) fn sha256_bytes(data: &[u8]) -> (r: Vec<u8>)
    ensures
        r@ == sha256_of(data@),
        r@.len() == 32,
{
    sha2::Sha256::digest(data).to_vec()
}

/// Computes HMAC-SHA-256 with the `hmac` crate (`new_from_slice`, which
/// takes a key of any length, then `update` and `finalize`): the 32-byte
/// tag, named `hmac_sha256_of`.
#[verifier::external_body]
pub(crate) fn hmac_sha256(key: &[u8], data: &[u8]) -> (r: Vec<u8>)
    ensures
        r@ == hmac_sha256_of(key@, data@),
        r@.len() == 32,
{
    match hmac::Hmac::<sha2::Sha256>::new_from_slice(key) {
        Ok(mut mac) => {
            mac.update(data);
            mac.finalize().into_bytes().to_vec()
        },
        Err(_) => Vec::new(),
    }
}

/// Checks a tag with the `hmac` crate (`verify_slice`, after
/// `new_from_slice` and `update`): it holds exactly when the tag is the
/// tag `hmac_sha256` computes.
#[verifier::external_body]
pub(crate) fn hmac_verify(key: &[u8], data: &[u8], tag: &[u8]) -> (r: bool)
    ensures
        r == (tag@ == hmac_sha256_of(key@, data@)),
{
    match hmac::Hmac::<sha2::Sha256>::new_from_slice(key) {
        Ok(mut mac) => {
            mac.update(data);
            mac.verify_slice(tag).is_ok()
        },
        Err(_) => false,
    }
}

/// The lowercase hex digit of a value below 16.
pub open spec fn hex_digit(n: int) -> char {
    if n < 10 {
        (('0' as int) + n) as char
    } else {
        (('a' as int) + n - 10) as char
    }
}

/// Lowercase hex text: two digits per byte, high half first.
pub open spec fn hex_lower(data: Seq<u8>) -> Seq<char>
    decreases data.len(),
{
    if data.len() == 0 {
        Seq::empty()
    } else {
        hex_lower(data.drop_last()) + seq![
            hex_digit(data.last() as int / 16),
            hex_digit(data.last() as int % 16),
        ]
    }
}

/// The value of a hex digit of either case.
pub open spec fn hex_value(c: char) -> Option<int> {
    if '0' <= c && c <= '9' {
        Some(c as int - '0' as int)
    } else if 'a' <= c && c <= 'f' {
        Some(c as int - 'a' as int + 10)
    } else if 'A' <= c && c <= 'F' {
        Some(c as int - 'A' as int + 10)
    } else {
        None
    }
}

/// Text that reads as hex: an even number of hex digits.
pub open spec fn is_hex_text(s: Seq<char>) -> bool {
    s.len() % 2 == 0 && forall|i: int| 0 <= i < s.len() ==> hex_value(#[trigger] s[i]) is Some
}

/// The bytes that hex text reads as, two digits per byte.
pub open spec fn hex_read(s: Seq<char>) -> Seq<u8>
    decreases s.len(),
{
    if s.len() < 2 {
        Seq::empty()
    } else {
        hex_read(s.subrange(0, s.len() - 2)) + seq![
            (hex_value(s[s.len() - 2])->0 * 16 + hex_value(s[s.len() - 1])->0) as u8,
        ]
    }
}

/// Encodes bytes as lowercase hex with the `hex` crate (`hex::encode`).
#[verifier::external_body]
pub(crate) fn hex_encode(data: &[u8]) -> (r: String)
    ensures
        r@ == hex_lower(data@),
{
    hex::encode(data)
}

/// Decodes hex text with the `hex` crate (`hex::decode`), which accepts
/// digits of either case and refuses an odd length or any other character.
#[verifier::external_body]
pub(crate) fn hex_decode(text: &str) -> (r: Option<Vec<u8>>)
    ensures
        r is Some <==> is_hex_text(text@),
        r matches Some(v) ==> v@ == hex_read(text@),
{
    match hex::decode(text) {
        Ok(v) => Some(v),
        Err(_) => None,
    }
}

/// Serializes a list of strings as canonical JSON with `serde_jcs::to_vec`;
/// the bytes are named by `jcs_texts_of`. For a list of strings the
/// serializer only writes escaped text into a vector, which does not fail.
#[verifier::external_body]
pub(crate) fn canonical_texts(items: &Vec<String>) -> (r: Vec<u8>)
    ensures
        r@ == jcs_texts_of(items.deep_view()),
{
    match serde_jcs::to_vec(items) {
        Ok(v) => v,
        Err(_) => Vec::new(),
    }
}

/// The canonical (RFC 8785) JSON, as bytes, of the object with string
/// entries `audit_head`, `boundary`, `schema` and `snapshot_digest` and the
/// integer entry `generation`: a checkpoint without its signature.
pub uninterp spec fn jcs_checkpoint_of(
    schema: Seq<char>,
    generation: u64,
    audit_head: Seq<char>,
    snapshot_digest: Seq<char>,
    boundary: Seq<char>,
) -> Seq<u8>;

/// Serializes a checkpoint's fields but its signature as canonical JSON
/// with `serde_jcs::to_vec`; the bytes are named by `jcs_checkpoint_of`.
/// For string and integer values the serializer only writes into a vector,
/// which does not fail.
#[verifier::external_body]
pub(crate) fn canonical_checkpoint(
    schema: &str,
    generation: u64,
    audit_head: &str,
    snapshot_digest: &str,
    boundary: &str,
) -> (r: Vec<u8>)
    ensures
        r@ == jcs_checkpoint_of(schema@, generation, audit_head@, snapshot_digest@, boundary@),
{
    let fields = std::collections::BTreeMap::from([
        ("audit_head", Value::from(audit_head)),
        ("boundary", Value::from(boundary)),
        ("generation", Value::from(generation)),
        ("schema", Value::from(schema)),
        ("snapshot_digest", Value::from(snapshot_digest)),
    ]);
    serde_jcs::to_vec(&fields).unwrap_or_default()
}

/// The canonical (RFC 8785) JSON, as bytes, of a deployment attestation
/// without its signature: the object with string entries `boundary`,
/// `expires_at`, `issued_at`, `schema` and `threat_model`, string-list
/// entries `mechanisms` and `protected_paths`, the boolean entry
/// `no_alternate_writers_or_executors` and the integer entry `generation`.
pub uninterp spec fn jcs_deployment_of(
    schema: Seq<char>,
    boundary: Seq<char>,
    threat_model: Seq<char>,
    protected_paths: Seq<Seq<char>>,
    mechanisms: Seq<Seq<char>>,
    no_alternate_writers_or_executors: bool,
    generation: u64,
    issued_at: Seq<char>,
    expires_at: Seq<char>,
) -> Seq<u8>;

/// Serializes an attestation's fields but its signature as canonical JSON
/// with `serde_jcs::to_vec`; the bytes are named by `jcs_deployment_of`.
/// For strings, string lists, a boolean and an integer the serializer only
/// writes into a vector, which does not fail.
#[verifier::external_body]
pub(crate) fn canonical_deployment(a: &DeploymentAttestation) -> (r: Vec<u8>)
    ensures
        r@ == jcs_deployment_of(
            a.schema@,
            a.boundary@,
            a.threat_model@,
            a.protected_paths.deep_view(),
            a.mechanisms.deep_view(),
            a.no_alternate_writers_or_executors,
            a.generation,
            a.issued_at@,
            a.expires_at@,
        ),
{
    let fields = std::collections::BTreeMap::from([
        ("boundary", Value::from(a.boundary.clone())),
        ("expires_at", Value::from(a.expires_at.clone())),
        ("generation", Value::from(a.generation)),
        ("issued_at", Value::from(a.issued_at.clone())),
        ("mechanisms", Value::from(a.mechanisms.clone())),
        ("no_alternate_writers_or_executors", Value::from(a.no_alternate_writers_or_executors)),
        ("protected_paths", Value::from(a.protected_paths.clone())),
        ("schema", Value::from(a.schema.clone())),
        ("threat_model", Value::from(a.threat_model.clone())),
    ]);
    serde_jcs::to_vec(&fields).unwrap_or_default()
}

/// The canonical (RFC 8785) JSON, as bytes, of an audit event: the object
/// with the string entries `lifecycle`, `previous` and `schema`, and the
/// object entry `attempt`, whose entries are the strings `artifact_id`,
/// `boundary`, `nonce`, `operation`, `snapshot_digest` and `target_digest`
/// and the integer `generation`.
pub uninterp spec fn jcs_audit_event_of(
    schema: Seq<char>,
    artifact_id: Seq<char>,
    nonce: Seq<char>,
    boundary: Seq<char>,
    operation: Seq<char>,
    target_digest: Seq<char>,
    snapshot_digest: Seq<char>,
    generation: u64,
    lifecycle: Seq<char>,
    previous: Seq<char>,
) -> Seq<u8>;

/// Serializes an audit event, its lifecycle given as `lifecycle`, as
/// canonical JSON with `serde_jcs::to_vec`; the bytes are named by
/// `jcs_audit_event_of`. For strings and an integer the serializer only
/// writes into a vector, which does not fail.
#[verifier::external_body]
pub(crate) fn canonical_audit_event(e: &AuditEvent, lifecycle: &str) -> (r: Vec<u8>)
    ensures
        r@ == jcs_audit_event_of(
            e.schema@,
            e.attempt.artifact_id@,
            e.attempt.nonce@,
            e.attempt.boundary@,
            e.attempt.operation@,
            e.attempt.target_digest@,
            e.attempt.snapshot_digest@,
            e.attempt.generation,
            lifecycle@,
            e.previous@,
        ),
{
    let t = &e.attempt;
    let attempt = Value::from_iter([
        ("artifact_id", Value::from(t.artifact_id.as_str())), ("boundary", Value::from(t.boundary.as_str())),
        ("generation", Value::from(t.generation)), ("nonce", Value::from(t.nonce.as_str())),
        ("operation", Value::from(t.operation.as_str())), ("target_digest", Value::from(t.target_digest.as_str())),
        ("snapshot_digest", Value::from(t.snapshot_digest.as_str())),
    ]);
    let fields = std::collections::BTreeMap::from([
        ("attempt", attempt), ("lifecycle", Value::from(lifecycle)),
        ("previous", Value::from(e.previous.as_str())), ("schema", Value::from(e.schema.as_str())),
    ]);
    serde_jcs::to_vec(&fields).unwrap_or_default()
}

/// Fills `len` bytes from the system's random source with
/// `getrandom::fill`; `None` when the source fails. Nothing is claimed of
/// the bytes but their number.
#[verifier::external_body]
pub(crate) fn random_bytes(len: usize) -> (r: Option<Vec<u8>>)
    ensures
        r matches Some(v) ==> v@.len() == len,
{
    let mut buffer = vec![0u8; len];
    match getrandom::fill(&mut buffer) {
        Ok(()) => Some(buffer),
        Err(_) => None,
    }
}

/// `"sha256:"` followed by the lowercase hex of the digest of `data`.
pub open spec fn sha256_text(data: Seq<u8>) -> Seq<char> {
    "sha256:"@ + hex_lower(sha256_of(data))
}

/// The digest of some bytes as text: `sha256:` and lowercase hex.
pub fn sha256(data: &[u8]) -> (r: String)
    ensures
        r@ == sha256_text(data@),
{
    let digest = sha256_bytes(data);
    let hex = hex_encode(digest.as_slice());
    crate::text::concat2("sha256:", hex.as_str())
}

/// `"hmac-sha256:"` followed by the lowercase hex of the tag of `data`.
pub open spec fn signature_text(key: Seq<u8>, data: Seq<u8>) -> Seq<char> {
    "hmac-sha256:"@ + hex_lower(hmac_sha256_of(key, data))
}

/// The signature text of `data` under `key`.
pub fn sign(key: &[u8], data: &[u8]) -> (r: String)
    ensures
        r@ == signature_text(key@, data@),
{
    let tag = hmac_sha256(key, data);
    let hex = hex_encode(tag.as_slice());
    crate::text::concat2("hmac-sha256:", hex.as_str())
}

/// The tag a signature text carries: its hex after `hmac-sha256:`.
pub open spec fn signature_tag(text: Seq<char>) -> Option<Seq<u8>> {
    if "hmac-sha256:"@.is_prefix_of(text) && is_hex_text(text.skip(12)) {
        Some(hex_read(text.skip(12)))
    } else {
        None
    }
}

/// Whether a signature text carries the tag of `data` under `key`.
pub open spec fn signature_valid(key: Seq<u8>, data: Seq<u8>, text: Seq<char>) -> bool {
    signature_tag(text) matches Some(t) && t == hmac_sha256_of(key, data)
}

/// Reads the tag of a signature text: `None` without the `hmac-sha256:`
/// prefix or when the rest is not hex.
pub fn signature_bytes(text: &str) -> (r: Option<Vec<u8>>)
    ensures
        r is Some <==> signature_tag(text@) is Some,
        r matches Some(v) ==> Some(v@) == signature_tag(text@),
{
    let chars = crate::text::chars_of(text);
    let prefix = crate::text::chars_of("hmac-sha256:");
    proof {
        reveal_strlit("hmac-sha256:");
    }
    if !crate::text::has_prefix(&chars, &prefix) {
        return None;
    }
    let rest = crate::text::slice_text(text, 12, chars.len());
    assert(rest@ == text@.skip(12));
    hex_decode(rest.as_str())
}

/// Checks a signature text against `data` under `key` (see
/// `signature_valid`).
pub fn verify_signature(key: &[u8], data: &[u8], text: &str) -> (r: bool)
    ensures
        r == signature_valid(key@, data@, text@),
{
    match signature_bytes(text) {
        None => false,
        Some(tag) => hmac_verify(key, data, tag.as_slice()),
    }
}

proof fn lemma_hex_digit(n: int)
    requires
        0 <= n < 16,
    ensures
        hex_value(hex_digit(n)) == Some(n),
{
    if n < 10 {
        assert((('0' as int) + n) as char as int == '0' as int + n);
    } else {
        assert((('a' as int) + n - 10) as char as int == 'a' as int + n - 10);
    }
}

/// Hex text reads back as the bytes it was written from.
pub proof fn lemma_hex_round_trip(x: Seq<u8>)
    ensures
        is_hex_text(hex_lower(x)),
        hex_read(hex_lower(x)) == x,
        hex_lower(x).len() == 2 * x.len(),
    decreases x.len(),
{
    if x.len() > 0 {
        let d = x.drop_last();
        lemma_hex_round_trip(d);
        let b = x.last() as int;
        lemma_hex_digit(b / 16);
        lemma_hex_digit(b % 16);
        let h = hex_lower(x);
        assert(h.subrange(0, h.len() - 2) =~= hex_lower(d));
        assert(h[h.len() - 2] == hex_digit(b / 16));
        assert(h[h.len() - 1] == hex_digit(b % 16));
        assert(((b / 16) * 16 + b % 16) as u8 == x.last());
        assert(x =~= d.push(x.last()));
        assert forall|i: int| 0 <= i < h.len() implies hex_value(#[trigger] h[i]) is Some by {
            if i < h.len() - 2 {
                assert(h[i] == hex_lower(d)[i]);
            }
        }
    }
}

/// A signature text carries a tag, and it is the tag of the data it was
/// made from under the key it was made with.
pub proof fn lemma_signature_round_trip(key: Seq<u8>, data: Seq<u8>)
    ensures
        signature_tag(signature_text(key, data)) == Some(hmac_sha256_of(key, data)),
        signature_valid(key, data, signature_text(key, data)),
{
    reveal_strlit("hmac-sha256:");
    lemma_hex_round_trip(hmac_sha256_of(key, data));
    let text = signature_text(key, data);
    let hex = hex_lower(hmac_sha256_of(key, data));
    assert("hmac-sha256:"@.is_prefix_of(text)) by {
        assert(text.subrange(0, 12) =~= "hmac-sha256:"@);
    }
    assert(text.skip(12) =~= hex);
}

} // verus!
