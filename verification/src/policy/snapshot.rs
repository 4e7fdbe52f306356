//! Immutable policy snapshots: where a snapshot's canonical bytes are
//! stored and under which id, and the checks a snapshot must pass to be
//! replayed as a policy.
use crate::crypto::{hex_encode, hex_lower, sha256_bytes, sha256_of, sha256_text};
use crate::enforcement::state::{join_path, joined_path};
use crate::policy::load::{fault, PolicyLoadError};
use crate::policy::model::{Diagnostic, PolicySet};
use crate::policy::validate::{policy_fault, validate_policy};
use crate::text::{
    concat2, lemma_seq_lt_total, lemma_seq_lt_trans, seq_lt, slice_text, string_lt, text_eq,
};
use vstd::prelude::*;

verus! {

/// Why a snapshot cannot be stored or replayed.
#[derive(Debug)]
pub enum SnapshotError {
    Io(String),
    Serialization(String),
    Canonical(String),
    Schema,
    Resolver,
    Digest,
    CanonicalMismatch,
    Collision,
    PolicyInvalid(PolicyLoadError),
}

/// The schema every snapshot names.
pub open spec fn snapshot_schema() -> Seq<char> {
    "terminal-policy/snapshot/v1"@
}

/// The resolver version every snapshot names.
pub open spec fn resolver_version() -> Seq<char> {
    "terminal-policy-resolver/v1"@
}

/// Where a snapshot goes in its store, and what it is called.
#[derive(Clone, Debug, PartialEq, Eq)]
pub struct SnapshotPlacement {
    pub id: String,
    pub digest: String,
    pub destination: String,
}

/// The id, digest and destination of snapshot bytes in `store`: the digest
/// is `sha256:` and the hex of their SHA-256, the id `snapshot.` and the
/// first 16 hex digits, the file the hex with `.json`.
pub open spec fn placement(content: Seq<u8>, store: Seq<char>) -> (Seq<char>, Seq<char>, Seq<char>) {
    let hex = hex_lower(sha256_of(content));
    ("snapshot."@ + hex.take(16), "sha256:"@ + hex, joined_path(store, hex + ".json"@))
}

proof fn lemma_hex_len(d: Seq<u8>)
    ensures
        hex_lower(d).len() == 2 * d.len(),
    decreases d.len(),
{
    if d.len() > 0 {
        lemma_hex_len(d.drop_last());
    }
}

/// Places the canonical bytes `content` of a policy's snapshot in `store`
/// (see `placement`); a policy that does not validate cannot be written as
/// a snapshot and gives `PolicyInvalid` with its first fault.
pub fn place_snapshot(policy: &PolicySet, content: &[u8], store: &str) -> (r: Result<SnapshotPlacement, SnapshotError>)
    ensures
        match policy_fault(*policy) {
            Some(f) => r matches Err(SnapshotError::PolicyInvalid(e)) && fault(e) == f,
            None => r matches Ok(p) && (p.id@, p.digest@, p.destination@) == placement(content@, store@),
        },
{
    match validate_policy(policy) {
        Err(e) => return Err(SnapshotError::PolicyInvalid(e)),
        Ok(_) => {},
    }
    let sum = sha256_bytes(content);
    let hex = hex_encode(sum.as_slice());
    proof {
        lemma_hex_len(sum@);
        reveal_strlit("sha256:");
        reveal_strlit("snapshot.");
        reveal_strlit(".json");
    }
    let prefix = slice_text(hex.as_str(), 0, 16);
    let id = concat2("snapshot.", prefix.as_str());
    let digest = concat2("sha256:", hex.as_str());
    let file = concat2(hex.as_str(), ".json");
    let destination = join_path(store, file.as_str());
    assert(prefix@ =~= hex@.take(16));
    Ok(SnapshotPlacement { id, digest, destination })
}

/// Bytes already at a snapshot's destination must be the snapshot's own:
/// anything else is a `Collision`, and the store is never overwritten.
pub fn existing_outcome(existing: &[u8], content: &[u8]) -> (r: Result<(), SnapshotError>)
    ensures
        r is Ok <==> existing@ == content@,
        r is Err ==> (r matches Err(SnapshotError::Collision)),
{
    if existing.len() != content.len() {
        assert(existing@.len() != content@.len());
        return Err(SnapshotError::Collision);
    }
    let mut i: usize = 0;
    while i < existing.len()
        invariant
            existing@.len() == content@.len(),
            i <= existing@.len(),
            forall|j: int| 0 <= j < i ==> existing@[j] == content@[j],
        decreases existing.len() - i,
    {
        if existing[i] != content[i] {
            return Err(SnapshotError::Collision);
        }
        i = i + 1;
    }
    assert(existing@ =~= content@);
    Ok(())
}

/// The order diagnostics are replayed in: by code, then by record id, a
/// missing record id first.
pub open spec fn diagnostic_le(a: Diagnostic, b: Diagnostic) -> bool {
    seq_lt(a.code@, b.code@) || (a.code@ == b.code@ && match (a.record_id, b.record_id) {
        (None, _) => true,
        (Some(_), None) => false,
        (Some(x), Some(y)) => x@ == y@ || seq_lt(x@, y@),
    })
}

/// `x` placed into `s` after every entry that orders at or before it.
pub open spec fn insert_after(s: Seq<Diagnostic>, x: Diagnostic) -> Seq<Diagnostic>
    decreases s.len(),
{
    if s.len() == 0 {
        seq![x]
    } else if diagnostic_le(s.last(), x) {
        s.push(x)
    } else {
        insert_after(s.drop_last(), x).push(s.last())
    }
}

/// The stable sort of diagnostics by `diagnostic_le`: each is placed, in
/// turn, after every one before it that orders at or before it, so equal
/// keys keep their order.
pub open spec fn stable_sorted(s: Seq<Diagnostic>) -> Seq<Diagnostic>
    decreases s.len(),
{
    if s.len() == 0 {
        Seq::empty()
    } else {
        insert_after(stable_sorted(s.drop_last()), s.last())
    }
}

/// Each diagnostic orders at or before every later one.
pub open spec fn diagnostics_ordered(s: Seq<Diagnostic>) -> bool {
    forall|i: int, j: int| 0 <= i < j < s.len() ==> diagnostic_le(#[trigger] s[i], #[trigger] s[j])
}

proof fn lemma_le_total(a: Diagnostic, b: Diagnostic)
    ensures
        diagnostic_le(a, b) || diagnostic_le(b, a),
{
    lemma_seq_lt_total(a.code@, b.code@);
    match (a.record_id, b.record_id) {
        (Some(x), Some(y)) => {
            lemma_seq_lt_total(x@, y@);
        },
        _ => {},
    }
}

proof fn lemma_le_trans(a: Diagnostic, b: Diagnostic, c: Diagnostic)
    requires
        diagnostic_le(a, b),
        diagnostic_le(b, c),
    ensures
        diagnostic_le(a, c),
{
    if seq_lt(a.code@, b.code@) && seq_lt(b.code@, c.code@) {
        lemma_seq_lt_trans(a.code@, b.code@, c.code@);
    }
    match (a.record_id, b.record_id, c.record_id) {
        (Some(x), Some(y), Some(z)) => {
            if seq_lt(x@, y@) && seq_lt(y@, z@) {
                lemma_seq_lt_trans(x@, y@, z@);
            }
        },
        _ => {},
    }
}

proof fn lemma_insert_after(s: Seq<Diagnostic>, x: Diagnostic)
    requires
        diagnostics_ordered(s),
    ensures
        diagnostics_ordered(insert_after(s, x)),
        insert_after(s, x).to_multiset() == s.to_multiset().insert(x),
        insert_after(s, x).len() == s.len() + 1,
        forall|k: int|
            0 <= k < insert_after(s, x).len() ==> (#[trigger] insert_after(s, x)[k] == x || s.contains(
                insert_after(s, x)[k],
            )),
    decreases s.len(),
{
    broadcast use vstd::seq_lib::group_to_multiset_ensures;

    let r = insert_after(s, x);
    if s.len() == 0 {
        assert(r == seq![x]);
        assert(seq![x] =~= Seq::<Diagnostic>::empty().push(x));
    } else if diagnostic_le(s.last(), x) {
        assert forall|i: int, j: int| 0 <= i < j < r.len() implies diagnostic_le(#[trigger] r[i], #[trigger] r[j]) by {
            if j == s.len() {
                if i < s.len() - 1 {
                    lemma_le_trans(s[i], s[s.len() - 1], x);
                }
            }
        }
        assert forall|k: int| 0 <= k < r.len() implies (#[trigger] r[k] == x || s.contains(r[k])) by {
            if k < s.len() {
                assert(r[k] == s[k]);
            }
        }
    } else {
        let t = s.drop_last();
        assert forall|i: int, j: int| 0 <= i < j < t.len() implies diagnostic_le(#[trigger] t[i], #[trigger] t[j]) by {
            assert(t[i] == s[i] && t[j] == s[j]);
        }
        lemma_insert_after(t, x);
        let m = insert_after(t, x);
        assert(r == m.push(s.last()));
        lemma_le_total(s.last(), x);
        assert forall|i: int, j: int| 0 <= i < j < r.len() implies diagnostic_le(#[trigger] r[i], #[trigger] r[j]) by {
            if j == r.len() - 1 {
                assert(r[j] == s.last());
                assert(r[i] == m[i]);
                if m[i] == x {
                } else {
                    assert(t.contains(m[i]));
                    let q = choose|q: int| 0 <= q < t.len() && t[q] == m[i];
                    assert(s[q] == t[q]);
                    assert(diagnostic_le(s[q], s[s.len() - 1]));
                }
            } else {
                assert(r[i] == m[i] && r[j] == m[j]);
            }
        }
        assert(s =~= t.push(s.last()));
        assert forall|k: int| 0 <= k < r.len() implies (#[trigger] r[k] == x || s.contains(r[k])) by {
            if k < m.len() {
                assert(r[k] == m[k]);
                if m[k] != x {
                    let q = choose|q: int| 0 <= q < t.len() && t[q] == m[k];
                    assert(s[q] == t[q]);
                }
            } else {
                assert(r[k] == s[s.len() - 1]);
            }
        }
    }
}

/// Replayed diagnostics are ordered by code and record id, and they are
/// the same diagnostics, each as often as before.
pub proof fn lemma_stable_sorted(s: Seq<Diagnostic>)
    ensures
        diagnostics_ordered(stable_sorted(s)),
        stable_sorted(s).to_multiset() == s.to_multiset(),
    decreases s.len(),
{
    broadcast use vstd::seq_lib::group_to_multiset_ensures;

    if s.len() > 0 {
        lemma_stable_sorted(s.drop_last());
        lemma_insert_after(stable_sorted(s.drop_last()), s.last());
        assert(s =~= s.drop_last().push(s.last()));
    }
}

fn diagnostic_before(a: &Diagnostic, b: &Diagnostic) -> (r: bool)
    ensures
        r == diagnostic_le(*a, *b),
{
    if string_lt(&a.code, &b.code) {
        return true;
    }
    if !text_eq(a.code.as_str(), b.code.as_str()) {
        return false;
    }
    match (&a.record_id, &b.record_id) {
        (None, _) => true,
        (Some(_), None) => false,
        (Some(x), Some(y)) => text_eq(x.as_str(), y.as_str()) || string_lt(x, y),
    }
}

proof fn lemma_insert_at(s: Seq<Diagnostic>, x: Diagnostic, j: int)
    requires
        0 <= j <= s.len(),
        j > 0 ==> diagnostic_le(s[j - 1], x),
        forall|k: int| j <= k < s.len() ==> !diagnostic_le(#[trigger] s[k], x),
    ensures
        insert_after(s, x) == s.insert(j, x),
    decreases s.len(),
{
    if s.len() == 0 {
        assert(s.insert(j, x) =~= seq![x]);
    } else if j == s.len() {
        assert(s.insert(j, x) =~= s.push(x));
    } else {
        assert(!diagnostic_le(s[s.len() - 1], x));
        let t = s.drop_last();
        assert forall|k: int| j <= k < t.len() implies !diagnostic_le(#[trigger] t[k], x) by {
            assert(t[k] == s[k]);
        }
        if j > 0 {
            assert(t[j - 1] == s[j - 1]);
        }
        lemma_insert_at(t, x, j);
        assert(t.insert(j, x).push(s.last()) =~= s.insert(j, x));
    }
}

/// Sorts diagnostics stably by code and record id (see `stable_sorted`),
/// the order a replayed snapshot's diagnostics are compared in.
pub fn sort_diagnostics(diagnostics: Vec<Diagnostic>) -> (r: Vec<Diagnostic>)
    ensures
        r@ == stable_sorted(diagnostics@),
{
    let ghost all = diagnostics@;
    assert(all.len() == diagnostics.len());
    let mut rest = diagnostics;
    let mut out: Vec<Diagnostic> = Vec::new();
    let mut n: usize = 0;
    while rest.len() > 0
        invariant
            n <= all.len(),
            all.len() <= usize::MAX,
            rest@ == all.skip(n as int),
            out@ == stable_sorted(all.take(n as int)),
        decreases rest.len(),
    {
        let x = rest.remove(0);
        assert(x == all[n as int]);
        assert(rest@ =~= all.skip(n + 1));
        let mut j: usize = out.len();
        while j > 0 && !diagnostic_before(&out[j - 1], &x)
            invariant
                j <= out@.len(),
                forall|k: int| j <= k < out@.len() ==> !diagnostic_le(#[trigger] out@[k], x),
            decreases j,
        {
            j = j - 1;
        }
        proof {
            lemma_insert_at(out@, x, j as int);
            assert(all.take(n + 1).drop_last() =~= all.take(n as int));
        }
        out.insert(j, x);
        n = n + 1;
    }
    assert(all.take(n as int) =~= all);
    out
}

/// The first checks of a replay, on the stored bytes: they must have the
/// expected digest where one is given, parse as a snapshot (`parsed` is its
/// schema and resolver version, or why it did not parse), and name the
/// snapshot schema and resolver version.
pub fn replay_header(bytes: &[u8], expected_digest: Option<&str>, parsed: Result<(String, String), String>) -> (r:
    Result<(), SnapshotError>)
    ensures
        match expected_digest {
            Some(d) if d@ != sha256_text(bytes@) => r matches Err(SnapshotError::Digest),
            _ => match parsed {
                Err(m) => r matches Err(SnapshotError::Serialization(x)) && x@ == m@,
                Ok((schema, resolver)) => if schema@ != snapshot_schema() {
                    r matches Err(SnapshotError::Schema)
                } else if resolver@ != resolver_version() {
                    r matches Err(SnapshotError::Resolver)
                } else {
                    r is Ok
                },
            },
        },
{
    match expected_digest {
        Some(d) => {
            let actual = crate::crypto::sha256(bytes);
            if !text_eq(d, actual.as_str()) {
                return Err(SnapshotError::Digest);
            }
        },
        None => {},
    }
    match parsed {
        Err(m) => Err(SnapshotError::Serialization(m)),
        Ok((schema, resolver)) => {
            if !text_eq(schema.as_str(), "terminal-policy/snapshot/v1") {
                Err(SnapshotError::Schema)
            } else if !text_eq(resolver.as_str(), "terminal-policy-resolver/v1") {
                Err(SnapshotError::Resolver)
            } else {
                Ok(())
            }
        },
    }
}

/// The last checks of a replay, on the policy rebuilt from the snapshot
/// with its diagnostics sorted (see `sort_diagnostics`): the canonical
/// bytes of that policy's snapshot (`reserialized`, or why they could not
/// be made) must be the stored bytes exactly, and the policy must validate.
pub fn replay_policy(bytes: &[u8], policy: PolicySet, reserialized: Result<Vec<u8>, String>) -> (r: Result<
    PolicySet,
    SnapshotError,
>)
    ensures
        match reserialized {
            Err(m) => r matches Err(SnapshotError::Canonical(x)) && x@ == m@,
            Ok(b) => if b@ != bytes@ {
                r matches Err(SnapshotError::CanonicalMismatch)
            } else {
                match policy_fault(policy) {
                    Some(f) => r matches Err(SnapshotError::PolicyInvalid(e)) && fault(e) == f,
                    None => r == Ok::<PolicySet, SnapshotError>(policy),
                }
            },
        },
{
    let b = match reserialized {
        Err(m) => return Err(SnapshotError::Canonical(m)),
        Ok(b) => b,
    };
    match existing_outcome(b.as_slice(), bytes) {
        Err(_) => return Err(SnapshotError::CanonicalMismatch),
        Ok(_) => {},
    }
    match validate_policy(&policy) {
        Err(e) => return Err(SnapshotError::PolicyInvalid(e)),
        Ok(_) => {},
    }
    Ok(policy)
}

} // verus!
