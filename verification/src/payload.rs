//! The JSON values that an artifact's signature and request digest cover:
//! the artifact without its authentication, and the request as issued.
//! Object entries are in key order.
use crate::artifact::{canonical_request_targets, request_targets, AuthorizationArtifact};
use crate::json::{json_copy, json_same, JsonNumber, JsonValue};
use crate::policy::model::{AuthorizationRequest, ContextEvidence};
use crate::result::authorization_text;
use vstd::prelude::*;

verus! {

/// `v` is the JSON string `t`.
pub open spec fn is_text(v: JsonValue, t: Seq<char>) -> bool {
    v matches JsonValue::Text(x) && x@ == t
}

/// `v` is an array of the strings `ts`, in order.
pub open spec fn is_texts(v: JsonValue, ts: Seq<Seq<char>>) -> bool {
    v matches JsonValue::Array(xs) && xs@.len() == ts.len() && forall|i: int|
        0 <= i < ts.len() ==> is_text(#[trigger] xs@[i], ts[i])
}

/// The keys of an object's entries, in order; none for another value.
pub open spec fn keys_of(v: JsonValue) -> Seq<Seq<char>> {
    match v {
        JsonValue::Object(es) => es@.map_values(|e: (String, JsonValue)| e.0@),
        _ => Seq::empty(),
    }
}

/// The value of the `i`-th entry of an object.
pub open spec fn entry(v: JsonValue, i: int) -> JsonValue {
    match v {
        JsonValue::Object(es) => es@[i].1,
        _ => JsonValue::Null,
    }
}

/// An optional count as JSON: `null`, or the number.
pub open spec fn count_json(g: Option<u64>) -> JsonValue {
    match g {
        None => JsonValue::Null,
        Some(n) => JsonValue::Number(JsonNumber::PosInt(n)),
    }
}

/// `v` is what an artifact's signature covers: every field of the artifact
/// but its authentication.
pub open spec fn artifact_payload_of(v: JsonValue, a: AuthorizationArtifact) -> bool {
    &&& v is Object
    &&& keys_of(v) == seq![
        "artifact_id"@,
        "audience"@,
        "authorization"@,
        "boundary_generation"@,
        "execution_binding"@,
        "execution_binding_digest"@,
        "expires_at"@,
        "issued_at"@,
        "nonce"@,
        "operation"@,
        "principal"@,
        "replay_policy"@,
        "request_digest"@,
        "request_id"@,
        "schema"@,
        "session_id"@,
        "snapshot"@,
        "target_digest"@,
        "targets"@,
        "trusted_context_digest"@,
    ]
    &&& is_text(entry(v, 0), a.artifact_id@)
    &&& is_text(entry(v, 1), a.audience@)
    &&& entry(v, 2) is Object
    &&& keys_of(entry(v, 2)) == seq!["decision"@, "reason"@]
    &&& is_text(entry(entry(v, 2), 0), authorization_text(a.authorization.decision))
    &&& is_text(entry(entry(v, 2), 1), a.authorization.reason@)
    &&& entry(v, 3) == count_json(a.boundary_generation)
    &&& json_same(entry(v, 4), a.execution_binding)
    &&& is_text(entry(v, 5), a.execution_binding_digest@)
    &&& is_text(entry(v, 6), a.expires_at@)
    &&& is_text(entry(v, 7), a.issued_at@)
    &&& is_text(entry(v, 8), a.nonce@)
    &&& is_text(entry(v, 9), a.operation@)
    &&& is_text(entry(v, 10), a.principal@)
    &&& is_text(entry(v, 11), a.replay_policy@)
    &&& is_text(entry(v, 12), a.request_digest@)
    &&& is_text(entry(v, 13), a.request_id@)
    &&& is_text(entry(v, 14), a.schema@)
    &&& is_text(entry(v, 15), a.session_id@)
    &&& entry(v, 16) is Object
    &&& keys_of(entry(v, 16)) == seq!["digest"@, "id"@, "resolver_version"@, "schema"@]
    &&& is_text(entry(entry(v, 16), 0), a.snapshot.digest@)
    &&& is_text(entry(entry(v, 16), 1), a.snapshot.id@)
    &&& is_text(entry(entry(v, 16), 2), a.snapshot.resolver_version@)
    &&& is_text(entry(entry(v, 16), 3), a.snapshot.schema@)
    &&& is_text(entry(v, 17), a.target_digest@)
    &&& is_texts(entry(v, 18), a.targets.deep_view())
    &&& is_text(entry(v, 19), a.trusted_context_digest@)
}

fn text(s: &String) -> (r: JsonValue)
    ensures
        is_text(r, s@),
{
    JsonValue::Text(s.clone())
}

fn texts(v: &Vec<String>) -> (r: JsonValue)
    ensures
        is_texts(r, v.deep_view()),
{
    let mut out: Vec<JsonValue> = Vec::new();
    let mut i: usize = 0;
    while i < v.len()
        invariant
            i <= v.len(),
            out@.len() == i,
            forall|j: int| 0 <= j < i ==> is_text(#[trigger] out@[j], v.deep_view()[j]),
        decreases v.len() - i,
    {
        out.push(text(&v[i]));
        i = i + 1;
    }
    JsonValue::Array(out)
}

fn key(k: &str) -> (r: String)
    ensures
        r@ == k@,
{
    String::from_str(k)
}

/// The JSON value an artifact's signature covers (see
/// `artifact_payload_of`).
pub fn artifact_payload(a: &AuthorizationArtifact) -> (r: JsonValue)
    ensures
        artifact_payload_of(r, *a),
{
    let decision = String::from_str(a.authorization.decision.text());
    let authorization = JsonValue::Object(
        vec![(key("decision"), JsonValue::Text(decision)), (key("reason"), text(&a.authorization.reason))],
    );
    let snapshot = JsonValue::Object(
        vec![
            (key("digest"), text(&a.snapshot.digest)),
            (key("id"), text(&a.snapshot.id)),
            (key("resolver_version"), text(&a.snapshot.resolver_version)),
            (key("schema"), text(&a.snapshot.schema)),
        ],
    );
    let generation = match a.boundary_generation {
        None => JsonValue::Null,
        Some(n) => JsonValue::Number(JsonNumber::PosInt(n)),
    };
    let entries = vec![
        (key("artifact_id"), text(&a.artifact_id)),
        (key("audience"), text(&a.audience)),
        (key("authorization"), authorization),
        (key("boundary_generation"), generation),
        (key("execution_binding"), json_copy(&a.execution_binding)),
        (key("execution_binding_digest"), text(&a.execution_binding_digest)),
        (key("expires_at"), text(&a.expires_at)),
        (key("issued_at"), text(&a.issued_at)),
        (key("nonce"), text(&a.nonce)),
        (key("operation"), text(&a.operation)),
        (key("principal"), text(&a.principal)),
        (key("replay_policy"), text(&a.replay_policy)),
        (key("request_digest"), text(&a.request_digest)),
        (key("request_id"), text(&a.request_id)),
        (key("schema"), text(&a.schema)),
        (key("session_id"), text(&a.session_id)),
        (key("snapshot"), snapshot),
        (key("target_digest"), text(&a.target_digest)),
        (key("targets"), texts(&a.targets)),
        (key("trusted_context_digest"), text(&a.trusted_context_digest)),
    ];
    let r = JsonValue::Object(entries);
    assert(keys_of(r) =~= seq![
        "artifact_id"@,
        "audience"@,
        "authorization"@,
        "boundary_generation"@,
        "execution_binding"@,
        "execution_binding_digest"@,
        "expires_at"@,
        "issued_at"@,
        "nonce"@,
        "operation"@,
        "principal"@,
        "replay_policy"@,
        "request_digest"@,
        "request_id"@,
        "schema"@,
        "session_id"@,
        "snapshot"@,
        "target_digest"@,
        "targets"@,
        "trusted_context_digest"@,
    ]);
    assert(keys_of(entry(r, 2)) =~= seq!["decision"@, "reason"@]);
    assert(keys_of(entry(r, 16)) =~= seq!["digest"@, "id"@, "resolver_version"@, "schema"@]);
    r
}

/// `v` is a piece of context evidence as JSON.
pub open spec fn evidence_json_of(v: JsonValue, e: ContextEvidence) -> bool {
    &&& v is Object
    &&& keys_of(v) == seq!["digest"@, "key"@, "provenance"@, "provider"@, "value"@]
    &&& is_text(entry(v, 0), e.digest@)
    &&& is_text(entry(v, 1), e.key@)
    &&& is_text(entry(v, 2), e.provenance@)
    &&& is_text(entry(v, 3), e.provider@)
    &&& json_same(entry(v, 4), e.value)
}

/// `v` is what an artifact's request digest covers: the request's schema,
/// id, principal, operation, canonical targets, session and context
/// evidence.
pub open spec fn request_wire_of(v: JsonValue, q: AuthorizationRequest) -> bool {
    &&& v is Object
    &&& keys_of(v) == seq![
        "context"@,
        "operation"@,
        "principal"@,
        "request_id"@,
        "schema"@,
        "session"@,
        "targets"@,
    ]
    &&& entry(v, 0) matches JsonValue::Array(items) && items@.len() == q.context@.len() && forall|i: int|
        0 <= i < items@.len() ==> evidence_json_of(#[trigger] items@[i], q.context@[i])
    &&& is_text(entry(v, 1), q.operation@)
    &&& is_text(entry(v, 2), q.principal@)
    &&& is_text(entry(v, 3), q.request_id@)
    &&& is_text(entry(v, 4), q.schema@)
    &&& entry(v, 5) matches JsonValue::Object(es) && es@.len() == q.session@.len() && forall|i: int|
        0 <= i < es@.len() ==> (#[trigger] es@[i]).0@ == q.session@[i].0@ && json_same(es@[i].1, q.session@[i].1)
    &&& is_texts(entry(v, 6), request_targets(q))
}

fn evidence_json(e: &ContextEvidence) -> (r: JsonValue)
    ensures
        evidence_json_of(r, *e),
{
    let r = JsonValue::Object(
        vec![
            (key("digest"), text(&e.digest)),
            (key("key"), text(&e.key)),
            (key("provenance"), text(&e.provenance)),
            (key("provider"), text(&e.provider)),
            (key("value"), json_copy(&e.value)),
        ],
    );
    assert(keys_of(r) =~= seq!["digest"@, "key"@, "provenance"@, "provider"@, "value"@]);
    r
}

/// The JSON value an artifact's request digest covers (see
/// `request_wire_of`).
pub fn request_wire(q: &AuthorizationRequest) -> (r: JsonValue)
    ensures
        request_wire_of(r, *q),
{
    let mut context: Vec<JsonValue> = Vec::new();
    let mut i: usize = 0;
    while i < q.context.len()
        invariant
            i <= q.context@.len(),
            context@.len() == i,
            forall|j: int| 0 <= j < i ==> evidence_json_of(#[trigger] context@[j], q.context@[j]),
        decreases q.context.len() - i,
    {
        context.push(evidence_json(&q.context[i]));
        i = i + 1;
    }
    let mut session: Vec<(String, JsonValue)> = Vec::new();
    let mut k: usize = 0;
    while k < q.session.len()
        invariant
            k <= q.session@.len(),
            session@.len() == k,
            forall|j: int|
                0 <= j < k ==> (#[trigger] session@[j]).0@ == q.session@[j].0@ && json_same(
                    session@[j].1,
                    q.session@[j].1,
                ),
        decreases q.session.len() - k,
    {
        let value = json_copy(&q.session[k].1);
        session.push((q.session[k].0.clone(), value));
        k = k + 1;
    }
    let targets = canonical_request_targets(q);
    let r = JsonValue::Object(
        vec![
            (key("context"), JsonValue::Array(context)),
            (key("operation"), text(&q.operation)),
            (key("principal"), text(&q.principal)),
            (key("request_id"), text(&q.request_id)),
            (key("schema"), text(&q.schema)),
            (key("session"), JsonValue::Object(session)),
            (key("targets"), texts(&targets)),
        ],
    );
    assert(keys_of(r) =~= seq![
        "context"@,
        "operation"@,
        "principal"@,
        "request_id"@,
        "schema"@,
        "session"@,
        "targets"@,
    ]);
    r
}

} // verus!
