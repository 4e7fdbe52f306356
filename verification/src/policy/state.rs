//! How single records and conditions bear on a request: combining
//! states, reading context evidence, conditions, validity windows, the
//! authority of a record, its source, and an assignment.
use crate::clock::{instant_lt, parse_rfc3339_time, rfc3339_time_instant};
use crate::json::{json_among, json_contains, json_eq, json_same, json_text, JsonValue};
use crate::policy::authority::{
    authority_of, find_source, lemma_source_index, operation_matches, selector_matches,
    source_authority, source_index, RecordRef,
};
use crate::policy::model::{
    Applicability, Assignment, AssignmentEvaluation, AuthorizationRequest, Condition, ContextEvidence,
    Delegation, PolicySet, Principal,
};
use crate::policy::scope::{scope_set_match, set_match_spec};
use crate::text::{sorted_chains, text_eq};
use vstd::prelude::*;

verus! {

/// The combined bearing of several states: inapplicable if any is,
/// otherwise indeterminate if any is, otherwise applicable.
pub open spec fn combined(states: Seq<Applicability>) -> Applicability {
    if states.contains(Applicability::Inapplicable) {
        Applicability::Inapplicable
    } else if states.contains(Applicability::Indeterminate) {
        Applicability::Indeterminate
    } else {
        Applicability::Applicable
    }
}

/// Combines states as `combined` does.
pub fn combine(states: &Vec<Applicability>) -> (r: Applicability)
    ensures
        r == combined(states@),
{
    let mut inapplicable = false;
    let mut indeterminate = false;
    let mut i: usize = 0;
    while i < states.len()
        invariant
            i <= states.len(),
            inapplicable == states@.take(i as int).contains(Applicability::Inapplicable),
            indeterminate == states@.take(i as int).contains(Applicability::Indeterminate),
        decreases states.len() - i,
    {
        proof {
            assert(states@.take(i + 1) =~= states@.take(i as int).push(states@[i as int]));
        }
        if states[i] == Applicability::Inapplicable {
            inapplicable = true;
        }
        if states[i] == Applicability::Indeterminate {
            indeterminate = true;
        }
        proof {
            let t = states@.take(i as int);
            let u = states@.take(i + 1);
            assert forall|x: Applicability| u.contains(x) <==> (t.contains(x) || x == states@[i as int]) by {
                if u.contains(x) {
                    let k = choose|k: int| 0 <= k < u.len() && u[k] == x;
                    if k < i {
                        assert(t[k] == x);
                    }
                }
                if t.contains(x) {
                    let k = choose|k: int| 0 <= k < t.len() && t[k] == x;
                    assert(u[k] == x);
                }
                if x == states@[i as int] {
                    assert(u[i as int] == x);
                }
            }
        }
        i = i + 1;
    }
    assert(states@.take(i as int) =~= states@);
    if inapplicable {
        Applicability::Inapplicable
    } else if indeterminate {
        Applicability::Indeterminate
    } else {
        Applicability::Applicable
    }
}

/// Applicable when `b` holds, inapplicable otherwise.
pub open spec fn state_of(b: bool) -> Applicability {
    if b {
        Applicability::Applicable
    } else {
        Applicability::Inapplicable
    }
}

/// The bearing of a scope match: applicable, inapplicable, or
/// indeterminate when it cannot be told.
pub open spec fn scope_state(m: Option<bool>) -> Applicability {
    match m {
        Some(true) => Applicability::Applicable,
        Some(false) => Applicability::Inapplicable,
        None => Applicability::Indeterminate,
    }
}

pub(crate) fn scope_state_of(m: Option<bool>) -> (r: Applicability)
    ensures
        r == scope_state(m),
{
    match m {
        Some(true) => Applicability::Applicable,
        Some(false) => Applicability::Inapplicable,
        None => Applicability::Indeterminate,
    }
}

/// Some selector matches the operation.
pub open spec fn any_selector_matches(selectors: Seq<Seq<char>>, operation: Seq<char>) -> bool {
    exists|i: int| 0 <= i < selectors.len() && selector_matches(#[trigger] selectors[i], operation)
}

pub(crate) fn any_matches(selectors: &Vec<String>, operation: &str) -> (r: bool)
    ensures
        r == any_selector_matches(selectors.deep_view(), operation@),
{
    let mut i: usize = 0;
    while i < selectors.len()
        invariant
            i <= selectors.len(),
            forall|j: int| 0 <= j < i ==> !selector_matches(#[trigger] selectors.deep_view()[j], operation@),
        decreases selectors.len() - i,
    {
        if operation_matches(selectors[i].as_str(), operation) {
            assert(selector_matches(selectors.deep_view()[i as int], operation@));
            return true;
        }
        i = i + 1;
    }
    false
}

/// Evidence that counts: it names the provider and key and carries a
/// provenance and a digest.
pub open spec fn evidence_counts(e: ContextEvidence, provider: Seq<char>, key: Seq<char>) -> bool {
    e.provider@ == provider && e.key@ == key && e.provenance@.len() > 0 && e.digest@.len() > 0
}

/// The position of the first evidence that counts for `provider` and `key`.
pub open spec fn context_index(ctx: Seq<ContextEvidence>, provider: Seq<char>, key: Seq<char>) -> Option<
    int,
> {
    if exists|i: int| 0 <= i < ctx.len() && evidence_counts(#[trigger] ctx[i], provider, key) {
        Some(
            choose|i: int|
                0 <= i < ctx.len() && evidence_counts(ctx[i], provider, key) && forall|j: int|
                    0 <= j < i ==> !evidence_counts(#[trigger] ctx[j], provider, key),
        )
    } else {
        None
    }
}

proof fn lemma_context_first(ctx: Seq<ContextEvidence>, provider: Seq<char>, key: Seq<char>, i: int)
    requires
        0 <= i < ctx.len(),
        evidence_counts(ctx[i], provider, key),
        forall|j: int| 0 <= j < i ==> !evidence_counts(#[trigger] ctx[j], provider, key),
    ensures
        context_index(ctx, provider, key) == Some(i),
{
    let k = context_index(ctx, provider, key)->0;
    if k < i {
        assert(!evidence_counts(ctx[k], provider, key));
    } else if k > i {
        assert(!evidence_counts(ctx[i], provider, key));
    }
}

/// The first piece of evidence of the request that counts for `provider`
/// and `key`.
pub fn context<'a>(request: &'a AuthorizationRequest, provider: &str, key: &str) -> (r: Option<
    &'a ContextEvidence,
>)
    ensures
        match context_index(request.context@, provider@, key@) {
            Some(i) => r == Some(&request.context@[i]),
            None => r is None,
        },
{
    let mut i: usize = 0;
    while i < request.context.len()
        invariant
            i <= request.context@.len(),
            forall|j: int| 0 <= j < i ==> !evidence_counts(#[trigger] request.context@[j], provider@, key@),
        decreases request.context.len() - i,
    {
        let e = &request.context[i];
        if text_eq(e.provider.as_str(), provider) && text_eq(e.key.as_str(), key)
            && e.provenance.unicode_len() > 0 && e.digest.unicode_len() > 0 {
            proof {
                lemma_context_first(request.context@, provider@, key@, i as int);
            }
            return Some(e);
        }
        i = i + 1;
    }
    None
}

/// Whether evidence `ev` satisfies a condition's operator and value.
pub open spec fn condition_holds(c: Condition, ev: JsonValue) -> bool {
    let op = c.operator@;
    if op == "eq"@ {
        json_same(ev, c.value)
    } else if op == "ne"@ {
        !json_same(ev, c.value)
    } else if op == "in"@ {
        c.value matches JsonValue::Array(items) && json_among(items@, ev)
    } else if op == "not-in"@ {
        c.value matches JsonValue::Array(items) && !json_among(items@, ev)
    } else {
        false
    }
}

/// The bearing of one condition: indeterminate without evidence.
pub open spec fn condition_state(c: Condition, request: AuthorizationRequest) -> Applicability {
    match context_index(request.context@, c.provider@, c.key@) {
        None => Applicability::Indeterminate,
        Some(i) => state_of(condition_holds(c, request.context@[i].value)),
    }
}

/// The combined bearing of conditions.
pub open spec fn conditions_spec(cs: Seq<Condition>, request: AuthorizationRequest) -> Applicability {
    combined(cs.map_values(|c: Condition| condition_state(c, request)))
}

fn condition_state_of(c: &Condition, request: &AuthorizationRequest) -> (r: Applicability)
    ensures
        r == condition_state(*c, *request),
{
    let evidence = match context(request, c.provider.as_str(), c.key.as_str()) {
        None => return Applicability::Indeterminate,
        Some(e) => e,
    };
    let op = c.operator.as_str();
    let matched = if text_eq(op, "eq") {
        json_eq(&evidence.value, &c.value)
    } else if text_eq(op, "ne") {
        !json_eq(&evidence.value, &c.value)
    } else if text_eq(op, "in") {
        match &c.value {
            JsonValue::Array(items) => json_contains(items, &evidence.value),
            _ => false,
        }
    } else if text_eq(op, "not-in") {
        match &c.value {
            JsonValue::Array(items) => !json_contains(items, &evidence.value),
            _ => false,
        }
    } else {
        false
    };
    if matched {
        Applicability::Applicable
    } else {
        Applicability::Inapplicable
    }
}

/// The combined bearing of conditions on a request.
pub fn conditions_state(conditions: &Vec<Condition>, request: &AuthorizationRequest) -> (r:
    Applicability)
    ensures
        r == conditions_spec(conditions@, *request),
{
    let mut states: Vec<Applicability> = Vec::new();
    let mut i: usize = 0;
    while i < conditions.len()
        invariant
            i <= conditions.len(),
            states@ == conditions@.map_values(|c: Condition| condition_state(c, *request)).take(
                i as int,
            ),
        decreases conditions.len() - i,
    {
        let s = condition_state_of(&conditions[i], request);
        states.push(s);
        proof {
            assert(states@ =~= conditions@.map_values(|c: Condition| condition_state(c, *request)).take(
                i + 1,
            ));
        }
        i = i + 1;
    }
    assert(states@ =~= conditions@.map_values(|c: Condition| condition_state(c, *request)));
    combine(&states)
}

/// The instant the request's time evidence gives as now, if it gives one.
pub open spec fn request_now(request: AuthorizationRequest) -> Option<(i64, u32)> {
    match context_index(request.context@, "time"@, "now"@) {
        None => None,
        Some(i) => match json_text(request.context@[i].value) {
            None => None,
            Some(t) => rfc3339_time_instant(t),
        },
    }
}

/// The bearing of a validity window: a revoked record is inapplicable; a
/// record without bounds applies; otherwise the request's time decides,
/// and without it the bearing is indeterminate. A bound that does not
/// parse does not bound.
pub open spec fn validity_spec(
    revoked: bool,
    not_before: Option<Seq<char>>,
    not_after: Option<Seq<char>>,
    request: AuthorizationRequest,
) -> Applicability {
    if revoked {
        Applicability::Inapplicable
    } else if not_before is None && not_after is None {
        Applicability::Applicable
    } else {
        match request_now(request) {
            None => Applicability::Indeterminate,
            Some(now) => {
                let early = not_before matches Some(b) && rfc3339_time_instant(b) matches Some(
                    start,
                ) && instant_lt(now, start);
                let late = not_after matches Some(a) && rfc3339_time_instant(a) matches Some(end)
                    && instant_lt(end, now);
                if early || late {
                    Applicability::Inapplicable
                } else {
                    Applicability::Applicable
                }
            },
        }
    }
}

/// A validity window bounds a record by the request's time: an unrevoked
/// record whose `not_after` reads as `end` applies while the request's time
/// is before `end` (if it has no `not_before`) and never applies once the
/// request's time is past `end`; likewise one whose `not_before` reads as
/// `start` never applies before `start`, and applies after it when it has
/// no `not_after`. A record that is revoked never applies.
pub proof fn lemma_window_bounds_validity(
    bound: Seq<char>,
    request: AuthorizationRequest,
    now: (i64, u32),
    at: (i64, u32),
)
    requires
        request_now(request) == Some(now),
        rfc3339_time_instant(bound) == Some(at),
    ensures
        now.0 < at.0 || (now.0 == at.0 && now.1 < at.1) ==> validity_spec(false, None, Some(bound), request)
            == Applicability::Applicable,
        at.0 < now.0 || (at.0 == now.0 && at.1 < now.1) ==> validity_spec(false, None, Some(bound), request)
            == Applicability::Inapplicable,
        forall|b: Option<Seq<char>>|
            (at.0 < now.0 || (at.0 == now.0 && at.1 < now.1)) ==> #[trigger] validity_spec(false, b, Some(bound), request)
                == Applicability::Inapplicable,
        now.0 < at.0 || (now.0 == at.0 && now.1 < at.1) ==> validity_spec(false, Some(bound), None, request)
            == Applicability::Inapplicable,
        at.0 < now.0 || (at.0 == now.0 && at.1 < now.1) ==> validity_spec(false, Some(bound), None, request)
            == Applicability::Applicable,
        forall|b: Option<Seq<char>>, a: Option<Seq<char>>| #[trigger] validity_spec(true, b, a, request)
            == Applicability::Inapplicable,
{
}

/// A window is closed at both ends: an unrevoked record bounded by `start`
/// and `end` applies exactly when the request's time lies between them,
/// both included, and otherwise is inapplicable, never indeterminate. A
/// request at the very instant of a single bound is inside it.
pub proof fn lemma_window_is_inclusive(
    start_text: Seq<char>,
    end_text: Seq<char>,
    request: AuthorizationRequest,
    now: (i64, u32),
    start: (i64, u32),
    end: (i64, u32),
)
    requires
        request_now(request) == Some(now),
        rfc3339_time_instant(start_text) == Some(start),
        rfc3339_time_instant(end_text) == Some(end),
    ensures
        validity_spec(false, Some(start_text), Some(end_text), request) == Applicability::Applicable
            <==> ((start.0 < now.0 || (start.0 == now.0 && start.1 <= now.1)) && (now.0 < end.0 || (
            now.0 == end.0 && now.1 <= end.1))),
        validity_spec(false, Some(start_text), Some(end_text), request) != Applicability::Indeterminate,
        now == end ==> validity_spec(false, None, Some(end_text), request) == Applicability::Applicable,
        now == start ==> validity_spec(false, Some(start_text), None, request)
            == Applicability::Applicable,
{
}

/// A bounded record cannot be judged without the request's time: when the
/// request gives no readable `time`/`now` evidence, an unrevoked record
/// with any bound is indeterminate. A bound that does not read as an
/// instant bounds nothing.
pub proof fn lemma_window_needs_time(
    not_before: Option<Seq<char>>,
    not_after: Option<Seq<char>>,
    request: AuthorizationRequest,
    text: Seq<char>,
)
    requires
        not_before is Some || not_after is Some,
    ensures
        request_now(request) is None ==> validity_spec(false, not_before, not_after, request)
            == Applicability::Indeterminate,
        request_now(request) is Some && rfc3339_time_instant(text) is None ==> validity_spec(
            false,
            Some(text),
            None,
            request,
        ) == Applicability::Applicable && validity_spec(false, None, Some(text), request)
            == Applicability::Applicable,
{
}

/// How the parts of a bearing combine: the whole applies exactly when
/// every part applies, and is inapplicable exactly when some part is;
/// otherwise it cannot be told.
pub proof fn lemma_combined_parts(states: Seq<Applicability>)
    ensures
        (combined(states) == Applicability::Applicable) <==> (forall|i: int|
            0 <= i < states.len() ==> #[trigger] states[i] == Applicability::Applicable),
        (combined(states) == Applicability::Inapplicable) <==> (exists|i: int|
            0 <= i < states.len() && #[trigger] states[i] == Applicability::Inapplicable),
        (combined(states) == Applicability::Indeterminate) <==> ((exists|i: int|
            0 <= i < states.len() && #[trigger] states[i] == Applicability::Indeterminate) && !(exists|i: int|
            0 <= i < states.len() && #[trigger] states[i] == Applicability::Inapplicable)),
{
    if exists|i: int| 0 <= i < states.len() && #[trigger] states[i] == Applicability::Inapplicable {
        let i = choose|i: int| 0 <= i < states.len() && #[trigger] states[i] == Applicability::Inapplicable;
        assert(states.contains(states[i]));
    }
    if exists|i: int| 0 <= i < states.len() && #[trigger] states[i] == Applicability::Indeterminate {
        let i = choose|i: int| 0 <= i < states.len() && #[trigger] states[i] == Applicability::Indeterminate;
        assert(states.contains(states[i]));
    }
    if forall|i: int| 0 <= i < states.len() ==> #[trigger] states[i] == Applicability::Applicable {
        assert(!states.contains(Applicability::Inapplicable));
        assert(!states.contains(Applicability::Indeterminate));
    }
}

/// Evidence for a condition is the first piece of the request's context
/// that names its provider and key and has a provenance and a digest. With
/// such evidence at `i`, `eq` applies exactly when the evidence equals the
/// condition's value, `ne` exactly when it does not, `in` exactly when it
/// is among the listed values, `not-in` exactly when it is not, and any
/// other operator never applies; the condition is never left undecided.
pub proof fn lemma_condition_with_evidence(c: Condition, request: AuthorizationRequest, i: int)
    requires
        0 <= i < request.context@.len(),
        request.context@[i].provider@ == c.provider@,
        request.context@[i].key@ == c.key@,
        request.context@[i].provenance@.len() > 0,
        request.context@[i].digest@.len() > 0,
        forall|j: int|
            0 <= j < i ==> !((#[trigger] request.context@[j]).provider@ == c.provider@ && request.context@[j].key@
                == c.key@ && request.context@[j].provenance@.len() > 0 && request.context@[j].digest@.len() > 0),
    ensures
        condition_state(c, request) != Applicability::Indeterminate,
        c.operator@ == "eq"@ ==> ((condition_state(c, request) == Applicability::Applicable) <==> json_same(
            request.context@[i].value,
            c.value,
        )),
        c.operator@ == "ne"@ ==> ((condition_state(c, request) == Applicability::Applicable) <==> !json_same(
            request.context@[i].value,
            c.value,
        )),
        c.operator@ == "in"@ ==> ((condition_state(c, request) == Applicability::Applicable) <==> (c.value matches JsonValue::Array(
            items,
        ) && exists|k: int| 0 <= k < items@.len() && json_same(#[trigger] items@[k], request.context@[i].value))),
        c.operator@ == "not-in"@ ==> ((condition_state(c, request) == Applicability::Applicable) <==> (c.value matches JsonValue::Array(
            items,
        ) && !exists|k: int| 0 <= k < items@.len() && json_same(#[trigger] items@[k], request.context@[i].value))),
        !(c.operator@ == "eq"@ || c.operator@ == "ne"@ || c.operator@ == "in"@ || c.operator@ == "not-in"@)
            ==> condition_state(c, request) == Applicability::Inapplicable,
{
    reveal_strlit("eq");
    reveal_strlit("ne");
    reveal_strlit("in");
    reveal_strlit("not-in");
    assert("eq"@ != "ne"@) by {
        assert("eq"@[0] != "ne"@[0]);
    }
    assert("eq"@ != "in"@) by {
        assert("eq"@[0] != "in"@[0]);
    }
    assert("ne"@ != "in"@) by {
        assert("ne"@[0] != "in"@[0]);
    }
    assert("not-in"@.len() != "eq"@.len());
    assert(evidence_counts(request.context@[i], c.provider@, c.key@));
    assert forall|j: int| 0 <= j < i implies !evidence_counts(#[trigger] request.context@[j], c.provider@, c.key@) by {}
    lemma_context_first(request.context@, c.provider@, c.key@, i);
}

/// A condition without evidence cannot be told: when no piece of the
/// request's context names its provider and key with a provenance and a
/// digest, the condition is indeterminate, whatever its operator.
pub proof fn lemma_condition_without_evidence(c: Condition, request: AuthorizationRequest)
    requires
        forall|j: int|
            0 <= j < request.context@.len() ==> !((#[trigger] request.context@[j]).provider@ == c.provider@
                && request.context@[j].key@ == c.key@ && request.context@[j].provenance@.len() > 0
                && request.context@[j].digest@.len() > 0),
    ensures
        condition_state(c, request) == Applicability::Indeterminate,
{
    if exists|j: int| 0 <= j < request.context@.len() && evidence_counts(#[trigger] request.context@[j], c.provider@, c.key@) {
        let j = choose|j: int| 0 <= j < request.context@.len() && evidence_counts(#[trigger] request.context@[j], c.provider@, c.key@);
        assert(evidence_counts(request.context@[j], c.provider@, c.key@));
    }
}

/// The text view of an optional string.
pub open spec fn opt_text(v: Option<String>) -> Option<Seq<char>> {
    match v {
        Some(s) => Some(s@),
        None => None,
    }
}

/// The bearing of a validity window on a request (see `validity_spec`).
pub fn validity_state(
    revoked: bool,
    not_before: &Option<String>,
    not_after: &Option<String>,
    request: &AuthorizationRequest,
) -> (r: Applicability)
    ensures
        r == validity_spec(revoked, opt_text(*not_before), opt_text(*not_after), *request),
{
    if revoked {
        return Applicability::Inapplicable;
    }
    if not_before.is_none() && not_after.is_none() {
        return Applicability::Applicable;
    }
    let evidence = match context(request, "time", "now") {
        None => return Applicability::Indeterminate,
        Some(e) => e,
    };
    let text = match &evidence.value {
        JsonValue::Text(t) => t,
        _ => return Applicability::Indeterminate,
    };
    let now = match parse_rfc3339_time(text.as_str()) {
        None => return Applicability::Indeterminate,
        Some(t) => t,
    };
    let early = match not_before {
        Some(b) => match parse_rfc3339_time(b.as_str()) {
            Some(start) => now.0 < start.0 || (now.0 == start.0 && now.1 < start.1),
            None => false,
        },
        None => false,
    };
    let late = match not_after {
        Some(a) => match parse_rfc3339_time(a.as_str()) {
            Some(end) => end.0 < now.0 || (end.0 == now.0 && end.1 < now.1),
            None => false,
        },
        None => false,
    };
    if early || late {
        Applicability::Inapplicable
    } else {
        Applicability::Applicable
    }
}

/// The position of the first delegation with id `id`.
pub open spec fn delegation_index(ds: Seq<Delegation>, id: Seq<char>) -> Option<int> {
    if exists|i: int| 0 <= i < ds.len() && (#[trigger] ds[i]).id@ == id {
        Some(
            choose|i: int|
                0 <= i < ds.len() && ds[i].id@ == id && forall|j: int|
                    0 <= j < i ==> (#[trigger] ds[j]).id@ != id,
        )
    } else {
        None
    }
}

proof fn lemma_delegation_first(ds: Seq<Delegation>, id: Seq<char>, i: int)
    requires
        0 <= i < ds.len(),
        ds[i].id@ == id,
        forall|j: int| 0 <= j < i ==> (#[trigger] ds[j]).id@ != id,
    ensures
        delegation_index(ds, id) == Some(i),
{
    let k = delegation_index(ds, id)->0;
    if k < i {
        assert(ds[k].id@ != id);
    } else if k > i {
        assert(ds[i].id@ != id);
    }
}

fn find_delegation(ds: &Vec<Delegation>, id: &str) -> (r: Option<usize>)
    ensures
        r matches Some(k) ==> k < ds@.len() && delegation_index(ds@, id@) == Some(k as int),
        r is None ==> delegation_index(ds@, id@) is None,
{
    let mut i: usize = 0;
    while i < ds.len()
        invariant
            i <= ds@.len(),
            forall|j: int| 0 <= j < i ==> (#[trigger] ds@[j]).id@ != id@,
        decreases ds.len() - i,
    {
        if text_eq(ds[i].id.as_str(), id) {
            proof {
                lemma_delegation_first(ds@, id@, i as int);
            }
            return Some(i);
        }
        i = i + 1;
    }
    None
}

/// How one delegation of a chain bears on a request: its operations, its
/// scopes, its conditions and its validity.
pub open spec fn delegation_states(d: Delegation, request: AuthorizationRequest) -> Seq<Applicability> {
    seq![
        state_of(d.operations@.len() == 0 || any_selector_matches(d.operations.deep_view(), request.operation@)),
        scope_state(set_match_spec(d.scopes@, d.scope_universe.deep_view(), request.targets@)),
        conditions_spec(d.conditions@, request),
        validity_spec(d.revoked, opt_text(d.not_before), opt_text(d.not_after), request),
    ]
}

/// The states of the delegations of a chain that the policy holds, in
/// chain order.
pub open spec fn chain_states(policy: PolicySet, chain: Seq<Seq<char>>, request: AuthorizationRequest) -> Seq<
    Applicability,
>
    decreases chain.len(),
{
    if chain.len() == 0 {
        Seq::empty()
    } else {
        chain_states(policy, chain.drop_last(), request) + match delegation_index(
            policy.delegations@,
            chain.last(),
        ) {
            Some(k) => delegation_states(policy.delegations@[k], request),
            None => Seq::empty(),
        }
    }
}

/// How a delegation chain bears on a request.
pub open spec fn chain_state(policy: PolicySet, chain: Seq<Seq<char>>, request: AuthorizationRequest) -> Applicability {
    combined(chain_states(policy, chain, request))
}

/// How the best of a set of chains bears on a request.
pub open spec fn best_chain_state(
    policy: PolicySet,
    chains: Set<Seq<Seq<char>>>,
    request: AuthorizationRequest,
) -> Applicability {
    if exists|c: Seq<Seq<char>>| chains.contains(c) && chain_state(policy, c, request)
        == Applicability::Applicable {
        Applicability::Applicable
    } else if exists|c: Seq<Seq<char>>| chains.contains(c) && chain_state(policy, c, request)
        == Applicability::Indeterminate {
        Applicability::Indeterminate
    } else {
        Applicability::Inapplicable
    }
}

/// The authority of a record as it bears on a request: inapplicable when
/// its source has no authority, otherwise as its best chain bears; with
/// the chains and the reason that the authority search gave.
#[verifier::opaque]
pub open spec fn authority_state_spec(
    policy: PolicySet,
    record: RecordRef,
    request: AuthorizationRequest,
) -> (Applicability, Set<Seq<Seq<char>>>, Seq<char>) {
    let a = authority_of(policy, record, Seq::empty());
    if !a.0 {
        (Applicability::Inapplicable, a.1, a.2)
    } else {
        (best_chain_state(policy, a.1, request), a.1, a.2)
    }
}

fn delegation_state_list(d: &Delegation, request: &AuthorizationRequest) -> (r: Vec<Applicability>)
    ensures
        r@ == delegation_states(*d, *request),
{
    let operation = if d.operations.len() == 0 || any_matches(&d.operations, request.operation.as_str()) {
        Applicability::Applicable
    } else {
        Applicability::Inapplicable
    };
    let scope = scope_state_of(
        scope_set_match(d.scopes.as_slice(), d.scope_universe.as_slice(), request.targets.as_slice()),
    );
    let conditions = conditions_state(&d.conditions, request);
    let validity = validity_state(d.revoked, &d.not_before, &d.not_after, request);
    let r = vec![operation, scope, conditions, validity];
    assert(r@ =~= delegation_states(*d, *request));
    r
}

fn chain_state_of(policy: &PolicySet, chain: &Vec<String>, request: &AuthorizationRequest) -> (r:
    Applicability)
    ensures
        r == chain_state(*policy, chain.deep_view(), *request),
{
    let mut states: Vec<Applicability> = Vec::new();
    let mut i: usize = 0;
    while i < chain.len()
        invariant
            i <= chain.len(),
            states@ == chain_states(*policy, chain.deep_view().take(i as int), *request),
        decreases chain.len() - i,
    {
        let ghost prefix = chain.deep_view().take(i + 1);
        proof {
            assert(prefix.drop_last() =~= chain.deep_view().take(i as int));
            assert(prefix.last() == chain.deep_view()[i as int]);
            assert(chain.deep_view()[i as int] == chain@[i as int]@);
            assert(chain_states(*policy, prefix, *request) == chain_states(
                *policy,
                chain.deep_view().take(i as int),
                *request,
            ) + match delegation_index(policy.delegations@, chain@[i as int]@) {
                Some(k) => delegation_states(policy.delegations@[k], *request),
                None => Seq::empty(),
            });
        }
        let ghost before = states@;
        match find_delegation(&policy.delegations, chain[i].as_str()) {
            Some(k) => {
                let mut more = delegation_state_list(&policy.delegations[k], request);
                states.append(&mut more);
                assert(chain_states(*policy, prefix, *request) =~= states@);
            },
            None => {
                assert(chain_states(*policy, prefix, *request) =~= states@);
            },
        }
        i = i + 1;
    }
    assert(chain.deep_view().take(i as int) =~= chain.deep_view());
    combine(&states)
}

/// The authority of a record as it bears on a request (see
/// `authority_state_spec`): its state, its chains (sorted, each once) and
/// the reason of the authority search.
pub fn authority_state(policy: &PolicySet, record: RecordRef<'_>, request: &AuthorizationRequest) -> (r: (
    Applicability,
    Vec<Vec<String>>,
    &'static str,
))
    ensures
        r.0 == authority_state_spec(*policy, record, *request).0,
        r.1.deep_view().to_set() == authority_state_spec(*policy, record, *request).1,
        sorted_chains(r.1.deep_view()),
        r.2@ == authority_state_spec(*policy, record, *request).2,
{
    reveal(authority_state_spec);
    let authority = source_authority(policy, record);
    if !authority.authorized {
        return (Applicability::Inapplicable, authority.chains, authority.reason);
    }
    let ghost cs = authority.chains.deep_view();
    let mut any_applicable = false;
    let mut any_indeterminate = false;
    let mut i: usize = 0;
    while i < authority.chains.len()
        invariant
            i <= authority.chains.len(),
            cs == authority.chains.deep_view(),
            any_applicable == exists|j: int|
                0 <= j < i && chain_state(*policy, #[trigger] cs[j], *request)
                    == Applicability::Applicable,
            any_indeterminate == exists|j: int|
                0 <= j < i && chain_state(*policy, #[trigger] cs[j], *request)
                    == Applicability::Indeterminate,
        decreases authority.chains.len() - i,
    {
        let state = chain_state_of(policy, &authority.chains[i], request);
        assert(authority.chains@[i as int].deep_view() == cs[i as int]);
        if state == Applicability::Applicable {
            any_applicable = true;
        }
        if state == Applicability::Indeterminate {
            any_indeterminate = true;
        }
        i = i + 1;
    }
    proof {
        let set = authority_of(*policy, record, Seq::empty()).1;
        assert(set == cs.to_set());
        if exists|c: Seq<Seq<char>>| set.contains(c) && chain_state(*policy, c, *request)
            == Applicability::Applicable {
            let c = choose|c: Seq<Seq<char>>| set.contains(c) && chain_state(*policy, c, *request)
                == Applicability::Applicable;
            let j = choose|j: int| 0 <= j < cs.len() && cs[j] == c;
            assert(chain_state(*policy, cs[j], *request) == Applicability::Applicable);
        }
        if any_applicable {
            let j = choose|j: int|
                0 <= j < i && chain_state(*policy, #[trigger] cs[j], *request)
                    == Applicability::Applicable;
            assert(set.contains(cs[j]));
        }
        if exists|c: Seq<Seq<char>>| set.contains(c) && chain_state(*policy, c, *request)
            == Applicability::Indeterminate {
            let c = choose|c: Seq<Seq<char>>| set.contains(c) && chain_state(*policy, c, *request)
                == Applicability::Indeterminate;
            let j = choose|j: int| 0 <= j < cs.len() && cs[j] == c;
            assert(chain_state(*policy, cs[j], *request) == Applicability::Indeterminate);
        }
        if any_indeterminate {
            let j = choose|j: int|
                0 <= j < i && chain_state(*policy, #[trigger] cs[j], *request)
                    == Applicability::Indeterminate;
            assert(set.contains(cs[j]));
        }
    }
    let outcome = if any_applicable {
        Applicability::Applicable
    } else if any_indeterminate {
        Applicability::Indeterminate
    } else {
        Applicability::Inapplicable
    };
    (outcome, authority.chains, authority.reason)
}

/// How a record's source bears on a request: inapplicable when the policy
/// has no such source, otherwise as the source's operations and scopes do.
pub open spec fn source_request_spec(policy: PolicySet, source_id: Seq<char>, request: AuthorizationRequest) -> Applicability {
    match source_index(policy.environment.sources@, source_id) {
        None => Applicability::Inapplicable,
        Some(i) => {
            let s = policy.environment.sources@[i];
            combined(
                seq![
                    state_of(any_selector_matches(s.operations.deep_view(), request.operation@)),
                    scope_state(set_match_spec(s.scopes@, s.scope_universe.deep_view(), request.targets@)),
                ],
            )
        },
    }
}

/// How a record's source bears on a request (see `source_request_spec`).
pub fn source_request_state(policy: &PolicySet, source_id: &str, request: &AuthorizationRequest) -> (r:
    Applicability)
    ensures
        r == source_request_spec(*policy, source_id@, *request),
{
    proof {
        lemma_source_index(policy.environment.sources@, source_id@);
    }
    let i = match find_source(&policy.environment.sources, source_id) {
        None => return Applicability::Inapplicable,
        Some(i) => i,
    };
    let s = &policy.environment.sources[i];
    let operation = if any_matches(&s.operations, request.operation.as_str()) {
        Applicability::Applicable
    } else {
        Applicability::Inapplicable
    };
    let scope = scope_state_of(
        scope_set_match(s.scopes.as_slice(), s.scope_universe.as_slice(), request.targets.as_slice()),
    );
    let states = vec![operation, scope];
    assert(states@ =~= seq![operation, scope]);
    combine(&states)
}

/// The position of the first principal with id `id`.
pub open spec fn principal_index(ps: Seq<Principal>, id: Seq<char>) -> Option<int> {
    if exists|i: int| 0 <= i < ps.len() && (#[trigger] ps[i]).id@ == id {
        Some(
            choose|i: int|
                0 <= i < ps.len() && ps[i].id@ == id && forall|j: int|
                    0 <= j < i ==> (#[trigger] ps[j]).id@ != id,
        )
    } else {
        None
    }
}

fn find_principal(ps: &Vec<Principal>, id: &str) -> (r: Option<usize>)
    ensures
        r matches Some(k) ==> k < ps@.len() && principal_index(ps@, id@) == Some(k as int),
        r is None ==> principal_index(ps@, id@) is None,
{
    let mut i: usize = 0;
    while i < ps.len()
        invariant
            i <= ps@.len(),
            forall|j: int| 0 <= j < i ==> (#[trigger] ps@[j]).id@ != id@,
        decreases ps.len() - i,
    {
        if text_eq(ps[i].id.as_str(), id) {
            proof {
                let k = principal_index(ps@, id@)->0;
                if k < i {
                    assert(ps@[k].id@ != id@);
                } else if k > i {
                    assert(ps@[i as int].id@ != id@);
                }
            }
            return Some(i);
        }
        i = i + 1;
    }
    None
}

/// One reason when `b` holds, none otherwise.
pub open spec fn reason_if(b: bool, text: Seq<char>) -> Seq<Seq<char>> {
    if b {
        seq![text]
    } else {
        Seq::empty()
    }
}

/// The authority state of the principal an assignment names.
pub open spec fn principal_authority(policy: PolicySet, a: Assignment, request: AuthorizationRequest) -> Applicability {
    match principal_index(policy.principals@, a.principal@) {
        None => Applicability::Inapplicable,
        Some(k) => authority_state_spec(policy, RecordRef::Principal(&policy.principals@[k]), request).0,
    }
}

/// Whether an assignment's operations let the request through.
pub open spec fn assignment_operation(a: Assignment, request: AuthorizationRequest) -> bool {
    a.operations@.len() == 0 || any_selector_matches(a.operations.deep_view(), request.operation@)
}

/// How an assignment bears on a request: its principal must be the
/// request's, the principal and the assignment authorized; its operations,
/// its source, its scopes, its conditions and its validity must all apply.
#[verifier::opaque]
pub open spec fn assignment_applicability(
    policy: PolicySet,
    a: Assignment,
    request: AuthorizationRequest,
) -> Applicability {
    let record = authority_state_spec(policy, RecordRef::Assignment(&a), request).0;
    combined(
        seq![
            if a.principal@ == request.principal@ {
                combined(seq![principal_authority(policy, a, request), record])
            } else {
                Applicability::Inapplicable
            },
            state_of(assignment_operation(a, request)),
            source_request_spec(policy, a.source@, request),
            scope_state(set_match_spec(a.scopes@, Seq::empty(), request.targets@)),
            conditions_spec(a.conditions@, request),
            validity_spec(a.revoked, opt_text(a.not_before), opt_text(a.not_after), request),
        ],
    )
}

/// An assignment applies only to its own principal and only when every one
/// of its constraints holds: it names the request's principal, that
/// principal and the assignment itself are authorized, its operations are
/// empty or admit the request's operation, its source's envelope, its
/// scopes, its conditions and its validity window all apply.
pub proof fn lemma_applicable_assignment(policy: PolicySet, a: Assignment, request: AuthorizationRequest)
    requires
        assignment_applicability(policy, a, request) == Applicability::Applicable,
    ensures
        a.principal@ == request.principal@,
        principal_authority(policy, a, request) == Applicability::Applicable,
        authority_state_spec(policy, RecordRef::Assignment(&a), request).0 == Applicability::Applicable,
        a.operations@.len() == 0 || any_selector_matches(a.operations.deep_view(), request.operation@),
        source_request_spec(policy, a.source@, request) == Applicability::Applicable,
        set_match_spec(a.scopes@, Seq::empty(), request.targets@) == Some(true),
        conditions_spec(a.conditions@, request) == Applicability::Applicable,
        validity_spec(a.revoked, opt_text(a.not_before), opt_text(a.not_after), request)
            == Applicability::Applicable,
{
    reveal(assignment_applicability);
    let record = authority_state_spec(policy, RecordRef::Assignment(&a), request).0;
    let own = if a.principal@ == request.principal@ {
        combined(seq![principal_authority(policy, a, request), record])
    } else {
        Applicability::Inapplicable
    };
    let parts = seq![
        own,
        state_of(assignment_operation(a, request)),
        source_request_spec(policy, a.source@, request),
        scope_state(set_match_spec(a.scopes@, Seq::empty(), request.targets@)),
        conditions_spec(a.conditions@, request),
        validity_spec(a.revoked, opt_text(a.not_before), opt_text(a.not_after), request),
    ];
    lemma_combined_parts(parts);
    assert(parts[0] == Applicability::Applicable);
    assert(parts[1] == Applicability::Applicable);
    assert(parts[2] == Applicability::Applicable);
    assert(parts[3] == Applicability::Applicable);
    assert(parts[4] == Applicability::Applicable);
    assert(parts[5] == Applicability::Applicable);
    lemma_combined_parts(seq![principal_authority(policy, a, request), record]);
    assert(seq![principal_authority(policy, a, request), record][0] == Applicability::Applicable);
    assert(seq![principal_authority(policy, a, request), record][1] == Applicability::Applicable);
}

/// Why an assignment does not simply apply, in a fixed order.
pub open spec fn assignment_reasons(
    policy: PolicySet,
    a: Assignment,
    request: AuthorizationRequest,
) -> Seq<Seq<char>> {
    reason_if(a.principal@ != request.principal@, "assignment.principal-mismatch"@) + reason_if(
        principal_authority(policy, a, request) == Applicability::Inapplicable,
        "principal.unauthorized"@,
    ) + reason_if(
        authority_state_spec(policy, RecordRef::Assignment(&a), request).0
            == Applicability::Inapplicable,
        "source.unauthorized"@,
    ) + reason_if(!assignment_operation(a, request), "operation.mismatch"@) + reason_if(
        assignment_applicability(policy, a, request) == Applicability::Indeterminate,
        "assignment.indeterminate"@,
    )
}

pub(crate) fn push_reason_if(reasons: &mut Vec<String>, b: bool, text: &str)
    ensures
        final(reasons).deep_view() == old(reasons).deep_view() + reason_if(b, text@),
{
    let ghost before = reasons.deep_view();
    if b {
        reasons.push(String::from_str(text));
        assert(reasons.deep_view() =~= before + reason_if(b, text@));
    } else {
        assert(reasons.deep_view() =~= before + reason_if(b, text@));
    }
}

/// How an assignment bears on a request, with its reasons (see
/// `assignment_applicability` and `assignment_reasons`).
pub fn assignment_state(policy: &PolicySet, assignment: &Assignment, request: &AuthorizationRequest) -> (r:
    AssignmentEvaluation)
    ensures
        r.id@ == assignment.id@,
        r.applicability == assignment_applicability(*policy, *assignment, *request),
        r.reasons.deep_view() == assignment_reasons(*policy, *assignment, *request),
{
    reveal(assignment_applicability);
    let principal = match find_principal(&policy.principals, assignment.principal.as_str()) {
        None => Applicability::Inapplicable,
        Some(k) => authority_state(policy, RecordRef::Principal(&policy.principals[k]), request).0,
    };
    let record = authority_state(policy, RecordRef::Assignment(assignment), request).0;
    let operation = assignment.operations.len() == 0 || any_matches(
        &assignment.operations,
        request.operation.as_str(),
    );
    let no_universe: Vec<String> = Vec::new();
    assert(no_universe.deep_view() =~= Seq::<Seq<char>>::empty());
    let scope = scope_state_of(
        scope_set_match(assignment.scopes.as_slice(), no_universe.as_slice(), request.targets.as_slice()),
    );
    let same = text_eq(assignment.principal.as_str(), request.principal.as_str());
    let first = if same {
        let pair = vec![principal, record];
        assert(pair@ =~= seq![principal, record]);
        combine(&pair)
    } else {
        Applicability::Inapplicable
    };
    let states = vec![
        first,
        if operation {
            Applicability::Applicable
        } else {
            Applicability::Inapplicable
        },
        source_request_state(policy, assignment.source.as_str(), request),
        scope,
        conditions_state(&assignment.conditions, request),
        validity_state(assignment.revoked, &assignment.not_before, &assignment.not_after, request),
    ];
    let applicability = combine(&states);
    proof {
        assert(states@ =~= seq![
            if assignment.principal@ == request.principal@ {
                combined(seq![principal_authority(*policy, *assignment, *request), record])
            } else {
                Applicability::Inapplicable
            },
            state_of(assignment_operation(*assignment, *request)),
            source_request_spec(*policy, assignment.source@, *request),
            scope_state(set_match_spec(assignment.scopes@, Seq::empty(), request.targets@)),
            conditions_spec(assignment.conditions@, *request),
            validity_spec(
                assignment.revoked,
                opt_text(assignment.not_before),
                opt_text(assignment.not_after),
                *request,
            ),
        ]);
    }
    let mut reasons: Vec<String> = Vec::new();
    assert(reasons.deep_view() =~= Seq::<Seq<char>>::empty());
    push_reason_if(&mut reasons, !same, "assignment.principal-mismatch");
    push_reason_if(&mut reasons, principal == Applicability::Inapplicable, "principal.unauthorized");
    push_reason_if(&mut reasons, record == Applicability::Inapplicable, "source.unauthorized");
    push_reason_if(&mut reasons, !operation, "operation.mismatch");
    push_reason_if(
        &mut reasons,
        applicability == Applicability::Indeterminate,
        "assignment.indeterminate",
    );
    proof {
        assert(reasons.deep_view() =~= assignment_reasons(*policy, *assignment, *request));
    }
    AssignmentEvaluation { id: assignment.id.clone(), applicability, reasons }
}

} // verus!
