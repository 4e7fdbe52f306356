//! Pure policy resolution: how each statement bears on a request, the
//! diagnostics, and the decision.
use crate::policy::authority::RecordRef;
use crate::policy::cycles::{cycle_diagnostics, cycle_upto, diag_view, diag_views};
use crate::policy::model::{
    canonical_text, Applicability, Assignment, AssignmentEvaluation, AuthorizationRequest, Diagnostic,
    PolicySet, PureAuthorizationResult, ScopeValue, SnapshotBinding, Statement, StatementEvaluation,
};
use crate::policy::reach::{
    collect_reach, merge_chains, policy_reach, reach_chains, reach_paths, reach_sorted, reach_unsure,
    reach_views, reached_roles, role_reach, role_sets, unsure_roles,
};
use crate::policy::scope::{scope_set_match, set_match_spec};
use crate::policy::state::{
    any_matches, any_selector_matches, assignment_applicability, assignment_reasons, assignment_state,
    authority_state, authority_state_spec, combine, combined, conditions_spec, conditions_state,
    opt_text, push_reason_if, reason_if, scope_state, scope_state_of, source_request_spec,
    source_request_state, state_of, validity_spec, validity_state, lemma_combined_parts,
};
use crate::text::{sorted_chains, sorted_texts, text_eq};
use vstd::prelude::*;

verus! {

/// How reaching its role bears on a statement.
pub open spec fn statement_reach_state(
    reach: Seq<(Seq<char>, Seq<Seq<char>>, bool, Set<Seq<Seq<char>>>)>,
    role: Seq<char>,
) -> Applicability {
    if reach_paths(reach, role).len() == 0 {
        Applicability::Inapplicable
    } else if reach_unsure(reach, role) {
        Applicability::Indeterminate
    } else {
        Applicability::Applicable
    }
}

/// How a statement bears on a request, given the roles reached.
#[verifier::opaque]
pub open spec fn statement_applicability(
    policy: PolicySet,
    st: Statement,
    request: AuthorizationRequest,
    reach: Seq<(Seq<char>, Seq<Seq<char>>, bool, Set<Seq<Seq<char>>>)>,
) -> Applicability {
    combined(
        seq![
            authority_state_spec(policy, RecordRef::Statement(&st), request).0,
            statement_reach_state(reach, st.role@),
            state_of(any_selector_matches(st.operations.deep_view(), request.operation@)),
            scope_state(set_match_spec(st.scopes@, Seq::empty(), request.targets@)),
            conditions_spec(st.conditions@, request),
            source_request_spec(policy, st.source@, request),
            validity_spec(st.revoked, opt_text(st.not_before), opt_text(st.not_after), request),
        ],
    )
}

/// A statement applies only when every one of its constraints holds: its
/// own authority applies, its role is reached by the request's principal,
/// one of its operation selectors admits the request's operation, its
/// scopes cover every target, its conditions and its source's envelope
/// apply, and its validity window admits the request's time.
pub proof fn lemma_applicable_statement(
    policy: PolicySet,
    st: Statement,
    request: AuthorizationRequest,
    reach: Seq<(Seq<char>, Seq<Seq<char>>, bool, Set<Seq<Seq<char>>>)>,
)
    requires
        statement_applicability(policy, st, request, reach) == Applicability::Applicable,
    ensures
        authority_state_spec(policy, RecordRef::Statement(&st), request).0 == Applicability::Applicable,
        reach_paths(reach, st.role@).len() > 0,
        any_selector_matches(st.operations.deep_view(), request.operation@),
        set_match_spec(st.scopes@, Seq::empty(), request.targets@) == Some(true),
        conditions_spec(st.conditions@, request) == Applicability::Applicable,
        source_request_spec(policy, st.source@, request) == Applicability::Applicable,
        validity_spec(st.revoked, opt_text(st.not_before), opt_text(st.not_after), request)
            == Applicability::Applicable,
{
    reveal(statement_applicability);
    let parts = seq![
        authority_state_spec(policy, RecordRef::Statement(&st), request).0,
        statement_reach_state(reach, st.role@),
        state_of(any_selector_matches(st.operations.deep_view(), request.operation@)),
        scope_state(set_match_spec(st.scopes@, Seq::empty(), request.targets@)),
        conditions_spec(st.conditions@, request),
        source_request_spec(policy, st.source@, request),
        validity_spec(st.revoked, opt_text(st.not_before), opt_text(st.not_after), request),
    ];
    lemma_combined_parts(parts);
    assert(parts[0] == Applicability::Applicable);
    assert(parts[1] == Applicability::Applicable);
    assert(parts[2] == Applicability::Applicable);
    assert(parts[3] == Applicability::Applicable);
    assert(parts[4] == Applicability::Applicable);
    assert(parts[5] == Applicability::Applicable);
    assert(parts[6] == Applicability::Applicable);
}

/// Why a statement does not simply apply, in a fixed order.
pub open spec fn statement_reasons(
    policy: PolicySet,
    st: Statement,
    request: AuthorizationRequest,
    reach: Seq<(Seq<char>, Seq<Seq<char>>, bool, Set<Seq<Seq<char>>>)>,
) -> Seq<Seq<char>> {
    let own = authority_state_spec(policy, RecordRef::Statement(&st), request);
    let scope = scope_state(set_match_spec(st.scopes@, Seq::empty(), request.targets@));
    let conditions = conditions_spec(st.conditions@, request);
    (if own.0 == Applicability::Inapplicable {
        seq![own.2]
    } else {
        reason_if(own.0 == Applicability::Indeterminate, "delegation.indeterminate"@)
    }) + reason_if(reach_paths(reach, st.role@).len() == 0, "role.unreachable"@) + reason_if(
        !any_selector_matches(st.operations.deep_view(), request.operation@),
        "operation.mismatch"@,
    ) + (if scope == Applicability::Indeterminate {
        seq!["scope.indeterminate"@]
    } else {
        reason_if(scope == Applicability::Inapplicable, "scope.mismatch"@)
    }) + (if conditions == Applicability::Indeterminate {
        seq!["condition.indeterminate"@]
    } else {
        reason_if(conditions == Applicability::Inapplicable, "condition.unsatisfied"@)
    })
}

/// The delegation chains behind a statement: its own, then those of the
/// reaches of its role.
pub open spec fn statement_chains(
    policy: PolicySet,
    st: Statement,
    request: AuthorizationRequest,
    reach: Seq<(Seq<char>, Seq<Seq<char>>, bool, Set<Seq<Seq<char>>>)>,
) -> Set<Seq<Seq<char>>> {
    authority_state_spec(policy, RecordRef::Statement(&st), request).1 + reach_chains(reach, st.role@)
}

fn statement_state(
    policy: &PolicySet,
    st: &Statement,
    request: &AuthorizationRequest,
    reach: &Vec<(String, Vec<String>, bool, Vec<Vec<String>>)>,
) -> (r: StatementEvaluation)
    requires
        reach_sorted(reach@),
    ensures
        r.id@ == st.id@,
        r.effect@ == st.effect@,
        r.source@ == st.source@,
        r.applicability == statement_applicability(*policy, *st, *request, reach_views(reach@)),
        r.reasons.deep_view() == statement_reasons(*policy, *st, *request, reach_views(reach@)),
        r.assignment_paths.deep_view() == reach_paths(reach_views(reach@), st.role@),
        sorted_chains(r.delegation_chains.deep_view()),
        r.delegation_chains.deep_view().to_set() == statement_chains(
            *policy,
            *st,
            *request,
            reach_views(reach@),
        ),
{
    let own = authority_state(policy, RecordRef::Statement(st), request);
    let (paths, unsure, role_chains) = role_reach(reach, st.role.as_str());
    let assignment = if paths.len() == 0 {
        Applicability::Inapplicable
    } else if unsure {
        Applicability::Indeterminate
    } else {
        Applicability::Applicable
    };
    let operation = if any_matches(&st.operations, request.operation.as_str()) {
        Applicability::Applicable
    } else {
        Applicability::Inapplicable
    };
    let no_universe: Vec<String> = Vec::new();
    assert(no_universe.deep_view() =~= Seq::<Seq<char>>::empty());
    let scope = scope_state_of(
        scope_set_match(st.scopes.as_slice(), no_universe.as_slice(), request.targets.as_slice()),
    );
    let conditions = conditions_state(&st.conditions, request);
    let states = vec![
        own.0,
        assignment,
        operation,
        scope,
        conditions,
        source_request_state(policy, st.source.as_str(), request),
        validity_state(st.revoked, &st.not_before, &st.not_after, request),
    ];
    let applicability = combine(&states);
    proof {
        reveal(statement_applicability);
        assert(states@ =~= seq![
            authority_state_spec(*policy, RecordRef::Statement(st), *request).0,
            statement_reach_state(reach_views(reach@), st.role@),
            state_of(any_selector_matches(st.operations.deep_view(), request.operation@)),
            scope_state(set_match_spec(st.scopes@, Seq::empty(), request.targets@)),
            conditions_spec(st.conditions@, *request),
            source_request_spec(*policy, st.source@, *request),
            validity_spec(st.revoked, opt_text(st.not_before), opt_text(st.not_after), *request),
        ]);
    }
    let mut reasons: Vec<String> = Vec::new();
    let ghost r0 = reasons.deep_view();
    if own.0 == Applicability::Inapplicable {
        reasons.push(String::from_str(own.2));
        assert(reasons.deep_view() =~= r0.push(own.2@));
    } else {
        push_reason_if(&mut reasons, own.0 == Applicability::Indeterminate, "delegation.indeterminate");
    }
    push_reason_if(&mut reasons, paths.len() == 0, "role.unreachable");
    push_reason_if(&mut reasons, operation == Applicability::Inapplicable, "operation.mismatch");
    if scope == Applicability::Indeterminate {
        push_reason_if(&mut reasons, true, "scope.indeterminate");
    } else {
        push_reason_if(&mut reasons, scope == Applicability::Inapplicable, "scope.mismatch");
    }
    if conditions == Applicability::Indeterminate {
        push_reason_if(&mut reasons, true, "condition.indeterminate");
    } else {
        push_reason_if(&mut reasons, conditions == Applicability::Inapplicable, "condition.unsatisfied");
    }
    proof {
        assert(reasons.deep_view() =~= statement_reasons(*policy, *st, *request, reach_views(reach@)));
    }
    let mut chains = own.1;
    merge_chains(&mut chains, &role_chains);
    StatementEvaluation {
        id: st.id.clone(),
        effect: st.effect.clone(),
        source: st.source.clone(),
        applicability,
        reasons,
        assignment_paths: paths,
        delegation_chains: chains,
    }
}

fn copy_diagnostic(d: &Diagnostic) -> (r: Diagnostic)
    ensures
        diag_view(r) == diag_view(*d),
{
    Diagnostic {
        code: d.code.clone(),
        severity: d.severity.clone(),
        message: d.message.clone(),
        record_id: match &d.record_id {
            Some(x) => Some(x.clone()),
            None => None,
        },
    }
}

/// The request's session claims roles.
pub open spec fn session_claims_roles(request: AuthorizationRequest) -> bool {
    exists|i: int| 0 <= i < request.session@.len() && (#[trigger] request.session@[i]).0@ == "roles"@
}

/// The diagnostics of a resolution: the policy's own, the inheritance
/// cycles, and a warning when the session claims roles.
pub open spec fn result_diagnostics(policy: PolicySet, request: AuthorizationRequest) -> Seq<
    (Seq<char>, Seq<char>, Seq<char>, Option<Seq<char>>),
> {
    diag_views(policy.diagnostics@) + cycle_upto(policy, policy.roles@.len() as int).1 + if session_claims_roles(
        request,
    ) {
        seq![
            (
                "session.roles-ignored"@,
                "warning"@,
                "Session-declared roles are not authoritative"@,
                None::<Seq<char>>,
            ),
        ]
    } else {
        Seq::empty()
    }
}

/// Some statement of effect `effect` bears on the request as `state`.
pub open spec fn some_statement(
    policy: PolicySet,
    request: AuthorizationRequest,
    effect: Seq<char>,
    state: Applicability,
) -> bool {
    exists|i: int|
        0 <= i < policy.statements@.len() && (#[trigger] policy.statements@[i]).effect@ == effect
            && statement_applicability(policy, policy.statements@[i], request, policy_reach(policy, request))
            == state
}

/// The decision and its reason: an invalid policy denies; an applicable
/// deny denies; a deny that cannot be told denies; an applicable allow
/// allows; anything else denies by default.
pub open spec fn decision_spec(policy: PolicySet, request: AuthorizationRequest) -> (Seq<char>, Seq<char>) {
    let diags = result_diagnostics(policy, request);
    if exists|i: int| 0 <= i < diags.len() && (#[trigger] diags[i]).1 == "error"@ {
        ("DENY"@, "policy.invalid"@)
    } else if some_statement(policy, request, "deny"@, Applicability::Applicable) {
        ("DENY"@, "deny.explicit"@)
    } else if some_statement(policy, request, "deny"@, Applicability::Indeterminate) {
        ("DENY"@, "deny.policy-indeterminate"@)
    } else if some_statement(policy, request, "allow"@, Applicability::Applicable) {
        ("ALLOW"@, "allow.applicable"@)
    } else {
        ("DENY"@, "deny.default"@)
    }
}

/// Resolution fails closed: a request is allowed only when the policy has
/// no error, no deny statement applies to it or cannot be told not to, and
/// some allow statement applies. An applicable or indeterminate deny always
/// denies, whatever allows.
pub proof fn lemma_allow_is_fail_closed(policy: PolicySet, request: AuthorizationRequest)
    ensures
        decision_spec(policy, request).0 == "ALLOW"@ ==> {
            &&& !exists|i: int|
                0 <= i < result_diagnostics(policy, request).len() && (#[trigger] result_diagnostics(
                    policy,
                    request,
                )[i]).1 == "error"@
            &&& !some_statement(policy, request, "deny"@, Applicability::Applicable)
            &&& !some_statement(policy, request, "deny"@, Applicability::Indeterminate)
            &&& some_statement(policy, request, "allow"@, Applicability::Applicable)
        },
        some_statement(policy, request, "deny"@, Applicability::Applicable) || some_statement(
            policy,
            request,
            "deny"@,
            Applicability::Indeterminate,
        ) ==> decision_spec(policy, request).0 == "DENY"@,
{
    reveal_strlit("ALLOW");
    reveal_strlit("DENY");
    assert("ALLOW"@ != "DENY"@) by {
        assert("ALLOW"@[0] != "DENY"@[0]);
    }
}

/// An applicable allow is honoured: when the policy has no error and no
/// deny statement applies or cannot be told not to, a request that some
/// allow statement applies to is allowed as `allow.applicable`, and one
/// that no allow statement applies to is denied as `deny.default`.
pub proof fn lemma_allow_is_honoured(policy: PolicySet, request: AuthorizationRequest, i: int)
    requires
        forall|k: int|
            0 <= k < result_diagnostics(policy, request).len() ==> (#[trigger] result_diagnostics(
                policy,
                request,
            )[k]).1 != "error"@,
        forall|k: int|
            0 <= k < policy.statements@.len() && (#[trigger] policy.statements@[k]).effect@ == "deny"@
                ==> statement_applicability(policy, policy.statements@[k], request, policy_reach(policy, request))
                == Applicability::Inapplicable,
    ensures
        (0 <= i < policy.statements@.len() && policy.statements@[i].effect@ == "allow"@
            && statement_applicability(policy, policy.statements@[i], request, policy_reach(policy, request))
            == Applicability::Applicable) ==> decision_spec(policy, request) == ("ALLOW"@, "allow.applicable"@),
        (forall|k: int|
            0 <= k < policy.statements@.len() && (#[trigger] policy.statements@[k]).effect@ == "allow"@
                ==> statement_applicability(policy, policy.statements@[k], request, policy_reach(policy, request))
                != Applicability::Applicable) ==> decision_spec(policy, request) == ("DENY"@, "deny.default"@),
{
    let diags = result_diagnostics(policy, request);
    assert(!exists|k: int| 0 <= k < diags.len() && (#[trigger] diags[k]).1 == "error"@);
    assert(!some_statement(policy, request, "deny"@, Applicability::Applicable));
    assert(!some_statement(policy, request, "deny"@, Applicability::Indeterminate));
    if 0 <= i < policy.statements@.len() && policy.statements@[i].effect@ == "allow"@ && statement_applicability(
        policy,
        policy.statements@[i],
        request,
        policy_reach(policy, request),
    ) == Applicability::Applicable {
        assert(some_statement(policy, request, "allow"@, Applicability::Applicable));
    }
}

/// The evaluation of the `i`-th statement is the one its spec gives.
pub open spec fn statement_evaluated(
    e: StatementEvaluation,
    policy: PolicySet,
    st: Statement,
    request: AuthorizationRequest,
) -> bool {
    let reach = policy_reach(policy, request);
    &&& e.id@ == st.id@
    &&& e.effect@ == st.effect@
    &&& e.source@ == st.source@
    &&& e.applicability == statement_applicability(policy, st, request, reach)
    &&& e.reasons.deep_view() == statement_reasons(policy, st, request, reach)
    &&& e.assignment_paths.deep_view() == reach_paths(reach, st.role@)
    &&& sorted_chains(e.delegation_chains.deep_view())
    &&& e.delegation_chains.deep_view().to_set() == statement_chains(policy, st, request, reach)
}

/// The evaluation of an assignment is the one its spec gives.
pub open spec fn assignment_evaluated(
    e: AssignmentEvaluation,
    policy: PolicySet,
    a: Assignment,
    request: AuthorizationRequest,
) -> bool {
    &&& e.id@ == a.id@
    &&& e.applicability == assignment_applicability(policy, a, request)
    &&& e.reasons.deep_view() == assignment_reasons(policy, a, request)
}

fn evaluate_assignments(policy: &PolicySet, request: &AuthorizationRequest) -> (r: Vec<AssignmentEvaluation>)
    ensures
        r@.len() == policy.assignments@.len(),
        forall|i: int|
            0 <= i < r@.len() ==> assignment_evaluated(#[trigger] r@[i], *policy, policy.assignments@[i], *request),
{
    let mut out: Vec<AssignmentEvaluation> = Vec::new();
    let mut i: usize = 0;
    while i < policy.assignments.len()
        invariant
            i <= policy.assignments@.len(),
            out@.len() == i,
            forall|j: int|
                0 <= j < i ==> assignment_evaluated(#[trigger] out@[j], *policy, policy.assignments@[j], *request),
        decreases policy.assignments.len() - i,
    {
        let e = assignment_state(policy, &policy.assignments[i], request);
        out.push(e);
        i = i + 1;
    }
    out
}

fn evaluate_statements(
    policy: &PolicySet,
    request: &AuthorizationRequest,
    reach: &Vec<(String, Vec<String>, bool, Vec<Vec<String>>)>,
) -> (r: Vec<StatementEvaluation>)
    requires
        reach_sorted(reach@),
        reach_views(reach@) == policy_reach(*policy, *request),
    ensures
        r@.len() == policy.statements@.len(),
        forall|i: int|
            0 <= i < r@.len() ==> statement_evaluated(#[trigger] r@[i], *policy, policy.statements@[i], *request),
{
    let mut out: Vec<StatementEvaluation> = Vec::new();
    let mut i: usize = 0;
    while i < policy.statements.len()
        invariant
            i <= policy.statements@.len(),
            reach_sorted(reach@),
            reach_views(reach@) == policy_reach(*policy, *request),
            out@.len() == i,
            forall|j: int|
                0 <= j < i ==> statement_evaluated(#[trigger] out@[j], *policy, policy.statements@[j], *request),
        decreases policy.statements.len() - i,
    {
        let e = statement_state(policy, &policy.statements[i], request, reach);
        out.push(e);
        i = i + 1;
    }
    out
}

fn gather_diagnostics(policy: &PolicySet, request: &AuthorizationRequest) -> (r: Vec<Diagnostic>)
    ensures
        diag_views(r@) == result_diagnostics(*policy, *request),
{
    let mut out: Vec<Diagnostic> = Vec::new();
    let mut i: usize = 0;
    while i < policy.diagnostics.len()
        invariant
            i <= policy.diagnostics@.len(),
            diag_views(out@) == diag_views(policy.diagnostics@).take(i as int),
        decreases policy.diagnostics.len() - i,
    {
        let ghost before = out@;
        let d = copy_diagnostic(&policy.diagnostics[i]);
        out.push(d);
        assert(diag_views(out@) =~= diag_views(before).push(diag_view(d)));
        assert(diag_views(out@) =~= diag_views(policy.diagnostics@).take(i + 1));
        i = i + 1;
    }
    assert(diag_views(policy.diagnostics@).take(i as int) =~= diag_views(policy.diagnostics@));
    let mut cycles = cycle_diagnostics(policy);
    let ghost mid = out@;
    out.append(&mut cycles);
    assert(diag_views(out@) =~= diag_views(mid) + cycle_upto(*policy, policy.roles@.len() as int).1);
    let mut claims = false;
    let mut k: usize = 0;
    while k < request.session.len()
        invariant
            k <= request.session@.len(),
            claims == exists|j: int| 0 <= j < k && (#[trigger] request.session@[j]).0@ == "roles"@,
        decreases request.session.len() - k,
    {
        if text_eq(request.session[k].0.as_str(), "roles") {
            claims = true;
        }
        k = k + 1;
    }
    let ghost before = out@;
    if claims {
        out.push(
            Diagnostic {
                code: String::from_str("session.roles-ignored"),
                severity: String::from_str("warning"),
                message: String::from_str("Session-declared roles are not authoritative"),
                record_id: None,
            },
        );
    }
    assert(diag_views(out@) =~= result_diagnostics(*policy, *request));
    out
}

fn canonical_targets(targets: &Vec<ScopeValue>) -> (r: Vec<String>)
    ensures
        r.deep_view() == targets@.map_values(|t: ScopeValue| canonical_text(t.kind@, t.expression@)),
{
    let mut out: Vec<String> = Vec::new();
    let mut i: usize = 0;
    while i < targets.len()
        invariant
            i <= targets@.len(),
            out.deep_view() == targets@.map_values(|t: ScopeValue| canonical_text(t.kind@, t.expression@)).take(
                i as int,
            ),
        decreases targets.len() - i,
    {
        let ghost before = out.deep_view();
        let c = targets[i].canonical();
        out.push(c);
        assert(out.deep_view() =~= before.push(c@));
        assert(out.deep_view() =~= targets@.map_values(
            |t: ScopeValue| canonical_text(t.kind@, t.expression@),
        ).take(i + 1));
        i = i + 1;
    }
    assert(targets@.map_values(|t: ScopeValue| canonical_text(t.kind@, t.expression@)).take(i as int)
        =~= targets@.map_values(|t: ScopeValue| canonical_text(t.kind@, t.expression@)));
    out
}

fn decide(
    policy: &PolicySet,
    request: &AuthorizationRequest,
    diagnostics: &Vec<Diagnostic>,
    statements: &Vec<StatementEvaluation>,
) -> (r: (&'static str, &'static str))
    requires
        diag_views(diagnostics@) == result_diagnostics(*policy, *request),
        statements@.len() == policy.statements@.len(),
        forall|i: int|
            0 <= i < statements@.len() ==> statement_evaluated(
                #[trigger] statements@[i],
                *policy,
                policy.statements@[i],
                *request,
            ),
    ensures
        (r.0@, r.1@) == decision_spec(*policy, *request),
{
    let ghost dv = diag_views(diagnostics@);
    let mut invalid = false;
    let mut i: usize = 0;
    while i < diagnostics.len()
        invariant
            dv == diag_views(diagnostics@),
            i <= diagnostics@.len(),
            invalid == exists|j: int| 0 <= j < i && (#[trigger] dv[j]).1 == "error"@,
        decreases diagnostics.len() - i,
    {
        if text_eq(diagnostics[i].severity.as_str(), "error") {
            assert(dv[i as int].1 == "error"@);
            invalid = true;
        }
        i = i + 1;
    }
    let mut deny = false;
    let mut unsure_deny = false;
    let mut allow = false;
    let mut k: usize = 0;
    while k < statements.len()
        invariant
            k <= statements@.len(),
            statements@.len() == policy.statements@.len(),
            forall|i: int|
                0 <= i < statements@.len() ==> statement_evaluated(
                    #[trigger] statements@[i],
                    *policy,
                    policy.statements@[i],
                    *request,
                ),
            deny == exists|j: int|
                0 <= j < k && (#[trigger] policy.statements@[j]).effect@ == "deny"@ && statement_applicability(
                    *policy,
                    policy.statements@[j],
                    *request,
                    policy_reach(*policy, *request),
                ) == Applicability::Applicable,
            unsure_deny == exists|j: int|
                0 <= j < k && (#[trigger] policy.statements@[j]).effect@ == "deny"@ && statement_applicability(
                    *policy,
                    policy.statements@[j],
                    *request,
                    policy_reach(*policy, *request),
                ) == Applicability::Indeterminate,
            allow == exists|j: int|
                0 <= j < k && (#[trigger] policy.statements@[j]).effect@ == "allow"@ && statement_applicability(
                    *policy,
                    policy.statements@[j],
                    *request,
                    policy_reach(*policy, *request),
                ) == Applicability::Applicable,
        decreases statements.len() - k,
    {
        let e = &statements[k];
        assert(statement_evaluated(statements@[k as int], *policy, policy.statements@[k as int], *request));
        let is_deny = text_eq(e.effect.as_str(), "deny");
        let is_allow = text_eq(e.effect.as_str(), "allow");
        if is_deny && e.applicability == Applicability::Applicable {
            deny = true;
        }
        if is_deny && e.applicability == Applicability::Indeterminate {
            unsure_deny = true;
        }
        if is_allow && e.applicability == Applicability::Applicable {
            allow = true;
        }
        k = k + 1;
    }
    if invalid {
        ("DENY", "policy.invalid")
    } else if deny {
        ("DENY", "deny.explicit")
    } else if unsure_deny {
        ("DENY", "deny.policy-indeterminate")
    } else if allow {
        ("ALLOW", "allow.applicable")
    } else {
        ("DENY", "deny.default")
    }
}

/// Resolves a request against a policy: evaluates every assignment and
/// statement, gathers the roles the principal reaches and the diagnostics,
/// and decides (see `decision_spec`). The snapshot the decision was made
/// against is recorded as given.
pub fn authorize(policy: &PolicySet, request: &AuthorizationRequest, snapshot: SnapshotBinding) -> (r:
    PureAuthorizationResult)
    ensures
        r.schema@ == "terminal-policy/authorization-result/v1"@,
        r.request_id@ == request.request_id@,
        r.snapshot == snapshot,
        r.principal@ == request.principal@,
        r.operation@ == request.operation@,
        r.targets.deep_view() == request.targets@.map_values(
            |t: ScopeValue| canonical_text(t.kind@, t.expression@),
        ),
        (r.decision@, r.reason@) == decision_spec(*policy, *request),
        sorted_texts(r.effective_roles.deep_view()),
        r.effective_roles.deep_view().to_set() == reached_roles(policy_reach(*policy, *request))
            - unsure_roles(policy_reach(*policy, *request)),
        sorted_texts(r.indeterminate_roles.deep_view()),
        r.indeterminate_roles.deep_view().to_set() == unsure_roles(policy_reach(*policy, *request)),
        r.assignments@.len() == policy.assignments@.len(),
        forall|i: int|
            0 <= i < r.assignments@.len() ==> assignment_evaluated(
                #[trigger] r.assignments@[i],
                *policy,
                policy.assignments@[i],
                *request,
            ),
        r.statements@.len() == policy.statements@.len(),
        forall|i: int|
            0 <= i < r.statements@.len() ==> statement_evaluated(
                #[trigger] r.statements@[i],
                *policy,
                policy.statements@[i],
                *request,
            ),
        diag_views(r.diagnostics@) == result_diagnostics(*policy, *request),
{
    let diagnostics = gather_diagnostics(policy, request);
    let assignments = evaluate_assignments(policy, request);
    let reach = collect_reach(policy, request, &assignments);
    let statements = evaluate_statements(policy, request, &reach);
    let (decision, reason) = decide(policy, request, &diagnostics, &statements);
    let (effective_roles, indeterminate_roles) = role_sets(&reach);
    PureAuthorizationResult {
        schema: String::from_str("terminal-policy/authorization-result/v1"),
        request_id: request.request_id.clone(),
        snapshot,
        principal: request.principal.clone(),
        operation: request.operation.clone(),
        targets: canonical_targets(&request.targets),
        decision: String::from_str(decision),
        reason: String::from_str(reason),
        effective_roles,
        indeterminate_roles,
        assignments,
        statements,
        diagnostics,
    }
}

} // verus!
