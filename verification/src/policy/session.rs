//! What a decision reads of a request. Resolution looks at the request's
//! principal, operation, targets and context evidence; the session, and
//! any roles it claims, carry no authority.
use crate::policy::authority::RecordRef;
use crate::policy::cycles::{cycle_upto, diag_views};
use crate::policy::model::{Applicability, AuthorizationRequest, Condition, PolicySet};
use crate::policy::reach::{
    all_reach, assignment_reach, path_chains, policy_reach, reach_of, role_authority, role_blocks, role_unsure,
};
use crate::policy::resolve::{decision_spec, result_diagnostics, some_statement, statement_applicability};
use crate::policy::state::{
    assignment_applicability, authority_state_spec, chain_state, chain_states, condition_state,
    conditions_spec,
};
use vstd::prelude::*;

verus! {

/// Two requests agree on all that resolution reads of them: the principal,
/// the operation, the targets and the context evidence. They may differ in
/// anything else, their sessions among it.
pub open spec fn same_bearing(a: AuthorizationRequest, b: AuthorizationRequest) -> bool {
    &&& a.principal@ == b.principal@
    &&& a.operation@ == b.operation@
    &&& a.targets@ == b.targets@
    &&& a.context@ == b.context@
}

proof fn lemma_conditions(cs: Seq<Condition>, a: AuthorizationRequest, b: AuthorizationRequest)
    requires
        same_bearing(a, b),
    ensures
        conditions_spec(cs, a) == conditions_spec(cs, b),
{
    assert forall|i: int| 0 <= i < cs.len() implies condition_state(cs[i], a) == condition_state(cs[i], b) by {}
    assert(cs.map_values(|c: Condition| condition_state(c, a)) =~= cs.map_values(
        |c: Condition| condition_state(c, b),
    ));
}

proof fn lemma_chain_states(policy: PolicySet, chain: Seq<Seq<char>>, a: AuthorizationRequest, b: AuthorizationRequest)
    requires
        same_bearing(a, b),
    ensures
        chain_states(policy, chain, a) == chain_states(policy, chain, b),
    decreases chain.len(),
{
    if chain.len() > 0 {
        lemma_chain_states(policy, chain.drop_last(), a, b);
        match crate::policy::state::delegation_index(policy.delegations@, chain.last()) {
            Some(k) => {
                let d = policy.delegations@[k];
                lemma_conditions(d.conditions@, a, b);
            },
            None => {},
        }
    }
}

proof fn lemma_authority(policy: PolicySet, record: RecordRef, a: AuthorizationRequest, b: AuthorizationRequest)
    requires
        same_bearing(a, b),
    ensures
        authority_state_spec(policy, record, a) == authority_state_spec(policy, record, b),
{
    reveal(authority_state_spec);
    assert forall|c: Seq<Seq<char>>| #[trigger] chain_state(policy, c, a) == chain_state(policy, c, b) by {
        lemma_chain_states(policy, c, a, b);
    }
}

proof fn lemma_assignment(
    policy: PolicySet,
    x: crate::policy::model::Assignment,
    a: AuthorizationRequest,
    b: AuthorizationRequest,
)
    requires
        same_bearing(a, b),
    ensures
        assignment_applicability(policy, x, a) == assignment_applicability(policy, x, b),
{
    reveal(assignment_applicability);
    lemma_authority(policy, RecordRef::Assignment(&x), a, b);
    match crate::policy::state::principal_index(policy.principals@, x.principal@) {
        Some(k) => lemma_authority(policy, RecordRef::Principal(&policy.principals@[k]), a, b),
        None => {},
    }
    lemma_conditions(x.conditions@, a, b);
}

proof fn lemma_roles(policy: PolicySet, a: AuthorizationRequest, b: AuthorizationRequest)
    requires
        same_bearing(a, b),
    ensures
        forall|id: Seq<char>| #[trigger] role_blocks(policy, id, a) == role_blocks(policy, id, b),
        forall|id: Seq<char>| #[trigger] role_unsure(policy, id, a) == role_unsure(policy, id, b),
        forall|path: Seq<Seq<char>>| #[trigger] path_chains(policy, path, a) == path_chains(policy, path, b),
{
    reveal(role_blocks);
    reveal(role_unsure);
    assert forall|id: Seq<char>| #[trigger] role_blocks(policy, id, a) == role_blocks(policy, id, b) by {
        lemma_role(policy, id, a, b);
    }
    assert forall|id: Seq<char>| #[trigger] role_unsure(policy, id, a) == role_unsure(policy, id, b) by {
        lemma_role(policy, id, a, b);
    }
    assert forall|path: Seq<Seq<char>>| #[trigger] path_chains(policy, path, a) == path_chains(policy, path, b) by {
        lemma_path_chains(policy, path, a, b);
    }
}

proof fn lemma_role(policy: PolicySet, id: Seq<char>, a: AuthorizationRequest, b: AuthorizationRequest)
    requires
        same_bearing(a, b),
    ensures
        role_authority(policy, id, a) == role_authority(policy, id, b),
{
    match crate::policy::authority::role_index(policy.roles@, id) {
        Some(k) => lemma_authority(policy, RecordRef::Role(&policy.roles@[k]), a, b),
        None => {},
    }
}

proof fn lemma_path_chains(policy: PolicySet, path: Seq<Seq<char>>, a: AuthorizationRequest, b: AuthorizationRequest)
    requires
        same_bearing(a, b),
    ensures
        path_chains(policy, path, a) == path_chains(policy, path, b),
    decreases path.len(),
{
    if path.len() > 0 {
        lemma_path_chains(policy, path.drop_last(), a, b);
        lemma_role(policy, path.last(), a, b);
    }
}

proof fn lemma_reach_of(
    policy: PolicySet,
    x: crate::policy::model::Assignment,
    uncertain: bool,
    events: Seq<(Seq<char>, Seq<Seq<char>>)>,
    a: AuthorizationRequest,
    b: AuthorizationRequest,
)
    requires
        same_bearing(a, b),
    ensures
        reach_of(policy, a, x, uncertain, events) == reach_of(policy, b, x, uncertain, events),
    decreases events.len(),
{
    if events.len() > 0 {
        lemma_reach_of(policy, x, uncertain, events.drop_last(), a, b);
        lemma_authority(policy, RecordRef::Assignment(&x), a, b);
        lemma_roles(policy, a, b);
        let p = events.last().1;
        assert(crate::policy::reach::path_blocked(policy, p, a) == crate::policy::reach::path_blocked(
            policy,
            p,
            b,
        ));
        assert(crate::policy::reach::path_uncertain(policy, p, a)
            == crate::policy::reach::path_uncertain(policy, p, b));
    }
}

proof fn lemma_assignment_reach(
    policy: PolicySet,
    x: crate::policy::model::Assignment,
    uncertain: bool,
    k: int,
    a: AuthorizationRequest,
    b: AuthorizationRequest,
)
    requires
        same_bearing(a, b),
    ensures
        assignment_reach(policy, a, x, uncertain, k) == assignment_reach(policy, b, x, uncertain, k),
    decreases k,
{
    reveal(assignment_reach);
    if k > 0 {
        lemma_assignment_reach(policy, x, uncertain, k - 1, a, b);
        lemma_reach_of(
            policy,
            x,
            uncertain,
            crate::policy::reach::walk_events(policy, x.roles@[k - 1]@, Seq::empty()),
            a,
            b,
        );
    }
}

proof fn lemma_all_reach(policy: PolicySet, n: int, a: AuthorizationRequest, b: AuthorizationRequest)
    requires
        same_bearing(a, b),
    ensures
        all_reach(policy, a, n) == all_reach(policy, b, n),
    decreases n,
{
    reveal(all_reach);
    if n > 0 {
        lemma_all_reach(policy, n - 1, a, b);
        let x = policy.assignments@[n - 1];
        lemma_assignment(policy, x, a, b);
        let ap = assignment_applicability(policy, x, a);
        lemma_assignment_reach(
            policy,
            x,
            ap == Applicability::Indeterminate,
            x.roles@.len() as int,
            a,
            b,
        );
    }
}

proof fn lemma_statements(policy: PolicySet, a: AuthorizationRequest, b: AuthorizationRequest)
    requires
        same_bearing(a, b),
    ensures
        forall|effect: Seq<char>, state: Applicability| #[trigger] some_statement(policy, a, effect, state)
            == some_statement(policy, b, effect, state),
{
    lemma_all_reach(policy, policy.assignments@.len() as int, a, b);
    let reach = policy_reach(policy, a);
    assert(reach == policy_reach(policy, b));
    assert forall|i: int| 0 <= i < policy.statements@.len() implies #[trigger] statement_applicability(
        policy,
        policy.statements@[i],
        a,
        reach,
    ) == statement_applicability(policy, policy.statements@[i], b, reach) by {
        reveal(statement_applicability);
        let st = policy.statements@[i];
        lemma_authority(policy, RecordRef::Statement(&st), a, b);
        lemma_conditions(st.conditions@, a, b);
    }
}

/// Roles are never taken from a request's session. Two requests that agree
/// on principal, operation, targets and context evidence reach the same
/// roles and get the same decision, with the same reason, whatever else
/// they carry; a session that claims roles changes neither.
pub proof fn lemma_session_never_decides(policy: PolicySet, a: AuthorizationRequest, b: AuthorizationRequest)
    requires
        same_bearing(a, b),
    ensures
        policy_reach(policy, a) == policy_reach(policy, b),
        decision_spec(policy, a) == decision_spec(policy, b),
{
    lemma_all_reach(policy, policy.assignments@.len() as int, a, b);
    lemma_statements(policy, a, b);
    lemma_errors(policy, a);
    lemma_errors(policy, b);
}

/// The diagnostics that the policy alone gives.
spec fn policy_diagnostics(policy: PolicySet) -> Seq<(Seq<char>, Seq<char>, Seq<char>, Option<Seq<char>>)> {
    diag_views(policy.diagnostics@) + cycle_upto(policy, policy.roles@.len() as int).1
}

proof fn lemma_errors(policy: PolicySet, r: AuthorizationRequest)
    ensures
        (exists|i: int|
            0 <= i < result_diagnostics(policy, r).len() && (#[trigger] result_diagnostics(policy, r)[i]).1
                == "error"@) == (exists|i: int|
            0 <= i < policy_diagnostics(policy).len() && (#[trigger] policy_diagnostics(policy)[i]).1
                == "error"@),
{
    reveal_strlit("warning");
    reveal_strlit("error");
    assert("warning"@[0] != "error"@[0]);
    let d = result_diagnostics(policy, r);
    let d0 = policy_diagnostics(policy);
    assert(forall|i: int| 0 <= i < d0.len() ==> d[i] == #[trigger] d0[i]);
    assert(forall|i: int| d0.len() <= i < d.len() ==> (#[trigger] d[i]).1 == "warning"@);
    if exists|i: int| 0 <= i < d.len() && (#[trigger] d[i]).1 == "error"@ {
        let i = choose|i: int| 0 <= i < d.len() && (#[trigger] d[i]).1 == "error"@;
        assert(d0[i].1 == "error"@);
    }
    if exists|i: int| 0 <= i < d0.len() && (#[trigger] d0[i]).1 == "error"@ {
        let i = choose|i: int| 0 <= i < d0.len() && (#[trigger] d0[i]).1 == "error"@;
        assert(d[i].1 == "error"@);
    }
}

} // verus!
