//! The whole-policy check: every record well formed, each id used once,
//! the role and delegation graphs sound, and every record authorized by
//! its source. The first fault, in a fixed order, is the one reported.
use crate::policy::authority::{
    authority_of, delegation_ids, find_role, find_source, lemma_role_index, lemma_source_index,
    rec_id, role_ids, role_index, source_authority, source_index, RecordRef,
};
use crate::policy::graph::{
    delegation_graph_exec, delegation_graph_fault, role_graph_exec, role_graph_fault,
};
use crate::policy::load::{
    conditions_fault, fault, first_fault, id_fault, invalid, invalid_error, lemma_first_fault_stable,
    operations_fault, opt_view, or_else, reports, require_id, universe_fault, validate_conditions,
    validate_operations, validate_universe, validate_window, window_fault, PolicyLoadError,
};
use crate::policy::model::{Assignment, Delegation, PolicySet, PolicySource, Principal, Statement};
use crate::text::{concat2, concat3, text_eq, texts_contain};
use vstd::prelude::*;

verus! {

/// The ids of the policy's principals, in order.
pub open spec fn principal_ids(policy: PolicySet) -> Seq<Seq<char>> {
    policy.principals@.map_values(|r: Principal| r.id@)
}

/// The ids of the policy's statements, in order.
pub open spec fn statement_ids(policy: PolicySet) -> Seq<Seq<char>> {
    policy.statements@.map_values(|r: Statement| r.id@)
}

/// The ids of the policy's assignments, in order.
pub open spec fn assignment_ids(policy: PolicySet) -> Seq<Seq<char>> {
    policy.assignments@.map_values(|r: Assignment| r.id@)
}

/// Every record id in checking order: principals, roles, statements,
/// assignments, delegations.
pub open spec fn record_ids(policy: PolicySet) -> Seq<Seq<char>> {
    principal_ids(policy) + role_ids(policy) + statement_ids(policy) + assignment_ids(policy)
        + delegation_ids(policy)
}

/// A `Duplicate` fault when `id`, at position `g` of `record_ids`, was used
/// by an earlier record.
pub open spec fn duplicate_fault(policy: PolicySet, g: int, id: Seq<char>) -> Option<
    (int, Seq<char>),
> {
    if record_ids(policy).take(g).contains(id) {
        Some((4, id))
    } else {
        None
    }
}

/// The record actions a source or delegation may name.
pub open spec fn record_action_known(a: Seq<char>) -> bool {
    a == "principal.define"@ || a == "role.define"@ || a == "role.assign"@ || a
        == "statement.allow"@ || a == "statement.deny"@ || a == "delegation.issue"@
}

/// Some entry is not a known record action.
pub open spec fn actions_unknown(actions: Seq<Seq<char>>) -> bool {
    exists|k: int| 0 <= k < actions.len() && !record_action_known(#[trigger] actions[k])
}

/// The fault of one policy source.
pub open spec fn source_fault(s: PolicySource) -> Option<(int, Seq<char>)> {
    let id = s.id@;
    let mode = s.trust_mode@;
    or_else(
        id_fault("source"@, id),
        if !(mode == "origin"@ || mode == "delegated"@ || mode == "restrictive"@) {
            invalid("source.trust-mode-unsupported:"@ + id + ":"@ + mode)
        } else if s.locator@.len() == 0 {
            invalid("source.incomplete:"@ + id)
        } else {
            or_else(
                operations_fault(id, s.operations.deep_view()),
                or_else(
                    universe_fault(id, s.scope_universe.deep_view()),
                    if actions_unknown(s.record_actions.deep_view()) {
                        invalid("source.record-action-unsupported:"@ + id)
                    } else {
                        None
                    },
                ),
            )
        },
    )
}

/// The first fault among the sources.
pub open spec fn sources_fault(policy: PolicySet) -> Option<(int, Seq<char>)> {
    first_fault(
        |i: int| source_fault(policy.environment.sources@[i]),
        policy.environment.sources@.len() as int,
    )
}

/// The fault of the `i`-th principal.
pub open spec fn principal_fault(policy: PolicySet, i: int) -> Option<(int, Seq<char>)> {
    let id = policy.principals@[i].id@;
    or_else(id_fault("principal"@, id), duplicate_fault(policy, i, id))
}

/// The first fault among the principals.
pub open spec fn principals_fault(policy: PolicySet) -> Option<(int, Seq<char>)> {
    first_fault(|i: int| principal_fault(policy, i), policy.principals@.len() as int)
}

/// The fault of the `i`-th role.
pub open spec fn role_fault(policy: PolicySet, i: int) -> Option<(int, Seq<char>)> {
    let id = policy.roles@[i].id@;
    or_else(id_fault("role"@, id), duplicate_fault(policy, roles_at(policy) + i, id))
}

/// The first fault among the roles.
pub open spec fn roles_fault(policy: PolicySet) -> Option<(int, Seq<char>)> {
    first_fault(|i: int| role_fault(policy, i), policy.roles@.len() as int)
}

fn actions_known(actions: &Vec<String>) -> (r: bool)
    ensures
        r == !actions_unknown(actions.deep_view()),
{
    let mut k: usize = 0;
    while k < actions.len()
        invariant
            k <= actions.len(),
            forall|j: int| 0 <= j < k ==> record_action_known(#[trigger] actions.deep_view()[j]),
        decreases actions.len() - k,
    {
        let a = actions[k].as_str();
        if !(text_eq(a, "principal.define") || text_eq(a, "role.define") || text_eq(a, "role.assign")
            || text_eq(a, "statement.allow") || text_eq(a, "statement.deny") || text_eq(
            a,
            "delegation.issue",
        )) {
            assert(!record_action_known(actions.deep_view()[k as int]));
            return false;
        }
        k = k + 1;
    }
    true
}

fn check_source(s: &PolicySource) -> (r: Result<(), PolicyLoadError>)
    ensures
        reports(r, source_fault(*s)),
{
    match require_id("source", s.id.as_str()) {
        Err(e) => return Err(e),
        Ok(_) => {},
    }
    let mode = s.trust_mode.as_str();
    if !(text_eq(mode, "origin") || text_eq(mode, "delegated") || text_eq(mode, "restrictive")) {
        let m = concat2(concat3("source.trust-mode-unsupported:", s.id.as_str(), ":").as_str(), mode);
        return Err(invalid_error(m));
    }
    if s.locator.unicode_len() == 0 {
        return Err(invalid_error(concat2("source.incomplete:", s.id.as_str())));
    }
    match validate_operations(s.id.as_str(), &s.operations) {
        Err(e) => return Err(e),
        Ok(_) => {},
    }
    match validate_universe(s.id.as_str(), &s.scope_universe) {
        Err(e) => return Err(e),
        Ok(_) => {},
    }
    if !actions_known(&s.record_actions) {
        return Err(invalid_error(concat2("source.record-action-unsupported:", s.id.as_str())));
    }
    Ok(())
}

fn check_sources(policy: &PolicySet) -> (r: Result<(), PolicyLoadError>)
    ensures
        reports(r, sources_fault(*policy)),
{
    let ghost f = |i: int| source_fault(policy.environment.sources@[i]);
    let ghost n = policy.environment.sources@.len() as int;
    let mut i: usize = 0;
    while i < policy.environment.sources.len()
        invariant
            i <= n,
            n == policy.environment.sources@.len(),
            f == |i: int| source_fault(policy.environment.sources@[i]),
            first_fault(f, i as int) is None,
        decreases n - i,
    {
        proof {
            if f(i as int) is Some {
                assert(first_fault(f, i + 1) == f(i as int));
                lemma_first_fault_stable(f, i + 1, n);
            }
        }
        match check_source(&policy.environment.sources[i]) {
            Err(e) => return Err(e),
            Ok(_) => {},
        }
        i = i + 1;
    }
    Ok(())
}

/// Records `id` as used, failing with `Duplicate` if it already was.
fn claim_id(seen: &mut Vec<String>, id: &String) -> (r: Result<(), PolicyLoadError>)
    ensures
        old(seen).deep_view().contains(id@) ==> (r matches Err(e) && fault(e) == (4int, id@)),
        !old(seen).deep_view().contains(id@) ==> r is Ok && final(seen).deep_view() == old(
            seen,
        ).deep_view().push(id@),
{
    if texts_contain(seen, id.as_str()) {
        return Err(PolicyLoadError::Duplicate(id.clone()));
    }
    let ghost before = seen.deep_view();
    seen.push(id.clone());
    assert(seen.deep_view() =~= before.push(id@));
    Ok(())
}

proof fn lemma_take_next(ids: Seq<Seq<char>>, g: int)
    requires
        0 <= g < ids.len(),
    ensures
        ids.take(g).push(ids[g]) == ids.take(g + 1),
{
    assert(ids.take(g).push(ids[g]) =~= ids.take(g + 1));
}

/// Where the roles start among `record_ids`.
pub open spec fn roles_at(policy: PolicySet) -> int {
    policy.principals@.len() as int
}

/// Where the statements start among `record_ids`.
pub open spec fn statements_at(policy: PolicySet) -> int {
    roles_at(policy) + policy.roles@.len()
}

/// Where the assignments start among `record_ids`.
pub open spec fn assignments_at(policy: PolicySet) -> int {
    statements_at(policy) + policy.statements@.len()
}

/// Where the delegations start among `record_ids`.
pub open spec fn delegations_at(policy: PolicySet) -> int {
    assignments_at(policy) + policy.assignments@.len()
}

proof fn lemma_record_id_at(policy: PolicySet, g: int)
    requires
        0 <= g < record_ids(policy).len(),
    ensures
        record_ids(policy).len() == delegations_at(policy) + policy.delegations@.len(),
        g < roles_at(policy) ==> record_ids(policy)[g] == policy.principals@[g].id@,
        roles_at(policy) <= g < statements_at(policy) ==> record_ids(policy)[g]
            == policy.roles@[g - roles_at(policy)].id@,
        statements_at(policy) <= g < assignments_at(policy) ==> record_ids(policy)[g]
            == policy.statements@[g - statements_at(policy)].id@,
        assignments_at(policy) <= g < delegations_at(policy) ==> record_ids(policy)[g]
            == policy.assignments@[g - assignments_at(policy)].id@,
        delegations_at(policy) <= g ==> record_ids(policy)[g]
            == policy.delegations@[g - delegations_at(policy)].id@,
{
}

fn check_principal(policy: &PolicySet, i: usize, seen: &mut Vec<String>) -> (r: Result<
    (),
    PolicyLoadError,
>)
    requires
        i < policy.principals@.len(),
        old(seen).deep_view() == record_ids(*policy).take(i as int),
    ensures
        reports(r, principal_fault(*policy, i as int)),
        r is Ok ==> final(seen).deep_view() == record_ids(*policy).take(i + 1),
{
    let id = &policy.principals[i].id;
    match require_id("principal", id.as_str()) {
        Err(e) => return Err(e),
        Ok(_) => {},
    }
    proof {
        lemma_record_id_at(*policy, i as int);
        lemma_take_next(record_ids(*policy), i as int);
    }
    claim_id(seen, id)
}

fn check_role(policy: &PolicySet, i: usize, seen: &mut Vec<String>) -> (r: Result<
    (),
    PolicyLoadError,
>)
    requires
        i < policy.roles@.len(),
        old(seen).deep_view() == record_ids(*policy).take(roles_at(*policy) + i),
    ensures
        reports(r, role_fault(*policy, i as int)),
        r is Ok ==> final(seen).deep_view() == record_ids(*policy).take(roles_at(*policy) + i + 1),
{
    let id = &policy.roles[i].id;
    match require_id("role", id.as_str()) {
        Err(e) => return Err(e),
        Ok(_) => {},
    }
    proof {
        let g = roles_at(*policy) + i;
        lemma_record_id_at(*policy, g);
        lemma_take_next(record_ids(*policy), g);
    }
    claim_id(seen, id)
}

fn check_principals(policy: &PolicySet, seen: &mut Vec<String>) -> (r: Result<(), PolicyLoadError>)
    requires
        old(seen).deep_view() == record_ids(*policy).take(0),
    ensures
        reports(r, principals_fault(*policy)),
        r is Ok ==> final(seen).deep_view() == record_ids(*policy).take(
            policy.principals@.len() as int,
        ),
{
    let ghost f = |i: int| principal_fault(*policy, i);
    let ghost n = policy.principals@.len() as int;
    let mut i: usize = 0;
    while i < policy.principals.len()
        invariant
            i <= n,
            n == policy.principals@.len(),
            f == |i: int| principal_fault(*policy, i),
            first_fault(f, i as int) is None,
            seen.deep_view() == record_ids(*policy).take(i as int),
        decreases n - i,
    {
        proof {
            if f(i as int) is Some {
                assert(first_fault(f, i + 1) == f(i as int));
                lemma_first_fault_stable(f, i + 1, n);
            }
        }
        match check_principal(policy, i, seen) {
            Err(e) => return Err(e),
            Ok(_) => {},
        }
        i = i + 1;
    }
    Ok(())
}

fn check_roles(policy: &PolicySet, seen: &mut Vec<String>) -> (r: Result<(), PolicyLoadError>)
    requires
        old(seen).deep_view() == record_ids(*policy).take(roles_at(*policy)),
    ensures
        reports(r, roles_fault(*policy)),
        r is Ok ==> final(seen).deep_view() == record_ids(*policy).take(statements_at(*policy)),
{
    let ghost f = |i: int| role_fault(*policy, i);
    let ghost n = policy.roles@.len() as int;
    let mut i: usize = 0;
    while i < policy.roles.len()
        invariant
            i <= n,
            n == policy.roles@.len(),
            f == |i: int| role_fault(*policy, i),
            first_fault(f, i as int) is None,
            seen.deep_view() == record_ids(*policy).take(roles_at(*policy) + i),
        decreases n - i,
    {
        proof {
            if f(i as int) is Some {
                assert(first_fault(f, i + 1) == f(i as int));
                lemma_first_fault_stable(f, i + 1, n);
            }
        }
        match check_role(policy, i, seen) {
            Err(e) => return Err(e),
            Ok(_) => {},
        }
        i = i + 1;
    }
    Ok(())
}

/// Some principal has id `id`.
pub open spec fn principal_known(policy: PolicySet, id: Seq<char>) -> bool {
    exists|k: int| 0 <= k < policy.principals@.len() && policy.principals@[k].id@ == id
}

fn has_principal(policy: &PolicySet, id: &str) -> (r: bool)
    ensures
        r == principal_known(*policy, id@),
{
    let mut k: usize = 0;
    while k < policy.principals.len()
        invariant
            k <= policy.principals@.len(),
            forall|j: int| 0 <= j < k ==> policy.principals@[j].id@ != id@,
        decreases policy.principals.len() - k,
    {
        if text_eq(policy.principals[k].id.as_str(), id) {
            return true;
        }
        k = k + 1;
    }
    false
}

/// The fault of the `i`-th statement.
#[verifier::opaque]
pub open spec fn statement_fault(policy: PolicySet, i: int) -> Option<(int, Seq<char>)> {
    let s = policy.statements@[i];
    let id = s.id@;
    or_else(
        id_fault("statement"@, id),
        or_else(
            duplicate_fault(policy, statements_at(policy) + i, id),
            if role_index(policy.roles@, s.role@) is None {
                invalid("statement.role-missing:"@ + id + ":"@ + s.role@)
            } else if !(s.effect@ == "allow"@ || s.effect@ == "deny"@) {
                invalid("statement.effect-unsupported:"@ + id + ":"@ + s.effect@)
            } else {
                or_else(
                    operations_fault(id, s.operations.deep_view()),
                    or_else(
                        conditions_fault(
                            policy.environment.context_providers.deep_view(),
                            id,
                            s.conditions@,
                        ),
                        window_fault(id, opt_view(s.not_before), opt_view(s.not_after)),
                    ),
                )
            },
        ),
    )
}

/// The first fault among the statements.
pub open spec fn statements_fault(policy: PolicySet) -> Option<(int, Seq<char>)> {
    first_fault(|i: int| statement_fault(policy, i), policy.statements@.len() as int)
}

/// The first role of `roles` that the policy does not define.
pub open spec fn missing_roles_fault(policy: PolicySet, id: Seq<char>, roles: Seq<Seq<char>>) -> Option<
    (int, Seq<char>),
> {
    first_fault(
        |k: int|
            if role_index(policy.roles@, roles[k]) is None {
                invalid("assignment.role-missing:"@ + id + ":"@ + roles[k])
            } else {
                None
            },
        roles.len() as int,
    )
}

/// The fault of the `i`-th assignment.
#[verifier::opaque]
pub open spec fn assignment_fault(policy: PolicySet, i: int) -> Option<(int, Seq<char>)> {
    let a = policy.assignments@[i];
    let id = a.id@;
    or_else(
        id_fault("assignment"@, id),
        or_else(
            duplicate_fault(policy, assignments_at(policy) + i, id),
            if !principal_known(policy, a.principal@) {
                invalid("assignment.principal-missing:"@ + id + ":"@ + a.principal@)
            } else if a.roles@.len() == 0 {
                invalid("assignment.roles-empty:"@ + id)
            } else {
                or_else(
                    missing_roles_fault(policy, id, a.roles.deep_view()),
                    or_else(
                        conditions_fault(
                            policy.environment.context_providers.deep_view(),
                            id,
                            a.conditions@,
                        ),
                        or_else(
                            if a.operations@.len() == 0 {
                                None
                            } else {
                                operations_fault(id, a.operations.deep_view())
                            },
                            window_fault(id, opt_view(a.not_before), opt_view(a.not_after)),
                        ),
                    ),
                )
            },
        ),
    )
}

/// The first fault among the assignments.
pub open spec fn assignments_fault(policy: PolicySet) -> Option<(int, Seq<char>)> {
    first_fault(|i: int| assignment_fault(policy, i), policy.assignments@.len() as int)
}

/// The fault of the `i`-th delegation.
#[verifier::opaque]
pub open spec fn delegation_fault(policy: PolicySet, i: int) -> Option<(int, Seq<char>)> {
    let d = policy.delegations@[i];
    let id = d.id@;
    or_else(
        id_fault("delegation"@, id),
        or_else(
            duplicate_fault(policy, delegations_at(policy) + i, id),
            if d.issuer@ != d.source@ || source_index(
                policy.environment.sources@,
                d.recipient@,
            ) is None {
                invalid("delegation.link-invalid:"@ + id)
            } else if d.record_actions@.len() == 0 {
                invalid("delegation.envelope-empty:"@ + id)
            } else {
                or_else(
                    operations_fault(id, d.operations.deep_view()),
                    or_else(
                        universe_fault(id, d.scope_universe.deep_view()),
                        if actions_unknown(d.record_actions.deep_view()) {
                            invalid("delegation.record-action-unsupported:"@ + id)
                        } else {
                            or_else(
                                conditions_fault(
                                    policy.environment.context_providers.deep_view(),
                                    id,
                                    d.conditions@,
                                ),
                                window_fault(id, opt_view(d.not_before), opt_view(d.not_after)),
                            )
                        },
                    ),
                )
            },
        ),
    )
}

/// The first fault among the delegations.
pub open spec fn delegations_fault(policy: PolicySet) -> Option<(int, Seq<char>)> {
    first_fault(|i: int| delegation_fault(policy, i), policy.delegations@.len() as int)
}

fn check_statement(policy: &PolicySet, i: usize, seen: &mut Vec<String>) -> (r: Result<
    (),
    PolicyLoadError,
>)
    requires
        i < policy.statements@.len(),
        old(seen).deep_view() == record_ids(*policy).take(statements_at(*policy) + i),
    ensures
        reports(r, statement_fault(*policy, i as int)),
        r is Ok ==> final(seen).deep_view() == record_ids(*policy).take(
            statements_at(*policy) + i + 1,
        ),
{
    reveal(statement_fault);
    let s = &policy.statements[i];
    let id = s.id.as_str();
    match require_id("statement", id) {
        Err(e) => return Err(e),
        Ok(_) => {},
    }
    proof {
        let g = statements_at(*policy) + i;
        lemma_record_id_at(*policy, g);
        lemma_take_next(record_ids(*policy), g);
    }
    match claim_id(seen, &s.id) {
        Err(e) => return Err(e),
        Ok(_) => {},
    }
    proof {
        lemma_role_index(policy.roles@, s.role@);
    }
    if find_role(&policy.roles, s.role.as_str()).is_none() {
        let m = concat2(concat3("statement.role-missing:", id, ":").as_str(), s.role.as_str());
        return Err(invalid_error(m));
    }
    let effect = s.effect.as_str();
    if !(text_eq(effect, "allow") || text_eq(effect, "deny")) {
        let m = concat2(concat3("statement.effect-unsupported:", id, ":").as_str(), effect);
        return Err(invalid_error(m));
    }
    match validate_operations(id, &s.operations) {
        Err(e) => return Err(e),
        Ok(_) => {},
    }
    match validate_conditions(policy, id, &s.conditions) {
        Err(e) => return Err(e),
        Ok(_) => {},
    }
    validate_window(id, &s.not_before, &s.not_after)
}

fn check_assignment_roles(policy: &PolicySet, a: &Assignment) -> (r: Result<(), PolicyLoadError>)
    ensures
        reports(r, missing_roles_fault(*policy, a.id@, a.roles.deep_view())),
{
    let ghost f = |k: int|
        if role_index(policy.roles@, a.roles.deep_view()[k]) is None {
            invalid("assignment.role-missing:"@ + a.id@ + ":"@ + a.roles.deep_view()[k])
        } else {
            None
        };
    let ghost n = a.roles@.len() as int;
    let mut k: usize = 0;
    while k < a.roles.len()
        invariant
            k <= n,
            n == a.roles@.len(),
            f == (|k: int|
                if role_index(policy.roles@, a.roles.deep_view()[k]) is None {
                    invalid("assignment.role-missing:"@ + a.id@ + ":"@ + a.roles.deep_view()[k])
                } else {
                    None
                }),
            first_fault(f, k as int) is None,
        decreases n - k,
    {
        let role = a.roles[k].as_str();
        proof {
            lemma_role_index(policy.roles@, role@);
            if f(k as int) is Some {
                assert(first_fault(f, k + 1) == f(k as int));
                lemma_first_fault_stable(f, k + 1, n);
            }
        }
        if find_role(&policy.roles, role).is_none() {
            let m = concat2(concat3("assignment.role-missing:", a.id.as_str(), ":").as_str(), role);
            return Err(invalid_error(m));
        }
        k = k + 1;
    }
    Ok(())
}

fn check_assignment(policy: &PolicySet, i: usize, seen: &mut Vec<String>) -> (r: Result<
    (),
    PolicyLoadError,
>)
    requires
        i < policy.assignments@.len(),
        old(seen).deep_view() == record_ids(*policy).take(assignments_at(*policy) + i),
    ensures
        reports(r, assignment_fault(*policy, i as int)),
        r is Ok ==> final(seen).deep_view() == record_ids(*policy).take(
            assignments_at(*policy) + i + 1,
        ),
{
    reveal(assignment_fault);
    let a = &policy.assignments[i];
    let id = a.id.as_str();
    match require_id("assignment", id) {
        Err(e) => return Err(e),
        Ok(_) => {},
    }
    proof {
        let g = assignments_at(*policy) + i;
        lemma_record_id_at(*policy, g);
        lemma_take_next(record_ids(*policy), g);
    }
    match claim_id(seen, &a.id) {
        Err(e) => return Err(e),
        Ok(_) => {},
    }
    if !has_principal(policy, a.principal.as_str()) {
        let m = concat2(
            concat3("assignment.principal-missing:", id, ":").as_str(),
            a.principal.as_str(),
        );
        return Err(invalid_error(m));
    }
    if a.roles.len() == 0 {
        return Err(invalid_error(concat2("assignment.roles-empty:", id)));
    }
    match check_assignment_roles(policy, a) {
        Err(e) => return Err(e),
        Ok(_) => {},
    }
    match validate_conditions(policy, id, &a.conditions) {
        Err(e) => return Err(e),
        Ok(_) => {},
    }
    if a.operations.len() > 0 {
        match validate_operations(id, &a.operations) {
            Err(e) => return Err(e),
            Ok(_) => {},
        }
    }
    validate_window(id, &a.not_before, &a.not_after)
}

fn check_delegation(policy: &PolicySet, i: usize, seen: &mut Vec<String>) -> (r: Result<
    (),
    PolicyLoadError,
>)
    requires
        i < policy.delegations@.len(),
        old(seen).deep_view() == record_ids(*policy).take(delegations_at(*policy) + i),
    ensures
        reports(r, delegation_fault(*policy, i as int)),
        r is Ok ==> final(seen).deep_view() == record_ids(*policy).take(
            delegations_at(*policy) + i + 1,
        ),
{
    reveal(delegation_fault);
    let d = &policy.delegations[i];
    let id = d.id.as_str();
    match require_id("delegation", id) {
        Err(e) => return Err(e),
        Ok(_) => {},
    }
    proof {
        let g = delegations_at(*policy) + i;
        lemma_record_id_at(*policy, g);
        lemma_take_next(record_ids(*policy), g);
    }
    match claim_id(seen, &d.id) {
        Err(e) => return Err(e),
        Ok(_) => {},
    }
    proof {
        lemma_source_index(policy.environment.sources@, d.recipient@);
    }
    if !text_eq(d.issuer.as_str(), d.source.as_str()) || find_source(
        &policy.environment.sources,
        d.recipient.as_str(),
    ).is_none() {
        return Err(invalid_error(concat2("delegation.link-invalid:", id)));
    }
    if d.record_actions.len() == 0 {
        return Err(invalid_error(concat2("delegation.envelope-empty:", id)));
    }
    match validate_operations(id, &d.operations) {
        Err(e) => return Err(e),
        Ok(_) => {},
    }
    match validate_universe(id, &d.scope_universe) {
        Err(e) => return Err(e),
        Ok(_) => {},
    }
    if !actions_known(&d.record_actions) {
        return Err(invalid_error(concat2("delegation.record-action-unsupported:", id)));
    }
    match validate_conditions(policy, id, &d.conditions) {
        Err(e) => return Err(e),
        Ok(_) => {},
    }
    validate_window(id, &d.not_before, &d.not_after)
}

fn check_statements(policy: &PolicySet, seen: &mut Vec<String>) -> (r: Result<(), PolicyLoadError>)
    requires
        old(seen).deep_view() == record_ids(*policy).take(statements_at(*policy)),
    ensures
        reports(r, statements_fault(*policy)),
        r is Ok ==> final(seen).deep_view() == record_ids(*policy).take(assignments_at(*policy)),
{
    let ghost f = |i: int| statement_fault(*policy, i);
    let ghost n = policy.statements@.len() as int;
    let mut i: usize = 0;
    while i < policy.statements.len()
        invariant
            i <= n,
            n == policy.statements@.len(),
            f == |i: int| statement_fault(*policy, i),
            first_fault(f, i as int) is None,
            seen.deep_view() == record_ids(*policy).take(statements_at(*policy) + i),
        decreases n - i,
    {
        proof {
            if f(i as int) is Some {
                assert(first_fault(f, i + 1) == f(i as int));
                lemma_first_fault_stable(f, i + 1, n);
            }
        }
        match check_statement(policy, i, seen) {
            Err(e) => return Err(e),
            Ok(_) => {},
        }
        i = i + 1;
    }
    Ok(())
}

fn check_assignments(policy: &PolicySet, seen: &mut Vec<String>) -> (r: Result<(), PolicyLoadError>)
    requires
        old(seen).deep_view() == record_ids(*policy).take(assignments_at(*policy)),
    ensures
        reports(r, assignments_fault(*policy)),
        r is Ok ==> final(seen).deep_view() == record_ids(*policy).take(delegations_at(*policy)),
{
    let ghost f = |i: int| assignment_fault(*policy, i);
    let ghost n = policy.assignments@.len() as int;
    let mut i: usize = 0;
    while i < policy.assignments.len()
        invariant
            i <= n,
            n == policy.assignments@.len(),
            f == |i: int| assignment_fault(*policy, i),
            first_fault(f, i as int) is None,
            seen.deep_view() == record_ids(*policy).take(assignments_at(*policy) + i),
        decreases n - i,
    {
        proof {
            if f(i as int) is Some {
                assert(first_fault(f, i + 1) == f(i as int));
                lemma_first_fault_stable(f, i + 1, n);
            }
        }
        match check_assignment(policy, i, seen) {
            Err(e) => return Err(e),
            Ok(_) => {},
        }
        i = i + 1;
    }
    Ok(())
}

fn check_delegations(policy: &PolicySet, seen: &mut Vec<String>) -> (r: Result<(), PolicyLoadError>)
    requires
        old(seen).deep_view() == record_ids(*policy).take(delegations_at(*policy)),
    ensures
        reports(r, delegations_fault(*policy)),
        r is Ok ==> final(seen).deep_view() == record_ids(*policy).take(record_ids(*policy).len() as int),
{
    let ghost f = |i: int| delegation_fault(*policy, i);
    let ghost n = policy.delegations@.len() as int;
    let mut i: usize = 0;
    while i < policy.delegations.len()
        invariant
            i <= n,
            n == policy.delegations@.len(),
            f == |i: int| delegation_fault(*policy, i),
            first_fault(f, i as int) is None,
            seen.deep_view() == record_ids(*policy).take(delegations_at(*policy) + i),
        decreases n - i,
    {
        proof {
            if f(i as int) is Some {
                assert(first_fault(f, i + 1) == f(i as int));
                lemma_first_fault_stable(f, i + 1, n);
            }
        }
        match check_delegation(policy, i, seen) {
            Err(e) => return Err(e),
            Ok(_) => {},
        }
        i = i + 1;
    }
    Ok(())
}

/// The record of kind `kind` at position `i`: kinds 0 to 4 are principals,
/// roles, statements, assignments and delegations.
pub open spec fn record_at<'a>(policy: &'a PolicySet, kind: int, i: int) -> RecordRef<'a> {
    if kind == 0 {
        RecordRef::Principal(&policy.principals@[i])
    } else if kind == 1 {
        RecordRef::Role(&policy.roles@[i])
    } else if kind == 2 {
        RecordRef::Statement(&policy.statements@[i])
    } else if kind == 3 {
        RecordRef::Assignment(&policy.assignments@[i])
    } else {
        RecordRef::Delegation(&policy.delegations@[i])
    }
}

/// How many records of kind `kind` the policy holds.
pub open spec fn kind_len(policy: PolicySet, kind: int) -> int {
    if kind == 0 {
        policy.principals@.len() as int
    } else if kind == 1 {
        policy.roles@.len() as int
    } else if kind == 2 {
        policy.statements@.len() as int
    } else if kind == 3 {
        policy.assignments@.len() as int
    } else {
        policy.delegations@.len() as int
    }
}

/// An `Invalid` fault when a record's source has no authority over it.
#[verifier::opaque]
pub open spec fn unauthorized_fault(policy: PolicySet, record: RecordRef) -> Option<
    (int, Seq<char>),
> {
    let a = authority_of(policy, record, Seq::empty());
    if a.0 {
        None
    } else {
        invalid("source.unauthorized:"@ + rec_id(record) + ":"@ + a.2)
    }
}

/// The first unauthorized record of kind `kind`.
pub open spec fn kind_authority_fault(policy: PolicySet, kind: int) -> Option<(int, Seq<char>)> {
    first_fault(|i: int| unauthorized_fault(policy, record_at(&policy, kind, i)), kind_len(policy, kind))
}

/// The first unauthorized record, kind by kind.
pub open spec fn authority_fault(policy: PolicySet) -> Option<(int, Seq<char>)> {
    or_else(
        kind_authority_fault(policy, 0),
        or_else(
            kind_authority_fault(policy, 1),
            or_else(
                kind_authority_fault(policy, 2),
                or_else(kind_authority_fault(policy, 3), kind_authority_fault(policy, 4)),
            ),
        ),
    )
}

fn record_of(policy: &PolicySet, kind: u8, i: usize) -> (r: RecordRef<'_>)
    requires
        kind <= 4,
        i < kind_len(*policy, kind as int),
    ensures
        r == record_at(policy, kind as int, i as int),
{
    if kind == 0 {
        RecordRef::Principal(&policy.principals[i])
    } else if kind == 1 {
        RecordRef::Role(&policy.roles[i])
    } else if kind == 2 {
        RecordRef::Statement(&policy.statements[i])
    } else if kind == 3 {
        RecordRef::Assignment(&policy.assignments[i])
    } else {
        RecordRef::Delegation(&policy.delegations[i])
    }
}

fn kind_count(policy: &PolicySet, kind: u8) -> (r: usize)
    requires
        kind <= 4,
    ensures
        r == kind_len(*policy, kind as int),
{
    if kind == 0 {
        policy.principals.len()
    } else if kind == 1 {
        policy.roles.len()
    } else if kind == 2 {
        policy.statements.len()
    } else if kind == 3 {
        policy.assignments.len()
    } else {
        policy.delegations.len()
    }
}

fn check_authority(policy: &PolicySet, record: RecordRef<'_>) -> (r: Result<(), PolicyLoadError>)
    ensures
        reports(r, unauthorized_fault(*policy, record)),
{
    reveal(unauthorized_fault);
    let authority = source_authority(policy, record);
    if !authority.authorized {
        let m = concat2(concat3("source.unauthorized:", record.id(), ":").as_str(), authority.reason);
        return Err(invalid_error(m));
    }
    Ok(())
}

fn check_kind_authority(policy: &PolicySet, kind: u8) -> (r: Result<(), PolicyLoadError>)
    requires
        kind <= 4,
    ensures
        reports(r, kind_authority_fault(*policy, kind as int)),
{
    let ghost f = |i: int| unauthorized_fault(*policy, record_at(policy, kind as int, i));
    let n = kind_count(policy, kind);
    let mut i: usize = 0;
    while i < n
        invariant
            kind <= 4,
            i <= n,
            n == kind_len(*policy, kind as int),
            f == |i: int| unauthorized_fault(*policy, record_at(policy, kind as int, i)),
            first_fault(f, i as int) is None,
        decreases n - i,
    {
        proof {
            if f(i as int) is Some {
                assert(first_fault(f, i + 1) == f(i as int));
                lemma_first_fault_stable(f, i + 1, n as int);
            }
        }
        match check_authority(policy, record_of(policy, kind, i)) {
            Err(e) => return Err(e),
            Ok(_) => {},
        }
        i = i + 1;
    }
    Ok(())
}

fn check_all_authority(policy: &PolicySet) -> (r: Result<(), PolicyLoadError>)
    ensures
        reports(r, authority_fault(*policy)),
{
    match check_kind_authority(policy, 0) {
        Err(e) => return Err(e),
        Ok(_) => {},
    }
    match check_kind_authority(policy, 1) {
        Err(e) => return Err(e),
        Ok(_) => {},
    }
    match check_kind_authority(policy, 2) {
        Err(e) => return Err(e),
        Ok(_) => {},
    }
    match check_kind_authority(policy, 3) {
        Err(e) => return Err(e),
        Ok(_) => {},
    }
    check_kind_authority(policy, 4)
}

/// The fault of a whole policy, checked in this order: the environment id;
/// each source; each principal, then each role (ids well formed and unused
/// before); the role inheritance graph; each statement, assignment and
/// delegation; the delegation graph; and last each record's authority.
pub open spec fn policy_fault(policy: PolicySet) -> Option<(int, Seq<char>)> {
    or_else(
        id_fault("environment"@, policy.environment.environment_id@),
        or_else(
            sources_fault(policy),
            or_else(
                principals_fault(policy),
                or_else(
                    roles_fault(policy),
                    or_else(
                        role_graph_fault(policy),
                        or_else(
                            statements_fault(policy),
                            or_else(
                                assignments_fault(policy),
                                or_else(
                                    delegations_fault(policy),
                                    or_else(delegation_graph_fault(policy), authority_fault(policy)),
                                ),
                            ),
                        ),
                    ),
                ),
            ),
        ),
    )
}

pub(crate) proof fn lemma_some_fault(f: spec_fn(int) -> Option<(int, Seq<char>)>, i: int, n: int)
    requires
        0 <= i < n,
        f(i) is Some,
    ensures
        first_fault(f, n) is Some,
{
    assert(first_fault(f, i + 1) is Some);
    lemma_first_fault_stable(f, i + 1, n);
}

/// Validation refuses dangling principal references: a policy in which
/// some assignment names a principal that no principal record of the
/// policy has as its id has a fault, so it does not validate.
pub proof fn lemma_dangling_principal_is_refused(policy: PolicySet, i: int)
    requires
        0 <= i < policy.assignments@.len(),
        forall|k: int|
            0 <= k < policy.principals@.len() ==> (#[trigger] policy.principals@[k]).id@
                != policy.assignments@[i].principal@,
    ensures
        policy_fault(policy) is Some,
{
    reveal(assignment_fault);
    let a = policy.assignments@[i];
    assert(!principal_known(policy, a.principal@)) by {
        if principal_known(policy, a.principal@) {
            let k = choose|k: int| 0 <= k < policy.principals@.len() && policy.principals@[k].id@ == a.principal@;
            assert(policy.principals@[k].id@ != a.principal@);
        }
    }
    assert(assignment_fault(policy, i) is Some);
    let f = |j: int| assignment_fault(policy, j);
    assert(f(i) is Some);
    lemma_some_fault(f, i, policy.assignments@.len() as int);
    assert(assignments_fault(policy) is Some);
}

/// Validation refuses a statement whose role no role record of the policy
/// has as its id, and one whose effect is neither `allow` nor `deny`.
pub proof fn lemma_bad_statement_is_refused(policy: PolicySet, i: int)
    requires
        0 <= i < policy.statements@.len(),
        (forall|k: int|
            0 <= k < policy.roles@.len() ==> (#[trigger] policy.roles@[k]).id@ != policy.statements@[i].role@)
            || !(policy.statements@[i].effect@ == "allow"@ || policy.statements@[i].effect@ == "deny"@),
    ensures
        policy_fault(policy) is Some,
{
    reveal(statement_fault);
    let st = policy.statements@[i];
    if forall|k: int| 0 <= k < policy.roles@.len() ==> (#[trigger] policy.roles@[k]).id@ != st.role@ {
        assert(role_index(policy.roles@, st.role@) is None);
    }
    assert(statement_fault(policy, i) is Some);
    let f = |j: int| statement_fault(policy, j);
    assert(f(i) is Some);
    lemma_some_fault(f, i, policy.statements@.len() as int);
    assert(statements_fault(policy) is Some);
}

/// Validation refuses an assignment that assigns no role, and one that
/// assigns a role no role record of the policy has as its id.
pub proof fn lemma_bad_assignment_roles_are_refused(policy: PolicySet, i: int, r: int)
    requires
        0 <= i < policy.assignments@.len(),
        policy.assignments@[i].roles@.len() == 0 || (0 <= r < policy.assignments@[i].roles@.len() && forall|
            k: int,
        |
            0 <= k < policy.roles@.len() ==> (#[trigger] policy.roles@[k]).id@
                != policy.assignments@[i].roles@[r]@),
    ensures
        policy_fault(policy) is Some,
{
    reveal(assignment_fault);
    let a = policy.assignments@[i];
    let id = a.id@;
    if a.roles@.len() > 0 {
        let roles = a.roles.deep_view();
        assert(roles[r] == a.roles@[r]@);
        assert(role_index(policy.roles@, roles[r]) is None);
        let g = |k: int|
            if role_index(policy.roles@, roles[k]) is None {
                invalid("assignment.role-missing:"@ + id + ":"@ + roles[k])
            } else {
                None
            };
        assert(g(r) is Some);
        lemma_some_fault(g, r, roles.len() as int);
        assert(missing_roles_fault(policy, id, roles) is Some);
    }
    assert(assignment_fault(policy, i) is Some);
    let f = |j: int| assignment_fault(policy, j);
    assert(f(i) is Some);
    lemma_some_fault(f, i, policy.assignments@.len() as int);
    assert(assignments_fault(policy) is Some);
}

/// Validation refuses a delegation issued by another source than its own,
/// and one addressed to a source the environment does not have.
pub proof fn lemma_bad_delegation_link_is_refused(policy: PolicySet, i: int)
    requires
        0 <= i < policy.delegations@.len(),
        policy.delegations@[i].issuer@ != policy.delegations@[i].source@ || forall|k: int|
            0 <= k < policy.environment.sources@.len() ==> (#[trigger] policy.environment.sources@[k]).id@
                != policy.delegations@[i].recipient@,
    ensures
        policy_fault(policy) is Some,
{
    reveal(delegation_fault);
    let d = policy.delegations@[i];
    if forall|k: int|
        0 <= k < policy.environment.sources@.len() ==> (#[trigger] policy.environment.sources@[k]).id@
            != d.recipient@ {
        assert(source_index(policy.environment.sources@, d.recipient@) is None);
    }
    assert(delegation_fault(policy, i) is Some);
    let f = |j: int| delegation_fault(policy, j);
    assert(f(i) is Some);
    lemma_some_fault(f, i, policy.delegations@.len() as int);
    assert(delegations_fault(policy) is Some);
}

/// Checks a whole policy and reports its first fault (see `policy_fault`).
pub fn validate_policy(policy: &PolicySet) -> (r: Result<(), PolicyLoadError>)
    ensures
        reports(r, policy_fault(*policy)),
{
    match require_id("environment", policy.environment.environment_id.as_str()) {
        Err(e) => return Err(e),
        Ok(_) => {},
    }
    match check_sources(policy) {
        Err(e) => return Err(e),
        Ok(_) => {},
    }
    let mut seen: Vec<String> = Vec::new();
    assert(seen.deep_view() =~= record_ids(*policy).take(0));
    match check_principals(policy, &mut seen) {
        Err(e) => return Err(e),
        Ok(_) => {},
    }
    match check_roles(policy, &mut seen) {
        Err(e) => return Err(e),
        Ok(_) => {},
    }
    match role_graph_exec(policy) {
        Err(e) => return Err(e),
        Ok(_) => {},
    }
    match check_statements(policy, &mut seen) {
        Err(e) => return Err(e),
        Ok(_) => {},
    }
    match check_assignments(policy, &mut seen) {
        Err(e) => return Err(e),
        Ok(_) => {},
    }
    match check_delegations(policy, &mut seen) {
        Err(e) => return Err(e),
        Ok(_) => {},
    }
    match delegation_graph_exec(policy) {
        Err(e) => return Err(e),
        Ok(_) => {},
    }
    check_all_authority(policy)
}

} // verus!
