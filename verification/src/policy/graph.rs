//! The inheritance graph of roles and the delegation graph of sources:
//! depth-first checks that report the first cycle or missing role.
use crate::policy::authority::{
    fresh_count, lemma_fresh_push, lemma_role_index, role_ids, role_index, find_role,
};
use crate::policy::load::{fault, invalid_error, reports, PolicyLoadError};
use crate::policy::model::{Delegation, PolicySet, PolicySource};
use crate::text::{concat2, concat3, copy_texts, text_eq, texts_contain};
use vstd::prelude::*;

verus! {

/// The depth-first check of role inheritance from `role`, with `active` the
/// roles on the current path and `complete` those already checked: a role
/// met again on its own path is a cycle, and every inherited role must
/// exist. Gives the roles checked so far, or the first fault.
#[verifier::opaque]
pub open spec fn role_visit(
    policy: PolicySet,
    role: Seq<char>,
    active: Seq<Seq<char>>,
    complete: Set<Seq<char>>,
) -> Result<Set<Seq<char>>, (int, Seq<char>)>
    decreases fresh_count(role_ids(policy), active), 0int, 0int,
{
    if active.contains(role) {
        Err((5, "role.inheritance-cycle:"@ + role))
    } else if complete.contains(role) {
        Ok(complete)
    } else {
        match role_index(policy.roles@, role) {
            None => Ok(complete),
            Some(i) => {
                proof {
                    lemma_role_index(policy.roles@, role);
                    assert(role_ids(policy)[i] == role);
                    lemma_fresh_push(role_ids(policy), active, role);
                }
                match role_parents(
                    policy,
                    role,
                    policy.roles@[i].inherits.deep_view(),
                    0,
                    active.push(role),
                    complete,
                ) {
                    Err(f) => Err(f),
                    Ok(c) => Ok(c.insert(role)),
                }
            },
        }
    }
}

/// The check of the inherited roles `parents[j..]` of `role`.
#[verifier::opaque]
pub open spec fn role_parents(
    policy: PolicySet,
    role: Seq<char>,
    parents: Seq<Seq<char>>,
    j: int,
    active: Seq<Seq<char>>,
    complete: Set<Seq<char>>,
) -> Result<Set<Seq<char>>, (int, Seq<char>)>
    decreases fresh_count(role_ids(policy), active), 1int, parents.len() - j,
{
    if j < 0 || j >= parents.len() {
        Ok(complete)
    } else if role_index(policy.roles@, parents[j]) is None {
        Err((5, "role.inherited-missing:"@ + role + ":"@ + parents[j]))
    } else {
        match role_visit(policy, parents[j], active, complete) {
            Err(f) => Err(f),
            Ok(c) => role_parents(policy, role, parents, j + 1, active, c),
        }
    }
}

/// One step of `role_visit`.
pub proof fn lemma_role_visit_unfold(
    policy: PolicySet,
    role: Seq<char>,
    active: Seq<Seq<char>>,
    complete: Set<Seq<char>>,
)
    ensures
        role_visit(policy, role, active, complete) == if active.contains(role) {
            Err((5, "role.inheritance-cycle:"@ + role))
        } else if complete.contains(role) {
            Ok(complete)
        } else {
            match role_index(policy.roles@, role) {
                None => Ok(complete),
                Some(i) => match role_parents(
                    policy,
                    role,
                    policy.roles@[i].inherits.deep_view(),
                    0,
                    active.push(role),
                    complete,
                ) {
                    Err(f) => Err(f),
                    Ok(c) => Ok(c.insert(role)),
                },
            }
        },
{
    reveal(role_visit);
    reveal(role_parents);
}

/// One step of `role_parents`.
pub proof fn lemma_role_parents_unfold(
    policy: PolicySet,
    role: Seq<char>,
    parents: Seq<Seq<char>>,
    j: int,
    active: Seq<Seq<char>>,
    complete: Set<Seq<char>>,
)
    ensures
        role_parents(policy, role, parents, j, active, complete) == if j < 0 || j >= parents.len() {
            Ok(complete)
        } else if role_index(policy.roles@, parents[j]) is None {
            Err((5, "role.inherited-missing:"@ + role + ":"@ + parents[j]))
        } else {
            match role_visit(policy, parents[j], active, complete) {
                Err(f) => Err(f),
                Ok(c) => role_parents(policy, role, parents, j + 1, active, c),
            }
        },
{
    reveal(role_visit);
    reveal(role_parents);
}

/// The role checks from each of the first `k` roles in turn.
pub open spec fn role_graph_upto(policy: PolicySet, k: int) -> Result<Set<Seq<char>>, (int, Seq<char>)>
    decreases k,
{
    if k <= 0 {
        Ok(Set::empty())
    } else {
        match role_graph_upto(policy, k - 1) {
            Err(f) => Err(f),
            Ok(c) => role_visit(policy, policy.roles@[k - 1].id@, Seq::empty(), c),
        }
    }
}

/// The fault of the role inheritance graph, if any.
pub open spec fn role_graph_fault(policy: PolicySet) -> Option<(int, Seq<char>)> {
    match role_graph_upto(policy, policy.roles@.len() as int) {
        Err(f) => Some(f),
        Ok(_) => None,
    }
}

fn role_visit_exec(
    policy: &PolicySet,
    role: &str,
    active: &Vec<String>,
    complete: &mut Vec<String>,
) -> (r: Result<(), PolicyLoadError>)
    ensures
        match role_visit(*policy, role@, active.deep_view(), old(complete).deep_view().to_set()) {
            Ok(c) => r is Ok && final(complete).deep_view().to_set() == c,
            Err(f) => r matches Err(e) && fault(e) == f,
        },
    decreases fresh_count(role_ids(*policy), active.deep_view()), 0int, 0int,
{
    proof {
        lemma_role_visit_unfold(*policy, role@, active.deep_view(), complete.deep_view().to_set());
    }
    if texts_contain(active, role) {
        return Err(invalid_error(concat2("role.inheritance-cycle:", role)));
    }
    if texts_contain(complete, role) {
        return Ok(());
    }
    proof {
        lemma_role_index(policy.roles@, role@);
    }
    let i = match find_role(&policy.roles, role) {
        Some(i) => i,
        None => return Ok(()),
    };
    let ghost parents_view = policy.roles@[i as int].inherits.deep_view();
    let mut next = copy_texts(active);
    next.push(String::from_str(role));
    proof {
        assert(next.deep_view() =~= active.deep_view().push(role@));
        assert(role_ids(*policy)[i as int] == policy.roles@[i as int].id@);
        lemma_fresh_push(role_ids(*policy), active.deep_view(), role@);
    }
    let parents = &policy.roles[i].inherits;
    let ghost c0 = complete.deep_view().to_set();
    assert(role_visit(*policy, role@, active.deep_view(), c0) == match role_parents(
        *policy,
        role@,
        parents.deep_view(),
        0,
        next.deep_view(),
        c0,
    ) {
        Err(f) => Err(f),
        Ok(c) => Ok(c.insert(role@)),
    });
    let mut j: usize = 0;
    while j < parents.len()
        invariant
            c0 == old(complete).deep_view().to_set(),
            role_visit(*policy, role@, active.deep_view(), c0) == match role_parents(
                *policy,
                role@,
                parents.deep_view(),
                0,
                next.deep_view(),
                c0,
            ) {
                Err(f) => Err(f),
                Ok(c) => Ok(c.insert(role@)),
            },
            parents.deep_view() == policy.roles@[i as int].inherits.deep_view(),
            next.deep_view() == active.deep_view().push(role@),
            fresh_count(role_ids(*policy), next.deep_view()) < fresh_count(
                role_ids(*policy),
                active.deep_view(),
            ),
            j <= parents.len(),
            role_parents(*policy, role@, parents.deep_view(), 0, next.deep_view(), c0)
                == role_parents(
                *policy,
                role@,
                parents.deep_view(),
                j as int,
                next.deep_view(),
                complete.deep_view().to_set(),
            ),
        decreases parents.len() - j,
    {
        let parent = parents[j].as_str();
        proof {
            lemma_role_index(policy.roles@, parent@);
            lemma_role_parents_unfold(
                *policy,
                role@,
                parents.deep_view(),
                j as int,
                next.deep_view(),
                complete.deep_view().to_set(),
            );
        }
        if find_role(&policy.roles, parent).is_none() {
            let m = concat2(concat3("role.inherited-missing:", role, ":").as_str(), parent);
            return Err(invalid_error(m));
        }
        let outcome = role_visit_exec(policy, parent, &next, complete);
        if outcome.is_err() {
            return outcome;
        }
        j = j + 1;
    }
    proof {
        lemma_role_parents_unfold(
            *policy,
            role@,
            parents.deep_view(),
            j as int,
            next.deep_view(),
            complete.deep_view().to_set(),
        );
    }
    let ghost before = complete.deep_view();
    complete.push(String::from_str(role));
    proof {
        assert(complete.deep_view() =~= before.push(role@));
        before.lemma_push_to_set_commute(role@);
    }
    Ok(())
}

/// The role checks from each role in turn, in id order.
pub(crate) fn role_graph_exec(policy: &PolicySet) -> (r: Result<(), PolicyLoadError>)
    ensures
        reports(r, role_graph_fault(*policy)),
{
    let mut complete: Vec<String> = Vec::new();
    let mut k: usize = 0;
    assert(complete.deep_view().to_set() =~= Set::<Seq<char>>::empty());
    while k < policy.roles.len()
        invariant
            k <= policy.roles.len(),
            role_graph_upto(*policy, k as int) == Ok::<Set<Seq<char>>, (int, Seq<char>)>(
                complete.deep_view().to_set(),
            ),
        decreases policy.roles.len() - k,
    {
        let empty: Vec<String> = Vec::new();
        assert(empty.deep_view() =~= Seq::<Seq<char>>::empty());
        let outcome = role_visit_exec(policy, policy.roles[k].id.as_str(), &empty, &mut complete);
        if outcome.is_err() {
            proof {
                lemma_role_graph_stuck(*policy, k as int + 1, policy.roles@.len() as int);
            }
            return outcome;
        }
        k = k + 1;
    }
    Ok(())
}

/// A fault in the first `k` roles' checks stays the fault of the whole graph.
proof fn lemma_role_graph_stuck(policy: PolicySet, k: int, n: int)
    requires
        0 <= k <= n,
        role_graph_upto(policy, k) is Err,
    ensures
        role_graph_upto(policy, n) == role_graph_upto(policy, k),
    decreases n - k,
{
    if n > k {
        lemma_role_graph_stuck(policy, k, n - 1);
    }
}

/// The nodes of the delegation graph: every source, then every recipient.
pub open spec fn delegation_nodes(policy: PolicySet) -> Seq<Seq<char>> {
    policy.environment.sources@.map_values(|s: PolicySource| s.id@) + policy.delegations@.map_values(
        |d: Delegation| d.recipient@,
    )
}

/// The depth-first check of delegation from `source`: a source met again on
/// its own path of delegations is a cycle. Gives the sources checked so far,
/// or the first fault.
#[verifier::opaque]
pub open spec fn source_visit(
    policy: PolicySet,
    source: Seq<char>,
    active: Seq<Seq<char>>,
    complete: Set<Seq<char>>,
) -> Result<Set<Seq<char>>, (int, Seq<char>)>
    decreases fresh_count(delegation_nodes(policy), active), 0int, 0int,
{
    if active.contains(source) {
        Err((5, "delegation.cycle:"@ + source))
    } else if complete.contains(source) {
        Ok(complete)
    } else if !delegation_nodes(policy).contains(source) {
        Ok(complete.insert(source))
    } else {
        proof {
            lemma_fresh_push(delegation_nodes(policy), active, source);
        }
        match source_recipients(policy, source, 0, active.push(source), complete) {
            Err(f) => Err(f),
            Ok(c) => Ok(c.insert(source)),
        }
    }
}

/// The check of the recipients of the delegations `j..` that `source` issued.
#[verifier::opaque]
pub open spec fn source_recipients(
    policy: PolicySet,
    source: Seq<char>,
    j: int,
    active: Seq<Seq<char>>,
    complete: Set<Seq<char>>,
) -> Result<Set<Seq<char>>, (int, Seq<char>)>
    decreases fresh_count(delegation_nodes(policy), active), 1int, policy.delegations@.len() - j,
{
    if j < 0 || j >= policy.delegations@.len() {
        Ok(complete)
    } else if policy.delegations@[j].issuer@ != source {
        source_recipients(policy, source, j + 1, active, complete)
    } else {
        match source_visit(policy, policy.delegations@[j].recipient@, active, complete) {
            Err(f) => Err(f),
            Ok(c) => source_recipients(policy, source, j + 1, active, c),
        }
    }
}

/// One step of `source_visit`.
pub proof fn lemma_source_visit_unfold(
    policy: PolicySet,
    source: Seq<char>,
    active: Seq<Seq<char>>,
    complete: Set<Seq<char>>,
)
    ensures
        source_visit(policy, source, active, complete) == if active.contains(source) {
            Err((5, "delegation.cycle:"@ + source))
        } else if complete.contains(source) {
            Ok(complete)
        } else if !delegation_nodes(policy).contains(source) {
            Ok(complete.insert(source))
        } else {
            match source_recipients(policy, source, 0, active.push(source), complete) {
                Err(f) => Err(f),
                Ok(c) => Ok(c.insert(source)),
            }
        },
{
    reveal(source_visit);
    reveal(source_recipients);
}

/// One step of `source_recipients`.
pub proof fn lemma_source_recipients_unfold(
    policy: PolicySet,
    source: Seq<char>,
    j: int,
    active: Seq<Seq<char>>,
    complete: Set<Seq<char>>,
)
    ensures
        source_recipients(policy, source, j, active, complete) == if j < 0 || j
            >= policy.delegations@.len() {
            Ok(complete)
        } else if policy.delegations@[j].issuer@ != source {
            source_recipients(policy, source, j + 1, active, complete)
        } else {
            match source_visit(policy, policy.delegations@[j].recipient@, active, complete) {
                Err(f) => Err(f),
                Ok(c) => source_recipients(policy, source, j + 1, active, c),
            }
        },
{
    reveal(source_visit);
    reveal(source_recipients);
}

/// The delegation checks from each of the first `k` sources in turn.
pub open spec fn delegation_graph_upto(policy: PolicySet, k: int) -> Result<
    Set<Seq<char>>,
    (int, Seq<char>),
>
    decreases k,
{
    if k <= 0 {
        Ok(Set::empty())
    } else {
        match delegation_graph_upto(policy, k - 1) {
            Err(f) => Err(f),
            Ok(c) => source_visit(policy, policy.environment.sources@[k - 1].id@, Seq::empty(), c),
        }
    }
}

/// The fault of the delegation graph, if any.
pub open spec fn delegation_graph_fault(policy: PolicySet) -> Option<(int, Seq<char>)> {
    match delegation_graph_upto(policy, policy.environment.sources@.len() as int) {
        Err(f) => Some(f),
        Ok(_) => None,
    }
}

fn delegation_node_known(policy: &PolicySet, source: &str) -> (r: bool)
    ensures
        r == delegation_nodes(*policy).contains(source@),
{
    let ghost nodes = delegation_nodes(*policy);
    let ghost ns = policy.environment.sources@.len();
    let mut i: usize = 0;
    while i < policy.environment.sources.len()
        invariant
            nodes == delegation_nodes(*policy),
            ns == policy.environment.sources@.len(),
            i <= ns,
            forall|k: int| 0 <= k < i ==> nodes[k] != source@,
        decreases policy.environment.sources.len() - i,
    {
        if text_eq(policy.environment.sources[i].id.as_str(), source) {
            assert(nodes[i as int] == source@);
            return true;
        }
        i = i + 1;
    }
    let mut j: usize = 0;
    while j < policy.delegations.len()
        invariant
            nodes == delegation_nodes(*policy),
            ns == policy.environment.sources@.len(),
            nodes.len() == ns + policy.delegations@.len(),
            j <= policy.delegations.len(),
            forall|k: int| 0 <= k < ns + j ==> nodes[k] != source@,
        decreases policy.delegations.len() - j,
    {
        if text_eq(policy.delegations[j].recipient.as_str(), source) {
            assert(nodes[ns + j] == source@);
            return true;
        }
        j = j + 1;
    }
    false
}

fn source_visit_exec(
    policy: &PolicySet,
    source: &str,
    active: &Vec<String>,
    complete: &mut Vec<String>,
) -> (r: Result<(), PolicyLoadError>)
    ensures
        match source_visit(*policy, source@, active.deep_view(), old(complete).deep_view().to_set()) {
            Ok(c) => r is Ok && final(complete).deep_view().to_set() == c,
            Err(f) => r matches Err(e) && fault(e) == f,
        },
    decreases fresh_count(delegation_nodes(*policy), active.deep_view()), 0int, 0int,
{
    proof {
        lemma_source_visit_unfold(*policy, source@, active.deep_view(), complete.deep_view().to_set());
    }
    if texts_contain(active, source) {
        return Err(invalid_error(concat2("delegation.cycle:", source)));
    }
    if texts_contain(complete, source) {
        return Ok(());
    }
    if !delegation_node_known(policy, source) {
        let ghost before = complete.deep_view();
        complete.push(String::from_str(source));
        proof {
            assert(complete.deep_view() =~= before.push(source@));
            before.lemma_push_to_set_commute(source@);
        }
        return Ok(());
    }
    let mut next = copy_texts(active);
    next.push(String::from_str(source));
    proof {
        assert(next.deep_view() =~= active.deep_view().push(source@));
        lemma_fresh_push(delegation_nodes(*policy), active.deep_view(), source@);
    }
    let ghost c0 = complete.deep_view().to_set();
    let mut j: usize = 0;
    while j < policy.delegations.len()
        invariant
            c0 == old(complete).deep_view().to_set(),
            source_visit(*policy, source@, active.deep_view(), c0) == match source_recipients(
                *policy,
                source@,
                0,
                next.deep_view(),
                c0,
            ) {
                Err(f) => Err(f),
                Ok(c) => Ok(c.insert(source@)),
            },
            next.deep_view() == active.deep_view().push(source@),
            fresh_count(delegation_nodes(*policy), next.deep_view()) < fresh_count(
                delegation_nodes(*policy),
                active.deep_view(),
            ),
            j <= policy.delegations.len(),
            source_recipients(*policy, source@, 0, next.deep_view(), c0) == source_recipients(
                *policy,
                source@,
                j as int,
                next.deep_view(),
                complete.deep_view().to_set(),
            ),
        decreases policy.delegations.len() - j,
    {
        proof {
            lemma_source_recipients_unfold(
                *policy,
                source@,
                j as int,
                next.deep_view(),
                complete.deep_view().to_set(),
            );
        }
        let d = &policy.delegations[j];
        if text_eq(d.issuer.as_str(), source) {
            let outcome = source_visit_exec(policy, d.recipient.as_str(), &next, complete);
            if outcome.is_err() {
                return outcome;
            }
        }
        j = j + 1;
    }
    proof {
        lemma_source_recipients_unfold(
            *policy,
            source@,
            j as int,
            next.deep_view(),
            complete.deep_view().to_set(),
        );
    }
    let ghost before = complete.deep_view();
    complete.push(String::from_str(source));
    proof {
        assert(complete.deep_view() =~= before.push(source@));
        before.lemma_push_to_set_commute(source@);
    }
    Ok(())
}

/// A fault in the first `k` sources' checks stays the fault of the whole graph.
proof fn lemma_delegation_graph_stuck(policy: PolicySet, k: int, n: int)
    requires
        0 <= k <= n,
        delegation_graph_upto(policy, k) is Err,
    ensures
        delegation_graph_upto(policy, n) == delegation_graph_upto(policy, k),
    decreases n - k,
{
    if n > k {
        lemma_delegation_graph_stuck(policy, k, n - 1);
    }
}

/// The delegation checks from each source in turn, in id order.
pub(crate) fn delegation_graph_exec(policy: &PolicySet) -> (r: Result<(), PolicyLoadError>)
    ensures
        reports(r, delegation_graph_fault(*policy)),
{
    let mut complete: Vec<String> = Vec::new();
    let mut k: usize = 0;
    assert(complete.deep_view().to_set() =~= Set::<Seq<char>>::empty());
    while k < policy.environment.sources.len()
        invariant
            k <= policy.environment.sources.len(),
            delegation_graph_upto(*policy, k as int) == Ok::<Set<Seq<char>>, (int, Seq<char>)>(
                complete.deep_view().to_set(),
            ),
        decreases policy.environment.sources.len() - k,
    {
        let empty: Vec<String> = Vec::new();
        assert(empty.deep_view() =~= Seq::<Seq<char>>::empty());
        let outcome = source_visit_exec(
            policy,
            policy.environment.sources[k].id.as_str(),
            &empty,
            &mut complete,
        );
        if outcome.is_err() {
            proof {
                lemma_delegation_graph_stuck(
                    *policy,
                    k as int + 1,
                    policy.environment.sources@.len() as int,
                );
            }
            return outcome;
        }
        k = k + 1;
    }
    Ok(())
}

} // verus!
