//! The roles a request's principal reaches: walks along role inheritance
//! from each assignment that applies, with the authority along each path.
use crate::policy::authority::{
    find_role, fresh_count, lemma_fresh_push, lemma_role_index, role_ids, role_index, RecordRef,
};
use crate::policy::model::{
    Applicability, Assignment, AssignmentEvaluation, AuthorizationRequest, PolicySet,
};
use crate::policy::state::{assignment_applicability, authority_state, authority_state_spec};
use crate::text::{copy_texts, insert_chain_sorted, insert_text_sorted, sorted_chains, sorted_texts, text_eq};
use vstd::prelude::*;

verus! {

/// The roles reached from `role` along inheritance, depth first, each with
/// the path that reaches it; a role already on the path is not followed
/// again, and a role the policy lacks is reached but not followed.
pub open spec fn walk_events(policy: PolicySet, role: Seq<char>, path: Seq<Seq<char>>) -> Seq<
    (Seq<char>, Seq<Seq<char>>),
>
    decreases fresh_count(role_ids(policy), path), 0int, 0int,
{
    if path.contains(role) {
        Seq::empty()
    } else {
        let next = path.push(role);
        seq![(role, next)] + match role_index(policy.roles@, role) {
            None => Seq::empty(),
            Some(i) => {
                proof {
                    lemma_role_index(policy.roles@, role);
                    assert(role_ids(policy)[i] == role);
                    lemma_fresh_push(role_ids(policy), path, role);
                }
                parents_events(policy, policy.roles@[i].inherits.deep_view(), 0, next)
            },
        }
    }
}

/// The walks from the inherited roles `parents[j..]`, in order.
pub open spec fn parents_events(
    policy: PolicySet,
    parents: Seq<Seq<char>>,
    j: int,
    path: Seq<Seq<char>>,
) -> Seq<(Seq<char>, Seq<Seq<char>>)>
    decreases fresh_count(role_ids(policy), path), 1int, parents.len() - j,
{
    if j < 0 || j >= parents.len() {
        Seq::empty()
    } else {
        walk_events(policy, parents[j], path) + parents_events(policy, parents, j + 1, path)
    }
}

/// Events as `(role, path)` views.
pub open spec fn event_views(v: Seq<(String, Vec<String>)>) -> Seq<(Seq<char>, Seq<Seq<char>>)> {
    v.map_values(|e: (String, Vec<String>)| (e.0@, e.1.deep_view()))
}

fn walk(
    policy: &PolicySet,
    role: &str,
    path: &Vec<String>,
    out: &mut Vec<(String, Vec<String>)>,
)
    ensures
        event_views(final(out)@) == event_views(old(out)@) + walk_events(*policy, role@, path.deep_view()),
    decreases fresh_count(role_ids(*policy), path.deep_view()), 0int, 0int,
{
    if texts_contain_path(path, role) {
        assert(event_views(out@) =~= event_views(out@) + Seq::<(Seq<char>, Seq<Seq<char>>)>::empty());
        return;
    }
    let mut next = copy_texts(path);
    next.push(String::from_str(role));
    let ghost start = event_views(out@);
    proof {
        assert(next.deep_view() =~= path.deep_view().push(role@));
    }
    out.push((String::from_str(role), copy_texts(&next)));
    proof {
        assert(event_views(out@) =~= start + seq![(role@, next.deep_view())]);
    }
    proof {
        lemma_role_index(policy.roles@, role@);
    }
    let i = match find_role(&policy.roles, role) {
        None => {
            assert(event_views(out@) =~= start + walk_events(*policy, role@, path.deep_view()));
            return;
        },
        Some(i) => i,
    };
    proof {
        assert(role_ids(*policy)[i as int] == role@);
        lemma_fresh_push(role_ids(*policy), path.deep_view(), role@);
    }
    let parents = &policy.roles[i].inherits;
    let mut j: usize = 0;
    while j < parents.len()
        invariant
            i < policy.roles@.len(),
            role_index(policy.roles@, role@) == Some(i as int),
            !path.deep_view().contains(role@),
            parents.deep_view() == policy.roles@[i as int].inherits.deep_view(),
            next.deep_view() == path.deep_view().push(role@),
            fresh_count(role_ids(*policy), next.deep_view()) < fresh_count(
                role_ids(*policy),
                path.deep_view(),
            ),
            j <= parents.len(),
            start + seq![(role@, next.deep_view())] + parents_events(
                *policy,
                parents.deep_view(),
                0,
                next.deep_view(),
            ) == event_views(out@) + parents_events(*policy, parents.deep_view(), j as int, next.deep_view()),
        decreases parents.len() - j,
    {
        let ghost mid = event_views(out@);
        walk(policy, parents[j].as_str(), &next, out);
        proof {
            assert(parents.deep_view()[j as int] == parents@[j as int]@);
            assert(parents_events(*policy, parents.deep_view(), j as int, next.deep_view()) == walk_events(
                *policy,
                parents.deep_view()[j as int],
                next.deep_view(),
            ) + parents_events(*policy, parents.deep_view(), j + 1, next.deep_view()));
            assert(event_views(out@) + parents_events(*policy, parents.deep_view(), j + 1, next.deep_view())
                =~= mid + parents_events(*policy, parents.deep_view(), j as int, next.deep_view()));
        }
        j = j + 1;
    }
    proof {
        assert(parents_events(*policy, parents.deep_view(), j as int, next.deep_view()) =~= Seq::empty());
        assert(event_views(out@) =~= start + walk_events(*policy, role@, path.deep_view()));
    }
}

fn texts_contain_path(path: &Vec<String>, role: &str) -> (r: bool)
    ensures
        r == path.deep_view().contains(role@),
{
    crate::text::texts_contain(path, role)
}

/// The roles reached from `start`, each with the path that reaches it, in
/// the order of a depth-first walk (see `walk_events`).
pub fn role_paths(policy: &PolicySet, start: &str) -> (r: Vec<(String, Vec<String>)>)
    ensures
        event_views(r@) == walk_events(*policy, start@, Seq::empty()),
{
    let mut out: Vec<(String, Vec<String>)> = Vec::new();
    let empty: Vec<String> = Vec::new();
    assert(empty.deep_view() =~= Seq::<Seq<char>>::empty());
    walk(policy, start, &empty, &mut out);
    assert(event_views(out@) =~= Seq::<(Seq<char>, Seq<Seq<char>>)>::empty() + walk_events(
        *policy,
        start@,
        Seq::empty(),
    ));
    out
}

/// The roles that the first role record with id `r` inherits, or none when
/// the policy has no role `r`.
pub open spec fn inherited_by(policy: PolicySet, r: Seq<char>) -> Seq<Seq<char>> {
    match role_index(policy.roles@, r) {
        Some(i) => policy.roles@[i].inherits.deep_view(),
        None => Seq::empty(),
    }
}

proof fn lemma_parents_split(
    policy: PolicySet,
    parents: Seq<Seq<char>>,
    j: int,
    path: Seq<Seq<char>>,
    k: int,
)
    requires
        0 <= j,
        0 <= k < parents_events(policy, parents, j, path).len(),
    ensures
        exists|j2: int, t: int|
            j <= j2 < parents.len() && 0 <= t < walk_events(policy, parents[j2], path).len()
                && parents_events(policy, parents, j, path)[k] == #[trigger] walk_events(
                policy,
                parents[j2],
                path,
            )[t],
    decreases parents.len() - j,
{
    let w = walk_events(policy, parents[j], path);
    let rest = parents_events(policy, parents, j + 1, path);
    assert(parents_events(policy, parents, j, path) == w + rest);
    if k < w.len() {
        assert(parents_events(policy, parents, j, path)[k] == w[k]);
    } else {
        lemma_parents_split(policy, parents, j + 1, path, k - w.len());
        assert(parents_events(policy, parents, j, path)[k] == rest[k - w.len()]);
    }
}

proof fn lemma_parents_hold(
    policy: PolicySet,
    parents: Seq<Seq<char>>,
    j: int,
    path: Seq<Seq<char>>,
    j2: int,
    t: int,
)
    requires
        0 <= j <= j2 < parents.len(),
        0 <= t < walk_events(policy, parents[j2], path).len(),
    ensures
        exists|k: int|
            0 <= k < parents_events(policy, parents, j, path).len() && #[trigger] parents_events(
                policy,
                parents,
                j,
                path,
            )[k] == walk_events(policy, parents[j2], path)[t],
    decreases j2 - j,
{
    let w = walk_events(policy, parents[j], path);
    let rest = parents_events(policy, parents, j + 1, path);
    assert(parents_events(policy, parents, j, path) == w + rest);
    if j == j2 {
        assert(parents_events(policy, parents, j, path)[t] == w[t]);
    } else {
        lemma_parents_hold(policy, parents, j + 1, path, j2, t);
        let k = choose|k: int|
            0 <= k < rest.len() && #[trigger] parents_events(policy, parents, j + 1, path)[k]
                == walk_events(policy, parents[j2], path)[t];
        assert(parents_events(policy, parents, j, path)[k + w.len()] == rest[k]);
    }
}

proof fn lemma_walk_sound(policy: PolicySet, role: Seq<char>, path: Seq<Seq<char>>, k: int)
    requires
        0 <= k < walk_events(policy, role, path).len(),
    ensures
        ({
            let p = walk_events(policy, role, path)[k].1;
            &&& p.len() > path.len()
            &&& p.subrange(0, path.len() as int) == path
            &&& p[path.len() as int] == role
            &&& p.last() == walk_events(policy, role, path)[k].0
            &&& forall|m: int|
                path.len() <= m < p.len() - 1 ==> inherited_by(policy, p[m]).contains(#[trigger] p[m + 1])
            &&& forall|m: int| path.len() <= m < p.len() ==> !p.subrange(0, m).contains(#[trigger] p[m])
        }),
    decreases fresh_count(role_ids(policy), path),
{
    let ev = walk_events(policy, role, path);
    let next = path.push(role);
    assert(!path.contains(role));
    lemma_role_index(policy.roles@, role);
    if k == 0 {
        assert(ev[0] == (role, next));
        assert(next.subrange(0, path.len() as int) =~= path);
        assert forall|m: int| path.len() <= m < next.len() implies !next.subrange(0, m).contains(
            #[trigger] next[m],
        ) by {
            assert(next.subrange(0, m) =~= path);
        }
    } else {
        let i = role_index(policy.roles@, role)->0;
        let parents = policy.roles@[i].inherits.deep_view();
        let pe = parents_events(policy, parents, 0, next);
        assert(ev == seq![(role, next)] + pe);
        assert(ev[k] == pe[k - 1]);
        lemma_parents_split(policy, parents, 0, next, k - 1);
        let (j2, t) = choose|j2: int, t: int|
            0 <= j2 < parents.len() && 0 <= t < walk_events(policy, parents[j2], next).len() && pe[k
                - 1] == #[trigger] walk_events(policy, parents[j2], next)[t];
        assert(role_ids(policy)[i] == role);
        lemma_fresh_push(role_ids(policy), path, role);
        lemma_walk_sound(policy, parents[j2], next, t);
        let p = ev[k].1;
        assert(p.subrange(0, next.len() as int) == next);
        assert(p[path.len() as int] == next[path.len() as int]);
        assert(p.subrange(0, path.len() as int) =~= next.subrange(0, path.len() as int));
        assert(next.subrange(0, path.len() as int) =~= path);
        assert forall|m: int| path.len() <= m < p.len() - 1 implies inherited_by(policy, p[m]).contains(
            #[trigger] p[m + 1],
        ) by {
            if m == path.len() {
                assert(p[m + 1] == parents[j2]);
                assert(inherited_by(policy, p[m]) == parents);
                assert(parents[j2] == parents[j2]);
            }
        }
        assert forall|m: int| path.len() <= m < p.len() implies !p.subrange(0, m).contains(
            #[trigger] p[m],
        ) by {
            if m == path.len() {
                assert(p.subrange(0, m) =~= path);
            }
        }
    }
}

#[verifier::spinoff_prover]
#[verifier::rlimit(40)]
proof fn lemma_walk_complete(
    policy: PolicySet,
    role: Seq<char>,
    path: Seq<Seq<char>>,
    k: int,
    q: Seq<char>,
)
    requires
        0 <= k < walk_events(policy, role, path).len(),
        inherited_by(policy, walk_events(policy, role, path)[k].0).contains(q),
        !walk_events(policy, role, path)[k].1.contains(q),
    ensures
        exists|k2: int|
            0 <= k2 < walk_events(policy, role, path).len() && #[trigger] walk_events(policy, role, path)[k2]
                == (q, walk_events(policy, role, path)[k].1.push(q)),
    decreases fresh_count(role_ids(policy), path),
{
    let ev = walk_events(policy, role, path);
    let next = path.push(role);
    assert(!path.contains(role));
    lemma_role_index(policy.roles@, role);
    if k == 0 {
        assert(ev[0] == (role, next));
        let i = role_index(policy.roles@, role)->0;
        let parents = policy.roles@[i].inherits.deep_view();
        let pe = parents_events(policy, parents, 0, next);
        assert(ev == seq![(role, next)] + pe);
        let j2 = choose|j2: int| 0 <= j2 < parents.len() && parents[j2] == q;
        let wq = walk_events(policy, q, next);
        assert(wq[0] == (q, next.push(q)));
        lemma_parents_hold(policy, parents, 0, next, j2, 0);
        let kk = choose|kk: int| 0 <= kk < pe.len() && #[trigger] pe[kk] == wq[0];
        assert(ev[kk + 1] == pe[kk]);
    } else {
        if role_index(policy.roles@, role) is None {
            assert(ev == seq![(role, next)]);
        }
        let i = role_index(policy.roles@, role)->0;
        let parents = policy.roles@[i].inherits.deep_view();
        let pe = parents_events(policy, parents, 0, next);
        assert(ev == seq![(role, next)] + pe);
        assert(ev[k] == pe[k - 1]);
        lemma_parents_split(policy, parents, 0, next, k - 1);
        let (j2, t) = choose|j2: int, t: int|
            0 <= j2 < parents.len() && 0 <= t < walk_events(policy, parents[j2], next).len() && pe[k
                - 1] == #[trigger] walk_events(policy, parents[j2], next)[t];
        assert(role_ids(policy)[i] == role);
        lemma_fresh_push(role_ids(policy), path, role);
        let w = walk_events(policy, parents[j2], next);
        lemma_walk_complete(policy, parents[j2], next, t, q);
        let t2 = choose|t2: int| 0 <= t2 < w.len() && #[trigger] w[t2] == (q, w[t].1.push(q));
        lemma_parents_hold(policy, parents, 0, next, j2, t2);
        let kk = choose|kk: int| 0 <= kk < pe.len() && #[trigger] pe[kk] == w[t2];
        assert(ev[kk + 1] == pe[kk]);
    }
}

/// Role inheritance is followed faithfully: the walk from `start` reaches
/// `start` first, by the path `[start]`; every role it reaches comes with
/// a path that begins at `start`, ends at that role, repeats no role, and
/// steps only from a role to one the role inherits; and whenever it
/// reaches a role by some path, it also reaches each role that role
/// inherits and that is not already on the path, by that path extended.
pub proof fn lemma_role_paths_follow_inheritance(policy: PolicySet, start: Seq<char>, k: int, q: Seq<char>)
    ensures
        walk_events(policy, start, Seq::empty()).len() > 0,
        walk_events(policy, start, Seq::empty())[0] == (start, seq![start]),
        0 <= k < walk_events(policy, start, Seq::empty()).len() ==> ({
            let (r, p) = walk_events(policy, start, Seq::empty())[k];
            &&& p.len() > 0
            &&& p[0] == start
            &&& p.last() == r
            &&& forall|m: int| 0 <= m < p.len() - 1 ==> inherited_by(policy, p[m]).contains(#[trigger] p[m + 1])
            &&& forall|a: int, b: int| 0 <= a < b < p.len() ==> #[trigger] p[a] != #[trigger] p[b]
        }),
        0 <= k < walk_events(policy, start, Seq::empty()).len() && inherited_by(
            policy,
            walk_events(policy, start, Seq::empty())[k].0,
        ).contains(q) && !walk_events(policy, start, Seq::empty())[k].1.contains(q) ==> exists|k2: int|
            0 <= k2 < walk_events(policy, start, Seq::empty()).len() && #[trigger] walk_events(
                policy,
                start,
                Seq::empty(),
            )[k2] == (q, walk_events(policy, start, Seq::empty())[k].1.push(q)),
{
    let empty = Seq::<Seq<char>>::empty();
    let ev = walk_events(policy, start, empty);
    assert(!empty.contains(start));
    assert(empty.push(start) =~= seq![start]);
    assert(ev[0] == (start, seq![start]));
    if 0 <= k < ev.len() {
        lemma_walk_sound(policy, start, empty, k);
        let p = ev[k].1;
        assert forall|a: int, b: int| 0 <= a < b < p.len() implies #[trigger] p[a] != #[trigger] p[b] by {
            assert(!p.subrange(0, b).contains(p[b]));
            assert(p.subrange(0, b)[a] == p[a]);
        }
        if inherited_by(policy, ev[k].0).contains(q) && !ev[k].1.contains(q) {
            lemma_walk_complete(policy, start, empty, k, q);
        }
    }
}

/// The authority state of the role with id `id`, if the policy has it.
pub open spec fn role_authority(policy: PolicySet, id: Seq<char>, request: AuthorizationRequest) -> Option<
    (Applicability, Set<Seq<Seq<char>>>, Seq<char>),
> {
    match role_index(policy.roles@, id) {
        None => None,
        Some(k) => Some(authority_state_spec(policy, RecordRef::Role(&policy.roles@[k]), request)),
    }
}

/// The role with id `id` exists and has no authority.
#[verifier::opaque]
pub open spec fn role_blocks(policy: PolicySet, id: Seq<char>, request: AuthorizationRequest) -> bool {
    role_authority(policy, id, request) matches Some(x) && x.0 == Applicability::Inapplicable
}

/// The role with id `id` exists and its authority cannot be told.
#[verifier::opaque]
pub open spec fn role_unsure(policy: PolicySet, id: Seq<char>, request: AuthorizationRequest) -> bool {
    role_authority(policy, id, request) matches Some(x) && x.0 == Applicability::Indeterminate
}

/// Some role of the path has no authority.
pub open spec fn path_blocked(policy: PolicySet, path: Seq<Seq<char>>, request: AuthorizationRequest) -> bool {
    exists|j: int|
        0 <= j < path.len() && role_blocks(policy, #[trigger] path[j], request)
}

/// Some role of the path has authority that cannot be told.
pub open spec fn path_uncertain(policy: PolicySet, path: Seq<Seq<char>>, request: AuthorizationRequest) -> bool {
    exists|j: int|
        0 <= j < path.len() && role_unsure(policy, #[trigger] path[j], request)
}

/// The delegation chains of the roles of a path.
pub open spec fn path_chains(policy: PolicySet, path: Seq<Seq<char>>, request: AuthorizationRequest) -> Set<
    Seq<Seq<char>>,
>
    decreases path.len(),
{
    if path.len() == 0 {
        Set::empty()
    } else {
        path_chains(policy, path.drop_last(), request) + match role_authority(
            policy,
            path.last(),
            request,
        ) {
            Some(x) => x.1,
            None => Set::empty(),
        }
    }
}

/// Merges the chains of `from` into the sorted chain list `into`.
pub(crate) fn merge_chains(into: &mut Vec<Vec<String>>, from: &Vec<Vec<String>>)
    requires
        sorted_chains(old(into).deep_view()),
    ensures
        sorted_chains(final(into).deep_view()),
        final(into).deep_view().to_set() == old(into).deep_view().to_set() + from.deep_view().to_set(),
{
    let ghost start = into.deep_view().to_set();
    let mut i: usize = 0;
    while i < from.len()
        invariant
            i <= from.len(),
            sorted_chains(into.deep_view()),
            into.deep_view().to_set() == start + from.deep_view().take(i as int).to_set(),
        decreases from.len() - i,
    {
        insert_chain_sorted(into, copy_texts(&from[i]));
        proof {
            let t = from.deep_view();
            assert(t.take(i + 1) =~= t.take(i as int).push(t[i as int]));
            t.take(i as int).lemma_push_to_set_commute(t[i as int]);
            assert(into.deep_view().to_set() =~= start + t.take(i + 1).to_set());
        }
        i = i + 1;
    }
    assert(from.deep_view().take(i as int) =~= from.deep_view());
}

proof fn lemma_path_blocked_step(policy: PolicySet, pv: Seq<Seq<char>>, i: int, request: AuthorizationRequest)
    requires
        0 <= i < pv.len(),
    ensures
        path_blocked(policy, pv.take(i + 1), request) == (path_blocked(policy, pv.take(i), request)
            || role_blocks(policy, pv[i], request)),
{
    let t = pv.take(i);
    let u = pv.take(i + 1);
    if path_blocked(policy, u, request) {
        let j = choose|j: int| 0 <= j < u.len() && role_blocks(policy, #[trigger] u[j], request);
        if j < i {
            assert(t[j] == u[j]);
        } else {
            assert(u[j] == pv[i]);
        }
    }
    if path_blocked(policy, t, request) {
        let j = choose|j: int| 0 <= j < t.len() && role_blocks(policy, #[trigger] t[j], request);
        assert(u[j] == t[j]);
    }
    if role_blocks(policy, pv[i], request) {
        assert(u[i] == pv[i]);
    }
}

proof fn lemma_path_unsure_step(policy: PolicySet, pv: Seq<Seq<char>>, i: int, request: AuthorizationRequest)
    requires
        0 <= i < pv.len(),
    ensures
        path_uncertain(policy, pv.take(i + 1), request) == (path_uncertain(policy, pv.take(i), request)
            || role_unsure(policy, pv[i], request)),
{
    let t = pv.take(i);
    let u = pv.take(i + 1);
    if path_uncertain(policy, u, request) {
        let j = choose|j: int| 0 <= j < u.len() && role_unsure(policy, #[trigger] u[j], request);
        if j < i {
            assert(t[j] == u[j]);
        } else {
            assert(u[j] == pv[i]);
        }
    }
    if path_uncertain(policy, t, request) {
        let j = choose|j: int| 0 <= j < t.len() && role_unsure(policy, #[trigger] t[j], request);
        assert(u[j] == t[j]);
    }
    if role_unsure(policy, pv[i], request) {
        assert(u[i] == pv[i]);
    }
}

proof fn lemma_path_chains_step(policy: PolicySet, pv: Seq<Seq<char>>, i: int, request: AuthorizationRequest)
    requires
        0 <= i < pv.len(),
    ensures
        path_chains(policy, pv.take(i + 1), request) == path_chains(policy, pv.take(i), request)
            + match role_authority(policy, pv[i], request) {
            Some(x) => x.1,
            None => Set::empty(),
        },
{
    let u = pv.take(i + 1);
    assert(u.drop_last() =~= pv.take(i));
    assert(u.last() == pv[i]);
}

fn path_authority(policy: &PolicySet, path: &Vec<String>, request: &AuthorizationRequest) -> (r: (
    bool,
    bool,
    Vec<Vec<String>>,
))
    ensures
        r.0 == path_blocked(*policy, path.deep_view(), *request),
        r.1 == path_uncertain(*policy, path.deep_view(), *request),
        sorted_chains(r.2.deep_view()),
        r.2.deep_view().to_set() == path_chains(*policy, path.deep_view(), *request),
{
    let ghost pv = path.deep_view();
    let mut blocked = false;
    let mut uncertain = false;
    let mut chains: Vec<Vec<String>> = Vec::new();
    assert(chains.deep_view().to_set() =~= Set::<Seq<Seq<char>>>::empty());
    assert(pv.take(0) =~= Seq::<Seq<char>>::empty());
    let mut i: usize = 0;
    while i < path.len()
        invariant
            pv == path.deep_view(),
            i <= path.len(),
            blocked == path_blocked(*policy, pv.take(i as int), *request),
            uncertain == path_uncertain(*policy, pv.take(i as int), *request),
            sorted_chains(chains.deep_view()),
            chains.deep_view().to_set() == path_chains(*policy, pv.take(i as int), *request),
        decreases path.len() - i,
    {
        proof {
            lemma_path_blocked_step(*policy, pv, i as int, *request);
            lemma_path_unsure_step(*policy, pv, i as int, *request);
            lemma_path_chains_step(*policy, pv, i as int, *request);
            assert(pv[i as int] == path@[i as int]@);
            lemma_role_index(policy.roles@, pv[i as int]);
        }
        match find_role(&policy.roles, path[i].as_str()) {
            None => {
                proof {
                    reveal(role_blocks);
                    reveal(role_unsure);
                }
                assert(path_chains(*policy, pv.take(i + 1), *request) =~= path_chains(
                    *policy,
                    pv.take(i as int),
                    *request,
                ));
            },
            Some(k) => {
                let a = authority_state(policy, RecordRef::Role(&policy.roles[k]), request);
                proof {
                    reveal(role_blocks);
                    reveal(role_unsure);
                }
                if a.0 == Applicability::Inapplicable {
                    blocked = true;
                }
                if a.0 == Applicability::Indeterminate {
                    uncertain = true;
                }
                merge_chains(&mut chains, &a.1);
            },
        }
        i = i + 1;
    }
    assert(pv.take(i as int) =~= pv);
    (blocked, uncertain, chains)
}

/// A role an assignment reaches: the role, the path from the assignment
/// through the roles, whether the reach is uncertain, and the delegation
/// chains that carry it.
pub open spec fn reach_of(
    policy: PolicySet,
    request: AuthorizationRequest,
    a: Assignment,
    uncertain: bool,
    events: Seq<(Seq<char>, Seq<Seq<char>>)>,
) -> Seq<(Seq<char>, Seq<Seq<char>>, bool, Set<Seq<Seq<char>>>)>
    decreases events.len(),
{
    if events.len() == 0 {
        Seq::empty()
    } else {
        let rest = reach_of(policy, request, a, uncertain, events.drop_last());
        let e = events.last();
        let own = authority_state_spec(policy, RecordRef::Assignment(&a), request);
        if own.0 != Applicability::Inapplicable && !path_blocked(policy, e.1, request) {
            rest.push(
                (
                    e.0,
                    seq![a.id@] + e.1,
                    uncertain || own.0 == Applicability::Indeterminate || path_uncertain(
                        policy,
                        e.1,
                        request,
                    ),
                    own.1 + path_chains(policy, e.1, request),
                ),
            )
        } else {
            rest
        }
    }
}

/// The roles an assignment reaches through its first `k` roles.
#[verifier::opaque]
pub open spec fn assignment_reach(
    policy: PolicySet,
    request: AuthorizationRequest,
    a: Assignment,
    uncertain: bool,
    k: int,
) -> Seq<(Seq<char>, Seq<Seq<char>>, bool, Set<Seq<Seq<char>>>)>
    decreases k,
{
    if k <= 0 {
        Seq::empty()
    } else {
        assignment_reach(policy, request, a, uncertain, k - 1) + reach_of(
            policy,
            request,
            a,
            uncertain,
            walk_events(policy, a.roles@[k - 1]@, Seq::empty()),
        )
    }
}

/// The roles that the first `n` assignments reach, skipping assignments
/// that do not apply.
#[verifier::opaque]
pub open spec fn all_reach(policy: PolicySet, request: AuthorizationRequest, n: int) -> Seq<
    (Seq<char>, Seq<Seq<char>>, bool, Set<Seq<Seq<char>>>),
>
    decreases n,
{
    if n <= 0 {
        Seq::empty()
    } else {
        let a = policy.assignments@[n - 1];
        let ap = assignment_applicability(policy, a, request);
        all_reach(policy, request, n - 1) + if ap == Applicability::Inapplicable {
            Seq::empty()
        } else {
            assignment_reach(policy, request, a, ap == Applicability::Indeterminate, a.roles@.len() as int)
        }
    }
}

/// Reaches as views.
pub open spec fn reach_views(v: Seq<(String, Vec<String>, bool, Vec<Vec<String>>)>) -> Seq<
    (Seq<char>, Seq<Seq<char>>, bool, Set<Seq<Seq<char>>>),
> {
    v.map_values(
        |e: (String, Vec<String>, bool, Vec<Vec<String>>)|
            (e.0@, e.1.deep_view(), e.2, e.3.deep_view().to_set()),
    )
}

/// Every reach holds its chains sorted.
pub open spec fn reach_sorted(v: Seq<(String, Vec<String>, bool, Vec<Vec<String>>)>) -> bool {
    forall|k: int| 0 <= k < v.len() ==> sorted_chains((#[trigger] v[k]).3.deep_view())
}

fn reach_from(
    policy: &PolicySet,
    request: &AuthorizationRequest,
    a: &Assignment,
    own: &(Applicability, Vec<Vec<String>>, &'static str),
    uncertain: bool,
    events: &Vec<(String, Vec<String>)>,
    out: &mut Vec<(String, Vec<String>, bool, Vec<Vec<String>>)>,
)
    requires
        own.0 == authority_state_spec(*policy, RecordRef::Assignment(a), *request).0,
        own.1.deep_view().to_set() == authority_state_spec(*policy, RecordRef::Assignment(a), *request).1,
        sorted_chains(own.1.deep_view()),
        reach_sorted(old(out)@),
    ensures
        reach_sorted(final(out)@),
        reach_views(final(out)@) == reach_views(old(out)@) + reach_of(
            *policy,
            *request,
            *a,
            uncertain,
            event_views(events@),
        ),
{
    let ghost start = reach_views(out@);
    let ghost ev = event_views(events@);
    let mut k: usize = 0;
    assert(reach_views(out@) =~= start + reach_of(*policy, *request, *a, uncertain, ev.take(0)));
    while k < events.len()
        invariant
            k <= events.len(),
            ev == event_views(events@),
            own.0 == authority_state_spec(*policy, RecordRef::Assignment(a), *request).0,
            own.1.deep_view().to_set() == authority_state_spec(*policy, RecordRef::Assignment(a), *request).1,
            sorted_chains(own.1.deep_view()),
            reach_sorted(out@),
            reach_views(out@) == start + reach_of(*policy, *request, *a, uncertain, ev.take(k as int)),
        decreases events.len() - k,
    {
        proof {
            assert(ev.take(k + 1).drop_last() =~= ev.take(k as int));
            assert(ev.take(k + 1).last() == ev[k as int]);
        }
        let path = &events[k].1;
        let (blocked, path_uncertain_now, path_chain_list) = path_authority(policy, path, request);
        if own.0 != Applicability::Inapplicable && !blocked {
            let mut full: Vec<String> = Vec::new();
            full.push(a.id.clone());
            let mut rest = copy_texts(path);
            full.append(&mut rest);
            let mut chains: Vec<Vec<String>> = Vec::new();
            assert(chains.deep_view().to_set() =~= Set::<Seq<Seq<char>>>::empty());
            merge_chains(&mut chains, &own.1);
            merge_chains(&mut chains, &path_chain_list);
            let flag = uncertain || own.0 == Applicability::Indeterminate || path_uncertain_now;
            let ghost before = out@;
            out.push((events[k].0.clone(), full, flag, chains));
            proof {
                assert(full.deep_view() =~= seq![a.id@] + path.deep_view());
                assert(chains.deep_view().to_set() =~= own.1.deep_view().to_set() + path_chain_list.deep_view().to_set());
                assert(reach_views(out@) =~= reach_views(before).push(reach_views(out@).last()));
                assert(reach_sorted(out@)) by {
                    assert forall|q: int| 0 <= q < out@.len() implies sorted_chains(
                        (#[trigger] out@[q]).3.deep_view(),
                    ) by {
                        if q < before.len() {
                            assert(out@[q] == before[q]);
                        }
                    }
                }
            }
        }
        k = k + 1;
    }
    assert(ev.take(k as int) =~= ev);
}

proof fn lemma_assignment_reach_step(
    policy: PolicySet,
    request: AuthorizationRequest,
    a: Assignment,
    uncertain: bool,
    j: int,
)
    requires
        0 <= j,
    ensures
        assignment_reach(policy, request, a, uncertain, 0) == Seq::<
            (Seq<char>, Seq<Seq<char>>, bool, Set<Seq<Seq<char>>>),
        >::empty(),
        assignment_reach(policy, request, a, uncertain, j + 1) == assignment_reach(
            policy,
            request,
            a,
            uncertain,
            j,
        ) + reach_of(policy, request, a, uncertain, walk_events(policy, a.roles@[j]@, Seq::empty())),
{
    reveal(assignment_reach);
}

proof fn lemma_all_reach_step(policy: PolicySet, request: AuthorizationRequest, i: int)
    requires
        0 <= i,
    ensures
        all_reach(policy, request, 0) == Seq::<
            (Seq<char>, Seq<Seq<char>>, bool, Set<Seq<Seq<char>>>),
        >::empty(),
        all_reach(policy, request, i + 1) == all_reach(policy, request, i) + if assignment_applicability(
            policy,
            policy.assignments@[i],
            request,
        ) == Applicability::Inapplicable {
            Seq::empty()
        } else {
            assignment_reach(
                policy,
                request,
                policy.assignments@[i],
                assignment_applicability(policy, policy.assignments@[i], request)
                    == Applicability::Indeterminate,
                policy.assignments@[i].roles@.len() as int,
            )
        },
{
    reveal(all_reach);
}

fn reach_assignment(
    policy: &PolicySet,
    request: &AuthorizationRequest,
    a: &Assignment,
    uncertain: bool,
    out: &mut Vec<(String, Vec<String>, bool, Vec<Vec<String>>)>,
)
    requires
        reach_sorted(old(out)@),
    ensures
        reach_sorted(final(out)@),
        reach_views(final(out)@) == reach_views(old(out)@) + assignment_reach(
            *policy,
            *request,
            *a,
            uncertain,
            a.roles@.len() as int,
        ),
{
    let ghost before = reach_views(out@);
    let own = authority_state(policy, RecordRef::Assignment(a), request);
    proof {
        lemma_assignment_reach_step(*policy, *request, *a, uncertain, 0);
    }
    assert(reach_views(out@) =~= before + assignment_reach(*policy, *request, *a, uncertain, 0));
    let mut j: usize = 0;
    while j < a.roles.len()
        invariant
            j <= a.roles@.len(),
            own.0 == authority_state_spec(*policy, RecordRef::Assignment(a), *request).0,
            own.1.deep_view().to_set() == authority_state_spec(*policy, RecordRef::Assignment(a), *request).1,
            sorted_chains(own.1.deep_view()),
            reach_sorted(out@),
            reach_views(out@) == before + assignment_reach(*policy, *request, *a, uncertain, j as int),
        decreases a.roles.len() - j,
    {
        let events = role_paths(policy, a.roles[j].as_str());
        reach_from(policy, request, a, &own, uncertain, &events, out);
        proof {
            lemma_assignment_reach_step(*policy, *request, *a, uncertain, j as int);
            assert(reach_views(out@) =~= before + assignment_reach(*policy, *request, *a, uncertain, j + 1));
        }
        j = j + 1;
    }
}

/// The roles reached by every assignment that applies, in order.
pub(crate) fn collect_reach(
    policy: &PolicySet,
    request: &AuthorizationRequest,
    evaluations: &Vec<AssignmentEvaluation>,
) -> (r: Vec<(String, Vec<String>, bool, Vec<Vec<String>>)>)
    requires
        evaluations@.len() == policy.assignments@.len(),
        forall|i: int|
            0 <= i < evaluations@.len() ==> (#[trigger] evaluations@[i]).applicability
                == assignment_applicability(*policy, policy.assignments@[i], *request),
    ensures
        reach_sorted(r@),
        reach_views(r@) == all_reach(*policy, *request, policy.assignments@.len() as int),
{
    let mut out: Vec<(String, Vec<String>, bool, Vec<Vec<String>>)> = Vec::new();
    proof {
        lemma_all_reach_step(*policy, *request, 0);
    }
    assert(reach_views(out@) =~= all_reach(*policy, *request, 0));
    let mut i: usize = 0;
    while i < policy.assignments.len()
        invariant
            i <= policy.assignments@.len(),
            evaluations@.len() == policy.assignments@.len(),
            forall|i: int|
                0 <= i < evaluations@.len() ==> (#[trigger] evaluations@[i]).applicability
                    == assignment_applicability(*policy, policy.assignments@[i], *request),
            reach_sorted(out@),
            reach_views(out@) == all_reach(*policy, *request, i as int),
        decreases policy.assignments.len() - i,
    {
        let ap = evaluations[i].applicability;
        let ghost before = reach_views(out@);
        if ap != Applicability::Inapplicable {
            reach_assignment(policy, request, &policy.assignments[i], ap == Applicability::Indeterminate, &mut out);
        }
        proof {
            lemma_all_reach_step(*policy, *request, i as int);
            assert(reach_views(out@) =~= all_reach(*policy, *request, i + 1));
        }
        i = i + 1;
    }
    out
}

/// The paths by which `role` is reached, in order.
pub open spec fn reach_paths(
    reach: Seq<(Seq<char>, Seq<Seq<char>>, bool, Set<Seq<Seq<char>>>)>,
    role: Seq<char>,
) -> Seq<Seq<Seq<char>>>
    decreases reach.len(),
{
    if reach.len() == 0 {
        Seq::empty()
    } else {
        reach_paths(reach.drop_last(), role) + if reach.last().0 == role {
            seq![reach.last().1]
        } else {
            Seq::empty()
        }
    }
}

/// Some reach of `role` is uncertain.
pub open spec fn reach_unsure(
    reach: Seq<(Seq<char>, Seq<Seq<char>>, bool, Set<Seq<Seq<char>>>)>,
    role: Seq<char>,
) -> bool {
    exists|k: int| 0 <= k < reach.len() && (#[trigger] reach[k]).0 == role && reach[k].2
}

/// The delegation chains of every reach of `role`.
pub open spec fn reach_chains(
    reach: Seq<(Seq<char>, Seq<Seq<char>>, bool, Set<Seq<Seq<char>>>)>,
    role: Seq<char>,
) -> Set<Seq<Seq<char>>>
    decreases reach.len(),
{
    if reach.len() == 0 {
        Set::empty()
    } else {
        reach_chains(reach.drop_last(), role) + if reach.last().0 == role {
            reach.last().3
        } else {
            Set::empty()
        }
    }
}

pub(crate) fn role_reach(reach: &Vec<(String, Vec<String>, bool, Vec<Vec<String>>)>, role: &str) -> (r: (
    Vec<Vec<String>>,
    bool,
    Vec<Vec<String>>,
))
    requires
        reach_sorted(reach@),
    ensures
        r.0.deep_view() == reach_paths(reach_views(reach@), role@),
        r.1 == reach_unsure(reach_views(reach@), role@),
        sorted_chains(r.2.deep_view()),
        r.2.deep_view().to_set() == reach_chains(reach_views(reach@), role@),
{
    let ghost rv = reach_views(reach@);
    let mut paths: Vec<Vec<String>> = Vec::new();
    let mut unsure = false;
    let mut chains: Vec<Vec<String>> = Vec::new();
    assert(chains.deep_view().to_set() =~= Set::<Seq<Seq<char>>>::empty());
    assert(paths.deep_view() =~= reach_paths(rv.take(0), role@));
    let mut k: usize = 0;
    while k < reach.len()
        invariant
            rv == reach_views(reach@),
            k <= reach.len(),
            paths.deep_view() == reach_paths(rv.take(k as int), role@),
            unsure == reach_unsure(rv.take(k as int), role@),
            sorted_chains(chains.deep_view()),
            chains.deep_view().to_set() == reach_chains(rv.take(k as int), role@),
        decreases reach.len() - k,
    {
        let ghost t = rv.take(k as int);
        let ghost u = rv.take(k + 1);
        proof {
            assert(u.drop_last() =~= t);
            assert(u.last() == rv[k as int]);
            if reach_unsure(u, role@) {
                let q = choose|q: int| 0 <= q < u.len() && (#[trigger] u[q]).0 == role@ && u[q].2;
                if q < k {
                    assert(t[q] == u[q]);
                }
            }
            if reach_unsure(t, role@) {
                let q = choose|q: int| 0 <= q < t.len() && (#[trigger] t[q]).0 == role@ && t[q].2;
                assert(u[q] == t[q]);
            }
            if rv[k as int].0 == role@ && rv[k as int].2 {
                assert(u[k as int] == rv[k as int]);
            }
        }
        let e = &reach[k];
        if text_eq(e.0.as_str(), role) {
            let ghost before = paths.deep_view();
            paths.push(copy_texts(&e.1));
            assert(paths.deep_view() =~= before.push(rv[k as int].1));
            if e.2 {
                unsure = true;
            }
            merge_chains(&mut chains, &e.3);
        } else {
            assert(reach_chains(u, role@) =~= reach_chains(t, role@));
        }
        k = k + 1;
    }
    assert(rv.take(k as int) =~= rv);
    (paths, unsure, chains)
}

/// Every role the request's principal reaches through some assignment.
pub open spec fn policy_reach(policy: PolicySet, request: AuthorizationRequest) -> Seq<
    (Seq<char>, Seq<Seq<char>>, bool, Set<Seq<Seq<char>>>),
> {
    all_reach(policy, request, policy.assignments@.len() as int)
}

/// The roles reached at all.
pub open spec fn reached_roles(reach: Seq<(Seq<char>, Seq<Seq<char>>, bool, Set<Seq<Seq<char>>>)>) -> Set<
    Seq<char>,
> {
    Set::new(|r: Seq<char>| exists|k: int| 0 <= k < reach.len() && (#[trigger] reach[k]).0 == r)
}

/// The roles reached in a way that cannot be told for certain.
pub open spec fn unsure_roles(reach: Seq<(Seq<char>, Seq<Seq<char>>, bool, Set<Seq<Seq<char>>>)>) -> Set<
    Seq<char>,
> {
    Set::new(|r: Seq<char>| reach_unsure(reach, r))
}

pub(crate) fn role_sets(reach: &Vec<(String, Vec<String>, bool, Vec<Vec<String>>)>) -> (r: (Vec<String>, Vec<String>))
    ensures
        sorted_texts(r.0.deep_view()),
        r.0.deep_view().to_set() == reached_roles(reach_views(reach@)) - unsure_roles(reach_views(reach@)),
        sorted_texts(r.1.deep_view()),
        r.1.deep_view().to_set() == unsure_roles(reach_views(reach@)),
{
    let ghost rv = reach_views(reach@);
    let mut reached: Vec<String> = Vec::new();
    let mut unsure: Vec<String> = Vec::new();
    assert(reached.deep_view().to_set() =~= reached_roles(rv.take(0)));
    assert(unsure.deep_view().to_set() =~= unsure_roles(rv.take(0)));
    let mut k: usize = 0;
    while k < reach.len()
        invariant
            rv == reach_views(reach@),
            k <= reach.len(),
            sorted_texts(reached.deep_view()),
            sorted_texts(unsure.deep_view()),
            reached.deep_view().to_set() == reached_roles(rv.take(k as int)),
            unsure.deep_view().to_set() == unsure_roles(rv.take(k as int)),
        decreases reach.len() - k,
    {
        let ghost t = rv.take(k as int);
        let ghost u = rv.take(k + 1);
        insert_text_sorted(&mut reached, reach[k].0.clone());
        if reach[k].2 {
            insert_text_sorted(&mut unsure, reach[k].0.clone());
        }
        proof {
            assert(u[k as int] == rv[k as int]);
            assert forall|q: int| 0 <= q < k implies u[q] == t[q] by {}
            assert(reached.deep_view().to_set() =~= reached_roles(u)) by {
                assert forall|r: Seq<char>| reached_roles(u).contains(r) implies reached.deep_view().to_set().contains(r) by {
                    let q = choose|q: int| 0 <= q < u.len() && (#[trigger] u[q]).0 == r;
                    if q < k {
                        assert(reached_roles(t).contains(r));
                    }
                }
                assert forall|r: Seq<char>| reached.deep_view().to_set().contains(r) implies reached_roles(u).contains(r) by {
                    if r == rv[k as int].0 {
                        assert(u[k as int].0 == r);
                    } else {
                        assert(reached_roles(t).contains(r));
                        let q = choose|q: int| 0 <= q < t.len() && (#[trigger] t[q]).0 == r;
                        assert(u[q].0 == r);
                    }
                }
            }
            assert(unsure.deep_view().to_set() =~= unsure_roles(u)) by {
                assert forall|r: Seq<char>| unsure_roles(u).contains(r) implies unsure.deep_view().to_set().contains(r) by {
                    let q = choose|q: int| 0 <= q < u.len() && (#[trigger] u[q]).0 == r && u[q].2;
                    if q < k {
                        assert(t[q] == u[q]);
                        assert(unsure_roles(t).contains(r));
                    }
                }
                assert forall|r: Seq<char>| unsure.deep_view().to_set().contains(r) implies unsure_roles(u).contains(r) by {
                    if r == rv[k as int].0 && rv[k as int].2 {
                        assert(u[k as int].0 == r && u[k as int].2);
                    } else {
                        assert(unsure_roles(t).contains(r));
                        let q = choose|q: int| 0 <= q < t.len() && (#[trigger] t[q]).0 == r && t[q].2;
                        assert(u[q] == t[q]);
                    }
                }
            }
        }
        k = k + 1;
    }
    assert(rv.take(k as int) =~= rv);
    let mut effective: Vec<String> = Vec::new();
    let ghost uv = unsure.deep_view();
    let ghost gv = reached.deep_view();
    assert(effective.deep_view().to_set() =~= gv.take(0).to_set() - uv.to_set());
    let mut i: usize = 0;
    while i < reached.len()
        invariant
            uv == unsure.deep_view(),
            gv == reached.deep_view(),
            sorted_texts(gv),
            i <= reached.len(),
            sorted_texts(effective.deep_view()),
            forall|q: int|
                0 <= q < effective.deep_view().len() ==> exists|j: int|
                    0 <= j < i && gv[j] == #[trigger] effective.deep_view()[q],
            effective.deep_view().to_set() == gv.take(i as int).to_set() - uv.to_set(),
        decreases reached.len() - i,
    {
        let ghost before = effective.deep_view();
        proof {
            assert(gv.take(i + 1) =~= gv.take(i as int).push(gv[i as int]));
            gv.take(i as int).lemma_push_to_set_commute(gv[i as int]);
            assert(gv[i as int] == reached@[i as int]@);
        }
        if !crate::text::texts_contain(&unsure, reached[i].as_str()) {
            effective.push(reached[i].clone());
            proof {
                let ev = effective.deep_view();
                assert(ev =~= before.push(gv[i as int]));
                assert forall|a: int, b: int| 0 <= a < b < ev.len() implies crate::text::seq_lt(
                    #[trigger] ev[a],
                    #[trigger] ev[b],
                ) by {
                    if b == ev.len() - 1 {
                        let j = choose|j: int| 0 <= j < i && gv[j] == #[trigger] before[a];
                        assert(ev[a] == before[a]);
                    } else {
                        assert(ev[a] == before[a]);
                        assert(ev[b] == before[b]);
                    }
                }
                assert forall|q: int| 0 <= q < ev.len() implies exists|j: int|
                    0 <= j < i + 1 && gv[j] == #[trigger] ev[q] by {
                    if q == ev.len() - 1 {
                        assert(gv[i as int] == ev[q]);
                    } else {
                        assert(ev[q] == before[q]);
                        let j = choose|j: int| 0 <= j < i && gv[j] == #[trigger] before[q];
                    }
                }
                before.lemma_push_to_set_commute(gv[i as int]);
                assert(ev.to_set() =~= gv.take(i + 1).to_set() - uv.to_set());
            }
        } else {
            proof {
                assert(effective.deep_view().to_set() =~= gv.take(i + 1).to_set() - uv.to_set());
                assert forall|q: int| 0 <= q < before.len() implies exists|j: int|
                    0 <= j < i + 1 && gv[j] == #[trigger] before[q] by {
                    let j = choose|j: int| 0 <= j < i && gv[j] == #[trigger] before[q];
                }
            }
        }
        i = i + 1;
    }
    assert(gv.take(i as int) =~= gv);
    (effective, unsure)
}

} // verus!
