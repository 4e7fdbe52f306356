//! Role inheritance cycles, found by a depth-first search that never
//! starts again from a role it has met.
use crate::policy::authority::{
    find_role, fresh_count, lemma_fresh_push, lemma_role_index, role_ids, role_index,
};
use crate::policy::model::{Diagnostic, PolicySet};
use crate::policy::state::opt_text;
use crate::text::{copy_texts, text_eq};
use vstd::prelude::*;

verus! {

/// A diagnostic as `(code, severity, message, record id)`.
pub open spec fn diag_view(d: Diagnostic) -> (Seq<char>, Seq<char>, Seq<char>, Option<Seq<char>>) {
    (d.code@, d.severity@, d.message@, opt_text(d.record_id))
}

/// Diagnostics as views.
pub open spec fn diag_views(v: Seq<Diagnostic>) -> Seq<(Seq<char>, Seq<char>, Seq<char>, Option<Seq<char>>)> {
    v.map_values(|d: Diagnostic| diag_view(d))
}

/// The texts of `parts` joined by `sep`.
pub open spec fn joined(parts: Seq<Seq<char>>, sep: Seq<char>) -> Seq<char>
    decreases parts.len(),
{
    if parts.len() == 0 {
        Seq::empty()
    } else if parts.len() == 1 {
        parts[0]
    } else {
        joined(parts.drop_last(), sep) + sep + parts.last()
    }
}

/// The first position of `x` in `s` (its length when `x` does not occur).
pub open spec fn first_position(s: Seq<Seq<char>>, x: Seq<char>) -> int
    decreases s.len(),
{
    if s.len() == 0 {
        0
    } else if s[0] == x {
        0
    } else {
        first_position(s.drop_first(), x) + 1
    }
}

proof fn lemma_first_position(s: Seq<Seq<char>>, x: Seq<char>, i: int)
    requires
        0 <= i < s.len(),
        s[i] == x,
        forall|j: int| 0 <= j < i ==> s[j] != x,
    ensures
        first_position(s, x) == i,
    decreases i,
{
    if i > 0 {
        assert(s[0] != x);
        assert forall|j: int| 0 <= j < i - 1 implies s.drop_first()[j] != x by {
            assert(s.drop_first()[j] == s[j + 1]);
        }
        lemma_first_position(s.drop_first(), x, i - 1);
    }
}

/// The diagnostic of a role met again on its own inheritance path: the
/// cycle runs from its first place on the path back to it.
pub open spec fn cycle_diag(active: Seq<Seq<char>>, role: Seq<char>) -> (
    Seq<char>,
    Seq<char>,
    Seq<char>,
    Option<Seq<char>>,
) {
    (
        "role.inheritance-cycle"@,
        "error"@,
        "Role inheritance cycle: "@ + joined(
            active.subrange(first_position(active, role), active.len() as int).push(role),
            " -> "@,
        ),
        Some(role),
    )
}

/// `w` begins with `v`.
pub open spec fn extends(w: Seq<Seq<char>>, v: Seq<Seq<char>>) -> bool {
    v.len() <= w.len() && w.subrange(0, v.len() as int) == v
}

/// Visiting more never adds fresh entries.
pub proof fn lemma_fresh_extend(ids: Seq<Seq<char>>, v: Seq<Seq<char>>, w: Seq<Seq<char>>)
    requires
        extends(w, v),
    ensures
        fresh_count(ids, w) <= fresh_count(ids, v),
    decreases ids.len(),
{
    if ids.len() > 0 {
        lemma_fresh_extend(ids.drop_last(), v, w);
        if v.contains(ids.last()) {
            let k = choose|k: int| 0 <= k < v.len() && v[k] == ids.last();
            assert(w.subrange(0, v.len() as int)[k] == w[k]);
            assert(w[k] == ids.last());
        }
    }
}

/// The depth-first search for inheritance cycles from `role`, with
/// `active` the roles on the current path and `visited` those met so far:
/// gives the roles met afterwards and the cycle diagnostics found.
#[verifier::opaque]
pub open spec fn cycle_visit(
    policy: PolicySet,
    role: Seq<char>,
    active: Seq<Seq<char>>,
    visited: Seq<Seq<char>>,
) -> (Seq<Seq<char>>, Seq<(Seq<char>, Seq<char>, Seq<char>, Option<Seq<char>>)>)
    decreases fresh_count(role_ids(policy), visited), 0int, 0int,
{
    if active.contains(role) {
        (visited, seq![cycle_diag(active, role)])
    } else if visited.contains(role) {
        (visited, Seq::empty())
    } else {
        let v = visited.push(role);
        match role_index(policy.roles@, role) {
            None => (v, Seq::empty()),
            Some(i) => {
                proof {
                    lemma_role_index(policy.roles@, role);
                    assert(role_ids(policy)[i] == role);
                    lemma_fresh_push(role_ids(policy), visited, role);
                }
                cycle_parents(policy, policy.roles@[i].inherits.deep_view(), 0, active.push(role), v)
            },
        }
    }
}

/// The cycle search from the inherited roles `parents[j..]`, in order.
#[verifier::opaque]
pub open spec fn cycle_parents(
    policy: PolicySet,
    parents: Seq<Seq<char>>,
    j: int,
    active: Seq<Seq<char>>,
    visited: Seq<Seq<char>>,
) -> (Seq<Seq<char>>, Seq<(Seq<char>, Seq<char>, Seq<char>, Option<Seq<char>>)>)
    decreases fresh_count(role_ids(policy), visited), 1int, parents.len() - j,
{
    if j < 0 || j >= parents.len() {
        (visited, Seq::empty())
    } else {
        let first = cycle_visit(policy, parents[j], active, visited);
        if extends(first.0, visited) {
            proof {
                lemma_fresh_extend(role_ids(policy), visited, first.0);
            }
            let rest = cycle_parents(policy, parents, j + 1, active, first.0);
            (rest.0, first.1 + rest.1)
        } else {
            first
        }
    }
}

/// One step of `cycle_visit`.
pub proof fn lemma_cycle_visit_unfold(
    policy: PolicySet,
    role: Seq<char>,
    active: Seq<Seq<char>>,
    visited: Seq<Seq<char>>,
)
    ensures
        cycle_visit(policy, role, active, visited) == if active.contains(role) {
            (visited, seq![cycle_diag(active, role)])
        } else if visited.contains(role) {
            (visited, Seq::empty())
        } else {
            match role_index(policy.roles@, role) {
                None => (visited.push(role), Seq::empty()),
                Some(i) => cycle_parents(
                    policy,
                    policy.roles@[i].inherits.deep_view(),
                    0,
                    active.push(role),
                    visited.push(role),
                ),
            }
        },
{
    reveal(cycle_visit);
    reveal(cycle_parents);
}

/// One step of `cycle_parents`.
pub proof fn lemma_cycle_parents_unfold(
    policy: PolicySet,
    parents: Seq<Seq<char>>,
    j: int,
    active: Seq<Seq<char>>,
    visited: Seq<Seq<char>>,
)
    ensures
        cycle_parents(policy, parents, j, active, visited) == if j < 0 || j >= parents.len() {
            (visited, Seq::empty())
        } else {
            let first = cycle_visit(policy, parents[j], active, visited);
            if extends(first.0, visited) {
                let rest = cycle_parents(policy, parents, j + 1, active, first.0);
                (rest.0, first.1 + rest.1)
            } else {
                first
            }
        },
{
    reveal(cycle_visit);
    reveal(cycle_parents);
}

proof fn lemma_extends_trans(a: Seq<Seq<char>>, b: Seq<Seq<char>>, c: Seq<Seq<char>>)
    requires
        extends(b, a),
        extends(c, b),
    ensures
        extends(c, a),
{
    assert(c.subrange(0, a.len() as int) =~= b.subrange(0, a.len() as int));
}

/// The search only ever adds to the roles met.
proof fn lemma_cycle_extends(
    policy: PolicySet,
    role: Seq<char>,
    active: Seq<Seq<char>>,
    visited: Seq<Seq<char>>,
)
    ensures
        extends(cycle_visit(policy, role, active, visited).0, visited),
    decreases fresh_count(role_ids(policy), visited), 0int, 0int,
{
    lemma_cycle_visit_unfold(policy, role, active, visited);
    assert(visited.subrange(0, visited.len() as int) =~= visited);
    if !active.contains(role) && !visited.contains(role) {
        let v = visited.push(role);
        assert(v.subrange(0, visited.len() as int) =~= visited);
        if let Some(i) = role_index(policy.roles@, role) {
            lemma_role_index(policy.roles@, role);
            assert(role_ids(policy)[i] == role);
            lemma_fresh_push(role_ids(policy), visited, role);
            lemma_parents_extend(policy, policy.roles@[i].inherits.deep_view(), 0, active.push(role), v);
            lemma_extends_trans(
                visited,
                v,
                cycle_parents(policy, policy.roles@[i].inherits.deep_view(), 0, active.push(role), v).0,
            );
        }
    }
}

proof fn lemma_parents_extend(
    policy: PolicySet,
    parents: Seq<Seq<char>>,
    j: int,
    active: Seq<Seq<char>>,
    visited: Seq<Seq<char>>,
)
    ensures
        extends(cycle_parents(policy, parents, j, active, visited).0, visited),
    decreases fresh_count(role_ids(policy), visited), 1int, parents.len() - j,
{
    lemma_cycle_parents_unfold(policy, parents, j, active, visited);
    assert(visited.subrange(0, visited.len() as int) =~= visited);
    if 0 <= j < parents.len() {
        lemma_cycle_extends(policy, parents[j], active, visited);
        let first = cycle_visit(policy, parents[j], active, visited);
        lemma_fresh_extend(role_ids(policy), visited, first.0);
        lemma_parents_extend(policy, parents, j + 1, active, first.0);
        lemma_extends_trans(visited, first.0, cycle_parents(policy, parents, j + 1, active, first.0).0);
    }
}

/// The cycle search from each of the first `k` roles in turn.
#[verifier::opaque]
pub open spec fn cycle_upto(policy: PolicySet, k: int) -> (
    Seq<Seq<char>>,
    Seq<(Seq<char>, Seq<char>, Seq<char>, Option<Seq<char>>)>,
)
    decreases k,
{
    if k <= 0 {
        (Seq::empty(), Seq::empty())
    } else {
        let prev = cycle_upto(policy, k - 1);
        let r = cycle_visit(policy, policy.roles@[k - 1].id@, Seq::empty(), prev.0);
        (r.0, prev.1 + r.1)
    }
}

fn join_texts(parts: &Vec<String>, sep: &str) -> (r: String)
    ensures
        r@ == joined(parts.deep_view(), sep@),
{
    let mut out = String::new();
    let ghost pv = parts.deep_view();
    let mut i: usize = 0;
    while i < parts.len()
        invariant
            pv == parts.deep_view(),
            i <= parts.len(),
            out@ == joined(pv.take(i as int), sep@),
        decreases parts.len() - i,
    {
        proof {
            assert(pv.take(i + 1).drop_last() =~= pv.take(i as int));
            assert(pv.take(i + 1).last() == pv[i as int]);
            assert(pv[i as int] == parts@[i as int]@);
        }
        if i == 0 {
            out = parts[i].clone();
            assert(pv.take(1) =~= seq![pv[0]]);
        } else {
            out = crate::text::concat3(out.as_str(), sep, parts[i].as_str());
        }
        i = i + 1;
    }
    assert(pv.take(i as int) =~= pv);
    out
}

fn cycle_diagnostic(active: &Vec<String>, role: &str) -> (r: Diagnostic)
    requires
        active.deep_view().contains(role@),
    ensures
        diag_view(r) == cycle_diag(active.deep_view(), role@),
{
    let ghost av = active.deep_view();
    let mut index: usize = 0;
    while index < active.len() && !text_eq(active[index].as_str(), role)
        invariant
            av == active.deep_view(),
            av.contains(role@),
            index <= active.len(),
            forall|j: int| 0 <= j < index ==> av[j] != role@,
        decreases active.len() - index,
    {
        index = index + 1;
    }
    proof {
        if index == active.len() {
            let k = choose|k: int| 0 <= k < av.len() && av[k] == role@;
            assert(false);
        }
        assert(av[index as int] == active@[index as int]@);
        lemma_first_position(av, role@, index as int);
    }
    let mut cycle: Vec<String> = Vec::new();
    let mut k: usize = index;
    while k < active.len()
        invariant
            av == active.deep_view(),
            index <= k <= active.len(),
            cycle.deep_view() == av.subrange(index as int, k as int),
        decreases active.len() - k,
    {
        let ghost before = cycle.deep_view();
        let item = active[k].clone();
        cycle.push(item);
        assert(av[k as int] == active@[k as int]@);
        assert(cycle.deep_view() =~= before.push(item@));
        assert(cycle.deep_view() =~= av.subrange(index as int, k + 1));
        k = k + 1;
    }
    let ghost before = cycle.deep_view();
    cycle.push(String::from_str(role));
    assert(cycle.deep_view() =~= before.push(role@));
    let text = join_texts(&cycle, " -> ");
    Diagnostic {
        code: String::from_str("role.inheritance-cycle"),
        severity: String::from_str("error"),
        message: crate::text::concat2("Role inheritance cycle: ", text.as_str()),
        record_id: Some(String::from_str(role)),
    }
}

fn cycle_visit_exec(
    policy: &PolicySet,
    role: &str,
    active: &Vec<String>,
    visited: &mut Vec<String>,
    diags: &mut Vec<Diagnostic>,
)
    ensures
        final(visited).deep_view() == cycle_visit(
            *policy,
            role@,
            active.deep_view(),
            old(visited).deep_view(),
        ).0,
        diag_views(final(diags)@) == diag_views(old(diags)@) + cycle_visit(
            *policy,
            role@,
            active.deep_view(),
            old(visited).deep_view(),
        ).1,
    decreases fresh_count(role_ids(*policy), old(visited).deep_view()), 0int, 0int,
{
    proof {
        lemma_cycle_visit_unfold(*policy, role@, active.deep_view(), visited.deep_view());
    }
    let ghost d0 = diag_views(diags@);
    if crate::text::texts_contain(active, role) {
        let d = cycle_diagnostic(active, role);
        diags.push(d);
        assert(diag_views(diags@) =~= d0 + seq![cycle_diag(active.deep_view(), role@)]);
        return;
    }
    if crate::text::texts_contain(visited, role) {
        assert(diag_views(diags@) =~= d0 + Seq::<(Seq<char>, Seq<char>, Seq<char>, Option<Seq<char>>)>::empty());
        return;
    }
    let ghost v0 = visited.deep_view();
    visited.push(String::from_str(role));
    assert(visited.deep_view() =~= v0.push(role@));
    proof {
        lemma_role_index(policy.roles@, role@);
    }
    let i = match find_role(&policy.roles, role) {
        None => {
            assert(diag_views(diags@) =~= d0 + Seq::<(Seq<char>, Seq<char>, Seq<char>, Option<Seq<char>>)>::empty());
            return;
        },
        Some(i) => i,
    };
    proof {
        assert(role_ids(*policy)[i as int] == role@);
        lemma_fresh_push(role_ids(*policy), v0, role@);
    }
    let mut next = copy_texts(active);
    next.push(String::from_str(role));
    assert(next.deep_view() =~= active.deep_view().push(role@));
    let parents = &policy.roles[i].inherits;
    let ghost pv = parents.deep_view();
    let ghost v1 = visited.deep_view();
    let ghost total = cycle_parents(*policy, pv, 0, next.deep_view(), v1);
    assert(v1.subrange(0, v1.len() as int) =~= v1);
    let mut j: usize = 0;
    while j < parents.len()
        invariant
            pv == parents.deep_view(),
            pv == policy.roles@[i as int].inherits.deep_view(),
            role_index(policy.roles@, role@) == Some(i as int),
            !active.deep_view().contains(role@),
            !v0.contains(role@),
            v0 == old(visited).deep_view(),
            v1 == v0.push(role@),
            d0 == diag_views(old(diags)@),
            next.deep_view() == active.deep_view().push(role@),
            fresh_count(role_ids(*policy), v1) < fresh_count(role_ids(*policy), v0),
            extends(visited.deep_view(), v1),
            total == cycle_parents(*policy, pv, 0, next.deep_view(), v1),
            j <= parents.len(),
            total.0 == cycle_parents(*policy, pv, j as int, next.deep_view(), visited.deep_view()).0,
            d0 + total.1 == diag_views(diags@) + cycle_parents(
                *policy,
                pv,
                j as int,
                next.deep_view(),
                visited.deep_view(),
            ).1,
        decreases parents.len() - j,
    {
        let ghost vis = visited.deep_view();
        let ghost dd = diag_views(diags@);
        proof {
            lemma_cycle_parents_unfold(*policy, pv, j as int, next.deep_view(), vis);
            lemma_cycle_extends(*policy, pv[j as int], next.deep_view(), vis);
            lemma_fresh_extend(role_ids(*policy), v1, vis);
            assert(pv[j as int] == parents@[j as int]@);
        }
        cycle_visit_exec(policy, parents[j].as_str(), &next, visited, diags);
        proof {
            lemma_extends_trans(v1, vis, visited.deep_view());
            assert(d0 + total.1 =~= diag_views(diags@) + cycle_parents(
                *policy,
                pv,
                j + 1,
                next.deep_view(),
                visited.deep_view(),
            ).1);
        }
        j = j + 1;
    }
    proof {
        lemma_cycle_parents_unfold(*policy, pv, j as int, next.deep_view(), visited.deep_view());
        assert(diag_views(diags@) =~= d0 + total.1);
    }
}

/// Finds the cycles of role inheritance, searching from each role in id
/// order and never from a role met before (see `cycle_upto`).
pub fn cycle_diagnostics(policy: &PolicySet) -> (r: Vec<Diagnostic>)
    ensures
        diag_views(r@) == cycle_upto(*policy, policy.roles@.len() as int).1,
{
    let mut visited: Vec<String> = Vec::new();
    let mut diags: Vec<Diagnostic> = Vec::new();
    assert(visited.deep_view() =~= Seq::<Seq<char>>::empty());
    assert(diag_views(diags@) =~= Seq::<(Seq<char>, Seq<char>, Seq<char>, Option<Seq<char>>)>::empty());
    proof {
        reveal(cycle_upto);
    }
    let mut k: usize = 0;
    while k < policy.roles.len()
        invariant
            k <= policy.roles@.len(),
            visited.deep_view() == cycle_upto(*policy, k as int).0,
            diag_views(diags@) == cycle_upto(*policy, k as int).1,
        decreases policy.roles.len() - k,
    {
        let empty: Vec<String> = Vec::new();
        assert(empty.deep_view() =~= Seq::<Seq<char>>::empty());
        proof {
            reveal(cycle_upto);
        }
        cycle_visit_exec(policy, policy.roles[k].id.as_str(), &empty, &mut visited, &mut diags);
        proof {
            reveal(cycle_upto);
            assert(diag_views(diags@) =~= cycle_upto(*policy, k + 1).1);
        }
        k = k + 1;
    }
    diags
}

} // verus!
