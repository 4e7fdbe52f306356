//! Source authority: whether a record's source may author it, directly or
//! through a chain of delegations.
use crate::policy::model::{
    Assignment, Delegation, PolicySet, PolicySource, Principal, Role, ScopeValue, Statement,
};
use crate::policy::scope::{scopes_contain, sets_contain_spec};
use crate::text::{chars_eq, chars_of, concat2, has_prefix, has_suffix, insert_chain_sorted, sorted_chains, copy_texts, take_chars, text_eq, texts_contain};
use vstd::prelude::*;

verus! {

/// A reference to any kind of policy record.
#[derive(Clone, Copy, Debug)]
pub enum RecordRef<'a> {
    Principal(&'a Principal),
    Role(&'a Role),
    Statement(&'a Statement),
    Assignment(&'a Assignment),
    Delegation(&'a Delegation),
}

/// The id of a record.
pub open spec fn rec_id(r: RecordRef) -> Seq<char> {
    match r {
        RecordRef::Principal(v) => v.id@,
        RecordRef::Role(v) => v.id@,
        RecordRef::Statement(v) => v.id@,
        RecordRef::Assignment(v) => v.id@,
        RecordRef::Delegation(v) => v.id@,
    }
}

/// The source that authored a record.
pub open spec fn rec_source(r: RecordRef) -> Seq<char> {
    match r {
        RecordRef::Principal(v) => v.source@,
        RecordRef::Role(v) => v.source@,
        RecordRef::Statement(v) => v.source@,
        RecordRef::Assignment(v) => v.source@,
        RecordRef::Delegation(v) => v.source@,
    }
}

/// The record action that authoring a record takes.
pub open spec fn rec_action(r: RecordRef) -> Seq<char> {
    match r {
        RecordRef::Principal(_) => "principal.define"@,
        RecordRef::Role(_) => "role.define"@,
        RecordRef::Statement(v) => "statement."@ + v.effect@,
        RecordRef::Assignment(_) => "role.assign"@,
        RecordRef::Delegation(_) => "delegation.issue"@,
    }
}

/// The operation selectors a record carries (none for principals and roles).
pub open spec fn rec_operations(r: RecordRef) -> Seq<Seq<char>> {
    match r {
        RecordRef::Statement(v) => v.operations.deep_view(),
        RecordRef::Assignment(v) => v.operations.deep_view(),
        RecordRef::Delegation(v) => v.operations.deep_view(),
        _ => Seq::empty(),
    }
}

/// The scopes a record carries (none for principals and roles).
pub open spec fn rec_scopes(r: RecordRef) -> Seq<ScopeValue> {
    match r {
        RecordRef::Statement(v) => v.scopes@,
        RecordRef::Assignment(v) => v.scopes@,
        RecordRef::Delegation(v) => v.scopes@,
        _ => Seq::empty(),
    }
}

/// The scope universe a record carries (only delegations carry one).
pub open spec fn rec_universe(r: RecordRef) -> Seq<Seq<char>> {
    match r {
        RecordRef::Delegation(v) => v.scope_universe.deep_view(),
        _ => Seq::empty(),
    }
}

impl<'a> RecordRef<'a> {
    /// The record's id.
    pub fn id(self) -> (r: &'a str)
        ensures
            r@ == rec_id(self),
    {
        match self {
            RecordRef::Principal(v) => v.id.as_str(),
            RecordRef::Role(v) => v.id.as_str(),
            RecordRef::Statement(v) => v.id.as_str(),
            RecordRef::Assignment(v) => v.id.as_str(),
            RecordRef::Delegation(v) => v.id.as_str(),
        }
    }

    /// The record's source.
    pub fn source(self) -> (r: &'a str)
        ensures
            r@ == rec_source(self),
    {
        match self {
            RecordRef::Principal(v) => v.source.as_str(),
            RecordRef::Role(v) => v.source.as_str(),
            RecordRef::Statement(v) => v.source.as_str(),
            RecordRef::Assignment(v) => v.source.as_str(),
            RecordRef::Delegation(v) => v.source.as_str(),
        }
    }

    /// The record action that authoring this record takes.
    pub fn action(self) -> (r: String)
        ensures
            r@ == rec_action(self),
    {
        match self {
            RecordRef::Principal(_) => String::from_str("principal.define"),
            RecordRef::Role(_) => String::from_str("role.define"),
            RecordRef::Statement(v) => concat2("statement.", v.effect.as_str()),
            RecordRef::Assignment(_) => String::from_str("role.assign"),
            RecordRef::Delegation(_) => String::from_str("delegation.issue"),
        }
    }

    /// The record's operation selectors.
    pub fn operations(self) -> (r: &'a [String])
        ensures
            r.deep_view() == rec_operations(self),
    {
        match self {
            RecordRef::Statement(v) => v.operations.as_slice(),
            RecordRef::Assignment(v) => v.operations.as_slice(),
            RecordRef::Delegation(v) => v.operations.as_slice(),
            _ => {
                let r: &[String] = &[];
                assert(r.deep_view() =~= Seq::empty());
                r
            },
        }
    }

    /// The record's scopes.
    pub fn scopes(self) -> (r: &'a [ScopeValue])
        ensures
            r@ == rec_scopes(self),
    {
        match self {
            RecordRef::Statement(v) => v.scopes.as_slice(),
            RecordRef::Assignment(v) => v.scopes.as_slice(),
            RecordRef::Delegation(v) => v.scopes.as_slice(),
            _ => {
                let r: &[ScopeValue] = &[];
                assert(r@ =~= Seq::empty());
                r
            },
        }
    }

    /// The record's scope universe.
    pub fn universe(self) -> (r: &'a [String])
        ensures
            r.deep_view() == rec_universe(self),
    {
        match self {
            RecordRef::Delegation(v) => v.scope_universe.as_slice(),
            _ => {
                let r: &[String] = &[];
                assert(r.deep_view() =~= Seq::empty());
                r
            },
        }
    }
}

/// `x` is `prefix` or begins with `prefix` and a dot.
pub open spec fn dotted_under(x: Seq<char>, prefix: Seq<char>) -> bool {
    x == prefix || (prefix + seq!['.']).is_prefix_of(x)
}

/// The text before a trailing `.*`, if `s` ends with one.
pub open spec fn wild_prefix(s: Seq<char>) -> Option<Seq<char>> {
    if seq!['.', '*'].is_suffix_of(s) {
        Some(s.subrange(0, s.len() - 2))
    } else {
        None
    }
}

/// A selector matches a value: `*`, the value itself, or `prefix.*` for the
/// prefix or anything under it.
pub open spec fn selector_matches(selector: Seq<char>, value: Seq<char>) -> bool {
    ||| selector == seq!['*']
    ||| selector == value
    ||| (wild_prefix(selector) matches Some(p) && dotted_under(value, p))
}

/// What an operation selector admits: `*` admits every operation; a
/// selector without `*` admits exactly the operation it names; and `p.*`
/// admits `p` and every operation under `p.` (and the text `p.*` itself).
pub proof fn lemma_selector_matching(selector: Seq<char>, value: Seq<char>, p: Seq<char>)
    ensures
        selector == seq!['*'] ==> selector_matches(selector, value),
        (forall|i: int| 0 <= i < selector.len() ==> #[trigger] selector[i] != '*') ==> (selector_matches(
            selector,
            value,
        ) <==> selector == value),
        selector == p + seq!['.', '*'] ==> (selector_matches(selector, value) <==> (value == selector || value
            == p || (value.len() > p.len() && value.subrange(0, p.len() as int) == p && value[p.len() as int]
            == '.'))),
{
    if forall|i: int| 0 <= i < selector.len() ==> #[trigger] selector[i] != '*' {
        if selector == seq!['*'] {
            assert(selector[0] == '*');
        }
        if seq!['.', '*'].is_suffix_of(selector) {
            assert(selector[selector.len() - 1] == seq!['.', '*'][1]);
        }
    }
    if selector == p + seq!['.', '*'] {
        assert(selector.subrange(selector.len() - 2, selector.len() as int) =~= seq!['.', '*']);
        assert(selector.subrange(0, selector.len() - 2) =~= p);
        if selector == seq!['*'] {
            assert(selector.len() == 1);
        }
        assert((p + seq!['.']).is_prefix_of(value) <==> (value.len() > p.len() && value.subrange(
            0,
            p.len() as int,
        ) == p && value[p.len() as int] == '.')) by {
            if (p + seq!['.']).is_prefix_of(value) {
                assert(value.subrange(0, p.len() as int) =~= p) by {
                    assert forall|k: int| 0 <= k < p.len() implies value.subrange(0, p.len() as int)[k] == p[k] by {
                        assert((p + seq!['.'])[k] == p[k]);
                    }
                }
                assert((p + seq!['.'])[p.len() as int] == '.');
            }
            if value.len() > p.len() && value.subrange(0, p.len() as int) == p && value[p.len() as int] == '.' {
                assert forall|k: int| 0 <= k < p.len() + 1 implies (p + seq!['.'])[k] == value[k] by {
                    if k < p.len() {
                        assert(value.subrange(0, p.len() as int)[k] == value[k]);
                    }
                }
            }
        }
    }
}

/// An outer operation selector covers an inner one.
pub open spec fn operation_covers(parent: Seq<char>, child: Seq<char>) -> bool {
    if child == seq!['*'] {
        parent == seq!['*']
    } else if wild_prefix(child) is Some {
        parent == seq!['*'] || (wild_prefix(parent) matches Some(pp) && dotted_under(
            wild_prefix(child)->0,
            pp,
        ))
    } else {
        selector_matches(parent, child)
    }
}

/// Some outer operation selector covers `child`.
pub open spec fn operation_covered(outer: Seq<Seq<char>>, child: Seq<char>) -> bool {
    exists|p: int| 0 <= p < outer.len() && operation_covers(#[trigger] outer[p], child)
}

/// Every inner operation selector is covered by some outer one.
pub open spec fn operations_within(outer: Seq<Seq<char>>, inner: Seq<Seq<char>>) -> bool {
    forall|c: int| 0 <= c < inner.len() ==> operation_covered(outer, #[trigger] inner[c])
}

/// An outer id selector covers an inner one.
pub open spec fn selector_covers(outer: Seq<char>, inner: Seq<char>) -> bool {
    ||| outer == seq!['*']
    ||| outer == inner
    ||| (wild_prefix(outer) matches Some(parent) && dotted_under(
        match wild_prefix(inner) {
            Some(c) => c,
            None => inner,
        },
        parent,
    ))
}

fn dot_star() -> (r: Vec<char>)
    ensures
        r@ == seq!['.', '*'],
{
    let r = vec!['.', '*'];
    assert(r@ =~= seq!['.', '*']);
    r
}

fn is_star(s: &Vec<char>) -> (r: bool)
    ensures
        r == (s@ == seq!['*']),
{
    let star = vec!['*'];
    assert(star@ =~= seq!['*']);
    chars_eq(s, &star)
}

fn strip_wild(s: &Vec<char>) -> (r: Option<Vec<char>>)
    ensures
        match wild_prefix(s@) {
            Some(p) => r matches Some(v) && v@ == p,
            None => r is None,
        },
{
    if has_suffix(s, &dot_star()) {
        Some(take_chars(s, s.len() - 2))
    } else {
        None
    }
}

fn under_dotted(x: &Vec<char>, prefix: &Vec<char>) -> (r: bool)
    ensures
        r == dotted_under(x@, prefix@),
{
    if chars_eq(x, prefix) {
        return true;
    }
    let mut p = take_chars(prefix, prefix.len());
    assert(p@ =~= prefix@);
    p.push('.');
    has_prefix(x, &p)
}

fn matches_chars(selector: &Vec<char>, value: &Vec<char>) -> (r: bool)
    ensures
        r == selector_matches(selector@, value@),
{
    if is_star(selector) || chars_eq(selector, value) {
        return true;
    }
    match strip_wild(selector) {
        Some(p) => under_dotted(value, &p),
        None => false,
    }
}

/// Whether an operation selector matches an operation.
pub fn operation_matches(selector: &str, operation: &str) -> (r: bool)
    ensures
        r == selector_matches(selector@, operation@),
{
    matches_chars(&chars_of(selector), &chars_of(operation))
}

/// Whether an id selector matches an id.
pub fn id_matches(selector: &str, value: &str) -> (r: bool)
    ensures
        r == selector_matches(selector@, value@),
{
    matches_chars(&chars_of(selector), &chars_of(value))
}

fn covers_operation(parent: &str, child: &str) -> (r: bool)
    ensures
        r == operation_covers(parent@, child@),
{
    let p = chars_of(parent);
    let c = chars_of(child);
    if is_star(&c) {
        return is_star(&p);
    }
    match strip_wild(&c) {
        Some(child_prefix) => {
            if is_star(&p) {
                return true;
            }
            match strip_wild(&p) {
                Some(parent_prefix) => under_dotted(&child_prefix, &parent_prefix),
                None => false,
            }
        },
        None => matches_chars(&p, &c),
    }
}

/// Whether every inner operation selector is covered by an outer one.
pub fn operations_contain(outer: &[String], inner: &[String]) -> (r: bool)
    ensures
        r == operations_within(outer.deep_view(), inner.deep_view()),
{
    let ghost o = outer.deep_view();
    let ghost n = inner.deep_view();
    let mut c: usize = 0;
    while c < inner.len()
        invariant
            o == outer.deep_view(),
            n == inner.deep_view(),
            c <= inner.len(),
            forall|k: int| 0 <= k < c ==> operation_covered(o, #[trigger] n[k]),
        decreases inner.len() - c,
    {
        let mut found = false;
        let mut p: usize = 0;
        while p < outer.len() && !found
            invariant
                o == outer.deep_view(),
                n == inner.deep_view(),
                c < inner.len(),
                p <= outer.len(),
                found ==> operation_covered(o, n[c as int]),
                !found ==> forall|q: int| 0 <= q < p ==> !operation_covers(#[trigger] o[q], n[c as int]),
            decreases outer.len() - p + (if found { 0int } else { 1int }),
        {
            if covers_operation(outer[p].as_str(), inner[c].as_str()) {
                assert(operation_covers(o[p as int], n[c as int]));
                found = true;
            } else {
                p = p + 1;
            }
        }
        if !found {
            assert(!operation_covered(o, n[c as int]));
            return false;
        }
        c = c + 1;
    }
    true
}

fn covers_selector(outer: &str, inner: &str) -> (r: bool)
    ensures
        r == selector_covers(outer@, inner@),
{
    let o = chars_of(outer);
    let i = chars_of(inner);
    if is_star(&o) || chars_eq(&o, &i) {
        return true;
    }
    match strip_wild(&o) {
        None => false,
        Some(parent) => match strip_wild(&i) {
            Some(child) => under_dotted(&child, &parent),
            None => under_dotted(&i, &parent),
        },
    }
}

/// Whether an outer id selector covers an inner one.
pub fn selector_contains(outer: &str, inner: &str) -> (r: bool)
    ensures
        r == selector_covers(outer@, inner@),
{
    covers_selector(outer, inner)
}

/// Some selector in `selectors` matches `value`.
pub open spec fn some_selector_matches(selectors: Seq<Seq<char>>, value: Seq<char>) -> bool {
    exists|i: int| 0 <= i < selectors.len() && selector_matches(#[trigger] selectors[i], value)
}

/// Some parent selector covers `child`.
pub open spec fn selector_covered(parents: Seq<Seq<char>>, child: Seq<char>) -> bool {
    exists|p: int| 0 <= p < parents.len() && selector_covers(#[trigger] parents[p], child)
}

/// Every child selector is covered by some parent selector.
pub open spec fn selectors_within(parents: Seq<Seq<char>>, children: Seq<Seq<char>>) -> bool {
    forall|c: int| 0 <= c < children.len() ==> selector_covered(parents, #[trigger] children[c])
}

/// A delegation's envelope admits a record: the record's action is among the
/// delegated actions, its principals and roles fall under the delegated
/// selectors, and its operations and scopes lie within the delegated ones.
pub open spec fn envelope_admits(d: Delegation, r: RecordRef) -> bool {
    let principals = d.principals.deep_view();
    let roles = d.roles.deep_view();
    &&& d.record_actions.deep_view().contains(rec_action(r))
    &&& match r {
        RecordRef::Principal(v) => principals.len() == 0 || some_selector_matches(principals, v.id@),
        RecordRef::Role(v) => roles.len() == 0 || some_selector_matches(roles, v.id@),
        RecordRef::Statement(v) => roles.len() == 0 || some_selector_matches(roles, v.role@),
        RecordRef::Assignment(v) => {
            &&& (principals.len() == 0 || some_selector_matches(principals, v.principal@))
            &&& (roles.len() == 0 || forall|k: int|
                0 <= k < v.roles@.len() ==> some_selector_matches(roles, #[trigger] v.roles@[k]@))
        },
        RecordRef::Delegation(v) => {
            &&& forall|k: int|
                0 <= k < v.record_actions@.len() ==> d.record_actions.deep_view().contains(
                    #[trigger] v.record_actions@[k]@,
                )
            &&& (v.principals@.len() == 0 || (principals.len() > 0 && selectors_within(
                principals,
                v.principals.deep_view(),
            )))
            &&& (v.roles@.len() == 0 || (roles.len() > 0 && selectors_within(
                roles,
                v.roles.deep_view(),
            )))
        },
    }
    &&& operations_within(d.operations.deep_view(), rec_operations(r))
    &&& sets_contain_spec(d.scopes@, d.scope_universe.deep_view(), rec_scopes(r), rec_universe(r))
        == Some(true)
}

fn any_selector_matches(selectors: &Vec<String>, value: &str) -> (r: bool)
    ensures
        r == some_selector_matches(selectors.deep_view(), value@),
{
    let mut i: usize = 0;
    while i < selectors.len()
        invariant
            i <= selectors.len(),
            forall|j: int| 0 <= j < i ==> !selector_matches(#[trigger] selectors.deep_view()[j], value@),
        decreases selectors.len() - i,
    {
        if id_matches(selectors[i].as_str(), value) {
            assert(selector_matches(selectors.deep_view()[i as int], value@));
            return true;
        }
        i = i + 1;
    }
    false
}

fn all_selectors_within(parents: &Vec<String>, children: &Vec<String>) -> (r: bool)
    ensures
        r == selectors_within(parents.deep_view(), children.deep_view()),
{
    let ghost ps = parents.deep_view();
    let ghost cs = children.deep_view();
    let mut c: usize = 0;
    while c < children.len()
        invariant
            ps == parents.deep_view(),
            cs == children.deep_view(),
            c <= children.len(),
            forall|k: int| 0 <= k < c ==> selector_covered(ps, #[trigger] cs[k]),
        decreases children.len() - c,
    {
        let mut found = false;
        let mut p: usize = 0;
        while p < parents.len() && !found
            invariant
                ps == parents.deep_view(),
                cs == children.deep_view(),
                c < children.len(),
                p <= parents.len(),
                found ==> selector_covered(ps, cs[c as int]),
                !found ==> forall|q: int| 0 <= q < p ==> !selector_covers(#[trigger] ps[q], cs[c as int]),
            decreases parents.len() - p + (if found { 0int } else { 1int }),
        {
            if selector_contains(parents[p].as_str(), children[c].as_str()) {
                assert(selector_covers(ps[p as int], cs[c as int]));
                found = true;
            } else {
                p = p + 1;
            }
        }
        if !found {
            assert(!selector_covered(ps, cs[c as int]));
            return false;
        }
        c = c + 1;
    }
    true
}

fn actions_within(outer: &Vec<String>, inner: &Vec<String>) -> (r: bool)
    ensures
        r == forall|k: int|
            0 <= k < inner@.len() ==> outer.deep_view().contains(#[trigger] inner@[k]@),
{
    let mut k: usize = 0;
    while k < inner.len()
        invariant
            k <= inner.len(),
            forall|j: int| 0 <= j < k ==> outer.deep_view().contains(#[trigger] inner@[j]@),
        decreases inner.len() - k,
    {
        if !texts_contain(outer, inner[k].as_str()) {
            return false;
        }
        k = k + 1;
    }
    true
}

/// Whether a delegation's envelope admits a record (see `envelope_admits`).
pub fn envelope_contains(delegation: &Delegation, record: RecordRef<'_>) -> (r: bool)
    ensures
        r == envelope_admits(*delegation, record),
{
    let action = record.action();
    if !texts_contain(&delegation.record_actions, action.as_str()) {
        return false;
    }
    let principals_free = delegation.principals.len() == 0;
    let roles_free = delegation.roles.len() == 0;
    let kind_ok = match record {
        RecordRef::Principal(v) => principals_free || any_selector_matches(
            &delegation.principals,
            v.id.as_str(),
        ),
        RecordRef::Role(v) => roles_free || any_selector_matches(&delegation.roles, v.id.as_str()),
        RecordRef::Statement(v) => roles_free || any_selector_matches(
            &delegation.roles,
            v.role.as_str(),
        ),
        RecordRef::Assignment(v) => {
            let principal_ok = principals_free || any_selector_matches(
                &delegation.principals,
                v.principal.as_str(),
            );
            let mut roles_ok = true;
            if !roles_free {
                let mut k: usize = 0;
                while k < v.roles.len()
                    invariant
                        k <= v.roles.len(),
                        roles_ok == forall|j: int|
                            0 <= j < k ==> some_selector_matches(
                                delegation.roles.deep_view(),
                                #[trigger] v.roles@[j]@,
                            ),
                    decreases v.roles.len() - k,
                {
                    if !any_selector_matches(&delegation.roles, v.roles[k].as_str()) {
                        roles_ok = false;
                    }
                    k = k + 1;
                }
            }
            principal_ok && roles_ok
        },
        RecordRef::Delegation(v) => {
            actions_within(&delegation.record_actions, &v.record_actions) && (v.principals.len()
                == 0 || (!principals_free && all_selectors_within(
                &delegation.principals,
                &v.principals,
            ))) && (v.roles.len() == 0 || (!roles_free && all_selectors_within(
                &delegation.roles,
                &v.roles,
            )))
        },
    };
    if !kind_ok {
        return false;
    }
    operations_contain(delegation.operations.as_slice(), record.operations()) && scopes_contain(
        delegation.scopes.as_slice(),
        delegation.scope_universe.as_slice(),
        record.scopes(),
        record.universe(),
    ) == Some(true)
}

/// How many entries of `ids` are not in `trail`.
pub open spec fn fresh_count(ids: Seq<Seq<char>>, trail: Seq<Seq<char>>) -> nat
    decreases ids.len(),
{
    if ids.len() == 0 {
        0
    } else {
        fresh_count(ids.drop_last(), trail) + (if trail.contains(ids.last()) {
            0nat
        } else {
            1nat
        })
    }
}

/// Extending a trail never adds fresh entries, removes one when the new
/// entry is a fresh member of `ids`, and removes none when it is not in `ids`.
pub proof fn lemma_fresh_push(ids: Seq<Seq<char>>, trail: Seq<Seq<char>>, x: Seq<char>)
    ensures
        fresh_count(ids, trail.push(x)) <= fresh_count(ids, trail),
        ids.contains(x) && !trail.contains(x) ==> fresh_count(ids, trail.push(x)) < fresh_count(
            ids,
            trail,
        ),
        !ids.contains(x) ==> fresh_count(ids, trail.push(x)) == fresh_count(ids, trail),
    decreases ids.len(),
{
    if ids.len() > 0 {
        let rest = ids.drop_last();
        lemma_fresh_push(rest, trail, x);
        let last = ids.last();
        assert(trail.push(x).contains(last) == (trail.contains(last) || last == x)) by {
            if trail.push(x).contains(last) {
                let k = choose|k: int| 0 <= k < trail.push(x).len() && trail.push(x)[k] == last;
                if k < trail.len() {
                    assert(trail[k] == last);
                }
            }
            if trail.contains(last) {
                let k = choose|k: int| 0 <= k < trail.len() && trail[k] == last;
                assert(trail.push(x)[k] == last);
            }
            if last == x {
                assert(trail.push(x)[trail.len() as int] == x);
            }
        }
        if ids.contains(x) && !trail.contains(x) {
            if last != x {
                let k = choose|k: int| 0 <= k < ids.len() && ids[k] == x;
                assert(rest[k] == x);
            }
        }
        if !ids.contains(x) {
            assert(last != x) by {
                assert(ids[ids.len() - 1] == last);
            }
            assert(!rest.contains(x)) by {
                if rest.contains(x) {
                    let k = choose|k: int| 0 <= k < rest.len() && rest[k] == x;
                    assert(ids[k] == x);
                }
            }
        }
    }
}

/// The ids of the policy's roles, in order.
pub open spec fn role_ids(policy: PolicySet) -> Seq<Seq<char>> {
    policy.roles@.map_values(|r: Role| r.id@)
}

/// The ids of the policy's delegations, in order.
pub open spec fn delegation_ids(policy: PolicySet) -> Seq<Seq<char>> {
    policy.delegations@.map_values(|d: Delegation| d.id@)
}

/// The position of the first role with id `id`, if any.
pub open spec fn role_index(roles: Seq<Role>, id: Seq<char>) -> Option<int> {
    if exists|i: int| 0 <= i < roles.len() && roles[i].id@ == id {
        Some(
            choose|i: int|
                0 <= i < roles.len() && roles[i].id@ == id && forall|j: int|
                    0 <= j < i ==> roles[j].id@ != id,
        )
    } else {
        None
    }
}

/// The position of the first source with id `id`, if any.
pub open spec fn source_index(sources: Seq<PolicySource>, id: Seq<char>) -> Option<int> {
    if exists|i: int| 0 <= i < sources.len() && sources[i].id@ == id {
        Some(
            choose|i: int|
                0 <= i < sources.len() && sources[i].id@ == id && forall|j: int|
                    0 <= j < i ==> sources[j].id@ != id,
        )
    } else {
        None
    }
}

/// What `role_index` gives: the first matching position, or none at all.
pub proof fn lemma_role_index(roles: Seq<Role>, id: Seq<char>)
    ensures
        match role_index(roles, id) {
            Some(i) => 0 <= i < roles.len() && roles[i].id@ == id && forall|j: int|
                0 <= j < i ==> roles[j].id@ != id,
            None => forall|j: int| 0 <= j < roles.len() ==> roles[j].id@ != id,
        },
{
    if exists|i: int| 0 <= i < roles.len() && roles[i].id@ == id {
        let w = choose|i: int| 0 <= i < roles.len() && roles[i].id@ == id;
        lemma_least_role(roles, id, w);
    }
}

proof fn lemma_least_role(roles: Seq<Role>, id: Seq<char>, w: int)
    requires
        0 <= w < roles.len(),
        roles[w].id@ == id,
    ensures
        exists|i: int|
            0 <= i < roles.len() && roles[i].id@ == id && forall|j: int|
                0 <= j < i ==> roles[j].id@ != id,
    decreases w,
{
    if exists|j: int| 0 <= j < w && roles[j].id@ == id {
        let j = choose|j: int| 0 <= j < w && roles[j].id@ == id;
        lemma_least_role(roles, id, j);
    }
}

/// What `source_index` gives: the first matching position, or none at all.
pub proof fn lemma_source_index(sources: Seq<PolicySource>, id: Seq<char>)
    ensures
        match source_index(sources, id) {
            Some(i) => 0 <= i < sources.len() && sources[i].id@ == id && forall|j: int|
                0 <= j < i ==> sources[j].id@ != id,
            None => forall|j: int| 0 <= j < sources.len() ==> sources[j].id@ != id,
        },
{
    if exists|i: int| 0 <= i < sources.len() && sources[i].id@ == id {
        let w = choose|i: int| 0 <= i < sources.len() && sources[i].id@ == id;
        lemma_least_source(sources, id, w);
    }
}

proof fn lemma_least_source(sources: Seq<PolicySource>, id: Seq<char>, w: int)
    requires
        0 <= w < sources.len(),
        sources[w].id@ == id,
    ensures
        exists|i: int|
            0 <= i < sources.len() && sources[i].id@ == id && forall|j: int|
                0 <= j < i ==> sources[j].id@ != id,
    decreases w,
{
    if exists|j: int| 0 <= j < w && sources[j].id@ == id {
        let j = choose|j: int| 0 <= j < w && sources[j].id@ == id;
        lemma_least_source(sources, id, j);
    }
}

proof fn lemma_first_exists_role(roles: Seq<Role>, id: Seq<char>, i: int)
    requires
        0 <= i < roles.len(),
        roles[i].id@ == id,
        forall|j: int| 0 <= j < i ==> roles[j].id@ != id,
    ensures
        role_index(roles, id) == Some(i),
{
    let k = role_index(roles, id)->0;
    if k < i {
        assert(roles[k].id@ != id);
    } else if k > i {
    }
}

proof fn lemma_first_exists_source(sources: Seq<PolicySource>, id: Seq<char>, i: int)
    requires
        0 <= i < sources.len(),
        sources[i].id@ == id,
        forall|j: int| 0 <= j < i ==> sources[j].id@ != id,
    ensures
        source_index(sources, id) == Some(i),
{
    let k = source_index(sources, id)->0;
    if k < i {
        assert(sources[k].id@ != id);
    } else if k > i {
    }
}

/// Finds the first role with id `id`.
pub fn find_role(roles: &Vec<Role>, id: &str) -> (r: Option<usize>)
    ensures
        r is Some <==> role_index(roles@, id@) is Some,
        r matches Some(k) ==> role_index(roles@, id@) == Some(k as int),
{
    let mut i: usize = 0;
    while i < roles.len()
        invariant
            i <= roles.len(),
            forall|j: int| 0 <= j < i ==> roles@[j].id@ != id@,
        decreases roles.len() - i,
    {
        proof {
            lemma_role_index(roles@, id@);
        }
        if text_eq(roles[i].id.as_str(), id) {
            proof {
                lemma_first_exists_role(roles@, id@, i as int);
            }
            return Some(i);
        }
        i = i + 1;
    }
    proof {
        lemma_role_index(roles@, id@);
    }
    None
}

/// Finds the first source with id `id`.
pub fn find_source(sources: &Vec<PolicySource>, id: &str) -> (r: Option<usize>)
    ensures
        r is Some <==> source_index(sources@, id@) is Some,
        r matches Some(k) ==> source_index(sources@, id@) == Some(k as int),
{
    let mut i: usize = 0;
    while i < sources.len()
        invariant
            i <= sources.len(),
            forall|j: int| 0 <= j < i ==> sources@[j].id@ != id@,
        decreases sources.len() - i,
    {
        proof {
            lemma_source_index(sources@, id@);
        }
        if text_eq(sources[i].id.as_str(), id) {
            proof {
                lemma_first_exists_source(sources@, id@, i as int);
            }
            return Some(i);
        }
        i = i + 1;
    }
    proof {
        lemma_source_index(sources@, id@);
    }
    None
}

/// The source with id `id` exists and is a delegated source.
pub open spec fn source_delegated(policy: PolicySet, id: Seq<char>) -> bool {
    source_index(policy.environment.sources@, id) matches Some(i)
        && policy.environment.sources@[i].trust_mode@ == "delegated"@
}

/// Some statement of the role has an effect other than deny.
pub open spec fn role_grants(policy: PolicySet, role_id: Seq<char>) -> bool {
    exists|s: int|
        0 <= s < policy.statements@.len() && (#[trigger] policy.statements@[s]).role@ == role_id
            && policy.statements@[s].effect@ != "deny"@
}

/// A role, and every role it inherits, exists, is not authored by a
/// delegated source, and has only deny statements; a role reached again
/// along the inheritance path (a cycle) is not deny-only.
pub open spec fn deny_only(policy: PolicySet, role_id: Seq<char>, active: Seq<Seq<char>>) -> bool
    decreases fresh_count(role_ids(policy), active),
{
    if active.contains(role_id) {
        false
    } else {
        match role_index(policy.roles@, role_id) {
            None => false,
            Some(i) => {
                let role = policy.roles@[i];
                if source_delegated(policy, role.source@) || role_grants(policy, role_id) {
                    false
                } else {
                    proof {
                        lemma_role_index(policy.roles@, role_id);
                        assert(role_ids(policy)[i] == role_id);
                        lemma_fresh_push(role_ids(policy), active, role_id);
                    }
                    forall|k: int|
                        0 <= k < role.inherits@.len() ==> deny_only(
                            policy,
                            #[trigger] role.inherits@[k]@,
                            active.push(role_id),
                        )
                }
            },
        }
    }
}

fn source_is_delegated(policy: &PolicySet, id: &str) -> (r: bool)
    ensures
        r == source_delegated(*policy, id@),
{
    proof {
        lemma_source_index(policy.environment.sources@, id@);
    }
    match find_source(&policy.environment.sources, id) {
        Some(i) => {
            assert(source_index(policy.environment.sources@, id@) == Some(i as int));
            text_eq(policy.environment.sources[i].trust_mode.as_str(), "delegated")
        },
        None => false,
    }
}

fn grants(policy: &PolicySet, role_id: &str) -> (r: bool)
    ensures
        r == role_grants(*policy, role_id@),
{
    let mut s: usize = 0;
    while s < policy.statements.len()
        invariant
            s <= policy.statements.len(),
            forall|j: int|
                0 <= j < s ==> !((#[trigger] policy.statements@[j]).role@ == role_id@
                    && policy.statements@[j].effect@ != "deny"@),
        decreases policy.statements.len() - s,
    {
        if text_eq(policy.statements[s].role.as_str(), role_id) && !text_eq(
            policy.statements[s].effect.as_str(),
            "deny",
        ) {
            return true;
        }
        s = s + 1;
    }
    false
}

/// Decides `deny_only` for a role reached along the path `active`.
pub fn role_is_deny_only(policy: &PolicySet, role_id: &str, active: &Vec<String>) -> (r: bool)
    ensures
        r == deny_only(*policy, role_id@, active.deep_view()),
    decreases fresh_count(role_ids(*policy), active.deep_view()),
{
    if texts_contain(active, role_id) {
        return false;
    }
    let i = match find_role(&policy.roles, role_id) {
        Some(i) => i,
        None => return false,
    };
    proof {
        lemma_role_index(policy.roles@, role_id@);
    }
    let role = &policy.roles[i];
    if source_is_delegated(policy, role.source.as_str()) || grants(policy, role_id) {
        return false;
    }
    let mut next = copy_texts(active);
    next.push(String::from_str(role_id));
    proof {
        assert(next.deep_view() =~= active.deep_view().push(role_id@));
        assert(role_ids(*policy)[i as int] == policy.roles@[i as int].id@);
        assert(role_ids(*policy)[i as int] == role_id@);
        lemma_fresh_push(role_ids(*policy), active.deep_view(), role_id@);
    }
    let mut k: usize = 0;
    while k < role.inherits.len()
        invariant
            i < policy.roles.len(),
            *role == policy.roles@[i as int],
            role_index(policy.roles@, role_id@) == Some(i as int),
            !active.deep_view().contains(role_id@),
            next.deep_view() == active.deep_view().push(role_id@),
            fresh_count(role_ids(*policy), next.deep_view()) < fresh_count(
                role_ids(*policy),
                active.deep_view(),
            ),
            k <= role.inherits.len(),
            forall|j: int|
                0 <= j < k ==> deny_only(*policy, #[trigger] role.inherits@[j]@, next.deep_view()),
        decreases role.inherits.len() - k,
    {
        if !role_is_deny_only(policy, role.inherits[k].as_str(), &next) {
            return false;
        }
        k = k + 1;
    }
    true
}

/// A restrictive source may author only deny statements, deny-only roles,
/// and assignments whose roles are all deny-only.
pub open spec fn restrictive_allowed(policy: PolicySet, record: RecordRef) -> bool {
    match record {
        RecordRef::Statement(v) => v.effect@ == "deny"@,
        RecordRef::Role(v) => deny_only(policy, v.id@, Seq::empty()),
        RecordRef::Assignment(v) => v.roles@.len() > 0 && forall|k: int|
            0 <= k < v.roles@.len() ==> deny_only(policy, #[trigger] v.roles@[k]@, Seq::empty()),
        _ => false,
    }
}

/// Decides `restrictive_allowed`.
pub fn restrictive_record_allowed(policy: &PolicySet, record: RecordRef<'_>) -> (r: bool)
    ensures
        r == restrictive_allowed(*policy, record),
{
    let empty: Vec<String> = Vec::new();
    assert(empty.deep_view() =~= Seq::<Seq<char>>::empty());
    match record {
        RecordRef::Statement(v) => text_eq(v.effect.as_str(), "deny"),
        RecordRef::Role(v) => role_is_deny_only(policy, v.id.as_str(), &empty),
        RecordRef::Assignment(v) => {
            if v.roles.len() == 0 {
                return false;
            }
            let mut k: usize = 0;
            while k < v.roles.len()
                invariant
                    record == RecordRef::Assignment(v),
                    v.roles@.len() > 0,
                    empty.deep_view() == Seq::<Seq<char>>::empty(),
                    k <= v.roles.len(),
                    forall|j: int|
                        0 <= j < k ==> deny_only(*policy, #[trigger] v.roles@[j]@, Seq::empty()),
                decreases v.roles.len() - k,
            {
                if !role_is_deny_only(policy, v.roles[k].as_str(), &empty) {
                    assert(!deny_only(*policy, v.roles@[k as int]@, Seq::empty()));
                    return false;
                }
                k = k + 1;
            }
            true
        },
        _ => false,
    }
}

/// Whether a source's own envelope admits a record: its operations and
/// scopes lie within the source's.
pub open spec fn within_source(source: PolicySource, record: RecordRef) -> bool {
    operations_within(source.operations.deep_view(), rec_operations(record)) && sets_contain_spec(
        source.scopes@,
        source.scope_universe.deep_view(),
        rec_scopes(record),
        rec_universe(record),
    ) == Some(true)
}

/// A delegation can carry authority for a record to the source `source_id`:
/// it is live, addressed to that source, issued by its own source, its
/// envelope admits the record, and a delegated delegation must be allowed
/// to redelegate with depth to spare.
pub open spec fn delegation_eligible(d: Delegation, record: RecordRef, source_id: Seq<char>) -> bool {
    &&& !d.revoked
    &&& d.recipient@ == source_id
    &&& d.issuer@ == d.source@
    &&& envelope_admits(d, record)
    &&& (record matches RecordRef::Delegation(child) ==> (d.redelegation && d.max_depth >= 1
        && child.max_depth < d.max_depth))
}

/// The termination measure of the authority search: twice the number of
/// delegations not yet on the trail, plus a step for the record itself.
pub open spec fn authority_measure(policy: PolicySet, record: RecordRef, trail: Seq<Seq<char>>) -> int {
    let ids = delegation_ids(policy);
    2 * fresh_count(ids, trail) + if trail.contains(rec_id(record)) {
        0int
    } else if ids.contains(rec_id(record)) {
        1int
    } else {
        2int
    }
}

/// Following a delegation from a record not yet on the trail lowers the
/// measure.
pub proof fn lemma_measure_drops(
    policy: PolicySet,
    record: RecordRef,
    trail: Seq<Seq<char>>,
    k: int,
)
    requires
        !trail.contains(rec_id(record)),
        0 <= k < policy.delegations@.len(),
    ensures
        authority_measure(
            policy,
            RecordRef::Delegation(&policy.delegations@[k]),
            trail.push(rec_id(record)),
        ) < authority_measure(policy, record, trail),
{
    let ids = delegation_ids(policy);
    lemma_fresh_push(ids, trail, rec_id(record));
    assert(ids[k] == policy.delegations@[k].id@);
    assert(ids.contains(policy.delegations@[k].id@));
}

/// The source authority of a record: `(authorized, chains, reason)`. A
/// record is authorized by its source directly when the source is an origin
/// (or a restrictive source, for restrictive records) whose actions and
/// envelope admit it; otherwise through every eligible delegation to its
/// source whose own authority holds, each chain being the parent's chain
/// followed by that delegation. A record met again on the trail is a cycle.
pub open spec fn authority_of(policy: PolicySet, record: RecordRef, trail: Seq<Seq<char>>) -> (
    bool,
    Set<Seq<Seq<char>>>,
    Seq<char>,
)
    decreases authority_measure(policy, record, trail), 1int, 0int,
{
    match source_index(policy.environment.sources@, rec_source(record)) {
        None => (false, Set::empty(), "source.unknown"@),
        Some(si) => {
            let source = policy.environment.sources@[si];
            let allowed = source.record_actions.deep_view().contains(rec_action(record))
                && within_source(source, record);
            if source.trust_mode@ == "origin"@ && allowed {
                (true, Set::empty().insert(Seq::empty()), "source.origin"@)
            } else if source.trust_mode@ == "restrictive"@ && allowed && restrictive_allowed(
                policy,
                record,
            ) {
                (true, Set::empty().insert(Seq::empty()), "source.restrictive"@)
            } else if trail.contains(rec_id(record)) {
                (false, Set::empty(), "delegation.cycle"@)
            } else {
                let chains = delegated_chains(
                    policy,
                    record,
                    source.id@,
                    trail,
                    policy.delegations@.len() as int,
                );
                if chains == Set::<Seq<Seq<char>>>::empty() {
                    (false, Set::empty(), "delegation.missing"@)
                } else {
                    (true, chains, "source.delegated"@)
                }
            }
        },
    }
}

/// A restrictive source can narrow but never grant: what it authorizes by
/// itself is only a deny statement, a deny-only role, or an assignment of
/// deny-only roles.
pub proof fn lemma_restrictive_source_only_narrows(policy: PolicySet, record: RecordRef, trail: Seq<Seq<char>>)
    ensures
        authority_of(policy, record, trail).2 == "source.restrictive"@ ==> restrictive_allowed(policy, record),
        authority_of(policy, record, trail).2 == "source.restrictive"@ ==> (record matches RecordRef::Statement(v)
            ==> v.effect@ == "deny"@),
{
    reveal_strlit("source.restrictive");
    reveal_strlit("source.origin");
    reveal_strlit("source.unknown");
    reveal_strlit("source.delegated");
    reveal_strlit("delegation.cycle");
    reveal_strlit("delegation.missing");
    assert("source.restrictive"@ != "source.origin"@) by {
        assert("source.restrictive"@[7] != "source.origin"@[7]);
    }
    assert("source.restrictive"@ != "source.unknown"@) by {
        assert("source.restrictive"@[7] != "source.unknown"@[7]);
    }
    assert("source.restrictive"@ != "source.delegated"@) by {
        assert("source.restrictive"@[7] != "source.delegated"@[7]);
    }
    assert("source.restrictive"@ != "delegation.cycle"@) by {
        assert("source.restrictive"@[0] != "delegation.cycle"@[0]);
    }
    assert("source.restrictive"@ != "delegation.missing"@) by {
        assert("source.restrictive"@[0] != "delegation.missing"@[0]);
    }
}

/// Authority always comes with what carries it: a record is authorized
/// exactly when at least one delegation chain (the empty chain, for a
/// source that authorizes directly) carries it.
pub proof fn lemma_authority_has_chain(policy: PolicySet, record: RecordRef, trail: Seq<Seq<char>>)
    ensures
        authority_of(policy, record, trail).0 <==> authority_of(policy, record, trail).1 != Set::<
            Seq<Seq<char>>,
        >::empty(),
{
    let s = authority_of(policy, record, trail);
    if s.1 == Set::<Seq<Seq<char>>>::empty().insert(Seq::empty()) {
        assert(s.1.contains(Seq::empty()));
    }
}

proof fn lemma_delegated_chain_ends_in_eligible(
    policy: PolicySet,
    record: RecordRef,
    source_id: Seq<char>,
    trail: Seq<Seq<char>>,
    k: int,
    c: Seq<Seq<char>>,
)
    requires
        delegated_chains(policy, record, source_id, trail, k).contains(c),
    ensures
        c.len() > 0,
        exists|j: int|
            0 <= j < k && j < policy.delegations@.len() && (#[trigger] policy.delegations@[j]).id@ == c.last()
                && delegation_eligible(policy.delegations@[j], record, source_id),
    decreases k,
{
    if k <= 0 || k > policy.delegations@.len() || trail.contains(rec_id(record)) {
        assert(!Set::<Seq<Seq<char>>>::empty().contains(c));
    } else {
        let rest = delegated_chains(policy, record, source_id, trail, k - 1);
        let d = policy.delegations@[k - 1];
        if rest.contains(c) {
            lemma_delegated_chain_ends_in_eligible(policy, record, source_id, trail, k - 1, c);
        } else {
            assert(delegation_eligible(d, record, source_id));
            let parent = authority_of(
                policy,
                RecordRef::Delegation(&policy.delegations@[k - 1]),
                trail.push(rec_id(record)),
            );
            assert(parent.1.map(|x: Seq<Seq<char>>| x.push(d.id@)).contains(c));
            let c0 = choose|x: Seq<Seq<char>>| parent.1.contains(x) && x.push(d.id@) == c;
            assert(c == c0.push(d.id@));
            assert(c.last() == d.id@);
        }
    }
}

/// Delegated authority is carried only by delegations that may carry it:
/// every delegation chain that authorizes a record ends in a delegation of
/// the policy that is not revoked, is addressed to the record's source, is
/// issued by its own source, and whose envelope admits the record. A record
/// authorized with no delegation at all comes from an origin or a
/// restrictive source that names the record's action and whose envelope
/// contains it.
pub proof fn lemma_delegated_authority_is_eligible(
    policy: PolicySet,
    record: RecordRef,
    trail: Seq<Seq<char>>,
    c: Seq<Seq<char>>,
)
    requires
        authority_of(policy, record, trail).1.contains(c),
    ensures
        c.len() > 0 ==> exists|j: int|
            0 <= j < policy.delegations@.len() && (#[trigger] policy.delegations@[j]).id@ == c.last()
                && !policy.delegations@[j].revoked && policy.delegations@[j].recipient@ == rec_source(record)
                && policy.delegations@[j].issuer@ == policy.delegations@[j].source@ && envelope_admits(
                policy.delegations@[j],
                record,
            ),
        c.len() == 0 ==> exists|si: int|
            0 <= si < policy.environment.sources@.len() && (#[trigger] policy.environment.sources@[si]).id@
                == rec_source(record) && (policy.environment.sources@[si].trust_mode@ == "origin"@
                || policy.environment.sources@[si].trust_mode@ == "restrictive"@)
                && policy.environment.sources@[si].record_actions.deep_view().contains(rec_action(record))
                && within_source(policy.environment.sources@[si], record),
{
    lemma_source_index(policy.environment.sources@, rec_source(record));
    let a = authority_of(policy, record, trail);
    match source_index(policy.environment.sources@, rec_source(record)) {
        None => {
            assert(!Set::<Seq<Seq<char>>>::empty().contains(c));
        },
        Some(si) => {
            let source = policy.environment.sources@[si];
            let allowed = source.record_actions.deep_view().contains(rec_action(record)) && within_source(
                source,
                record,
            );
            if source.trust_mode@ == "origin"@ && allowed {
                assert(c == Seq::<Seq<char>>::empty());
            } else if source.trust_mode@ == "restrictive"@ && allowed && restrictive_allowed(policy, record) {
                assert(c == Seq::<Seq<char>>::empty());
            } else if trail.contains(rec_id(record)) {
                assert(!Set::<Seq<Seq<char>>>::empty().contains(c));
            } else {
                let chains = delegated_chains(
                    policy,
                    record,
                    source.id@,
                    trail,
                    policy.delegations@.len() as int,
                );
                if chains == Set::<Seq<Seq<char>>>::empty() {
                    assert(!Set::<Seq<Seq<char>>>::empty().contains(c));
                } else {
                    assert(chains.contains(c));
                    lemma_delegated_chain_ends_in_eligible(
                        policy,
                        record,
                        source.id@,
                        trail,
                        policy.delegations@.len() as int,
                        c,
                    );
                }
            }
        },
    }
}

/// The chains gathered from the first `k` delegations.
pub open spec fn delegated_chains(
    policy: PolicySet,
    record: RecordRef,
    source_id: Seq<char>,
    trail: Seq<Seq<char>>,
    k: int,
) -> Set<Seq<Seq<char>>>
    decreases authority_measure(policy, record, trail), 0int, k,
{
    if k <= 0 || k > policy.delegations@.len() || trail.contains(rec_id(record)) {
        Set::empty()
    } else {
        let rest = delegated_chains(policy, record, source_id, trail, k - 1);
        let d = policy.delegations@[k - 1];
        if delegation_eligible(d, record, source_id) {
            proof {
                lemma_measure_drops(policy, record, trail, k - 1);
            }
            let parent = authority_of(
                policy,
                RecordRef::Delegation(&policy.delegations@[k - 1]),
                trail.push(rec_id(record)),
            );
            if parent.0 {
                rest.union(parent.1.map(|c: Seq<Seq<char>>| c.push(d.id@)))
            } else {
                rest
            }
        } else {
            rest
        }
    }
}

/// The authority found for a record: whether it is authorized, the
/// delegation chains that carry it (sorted, each once), and why.
#[derive(Debug)]
pub struct Authority {
    pub authorized: bool,
    pub chains: Vec<Vec<String>>,
    pub reason: &'static str,
}

/// `a` states exactly `authority_of(policy, record, trail)`.
pub open spec fn authority_agrees(
    a: Authority,
    policy: PolicySet,
    record: RecordRef,
    trail: Seq<Seq<char>>,
) -> bool {
    let s = authority_of(policy, record, trail);
    &&& a.authorized == s.0
    &&& a.chains.deep_view().to_set() == s.1
    &&& sorted_chains(a.chains.deep_view())
    &&& a.reason@ == s.2
}

fn eligible(delegation: &Delegation, record: RecordRef<'_>, source_id: &str) -> (r: bool)
    ensures
        r == delegation_eligible(*delegation, record, source_id@),
{
    if delegation.revoked || !text_eq(delegation.recipient.as_str(), source_id) || !text_eq(
        delegation.issuer.as_str(),
        delegation.source.as_str(),
    ) || !envelope_contains(delegation, record) {
        return false;
    }
    match record {
        RecordRef::Delegation(child) => delegation.redelegation && delegation.max_depth >= 1
            && child.max_depth < delegation.max_depth,
        _ => true,
    }
}

fn unauthorized(reason: &'static str) -> (r: Authority)
    ensures
        !r.authorized,
        r.chains.deep_view().to_set() == Set::<Seq<Seq<char>>>::empty(),
        sorted_chains(r.chains.deep_view()),
        r.reason == reason,
{
    let chains: Vec<Vec<String>> = Vec::new();
    assert(chains.deep_view().to_set() =~= Set::<Seq<Seq<char>>>::empty());
    Authority { authorized: false, chains, reason }
}

fn direct(reason: &'static str) -> (r: Authority)
    ensures
        r.authorized,
        r.chains.deep_view().to_set() == Set::<Seq<Seq<char>>>::empty().insert(Seq::empty()),
        sorted_chains(r.chains.deep_view()),
        r.reason == reason,
{
    let mut chains: Vec<Vec<String>> = Vec::new();
    let first: Vec<String> = Vec::new();
    assert(first.deep_view() =~= Seq::<Seq<char>>::empty());
    chains.push(first);
    proof {
        assert(chains.deep_view() =~= Seq::<Seq<Seq<char>>>::empty().push(Seq::empty()));
        Seq::<Seq<Seq<char>>>::empty().lemma_push_to_set_commute(Seq::empty());
        assert(Seq::<Seq<Seq<char>>>::empty().to_set() =~= Set::empty());
    }
    Authority { authorized: true, chains, reason }
}

/// The source authority of a record (see `authority_of`), searched from an
/// empty trail.
pub fn source_authority(policy: &PolicySet, record: RecordRef<'_>) -> (r: Authority)
    ensures
        authority_agrees(r, *policy, record, Seq::empty()),
{
    let trail: Vec<String> = Vec::new();
    assert(trail.deep_view() =~= Seq::<Seq<char>>::empty());
    source_authority_inner(policy, record, &trail)
}

fn source_authority_inner(policy: &PolicySet, record: RecordRef<'_>, trail: &Vec<String>) -> (r:
    Authority)
    ensures
        authority_agrees(r, *policy, record, trail.deep_view()),
    decreases authority_measure(*policy, record, trail.deep_view()), 1int, 0int,
{
    let ghost spec = authority_of(*policy, record, trail.deep_view());
    proof {
        lemma_source_index(policy.environment.sources@, rec_source(record));
    }
    let si = match find_source(&policy.environment.sources, record.source()) {
        None => {
            return unauthorized("source.unknown");
        },
        Some(i) => i,
    };
    let source = &policy.environment.sources[si];
    let action = record.action();
    let inside = operations_contain(source.operations.as_slice(), record.operations())
        && scopes_contain(
        source.scopes.as_slice(),
        source.scope_universe.as_slice(),
        record.scopes(),
        record.universe(),
    ) == Some(true);
    let allowed = texts_contain(&source.record_actions, action.as_str()) && inside;
    if text_eq(source.trust_mode.as_str(), "origin") && allowed {
        return direct("source.origin");
    }
    if text_eq(source.trust_mode.as_str(), "restrictive") && allowed && restrictive_record_allowed(
        policy,
        record,
    ) {
        return direct("source.restrictive");
    }
    if texts_contain(trail, record.id()) {
        return unauthorized("delegation.cycle");
    }
    let mut next = copy_texts(trail);
    next.push(String::from_str(record.id()));
    assert(next.deep_view() =~= trail.deep_view().push(rec_id(record)));
    let mut chains: Vec<Vec<String>> = Vec::new();
    assert(chains.deep_view().to_set() =~= Set::empty());
    let mut k: usize = 0;
    while k < policy.delegations.len()
        invariant
            k <= policy.delegations.len(),
            si < policy.environment.sources.len(),
            *source == policy.environment.sources@[si as int],
            !trail.deep_view().contains(rec_id(record)),
            next.deep_view() == trail.deep_view().push(rec_id(record)),
            sorted_chains(chains.deep_view()),
            chains.deep_view().to_set() == delegated_chains(
                *policy,
                record,
                source.id@,
                trail.deep_view(),
                k as int,
            ),
        decreases policy.delegations.len() - k,
    {
        let d = &policy.delegations[k];
        if eligible(d, record, source.id.as_str()) {
            proof {
                lemma_measure_drops(*policy, record, trail.deep_view(), k as int);
            }
            let parent = source_authority_inner(policy, RecordRef::Delegation(d), &next);
            if parent.authorized {
                let ghost before = chains.deep_view().to_set();
                let mut j: usize = 0;
                while j < parent.chains.len()
                    invariant
                        j <= parent.chains.len(),
                        sorted_chains(chains.deep_view()),
                        chains.deep_view().to_set() == before.union(
                            parent.chains.deep_view().subrange(0, j as int).to_set().map(
                                |c: Seq<Seq<char>>| c.push(d.id@),
                            ),
                        ),
                    decreases parent.chains.len() - j,
                {
                    let mut c = copy_texts(&parent.chains[j]);
                    c.push(d.id.clone());
                    let ghost cv = parent.chains.deep_view()[j as int];
                    assert(c.deep_view() =~= cv.push(d.id@));
                    insert_chain_sorted(&mut chains, c);
                    proof {
                        let f = |c: Seq<Seq<char>>| c.push(d.id@);
                        let pre = parent.chains.deep_view().subrange(0, j as int);
                        assert(parent.chains.deep_view().subrange(0, j + 1) =~= pre.push(cv));
                        pre.lemma_push_to_set_commute(cv);
                        pre.to_set().lemma_set_map_insert_commute(cv, f);
                        assert(chains.deep_view().to_set() =~= before.union(
                            parent.chains.deep_view().subrange(0, j + 1).to_set().map(f),
                        ));
                    }
                    j = j + 1;
                }
                proof {
                    assert(parent.chains.deep_view().subrange(0, parent.chains.len() as int) =~= parent.chains.deep_view());
                }
            }
        }
        k = k + 1;
    }
    proof {
        if chains.len() == 0 {
            assert(chains.deep_view().to_set() =~= Set::empty());
        } else {
            assert(chains.deep_view().to_set().contains(chains.deep_view()[0]));
        }
    }
    if chains.len() == 0 {
        unauthorized("delegation.missing")
    } else {
        Authority { authorized: true, chains, reason: "source.delegated" }
    }
}

} // verus!
