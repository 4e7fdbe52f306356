//! Building a policy from its parsed files, and validating it.
use crate::clock::{instant_lt, parse_rfc3339, rfc3339_instant};
use crate::json::JsonValue;

use crate::policy::model::{Condition, PolicySet};
use crate::policy::scope::{scope_type, type_known, ScopeError};
use crate::text::{chars_of, concat2, concat3, text_eq, texts_contain};
use vstd::prelude::*;

verus! {

/// Why a policy, environment or request could not be loaded.
#[derive(Clone, Debug, PartialEq, Eq)]
pub enum PolicyLoadError {
    Io(String),
    Toml(String),
    Scope(ScopeError),
    Schema(String),
    Duplicate(String),
    Invalid(String),
}

/// A load fault as `(kind, text)`: 1 io, 2 toml, 3 schema, 4 duplicate,
/// 5 invalid, 6 invalid scope, 7 unknown scope type.
pub open spec fn fault(e: PolicyLoadError) -> (int, Seq<char>) {
    match e {
        PolicyLoadError::Io(s) => (1, s@),
        PolicyLoadError::Toml(s) => (2, s@),
        PolicyLoadError::Schema(s) => (3, s@),
        PolicyLoadError::Duplicate(s) => (4, s@),
        PolicyLoadError::Invalid(s) => (5, s@),
        PolicyLoadError::Scope(ScopeError::Invalid(s)) => (6, s@),
        PolicyLoadError::Scope(ScopeError::UnknownType(s)) => (7, s@),
    }
}

/// An `Invalid` fault with message `m`.
pub open spec fn invalid(m: Seq<char>) -> Option<(int, Seq<char>)> {
    Some((5, m))
}

/// The first fault of `a` then `b`.
pub open spec fn or_else(a: Option<(int, Seq<char>)>, b: Option<(int, Seq<char>)>) -> Option<
    (int, Seq<char>),
> {
    if a is Some {
        a
    } else {
        b
    }
}

/// The first fault among `f(0)`, ..., `f(k - 1)`.
pub open spec fn first_fault(f: spec_fn(int) -> Option<(int, Seq<char>)>, k: int) -> Option<
    (int, Seq<char>),
>
    decreases k,
{
    if k <= 0 {
        None
    } else {
        or_else(first_fault(f, k - 1), f(k - 1))
    }
}

/// Once a fault is found among the first `k`, it stays the first fault.
pub proof fn lemma_first_fault_stable(f: spec_fn(int) -> Option<(int, Seq<char>)>, k: int, n: int)
    requires
        0 <= k <= n,
        first_fault(f, k) is Some,
    ensures
        first_fault(f, n) == first_fault(f, k),
    decreases n - k,
{
    if n > k {
        lemma_first_fault_stable(f, k, n - 1);
    }
}

/// `r` reports exactly the fault `f`, or succeeds when there is none.
pub open spec fn reports<T>(r: Result<T, PolicyLoadError>, f: Option<(int, Seq<char>)>) -> bool {
    match f {
        None => r is Ok,
        Some(x) => r matches Err(e) && fault(e) == x,
    }
}

pub(crate) fn invalid_error(m: String) -> (r: PolicyLoadError)
    ensures
        fault(r) == (5int, m@),
{
    PolicyLoadError::Invalid(m)
}

/// A record id: a lowercase ASCII letter, then lowercase letters, digits,
/// `.`, `-` or `_`.
pub open spec fn id_char(c: char) -> bool {
    ('a' <= c && c <= 'z') || ('0' <= c && c <= '9') || c == '.' || c == '-' || c == '_'
}

/// Whether `v` is a well-formed record id.
pub open spec fn well_formed_id(v: Seq<char>) -> bool {
    &&& v.len() > 0
    &&& 'a' <= v[0] && v[0] <= 'z'
    &&& forall|i: int| 0 <= i < v.len() ==> id_char(#[trigger] v[i])
}

/// Whether `value` is a well-formed record id.
pub fn valid_id(value: &str) -> (r: bool)
    ensures
        r == well_formed_id(value@),
{
    let v = chars_of(value);
    if v.len() == 0 || !('a' <= v[0] && v[0] <= 'z') {
        return false;
    }
    let mut i: usize = 0;
    while i < v.len()
        invariant
            v@ == value@,
            i <= v.len(),
            forall|j: int| 0 <= j < i ==> id_char(#[trigger] v@[j]),
        decreases v.len() - i,
    {
        let c = v[i];
        if !(('a' <= c && c <= 'z') || ('0' <= c && c <= '9') || c == '.' || c == '-' || c == '_') {
            assert(!id_char(v@[i as int]));
            return false;
        }
        i = i + 1;
    }
    true
}

/// The fault of an id of record kind `kind`.
pub open spec fn id_fault(kind: Seq<char>, value: Seq<char>) -> Option<(int, Seq<char>)> {
    if well_formed_id(value) {
        None
    } else {
        invalid("id.malformed:"@ + kind + ":"@ + value)
    }
}

/// Fails unless `value` is a well-formed id.
pub fn require_id(kind: &str, value: &str) -> (r: Result<(), PolicyLoadError>)
    ensures
        reports(r, id_fault(kind@, value@)),
{
    if valid_id(value) {
        Ok(())
    } else {
        let m = concat2(concat3("id.malformed:", kind, ":").as_str(), value);
        Err(invalid_error(m))
    }
}

/// A lowercase ASCII letter.
pub open spec fn lower(c: char) -> bool {
    'a' <= c && c <= 'z'
}

/// A character of an operation segment.
pub open spec fn operation_char(c: char) -> bool {
    lower(c) || ('0' <= c && c <= '9') || c == '-' || c == '_'
}

/// Dot-separated non-empty segments, each starting with a lowercase letter
/// and made of lowercase letters, digits, `-` and `_`.
pub open spec fn dotted_name(b: Seq<char>) -> bool {
    &&& b.len() > 0
    &&& b.last() != '.'
    &&& forall|i: int| 0 <= i < b.len() ==> (b[i] == '.' || operation_char(#[trigger] b[i]))
    &&& forall|i: int| 0 <= i < b.len() && (i == 0 || b[i - 1] == '.') ==> lower(#[trigger] b[i])
}

/// An operation selector: `*`, a dotted name, or a dotted name then `.*`.
pub open spec fn well_formed_operation(v: Seq<char>) -> bool {
    if v == seq!['*'] {
        true
    } else if seq!['.', '*'].is_suffix_of(v) {
        dotted_name(v.subrange(0, v.len() - 2))
    } else {
        dotted_name(v)
    }
}

fn dotted_valid(b: &Vec<char>, n: usize) -> (r: bool)
    requires
        n <= b@.len(),
    ensures
        r == dotted_name(b@.subrange(0, n as int)),
{
    let ghost s = b@.subrange(0, n as int);
    if n == 0 {
        return false;
    }
    if b[n - 1] == '.' {
        assert(s.last() == b@[n - 1]);
        return false;
    }
    let mut i: usize = 0;
    while i < n
        invariant
            n <= b@.len(),
            s == b@.subrange(0, n as int),
            i <= n,
            forall|j: int| 0 <= j < i ==> (s[j] == '.' || operation_char(#[trigger] s[j])),
            forall|j: int| 0 <= j < i && (j == 0 || s[j - 1] == '.') ==> lower(#[trigger] s[j]),
            s.last() != '.',
        decreases n - i,
    {
        let c = b[i];
        assert(s[i as int] == c);
        if !(c == '.' || ('a' <= c && c <= 'z') || ('0' <= c && c <= '9') || c == '-' || c == '_') {
            return false;
        }
        if (i == 0 || b[i - 1] == '.') && !('a' <= c && c <= 'z') {
            assert(i > 0 ==> s[i - 1] == b@[i - 1]);
            return false;
        }
        i = i + 1;
    }
    true
}

/// Whether `value` is a well-formed operation selector.
pub fn valid_operation(value: &str) -> (r: bool)
    ensures
        r == well_formed_operation(value@),
{
    let v = chars_of(value);
    if v.len() == 1 && v[0] == '*' {
        assert(v@ =~= seq!['*']);
        return true;
    }
    assert(v@ != seq!['*']);
    if v.len() >= 2 && v[v.len() - 2] == '.' && v[v.len() - 1] == '*' {
        assert(seq!['.', '*'].is_suffix_of(v@)) by {
            assert(v@.subrange(v@.len() - 2, v@.len() as int) =~= seq!['.', '*']);
        }
        return dotted_valid(&v, v.len() - 2);
    }
    assert(!seq!['.', '*'].is_suffix_of(v@)) by {
        if seq!['.', '*'].is_suffix_of(v@) {
            assert(v@.subrange(v@.len() - 2, v@.len() as int)[0] == '.');
            assert(v@.subrange(v@.len() - 2, v@.len() as int)[1] == '*');
        }
    }
    assert(v@.subrange(0, v.len() as int) =~= v@);
    dotted_valid(&v, v.len())
}

/// The fault of an operation selector list: it must be non-empty and each
/// selector well formed.
pub open spec fn operations_fault(record_id: Seq<char>, values: Seq<Seq<char>>) -> Option<
    (int, Seq<char>),
> {
    if values.len() == 0 || exists|i: int|
        0 <= i < values.len() && !well_formed_operation(#[trigger] values[i]) {
        invalid("operation.selector-invalid:"@ + record_id)
    } else {
        None
    }
}

/// Fails unless `values` is a non-empty list of well-formed selectors.
pub fn validate_operations(record_id: &str, values: &Vec<String>) -> (r: Result<
    (),
    PolicyLoadError,
>)
    ensures
        reports(r, operations_fault(record_id@, values.deep_view())),
{
    let mut ok = values.len() > 0;
    let mut i: usize = 0;
    while i < values.len() && ok
        invariant
            i <= values.len(),
            ok ==> values@.len() > 0,
            ok ==> forall|j: int| 0 <= j < i ==> well_formed_operation(#[trigger] values.deep_view()[j]),
            !ok ==> (values@.len() == 0 || exists|j: int|
                0 <= j < values@.len() && !well_formed_operation(#[trigger] values.deep_view()[j])),
        decreases values.len() - i,
    {
        if !valid_operation(values[i].as_str()) {
            assert(!well_formed_operation(values.deep_view()[i as int]));
            ok = false;
        }
        i = i + 1;
    }
    if ok {
        Ok(())
    } else {
        Err(invalid_error(concat2("operation.selector-invalid:", record_id)))
    }
}

/// The fault of a scope universe: every entry must be a known scope type.
pub open spec fn universe_fault(record_id: Seq<char>, values: Seq<Seq<char>>) -> Option<
    (int, Seq<char>),
> {
    if exists|i: int| 0 <= i < values.len() && !scope_type(#[trigger] values[i]) {
        invalid("scope.universe-type-unknown:"@ + record_id)
    } else {
        None
    }
}

/// Fails unless every universe entry is a known scope type.
pub fn validate_universe(record_id: &str, values: &Vec<String>) -> (r: Result<(), PolicyLoadError>)
    ensures
        reports(r, universe_fault(record_id@, values.deep_view())),
{
    let mut i: usize = 0;
    while i < values.len()
        invariant
            i <= values.len(),
            forall|j: int| 0 <= j < i ==> scope_type(#[trigger] values.deep_view()[j]),
        decreases values.len() - i,
    {
        if !type_known(values[i].as_str()) {
            assert(!scope_type(values.deep_view()[i as int]));
            return Err(invalid_error(concat2("scope.universe-type-unknown:", record_id)));
        }
        i = i + 1;
    }
    Ok(())
}

/// The operators a condition may use.
pub open spec fn known_operator(op: Seq<char>) -> bool {
    op == "eq"@ || op == "ne"@ || op == "in"@ || op == "not-in"@
}

/// The fault of one condition.
pub open spec fn condition_fault(providers: Seq<Seq<char>>, record_id: Seq<char>, c: Condition) -> Option<
    (int, Seq<char>),
> {
    if !providers.contains(c.provider@) {
        invalid("condition.provider-unknown:"@ + record_id + ":"@ + c.provider@)
    } else if !known_operator(c.operator@) {
        invalid("condition.operator-unsupported:"@ + record_id + ":"@ + c.operator@)
    } else if (c.operator@ == "in"@ || c.operator@ == "not-in"@) && !(c.value is Array) {
        invalid("condition.value-invalid:"@ + record_id + ":"@ + c.key@)
    } else {
        None
    }
}

/// The first fault among conditions, in order.
pub open spec fn conditions_fault(providers: Seq<Seq<char>>, record_id: Seq<char>, cs: Seq<Condition>) -> Option<
    (int, Seq<char>),
> {
    first_fault(|i: int| condition_fault(providers, record_id, cs[i]), cs.len() as int)
}

/// Fails at the first condition whose provider is not declared, whose
/// operator is unknown, or whose set operator has no array value.
pub fn validate_conditions(policy: &PolicySet, record_id: &str, values: &Vec<Condition>) -> (r:
    Result<(), PolicyLoadError>)
    ensures
        reports(
            r,
            conditions_fault(policy.environment.context_providers.deep_view(), record_id@, values@),
        ),
{
    let ghost providers = policy.environment.context_providers.deep_view();
    let ghost f = |i: int| condition_fault(providers, record_id@, values@[i]);
    let mut i: usize = 0;
    while i < values.len()
        invariant
            i <= values.len(),
            providers == policy.environment.context_providers.deep_view(),
            f == |i: int| condition_fault(providers, record_id@, values@[i]),
            first_fault(f, i as int) is None,
        decreases values.len() - i,
    {
        let c = &values[i];
        proof {
            if condition_fault(providers, record_id@, values@[i as int]) is Some {
                assert(first_fault(f, i + 1) == f(i as int));
                lemma_first_fault_stable(f, i + 1, values@.len() as int);
            }
        }
        if !texts_contain(&policy.environment.context_providers, c.provider.as_str()) {
            let m = concat2(concat3("condition.provider-unknown:", record_id, ":").as_str(), c.provider.as_str());
            return Err(invalid_error(m));
        }
        let op = c.operator.as_str();
        let set_op = text_eq(op, "in") || text_eq(op, "not-in");
        if !(text_eq(op, "eq") || text_eq(op, "ne") || set_op) {
            let m = concat2(concat3("condition.operator-unsupported:", record_id, ":").as_str(), op);
            return Err(invalid_error(m));
        }
        if set_op && !matches!(c.value, JsonValue::Array(_)) {
            let m = concat2(concat3("condition.value-invalid:", record_id, ":").as_str(), c.key.as_str());
            return Err(invalid_error(m));
        }
        i = i + 1;
    }
    Ok(())
}

/// The fault of a validity window: each bound that is present must parse,
/// and the start must not be after the end.
pub open spec fn window_fault(record_id: Seq<char>, not_before: Option<Seq<char>>, not_after: Option<
    Seq<char>,
>) -> Option<(int, Seq<char>)> {
    if not_before matches Some(b) && rfc3339_instant(b) is None {
        invalid("validity.malformed:"@ + record_id + ":not_before"@)
    } else if not_after matches Some(a) && rfc3339_instant(a) is None {
        invalid("validity.malformed:"@ + record_id + ":not_after"@)
    } else if not_before matches Some(b) && not_after matches Some(a) && instant_lt(
        rfc3339_instant(a)->0,
        rfc3339_instant(b)->0,
    ) {
        invalid("validity.inverted:"@ + record_id)
    } else {
        None
    }
}

/// The text view of an optional string.
pub open spec fn opt_view(v: Option<String>) -> Option<Seq<char>> {
    match v {
        Some(s) => Some(s@),
        None => None,
    }
}

/// Fails when a bound is malformed or the window is inverted.
pub fn validate_window(record_id: &str, not_before: &Option<String>, not_after: &Option<String>) -> (r:
    Result<(), PolicyLoadError>)
    ensures
        reports(r, window_fault(record_id@, opt_view(*not_before), opt_view(*not_after))),
{
    let start = match not_before {
        Some(b) => match parse_rfc3339(b.as_str()) {
            Some(t) => Some(t),
            None => return Err(invalid_error(concat3("validity.malformed:", record_id, ":not_before"))),
        },
        None => None,
    };
    let end = match not_after {
        Some(a) => match parse_rfc3339(a.as_str()) {
            Some(t) => Some(t),
            None => return Err(invalid_error(concat3("validity.malformed:", record_id, ":not_after"))),
        },
        None => None,
    };
    match (start, end) {
        (Some(s), Some(e)) => {
            if e.0 < s.0 || (e.0 == s.0 && e.1 < s.1) {
                return Err(invalid_error(concat2("validity.inverted:", record_id)));
            }
        },
        _ => {},
    }
    Ok(())
}

/// What a record id is: a non-empty text whose first character is a
/// lowercase ASCII letter and whose every character is a lowercase ASCII
/// letter, an ASCII digit, `.`, `-` or `_`. Any other id is refused,
/// with a message that names its kind and the id.
pub proof fn lemma_record_ids(kind: Seq<char>, v: Seq<char>)
    ensures
        id_fault(kind, v) is None <==> (v.len() > 0 && 'a' <= v[0] && v[0] <= 'z' && forall|i: int|
            0 <= i < v.len() ==> (('a' <= #[trigger] v[i] && v[i] <= 'z') || ('0' <= v[i] && v[i] <= '9')
                || v[i] == '.' || v[i] == '-' || v[i] == '_')),
        id_fault(kind, v) is Some ==> id_fault(kind, v) == Some((5int, "id.malformed:"@ + kind + ":"@ + v)),
{
}

proof fn lemma_name_accepted(a: Seq<char>)
    requires
        a.len() > 0,
        lower(a[0]),
        forall|i: int| 0 <= i < a.len() ==> operation_char(#[trigger] a[i]),
    ensures
        well_formed_operation(a),
        well_formed_operation(a + seq!['.', '*']),
{
    let w = a + seq!['.', '*'];
    assert(seq!['.', '*'].is_suffix_of(w)) by {
        assert(w.subrange(a.len() as int, a.len() as int + 2) =~= seq!['.', '*']);
    }
    assert(w.subrange(0, a.len() as int) =~= a);
    assert(a != seq!['*']) by {
        if a == seq!['*'] {
            assert(a[0] == '*');
        }
    }
    if seq!['.', '*'].is_suffix_of(a) {
        assert(a[a.len() - 1] == seq!['.', '*'][1]);
    }
    assert(w != seq!['*']) by {
        assert(w.len() > 1);
    }
}

#[verifier::spinoff_prover]
#[verifier::rlimit(30)]
proof fn lemma_dotted_accepted(a: Seq<char>, b: Seq<char>)
    requires
        a.len() > 0,
        lower(a[0]),
        forall|i: int| 0 <= i < a.len() ==> operation_char(#[trigger] a[i]),
        b.len() > 0,
        lower(b[0]),
        forall|i: int| 0 <= i < b.len() ==> operation_char(#[trigger] b[i]),
    ensures
        well_formed_operation(a + seq!['.'] + b),
{
    let w = a + seq!['.'] + b;
    assert(w != seq!['*']) by {
        assert(w.len() > 1);
    }
    if seq!['.', '*'].is_suffix_of(w) {
        assert(w[w.len() - 1] == seq!['.', '*'][1]);
        assert(w[w.len() - 1] == b[b.len() - 1]);
    }
    assert forall|i: int| 0 <= i < w.len() implies (w[i] == '.' || operation_char(#[trigger] w[i])) by {
        if i < a.len() {
            assert(w[i] == a[i]);
        } else if i > a.len() {
            assert(w[i] == b[i - a.len() - 1]);
        }
    }
    assert forall|i: int| 0 <= i < w.len() && (i == 0 || w[i - 1] == '.') implies lower(#[trigger] w[i]) by {
        if i == 0 {
            assert(w[0] == a[0]);
        } else if i <= a.len() {
            assert(w[i - 1] == a[i - 1]);
            assert(operation_char(a[i - 1]));
        } else if i == a.len() + 1 {
            assert(w[i] == b[0]);
        } else {
            assert(w[i - 1] == b[i - a.len() - 2]);
            assert(operation_char(b[i - a.len() - 2]));
        }
    }
    assert(w.last() == b.last());
}

proof fn lemma_dot_edges_refused(v: Seq<char>)
    requires
        v.len() > 0,
        v[0] == '.' || v.last() == '.',
    ensures
        !well_formed_operation(v),
{
    if v[0] == '.' && v != seq!['*'] && seq!['.', '*'].is_suffix_of(v) {
        let u = v.subrange(0, v.len() - 2);
        if u.len() > 0 {
            assert(u[0] == v[0]);
        }
    }
    if v.last() == '.' && seq!['.', '*'].is_suffix_of(v) {
        assert(v[v.len() - 1] == seq!['.', '*'][1]);
    }
}

proof fn lemma_empty_segment_refused(v: Seq<char>, i: int)
    requires
        0 <= i < v.len() - 1,
        v[i] == '.',
        v[i + 1] == '.',
    ensures
        !well_formed_operation(v),
{
    if v != seq!['*'] && seq!['.', '*'].is_suffix_of(v) {
        let u = v.subrange(0, v.len() - 2);
        assert(v[v.len() - 1] == seq!['.', '*'][1]);
        assert(v[v.len() - 2] == seq!['.', '*'][0]);
        if i + 1 < u.len() {
            assert(u[i + 1] == v[i + 1]);
            assert(u[i] == v[i]);
        } else if i + 1 == u.len() {
            assert(u.last() == v[i]);
        }
    } else {
        assert(!lower(v[i + 1]));
    }
}

proof fn lemma_foreign_char_refused(v: Seq<char>, i: int)
    requires
        0 <= i < v.len(),
        !(lower(v[i]) || ('0' <= v[i] && v[i] <= '9') || v[i] == '-' || v[i] == '_' || v[i] == '.' || v[i]
            == '*'),
    ensures
        !well_formed_operation(v),
{
    if v != seq!['*'] && seq!['.', '*'].is_suffix_of(v) {
        let u = v.subrange(0, v.len() - 2);
        assert(v[v.len() - 1] == seq!['.', '*'][1]);
        assert(v[v.len() - 2] == seq!['.', '*'][0]);
        assert(u[i] == v[i]);
    }
}

proof fn lemma_bad_start_refused(v: Seq<char>)
    requires
        v.len() > 0,
        !lower(v[0]),
        v[0] != '*',
    ensures
        !well_formed_operation(v),
{
    if v != seq!['*'] && seq!['.', '*'].is_suffix_of(v) {
        let u = v.subrange(0, v.len() - 2);
        if u.len() > 0 {
            assert(u[0] == v[0]);
        } else {
            assert(v[0] == seq!['.', '*'][0]);
        }
    }
}

/// Which operation selectors are accepted. `*` is; so is a name made of
/// dot-separated segments, each a lowercase ASCII letter followed by
/// lowercase letters, digits, `-` or `_`, and such a name followed by
/// `.*`. An empty selector, one that begins or ends with `.`, one with an
/// empty segment, one whose first character is neither a lowercase letter
/// nor `*`, and one with any other character are refused.
pub proof fn lemma_operation_selectors(v: Seq<char>, a: Seq<char>, b: Seq<char>)
    ensures
        well_formed_operation(seq!['*']),
        !well_formed_operation(Seq::empty()),
        (a.len() > 0 && 'a' <= a[0] && a[0] <= 'z' && forall|i: int|
            0 <= i < a.len() ==> (('a' <= #[trigger] a[i] && a[i] <= 'z') || ('0' <= a[i] && a[i] <= '9')
                || a[i] == '-' || a[i] == '_')) ==> well_formed_operation(a) && well_formed_operation(
            a + seq!['.', '*'],
        ) && ((b.len() > 0 && 'a' <= b[0] && b[0] <= 'z' && forall|i: int|
            0 <= i < b.len() ==> (('a' <= #[trigger] b[i] && b[i] <= 'z') || ('0' <= b[i] && b[i] <= '9')
                || b[i] == '-' || b[i] == '_')) ==> well_formed_operation(a + seq!['.'] + b)),
        v.len() > 0 && (v[0] == '.' || v.last() == '.') ==> !well_formed_operation(v),
        (exists|i: int| 0 <= i < v.len() - 1 && v[i] == '.' && #[trigger] v[i + 1] == '.')
            ==> !well_formed_operation(v),
        (exists|i: int|
            0 <= i < v.len() && !(lower(#[trigger] v[i]) || ('0' <= v[i] && v[i] <= '9') || v[i] == '-'
                || v[i] == '_' || v[i] == '.' || v[i] == '*')) ==> !well_formed_operation(v),
        v.len() > 0 && !lower(v[0]) && v[0] != '*' ==> !well_formed_operation(v),
{
    assert(Seq::<char>::empty() != seq!['*']) by {
        assert(seq!['*'].len() == 1);
    }
    assert(!seq!['.', '*'].is_suffix_of(Seq::<char>::empty()));
    if a.len() > 0 && lower(a[0]) && forall|i: int| 0 <= i < a.len() ==> operation_char(#[trigger] a[i]) {
        lemma_name_accepted(a);
        if b.len() > 0 && lower(b[0]) && forall|i: int| 0 <= i < b.len() ==> operation_char(#[trigger] b[i]) {
            lemma_dotted_accepted(a, b);
        }
    }
    if v.len() > 0 && (v[0] == '.' || v.last() == '.') {
        lemma_dot_edges_refused(v);
    }
    if exists|i: int| 0 <= i < v.len() - 1 && v[i] == '.' && #[trigger] v[i + 1] == '.' {
        let i = choose|i: int| 0 <= i < v.len() - 1 && v[i] == '.' && #[trigger] v[i + 1] == '.';
        lemma_empty_segment_refused(v, i);
    }
    if exists|i: int|
        0 <= i < v.len() && !(lower(#[trigger] v[i]) || ('0' <= v[i] && v[i] <= '9') || v[i] == '-' || v[i]
            == '_' || v[i] == '.' || v[i] == '*') {
        let i = choose|i: int|
            0 <= i < v.len() && !(lower(#[trigger] v[i]) || ('0' <= v[i] && v[i] <= '9') || v[i] == '-'
                || v[i] == '_' || v[i] == '.' || v[i] == '*');
        lemma_foreign_char_refused(v, i);
    }
    if v.len() > 0 && !lower(v[0]) && v[0] != '*' {
        lemma_bad_start_refused(v);
    }
}

/// Which conditions a record may carry: one whose provider the environment
/// declares and whose operator is `eq` or `ne`, or is `in` or `not-in`
/// with a list as its value. Any other condition is refused.
pub proof fn lemma_condition_checks(providers: Seq<Seq<char>>, record_id: Seq<char>, c: Condition)
    ensures
        condition_fault(providers, record_id, c) is None <==> (providers.contains(c.provider@) && (
        c.operator@ == "eq"@ || c.operator@ == "ne"@ || ((c.operator@ == "in"@ || c.operator@
            == "not-in"@) && c.value is Array))),
{
    reveal_strlit("eq");
    reveal_strlit("ne");
    reveal_strlit("in");
    reveal_strlit("not-in");
    assert("eq"@[0] != "in"@[0]);
    assert("ne"@[0] != "in"@[0]);
    assert("eq"@.len() != "not-in"@.len());
    assert("ne"@.len() != "not-in"@.len());
}

/// A validity window is accepted exactly when each bound it has reads as
/// an instant and, when it has both, the start is not after the end; an
/// inverted window is refused as such.
pub proof fn lemma_windows(record_id: Seq<char>, b: Seq<char>, a: Seq<char>, start: (i64, u32), end: (i64, u32))
    requires
        rfc3339_instant(b) == Some(start),
        rfc3339_instant(a) == Some(end),
    ensures
        window_fault(record_id, Some(b), Some(a)) is None <==> (start.0 < end.0 || (start.0 == end.0
            && start.1 <= end.1)),
        window_fault(record_id, Some(b), Some(a)) is Some ==> window_fault(record_id, Some(b), Some(a))
            == Some((5int, "validity.inverted:"@ + record_id)),
        window_fault(record_id, Some(b), None) is None,
        window_fault(record_id, None, Some(a)) is None,
        window_fault(record_id, None, None) is None,
{
}

} // verus!
