//! Typed scopes: parsing, matching a target, and containment between scopes.
use crate::policy::model::{canonical_text, ScopeValue};
use crate::text::{ascii_alnum, chars_eq, chars_of, has_char, has_prefix, has_suffix, is_ascii_alnum, slice_text, take_chars, text_eq};
use vstd::prelude::*;

verus! {

/// The scope types that the resolver knows.
pub open spec fn scope_type(s: Seq<char>) -> bool {
    ||| s == "branch"@
    ||| s == "command"@
    ||| s == "environment"@
    ||| s == "knowledge"@
    ||| s == "path"@
    ||| s == "repository"@
    ||| s == "service"@
}

/// Whether `value` names a known scope type.
pub fn type_known(value: &str) -> (r: bool)
    ensures
        r == scope_type(value@),
{
    text_eq(value, "branch") || text_eq(value, "command") || text_eq(value, "environment")
        || text_eq(value, "knowledge") || text_eq(value, "path") || text_eq(value, "repository")
        || text_eq(value, "service")
}

/// Why a scope text was refused; each carries the offending text.
#[derive(Clone, Debug, PartialEq, Eq)]
pub enum ScopeError {
    Invalid(String),
    UnknownType(String),
}

/// Where `raw` splits at its first colon, if it has one.
pub open spec fn first_colon(raw: Seq<char>) -> int {
    choose|p: int| 0 <= p < raw.len() && raw[p] == ':' && forall|q: int| 0 <= q < p ==> raw[q] != ':'
}

/// Characters a path segment may hold.
pub open spec fn path_char(c: char) -> bool {
    ascii_alnum(c) || c == '.' || c == '_' || c == '+' || c == '@' || c == '*' || c == '-'
}

/// Characters a non-path expression may hold.
pub open spec fn plain_char(c: char) -> bool {
    ascii_alnum(c) || c == '.' || c == '_' || c == '/' || c == '@' || c == '+' || c == '*' || c
        == '-'
}

/// `s` with every backslash turned into a slash.
pub open spec fn slashed(s: Seq<char>) -> Seq<char> {
    Seq::new(s.len(), |i: int| if s[i] == '\\' { '/' } else { s[i] })
}

/// A segment (a maximal run between slashes) starting at `i` is `.` or `..`.
pub open spec fn dot_segment_at(v: Seq<char>, i: int) -> bool {
    &&& 0 <= i < v.len()
    &&& (i == 0 || v[i - 1] == '/')
    &&& v[i] == '.'
    &&& ((i + 1 == v.len() || v[i + 1] == '/') || (i + 1 < v.len() && v[i + 1] == '.' && (i + 2
        == v.len() || v[i + 2] == '/')))
}

/// A relative path of non-empty segments, none `.` or `..`, over the path
/// characters, that neither starts with a slash nor looks like `C:`.
pub open spec fn valid_path(v: Seq<char>) -> bool {
    &&& v.len() > 0
    &&& v[0] != '/'
    &&& !(v.len() >= 2 && v[1] == ':')
    &&& v[v.len() - 1] != '/'
    &&& forall|i: int| 0 <= i < v.len() - 1 ==> !(#[trigger] v[i] == '/' && v[i + 1] == '/')
    &&& forall|i: int| 0 <= i < v.len() ==> (v[i] == '/' || path_char(#[trigger] v[i]))
    &&& forall|i: int| !dot_segment_at(v, i)
}

/// A non-path expression: non-empty, no `**`, over the plain characters, and a
/// `*` only as the whole expression or as a trailing `.*`.
pub open spec fn valid_plain(e: Seq<char>) -> bool {
    &&& e.len() > 0
    &&& forall|i: int| 0 <= i < e.len() - 1 ==> !(#[trigger] e[i] == '*' && e[i + 1] == '*')
    &&& forall|i: int| 0 <= i < e.len() ==> plain_char(#[trigger] e[i])
    &&& (e.contains('*') ==> (e == seq!['*'] || seq!['.', '*'].is_suffix_of(e)))
}

/// The normalized expression of a scope of type `kind`, if it is valid.
pub open spec fn normalized(kind: Seq<char>, e: Seq<char>) -> Option<Seq<char>> {
    if e.len() == 0 {
        None
    } else if kind == "path"@ {
        if valid_path(slashed(e)) {
            Some(slashed(e))
        } else {
            None
        }
    } else if valid_plain(e) {
        Some(e)
    } else {
        None
    }
}

/// What `parse_scope` gives for `raw`: the error and its text, or the
/// scope's type and normalized expression.
pub open spec fn parse_result(raw: Seq<char>) -> Result<(Seq<char>, Seq<char>), (bool, Seq<char>)> {
    if !raw.contains(':') {
        Err((true, raw))
    } else {
        let p = first_colon(raw);
        let kind = raw.subrange(0, p);
        let e = raw.subrange(p + 1, raw.len() as int);
        if !scope_type(kind) {
            Err((false, kind))
        } else {
            match normalized(kind, e) {
                Some(v) => Ok((kind, v)),
                None => Err((true, e)),
            }
        }
    }
}

/// The view of a scope error: whether it is `Invalid`, and its text.
pub open spec fn scope_error_view(e: ScopeError) -> (bool, Seq<char>) {
    match e {
        ScopeError::Invalid(s) => (true, s@),
        ScopeError::UnknownType(s) => (false, s@),
    }
}

fn backslash_to_slash(s: &str, v: &Vec<char>) -> (r: String)
    requires
        v@ == s@,
    ensures
        r@ == slashed(s@),
{
    let mut r = String::new();
    let mut i: usize = 0;
    while i < v.len()
        invariant
            v@ == s@,
            i <= v.len(),
            r@ == slashed(s@).subrange(0, i as int),
        decreases v.len() - i,
    {
        if v[i] == '\\' {
            r.append("/");
            proof {
                reveal_strlit("/");
            }
        } else {
            r.append(s.substring_char(i, i + 1));
        }
        i = i + 1;
        assert(r@ =~= slashed(s@).subrange(0, i as int));
    }
    assert(slashed(s@).subrange(0, v.len() as int) =~= slashed(s@));
    r
}

fn path_valid(v: &Vec<char>) -> (r: bool)
    ensures
        r == valid_path(v@),
{
    let n = v.len();
    if n == 0 || v[0] == '/' || (n >= 2 && v[1] == ':') || v[n - 1] == '/' {
        return false;
    }
    let mut i: usize = 0;
    while i < n
        invariant
            n == v@.len(),
            n > 0,
            i <= n,
            forall|j: int| 0 <= j < i && j < n - 1 ==> !(#[trigger] v@[j] == '/' && v@[j + 1] == '/'),
            forall|j: int| 0 <= j < i ==> (v@[j] == '/' || path_char(#[trigger] v@[j])),
            forall|j: int| 0 <= j < i ==> !dot_segment_at(v@, j),
        decreases n - i,
    {
        let c = v[i];
        if !(c == '/' || is_ascii_alnum(c) || c == '.' || c == '_' || c == '+' || c == '@' || c
            == '*' || c == '-') {
            return false;
        }
        if i + 1 < n && c == '/' && v[i + 1] == '/' {
            return false;
        }
        if (i == 0 || v[i - 1] == '/') && c == '.' {
            if i + 1 == n || v[i + 1] == '/' {
                assert(dot_segment_at(v@, i as int));
                return false;
            }
            if v[i + 1] == '.' && (i + 2 == n || v[i + 2] == '/') {
                assert(dot_segment_at(v@, i as int));
                return false;
            }
        }
        i = i + 1;
    }
    assert forall|j: int| !dot_segment_at(v@, j) by {
        if 0 <= j < n {
        }
    }
    true
}

fn plain_valid(e: &Vec<char>) -> (r: bool)
    ensures
        r == valid_plain(e@),
{
    let n = e.len();
    if n == 0 {
        return false;
    }
    let mut star = false;
    let mut i: usize = 0;
    while i < n
        invariant
            n == e@.len(),
            i <= n,
            forall|j: int| 0 <= j < i && j < n - 1 ==> !(#[trigger] e@[j] == '*' && e@[j + 1] == '*'),
            forall|j: int| 0 <= j < i ==> plain_char(#[trigger] e@[j]),
            star == (exists|j: int| 0 <= j < i && e@[j] == '*'),
        decreases n - i,
    {
        let c = e[i];
        if !(is_ascii_alnum(c) || c == '.' || c == '_' || c == '/' || c == '@' || c == '+' || c
            == '*' || c == '-') {
            return false;
        }
        if i + 1 < n && c == '*' && e[i + 1] == '*' {
            return false;
        }
        if c == '*' {
            star = true;
        }
        i = i + 1;
    }
    if star {
        let only = vec!['*'];
        let dot_star = vec!['.', '*'];
        assert(only@ =~= seq!['*']);
        assert(dot_star@ =~= seq!['.', '*']);
        if !(chars_eq(e, &only) || has_suffix(e, &dot_star)) {
            assert(e@.contains('*'));
            return false;
        }
    } else {
        assert(!e@.contains('*'));
    }
    assert forall|j: int| 0 <= j < e@.len() - 1 implies !(#[trigger] e@[j] == '*' && e@[j + 1] == '*') by {}
    true
}

/// Parses `type:expression`; a path is made relative and slash-separated.
pub fn parse_scope(raw: &str) -> (r: Result<ScopeValue, ScopeError>)
    ensures
        match parse_result(raw@) {
            Ok((k, e)) => r matches Ok(v) && v.kind@ == k && v.expression@ == e,
            Err(x) => r matches Err(err) && scope_error_view(err) == x,
        },
{
    let chars = chars_of(raw);
    let mut p: usize = 0;
    while p < chars.len() && chars[p] != ':'
        invariant
            chars@ == raw@,
            p <= chars.len(),
            forall|q: int| 0 <= q < p ==> chars@[q] != ':',
        decreases chars.len() - p,
    {
        p = p + 1;
    }
    if p == chars.len() {
        return Err(ScopeError::Invalid(String::from_str(raw)));
    }
    proof {
        assert(raw@.contains(':'));
        assert(first_colon(raw@) == p) by {
            let f = first_colon(raw@);
            assert(raw@[p as int] == ':');
            if f < p {
                assert(raw@[f] == ':');
            } else if f > p {
            }
        }
    }
    let kind = slice_text(raw, 0, p);
    let expression = slice_text(raw, p + 1, chars.len());
    if !type_known(kind.as_str()) {
        return Err(ScopeError::UnknownType(kind));
    }
    match normalize(kind.as_str(), expression.as_str()) {
        Ok(value) => Ok(ScopeValue { kind, expression: value }),
        Err(error) => Err(error),
    }
}

/// Normalizes an expression of scope type `kind`.
pub fn normalize(kind: &str, expression: &str) -> (r: Result<String, ScopeError>)
    ensures
        match normalized(kind@, expression@) {
            Some(v) => r matches Ok(s) && s@ == v,
            None => r matches Err(ScopeError::Invalid(s)) && s@ == expression@,
        },
{
    let e = chars_of(expression);
    if e.len() == 0 {
        return Err(ScopeError::Invalid(String::from_str(expression)));
    }
    if text_eq(kind, "path") {
        let value = backslash_to_slash(expression, &e);
        let v = chars_of(value.as_str());
        if !path_valid(&v) {
            return Err(ScopeError::Invalid(String::from_str(expression)));
        }
        return Ok(value);
    }
    if !plain_valid(&e) {
        return Err(ScopeError::Invalid(String::from_str(expression)));
    }
    Ok(String::from_str(expression))
}

/// Whether `constraint` admits `target`: `Some(true)` or `Some(false)` when
/// this is decidable from the two texts, `None` when a wildcard form is
/// beyond what the resolver decides.
pub open spec fn matches_spec(constraint: ScopeValue, target: ScopeValue) -> Option<bool> {
    let e = constraint.expression@;
    let x = target.expression@;
    if constraint.kind@ != target.kind@ {
        Some(false)
    } else if e == seq!['*'] || (constraint.kind@ == "path"@ && e == seq!['*', '*']) {
        Some(true)
    } else if !e.contains('*') {
        Some(e == x)
    } else if constraint.kind@ == "path"@ {
        if seq!['/', '*', '*'].is_suffix_of(e) && !e.subrange(0, e.len() - 3).contains('*') {
            let p = e.subrange(0, e.len() - 3);
            Some(x == p || (p + seq!['/']).is_prefix_of(x))
        } else {
            None
        }
    } else if seq!['.', '*'].is_suffix_of(e) {
        let p = e.subrange(0, e.len() - 2);
        Some(x == p || (p + seq!['.']).is_prefix_of(x))
    } else {
        None
    }
}

/// Whether every target that `inner` admits is admitted by `outer`, when
/// decidable; `None` where the wildcard forms leave it open.
pub open spec fn contains_spec(outer: ScopeValue, inner: ScopeValue) -> Option<bool> {
    let o = outer.expression@;
    let i = inner.expression@;
    if outer.kind@ != inner.kind@ {
        Some(false)
    } else if o == i || o == seq!['*'] || (outer.kind@ == "path"@ && o == seq!['*', '*']) {
        Some(true)
    } else if !i.contains('*') {
        matches_spec(outer, inner)
    } else if outer.kind@ == "path"@ {
        if seq!['/', '*', '*'].is_suffix_of(o) && seq!['/', '*', '*'].is_suffix_of(i) && !o.subrange(
            0,
            o.len() - 3,
        ).contains('*') && !i.subrange(0, i.len() - 3).contains('*') {
            let parent = o.subrange(0, o.len() - 3);
            let child = i.subrange(0, i.len() - 3);
            Some(child == parent || (parent + seq!['/']).is_prefix_of(child))
        } else {
            None
        }
    } else if seq!['.', '*'].is_suffix_of(o) && seq!['.', '*'].is_suffix_of(i) {
        let parent = o.subrange(0, o.len() - 2);
        let child = i.subrange(0, i.len() - 2);
        Some(child == parent || (parent + seq!['.']).is_prefix_of(child))
    } else {
        None
    }
}

/// What a scope admits, by the shape of its expression: nothing of
/// another type; a target with exactly its expression when it has no `*`;
/// everything of its type when it is `*` (or `**` for paths); for a path
/// `p/**` with no other `*`, `p` itself and every path under `p/`; and for
/// another type `p.*` with no other `*`, `p` itself and every name under
/// `p.`.
pub proof fn lemma_scope_matching(constraint: ScopeValue, target: ScopeValue, p: Seq<char>)
    ensures
        constraint.kind@ != target.kind@ ==> matches_spec(constraint, target) == Some(false),
        constraint.kind@ == target.kind@ && (forall|i: int|
            0 <= i < constraint.expression@.len() ==> #[trigger] constraint.expression@[i] != '*')
            ==> matches_spec(constraint, target) == Some(constraint.expression@ == target.expression@),
        constraint.kind@ == target.kind@ && constraint.expression@ == seq!['*'] ==> matches_spec(
            constraint,
            target,
        ) == Some(true),
        constraint.kind@ == target.kind@ && constraint.kind@ == "path"@ && constraint.expression@ == p + seq![
            '/',
            '*',
            '*',
        ] && (forall|i: int| 0 <= i < p.len() ==> #[trigger] p[i] != '*') ==> matches_spec(constraint, target)
            == Some(
            target.expression@ == p || (target.expression@.len() > p.len() && target.expression@.subrange(
                0,
                p.len() as int,
            ) == p && target.expression@[p.len() as int] == '/'),
        ),
        constraint.kind@ == target.kind@ && constraint.kind@ != "path"@ && constraint.expression@ == p + seq![
            '.',
            '*',
        ] && (forall|i: int| 0 <= i < p.len() ==> #[trigger] p[i] != '*') ==> matches_spec(constraint, target)
            == Some(
            target.expression@ == p || (target.expression@.len() > p.len() && target.expression@.subrange(
                0,
                p.len() as int,
            ) == p && target.expression@[p.len() as int] == '.'),
        ),
{
    let e = constraint.expression@;
    let x = target.expression@;
    if forall|i: int| 0 <= i < e.len() ==> #[trigger] e[i] != '*' {
        assert(!e.contains('*')) by {
            if e.contains('*') {
                let i = choose|i: int| 0 <= i < e.len() && e[i] == '*';
                assert(e[i] == '*');
            }
        }
        assert(e != seq!['*']) by {
            if e == seq!['*'] {
                assert(e[0] == '*');
            }
        }
        assert(e != seq!['*', '*']) by {
            if e == seq!['*', '*'] {
                assert(e[0] == '*');
            }
        }
    }
    if e == p + seq!['/', '*', '*'] && (forall|i: int| 0 <= i < p.len() ==> #[trigger] p[i] != '*') {
        assert(e.contains('*')) by {
            assert(e[e.len() - 1] == '*');
        }
        assert(seq!['/', '*', '*'].is_suffix_of(e)) by {
            assert(e.subrange(e.len() - 3, e.len() as int) =~= seq!['/', '*', '*']);
        }
        assert(e.subrange(0, e.len() - 3) =~= p);
        assert(!p.contains('*')) by {
            if p.contains('*') {
                let i = choose|i: int| 0 <= i < p.len() && p[i] == '*';
                assert(p[i] == '*');
            }
        }
        if e == seq!['*', '*'] {
            assert(e.len() == 2);
        }
        if e == seq!['*'] {
            assert(e.len() == 1);
        }
        assert((p + seq!['/']).is_prefix_of(x) <==> (x.len() > p.len() && x.subrange(0, p.len() as int) == p
            && x[p.len() as int] == '/')) by {
            if (p + seq!['/']).is_prefix_of(x) {
                assert(x.subrange(0, p.len() as int) =~= p) by {
                    assert forall|k: int| 0 <= k < p.len() implies x.subrange(0, p.len() as int)[k] == p[k] by {
                        assert((p + seq!['/'])[k] == p[k]);
                    }
                }
                assert((p + seq!['/'])[p.len() as int] == '/');
            }
            if x.len() > p.len() && x.subrange(0, p.len() as int) == p && x[p.len() as int] == '/' {
                assert forall|k: int| 0 <= k < p.len() + 1 implies (p + seq!['/'])[k] == x[k] by {
                    if k < p.len() {
                        assert(x.subrange(0, p.len() as int)[k] == x[k]);
                    }
                }
            }
        }
    }
    if e == p + seq!['.', '*'] && (forall|i: int| 0 <= i < p.len() ==> #[trigger] p[i] != '*') {
        assert(e.contains('*')) by {
            assert(e[e.len() - 1] == '*');
        }
        assert(seq!['.', '*'].is_suffix_of(e)) by {
            assert(e.subrange(e.len() - 2, e.len() as int) =~= seq!['.', '*']);
        }
        assert(e.subrange(0, e.len() - 2) =~= p);
        if e == seq!['*'] {
            assert(e.len() == 1);
        }
        assert((p + seq!['.']).is_prefix_of(x) <==> (x.len() > p.len() && x.subrange(0, p.len() as int) == p
            && x[p.len() as int] == '.')) by {
            if (p + seq!['.']).is_prefix_of(x) {
                assert(x.subrange(0, p.len() as int) =~= p) by {
                    assert forall|k: int| 0 <= k < p.len() implies x.subrange(0, p.len() as int)[k] == p[k] by {
                        assert((p + seq!['.'])[k] == p[k]);
                    }
                }
                assert((p + seq!['.'])[p.len() as int] == '.');
            }
            if x.len() > p.len() && x.subrange(0, p.len() as int) == p && x[p.len() as int] == '.' {
                assert forall|k: int| 0 <= k < p.len() + 1 implies (p + seq!['.'])[k] == x[k] by {
                    if k < p.len() {
                        assert(x.subrange(0, p.len() as int)[k] == x[k]);
                    }
                }
            }
        }
    }
}

/// Containment is conservative: where a scope is decided to contain
/// another, every target the inner scope is decided to admit is admitted by
/// the outer one.
pub proof fn lemma_containment_sound(outer: ScopeValue, inner: ScopeValue, target: ScopeValue)
    requires
        contains_spec(outer, inner) == Some(true),
        matches_spec(inner, target) == Some(true),
    ensures
        matches_spec(outer, target) == Some(true),
{
    let o = outer.expression@;
    let i = inner.expression@;
    let x = target.expression@;
    if o == i {
    } else if o == seq!['*'] || (outer.kind@ == "path"@ && o == seq!['*', '*']) {
    } else if !i.contains('*') {
        assert(i != seq!['*']) by {
            if i == seq!['*'] {
                assert(i[0] == '*');
            }
        }
        assert(i != seq!['*', '*']) by {
            if i == seq!['*', '*'] {
                assert(i[0] == '*');
            }
        }
        assert(x == i);
    } else if outer.kind@ == "path"@ {
        let parent = o.subrange(0, o.len() - 3);
        let child = i.subrange(0, i.len() - 3);
        assert(i != seq!['*']) by {
            if i == seq!['*'] {
                assert(!seq!['/', '*', '*'].is_suffix_of(i));
            }
        }
        assert(i != seq!['*', '*']) by {
            if i == seq!['*', '*'] {
                assert(!seq!['/', '*', '*'].is_suffix_of(i));
            }
        }
        assert(o.contains('*')) by {
            assert(o[o.len() - 1] == '*');
        }
        assert(x == child || (child + seq!['/']).is_prefix_of(x));
        if child != parent {
            assert((parent + seq!['/']).is_prefix_of(child));
            if x == child {
            } else {
                assert forall|q: int| 0 <= q < parent.len() + 1 implies (parent + seq!['/'])[q] == x[q] by {
                    assert((parent + seq!['/'])[q] == child[q]);
                    assert((child + seq!['/'])[q] == child[q]);
                }
                assert((parent + seq!['/']).is_prefix_of(x));
            }
        }
    } else {
        let parent = o.subrange(0, o.len() - 2);
        let child = i.subrange(0, i.len() - 2);
        assert(i != seq!['*']) by {
            if i == seq!['*'] {
                assert(!seq!['.', '*'].is_suffix_of(i));
            }
        }
        assert(o.contains('*')) by {
            assert(o[o.len() - 1] == '*');
        }
        assert(x == child || (child + seq!['.']).is_prefix_of(x));
        if child != parent {
            assert((parent + seq!['.']).is_prefix_of(child));
            if x == child {
            } else {
                assert forall|q: int| 0 <= q < parent.len() + 1 implies (parent + seq!['.'])[q] == x[q] by {
                    assert((parent + seq!['.'])[q] == child[q]);
                    assert((child + seq!['.'])[q] == child[q]);
                }
                assert((parent + seq!['.']).is_prefix_of(x));
            }
        }
    }
}

/// Paths are relative and cannot climb: a path expression that starts with
/// a slash or backslash, that names a drive (`C:`), or that has a `..`
/// segment (between slashes or backslashes, or at either end) is refused.
pub proof fn lemma_paths_cannot_escape(e: Seq<char>, i: int)
    requires
        e.len() > 0,
        ({
            ||| e[0] == '/' || e[0] == '\\'
            ||| e.len() >= 2 && e[1] == ':'
            ||| (0 <= i && i + 1 < e.len() && (i == 0 || e[i - 1] == '/' || e[i - 1] == '\\') && e[i] == '.'
                && e[i + 1] == '.' && (i + 2 == e.len() || e[i + 2] == '/' || e[i + 2] == '\\'))
        }),
    ensures
        normalized("path"@, e) is None,
{
    let v = slashed(e);
    assert(v.len() == e.len());
    if 0 <= i && i + 1 < e.len() && (i == 0 || e[i - 1] == '/' || e[i - 1] == '\\') && e[i] == '.' && e[i
        + 1] == '.' && (i + 2 == e.len() || e[i + 2] == '/' || e[i + 2] == '\\') {
        assert(dot_segment_at(v, i));
    }
    if e[0] == '/' || e[0] == '\\' {
        assert(v[0] == '/');
    }
}

/// A relative path is kept as written when it is non-empty, made only of
/// ASCII letters and digits, `.`, `_`, `+`, `@`, `*`, `-` and `/`, neither
/// starts nor ends with `/`, has no empty segment, and has no segment that
/// is `.` or `..`.
pub proof fn lemma_relative_paths_are_kept(e: Seq<char>)
    requires
        e.len() > 0,
        forall|i: int|
            0 <= i < e.len() ==> ('a' <= #[trigger] e[i] && e[i] <= 'z') || ('A' <= e[i] && e[i] <= 'Z') || ('0'
                <= e[i] && e[i] <= '9') || e[i] == '.' || e[i] == '_' || e[i] == '+' || e[i] == '@' || e[i] == '*'
                || e[i] == '-' || e[i] == '/',
        e[0] != '/',
        e[e.len() - 1] != '/',
        forall|i: int| 0 <= i < e.len() - 1 ==> !(#[trigger] e[i] == '/' && e[i + 1] == '/'),
        forall|i: int|
            0 <= i < e.len() && (i == 0 || e[i - 1] == '/') && #[trigger] e[i] == '.' ==> i + 1 < e.len()
                && e[i + 1] != '/' && (e[i + 1] != '.' || (i + 2 < e.len() && e[i + 2] != '/')),
    ensures
        normalized("path"@, e) == Some(e),
{
    assert(slashed(e) =~= e);
    assert forall|i: int| !dot_segment_at(e, i) by {
        if dot_segment_at(e, i) {
            assert(e[i] == '.');
        }
    }
}

/// The scope types are exactly `branch`, `command`, `environment`,
/// `knowledge`, `path`, `repository` and `service`; a scope of any other
/// type is refused as an unknown type, naming that type.
pub proof fn lemma_scope_types(raw: Seq<char>, p: int)
    requires
        0 <= p < raw.len(),
        raw[p] == ':',
        forall|q: int| 0 <= q < p ==> raw[q] != ':',
    ensures
        scope_type(raw.subrange(0, p)) <==> ({
            let t = raw.subrange(0, p);
            ||| t == "branch"@
            ||| t == "command"@
            ||| t == "environment"@
            ||| t == "knowledge"@
            ||| t == "path"@
            ||| t == "repository"@
            ||| t == "service"@
        }),
        !scope_type(raw.subrange(0, p)) ==> parse_result(raw) == Err::<(Seq<char>, Seq<char>), (bool, Seq<char>)>(
            (false, raw.subrange(0, p)),
        ),
{
    assert(raw.contains(':'));
    let f = first_colon(raw);
    if f < p {
        assert(raw[f] != ':');
    } else if f > p {
        assert(raw[p] != ':');
    }
}

/// A scope of a known type other than `path` keeps any non-empty
/// expression made only of ASCII letters and digits and `.`, `_`, `/`,
/// `@`, `+` and `-`: it is valid as written, and `type:expression` parses
/// to exactly that type and expression.
pub proof fn lemma_plain_expressions_are_kept(kind: Seq<char>, e: Seq<char>)
    requires
        scope_type(kind),
        kind != "path"@,
        e.len() > 0,
        forall|i: int|
            0 <= i < e.len() ==> ('a' <= #[trigger] e[i] && e[i] <= 'z') || ('A' <= e[i] && e[i] <= 'Z') || ('0'
                <= e[i] && e[i] <= '9') || e[i] == '.' || e[i] == '_' || e[i] == '/' || e[i] == '@' || e[i] == '+'
                || e[i] == '-',
    ensures
        normalized(kind, e) == Some(e),
        parse_result(canonical_text(kind, e)) == Ok::<(Seq<char>, Seq<char>), (bool, Seq<char>)>((kind, e)),
{
    assert(!e.contains('*')) by {
        if e.contains('*') {
            let i = choose|i: int| 0 <= i < e.len() && e[i] == '*';
            assert(e[i] == '*');
        }
    }
    assert forall|i: int| 0 <= i < e.len() implies plain_char(#[trigger] e[i]) by {}
    assert forall|i: int| 0 <= i < e.len() - 1 implies !(#[trigger] e[i] == '*' && e[i + 1] == '*') by {}
    assert(valid_plain(e));
    assert(normalized(kind, e) == Some(e));
    let t = canonical_text(kind, e);
    reveal_strlit("branch");
    reveal_strlit("command");
    reveal_strlit("environment");
    reveal_strlit("knowledge");
    reveal_strlit("path");
    reveal_strlit("repository");
    reveal_strlit("service");
    assert(!kind.contains(':'));
    let p = kind.len() as int;
    assert(t[p] == ':');
    assert(t.contains(':'));
    assert(first_colon(t) == p) by {
        let f = first_colon(t);
        assert(forall|q: int| 0 <= q < p ==> t[q] == kind[q]);
        if f < p {
            assert(t[f] == kind[f]);
        } else if f > p {
        }
    }
    assert(t.subrange(0, p) =~= kind);
    assert(t.subrange(p + 1, t.len() as int) =~= e);
}

/// Parsing is idempotent: the canonical text `type:expression` of a parsed
/// scope parses back to the same type and expression. So two parsed scopes
/// with the same canonical text are the same scope.
pub proof fn lemma_canonical_parses_back(raw: Seq<char>)
    requires
        parse_result(raw) is Ok,
    ensures
        parse_result(canonical_text(parse_result(raw)->Ok_0.0, parse_result(raw)->Ok_0.1)) == parse_result(
            raw,
        ),
{
    let k = parse_result(raw)->Ok_0.0;
    let e = parse_result(raw)->Ok_0.1;
    let t = canonical_text(k, e);
    reveal_strlit("branch");
    reveal_strlit("command");
    reveal_strlit("environment");
    reveal_strlit("knowledge");
    reveal_strlit("path");
    reveal_strlit("repository");
    reveal_strlit("service");
    assert(scope_type(k));
    assert(!k.contains(':'));
    let p = k.len() as int;
    assert(t[p] == ':');
    assert(t.contains(':'));
    assert(first_colon(t) == p) by {
        let f = first_colon(t);
        assert(forall|q: int| 0 <= q < p ==> t[q] == k[q]);
        if f < p {
            assert(t[f] == k[f]);
        } else if f > p {
        }
    }
    assert(t.subrange(0, p) =~= k);
    assert(t.subrange(p + 1, t.len() as int) =~= e);
    if k == "path"@ {
        assert(valid_path(e));
        assert(slashed(e) =~= e) by {
            assert forall|i: int| 0 <= i < e.len() implies e[i] != '\\' by {
                assert(e[i] == '/' || path_char(e[i]));
            }
        }
    }
}

/// `q` is `p` or lies under it at separator `sep`.
spec fn at_or_under(p: Seq<char>, q: Seq<char>, sep: char) -> bool {
    q == p || (p + seq![sep]).is_prefix_of(q)
}

proof fn lemma_under_trans(p: Seq<char>, q: Seq<char>, r: Seq<char>, sep: char)
    requires
        at_or_under(p, q, sep),
        at_or_under(q, r, sep),
    ensures
        at_or_under(p, r, sep),
{
    if q != p && r != q {
        assert forall|k: int| 0 <= k < p.len() + 1 implies (p + seq![sep])[k] == r[k] by {
            assert((p + seq![sep])[k] == q[k]);
            assert((q + seq![sep])[k] == q[k]);
        }
    }
}

/// Containment chains: a scope that contains a second one contains every
/// scope the second one contains.
pub proof fn lemma_containment_transitive(a: ScopeValue, b: ScopeValue, c: ScopeValue)
    requires
        contains_spec(a, b) == Some(true),
        contains_spec(b, c) == Some(true),
    ensures
        contains_spec(a, c) == Some(true),
{
    let x = a.expression@;
    let y = b.expression@;
    let z = c.expression@;
    let universal = x == seq!['*'] || (a.kind@ == "path"@ && x == seq!['*', '*']);
    if x == y || universal || y == z {
    } else if !z.contains('*') {
        assert(matches_spec(b, c) == Some(true));
        lemma_containment_sound(a, b, c);
    } else {
        let sp = seq!['/', '*', '*'];
        let sd = seq!['.', '*'];
        if sp.is_suffix_of(y) {
            assert(y[y.len() - 1] == sp[2]);
        }
        if sd.is_suffix_of(y) {
            assert(y[y.len() - 1] == sd[1]);
        }
        if sp.is_suffix_of(x) {
            assert(x[x.len() - 1] == sp[2]);
        }
        if sd.is_suffix_of(x) {
            assert(x[x.len() - 1] == sd[1]);
        }
        assert(y != seq!['*'] && y != seq!['*', '*']) by {
            if y == seq!['*'] || y == seq!['*', '*'] {
                assert(y[0] == '*');
                assert(!sp.is_suffix_of(y));
                assert(!sd.is_suffix_of(y));
            }
        }
        if a.kind@ == "path"@ {
            assert(seq!['/', '*', '*'].is_suffix_of(y));
            assert(seq!['/', '*', '*'].is_suffix_of(z));
            let pa = x.subrange(0, x.len() - 3);
            let pb = y.subrange(0, y.len() - 3);
            let pc = z.subrange(0, z.len() - 3);
            assert(at_or_under(pa, pb, '/'));
            assert(at_or_under(pb, pc, '/'));
            lemma_under_trans(pa, pb, pc, '/');
        } else {
            assert(seq!['.', '*'].is_suffix_of(y));
            assert(seq!['.', '*'].is_suffix_of(z));
            let pa = x.subrange(0, x.len() - 2);
            let pb = y.subrange(0, y.len() - 2);
            let pc = z.subrange(0, z.len() - 2);
            assert(at_or_under(pa, pb, '.'));
            assert(at_or_under(pb, pc, '.'));
            lemma_under_trans(pa, pb, pc, '.');
        }
    }
}

/// Every scope contains itself.
pub proof fn lemma_containment_reflexive(s: ScopeValue)
    ensures
        contains_spec(s, s) == Some(true),
{
}

/// `prefix` followed by `sep` is a prefix of `x`, or `x` is `prefix` itself.
fn under(x: &Vec<char>, prefix: &Vec<char>, sep: char) -> (r: bool)
    ensures
        r == (x@ == prefix@ || (prefix@ + seq![sep]).is_prefix_of(x@)),
{
    if chars_eq(x, prefix) {
        return true;
    }
    let mut p = take_chars(prefix, prefix.len());
    assert(p@ =~= prefix@);
    p.push(sep);
    has_prefix(x, &p)
}

/// Decides whether `constraint` admits `target` (see `matches_spec`).
pub fn scope_matches(constraint: &ScopeValue, target: &ScopeValue) -> (r: Option<bool>)
    ensures
        r == matches_spec(*constraint, *target),
{
    let ck = chars_of(constraint.kind.as_str());
    let tk = chars_of(target.kind.as_str());
    if !chars_eq(&ck, &tk) {
        return Some(false);
    }
    let e = chars_of(constraint.expression.as_str());
    let x = chars_of(target.expression.as_str());
    let is_path = text_eq(constraint.kind.as_str(), "path");
    let star = vec!['*'];
    let double = vec!['*', '*'];
    let tail = vec!['/', '*', '*'];
    let dot_tail = vec!['.', '*'];
    assert(star@ =~= seq!['*']);
    assert(double@ =~= seq!['*', '*']);
    assert(tail@ =~= seq!['/', '*', '*']);
    assert(dot_tail@ =~= seq!['.', '*']);
    if chars_eq(&e, &star) || (is_path && chars_eq(&e, &double)) {
        return Some(true);
    }
    if !has_char(&e, '*') {
        return Some(chars_eq(&e, &x));
    }
    if is_path {
        if has_suffix(&e, &tail) {
            let p = take_chars(&e, e.len() - 3);
            if !has_char(&p, '*') {
                return Some(under(&x, &p, '/'));
            }
        }
        return None;
    }
    if has_suffix(&e, &dot_tail) {
        let p = take_chars(&e, e.len() - 2);
        return Some(under(&x, &p, '.'));
    }
    None
}

/// Decides whether `outer` covers everything `inner` admits (see
/// `contains_spec`).
pub fn scope_contains(outer: &ScopeValue, inner: &ScopeValue) -> (r: Option<bool>)
    ensures
        r == contains_spec(*outer, *inner),
{
    let ok = chars_of(outer.kind.as_str());
    let ik = chars_of(inner.kind.as_str());
    if !chars_eq(&ok, &ik) {
        return Some(false);
    }
    let o = chars_of(outer.expression.as_str());
    let i = chars_of(inner.expression.as_str());
    let is_path = text_eq(outer.kind.as_str(), "path");
    let star = vec!['*'];
    let double = vec!['*', '*'];
    let tail = vec!['/', '*', '*'];
    let dot_tail = vec!['.', '*'];
    assert(star@ =~= seq!['*']);
    assert(double@ =~= seq!['*', '*']);
    assert(tail@ =~= seq!['/', '*', '*']);
    assert(dot_tail@ =~= seq!['.', '*']);
    if chars_eq(&o, &i) || chars_eq(&o, &star) || (is_path && chars_eq(&o, &double)) {
        return Some(true);
    }
    if !has_char(&i, '*') {
        return scope_matches(outer, inner);
    }
    if is_path {
        if has_suffix(&o, &tail) && has_suffix(&i, &tail) {
            let parent = take_chars(&o, o.len() - 3);
            let child = take_chars(&i, i.len() - 3);
            if !has_char(&parent, '*') && !has_char(&child, '*') {
                return Some(under(&child, &parent, '/'));
            }
        }
        return None;
    }
    if has_suffix(&o, &dot_tail) && has_suffix(&i, &dot_tail) {
        let parent = take_chars(&o, o.len() - 2);
        let child = take_chars(&i, i.len() - 2);
        return Some(under(&child, &parent, '.'));
    }
    None
}

/// How one target fares against a scope set: `Some(true)` if its type is in
/// the universe or a same-type constraint admits it, else `None` if a
/// same-type constraint leaves it undecided, else `Some(false)`.
pub open spec fn target_coverage(
    constraints: Seq<ScopeValue>,
    universe: Seq<Seq<char>>,
    target: ScopeValue,
) -> Option<bool> {
    if universe.contains(target.kind@) {
        Some(true)
    } else if exists|i: int|
        0 <= i < constraints.len() && constraints[i].kind@ == target.kind@ && #[trigger] matches_spec(
            constraints[i],
            target,
        ) == Some(true) {
        Some(true)
    } else if exists|i: int|
        0 <= i < constraints.len() && constraints[i].kind@ == target.kind@ && #[trigger] matches_spec(
            constraints[i],
            target,
        ) is None {
        None
    } else {
        Some(false)
    }
}

/// Folds per-item outcomes: any `Some(false)` wins, then any `None`, else
/// `Some(true)`.
pub open spec fn all_covered(outcomes: Seq<Option<bool>>) -> Option<bool> {
    if exists|k: int| 0 <= k < outcomes.len() && outcomes[k] == Some(false) {
        Some(false)
    } else if exists|k: int| 0 <= k < outcomes.len() && outcomes[k] is None {
        None
    } else {
        Some(true)
    }
}

/// A scope set with neither constraints nor universe admits everything;
/// otherwise every target must be covered.
pub open spec fn set_match_spec(
    constraints: Seq<ScopeValue>,
    universe: Seq<Seq<char>>,
    targets: Seq<ScopeValue>,
) -> Option<bool> {
    if constraints.len() == 0 && universe.len() == 0 {
        Some(true)
    } else {
        all_covered(targets.map_values(|t: ScopeValue| target_coverage(constraints, universe, t)))
    }
}

/// Every request target must be covered: once a scope set declares
/// anything, it admits the targets exactly when each target's type is in
/// its universe or some declared scope admits the target; and a target of
/// a type that is neither in the universe nor declared at all is refused.
pub proof fn lemma_every_target_covered(
    constraints: Seq<ScopeValue>,
    universe: Seq<Seq<char>>,
    targets: Seq<ScopeValue>,
)
    requires
        constraints.len() > 0 || universe.len() > 0,
    ensures
        (set_match_spec(constraints, universe, targets) == Some(true)) <==> (forall|k: int|
            0 <= k < targets.len() ==> universe.contains((#[trigger] targets[k]).kind@) || exists|i: int|
                0 <= i < constraints.len() && #[trigger] matches_spec(constraints[i], targets[k]) == Some(true)),
        (exists|k: int|
            0 <= k < targets.len() && !universe.contains((#[trigger] targets[k]).kind@) && forall|i: int|
                0 <= i < constraints.len() ==> (#[trigger] constraints[i]).kind@ != targets[k].kind@)
            ==> set_match_spec(constraints, universe, targets) == Some(false),
{
    let outcomes = targets.map_values(|t: ScopeValue| target_coverage(constraints, universe, t));
    assert forall|k: int| 0 <= k < targets.len() implies (#[trigger] outcomes[k] == Some(true)) == (
    universe.contains(targets[k].kind@) || exists|i: int|
        0 <= i < constraints.len() && #[trigger] matches_spec(constraints[i], targets[k]) == Some(true)) by {
        let t = targets[k];
        if exists|i: int| 0 <= i < constraints.len() && #[trigger] matches_spec(constraints[i], t) == Some(true) {
            let i = choose|i: int| 0 <= i < constraints.len() && #[trigger] matches_spec(constraints[i], t) == Some(true);
            lemma_scope_matching(constraints[i], t, Seq::empty());
            assert(constraints[i].kind@ == t.kind@);
        }
    }
    if forall|k: int|
        0 <= k < targets.len() ==> universe.contains((#[trigger] targets[k]).kind@) || exists|i: int|
            0 <= i < constraints.len() && #[trigger] matches_spec(constraints[i], targets[k]) == Some(true) {
        assert forall|k: int| 0 <= k < outcomes.len() implies #[trigger] outcomes[k] == Some(true) by {
            assert(universe.contains(targets[k].kind@) || exists|i: int|
                0 <= i < constraints.len() && #[trigger] matches_spec(constraints[i], targets[k]) == Some(true));
        }
        assert(!exists|k: int| 0 <= k < outcomes.len() && outcomes[k] == Some(false));
        assert(!exists|k: int| 0 <= k < outcomes.len() && outcomes[k] is None);
    }
    if set_match_spec(constraints, universe, targets) == Some(true) {
        assert forall|k: int| 0 <= k < targets.len() implies universe.contains((#[trigger] targets[k]).kind@)
            || exists|i: int|
            0 <= i < constraints.len() && #[trigger] matches_spec(constraints[i], targets[k]) == Some(true) by {
            if outcomes[k] == Some(false) {
                assert(exists|j: int| 0 <= j < outcomes.len() && outcomes[j] == Some(false));
            }
            if outcomes[k] is None {
                assert(exists|j: int| 0 <= j < outcomes.len() && outcomes[j] is None);
            }
        }
    }
    if exists|k: int|
        0 <= k < targets.len() && !universe.contains((#[trigger] targets[k]).kind@) && forall|i: int|
            0 <= i < constraints.len() ==> (#[trigger] constraints[i]).kind@ != targets[k].kind@ {
        let k = choose|k: int|
            0 <= k < targets.len() && !universe.contains((#[trigger] targets[k]).kind@) && forall|i: int|
                0 <= i < constraints.len() ==> (#[trigger] constraints[i]).kind@ != targets[k].kind@;
        assert(outcomes[k] == Some(false));
    }
}

/// How one inner scope fares against an outer scope set (as
/// `target_coverage`, with containment in place of matching).
pub open spec fn child_coverage(
    outer: Seq<ScopeValue>,
    outer_universe: Seq<Seq<char>>,
    child: ScopeValue,
) -> Option<bool> {
    if outer_universe.contains(child.kind@) {
        Some(true)
    } else if exists|i: int|
        0 <= i < outer.len() && outer[i].kind@ == child.kind@ && #[trigger] contains_spec(
            outer[i],
            child,
        ) == Some(true) {
        Some(true)
    } else if exists|i: int|
        0 <= i < outer.len() && outer[i].kind@ == child.kind@ && #[trigger] contains_spec(
            outer[i],
            child,
        ) is None {
        None
    } else {
        Some(false)
    }
}

/// Whether the inner scope set lies within the outer one: the inner universe
/// must be part of the outer universe, then every inner scope is covered.
pub open spec fn sets_contain_spec(
    outer: Seq<ScopeValue>,
    outer_universe: Seq<Seq<char>>,
    inner: Seq<ScopeValue>,
    inner_universe: Seq<Seq<char>>,
) -> Option<bool> {
    if exists|k: int| 0 <= k < inner_universe.len() && !outer_universe.contains(inner_universe[k]) {
        Some(false)
    } else {
        all_covered(inner.map_values(|c: ScopeValue| child_coverage(outer, outer_universe, c)))
    }
}

fn strings_contain(v: &[String], x: &String) -> (r: bool)
    ensures
        r == v.deep_view().contains(x@),
{
    let mut i: usize = 0;
    while i < v.len()
        invariant
            i <= v.len(),
            forall|j: int| 0 <= j < i ==> v.deep_view()[j] != x@,
        decreases v.len() - i,
    {
        if v[i] == *x {
            assert(v.deep_view()[i as int] == x@);
            return true;
        }
        i = i + 1;
    }
    false
}

fn coverage(constraints: &[ScopeValue], universe: &[String], target: &ScopeValue) -> (r: Option<
    bool,
>)
    ensures
        r == target_coverage(constraints@, universe.deep_view(), *target),
{
    if strings_contain(universe, &target.kind) {
        return Some(true);
    }
    let mut undecided = false;
    let mut i: usize = 0;
    while i < constraints.len()
        invariant
            i <= constraints.len(),
            forall|j: int|
                0 <= j < i && constraints@[j].kind@ == target.kind@ ==> #[trigger] matches_spec(
                    constraints@[j],
                    *target,
                ) != Some(true),
            undecided == exists|j: int|
                0 <= j < i && constraints@[j].kind@ == target.kind@ && #[trigger] matches_spec(
                    constraints@[j],
                    *target,
                ) is None,
        decreases constraints.len() - i,
    {
        if constraints[i].kind == target.kind {
            let m = scope_matches(&constraints[i], target);
            if m == Some(true) {
                return Some(true);
            }
            if m.is_none() {
                undecided = true;
            }
        }
        i = i + 1;
    }
    if undecided {
        None
    } else {
        Some(false)
    }
}

fn containment(outer: &[ScopeValue], outer_universe: &[String], child: &ScopeValue) -> (r: Option<
    bool,
>)
    ensures
        r == child_coverage(outer@, outer_universe.deep_view(), *child),
{
    if strings_contain(outer_universe, &child.kind) {
        return Some(true);
    }
    let mut undecided = false;
    let mut i: usize = 0;
    while i < outer.len()
        invariant
            i <= outer.len(),
            forall|j: int|
                0 <= j < i && outer@[j].kind@ == child.kind@ ==> #[trigger] contains_spec(
                    outer@[j],
                    *child,
                ) != Some(true),
            undecided == exists|j: int|
                0 <= j < i && outer@[j].kind@ == child.kind@ && #[trigger] contains_spec(
                    outer@[j],
                    *child,
                ) is None,
        decreases outer.len() - i,
    {
        if outer[i].kind == child.kind {
            let m = scope_contains(&outer[i], child);
            if m == Some(true) {
                return Some(true);
            }
            if m.is_none() {
                undecided = true;
            }
        }
        i = i + 1;
    }
    if undecided {
        None
    } else {
        Some(false)
    }
}

/// Decides whether every target is covered by the declared scope set (see
/// `set_match_spec`). An omitted scope set leaves a record unconstrained;
/// once either part is declared, every target type must be covered.
pub fn scope_set_match(
    constraints: &[ScopeValue],
    universe: &[String],
    targets: &[ScopeValue],
) -> (r: Option<bool>)
    ensures
        r == set_match_spec(constraints@, universe.deep_view(), targets@),
{
    if constraints.len() == 0 && universe.len() == 0 {
        return Some(true);
    }
    assert(universe.deep_view().len() == universe@.len());
    let ghost outcomes = targets@.map_values(
        |t: ScopeValue| target_coverage(constraints@, universe.deep_view(), t),
    );
    let mut result = Some(true);
    let mut k: usize = 0;
    while k < targets.len()
        invariant
            !(constraints@.len() == 0 && universe.deep_view().len() == 0),
            k <= targets.len(),
            outcomes == targets@.map_values(
                |t: ScopeValue| target_coverage(constraints@, universe.deep_view(), t),
            ),
            forall|j: int| 0 <= j < k ==> outcomes[j] != Some(false),
            result is None <==> exists|j: int| 0 <= j < k && outcomes[j] is None,
            result is Some ==> result == Some(true),
        decreases targets.len() - k,
    {
        let c = coverage(constraints, universe, &targets[k]);
        assert(c == outcomes[k as int]);
        if c == Some(false) {
            assert(outcomes[k as int] == Some(false));
            return Some(false);
        }
        if c.is_none() {
            result = None;
        }
        k = k + 1;
    }
    result
}

/// Decides whether the inner scope set lies within the outer one (see
/// `sets_contain_spec`).
pub fn scopes_contain(
    outer: &[ScopeValue],
    outer_universe: &[String],
    inner: &[ScopeValue],
    inner_universe: &[String],
) -> (r: Option<bool>)
    ensures
        r == sets_contain_spec(
            outer@,
            outer_universe.deep_view(),
            inner@,
            inner_universe.deep_view(),
        ),
{
    let mut u: usize = 0;
    while u < inner_universe.len()
        invariant
            u <= inner_universe.len(),
            forall|j: int|
                0 <= j < u ==> outer_universe.deep_view().contains(
                    #[trigger] inner_universe.deep_view()[j],
                ),
        decreases inner_universe.len() - u,
    {
        if !strings_contain(outer_universe, &inner_universe[u]) {
            assert(inner_universe.deep_view()[u as int] == inner_universe@[u as int]@);
            assert(!outer_universe.deep_view().contains(inner_universe.deep_view()[u as int]));
            return Some(false);
        }
        u = u + 1;
    }
    let ghost outcomes = inner@.map_values(
        |c: ScopeValue| child_coverage(outer@, outer_universe.deep_view(), c),
    );
    let mut result = Some(true);
    let mut k: usize = 0;
    while k < inner.len()
        invariant
            k <= inner.len(),
            outcomes == inner@.map_values(
                |c: ScopeValue| child_coverage(outer@, outer_universe.deep_view(), c),
            ),
            forall|j: int| 0 <= j < k ==> outcomes[j] != Some(false),
            result is None <==> exists|j: int| 0 <= j < k && outcomes[j] is None,
            result is Some ==> result == Some(true),
        decreases inner.len() - k,
    {
        let c = containment(outer, outer_universe, &inner[k]);
        assert(c == outcomes[k as int]);
        if c == Some(false) {
            assert(outcomes[k as int] == Some(false));
            return Some(false);
        }
        if c.is_none() {
            result = None;
        }
        k = k + 1;
    }
    result
}

} // verus!
