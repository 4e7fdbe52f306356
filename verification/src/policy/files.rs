//! Building a policy environment, a policy and a request from the parsed
//! contents of their files. Records are kept in id order, each id once.
use crate::json::JsonValue;
use crate::policy::authority::{find_source, lemma_source_index, source_index};
use crate::policy::load::{
    dotted_name, fault, first_fault, id_fault, invalid, invalid_error, lemma_first_fault_stable, operation_char,
    or_else, reports,
    require_id, valid_operation, well_formed_operation, PolicyLoadError,
};
use crate::policy::validate::{policy_fault, validate_policy};
use crate::policy::model::{
    canonical_text, Assignment, AuthorizationRequest, Condition, ContextEvidence, Delegation, PolicyEnvironment, PolicySet, PolicySource, Principal, Role,
    ScopeValue, Statement,
};
use crate::policy::scope::{parse_result, parse_scope};
use crate::text::{chars_of, lemma_seq_lt_total, lemma_seq_lt_trans, seq_lt, sorted_texts, text_eq, text_lt};
use vstd::prelude::*;

verus! {

/// A record that is filed under a text key, its id.
pub trait Keyed {
    spec fn key_view(&self) -> Seq<char>;

    fn key(&self) -> (r: &str)
        ensures
            r@ == self.key_view(),
    ;
}

impl Keyed for PolicySource {
    open spec fn key_view(&self) -> Seq<char> {
        self.id@
    }

    fn key(&self) -> (r: &str) {
        self.id.as_str()
    }
}

impl Keyed for Principal {
    open spec fn key_view(&self) -> Seq<char> {
        self.id@
    }

    fn key(&self) -> (r: &str) {
        self.id.as_str()
    }
}

impl Keyed for Role {
    open spec fn key_view(&self) -> Seq<char> {
        self.id@
    }

    fn key(&self) -> (r: &str) {
        self.id.as_str()
    }
}

impl Keyed for Statement {
    open spec fn key_view(&self) -> Seq<char> {
        self.id@
    }

    fn key(&self) -> (r: &str) {
        self.id.as_str()
    }
}

impl Keyed for Assignment {
    open spec fn key_view(&self) -> Seq<char> {
        self.id@
    }

    fn key(&self) -> (r: &str) {
        self.id.as_str()
    }
}

impl Keyed for Delegation {
    open spec fn key_view(&self) -> Seq<char> {
        self.id@
    }

    fn key(&self) -> (r: &str) {
        self.id.as_str()
    }
}

/// The keys of `v`, in order.
pub open spec fn keys_of<T: Keyed>(v: Seq<T>) -> Seq<Seq<char>> {
    v.map_values(|x: T| x.key_view())
}

/// Keys strictly increase along `v`, so each key occurs once.
pub open spec fn keyed_sorted<T: Keyed>(v: Seq<T>) -> bool {
    sorted_texts(keys_of(v))
}

/// Files `value` under its key in a list kept in key order; a key that is
/// already present is a `Duplicate` and leaves the list as it was.
pub fn insert<T: Keyed>(map: &mut Vec<T>, value: T) -> (r: Result<(), PolicyLoadError>)
    requires
        keyed_sorted(old(map)@),
    ensures
        keyed_sorted(final(map)@),
        keys_of(old(map)@).contains(value.key_view()) ==> (r matches Err(e) && fault(e) == (
            4int,
            value.key_view(),
        ) && final(map)@ == old(map)@),
        !keys_of(old(map)@).contains(value.key_view()) ==> (r is Ok && exists|p: int|
            0 <= p <= old(map)@.len() && final(map)@ == old(map)@.insert(p, value)),
{
    let ghost old_v = map@;
    let ghost ks = keys_of(old_v);
    let x = chars_of(value.key());
    let mut i: usize = 0;
    while i < map.len() && text_lt(&chars_of(map[i].key()), &x)
        invariant
            map@ == old_v,
            ks == keys_of(old_v),
            sorted_texts(ks),
            x@ == value.key_view(),
            i <= map.len(),
            forall|j: int| 0 <= j < i ==> seq_lt(ks[j], x@),
        decreases map.len() - i,
    {
        i = i + 1;
    }
    if i < map.len() {
        let here = chars_of(map[i].key());
        if !text_lt(&x, &here) {
            proof {
                lemma_seq_lt_total(ks[i as int], x@);
                assert(ks[i as int] == x@);
            }
            return Err(PolicyLoadError::Duplicate(String::from_str(value.key())));
        }
    }
    proof {
        assert(!ks.contains(x@)) by {
            if ks.contains(x@) {
                let k = choose|k: int| 0 <= k < ks.len() && ks[k] == x@;
                if k < i {
                    crate::text::lemma_seq_lt_irreflexive(x@);
                } else {
                    if k > i {
                        lemma_seq_lt_trans(x@, ks[i as int], ks[k]);
                    }
                    crate::text::lemma_seq_lt_irreflexive(x@);
                }
            }
        }
    }
    map.insert(i, value);
    proof {
        let nk = keys_of(map@);
        assert(nk =~= ks.insert(i as int, x@));
        assert forall|a: int, b: int| 0 <= a < b < nk.len() implies seq_lt(
            #[trigger] nk[a],
            #[trigger] nk[b],
        ) by {
            if b < i {
            } else if a < i && b == i {
            } else if a < i && b > i {
                assert(nk[b] == ks[b - 1]);
            } else if a == i {
                if b - 1 > i {
                    assert(seq_lt(ks[i as int], ks[b - 1]));
                    lemma_seq_lt_trans(x@, ks[i as int], ks[b - 1]);
                }
            } else {
                assert(nk[a] == ks[a - 1]);
                assert(nk[b] == ks[b - 1]);
            }
        }
    }
    Ok(())
}

/// Inserting an entry that satisfies `p` into a list whose entries all do
/// keeps every entry satisfying `p`.
pub proof fn lemma_insert_keeps<T>(s: Seq<T>, at: int, x: T, p: spec_fn(T) -> bool)
    requires
        0 <= at <= s.len(),
        forall|k: int| 0 <= k < s.len() ==> p(#[trigger] s[k]),
        p(x),
    ensures
        forall|k: int| 0 <= k < s.insert(at, x).len() ==> p(#[trigger] s.insert(at, x)[k]),
{
    assert forall|k: int| 0 <= k < s.insert(at, x).len() implies p(#[trigger] s.insert(at, x)[k]) by {
        if k < at {
            assert(s.insert(at, x)[k] == s[k]);
        } else if k > at {
            assert(s.insert(at, x)[k] == s[k - 1]);
        }
    }
}

/// `s` with `x` inserted anywhere holds the same entries as `s` and `x`.
pub proof fn lemma_insert_to_set<T>(s: Seq<T>, at: int, x: T)
    requires
        0 <= at <= s.len(),
    ensures
        s.insert(at, x).to_set() == s.to_set().insert(x),
{
    let n = s.insert(at, x);
    assert forall|e: T| n.to_set().contains(e) implies s.to_set().insert(x).contains(e) by {
        let k = choose|k: int| 0 <= k < n.len() && n[k] == e;
        if k < at {
            assert(s[k] == e);
        } else if k > at {
            assert(s[k - 1] == e);
        }
    }
    assert forall|e: T| s.to_set().insert(x).contains(e) implies n.to_set().contains(e) by {
        if e == x {
            assert(n[at] == e);
        } else {
            let k = choose|k: int| 0 <= k < s.len() && s[k] == e;
            if k < at {
                assert(n[k] == e);
            } else {
                assert(n[k + 1] == e);
            }
        }
    }
    assert(n.to_set() =~= s.to_set().insert(x));
}

/// The keys of `s` after inserting `x` are the keys of `s` and the key of `x`.
pub proof fn lemma_insert_keys<T: Keyed>(s: Seq<T>, at: int, x: T)
    requires
        0 <= at <= s.len(),
    ensures
        keys_of(s.insert(at, x)).to_set() == keys_of(s).to_set().insert(x.key_view()),
{
    assert(keys_of(s.insert(at, x)) =~= keys_of(s).insert(at, x.key_view()));
    lemma_insert_to_set(keys_of(s), at, x.key_view());
}

/// The first `i + 1` entries of `s` hold the first `i` and entry `i`.
pub proof fn lemma_take_push_set<T>(s: Seq<T>, i: int)
    requires
        0 <= i < s.len(),
    ensures
        s.take(i + 1).to_set() == s.take(i).to_set().insert(s[i]),
{
    assert(s.take(i + 1) =~= s.take(i).push(s[i]));
    s.take(i).lemma_push_to_set_commute(s[i]);
}

/// A policy source as its environment file gives it, scopes unparsed.
#[derive(Debug)]
pub struct RawSource {
    pub id: String,
    pub kind: String,
    pub locator: String,
    pub trust_mode: String,
    pub record_actions: Vec<String>,
    pub operations: Vec<String>,
    pub scopes: Vec<String>,
    pub scope_universe: Vec<String>,
    pub digest: Option<String>,
}

/// The contents of a policy environment file.
#[derive(Debug)]
pub struct EnvironmentFile {
    pub schema: String,
    pub environment_id: String,
    pub context_providers: Vec<String>,
    pub sources: Vec<RawSource>,
}

/// The schema an environment file must name.
pub open spec fn environment_schema() -> Seq<char> {
    "terminal-policy/environment/v1"@
}

/// The fault of one scope text: `Invalid` (6) or an unknown type (7).
pub open spec fn scope_fault(t: Seq<char>) -> Option<(int, Seq<char>)> {
    match parse_result(t) {
        Ok(_) => None,
        Err((invalid, x)) => Some((if invalid { 6int } else { 7int }, x)),
    }
}

/// The first fault among scope texts.
pub open spec fn scopes_fault(raw: Seq<Seq<char>>) -> Option<(int, Seq<char>)> {
    first_fault(|i: int| scope_fault(raw[i]), raw.len() as int)
}

/// Scopes as `(type, expression)` pairs.
pub open spec fn scope_views(v: Seq<ScopeValue>) -> Seq<(Seq<char>, Seq<char>)> {
    v.map_values(|x: ScopeValue| (x.kind@, x.expression@))
}

/// What each scope text parses to.
pub open spec fn parsed_scopes(raw: Seq<Seq<char>>) -> Seq<(Seq<char>, Seq<char>)> {
    raw.map_values(|t: Seq<char>| parse_result(t)->Ok_0)
}

/// Parses each scope text in turn; the first that fails is the error.
pub fn scopes(raw: &Vec<String>) -> (r: Result<Vec<ScopeValue>, PolicyLoadError>)
    ensures
        reports(r, scopes_fault(raw.deep_view())),
        r matches Ok(v) ==> scope_views(v@) == parsed_scopes(raw.deep_view()),
{
    let ghost f = |i: int| scope_fault(raw.deep_view()[i]);
    let mut out: Vec<ScopeValue> = Vec::new();
    let mut i: usize = 0;
    while i < raw.len()
        invariant
            i <= raw.len(),
            f == |i: int| scope_fault(raw.deep_view()[i]),
            first_fault(f, i as int) is None,
            scope_views(out@) == parsed_scopes(raw.deep_view()).take(i as int),
        decreases raw.len() - i,
    {
        proof {
            if f(i as int) is Some {
                assert(first_fault(f, i + 1) == f(i as int));
                lemma_first_fault_stable(f, i + 1, raw@.len() as int);
            }
        }
        match parse_scope(raw[i].as_str()) {
            Err(e) => {
                return Err(PolicyLoadError::Scope(e));
            },
            Ok(v) => {
                let ghost before = out@;
                out.push(v);
                proof {
                    assert(scope_views(out@) =~= scope_views(before).push(
                        parse_result(raw.deep_view()[i as int])->Ok_0,
                    ));
                    assert(parsed_scopes(raw.deep_view()).take(i + 1) =~= parsed_scopes(
                        raw.deep_view(),
                    ).take(i as int).push(parse_result(raw.deep_view()[i as int])->Ok_0));
                }
            },
        }
        i = i + 1;
    }
    assert(parsed_scopes(raw.deep_view()).take(i as int) =~= parsed_scopes(raw.deep_view()));
    Ok(out)
}

/// `s` is the source built from `raw`: the same fields, scopes parsed.
pub open spec fn source_built(s: PolicySource, raw: RawSource) -> bool {
    &&& s.id == raw.id
    &&& s.kind == raw.kind
    &&& s.locator == raw.locator
    &&& s.trust_mode == raw.trust_mode
    &&& s.record_actions == raw.record_actions
    &&& s.operations == raw.operations
    &&& scope_views(s.scopes@) == parsed_scopes(raw.scopes.deep_view())
    &&& s.scope_universe == raw.scope_universe
    &&& s.digest == raw.digest
}

/// The ids of the raw sources, in file order.
pub open spec fn raw_source_ids(raw: Seq<RawSource>) -> Seq<Seq<char>> {
    raw.map_values(|s: RawSource| s.id@)
}

/// The fault of the `i`-th raw source: a bad scope, or an id used before.
pub open spec fn raw_source_fault(raw: Seq<RawSource>, i: int) -> Option<(int, Seq<char>)> {
    or_else(
        scopes_fault(raw[i].scopes.deep_view()),
        if raw_source_ids(raw).take(i).contains(raw[i].id@) {
            Some((4, raw[i].id@))
        } else {
            None
        },
    )
}

/// The fault of an environment file, if any.
pub open spec fn environment_fault(raw: EnvironmentFile) -> Option<(int, Seq<char>)> {
    if raw.schema@ != environment_schema() {
        Some((3, raw.schema@))
    } else {
        first_fault(|i: int| raw_source_fault(raw.sources@, i), raw.sources@.len() as int)
    }
}

/// The providers a condition may name when the file names none.
pub open spec fn default_providers() -> Set<Seq<char>> {
    set!["branch"@, "environment"@, "project"@, "revocation"@, "time"@]
}

/// `env` is the environment built from `raw`: sources in id order, each
/// built from one raw source, and the context providers named (or the
/// default ones), sorted and each once.
pub open spec fn environment_built(env: PolicyEnvironment, raw: EnvironmentFile) -> bool {
    &&& env.schema == raw.schema
    &&& env.environment_id == raw.environment_id
    &&& keyed_sorted(env.sources@)
    &&& env.sources@.len() == raw.sources@.len()
    &&& keys_of(env.sources@).to_set() == raw_source_ids(raw.sources@).to_set()
    &&& forall|k: int|
        0 <= k < env.sources@.len() ==> exists|i: int|
            0 <= i < raw.sources@.len() && source_built(#[trigger] env.sources@[k], raw.sources@[i])
    &&& sorted_texts(env.context_providers.deep_view())
    &&& env.context_providers.deep_view().to_set() == if raw.context_providers@.len() == 0 {
        default_providers()
    } else {
        raw.context_providers.deep_view().to_set()
    }
}

fn build_source(item: RawSource) -> (r: Result<PolicySource, PolicyLoadError>)
    ensures
        reports(r, scopes_fault(item.scopes.deep_view())),
        r matches Ok(s) ==> source_built(s, item),
{
    let parsed = match scopes(&item.scopes) {
        Err(e) => return Err(e),
        Ok(v) => v,
    };
    Ok(
        PolicySource {
            id: item.id,
            kind: item.kind,
            locator: item.locator,
            trust_mode: item.trust_mode,
            record_actions: item.record_actions,
            operations: item.operations,
            scopes: parsed,
            scope_universe: item.scope_universe,
            digest: item.digest,
        },
    )
}

fn provider_set(raw: Vec<String>) -> (r: Vec<String>)
    ensures
        sorted_texts(r.deep_view()),
        r.deep_view().to_set() == if raw@.len() == 0 {
            default_providers()
        } else {
            raw.deep_view().to_set()
        },
{
    let mut out: Vec<String> = Vec::new();
    assert(out.deep_view().to_set() =~= Set::<Seq<char>>::empty());
    if raw.len() == 0 {
        crate::text::insert_text_sorted(&mut out, String::from_str("branch"));
        crate::text::insert_text_sorted(&mut out, String::from_str("environment"));
        crate::text::insert_text_sorted(&mut out, String::from_str("project"));
        crate::text::insert_text_sorted(&mut out, String::from_str("revocation"));
        crate::text::insert_text_sorted(&mut out, String::from_str("time"));
        assert(out.deep_view().to_set() =~= default_providers());
        return out;
    }
    let mut i: usize = 0;
    while i < raw.len()
        invariant
            i <= raw.len(),
            sorted_texts(out.deep_view()),
            out.deep_view().to_set() == raw.deep_view().take(i as int).to_set(),
        decreases raw.len() - i,
    {
        crate::text::insert_text_sorted(&mut out, raw[i].clone());
        proof {
            lemma_take_push_set(raw.deep_view(), i as int);
        }
        i = i + 1;
    }
    assert(raw.deep_view().take(i as int) =~= raw.deep_view());
    out
}

/// Builds an environment from its file: the schema must be the environment
/// schema, each source's scopes must parse and its id be new.
pub fn load_environment(raw: EnvironmentFile) -> (r: Result<PolicyEnvironment, PolicyLoadError>)
    ensures
        reports(r, environment_fault(raw)),
        r matches Ok(env) ==> environment_built(env, raw),
{
    if !text_eq(raw.schema.as_str(), "terminal-policy/environment/v1") {
        return Err(PolicyLoadError::Schema(raw.schema));
    }
    let ghost orig = raw.sources@;
    let ghost f = |i: int| raw_source_fault(orig, i);
    let ghost whole = raw;
    let EnvironmentFile { schema, environment_id, context_providers, sources: mut items } = raw;
    let n = items.len();
    let mut built: Vec<PolicySource> = Vec::new();
    let mut i: usize = 0;
    assert(environment_fault(whole) == first_fault(f, n as int));
    while i < n
        invariant
            n == orig.len(),
            i <= n,
            environment_fault(whole) == first_fault(f, n as int),
            whole == raw,
            items@ == orig.subrange(i as int, n as int),
            f == |i: int| raw_source_fault(orig, i),
            first_fault(f, i as int) is None,
            keyed_sorted(built@),
            built@.len() == i,
            keys_of(built@).to_set() == raw_source_ids(orig).take(i as int).to_set(),
            forall|k: int|
                0 <= k < built@.len() ==> exists|j: int|
                    0 <= j < n && source_built(#[trigger] built@[k], orig[j]),
        decreases n - i,
    {
        let item = items.remove(0);
        assert(item == orig[i as int]);
        proof {
            if f(i as int) is Some {
                assert(first_fault(f, i + 1) == f(i as int));
                lemma_first_fault_stable(f, i + 1, n as int);
            }
            lemma_take_push_set(raw_source_ids(orig), i as int);
            assert(raw_source_ids(orig)[i as int] == item.id@);
            assert(keys_of(built@).contains(item.id@) == raw_source_ids(orig).take(i as int).contains(
                item.id@,
            )) by {
                if keys_of(built@).contains(item.id@) {
                    assert(keys_of(built@).to_set().contains(item.id@));
                }
                if raw_source_ids(orig).take(i as int).contains(item.id@) {
                    assert(raw_source_ids(orig).take(i as int).to_set().contains(item.id@));
                }
            }
        }
        let source = match build_source(item) {
            Err(e) => return Err(e),
            Ok(s) => s,
        };
        let ghost before = built@;
        let ghost src = source;
        match insert(&mut built, source) {
            Err(e) => return Err(e),
            Ok(_) => {},
        }
        proof {
            let p = choose|p: int| 0 <= p <= before.len() && built@ == before.insert(p, src);
            lemma_insert_keys(before, p, src);
            lemma_insert_keeps(
                before,
                p,
                src,
                |t: PolicySource| exists|j: int| 0 <= j < n && source_built(t, orig[j]),
            );
            assert(items@ =~= orig.subrange(i + 1, n as int));
        }
        i = i + 1;
    }
    assert(raw_source_ids(orig).take(n as int) =~= raw_source_ids(orig));
    let providers = provider_set(context_providers);
    Ok(PolicyEnvironment { schema, environment_id, sources: built, context_providers: providers })
}

/// A record as a records file gives it, before it is filed under its id.
pub trait Filed: Sized {
    type Record: Keyed;

    /// The id the record will be filed under.
    spec fn raw_id(&self) -> Seq<char>;

    /// Why the record cannot be built, if it cannot.
    spec fn build_fault(&self) -> Option<(int, Seq<char>)>;

    /// `r` is the record built from this one, authored by `source`.
    spec fn built_as(&self, r: Self::Record, source: String) -> bool;

    fn build(self, source: &String) -> (r: Result<Self::Record, PolicyLoadError>)
        ensures
            reports(r, self.build_fault()),
            r matches Ok(x) ==> self.built_as(x, *source) && x.key_view() == self.raw_id(),
    ;
}

/// The ids of `items`, in order.
pub open spec fn raw_ids<R: Filed>(items: Seq<R>) -> Seq<Seq<char>> {
    items.map_values(|x: R| x.raw_id())
}

/// The fault of filing `items[i]` after the ids `existing` and the items
/// before it: it cannot be built, or its id is taken.
pub open spec fn filed_fault<R: Filed>(existing: Set<Seq<char>>, items: Seq<R>, i: int) -> Option<
    (int, Seq<char>),
> {
    or_else(
        items[i].build_fault(),
        if existing.contains(items[i].raw_id()) || raw_ids(items).take(i).contains(
            items[i].raw_id(),
        ) {
            Some((4, items[i].raw_id()))
        } else {
            None
        },
    )
}

/// The first fault of filing `items`, in order, after the ids `existing`.
pub open spec fn items_fault<R: Filed>(existing: Set<Seq<char>>, items: Seq<R>) -> Option<
    (int, Seq<char>),
> {
    first_fault(|i: int| filed_fault(existing, items, i), items.len() as int)
}

/// Builds each of `items` in turn and files it in `list`.
pub fn absorb<R: Filed>(list: &mut Vec<R::Record>, items: Vec<R>, source: &String) -> (r: Result<
    (),
    PolicyLoadError,
>)
    requires
        keyed_sorted(old(list)@),
    ensures
        reports(r, items_fault(keys_of(old(list)@).to_set(), items@)),
        r is Ok ==> {
            &&& keyed_sorted(final(list)@)
            &&& final(list)@.len() == old(list)@.len() + items@.len()
            &&& keys_of(final(list)@).to_set() == keys_of(old(list)@).to_set() + raw_ids(
                items@,
            ).to_set()
            &&& forall|k: int|
                0 <= k < final(list)@.len() ==> old(list)@.contains(#[trigger] final(list)@[k])
                    || exists|i: int| 0 <= i < items@.len() && items@[i].built_as(final(list)@[k], *source)
        },
{
    let ghost start = list@;
    let ghost existing = keys_of(start).to_set();
    let ghost orig = items@;
    let ghost f = |i: int| filed_fault(existing, orig, i);
    let mut rest = items;
    let n = rest.len();
    let mut i: usize = 0;
    while i < n
        invariant
            n == orig.len(),
            i <= n,
            orig == items@,
            start == old(list)@,
            rest@ == orig.subrange(i as int, n as int),
            existing == keys_of(start).to_set(),
            f == |i: int| filed_fault(existing, orig, i),
            first_fault(f, i as int) is None,
            keyed_sorted(list@),
            list@.len() == start.len() + i,
            keys_of(list@).to_set() == existing + raw_ids(orig).take(i as int).to_set(),
            forall|k: int|
                0 <= k < list@.len() ==> start.contains(#[trigger] list@[k]) || exists|j: int|
                    0 <= j < n && orig[j].built_as(list@[k], *source),
        decreases n - i,
    {
        let item = rest.remove(0);
        assert(item == orig[i as int]);
        proof {
            if f(i as int) is Some {
                assert(first_fault(f, i + 1) == f(i as int));
                lemma_first_fault_stable(f, i + 1, n as int);
            }
            lemma_take_push_set(raw_ids(orig), i as int);
            assert(raw_ids(orig)[i as int] == item.raw_id());
            assert(keys_of(list@).contains(item.raw_id()) == (existing.contains(item.raw_id())
                || raw_ids(orig).take(i as int).contains(item.raw_id()))) by {
                if keys_of(list@).contains(item.raw_id()) {
                    assert(keys_of(list@).to_set().contains(item.raw_id()));
                }
                if raw_ids(orig).take(i as int).contains(item.raw_id()) {
                    assert(raw_ids(orig).take(i as int).to_set().contains(item.raw_id()));
                    assert(keys_of(list@).to_set().contains(item.raw_id()));
                }
                if existing.contains(item.raw_id()) {
                    assert(keys_of(list@).to_set().contains(item.raw_id()));
                }
            }
        }
        let ghost raw_item = item;
        let record = match item.build(source) {
            Err(e) => return Err(e),
            Ok(x) => x,
        };
        let ghost before = list@;
        let ghost rec = record;
        match insert(list, record) {
            Err(e) => return Err(e),
            Ok(_) => {},
        }
        proof {
            let p = choose|p: int| 0 <= p <= before.len() && list@ == before.insert(p, rec);
            lemma_insert_keys(before, p, rec);
            assert(keys_of(list@).to_set() =~= existing + raw_ids(orig).take(i + 1).to_set());
            lemma_insert_keeps(
                before,
                p,
                rec,
                |t: R::Record| start.contains(t) || exists|j: int| 0 <= j < n && orig[j].built_as(t, *source),
            );
            assert(raw_item.built_as(rec, *source));
            assert(rest@ =~= orig.subrange(i + 1, n as int));
        }
        i = i + 1;
    }
    assert(raw_ids(orig).take(n as int) =~= raw_ids(orig));
    Ok(())
}

/// A principal as a records file gives it; its other fields, in key order,
/// are its metadata.
#[derive(Debug)]
pub struct RawPrincipal {
    pub id: String,
    pub metadata: Vec<(String, JsonValue)>,
}

/// A role as a records file gives it.
#[derive(Debug)]
pub struct RawRole {
    pub id: String,
    pub inherits: Vec<String>,
}

/// A statement as a records file gives it, scopes unparsed.
#[derive(Debug)]
pub struct RawStatement {
    pub id: String,
    pub role: String,
    pub effect: String,
    pub operations: Vec<String>,
    pub scopes: Vec<String>,
    pub conditions: Vec<Condition>,
    pub not_before: Option<String>,
    pub not_after: Option<String>,
    pub revoked: bool,
}

/// An assignment as a records file gives it, scopes unparsed.
#[derive(Debug)]
pub struct RawAssignment {
    pub id: String,
    pub principal: String,
    pub roles: Vec<String>,
    pub operations: Vec<String>,
    pub scopes: Vec<String>,
    pub conditions: Vec<Condition>,
    pub not_before: Option<String>,
    pub not_after: Option<String>,
    pub revoked: bool,
}

/// A delegation as a records file gives it, scopes unparsed.
#[derive(Debug)]
pub struct RawDelegation {
    pub id: String,
    pub issuer: String,
    pub recipient: String,
    pub record_actions: Vec<String>,
    pub principals: Vec<String>,
    pub roles: Vec<String>,
    pub operations: Vec<String>,
    pub scopes: Vec<String>,
    pub scope_universe: Vec<String>,
    pub conditions: Vec<Condition>,
    pub redelegation: bool,
    pub max_depth: u32,
    pub not_before: Option<String>,
    pub not_after: Option<String>,
    pub revoked: bool,
}

/// The contents of one records file: the source that authored them and
/// its records of each kind.
#[derive(Debug)]
pub struct RecordsFile {
    pub schema: String,
    pub source: String,
    pub principals: Vec<RawPrincipal>,
    pub roles: Vec<RawRole>,
    pub statements: Vec<RawStatement>,
    pub assignments: Vec<RawAssignment>,
    pub delegations: Vec<RawDelegation>,
}

impl Filed for RawPrincipal {
    type Record = Principal;

    open spec fn raw_id(&self) -> Seq<char> {
        self.id@
    }

    open spec fn build_fault(&self) -> Option<(int, Seq<char>)> {
        None
    }

    open spec fn built_as(&self, r: Principal, source: String) -> bool {
        r.id == self.id && r.source == source && r.metadata == self.metadata
    }

    fn build(self, source: &String) -> (r: Result<Principal, PolicyLoadError>) {
        Ok(Principal { id: self.id, source: source.clone(), metadata: self.metadata })
    }
}

impl Filed for RawRole {
    type Record = Role;

    open spec fn raw_id(&self) -> Seq<char> {
        self.id@
    }

    open spec fn build_fault(&self) -> Option<(int, Seq<char>)> {
        None
    }

    open spec fn built_as(&self, r: Role, source: String) -> bool {
        r.id == self.id && r.source == source && r.inherits == self.inherits
    }

    fn build(self, source: &String) -> (r: Result<Role, PolicyLoadError>) {
        Ok(Role { id: self.id, source: source.clone(), inherits: self.inherits })
    }
}

impl Filed for RawStatement {
    type Record = Statement;

    open spec fn raw_id(&self) -> Seq<char> {
        self.id@
    }

    open spec fn build_fault(&self) -> Option<(int, Seq<char>)> {
        scopes_fault(self.scopes.deep_view())
    }

    open spec fn built_as(&self, r: Statement, source: String) -> bool {
        &&& r.id == self.id
        &&& r.source == source
        &&& r.role == self.role
        &&& r.effect == self.effect
        &&& r.operations == self.operations
        &&& scope_views(r.scopes@) == parsed_scopes(self.scopes.deep_view())
        &&& r.conditions == self.conditions
        &&& r.not_before == self.not_before
        &&& r.not_after == self.not_after
        &&& r.revoked == self.revoked
    }

    fn build(self, source: &String) -> (r: Result<Statement, PolicyLoadError>) {
        let parsed = match scopes(&self.scopes) {
            Err(e) => return Err(e),
            Ok(v) => v,
        };
        Ok(
            Statement {
                id: self.id,
                source: source.clone(),
                role: self.role,
                effect: self.effect,
                operations: self.operations,
                scopes: parsed,
                conditions: self.conditions,
                not_before: self.not_before,
                not_after: self.not_after,
                revoked: self.revoked,
            },
        )
    }
}

impl Filed for RawAssignment {
    type Record = Assignment;

    open spec fn raw_id(&self) -> Seq<char> {
        self.id@
    }

    open spec fn build_fault(&self) -> Option<(int, Seq<char>)> {
        scopes_fault(self.scopes.deep_view())
    }

    open spec fn built_as(&self, r: Assignment, source: String) -> bool {
        &&& r.id == self.id
        &&& r.source == source
        &&& r.principal == self.principal
        &&& r.roles == self.roles
        &&& r.operations == self.operations
        &&& scope_views(r.scopes@) == parsed_scopes(self.scopes.deep_view())
        &&& r.conditions == self.conditions
        &&& r.not_before == self.not_before
        &&& r.not_after == self.not_after
        &&& r.revoked == self.revoked
    }

    fn build(self, source: &String) -> (r: Result<Assignment, PolicyLoadError>) {
        let parsed = match scopes(&self.scopes) {
            Err(e) => return Err(e),
            Ok(v) => v,
        };
        Ok(
            Assignment {
                id: self.id,
                source: source.clone(),
                principal: self.principal,
                roles: self.roles,
                operations: self.operations,
                scopes: parsed,
                conditions: self.conditions,
                not_before: self.not_before,
                not_after: self.not_after,
                revoked: self.revoked,
            },
        )
    }
}

impl Filed for RawDelegation {
    type Record = Delegation;

    open spec fn raw_id(&self) -> Seq<char> {
        self.id@
    }

    open spec fn build_fault(&self) -> Option<(int, Seq<char>)> {
        scopes_fault(self.scopes.deep_view())
    }

    open spec fn built_as(&self, r: Delegation, source: String) -> bool {
        &&& r.id == self.id
        &&& r.source == source
        &&& r.issuer == self.issuer
        &&& r.recipient == self.recipient
        &&& r.record_actions == self.record_actions
        &&& r.principals == self.principals
        &&& r.roles == self.roles
        &&& r.operations == self.operations
        &&& scope_views(r.scopes@) == parsed_scopes(self.scopes.deep_view())
        &&& r.scope_universe == self.scope_universe
        &&& r.conditions == self.conditions
        &&& r.redelegation == self.redelegation
        &&& r.max_depth == self.max_depth
        &&& r.not_before == self.not_before
        &&& r.not_after == self.not_after
        &&& r.revoked == self.revoked
    }

    fn build(self, source: &String) -> (r: Result<Delegation, PolicyLoadError>) {
        let parsed = match scopes(&self.scopes) {
            Err(e) => return Err(e),
            Ok(v) => v,
        };
        Ok(
            Delegation {
                id: self.id,
                source: source.clone(),
                issuer: self.issuer,
                recipient: self.recipient,
                record_actions: self.record_actions,
                principals: self.principals,
                roles: self.roles,
                operations: self.operations,
                scopes: parsed,
                scope_universe: self.scope_universe,
                conditions: self.conditions,
                redelegation: self.redelegation,
                max_depth: self.max_depth,
                not_before: self.not_before,
                not_after: self.not_after,
                revoked: self.revoked,
            },
        )
    }
}

/// The schema a records file must name.
pub open spec fn records_schema() -> Seq<char> {
    "terminal-policy/records/v1"@
}

/// The ids of groups of items, group after group.
pub open spec fn group_ids<R: Filed>(groups: Seq<Seq<R>>) -> Seq<Seq<char>>
    decreases groups.len(),
{
    if groups.len() == 0 {
        Seq::empty()
    } else {
        group_ids(groups.drop_last()) + raw_ids(groups.last())
    }
}

/// `list` holds the records built from the groups of items, the `g`-th
/// group authored by `sources[g]`: in id order, one record per item.
pub open spec fn filed_from<R: Filed>(list: Seq<R::Record>, groups: Seq<Seq<R>>, sources: Seq<String>) -> bool {
    &&& keyed_sorted(list)
    &&& list.len() == group_ids(groups).len()
    &&& keys_of(list).to_set() == group_ids(groups).to_set()
    &&& forall|k: int| 0 <= k < list.len() ==> built_in_groups(#[trigger] list[k], groups, sources)
}

/// `r` was built from some item of the groups.
pub open spec fn built_in_groups<R: Filed>(r: R::Record, groups: Seq<Seq<R>>, sources: Seq<String>) -> bool {
    exists|g: int, i: int|
        0 <= g < groups.len() && 0 <= i < groups[g].len() && groups[g][i].built_as(r, sources[g])
}

/// The sources that authored each file.
pub open spec fn file_sources(files: Seq<RecordsFile>) -> Seq<String> {
    files.map_values(|f: RecordsFile| f.source)
}

/// The principals of each file.
pub open spec fn principal_groups(files: Seq<RecordsFile>) -> Seq<Seq<RawPrincipal>> {
    files.map_values(|f: RecordsFile| f.principals@)
}

/// The roles of each file.
pub open spec fn role_groups(files: Seq<RecordsFile>) -> Seq<Seq<RawRole>> {
    files.map_values(|f: RecordsFile| f.roles@)
}

/// The statements of each file.
pub open spec fn statement_groups(files: Seq<RecordsFile>) -> Seq<Seq<RawStatement>> {
    files.map_values(|f: RecordsFile| f.statements@)
}

/// The assignments of each file.
pub open spec fn assignment_groups(files: Seq<RecordsFile>) -> Seq<Seq<RawAssignment>> {
    files.map_values(|f: RecordsFile| f.assignments@)
}

/// The delegations of each file.
pub open spec fn delegation_groups(files: Seq<RecordsFile>) -> Seq<Seq<RawDelegation>> {
    files.map_values(|f: RecordsFile| f.delegations@)
}

/// The fault of the `g`-th records file, after the files before it: a
/// wrong schema, a source the environment does not declare, or a record of
/// it that cannot be built or whose id its kind already holds.
#[verifier::opaque]
pub open spec fn file_fault(env: EnvironmentFile, files: Seq<RecordsFile>, g: int) -> Option<
    (int, Seq<char>),
> {
    let file = files[g];
    if file.schema@ != records_schema() {
        Some((3, file.schema@))
    } else if !raw_source_ids(env.sources@).contains(file.source@) {
        Some((5, "unknown source: "@ + file.source@))
    } else {
        or_else(
            items_fault(group_ids(principal_groups(files).take(g)).to_set(), file.principals@),
            or_else(
                items_fault(group_ids(role_groups(files).take(g)).to_set(), file.roles@),
                or_else(
                    items_fault(group_ids(statement_groups(files).take(g)).to_set(), file.statements@),
                    or_else(
                        items_fault(
                            group_ids(assignment_groups(files).take(g)).to_set(),
                            file.assignments@,
                        ),
                        items_fault(
                            group_ids(delegation_groups(files).take(g)).to_set(),
                            file.delegations@,
                        ),
                    ),
                ),
            ),
        )
    }
}

/// The first fault among the records files.
pub open spec fn records_fault(env: EnvironmentFile, files: Seq<RecordsFile>) -> Option<
    (int, Seq<char>),
> {
    first_fault(|g: int| file_fault(env, files, g), files.len() as int)
}

/// `p` is the policy built from an environment file and records files.
pub open spec fn policy_built(p: PolicySet, env: EnvironmentFile, files: Seq<RecordsFile>) -> bool {
    &&& environment_built(p.environment, env)
    &&& filed_from(p.principals@, principal_groups(files), file_sources(files))
    &&& filed_from(p.roles@, role_groups(files), file_sources(files))
    &&& filed_from(p.statements@, statement_groups(files), file_sources(files))
    &&& filed_from(p.assignments@, assignment_groups(files), file_sources(files))
    &&& filed_from(p.delegations@, delegation_groups(files), file_sources(files))
    &&& p.diagnostics@.len() == 0
}

proof fn lemma_concat_to_set<A>(a: Seq<A>, b: Seq<A>)
    ensures
        (a + b).to_set() == a.to_set() + b.to_set(),
{
    assert forall|e: A| (a + b).to_set().contains(e) implies (a.to_set() + b.to_set()).contains(e) by {
        let k = choose|k: int| 0 <= k < (a + b).len() && (a + b)[k] == e;
        if k < a.len() {
            assert(a[k] == e);
        } else {
            assert(b[k - a.len()] == e);
        }
    }
    assert forall|e: A| (a.to_set() + b.to_set()).contains(e) implies (a + b).to_set().contains(e) by {
        if a.to_set().contains(e) {
            let k = choose|k: int| 0 <= k < a.len() && a[k] == e;
            assert((a + b)[k] == e);
        } else {
            let k = choose|k: int| 0 <= k < b.len() && b[k] == e;
            assert((a + b)[a.len() + k] == e);
        }
    }
    assert((a + b).to_set() =~= a.to_set() + b.to_set());
}

/// Filing one more group extends a list filed from the groups before it.
proof fn lemma_filed_step<R: Filed>(
    old_list: Seq<R::Record>,
    new_list: Seq<R::Record>,
    groups: Seq<Seq<R>>,
    sources: Seq<String>,
    g: int,
)
    requires
        0 <= g < groups.len(),
        groups.len() == sources.len(),
        filed_from(old_list, groups.take(g), sources.take(g)),
        keyed_sorted(new_list),
        new_list.len() == old_list.len() + groups[g].len(),
        keys_of(new_list).to_set() == keys_of(old_list).to_set() + raw_ids(groups[g]).to_set(),
        forall|k: int|
            0 <= k < new_list.len() ==> old_list.contains(#[trigger] new_list[k]) || exists|i: int|
                0 <= i < groups[g].len() && groups[g][i].built_as(new_list[k], sources[g]),
    ensures
        filed_from(new_list, groups.take(g + 1), sources.take(g + 1)),
{
    let before = groups.take(g);
    let after = groups.take(g + 1);
    assert(after.drop_last() =~= before);
    assert(after.last() == groups[g]);
    assert(group_ids(after) == group_ids(before) + raw_ids(groups[g]));
    lemma_concat_to_set(group_ids(before), raw_ids(groups[g]));
    assert(raw_ids(groups[g]).len() == groups[g].len());
    assert(new_list.len() == group_ids(after).len());
    assert(keys_of(new_list).to_set() == group_ids(after).to_set());
    assert forall|k: int| 0 <= k < new_list.len() implies built_in_groups(
        #[trigger] new_list[k],
        after,
        sources.take(g + 1),
    ) by {
        if old_list.contains(new_list[k]) {
            let j = choose|j: int| 0 <= j < old_list.len() && old_list[j] == new_list[k];
            assert(built_in_groups(old_list[j], before, sources.take(g)));
            let (h, i) = choose|h: int, i: int|
                0 <= h < before.len() && 0 <= i < before[h].len() && before[h][i].built_as(
                    old_list[j],
                    sources.take(g)[h],
                );
            assert(after[h] == before[h]);
            assert(sources.take(g + 1)[h] == sources.take(g)[h]);
            assert(after[h][i].built_as(new_list[k], sources.take(g + 1)[h]));
        } else {
            let i = choose|i: int|
                0 <= i < groups[g].len() && groups[g][i].built_as(new_list[k], sources[g]);
            assert(after[g] == groups[g]);
            assert(sources.take(g + 1)[g] == sources[g]);
            assert(after[g][i].built_as(new_list[k], sources.take(g + 1)[g]));
        }
    }
}

/// `new` is `old` with `items`, authored by `source`, filed in it.
pub open spec fn absorbed<R: Filed>(old: Seq<R::Record>, new: Seq<R::Record>, items: Seq<R>, source: String) -> bool {
    &&& keyed_sorted(new)
    &&& new.len() == old.len() + items.len()
    &&& keys_of(new).to_set() == keys_of(old).to_set() + raw_ids(items).to_set()
    &&& forall|k: int|
        0 <= k < new.len() ==> old.contains(#[trigger] new[k]) || exists|i: int|
            0 <= i < items.len() && items[i].built_as(new[k], source)
}

/// The fault of filing one records file into the policy `p` built so far.
#[verifier::opaque]
pub open spec fn absorb_fault(p: PolicySet, file: RecordsFile) -> Option<(int, Seq<char>)> {
    if file.schema@ != records_schema() {
        Some((3, file.schema@))
    } else if !keys_of(p.environment.sources@).contains(file.source@) {
        Some((5, "unknown source: "@ + file.source@))
    } else {
        or_else(
            items_fault(keys_of(p.principals@).to_set(), file.principals@),
            or_else(
                items_fault(keys_of(p.roles@).to_set(), file.roles@),
                or_else(
                    items_fault(keys_of(p.statements@).to_set(), file.statements@),
                    or_else(
                        items_fault(keys_of(p.assignments@).to_set(), file.assignments@),
                        items_fault(keys_of(p.delegations@).to_set(), file.delegations@),
                    ),
                ),
            ),
        )
    }
}

/// `after` is `before` with every record of `file` filed in it.
pub open spec fn absorbed_file(before: PolicySet, after: PolicySet, file: RecordsFile) -> bool {
    &&& after.environment == before.environment
    &&& after.diagnostics == before.diagnostics
    &&& absorbed(before.principals@, after.principals@, file.principals@, file.source)
    &&& absorbed(before.roles@, after.roles@, file.roles@, file.source)
    &&& absorbed(before.statements@, after.statements@, file.statements@, file.source)
    &&& absorbed(before.assignments@, after.assignments@, file.assignments@, file.source)
    &&& absorbed(before.delegations@, after.delegations@, file.delegations@, file.source)
}

fn absorb_file(policy: &mut PolicySet, file: RecordsFile) -> (r: Result<(), PolicyLoadError>)
    requires
        keyed_sorted(old(policy).principals@),
        keyed_sorted(old(policy).roles@),
        keyed_sorted(old(policy).statements@),
        keyed_sorted(old(policy).assignments@),
        keyed_sorted(old(policy).delegations@),
    ensures
        reports(r, absorb_fault(*old(policy), file)),
        r is Ok ==> absorbed_file(*old(policy), *final(policy), file),
{
    reveal(absorb_fault);
    if !text_eq(file.schema.as_str(), "terminal-policy/records/v1") {
        return Err(PolicyLoadError::Schema(file.schema));
    }
    proof {
        lemma_source_index(policy.environment.sources@, file.source@);
        if keys_of(policy.environment.sources@).contains(file.source@) {
            let k = choose|k: int|
                0 <= k < keys_of(policy.environment.sources@).len() && keys_of(
                    policy.environment.sources@,
                )[k] == file.source@;
            assert(policy.environment.sources@[k].id@ == file.source@);
        }
    }
    if find_source(&policy.environment.sources, file.source.as_str()).is_none() {
        proof {
            assert(!keys_of(policy.environment.sources@).contains(file.source@));
        }
        return Err(
            crate::policy::load::invalid_error(
                crate::text::concat2("unknown source: ", file.source.as_str()),
            ),
        );
    }
    proof {
        let k = source_index(policy.environment.sources@, file.source@)->0;
        assert(keys_of(policy.environment.sources@)[k] == file.source@);
    }
    let RecordsFile { schema, source, principals, roles, statements, assignments, delegations } = file;
    match absorb(&mut policy.principals, principals, &source) {
        Err(e) => return Err(e),
        Ok(_) => {},
    }
    match absorb(&mut policy.roles, roles, &source) {
        Err(e) => return Err(e),
        Ok(_) => {},
    }
    match absorb(&mut policy.statements, statements, &source) {
        Err(e) => return Err(e),
        Ok(_) => {},
    }
    match absorb(&mut policy.assignments, assignments, &source) {
        Err(e) => return Err(e),
        Ok(_) => {},
    }
    absorb(&mut policy.delegations, delegations, &source)
}

/// `p` holds the environment built from `env` and the records of the first
/// `g` files.
#[verifier::opaque]
pub open spec fn assembled_upto(p: PolicySet, env: EnvironmentFile, files: Seq<RecordsFile>, g: int) -> bool {
    &&& 0 <= g <= files.len()
    &&& environment_built(p.environment, env)
    &&& p.diagnostics@.len() == 0
    &&& filed_from(p.principals@, principal_groups(files).take(g), file_sources(files).take(g))
    &&& filed_from(p.roles@, role_groups(files).take(g), file_sources(files).take(g))
    &&& filed_from(p.statements@, statement_groups(files).take(g), file_sources(files).take(g))
    &&& filed_from(p.assignments@, assignment_groups(files).take(g), file_sources(files).take(g))
    &&& filed_from(p.delegations@, delegation_groups(files).take(g), file_sources(files).take(g))
}

proof fn lemma_assembled_start(p: PolicySet, env: EnvironmentFile, files: Seq<RecordsFile>)
    requires
        environment_built(p.environment, env),
        p.diagnostics@.len() == 0,
        p.principals@.len() == 0,
        p.roles@.len() == 0,
        p.statements@.len() == 0,
        p.assignments@.len() == 0,
        p.delegations@.len() == 0,
    ensures
        assembled_upto(p, env, files, 0),
{
    reveal(assembled_upto);
    assert(principal_groups(files).take(0) =~= Seq::empty());
    assert(keys_of(p.principals@).to_set() =~= group_ids(principal_groups(files).take(0)).to_set());
    assert(role_groups(files).take(0) =~= Seq::empty());
    assert(keys_of(p.roles@).to_set() =~= group_ids(role_groups(files).take(0)).to_set());
    assert(statement_groups(files).take(0) =~= Seq::empty());
    assert(keys_of(p.statements@).to_set() =~= group_ids(statement_groups(files).take(0)).to_set());
    assert(assignment_groups(files).take(0) =~= Seq::empty());
    assert(keys_of(p.assignments@).to_set() =~= group_ids(assignment_groups(files).take(0)).to_set());
    assert(delegation_groups(files).take(0) =~= Seq::empty());
    assert(keys_of(p.delegations@).to_set() =~= group_ids(delegation_groups(files).take(0)).to_set());
    assert(file_sources(files).take(0) =~= Seq::empty());
}

proof fn lemma_assembled_fault(p: PolicySet, env: EnvironmentFile, files: Seq<RecordsFile>, g: int)
    requires
        assembled_upto(p, env, files, g),
        g < files.len(),
    ensures
        absorb_fault(p, files[g]) == file_fault(env, files, g),
        keyed_sorted(p.principals@),
        keyed_sorted(p.roles@),
        keyed_sorted(p.statements@),
        keyed_sorted(p.assignments@),
        keyed_sorted(p.delegations@),
{
    reveal(assembled_upto);
    reveal(file_fault);
    reveal(absorb_fault);
    assert(files[g].principals@ == principal_groups(files)[g]);
    assert(keys_of(p.principals@).to_set() == group_ids(principal_groups(files).take(g)).to_set());
    assert(files[g].roles@ == role_groups(files)[g]);
    assert(keys_of(p.roles@).to_set() == group_ids(role_groups(files).take(g)).to_set());
    assert(files[g].statements@ == statement_groups(files)[g]);
    assert(keys_of(p.statements@).to_set() == group_ids(statement_groups(files).take(g)).to_set());
    assert(files[g].assignments@ == assignment_groups(files)[g]);
    assert(keys_of(p.assignments@).to_set() == group_ids(assignment_groups(files).take(g)).to_set());
    assert(files[g].delegations@ == delegation_groups(files)[g]);
    assert(keys_of(p.delegations@).to_set() == group_ids(delegation_groups(files).take(g)).to_set());
    let src = files[g].source@;
    assert(keys_of(p.environment.sources@).contains(src) == raw_source_ids(env.sources@).contains(src)) by {
        if keys_of(p.environment.sources@).contains(src) {
            assert(keys_of(p.environment.sources@).to_set().contains(src));
        }
        if raw_source_ids(env.sources@).contains(src) {
            assert(raw_source_ids(env.sources@).to_set().contains(src));
        }
    }
}

proof fn lemma_assembled_step(
    before: PolicySet,
    after: PolicySet,
    env: EnvironmentFile,
    files: Seq<RecordsFile>,
    g: int,
)
    requires
        assembled_upto(before, env, files, g),
        g < files.len(),
        absorbed_file(before, after, files[g]),
    ensures
        assembled_upto(after, env, files, g + 1),
{
    reveal(assembled_upto);
    assert(files[g].principals@ == principal_groups(files)[g]);
    assert(keys_of(before.principals@).to_set() == group_ids(principal_groups(files).take(g)).to_set());
    assert(files[g].roles@ == role_groups(files)[g]);
    assert(keys_of(before.roles@).to_set() == group_ids(role_groups(files).take(g)).to_set());
    assert(files[g].statements@ == statement_groups(files)[g]);
    assert(keys_of(before.statements@).to_set() == group_ids(statement_groups(files).take(g)).to_set());
    assert(files[g].assignments@ == assignment_groups(files)[g]);
    assert(keys_of(before.assignments@).to_set() == group_ids(assignment_groups(files).take(g)).to_set());
    assert(files[g].delegations@ == delegation_groups(files)[g]);
    assert(keys_of(before.delegations@).to_set() == group_ids(delegation_groups(files).take(g)).to_set());
    assert(file_sources(files)[g] == files[g].source);
    lemma_filed_step(before.principals@, after.principals@, principal_groups(files), file_sources(files), g);
    lemma_filed_step(before.roles@, after.roles@, role_groups(files), file_sources(files), g);
    lemma_filed_step(before.statements@, after.statements@, statement_groups(files), file_sources(files), g);
    lemma_filed_step(before.assignments@, after.assignments@, assignment_groups(files), file_sources(files), g);
    lemma_filed_step(before.delegations@, after.delegations@, delegation_groups(files), file_sources(files), g);
}

proof fn lemma_assembled_all(p: PolicySet, env: EnvironmentFile, files: Seq<RecordsFile>)
    requires
        assembled_upto(p, env, files, files.len() as int),
    ensures
        policy_built(p, env, files),
{
    reveal(assembled_upto);
    assert(principal_groups(files).take(files.len() as int) =~= principal_groups(files));
    assert(role_groups(files).take(files.len() as int) =~= role_groups(files));
    assert(statement_groups(files).take(files.len() as int) =~= statement_groups(files));
    assert(assignment_groups(files).take(files.len() as int) =~= assignment_groups(files));
    assert(delegation_groups(files).take(files.len() as int) =~= delegation_groups(files));
    assert(file_sources(files).take(files.len() as int) =~= file_sources(files));
}

/// The fault of building a policy from its files, before it is checked
/// as a whole.
pub open spec fn assembly_fault(env: EnvironmentFile, files: Seq<RecordsFile>) -> Option<
    (int, Seq<char>),
> {
    or_else(environment_fault(env), records_fault(env, files))
}

/// Builds a policy from its environment file and its records files, in
/// order, then checks it as a whole (see `validate_policy`).
pub fn load_policy(environment: EnvironmentFile, records: Vec<RecordsFile>) -> (r: Result<
    PolicySet,
    PolicyLoadError,
>)
    ensures
        match assembly_fault(environment, records@) {
            Some(x) => r matches Err(e) && fault(e) == x,
            None => match r {
                Ok(p) => policy_built(p, environment, records@) && policy_fault(p) is None,
                Err(e) => exists|p: PolicySet|
                    policy_built(p, environment, records@) && policy_fault(p) == Some(fault(e)),
            },
        },
{
    let ghost env_raw = environment;
    let ghost files = records@;
    let env = match load_environment(environment) {
        Err(e) => return Err(e),
        Ok(v) => v,
    };
    let mut policy = PolicySet {
        environment: env,
        principals: Vec::new(),
        roles: Vec::new(),
        statements: Vec::new(),
        assignments: Vec::new(),
        delegations: Vec::new(),
        diagnostics: Vec::new(),
    };
    proof {
        lemma_assembled_start(policy, env_raw, files);
    }
    let ghost ff = |g: int| file_fault(env_raw, files, g);
    let mut rest = records;
    let n = rest.len();
    let mut g: usize = 0;
    assert(assembly_fault(env_raw, files) == first_fault(ff, n as int));
    while g < n
        invariant
            assembly_fault(env_raw, files) == first_fault(ff, n as int),
            n == files.len(),
            g <= n,
            files == records@,
            env_raw == environment,
            rest@ == files.subrange(g as int, n as int),
            ff == |g: int| file_fault(env_raw, files, g),
            first_fault(ff, g as int) is None,
            environment_fault(env_raw) is None,
            assembled_upto(policy, env_raw, files, g as int),
        decreases n - g,
    {
        let file = rest.remove(0);
        assert(file == files[g as int]);
        proof {
            if ff(g as int) is Some {
                assert(first_fault(ff, g + 1) == ff(g as int));
                lemma_first_fault_stable(ff, g + 1, n as int);
            }
            lemma_assembled_fault(policy, env_raw, files, g as int);
        }
        let ghost before = policy;
        match absorb_file(&mut policy, file) {
            Err(e) => return Err(e),
            Ok(_) => {},
        }
        proof {
            lemma_assembled_step(before, policy, env_raw, files, g as int);
            assert(rest@ =~= files.subrange(g + 1, n as int));
        }
        g = g + 1;
    }
    proof {
        lemma_assembled_all(policy, env_raw, files);
    }
    match validate_policy(&policy) {
        Err(e) => return Err(e),
        Ok(_) => {},
    }
    Ok(policy)
}

/// The contents of a request file. Its session entries are in key order;
/// its context evidence is in file order.
#[derive(Debug)]
pub struct RequestFile {
    pub schema: String,
    pub request_id: String,
    pub principal: String,
    pub operation: String,
    pub targets: Vec<String>,
    pub session: Vec<(String, JsonValue)>,
    pub context: Vec<ContextEvidence>,
}

/// The schema a request file must name.
pub open spec fn request_schema() -> Seq<char> {
    "terminal-policy/request/v1"@
}

/// The fault of the `i`-th piece of context evidence: a field left empty,
/// or a provider and key that an earlier piece already gave.
pub open spec fn context_fault(ctx: Seq<ContextEvidence>, i: int) -> Option<(int, Seq<char>)> {
    let c = ctx[i];
    if c.provider@.len() == 0 || c.key@.len() == 0 || c.provenance@.len() == 0 || c.digest@.len()
        == 0 {
        invalid("context.incomplete:"@ + c.provider@ + ":"@ + c.key@)
    } else if exists|j: int|
        0 <= j < i && (#[trigger] ctx[j]).provider@ == c.provider@ && ctx[j].key@ == c.key@ {
        invalid("context.duplicate:"@ + c.provider@ + ":"@ + c.key@)
    } else {
        None
    }
}

/// Two targets of a request are the same scope.
pub open spec fn targets_repeat(t: Seq<(Seq<char>, Seq<char>)>) -> bool {
    exists|i: int, j: int|
        0 <= i < j < t.len() && canonical_text((#[trigger] t[i]).0, t[i].1) == canonical_text(
            (#[trigger] t[j]).0,
            t[j].1,
        )
}

/// The fault of a request file, in the order the checks are made.
pub open spec fn request_fault(raw: RequestFile) -> Option<(int, Seq<char>)> {
    let op = raw.operation@;
    if raw.schema@ != request_schema() {
        Some((3, raw.schema@))
    } else {
        or_else(
            id_fault("request"@, raw.request_id@),
            or_else(
                id_fault("principal"@, raw.principal@),
                if op.len() == 0 || raw.targets@.len() == 0 {
                    invalid("request.incomplete"@)
                } else if !well_formed_operation(op) || op == "*"@ || ".*"@.is_suffix_of(op) {
                    invalid("request.operation-invalid:"@ + op)
                } else {
                    or_else(
                        first_fault(
                            |i: int| context_fault(raw.context@, i),
                            raw.context@.len() as int,
                        ),
                        or_else(
                            scopes_fault(raw.targets.deep_view()),
                            if targets_repeat(parsed_scopes(raw.targets.deep_view())) {
                                invalid("request.targets-duplicate"@)
                            } else {
                                None
                            },
                        ),
                    )
                },
            ),
        )
    }
}

/// A request is refused when it names no target, when its operation holds
/// a `*` (a request names one operation, never a pattern), when some piece
/// of its context lacks a provider, key, provenance or digest, when two
/// pieces of context share a provider and key, or when it names the same
/// target twice.
pub proof fn lemma_malformed_requests_are_refused(raw: RequestFile, i: int, j: int)
    requires
        ({
            ||| raw.targets@.len() == 0
            ||| 0 <= i < raw.operation@.len() && raw.operation@[i] == '*'
            ||| 0 <= i < raw.context@.len() && (raw.context@[i].provider@.len() == 0 || raw.context@[i].key@.len()
                == 0 || raw.context@[i].provenance@.len() == 0 || raw.context@[i].digest@.len() == 0)
            ||| 0 <= i < j < raw.context@.len() && raw.context@[i].provider@ == raw.context@[j].provider@
                && raw.context@[i].key@ == raw.context@[j].key@
            ||| 0 <= i < j < raw.targets@.len() && raw.targets@[i]@ == raw.targets@[j]@
        }),
    ensures
        raw.schema@ == request_schema() ==> request_fault(raw) is Some,
{
    let op = raw.operation@;
    reveal_strlit("*");
    reveal_strlit(".*");
    assert("*"@ =~= seq!['*']);
    assert(".*"@ =~= seq!['.', '*']);
    if 0 <= i < op.len() && op[i] == '*' && op != seq!['*'] && !seq!['.', '*'].is_suffix_of(op) {
        assert(!operation_char(op[i]));
        assert(!dotted_name(op));
    }
    let f = |k: int| context_fault(raw.context@, k);
    if 0 <= i < raw.context@.len() && (raw.context@[i].provider@.len() == 0 || raw.context@[i].key@.len() == 0
        || raw.context@[i].provenance@.len() == 0 || raw.context@[i].digest@.len() == 0) {
        assert(f(i) is Some);
        crate::policy::validate::lemma_some_fault(f, i, raw.context@.len() as int);
    }
    if 0 <= i < j < raw.context@.len() && raw.context@[i].provider@ == raw.context@[j].provider@
        && raw.context@[i].key@ == raw.context@[j].key@ {
        assert(raw.context@[i].provider@ == raw.context@[j].provider@);
        assert(f(j) is Some);
        crate::policy::validate::lemma_some_fault(f, j, raw.context@.len() as int);
    }
    if 0 <= i < j < raw.targets@.len() && raw.targets@[i]@ == raw.targets@[j]@ {
        let t = parsed_scopes(raw.targets.deep_view());
        assert(raw.targets.deep_view()[i] == raw.targets.deep_view()[j]);
        assert(t[i] == t[j]);
        assert(targets_repeat(t));
    }
}

fn check_context(ctx: &Vec<ContextEvidence>) -> (r: Result<(), PolicyLoadError>)
    ensures
        reports(r, first_fault(|i: int| context_fault(ctx@, i), ctx@.len() as int)),
{
    let ghost f = |i: int| context_fault(ctx@, i);
    let mut i: usize = 0;
    while i < ctx.len()
        invariant
            i <= ctx.len(),
            f == |i: int| context_fault(ctx@, i),
            first_fault(f, i as int) is None,
        decreases ctx.len() - i,
    {
        proof {
            if f(i as int) is Some {
                assert(first_fault(f, i + 1) == f(i as int));
                lemma_first_fault_stable(f, i + 1, ctx@.len() as int);
            }
        }
        let c = &ctx[i];
        if c.provider.unicode_len() == 0 || c.key.unicode_len() == 0 || c.provenance.unicode_len()
            == 0 || c.digest.unicode_len() == 0 {
            let m = crate::text::concat2(
                crate::text::concat3("context.incomplete:", c.provider.as_str(), ":").as_str(),
                c.key.as_str(),
            );
            return Err(invalid_error(m));
        }
        let mut j: usize = 0;
        while j < i
            invariant
                i < ctx.len(),
                j <= i,
                c == ctx@[i as int],
                f == |i: int| context_fault(ctx@, i),
                f(i as int) is Some ==> first_fault(f, ctx@.len() as int) == f(i as int),
                !(c.provider@.len() == 0 || c.key@.len() == 0 || c.provenance@.len() == 0
                    || c.digest@.len() == 0),
                forall|k: int|
                    0 <= k < j ==> !((#[trigger] ctx@[k]).provider@ == c.provider@ && ctx@[k].key@
                        == c.key@),
            decreases i - j,
        {
            if text_eq(ctx[j].provider.as_str(), c.provider.as_str()) && text_eq(
                ctx[j].key.as_str(),
                c.key.as_str(),
            ) {
                let m = crate::text::concat2(
                    crate::text::concat3("context.duplicate:", c.provider.as_str(), ":").as_str(),
                    c.key.as_str(),
                );
                return Err(invalid_error(m));
            }
            j = j + 1;
        }
        i = i + 1;
    }
    Ok(())
}

fn targets_distinct(targets: &Vec<ScopeValue>) -> (r: bool)
    ensures
        r == !targets_repeat(scope_views(targets@)),
{
    let ghost t = scope_views(targets@);
    let mut j: usize = 0;
    while j < targets.len()
        invariant
            t == scope_views(targets@),
            j <= targets.len(),
            forall|a: int, b: int|
                0 <= a < b < j ==> canonical_text((#[trigger] t[a]).0, t[a].1) != canonical_text(
                    (#[trigger] t[b]).0,
                    t[b].1,
                ),
        decreases targets.len() - j,
    {
        let cj = targets[j].canonical();
        let mut i: usize = 0;
        while i < j
            invariant
                t == scope_views(targets@),
                j < targets.len(),
                i <= j,
                cj@ == canonical_text(t[j as int].0, t[j as int].1),
                forall|a: int| 0 <= a < i ==> canonical_text((#[trigger] t[a]).0, t[a].1) != cj@,
            decreases j - i,
        {
            let ci = targets[i].canonical();
            if text_eq(ci.as_str(), cj.as_str()) {
                assert(canonical_text(t[i as int].0, t[i as int].1) == canonical_text(
                    t[j as int].0,
                    t[j as int].1,
                ));
                return false;
            }
            i = i + 1;
        }
        j = j + 1;
    }
    true
}

/// Builds a request from its file, making the checks of `request_fault`
/// in order.
pub fn load_request(raw: RequestFile) -> (r: Result<AuthorizationRequest, PolicyLoadError>)
    ensures
        reports(r, request_fault(raw)),
        r matches Ok(q) ==> {
            &&& q.schema == raw.schema
            &&& q.request_id == raw.request_id
            &&& q.principal == raw.principal
            &&& q.operation == raw.operation
            &&& scope_views(q.targets@) == parsed_scopes(raw.targets.deep_view())
            &&& q.session == raw.session
            &&& q.context == raw.context
        },
{
    if !text_eq(raw.schema.as_str(), "terminal-policy/request/v1") {
        return Err(PolicyLoadError::Schema(raw.schema));
    }
    match require_id("request", raw.request_id.as_str()) {
        Err(e) => return Err(e),
        Ok(_) => {},
    }
    match require_id("principal", raw.principal.as_str()) {
        Err(e) => return Err(e),
        Ok(_) => {},
    }
    if raw.operation.unicode_len() == 0 || raw.targets.len() == 0 {
        return Err(invalid_error(String::from_str("request.incomplete")));
    }
    let op = chars_of(raw.operation.as_str());
    let star = chars_of("*");
    let wild = chars_of(".*");
    let whole_star = crate::text::chars_eq(&op, &star);
    if !valid_operation(raw.operation.as_str()) || whole_star || crate::text::has_suffix(&op, &wild) {
        return Err(invalid_error(crate::text::concat2("request.operation-invalid:", raw.operation.as_str())));
    }
    match check_context(&raw.context) {
        Err(e) => return Err(e),
        Ok(_) => {},
    }
    let targets = match scopes(&raw.targets) {
        Err(e) => return Err(e),
        Ok(v) => v,
    };
    if !targets_distinct(&targets) {
        return Err(invalid_error(String::from_str("request.targets-duplicate")));
    }
    Ok(
        AuthorizationRequest {
            schema: raw.schema,
            request_id: raw.request_id,
            principal: raw.principal,
            operation: raw.operation,
            targets,
            session: raw.session,
            context: raw.context,
        },
    )
}

} // verus!
