//! The descriptor-relative workspace write boundary: the checks an
//! artifact must pass before one exact file is written, the relative path
//! it may name, and what is recorded of the write.
use crate::artifact::{
    binding_matches, verify_outcome, ArtifactBinding, ArtifactError, ArtifactEvidence, ArtifactVerifier,
    AuthorizationArtifact,
};
use crate::crypto::{sha256, sha256_text};
use crate::enforcement::model::Attempt;
use crate::enforcement::nonce::{nonce_well_formed, NonceError, NonceStore};
use crate::enforcement::state::{active_for, joined_path, BrokerState, StateError, StateRecord};
use crate::json::JsonValue;
use crate::messages::{artifact_error_text, nonce_error_text, state_error_text};
use crate::result::{Authorization, Capability, ExecutionResult, Verification};
use crate::text::{chars_of, concat2, has_char, has_prefix, slice_text, text_eq};
use vstd::prelude::*;

verus! {

/// The audience and boundary name of workspace writes.
pub open spec fn write_boundary() -> Seq<char> {
    "broker.workspace-write/v1"@
}

/// Why a write is refused or failed.
#[derive(Clone, Debug, PartialEq, Eq)]
pub enum WorkspaceWriteError {
    Root(String),
    Target,
    TargetMismatch,
    Binding,
    Replay,
    Audit(String),
    Write(String),
}

/// The pieces of `v` between slashes, empty ones included, from the left.
pub open spec fn path_segments(v: Seq<char>) -> Seq<Seq<char>>
    decreases v.len(),
{
    if v.len() == 0 {
        seq![Seq::empty()]
    } else {
        let prev = path_segments(v.drop_last());
        if v.last() == '/' {
            prev.push(Seq::empty())
        } else {
            prev.update(prev.len() - 1, prev.last().push(v.last()))
        }
    }
}

/// A segment names a directory entry: it is neither empty nor `.`.
pub open spec fn names_entry(s: Seq<char>) -> bool {
    s.len() > 0 && s != "."@
}

/// The segments that name entries, in order, as `Path::components` keeps
/// them.
pub open spec fn kept(segs: Seq<Seq<char>>) -> Seq<Seq<char>>
    decreases segs.len(),
{
    if segs.len() == 0 {
        Seq::empty()
    } else if names_entry(segs.last()) {
        kept(segs.drop_last()).push(segs.last())
    } else {
        kept(segs.drop_last())
    }
}

/// The entries a workspace-relative path names, from the workspace root
/// down: none for an empty path, one with a backslash or NUL, an absolute
/// one, one that starts at `.`, one that climbs with `..`, or one that
/// names nothing.
pub open spec fn relative_parts_spec(v: Seq<char>) -> Option<Seq<Seq<char>>> {
    if v.len() == 0 || v.contains('\\') || v.contains('\0') || v[0] == '/' || v == "."@ || "./"@.is_prefix_of(v)
        || path_segments(v).contains(".."@) || kept(path_segments(v)).len() == 0 {
        None
    } else {
        Some(kept(path_segments(v)))
    }
}

proof fn lemma_segments_step(v: Seq<char>, i: int, done: Seq<Seq<char>>, start: int)
    requires
        0 <= start <= i < v.len(),
        path_segments(v.take(i)) == done.push(v.subrange(start, i)),
    ensures
        v[i] == '/' ==> path_segments(v.take(i + 1)) == done.push(v.subrange(start, i)).push(
            v.subrange(i + 1, i + 1),
        ),
        v[i] != '/' ==> path_segments(v.take(i + 1)) == done.push(v.subrange(start, i + 1)),
{
    let w = v.take(i + 1);
    assert(w.drop_last() =~= v.take(i));
    assert(w.last() == v[i]);
    assert(v.subrange(i + 1, i + 1) =~= Seq::<char>::empty());
    assert(v.subrange(start, i + 1) =~= v.subrange(start, i).push(v[i]));
    if v[i] != '/' {
        assert(path_segments(w) =~= done.push(v.subrange(start, i + 1)));
    }
}

/// The entries of a workspace-relative path (see `relative_parts_spec`);
/// `Target` when it names none.
pub fn relative_parts(value: &str) -> (r: Result<Vec<String>, WorkspaceWriteError>)
    ensures
        match relative_parts_spec(value@) {
            None => r matches Err(WorkspaceWriteError::Target),
            Some(p) => r matches Ok(v) && v.deep_view() == p,
        },
{
    let v = chars_of(value);
    let dot_slash = chars_of("./");
    proof {
        reveal_strlit("./");
        reveal_strlit(".");
    }
    if v.len() == 0 || has_char(&v, '\\') || has_char(&v, '\0') || v[0] == '/' || (v.len() == 1 && v[0] == '.')
        || has_prefix(&v, &dot_slash) {
        assert(v.len() == 1 && v[0] == '.' ==> v@ =~= "."@);
        return Err(WorkspaceWriteError::Target);
    }
    assert(v@ != "."@);
    let mut parts: Vec<String> = Vec::new();
    let mut climbs = false;
    let mut start: usize = 0;
    let mut i: usize = 0;
    let ghost mut done: Seq<Seq<char>> = Seq::empty();
    assert(v@.take(0) =~= Seq::<char>::empty());
    assert(v@.subrange(0, 0) =~= Seq::<char>::empty());
    assert(path_segments(v@.take(0)) =~= done.push(v@.subrange(0, 0)));
    while i < v.len()
        invariant
            v@ == value@,
            start <= i <= v@.len(),
            path_segments(v@.take(i as int)) == done.push(v@.subrange(start as int, i as int)),
            parts.deep_view() == kept(done),
            climbs == done.contains(".."@),
        decreases v.len() - i,
    {
        proof {
            lemma_segments_step(v@, i as int, done, start as int);
        }
        if v[i] == '/' {
            let seg = slice_text(value, start, i);
            let ghost sv = v@.subrange(start as int, i as int);
            assert(seg@ == sv);
            let is_dot = text_eq(seg.as_str(), ".");
            let is_up = text_eq(seg.as_str(), "..");
            let ghost before = parts.deep_view();
            if seg.unicode_len() > 0 && !is_dot {
                parts.push(seg);
                assert(parts.deep_view() =~= before.push(sv));
            }
            if is_up {
                climbs = true;
            }
            proof {
                let nd = done.push(sv);
                assert(nd.drop_last() =~= done);
                assert(nd.last() == sv);
                assert(kept(nd) == parts.deep_view());
                assert(nd.contains(".."@) == (done.contains(".."@) || sv == ".."@)) by {
                    if sv == ".."@ {
                        assert(nd[nd.len() - 1] == sv);
                    }
                    if done.contains(".."@) {
                        let k = choose|k: int| 0 <= k < done.len() && done[k] == ".."@;
                        assert(nd[k] == ".."@);
                    }
                }
                done = nd;
            }
            start = i + 1;
        }
        i = i + 1;
    }
    let seg = slice_text(value, start, i);
    let ghost sv = v@.subrange(start as int, i as int);
    let is_dot = text_eq(seg.as_str(), ".");
    let is_up = text_eq(seg.as_str(), "..");
    let ghost before = parts.deep_view();
    if seg.unicode_len() > 0 && !is_dot {
        parts.push(seg);
        assert(parts.deep_view() =~= before.push(sv));
    }
    if is_up {
        climbs = true;
    }
    proof {
        let nd = done.push(sv);
        assert(v@.take(i as int) =~= v@);
        assert(path_segments(v@) == nd);
        assert(nd.drop_last() =~= done);
        assert(nd.last() == sv);
        assert(kept(nd) == parts.deep_view());
        assert(nd.contains(".."@) == (done.contains(".."@) || sv == ".."@)) by {
            if sv == ".."@ {
                assert(nd[nd.len() - 1] == sv);
            }
            if done.contains(".."@) {
                let k = choose|k: int| 0 <= k < done.len() && done[k] == ".."@;
                assert(nd[k] == ".."@);
            }
        }
    }
    if climbs || parts.len() == 0 {
        return Err(WorkspaceWriteError::Target);
    }
    Ok(parts)
}

proof fn lemma_segments_plain(v: Seq<char>)
    ensures
        path_segments(v).len() >= 1,
        forall|k: int, j: int|
            0 <= k < path_segments(v).len() && 0 <= j < path_segments(v)[k].len() ==> #[trigger] path_segments(
                v,
            )[k][j] != '/' && v.contains(path_segments(v)[k][j]),
    decreases v.len(),
{
    if v.len() > 0 {
        let w = v.drop_last();
        lemma_segments_plain(w);
        let prev = path_segments(w);
        let segs = path_segments(v);
        assert forall|k: int, j: int| 0 <= k < segs.len() && 0 <= j < segs[k].len() implies #[trigger] segs[k][j]
            != '/' && v.contains(segs[k][j]) by {
            if k < prev.len() - 1 || (k == prev.len() - 1 && v.last() == '/') {
                assert(segs[k] == prev[k]);
                assert(prev[k][j] != '/' && w.contains(prev[k][j]));
                let i = choose|i: int| 0 <= i < w.len() && w[i] == prev[k][j];
                assert(v[i] == w[i]);
            } else if k == prev.len() - 1 {
                if j < prev[k].len() {
                    assert(segs[k][j] == prev[k][j]);
                    assert(prev[k][j] != '/' && w.contains(prev[k][j]));
                    let i = choose|i: int| 0 <= i < w.len() && w[i] == prev[k][j];
                    assert(v[i] == w[i]);
                } else {
                    assert(segs[k][j] == v.last());
                    assert(v[v.len() - 1] == v.last());
                }
            } else {
                assert(segs[k] == Seq::<char>::empty());
            }
        }
    }
}

proof fn lemma_kept_from(segs: Seq<Seq<char>>)
    ensures
        forall|k: int|
            0 <= k < kept(segs).len() ==> names_entry(#[trigger] kept(segs)[k]) && segs.contains(kept(segs)[k]),
    decreases segs.len(),
{
    if segs.len() > 0 {
        let t = segs.drop_last();
        lemma_kept_from(t);
        assert forall|k: int| 0 <= k < kept(segs).len() implies names_entry(#[trigger] kept(segs)[k])
            && segs.contains(kept(segs)[k]) by {
            if k < kept(t).len() {
                assert(kept(segs)[k] == kept(t)[k]);
                let j = choose|j: int| 0 <= j < t.len() && t[j] == kept(t)[k];
                assert(segs[j] == t[j]);
            } else {
                assert(kept(segs)[k] == segs.last());
                assert(segs[segs.len() - 1] == segs.last());
            }
        }
    }
}

/// A write never leaves the workspace: every entry of a relative path is
/// a plain name, neither empty nor `.` nor `..`, with no slash, backslash
/// or NUL in it.
pub proof fn lemma_parts_are_plain_names(v: Seq<char>)
    requires
        relative_parts_spec(v) is Some,
    ensures
        forall|k: int|
            0 <= k < relative_parts_spec(v)->0.len() ==> {
                let p = #[trigger] relative_parts_spec(v)->0[k];
                &&& p.len() > 0
                &&& p != "."@
                &&& p != ".."@
                &&& !p.contains('/')
                &&& !p.contains('\\')
                &&& !p.contains('\0')
            },
{
    let segs = path_segments(v);
    lemma_segments_plain(v);
    lemma_kept_from(segs);
    assert forall|k: int| 0 <= k < kept(segs).len() implies {
        let p = #[trigger] kept(segs)[k];
        &&& p.len() > 0
        &&& p != "."@
        &&& p != ".."@
        &&& !p.contains('/')
        &&& !p.contains('\\')
        &&& !p.contains('\0')
    } by {
        let p = kept(segs)[k];
        let j = choose|j: int| 0 <= j < segs.len() && segs[j] == p;
        if p.contains('/') {
            let q = choose|q: int| 0 <= q < p.len() && p[q] == '/';
            assert(segs[j][q] != '/');
        }
        if p.contains('\\') {
            let q = choose|q: int| 0 <= q < p.len() && p[q] == '\\';
            assert(v.contains(segs[j][q]));
        }
        if p.contains('\0') {
            let q = choose|q: int| 0 <= q < p.len() && p[q] == '\0';
            assert(v.contains(segs[j][q]));
        }
        if p == ".."@ {
            assert(segs.contains(".."@));
        }
    }
}

/// Names joined by slashes.
pub open spec fn slash_joined(names: Seq<Seq<char>>) -> Seq<char>
    decreases names.len(),
{
    if names.len() <= 1 {
        if names.len() == 0 {
            Seq::empty()
        } else {
            names[0]
        }
    } else {
        slash_joined(names.drop_last()) + seq!['/'] + names.last()
    }
}

/// A plain entry name: not empty, not `.` or `..`, and free of slashes,
/// backslashes and NUL.
pub open spec fn plain_name(s: Seq<char>) -> bool {
    &&& s.len() > 0
    &&& s != "."@
    &&& s != ".."@
    &&& !s.contains('/')
    &&& !s.contains('\\')
    &&& !s.contains('\0')
}

proof fn lemma_segments_unbroken(v: Seq<char>)
    requires
        !v.contains('/'),
    ensures
        path_segments(v) == seq![v],
    decreases v.len(),
{
    if v.len() > 0 {
        let w = v.drop_last();
        assert(!w.contains('/')) by {
            if w.contains('/') {
                let i = choose|i: int| 0 <= i < w.len() && w[i] == '/';
                assert(v[i] == '/');
            }
        }
        lemma_segments_unbroken(w);
        assert(v.last() != '/') by {
            assert(v[v.len() - 1] == v.last());
        }
        assert(w.push(v.last()) =~= v);
        assert(seq![w].update(0, w.push(v.last())) =~= seq![v]);
    } else {
        assert(v =~= Seq::<char>::empty());
    }
}

proof fn lemma_segments_after_slash(x: Seq<char>, y: Seq<char>)
    requires
        !y.contains('/'),
    ensures
        path_segments(x + seq!['/'] + y) == path_segments(x).push(y),
    decreases y.len(),
{
    let v = x + seq!['/'] + y;
    if y.len() == 0 {
        assert(v.drop_last() =~= x);
        assert(v.last() == '/');
        assert(y =~= Seq::<char>::empty());
    } else {
        let yd = y.drop_last();
        assert(!yd.contains('/')) by {
            if yd.contains('/') {
                let i = choose|i: int| 0 <= i < yd.len() && yd[i] == '/';
                assert(y[i] == '/');
            }
        }
        lemma_segments_after_slash(x, yd);
        assert(v.drop_last() =~= x + seq!['/'] + yd);
        assert(v.last() == y.last());
        assert(y.last() != '/') by {
            assert(y[y.len() - 1] == y.last());
        }
        let prev = path_segments(x).push(yd);
        assert(yd.push(y.last()) =~= y);
        assert(prev.update(prev.len() - 1, prev.last().push(v.last())) =~= path_segments(x).push(y));
    }
}

proof fn lemma_joined_shape(names: Seq<Seq<char>>)
    requires
        names.len() >= 1,
        forall|k: int| 0 <= k < names.len() ==> plain_name(#[trigger] names[k]),
    ensures
        path_segments(slash_joined(names)) == names,
        names[0].is_prefix_of(slash_joined(names)),
        !slash_joined(names).contains('\\'),
        !slash_joined(names).contains('\0'),
        names.len() > 1 ==> slash_joined(names).len() > names[0].len(),
    decreases names.len(),
{
    if names.len() == 1 {
        lemma_segments_unbroken(names[0]);
        assert(seq![names[0]] =~= names);
        assert(names[0].is_prefix_of(names[0])) by {
            assert(names[0].subrange(0, names[0].len() as int) =~= names[0]);
        }
    } else {
        let front = names.drop_last();
        assert forall|k: int| 0 <= k < front.len() implies plain_name(#[trigger] front[k]) by {
            assert(front[k] == names[k]);
        }
        lemma_joined_shape(front);
        let x = slash_joined(front);
        let y = names.last();
        assert(plain_name(names[names.len() - 1]));
        lemma_segments_after_slash(x, y);
        assert(front.push(y) =~= names);
        let v = x + seq!['/'] + y;
        assert(front[0] == names[0]);
        assert(names[0].is_prefix_of(v)) by {
            assert forall|i: int| 0 <= i < names[0].len() implies v[i] == names[0][i] by {
                assert(v[i] == x[i]);
            }
            assert(v.subrange(0, names[0].len() as int) =~= names[0]);
        }
        assert(!v.contains('\\')) by {
            if v.contains('\\') {
                let i = choose|i: int| 0 <= i < v.len() && v[i] == '\\';
                if i < x.len() {
                    assert(x[i] == v[i]);
                } else if i > x.len() {
                    assert(y[i - x.len() - 1] == v[i]);
                }
            }
        }
        assert(!v.contains('\0')) by {
            if v.contains('\0') {
                let i = choose|i: int| 0 <= i < v.len() && v[i] == '\0';
                if i < x.len() {
                    assert(x[i] == v[i]);
                } else if i > x.len() {
                    assert(y[i - x.len() - 1] == v[i]);
                }
            }
        }
    }
}

proof fn lemma_kept_all(segs: Seq<Seq<char>>)
    requires
        forall|k: int| 0 <= k < segs.len() ==> names_entry(#[trigger] segs[k]),
    ensures
        kept(segs) == segs,
    decreases segs.len(),
{
    if segs.len() > 0 {
        let t = segs.drop_last();
        assert forall|k: int| 0 <= k < t.len() implies names_entry(#[trigger] t[k]) by {
            assert(t[k] == segs[k]);
        }
        lemma_kept_all(t);
        assert(names_entry(segs[segs.len() - 1]));
        assert(t.push(segs.last()) =~= segs);
    }
}

/// A write goes where it was asked to: a path made of one or more plain
/// entry names joined by single slashes names exactly those entries, in
/// order.
pub proof fn lemma_plain_paths_are_kept(names: Seq<Seq<char>>)
    requires
        names.len() >= 1,
        forall|k: int| 0 <= k < names.len() ==> plain_name(#[trigger] names[k]),
    ensures
        relative_parts_spec(slash_joined(names)) == Some(names),
{
    let v = slash_joined(names);
    lemma_joined_shape(names);
    assert forall|k: int| 0 <= k < names.len() implies names_entry(#[trigger] names[k]) by {
        assert(plain_name(names[k]));
    }
    lemma_kept_all(names);
    let n0 = names[0];
    assert(plain_name(n0));
    assert(v.len() > 0 && v[0] == n0[0]);
    assert(n0[0] != '/') by {
        assert(!n0.contains('/'));
    }
    assert(!names.contains(".."@)) by {
        if names.contains(".."@) {
            let k = choose|k: int| 0 <= k < names.len() && names[k] == ".."@;
            assert(plain_name(names[k]));
        }
    }
    reveal_strlit(".");
    reveal_strlit("./");
    assert(v != "."@) by {
        if names.len() == 1 {
            assert(v == n0);
        } else {
            assert(v.len() > n0.len());
        }
    }
    assert(!"./"@.is_prefix_of(v)) by {
        if "./"@.is_prefix_of(v) {
            assert("./"@.len() == 2);
            assert(v[0] == "./"@[0]);
            assert(v[1] == "./"@[1]);
            if n0.len() >= 2 {
                assert(v[1] == n0[1]);
                assert(!n0.contains('/'));
            } else {
                assert(n0 =~= "."@);
            }
        }
    }
}


/// A workspace write boundary: the workspace root and the boundary's
/// durable state.
#[derive(Debug)]
pub struct WorkspaceWriteBroker {
    root: String,
    state: BrokerState,
}

impl View for WorkspaceWriteBroker {
    type V = (Seq<char>, (Seq<char>, StateRecord));

    closed spec fn view(&self) -> (Seq<char>, (Seq<char>, StateRecord)) {
        (self.root@, self.state@)
    }
}

/// What a write that passed its checks does next: the attempt to record,
/// the entries of the target under the workspace root, the nonce file whose
/// exclusive creation consumes the artifact, and the temporary name the
/// content is written under before it is renamed into place.
#[derive(Debug)]
pub struct WritePlan {
    pub attempt: Attempt,
    pub parts: Vec<String>,
    pub nonce_path: String,
    pub temporary: String,
}

/// An execution binding is exactly the target path and the content's
/// digest: `{"content_digest": digest, "path": target}`.
pub open spec fn binding_for(j: JsonValue, target: Seq<char>, digest: Seq<char>) -> bool {
    &&& j matches JsonValue::Object(v)
    &&& v@.len() == 2
    &&& v@[0].0@ == "content_digest"@
    &&& v@[0].1 matches JsonValue::Text(d) && d@ == digest
    &&& v@[1].0@ == "path"@
    &&& v@[1].1 matches JsonValue::Text(p) && p@ == target
}

fn binding_is(j: &JsonValue, target: &str, digest: &str) -> (r: bool)
    ensures
        r == binding_for(*j, target@, digest@),
{
    match j {
        JsonValue::Object(v) => {
            if v.len() != 2 || !text_eq(v[0].0.as_str(), "content_digest") || !text_eq(v[1].0.as_str(), "path") {
                return false;
            }
            let d_ok = match &v[0].1 {
                JsonValue::Text(d) => text_eq(d.as_str(), digest),
                _ => false,
            };
            let p_ok = match &v[1].1 {
                JsonValue::Text(p) => text_eq(p.as_str(), target),
                _ => false,
            };
            d_ok && p_ok
        },
        _ => false,
    }
}

/// The checks after an artifact verified and matched the boundary's
/// binding: it names a target, under `path:`, whose entries are a
/// workspace-relative path; its execution binding is exactly that target
/// and the content's digest; it names a generation at which the boundary
/// is active; and its nonce is well formed. Then the plan.
pub open spec fn planned(
    state: (Seq<char>, StateRecord),
    a: AuthorizationArtifact,
    content: Seq<u8>,
    r: Result<WritePlan, WorkspaceWriteError>,
) -> bool {
    if a.targets@.len() == 0 {
        r matches Err(WorkspaceWriteError::TargetMismatch)
    } else {
        let target = a.targets@[0]@;
        if !"path:"@.is_prefix_of(target) {
            r matches Err(WorkspaceWriteError::Target)
        } else {
            match relative_parts_spec(target.skip(5)) {
                None => r matches Err(WorkspaceWriteError::Target),
                Some(parts) => if !binding_for(a.execution_binding, target, sha256_text(content))
                    || a.boundary_generation is None {
                    r matches Err(WorkspaceWriteError::Binding)
                } else {
                    let g = a.boundary_generation.unwrap();
                    if !active_for(state.1, g) {
                        r matches Err(WorkspaceWriteError::Write(m)) && m@ == state_error_text(
                            if state.1.disabled {
                                StateError::Disabled
                            } else {
                                StateError::Generation
                            },
                        )
                    } else if !nonce_well_formed(a.nonce@) {
                        r matches Err(WorkspaceWriteError::Write(m)) && m@ == nonce_error_text(
                            NonceError::Invalid,
                        )
                    } else {
                        &&& r matches Ok(p)
                        &&& p.parts.deep_view() == parts
                        &&& p.nonce_path@ == joined_path(joined_path(state.0, "nonces"@), a.nonce@)
                        &&& p.temporary@ == ".scope-write-"@ + a.nonce@
                        &&& p.attempt.artifact_id@ == a.artifact_id@
                        &&& p.attempt.nonce@ == a.nonce@
                        &&& p.attempt.boundary@ == write_boundary()
                        &&& p.attempt.operation@ == a.operation@
                        &&& p.attempt.target_digest@ == a.target_digest@
                        &&& p.attempt.snapshot_digest@ == a.snapshot.digest@
                        &&& p.attempt.generation == g
                    }
                }
            }
        }
    }
}

impl WorkspaceWriteBroker {
    pub fn new(root: String, state: BrokerState) -> (r: WorkspaceWriteBroker)
        ensures
            r@ == (root@, state@),
    {
        WorkspaceWriteBroker { root, state }
    }

    /// The workspace root the write is relative to.
    pub fn root(&self) -> (r: &str)
        ensures
            r@ == self@.0,
    {
        self.root.as_str()
    }

    /// The boundary's durable state.
    pub fn state(&self) -> (r: &BrokerState)
        ensures
            r@ == self@.1,
    {
        &self.state
    }

    /// Decides a write of `content` before anything is touched: the
    /// artifact must verify at `now` and match the boundary's own binding
    /// (any failure there is a `Write` error with the artifact error's
    /// text), then pass the checks of `planned`.
    pub fn prepare(
        &self,
        verifier: &ArtifactVerifier,
        artifact: AuthorizationArtifact,
        now: (i64, u32),
        evidence: &ArtifactEvidence,
        expected: &ArtifactBinding,
        content: &[u8],
    ) -> (r: Result<WritePlan, WorkspaceWriteError>)
        ensures
            match verify_outcome(*verifier, artifact, now, *evidence) {
                Err(e) => r matches Err(WorkspaceWriteError::Write(m)) && m@ == artifact_error_text(e),
                Ok(_) => if !binding_matches(artifact, *expected) {
                    r matches Err(WorkspaceWriteError::Write(m)) && m@ == artifact_error_text(
                        ArtifactError::ExecutionBinding,
                    )
                } else {
                    planned(self@.1, artifact, content@, r)
                },
            },
    {
        let verified = match verifier.verify_bound(artifact, now, evidence, expected) {
            Err(e) => return Err(WorkspaceWriteError::Write(e.message())),
            Ok(v) => v,
        };
        let a = verified.artifact();
        if a.targets.len() == 0 {
            return Err(WorkspaceWriteError::TargetMismatch);
        }
        let target = a.targets[0].as_str();
        let t = chars_of(target);
        let prefix = chars_of("path:");
        proof {
            reveal_strlit("path:");
        }
        if !has_prefix(&t, &prefix) {
            return Err(WorkspaceWriteError::Target);
        }
        let relative = slice_text(target, 5, t.len());
        assert(relative@ == target@.skip(5));
        let parts = match relative_parts(relative.as_str()) {
            Err(e) => return Err(e),
            Ok(p) => p,
        };
        let digest = sha256(content);
        if !binding_is(&a.execution_binding, target, digest.as_str()) {
            return Err(WorkspaceWriteError::Binding);
        }
        let generation = match a.boundary_generation {
            None => return Err(WorkspaceWriteError::Binding),
            Some(g) => g,
        };
        match self.state.require_active(generation) {
            Err(e) => return Err(WorkspaceWriteError::Write(e.message())),
            Ok(_) => {},
        }
        let store = NonceStore::new(self.state.duplicate());
        let nonce_path = match store.admit_nonce(a.nonce.as_str(), generation) {
            Err(NonceError::Replay) => return Err(WorkspaceWriteError::Replay),
            Err(e) => return Err(WorkspaceWriteError::Write(e.message())),
            Ok(p) => p,
        };
        let attempt = Attempt {
            artifact_id: a.artifact_id.clone(),
            nonce: a.nonce.clone(),
            boundary: String::from_str("broker.workspace-write/v1"),
            operation: a.operation.clone(),
            target_digest: a.target_digest.clone(),
            snapshot_digest: a.snapshot.digest.clone(),
            generation,
        };
        let temporary = concat2(".scope-write-", a.nonce.as_str());
        Ok(WritePlan { attempt, parts, nonce_path, temporary })
    }
}

/// What consuming the nonce gives the write: a replay is `Replay`, any
/// other failure a `Write` error with its text.
pub fn consume_outcome(created: Result<(), NonceError>) -> (r: Result<(), WorkspaceWriteError>)
    ensures
        match created {
            Ok(_) => r is Ok,
            Err(NonceError::Replay) => r matches Err(WorkspaceWriteError::Replay),
            Err(e) => r matches Err(WorkspaceWriteError::Write(m)) && m@ == nonce_error_text(e),
        },
{
    match created {
        Ok(_) => Ok(()),
        Err(NonceError::Replay) => Err(WorkspaceWriteError::Replay),
        Err(e) => Err(WorkspaceWriteError::Write(e.message())),
    }
}

/// The result of a completed write: allowed, verified, capable, executed
/// and advisory, with reason `workspace.write.completed`.
pub fn completed() -> (r: ExecutionResult)
    ensures
        r@ == (
            "kero/execution-result/v1"@,
            Authorization::Allow,
            Verification::Valid,
            Capability::Can,
            crate::result::Enforcement::Advisory,
            crate::result::Execution::Execute,
            "workspace.write.completed"@,
        ),
{
    ExecutionResult::executed_advisory(
        Authorization::Allow,
        Verification::Valid,
        Capability::Can,
        String::from_str("workspace.write.completed"),
    )
}

} // verus!
