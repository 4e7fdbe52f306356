//! The exact-refspec Git push boundary: which pushes are accepted and the
//! command that performs one, with ambient helpers disabled.
use crate::boundary::output::{timeout_zero, ChildEnd, Timeout};
use crate::result::Capability;
use crate::text::{chars_of, has_char, has_prefix, has_suffix};
use vstd::prelude::*;

verus! {

/// A push: the worktree to push from, the remote, the exact refspec, and
/// the time it may take.
#[derive(Clone, Debug, PartialEq, Eq)]
pub struct PushSpec {
    pub worktree: String,
    pub remote: String,
    pub refspec: String,
    pub timeout: Timeout,
}

/// Why a push is refused or failed.
#[derive(Clone, Debug, PartialEq, Eq)]
pub enum GitPushError {
    Invalid,
    Unavailable,
    Execution(String),
    Nonzero,
    Timeout,
}

/// A boundary can push when its Git binary is a file.
pub fn capability(binary_is_file: bool) -> (r: Capability)
    ensures
        r == if binary_is_file {
            Capability::Can
        } else {
            Capability::Cannot
        },
{
    if binary_is_file {
        Capability::Can
    } else {
        Capability::Cannot
    }
}

/// A push is acceptable when its worktree is a directory, its timeout is
/// not zero, it names a remote, and its refspec names exactly one ref:
/// under `refs/`, with no wildcard, no source-destination pair and no
/// deletion.
pub open spec fn push_acceptable(spec: PushSpec, worktree_is_dir: bool) -> bool {
    &&& worktree_is_dir
    &&& !timeout_zero(spec.timeout)
    &&& spec.remote@.len() > 0
    &&& "refs/"@.is_prefix_of(spec.refspec@)
    &&& !spec.refspec@.contains('*')
    &&& !spec.refspec@.contains(':')
    &&& !"/delete"@.is_suffix_of(spec.refspec@)
}

/// Which pushes are acceptable, in terms of the refspec's characters: for
/// a worktree that is a directory, a named remote and a time limit above
/// zero, exactly those whose refspec starts with `refs/` (any namespace:
/// branches, tags or other refs), holds no `*` and no `:`, and does not end
/// in `/delete`.
pub proof fn lemma_refs_pushes_are_acceptable(spec: PushSpec)
    requires
        !(spec.timeout.secs == 0 && spec.timeout.nanos == 0),
        spec.remote@.len() > 0,
    ensures
        push_acceptable(spec, true) <==> {
            let r = spec.refspec@;
            &&& r.len() >= 5 && r[0] == 'r' && r[1] == 'e' && r[2] == 'f' && r[3] == 's' && r[4] == '/'
            &&& forall|i: int| 0 <= i < r.len() ==> #[trigger] r[i] != '*' && r[i] != ':'
            &&& !(r.len() >= 7 && r.subrange(r.len() - 7, r.len() as int) == seq!['/', 'd', 'e', 'l', 'e', 't', 'e'])
        },
        forall|b: bool| #[trigger] push_acceptable(spec, b) ==> b,
{
    reveal_strlit("refs/");
    reveal_strlit("/delete");
    let r = spec.refspec@;
    let refs = "refs/"@;
    assert(refs =~= seq!['r', 'e', 'f', 's', '/']);
    assert("/delete"@ =~= seq!['/', 'd', 'e', 'l', 'e', 't', 'e']);
    if r.len() >= 5 && r[0] == 'r' && r[1] == 'e' && r[2] == 'f' && r[3] == 's' && r[4] == '/' {
        assert(refs.is_prefix_of(r)) by {
            assert(r.subrange(0, 5) =~= refs);
        }
    }
    if refs.is_prefix_of(r) {
        assert(r[0] == refs[0] && r[1] == refs[1] && r[2] == refs[2] && r[3] == refs[3] && r[4] == refs[4]);
    }
    if r.contains('*') {
        let i = choose|i: int| 0 <= i < r.len() && r[i] == '*';
        assert(r[i] == '*');
    }
    if r.contains(':') {
        let i = choose|i: int| 0 <= i < r.len() && r[i] == ':';
        assert(r[i] == ':');
    }
}

/// Fails with `Invalid` unless the push is acceptable (see
/// `push_acceptable`).
pub fn validate(spec: &PushSpec, worktree_is_dir: bool) -> (r: Result<(), GitPushError>)
    ensures
        r is Ok <==> push_acceptable(*spec, worktree_is_dir),
        r is Err ==> (r matches Err(GitPushError::Invalid)),
{
    let refspec = chars_of(spec.refspec.as_str());
    let refs = chars_of("refs/");
    let delete = chars_of("/delete");
    if !worktree_is_dir || (spec.timeout.secs == 0 && spec.timeout.nanos == 0) || spec.remote.unicode_len() == 0
        || !has_prefix(&refspec, &refs) || has_char(&refspec, '*') || has_char(&refspec, ':')
        || has_suffix(&refspec, &delete) {
        return Err(GitPushError::Invalid);
    }
    Ok(())
}

/// The environment and arguments of the push command: a cleared
/// environment without system configuration, prompts or credential
/// helpers, hooks disabled, and exactly the remote and refspec.
pub fn push_command(spec: &PushSpec) -> (r: (Vec<(String, String)>, Vec<String>))
    ensures
        r.0@.map_values(|e: (String, String)| (e.0@, e.1@)) == seq![
            ("GIT_CONFIG_NOSYSTEM"@, "1"@),
            ("GIT_TERMINAL_PROMPT"@, "0"@),
            ("GIT_ASKPASS"@, "/bin/false"@),
        ],
        r.1.deep_view() == seq![
            "-c"@,
            "core.hooksPath=/dev/null"@,
            "-c"@,
            "credential.helper="@,
            "push"@,
            spec.remote@,
            spec.refspec@,
        ],
{
    let env = vec![
        (String::from_str("GIT_CONFIG_NOSYSTEM"), String::from_str("1")),
        (String::from_str("GIT_TERMINAL_PROMPT"), String::from_str("0")),
        (String::from_str("GIT_ASKPASS"), String::from_str("/bin/false")),
    ];
    let args = vec![
        String::from_str("-c"),
        String::from_str("core.hooksPath=/dev/null"),
        String::from_str("-c"),
        String::from_str("credential.helper="),
        String::from_str("push"),
        spec.remote.clone(),
        spec.refspec.clone(),
    ];
    assert(env@.map_values(|e: (String, String)| (e.0@, e.1@)) =~= seq![
        ("GIT_CONFIG_NOSYSTEM"@, "1"@),
        ("GIT_TERMINAL_PROMPT"@, "0"@),
        ("GIT_ASKPASS"@, "/bin/false"@),
    ]);
    assert(args.deep_view() =~= seq![
        "-c"@,
        "core.hooksPath=/dev/null"@,
        "-c"@,
        "credential.helper="@,
        "push"@,
        spec.remote@,
        spec.refspec@,
    ]);
    (env, args)
}

/// Decides a push before any process starts: an unacceptable push is
/// `Invalid` whatever the binary; then a binary that is not a file is
/// `Unavailable`; otherwise the environment and arguments to run Git with
/// (see `push_command`).
pub fn prepare(spec: &PushSpec, worktree_is_dir: bool, binary_is_file: bool) -> (r: Result<
    (Vec<(String, String)>, Vec<String>),
    GitPushError,
>)
    ensures
        !push_acceptable(*spec, worktree_is_dir) ==> (r matches Err(GitPushError::Invalid)),
        push_acceptable(*spec, worktree_is_dir) && !binary_is_file ==> (r matches Err(
            GitPushError::Unavailable,
        )),
        push_acceptable(*spec, worktree_is_dir) && binary_is_file ==> (r matches Ok(c) && c.1.deep_view()
            == seq![
            "-c"@,
            "core.hooksPath=/dev/null"@,
            "-c"@,
            "credential.helper="@,
            "push"@,
            spec.remote@,
            spec.refspec@,
        ] && c.0@.map_values(|e: (String, String)| (e.0@, e.1@)) == seq![
            ("GIT_CONFIG_NOSYSTEM"@, "1"@),
            ("GIT_TERMINAL_PROMPT"@, "0"@),
            ("GIT_ASKPASS"@, "/bin/false"@),
        ]),
{
    match validate(spec, worktree_is_dir) {
        Err(e) => return Err(e),
        Ok(_) => {},
    }
    if capability(binary_is_file) != Capability::Can {
        return Err(GitPushError::Unavailable);
    }
    Ok(push_command(spec))
}

/// What a watched push gives: success when Git exited successfully,
/// `Nonzero` when it exited otherwise, `Timeout` when its deadline passed
/// first.
pub fn finish(end: ChildEnd) -> (r: Result<(), GitPushError>)
    ensures
        r == match end {
            ChildEnd::TimedOut => Err(GitPushError::Timeout),
            ChildEnd::Exited { success } => if success {
                Ok(())
            } else {
                Err(GitPushError::Nonzero)
            },
        },
{
    match end {
        ChildEnd::TimedOut => Err(GitPushError::Timeout),
        ChildEnd::Exited { success } => if success {
            Ok(())
        } else {
            Err(GitPushError::Nonzero)
        },
    }
}

} // verus!
