//! The no-network Bubblewrap command boundary: which commands are accepted,
//! the sandbox arguments that run one, and what a finished run gives.
use crate::boundary::output::{timeout_zero, ChildEnd, Timeout};
use crate::result::Capability;
use crate::text::{chars_of, has_char, has_text, occurs_in};
use vstd::prelude::*;

verus! {

/// A command: its arguments, the absolute directory it runs in, the
/// variables of its otherwise empty environment, the time it may take and
/// the most output bytes accepted.
#[derive(Clone, Debug, PartialEq, Eq)]
pub struct CommandSpec {
    pub argv: Vec<String>,
    pub working_directory: String,
    pub environment: Vec<(String, String)>,
    pub timeout: Timeout,
    pub output_limit: usize,
}

/// Why a command is refused or failed.
#[derive(Clone, Debug, PartialEq, Eq)]
pub enum BubblewrapError {
    Invalid,
    Unavailable,
    Timeout,
    Overflow,
    Execution(String),
}

/// A sandbox can run commands when its Bubblewrap binary is a file.
pub fn capability(binary_is_file: bool) -> (r: Capability)
    ensures
        r == if binary_is_file {
            Capability::Can
        } else {
            Capability::Cannot
        },
{
    if binary_is_file {
        Capability::Can
    } else {
        Capability::Cannot
    }
}

/// A variable name that looks like it carries a credential.
pub open spec fn credential_name(key: Seq<char>) -> bool {
    occurs_in(key, "TOKEN"@) || occurs_in(key, "SECRET"@) || occurs_in(key, "PASSWORD"@)
}

/// An argument is not empty and holds no NUL.
pub open spec fn argument_acceptable(a: Seq<char>) -> bool {
    a.len() > 0 && !a.contains('\0')
}

/// A variable is named, holds no NUL, and is not named like a credential.
pub open spec fn variable_acceptable(key: Seq<char>, value: Seq<char>) -> bool {
    key.len() > 0 && !key.contains('\0') && !value.contains('\0') && !credential_name(key)
}

/// The environment as pairs of texts.
pub open spec fn environment_view(env: Seq<(String, String)>) -> Seq<(Seq<char>, Seq<char>)> {
    env.map_values(|e: (String, String)| (e.0@, e.1@))
}

/// A command is acceptable when it has arguments, a timeout and an output
/// limit that are not zero, and an absolute working directory; no argument
/// is empty or holds a NUL; and every variable is acceptable.
pub open spec fn command_acceptable(spec: CommandSpec) -> bool {
    &&& spec.argv@.len() > 0
    &&& !timeout_zero(spec.timeout)
    &&& spec.output_limit != 0
    &&& spec.working_directory@.len() > 0 && spec.working_directory@[0] == '/'
    &&& forall|i: int| 0 <= i < spec.argv@.len() ==> argument_acceptable(#[trigger] spec.argv@[i]@)
    &&& forall|i: int|
        0 <= i < spec.environment@.len() ==> variable_acceptable(
            (#[trigger] environment_view(spec.environment@)[i]).0,
            environment_view(spec.environment@)[i].1,
        )
}

/// No command whose environment names a credential is acceptable: if some
/// variable's name contains `TOKEN`, `SECRET` or `PASSWORD`, the command is
/// refused, whatever else it holds.
pub proof fn lemma_credential_variables_are_refused(spec: CommandSpec, i: int, j: int, word: Seq<char>)
    requires
        0 <= i < spec.environment@.len(),
        word == "TOKEN"@ || word == "SECRET"@ || word == "PASSWORD"@,
        0 <= j && j + word.len() <= spec.environment@[i].0@.len(),
        spec.environment@[i].0@.subrange(j, j + word.len()) == word,
    ensures
        !command_acceptable(spec),
{
    let key = spec.environment@[i].0@;
    assert(environment_view(spec.environment@)[i].0 == key);
    assert(occurs_in(key, word));
    assert(credential_name(key));
    assert(!variable_acceptable(environment_view(spec.environment@)[i].0, environment_view(spec.environment@)[i].1));
}

/// `word` occurs in `s` at some position.
pub open spec fn contains_word(s: Seq<char>, word: Seq<char>) -> bool {
    exists|j: int| 0 <= j && j + word.len() <= s.len() && #[trigger] s.subrange(j, j + word.len()) == word
}

/// A variable named plainly: a non-empty name, no NUL in name or value,
/// and a name containing none of `TOKEN`, `SECRET` and `PASSWORD`.
pub open spec fn plain_variable(key: Seq<char>, value: Seq<char>) -> bool {
    &&& key.len() > 0
    &&& forall|j: int| 0 <= j < key.len() ==> key[j] != '\0'
    &&& forall|j: int| 0 <= j < value.len() ==> value[j] != '\0'
    &&& !contains_word(key, seq!['T', 'O', 'K', 'E', 'N'])
    &&& !contains_word(key, seq!['S', 'E', 'C', 'R', 'E', 'T'])
    &&& !contains_word(key, seq!['P', 'A', 'S', 'S', 'W', 'O', 'R', 'D'])
}

/// A plain argument: non-empty, with no NUL.
pub open spec fn plain_argument(a: Seq<char>) -> bool {
    a.len() > 0 && forall|j: int| 0 <= j < a.len() ==> a[j] != '\0'
}

proof fn lemma_variable_plain(key: Seq<char>, value: Seq<char>)
    ensures
        variable_acceptable(key, value) == plain_variable(key, value),
{
    reveal_strlit("TOKEN");
    reveal_strlit("SECRET");
    reveal_strlit("PASSWORD");
    assert("TOKEN"@ =~= seq!['T', 'O', 'K', 'E', 'N']);
    assert("SECRET"@ =~= seq!['S', 'E', 'C', 'R', 'E', 'T']);
    assert("PASSWORD"@ =~= seq!['P', 'A', 'S', 'S', 'W', 'O', 'R', 'D']);
    if key.contains('\0') {
        let j = choose|j: int| 0 <= j < key.len() && key[j] == '\0';
        assert(key[j] == '\0');
    }
    if value.contains('\0') {
        let j = choose|j: int| 0 <= j < value.len() && value[j] == '\0';
        assert(value[j] == '\0');
    }
}

proof fn lemma_argument_plain(a: Seq<char>)
    ensures
        argument_acceptable(a) == plain_argument(a),
{
    if a.contains('\0') {
        let j = choose|j: int| 0 <= j < a.len() && a[j] == '\0';
        assert(a[j] == '\0');
    }
}

/// Which commands are acceptable, in terms of their parts: exactly those
/// with at least one argument, a time limit and an output limit above
/// zero, and a working directory that starts with `/`; whose arguments are
/// all non-empty and free of NUL; and whose variables all have a non-empty
/// name, no NUL in name or value, and a name containing none of `TOKEN`,
/// `SECRET` and `PASSWORD`.
pub proof fn lemma_acceptable_commands(spec: CommandSpec)
    ensures
        command_acceptable(spec) <==> {
            &&& spec.argv@.len() > 0
            &&& !(spec.timeout.secs == 0 && spec.timeout.nanos == 0)
            &&& spec.output_limit > 0
            &&& spec.working_directory@.len() > 0 && spec.working_directory@[0] == '/'
            &&& forall|i: int| 0 <= i < spec.argv@.len() ==> plain_argument((#[trigger] spec.argv@[i])@)
            &&& forall|i: int|
                0 <= i < spec.environment@.len() ==> plain_variable(
                    (#[trigger] spec.environment@[i]).0@,
                    spec.environment@[i].1@,
                )
        },
{
    let env = environment_view(spec.environment@);
    let args_ok = forall|i: int| 0 <= i < spec.argv@.len() ==> argument_acceptable(#[trigger] spec.argv@[i]@);
    let args_plain = forall|i: int| 0 <= i < spec.argv@.len() ==> plain_argument((#[trigger] spec.argv@[i])@);
    let vars_ok = forall|i: int|
        0 <= i < spec.environment@.len() ==> variable_acceptable((#[trigger] env[i]).0, env[i].1);
    let vars_plain = forall|i: int|
        0 <= i < spec.environment@.len() ==> plain_variable(
            (#[trigger] spec.environment@[i]).0@,
            spec.environment@[i].1@,
        );
    if args_ok {
        assert forall|i: int| 0 <= i < spec.argv@.len() implies plain_argument((#[trigger] spec.argv@[i])@) by {
            lemma_argument_plain(spec.argv@[i]@);
        }
    }
    if args_plain {
        assert forall|i: int| 0 <= i < spec.argv@.len() implies argument_acceptable(#[trigger] spec.argv@[i]@) by {
            lemma_argument_plain(spec.argv@[i]@);
        }
    }
    if vars_ok {
        assert forall|i: int| 0 <= i < spec.environment@.len() implies plain_variable(
            (#[trigger] spec.environment@[i]).0@,
            spec.environment@[i].1@,
        ) by {
            assert(variable_acceptable(env[i].0, env[i].1));
            lemma_variable_plain(spec.environment@[i].0@, spec.environment@[i].1@);
        }
    }
    if vars_plain {
        assert forall|i: int| 0 <= i < spec.environment@.len() implies variable_acceptable(
            (#[trigger] env[i]).0,
            env[i].1,
        ) by {
            assert(plain_variable(spec.environment@[i].0@, spec.environment@[i].1@));
            lemma_variable_plain(spec.environment@[i].0@, spec.environment@[i].1@);
        }
    }
}

/// The sandbox a command runs in: Bubblewrap dies with its parent, starts
/// a new session, unshares every namespace and the network, clears the
/// environment, and runs in the command's working directory; the command's
/// own arguments come last, unchanged.
pub proof fn lemma_sandbox_isolates(spec: CommandSpec)
    ensures
        bwrap_args(spec).contains("--die-with-parent"@),
        bwrap_args(spec).contains("--new-session"@),
        bwrap_args(spec).contains("--unshare-all"@),
        bwrap_args(spec).contains("--unshare-net"@),
        bwrap_args(spec).contains("--clearenv"@),
        bwrap_args(spec).len() >= spec.argv@.len(),
        bwrap_args(spec).subrange(bwrap_args(spec).len() - spec.argv@.len(), bwrap_args(spec).len() as int)
            == spec.argv.deep_view(),
{
    let a = bwrap_args(spec);
    assert(a[0] == "--die-with-parent"@);
    assert(a[1] == "--new-session"@);
    assert(a[2] == "--unshare-all"@);
    assert(a[3] == "--unshare-net"@);
    assert(a[9] == "--clearenv"@);
    assert(a.subrange(a.len() - spec.argv@.len(), a.len() as int) =~= spec.argv.deep_view());
}

fn argument_ok(a: &str) -> (r: bool)
    ensures
        r == argument_acceptable(a@),
{
    let v = chars_of(a);
    v.len() > 0 && !has_char(&v, '\0')
}

fn variable_ok(key: &str, value: &str) -> (r: bool)
    ensures
        r == variable_acceptable(key@, value@),
{
    let k = chars_of(key);
    let v = chars_of(value);
    let token = chars_of("TOKEN");
    let secret = chars_of("SECRET");
    let password = chars_of("PASSWORD");
    k.len() > 0 && !has_char(&k, '\0') && !has_char(&v, '\0') && !has_text(&k, &token) && !has_text(
        &k,
        &secret,
    ) && !has_text(&k, &password)
}

/// Fails with `Invalid` unless the command is acceptable (see
/// `command_acceptable`).
pub fn validate(spec: &CommandSpec) -> (r: Result<(), BubblewrapError>)
    ensures
        r is Ok <==> command_acceptable(*spec),
        r is Err ==> (r matches Err(BubblewrapError::Invalid)),
{
    let wd = chars_of(spec.working_directory.as_str());
    if spec.argv.len() == 0 || (spec.timeout.secs == 0 && spec.timeout.nanos == 0) || spec.output_limit == 0
        || wd.len() == 0 || wd[0] != '/' {
        return Err(BubblewrapError::Invalid);
    }
    let mut i: usize = 0;
    while i < spec.argv.len()
        invariant
            i <= spec.argv@.len(),
            forall|j: int| 0 <= j < i ==> argument_acceptable(#[trigger] spec.argv@[j]@),
        decreases spec.argv.len() - i,
    {
        if !argument_ok(spec.argv[i].as_str()) {
            return Err(BubblewrapError::Invalid);
        }
        i = i + 1;
    }
    let ghost env = environment_view(spec.environment@);
    let mut k: usize = 0;
    while k < spec.environment.len()
        invariant
            k <= spec.environment@.len(),
            env == environment_view(spec.environment@),
            forall|j: int| 0 <= j < k ==> variable_acceptable((#[trigger] env[j]).0, env[j].1),
        decreases spec.environment.len() - k,
    {
        let (key, value) = (&spec.environment[k].0, &spec.environment[k].1);
        if !variable_ok(key.as_str(), value.as_str()) {
            assert(!variable_acceptable(env[k as int].0, env[k as int].1));
            return Err(BubblewrapError::Invalid);
        }
        k = k + 1;
    }
    Ok(())
}

/// The `--setenv` options of the variables, in order.
pub open spec fn setenv_args(env: Seq<(Seq<char>, Seq<char>)>) -> Seq<Seq<char>>
    decreases env.len(),
{
    if env.len() == 0 {
        Seq::empty()
    } else {
        setenv_args(env.drop_last()) + seq!["--setenv"@, env.last().0, env.last().1]
    }
}

/// The Bubblewrap arguments of a command: die with the parent, a new
/// session, every namespace unshared (the network too), the root bound
/// read-only, a private `/tmp`, a cleared environment, the working
/// directory, the variables, then the command itself.
pub open spec fn bwrap_args(spec: CommandSpec) -> Seq<Seq<char>> {
    seq![
        "--die-with-parent"@,
        "--new-session"@,
        "--unshare-all"@,
        "--unshare-net"@,
        "--ro-bind"@,
        "/"@,
        "/"@,
        "--tmpfs"@,
        "/tmp"@,
        "--clearenv"@,
        "--chdir"@,
        spec.working_directory@,
    ] + setenv_args(environment_view(spec.environment@)) + spec.argv.deep_view()
}

fn push_text(v: &mut Vec<String>, t: &str)
    ensures
        final(v).deep_view() == old(v).deep_view().push(t@),
{
    let ghost before = v.deep_view();
    v.push(String::from_str(t));
    assert(v.deep_view() =~= before.push(t@));
}

/// The Bubblewrap arguments of a command (see `bwrap_args`).
pub fn bwrap_arguments(spec: &CommandSpec) -> (r: Vec<String>)
    ensures
        r.deep_view() == bwrap_args(*spec),
{
    let mut args: Vec<String> = Vec::new();
    push_text(&mut args, "--die-with-parent");
    push_text(&mut args, "--new-session");
    push_text(&mut args, "--unshare-all");
    push_text(&mut args, "--unshare-net");
    push_text(&mut args, "--ro-bind");
    push_text(&mut args, "/");
    push_text(&mut args, "/");
    push_text(&mut args, "--tmpfs");
    push_text(&mut args, "/tmp");
    push_text(&mut args, "--clearenv");
    push_text(&mut args, "--chdir");
    push_text(&mut args, spec.working_directory.as_str());
    let ghost base = args.deep_view();
    let ghost env = environment_view(spec.environment@);
    let mut i: usize = 0;
    while i < spec.environment.len()
        invariant
            i <= spec.environment@.len(),
            env == environment_view(spec.environment@),
            args.deep_view() == base + setenv_args(env.take(i as int)),
        decreases spec.environment.len() - i,
    {
        push_text(&mut args, "--setenv");
        push_text(&mut args, spec.environment[i].0.as_str());
        push_text(&mut args, spec.environment[i].1.as_str());
        proof {
            assert(env.take(i + 1).drop_last() =~= env.take(i as int));
            assert(env.take(i + 1).last() == env[i as int]);
            assert(args.deep_view() =~= base + setenv_args(env.take(i + 1)));
        }
        i = i + 1;
    }
    assert(env.take(i as int) =~= env);
    let ghost mid = args.deep_view();
    let mut k: usize = 0;
    while k < spec.argv.len()
        invariant
            k <= spec.argv@.len(),
            args.deep_view() == mid + spec.argv.deep_view().take(k as int),
        decreases spec.argv.len() - k,
    {
        push_text(&mut args, spec.argv[k].as_str());
        assert(args.deep_view() =~= mid + spec.argv.deep_view().take(k + 1));
        k = k + 1;
    }
    assert(spec.argv.deep_view().take(k as int) =~= spec.argv.deep_view());
    assert(args.deep_view() =~= bwrap_args(*spec));
    args
}

/// Decides a command before any process starts: an unacceptable command
/// is `Invalid` whatever the binary; then a binary that is not a file is
/// `Unavailable`; otherwise the Bubblewrap arguments to run it with.
pub fn prepare(spec: &CommandSpec, binary_is_file: bool) -> (r: Result<Vec<String>, BubblewrapError>)
    ensures
        !command_acceptable(*spec) ==> (r matches Err(BubblewrapError::Invalid)),
        command_acceptable(*spec) && !binary_is_file ==> (r matches Err(BubblewrapError::Unavailable)),
        command_acceptable(*spec) && binary_is_file ==> (r matches Ok(a) && a.deep_view() == bwrap_args(*spec)),
{
    match validate(spec) {
        Err(e) => return Err(e),
        Ok(_) => {},
    }
    if capability(binary_is_file) != Capability::Can {
        return Err(BubblewrapError::Unavailable);
    }
    Ok(bwrap_arguments(spec))
}

/// What a watched run gives: the output it was held to when it exited
/// (whatever its status) unless some of it did not fit, then `Overflow`;
/// `Timeout` when its deadline passed first.
pub fn finish(end: ChildEnd, output: Vec<u8>, overflow: bool) -> (r: Result<Vec<u8>, BubblewrapError>)
    ensures
        r == match end {
            ChildEnd::TimedOut => Err(BubblewrapError::Timeout),
            ChildEnd::Exited { .. } => if overflow {
                Err(BubblewrapError::Overflow)
            } else {
                Ok(output)
            },
        },
{
    match end {
        ChildEnd::TimedOut => Err(BubblewrapError::Timeout),
        ChildEnd::Exited { .. } => if overflow {
            Err(BubblewrapError::Overflow)
        } else {
            Ok(output)
        },
    }
}

} // verus!
