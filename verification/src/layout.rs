//! The `.kero/` consumer layout: what initialization creates, how a
//! project or global environment is found again, and which identity it
//! must carry.
use crate::enforcement::state::{join_path, joined_path};
use crate::text::{insert_text_sorted, sorted_texts, text_eq};
use vstd::prelude::*;

verus! {

/// The directory a repository's environment lives in.
pub const DIRECTORY: &'static str = ".kero";

/// The identity file of a project environment.
pub const PROJECT: &'static str = "schema = \"kero/project/v1\"\nid = \"kero.project\"\nkind = \"project\"\n\n[paths]\nknowledge = \"knowledge.toml\"\npolicy_environment = \"policy/environment.toml\"\npolicy_records = [\"policy/records.toml\"]\nchecklists = \"checklists\"\ntests = \"tests\"\nstate = \"state\"\n";

/// The knowledge index of a project environment.
pub const PROJECT_KNOWLEDGE: &'static str = "version = 1\n\n[environment]\ncontexts = []\nbaseline = []\n\n[project]\nshared_root = \"knowledge/shared\"\nlocal_root = \"knowledge/local\"\ngenerated_root = \"state/generated\"\n";

/// The identity file of a global environment.
pub const GLOBAL: &'static str = "schema = \"kero/environment/v1\"\nid = \"kero.global\"\nkind = \"global\"\n\n[paths]\nknowledge = \"knowledge.toml\"\npolicy_environment = \"policy/environment.toml\"\npolicy_records = [\"policy/records.toml\"]\nchecklists = \"checklists\"\ntests = \"tests\"\nstate = \"state\"\n";

/// The knowledge index of a global environment.
pub const GLOBAL_KNOWLEDGE: &'static str = "version = 1\n\n[environment]\ncontexts = [\"global\"]\nbaseline = []\n\n[global]\nroot = \"knowledge\"\n";

/// The policy environment a project starts with: one origin-trusted
/// source of project records.
pub const ENVIRONMENT: &'static str = "schema = \"terminal-policy/environment/v1\"\nenvironment_id = \"environment.project\"\ncontext_providers = [\"branch\", \"environment\", \"project\", \"revocation\", \"time\"]\n\n[[sources]]\nid = \"source.project\"\nkind = \"project-policy\"\nlocator = \"records.toml\"\ntrust_mode = \"origin\"\nrecord_actions = [\"principal.define\", \"role.define\", \"role.assign\", \"statement.allow\", \"statement.deny\", \"delegation.issue\"]\noperations = [\"*\"]\nscope_universe = [\"branch\", \"command\", \"environment\", \"knowledge\", \"path\", \"repository\", \"service\"]\n";

/// The empty records file of a project.
pub const RECORDS: &'static str = "schema = \"terminal-policy/records/v1\"\nsource = \"source.project\"\n";

/// The policy environment a global environment starts with.
pub const GLOBAL_ENVIRONMENT: &'static str = "schema = \"terminal-policy/environment/v1\"\nenvironment_id = \"environment.global\"\ncontext_providers = [\"environment\", \"revocation\", \"time\"]\n\n[[sources]]\nid = \"source.global\"\nkind = \"global-policy\"\nlocator = \"records.toml\"\ntrust_mode = \"origin\"\nrecord_actions = [\"principal.define\", \"role.define\", \"role.assign\", \"statement.allow\", \"statement.deny\", \"delegation.issue\"]\noperations = [\"*\"]\nscope_universe = [\"branch\", \"command\", \"environment\", \"knowledge\", \"path\", \"repository\", \"service\"]\n";

/// The empty records file of a global environment.
pub const GLOBAL_RECORDS: &'static str = "schema = \"terminal-policy/records/v1\"\nsource = \"source.global\"\n";

/// The note in the tests directory.
pub const TESTS: &'static str = "# KERO Project Tests\n\nProject-owned policy and boundary scenarios live here.\n";

/// Why initialization failed.
#[derive(Clone, Debug, PartialEq, Eq)]
pub enum LayoutError {
    Io(String),
    Root(String),
}

/// What initialization did: its root, and the files it created and found
/// already there, each list sorted.
#[derive(Clone, Debug, PartialEq, Eq)]
pub struct InitializedLayout {
    pub schema: String,
    pub root: String,
    pub created: Vec<String>,
    pub existing: Vec<String>,
}

/// The identity an environment declares in its `kero.toml`.
#[derive(Clone, Debug, PartialEq, Eq)]
pub struct ScopeIdentity {
    pub schema: String,
    pub id: String,
    pub kind: String,
}

/// Why an environment could not be found.
#[derive(Clone, Debug, PartialEq, Eq)]
pub enum DiscoveryError {
    Io(String),
    Toml(String),
    Encode(String),
    HomeUnavailable,
    GlobalUnconfigured,
    ProjectNotFound(String),
    IdentityMismatch { expected: String, actual: String, path: String },
}

/// What initialization creates: the environment's directory, the
/// directories under it, and each file with its content, in the order they
/// are created. No file that exists is ever overwritten.
#[derive(Clone, Debug)]
pub struct LayoutPlan {
    pub root: String,
    pub directories: Vec<String>,
    pub files: Vec<(String, String)>,
}

/// The plan as texts: root, directories, and files with contents.
pub open spec fn plan_view(p: LayoutPlan) -> (Seq<char>, Seq<Seq<char>>, Seq<(Seq<char>, Seq<char>)>) {
    (p.root@, p.directories.deep_view(), p.files@.map_values(|f: (String, String)| (f.0@, f.1@)))
}

/// The layout of a project environment under repository `root`: `.kero/`
/// with its policy, tests, state, checklists and two knowledge directories,
/// and six files.
pub open spec fn project_plan(root: Seq<char>) -> (Seq<char>, Seq<Seq<char>>, Seq<(Seq<char>, Seq<char>)>) {
    let d = joined_path(root, DIRECTORY@);
    let knowledge = joined_path(d, "knowledge"@);
    (
        d,
        seq![
            joined_path(d, "policy"@),
            joined_path(d, "tests"@),
            joined_path(d, "state"@),
            joined_path(d, "checklists"@),
            joined_path(knowledge, "shared"@),
            joined_path(knowledge, "local"@),
        ],
        seq![
            (joined_path(d, "kero.toml"@), PROJECT@),
            (joined_path(d, ".gitignore"@), "/state/\n/knowledge/local/\n"@),
            (joined_path(d, "knowledge.toml"@), PROJECT_KNOWLEDGE@),
            (joined_path(joined_path(d, "policy"@), "environment.toml"@), ENVIRONMENT@),
            (joined_path(joined_path(d, "policy"@), "records.toml"@), RECORDS@),
            (joined_path(joined_path(d, "tests"@), "README.md"@), TESTS@),
        ],
    )
}

/// The layout of a global environment at `root` itself.
pub open spec fn global_plan(root: Seq<char>) -> (Seq<char>, Seq<Seq<char>>, Seq<(Seq<char>, Seq<char>)>) {
    (
        root,
        seq![
            root,
            joined_path(root, "policy"@),
            joined_path(root, "tests"@),
            joined_path(root, "state"@),
            joined_path(root, "checklists"@),
            joined_path(root, "knowledge"@),
        ],
        seq![
            (joined_path(root, "kero.toml"@), GLOBAL@),
            (joined_path(root, "knowledge.toml"@), GLOBAL_KNOWLEDGE@),
            (joined_path(root, ".gitignore"@), "/state/\n"@),
            (joined_path(joined_path(root, "policy"@), "environment.toml"@), GLOBAL_ENVIRONMENT@),
            (joined_path(joined_path(root, "policy"@), "records.toml"@), GLOBAL_RECORDS@),
            (joined_path(joined_path(root, "tests"@), "README.md"@), TESTS@),
        ],
    )
}

fn file_entry(dir: &str, name: &str, content: &str) -> (r: (String, String))
    ensures
        r.0@ == joined_path(dir@, name@),
        r.1@ == content@,
{
    (join_path(dir, name), String::from_str(content))
}

/// The layout of a project environment (see `project_plan`).
pub fn project_layout(root: &str) -> (r: LayoutPlan)
    ensures
        plan_view(r) == project_plan(root@),
{
    let d = join_path(root, DIRECTORY);
    let policy = join_path(d.as_str(), "policy");
    let tests = join_path(d.as_str(), "tests");
    let knowledge = join_path(d.as_str(), "knowledge");
    let directories = vec![
        join_path(d.as_str(), "policy"),
        join_path(d.as_str(), "tests"),
        join_path(d.as_str(), "state"),
        join_path(d.as_str(), "checklists"),
        join_path(knowledge.as_str(), "shared"),
        join_path(knowledge.as_str(), "local"),
    ];
    let files = vec![
        file_entry(d.as_str(), "kero.toml", PROJECT),
        file_entry(d.as_str(), ".gitignore", "/state/\n/knowledge/local/\n"),
        file_entry(d.as_str(), "knowledge.toml", PROJECT_KNOWLEDGE),
        file_entry(policy.as_str(), "environment.toml", ENVIRONMENT),
        file_entry(policy.as_str(), "records.toml", RECORDS),
        file_entry(tests.as_str(), "README.md", TESTS),
    ];
    let r = LayoutPlan { root: d, directories, files };
    assert(plan_view(r).1 =~= project_plan(root@).1);
    assert(plan_view(r).2 =~= project_plan(root@).2);
    r
}

/// The layout of a global environment (see `global_plan`).
pub fn global_layout(root: &str) -> (r: LayoutPlan)
    ensures
        plan_view(r) == global_plan(root@),
{
    let policy = join_path(root, "policy");
    let tests = join_path(root, "tests");
    let directories = vec![
        String::from_str(root),
        join_path(root, "policy"),
        join_path(root, "tests"),
        join_path(root, "state"),
        join_path(root, "checklists"),
        join_path(root, "knowledge"),
    ];
    let files = vec![
        file_entry(root, "kero.toml", GLOBAL),
        file_entry(root, "knowledge.toml", GLOBAL_KNOWLEDGE),
        file_entry(root, ".gitignore", "/state/\n"),
        file_entry(policy.as_str(), "environment.toml", GLOBAL_ENVIRONMENT),
        file_entry(policy.as_str(), "records.toml", GLOBAL_RECORDS),
        file_entry(tests.as_str(), "README.md", TESTS),
    ];
    let r = LayoutPlan { root: String::from_str(root), directories, files };
    assert(plan_view(r).1 =~= global_plan(root@).1);
    assert(plan_view(r).2 =~= global_plan(root@).2);
    r
}

impl InitializedLayout {
    /// A result with nothing created or found yet.
    pub fn new(schema: String, root: String) -> (r: InitializedLayout)
        ensures
            r.schema@ == schema@,
            r.root@ == root@,
            r.created@.len() == 0,
            r.existing@.len() == 0,
    {
        InitializedLayout { schema, root, created: Vec::new(), existing: Vec::new() }
    }

    /// Records that `path` was created, or that it was already there, in
    /// the sorted list it belongs to.
    pub fn record(&mut self, path: String, created: bool)
        requires
            sorted_texts(old(self).created.deep_view()),
            sorted_texts(old(self).existing.deep_view()),
        ensures
            sorted_texts(final(self).created.deep_view()),
            sorted_texts(final(self).existing.deep_view()),
            final(self).schema == old(self).schema,
            final(self).root == old(self).root,
            created ==> final(self).created.deep_view().to_set() == old(self).created.deep_view().to_set().insert(
                path@,
            ) && final(self).existing == old(self).existing,
            !created ==> final(self).existing.deep_view().to_set() == old(self).existing.deep_view().to_set().insert(
                path@,
            ) && final(self).created == old(self).created,
    {
        if created {
            insert_text_sorted(&mut self.created, path);
        } else {
            insert_text_sorted(&mut self.existing, path);
        }
    }
}

/// Checks the identity found at `root`: its kind must be `expected_kind`,
/// and its id `expected_id` where one is required; a mismatch names what
/// was expected, what was found and where.
pub fn require_identity(root: String, identity: ScopeIdentity, expected_kind: &str, expected_id: Option<&str>) -> (r:
    Result<(String, ScopeIdentity), DiscoveryError>)
    ensures
        identity.kind@ != expected_kind@ ==> (r matches Err(DiscoveryError::IdentityMismatch { expected, actual, path })
            && expected@ == expected_kind@ && actual@ == identity.kind@ && path@ == root@),
        identity.kind@ == expected_kind@ ==> match expected_id {
            Some(x) => if identity.id@ != x@ {
                r matches Err(DiscoveryError::IdentityMismatch { expected, actual, path }) && expected@ == x@
                    && actual@ == identity.id@ && path@ == root@
            } else {
                r == Ok::<(String, ScopeIdentity), DiscoveryError>((root, identity))
            },
            None => r == Ok::<(String, ScopeIdentity), DiscoveryError>((root, identity)),
        },
{
    if !text_eq(identity.kind.as_str(), expected_kind) {
        return Err(
            DiscoveryError::IdentityMismatch {
                expected: String::from_str(expected_kind),
                actual: identity.kind,
                path: root,
            },
        );
    }
    match expected_id {
        Some(x) => {
            if !text_eq(identity.id.as_str(), x) {
                return Err(
                    DiscoveryError::IdentityMismatch {
                        expected: String::from_str(x),
                        actual: identity.id,
                        path: root,
                    },
                );
            }
        },
        None => {},
    }
    Ok((root, identity))
}

/// Where the user configuration is: `config.toml` under
/// `KERO_CONFIG_HOME`, else `kero/config.toml` under `XDG_CONFIG_HOME`,
/// else `.config/kero/config.toml` under the home directory; with none of
/// them, `HomeUnavailable`.
pub fn config_path(config_home: Option<&str>, xdg_config_home: Option<&str>, home: Option<&str>) -> (r: Result<
    String,
    DiscoveryError,
>)
    ensures
        match (config_home, xdg_config_home, home) {
            (Some(c), _, _) => r matches Ok(p) && p@ == joined_path(c@, "config.toml"@),
            (None, Some(x), _) => r matches Ok(p) && p@ == joined_path(x@, "kero/config.toml"@),
            (None, None, Some(h)) => r matches Ok(p) && p@ == joined_path(h@, ".config/kero/config.toml"@),
            (None, None, None) => r matches Err(DiscoveryError::HomeUnavailable),
        },
{
    match (config_home, xdg_config_home, home) {
        (Some(c), _, _) => Ok(join_path(c, "config.toml")),
        (None, Some(x), _) => Ok(join_path(x, "kero/config.toml")),
        (None, None, Some(h)) => Ok(join_path(h, ".config/kero/config.toml")),
        (None, None, None) => Err(DiscoveryError::HomeUnavailable),
    }
}

/// Which global root to check, and the id it must then carry, in order: an
/// explicit root; the `KERO_GLOBAL_ROOT` root; the root the user
/// configuration names (when the configuration path can be had and is a
/// file), with its required id; `.kero` under the home directory when its
/// `kero.toml` is a file. `config` is how the configuration file read, when
/// it is a file: its root and required id. `fallback_is_file` tells whether
/// `.kero/kero.toml` under the home directory is a file.
pub fn global_root(
    explicit: Option<String>,
    environment_root: Option<String>,
    config_path: Result<String, DiscoveryError>,
    config: Option<Result<(String, String), DiscoveryError>>,
    home: Option<String>,
    fallback_is_file: bool,
) -> (r: Result<(String, Option<String>), DiscoveryError>)
    ensures
        explicit matches Some(e) ==> r == Ok::<(String, Option<String>), DiscoveryError>((e, None)),
        explicit is None ==> (environment_root matches Some(e) ==> r == Ok::<(String, Option<String>), DiscoveryError>(
            (e, None),
        )),
        explicit is None && environment_root is None ==> match config_path {
            Err(e) => r == Err::<(String, Option<String>), DiscoveryError>(e),
            Ok(_) => match config {
                Some(Err(e)) => r == Err::<(String, Option<String>), DiscoveryError>(e),
                Some(Ok((root, id))) => r == Ok::<(String, Option<String>), DiscoveryError>((root, Some(id))),
                None => match home {
                    None => r matches Err(DiscoveryError::HomeUnavailable),
                    Some(h) => if fallback_is_file {
                        r matches Ok((p, None)) && p@ == joined_path(h@, DIRECTORY@)
                    } else {
                        r matches Err(DiscoveryError::GlobalUnconfigured)
                    },
                },
            },
        },
{
    if let Some(e) = explicit {
        return Ok((e, None));
    }
    if let Some(e) = environment_root {
        return Ok((e, None));
    }
    match config_path {
        Err(e) => return Err(e),
        Ok(_) => {},
    }
    match config {
        Some(Err(e)) => return Err(e),
        Some(Ok((root, id))) => return Ok((root, Some(id))),
        None => {},
    }
    match home {
        None => Err(DiscoveryError::HomeUnavailable),
        Some(h) => if fallback_is_file {
            Ok((join_path(h.as_str(), DIRECTORY), None))
        } else {
            Err(DiscoveryError::GlobalUnconfigured)
        },
    }
}

/// The index of the last `/` in `p`, or -1.
pub open spec fn last_slash(p: Seq<char>) -> int
    decreases p.len(),
{
    if p.len() == 0 {
        -1
    } else if p.last() == '/' {
        p.len() - 1
    } else {
        last_slash(p.drop_last())
    }
}

pub proof fn lemma_last_slash(p: Seq<char>)
    ensures
        -1 <= last_slash(p) < p.len(),
        last_slash(p) >= 0 ==> p[last_slash(p)] == '/',
        forall|j: int| last_slash(p) < j < p.len() ==> p[j] != '/',
    decreases p.len(),
{
    if p.len() > 0 && p.last() != '/' {
        lemma_last_slash(p.drop_last());
        assert forall|j: int| last_slash(p) < j < p.len() implies p[j] != '/' by {
            if j < p.len() - 1 {
                assert(p.drop_last()[j] == p[j]);
            }
        }
    }
}

/// The directory a path is in, as `Path::parent` gives it for a canonical
/// absolute path: what comes before its last `/`, or `/` for an entry of the
/// root; the root itself, and a path without `/`, have none.
pub open spec fn parent_of(p: Seq<char>) -> Option<Seq<char>> {
    let k = last_slash(p);
    if k < 0 {
        None
    } else if k == 0 {
        if p.len() == 1 {
            None
        } else {
            Some(seq!['/'])
        }
    } else {
        Some(p.take(k))
    }
}

/// `p` and the directories above it, nearest first, up to the root.
pub open spec fn ancestors(p: Seq<char>) -> Seq<Seq<char>>
    decreases p.len(),
{
    match parent_of(p) {
        None => seq![p],
        Some(q) => {
            proof {
                lemma_last_slash(p);
            }
            seq![p] + ancestors(q)
        },
    }
}

/// Where a project environment is looked for from `start`, nearest first:
/// `.kero` in the start directory (or in the directory of a start that is
/// not one) and in each directory above it.
pub open spec fn project_candidates_spec(start: Seq<char>, start_is_dir: bool) -> Seq<Seq<char>> {
    let current = if start_is_dir {
        start
    } else {
        match parent_of(start) {
            Some(q) => q,
            None => start,
        }
    };
    ancestors(current).map_values(|a: Seq<char>| joined_path(a, DIRECTORY@))
}

fn parent_dir(p: &str) -> (r: Option<String>)
    ensures
        match parent_of(p@) {
            None => r is None,
            Some(q) => r matches Some(s) && s@ == q,
        },
{
    let v = crate::text::chars_of(p);
    let mut i: usize = v.len();
    while i > 0 && v[i - 1] != '/'
        invariant
            v@ == p@,
            i <= v@.len(),
            forall|j: int| i <= j < v@.len() ==> v@[j] != '/',
        decreases i,
    {
        i = i - 1;
    }
    proof {
        lemma_last_slash(p@);
        let k = last_slash(p@);
        if i > 0 {
            assert(v@[i - 1] == '/');
            if k > i - 1 {
                assert(p@[k] == '/');
            }
            assert(k == i - 1);
        } else {
            if k >= 0 {
                assert(p@[k] == '/');
            }
            assert(k == -1);
        }
    }
    if i == 0 {
        return None;
    }
    if i == 1 {
        if v.len() == 1 {
            return None;
        }
        proof {
            reveal_strlit("/");
        }
        let s = String::from_str("/");
        assert(s@ =~= seq!['/']);
        return Some(s);
    }
    Some(crate::text::slice_text(p, 0, i - 1))
}

/// Where a project environment is looked for (see
/// `project_candidates_spec`).
pub fn project_candidates(start: &str, start_is_dir: bool) -> (r: Vec<String>)
    ensures
        r.deep_view() == project_candidates_spec(start@, start_is_dir),
{
    let mut current = if start_is_dir {
        String::from_str(start)
    } else {
        match parent_dir(start) {
            Some(q) => q,
            None => String::from_str(start),
        }
    };
    let ghost first = current@;
    let ghost f = |a: Seq<char>| joined_path(a, DIRECTORY@);
    let mut out: Vec<String> = Vec::new();
    loop
        invariant
            out.deep_view() + ancestors(current@).map_values(f) == ancestors(first).map_values(f),
            f == (|a: Seq<char>| joined_path(a, DIRECTORY@)),
            first == (if start_is_dir {
                start@
            } else {
                match parent_of(start@) {
                    Some(q) => q,
                    None => start@,
                }
            }),
        decreases current@.len(),
    {
        let ghost before = out.deep_view();
        let ghost cur = current@;
        out.push(join_path(current.as_str(), DIRECTORY));
        proof {
            assert(out.deep_view() =~= before.push(f(cur)));
            lemma_last_slash(cur);
        }
        match parent_dir(current.as_str()) {
            None => {
                proof {
                    assert(ancestors(cur) == seq![cur]);
                    assert(ancestors(cur).map_values(f) =~= seq![f(cur)]);
                    assert(out.deep_view() =~= before + ancestors(cur).map_values(f));
                    assert(out.deep_view() == ancestors(first).map_values(f));
                    assert(ancestors(first).map_values(f) =~= project_candidates_spec(start@, start_is_dir));
                }
                return out;
            },
            Some(q) => {
                proof {
                    let qa = ancestors(q@);
                    assert(ancestors(cur) == seq![cur] + qa);
                    assert(ancestors(cur).map_values(f) =~= seq![f(cur)] + qa.map_values(f));
                    assert(out.deep_view() + qa.map_values(f) =~= before + ancestors(cur).map_values(f));
                }
                current = q;
            },
        }
    }
}

/// The first decisive reading among the candidates from `i` on: a reading
/// that failed, or an identity of kind `project`; a candidate whose
/// `kero.toml` is not a file (no reading), or whose identity is of another
/// kind, is passed over.
pub open spec fn first_project(
    candidates: Seq<Seq<char>>,
    readings: Seq<Option<Result<ScopeIdentity, DiscoveryError>>>,
    i: int,
) -> Option<Result<(Seq<char>, ScopeIdentity), DiscoveryError>>
    decreases candidates.len() - i,
{
    if i < 0 || i >= candidates.len() || i >= readings.len() {
        None
    } else {
        match readings[i] {
            Some(Err(e)) => Some(Err(e)),
            Some(Ok(id)) => if id.kind@ == "project"@ {
                Some(Ok((candidates[i], id)))
            } else {
                first_project(candidates, readings, i + 1)
            },
            None => first_project(candidates, readings, i + 1),
        }
    }
}

/// Finds the nearest project environment from a canonical `start`.
/// `readings[i]` is what reading `kero.toml` in the i-th candidate of
/// `project_candidates` gave, or `None` where it is not a file; readings
/// past the first decisive one are never looked at. With none decisive,
/// `ProjectNotFound` names the start.
pub fn discover_project(start: &str, start_is_dir: bool, readings: Vec<Option<Result<ScopeIdentity, DiscoveryError>>>) -> (r:
    Result<(String, ScopeIdentity), DiscoveryError>)
    ensures
        match first_project(project_candidates_spec(start@, start_is_dir), readings@, 0) {
            Some(Err(e)) => r == Err::<(String, ScopeIdentity), DiscoveryError>(e),
            Some(Ok((c, id))) => r matches Ok((p, x)) && p@ == c && x == id,
            None => r matches Err(DiscoveryError::ProjectNotFound(s)) && s@ == start@,
        },
{
    let candidates = project_candidates(start, start_is_dir);
    let ghost cands = candidates.deep_view();
    let ghost all = readings@;
    let mut i: usize = 0;
    while i < candidates.len() && i < readings.len()
        invariant
            cands == candidates.deep_view(),
            cands == project_candidates_spec(start@, start_is_dir),
            readings@ == all,
            i <= candidates.len(),
            first_project(cands, all, 0) == first_project(cands, all, i as int),
        decreases candidates.len() - i,
    {
        let decisive = match &readings[i] {
            Some(Err(_)) => true,
            Some(Ok(id)) => text_eq(id.kind.as_str(), "project"),
            None => false,
        };
        proof {
            reveal_strlit("project");
        }
        if decisive {
            assert(first_project(project_candidates_spec(start@, start_is_dir), readings@, 0) == first_project(cands, all, 0));
            let mut pending = readings;
            let reading = pending.remove(i);
            assert(reading == all[i as int]);
            assert(cands[i as int] == candidates@[i as int]@);
            assert(first_project(cands, all, i as int) == match all[i as int] {
                Some(Err(e)) => Some(Err(e)),
                Some(Ok(id)) => if id.kind@ == "project"@ {
                    Some(Ok((cands[i as int], id)))
                } else {
                    first_project(cands, all, i + 1)
                },
                None => first_project(cands, all, i + 1),
            });
            assert(reading is Some);
            assert(first_project(cands, all, 0) == first_project(cands, all, i as int));
            match reading {
                Some(Err(e)) => {
                    assert(first_project(cands, all, i as int) == Some(Err::<(Seq<char>, ScopeIdentity), DiscoveryError>(e)));
                    return Err(e);
                },
                Some(Ok(id)) => {
                    let c = crate::text::copy_text(&candidates[i]);
                    assert(id.kind@ == "project"@);
                    assert(first_project(cands, all, i as int) == Some(Ok::<(Seq<char>, ScopeIdentity), DiscoveryError>((c@, id))));
                    return Ok((c, id));
                },
                None => {
                    return Err(DiscoveryError::HomeUnavailable);
                },
            }
        }
        i = i + 1;
    }
    Err(DiscoveryError::ProjectNotFound(String::from_str(start)))
}

} // verus!
