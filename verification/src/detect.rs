//! Where a repository's handoff files live and what its projects are
//! called: the `.ctx` paths, project names from package manifests, and the
//! managed block of `.gitignore`. The command line tool reads the files and
//! runs git; these functions decide.

use vstd::prelude::*;

use crate::model::HandoffState;
use crate::naming::{sanitize_name, sanitize_spec};
use crate::paths::{file_name, file_name_of};
use crate::text::{
    chars_of, ends_with, ends_with_exec, lines, lines_vec, owned, starts_with, starts_with_exec, str_eq,
    string_of, trim, trim_vec, vv,
};

verus! {

/// A repository: its root, the working directory and the root's base name.
#[derive(Debug, Clone, PartialEq, Eq)]
pub struct RepoContext {
    pub repo_root: String,
    pub cwd: String,
    pub base_name: String,
}

/// The files of a project's handoff under the repository's `.ctx`.
#[derive(Debug, Clone, PartialEq, Eq)]
pub struct HandoffPaths {
    pub repo_root: String,
    pub ctx_dir: String,
    pub handoff_path: String,
    pub state_path: String,
    pub rendered_path: String,
    pub handover_path: String,
    pub project: String,
    pub base_name: String,
}

/// What a refresh found: the `.ctx` directory and the packages.
#[derive(Debug, Clone, PartialEq, Eq)]
pub struct RefreshReport {
    pub ctx_dir: String,
    pub packages: Vec<String>,
}

/// `Path::join` of a relative path: `b` under `a`.
pub open spec fn path_join(a: Seq<char>, b: Seq<char>) -> Seq<char> {
    if a.len() == 0 {
        b
    } else if a.last() == '/' {
        a + b
    } else {
        a + "/"@ + b
    }
}

/// `Path::join` of a relative path.
pub fn join_path(a: &str, b: &str) -> (r: String)
    ensures
        r@ == path_join(a@, b@),
{
    let n = a.unicode_len();
    if n == 0 {
        return owned(b);
    }
    let mut r = owned(a);
    if a.get_char(n - 1) != '/' {
        r.append("/");
    }
    r.append(b);
    r
}

/// The name of a project's handoff file.
pub open spec fn handoff_file_name(project: Seq<char>, base: Seq<char>) -> Seq<char> {
    "HANDOFF."@ + project + "."@ + base + ".yaml"@
}

/// The name of a project's session-state file.
pub open spec fn state_file_name(project: Seq<char>, base: Seq<char>) -> Seq<char> {
    "HANDOFF."@ + project + "."@ + base + ".state.json"@
}

/// The name of a project's session-state file.
pub fn state_file(project: &str, base: &str) -> (r: String)
    ensures
        r@ == state_file_name(project@, base@),
{
    let mut r = owned("HANDOFF.");
    r.append(project);
    r.append(".");
    r.append(base);
    r.append(".state.json");
    r
}

/// The name of a project's handoff file.
pub fn handoff_file(project: &str, base: &str) -> (r: String)
    ensures
        r@ == handoff_file_name(project@, base@),
{
    let mut r = owned("HANDOFF.");
    r.append(project);
    r.append(".");
    r.append(base);
    r.append(".yaml");
    r
}

/// The project name of a directory: the name its manifest gives, else the
/// name of the repository root's manifest, else the directory's own name;
/// sanitized. `None` when none applies (a directory without a name).
pub open spec fn derive_project_spec(
    cwd_manifest: Option<Seq<char>>,
    root_manifest: Option<Seq<char>>,
    cwd: Seq<char>,
) -> Option<Seq<char>> {
    match cwd_manifest {
        Some(n) => Some(sanitize_spec(n)),
        None => match root_manifest {
            Some(n) => Some(sanitize_spec(n)),
            None => match file_name(cwd) {
                Some(n) => Some(sanitize_spec(n)),
                None => None,
            },
        },
    }
}

/// The project name of the directory `cwd`, given the names that the
/// manifests of `cwd` and of the repository root declare.
pub fn derive_project_name(
    cwd_manifest: Option<&str>,
    root_manifest: Option<&str>,
    cwd: &str,
) -> (r: Option<String>)
    ensures
        match r {
            Some(s) => derive_project_spec(
                match cwd_manifest {
                    Some(m) => Some(m@),
                    None => None,
                },
                match root_manifest {
                    Some(m) => Some(m@),
                    None => None,
                },
                cwd@,
            ) == Some(s@),
            None => derive_project_spec(
                match cwd_manifest {
                    Some(m) => Some(m@),
                    None => None,
                },
                match root_manifest {
                    Some(m) => Some(m@),
                    None => None,
                },
                cwd@,
            ) is None,
        },
{
    match cwd_manifest {
        Some(n) => Some(sanitize_name(n)),
        None => match root_manifest {
            Some(n) => Some(sanitize_name(n)),
            None => match file_name_of(cwd) {
                Some(n) => Some(sanitize_name(n.as_str())),
                None => None,
            },
        },
    }
}

/// The handoff paths of project `project` in a repository.
pub open spec fn paths_spec(repo_root: Seq<char>, base: Seq<char>, project: Seq<char>) -> (
    Seq<char>,
    Seq<char>,
    Seq<char>,
    Seq<char>,
    Seq<char>,
) {
    let ctx = path_join(repo_root, ".ctx"@);
    (
        ctx,
        path_join(ctx, handoff_file_name(project, base)),
        path_join(ctx, state_file_name(project, base)),
        path_join(ctx, "HANDOFF.md"@),
        path_join(ctx, "HANDOVER.md"@),
    )
}

impl RepoContext {
    /// The repository whose root git reports as `toplevel` (surrounding
    /// whitespace dropped), seen from `cwd`. `None` when the root has no
    /// base name.
    pub fn from_toplevel(toplevel: &str, cwd: String) -> (r: Option<RepoContext>)
        ensures
            match r {
                Some(c) => c.repo_root@ == trim(toplevel@) && c.cwd@ == cwd@ && file_name(trim(toplevel@))
                    == Some(c.base_name@),
                None => file_name(trim(toplevel@)) is None,
            },
    {
        let root = string_of(trim_vec(&chars_of(toplevel)).as_slice());
        match file_name_of(root.as_str()) {
            Some(base_name) => Some(RepoContext { repo_root: root, cwd, base_name }),
            None => None,
        }
    }

    /// The project name of the working directory, given the names that the
    /// manifests of the working directory and of the repository root
    /// declare. `None` when the working directory has no name to fall back on.
    pub fn project_name(&self, cwd_manifest: Option<&str>, root_manifest: Option<&str>) -> (r: Option<
        String,
    >)
        ensures
            match r {
                Some(s) => derive_project_spec(
                    match cwd_manifest {
                        Some(m) => Some(m@),
                        None => None,
                    },
                    match root_manifest {
                        Some(m) => Some(m@),
                        None => None,
                    },
                    self.cwd@,
                ) == Some(s@),
                None => derive_project_spec(
                    match cwd_manifest {
                        Some(m) => Some(m@),
                        None => None,
                    },
                    match root_manifest {
                        Some(m) => Some(m@),
                        None => None,
                    },
                    self.cwd@,
                ) is None,
            },
    {
        derive_project_name(cwd_manifest, root_manifest, self.cwd.as_str())
    }

    /// The handoff paths of a project: the explicit project when given,
    /// else the derived one, sanitized; files under `<root>/.ctx`.
    pub fn paths(&self, explicit_project: Option<&str>, derived_project: &str) -> (r: HandoffPaths)
        ensures
            r.project@ == sanitize_spec(
                match explicit_project {
                    Some(p) => p@,
                    None => derived_project@,
                },
            ),
            (r.ctx_dir@, r.handoff_path@, r.state_path@, r.rendered_path@, r.handover_path@)
                == paths_spec(self.repo_root@, self.base_name@, r.project@),
            r.repo_root@ == self.repo_root@,
            r.base_name@ == self.base_name@,
    {
        let project = match explicit_project {
            Some(p) => sanitize_name(p),
            None => sanitize_name(derived_project),
        };
        let ctx_dir = join_path(self.repo_root.as_str(), ".ctx");
        let handoff_path = join_path(ctx_dir.as_str(), handoff_file(project.as_str(), self.base_name.as_str()).as_str());
        let state_path = join_path(ctx_dir.as_str(), state_file(project.as_str(), self.base_name.as_str()).as_str());
        let rendered_path = join_path(ctx_dir.as_str(), "HANDOFF.md");
        let handover_path = join_path(ctx_dir.as_str(), "HANDOVER.md");
        HandoffPaths {
            repo_root: self.repo_root.clone(),
            ctx_dir,
            handoff_path,
            state_path,
            rendered_path,
            handover_path,
            project,
            base_name: self.base_name.clone(),
        }
    }
}

/// The state a refresh writes for a package that has none: dated today, on
/// the current branch, with build and tests unknown.
pub fn initial_state(today: &str, branch: &str) -> (r: HandoffState)
    ensures
        crate::items::ov(r.updated) == Some(today@),
        crate::items::ov(r.branch) == Some(branch@),
        crate::items::ov(r.build) == Some("unknown"@),
        crate::items::ov(r.tests) == Some("unknown"@),
        r.notes is None,
        r.touched_files@.len() == 0,
        r.last_log is None,
        r.extra.len_spec() == 0,
{
    let mut s = HandoffState::default();
    s.updated = Some(owned(today));
    s.branch = Some(owned(branch));
    s.build = Some(owned("unknown"));
    s.tests = Some(owned("unknown"));
    s
}

/// Directories a survey does not descend into.
pub open spec fn ignored_dir_name(name: Seq<char>) -> bool {
    name == ".git"@ || name == "target"@ || name == "vendor"@ || name == "__pycache__"@ || name
        == "worktrees"@ || name == ".tmp-dogfood"@ || name == "examples"@
}

/// Is the directory at `path` one a survey skips (by its last component)?
pub fn is_ignored_dir(path: &str) -> (r: bool)
    ensures
        r == match file_name(path@) {
            Some(n) => ignored_dir_name(n),
            None => false,
        },
{
    match file_name_of(path) {
        Some(n) => {
            let n = n.as_str();
            str_eq(n, ".git") || str_eq(n, "target") || str_eq(n, "vendor") || str_eq(n, "__pycache__")
                || str_eq(n, "worktrees") || str_eq(n, ".tmp-dogfood") || str_eq(n, "examples")
        },
        None => false,
    }
}

/// A TOML value as a manifest lookup reads it: strings, tables (with
/// their keys in order) and anything else.
#[derive(Debug)]
pub enum TomlValue {
    String(String),
    Table(Vec<(String, TomlValue)>),
    Other,
}

/// The value under `key` of a table (the first entry with
/// that key), `None` for a missing key or a value that is not a table.
pub open spec fn toml_get(v: TomlValue, key: Seq<char>) -> Option<TomlValue> {
    match v {
        TomlValue::Table(t) => toml_entry(t@, key),
        _ => None,
    }
}

pub open spec fn toml_entry(t: Seq<(String, TomlValue)>, key: Seq<char>) -> Option<TomlValue>
    decreases t.len(),
{
    if t.len() == 0 {
        None
    } else if t[0].0@ == key {
        Some(t[0].1)
    } else {
        toml_entry(t.drop_first(), key)
    }
}

/// The string at a path of keys, if there is one.
pub open spec fn toml_str_at(v: TomlValue, keys: Seq<Seq<char>>) -> Option<Seq<char>>
    decreases keys.len(),
{
    if keys.len() == 0 {
        match v {
            TomlValue::String(s) => Some(s@),
            _ => None,
        }
    } else {
        match toml_get(v, keys[0]) {
            Some(x) => toml_str_at(x, keys.drop_first()),
            None => None,
        }
    }
}

/// The module name a `go.mod` line declares: the last path segment of a
/// `module ` line, trimmed, when not empty.
pub open spec fn go_module_line(l: Seq<char>) -> Option<Seq<char>> {
    if starts_with(l, "module "@) {
        let n = trim(crate::text::split_on(l.subrange(7, l.len() as int), '/').last());
        if n.len() > 0 {
            Some(n)
        } else {
            None
        }
    } else {
        None
    }
}

/// The first module name the lines declare.
pub open spec fn go_module_name(ls: Seq<Seq<char>>) -> Option<Seq<char>>
    decreases ls.len(),
{
    if ls.len() == 0 {
        None
    } else {
        match go_module_line(ls[0]) {
            Some(n) => Some(n),
            None => go_module_name(ls.drop_first()),
        }
    }
}

/// The package name a directory's manifests declare: `package.name` of
/// `Cargo.toml`, else `project.name` or `tool.poetry.name` of
/// `pyproject.toml`, else the module of `go.mod` (each when present).
pub open spec fn manifest_name_spec(
    cargo: Option<TomlValue>,
    pyproject: Option<TomlValue>,
    go_mod: Option<Seq<char>>,
) -> Option<Seq<char>> {
    let c = match cargo {
        Some(d) => toml_str_at(d, seq!["package"@, "name"@]),
        None => None,
    };
    let p = match pyproject {
        Some(d) => match toml_str_at(d, seq!["project"@, "name"@]) {
            Some(n) => Some(n),
            None => toml_str_at(d, seq!["tool"@, "poetry"@, "name"@]),
        },
        None => None,
    };
    let g = match go_mod {
        Some(s) => go_module_name(lines(s)),
        None => None,
    };
    if c is Some {
        c
    } else if p is Some {
        p
    } else {
        g
    }
}

/// The value under `key` of a table.
fn toml_get_exec<'a>(v: &'a TomlValue, key: &str) -> (r: Option<&'a TomlValue>)
    ensures
        match r {
            Some(x) => toml_get(*v, key@) == Some(*x),
            None => toml_get(*v, key@) is None,
        },
{
    match v {
        TomlValue::Table(t) => {
            let mut k: usize = 0;
            assert(t@.subrange(0, t@.len() as int) =~= t@);
            while k < t.len()
                invariant
                    k <= t@.len(),
                    *v == TomlValue::Table(*t),
                    toml_entry(t@, key@) == toml_entry(t@.subrange(k as int, t@.len() as int), key@),
                decreases t.len() - k,
            {
                let ghost rest = t@.subrange(k as int, t@.len() as int);
                assert(rest[0] == t@[k as int]);
                if str_eq(t[k].0.as_str(), key) {
                    assert(toml_entry(rest, key@) == Some(rest[0].1));
                    return Some(&t[k].1);
                }
                assert(rest.drop_first() =~= t@.subrange(k + 1, t@.len() as int));
                k = k + 1;
            }
            None
        },
        _ => None,
    }
}

/// The string at a path of two or three keys.
fn toml_str_path(v: &TomlValue, a: &str, b: &str, c: Option<&str>) -> (r: Option<String>)
    ensures
        match c {
            None => match r {
                Some(s) => toml_str_at(*v, seq![a@, b@]) == Some(s@),
                None => toml_str_at(*v, seq![a@, b@]) is None,
            },
            Some(c) => match r {
                Some(s) => toml_str_at(*v, seq![a@, b@, c@]) == Some(s@),
                None => toml_str_at(*v, seq![a@, b@, c@]) is None,
            },
        },
{
    proof {
        reveal_with_fuel(toml_str_at, 4);
    }
    let ghost k2 = seq![a@, b@];
    let ghost k3 = seq![a@, b@, c.unwrap_or("")@];
    assert(k2.drop_first() =~= seq![b@]);
    assert(k2.drop_first().drop_first() =~= Seq::<Seq<char>>::empty());
    assert(k3.drop_first() =~= seq![b@, c.unwrap_or("")@]);
    assert(k3.drop_first().drop_first() =~= seq![c.unwrap_or("")@]);
    assert(k3.drop_first().drop_first().drop_first() =~= Seq::<Seq<char>>::empty());
    let x = match toml_get_exec(v, a) {
        Some(x) => x,
        None => return None,
    };
    let y = match toml_get_exec(x, b) {
        Some(y) => y,
        None => return None,
    };
    let z = match c {
        None => y,
        Some(c) => match toml_get_exec(y, c) {
            Some(z) => z,
            None => return None,
        },
    };
    match z {
        TomlValue::String(s) => Some(s.clone()),
        _ => None,
    }
}

/// The module name of a `go.mod` line.
fn go_module_line_exec(l: &Vec<char>) -> (r: Option<String>)
    ensures
        match r {
            Some(s) => go_module_line(l@) == Some(s@),
            None => go_module_line(l@) is None,
        },
{
    let prefix = chars_of("module ");
    proof {
        reveal_strlit("module ");
    }
    if !starts_with_exec(l, &prefix) {
        return None;
    }
    let mut rest: Vec<char> = Vec::new();
    let mut k: usize = 7;
    while k < l.len()
        invariant
            7 <= k <= l@.len(),
            rest@ == l@.subrange(7, k as int),
        decreases l.len() - k,
    {
        rest.push(l[k]);
        k = k + 1;
    }
    let parts = crate::text::split_vec(&rest, '/');
    proof {
        crate::text::lemma_split_on_len(rest@, '/');
    }
    let last = &parts[parts.len() - 1];
    assert(vv(parts@).last() == last@);
    let n = trim_vec(last);
    if n.len() > 0 {
        Some(string_of(n.as_slice()))
    } else {
        None
    }
}

/// The package name a directory's manifests declare: the parsed
/// `Cargo.toml` and `pyproject.toml` and the text of `go.mod`, each when
/// the file exists.
pub fn manifest_name_from(
    cargo: Option<&TomlValue>,
    pyproject: Option<&TomlValue>,
    go_mod: Option<&str>,
) -> (r: Option<String>)
    ensures
        match r {
            Some(s) => manifest_name_spec(
                match cargo {
                    Some(d) => Some(*d),
                    None => None,
                },
                match pyproject {
                    Some(d) => Some(*d),
                    None => None,
                },
                match go_mod {
                    Some(g) => Some(g@),
                    None => None,
                },
            ) == Some(s@),
            None => manifest_name_spec(
                match cargo {
                    Some(d) => Some(*d),
                    None => None,
                },
                match pyproject {
                    Some(d) => Some(*d),
                    None => None,
                },
                match go_mod {
                    Some(g) => Some(g@),
                    None => None,
                },
            ) is None,
        },
{
    if let Some(d) = cargo {
        if let Some(n) = toml_str_path(d, "package", "name", None) {
            return Some(n);
        }
    }
    if let Some(d) = pyproject {
        if let Some(n) = toml_str_path(d, "project", "name", None) {
            return Some(n);
        }
        if let Some(n) = toml_str_path(d, "tool", "poetry", Some("name")) {
            return Some(n);
        }
    }
    let ghost cv = match cargo {
        Some(d) => Some(*d),
        None => None,
    };
    let ghost pv = match pyproject {
        Some(d) => Some(*d),
        None => None,
    };
    if let Some(g) = go_mod {
        let ls = lines_vec(&chars_of(g));
        let ghost lv = vv(ls@);
        let mut k: usize = 0;
        assert(lv.subrange(0, lv.len() as int) =~= lv);
        assert(manifest_name_spec(cv, pv, Some(g@)) == go_module_name(lv));
        while k < ls.len()
            invariant
                k <= ls@.len(),
                lv == vv(ls@),
                go_mod == Some(g),
                cv == match cargo {
                    Some(d) => Some(*d),
                    None => None,
                },
                pv == match pyproject {
                    Some(d) => Some(*d),
                    None => None,
                },
                manifest_name_spec(cv, pv, Some(g@)) == go_module_name(lv),
                go_module_name(lv) == go_module_name(lv.subrange(k as int, lv.len() as int)),
            decreases ls.len() - k,
        {
            let ghost rest = lv.subrange(k as int, lv.len() as int);
            assert(rest[0] == ls@[k as int]@);
            if let Some(n) = go_module_line_exec(&ls[k]) {
                assert(go_module_name(rest) == Some(n@));
                return Some(n);
            }
            assert(rest.drop_first() =~= lv.subrange(k + 1, lv.len() as int));
            k = k + 1;
        }
        assert(lv.subrange(k as int, lv.len() as int) =~= Seq::<Seq<char>>::empty());
    }
    None
}

/// A TOML document as the `toml` crate parses it.
#[verifier::external_type_specification]
#[verifier::external_body]
pub struct ExTomlDocument(toml::Value);

/// The plain form of a TOML document when `text` is valid TOML, `None`
/// when it is not: what `toml::from_str::<toml::Value>` gives, with strings
/// and tables kept and every other value as `Other`.
pub uninterp spec fn toml_document(text: Seq<char>) -> Option<TomlValue>;

/// The plain form of a parsed TOML value: strings and tables (entries in
/// the order the table yields them) kept, everything else `Other`.
#[verifier::external_body]
fn toml_value_of(v: toml::Value) -> TomlValue {
    match v {
        toml::Value::String(s) => TomlValue::String(s),
        toml::Value::Table(t) => TomlValue::Table(t.into_iter().map(|(k, v)| (k, toml_value_of(v))).collect()),
        _ => TomlValue::Other,
    }
}

/// Parses `text` with `toml::from_str::<toml::Value>`. The parse depends on
/// the text alone; its result (or its failure, `None`) is named by
/// `toml_document`. What the parser accepts is not restated here.
#[verifier::external_body]
fn parse_toml(text: &str) -> (r: Option<TomlValue>)
    ensures
        r == toml_document(text@),
{
    toml::from_str::<toml::Value>(text).ok().map(toml_value_of)
}

/// Which manifest could not be parsed.
#[derive(Debug, Clone, Copy, PartialEq, Eq)]
pub enum ManifestError {
    Cargo,
    Pyproject,
}

/// The name `Cargo.toml` declares under `package.name`.
pub open spec fn cargo_name(doc: Option<TomlValue>) -> Option<Seq<char>> {
    manifest_name_spec(doc, None, None)
}

/// The outcome for a directory's manifest texts (each when the file
/// exists): `Cargo.toml` is parsed first and must be valid; when it names
/// no package, `pyproject.toml` is parsed and must be valid; the name then
/// comes from the parsed documents and `go.mod` as `manifest_name_spec`
/// says.
pub open spec fn manifest_texts_result(
    cargo: Option<Seq<char>>,
    pyproject: Option<Seq<char>>,
    go_mod: Option<Seq<char>>,
) -> Result<Option<Seq<char>>, ManifestError> {
    let cd = match cargo {
        Some(t) => toml_document(t),
        None => None,
    };
    let pd = match pyproject {
        Some(t) => toml_document(t),
        None => None,
    };
    if cargo is Some && cd is None {
        Err(ManifestError::Cargo)
    } else if cargo_name(cd) is Some {
        Ok(cargo_name(cd))
    } else if pyproject is Some && pd is None {
        Err(ManifestError::Pyproject)
    } else {
        Ok(manifest_name_spec(cd, pd, go_mod))
    }
}

/// The view of an optional text.
pub open spec fn opt_text(t: Option<&str>) -> Option<Seq<char>> {
    match t {
        Some(s) => Some(s@),
        None => None,
    }
}

/// The package name a directory's manifests declare, from the texts of
/// `Cargo.toml`, `pyproject.toml` and `go.mod` (each when the file exists).
/// A TOML manifest that is read must parse: the error names the one that
/// did not.
pub fn manifest_name_of_texts(
    cargo: Option<&str>,
    pyproject: Option<&str>,
    go_mod: Option<&str>,
) -> (r: Result<Option<String>, ManifestError>)
    ensures
        match r {
            Ok(n) => manifest_texts_result(opt_text(cargo), opt_text(pyproject), opt_text(go_mod))
                == Ok::<Option<Seq<char>>, ManifestError>(match n {
                Some(s) => Some(s@),
                None => None,
            }),
            Err(e) => manifest_texts_result(opt_text(cargo), opt_text(pyproject), opt_text(go_mod))
                == Err::<Option<Seq<char>>, ManifestError>(e),
        },
{
    let cd = match cargo {
        Some(t) => match parse_toml(t) {
            Some(d) => Some(d),
            None => return Err(ManifestError::Cargo),
        },
        None => None,
    };
    if let Some(n) = manifest_name_from(cd.as_ref(), None, None) {
        return Ok(Some(n));
    }
    let pd = match pyproject {
        Some(t) => match parse_toml(t) {
            Some(d) => Some(d),
            None => return Err(ManifestError::Pyproject),
        },
        None => None,
    };
    Ok(manifest_name_from(cd.as_ref(), pd.as_ref(), go_mod))
}

/// The packages of a repository: the sanitized names its manifests
/// declare, each once, sorted; where there are none, the sanitized name
/// of the repository root. `None` when that is needed and the root has no
/// name.
pub fn collect_package_names(manifest_names: &Vec<String>, repo_root: &str) -> (r: Option<Vec<String>>)
    ensures
        manifest_names@.len() > 0 ==> (r matches Some(v) && crate::text::strictly_sorted(crate::text::sv(v@))
            && forall|s: Seq<char>|
            crate::text::sv(v@).contains(s) <==> exists|i: int|
                0 <= i < manifest_names@.len() && s == sanitize_spec(#[trigger] manifest_names@[i]@)),
        manifest_names@.len() == 0 ==> match r {
            Some(v) => (file_name(repo_root@) matches Some(n) && crate::text::sv(v@) == seq![sanitize_spec(n)]),
            None => file_name(repo_root@) is None,
        },
{
    if manifest_names.len() == 0 {
        return match file_name_of(repo_root) {
            Some(n) => {
                let v = vec![sanitize_name(n.as_str())];
                assert(crate::text::sv(v@) =~= seq![v@[0]@]);
                Some(v)
            },
            None => None,
        };
    }
    let mut out: Vec<String> = Vec::new();
    let mut i: usize = 0;
    while i < manifest_names.len()
        invariant
            i <= manifest_names@.len(),
            crate::text::strictly_sorted(crate::text::sv(out@)),
            forall|s: Seq<char>|
                crate::text::sv(out@).contains(s) <==> exists|j: int|
                    0 <= j < i && s == sanitize_spec(#[trigger] manifest_names@[j]@),
        decreases manifest_names.len() - i,
    {
        let n = sanitize_name(manifest_names[i].as_str());
        crate::text::insert_sorted_unique(&mut out, n);
        proof {
            assert forall|s: Seq<char>| crate::text::sv(out@).contains(s) <==> exists|j: int|
                0 <= j < i + 1 && s == sanitize_spec(#[trigger] manifest_names@[j]@) by {
                if s == sanitize_spec(manifest_names@[i as int]@) {
                    assert(0 <= i < i + 1 && s == sanitize_spec(manifest_names@[i as int]@));
                }
                if exists|j: int| 0 <= j < i + 1 && s == sanitize_spec(#[trigger] manifest_names@[j]@) {
                    let j = choose|j: int| 0 <= j < i + 1 && s == sanitize_spec(#[trigger] manifest_names@[j]@);
                    if j < i {
                        assert(exists|j: int| 0 <= j < i && s == sanitize_spec(#[trigger] manifest_names@[j]@));
                    }
                }
            }
        }
        i = i + 1;
    }
    Some(out)
}

/// A legacy handoff file at the repository root: `HANDOFF.*.yaml`.
pub open spec fn root_handoff_name(n: Seq<char>) -> bool {
    starts_with(n, "HANDOFF."@) && ends_with(n, ".yaml"@)
}

/// The legacy handoff file of a repository root, given the names of the
/// files there: the first such name in order, if any.
pub fn pick_root_handoff(file_names: &Vec<String>) -> (r: Option<String>)
    ensures
        match r {
            Some(n) => root_handoff_name(n@) && crate::text::sv(file_names@).contains(n@) && forall|i: int|
                0 <= i < file_names@.len() && root_handoff_name(#[trigger] file_names@[i]@)
                    ==> crate::text::seq_le(n@, file_names@[i]@),
            None => forall|i: int| 0 <= i < file_names@.len() ==> !root_handoff_name(#[trigger] file_names@[i]@),
        },
{
    let pre = chars_of("HANDOFF.");
    let suf = chars_of(".yaml");
    let mut best: Option<String> = None;
    let mut i: usize = 0;
    while i < file_names.len()
        invariant
            i <= file_names@.len(),
            pre@ == "HANDOFF."@,
            suf@ == ".yaml"@,
            match best {
                Some(n) => root_handoff_name(n@) && crate::text::sv(file_names@).contains(n@) && forall|j: int|
                    0 <= j < i && root_handoff_name(#[trigger] file_names@[j]@) ==> crate::text::seq_le(
                        n@,
                        file_names@[j]@,
                    ),
                None => forall|j: int| 0 <= j < i ==> !root_handoff_name(#[trigger] file_names@[j]@),
            },
        decreases file_names.len() - i,
    {
        let name = &file_names[i];
        let nc = chars_of(name.as_str());
        if starts_with_exec(&nc, &pre) && ends_with_exec(&nc, &suf) {
            assert(crate::text::sv(file_names@)[i as int] == name@);
            let better = match &best {
                None => true,
                Some(b) => crate::text::str_lt(name.as_str(), b.as_str()),
            };
            if better {
                proof {
                    if let Some(b) = best {
                        assert forall|j: int| 0 <= j < i + 1 && root_handoff_name(#[trigger] file_names@[j]@)
                            implies crate::text::seq_le(name@, file_names@[j]@) by {
                            if j < i {
                                if crate::text::seq_lt(b@, file_names@[j]@) {
                                    crate::text::lemma_seq_lt_trans(name@, b@, file_names@[j]@);
                                }
                            }
                        }
                    }
                }
                best = Some(name.clone());
            } else {
                proof {
                    let b = best->0;
                    crate::text::lemma_seq_lt_trichotomy(name@, b@);
                }
            }
        }
        i = i + 1;
    }
    best
}

} // verus!

verus! {

/// The text a command printed, without surrounding whitespace.
pub fn trimmed_output(out: &str) -> (r: String)
    ensures
        r@ == trim(out@),
{
    string_of(trim_vec(&chars_of(out)).as_slice())
}

/// What a refresh reports: the `.ctx` directory and its packages.
pub fn refresh_message(report: &RefreshReport) -> (r: String)
    ensures
        r@ == "refreshed "@ + report.ctx_dir@ + " (packages: "@ + crate::text::join(
            crate::text::sv(report.packages@),
            ", "@,
        ) + ")"@,
{
    let mut r = owned("refreshed ");
    r.append(report.ctx_dir.as_str());
    r.append(" (packages: ");
    let ghost base = r@;
    let ghost ps = crate::text::sv(report.packages@);
    let mut k: usize = 0;
    while k < report.packages.len()
        invariant
            k <= report.packages@.len(),
            ps == crate::text::sv(report.packages@),
            r@ == base + crate::text::join(ps.take(k as int), ", "@),
        decreases report.packages.len() - k,
    {
        assert(ps.take(k + 1).drop_last() =~= ps.take(k as int));
        if k > 0 {
            r.append(", ");
        } else {
            assert(ps.take(1) =~= seq![ps[0]]);
            assert(r@ =~= base);
        }
        r.append(report.packages[k].as_str());
        k = k + 1;
    }
    assert(ps.take(report.packages@.len() as int) =~= ps);
    r.append(")");
    r
}

} // verus!
