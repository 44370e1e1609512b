use vstd::prelude::*;

use crate::error::OgreError;
use crate::modes::preprocess::{join_path, joined_path, trim, trimmed};
use crate::text::{chars_to_string, debug_string, decimal, push_str, push_usize, str_debug, str_to_chars};

verus! {

/// The `[project]` table of a project manifest.
pub struct ProjectMeta {
    pub name: String,
    pub version: String,
    pub description: Option<String>,
    pub author: Option<String>,
    pub entry: String,
}

/// The `[build]` table.
pub struct BuildConfig {
    /// The source files of the project: files, directories and patterns.
    pub paths: Vec<String>,
    pub tape_size: Option<usize>,
}

/// A test suite of the project.
pub struct TestFileRef {
    pub name: Option<String>,
    pub file: String,
}

/// A dependency: a path to another project, or a version.
pub struct Dependency {
    pub path: Option<String>,
    pub version: Option<String>,
}

/// A project manifest (`ogre.toml`), its dependencies in the order written.
pub struct OgreProject {
    pub project: ProjectMeta,
    pub build: Option<BuildConfig>,
    pub tests: Vec<TestFileRef>,
    pub dependencies: Vec<(String, Dependency)>,
}

/// Whether `s` ends with `suffix`.
pub open spec fn ends_with(s: Seq<char>, suffix: Seq<char>) -> bool {
    suffix.len() <= s.len() && s.skip(s.len() - suffix.len()) == suffix
}

/// The first test suite, from `k` on, whose file is not a `.json` file.
pub open spec fn first_bad_test(tests: Seq<TestFileRef>, k: int) -> Option<int>
    decreases tests.len() - k,
{
    if k < 0 || k >= tests.len() {
        None
    } else if !ends_with(tests[k].file@, ".json"@) {
        Some(k)
    } else {
        first_bad_test(tests, k + 1)
    }
}

/// The first dependency, from `k` on, with neither a path nor a version.
pub open spec fn first_bare_dependency(deps: Seq<(String, Dependency)>, k: int) -> Option<int>
    decreases deps.len() - k,
{
    if k < 0 || k >= deps.len() {
        None
    } else if deps[k].1.path is None && deps[k].1.version is None {
        Some(k)
    } else {
        first_bare_dependency(deps, k + 1)
    }
}

/// Why a manifest is invalid, checked in this order: an empty name, an
/// entry that is not a `.bf` file, an empty version, a test suite that is
/// not a `.json` file, a tape size of zero, a dependency with neither a path
/// nor a version. `None` when it is valid.
pub open spec fn project_problem(p: OgreProject) -> Option<Seq<char>> {
    if trim(p.project.name@).len() == 0 {
        Some("project.name must not be empty"@)
    } else if !ends_with(p.project.entry@, ".bf"@) {
        Some("project.entry must end with .bf, got "@ + str_debug(p.project.entry@))
    } else if trim(p.project.version@).len() == 0 {
        Some("project.version must not be empty"@)
    } else if first_bad_test(p.tests@, 0) is Some {
        let i = first_bad_test(p.tests@, 0)->Some_0;
        Some("tests["@ + decimal(i as nat) + "].file must end with .json, got "@ + str_debug(p.tests@[i].file@))
    } else if p.build matches Some(b) && b.tape_size == Some(0usize) {
        Some("build.tape_size must be greater than 0"@)
    } else if first_bare_dependency(p.dependencies@, 0) is Some {
        let i = first_bare_dependency(p.dependencies@, 0)->Some_0;
        Some("dependency "@ + str_debug(p.dependencies@[i].0@) + " must have a 'path' or 'version' field"@)
    } else {
        None
    }
}

/// How a source path of `[build]` is read.
#[derive(Clone, Copy, Debug, PartialEq, Eq, Structural)]
pub enum PathKind {
    /// A pattern with `*` or `?`.
    Glob,
    /// A directory (ends with `/`): the `.bf` files directly inside it.
    Dir,
    /// One file.
    File,
}

/// How a source path is read.
pub open spec fn path_kind_of(entry: Seq<char>) -> PathKind {
    if entry.contains('*') || entry.contains('?') {
        PathKind::Glob
    } else if entry.len() > 0 && entry.last() == '/' {
        PathKind::Dir
    } else {
        PathKind::File
    }
}

fn text_ends_with(s: &str, suffix: &str) -> (r: bool)
    ensures
        r == ends_with(s@, suffix@),
{
    let a = str_to_chars(s);
    let b = str_to_chars(suffix);
    if b.len() > a.len() {
        return false;
    }
    let off = a.len() - b.len();
    let mut k: usize = 0;
    while k < b.len()
        invariant
            a@ == s@,
            b@ == suffix@,
            off == a@.len() - b@.len(),
            off + b@.len() == a@.len(),
            k <= b@.len(),
            forall|j: int| 0 <= j < k ==> a@[off + j] == b@[j],
        decreases b@.len() - k,
    {
        assert(off + k < a.len());
        if a[off + k] != b[k] {
            assert(a@.skip(off as int)[k as int] != b@[k as int]);
            return false;
        }
        k += 1;
    }
    assert(a@.skip(off as int) =~= b@);
    true
}

fn blank(s: &str) -> (r: bool)
    ensures
        r == (trim(s@).len() == 0),
{
    trimmed(&str_to_chars(s)).len() == 0
}

fn problem(prefix: &str, shown: &str, suffix: &str) -> (r: OgreError)
    ensures
        r matches OgreError::InvalidProject(m) && m@ == prefix@ + str_debug(shown@) + suffix@,
{
    let mut v: Vec<char> = Vec::new();
    push_str(&mut v, prefix);
    let d = debug_string(shown);
    push_str(&mut v, d.as_str());
    push_str(&mut v, suffix);
    OgreError::InvalidProject(chars_to_string(&v))
}

impl OgreProject {
    /// Check the manifest: see `project_problem`.
    pub fn validate(&self) -> (r: Result<(), OgreError>)
        ensures
            match project_problem(*self) {
                Some(m) => r matches Err(OgreError::InvalidProject(s)) && s@ == m,
                None => r is Ok,
            },
    {
        if blank(self.project.name.as_str()) {
            return Err(OgreError::InvalidProject(String::from_str("project.name must not be empty")));
        }
        if !text_ends_with(self.project.entry.as_str(), ".bf") {
            proof {
                reveal_strlit("");
                assert(""@ =~= Seq::<char>::empty());
            }
            let e = problem("project.entry must end with .bf, got ", self.project.entry.as_str(), "");
            assert(project_problem(*self) == Some("project.entry must end with .bf, got "@ + str_debug(self.project.entry@)));
            return Err(e);
        }
        if blank(self.project.version.as_str()) {
            return Err(OgreError::InvalidProject(String::from_str("project.version must not be empty")));
        }
        let mut k: usize = 0;
        while k < self.tests.len()
            invariant
                k <= self.tests@.len(),
                first_bad_test(self.tests@, 0) == first_bad_test(self.tests@, k as int),
                trim(self.project.name@).len() != 0,
                ends_with(self.project.entry@, ".bf"@),
                trim(self.project.version@).len() != 0,
            decreases self.tests@.len() - k,
        {
            if !text_ends_with(self.tests[k].file.as_str(), ".json") {
                let mut v: Vec<char> = Vec::new();
                push_str(&mut v, "tests[");
                push_usize(&mut v, k);
                push_str(&mut v, "].file must end with .json, got ");
                let d = debug_string(self.tests[k].file.as_str());
                push_str(&mut v, d.as_str());
                assert(first_bad_test(self.tests@, k as int) == Some(k as int));
                assert(project_problem(*self) == Some(v@));
                return Err(OgreError::InvalidProject(chars_to_string(&v)));
            }
            k += 1;
        }
        match &self.build {
            Some(b) => match b.tape_size {
                Some(t) => if t == 0 {
                    return Err(OgreError::InvalidProject(String::from_str("build.tape_size must be greater than 0")));
                },
                None => {},
            },
            None => {},
        }
        let mut k: usize = 0;
        while k < self.dependencies.len()
            invariant
                k <= self.dependencies@.len(),
                first_bare_dependency(self.dependencies@, 0) == first_bare_dependency(self.dependencies@, k as int),
                trim(self.project.name@).len() != 0,
                ends_with(self.project.entry@, ".bf"@),
                trim(self.project.version@).len() != 0,
                first_bad_test(self.tests@, 0) is None,
                !(self.build matches Some(b) && b.tape_size == Some(0usize)),
            decreases self.dependencies@.len() - k,
        {
            let (name, dep) = &self.dependencies[k];
            if dep.path.is_none() && dep.version.is_none() {
                assert(first_bare_dependency(self.dependencies@, k as int) == Some(k as int));
                let e = problem("dependency ", name.as_str(), " must have a 'path' or 'version' field");
                assert(project_problem(*self) == Some("dependency "@ + str_debug(name@) + " must have a 'path' or 'version' field"@));
                return Err(e);
            }
            k += 1;
        }
        Ok(())
    }

    /// The entry file, relative to the project directory `base`.
    pub fn entry_path(&self, base: &str) -> (r: String)
        ensures
            r@ == joined_path(base@, self.project.entry@),
    {
        join_path(base, self.project.entry.as_str())
    }

    /// The directories of the path dependencies, relative to `base`, with
    /// their names, in order.
    pub fn dependency_dirs(&self, base: &str) -> (r: Vec<(String, String)>)
        ensures
            r@.map_values(|e: (String, String)| (e.0@, e.1@)) == dep_dirs_spec(self.dependencies@, base@, self.dependencies@.len() as int),
    {
        let mut r: Vec<(String, String)> = Vec::new();
        let mut k: usize = 0;
        while k < self.dependencies.len()
            invariant
                k <= self.dependencies@.len(),
                r@.map_values(|e: (String, String)| (e.0@, e.1@)) == dep_dirs_spec(self.dependencies@, base@, k as int),
            decreases self.dependencies@.len() - k,
        {
            let (name, dep) = &self.dependencies[k];
            let ghost before = r@;
            match &dep.path {
                Some(p) => {
                    let dir = join_path(base, p.as_str());
                    r.push((name.clone(), dir));
                    assert(r@.map_values(|e: (String, String)| (e.0@, e.1@)) =~= before.map_values(
                        |e: (String, String)| (e.0@, e.1@),
                    ).push((name@, joined_path(base@, p@))));
                },
                None => {},
            }
            k += 1;
        }
        r
    }

    /// The line that `build` shows: name and version, then the description
    /// and the author when they are set and not empty.
    pub fn built_message(&self) -> (s: String)
        ensures
            s@ == built_text(*self),
    {
        let mut v: Vec<char> = Vec::new();
        push_str(&mut v, "Built ");
        push_str(&mut v, self.project.name.as_str());
        push_str(&mut v, " v");
        push_str(&mut v, self.project.version.as_str());
        match &self.project.description {
            Some(d) => if !d.as_str().is_empty() {
                push_str(&mut v, " — ");
                push_str(&mut v, d.as_str());
                match &self.project.author {
                    Some(a) => if !a.as_str().is_empty() {
                        push_str(&mut v, " (by ");
                        push_str(&mut v, a.as_str());
                        push_str(&mut v, ")");
                    },
                    None => {},
                }
            },
            None => {},
        }
        chars_to_string(&v)
    }
}

/// The path dependencies among the first `k`: name and directory.
pub open spec fn dep_dirs_spec(deps: Seq<(String, Dependency)>, base: Seq<char>, k: int) -> Seq<(Seq<char>, Seq<char>)>
    decreases k,
{
    if k <= 0 || k > deps.len() {
        seq![]
    } else {
        dep_dirs_spec(deps, base, k - 1) + match deps[k - 1].1.path {
            Some(p) => seq![(deps[k - 1].0@, joined_path(base, p@))],
            None => seq![],
        }
    }
}

/// The line that `build` shows for a project.
pub open spec fn built_text(p: OgreProject) -> Seq<char> {
    let head = "Built "@ + p.project.name@ + " v"@ + p.project.version@;
    match p.project.description {
        Some(d) => if d@.len() > 0 {
            head + " — "@ + d@ + match p.project.author {
                Some(a) => if a@.len() > 0 { " (by "@ + a@ + ")"@ } else { Seq::empty() },
                None => Seq::empty(),
            }
        } else {
            head
        },
        None => head,
    }
}

/// How a source path of `[build]` is read: see `path_kind_of`.
pub fn path_kind(entry: &str) -> (k: PathKind)
    ensures
        k == path_kind_of(entry@),
{
    let c = str_to_chars(entry);
    let mut k: usize = 0;
    while k < c.len()
        invariant
            c@ == entry@,
            k <= c@.len(),
            forall|j: int| 0 <= j < k ==> c@[j] != '*' && c@[j] != '?',
        decreases c@.len() - k,
    {
        if c[k] == '*' || c[k] == '?' {
            assert(c@[k as int] == '*' ==> c@.contains('*'));
            assert(c@[k as int] == '?' ==> c@.contains('?'));
            return PathKind::Glob;
        }
        k += 1;
    }
    if c.len() > 0 && c[c.len() - 1] == '/' {
        PathKind::Dir
    } else {
        PathKind::File
    }
}

} // verus!
