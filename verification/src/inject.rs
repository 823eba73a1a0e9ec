//! Where the harness a driver builds finds the runtime it links: the directories the runtime and
//! its dependencies are searched in, and the externs the compiler is given for them.
//!
//! A path is written as its components.
use vstd::prelude::*;

use crate::text;

verus! {

/// The directory a driver that carries the runtime unpacks it into, under the target directory.
pub const EXTRACTED_DEPS_DIR_NAME: &'static str = "mutest_deps";

/// The runtime stub a harness for an embedded target links.
pub const EMBEDDED_RUNTIME_STUB: &'static str = "libmutest_runtime_embedded_target_stub.rlib";

/// The name the runtime is linked under.
pub const RUNTIME_EXTERN: &'static str = "mutest_runtime";

/// A path, by its components.
pub type Path = Vec<String>;

pub open spec fn path_view(p: Path) -> Seq<Seq<char>> {
    component_views(p@)
}

pub open spec fn component_views(p: Seq<String>) -> Seq<Seq<char>> {
    p.map_values(|c: String| c@)
}

/// How the driver was built and invoked, as far as where the runtime is depends on it.
pub struct RuntimeSetup {
    /// Whether the driver carries the runtime, to unpack into the target directory.
    pub embed_runtime: bool,
    /// Whether the harness is built for an embedded target, with the embedded runtime.
    pub embedded: bool,
    pub host_triple: String,
    pub target_triple: String,
    pub target_dir_root: Path,
    /// Where the runtime was built, if the invocation says.
    pub search_path: Option<Path>,
    /// Where the runtime was built, as the driver was told when it was built.
    pub compiletime_artifacts_dir: Path,
    pub compiletime_deps_dir: Path,
}

/// Where the runtime and its dependencies are, for the host and for the target.
pub struct RuntimeDirs {
    pub host_artifacts: Path,
    pub host_deps: Path,
    pub target_artifacts: Path,
    pub target_deps: Path,
}

/// Why the runtime cannot be linked. Each ends the compilation.
#[derive(Debug)]
pub enum InjectError {
    /// A driver that carries the runtime only carries it for the host.
    CrossCompilationWithEmbeddedRuntime { target: String },
    /// The embedded runtime stub is not where it was looked for.
    MissingEmbeddedRuntime { cross: bool, target: String, searched: Path, profile: String },
    /// A dependency of the runtime is linked under a name an extern already has.
    ConflictingExtern { name: String },
    /// The crate to replace with the specialized mutant crate is not among the externs.
    MissingSpecializedExtern { name: String },
    /// The target has no `std`, and the embedded runtime was not asked for.
    NoStdWithoutEmbeddedRuntime { target: String },
    /// The libtest metadata shim built for the target is not where it was looked for.
    MissingTestShim { target: String, searched: Path, profile: String },
}

pub open spec fn cross(s: RuntimeSetup) -> bool {
    s.host_triple@ != s.target_triple@
}

pub open spec fn host_artifacts_of(s: RuntimeSetup) -> Seq<Seq<char>> {
    if s.embed_runtime {
        path_view(s.target_dir_root).push(EXTRACTED_DEPS_DIR_NAME@)
    } else {
        match s.search_path {
            Some(p) => path_view(p),
            None => path_view(s.compiletime_artifacts_dir),
        }
    }
}

pub open spec fn host_deps_of(s: RuntimeSetup) -> Seq<Seq<char>> {
    if s.embed_runtime {
        host_artifacts_of(s)
    } else {
        match s.search_path {
            Some(p) => path_view(p).push("deps"@),
            None => path_view(s.compiletime_deps_dir),
        }
    }
}

/// For another target, the runtime built for it: beside the host's, under the target's name, with
/// the same profile.
pub open spec fn target_artifacts_of(s: RuntimeSetup) -> Seq<Seq<char>> {
    let h = host_artifacts_of(s);
    if !cross(s) {
        h
    } else {
        h.drop_last().push(s.target_triple@).push(h.last())
    }
}

pub open spec fn target_deps_of(s: RuntimeSetup) -> Seq<Seq<char>> {
    if !cross(s) {
        host_deps_of(s)
    } else {
        target_artifacts_of(s).push("deps"@)
    }
}

/// Where the runtime is looked for, for the host: where the driver unpacks it, if it carries it;
/// otherwise where the invocation says, and where the driver was built where it says nothing. For
/// another target, the runtime built for it stands beside the host's: the host directory's
/// parent, then the target's name, then the host directory's own name, the profile; its
/// dependencies are in `deps` under it. For the host, it is the host's own.
pub proof fn lemma_target_beside_host(s: RuntimeSetup)
    ensures
        s.embed_runtime ==> host_artifacts_of(s) == path_view(s.target_dir_root).push(
            EXTRACTED_DEPS_DIR_NAME@,
        ) && host_deps_of(s) == host_artifacts_of(s),
        !s.embed_runtime ==> (s.search_path matches Some(p) ==> host_artifacts_of(s) == path_view(p)
            && host_deps_of(s) == path_view(p).push("deps"@)),
        !s.embed_runtime && s.search_path is None ==> host_artifacts_of(s) == path_view(
            s.compiletime_artifacts_dir,
        ) && host_deps_of(s) == path_view(s.compiletime_deps_dir),
        !cross(s) ==> target_artifacts_of(s) == host_artifacts_of(s) && target_deps_of(s)
            == host_deps_of(s),
        ({
            let h = host_artifacts_of(s);
            let t = target_artifacts_of(s);
            cross(s) && h.len() >= 1 ==> {
                &&& t.len() == h.len() + 1
                &&& forall|k: int| 0 <= k < h.len() - 1 ==> #[trigger] t[k] == h[k]
                &&& t[h.len() - 1] == s.target_triple@
                &&& t.last() == h.last()
                &&& target_deps_of(s) == t.push("deps"@)
            }
        }),
{
}

/// Where the runtime is, or why it cannot be used: a driver that carries the runtime carries it
/// for the host alone.
pub open spec fn dirs_ok(s: RuntimeSetup) -> bool {
    !(cross(s) && s.embed_runtime)
}

/// Whether a file already holds what would be unpacked into it, so that it need not be written
/// again: it could be read, and it holds exactly these bytes.
pub fn file_up_to_date(existing: Option<&[u8]>, content: &[u8]) -> (r: bool)
    ensures
        r == (existing matches Some(bytes) && bytes@ == content@),
{
    let bytes = match existing {
        Some(bytes) => bytes,
        None => return false,
    };
    if bytes.len() != content.len() {
        return false;
    }
    let mut i: usize = 0;
    while i < bytes.len()
        invariant
            i <= bytes.len(),
            bytes.len() == content.len(),
            existing == Some(bytes),
            forall|j: int| 0 <= j < i ==> bytes@[j] == content@[j],
        decreases bytes.len() - i,
    {
        if bytes[i] != content[i] {
            assert(bytes@[i as int] != content@[i as int]);
            return false;
        }
        i += 1;
    }
    assert(bytes@ =~= content@);
    true
}

fn string_of(s: &str) -> (r: String)
    ensures
        r@ == s@,
{
    String::from_str(s)
}

fn clone_path(p: &Path) -> (r: Path)
    ensures
        path_view(r) == path_view(*p),
{
    let mut r: Path = Vec::new();
    let mut i: usize = 0;
    while i < p.len()
        invariant
            i <= p.len(),
            path_view(r) == path_view(*p).take(i as int),
        decreases p.len() - i,
    {
        let ghost before = r@;
        let c = p[i].clone();
        r.push(c);
        proof {
            assert(r@ == before.push(p@[i as int]));
            assert(component_views(r@) =~= component_views(before).push(p@[i as int]@));
            assert(path_view(*p).take(i as int + 1) =~= path_view(*p).take(i as int).push(p@[i as int]@));
        }
        i += 1;
    }
    proof {
        assert(path_view(*p).take(p@.len() as int) =~= path_view(*p));
    }
    r
}

fn joined(p: &Path, c: &str) -> (r: Path)
    ensures
        path_view(r) == path_view(*p).push(c@),
{
    let mut r = clone_path(p);
    let ghost before = r@;
    r.push(string_of(c));
    proof {
        assert(path_view(r) =~= path_view(*p).push(c@));
    }
    r
}

fn text_eq(a: &String, b: &String) -> (r: bool)
    ensures
        r == (a@ == b@),
{
    text::str_eq(a.as_str(), b.as_str())
}

/// Where the runtime and its dependencies are, for the host and for the target.
pub fn runtime_dirs(s: &RuntimeSetup) -> (r: Result<RuntimeDirs, InjectError>)
    requires
        cross(*s) && !s.embed_runtime ==> host_artifacts_of(*s).len() >= 1,
    ensures
        match r {
            Ok(d) => dirs_ok(*s) && path_view(d.host_artifacts) == host_artifacts_of(*s) && path_view(
                d.host_deps,
            ) == host_deps_of(*s) && path_view(d.target_artifacts) == target_artifacts_of(*s)
                && path_view(d.target_deps) == target_deps_of(*s),
            Err(e) => !dirs_ok(*s) && e == InjectError::CrossCompilationWithEmbeddedRuntime {
                target: s.target_triple,
            },
        },
{
    let host_artifacts: Path = if s.embed_runtime {
        joined(&s.target_dir_root, EXTRACTED_DEPS_DIR_NAME)
    } else {
        match &s.search_path {
            Some(p) => clone_path(p),
            None => clone_path(&s.compiletime_artifacts_dir),
        }
    };
    let host_deps: Path = if s.embed_runtime {
        clone_path(&host_artifacts)
    } else {
        match &s.search_path {
            Some(p) => joined(p, "deps"),
            None => clone_path(&s.compiletime_deps_dir),
        }
    };
    let same = text_eq(&s.target_triple, &s.host_triple);
    if same {
        let target_artifacts = clone_path(&host_artifacts);
        let target_deps = clone_path(&host_deps);
        return Ok(RuntimeDirs { host_artifacts, host_deps, target_artifacts, target_deps });
    }
    if s.embed_runtime {
        return Err(InjectError::CrossCompilationWithEmbeddedRuntime { target: s.target_triple.clone() });
    }
    let n = host_artifacts.len();
    let mut target_artifacts: Path = Vec::new();
    let mut i: usize = 0;
    while i + 1 < n
        invariant
            n == host_artifacts@.len(),
            n >= 1,
            i + 1 <= n,
            path_view(target_artifacts) == path_view(host_artifacts).take(i as int),
        decreases n - i,
    {
        let ghost before = target_artifacts@;
        let c = host_artifacts[i].clone();
        target_artifacts.push(c);
        proof {
            assert(target_artifacts@ == before.push(host_artifacts@[i as int]));
            assert(component_views(target_artifacts@) =~= component_views(before).push(host_artifacts@[i as int]@));
            assert(path_view(host_artifacts).take(i as int + 1) =~= path_view(host_artifacts).take(i as int).push(host_artifacts@[i as int]@));
        }
        i += 1;
    }
    let ghost root = path_view(target_artifacts);
    target_artifacts.push(s.target_triple.clone());
    target_artifacts.push(host_artifacts[n - 1].clone());
    proof {
        assert(path_view(host_artifacts).drop_last() =~= path_view(host_artifacts).take(n - 1));
        assert(path_view(target_artifacts) =~= root.push(s.target_triple@).push(host_artifacts@[n - 1]@));
    }
    let target_deps = joined(&target_artifacts, "deps");
    Ok(RuntimeDirs { host_artifacts, host_deps, target_artifacts, target_deps })
}

/// The directories the dependencies are searched in, each with what Cargo writes beside it: the
/// target's first when compiling for another target, then the host's, which procedural macros
/// run on.
pub fn dependency_search_dirs(s: &RuntimeSetup, d: &RuntimeDirs) -> (r: Vec<Path>)
    ensures
        r@.map_values(|p: Path| path_view(p)) == (if cross(*s) {
            seq![path_view(d.target_deps), path_view(d.host_deps)]
        } else {
            seq![path_view(d.host_deps)]
        }),
{
    let mut r: Vec<Path> = Vec::new();
    if !text_eq(&s.target_triple, &s.host_triple) {
        r.push(clone_path(&d.target_deps));
    }
    r.push(clone_path(&d.host_deps));
    proof {
        assert(r@.map_values(|p: Path| path_view(p)) =~= (if cross(*s) {
            seq![path_view(d.target_deps), path_view(d.host_deps)]
        } else {
            seq![path_view(d.host_deps)]
        }));
    }
    r
}

/// What comes before the first `c` in `s`, if `c` is in it.
pub open spec fn before_first(s: Seq<char>, c: char) -> Option<Seq<char>>
    decreases s.len(),
{
    if s.len() == 0 {
        None
    } else if s[0] == c {
        Some(Seq::empty())
    } else {
        match before_first(s.drop_first(), c) {
            Some(rest) => Some(seq![s[0]] + rest),
            None => None,
        }
    }
}

/// The name a dependency's file is known by: `lib<NAME>` of `lib<NAME>-<HASH>.<EXT>` or of
/// `lib<NAME>.<EXT>`. A file found among the dependencies is known by the same rule.
pub open spec fn dep_root(dep: Seq<char>) -> Seq<char> {
    match before_first(dep, '-') {
        Some(r) => r,
        None => match before_first(dep, '.') {
            Some(r) => r,
            None => dep,
        },
    }
}

fn before_first_of(s: &str, c: char) -> (r: Option<String>)
    ensures
        match r {
            Some(p) => before_first(s@, c) == Some(p@),
            None => before_first(s@, c).is_none(),
        },
{
    let n = s.unicode_len();
    let mut i: usize = 0;
    while i < n
        invariant
            i <= n,
            n == s@.len(),
            forall|j: int| 0 <= j < i ==> s@[j] != c,
        decreases n - i,
    {
        if s.get_char(i) == c {
            let head = s.substring_char(0, i);
            proof {
                lemma_before_first_at(s@, c, i as int);
            }
            return Some(string_of(head));
        }
        i += 1;
    }
    proof {
        lemma_before_first_none(s@, c);
    }
    None
}

proof fn lemma_before_first_at(s: Seq<char>, c: char, i: int)
    requires
        0 <= i < s.len(),
        s[i] == c,
        forall|j: int| 0 <= j < i ==> s[j] != c,
    ensures
        before_first(s, c) == Some(s.subrange(0, i)),
    decreases i,
{
    if i == 0 {
        assert(s.subrange(0, 0) =~= Seq::<char>::empty());
    } else {
        let t = s.drop_first();
        assert forall|j: int| 0 <= j < i - 1 implies t[j] != c by {
            assert(t[j] == s[j + 1]);
        }
        lemma_before_first_at(t, c, i - 1);
        assert(seq![s[0]] + t.subrange(0, i - 1) =~= s.subrange(0, i));
    }
}

proof fn lemma_before_first_none(s: Seq<char>, c: char)
    requires
        forall|j: int| 0 <= j < s.len() ==> s[j] != c,
    ensures
        before_first(s, c).is_none(),
    decreases s.len(),
{
    if s.len() > 0 {
        let t = s.drop_first();
        assert forall|j: int| 0 <= j < t.len() implies t[j] != c by {
            assert(t[j] == s[j + 1]);
        }
        lemma_before_first_none(t, c);
    }
}

/// The name a dependency's file is known by.
pub fn dep_root_of(dep: &str) -> (r: String)
    ensures
        r@ == dep_root(dep@),
{
    match before_first_of(dep, '-') {
        Some(r) => r,
        None => match before_first_of(dep, '.') {
            Some(r) => r,
            None => string_of(dep),
        },
    }
}

/// Whether an entry among the dependencies is the one sought: its file name, the last component of
/// its path, is known by the same name as the dependency.
pub open spec fn matches_dep(entry: Seq<Seq<char>>, dep: Seq<char>) -> bool {
    entry.len() >= 1 && dep_root(entry.last()) == dep_root(dep)
}

/// The entries among the first `m` that are the dependency sought, in order.
pub open spec fn matching_entries(entries: Seq<Path>, dep: Seq<char>, m: nat) -> Seq<Seq<Seq<char>>>
    decreases m,
{
    if m == 0 {
        Seq::empty()
    } else if matches_dep(path_view(entries[m - 1]), dep) {
        matching_entries(entries, dep, (m - 1) as nat).push(path_view(entries[m - 1]))
    } else {
        matching_entries(entries, dep, (m - 1) as nat)
    }
}

/// The files among the dependencies that are the one sought, in order.
pub fn matching_dep_files(entries: &[Path], dep: &str) -> (r: Vec<Path>)
    ensures
        r@.map_values(|p: Path| path_view(p)) == matching_entries(entries@, dep@, entries@.len()),
{
    let root = dep_root_of(dep);
    let mut r: Vec<Path> = Vec::new();
    let mut i: usize = 0;
    while i < entries.len()
        invariant
            i <= entries.len(),
            root@ == dep_root(dep@),
            r@.map_values(|p: Path| path_view(p)) == matching_entries(entries@, dep@, i as nat),
        decreases entries.len() - i,
    {
        let e = &entries[i];
        if e.len() >= 1 {
            let found = dep_root_of(e[e.len() - 1].as_str());
            proof {
                assert(path_view(*e).last() == e@[e@.len() - 1]@);
            }
            if text_eq(&found, &root) {
                let ghost before = r@;
                r.push(clone_path(e));
                proof {
                    assert(r@.map_values(|p: Path| path_view(p)) =~= before.map_values(
                        |p: Path| path_view(p),
                    ).push(path_view(*e)));
                }
            }
        }
        i += 1;
    }
    r
}

/// An extern the compiler is given: its name; the entry the compiler already had that it keeps
/// the flags of, by index, or none for a fresh one; and the exact paths it is found at, or none
/// where it keeps where that entry found it.
pub struct Extern {
    pub name: String,
    pub base: Option<usize>,
    pub paths: Option<Vec<Path>>,
}

pub type ExternView = (Option<usize>, Option<Set<Seq<Seq<char>>>>);

pub open spec fn paths_view(ps: Seq<Path>) -> Set<Seq<Seq<char>>> {
    ps.map_values(|p: Path| path_view(p)).to_set()
}

pub open spec fn extern_view(e: Extern) -> ExternView {
    (e.base, match e.paths {
        Some(ps) => Some(paths_view(ps@)),
        None => None,
    })
}

/// The externs by name; a later one of a name replaces an earlier.
pub open spec fn externs_map(es: Seq<Extern>) -> Map<Seq<char>, ExternView>
    decreases es.len(),
{
    if es.len() == 0 {
        Map::empty()
    } else {
        externs_map(es.drop_last()).insert(es.last().name@, extern_view(es.last()))
    }
}

/// The externs the compiler already had, each kept as it was.
pub open spec fn existing_map(names: Seq<String>, m: nat) -> Map<Seq<char>, ExternView>
    decreases m,
{
    if m == 0 {
        Map::empty()
    } else {
        existing_map(names, (m - 1) as nat).insert(names[m - 1]@, (Some((m - 1) as usize), None))
    }
}

/// Where the runtime itself is: the runtime built for the target, or, for an embedded target, the
/// stub built for it.
pub open spec fn runtime_path(s: RuntimeSetup, runtime_rlib: Seq<char>) -> Seq<Seq<char>> {
    if !s.embedded {
        target_artifacts_of(s).push(runtime_rlib)
    } else {
        target_artifacts_of(s).push(EMBEDDED_RUNTIME_STUB@)
    }
}

/// Where a dependency of the runtime is: where it was located, or, for an embedded target, every
/// file among the dependencies taken for it.
pub open spec fn dep_paths(s: RuntimeSetup, located: Seq<Path>, entries: Seq<Path>, dep_file: Seq<char>, i: int) -> Set<Seq<Seq<char>>> {
    if !s.embedded {
        set![path_view(located[i])]
    } else {
        matching_entries(entries, dep_file, entries.len()).to_set()
    }
}

/// The externs once the first `k` dependencies of the runtime are added to `m`, each under its
/// name; `Err(i)` where the `i`th is under a name an extern already has.
pub open spec fn with_deps(
    m: Map<Seq<char>, ExternView>,
    s: RuntimeSetup,
    deps: Seq<(String, String)>,
    located: Seq<Path>,
    entries: Seq<Path>,
    k: nat,
) -> Result<Map<Seq<char>, ExternView>, int>
    decreases k,
{
    if k == 0 {
        Ok(m)
    } else {
        match with_deps(m, s, deps, located, entries, (k - 1) as nat) {
            Err(i) => Err(i),
            Ok(m1) => {
                let name = deps[k - 1].0@;
                if m1.contains_key(name) {
                    Err(k - 1)
                } else {
                    Ok(m1.insert(name, (None, Some(dep_paths(s, located, entries, deps[k - 1].1@, k - 1)))))
                }
            },
        }
    }
}

/// Whether the embedded runtime stub is missing where it was looked for; where that could not be
/// told, the compiler says so itself when it reads it.
pub open spec fn stub_missing(s: RuntimeSetup, stub_exists: Option<bool>) -> bool {
    s.embedded && stub_exists == Some(false)
}

fn extern_of(name: String, base: Option<usize>, paths: Option<Vec<Path>>) -> (e: Extern)
    ensures
        e.name == name,
        e.base == base,
        e.paths == paths,
{
    Extern { name, base, paths }
}

/// The last extern of the name, if there is one.
fn find_extern(es: &Vec<Extern>, name: &String) -> (r: Option<usize>)
    ensures
        match r {
            Some(i) => i < es@.len() && externs_map(es@).contains_key(name@) && externs_map(es@)[name@]
                == extern_view(es@[i as int]),
            None => !externs_map(es@).contains_key(name@),
        },
{
    let mut k: usize = es.len();
    proof {
        assert(es@.take(k as int) =~= es@);
    }
    while k > 0
        invariant
            k <= es.len(),
            externs_map(es@).contains_key(name@) == externs_map(es@.take(k as int)).contains_key(name@),
            externs_map(es@.take(k as int)).contains_key(name@) ==> externs_map(es@)[name@]
                == externs_map(es@.take(k as int))[name@],
        decreases k,
    {
        proof {
            assert(es@.take(k as int).drop_last() =~= es@.take(k - 1));
            assert(es@.take(k as int).last() == es@[k - 1]);
        }
        if text::str_eq(es[k - 1].name.as_str(), name.as_str()) {
            return Some(k - 1);
        }
        k -= 1;
    }
    proof {
        assert(es@.take(0) =~= Seq::<Extern>::empty());
    }
    None
}

fn push_extern(es: &mut Vec<Extern>, e: Extern)
    ensures
        externs_map(final(es)@) == externs_map(old(es)@).insert(e.name@, extern_view(e)),
{
    es.push(e);
    proof {
        assert(final(es)@.drop_last() =~= old(es)@);
    }
}

fn one_path(p: Path) -> (r: Vec<Path>)
    ensures
        paths_view(r@) == set![path_view(p)],
{
    let mut r: Vec<Path> = Vec::new();
    let ghost pv = path_view(p);
    r.push(p);
    proof {
        assert(r@.map_values(|q: Path| path_view(q)) =~= seq![pv]);
        assert(seq![pv].to_set() =~= set![pv]) by {
            assert(seq![pv].contains(pv)) by {
                assert(seq![pv][0] == pv);
            }
        }
    }
    r
}

/// The externs the compiler is given to link the runtime: those it already had, the runtime, each
/// public dependency of the runtime under its reserved name, and the specialized mutant crate in
/// place of the crate it specializes. `public_deps` holds each dependency's name and file name;
/// `located`, for each, where it was found; `dep_entries`, the files among the dependencies of the
/// target; `stub_exists`, whether the embedded runtime stub is where it is looked for, where that
/// could be told; and `specialized`, the extern to replace and where its replacement is.
pub fn runtime_externs(
    s: &RuntimeSetup,
    d: &RuntimeDirs,
    existing: &[String],
    runtime_rlib: &str,
    public_deps: &[(String, String)],
    located: &[Path],
    dep_entries: &[Path],
    stub_exists: Option<bool>,
    specialized: Option<(String, Path)>,
) -> (r: Result<Vec<Extern>, InjectError>)
    requires
        dirs_ok(*s),
        path_view(d.host_artifacts) == host_artifacts_of(*s),
        path_view(d.target_artifacts) == target_artifacts_of(*s),
        stub_missing(*s, stub_exists) ==> host_artifacts_of(*s).len() >= 1,
        !s.embedded ==> located@.len() == public_deps@.len(),
    ensures
        ({
            let start = existing_map(existing@, existing@.len()).insert(
                RUNTIME_EXTERN@,
                (None, Some(set![runtime_path(*s, runtime_rlib@)])),
            );
            let deps = with_deps(start, *s, public_deps@, located@, dep_entries@, public_deps@.len());
            match r {
                Ok(es) => !stub_missing(*s, stub_exists) && deps is Ok && match specialized {
                    None => externs_map(es@) == deps->Ok_0,
                    Some((name, path)) => deps->Ok_0.contains_key(name@) && externs_map(es@)
                        == deps->Ok_0.insert(
                        name@,
                        (deps->Ok_0[name@].0, Some(set![path_view(path)])),
                    ),
                },
                Err(InjectError::MissingEmbeddedRuntime { cross: c, target, searched, profile }) =>
                    stub_missing(*s, stub_exists) && c == cross(*s) && target@ == s.target_triple@
                    && path_view(searched)
                    == target_artifacts_of(*s) && profile@ == host_artifacts_of(*s).last(),
                Err(InjectError::ConflictingExtern { name }) => {
                    &&& !stub_missing(*s, stub_exists)
                    &&& deps is Err
                    &&& 0 <= deps->Err_0 < public_deps@.len()
                    &&& name@ == public_deps@[deps->Err_0].0@
                },
                Err(InjectError::MissingSpecializedExtern { name }) => {
                    &&& !stub_missing(*s, stub_exists)
                    &&& deps is Ok
                    &&& specialized is Some
                    &&& name@ == specialized->Some_0.0@
                    &&& !deps->Ok_0.contains_key(name@)
                },
                Err(_) => false,
            }
        }),
{
    let mut es: Vec<Extern> = Vec::new();
    let mut i: usize = 0;
    while i < existing.len()
        invariant
            i <= existing.len(),
            externs_map(es@) == existing_map(existing@, i as nat),
        decreases existing.len() - i,
    {
        push_extern(&mut es, extern_of(existing[i].clone(), Some(i), None));
        i += 1;
    }
    if s.embedded && stub_exists == Some(false) {
        let n = d.host_artifacts.len();
        return Err(InjectError::MissingEmbeddedRuntime {
            cross: !text_eq(&s.target_triple, &s.host_triple),
            target: s.target_triple.clone(),
            searched: clone_path(&d.target_artifacts),
            profile: d.host_artifacts[n - 1].clone(),
        });
    }
    let runtime = if !s.embedded {
        joined(&d.target_artifacts, runtime_rlib)
    } else {
        joined(&d.target_artifacts, EMBEDDED_RUNTIME_STUB)
    };
    push_extern(&mut es, extern_of(string_of(RUNTIME_EXTERN), None, Some(one_path(runtime))));
    let ghost start = externs_map(es@);
    let mut k: usize = 0;
    while k < public_deps.len()
        invariant
            k <= public_deps.len(),
            !s.embedded ==> located@.len() == public_deps@.len(),
            !stub_missing(*s, stub_exists),
            start == existing_map(existing@, existing@.len()).insert(
                RUNTIME_EXTERN@,
                (None, Some(set![runtime_path(*s, runtime_rlib@)])),
            ),
            with_deps(start, *s, public_deps@, located@, dep_entries@, k as nat) == Ok::<Map<Seq<char>, ExternView>, int>(externs_map(es@)),
        decreases public_deps.len() - k,
    {
        let (visible, dep_file) = &public_deps[k];
        if find_extern(&es, visible).is_some() {
            proof {
                assert(with_deps(start, *s, public_deps@, located@, dep_entries@, k as nat + 1) == Err::<Map<Seq<char>, ExternView>, int>(k as int));
                lemma_with_deps_err_persists(start, *s, public_deps@, located@, dep_entries@, k as nat + 1, public_deps@.len());
            }
            return Err(InjectError::ConflictingExtern { name: visible.clone() });
        }
        let paths: Vec<Path> = if !s.embedded {
            one_path(clone_path(&located[k]))
        } else {
            matching_dep_files(dep_entries, dep_file.as_str())
        };
        let ghost pv = paths_view(paths@);
        proof {
            assert(pv == dep_paths(*s, located@, dep_entries@, dep_file@, k as int));
        }
        push_extern(&mut es, extern_of(visible.clone(), None, Some(paths)));
        k += 1;
    }
    match specialized {
        None => Ok(es),
        Some((name, path)) => {
            match find_extern(&es, &name) {
                None => Err(InjectError::MissingSpecializedExtern { name }),
                Some(j) => {
                    let base = es[j].base;
                    push_extern(&mut es, extern_of(name, base, Some(one_path(path))));
                    Ok(es)
                },
            }
        },
    }
}

proof fn lemma_with_deps_err_persists(
    m: Map<Seq<char>, ExternView>,
    s: RuntimeSetup,
    deps: Seq<(String, String)>,
    located: Seq<Path>,
    entries: Seq<Path>,
    k: nat,
    n: nat,
)
    requires
        k <= n,
        with_deps(m, s, deps, located, entries, k) is Err,
    ensures
        with_deps(m, s, deps, located, entries, n) == with_deps(m, s, deps, located, entries, k),
    decreases n - k,
{
    if k < n {
        lemma_with_deps_err_persists(m, s, deps, located, entries, k, (n - 1) as nat);
    }
}

/// Where the libtest metadata shim for a target without `std` is looked for: beside the runtime
/// the driver was built with, under the target's name, with the same profile.
pub open spec fn shim_artifacts_of(s: RuntimeSetup) -> Seq<Seq<char>> {
    let h = match s.search_path {
        Some(p) => path_view(p),
        None => path_view(s.compiletime_artifacts_dir),
    };
    h.drop_last().push(s.target_triple@).push(h.last())
}

pub open spec fn shim_path(s: RuntimeSetup) -> Seq<Seq<char>> {
    shim_artifacts_of(s).push(TEST_SHIM@)
}

/// The libtest metadata shim a harness for a target without `std` links in place of `test`.
pub const TEST_SHIM: &'static str = "libtest_metadata_shim.rlib";

fn shim_artifacts(s: &RuntimeSetup) -> (r: Path)
    requires
        (match s.search_path {
            Some(p) => p@.len(),
            None => s.compiletime_artifacts_dir@.len(),
        }) >= 1,
    ensures
        path_view(r) == shim_artifacts_of(*s),
{
    let host: &Path = match &s.search_path {
        Some(p) => p,
        None => &s.compiletime_artifacts_dir,
    };
    let n = host.len();
    let mut artifacts: Path = Vec::new();
    let mut i: usize = 0;
    while i + 1 < n
        invariant
            n == host@.len(),
            n >= 1,
            i + 1 <= n,
            path_view(artifacts) == path_view(*host).take(i as int),
        decreases n - i,
    {
        let ghost before = artifacts@;
        let c = host[i].clone();
        artifacts.push(c);
        proof {
            assert(component_views(artifacts@) =~= component_views(before).push(host@[i as int]@));
            assert(path_view(*host).take(i as int + 1) =~= path_view(*host).take(i as int).push(host@[i as int]@));
        }
        i += 1;
    }
    let ghost root = path_view(artifacts);
    artifacts.push(s.target_triple.clone());
    artifacts.push(host[n - 1].clone());
    proof {
        assert(path_view(*host).drop_last() =~= path_view(*host).take(n - 1));
        assert(path_view(artifacts) =~= root.push(s.target_triple@).push(host@[n - 1]@));
    }
    artifacts
}

/// Where the libtest metadata shim for a target without `std` is looked for.
pub fn test_shim_path(s: &RuntimeSetup) -> (r: Path)
    requires
        (match s.search_path {
            Some(p) => p@.len(),
            None => s.compiletime_artifacts_dir@.len(),
        }) >= 1,
    ensures
        path_view(r) == shim_path(*s),
{
    let artifacts = shim_artifacts(s);
    joined(&artifacts, TEST_SHIM)
}

/// The externs the compiler is given for a target without `std`: those it already had, and the
/// libtest metadata shim as `test`; `None` for a target with `std`, which needs none of it. A
/// target without `std` needs the embedded runtime, and a driver that carries the runtime carries
/// it for the host alone.
pub fn test_shim_externs(
    s: &RuntimeSetup,
    target_has_std: Option<bool>,
    existing: &[String],
    shim_exists: Option<bool>,
) -> (r: Result<Option<Vec<Extern>>, InjectError>)
    requires
        target_has_std != Some(true) && s.embedded && !s.embed_runtime ==> (match s.search_path {
            Some(p) => p@.len(),
            None => s.compiletime_artifacts_dir@.len(),
        }) >= 1,
    ensures
        match r {
            Ok(None) => target_has_std == Some(true),
            Ok(Some(es)) => target_has_std != Some(true) && s.embedded && !s.embed_runtime
                && shim_exists != Some(false) && externs_map(es@) == existing_map(
                existing@,
                existing@.len(),
            ).insert("test"@, (None, Some(set![shim_path(*s)]))),
            Err(InjectError::NoStdWithoutEmbeddedRuntime { target }) => target_has_std != Some(
                true,
            ) && !s.embedded && target@ == s.target_triple@,
            Err(InjectError::CrossCompilationWithEmbeddedRuntime { target }) => target_has_std
                != Some(true) && s.embedded && s.embed_runtime && target@ == s.target_triple@,
            Err(InjectError::MissingTestShim { target, searched, profile }) => {
                &&& target_has_std != Some(true)
                &&& s.embedded
                &&& !s.embed_runtime
                &&& shim_exists == Some(false)
                &&& target@ == s.target_triple@
                &&& path_view(searched) == shim_artifacts_of(*s)
                &&& profile@ == (match s.search_path {
                    Some(p) => path_view(p),
                    None => path_view(s.compiletime_artifacts_dir),
                }).last()
            },
            Err(_) => false,
        },
{
    if target_has_std == Some(true) {
        return Ok(None);
    }
    if !s.embedded {
        return Err(InjectError::NoStdWithoutEmbeddedRuntime { target: s.target_triple.clone() });
    }
    if s.embed_runtime {
        return Err(InjectError::CrossCompilationWithEmbeddedRuntime { target: s.target_triple.clone() });
    }
    let artifacts = shim_artifacts(s);
    let host: &Path = match &s.search_path {
        Some(p) => p,
        None => &s.compiletime_artifacts_dir,
    };
    let n = host.len();
    if shim_exists == Some(false) {
        return Err(InjectError::MissingTestShim {
            target: s.target_triple.clone(),
            searched: artifacts,
            profile: host[n - 1].clone(),
        });
    }
    let mut es: Vec<Extern> = Vec::new();
    let mut k: usize = 0;
    while k < existing.len()
        invariant
            k <= existing.len(),
            externs_map(es@) == existing_map(existing@, k as nat),
        decreases existing.len() - k,
    {
        push_extern(&mut es, extern_of(existing[k].clone(), Some(k), None));
        k += 1;
    }
    let shim = joined(&artifacts, TEST_SHIM);
    push_extern(&mut es, extern_of(string_of("test"), None, Some(one_path(shim))));
    Ok(Some(es))
}

/// A path as it is shown: its components joined by `/`, with none added after one that already
/// ends in `/`, as the root does.
pub open spec fn display_path(p: Seq<Seq<char>>) -> Seq<char>
    decreases p.len(),
{
    if p.len() == 0 {
        Seq::empty()
    } else {
        let init = display_path(p.drop_last());
        if init.len() == 0 {
            p.last()
        } else if init.last() == '/' {
            init + p.last()
        } else {
            init + "/"@ + p.last()
        }
    }
}

/// A path as it is shown.
pub fn display(p: &Path) -> (r: String)
    ensures
        r@ == display_path(path_view(*p)),
{
    let mut r = String::new();
    let mut nonempty = false;
    let mut slash = false;
    let mut i: usize = 0;
    proof {
        assert(path_view(*p).take(0) =~= Seq::<Seq<char>>::empty());
    }
    while i < p.len()
        invariant
            i <= p.len(),
            r@ == display_path(path_view(*p).take(i as int)),
            nonempty == (r@.len() > 0),
            slash == (r@.len() > 0 && r@.last() == '/'),
        decreases p.len() - i,
    {
        let c = p[i].as_str();
        let chars = text::chars_of(c);
        let ghost before = r@;
        proof {
            let t = path_view(*p).take(i as int + 1);
            assert(t.drop_last() =~= path_view(*p).take(i as int));
            assert(t.last() == c@);
        }
        if !nonempty {
            r.append(c);
            nonempty = chars.len() > 0;
            slash = nonempty && chars[chars.len() - 1] == '/';
        } else if slash {
            r.append(c);
            if chars.len() > 0 {
                slash = chars[chars.len() - 1] == '/';
            }
        } else {
            r.append("/");
            r.append(c);
            if chars.len() > 0 {
                slash = chars[chars.len() - 1] == '/';
            } else {
                slash = true;
            }
        }
        proof {
            if !(before.len() > 0) {
                assert(r@ =~= c@);
            } else if before.last() == '/' {
                assert(r@ =~= before + c@);
                if c@.len() > 0 {
                    assert(r@.last() == c@.last());
                } else {
                    assert(r@ =~= before);
                }
            } else {
                assert(r@ =~= before + "/"@ + c@);
                if c@.len() > 0 {
                    assert(r@.last() == c@.last());
                } else {
                    reveal_strlit("/");
                    assert("/"@ =~= seq!['/']);
                    assert(r@ =~= before + seq!['/']);
                }
            }
        }
        i += 1;
    }
    proof {
        assert(path_view(*p).take(p@.len() as int) =~= path_view(*p));
    }
    r
}

/// What the compilation ends with, for each error.
pub open spec fn message_spec(e: InjectError) -> Seq<char> {
    match e {
        InjectError::CrossCompilationWithEmbeddedRuntime { .. } =>
            "mutest-rs with runtime embedding does not support cross-compilation"@,
        InjectError::MissingEmbeddedRuntime { cross, target, .. } => if cross {
            "cannot find cross-compiled mutest-rs embedded runtime for target `"@ + target@ + "`"@
        } else {
            "cannot find mutest-rs embedded runtime for host"@
        },
        InjectError::ConflictingExtern { name } => "mutest-injected crate conflicts with existing extern `"@
            + name@ + "`"@,
        InjectError::MissingSpecializedExtern { name } => "cannot find extern `"@ + name@
            + "` to replace with specialized external mutant crate"@,
        InjectError::NoStdWithoutEmbeddedRuntime { target } => "target `"@ + target@
            + "` does not support std, but the embedded mutation runtime was not specified"@,
        InjectError::MissingTestShim { target, .. } =>
            "cannot find cross-compiled libtest metadata shim for target `"@ + target@ + "`"@,
    }
}

/// The notes that come with each error: where a missing artifact was looked for, and how to build
/// it.
pub open spec fn notes_spec(e: InjectError) -> Seq<Seq<char>> {
    match e {
        InjectError::CrossCompilationWithEmbeddedRuntime { target } => seq![
            "target: `"@ + target@ + "`"@,
        ],
        InjectError::MissingEmbeddedRuntime { cross, target, searched, profile } => seq![
            "searching in `"@ + display_path(path_view(searched)) + "`"@,
            if cross {
                "consider running `cargo build --target="@ + target@ + " --profile="@ + profile@
                    + " -p mutest-runtime-embedded-target-stub` in the mutest-rs source tree"@
            } else {
                "consider running `cargo build --profile="@ + profile@
                    + " -p mutest-runtime-embedded-target-stub` in the mutest-rs source tree"@
            },
        ],
        InjectError::ConflictingExtern { .. } => seq![
            "mutest-injected crates use the reserved `__mutest_runtime_public_dep_` prefix: if you see this error for any other crate, please file a bug report"@,
        ],
        InjectError::MissingSpecializedExtern { .. } => Seq::empty(),
        InjectError::NoStdWithoutEmbeddedRuntime { .. } => seq![
            "the default mutation runtime does not support targets without std support"@,
            "consider running with the `-Z embedded` flag to use the experimental embedded mutation runtime"@,
        ],
        InjectError::MissingTestShim { target, searched, profile } => seq![
            "searching in `"@ + display_path(path_view(searched)) + "`"@,
            "consider running `cargo build --target="@ + target@ + " --profile="@ + profile@
                + " -p test-metadata-shim` in the mutest-rs source tree"@,
        ],
    }
}

pub open spec fn string_views(v: Seq<String>) -> Seq<Seq<char>> {
    v.map_values(|s: String| s@)
}

fn concat3(a: &str, b: &str, c: &str) -> (r: String)
    ensures
        r@ == a@ + b@ + c@,
{
    let mut r = String::from_str(a);
    r.append(b);
    r.append(c);
    r
}

fn searching_in(searched: &Path) -> (r: String)
    ensures
        r@ == "searching in `"@ + display_path(path_view(*searched)) + "`"@,
{
    let shown = display(searched);
    concat3("searching in `", shown.as_str(), "`")
}

fn build_hint(target: Option<&String>, profile: &String, package: &str) -> (r: String)
    ensures
        r@ == (match target {
            Some(t) => "consider running `cargo build --target="@ + t@ + " --profile="@,
            None => "consider running `cargo build --profile="@,
        }) + profile@ + " -p "@ + package@ + "` in the mutest-rs source tree"@,
{
    let mut r = match target {
        Some(t) => concat3("consider running `cargo build --target=", t.as_str(), " --profile="),
        None => String::from_str("consider running `cargo build --profile="),
    };
    r.append(profile.as_str());
    r.append(" -p ");
    r.append(package);
    r.append("` in the mutest-rs source tree");
    r
}

impl InjectError {
    /// What the compilation ends with.
    pub fn message(&self) -> (r: String)
        ensures
            r@ == message_spec(*self),
    {
        match self {
            InjectError::CrossCompilationWithEmbeddedRuntime { .. } => String::from_str(
                "mutest-rs with runtime embedding does not support cross-compilation",
            ),
            InjectError::MissingEmbeddedRuntime { cross, target, .. } => if *cross {
                concat3("cannot find cross-compiled mutest-rs embedded runtime for target `", target.as_str(), "`")
            } else {
                String::from_str("cannot find mutest-rs embedded runtime for host")
            },
            InjectError::ConflictingExtern { name } => concat3(
                "mutest-injected crate conflicts with existing extern `",
                name.as_str(),
                "`",
            ),
            InjectError::MissingSpecializedExtern { name } => concat3(
                "cannot find extern `",
                name.as_str(),
                "` to replace with specialized external mutant crate",
            ),
            InjectError::NoStdWithoutEmbeddedRuntime { target } => concat3(
                "target `",
                target.as_str(),
                "` does not support std, but the embedded mutation runtime was not specified",
            ),
            InjectError::MissingTestShim { target, .. } => concat3(
                "cannot find cross-compiled libtest metadata shim for target `",
                target.as_str(),
                "`",
            ),
        }
    }

    /// The notes that come with the error.
    pub fn notes(&self) -> (r: Vec<String>)
        ensures
            string_views(r@) == notes_spec(*self),
    {
        let mut r: Vec<String> = Vec::new();
        match self {
            InjectError::CrossCompilationWithEmbeddedRuntime { target } => {
                r.push(concat3("target: `", target.as_str(), "`"));
            },
            InjectError::MissingEmbeddedRuntime { cross, target, searched, profile } => {
                r.push(searching_in(searched));
                r.push(build_hint(if *cross { Some(target) } else { None }, profile, "mutest-runtime-embedded-target-stub"));
            },
            InjectError::ConflictingExtern { .. } => {
                r.push(String::from_str("mutest-injected crates use the reserved `__mutest_runtime_public_dep_` prefix: if you see this error for any other crate, please file a bug report"));
            },
            InjectError::MissingSpecializedExtern { .. } => {},
            InjectError::NoStdWithoutEmbeddedRuntime { .. } => {
                r.push(String::from_str("the default mutation runtime does not support targets without std support"));
                r.push(String::from_str("consider running with the `-Z embedded` flag to use the experimental embedded mutation runtime"));
            },
            InjectError::MissingTestShim { target, searched, profile } => {
                r.push(searching_in(searched));
                r.push(build_hint(Some(target), profile, "test-metadata-shim"));
            },
        }
        proof {
            reveal_strlit("consider running `cargo build --target=");
            reveal_strlit(" --profile=");
            reveal_strlit("consider running `cargo build --profile=");
            reveal_strlit(" -p ");
            reveal_strlit("` in the mutest-rs source tree");
            reveal_strlit("mutest-runtime-embedded-target-stub");
            reveal_strlit(" -p mutest-runtime-embedded-target-stub` in the mutest-rs source tree");
            reveal_strlit("test-metadata-shim");
            reveal_strlit(" -p test-metadata-shim` in the mutest-rs source tree");
            assert(" -p "@ + "mutest-runtime-embedded-target-stub"@ + "` in the mutest-rs source tree"@
                =~= " -p mutest-runtime-embedded-target-stub` in the mutest-rs source tree"@);
            assert(" -p "@ + "test-metadata-shim"@ + "` in the mutest-rs source tree"@
                =~= " -p test-metadata-shim` in the mutest-rs source tree"@);
            match self {
                InjectError::MissingEmbeddedRuntime { cross, target, profile, .. } => {
                    let stub = "mutest-runtime-embedded-target-stub"@;
                    let tail = "` in the mutest-rs source tree"@;
                    if *cross {
                        assert(r@[1]@ == "consider running `cargo build --target="@ + target@ + " --profile="@
                            + profile@ + " -p "@ + stub + tail);
                        assert("consider running `cargo build --target="@ + target@ + " --profile="@
                            + profile@ + " -p "@ + stub + tail =~= "consider running `cargo build --target="@
                            + target@ + " --profile="@ + profile@ + (" -p "@ + stub + tail));
                    } else {
                        assert("consider running `cargo build --profile="@ + profile@ + " -p "@ + stub + tail
                            =~= "consider running `cargo build --profile="@ + profile@ + (" -p "@ + stub + tail));
                    }
                },
                InjectError::MissingTestShim { target, profile, .. } => {
                    let shim = "test-metadata-shim"@;
                    let tail = "` in the mutest-rs source tree"@;
                    assert("consider running `cargo build --target="@ + target@ + " --profile="@
                        + profile@ + " -p "@ + shim + tail =~= "consider running `cargo build --target="@
                        + target@ + " --profile="@ + profile@ + (" -p "@ + shim + tail));
                },
                _ => {},
            }
            assert(string_views(r@) =~= notes_spec(*self));
        }
        r
    }
}

} // verus!
