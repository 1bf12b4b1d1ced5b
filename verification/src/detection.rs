//! Build suggestions for a Node project, decided from what its directories
//! hold: version files, `package.json`, lockfiles and workspace files.
use vstd::prelude::*;
use crate::git::{option_view, string_views};
use crate::text::{
    char_is_digit, chars_of, contains_chars, contains_seq, copy_range, equals,
    is_digit, lead, lemma_lead, lines, lines_chars, not_digit, seq_eq,
    split_once, split_once_chars, string_from, string_of, trim, trim_chars, trim_start_by,
    trim_start_matches_chars, append_str, views, push_char,
};

verus! {

/// What Blank suggests for building a project.
#[derive(Debug, Clone)]
pub struct BuildSuggestions {
    pub repository_mise: bool,
    pub tools: Vec<String>,
    pub install_command: Option<String>,
    pub build_command: Option<String>,
    pub publish_directory: String,
    pub detected_framework: Option<String>,
    pub isolate_package_workspace: bool,
}

/// What the project's `package.json` declares.
#[derive(Debug, Clone)]
pub struct PackageFacts {
    /// `packageManager`.
    pub package_manager: Option<String>,
    /// `engines.node`.
    pub engines_node: Option<String>,
    /// Whether `scripts` has a `build` script.
    pub has_build_script: bool,
    /// The names in `dependencies` and `devDependencies`.
    pub dependencies: Vec<String>,
}

/// What one directory holds, for the project directory and each of its
/// ancestors up to the repository root.
#[derive(Debug, Clone)]
pub struct DirectoryFacts {
    /// `packageManager` of a readable, valid `package.json` there.
    pub package_manager: Option<String>,
    pub pnpm_lock: bool,
    pub yarn_lock: bool,
    pub bun_lock: bool,
    pub bun_lockb: bool,
    pub package_lock: bool,
    /// The text of `pnpm-lock.yaml`, when it can be read.
    pub pnpm_lockfile: Option<String>,
    pub pnpm_workspace: bool,
    /// Whether a `.git` entry is there.
    pub git: bool,
    /// Whether this is the repository root.
    pub repository_root: bool,
}

/// What a project holds.
#[derive(Debug, Clone)]
pub struct ProjectFacts {
    /// Whether the project has `mise.toml`, `.mise.toml` or `.tool-versions`.
    pub repository_mise: bool,
    /// `package.json`, when the project has one.
    pub package: Option<PackageFacts>,
    /// The texts of `.node-version` and `.nvmrc`, in this order, when they
    /// can be read.
    pub version_files: Vec<Option<String>>,
    /// The project directory, then its ancestors, up to the repository root.
    pub directories: Vec<DirectoryFacts>,
}

// ---------------------------------------------------------------------------
// Node versions
// ---------------------------------------------------------------------------

pub open spec fn node_separator() -> spec_fn(char) -> bool {
    |c: char| c != '.' && c != ' ' && c != '|'
}

/// The major version in a version range: after the leading non-digits, up to
/// the first `.`, space or `|`; `24` when that is empty.
pub open spec fn normalized_node(value: Seq<char>) -> Seq<char> {
    let t = trim_start_by(trim(value), not_digit());
    let major = t.take(lead(t, node_separator()) as int);
    if major.len() > 0 {
        major
    } else {
        "24"@
    }
}

pub fn normalize_node(value: &str) -> (res: String)
    ensures
        res@ == normalized_node(value@),
{
    let v = chars_of(value);
    let t = trim_chars(v.as_slice());
    let mut a: usize = 0;
    while a < t.len() && !char_is_digit(t[a])
        invariant
            a <= t.len(),
            forall|i: int| 0 <= i < a ==> !is_digit(#[trigger] t@[i]),
        decreases t.len() - a,
    {
        a += 1;
    }
    proof {
        lemma_lead(t@, not_digit(), a as int);
    }
    let rest = copy_range(t.as_slice(), a, t.len());
    let mut k: usize = 0;
    while k < rest.len() && rest[k] != '.' && rest[k] != ' ' && rest[k] != '|'
        invariant
            k <= rest.len(),
            forall|i: int| 0 <= i < k ==> (node_separator())(#[trigger] rest@[i]),
        decreases rest.len() - k,
    {
        k += 1;
    }
    proof {
        lemma_lead(rest@, node_separator(), k as int);
    }
    if k > 0 {
        let major = copy_range(rest.as_slice(), 0, k);
        string_of(major.as_slice())
    } else {
        string_from("24")
    }
}

/// A version file's text, trimmed and without a leading `v`.
pub open spec fn version_file_value(text: Seq<char>) -> Seq<char> {
    trim_start_by(trim(text), equals('v'))
}

/// The version of the first readable version file that names one.
pub open spec fn first_version(files: Seq<Option<Seq<char>>>) -> Option<Seq<char>>
    decreases files.len(),
{
    if files.len() == 0 {
        None
    } else {
        match files[0] {
            Some(text) => if version_file_value(text).len() > 0 {
                Some(version_file_value(text))
            } else {
                first_version(files.drop_first())
            },
            None => first_version(files.drop_first()),
        }
    }
}

pub open spec fn option_views(v: Seq<Option<String>>) -> Seq<Option<Seq<char>>> {
    v.map_values(|o: Option<String>| option_view(o))
}

/// The Node version from the project's version files.
pub fn read_first(files: &Vec<Option<String>>) -> (res: Option<String>)
    ensures
        option_view(res) == first_version(option_views(files@)),
{
    let ghost fv = option_views(files@);
    let mut i: usize = 0;
    assert(fv.skip(0) =~= fv);
    while i < files.len()
        invariant
            i <= files.len(),
            fv == option_views(files@),
            first_version(fv) == first_version(fv.skip(i as int)),
        decreases files.len() - i,
    {
        proof {
            assert(fv.skip(i as int).drop_first() =~= fv.skip(i as int + 1));
            assert(fv.skip(i as int)[0] == fv[i as int]);
        }
        match &files[i] {
            Some(text) => {
                let t = chars_of(text.as_str());
                let t = trim_chars(t.as_slice());
                let value = trim_start_matches_chars(t.as_slice(), 'v');
                if value.len() > 0 {
                    return Some(string_of(value.as_slice()));
                }
            },
            None => {},
        }
        i += 1;
    }
    proof {
        assert(fv.skip(files@.len() as int) =~= Seq::<Option<Seq<char>>>::empty());
    }
    None
}

/// The Node version: from a version file, else from `engines.node`, else 24.
pub open spec fn node_version(facts: ProjectFacts, package: PackageFacts) -> Seq<char> {
    match first_version(option_views(facts.version_files@)) {
        Some(v) => v,
        None => match package.engines_node {
            Some(e) => normalized_node(e@),
            None => "24"@,
        },
    }
}

// ---------------------------------------------------------------------------
// Package managers
// ---------------------------------------------------------------------------

/// A `packageManager` value: the name, and the version after `@` if any.
pub open spec fn declared_manager(value: Seq<char>) -> (Seq<char>, Option<Seq<char>>) {
    match split_once(value, '@') {
        Some((name, version)) => (name, Some(version)),
        None => (value, None),
    }
}

/// The package manager a directory's lockfile names, in this order of
/// preference: pnpm, Yarn, Bun (`bun.lock`, `bun.lockb`), npm.
pub open spec fn lockfile_manager(d: DirectoryFacts) -> Option<Seq<char>> {
    if d.pnpm_lock {
        Some("pnpm"@)
    } else if d.yarn_lock {
        Some("yarn"@)
    } else if d.bun_lock {
        Some("bun"@)
    } else if d.bun_lockb {
        Some("bun"@)
    } else if d.package_lock {
        Some("npm"@)
    } else {
        None
    }
}

/// The package manager, its declared version and the index of the directory
/// that decided it, looking from directory `i` upwards: a declared
/// `packageManager` (the project's own for the project directory), else a
/// lockfile; npm in the project directory when none is found.
pub open spec fn manager_from(
    local: Option<Seq<char>>,
    dirs: Seq<DirectoryFacts>,
    i: int,
) -> (Seq<char>, Option<Seq<char>>, int)
    decreases dirs.len() - i,
{
    if i < 0 || i >= dirs.len() {
        ("npm"@, None, 0)
    } else {
        let declared = if i == 0 {
            local
        } else {
            option_view(dirs[i].package_manager)
        };
        match declared {
            Some(v) => (declared_manager(v).0, declared_manager(v).1, i),
            None => match lockfile_manager(dirs[i]) {
                Some(m) => (m, None, i),
                None => manager_from(local, dirs, i + 1),
            },
        }
    }
}

fn lockfile_manager_exec(d: &DirectoryFacts) -> (r: Option<String>)
    ensures
        option_view(r) == lockfile_manager(*d),
{
    if d.pnpm_lock {
        Some(string_from("pnpm"))
    } else if d.yarn_lock {
        Some(string_from("yarn"))
    } else if d.bun_lock {
        Some(string_from("bun"))
    } else if d.bun_lockb {
        Some(string_from("bun"))
    } else if d.package_lock {
        Some(string_from("npm"))
    } else {
        None
    }
}

fn declared_manager_exec(value: &str) -> (r: (String, Option<String>))
    ensures
        (r.0@, option_view(r.1)) == declared_manager(value@),
{
    let v = chars_of(value);
    match split_once_chars(v.as_slice(), '@') {
        Some((name, version)) => (string_of(name.as_slice()), Some(string_of(version.as_slice()))),
        None => (string_from(value), None),
    }
}

/// The package manager of a project, its declared version, and the index of
/// the directory that decided it.
pub fn find_package_manager(local: &Option<String>, dirs: &Vec<DirectoryFacts>) -> (res: (
    String,
    Option<String>,
    usize,
))
    ensures
        (res.0@, option_view(res.1), res.2 as int) == manager_from(option_view(*local), dirs@, 0),
{
    let mut i: usize = 0;
    while i < dirs.len()
        invariant
            i <= dirs.len(),
            manager_from(option_view(*local), dirs@, 0) == manager_from(
                option_view(*local),
                dirs@,
                i as int,
            ),
        decreases dirs.len() - i,
    {
        let declared: Option<&String> = if i == 0 {
            local.as_ref()
        } else {
            dirs[i].package_manager.as_ref()
        };
        match declared {
            Some(value) => {
                let (name, version) = declared_manager_exec(value.as_str());
                return (name, version, i);
            },
            None => {},
        }
        match lockfile_manager_exec(&dirs[i]) {
            Some(m) => {
                return (m, None, i);
            },
            None => {},
        }
        i += 1;
    }
    (string_from("npm"), None, 0)
}

/// Whether a `pnpm-workspace.yaml` governs the directory at index `i`:
/// looking upwards, one is found before the repository root is passed or a
/// `.git` entry stops the search.
pub open spec fn workspace_from(dirs: Seq<DirectoryFacts>, i: int) -> bool
    decreases dirs.len() - i,
{
    if i < 0 || i >= dirs.len() {
        false
    } else if dirs[i].pnpm_workspace {
        true
    } else if dirs[i].repository_root || dirs[i].git {
        false
    } else {
        workspace_from(dirs, i + 1)
    }
}

pub fn repository_has_pnpm_workspace(dirs: &Vec<DirectoryFacts>, from: usize) -> (r: bool)
    ensures
        r == workspace_from(dirs@, from as int),
{
    let mut i: usize = from;
    while i < dirs.len()
        invariant
            from <= i,
            workspace_from(dirs@, from as int) == workspace_from(dirs@, i as int),
        decreases dirs.len() - i,
    {
        if dirs[i].pnpm_workspace {
            return true;
        }
        if dirs[i].repository_root || dirs[i].git {
            return false;
        }
        i += 1;
    }
    false
}

/// Whether some directory from index `i` upwards holds a
/// `pnpm-workspace.yaml`, with no directory before it (from `i` on) that is
/// the repository root or holds `.git`.
pub open spec fn workspace_reachable(dirs: Seq<DirectoryFacts>, i: int) -> bool {
    exists|j: int|
        #![trigger dirs[j]]
        i <= j < dirs.len() && dirs[j].pnpm_workspace && forall|k: int|
            i <= k < j ==> !dirs[k].repository_root && !dirs[k].git
}

/// The workspace search from a directory answers true exactly when a
/// `pnpm-workspace.yaml` is found at or above it before the search passes
/// the repository root or a `.git` entry; a workspace file in the directory
/// where the search stops still counts.
pub proof fn lemma_workspace_search(dirs: Seq<DirectoryFacts>, i: int)
    requires
        0 <= i <= dirs.len(),
    ensures
        workspace_from(dirs, i) == workspace_reachable(dirs, i),
        i < dirs.len() && dirs[i].pnpm_workspace ==> workspace_from(dirs, i),
    decreases dirs.len() - i,
{
    if i < dirs.len() {
        if dirs[i].pnpm_workspace {
            assert(workspace_reachable(dirs, i) ==> workspace_from(dirs, i));
            assert(dirs[i].pnpm_workspace);
            assert(workspace_reachable(dirs, i));
        } else if dirs[i].repository_root || dirs[i].git {
            assert(!workspace_reachable(dirs, i)) by {
                if workspace_reachable(dirs, i) {
                    let j = choose|j: int|
                        #![trigger dirs[j]]
                        i <= j < dirs.len() && dirs[j].pnpm_workspace && forall|k: int|
                            i <= k < j ==> !dirs[k].repository_root && !dirs[k].git;
                    assert(j != i);
                    assert(!dirs[i].repository_root && !dirs[i].git);
                }
            }
        } else {
            lemma_workspace_search(dirs, i + 1);
            if workspace_reachable(dirs, i + 1) {
                let j = choose|j: int|
                    #![trigger dirs[j]]
                    i + 1 <= j < dirs.len() && dirs[j].pnpm_workspace && forall|k: int|
                        i + 1 <= k < j ==> !dirs[k].repository_root && !dirs[k].git;
                assert(forall|k: int| i <= k < j ==> !dirs[k].repository_root && !dirs[k].git);
                assert(workspace_reachable(dirs, i));
            }
            if workspace_reachable(dirs, i) {
                let j = choose|j: int|
                    #![trigger dirs[j]]
                    i <= j < dirs.len() && dirs[j].pnpm_workspace && forall|k: int|
                        i <= k < j ==> !dirs[k].repository_root && !dirs[k].git;
                assert(j != i);
                assert(dirs[j].pnpm_workspace);
                assert(workspace_reachable(dirs, i + 1));
            }
        }
    }
}

/// The pnpm version a lockfile implies, from its first line: 8 for lockfile
/// format 6, 9 for format 9, else 10.
pub open spec fn inferred_pnpm(lockfile: Seq<char>) -> Seq<char> {
    let first = if lines(lockfile).len() > 0 {
        lines(lockfile)[0]
    } else {
        Seq::<char>::empty()
    };
    if contains_seq(first, "'6"@) {
        "8"@
    } else if contains_seq(first, "'9"@) {
        "9"@
    } else {
        "10"@
    }
}

pub fn inferred_pnpm_version(lockfile: &str) -> (r: String)
    ensures
        r@ == inferred_pnpm(lockfile@),
{
    let text = chars_of(lockfile);
    let ls = lines_chars(text.as_slice());
    let first: Vec<char> = if ls.len() > 0 {
        ls[0].clone()
    } else {
        Vec::new()
    };
    proof {
        if ls@.len() > 0 {
            assert(first@ == views(ls@)[0]);
        }
    }
    let six = chars_of("'6");
    let nine = chars_of("'9");
    if contains_chars(first.as_slice(), six.as_slice()) {
        string_from("8")
    } else if contains_chars(first.as_slice(), nine.as_slice()) {
        string_from("9")
    } else {
        string_from("10")
    }
}

// ---------------------------------------------------------------------------
// Suggestions
// ---------------------------------------------------------------------------

pub open spec fn install_for(manager: Seq<char>) -> Seq<char> {
    if manager == "pnpm"@ {
        "pnpm install --frozen-lockfile"@
    } else if manager == "yarn"@ {
        "yarn install --immutable"@
    } else if manager == "bun"@ {
        "bun install --frozen-lockfile"@
    } else {
        "npm ci"@
    }
}

pub open spec fn depends_on(package: PackageFacts, name: Seq<char>) -> bool {
    string_views(package.dependencies@).contains(name)
}

/// The manager's version: declared, else inferred from the lockfile for
/// pnpm, else none.
pub open spec fn manager_version(facts: ProjectFacts) -> Option<Seq<char>> {
    let package = facts.package.unwrap();
    let m = manager_from(option_view(package.package_manager), facts.directories@, 0);
    if m.0 == "pnpm"@ && m.1 is None {
        Some(
            inferred_pnpm(
                if 0 <= m.2 < facts.directories@.len() {
                    match facts.directories@[m.2].pnpm_lockfile {
                        Some(t) => t@,
                        None => Seq::<char>::empty(),
                    }
                } else {
                    Seq::<char>::empty()
                },
            ),
        )
    } else {
        m.1
    }
}

/// The tools Blank installs: none when the project has its own Mise file;
/// else Node, and the package manager unless it is npm.
pub open spec fn suggested_tools(facts: ProjectFacts) -> Seq<Seq<char>> {
    let package = facts.package.unwrap();
    let m = manager_from(option_view(package.package_manager), facts.directories@, 0);
    let node = "node@"@ + node_version(facts, package);
    let manager = m.0 + seq!['@'] + match manager_version(facts) {
        Some(v) => v,
        None => "latest"@,
    };
    if facts.repository_mise {
        Seq::empty()
    } else if m.0 == "npm"@ {
        seq![node]
    } else {
        seq![node, manager]
    }
}

/// The suggestions for a project, field by field.
pub open spec fn suggestions_for(facts: ProjectFacts, s: BuildSuggestions) -> bool {
    &&& s.repository_mise == facts.repository_mise
    &&& match facts.package {
        None => {
            &&& s.tools@.len() == 0
            &&& s.install_command is None
            &&& s.build_command is None
            &&& s.publish_directory@ == "."@
            &&& s.detected_framework is None
            &&& !s.isolate_package_workspace
        },
        Some(package) => {
            let m = manager_from(option_view(package.package_manager), facts.directories@, 0);
            &&& string_views(s.tools@) == suggested_tools(facts)
            &&& option_view(s.install_command) == Some(install_for(m.0))
            &&& option_view(s.build_command) == if package.has_build_script {
                Some(m.0 + " run build"@)
            } else {
                None
            }
            &&& s.publish_directory@ == "dist"@
            &&& option_view(s.detected_framework) == if depends_on(package, "astro"@) {
                Some("Astro"@)
            } else if depends_on(package, "vite"@) {
                Some("Vite"@)
            } else {
                None
            }
            &&& s.isolate_package_workspace == (m.0 == "pnpm"@ && !workspace_from(
                facts.directories@,
                m.2,
            ))
        },
    }
}

fn str_is(s: &str, lit: &str) -> (r: bool)
    ensures
        r == (s@ == lit@),
{
    let a = chars_of(s);
    let b = chars_of(lit);
    seq_eq(a.as_slice(), b.as_slice())
}

fn has_dependency(package: &PackageFacts, name: &str) -> (r: bool)
    ensures
        r == depends_on(*package, name@),
{
    let mut i: usize = 0;
    while i < package.dependencies.len()
        invariant
            i <= package.dependencies.len(),
            forall|j: int| 0 <= j < i ==> package.dependencies@[j]@ != name@,
        decreases package.dependencies.len() - i,
    {
        if str_is(package.dependencies[i].as_str(), name) {
            assert(string_views(package.dependencies@)[i as int] == name@);
            return true;
        }
        i += 1;
    }
    proof {
        assert forall|j: int| 0 <= j < string_views(package.dependencies@).len() implies string_views(
            package.dependencies@,
        )[j] != name@ by {
            assert(string_views(package.dependencies@)[j] == package.dependencies@[j]@);
        }
    }
    false
}

/// Suggests how to build a project from what its directories hold.
pub fn suggest_build(facts: &ProjectFacts) -> (res: BuildSuggestions)
    ensures
        suggestions_for(*facts, res),
{
    let package = match &facts.package {
        None => {
            return BuildSuggestions {
                repository_mise: facts.repository_mise,
                tools: Vec::new(),
                install_command: None,
                build_command: None,
                publish_directory: string_from("."),
                detected_framework: None,
                isolate_package_workspace: false,
            };
        },
        Some(p) => p,
    };
    let node = match read_first(&facts.version_files) {
        Some(v) => v,
        None => match &package.engines_node {
            Some(e) => normalize_node(e.as_str()),
            None => string_from("24"),
        },
    };
    let (manager, declared_version, index) = find_package_manager(
        &package.package_manager,
        &facts.directories,
    );
    let is_pnpm = str_is(manager.as_str(), "pnpm");
    let version: Option<String> = if is_pnpm && declared_version.is_none() {
        let lockfile: String = if index < facts.directories.len() {
            match &facts.directories[index].pnpm_lockfile {
                Some(t) => t.clone(),
                None => String::new(),
            }
        } else {
            String::new()
        };
        Some(inferred_pnpm_version(lockfile.as_str()))
    } else {
        declared_version
    };
    proof {
        assert(facts.package.unwrap() == *package);
        assert(node@ == node_version(*facts, *package));
        assert(option_view(version) == manager_version(*facts));
    }
    let mut tools: Vec<String> = Vec::new();
    if !facts.repository_mise {
        let mut n = string_from("node@");
        append_str(&mut n, node.as_str());
        let ghost nv = n@;
        tools.push(n);
        assert(string_views(tools@) =~= seq![nv]);
        if !str_is(manager.as_str(), "npm") {
            let mut m = manager.clone();
            push_char(&mut m, '@');
            match &version {
                Some(v) => append_str(&mut m, v.as_str()),
                None => append_str(&mut m, "latest"),
            }
            let ghost mvv = m@;
            assert(mvv == manager@ + seq!['@'] + match option_view(version) {
                Some(v) => v,
                None => "latest"@,
            });
            tools.push(m);
            assert(string_views(tools@) =~= seq![nv, mvv]);
        }
    } else {
        assert(string_views(tools@) =~= Seq::<Seq<char>>::empty());
    }
    let isolate = is_pnpm && !repository_has_pnpm_workspace(&facts.directories, index);
    let install = if is_pnpm {
        string_from("pnpm install --frozen-lockfile")
    } else if str_is(manager.as_str(), "yarn") {
        string_from("yarn install --immutable")
    } else if str_is(manager.as_str(), "bun") {
        string_from("bun install --frozen-lockfile")
    } else {
        string_from("npm ci")
    };
    let build = if package.has_build_script {
        let mut b = manager.clone();
        append_str(&mut b, " run build");
        Some(b)
    } else {
        None
    };
    let framework = if has_dependency(package, "astro") {
        Some(string_from("Astro"))
    } else if has_dependency(package, "vite") {
        Some(string_from("Vite"))
    } else {
        None
    };
    let res = BuildSuggestions {
        repository_mise: facts.repository_mise,
        tools,
        install_command: Some(install),
        build_command: build,
        publish_directory: string_from("dist"),
        detected_framework: framework,
        isolate_package_workspace: isolate,
    };
    proof {
        let mm = manager_from(option_view(package.package_manager), facts.directories@, 0);
        assert(mm.0 == manager@);
        assert(facts.repository_mise ==> suggested_tools(*facts) =~= Seq::<Seq<char>>::empty());
        assert(!facts.repository_mise && manager@ == "npm"@ ==> suggested_tools(*facts) =~= seq!["node@"@ + node@]);
        assert(!facts.repository_mise && manager@ != "npm"@ ==> suggested_tools(*facts) =~= seq!["node@"@ + node@, manager@ + seq!['@'] + match option_view(version) {
                Some(v) => v,
                None => "latest"@,
            }]);
        assert(string_views(res.tools@) =~= suggested_tools(*facts));
    }
    res
}

/// For a project with a `package.json`, the install is isolated from the
/// workspace exactly when the package manager is pnpm and no
/// `pnpm-workspace.yaml` is found from the directory that decided the manager
/// up to the repository root or a `.git` entry, that directory included.
pub proof fn lemma_isolation_follows_workspace(facts: ProjectFacts, s: BuildSuggestions)
    requires
        facts.package is Some,
        suggestions_for(facts, s),
    ensures
        ({
            let m = manager_from(
                option_view(facts.package->Some_0.package_manager),
                facts.directories@,
                0,
            );
            &&& s.isolate_package_workspace == (m.0 == "pnpm"@ && !workspace_reachable(
                facts.directories@,
                m.2,
            ))
            &&& 0 <= m.2 < facts.directories@.len() && facts.directories@[m.2].pnpm_workspace
                ==> !s.isolate_package_workspace
        }),
{
    let m = manager_from(
        option_view(facts.package->Some_0.package_manager),
        facts.directories@,
        0,
    );
    lemma_manager_index(option_view(facts.package->Some_0.package_manager), facts.directories@, 0);
    lemma_workspace_search(facts.directories@, m.2);
}

proof fn lemma_manager_index(local: Option<Seq<char>>, dirs: Seq<DirectoryFacts>, i: int)
    requires
        0 <= i,
    ensures
        0 <= manager_from(local, dirs, i).2 <= dirs.len(),
    decreases dirs.len() - i,
{
    if 0 <= i < dirs.len() {
        lemma_manager_index(local, dirs, i + 1);
    }
}

} // verus!
