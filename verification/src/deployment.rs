//! The deployment pipeline's rules: its statuses, the commands it runs, the
//! paths of releases and of the active-release link, which releases are
//! kept, the deployment history window, and the event stream of a log.
use vstd::prelude::*;
use crate::codec::{json_quote, json_string};
use crate::error::{ApiError, conflict};
use crate::git::{join_path, join_path_str, option_view, string_views};
use crate::paths::{split_name, split_name_str};
use crate::text::{
    append_str, char_is_digit, char_is_whitespace, chars_of, copy_range, decimal, decimal_i64,
    digit_char, digits,
    is_digit, join, push_char, seq_eq, split_by, starts_with_chars, string_from, string_of,
    strip_prefix, trim, trim_str, whitespace,
};

verus! {

/// The steps a deployment passes through, in order.
#[derive(Clone, Copy, Debug, PartialEq, Eq, Structural)]
pub enum Status {
    Fetching,
    CheckingOut,
    Preparing,
    InstallingTools,
    InstallingDependencies,
    Building,
    Publishing,
    Validating,
    Activating,
    Success,
}

pub open spec fn status_name(s: Status) -> Seq<char> {
    match s {
        Status::Fetching => "fetching"@,
        Status::CheckingOut => "checking_out"@,
        Status::Preparing => "preparing"@,
        Status::InstallingTools => "installing_tools"@,
        Status::InstallingDependencies => "installing_dependencies"@,
        Status::Building => "building"@,
        Status::Publishing => "publishing"@,
        Status::Validating => "validating"@,
        Status::Activating => "activating"@,
        Status::Success => "success"@,
    }
}

impl Status {
    /// The name a status is stored under.
    pub fn as_str(self) -> (r: &'static str)
        ensures
            r@ == status_name(self),
    {
        match self {
            Status::Fetching => "fetching",
            Status::CheckingOut => "checking_out",
            Status::Preparing => "preparing",
            Status::InstallingTools => "installing_tools",
            Status::InstallingDependencies => "installing_dependencies",
            Status::Building => "building",
            Status::Publishing => "publishing",
            Status::Validating => "validating",
            Status::Activating => "activating",
            Status::Success => "success",
        }
    }
}

/// Distinct statuses are stored under distinct names.
pub proof fn lemma_status_names_distinct(a: Status, b: Status)
    requires
        a != b,
    ensures
        status_name(a) != status_name(b),
{
    reveal_strlit("fetching");
    reveal_strlit("checking_out");
    reveal_strlit("preparing");
    reveal_strlit("installing_tools");
    reveal_strlit("installing_dependencies");
    reveal_strlit("building");
    reveal_strlit("publishing");
    reveal_strlit("validating");
    reveal_strlit("activating");
    reveal_strlit("success");
    if status_name(a) == status_name(b) {
        assert(status_name(a).len() == status_name(b).len());
        assert(status_name(a)[0] == status_name(b)[0]);
        assert(status_name(a)[1] == status_name(b)[1]);
        assert(status_name(a)[status_name(a).len() - 1] == status_name(b)[status_name(b).len()
            - 1]);
    }
}

/// The log line that records entering a step.
pub fn transition_line(status: Status, message: &str) -> (r: String)
    ensures
        r@ == seq!['['] + status_name(status) + "] "@ + message@,
{
    let mut r = String::new();
    push_char(&mut r, '[');
    append_str(&mut r, status.as_str());
    append_str(&mut r, "] ");
    append_str(&mut r, message);
    r
}

/// The log text that records a failure.
pub fn failure_log(message: &str) -> (r: String)
    ensures
        r@ == "\n[failed] "@ + message@ + seq!['\n'],
{
    let mut r = string_from("\n[failed] ");
    append_str(&mut r, message);
    push_char(&mut r, '\n');
    r
}

/// The statuses of deployments that a restart interrupts: queued, or in any
/// step but the last.
pub fn recovery_statuses() -> (r: Vec<&'static str>)
    ensures
        r@.len() == 10,
        r@[0]@ == "queued"@,
        forall|i: int| 1 <= i < 10 ==> r@[i]@ == status_name(step_at(i - 1)),
{
    vec![
        "queued",
        Status::Fetching.as_str(),
        Status::CheckingOut.as_str(),
        Status::Preparing.as_str(),
        Status::InstallingTools.as_str(),
        Status::InstallingDependencies.as_str(),
        Status::Building.as_str(),
        Status::Publishing.as_str(),
        Status::Validating.as_str(),
        Status::Activating.as_str(),
    ]
}

/// The steps, in order.
pub open spec fn step_at(i: int) -> Status {
    if i <= 0 {
        Status::Fetching
    } else if i == 1 {
        Status::CheckingOut
    } else if i == 2 {
        Status::Preparing
    } else if i == 3 {
        Status::InstallingTools
    } else if i == 4 {
        Status::InstallingDependencies
    } else if i == 5 {
        Status::Building
    } else if i == 6 {
        Status::Publishing
    } else if i == 7 {
        Status::Validating
    } else if i == 8 {
        Status::Activating
    } else {
        Status::Success
    }
}

/// A status is final once the deployment succeeded, failed or was cancelled.
pub open spec fn finished(status: Seq<char>) -> bool {
    status == "success"@ || status == "failed"@ || status == "cancelled"@
}

pub fn is_finished(status: &str) -> (r: bool)
    ensures
        r == finished(status@),
{
    let s = chars_of(status);
    let a = chars_of("success");
    let b = chars_of("failed");
    let c = chars_of("cancelled");
    seq_eq(s.as_slice(), a.as_slice()) || seq_eq(s.as_slice(), b.as_slice()) || seq_eq(
        s.as_slice(),
        c.as_slice(),
    )
}

// ---------------------------------------------------------------------------
// Commands
// ---------------------------------------------------------------------------

/// A default `pnpm install` run outside any parent workspace: the command,
/// trimmed, with `--ignore-workspace` after `pnpm`; any other command as it is.
pub open spec fn isolated_command(command: Seq<char>) -> Seq<char> {
    match strip_prefix(trim(command), "pnpm install"@) {
        Some(arguments) => "pnpm --ignore-workspace install"@ + arguments,
        None => command,
    }
}

pub fn isolate_pnpm_install(command: &str) -> (r: String)
    ensures
        r@ == isolated_command(command@),
{
    let trimmed = trim_str(command);
    let prefix = chars_of("pnpm install");
    if starts_with_chars(trimmed.as_slice(), prefix.as_slice()) {
        let arguments = copy_range(trimmed.as_slice(), prefix.len(), trimmed.len());
        let mut r = string_from("pnpm --ignore-workspace install");
        let rest = string_of(arguments.as_slice());
        append_str(&mut r, rest.as_str());
        r
    } else {
        string_from(command)
    }
}

pub open spec fn nonempty_word() -> spec_fn(Seq<char>) -> bool {
    |t: Seq<char>| t.len() > 0
}

/// The words of a text separated by whitespace (`str::split_whitespace`).
pub open spec fn words(value: Seq<char>) -> Seq<Seq<char>> {
    split_by(value, whitespace()).filter(nonempty_word())
}

pub fn split_whitespace(value: &str) -> (res: Vec<String>)
    ensures
        string_views(res@) == words(value@),
{
    let s = chars_of(value);
    let mut res: Vec<String> = Vec::new();
    let mut cur: Vec<char> = Vec::new();
    let mut i: usize = 0;
    proof {
        assert(s@.take(0) =~= Seq::<char>::empty());
        assert(split_by(Seq::<char>::empty(), whitespace()) == seq![Seq::<char>::empty()]);
        assert(seq![Seq::<char>::empty()].drop_last() =~= Seq::<Seq<char>>::empty());
    }
    while i < s.len()
        invariant
            i <= s.len(),
            s@ == value@,
            ({
                let p = split_by(s@.take(i as int), whitespace());
                &&& p.len() >= 1
                &&& p.last() == cur@
                &&& string_views(res@) == p.drop_last().filter(nonempty_word())
            }),
        decreases s.len() - i,
    {
        let ghost prev = s@.take(i as int);
        let ghost p = split_by(prev, whitespace());
        proof {
            assert(s@.take(i as int + 1).drop_last() == prev);
            assert(s@.take(i as int + 1).last() == s@[i as int]);
        }
        let c = s[i];
        if char_is_whitespace(c) {
            let ghost before = res@;
            if cur.len() > 0 {
                res.push(string_of(cur.as_slice()));
            }
            proof {
                let q = p.push(Seq::<char>::empty());
                assert(q.drop_last() =~= p);
                assert(p =~= p.drop_last().push(p.last()));
                p.drop_last().lemma_filter_push(p.last(), nonempty_word());
                if cur@.len() > 0 {
                    assert(string_views(res@) =~= string_views(before).push(cur@));
                } else {
                    assert(string_views(res@) =~= string_views(before));
                }
            }
            cur = Vec::new();
        } else {
            cur.push(c);
            proof {
                let q = p.update(p.len() - 1, p.last().push(c));
                assert(q.drop_last() =~= p.drop_last());
            }
        }
        i += 1;
    }
    proof {
        assert(s@.take(s.len() as int) == s@);
    }
    let ghost p = split_by(s@, whitespace());
    let ghost before = res@;
    if cur.len() > 0 {
        res.push(string_of(cur.as_slice()));
    }
    proof {
        assert(p =~= p.drop_last().push(p.last()));
        p.drop_last().lemma_filter_push(p.last(), nonempty_word());
        if cur@.len() > 0 {
            assert(string_views(res@) =~= string_views(before).push(cur@));
        } else {
            assert(string_views(res@) =~= string_views(before));
        }
    }
    res
}

/// The tools a build installs: the site's configured list when it names any,
/// else the suggested ones.
pub open spec fn effective_tools(configured: Seq<char>, suggested: Seq<Seq<char>>) -> Seq<
    Seq<char>,
> {
    if words(configured).len() > 0 {
        words(configured)
    } else {
        suggested
    }
}

pub fn build_tools(configured: &str, suggested: Vec<String>) -> (res: Vec<String>)
    ensures
        string_views(res@) == effective_tools(configured@, string_views(suggested@)),
{
    let configured_tools = split_whitespace(configured);
    if configured_tools.len() > 0 {
        configured_tools
    } else {
        suggested
    }
}

fn extend_strings(res: &mut Vec<String>, items: &Vec<String>)
    ensures
        string_views(final(res)@) == string_views(old(res)@) + string_views(items@),
{
    let ghost start = string_views(res@);
    let mut i: usize = 0;
    while i < items.len()
        invariant
            i <= items.len(),
            string_views(res@) == start + string_views(items@).take(i as int),
        decreases items.len() - i,
    {
        let ghost before = res@;
        res.push(items[i].clone());
        proof {
            assert(string_views(res@) =~= string_views(before).push(items@[i as int]@));
            assert(string_views(items@).take(i as int + 1) =~= string_views(items@).take(
                i as int,
            ).push(items@[i as int]@));
        }
        i += 1;
    }
    assert(string_views(items@).take(items@.len() as int) == string_views(items@));
}

/// `mise install --yes <tools>`.
pub fn mise_install_args(tools: &Vec<String>) -> (res: Vec<String>)
    ensures
        string_views(res@) == seq!["install"@, "--yes"@] + string_views(tools@),
{
    let mut res = vec![string_from("install"), string_from("--yes")];
    assert(string_views(res@) =~= seq!["install"@, "--yes"@]);
    extend_strings(&mut res, tools);
    res
}

/// `mise exec <tools> --command <command>`, the command isolated from parent
/// pnpm workspaces when the project needs it.
pub fn mise_exec_args(tools: &Vec<String>, command: &str, isolate: bool) -> (res: Vec<String>)
    ensures
        string_views(res@) == seq!["exec"@] + string_views(tools@) + seq![
            "--command"@,
            if isolate {
                isolated_command(command@)
            } else {
                command@
            },
        ],
{
    let mut res = vec![string_from("exec")];
    assert(string_views(res@) =~= seq!["exec"@]);
    extend_strings(&mut res, tools);
    let tail = vec![
        string_from("--command"),
        if isolate {
            isolate_pnpm_install(command)
        } else {
            string_from(command)
        },
    ];
    let ghost t = string_views(tail@);
    extend_strings(&mut res, &tail);
    assert(t =~= seq![
        "--command"@,
        if isolate {
            isolated_command(command@)
        } else {
            command@
        },
    ]);
    res
}

/// The log line that records a command: `$ <program> <arguments>`.
pub fn command_line(program: &str, args: &Vec<String>) -> (r: String)
    ensures
        r@ == "$ "@ + program@ + seq![' '] + join(string_views(args@), seq![' ']) + seq!['\n'],
{
    let mut r = string_from("$ ");
    append_str(&mut r, program);
    push_char(&mut r, ' ');
    let mut i: usize = 0;
    let ghost head = r@;
    while i < args.len()
        invariant
            i <= args.len(),
            r@ == head + join(string_views(args@).take(i as int), seq![' ']),
        decreases args.len() - i,
    {
        let ghost before = r@;
        if i > 0 {
            push_char(&mut r, ' ');
        }
        append_str(&mut r, args[i].as_str());
        proof {
            let a = string_views(args@);
            assert(a.take(i as int + 1).drop_last() == a.take(i as int));
            assert(a.take(i as int + 1).last() == args@[i as int]@);
            if i == 0 {
                assert(a.take(1) =~= seq![args@[0]@]);
                assert(r@ =~= head + join(a.take(1), seq![' ']));
            } else {
                assert(r@ =~= head + join(a.take(i as int + 1), seq![' ']));
            }
        }
        i += 1;
    }
    assert(string_views(args@).take(args@.len() as int) == string_views(args@));
    push_char(&mut r, '\n');
    r
}

// ---------------------------------------------------------------------------
// Releases and the active-release link
// ---------------------------------------------------------------------------

/// The directory of a site's files: `sites/<site>` in the data directory.
pub open spec fn site_dir(data_dir: Seq<char>, site_id: Seq<char>) -> Seq<char> {
    join_path(join_path(data_dir, "sites"@), site_id)
}

pub fn site_dir_path(data_dir: &str, site_id: &str) -> (r: String)
    ensures
        r@ == site_dir(data_dir@, site_id@),
{
    let sites = join_path_str(data_dir, "sites");
    join_path_str(sites.as_str(), site_id)
}

/// Where the releases of a site, and one release, are kept, and the hidden
/// directory a release is copied into before it is renamed into place.
pub fn release_paths(data_dir: &str, site_id: &str, deployment_id: &str) -> (r: (String, String, String))
    ensures
        r.0@ == join_path(site_dir(data_dir@, site_id@), "releases"@),
        r.1@ == join_path(r.0@, deployment_id@),
        r.2@ == join_path(r.0@, seq!['.'] + deployment_id@ + ".tmp"@),
{
    let site = site_dir_path(data_dir, site_id);
    let releases = join_path_str(site.as_str(), "releases");
    let release = join_path_str(releases.as_str(), deployment_id);
    let mut staging_name = String::new();
    push_char(&mut staging_name, '.');
    append_str(&mut staging_name, deployment_id);
    append_str(&mut staging_name, ".tmp");
    let staging = join_path_str(releases.as_str(), staging_name.as_str());
    (releases, release, staging)
}

/// How a release is activated: a link to `releases/<deployment>` is made
/// under a temporary name, then renamed over `current`.
#[derive(Debug)]
pub struct Activation {
    pub current: String,
    pub temporary: String,
    pub target: String,
}

/// Activates a deployment's release: the links that make it current.
pub fn activate(data_dir: &str, site_id: &str, deployment_id: &str) -> (r: Activation)
    ensures
        r.current@ == join_path(site_dir(data_dir@, site_id@), "current"@),
        r.temporary@ == join_path(site_dir(data_dir@, site_id@), ".current-"@ + deployment_id@),
        r.target@ == join_path("releases"@, deployment_id@),
{
    let site = site_dir_path(data_dir, site_id);
    let current = join_path_str(site.as_str(), "current");
    let mut name = string_from(".current-");
    append_str(&mut name, deployment_id);
    let temporary = join_path_str(site.as_str(), name.as_str());
    let target = join_path_str("releases", deployment_id);
    Activation { current, temporary, target }
}

/// How an earlier link target is restored after the server refused a
/// release: a link to it is made as `.current-restore`, then renamed over
/// `current`.
pub fn restore_activation(data_dir: &str, site_id: &str, target: &str) -> (r: Activation)
    ensures
        r.current@ == join_path(site_dir(data_dir@, site_id@), "current"@),
        r.temporary@ == join_path(site_dir(data_dir@, site_id@), ".current-restore"@),
        r.target@ == target@,
{
    let site = site_dir_path(data_dir, site_id);
    let current = join_path_str(site.as_str(), "current");
    let temporary = join_path_str(site.as_str(), ".current-restore");
    Activation { current, temporary, target: string_from(target) }
}

/// An entry of a site's releases directory.
#[derive(Debug, Clone)]
pub struct ReleaseEntry {
    pub name: String,
    pub is_dir: bool,
}

/// A release directory is removed unless it is the active one or one of the
/// retained successful deployments.
pub open spec fn expired(e: ReleaseEntry, active: Option<Seq<char>>, retained: Seq<Seq<char>>) -> bool {
    e.is_dir && active != Some(e.name@) && !retained.contains(e.name@)
}

pub fn expired_releases(
    entries: &Vec<ReleaseEntry>,
    active: &Option<String>,
    retained: &Vec<String>,
) -> (res: Vec<String>)
    ensures
        string_views(res@) == entries@.filter(
            |e: ReleaseEntry| expired(e, option_view(*active), string_views(retained@)),
        ).map_values(|e: ReleaseEntry| e.name@),
{
    let ghost keep = |e: ReleaseEntry| expired(e, option_view(*active), string_views(retained@));
    let ghost name_of = |e: ReleaseEntry| e.name@;
    let mut res: Vec<String> = Vec::new();
    let mut i: usize = 0;
    while i < entries.len()
        invariant
            i <= entries.len(),
            keep == (|e: ReleaseEntry| expired(e, option_view(*active), string_views(retained@))),
            name_of == (|e: ReleaseEntry| e.name@),
            string_views(res@) == entries@.take(i as int).filter(keep).map_values(name_of),
        decreases entries.len() - i,
    {
        let e = &entries[i];
        let name = chars_of(e.name.as_str());
        let is_active = match active {
            Some(a) => {
                let av = chars_of(a.as_str());
                seq_eq(av.as_slice(), name.as_slice())
            },
            None => false,
        };
        let mut is_retained = false;
        let mut k: usize = 0;
        while k < retained.len()
            invariant
                k <= retained.len(),
                is_retained == exists|j: int| 0 <= j < k && retained@[j]@ == name@,
            decreases retained.len() - k,
        {
            let r = chars_of(retained[k].as_str());
            if seq_eq(r.as_slice(), name.as_slice()) {
                is_retained = true;
            }
            k += 1;
        }
        proof {
            let rv = string_views(retained@);
            if is_retained {
                let j = choose|j: int| 0 <= j < retained@.len() && retained@[j]@ == name@;
                assert(rv[j] == name@);
            } else {
                assert forall|j: int| 0 <= j < rv.len() implies rv[j] != name@ by {
                    assert(rv[j] == retained@[j]@);
                }
            }
            assert(entries@.take(i as int + 1) == entries@.take(i as int).push(entries@[i as int]));
            entries@.take(i as int).lemma_filter_push(entries@[i as int], keep);
        }
        let ghost before = res@;
        if e.is_dir && !is_active && !is_retained {
            res.push(e.name.clone());
            proof {
                assert(string_views(res@) =~= string_views(before).push(e.name@));
                assert(entries@.take(i as int).filter(keep).push(entries@[i as int]).map_values(
                    name_of,
                ) =~= entries@.take(i as int).filter(keep).map_values(name_of).push(e.name@));
            }
        }
        i += 1;
    }
    assert(entries@.take(entries@.len() as int) == entries@);
    res
}

/// No release that is active or retained is ever removed.
pub proof fn lemma_kept_releases_survive(
    entries: Seq<ReleaseEntry>,
    active: Option<Seq<char>>,
    retained: Seq<Seq<char>>,
    name: Seq<char>,
)
    requires
        active == Some(name) || retained.contains(name),
    ensures
        !entries.filter(|e: ReleaseEntry| expired(e, active, retained)).map_values(
            |e: ReleaseEntry| e.name@,
        ).contains(name),
{
    let f = entries.filter(|e: ReleaseEntry| expired(e, active, retained));
    let m = f.map_values(|e: ReleaseEntry| e.name@);
    if m.contains(name) {
        let i = choose|i: int| 0 <= i < m.len() && m[i] == name;
        assert(f.contains(f[i]));
        entries.lemma_filter_contains_rev(|e: ReleaseEntry| expired(e, active, retained), f[i]);
        assert(expired(f[i], active, retained));
        assert(f[i].name@ == name);
    }
}

// ---------------------------------------------------------------------------
// Rollback
// ---------------------------------------------------------------------------

/// Only a successful deployment that kept its release can be rolled back to.
pub fn rollback_source(status: &str, release_path: &Option<String>) -> (res: Result<String, ApiError>)
    ensures
        match res {
            Ok(p) => status@ == "success"@ && option_view(*release_path) == Some(p@),
            Err(e) => if status@ != "success"@ {
                conflict(e, "only successful deployments can be rolled back"@)
            } else {
                release_path is None && conflict(e, "deployment has no retained release"@)
            },
        },
{
    let s = chars_of(status);
    let success = chars_of("success");
    if !seq_eq(s.as_slice(), success.as_slice()) {
        return Err(ApiError::Conflict(string_from("only successful deployments can be rolled back")));
    }
    match release_path {
        Some(p) => Ok(p.clone()),
        None => Err(ApiError::Conflict(string_from("deployment has no retained release"))),
    }
}

/// The release a rollback activates: the name of the canonical release path,
/// which must lie directly in the site's canonical releases directory.
pub open spec fn rollback_release(release: Seq<char>, releases_root: Seq<char>) -> Option<Seq<char>> {
    match split_name(release) {
        Some((parent, name)) => if parent == releases_root {
            Some(name)
        } else {
            None
        },
        None => None,
    }
}

pub fn rollback_release_id(release: &str, releases_root: &str) -> (res: Result<String, ApiError>)
    ensures
        match res {
            Ok(id) => rollback_release(release@, releases_root@) == Some(id@),
            Err(e) => rollback_release(release@, releases_root@) is None && conflict(
                e,
                "deployment release path is invalid"@,
            ),
        },
{
    match split_name_str(release) {
        Some((parent, name)) => {
            let p = chars_of(parent.as_str());
            let r = chars_of(releases_root);
            if seq_eq(p.as_slice(), r.as_slice()) {
                Ok(name)
            } else {
                Err(ApiError::Conflict(string_from("deployment release path is invalid")))
            }
        },
        None => Err(ApiError::Conflict(string_from("deployment release path is invalid"))),
    }
}

/// The first log line of a rollback.
pub fn rollback_log(target_id: &str) -> (r: String)
    ensures
        r@ == "[activating] Rolling back to "@ + target_id@ + seq!['\n'],
{
    let mut r = string_from("[activating] Rolling back to ");
    append_str(&mut r, target_id);
    push_char(&mut r, '\n');
    r
}

// ---------------------------------------------------------------------------
// History
// ---------------------------------------------------------------------------

/// A page request of a site's deployment history.
#[derive(Debug, Clone)]
pub struct DeploymentListQuery {
    pub search: String,
    pub status: String,
    pub limit: i64,
    pub offset: i64,
}

pub fn default_deployment_limit() -> (r: i64)
    ensures
        r == 25,
{
    25
}

/// The page a history request asks for: a `LIKE` pattern around the trimmed
/// search text, the trimmed status, at least 1 and at most 100 rows, from a
/// non-negative offset.
#[derive(Debug)]
pub struct HistoryWindow {
    pub search: String,
    pub pattern: String,
    pub status: String,
    pub limit: i64,
    pub offset: i64,
}

pub open spec fn clamp(v: int, lo: int, hi: int) -> int {
    if v < lo {
        lo
    } else if v > hi {
        hi
    } else {
        v
    }
}

pub fn clamp_i64(v: i64, lo: i64, hi: i64) -> (r: i64)
    requires
        lo <= hi,
    ensures
        r == clamp(v as int, lo as int, hi as int),
{
    if v < lo {
        lo
    } else if v > hi {
        hi
    } else {
        v
    }
}

/// A `LIKE` pattern that matches the text anywhere.
pub fn like_pattern(text: &str) -> (r: String)
    ensures
        r@ == seq!['%'] + text@ + seq!['%'],
{
    let mut r = String::new();
    push_char(&mut r, '%');
    append_str(&mut r, text);
    push_char(&mut r, '%');
    r
}

pub fn history_window(query: &DeploymentListQuery) -> (w: HistoryWindow)
    ensures
        w.search@ == trim(query.search@),
        w.pattern@ == seq!['%'] + trim(query.search@) + seq!['%'],
        w.status@ == trim(query.status@),
        w.limit == clamp(query.limit as int, 1, 100),
        w.offset == if query.offset < 0 {
            0
        } else {
            query.offset
        },
{
    let search = trim_str(query.search.as_str());
    let search = string_of(search.as_slice());
    let pattern = like_pattern(search.as_str());
    let status = trim_str(query.status.as_str());
    HistoryWindow {
        search,
        pattern,
        status: string_of(status.as_slice()),
        limit: clamp_i64(query.limit, 1, 100),
        offset: if query.offset < 0 {
            0
        } else {
            query.offset
        },
    }
}

/// A request to detect build settings before a site exists.
#[derive(Debug, Clone)]
pub struct DraftSuggestionsInput {
    pub repository_url: String,
    pub branch: String,
    pub project_directory: String,
}

pub fn default_project_directory() -> (r: String)
    ensures
        r@ == "."@,
{
    string_from(".")
}

/// A deployment, as its history records it.
#[derive(Debug, Clone)]
pub struct Deployment {
    pub id: String,
    pub site_id: String,
    pub commit_sha: Option<String>,
    pub commit_message: Option<String>,
    pub commit_author: Option<String>,
    pub status: String,
    pub triggered_by: String,
    pub build_settings_snapshot: String,
    pub config_snapshot: Option<String>,
    pub release_path: Option<String>,
    pub error_summary: Option<String>,
    pub log: String,
    pub created_at: String,
    pub started_at: Option<String>,
    pub finished_at: Option<String>,
    pub rollback_of_deployment_id: Option<String>,
}

/// The commit author as the history shows it: `name <email>`.
pub fn commit_author(name: &str, email: &str) -> (r: String)
    ensures
        r@ == name@ + " <"@ + email@ + seq!['>'],
{
    let mut r = string_from(name);
    append_str(&mut r, " <");
    append_str(&mut r, email);
    push_char(&mut r, '>');
    r
}

// ---------------------------------------------------------------------------
// JSON of snapshots and events
// ---------------------------------------------------------------------------

pub open spec fn json_bool(b: bool) -> Seq<char> {
    if b {
        "true"@
    } else {
        "false"@
    }
}

pub open spec fn json_optional(o: Option<Seq<char>>) -> Seq<char> {
    match o {
        Some(s) => json_quote(s),
        None => "null"@,
    }
}

fn push_json_optional(out: &mut String, value: &Option<String>)
    ensures
        final(out)@ == old(out)@ + json_optional(option_view(*value)),
{
    match value {
        Some(v) => {
            let q = json_string(v.as_str());
            append_str(out, q.as_str());
        },
        None => append_str(out, "null"),
    }
}

fn push_json_bool(out: &mut String, value: bool)
    ensures
        final(out)@ == old(out)@ + json_bool(value),
{
    if value {
        append_str(out, "true");
    } else {
        append_str(out, "false");
    }
}

/// The build settings recorded with a deployment, as a JSON object with its
/// keys in order.
pub open spec fn settings_json(
    project_directory: Seq<char>,
    mise_tools: Seq<char>,
    install_command: Option<Seq<char>>,
    build_command: Option<Seq<char>>,
    publish_directory: Seq<char>,
    build_enabled: bool,
) -> Seq<char> {
    "{\"build_command\":"@ + json_optional(build_command) + ",\"build_enabled\":"@ + json_bool(
        build_enabled,
    ) + ",\"install_command\":"@ + json_optional(install_command) + ",\"mise_tools\":"@
        + json_quote(mise_tools) + ",\"project_directory\":"@ + json_quote(project_directory)
        + ",\"publish_directory\":"@ + json_quote(publish_directory) + seq!['}']
}

pub fn build_settings_snapshot(
    project_directory: &str,
    mise_tools: &str,
    install_command: &Option<String>,
    build_command: &Option<String>,
    publish_directory: &str,
    build_enabled: bool,
) -> (r: String)
    ensures
        r@ == settings_json(
            project_directory@,
            mise_tools@,
            option_view(*install_command),
            option_view(*build_command),
            publish_directory@,
            build_enabled,
        ),
{
    let mut r = string_from("{\"build_command\":");
    push_json_optional(&mut r, build_command);
    append_str(&mut r, ",\"build_enabled\":");
    push_json_bool(&mut r, build_enabled);
    append_str(&mut r, ",\"install_command\":");
    push_json_optional(&mut r, install_command);
    append_str(&mut r, ",\"mise_tools\":");
    let q = json_string(mise_tools);
    append_str(&mut r, q.as_str());
    append_str(&mut r, ",\"project_directory\":");
    let q = json_string(project_directory);
    append_str(&mut r, q.as_str());
    append_str(&mut r, ",\"publish_directory\":");
    let q = json_string(publish_directory);
    append_str(&mut r, q.as_str());
    push_char(&mut r, '}');
    r
}

/// Where a reader of the event stream is: the log offset already sent, the
/// last status sent, and how many polls in a row found nothing new.
#[derive(Debug, Clone)]
pub struct StreamState {
    pub offset: i64,
    pub status: String,
    pub idle: u8,
}

/// What one poll of a deployment found: the log after the offset, the new
/// offset, and the status.
#[derive(Debug, Clone)]
pub struct LogCursor {
    pub chunk: String,
    pub offset: i64,
    pub status: String,
}

/// The server-sent event for new log text or a new status.
pub open spec fn event_frame(offset: i64, chunk: Seq<char>, status: Seq<char>) -> Seq<char> {
    "id: "@ + decimal(offset as int) + "\nevent: deployment\ndata: "@ + "{\"chunk\":"@
        + json_quote(chunk) + ",\"done\":"@ + json_bool(finished(status)) + ",\"status\":"@
        + json_quote(status) + "}\n\n"@
}

/// A stream that goes 40 polls without news sends a keep-alive comment.
pub open spec fn keep_alive_after() -> int {
    40
}

/// One poll of the event stream: what is sent and where the reader is next,
/// or `None` when the stream ends (the deployment is gone, or it is finished
/// and nothing new is left to send).
pub open spec fn stream_next(state: StreamState, cursor: Option<LogCursor>) -> Option<
    (Seq<char>, (i64, Seq<char>, int)),
> {
    match cursor {
        None => None,
        Some(c) => {
            let changed = c.chunk@.len() > 0 || c.status@ != state.status@;
            let next_idle: int = if changed {
                0
            } else if state.idle == 255 {
                255
            } else {
                state.idle + 1
            };
            let output: Option<Seq<char>> = if changed {
                Some(event_frame(c.offset, c.chunk@, c.status@))
            } else if next_idle >= keep_alive_after() {
                Some(": keep-alive\n\n"@)
            } else {
                None
            };
            if finished(c.status@) && output is None {
                None
            } else {
                Some(
                    (
                        match output {
                            Some(o) => o,
                            None => Seq::<char>::empty(),
                        },
                        (
                            c.offset,
                            c.status@,
                            if next_idle >= keep_alive_after() {
                                0
                            } else {
                                next_idle
                            },
                        ),
                    ),
                )
            }
        },
    }
}

pub fn stream_step(state: &StreamState, cursor: Option<LogCursor>) -> (res: Option<(String, StreamState)>)
    ensures
        match res {
            Some((out, next)) => stream_next(*state, cursor) == Some(
                (out@, (next.offset, next.status@, next.idle as int)),
            ),
            None => stream_next(*state, cursor) is None,
        },
{
    let c = match cursor {
        None => {
            return None;
        },
        Some(c) => c,
    };
    let status_chars = chars_of(c.status.as_str());
    let previous = chars_of(state.status.as_str());
    let changed = !c.chunk.as_str().is_empty() || !seq_eq(status_chars.as_slice(), previous.as_slice());
    let next_idle: u8 = if changed {
        0
    } else if state.idle == 255 {
        255
    } else {
        state.idle + 1
    };
    let done = is_finished(c.status.as_str());
    let output: Option<String> = if changed {
        let mut frame = string_from("id: ");
        let number = decimal_i64(c.offset);
        append_str(&mut frame, number.as_str());
        append_str(&mut frame, "\nevent: deployment\ndata: ");
        append_str(&mut frame, "{\"chunk\":");
        let q = json_string(c.chunk.as_str());
        append_str(&mut frame, q.as_str());
        append_str(&mut frame, ",\"done\":");
        push_json_bool(&mut frame, done);
        append_str(&mut frame, ",\"status\":");
        let q = json_string(c.status.as_str());
        append_str(&mut frame, q.as_str());
        append_str(&mut frame, "}\n\n");
        Some(frame)
    } else if next_idle >= 40 {
        Some(string_from(": keep-alive\n\n"))
    } else {
        None
    };
    if done && output.is_none() {
        return None;
    }
    let text = match output {
        Some(o) => o,
        None => String::new(),
    };
    let next = StreamState {
        offset: c.offset,
        status: c.status,
        idle: if next_idle >= 40 {
            0
        } else {
            next_idle
        },
    };
    Some((text, next))
}

/// Polls that find nothing new never end an unfinished stream, and the
/// idle count of the next poll stays below the keep-alive period.
pub proof fn lemma_stream_idle(state: StreamState, c: LogCursor)
    requires
        state.idle < keep_alive_after(),
        c.chunk@.len() == 0,
        c.status@ == state.status@,
        !finished(c.status@),
    ensures
        stream_next(state, Some(c)) matches Some((out, next)) && next.2 < keep_alive_after() && (
        out == ": keep-alive\n\n"@ <==> state.idle + 1 == keep_alive_after()),
{
    reveal_strlit(": keep-alive\n\n");
    assert(": keep-alive\n\n"@.len() > 0);
    assert(state.idle != 255);
}

/// A poll that finds new log text or a new status always sends one event:
/// its id is the new offset, its data holds the chunk, the status, and
/// `"done":true` exactly when the status is `success`, `failed` or
/// `cancelled`; the reader then stands at the new offset and status with no
/// idle poll counted.
pub proof fn lemma_stream_sends_changes(state: StreamState, c: LogCursor)
    requires
        c.chunk@.len() > 0 || c.status@ != state.status@,
    ensures
        stream_next(state, Some(c)) == Some(
            (
                "id: "@ + decimal(c.offset as int) + "\nevent: deployment\ndata: "@
                    + "{\"chunk\":"@ + json_quote(c.chunk@) + ",\"done\":"@ + (if c.status@
                    == "success"@ || c.status@ == "failed"@ || c.status@ == "cancelled"@ {
                    "true"@
                } else {
                    "false"@
                }) + ",\"status\":"@ + json_quote(c.status@) + "}\n\n"@,
                (c.offset, c.status@, 0int),
            ),
        ),
{
}

/// The offset a reconnecting reader resumes from: the `Last-Event-ID` it
/// sends when that is a number, never below 0.
pub open spec fn resume_offset(header: Option<Seq<char>>) -> i64 {
    match header {
        Some(h) => match parse_i64(h) {
            Some(v) => if v < 0 {
                0
            } else {
                v
            },
            None => 0,
        },
        None => 0,
    }
}

/// The value of a decimal integer text: an optional sign, then one or more
/// digits (`str::parse::<i64>`, which refuses values outside `i64`).
pub open spec fn parse_i64(s: Seq<char>) -> Option<i64> {
    let negative = is_negative_text(s);
    let unsigned = unsigned_part(s);
    if unsigned.len() == 0 || exists|i: int| 0 <= i < unsigned.len() && !is_digit(
        #[trigger] unsigned[i],
    ) {
        None
    } else {
        let magnitude = digits_value(unsigned);
        let v = if negative {
            -magnitude
        } else {
            magnitude
        };
        if i64::MIN <= v <= i64::MAX {
            Some(v as i64)
        } else {
            None
        }
    }
}

pub open spec fn is_negative_text(s: Seq<char>) -> bool {
    s.len() > 0 && s[0] == '-'
}

/// The text after an optional sign.
pub open spec fn unsigned_part(s: Seq<char>) -> Seq<char> {
    if s.len() > 0 && (s[0] == '-' || s[0] == '+') {
        s.drop_first()
    } else {
        s
    }
}

pub open spec fn digits_value(s: Seq<char>) -> int
    decreases s.len(),
{
    if s.len() == 0 {
        0
    } else {
        digits_value(s.drop_last()) * 10 + (s.last() as int - 48)
    }
}

pub fn resume_from(header: Option<&str>) -> (r: i64)
    ensures
        r == resume_offset(
            match header {
                Some(h) => Some(h@),
                None => None,
            },
        ),
{
    match header {
        None => 0,
        Some(h) => match parse_i64_exec(h) {
            Some(v) => if v < 0 {
                0
            } else {
                v
            },
            None => 0,
        },
    }
}

fn parse_i64_exec(text: &str) -> (r: Option<i64>)
    ensures
        r == parse_i64(text@),
{
    let s = chars_of(text);
    let negative = s.len() > 0 && s[0] == '-';
    let unsigned: Vec<char> = if s.len() > 0 && (s[0] == '-' || s[0] == '+') {
        copy_range(s.as_slice(), 1, s.len())
    } else {
        s.clone()
    };
    proof {
        if s@.len() > 0 && (s@[0] == '-' || s@[0] == '+') {
            assert(unsigned@ =~= s@.drop_first());
        }
    }
    if unsigned.len() == 0 {
        return None;
    }
    // The magnitude, kept within what an `i64` can hold on the chosen side.
    let limit: u64 = if negative {
        9223372036854775808u64
    } else {
        9223372036854775807u64
    };
    let mut value: u64 = 0;
    let mut i: usize = 0;
    proof {
        assert(unsigned@.take(0) =~= Seq::<char>::empty());
    }
    while i < unsigned.len()
        invariant
            i <= unsigned.len(),
            s@ == text@,
            negative == is_negative_text(text@),
            unsigned@ == unsigned_part(text@),
            unsigned@.len() > 0,
            limit == if negative {
                9223372036854775808u64
            } else {
                9223372036854775807u64
            },
            value == digits_value(unsigned@.take(i as int)),
            value <= limit,
            forall|j: int| 0 <= j < i ==> is_digit(#[trigger] unsigned@[j]),
        decreases unsigned.len() - i,
    {
        let c = unsigned[i];
        proof {
            assert(unsigned@.take(i as int + 1).drop_last() == unsigned@.take(i as int));
        }
        if !char_is_digit(c) {
            assert(!is_digit(unsigned@[i as int]));
            return None;
        }
        let d = (c as u32 - 48) as u64;
        assert(d <= 9);
        if value > (limit - d) / 10 {
            proof {
                let l = limit as int;
                let v = value as int;
                let dd = d as int;
                assert(v * 10 + dd > l) by (nonlinear_arith)
                    requires
                        v > (l - dd) / 10,
                        0 <= dd <= 9,
                        l >= 9,
                ;
                assert(unsigned@.take(i as int + 1).last() == c);
                assert(digits_value(unsigned@.take(i as int + 1)) > limit);
                if forall|j: int| 0 <= j < unsigned@.len() ==> is_digit(#[trigger] unsigned@[j]) {
                    lemma_digits_value_grows(unsigned@, i as int + 1);
                }
            }
            return None;
        }
        proof {
            let l = limit as int;
            let v = value as int;
            let dd = d as int;
            assert(v * 10 + dd <= l) by (nonlinear_arith)
                requires
                    v <= (l - dd) / 10,
                    0 <= dd <= 9,
                    l >= 9,
            ;
            assert(unsigned@.take(i as int + 1).last() == c);
        }
        value = value * 10 + d;
        i += 1;
    }
    proof {
        assert(unsigned@.take(unsigned@.len() as int) == unsigned@);
    }
    if negative {
        if value == 9223372036854775808u64 {
            Some(i64::MIN)
        } else {
            Some(-(value as i64))
        }
    } else {
        Some(value as i64)
    }
}

/// The decimal digits of a number read back as that number.
pub proof fn lemma_digits_read_back(n: nat)
    ensures
        digits(n).len() > 0,
        forall|i: int| 0 <= i < digits(n).len() ==> is_digit(#[trigger] digits(n)[i]),
        digits_value(digits(n)) == n,
    decreases n,
{
    let c = digit_char(n);
    assert(48 <= (n % 10) + 48 <= 57);
    assert(c as int == (n % 10) + 48);
    if n < 10 {
        let s = digits(n);
        assert(s =~= seq![c]);
        assert(s.drop_last() =~= Seq::<char>::empty());
        assert(s.last() == c);
        assert(digits_value(s) == digits_value(s.drop_last()) * 10 + (s.last() as int - 48));
        assert(n % 10 == n);
    } else {
        lemma_digits_read_back(n / 10);
        let s = digits(n);
        let t = digits(n / 10);
        assert(s.drop_last() =~= t);
        assert(digit_char(n % 10) == c);
        assert forall|i: int| 0 <= i < s.len() implies is_digit(#[trigger] s[i]) by {
            if i < s.len() - 1 {
                assert(s[i] == t[i]);
            }
        }
        assert(s.last() == c);
        assert(digits_value(s) == digits_value(s.drop_last()) * 10 + (s.last() as int - 48));
        assert(n == (n / 10) * 10 + n % 10);
    }
}

/// The id of an event, sent back as `Last-Event-ID` by a reconnecting
/// reader, resumes the stream at that event's offset.
pub proof fn lemma_event_id_resumes(offset: i64)
    requires
        offset >= 0,
    ensures
        resume_offset(Some(decimal(offset as int))) == offset,
{
    let text = decimal(offset as int);
    lemma_digits_read_back(offset as nat);
    assert(text == digits(offset as nat));
    assert(!is_negative_text(text));
    assert(unsigned_part(text) == text);
    assert(parse_i64(text) == Some(offset));
}

pub proof fn lemma_digits_value_grows(s: Seq<char>, k: int)
    requires
        0 <= k <= s.len(),
        forall|i: int| 0 <= i < s.len() ==> is_digit(#[trigger] s[i]),
    ensures
        digits_value(s) >= digits_value(s.take(k)),
    decreases s.len() - k,
{
    if k < s.len() {
        lemma_digits_value_grows(s, k + 1);
        assert(s.take(k + 1).drop_last() == s.take(k));
        lemma_digits_value_nonneg(s.take(k));
        assert(s.take(k + 1).last() == s[k]);
    } else {
        assert(s.take(k) == s);
    }
}

pub proof fn lemma_digits_value_nonneg(s: Seq<char>)
    requires
        forall|i: int| 0 <= i < s.len() ==> is_digit(#[trigger] s[i]),
    ensures
        digits_value(s) >= 0,
    decreases s.len(),
{
    if s.len() > 0 {
        assert forall|i: int| 0 <= i < s.drop_last().len() implies is_digit(#[trigger] s.drop_last()[i]) by {
            assert(s.drop_last()[i] == s[i]);
        }
        lemma_digits_value_nonneg(s.drop_last());
        assert(is_digit(s[s.len() - 1]));
    }
}


// ---------------------------------------------------------------------------
// The build phase of a deployment
// ---------------------------------------------------------------------------

/// A step of the build phase, as its plan states it.
pub enum PlannedStep {
    /// Enter a status, logging a message.
    Enter(Status, Seq<char>),
    /// Run `mise` with these arguments; the flag keeps package managers out
    /// of parent workspaces.
    Mise(Seq<Seq<char>>, bool),
}

/// A step of the build phase.
#[derive(Debug, Clone)]
pub enum BuildStep {
    Enter(Status, String),
    Mise(Vec<String>, bool),
}

impl BuildStep {
    pub open spec fn planned(self) -> PlannedStep {
        match self {
            BuildStep::Enter(status, message) => PlannedStep::Enter(status, message@),
            BuildStep::Mise(args, isolate) => PlannedStep::Mise(string_views(args@), isolate),
        }
    }
}

pub open spec fn planned_steps(v: Seq<BuildStep>) -> Seq<PlannedStep> {
    v.map_values(|s: BuildStep| s.planned())
}

/// `mise exec <tools> --command <command>` as a step.
pub open spec fn exec_step(tools: Seq<Seq<char>>, command: Seq<char>, isolate: bool) -> PlannedStep {
    PlannedStep::Mise(
        seq!["exec"@] + tools + seq![
            "--command"@,
            if isolate {
                isolated_command(command)
            } else {
                command
            },
        ],
        isolate,
    )
}

/// The build phase: nothing when building is off; else install the tools
/// (trusting the project's `mise.toml` and `.mise.toml` first, where they
/// exist), then run the install command and the build command, each where
/// the site has one.
pub open spec fn build_plan(
    enabled: bool,
    tools: Seq<Seq<char>>,
    has_mise_toml: bool,
    has_dot_mise_toml: bool,
    install: Option<Seq<char>>,
    build: Option<Seq<char>>,
    isolate: bool,
) -> Seq<PlannedStep> {
    if !enabled {
        Seq::empty()
    } else {
        seq![PlannedStep::Enter(Status::InstallingTools, "Installing dependencies"@)] + (
        if has_mise_toml {
            seq![PlannedStep::Mise(seq!["trust"@, "--yes"@, "mise.toml"@], false)]
        } else {
            Seq::empty()
        }) + (if has_dot_mise_toml {
            seq![PlannedStep::Mise(seq!["trust"@, "--yes"@, ".mise.toml"@], false)]
        } else {
            Seq::empty()
        }) + seq![PlannedStep::Mise(seq!["install"@, "--yes"@] + tools, false)] + (
        match install {
            Some(c) => seq![
                PlannedStep::Enter(Status::InstallingDependencies, "Installing dependencies"@),
                exec_step(tools, c, isolate),
            ],
            None => Seq::empty(),
        }) + (match build {
            Some(c) => seq![
                PlannedStep::Enter(Status::Building, "Building project"@),
                exec_step(tools, c, isolate),
            ],
            None => Seq::empty(),
        })
    }
}

/// The build phase's steps in order: with building on, first the
/// tool-install status, then one `mise trust --yes` per `mise` file the
/// project holds, then `mise install --yes` with the tools; each command the
/// site has (install, then build) follows under its own status, run as
/// `mise exec` with exactly the same tools, then `--command` and the command
/// (isolated from parent pnpm workspaces when asked). With building off
/// there is no step.
pub proof fn lemma_build_plan_steps(
    enabled: bool,
    tools: Seq<Seq<char>>,
    has_mise_toml: bool,
    has_dot_mise_toml: bool,
    install: Option<Seq<char>>,
    build: Option<Seq<char>>,
    isolate: bool,
)
    ensures
        !enabled ==> build_plan(
            enabled,
            tools,
            has_mise_toml,
            has_dot_mise_toml,
            install,
            build,
            isolate,
        ).len() == 0,
        enabled ==> ({
            let p = build_plan(
                enabled,
                tools,
                has_mise_toml,
                has_dot_mise_toml,
                install,
                build,
                isolate,
            );
            let k: int = 1 + (if has_mise_toml { 1int } else { 0int }) + (if has_dot_mise_toml {
                1int
            } else {
                0int
            });
            let j: int = k + 1 + (if install is Some { 2int } else { 0int });
            &&& p.len() == j + (if build is Some { 2int } else { 0int })
            &&& p[0] == PlannedStep::Enter(Status::InstallingTools, "Installing dependencies"@)
            &&& has_mise_toml ==> p[1] == PlannedStep::Mise(
                seq!["trust"@, "--yes"@, "mise.toml"@],
                false,
            )
            &&& has_dot_mise_toml ==> p[k - 1] == PlannedStep::Mise(
                seq!["trust"@, "--yes"@, ".mise.toml"@],
                false,
            )
            &&& p[k] == PlannedStep::Mise(seq!["install"@, "--yes"@] + tools, false)
            &&& install is Some ==> {
                let c = install->Some_0;
                &&& p[k + 1] == PlannedStep::Enter(
                    Status::InstallingDependencies,
                    "Installing dependencies"@,
                )
                &&& p[k + 2] == PlannedStep::Mise(
                    seq!["exec"@] + tools + seq![
                        "--command"@,
                        if isolate {
                            isolated_command(c)
                        } else {
                            c
                        },
                    ],
                    isolate,
                )
            }
            &&& build is Some ==> {
                let c = build->Some_0;
                &&& p[j] == PlannedStep::Enter(Status::Building, "Building project"@)
                &&& p[j + 1] == PlannedStep::Mise(
                    seq!["exec"@] + tools + seq![
                        "--command"@,
                        if isolate {
                            isolated_command(c)
                        } else {
                            c
                        },
                    ],
                    isolate,
                )
                &&& j + 1 == p.len() - 1
            }
        }),
{
    if enabled {
        let p = build_plan(
            enabled,
            tools,
            has_mise_toml,
            has_dot_mise_toml,
            install,
            build,
            isolate,
        );
        let a = seq![PlannedStep::Enter(Status::InstallingTools, "Installing dependencies"@)];
        let b = if has_mise_toml {
            seq![PlannedStep::Mise(seq!["trust"@, "--yes"@, "mise.toml"@], false)]
        } else {
            Seq::<PlannedStep>::empty()
        };
        let c = if has_dot_mise_toml {
            seq![PlannedStep::Mise(seq!["trust"@, "--yes"@, ".mise.toml"@], false)]
        } else {
            Seq::<PlannedStep>::empty()
        };
        let d = seq![PlannedStep::Mise(seq!["install"@, "--yes"@] + tools, false)];
        let e = match install {
            Some(x) => seq![
                PlannedStep::Enter(Status::InstallingDependencies, "Installing dependencies"@),
                exec_step(tools, x, isolate),
            ],
            None => Seq::<PlannedStep>::empty(),
        };
        let f = match build {
            Some(x) => seq![
                PlannedStep::Enter(Status::Building, "Building project"@),
                exec_step(tools, x, isolate),
            ],
            None => Seq::<PlannedStep>::empty(),
        };
        assert(p == a + b + c + d + e + f);
        let k: int = 1 + (if has_mise_toml { 1int } else { 0int }) + (if has_dot_mise_toml {
            1int
        } else {
            0int
        });
        let j: int = k + 1 + (if install is Some { 2int } else { 0int });
        assert((a + b + c + d + e + f)[0] == a[0]);
        if has_mise_toml {
            assert((a + b + c + d + e + f)[1] == b[0]);
        }
        if has_dot_mise_toml {
            assert((a + b + c + d + e + f)[k - 1] == c[0]);
        }
        assert((a + b + c + d + e + f)[k] == d[0]);
        if install is Some {
            assert((a + b + c + d + e + f)[k + 1] == e[0]);
            assert((a + b + c + d + e + f)[k + 2] == e[1]);
        }
        if build is Some {
            assert((a + b + c + d + e + f)[j] == f[0]);
            assert((a + b + c + d + e + f)[j + 1] == f[1]);
        }
    }
}

fn push_step(v: &mut Vec<BuildStep>, step: BuildStep)
    ensures
        planned_steps(final(v)@) == planned_steps(old(v)@).push(step.planned()),
{
    let ghost before = v@;
    v.push(step);
    assert(planned_steps(v@) =~= planned_steps(before).push(step.planned()));
}

fn trust_args(file: &str) -> (r: Vec<String>)
    ensures
        string_views(r@) == seq!["trust"@, "--yes"@, file@],
{
    let r = vec![string_from("trust"), string_from("--yes"), string_from(file)];
    assert(string_views(r@) =~= seq!["trust"@, "--yes"@, file@]);
    r
}

/// Plans the build phase of a deployment from the site's settings, the
/// tools it builds with, and which `mise` files its project holds.
pub fn build_steps(
    enabled: bool,
    tools: &Vec<String>,
    has_mise_toml: bool,
    has_dot_mise_toml: bool,
    install: &Option<String>,
    build: &Option<String>,
    isolate: bool,
) -> (res: Vec<BuildStep>)
    ensures
        planned_steps(res@) == build_plan(
            enabled,
            string_views(tools@),
            has_mise_toml,
            has_dot_mise_toml,
            option_view(*install),
            option_view(*build),
            isolate,
        ),
{
    let mut res: Vec<BuildStep> = Vec::new();
    if !enabled {
        assert(planned_steps(res@) =~= Seq::<PlannedStep>::empty());
        return res;
    }
    let ghost t = string_views(tools@);
    let ghost mut plan: Seq<PlannedStep> = Seq::empty();
    push_step(&mut res, BuildStep::Enter(Status::InstallingTools, string_from("Installing dependencies")));
    proof {
        plan = seq![PlannedStep::Enter(Status::InstallingTools, "Installing dependencies"@)];
        assert(planned_steps(res@) =~= plan);
    }
    if has_mise_toml {
        push_step(&mut res, BuildStep::Mise(trust_args("mise.toml"), false));
    }
    let ghost first = if has_mise_toml {
        seq![PlannedStep::Mise(seq!["trust"@, "--yes"@, "mise.toml"@], false)]
    } else {
        Seq::<PlannedStep>::empty()
    };
    assert(planned_steps(res@) =~= plan + first);
    if has_dot_mise_toml {
        push_step(&mut res, BuildStep::Mise(trust_args(".mise.toml"), false));
    }
    let ghost second = if has_dot_mise_toml {
        seq![PlannedStep::Mise(seq!["trust"@, "--yes"@, ".mise.toml"@], false)]
    } else {
        Seq::<PlannedStep>::empty()
    };
    assert(planned_steps(res@) =~= plan + first + second);
    push_step(&mut res, BuildStep::Mise(mise_install_args(tools), false));
    let ghost third = seq![PlannedStep::Mise(seq!["install"@, "--yes"@] + t, false)];
    assert(planned_steps(res@) =~= plan + first + second + third);
    match install {
        Some(c) => {
            push_step(
                &mut res,
                BuildStep::Enter(Status::InstallingDependencies, string_from("Installing dependencies")),
            );
            push_step(&mut res, BuildStep::Mise(mise_exec_args(tools, c.as_str(), isolate), isolate));
        },
        None => {},
    }
    let ghost fourth = match option_view(*install) {
        Some(c) => seq![
            PlannedStep::Enter(Status::InstallingDependencies, "Installing dependencies"@),
            exec_step(t, c, isolate),
        ],
        None => Seq::<PlannedStep>::empty(),
    };
    assert(planned_steps(res@) =~= plan + first + second + third + fourth);
    match build {
        Some(c) => {
            push_step(&mut res, BuildStep::Enter(Status::Building, string_from("Building project")));
            push_step(&mut res, BuildStep::Mise(mise_exec_args(tools, c.as_str(), isolate), isolate));
        },
        None => {},
    }
    let ghost fifth = match option_view(*build) {
        Some(c) => seq![
            PlannedStep::Enter(Status::Building, "Building project"@),
            exec_step(t, c, isolate),
        ],
        None => Seq::<PlannedStep>::empty(),
    };
    assert(planned_steps(res@) =~= plan + first + second + third + fourth + fifth);
    res
}

/// The program a build step runs: `mise` is the configured installer,
/// which may be missing; any other program is run by its name.
pub fn resolve_executable(program: &str, mise_bin: &Option<String>) -> (r: Option<String>)
    ensures
        program@ == "mise"@ ==> option_view(r) == option_view(*mise_bin),
        program@ != "mise"@ ==> option_view(r) == Some(program@),
{
    let mise = chars_of("mise");
    let p = chars_of(program);
    if seq_eq(p.as_slice(), mise.as_slice()) {
        match mise_bin {
            Some(m) => Some(m.clone()),
            None => None,
        }
    } else {
        Some(string_from(program))
    }
}

/// The directories a build command searches for programs: the program's own
/// directory (or `/usr/local/bin` when it has none), then the system ones.
pub fn child_path_entries(executable_dir: Option<&str>) -> (r: Vec<String>)
    ensures
        string_views(r@) == seq![
            match executable_dir {
                Some(d) => d@,
                None => "/usr/local/bin"@,
            },
            "/usr/local/bin"@,
            "/usr/bin"@,
            "/bin"@,
        ],
{
    let first = match executable_dir {
        Some(d) => string_from(d),
        None => string_from("/usr/local/bin"),
    };
    let r = vec![first, string_from("/usr/local/bin"), string_from("/usr/bin"), string_from("/bin")];
    assert(string_views(r@) =~= seq![
        match executable_dir {
            Some(d) => d@,
            None => "/usr/local/bin"@,
        },
        "/usr/local/bin"@,
        "/usr/bin"@,
        "/bin"@,
    ]);
    r
}

pub open spec fn pair_views(v: Seq<(String, String)>) -> Seq<(Seq<char>, Seq<char>)> {
    v.map_values(|p: (String, String)| (p.0@, p.1@))
}

/// The home directory of build commands.
pub fn build_home(data_dir: &str) -> (r: String)
    ensures
        r@ == join_path(data_dir@, "state/build-home"@),
{
    join_path_str(data_dir, "state/build-home")
}

/// The environment a build command runs in, besides `PATH`: its own home
/// and `mise` directories in the data directory, `CI` and `MISE_YES` set,
/// `mise` kept from looking above the project's parent, and npm kept out of
/// parent workspaces when the project needs it.
pub fn process_environment(data_dir: &str, ceiling: Option<&str>, isolate: bool) -> (r: Vec<
    (String, String),
>)
    ensures
        pair_views(r@) == seq![
            ("HOME"@, join_path(data_dir@, "state/build-home"@)),
            ("MISE_DATA_DIR"@, join_path(data_dir@, "state/mise"@)),
            ("MISE_CONFIG_DIR"@, join_path(data_dir@, "state/mise-config"@)),
            ("CI"@, "true"@),
            ("MISE_YES"@, "1"@),
        ] + match ceiling {
            Some(c) => seq![("MISE_CEILING_PATHS"@, c@)],
            None => Seq::empty(),
        } + if isolate {
            seq![("NPM_CONFIG_IGNORE_WORKSPACE"@, "true"@)]
        } else {
            Seq::empty()
        },
{
    let mut r: Vec<(String, String)> = vec![
        (string_from("HOME"), build_home(data_dir)),
        (string_from("MISE_DATA_DIR"), join_path_str(data_dir, "state/mise")),
        (string_from("MISE_CONFIG_DIR"), join_path_str(data_dir, "state/mise-config")),
        (string_from("CI"), string_from("true")),
        (string_from("MISE_YES"), string_from("1")),
    ];
    let ghost base = seq![
        ("HOME"@, join_path(data_dir@, "state/build-home"@)),
        ("MISE_DATA_DIR"@, join_path(data_dir@, "state/mise"@)),
        ("MISE_CONFIG_DIR"@, join_path(data_dir@, "state/mise-config"@)),
        ("CI"@, "true"@),
        ("MISE_YES"@, "1"@),
    ];
    assert(pair_views(r@) =~= base);
    match ceiling {
        Some(c) => {
            let ghost before = r@;
            r.push((string_from("MISE_CEILING_PATHS"), string_from(c)));
            assert(pair_views(r@) =~= pair_views(before).push(("MISE_CEILING_PATHS"@, c@)));
        },
        None => {},
    }
    let ghost middle = match ceiling {
        Some(c) => seq![("MISE_CEILING_PATHS"@, c@)],
        None => Seq::<(Seq<char>, Seq<char>)>::empty(),
    };
    assert(pair_views(r@) =~= base + middle);
    if isolate {
        let ghost before = r@;
        r.push((string_from("NPM_CONFIG_IGNORE_WORKSPACE"), string_from("true")));
        assert(pair_views(r@) =~= pair_views(before).push(("NPM_CONFIG_IGNORE_WORKSPACE"@, "true"@)));
    }
    let ghost last = if isolate {
        seq![("NPM_CONFIG_IGNORE_WORKSPACE"@, "true"@)]
    } else {
        Seq::<(Seq<char>, Seq<char>)>::empty()
    };
    assert(pair_views(r@) =~= base + middle + last);
    r
}

} // verus!
