//! The embedded site server's status, and how each site's stored
//! configuration is laid over its files when the server is configured.
use vstd::prelude::*;
use crate::deployment::{site_dir, site_dir_path};
use crate::git::{join_path, join_path_str, option_view};
use crate::paths::{path_within, path_within_str};
use crate::text::{chars_of, string_from};

verus! {

/// Whether the embedded server is starting, running or stopped with an error.
#[derive(Clone, Copy, Debug, PartialEq, Eq, Structural)]
pub enum RuntimeState {
    Starting,
    Running,
    Failed,
}

impl RuntimeState {
    /// The name the health report shows.
    pub fn as_str(self) -> (r: &'static str)
        ensures
            r@ == match self {
                RuntimeState::Starting => "starting"@,
                RuntimeState::Running => "running"@,
                RuntimeState::Failed => "failed"@,
            },
    {
        match self {
            RuntimeState::Starting => "starting",
            RuntimeState::Running => "running",
            RuntimeState::Failed => "failed",
        }
    }
}

/// What the health report says of the embedded server.
#[derive(Clone, Debug)]
pub struct RuntimeStatus {
    pub state: RuntimeState,
    pub active_sites: usize,
    pub http_address: String,
    pub https_port: Option<u16>,
    pub error: Option<String>,
}

/// The status at start-up, and whether TLS starts with it: only when a HTTPS
/// port is configured and some site has an active release, so that a
/// first-run instance stays reachable over HTTP.
pub fn initial_status(
    active_sites: usize,
    released_sites: usize,
    http_address: String,
    https_port: Option<u16>,
) -> (r: (RuntimeStatus, bool))
    ensures
        r.1 == (https_port is Some && released_sites > 0),
        r.0.state == RuntimeState::Starting,
        r.0.active_sites == active_sites,
        r.0.http_address@ == http_address@,
        r.0.https_port == if r.1 {
            https_port
        } else {
            None
        },
        r.0.error is None,
{
    let tls = https_port.is_some() && released_sites > 0;
    (
        RuntimeStatus {
            state: RuntimeState::Starting,
            active_sites,
            http_address,
            https_port: if tls {
                https_port
            } else {
                None
            },
            error: None,
        },
        tls,
    )
}

/// The status once the server stopped with an error.
pub fn failed_status(status: RuntimeStatus, error: String) -> (r: RuntimeStatus)
    ensures
        r.state == RuntimeState::Failed,
        option_view(r.error) == Some(error@),
        r.active_sites == status.active_sites,
        r.http_address == status.http_address,
        r.https_port == status.https_port,
{
    RuntimeStatus { state: RuntimeState::Failed, error: Some(error), ..status }
}

/// `Path::join`: a relative name goes below the base; an absolute one
/// replaces it.
pub open spec fn path_join(base: Seq<char>, name: Seq<char>) -> Seq<char> {
    if name.len() > 0 && name[0] == '/' {
        name
    } else {
        join_path(base, name)
    }
}

pub fn path_join_str(base: &str, name: &str) -> (r: String)
    ensures
        r@ == path_join(base@, name@),
{
    let n = chars_of(name);
    if n.len() > 0 && n[0] == '/' {
        string_from(name)
    } else {
        join_path_str(base, name)
    }
}

/// Where a site's files are served from.
#[derive(Debug, Clone)]
pub struct ServedSite {
    pub root: String,
    pub default_index_file: Option<String>,
    pub fallback_file: Option<String>,
}

/// The directory of the page shown by a site that has no active release.
pub fn missing_page_directory() -> (r: &'static str)
    ensures
        r@ == ".blank/missing-deployment"@,
{
    ".blank/missing-deployment"
}

/// How a site is served: from its configured root inside the active release,
/// the fallback file inside that root; or, with no active release, from the
/// missing-deployment page.
pub open spec fn served(
    root: Seq<char>,
    default_index: Option<Seq<char>>,
    fallback: Option<Seq<char>>,
    has_release: bool,
) -> (Seq<char>, Option<Seq<char>>, Option<Seq<char>>) {
    if has_release {
        let r = path_join("current"@, root);
        (
            r,
            default_index,
            match fallback {
                Some(f) => Some(path_join(r, f)),
                None => None,
            },
        )
    } else {
        (
            ".blank/missing-deployment"@,
            Some("index.html"@),
            Some(".blank/missing-deployment/index.html"@),
        )
    }
}

pub fn served_site(
    root: &str,
    default_index_file: Option<String>,
    fallback_file: Option<String>,
    has_release: bool,
) -> (r: ServedSite)
    ensures
        (r.root@, option_view(r.default_index_file), option_view(r.fallback_file)) == served(
            root@,
            option_view(default_index_file),
            option_view(fallback_file),
            has_release,
        ),
{
    if has_release {
        let r = path_join_str("current", root);
        let fallback = match &fallback_file {
            Some(f) => Some(path_join_str(r.as_str(), f.as_str())),
            None => None,
        };
        ServedSite { root: r, default_index_file, fallback_file: fallback }
    } else {
        ServedSite {
            root: string_from(".blank/missing-deployment"),
            default_index_file: Some(string_from("index.html")),
            fallback_file: Some(string_from(".blank/missing-deployment/index.html")),
        }
    }
}

/// The file of a site's missing-deployment page.
pub fn missing_page_path(data_dir: &str, site_id: &str) -> (r: (String, String))
    ensures
        r.0@ == join_path(site_dir(data_dir@, site_id@), ".blank/missing-deployment"@),
        r.1@ == join_path(r.0@, "index.html"@),
{
    let site = site_dir_path(data_dir, site_id);
    let directory = join_path_str(site.as_str(), ".blank/missing-deployment");
    let file = join_path_str(directory.as_str(), "index.html");
    (directory, file)
}

/// Whether the page on disk must be written: it is missing or differs.
pub fn page_needs_write(current: Option<&str>, page: &str) -> (r: bool)
    ensures
        r == match current {
            Some(c) => c@ != page@,
            None => true,
        },
{
    match current {
        Some(c) => !crate::text::str_eq(c, page),
        None => true,
    }
}

/// An active release is only served from inside its site's releases
/// directory: the canonical target of `current` must lie within the
/// canonical releases directory.
pub fn release_is_contained(resolved_current: &str, resolved_releases: &str) -> (r: bool)
    ensures
        r == path_within(resolved_current@, resolved_releases@),
{
    path_within_str(resolved_current, resolved_releases)
}

} // verus!
