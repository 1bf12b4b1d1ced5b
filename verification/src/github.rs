//! The GitHub App: its registration manifest, the pages and redirects of the
//! registration flow, and which repositories an installation covers.
use vstd::prelude::*;
use crate::codec::{
    github_app_jwt, sign_app_jwt,
    base64_url, base64_url_decoded, decode_base64_url, encode_base64_url, json_quote, json_string,
    string_from_utf8,
};
use crate::error::{ApiError, conflict};
use crate::git::option_view;
use crate::order::{SortKey, sort_by_key, sorted_by_key};
use crate::text::{
    append_str, chars_of, contains_seq, copy_range, ends_with, ends_with_chars, has_char,
    lemma_lead, lower, lower_chars, occurs_at, occurs_at_chars, push_char, seq_eq, starts_with,
    starts_with_chars, string_from, string_of, trim_start_by,
};

verus! {

// ---------------------------------------------------------------------------
// Return paths
// ---------------------------------------------------------------------------

/// A path inside the dashboard that the registration flow may return to:
/// the dashboard or a site page, not protocol-relative, without backslashes
/// or line breaks.
pub open spec fn return_path_ok(p: Seq<char>) -> bool {
    &&& (p == "/dashboard"@ || starts_with(p, "/sites/"@))
    &&& !starts_with(p, "//"@)
    &&& !p.contains('\\')
    &&& !p.contains('\r')
    &&& !p.contains('\n')
}

pub open spec fn safe_return(value: Option<Seq<char>>) -> Seq<char> {
    match value {
        Some(p) => if return_path_ok(p) {
            p
        } else {
            "/dashboard"@
        },
        None => "/dashboard"@,
    }
}

fn return_path_chars_ok(p: &str) -> (r: bool)
    ensures
        r == return_path_ok(p@),
{
    let c = chars_of(p);
    let dashboard = chars_of("/dashboard");
    let sites = chars_of("/sites/");
    let slashes = chars_of("//");
    (seq_eq(c.as_slice(), dashboard.as_slice()) || starts_with_chars(c.as_slice(), sites.as_slice()))
        && !starts_with_chars(c.as_slice(), slashes.as_slice()) && !has_char(c.as_slice(), '\\')
        && !has_char(c.as_slice(), '\r') && !has_char(c.as_slice(), '\n')
}

/// The path to return to after connecting GitHub: the requested one when it
/// stays inside the dashboard, else the dashboard.
pub fn safe_return_path(value: Option<&str>) -> (r: &str)
    ensures
        r@ == safe_return(
            match value {
                Some(v) => Some(v@),
                None => None,
            },
        ),
{
    match value {
        Some(p) => if return_path_chars_ok(p) {
            p
        } else {
            "/dashboard"
        },
        None => "/dashboard",
    }
}

/// Whatever is asked for, the path returned to stays inside the dashboard.
pub proof fn lemma_safe_return_is_safe(value: Option<Seq<char>>)
    ensures
        return_path_ok(safe_return(value)),
        safe_return(Some(safe_return(value))) == safe_return(value),
{
    reveal_strlit("/dashboard");
    reveal_strlit("/sites/");
    reveal_strlit("//");
    let d = "/dashboard"@;
    assert(d[1] == 'd');
    assert(!starts_with(d, "//"@)) by {
        assert(d.take(2)[1] != "//"@[1]);
    }
    assert(!d.contains('\\') && !d.contains('\r') && !d.contains('\n')) by {
        assert forall|i: int| 0 <= i < d.len() implies d[i] != '\\' && d[i] != '\r' && d[i] != '\n' by {
        }
    }
}

// ---------------------------------------------------------------------------
// Manifest and registration pages
// ---------------------------------------------------------------------------

/// The manifest of the GitHub App a Blank instance registers, as compact
/// JSON with its keys in order.
pub open spec fn manifest_json(public_url: Seq<char>) -> Seq<char> {
    "{\"default_events\":[\"push\"],\"default_permissions\":{\"contents\":\"read\"},\"hook_attributes\":{\"active\":true,\"url\":"@
        + json_quote(public_url + "/api/webhooks/github"@) + "},\"name\":\"Blank Deploy\",\"public\":false,\"redirect_url\":"@
        + json_quote(public_url + "/api/github/manifest/callback"@) + ",\"url\":"@ + json_quote(public_url) + seq!['}']
}

pub fn manifest_value(public_url: &str) -> (r: String)
    ensures
        r@ == manifest_json(public_url@),
{
    let mut hook = string_from(public_url);
    append_str(&mut hook, "/api/webhooks/github");
    let mut redirect = string_from(public_url);
    append_str(&mut redirect, "/api/github/manifest/callback");
    let mut r = string_from(
        "{\"default_events\":[\"push\"],\"default_permissions\":{\"contents\":\"read\"},\"hook_attributes\":{\"active\":true,\"url\":",
    );
    let q = json_string(hook.as_str());
    append_str(&mut r, q.as_str());
    append_str(&mut r, "},\"name\":\"Blank Deploy\",\"public\":false,\"redirect_url\":");
    let q = json_string(redirect.as_str());
    append_str(&mut r, q.as_str());
    append_str(&mut r, ",\"url\":");
    let q = json_string(public_url);
    append_str(&mut r, q.as_str());
    push_char(&mut r, '}');
    r
}

/// Where a new GitHub App is registered, and its manifest; refused until the
/// public URL of the instance is configured.
pub fn manifest(public_url: Option<&str>) -> (res: Result<(String, String), ApiError>)
    ensures
        match res {
            Ok((action, m)) => public_url matches Some(u) && action@
                == "https://github.com/settings/apps/new"@ && m@ == manifest_json(u@),
            Err(e) => public_url is None && conflict(
                e,
                "BLANK_PUBLIC_URL must be configured before connecting GitHub"@,
            ),
        },
{
    match public_url {
        Some(u) => Ok((string_from("https://github.com/settings/apps/new"), manifest_value(u))),
        None => Err(
            ApiError::Conflict(
                string_from("BLANK_PUBLIC_URL must be configured before connecting GitHub"),
            ),
        ),
    }
}

pub open spec fn html_piece(c: char) -> Seq<char> {
    if c == '&' {
        "&amp;"@
    } else if c == '<' {
        "&lt;"@
    } else if c == '"' {
        "&quot;"@
    } else {
        seq![c]
    }
}

/// Text made safe inside a double-quoted HTML attribute.
pub open spec fn html_escaped(s: Seq<char>) -> Seq<char>
    decreases s.len(),
{
    if s.len() == 0 {
        Seq::<char>::empty()
    } else {
        html_escaped(s.drop_last()) + html_piece(s.last())
    }
}

pub fn escape_attribute(s: &str) -> (r: String)
    ensures
        r@ == html_escaped(s@),
{
    let chars = chars_of(s);
    let mut r = String::new();
    let mut i: usize = 0;
    while i < chars.len()
        invariant
            i <= chars.len(),
            chars@ == s@,
            r@ == html_escaped(chars@.take(i as int)),
        decreases chars.len() - i,
    {
        let c = chars[i];
        if c == '&' {
            append_str(&mut r, "&amp;");
        } else if c == '<' {
            append_str(&mut r, "&lt;");
        } else if c == '"' {
            append_str(&mut r, "&quot;");
        } else {
            push_char(&mut r, c);
        }
        proof {
            assert(chars@.take(i as int + 1).drop_last() == chars@.take(i as int));
            assert(chars@.take(i as int + 1).last() == c);
        }
        i += 1;
    }
    assert(chars@.take(chars.len() as int) == chars@);
    r
}

/// The page that posts the manifest to GitHub, carrying the return path in
/// the `state` parameter as unpadded URL-safe base64.
pub open spec fn connect_page(action: Seq<char>, manifest: Seq<char>, return_to: Seq<char>) -> Seq<char> {
    "<!doctype html><title>Connect GitHub</title><form id=\"connect\" method=\"post\" action=\""@
        + action + "?state="@ + base64_url(vstd::utf8::encode_utf8(return_to))
        + "\"><input type=\"hidden\" name=\"manifest\" value=\""@ + html_escaped(manifest)
        + "\"></form><script>document.getElementById('connect').submit()</script>"@
}

pub fn connect_html(action: &str, manifest: &str, return_to: &str) -> (r: String)
    requires
        vstd::utf8::encode_utf8(return_to@).len() <= usize::MAX / 2,
    ensures
        r@ == connect_page(action@, manifest@, return_to@),
{
    let mut r = string_from(
        "<!doctype html><title>Connect GitHub</title><form id=\"connect\" method=\"post\" action=\"",
    );
    append_str(&mut r, action);
    append_str(&mut r, "?state=");
    let state = encode_base64_url(return_to.as_bytes());
    append_str(&mut r, state.as_str());
    append_str(&mut r, "\"><input type=\"hidden\" name=\"manifest\" value=\"");
    let escaped = escape_attribute(manifest);
    append_str(&mut r, escaped.as_str());
    append_str(&mut r, "\"></form><script>document.getElementById('connect').submit()</script>");
    r
}

/// The path the registration callback returns to: the `state` parameter,
/// decoded from unpadded URL-safe base64 and UTF-8, when it is a safe path.
pub open spec fn callback_return(state: Option<Seq<char>>) -> Seq<char> {
    let decoded: Option<Seq<char>> = match state {
        Some(s) => match base64_url_decoded(vstd::utf8::encode_utf8(s)) {
            Some(bytes) => if vstd::utf8::valid_utf8(bytes) {
                Some(vstd::utf8::decode_utf8(bytes))
            } else {
                None
            },
            None => None,
        },
        None => None,
    };
    safe_return(decoded)
}

pub fn return_location(state: Option<&str>) -> (r: String)
    ensures
        r@ == callback_return(
            match state {
                Some(s) => Some(s@),
                None => None,
            },
        ),
{
    let decoded: Option<String> = match state {
        Some(s) => match decode_base64_url(s.as_bytes()) {
            Some(bytes) => string_from_utf8(bytes),
            None => None,
        },
        None => None,
    };
    let path = match &decoded {
        Some(d) => safe_return_path(Some(d.as_str())),
        None => safe_return_path(None),
    };
    string_from(path)
}

/// Where an App is installed on repositories.
pub fn install_url(app_slug: &str) -> (r: String)
    ensures
        r@ == "https://github.com/apps/"@ + app_slug@ + "/installations/new"@,
{
    let mut r = string_from("https://github.com/apps/");
    append_str(&mut r, app_slug);
    append_str(&mut r, "/installations/new");
    r
}

/// The issue and expiry times of the App's JSON web token: a minute in the
/// past, to allow for clock drift, and nine minutes ahead.
pub fn token_times(now: i64) -> (r: (i64, i64))
    requires
        i64::MIN + 60 <= now <= i64::MAX - 540,
    ensures
        r.0 == now - 60,
        r.1 == now + 540,
{
    (now - 60, now + 540)
}

/// The JSON web token a GitHub App authenticates with when it asks for an
/// installation token: issued a minute before `now`, expiring nine minutes
/// after it, naming the app as issuer, signed with the app's private key;
/// none when the key is unusable.
pub fn app_jwt(app_id: i64, now: i64, pem: &str) -> (r: Option<String>)
    requires
        i64::MIN + 60 <= now <= i64::MAX - 540,
    ensures
        r matches Some(t) ==> github_app_jwt(app_id, (now - 60) as i64, (now + 540) as i64, pem@)
            == Some(t@),
        github_app_jwt(app_id, (now - 60) as i64, (now + 540) as i64, pem@) is None ==> r is None,
{
    let (issued_at, expires_at) = token_times(now);
    sign_app_jwt(app_id, issued_at, expires_at, pem)
}

// ---------------------------------------------------------------------------
// Repositories of installations
// ---------------------------------------------------------------------------

/// A repository an installation covers.
#[derive(Debug, Clone)]
pub struct Repository {
    pub id: i64,
    pub full_name: String,
    pub clone_url: String,
    pub private: bool,
    pub default_branch: String,
}

impl SortKey for Repository {
    open spec fn sort_key(&self) -> (bool, Seq<char>) {
        (false, self.full_name@)
    }

    fn rank(&self) -> (r: bool) {
        false
    }

    fn name_chars(&self) -> (r: Vec<char>) {
        chars_of(self.full_name.as_str())
    }
}

/// The repositories in the order of their full names.
pub fn sort_repositories(v: Vec<Repository>) -> (res: Vec<Repository>)
    ensures
        res@.to_multiset() == v@.to_multiset(),
        sorted_by_key(res@),
{
    sort_by_key(v)
}

/// `str::trim_end_matches` with a string pattern: the pattern removed from
/// the end as often as it stands there.
pub open spec fn trim_end_seq(s: Seq<char>, p: Seq<char>) -> Seq<char>
    decreases s.len(),
{
    if p.len() > 0 && ends_with(s, p) {
        trim_end_seq(s.take(s.len() - p.len()), p)
    } else {
        s
    }
}

pub fn trim_end_seq_chars(s: &[char], p: &[char]) -> (r: Vec<char>)
    ensures
        r@ == trim_end_seq(s@, p@),
{
    let mut cur = copy_range(s, 0, s.len());
    assert(s@.subrange(0, s@.len() as int) =~= s@);
    assert(cur@ == s@);
    if p.len() == 0 {
        return cur;
    }
    while ends_with_chars(cur.as_slice(), p)
        invariant
            p@.len() > 0,
            trim_end_seq(cur@, p@) == trim_end_seq(s@, p@),
        decreases cur@.len(),
    {
        cur = copy_range(cur.as_slice(), 0, cur.len() - p.len());
    }
    cur
}

/// The last index at which `p` occurs in `s`, looking from `i` down.
pub open spec fn rfind_from(s: Seq<char>, p: Seq<char>, i: int) -> Option<int>
    decreases i + 1,
{
    if i < 0 {
        None
    } else if occurs_at(s, p, i) {
        Some(i)
    } else {
        rfind_from(s, p, i - 1)
    }
}

/// `str::rsplit_once` with a string pattern: the text before and after the
/// last occurrence.
pub open spec fn rsplit_once_seq(s: Seq<char>, p: Seq<char>) -> Option<(Seq<char>, Seq<char>)> {
    match rfind_from(s, p, s.len() - p.len()) {
        Some(i) => Some((s.take(i), s.skip(i + p.len()))),
        None => None,
    }
}

fn rsplit_once_chars(s: &[char], p: &[char]) -> (r: Option<(Vec<char>, Vec<char>)>)
    ensures
        match r {
            Some((a, b)) => rsplit_once_seq(s@, p@) == Some((a@, b@)),
            None => rsplit_once_seq(s@, p@) is None,
        },
{
    if p.len() > s.len() {
        proof {
            assert(rfind_from(s@, p@, s@.len() - p@.len()) is None);
        }
        return None;
    }
    let mut i: usize = s.len() - p.len();
    loop
        invariant
            p.len() <= s.len(),
            i <= s.len() - p.len(),
            rfind_from(s@, p@, s@.len() - p@.len()) == rfind_from(s@, p@, i as int),
        decreases i,
    {
        if occurs_at_chars(s, p, i) {
            return Some((copy_range(s, 0, i), copy_range(s, i + p.len(), s.len())));
        }
        if i == 0 {
            assert(rfind_from(s@, p@, -1) is None);
            return None;
        }
        i -= 1;
    }
}

pub open spec fn path_separator() -> spec_fn(char) -> bool {
    |c: char| c == '/' || c == ':'
}

/// The `owner/name` a GitHub repository URL names: the URL without its
/// `.git` suffixes, after its last `github.com`, without leading `/` and `:`;
/// `None` for a URL that does not mention `github.com`.
pub open spec fn repository_target(url: Seq<char>) -> Option<Seq<char>> {
    if !contains_seq(url, "github.com"@) {
        None
    } else {
        match rsplit_once_seq(trim_end_seq(url, ".git"@), "github.com"@) {
            Some((_, rest)) => Some(trim_start_by(rest, path_separator())),
            None => Some(Seq::<char>::empty()),
        }
    }
}

pub fn github_target(url: &str) -> (r: Option<String>)
    ensures
        option_view(r) == repository_target(url@),
{
    let u = chars_of(url);
    let host = chars_of("github.com");
    if !crate::text::contains_chars(u.as_slice(), host.as_slice()) {
        return None;
    }
    let suffix = chars_of(".git");
    let trimmed = trim_end_seq_chars(u.as_slice(), suffix.as_slice());
    match rsplit_once_chars(trimmed.as_slice(), host.as_slice()) {
        Some((_, rest)) => {
            let mut k: usize = 0;
            while k < rest.len() && (rest[k] == '/' || rest[k] == ':')
                invariant
                    k <= rest.len(),
                    forall|j: int| 0 <= j < k ==> (path_separator())(#[trigger] rest@[j]),
                decreases rest.len() - k,
            {
                k += 1;
            }
            proof {
                lemma_lead(rest@, path_separator(), k as int);
            }
            let name = copy_range(rest.as_slice(), k, rest.len());
            Some(string_of(name.as_slice()))
        },
        None => Some(String::new()),
    }
}

/// Whether an installation's repository list covers the target, comparing
/// full names without regard to ASCII case.
pub open spec fn covers(full_names: Seq<Seq<char>>, target: Seq<char>) -> bool {
    exists|i: int| 0 <= i < full_names.len() && lower(#[trigger] full_names[i]) == lower(target)
}

pub fn installation_covers(repositories: &Vec<Repository>, target: &str) -> (r: bool)
    ensures
        r == covers(repositories@.map_values(|x: Repository| x.full_name@), target@),
{
    let t = chars_of(target);
    let lt = lower_chars(t.as_slice());
    let ghost names = repositories@.map_values(|x: Repository| x.full_name@);
    let mut i: usize = 0;
    while i < repositories.len()
        invariant
            i <= repositories.len(),
            names == repositories@.map_values(|x: Repository| x.full_name@),
            lt@ == lower(target@),
            forall|j: int| 0 <= j < i ==> lower(#[trigger] names[j]) != lower(target@),
        decreases repositories.len() - i,
    {
        let n = chars_of(repositories[i].full_name.as_str());
        let ln = lower_chars(n.as_slice());
        assert(names[i as int] == repositories@[i as int].full_name@);
        if seq_eq(ln.as_slice(), lt.as_slice()) {
            return true;
        }
        i += 1;
    }
    false
}

} // verus!
