//! The repository views of a site: which URL an inspection reads, which
//! branch a tree listing shows, and when a listing needs the cache fetched.
use vstd::prelude::*;
use crate::git::{option_view, repository_url_ok, validate_repository_url, GitError};
use crate::text::{chars_of, contains_chars, contains_seq, string_from, string_of, trim, trim_str};

verus! {

/// A request to inspect a remote repository.
#[derive(Debug, Clone)]
pub struct InspectInput {
    pub repository_url: String,
}

/// The URL an inspection reads: the entered one, trimmed, when it is
/// acceptable to Git.
pub fn inspected_url(input: &InspectInput) -> (res: Result<String, GitError>)
    ensures
        match res {
            Ok(url) => url@ == trim(input.repository_url@) && repository_url_ok(url@),
            Err(e) => !repository_url_ok(trim(input.repository_url@))
                && e == GitError::InvalidRepositoryUrl,
        },
{
    let trimmed = trim_str(input.repository_url.as_str());
    let url = string_of(trimmed.as_slice());
    match validate_repository_url(url.as_str()) {
        Ok(()) => Ok(url),
        Err(e) => Err(e),
    }
}

/// The branch a tree listing shows: the requested one, else the site's.
pub fn tree_branch(requested: &Option<String>, site_branch: &str) -> (r: String)
    ensures
        r@ == match option_view(*requested) {
            Some(b) => b,
            None => site_branch@,
        },
{
    match requested {
        Some(b) => b.clone(),
        None => string_from(site_branch),
    }
}

/// Whether a failed listing only lacks the repository cache, which a fetch
/// creates.
pub fn needs_fetch(error: &str) -> (r: bool)
    ensures
        r == contains_seq(error@, "cache does not exist"@),
{
    let e = chars_of(error);
    let p = chars_of("cache does not exist");
    contains_chars(e.as_slice(), p.as_slice())
}

} // verus!
