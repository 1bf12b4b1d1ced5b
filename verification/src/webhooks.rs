//! GitHub push webhooks: which deliveries are authentic, and which site and
//! branch a push names.
use vstd::prelude::*;
use crate::codec::{decode_hex, hex_decoded, hmac_sha256, verify_hmac_sha256};
use crate::error::{ApiError, bad_request, status_of};
use crate::git::option_view;
use crate::github::{trim_end_seq, trim_end_seq_chars};
use crate::text::{
    chars_of, copy_range, seq_eq, starts_with_chars, string_from,
    string_of, strip_prefix,
};

verus! {

/// What a webhook delivery is answered with before its payload is read.
pub open spec fn delivery_check(
    event: Option<Seq<char>>,
    secret: Option<Seq<char>>,
    signature: Option<Seq<char>>,
    body: Seq<u8>,
) -> Result<bool, u16> {
    if event != Some("push"@) {
        Ok(false)
    } else {
        match secret {
            None => Err(404),
            Some(key) => {
                let header = match signature {
                    Some(s) => s,
                    None => Seq::<char>::empty(),
                };
                match strip_prefix(header, "sha256="@) {
                    None => Err(403),
                    Some(hex) => match hex_decoded(vstd::utf8::encode_utf8(hex)) {
                        None => Err(403),
                        Some(tag) => if tag == hmac_sha256(vstd::utf8::encode_utf8(key), body) {
                            Ok(true)
                        } else {
                            Err(403)
                        },
                    },
                }
            },
        }
    }
}

/// The outcome of a check: the same answer, or an error of the same status.
pub open spec fn same_outcome(a: Result<bool, ApiError>, b: Result<bool, u16>) -> bool {
    match (a, b) {
        (Ok(x), Ok(y)) => x == y,
        (Err(e), Err(code)) => status_of(e) == code,
        _ => false,
    }
}

/// Checks a delivery: `Ok(false)` for events other than pushes, which are
/// ignored; `Ok(true)` for a push whose `x-hub-signature-256` is the
/// HMAC-SHA256 of the body under the configured secret; not found while no
/// secret is configured; forbidden for any other signature.
pub fn authenticate_delivery(
    event: Option<&str>,
    secret: Option<&str>,
    signature: Option<&str>,
    body: &[u8],
) -> (res: Result<bool, ApiError>)
    ensures
        same_outcome(
            res,
            delivery_check(
                match event {
                    Some(e) => Some(e@),
                    None => None,
                },
                match secret {
                    Some(s) => Some(s@),
                    None => None,
                },
                match signature {
                    Some(s) => Some(s@),
                    None => None,
                },
                body@,
            ),
        ),
        res matches Err(ApiError::NotFound(m)) ==> m@ == "webhooks are not configured"@,
        res matches Err(e) ==> e is NotFound || e is Forbidden,
{
    let is_push = match event {
        Some(e) => {
            let a = chars_of(e);
            let b = chars_of("push");
            seq_eq(a.as_slice(), b.as_slice())
        },
        None => false,
    };
    if !is_push {
        return Ok(false);
    }
    let key = match secret {
        Some(k) => k,
        None => {
            return Err(ApiError::NotFound(string_from("webhooks are not configured")));
        },
    };
    let header = match signature {
        Some(s) => chars_of(s),
        None => Vec::new(),
    };
    let prefix = chars_of("sha256=");
    if !starts_with_chars(header.as_slice(), prefix.as_slice()) {
        return Err(ApiError::Forbidden);
    }
    let hex = copy_range(header.as_slice(), prefix.len(), header.len());
    let hex_text = string_of(hex.as_slice());
    let tag = match decode_hex(hex_text.as_str().as_bytes()) {
        Some(t) => t,
        None => {
            return Err(ApiError::Forbidden);
        },
    };
    if verify_hmac_sha256(key.as_bytes(), body, tag.as_slice()) {
        Ok(true)
    } else {
        Err(ApiError::Forbidden)
    }
}

/// The fields of a push payload that decide what is deployed.
#[derive(Debug, Clone)]
pub struct PushEvent {
    /// `ref`, when it is a string.
    pub reference: Option<String>,
    /// `repository.clone_url`, when it is a string.
    pub clone_url: Option<String>,
    /// `repository.html_url`, when it is a string.
    pub html_url: Option<String>,
}

/// The last `/`-separated part of a text.
pub open spec fn last_part_empty(s: Seq<char>) -> bool {
    s.len() == 0 || s.last() == '/'
}

/// The repository (its URL without `.git` suffixes, matched as a prefix)
/// and the branch a push names; refused when its `ref` has no branch part.
pub open spec fn push_target(event: PushEvent) -> Result<(Seq<char>, Seq<char>), Seq<char>> {
    let reference = match option_view(event.reference) {
        Some(r) => r,
        None => Seq::<char>::empty(),
    };
    if last_part_empty(reference) {
        Err("webhook branch is missing"@)
    } else {
        let url = match option_view(event.clone_url) {
            Some(u) => u,
            None => match option_view(event.html_url) {
                Some(u) => u,
                None => Seq::<char>::empty(),
            },
        };
        let branch = match strip_prefix(reference, "refs/heads/"@) {
            Some(b) => b,
            None => Seq::<char>::empty(),
        };
        Ok((trim_end_seq(url, ".git"@), branch))
    }
}

/// A push of branch `b` (its `ref` being `refs/heads/` followed by `b`) is
/// accepted and names exactly `b`, slashes and all, whenever `b` is not empty
/// and does not end in `/`; `refs/heads/` followed by the branch returned
/// gives the `ref` back.
pub proof fn lemma_push_names_its_branch(event: PushEvent, b: Seq<char>)
    requires
        b.len() > 0,
        b.last() != '/',
        event.reference matches Some(r) && r@ == "refs/heads/"@ + b,
    ensures
        push_target(event) matches Ok((_, branch)) && branch == b && "refs/heads/"@ + branch
            == event.reference->Some_0@,
{
    let r = event.reference->Some_0@;
    let p = "refs/heads/"@;
    assert(r.last() == b.last());
    assert(r.take(p.len() as int) =~= p);
    assert(r.skip(p.len() as int) =~= b);
}

pub fn push_site_target(event: &PushEvent) -> (res: Result<(String, String), ApiError>)
    ensures
        match res {
            Ok((repository, branch)) => push_target(*event) == Ok::<
                (Seq<char>, Seq<char>),
                Seq<char>,
            >((repository@, branch@)),
            Err(e) => push_target(*event) == Err::<(Seq<char>, Seq<char>), Seq<char>>(
                "webhook branch is missing"@,
            ) && bad_request(e, "webhook branch is missing"@),
        },
{
    let reference: Vec<char> = match &event.reference {
        Some(r) => chars_of(r.as_str()),
        None => Vec::new(),
    };
    if reference.len() == 0 || reference[reference.len() - 1] == '/' {
        return Err(ApiError::BadRequest(string_from("webhook branch is missing")));
    }
    let url: Vec<char> = match &event.clone_url {
        Some(u) => chars_of(u.as_str()),
        None => match &event.html_url {
            Some(u) => chars_of(u.as_str()),
            None => Vec::new(),
        },
    };
    let suffix = chars_of(".git");
    let repository = trim_end_seq_chars(url.as_slice(), suffix.as_slice());
    let heads = chars_of("refs/heads/");
    let branch: Vec<char> = if starts_with_chars(reference.as_slice(), heads.as_slice()) {
        copy_range(reference.as_slice(), heads.len(), reference.len())
    } else {
        Vec::new()
    };
    Ok((string_of(repository.as_slice()), string_of(branch.as_slice())))
}

/// The `LIKE` pattern that finds the sites of a repository: its URL as a
/// prefix.
pub fn repository_pattern(repository: &str) -> (r: String)
    ensures
        r@ == repository@ + seq!['%'],
{
    let mut r = string_from(repository);
    crate::text::push_char(&mut r, '%');
    r
}

} // verus!
