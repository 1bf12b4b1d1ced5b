//! The rules of a site's Chimney configuration that Blank itself enforces:
//! where its files may come from, that it names a domain, how an imported
//! `chimney.toml` is fingerprinted, and when the repository's copy changed.
use vstd::prelude::*;
use crate::codec::{sha256, sha256_digest};
use crate::error::{ApiError, bad_request};
use crate::git::{has_parent_part, has_parent_part_chars, option_view};
use crate::text::{chars_of, push_char, seq_eq, string_from};

verus! {

/// The lower-case hexadecimal digit for a value below 16.
pub open spec fn hex_digit(d: int) -> char {
    if d < 10 {
        (48 + d) as char
    } else {
        (87 + d) as char
    }
}

/// Bytes as lower-case hexadecimal text, two digits a byte.
pub open spec fn hex_lower(bytes: Seq<u8>) -> Seq<char>
    decreases bytes.len(),
{
    if bytes.len() == 0 {
        Seq::<char>::empty()
    } else {
        hex_lower(bytes.drop_last()) + seq![
            hex_digit(bytes.last() as int / 16),
            hex_digit(bytes.last() as int % 16),
        ]
    }
}

proof fn lemma_hex_lower_index(bytes: Seq<u8>)
    ensures
        hex_lower(bytes).len() == 2 * bytes.len(),
        forall|i: int|
            0 <= i < bytes.len() ==> hex_lower(bytes)[2 * i] == hex_digit(#[trigger] bytes[i] as int / 16)
                && hex_lower(bytes)[2 * i + 1] == hex_digit(bytes[i] as int % 16),
    decreases bytes.len(),
{
    if bytes.len() > 0 {
        let prev = bytes.drop_last();
        lemma_hex_lower_index(prev);
        assert forall|i: int| 0 <= i < bytes.len() implies hex_lower(bytes)[2 * i] == hex_digit(
            #[trigger] bytes[i] as int / 16,
        ) && hex_lower(bytes)[2 * i + 1] == hex_digit(bytes[i] as int % 16) by {
            if i < prev.len() {
                assert(bytes[i] == prev[i]);
            }
        }
    }
}

proof fn lemma_hex_digit_injective(a: int, b: int)
    requires
        0 <= a < 16,
        0 <= b < 16,
        hex_digit(a) == hex_digit(b),
    ensures
        a == b,
{
}

/// Different bytes never give the same hexadecimal text.
pub proof fn lemma_hex_lower_injective(a: Seq<u8>, b: Seq<u8>)
    requires
        hex_lower(a) == hex_lower(b),
    ensures
        a == b,
{
    lemma_hex_lower_index(a);
    lemma_hex_lower_index(b);
    assert forall|i: int| 0 <= i < a.len() implies a[i] == b[i] by {
        assert(hex_lower(a)[2 * i] == hex_lower(b)[2 * i]);
        assert(hex_lower(a)[2 * i + 1] == hex_lower(b)[2 * i + 1]);
        lemma_hex_digit_injective(a[i] as int / 16, b[i] as int / 16);
        lemma_hex_digit_injective(a[i] as int % 16, b[i] as int % 16);
    }
    assert(a =~= b);
}

fn hex_digit_exec(d: u8) -> (c: char)
    requires
        d < 16,
    ensures
        c == hex_digit(d as int),
{
    if d < 10 {
        (48u8 + d) as char
    } else {
        (87u8 + d) as char
    }
}

/// The fingerprint of a `chimney.toml`: its SHA-256 digest in lower-case
/// hexadecimal.
pub open spec fn content_fingerprint(input: Seq<u8>) -> Seq<char> {
    hex_lower(sha256(input))
}

pub fn hash(input: &[u8]) -> (r: String)
    ensures
        r@ == content_fingerprint(input@),
        r@.len() == 64,
{
    let digest = sha256_digest(input);
    let mut r = String::new();
    let mut i: usize = 0;
    while i < digest.len()
        invariant
            i <= digest.len(),
            r@ == hex_lower(digest@.take(i as int)),
        decreases digest.len() - i,
    {
        let b = digest[i];
        push_char(&mut r, hex_digit_exec(b / 16));
        push_char(&mut r, hex_digit_exec(b % 16));
        proof {
            assert(digest@.take(i as int + 1).drop_last() == digest@.take(i as int));
            assert(digest@.take(i as int + 1).last() == b);
        }
        i += 1;
    }
    assert(digest@.take(digest@.len() as int) == digest@);
    proof {
        lemma_hex_lower_index(digest@);
    }
    r
}

/// Two files have the same fingerprint only when their digests agree.
pub proof fn lemma_fingerprint_follows_digest(a: Seq<u8>, b: Seq<u8>)
    requires
        content_fingerprint(a) == content_fingerprint(b),
    ensures
        sha256(a) == sha256(b),
{
    lemma_hex_lower_injective(sha256(a), sha256(b));
}

/// The files a site serves come from a relative directory without `..`
/// parts, and the site answers to at least one domain.
pub open spec fn site_layout(root: Seq<char>, domain_count: nat) -> Result<(), Seq<char>> {
    if root.len() == 0 || root[0] == '/' || has_parent_part(root) {
        Err("Chimney root must be a relative path without '..'"@)
    } else if domain_count == 0 {
        Err("at least one domain is required"@)
    } else {
        Ok(())
    }
}

pub fn check_site_layout(root: &str, domains: &Vec<String>) -> (res: Result<(), ApiError>)
    ensures
        match res {
            Ok(()) => site_layout(root@, domains@.len()) is Ok,
            Err(e) => site_layout(root@, domains@.len()) matches Err(m) && bad_request(e, m),
        },
{
    let r = chars_of(root);
    if r.len() == 0 || r[0] == '/' || has_parent_part_chars(r.as_slice()) {
        return Err(ApiError::BadRequest(string_from("Chimney root must be a relative path without '..'")));
    }
    if domains.len() == 0 {
        return Err(ApiError::BadRequest(string_from("at least one domain is required")));
    }
    Ok(())
}

/// A generated configuration needs the site to have a domain.
pub fn require_domains(domains: &Vec<String>) -> (res: Result<(), ApiError>)
    ensures
        res is Ok <==> domains@.len() > 0,
        res matches Err(e) ==> bad_request(e, "add at least one domain before configuring Chimney"@),
{
    if domains.len() == 0 {
        return Err(
            ApiError::BadRequest(string_from("add at least one domain before configuring Chimney")),
        );
    }
    Ok(())
}

/// An edit carries the configuration either as TOML or as structured data,
/// never both and never neither: `true` for TOML.
pub fn configuration_source(has_toml: bool, has_config: bool) -> (res: Result<bool, ApiError>)
    ensures
        res is Ok <==> has_toml != has_config,
        res matches Ok(t) ==> t == has_toml,
        res matches Err(e) ==> bad_request(e, "provide exactly one of toml or config"@),
{
    if has_toml && !has_config {
        Ok(true)
    } else if !has_toml && has_config {
        Ok(false)
    } else {
        Err(ApiError::BadRequest(string_from("provide exactly one of toml or config")))
    }
}

/// The repository's `chimney.toml` changed since it was imported when both
/// fingerprints are known and differ.
pub fn upstream_changed(imported: &Option<String>, upstream: &Option<String>) -> (r: bool)
    ensures
        r == (option_view(*imported) is Some && option_view(*upstream) is Some && option_view(
            *imported,
        ) != option_view(*upstream)),
{
    match (imported, upstream) {
        (Some(a), Some(b)) => {
            let x = chars_of(a.as_str());
            let y = chars_of(b.as_str());
            !seq_eq(x.as_slice(), y.as_slice())
        },
        _ => false,
    }
}

/// Where a saved configuration came from.
#[derive(Debug, Clone, Copy, PartialEq, Eq, Structural)]
pub enum ConfigOrigin {
    Generated,
    Repository,
    Dashboard,
}

impl ConfigOrigin {
    pub fn as_str(self) -> (r: &'static str)
        ensures
            r@ == match self {
                ConfigOrigin::Generated => "generated"@,
                ConfigOrigin::Repository => "repository"@,
                ConfigOrigin::Dashboard => "dashboard"@,
            },
    {
        match self {
            ConfigOrigin::Generated => "generated",
            ConfigOrigin::Repository => "repository",
            ConfigOrigin::Dashboard => "dashboard",
        }
    }
}

/// What an import records: the repository's file with its fingerprint and
/// commit when it has one, else a generated configuration without either.
pub fn import_record(fingerprint: Option<String>, commit: &str) -> (r: (
    ConfigOrigin,
    Option<String>,
    Option<String>,
))
    ensures
        match fingerprint {
            Some(f) => r.0 == ConfigOrigin::Repository && option_view(r.1) == Some(f@) && option_view(
                r.2,
            ) == Some(commit@),
            None => r.0 == ConfigOrigin::Generated && r.1 is None && r.2 is None,
        },
{
    match fingerprint {
        Some(f) => (ConfigOrigin::Repository, Some(f), Some(string_from(commit))),
        None => (ConfigOrigin::Generated, None, None),
    }
}

} // verus!
