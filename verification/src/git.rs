//! The rules of the Git repository cache: which identifiers, URLs, branch
//! names, tree paths and commit ids are accepted, how Git's output is read,
//! and where the cache keeps its files.
use vstd::prelude::*;
use crate::codec::{base64_standard, encode_base64_standard};
use crate::order::{sorted_by_key, key_le, lemma_lex_antisymmetric, lemma_lex_transitive, lex_le, lex_lt, sort_by_key, SortKey};
use crate::text::{
    char_is_alphanumeric, char_is_hex_digit, chars_of, contains_chars, contains_seq, copy_range,
    ends_with, ends_with_chars, has_char, is_alphanumeric, is_hex_digit, lines, lines_chars,
    seq_eq, split, split_chars, split_once, split_once_chars, starts_with, starts_with_chars,
    str_eq, string_from, string_of, strip_prefix, trim, trim_end, trim_end_chars, trim_str, utf8_len, utf8_len_at_most, views, push_char, append_str,
};

verus! {

broadcast use vstd::seq_lib::group_to_multiset_ensures;

/// Why a request to the repository cache was refused.
#[derive(Debug, Clone, Copy, PartialEq, Eq)]
pub enum GitError {
    InvalidRepositoryUrl,
    InvalidIdentifier,
    InvalidBranch,
    InvalidRepositoryPath,
    InvalidCommitSha,
    UnexpectedCommitMetadata,
}

impl GitError {
    /// The message shown for the refusal.
    pub fn message(&self) -> (r: String)
        ensures
            r@ == git_error_message(*self),
    {
        match self {
            GitError::InvalidRepositoryUrl => string_from("invalid repository URL"),
            GitError::InvalidIdentifier => string_from("invalid internal identifier"),
            GitError::InvalidBranch => string_from("invalid branch name"),
            GitError::InvalidRepositoryPath => string_from("invalid repository path"),
            GitError::InvalidCommitSha => string_from("invalid commit SHA"),
            GitError::UnexpectedCommitMetadata => string_from(
                "unexpected commit metadata from Git",
            ),
        }
    }
}

pub open spec fn git_error_message(e: GitError) -> Seq<char> {
    match e {
        GitError::InvalidRepositoryUrl => "invalid repository URL"@,
        GitError::InvalidIdentifier => "invalid internal identifier"@,
        GitError::InvalidBranch => "invalid branch name"@,
        GitError::InvalidRepositoryPath => "invalid repository path"@,
        GitError::InvalidCommitSha => "invalid commit SHA"@,
        GitError::UnexpectedCommitMetadata => "unexpected commit metadata from Git"@,
    }
}

// ---------------------------------------------------------------------------
// Validation
// ---------------------------------------------------------------------------

/// A repository URL is refused when, trimmed, it is empty, could be read by
/// Git as an option, names the `ext::` remote helper, or holds a line break
/// or a NUL.
pub open spec fn repository_url_ok(url: Seq<char>) -> bool {
    let t = trim(url);
    &&& t.len() > 0
    &&& t[0] != '-'
    &&& !starts_with(t, "ext::"@)
    &&& !t.contains('\n')
    &&& !t.contains('\r')
    &&& !t.contains('\0')
}

pub fn validate_repository_url(url: &str) -> (res: Result<(), GitError>)
    ensures
        res is Ok <==> repository_url_ok(url@),
        res matches Err(e) ==> e == GitError::InvalidRepositoryUrl,
{
    let t = trim_str(url);
    let ext = chars_of("ext::");
    if t.len() == 0 || t[0] == '-' || starts_with_chars(t.as_slice(), ext.as_slice()) || has_char(
        t.as_slice(),
        '\n',
    ) || has_char(t.as_slice(), '\r') || has_char(t.as_slice(), '\0') {
        return Err(GitError::InvalidRepositoryUrl);
    }
    Ok(())
}

pub open spec fn identifier_char(c: char) -> bool {
    is_alphanumeric(c) || c == '-' || c == '_'
}

/// Internal identifiers (site and deployment ids) name files, so they are
/// non-empty and made of ASCII letters, digits, `-` and `_` only.
pub open spec fn identifier_ok(s: Seq<char>) -> bool {
    s.len() > 0 && forall|i: int| 0 <= i < s.len() ==> identifier_char(#[trigger] s[i])
}

pub fn identifier_chars_ok(s: &[char]) -> (r: bool)
    ensures
        r == identifier_ok(s@),
{
    if s.len() == 0 {
        return false;
    }
    let mut i: usize = 0;
    while i < s.len()
        invariant
            i <= s.len(),
            forall|j: int| 0 <= j < i ==> identifier_char(#[trigger] s@[j]),
        decreases s.len() - i,
    {
        let c = s[i];
        if !(char_is_alphanumeric(c) || c == '-' || c == '_') {
            assert(!identifier_char(s@[i as int]));
            return false;
        }
        i += 1;
    }
    true
}

pub fn validate_identifier(value: &str) -> (res: Result<(), GitError>)
    ensures
        res is Ok <==> identifier_ok(value@),
        res matches Err(e) ==> e == GitError::InvalidIdentifier,
{
    let chars = chars_of(value);
    if identifier_chars_ok(chars.as_slice()) {
        Ok(())
    } else {
        Err(GitError::InvalidIdentifier)
    }
}

pub open spec fn branch_forbidden_char(c: char) -> bool {
    c == '~' || c == '^' || c == ':' || c == '?' || c == '*' || c == '[' || c == '\\' || c == ' '
        || c == '\t' || c == '\n'
}

/// A branch name is refused when it is empty, begins with `-` or `/`, ends
/// with `/`, `.` or `.lock`, holds `//`, `..` or `@{`, or holds one of
/// `~ ^ : ? * [ \`, a space, a tab or a line feed.
pub open spec fn branch_ok(s: Seq<char>) -> bool {
    &&& s.len() > 0
    &&& s[0] != '-'
    &&& s[0] != '/'
    &&& s.last() != '/'
    &&& s.last() != '.'
    &&& !ends_with(s, ".lock"@)
    &&& !contains_seq(s, "//"@)
    &&& !contains_seq(s, ".."@)
    &&& !contains_seq(s, "@{"@)
    &&& forall|i: int| 0 <= i < s.len() ==> !branch_forbidden_char(#[trigger] s[i])
}

fn has_branch_forbidden_char(s: &[char]) -> (r: bool)
    ensures
        r == exists|i: int| 0 <= i < s@.len() && branch_forbidden_char(#[trigger] s@[i]),
{
    let mut i: usize = 0;
    while i < s.len()
        invariant
            i <= s.len(),
            forall|j: int| 0 <= j < i ==> !branch_forbidden_char(#[trigger] s@[j]),
        decreases s.len() - i,
    {
        let c = s[i];
        if c == '~' || c == '^' || c == ':' || c == '?' || c == '*' || c == '[' || c == '\\' || c
            == ' ' || c == '\t' || c == '\n' {
            assert(branch_forbidden_char(s@[i as int]));
            return true;
        }
        i += 1;
    }
    false
}

pub fn branch_chars_ok(s: &[char]) -> (r: bool)
    ensures
        r == branch_ok(s@),
{
    if s.len() == 0 {
        return false;
    }
    let first = s[0];
    let last = s[s.len() - 1];
    if first == '-' || first == '/' || last == '/' || last == '.' {
        return false;
    }
    let lock = chars_of(".lock");
    let slashes = chars_of("//");
    let dots = chars_of("..");
    let at = chars_of("@{");
    if ends_with_chars(s, lock.as_slice()) || contains_chars(s, slashes.as_slice())
        || contains_chars(s, dots.as_slice()) || contains_chars(s, at.as_slice()) {
        return false;
    }
    !has_branch_forbidden_char(s)
}

pub fn validate_branch(value: &str) -> (res: Result<(), GitError>)
    ensures
        res is Ok <==> branch_ok(value@),
        res matches Err(e) ==> e == GitError::InvalidBranch,
{
    let chars = chars_of(value);
    if branch_chars_ok(chars.as_slice()) {
        Ok(())
    } else {
        Err(GitError::InvalidBranch)
    }
}

/// Whether one of the `/`-separated parts of a path is `..`.
pub open spec fn has_parent_part(s: Seq<char>) -> bool {
    exists|i: int| 0 <= i < split(s, '/').len() && #[trigger] split(s, '/')[i] == ".."@
}

/// Whether one of the `/`-separated parts of a path is `..`.
pub fn has_parent_part_chars(s: &[char]) -> (r: bool)
    ensures
        r == has_parent_part(s@),
{
    let parts = split_chars(s, '/');
    let dots = chars_of("..");
    let mut i: usize = 0;
    while i < parts.len()
        invariant
            i <= parts.len(),
            views(parts@) == split(s@, '/'),
            dots@ == ".."@,
            forall|j: int| 0 <= j < i ==> #[trigger] split(s@, '/')[j] != ".."@,
        decreases parts.len() - i,
    {
        assert(parts@[i as int]@ == split(s@, '/')[i as int]);
        if seq_eq(parts[i].as_slice(), dots.as_slice()) {
            return true;
        }
        i += 1;
    }
    false
}

pub open spec fn tree_path_forbidden_char(c: char) -> bool {
    c == '\\' || c == '\0' || c == '\n' || c == '\r' || c == ':'
}

/// A path inside a repository tree is at most 512 bytes long, relative, and
/// holds no `..` part, backslash, NUL, line break or colon.
pub open spec fn tree_path_ok(s: Seq<char>) -> bool {
    &&& utf8_len(s) <= 512
    &&& !(s.len() > 0 && s[0] == '/')
    &&& forall|i: int| 0 <= i < s.len() ==> !tree_path_forbidden_char(#[trigger] s[i])
    &&& !has_parent_part(s)
}

pub fn validate_tree_path(value: &str) -> (res: Result<(), GitError>)
    ensures
        res is Ok <==> tree_path_ok(value@),
        res matches Err(e) ==> e == GitError::InvalidRepositoryPath,
{
    let s = chars_of(value);
    if !utf8_len_at_most(s.as_slice(), 512) {
        return Err(GitError::InvalidRepositoryPath);
    }
    if s.len() > 0 && s[0] == '/' {
        return Err(GitError::InvalidRepositoryPath);
    }
    let mut i: usize = 0;
    while i < s.len()
        invariant
            i <= s.len(),
            s@ == value@,
            forall|j: int| 0 <= j < i ==> !tree_path_forbidden_char(#[trigger] s@[j]),
        decreases s.len() - i,
    {
        let c = s[i];
        if c == '\\' || c == '\0' || c == '\n' || c == '\r' || c == ':' {
            assert(tree_path_forbidden_char(s@[i as int]));
            return Err(GitError::InvalidRepositoryPath);
        }
        i += 1;
    }
    if has_parent_part_chars(s.as_slice()) {
        return Err(GitError::InvalidRepositoryPath);
    }
    Ok(())
}

/// A commit id is 7 to 64 hexadecimal digits.
pub open spec fn sha_ok(s: Seq<char>) -> bool {
    &&& 7 <= utf8_len(s) <= 64
    &&& forall|i: int| 0 <= i < s.len() ==> is_hex_digit(#[trigger] s[i])
}

pub fn validate_sha(value: &str) -> (res: Result<(), GitError>)
    ensures
        res is Ok <==> sha_ok(value@),
        res matches Err(e) ==> e == GitError::InvalidCommitSha,
{
    let s = chars_of(value);
    if utf8_len_at_most(s.as_slice(), 6) || !utf8_len_at_most(s.as_slice(), 64) {
        return Err(GitError::InvalidCommitSha);
    }
    let mut i: usize = 0;
    while i < s.len()
        invariant
            i <= s.len(),
            s@ == value@,
            forall|j: int| 0 <= j < i ==> is_hex_digit(#[trigger] s@[j]),
        decreases s.len() - i,
    {
        if !char_is_hex_digit(s[i]) {
            return Err(GitError::InvalidCommitSha);
        }
        i += 1;
    }
    Ok(())
}

// ---------------------------------------------------------------------------
// Reading Git's output
// ---------------------------------------------------------------------------

pub open spec fn string_view() -> spec_fn(String) -> Seq<char> {
    |s: String| s@
}

pub open spec fn string_views(v: Seq<String>) -> Seq<Seq<char>> {
    v.map_values(string_view())
}

/// Two sequences that hold the same elements as often hold, mapped by `f`,
/// the same elements as often.
pub proof fn lemma_multiset_map<A, B>(a: Seq<A>, b: Seq<A>, f: spec_fn(A) -> B)
    requires
        a.to_multiset() == b.to_multiset(),
    ensures
        a.map_values(f).to_multiset() == b.map_values(f).to_multiset(),
    decreases a.len(),
{
    broadcast use vstd::multiset::group_multiset_axioms;

    assert(a.len() == a.to_multiset().len());
    assert(b.len() == b.to_multiset().len());
    if a.len() == 0 {
        assert(a.map_values(f) =~= Seq::<B>::empty());
        assert(b.map_values(f) =~= Seq::<B>::empty());
    } else {
        let x = a.last();
        assert(a.contains(x)) by {
            assert(a[a.len() - 1] == x);
        }
        assert(b.to_multiset().count(x) > 0);
        assert(b.contains(x));
        let k = choose|k: int| 0 <= k < b.len() && b[k] == x;
        let b2 = b.remove(k);
        assert(b2.to_multiset() =~= b.to_multiset().remove(x));
        let a2 = a.drop_last();
        assert(a2.push(x) =~= a);
        assert(a.to_multiset() =~= a2.to_multiset().insert(x));
        assert(a2.to_multiset() =~= b2.to_multiset());
        lemma_multiset_map(a2, b2, f);
        let ma = a.map_values(f);
        let mb = b.map_values(f);
        assert(ma =~= a2.map_values(f).push(f(x)));
        assert(mb.remove(k) =~= b2.map_values(f));
        assert(mb.remove(k).to_multiset() =~= mb.to_multiset().remove(mb[k]));
        assert(mb[k] == f(x));
        assert(mb.contains(f(x)));
        assert(mb.to_multiset().count(f(x)) > 0);
        assert(ma.to_multiset() =~= a2.map_values(f).to_multiset().insert(f(x)));
        assert(mb.to_multiset() =~= mb.to_multiset().remove(f(x)).insert(f(x)));
    }
}

pub open spec fn option_view(o: Option<String>) -> Option<Seq<char>> {
    match o {
        Some(s) => Some(s@),
        None => None,
    }
}

/// What `git ls-remote --symref <url> HEAD refs/heads/*` says of a remote.
#[derive(Debug, PartialEq, Eq)]
pub struct RemoteInspection {
    pub default_branch: Option<String>,
    pub branches: Vec<String>,
}

/// The branch that a `ref: refs/heads/<name>\t<ref>` line names.
pub open spec fn symref_branch(line: Seq<char>) -> Option<Seq<char>> {
    match strip_prefix(line, "ref: refs/heads/"@) {
        Some(rest) => match split_once(rest, '\t') {
            Some((name, _)) => Some(name),
            None => None,
        },
        None => None,
    }
}

/// The branch that a `<sha>\trefs/heads/<name>` line names.
pub open spec fn head_branch(line: Seq<char>) -> Option<Seq<char>> {
    match split_once(line, '\t') {
        Some((_, reference)) => strip_prefix(reference, "refs/heads/"@),
        None => None,
    }
}

/// The default branch: the one named by the last symbolic-reference line.
pub open spec fn listed_default(ls: Seq<Seq<char>>) -> Option<Seq<char>>
    decreases ls.len(),
{
    if ls.len() == 0 {
        None
    } else {
        match symref_branch(ls.last()) {
            Some(name) => Some(name),
            None => listed_default(ls.drop_last()),
        }
    }
}

/// The branches named by the lines that are not symbolic references, in order.
pub open spec fn listed_branches(ls: Seq<Seq<char>>) -> Seq<Seq<char>>
    decreases ls.len(),
{
    if ls.len() == 0 {
        Seq::<Seq<char>>::empty()
    } else {
        let rest = listed_branches(ls.drop_last());
        if symref_branch(ls.last()) is Some {
            rest
        } else {
            match head_branch(ls.last()) {
                Some(b) => rest.push(b),
                None => rest,
            }
        }
    }
}

/// Strictly increasing in code-point order: sorted, with no name twice.
pub open spec fn strictly_sorted(s: Seq<Seq<char>>) -> bool {
    forall|i: int, j: int| 0 <= i < j < s.len() ==> lex_lt(s[i], s[j])
}

pub open spec fn sorted(s: Seq<Seq<char>>) -> bool {
    forall|i: int, j: int| 0 <= i < j < s.len() ==> lex_le(s[i], s[j])
}

/// The same names, each once.
pub open spec fn same_names(a: Seq<Seq<char>>, b: Seq<Seq<char>>) -> bool {
    forall|x: Seq<char>| a.contains(x) <==> b.contains(x)
}

/// Names in strictly increasing order hold no name twice: the branches that
/// a remote listing gives are each listed once.
pub proof fn lemma_strictly_sorted_no_duplicates(s: Seq<Seq<char>>)
    requires
        strictly_sorted(s),
    ensures
        s.no_duplicates(),
{
    assert forall|i: int, j: int| 0 <= i < s.len() && 0 <= j < s.len() && i != j implies s[i]
        != s[j] by {
        if i < j {
            assert(lex_lt(s[i], s[j]));
        } else {
            assert(lex_lt(s[j], s[i]));
        }
    }
}

/// Sorts strings in code-point order.
pub fn sort_strings(v: Vec<String>) -> (res: Vec<String>)
    ensures
        sorted(string_views(res@)),
        same_names(string_views(res@), string_views(v@)),
        string_views(res@).to_multiset() == string_views(v@).to_multiset(),
        res@.len() == v@.len(),
{
    let ghost orig = v@;
    let res = sort_by_key(v);
    proof {
        lemma_multiset_map(res@, orig, string_view());
        assert(res@.len() == res@.to_multiset().len());
        assert(orig.len() == orig.to_multiset().len());
        let a = string_views(res@);
        let b = string_views(orig);
        assert forall|i: int, j: int| 0 <= i < j < a.len() implies lex_le(a[i], a[j]) by {
            assert(key_le(res@[i].sort_key(), res@[j].sort_key()));
        }
        assert forall|x: Seq<char>| a.contains(x) <==> b.contains(x) by {
            if a.contains(x) {
                let i = choose|i: int| 0 <= i < a.len() && a[i] == x;
                assert(res@.contains(res@[i]));
                assert(res@.to_multiset().count(res@[i]) > 0);
                assert(orig.contains(res@[i]));
                let j = choose|j: int| 0 <= j < orig.len() && orig[j] == res@[i];
                assert(b[j] == x);
            }
            if b.contains(x) {
                let j = choose|j: int| 0 <= j < b.len() && b[j] == x;
                assert(orig.contains(orig[j]));
                assert(orig.to_multiset().count(orig[j]) > 0);
                assert(res@.contains(orig[j]));
                let i = choose|i: int| 0 <= i < res@.len() && res@[i] == orig[j];
                assert(a[i] == x);
            }
        }
    }
    res
}

/// Removes repeated names from a sorted list.
pub fn dedup_sorted(v: Vec<String>) -> (res: Vec<String>)
    requires
        sorted(string_views(v@)),
    ensures
        strictly_sorted(string_views(res@)),
        same_names(string_views(res@), string_views(v@)),
{
    let ghost vs = string_views(v@);
    let mut out: Vec<String> = Vec::new();
    let mut i: usize = 0;
    while i < v.len()
        invariant
            i <= v.len(),
            vs == string_views(v@),
            sorted(vs),
            strictly_sorted(string_views(out@)),
            same_names(string_views(out@), vs.take(i as int)),
            i > 0 ==> out@.len() > 0 && out@.last()@ == vs[i - 1],
            i == 0 ==> out@.len() == 0,
        decreases v.len() - i,
    {
        let x = v[i].clone();
        let ghost os = string_views(out@);
        let push = if out.len() == 0 {
            true
        } else {
            let last = &out[out.len() - 1];
            !str_eq(last.as_str(), x.as_str())
        };
        proof {
            assert(vs.take(i as int + 1) == vs.take(i as int).push(vs[i as int]));
            assert(x@ == vs[i as int]);
        }
        if push {
            let ghost before = out@;
            out.push(x);
            proof {
                let ns = string_views(out@);
                assert(ns =~= os.push(x@));
                if i > 0 {
                    assert(lex_le(vs[i - 1], vs[i as int]));
                    assert forall|a: int, b: int| 0 <= a < b < ns.len() implies lex_lt(
                        ns[a],
                        ns[b],
                    ) by {
                        if b == ns.len() - 1 {
                            let last = os.last();
                            assert(last == vs[i - 1]);
                            if a < os.len() - 1 {
                                assert(lex_lt(os[a], last));
                                lemma_lex_transitive(os[a], last, x@);
                                if os[a] == x@ {
                                    lemma_lex_antisymmetric(last, x@);
                                }
                            }
                        }
                    }
                }
                assert forall|y: Seq<char>| ns.contains(y) <==> vs.take(i as int + 1).contains(
                    y,
                ) by {
                    if ns.contains(y) {
                        let k = choose|k: int| 0 <= k < ns.len() && ns[k] == y;
                        if k < os.len() {
                            assert(os.contains(y));
                            assert(vs.take(i as int).contains(y));
                            let m = choose|m: int|
                                0 <= m < vs.take(i as int).len() && #[trigger] vs.take(i as int)[m] == y;
                            assert(vs.take(i as int + 1)[m] == y);
                        } else {
                            assert(vs.take(i as int + 1)[i as int] == y);
                        }
                    }
                    if vs.take(i as int + 1).contains(y) {
                        let m = choose|m: int|
                            0 <= m < vs.take(i as int + 1).len() && #[trigger] vs.take(i as int + 1)[m] == y;
                        if m < i {
                            assert(vs.take(i as int)[m] == y);
                            assert(vs.take(i as int).contains(y));
                            assert(os.contains(y));
                            let k = choose|k: int| 0 <= k < os.len() && os[k] == y;
                            assert(ns[k] == y);
                        } else {
                            assert(ns[ns.len() - 1] == y);
                        }
                    }
                }
            }
        } else {
            proof {
                assert(os.last() == x@);
                assert forall|y: Seq<char>| os.contains(y) <==> vs.take(i as int + 1).contains(
                    y,
                ) by {
                    if os.contains(y) {
                        assert(vs.take(i as int).contains(y));
                        let m = choose|m: int|
                            0 <= m < vs.take(i as int).len() && #[trigger] vs.take(i as int)[m] == y;
                        assert(vs.take(i as int + 1)[m] == y);
                    }
                    if vs.take(i as int + 1).contains(y) {
                        let m = choose|m: int|
                            0 <= m < vs.take(i as int + 1).len() && #[trigger] vs.take(i as int + 1)[m] == y;
                        if m < i {
                            assert(vs.take(i as int)[m] == y);
                            assert(vs.take(i as int).contains(y));
                        } else {
                            assert(os[os.len() - 1] == y);
                        }
                    }
                }
            }
        }
        i += 1;
    }
    assert(vs.take(v.len() as int) == vs);
    out
}

pub open spec fn inspection_of(output: Seq<char>, r: RemoteInspection) -> bool {
    let ls = lines(output);
    &&& option_view(r.default_branch) == listed_default(ls)
    &&& strictly_sorted(string_views(r.branches@))
    &&& same_names(string_views(r.branches@), listed_branches(ls))
}

fn symref_branch_chars(line: &[char]) -> (r: Option<Vec<char>>)
    ensures
        match r {
            Some(n) => symref_branch(line@) == Some(n@),
            None => symref_branch(line@) is None,
        },
{
    let prefix = chars_of("ref: refs/heads/");
    if !starts_with_chars(line, prefix.as_slice()) {
        return None;
    }
    let rest = copy_range(line, prefix.len(), line.len());
    match split_once_chars(rest.as_slice(), '\t') {
        Some((name, _)) => Some(name),
        None => None,
    }
}

fn head_branch_chars(line: &[char]) -> (r: Option<Vec<char>>)
    ensures
        match r {
            Some(n) => head_branch(line@) == Some(n@),
            None => head_branch(line@) is None,
        },
{
    match split_once_chars(line, '\t') {
        Some((_, reference)) => {
            let prefix = chars_of("refs/heads/");
            if starts_with_chars(reference.as_slice(), prefix.as_slice()) {
                Some(copy_range(reference.as_slice(), prefix.len(), reference.len()))
            } else {
                None
            }
        },
        None => None,
    }
}

/// Reads the output of `git ls-remote --symref`: the default branch, and the
/// branches in code-point order, each once.
pub fn parse_ls_remote(output: &str) -> (res: Result<RemoteInspection, GitError>)
    ensures
        res matches Ok(r) && inspection_of(output@, r),
{
    let chars = chars_of(output);
    let ls = lines_chars(chars.as_slice());
    let ghost lv = views(ls@);
    let mut default_branch: Option<String> = None;
    let mut branches: Vec<String> = Vec::new();
    let mut i: usize = 0;
    while i < ls.len()
        invariant
            i <= ls.len(),
            lv == views(ls@),
            option_view(default_branch) == listed_default(lv.take(i as int)),
            string_views(branches@) == listed_branches(lv.take(i as int)),
        decreases ls.len() - i,
    {
        let line = &ls[i];
        proof {
            assert(line@ == lv[i as int]);
            assert(lv.take(i as int + 1).drop_last() == lv.take(i as int));
            assert(lv.take(i as int + 1).last() == lv[i as int]);
        }
        match symref_branch_chars(line.as_slice()) {
            Some(name) => {
                default_branch = Some(string_of(name.as_slice()));
            },
            None => {
                match head_branch_chars(line.as_slice()) {
                    Some(b) => {
                        let ghost before = branches@;
                        let s = string_of(b.as_slice());
                        branches.push(s);
                        proof {
                            assert(string_views(branches@) =~= string_views(before).push(b@));
                        }
                    },
                    None => {},
                }
            },
        }
        i += 1;
    }
    proof {
        assert(lv.take(ls@.len() as int) == lv);
        assert(lv == lines(output@));
    }
    let sorted_branches = sort_strings(branches);
    let unique = dedup_sorted(sorted_branches);
    Ok(RemoteInspection { default_branch, branches: unique })
}


/// What `git show -s --format=%H%x00%s%x00%an%x00%ae%x00%aI` says of a commit.
#[derive(Debug, PartialEq, Eq)]
pub struct CommitMetadata {
    pub sha: String,
    pub message: String,
    pub author_name: String,
    pub author_email: String,
    pub authored_at: String,
}

/// The five NUL-separated fields of the commit output, once trailing
/// whitespace is removed; any other number of fields is refused.
pub open spec fn commit_fields(output: Seq<char>) -> Seq<Seq<char>> {
    split(trim_end(output), '\0')
}

pub fn parse_commit(output: &str) -> (res: Result<CommitMetadata, GitError>)
    ensures
        match res {
            Ok(c) => {
                let f = commit_fields(output@);
                &&& f.len() == 5
                &&& c.sha@ == f[0]
                &&& c.message@ == f[1]
                &&& c.author_name@ == f[2]
                &&& c.author_email@ == f[3]
                &&& c.authored_at@ == f[4]
            },
            Err(e) => commit_fields(output@).len() != 5 && e == GitError::UnexpectedCommitMetadata,
        },
{
    let chars = chars_of(output);
    let trimmed = trim_end_chars(chars.as_slice());
    let fields = split_chars(trimmed.as_slice(), '\0');
    if fields.len() != 5 {
        return Err(GitError::UnexpectedCommitMetadata);
    }
    proof {
        assert(views(fields@) == commit_fields(output@));
        assert(fields@[0]@ == commit_fields(output@)[0]);
        assert(fields@[1]@ == commit_fields(output@)[1]);
        assert(fields@[2]@ == commit_fields(output@)[2]);
        assert(fields@[3]@ == commit_fields(output@)[3]);
        assert(fields@[4]@ == commit_fields(output@)[4]);
    }
    Ok(
        CommitMetadata {
            sha: string_of(fields[0].as_slice()),
            message: string_of(fields[1].as_slice()),
            author_name: string_of(fields[2].as_slice()),
            author_email: string_of(fields[3].as_slice()),
            authored_at: string_of(fields[4].as_slice()),
        },
    )
}

// ---------------------------------------------------------------------------
// Shell quoting
// ---------------------------------------------------------------------------

/// A character as it stands inside single quotes: a quote closes the
/// quoting, adds an escaped quote and reopens it.
pub open spec fn quote_piece(c: char) -> Seq<char> {
    if c == '\'' {
        seq!['\'', '\\', '\'', '\'']
    } else {
        seq![c]
    }
}

pub open spec fn escape_quotes(s: Seq<char>) -> Seq<char>
    decreases s.len(),
{
    if s.len() == 0 {
        Seq::<char>::empty()
    } else {
        quote_piece(s[0]) + escape_quotes(s.drop_first())
    }
}

/// The single-quoted shell word for a path.
pub open spec fn shell_quoted(s: Seq<char>) -> Seq<char> {
    seq!['\''] + escape_quotes(s) + seq!['\'']
}

pub proof fn lemma_escape_push(s: Seq<char>, c: char)
    ensures
        escape_quotes(s.push(c)) == escape_quotes(s) + quote_piece(c),
    decreases s.len(),
{
    if s.len() == 0 {
        assert(s.push(c).drop_first() =~= Seq::<char>::empty());
        assert(s.push(c)[0] == c);
        assert(escape_quotes(Seq::<char>::empty()) == Seq::<char>::empty());
        assert(escape_quotes(s.push(c)) == quote_piece(c) + escape_quotes(s.push(c).drop_first()));
        assert(escape_quotes(s.push(c)) =~= quote_piece(c));
        assert(s =~= Seq::<char>::empty());
    } else {
        lemma_escape_push(s.drop_first(), c);
        assert(s.push(c).drop_first() =~= s.drop_first().push(c));
        assert(escape_quotes(s.push(c)) =~= escape_quotes(s) + quote_piece(c));
    }
}

/// How a POSIX shell reads a word, inside single quotes.
pub open spec fn unquote_in(s: Seq<char>) -> Seq<char>
    decreases s.len(), 0int,
{
    if s.len() == 0 {
        Seq::<char>::empty()
    } else if s[0] == '\'' {
        unquote_out(s.drop_first())
    } else {
        seq![s[0]] + unquote_in(s.drop_first())
    }
}

/// How a POSIX shell reads a word, outside quotes: a single quote opens a
/// quoted part and a backslash takes the next character as it is.
pub open spec fn unquote_out(s: Seq<char>) -> Seq<char>
    decreases s.len(), 1int,
{
    if s.len() == 0 {
        Seq::<char>::empty()
    } else if s[0] == '\'' {
        unquote_in(s.drop_first())
    } else if s[0] == '\\' && s.len() >= 2 {
        seq![s[1]] + unquote_out(s.skip(2))
    } else {
        seq![s[0]] + unquote_out(s.drop_first())
    }
}

proof fn lemma_unquote_escaped(p: Seq<char>, t: Seq<char>)
    ensures
        unquote_in(escape_quotes(p) + t) == p + unquote_in(t),
    decreases p.len(),
{
    if p.len() == 0 {
        assert(escape_quotes(p) + t =~= t);
        assert(p + unquote_in(t) =~= unquote_in(t));
    } else {
        let rest = escape_quotes(p.drop_first()) + t;
        lemma_unquote_escaped(p.drop_first(), t);
        let w = escape_quotes(p) + t;
        assert(w =~= quote_piece(p[0]) + rest);
        if p[0] == '\'' {
            let w1 = w.drop_first();
            assert(w1 =~= seq!['\\', '\'', '\''] + rest);
            assert(w1.skip(2) =~= seq!['\''] + rest);
            assert((seq!['\''] + rest).drop_first() =~= rest);
            assert(unquote_in(w) == unquote_out(w1));
            assert(unquote_out(w1) == seq!['\''] + unquote_out(w1.skip(2)));
            assert(unquote_out(w1.skip(2)) == unquote_in(rest));
        } else {
            assert(w.drop_first() =~= rest);
        }
        assert(p =~= seq![p[0]] + p.drop_first());
        assert(unquote_in(w) =~= p + unquote_in(t));
    }
}

/// A quoted path reads back, in a POSIX shell, as the path itself.
pub proof fn lemma_shell_quote_reads_back(p: Seq<char>)
    ensures
        unquote_out(shell_quoted(p)) == p,
{
    let q = shell_quoted(p);
    let tail = seq!['\''];
    assert(q.drop_first() =~= escape_quotes(p) + tail);
    lemma_unquote_escaped(p, tail);
    assert(tail.drop_first() =~= Seq::<char>::empty());
    assert(unquote_in(tail) == unquote_out(Seq::<char>::empty()));
    assert(p + Seq::<char>::empty() =~= p);
}

/// Quotes a path as one single-quoted shell word.
pub fn shell_quote(path: &str) -> (res: String)
    ensures
        res@ == shell_quoted(path@),
{
    let chars = chars_of(path);
    let mut res = String::new();
    push_char(&mut res, '\'');
    let mut i: usize = 0;
    while i < chars.len()
        invariant
            i <= chars.len(),
            chars@ == path@,
            res@ == seq!['\''] + escape_quotes(chars@.take(i as int)),
        decreases chars.len() - i,
    {
        let c = chars[i];
        let ghost before = res@;
        if c == '\'' {
            push_char(&mut res, '\'');
            push_char(&mut res, '\\');
            push_char(&mut res, '\'');
            push_char(&mut res, '\'');
        } else {
            push_char(&mut res, c);
        }
        proof {
            assert(chars@.take(i as int + 1) == chars@.take(i as int).push(c));
            lemma_escape_push(chars@.take(i as int), c);
            assert(res@ =~= seq!['\''] + escape_quotes(chars@.take(i as int + 1)));
        }
        i += 1;
    }
    push_char(&mut res, '\'');
    assert(chars@.take(chars.len() as int) == chars@);
    res
}

// ---------------------------------------------------------------------------
// Branch and tree listings
// ---------------------------------------------------------------------------

pub open spec fn nonempty_line() -> spec_fn(Seq<char>) -> bool {
    |l: Seq<char>| l.len() > 0
}

/// The branch names of `git for-each-ref --format=%(refname:strip=3)`: its
/// non-empty lines.
pub open spec fn listed_refs(output: Seq<char>) -> Seq<Seq<char>> {
    lines(output).filter(nonempty_line())
}

/// Reads the cached branches, sorted in code-point order.
pub fn parse_branch_list(output: &str) -> (res: Vec<String>)
    ensures
        sorted(string_views(res@)),
        string_views(res@).to_multiset() == listed_refs(output@).to_multiset(),
{
    let chars = chars_of(output);
    let ls = lines_chars(chars.as_slice());
    let ghost lv = views(ls@);
    let mut names: Vec<String> = Vec::new();
    let mut i: usize = 0;
    while i < ls.len()
        invariant
            i <= ls.len(),
            lv == views(ls@),
            string_views(names@) == lv.take(i as int).filter(nonempty_line()),
        decreases ls.len() - i,
    {
        let line = &ls[i];
        proof {
            assert(line@ == lv[i as int]);
            assert(lv.take(i as int + 1) == lv.take(i as int).push(lv[i as int]));
            lv.take(i as int).lemma_filter_push(lv[i as int], nonempty_line());
        }
        if line.len() > 0 {
            let ghost before = names@;
            let s = string_of(line.as_slice());
            names.push(s);
            proof {
                assert(string_views(names@) =~= string_views(before).push(line@));
            }
        }
        i += 1;
    }
    proof {
        assert(lv.take(ls@.len() as int) == lv);
    }
    sort_strings(names)
}

/// One entry of a repository tree listing.
#[derive(Debug, PartialEq, Eq)]
pub struct RepositoryEntry {
    pub name: String,
    pub path: String,
    pub kind: String,
}

pub open spec fn entry_view() -> spec_fn(RepositoryEntry) -> (Seq<char>, Seq<char>, Seq<char>) {
    |e: RepositoryEntry| (e.name@, e.path@, e.kind@)
}

impl SortKey for RepositoryEntry {
    /// Directories first, then by name.
    open spec fn sort_key(&self) -> (bool, Seq<char>) {
        (self.kind@ != "tree"@, self.name@)
    }

    fn rank(&self) -> (r: bool) {
        let tree = chars_of("tree");
        let kind = chars_of(self.kind.as_str());
        !seq_eq(kind.as_slice(), tree.as_slice())
    }

    fn name_chars(&self) -> (r: Vec<char>) {
        chars_of(self.name.as_str())
    }
}

/// The directory whose entries are listed, as it prefixes their paths.
pub open spec fn tree_prefix(path: Seq<char>) -> Seq<char> {
    if path.len() == 0 || path == "."@ {
        Seq::<char>::empty()
    } else {
        path
    }
}

/// The entry that a `<type>\t<name>` line of `git ls-tree` describes.
pub open spec fn tree_entry(line: Seq<char>, prefix: Seq<char>) -> Option<
    (Seq<char>, Seq<char>, Seq<char>),
> {
    match split_once(line, '\t') {
        Some((kind, name)) => Some(
            (name, if prefix.len() == 0 {
                name
            } else {
                prefix + seq!['/'] + name
            }, kind),
        ),
        None => None,
    }
}

pub open spec fn listed_entries(ls: Seq<Seq<char>>, prefix: Seq<char>) -> Seq<
    (Seq<char>, Seq<char>, Seq<char>),
>
    decreases ls.len(),
{
    if ls.len() == 0 {
        Seq::empty()
    } else {
        let rest = listed_entries(ls.drop_last(), prefix);
        match tree_entry(ls.last(), prefix) {
            Some(e) => rest.push(e),
            None => rest,
        }
    }
}

fn tree_prefix_chars(path: &str) -> (r: Vec<char>)
    ensures
        r@ == tree_prefix(path@),
{
    let p = chars_of(path);
    let dot = chars_of(".");
    if p.len() == 0 || seq_eq(p.as_slice(), dot.as_slice()) {
        Vec::new()
    } else {
        p
    }
}

/// Reads the output of `git ls-tree --format=%(objecttype)%x09%(path)` for
/// the directory `path`: directories first, then by name.
pub fn parse_tree_listing(output: &str, path: &str) -> (res: Vec<RepositoryEntry>)
    ensures
        sorted_by_key(res@),
        res@.map_values(entry_view()).to_multiset() == listed_entries(
            lines(output@),
            tree_prefix(path@),
        ).to_multiset(),
{
    let prefix = tree_prefix_chars(path);
    let chars = chars_of(output);
    let ls = lines_chars(chars.as_slice());
    let ghost lv = views(ls@);
    let mut entries: Vec<RepositoryEntry> = Vec::new();
    let mut i: usize = 0;
    while i < ls.len()
        invariant
            i <= ls.len(),
            lv == views(ls@),
            entries@.map_values(entry_view()) == listed_entries(lv.take(i as int), prefix@),
        decreases ls.len() - i,
    {
        let line = &ls[i];
        proof {
            assert(line@ == lv[i as int]);
            assert(lv.take(i as int + 1).drop_last() == lv.take(i as int));
            assert(lv.take(i as int + 1).last() == lv[i as int]);
        }
        match split_once_chars(line.as_slice(), '\t') {
            Some((kind, name)) => {
                let mut full: Vec<char> = Vec::new();
                if prefix.len() == 0 {
                    full = name.clone();
                } else {
                    full = prefix.clone();
                    full.push('/');
                    let mut k: usize = 0;
                    let ghost base = full@;
                    while k < name.len()
                        invariant
                            k <= name.len(),
                            full@ == base + name@.take(k as int),
                        decreases name.len() - k,
                    {
                        full.push(name[k]);
                        assert(name@.take(k as int + 1) == name@.take(k as int).push(name@[k as int]));
                        k += 1;
                    }
                    assert(name@.take(name.len() as int) == name@);
                    assert(full@ =~= prefix@ + seq!['/'] + name@);
                }
                let entry = RepositoryEntry {
                    name: string_of(name.as_slice()),
                    path: string_of(full.as_slice()),
                    kind: string_of(kind.as_slice()),
                };
                let ghost before = entries@;
                entries.push(entry);
                proof {
                    assert(entries@.map_values(entry_view()) =~= before.map_values(entry_view()).push(
                        (name@, full@, kind@),
                    ));
                }
            },
            None => {},
        }
        i += 1;
    }
    proof {
        assert(lv.take(ls@.len() as int) == lv);
    }
    let ghost unsorted = entries@;
    let res = sort_by_key(entries);
    proof {
        lemma_multiset_map(res@, unsorted, entry_view());
    }
    res
}


// ---------------------------------------------------------------------------
// Paths of the cache
// ---------------------------------------------------------------------------

/// `Path::join` of a relative name: the name after the base, with a `/`
/// between them unless the base is empty or already ends with one.
pub open spec fn join_path(base: Seq<char>, name: Seq<char>) -> Seq<char> {
    if base.len() == 0 {
        name
    } else if base.last() == '/' {
        base + name
    } else {
        base + seq!['/'] + name
    }
}

pub fn join_path_str(base: &str, name: &str) -> (res: String)
    ensures
        res@ == join_path(base@, name@),
{
    let b = chars_of(base);
    if b.len() == 0 {
        return string_from(name);
    }
    let mut res = string_from(base);
    if b[b.len() - 1] != '/' {
        push_char(&mut res, '/');
    }
    append_str(&mut res, name);
    res
}

/// Concatenates two strings.
pub fn concat(a: &str, b: &str) -> (res: String)
    ensures
        res@ == a@ + b@,
{
    let mut res = string_from(a);
    append_str(&mut res, b);
    res
}

/// Where the repository cache keeps its bare repositories, its build
/// worktrees and its SSH keys, and how long a Git command may take.
#[derive(Clone, Debug)]
pub struct GitService {
    repositories: String,
    builds: String,
    keys: String,
    timeout_secs: u64,
}

/// The worktree of one deployment, checked out from a site's repository.
#[derive(Debug)]
pub struct Worktree {
    path: String,
    repository: String,
    timeout_secs: u64,
}

impl Worktree {
    pub closed spec fn path_view(&self) -> Seq<char> {
        self.path@
    }

    pub closed spec fn repository_view(&self) -> Seq<char> {
        self.repository@
    }

    pub closed spec fn timeout_view(&self) -> u64 {
        self.timeout_secs
    }

    pub fn path(&self) -> (r: &str)
        ensures
            r@ == self.path_view(),
    {
        self.path.as_str()
    }

    pub fn repository(&self) -> (r: &str)
        ensures
            r@ == self.repository_view(),
    {
        self.repository.as_str()
    }

    pub fn timeout_secs(&self) -> (r: u64)
        ensures
            r == self.timeout_view(),
    {
        self.timeout_secs
    }
}

impl GitService {
    pub closed spec fn repositories_view(&self) -> Seq<char> {
        self.repositories@
    }

    pub closed spec fn builds_view(&self) -> Seq<char> {
        self.builds@
    }

    pub closed spec fn keys_view(&self) -> Seq<char> {
        self.keys@
    }

    pub closed spec fn timeout_view(&self) -> u64 {
        self.timeout_secs
    }

    /// The cache under a data directory: `repositories`, `builds` and `keys`
    /// inside it, and two minutes for a Git command.
    pub fn new(data_dir: &str) -> (res: Self)
        ensures
            res.repositories_view() == join_path(data_dir@, "repositories"@),
            res.builds_view() == join_path(data_dir@, "builds"@),
            res.keys_view() == join_path(data_dir@, "keys"@),
            res.timeout_view() == 120,
    {
        GitService {
            repositories: join_path_str(data_dir, "repositories"),
            builds: join_path_str(data_dir, "builds"),
            keys: join_path_str(data_dir, "keys"),
            timeout_secs: 120,
        }
    }

    pub fn repositories(&self) -> (r: &str)
        ensures
            r@ == self.repositories_view(),
    {
        self.repositories.as_str()
    }

    pub fn builds(&self) -> (r: &str)
        ensures
            r@ == self.builds_view(),
    {
        self.builds.as_str()
    }

    pub fn keys(&self) -> (r: &str)
        ensures
            r@ == self.keys_view(),
    {
        self.keys.as_str()
    }

    pub fn timeout_secs(&self) -> (r: u64)
        ensures
            r == self.timeout_view(),
    {
        self.timeout_secs
    }

    /// The bare repository of a site: `<site>.git` in the repository cache.
    pub fn repository_path(&self, site_id: &str) -> (res: String)
        ensures
            res@ == join_path(self.repositories_view(), site_id@ + ".git"@),
    {
        let name = concat(site_id, ".git");
        join_path_str(self.repositories.as_str(), name.as_str())
    }

    /// The hidden directory a new cache is built in before it is renamed into
    /// place: `.<site>-<nonce>.tmp`.
    pub fn temporary_repository_path(&self, site_id: &str, nonce: &str) -> (res: String)
        ensures
            res@ == join_path(
                self.repositories_view(),
                seq!['.'] + site_id@ + seq!['-'] + nonce@ + ".tmp"@,
            ),
    {
        let mut name = String::new();
        push_char(&mut name, '.');
        append_str(&mut name, site_id);
        push_char(&mut name, '-');
        append_str(&mut name, nonce);
        append_str(&mut name, ".tmp");
        join_path_str(self.repositories.as_str(), name.as_str())
    }

    /// The private deploy key of a site.
    pub fn deploy_key_path(&self, site_id: &str) -> (res: String)
        ensures
            res@ == join_path(self.keys_view(), site_id@),
    {
        join_path_str(self.keys.as_str(), site_id)
    }

    /// The public half of a site's deploy key (`Path::with_extension("pub")`
    /// of the private key, for a site id, which holds no `.`).
    pub fn public_key_path(&self, site_id: &str) -> (res: String)
        requires
            identifier_ok(site_id@),
        ensures
            res@ == join_path(self.keys_view(), site_id@ + ".pub"@),
    {
        let name = concat(site_id, ".pub");
        join_path_str(self.keys.as_str(), name.as_str())
    }

    /// The SSH known-hosts file of the cache.
    pub fn known_hosts_path(&self) -> (res: String)
        ensures
            res@ == join_path(self.keys_view(), "known_hosts"@),
    {
        join_path_str(self.keys.as_str(), "known_hosts")
    }

    /// The worktree directory of a deployment.
    pub fn build_path(&self, deployment_id: &str) -> (res: String)
        ensures
            res@ == join_path(self.builds_view(), deployment_id@),
    {
        join_path_str(self.builds.as_str(), deployment_id)
    }

    /// The worktree a deployment of a commit gets, once its identifiers and
    /// the commit id are accepted.
    pub fn plan_worktree(&self, site_id: &str, deployment_id: &str, commit_sha: &str) -> (res:
        Result<Worktree, GitError>)
        ensures
            match res {
                Ok(w) => {
                    &&& identifier_ok(site_id@)
                    &&& identifier_ok(deployment_id@)
                    &&& sha_ok(commit_sha@)
                    &&& w.path_view() == join_path(self.builds_view(), deployment_id@)
                    &&& w.repository_view() == join_path(
                        self.repositories_view(),
                        site_id@ + ".git"@,
                    )
                    &&& w.timeout_view() == self.timeout_view()
                },
                Err(e) => {
                    ||| !identifier_ok(site_id@) && e == GitError::InvalidIdentifier
                    ||| identifier_ok(site_id@) && !identifier_ok(deployment_id@) && e
                        == GitError::InvalidIdentifier
                    ||| identifier_ok(site_id@) && identifier_ok(deployment_id@) && !sha_ok(
                        commit_sha@,
                    ) && e == GitError::InvalidCommitSha
                },
            },
    {
        validate_identifier(site_id)?;
        validate_identifier(deployment_id)?;
        validate_sha(commit_sha)?;
        Ok(
            Worktree {
                path: self.build_path(deployment_id),
                repository: self.repository_path(site_id),
                timeout_secs: self.timeout_secs,
            },
        )
    }
}

// ---------------------------------------------------------------------------
// Git and ssh-keygen arguments
// ---------------------------------------------------------------------------

/// The revision whose commit a branch resolves to.
pub fn commit_revision(branch: &str) -> (res: String)
    ensures
        res@ == "refs/remotes/origin/"@ + branch@ + "^{commit}"@,
{
    let mut r = string_from("refs/remotes/origin/");
    append_str(&mut r, branch);
    append_str(&mut r, "^{commit}");
    r
}

/// The revision whose tree `git ls-tree` lists: the branch itself for the
/// repository root (an empty path or `.`), else `<branch>:<path>`.
pub fn tree_revision(branch: &str, path: &str) -> (res: String)
    ensures
        res@ == if tree_prefix(path@).len() == 0 {
            "refs/remotes/origin/"@ + branch@
        } else {
            "refs/remotes/origin/"@ + branch@ + seq![':'] + path@
        },
{
    let mut r = string_from("refs/remotes/origin/");
    append_str(&mut r, branch);
    let prefix = tree_prefix_chars(path);
    if prefix.len() > 0 {
        push_char(&mut r, ':');
        append_str(&mut r, path);
    }
    r
}

/// The `--git-dir` arguments followed by the command's own.
fn with_git_dir(repository: &str, rest: Vec<String>) -> (res: Vec<String>)
    ensures
        string_views(res@) == seq!["--git-dir"@, repository@] + string_views(rest@),
{
    let mut res: Vec<String> = Vec::new();
    res.push(string_from("--git-dir"));
    res.push(string_from(repository));
    let mut i: usize = 0;
    while i < rest.len()
        invariant
            i <= rest.len(),
            string_views(res@) == seq!["--git-dir"@, repository@] + string_views(rest@).take(
                i as int,
            ),
        decreases rest.len() - i,
    {
        let ghost before = res@;
        res.push(rest[i].clone());
        proof {
            assert(string_views(res@) =~= string_views(before).push(rest@[i as int]@));
            assert(string_views(rest@).take(i as int + 1) =~= string_views(rest@).take(
                i as int,
            ).push(rest@[i as int]@));
        }
        i += 1;
    }
    assert(string_views(rest@).take(rest@.len() as int) == string_views(rest@));
    res
}

/// `git ls-remote --symref <url> HEAD refs/heads/*`.
pub fn ls_remote_args(repository_url: &str) -> (res: Vec<String>)
    ensures
        string_views(res@) == seq![
            "ls-remote"@,
            "--symref"@,
            repository_url@,
            "HEAD"@,
            "refs/heads/*"@,
        ],
{
    let res = vec![
        string_from("ls-remote"),
        string_from("--symref"),
        string_from(repository_url),
        string_from("HEAD"),
        string_from("refs/heads/*"),
    ];
    assert(string_views(res@) =~= seq![
        "ls-remote"@,
        "--symref"@,
        repository_url@,
        "HEAD"@,
        "refs/heads/*"@,
    ]);
    res
}

/// `git init --bare <path>`.
pub fn init_bare_args(path: &str) -> (res: Vec<String>)
    ensures
        string_views(res@) == seq!["init"@, "--bare"@, path@],
{
    let res = vec![string_from("init"), string_from("--bare"), string_from(path)];
    assert(string_views(res@) =~= seq!["init"@, "--bare"@, path@]);
    res
}

/// `git --git-dir <repository> remote add origin <url>`.
pub fn remote_add_args(repository: &str, repository_url: &str) -> (res: Vec<String>)
    ensures
        string_views(res@) == seq![
            "--git-dir"@,
            repository@,
            "remote"@,
            "add"@,
            "origin"@,
            repository_url@,
        ],
{
    let rest = vec![
        string_from("remote"),
        string_from("add"),
        string_from("origin"),
        string_from(repository_url),
    ];
    let res = with_git_dir(repository, rest);
    assert(string_views(res@) =~= seq![
        "--git-dir"@,
        repository@,
        "remote"@,
        "add"@,
        "origin"@,
        repository_url@,
    ]);
    res
}

/// `git --git-dir <repository> remote get-url origin`.
pub fn remote_get_url_args(repository: &str) -> (res: Vec<String>)
    ensures
        string_views(res@) == seq![
            "--git-dir"@,
            repository@,
            "remote"@,
            "get-url"@,
            "origin"@,
        ],
{
    let rest = vec![string_from("remote"), string_from("get-url"), string_from("origin")];
    let res = with_git_dir(repository, rest);
    assert(string_views(res@) =~= seq![
        "--git-dir"@,
        repository@,
        "remote"@,
        "get-url"@,
        "origin"@,
    ]);
    res
}

/// `git --git-dir <repository> remote set-url origin <url>`.
pub fn remote_set_url_args(repository: &str, repository_url: &str) -> (res: Vec<String>)
    ensures
        string_views(res@) == seq![
            "--git-dir"@,
            repository@,
            "remote"@,
            "set-url"@,
            "origin"@,
            repository_url@,
        ],
{
    let rest = vec![
        string_from("remote"),
        string_from("set-url"),
        string_from("origin"),
        string_from(repository_url),
    ];
    let res = with_git_dir(repository, rest);
    assert(string_views(res@) =~= seq![
        "--git-dir"@,
        repository@,
        "remote"@,
        "set-url"@,
        "origin"@,
        repository_url@,
    ]);
    res
}

/// Whether the cache's `origin` (as `git remote get-url` printed it) must be
/// pointed at the site's URL.
pub fn remote_needs_update(current_url_output: &str, repository_url: &str) -> (r: bool)
    ensures
        r == (trim(current_url_output@) != repository_url@),
{
    let current = trim_str(current_url_output);
    let wanted = chars_of(repository_url);
    !seq_eq(current.as_slice(), wanted.as_slice())
}

/// `git --git-dir <repository> fetch --prune --no-tags origin
/// +refs/heads/*:refs/remotes/origin/*`.
pub fn fetch_args(repository: &str) -> (res: Vec<String>)
    ensures
        string_views(res@) == seq![
            "--git-dir"@,
            repository@,
            "fetch"@,
            "--prune"@,
            "--no-tags"@,
            "origin"@,
            "+refs/heads/*:refs/remotes/origin/*"@,
        ],
{
    let rest = vec![
        string_from("fetch"),
        string_from("--prune"),
        string_from("--no-tags"),
        string_from("origin"),
        string_from("+refs/heads/*:refs/remotes/origin/*"),
    ];
    let res = with_git_dir(repository, rest);
    assert(string_views(res@) =~= seq![
        "--git-dir"@,
        repository@,
        "fetch"@,
        "--prune"@,
        "--no-tags"@,
        "origin"@,
        "+refs/heads/*:refs/remotes/origin/*"@,
    ]);
    res
}

/// `git --git-dir <repository> show -s --format=... <revision>`, whose output
/// `parse_commit` reads.
pub fn show_commit_args(repository: &str, branch: &str) -> (res: Vec<String>)
    ensures
        string_views(res@) == seq![
            "--git-dir"@,
            repository@,
            "show"@,
            "-s"@,
            "--format=%H%x00%s%x00%an%x00%ae%x00%aI"@,
            "refs/remotes/origin/"@ + branch@ + "^{commit}"@,
        ],
{
    let rest = vec![
        string_from("show"),
        string_from("-s"),
        string_from("--format=%H%x00%s%x00%an%x00%ae%x00%aI"),
        commit_revision(branch),
    ];
    let res = with_git_dir(repository, rest);
    assert(string_views(res@) =~= seq![
        "--git-dir"@,
        repository@,
        "show"@,
        "-s"@,
        "--format=%H%x00%s%x00%an%x00%ae%x00%aI"@,
        "refs/remotes/origin/"@ + branch@ + "^{commit}"@,
    ]);
    res
}

/// `git --git-dir <repository> for-each-ref --format=%(refname:strip=3)
/// refs/remotes/origin`, whose output `parse_branch_list` reads.
pub fn branch_list_args(repository: &str) -> (res: Vec<String>)
    ensures
        string_views(res@) == seq![
            "--git-dir"@,
            repository@,
            "for-each-ref"@,
            "--format=%(refname:strip=3)"@,
            "refs/remotes/origin"@,
        ],
{
    let rest = vec![
        string_from("for-each-ref"),
        string_from("--format=%(refname:strip=3)"),
        string_from("refs/remotes/origin"),
    ];
    let res = with_git_dir(repository, rest);
    assert(string_views(res@) =~= seq![
        "--git-dir"@,
        repository@,
        "for-each-ref"@,
        "--format=%(refname:strip=3)"@,
        "refs/remotes/origin"@,
    ]);
    res
}

/// `git --git-dir <repository> ls-tree --format=%(objecttype)%x09%(path)
/// <revision>`, whose output `parse_tree_listing` reads.
pub fn tree_list_args(repository: &str, branch: &str, path: &str) -> (res: Vec<String>)
    ensures
        res@.len() == 5,
        string_views(res@).take(4) == seq![
            "--git-dir"@,
            repository@,
            "ls-tree"@,
            "--format=%(objecttype)%x09%(path)"@,
        ],
        res@[4]@ == if tree_prefix(path@).len() == 0 {
            "refs/remotes/origin/"@ + branch@
        } else {
            "refs/remotes/origin/"@ + branch@ + seq![':'] + path@
        },
{
    let revision = tree_revision(branch, path);
    let ghost rv = revision@;
    let rest = vec![
        string_from("ls-tree"),
        string_from("--format=%(objecttype)%x09%(path)"),
        revision,
    ];
    let res = with_git_dir(repository, rest);
    assert(string_views(res@) =~= seq![
        "--git-dir"@,
        repository@,
        "ls-tree"@,
        "--format=%(objecttype)%x09%(path)"@,
        rv,
    ]);
    assert(string_views(res@).take(4) =~= seq![
        "--git-dir"@,
        repository@,
        "ls-tree"@,
        "--format=%(objecttype)%x09%(path)"@,
    ]);
    assert(res@.len() == string_views(res@).len());
    assert(res@[4]@ == string_views(res@)[4]);
    res
}

/// `git --git-dir <repository> worktree add --detach <path> <commit>`.
pub fn worktree_add_args(worktree: &Worktree, commit_sha: &str) -> (res: Vec<String>)
    ensures
        string_views(res@) == seq![
            "--git-dir"@,
            worktree.repository_view(),
            "worktree"@,
            "add"@,
            "--detach"@,
            worktree.path_view(),
            commit_sha@,
        ],
{
    let rest = vec![
        string_from("worktree"),
        string_from("add"),
        string_from("--detach"),
        string_from(worktree.path()),
        string_from(commit_sha),
    ];
    let res = with_git_dir(worktree.repository(), rest);
    assert(string_views(res@) =~= seq![
        "--git-dir"@,
        worktree.repository_view(),
        "worktree"@,
        "add"@,
        "--detach"@,
        worktree.path_view(),
        commit_sha@,
    ]);
    res
}

/// `git --git-dir <repository> worktree remove --force <path>`.
pub fn worktree_remove_args(worktree: &Worktree) -> (res: Vec<String>)
    ensures
        string_views(res@) == seq![
            "--git-dir"@,
            worktree.repository_view(),
            "worktree"@,
            "remove"@,
            "--force"@,
            worktree.path_view(),
        ],
{
    let rest = vec![
        string_from("worktree"),
        string_from("remove"),
        string_from("--force"),
        string_from(worktree.path()),
    ];
    let res = with_git_dir(worktree.repository(), rest);
    assert(string_views(res@) =~= seq![
        "--git-dir"@,
        worktree.repository_view(),
        "worktree"@,
        "remove"@,
        "--force"@,
        worktree.path_view(),
    ]);
    res
}

/// `ssh-keygen -q -t ed25519 -N "" -C blank-site-<site> -f <private key>`.
pub fn deploy_key_args(site_id: &str, private_key: &str) -> (res: Vec<String>)
    ensures
        string_views(res@) == seq![
            "-q"@,
            "-t"@,
            "ed25519"@,
            "-N"@,
            Seq::<char>::empty(),
            "-C"@,
            "blank-site-"@ + site_id@,
            "-f"@,
            private_key@,
        ],
{
    let res = vec![
        string_from("-q"),
        string_from("-t"),
        string_from("ed25519"),
        string_from("-N"),
        String::new(),
        string_from("-C"),
        concat("blank-site-", site_id),
        string_from("-f"),
        string_from(private_key),
    ];
    assert(string_views(res@) =~= seq![
        "-q"@,
        "-t"@,
        "ed25519"@,
        "-N"@,
        Seq::<char>::empty(),
        "-C"@,
        "blank-site-"@ + site_id@,
        "-f"@,
        private_key@,
    ]);
    res
}

/// The `GIT_SSH_COMMAND` that authenticates with a site's deploy key and
/// keeps host keys in the cache's own known-hosts file.
pub fn git_ssh_command(deploy_key: &str, known_hosts: &str) -> (res: String)
    ensures
        res@ == "ssh -i "@ + shell_quoted(deploy_key@)
            + " -o IdentitiesOnly=yes -o StrictHostKeyChecking=accept-new -o UserKnownHostsFile="@
            + shell_quoted(known_hosts@),
{
    let mut res = string_from("ssh -i ");
    let key = shell_quote(deploy_key);
    append_str(&mut res, key.as_str());
    append_str(
        &mut res,
        " -o IdentitiesOnly=yes -o StrictHostKeyChecking=accept-new -o UserKnownHostsFile=",
    );
    let hosts = shell_quote(known_hosts);
    append_str(&mut res, hosts.as_str());
    res
}

/// The HTTP header that passes an access token to Git: basic
/// authentication as `x-access-token`.
pub fn git_auth_header(token: &str) -> (res: String)
    requires
        vstd::utf8::encode_utf8("x-access-token:"@ + token@).len() <= usize::MAX / 2,
    ensures
        res@ == "Authorization: Basic "@ + base64_standard(
            vstd::utf8::encode_utf8("x-access-token:"@ + token@),
        ),
{
    let credentials = concat("x-access-token:", token);
    let encoded = encode_base64_standard(credentials.as_str().as_bytes());
    concat("Authorization: Basic ", encoded.as_str())
}

} // verus!
