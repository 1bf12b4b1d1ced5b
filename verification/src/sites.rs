//! The settings of a site, as they are entered: defaults, normalisation and
//! validation.
use vstd::prelude::*;
use crate::dns::{
    domain_chars_ok, domain_ok, lemma_normalize_domain_stable, normalize_domain,
    normalize_domain_chars,
};
use crate::error::{ApiError, bad_request};
use crate::git::{
    branch_ok, has_parent_part, has_parent_part_chars, repository_url_ok, string_views,
    validate_branch, validate_repository_url,
};
use crate::text::{
    append_str, char_is_control, char_is_whitespace, chars_of, has_char, is_control,
    is_whitespace, join, join_chars, seq_eq, split_by, string_from, string_of, trim,
    trim_str, utf8_len, utf8_len_at_most, views,
};

verus! {

/// The settings of a site as a request carries them.
#[derive(Debug, Clone)]
pub struct SiteInput {
    pub name: String,
    pub repository_url: String,
    pub branch: String,
    pub project_directory: String,
    pub mise_tools: String,
    pub detected_framework: Option<String>,
    pub install_command: Option<String>,
    pub build_command: Option<String>,
    pub publish_directory: String,
    pub build_enabled: bool,
    pub auto_deploy: bool,
    pub domains: Vec<String>,
}

pub fn default_branch() -> (r: String)
    ensures
        r@ == "main"@,
{
    string_from("main")
}

pub fn default_project_directory() -> (r: String)
    ensures
        r@ == "."@,
{
    string_from(".")
}

pub fn default_publish_directory() -> (r: String)
    ensures
        r@ == "dist"@,
{
    string_from("dist")
}

pub fn default_true() -> (r: bool)
    ensures
        r,
{
    true
}

/// An optional text, trimmed, and absent when nothing is left.
pub open spec fn cleaned(value: Option<String>) -> Option<Seq<char>> {
    match value {
        Some(v) => if trim(v@).len() > 0 {
            Some(trim(v@))
        } else {
            None
        },
        None => None,
    }
}

pub fn clean_optional(value: &Option<String>) -> (res: Option<String>)
    ensures
        match res {
            Some(s) => cleaned(*value) == Some(s@),
            None => cleaned(*value) is None,
        },
{
    match value {
        Some(v) => {
            let t = trim_str(v.as_str());
            if t.len() > 0 {
                Some(string_of(t.as_slice()))
            } else {
                None
            }
        },
        None => None,
    }
}

pub open spec fn has_control(s: Seq<char>) -> bool {
    exists|i: int| 0 <= i < s.len() && is_control(#[trigger] s[i])
}

pub fn has_control_chars(s: &[char]) -> (r: bool)
    ensures
        r == has_control(s@),
{
    let mut i: usize = 0;
    while i < s.len()
        invariant
            i <= s.len(),
            forall|j: int| 0 <= j < i ==> !is_control(#[trigger] s@[j]),
        decreases s.len() - i,
    {
        if char_is_control(s[i]) {
            return true;
        }
        i += 1;
    }
    false
}

// ---------------------------------------------------------------------------
// Domains
// ---------------------------------------------------------------------------

/// The domains of a site, from the entered names in order: each normalised,
/// blanks skipped, repeats dropped; the first name that is not a valid host
/// name refuses the list.
pub open spec fn domain_fold(ds: Seq<Seq<char>>) -> Result<Seq<Seq<char>>, Seq<char>>
    decreases ds.len(),
{
    if ds.len() == 0 {
        Ok(Seq::empty())
    } else {
        match domain_fold(ds.drop_last()) {
            Err(d) => Err(d),
            Ok(acc) => {
                let d = normalize_domain(ds.last());
                if d.len() == 0 {
                    Ok(acc)
                } else if !domain_ok(d) {
                    Err(d)
                } else if acc.contains(d) {
                    Ok(acc)
                } else {
                    Ok(acc.push(d))
                }
            },
        }
    }
}

/// The domains of a site, or the message that refuses them.
pub open spec fn domains_result(ds: Seq<Seq<char>>) -> Result<Seq<Seq<char>>, Seq<char>> {
    if ds.len() > 20 {
        Err("a site may have at most 20 domains"@)
    } else {
        match domain_fold(ds) {
            Ok(v) => Ok(v),
            Err(d) => Err("invalid domain: "@ + d),
        }
    }
}

/// Every domain that the normalisation keeps is a valid host name, in lower
/// case, and none is kept twice.
pub proof fn lemma_domain_fold_clean(ds: Seq<Seq<char>>)
    ensures
        domain_fold(ds) matches Ok(v) ==> {
            &&& v.no_duplicates()
            &&& forall|i: int| 0 <= i < v.len() ==> domain_ok(#[trigger] v[i])
            &&& forall|i: int|
                0 <= i < v.len() ==> exists|j: int|
                    0 <= j < ds.len() && #[trigger] v[i] == normalize_domain(ds[j])
        },
    decreases ds.len(),
{
    if ds.len() > 0 {
        let prev = ds.drop_last();
        lemma_domain_fold_clean(prev);
        if let Ok(acc) = domain_fold(prev) {
            let d = normalize_domain(ds.last());
            assert forall|i: int| 0 <= i < acc.len() implies exists|j: int|
                0 <= j < ds.len() && #[trigger] acc[i] == normalize_domain(ds[j]) by {
                let j = choose|j: int| 0 <= j < prev.len() && acc[i] == normalize_domain(prev[j]);
                assert(ds[j] == prev[j]);
            }
            if d.len() > 0 && domain_ok(d) && !acc.contains(d) {
                let v = acc.push(d);
                assert forall|i: int| 0 <= i < v.len() implies exists|j: int|
                    0 <= j < ds.len() && #[trigger] v[i] == normalize_domain(ds[j]) by {
                    if i == acc.len() {
                        assert(v[i] == normalize_domain(ds[ds.len() - 1]));
                    } else {
                        assert(v[i] == acc[i]);
                    }
                }
                assert forall|i: int, k: int| 0 <= i < v.len() && 0 <= k < v.len() && i != k implies v[i] != v[k] by {
                    if i == acc.len() {
                        assert(acc.contains(v[k]) ==> v[k] != d);
                    } else if k == acc.len() {
                        assert(v[i] == acc[i]);
                    }
                }
            }
        }
    }
}

/// The normalisation keeps at most one domain per entered name.
proof fn lemma_domain_fold_len(ds: Seq<Seq<char>>)
    ensures
        domain_fold(ds) matches Ok(v) ==> v.len() <= ds.len(),
    decreases ds.len(),
{
    if ds.len() > 0 {
        lemma_domain_fold_len(ds.drop_last());
    }
}

/// A list of valid, already normalised host names without repeats folds to
/// itself.
proof fn lemma_domain_fold_fixed(v: Seq<Seq<char>>)
    requires
        v.no_duplicates(),
        forall|i: int|
            0 <= i < v.len() ==> domain_ok(#[trigger] v[i]) && normalize_domain(v[i]) == v[i],
    ensures
        domain_fold(v) == Ok::<Seq<Seq<char>>, Seq<char>>(v),
    decreases v.len(),
{
    if v.len() > 0 {
        let prev = v.drop_last();
        assert forall|i: int| 0 <= i < prev.len() implies domain_ok(#[trigger] prev[i])
            && normalize_domain(prev[i]) == prev[i] by {
            assert(prev[i] == v[i]);
        }
        lemma_domain_fold_fixed(prev);
        let d = v.last();
        assert(domain_ok(v[v.len() - 1]) && normalize_domain(v[v.len() - 1]) == v[v.len() - 1]);
        assert(normalize_domain(d) == d);
        assert(d.len() > 0) by {
            let k = choose|k: int| 0 <= k < d.len() && d[k] == '.';
        }
        assert(!prev.contains(d)) by {
            if prev.contains(d) {
                let k = choose|k: int| 0 <= k < prev.len() && prev[k] == d;
                assert(v[k] == v[v.len() - 1]);
            }
        }
        assert(prev.push(d) =~= v);
    } else {
        assert(v =~= Seq::<Seq<char>>::empty());
    }
}

/// Normalising a site's domains a second time gives them back unchanged:
/// a site saved with the domains it was saved with keeps them as they are.
pub proof fn lemma_domains_stable(ds: Seq<Seq<char>>)
    ensures
        domains_result(ds) matches Ok(v) ==> domains_result(v) == Ok::<
            Seq<Seq<char>>,
            Seq<char>,
        >(v),
{
    if let Ok(v) = domains_result(ds) {
        lemma_domain_fold_clean(ds);
        lemma_domain_fold_len(ds);
        assert forall|i: int| 0 <= i < v.len() implies domain_ok(#[trigger] v[i])
            && normalize_domain(v[i]) == v[i] by {
            let j = choose|j: int| 0 <= j < ds.len() && v[i] == normalize_domain(ds[j]);
            lemma_normalize_domain_stable(ds[j]);
        }
        lemma_domain_fold_fixed(v);
    }
}

/// The domains of a site, normalised and without repeats.
pub fn normalized_domains(domains: &Vec<String>) -> (res: Result<Vec<String>, ApiError>)
    ensures
        match res {
            Ok(v) => domains_result(string_views(domains@)) == Ok::<Seq<Seq<char>>, Seq<char>>(
                string_views(v@),
            ),
            Err(e) => exists|m: Seq<char>|
                domains_result(string_views(domains@)) == Err::<Seq<Seq<char>>, Seq<char>>(m)
                    && bad_request(e, m),
        },
{
    let ghost ds = string_views(domains@);
    if domains.len() > 20 {
        let e = ApiError::BadRequest(string_from("a site may have at most 20 domains"));
        assert(bad_request(e, "a site may have at most 20 domains"@));
        return Err(e);
    }
    let mut result: Vec<String> = Vec::new();
    let mut i: usize = 0;
    proof {
        assert(ds.take(0) =~= Seq::<Seq<char>>::empty());
        assert(string_views(result@) =~= Seq::<Seq<char>>::empty());
    }
    while i < domains.len()
        invariant
            i <= domains.len(),
            domains.len() <= 20,
            ds == string_views(domains@),
            domain_fold(ds.take(i as int)) == Ok::<Seq<Seq<char>>, Seq<char>>(
                string_views(result@),
            ),
        decreases domains.len() - i,
    {
        proof {
            assert(ds.take(i as int + 1).drop_last() == ds.take(i as int));
            assert(ds.take(i as int + 1).last() == domains@[i as int]@);
        }
        let d = normalize_domain_chars(domains[i].as_str());
        if d.len() > 0 {
            if !domain_chars_ok(d.as_slice()) {
                let mut message = string_from("invalid domain: ");
                let ds_str = string_of(d.as_slice());
                append_str(&mut message, ds_str.as_str());
                let e = ApiError::BadRequest(message);
                proof {
                    assert(domain_fold(ds.take(i as int + 1)) == Err::<Seq<Seq<char>>, Seq<char>>(
                        d@,
                    ));
                    lemma_fold_error_stays(ds, i as int + 1, d@);
                    assert(ds.take(domains@.len() as int) == ds);
                    assert(bad_request(e, "invalid domain: "@ + d@));
                    assert(ds.len() == domains@.len());
                    assert(domains_result(ds) == Err::<Seq<Seq<char>>, Seq<char>>(
                        "invalid domain: "@ + d@,
                    ));
                }
                return Err(e);
            }
            let mut seen = false;
            let mut k: usize = 0;
            while k < result.len()
                invariant
                    k <= result.len(),
                    seen == exists|j: int| 0 <= j < k && result@[j]@ == d@,
                decreases result.len() - k,
            {
                let existing = chars_of(result[k].as_str());
                if seq_eq(existing.as_slice(), d.as_slice()) {
                    seen = true;
                }
                k += 1;
            }
            proof {
                let rv = string_views(result@);
                if seen {
                    let j = choose|j: int| 0 <= j < result@.len() && result@[j]@ == d@;
                    assert(rv[j] == d@);
                } else {
                    assert forall|j: int| 0 <= j < rv.len() implies rv[j] != d@ by {
                        assert(rv[j] == result@[j]@);
                    }
                }
            }
            if !seen {
                let ghost before = result@;
                result.push(string_of(d.as_slice()));
                proof {
                    assert(string_views(result@) =~= string_views(before).push(d@));
                }
            }
        }
        i += 1;
    }
    assert(ds.take(domains@.len() as int) == ds);
    Ok(result)
}

proof fn lemma_fold_error_stays(ds: Seq<Seq<char>>, k: int, d: Seq<char>)
    requires
        0 <= k <= ds.len(),
        domain_fold(ds.take(k)) == Err::<Seq<Seq<char>>, Seq<char>>(d),
    ensures
        domain_fold(ds) == Err::<Seq<Seq<char>>, Seq<char>>(d),
    decreases ds.len() - k,
{
    if k < ds.len() {
        assert(ds.take(k + 1).drop_last() == ds.take(k));
        lemma_fold_error_stays(ds, k + 1, d);
    } else {
        assert(ds.take(k) == ds);
    }
}

// ---------------------------------------------------------------------------
// Build tools
// ---------------------------------------------------------------------------

pub open spec fn tool_separator() -> spec_fn(char) -> bool {
    |c: char| is_whitespace(c) || c == ','
}

pub open spec fn nonempty() -> spec_fn(Seq<char>) -> bool {
    |t: Seq<char>| t.len() > 0
}

/// The tool specifications in a list separated by whitespace and commas.
pub open spec fn tool_specs(value: Seq<char>) -> Seq<Seq<char>> {
    split_by(value, tool_separator()).filter(nonempty())
}

pub open spec fn tool_forbidden_char(c: char) -> bool {
    is_control(c) || c == '\'' || c == '"' || c == '`' || c == '$' || c == ';'
}

/// A tool specification: at most 200 bytes, not an option, and free of
/// control characters, quotes, backticks, `$` and `;`.
pub open spec fn tool_ok(t: Seq<char>) -> bool {
    &&& utf8_len(t) <= 200
    &&& !(t.len() > 0 && t[0] == '-')
    &&& forall|i: int| 0 <= i < t.len() ==> !tool_forbidden_char(#[trigger] t[i])
}

/// The tools of a site, one per line, or `None` when the list is refused.
pub open spec fn tools_result(value: Seq<char>) -> Option<Seq<char>> {
    let tools = tool_specs(value);
    if tools.len() > 20 || exists|i: int| 0 <= i < tools.len() && !tool_ok(#[trigger] tools[i]) {
        None
    } else {
        Some(join(tools, seq!['\n']))
    }
}

/// A character of a plain tool specification such as `node@20.11.1`,
/// `npm:prettier` or `ubi:owner/tool`: an ASCII letter or digit, `@`, `.`,
/// `-`, `/` or `:`.
pub open spec fn plain_tool_char(c: char) -> bool {
    ('a' <= c && c <= 'z') || ('A' <= c && c <= 'Z') || ('0' <= c && c <= '9') || c == '@' || c
        == '.' || c == '-' || c == '/' || c == ':'
}

proof fn lemma_ascii_utf8_len(t: Seq<char>)
    requires
        forall|k: int| 0 <= k < t.len() ==> plain_tool_char(#[trigger] t[k]),
    ensures
        utf8_len(t) == t.len(),
    decreases t.len(),
{
    if t.len() > 0 {
        assert(plain_tool_char(t[t.len() - 1]));
        assert forall|k: int| 0 <= k < t.drop_last().len() implies plain_tool_char(
            #[trigger] t.drop_last()[k],
        ) by {
            assert(t.drop_last()[k] == t[k]);
        }
        lemma_ascii_utf8_len(t.drop_last());
    }
}

/// A list of at most 20 tool specifications is accepted, one per line in
/// its order, whenever each is made of ASCII letters, digits, `@`, `.`, `-`,
/// `/` and `:`, is at most 200 bytes long and does not start with `-`.
pub proof fn lemma_plain_tools_accepted(value: Seq<char>)
    requires
        tool_specs(value).len() <= 20,
        forall|i: int|
            #![trigger tool_specs(value)[i]]
            0 <= i < tool_specs(value).len() ==> {
                let t = tool_specs(value)[i];
                &&& t.len() <= 200
                &&& !(t.len() > 0 && t[0] == '-')
                &&& forall|k: int| 0 <= k < t.len() ==> plain_tool_char(#[trigger] t[k])
            },
    ensures
        tools_result(value) == Some(join(tool_specs(value), seq!['\n'])),
{
    let tools = tool_specs(value);
    assert forall|i: int| 0 <= i < tools.len() implies tool_ok(#[trigger] tools[i]) by {
        let t = tools[i];
        lemma_ascii_utf8_len(t);
        assert forall|k: int| 0 <= k < t.len() implies !tool_forbidden_char(#[trigger] t[k]) by {
            assert(plain_tool_char(t[k]));
        }
    }
}

/// A single plain tool specification, such as `node@20.11.1`, is accepted
/// as it is.
pub proof fn lemma_plain_tool_accepted(t: Seq<char>)
    requires
        0 < t.len() <= 200,
        t[0] != '-',
        forall|k: int| 0 <= k < t.len() ==> plain_tool_char(#[trigger] t[k]),
    ensures
        tools_result(t) == Some(t),
{
    lemma_split_plain(t);
    assert(seq![t].filter(nonempty()) =~= seq![t]) by {
        reveal(Seq::filter);
        assert(seq![t].drop_last() =~= Seq::<Seq<char>>::empty());
        assert(Seq::<Seq<char>>::empty().filter(nonempty()) =~= Seq::<Seq<char>>::empty());
    }
    lemma_plain_tools_accepted(t);
}

proof fn lemma_split_plain(t: Seq<char>)
    requires
        0 < t.len(),
        forall|k: int| 0 <= k < t.len() ==> plain_tool_char(#[trigger] t[k]),
    ensures
        split_by(t, tool_separator()) == seq![t],
    decreases t.len(),
{
    assert(plain_tool_char(t.last()));
    assert(!tool_separator()(t.last()));
    if t.len() == 1 {
        assert(t.drop_last() =~= Seq::<char>::empty());
        let rest = split_by(t.drop_last(), tool_separator());
        assert(rest == seq![Seq::<char>::empty()]);
        assert(rest.last().push(t.last()) =~= seq![t.last()]);
        assert(rest.update(0, seq![t.last()]) =~= seq![seq![t.last()]]);
        assert(split_by(t, tool_separator()) =~= seq![seq![t.last()]]);
        assert(seq![t.last()] =~= t);
    } else {
        assert forall|k: int| 0 <= k < t.drop_last().len() implies plain_tool_char(
            #[trigger] t.drop_last()[k],
        ) by {
            assert(t.drop_last()[k] == t[k]);
        }
        lemma_split_plain(t.drop_last());
        assert(t.drop_last().push(t.last()) =~= t);
        assert(split_by(t, tool_separator()) =~= seq![t]);
    }
}

fn split_tools(s: &[char]) -> (res: Vec<Vec<char>>)
    ensures
        views(res@) == split_by(s@, tool_separator()),
{
    let mut res: Vec<Vec<char>> = Vec::new();
    let mut cur: Vec<char> = Vec::new();
    let mut i: usize = 0;
    proof {
        assert(s@.take(0) =~= Seq::<char>::empty());
    }
    while i < s.len()
        invariant
            i <= s.len(),
            views(res@).push(cur@) == split_by(s@.take(i as int), tool_separator()),
        decreases s.len() - i,
    {
        let ghost prev = s@.take(i as int);
        proof {
            assert(s@.take(i as int + 1).drop_last() == prev);
            assert(s@.take(i as int + 1).last() == s@[i as int]);
            crate::text::lemma_split_by_len(prev, tool_separator());
        }
        let c = s[i];
        if char_is_whitespace(c) || c == ',' {
            let ghost before = res@;
            let done = cur;
            res.push(done);
            cur = Vec::new();
            proof {
                assert(views(res@) =~= views(before).push(done@));
                assert(views(res@).push(cur@) =~= split_by(prev, tool_separator()).push(
                    Seq::<char>::empty(),
                ));
            }
        } else {
            cur.push(c);
            proof {
                let r = split_by(prev, tool_separator());
                assert(views(res@).push(cur@) =~= r.update(r.len() - 1, r.last().push(c)));
            }
        }
        i += 1;
    }
    assert(s@.take(s.len() as int) == s@);
    let ghost before = res@;
    let ghost last = cur@;
    res.push(cur);
    assert(views(res@) =~= views(before).push(last));
    res
}

fn tool_chars_ok(t: &[char]) -> (r: bool)
    ensures
        r == tool_ok(t@),
{
    if !utf8_len_at_most(t, 200) || (t.len() > 0 && t[0] == '-') {
        return false;
    }
    let mut i: usize = 0;
    while i < t.len()
        invariant
            i <= t.len(),
            forall|j: int| 0 <= j < i ==> !tool_forbidden_char(#[trigger] t@[j]),
        decreases t.len() - i,
    {
        let c = t[i];
        if char_is_control(c) || c == '\'' || c == '"' || c == '`' || c == '$' || c == ';' {
            assert(tool_forbidden_char(t@[i as int]));
            return false;
        }
        i += 1;
    }
    true
}

/// The tool list of a site, one specification per line.
pub fn normalized_mise_tools(value: &str) -> (res: Result<String, ApiError>)
    ensures
        match res {
            Ok(s) => tools_result(value@) == Some(s@),
            Err(e) => tools_result(value@) is None && bad_request(
                e,
                "dependencies must contain at most 20 valid specifications"@,
            ),
        },
{
    let chars = chars_of(value);
    let pieces = split_tools(chars.as_slice());
    let ghost pv = views(pieces@);
    let mut tools: Vec<Vec<char>> = Vec::new();
    let mut all_ok = true;
    let mut i: usize = 0;
    while i < pieces.len()
        invariant
            i <= pieces.len(),
            pv == views(pieces@),
            views(tools@) == pv.take(i as int).filter(nonempty()),
            all_ok == forall|j: int| 0 <= j < tools@.len() ==> tool_ok(#[trigger] views(tools@)[j]),
        decreases pieces.len() - i,
    {
        let piece = &pieces[i];
        proof {
            assert(piece@ == pv[i as int]);
            assert(pv.take(i as int + 1) == pv.take(i as int).push(pv[i as int]));
            pv.take(i as int).lemma_filter_push(pv[i as int], nonempty());
        }
        if piece.len() > 0 {
            let ok = tool_chars_ok(piece.as_slice());
            let ghost before = tools@;
            let ghost before_ok = all_ok;
            tools.push(piece.clone());
            all_ok = all_ok && ok;
            proof {
                assert(views(tools@) =~= views(before).push(piece@));
                let tv = views(tools@);
                if all_ok {
                    assert forall|j: int| 0 <= j < tv.len() implies tool_ok(#[trigger] tv[j]) by {
                        if j < before.len() {
                            assert(tv[j] == views(before)[j]);
                        }
                    }
                } else if !ok {
                    assert(!tool_ok(tv[tv.len() - 1]));
                } else {
                    let j = choose|j: int|
                        0 <= j < before.len() && !tool_ok(#[trigger] views(before)[j]);
                    assert(tv[j] == views(before)[j]);
                }
            }
        }
        i += 1;
    }
    proof {
        assert(pv.take(pieces@.len() as int) == pv);
        assert(views(tools@) == tool_specs(value@));
    }
    if tools.len() > 20 || !all_ok {
        return Err(
            ApiError::BadRequest(
                string_from("dependencies must contain at most 20 valid specifications"),
            ),
        );
    }
    let newline = vec!['\n'];
    let joined = join_chars(&tools, newline.as_slice());
    assert(newline@ =~= seq!['\n']);
    Ok(string_of(joined.as_slice()))
}

// ---------------------------------------------------------------------------
// The whole input
// ---------------------------------------------------------------------------

/// A site name: trimmed, 1 to 100 bytes, no control characters.
pub open spec fn site_name_ok(name: Seq<char>) -> bool {
    let n = trim(name);
    n.len() > 0 && utf8_len(n) <= 100 && !has_control(n)
}

pub open spec fn command_ok(command: Option<String>) -> bool {
    match command {
        Some(c) => utf8_len(c@) <= 4096 && !has_control(c@),
        None => true,
    }
}

pub open spec fn framework_ok(framework: Option<String>) -> bool {
    match framework {
        Some(f) => utf8_len(f@) <= 100 && !has_control(f@),
        None => true,
    }
}

/// A directory inside the repository: trimmed, 1 to 512 bytes, relative, no
/// backslash and no `..` part.
pub open spec fn relative_dir_ok(path: Seq<char>) -> bool {
    let t = trim(path);
    &&& t.len() > 0
    &&& utf8_len(t) <= 512
    &&& t[0] != '/'
    &&& !t.contains('\\')
    &&& !has_parent_part(t)
}

/// What validating a site's settings gives: its domains, or the message of
/// the first check that fails, checked in this order.
pub open spec fn site_validation(input: SiteInput) -> Result<Seq<Seq<char>>, Seq<char>> {
    if !site_name_ok(input.name@) {
        Err("site name must be 1–100 characters without control characters"@)
    } else if utf8_len(input.repository_url@) > 2048 {
        Err("repository URL is too long"@)
    } else if !command_ok(input.install_command) {
        Err("install command is too long or contains control characters"@)
    } else if !command_ok(input.build_command) {
        Err("build command is too long or contains control characters"@)
    } else if !repository_url_ok(trim(input.repository_url@)) {
        Err("invalid repository URL"@)
    } else if !branch_ok(trim(input.branch@)) {
        Err("invalid branch name"@)
    } else if tools_result(input.mise_tools@) is None {
        Err("dependencies must contain at most 20 valid specifications"@)
    } else if !framework_ok(input.detected_framework) {
        Err("invalid detected framework"@)
    } else if !relative_dir_ok(input.project_directory@) {
        Err("project directory must be a relative path without '..'"@)
    } else if !relative_dir_ok(input.publish_directory@) {
        Err("publish directory must be a relative path without '..'"@)
    } else {
        domains_result(string_views(input.domains@))
    }
}

fn site_name_chars_ok(name: &str) -> (r: bool)
    ensures
        r == site_name_ok(name@),
{
    let n = trim_str(name);
    n.len() > 0 && utf8_len_at_most(n.as_slice(), 100) && !has_control_chars(n.as_slice())
}

fn command_chars_ok(command: &Option<String>) -> (r: bool)
    ensures
        r == command_ok(*command),
{
    match command {
        Some(c) => {
            let chars = chars_of(c.as_str());
            utf8_len_at_most(chars.as_slice(), 4096) && !has_control_chars(chars.as_slice())
        },
        None => true,
    }
}

fn framework_chars_ok(framework: &Option<String>) -> (r: bool)
    ensures
        r == framework_ok(*framework),
{
    match framework {
        Some(f) => {
            let chars = chars_of(f.as_str());
            utf8_len_at_most(chars.as_slice(), 100) && !has_control_chars(chars.as_slice())
        },
        None => true,
    }
}

fn relative_dir_chars_ok(path: &str) -> (r: bool)
    ensures
        r == relative_dir_ok(path@),
{
    let t = trim_str(path);
    t.len() > 0 && utf8_len_at_most(t.as_slice(), 512) && t[0] != '/' && !has_char(
        t.as_slice(),
        '\\',
    ) && !has_parent_part_chars(t.as_slice())
}

fn bad(message: &str) -> (e: ApiError)
    ensures
        bad_request(e, message@),
{
    ApiError::BadRequest(string_from(message))
}

/// Validates a site's settings and gives its normalised domains.
pub fn validate(input: &SiteInput) -> (res: Result<Vec<String>, ApiError>)
    ensures
        match res {
            Ok(v) => site_validation(*input) == Ok::<Seq<Seq<char>>, Seq<char>>(string_views(v@)),
            Err(e) => exists|m: Seq<char>|
                site_validation(*input) == Err::<Seq<Seq<char>>, Seq<char>>(m) && bad_request(e, m),
        },
{
    if !site_name_chars_ok(input.name.as_str()) {
        return Err(bad("site name must be 1–100 characters without control characters"));
    }
    let url = chars_of(input.repository_url.as_str());
    if !utf8_len_at_most(url.as_slice(), 2048) {
        return Err(bad("repository URL is too long"));
    }
    if !command_chars_ok(&input.install_command) {
        return Err(bad("install command is too long or contains control characters"));
    }
    if !command_chars_ok(&input.build_command) {
        return Err(bad("build command is too long or contains control characters"));
    }
    let trimmed_url = trim_str(input.repository_url.as_str());
    let trimmed_url = string_of(trimmed_url.as_slice());
    if validate_repository_url(trimmed_url.as_str()).is_err() {
        return Err(bad("invalid repository URL"));
    }
    let trimmed_branch = trim_str(input.branch.as_str());
    let trimmed_branch = string_of(trimmed_branch.as_slice());
    if validate_branch(trimmed_branch.as_str()).is_err() {
        return Err(bad("invalid branch name"));
    }
    normalized_mise_tools(input.mise_tools.as_str())?;
    if !framework_chars_ok(&input.detected_framework) {
        return Err(bad("invalid detected framework"));
    }
    if !relative_dir_chars_ok(input.project_directory.as_str()) {
        return Err(bad("project directory must be a relative path without '..'"));
    }
    if !relative_dir_chars_ok(input.publish_directory.as_str()) {
        return Err(bad("publish directory must be a relative path without '..'"));
    }
    normalized_domains(&input.domains)
}

} // verus!
