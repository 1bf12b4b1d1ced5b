//! Host names: which are accepted, how entered names are normalised, and
//! how a DNS check is summarised.
use vstd::prelude::*;
use crate::error::{ApiError, bad_request};
use crate::text::{
    char_is_alphanumeric, chars_of, contains_chars, contains_seq, equals, has_char,
    is_alphanumeric, is_whitespace, lemma_lead, lemma_split_by_first, lemma_split_by_last,
    lemma_trail, lower, lower_chars, split, split_chars, string_from, string_of, trim,
    trim_chars, trim_end_by, trim_end_matches_chars, utf8_len, utf8_len_at_most, views,
    whitespace,
};

verus! {

pub open spec fn label_char(c: char) -> bool {
    is_alphanumeric(c) || c == '-'
}

/// A DNS label: 1 to 63 ASCII letters, digits and hyphens, not beginning or
/// ending with a hyphen.
pub open spec fn label_ok(l: Seq<char>) -> bool {
    &&& 0 < l.len() <= 63
    &&& l[0] != '-'
    &&& l.last() != '-'
    &&& forall|i: int| 0 <= i < l.len() ==> label_char(#[trigger] l[i])
}

/// A host name: at most 253 bytes, at least two labels, every label valid.
pub open spec fn domain_ok(d: Seq<char>) -> bool {
    &&& utf8_len(d) <= 253
    &&& d.contains('.')
    &&& forall|i: int| 0 <= i < split(d, '.').len() ==> label_ok(#[trigger] split(d, '.')[i])
}

fn label_chars_ok(l: &[char]) -> (r: bool)
    ensures
        r == label_ok(l@),
{
    if l.len() == 0 || l.len() > 63 || l[0] == '-' || l[l.len() - 1] == '-' {
        return false;
    }
    let mut i: usize = 0;
    while i < l.len()
        invariant
            i <= l.len(),
            forall|j: int| 0 <= j < i ==> label_char(#[trigger] l@[j]),
        decreases l.len() - i,
    {
        let c = l[i];
        if !(char_is_alphanumeric(c) || c == '-') {
            assert(!label_char(l@[i as int]));
            return false;
        }
        i += 1;
    }
    true
}

pub fn domain_chars_ok(d: &[char]) -> (r: bool)
    ensures
        r == domain_ok(d@),
{
    if !utf8_len_at_most(d, 253) || !has_char(d, '.') {
        return false;
    }
    let labels = split_chars(d, '.');
    let mut i: usize = 0;
    while i < labels.len()
        invariant
            i <= labels.len(),
            views(labels@) == split(d@, '.'),
            forall|j: int| 0 <= j < i ==> label_ok(#[trigger] split(d@, '.')[j]),
        decreases labels.len() - i,
    {
        assert(labels@[i as int]@ == split(d@, '.')[i as int]);
        if !label_chars_ok(labels[i].as_slice()) {
            return false;
        }
        i += 1;
    }
    true
}

/// Whether a (normalised) host name is acceptable.
pub fn valid_domain(domain: &str) -> (r: bool)
    ensures
        r == domain_ok(domain@),
{
    let d = chars_of(domain);
    domain_chars_ok(d.as_slice())
}

/// An entered host name, normalised: trimmed, without trailing dots, in
/// lower case.
pub open spec fn normalize_domain(raw: Seq<char>) -> Seq<char> {
    lower(trim_end_by(trim(raw), equals('.')))
}

/// A label character is neither blank nor a dot.
proof fn lemma_label_char_plain(c: char)
    requires
        label_char(c),
    ensures
        !is_whitespace(c),
        c != '.',
{
}

/// Lower-casing twice changes nothing more.
proof fn lemma_lower_twice(s: Seq<char>)
    ensures
        lower(lower(s)) == lower(s),
{
    assert(lower(lower(s)) =~= lower(s));
}

/// A name that normalisation produced and that is a valid host name is left
/// as it is by normalising it again.
pub proof fn lemma_normalize_domain_stable(raw: Seq<char>)
    requires
        domain_ok(normalize_domain(raw)),
    ensures
        normalize_domain(normalize_domain(raw)) == normalize_domain(raw),
{
    let d = normalize_domain(raw);
    let parts = split(d, '.');
    assert(d.len() > 0) by {
        let k = choose|k: int| 0 <= k < d.len() && d[k] == '.';
    }
    lemma_split_by_first(d, equals('.'));
    lemma_split_by_last(d, equals('.'));
    assert(label_ok(parts[0]));
    assert(label_ok(parts[parts.len() - 1]));
    lemma_label_char_plain(parts[0][0]);
    let last = parts[parts.len() - 1];
    lemma_label_char_plain(last[last.len() - 1]);
    assert(!is_whitespace(d[0]));
    assert(!is_whitespace(d[d.len() - 1]));
    assert(d.last() != '.');
    lemma_lead(d, whitespace(), 0);
    assert(d.skip(0) =~= d);
    lemma_trail(d, whitespace(), 0);
    assert(d.take(d.len() as int) =~= d);
    assert(trim(d) =~= d);
    lemma_trail(d, equals('.'), 0);
    assert(trim_end_by(d, equals('.')) =~= d);
    lemma_lower_twice(trim_end_by(trim(raw), equals('.')));
}

pub fn normalize_domain_chars(raw: &str) -> (res: Vec<char>)
    ensures
        res@ == normalize_domain(raw@),
{
    let t = chars_of(raw);
    let t = trim_chars(t.as_slice());
    let t = trim_end_matches_chars(t.as_slice(), '.');
    lower_chars(t.as_slice())
}

/// The normalised form of an entered host name.
pub fn normalize_domain_input(raw: &str) -> (res: String)
    ensures
        res@ == normalize_domain(raw@),
{
    let d = normalize_domain_chars(raw);
    string_of(d.as_slice())
}

/// Whether a lookup error means the name has no records.
pub open spec fn no_records(error: Seq<char>) -> bool {
    contains_seq(lower(error), "no record"@) || contains_seq(lower(error), "nxdomain"@)
}

/// The short message shown for a failed lookup.
pub fn concise_error(error: &str) -> (res: String)
    ensures
        res@ == if no_records(error@) {
            "no public A or AAAA records found"@
        } else {
            "DNS lookup failed"@
        },
{
    let e = chars_of(error);
    let lowered = lower_chars(e.as_slice());
    let no_record = chars_of("no record");
    let nxdomain = chars_of("nxdomain");
    if contains_chars(lowered.as_slice(), no_record.as_slice()) || contains_chars(
        lowered.as_slice(),
        nxdomain.as_slice(),
    ) {
        string_from("no public A or AAAA records found")
    } else {
        string_from("DNS lookup failed")
    }
}

/// A DNS check covers 1 to 20 names.
pub fn validate_check_count(count: usize) -> (res: Result<(), ApiError>)
    ensures
        res is Ok <==> 1 <= count <= 20,
        res matches Err(e) ==> bad_request(e, "check between 1 and 20 domains"@),
{
    if count == 0 || count > 20 {
        return Err(ApiError::BadRequest(string_from("check between 1 and 20 domains")));
    }
    Ok(())
}

/// An IP address: its family and its bits (IPv4 addresses in the low 32).
#[derive(Clone, Copy, Debug, PartialEq, Eq, Structural)]
pub struct IpAddress {
    pub v6: bool,
    pub bits: u128,
}

/// Whether a name's addresses reach the server: unknown when no expected
/// addresses are configured, else whether any address is expected.
pub fn matches_expected(addresses: &Vec<IpAddress>, expected: &Vec<IpAddress>) -> (res: Option<bool>)
    ensures
        expected@.len() == 0 ==> res is None,
        expected@.len() > 0 ==> res == Some(
            exists|i: int, j: int|
                0 <= i < addresses@.len() && 0 <= j < expected@.len() && addresses@[i]
                    == expected@[j],
        ),
{
    if expected.len() == 0 {
        return None;
    }
    let mut i: usize = 0;
    while i < addresses.len()
        invariant
            i <= addresses.len(),
            forall|a: int, b: int|
                0 <= a < i && 0 <= b < expected@.len() ==> addresses@[a] != expected@[b],
        decreases addresses.len() - i,
    {
        let mut j: usize = 0;
        while j < expected.len()
            invariant
                j <= expected.len(),
                i < addresses.len(),
                forall|a: int, b: int|
                    0 <= a < i && 0 <= b < expected@.len() ==> addresses@[a] != expected@[b],
                forall|b: int| 0 <= b < j ==> addresses@[i as int] != expected@[b],
            decreases expected.len() - j,
        {
            if addresses[i] == expected[j] {
                return Some(true);
            }
            j += 1;
        }
        i += 1;
    }
    Some(false)
}

} // verus!
