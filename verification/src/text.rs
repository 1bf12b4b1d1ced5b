//! Character classes and the string operations that the rest of the library
//! is specified with: every function here works on sequences of `char`, the
//! view Verus gives to `str` and `String`.
use vstd::prelude::*;
use vstd::slice::slice_subrange;
use vstd::slice::slice_to_vec;

verus! {

// ---------------------------------------------------------------------------
// Character classes
// ---------------------------------------------------------------------------

pub open spec fn is_digit(c: char) -> bool {
    '0' <= c && c <= '9'
}

pub open spec fn is_upper(c: char) -> bool {
    'A' <= c && c <= 'Z'
}

pub open spec fn is_lower(c: char) -> bool {
    'a' <= c && c <= 'z'
}

pub open spec fn is_alphanumeric(c: char) -> bool {
    is_digit(c) || is_upper(c) || is_lower(c)
}

pub open spec fn is_hex_digit(c: char) -> bool {
    is_digit(c) || ('a' <= c && c <= 'f') || ('A' <= c && c <= 'F')
}

/// Unicode `White_Space`, the class that `char::is_whitespace` and
/// `str::trim` use.
pub open spec fn is_whitespace(c: char) -> bool {
    ||| c == '\t'
    ||| c == '\n'
    ||| c == '\u{0B}'
    ||| c == '\u{0C}'
    ||| c == '\r'
    ||| c == ' '
    ||| c == '\u{85}'
    ||| c == '\u{A0}'
    ||| c == '\u{1680}'
    ||| ('\u{2000}' <= c && c <= '\u{200A}')
    ||| c == '\u{2028}'
    ||| c == '\u{2029}'
    ||| c == '\u{202F}'
    ||| c == '\u{205F}'
    ||| c == '\u{3000}'
}

/// The general category `Cc`, the class that `char::is_control` uses.
pub open spec fn is_control(c: char) -> bool {
    c <= '\u{1F}' || ('\u{7F}' <= c && c <= '\u{9F}')
}

pub open spec fn lower_char(c: char) -> char {
    if is_upper(c) {
        ((c as int) + 32) as char
    } else {
        c
    }
}

pub open spec fn upper_char(c: char) -> char {
    if is_lower(c) {
        ((c as int) - 32) as char
    } else {
        c
    }
}

pub open spec fn lower(s: Seq<char>) -> Seq<char> {
    s.map_values(|c: char| lower_char(c))
}

pub open spec fn upper(s: Seq<char>) -> Seq<char> {
    s.map_values(|c: char| upper_char(c))
}

pub open spec fn whitespace() -> spec_fn(char) -> bool {
    |c: char| is_whitespace(c)
}

pub open spec fn equals(x: char) -> spec_fn(char) -> bool {
    |c: char| c == x
}

pub open spec fn not_digit() -> spec_fn(char) -> bool {
    |c: char| !is_digit(c)
}

pub fn char_is_digit(c: char) -> (b: bool)
    ensures
        b == is_digit(c),
{
    '0' <= c && c <= '9'
}

pub fn char_is_alphanumeric(c: char) -> (b: bool)
    ensures
        b == is_alphanumeric(c),
{
    ('0' <= c && c <= '9') || ('A' <= c && c <= 'Z') || ('a' <= c && c <= 'z')
}

pub fn char_is_hex_digit(c: char) -> (b: bool)
    ensures
        b == is_hex_digit(c),
{
    ('0' <= c && c <= '9') || ('a' <= c && c <= 'f') || ('A' <= c && c <= 'F')
}

pub fn char_is_whitespace(c: char) -> (b: bool)
    ensures
        b == is_whitespace(c),
{
    c == '\t' || c == '\n' || c == '\u{0B}' || c == '\u{0C}' || c == '\r' || c == ' ' || c
        == '\u{85}' || c == '\u{A0}' || c == '\u{1680}' || ('\u{2000}' <= c && c <= '\u{200A}')
        || c == '\u{2028}' || c == '\u{2029}' || c == '\u{202F}' || c == '\u{205F}' || c
        == '\u{3000}'
}

pub fn char_is_control(c: char) -> (b: bool)
    ensures
        b == is_control(c),
{
    c <= '\u{1F}' || ('\u{7F}' <= c && c <= '\u{9F}')
}

pub fn char_to_lower(c: char) -> (r: char)
    ensures
        r == lower_char(c),
{
    if 'A' <= c && c <= 'Z' {
        let b = c as u32 + 32;
        let r = (b as u8) as char;
        assert(r == ((c as int) + 32) as char);
        r
    } else {
        c
    }
}

pub fn char_to_upper(c: char) -> (r: char)
    ensures
        r == upper_char(c),
{
    if 'a' <= c && c <= 'z' {
        let b = c as u32 - 32;
        let r = (b as u8) as char;
        assert(r == ((c as int) - 32) as char);
        r
    } else {
        c
    }
}

// ---------------------------------------------------------------------------
// Conversions between strings and character vectors
// ---------------------------------------------------------------------------

/// Copies the characters of a string slice into a vector.
pub fn chars_of(s: &str) -> (res: Vec<char>)
    ensures
        res@ == s@,
{
    let mut res: Vec<char> = Vec::new();
    for c in it: s.chars()
        invariant
            res@ == it.seq().take(it.index() as int),
    {
        res.push(c);
    }
    res
}

/// `String::push`: appends one character.
#[verifier::external_body]
pub(crate) fn push_char(s: &mut String, c: char)
    ensures
        final(s)@ == old(s)@.push(c),
{
    s.push(c);
}

/// Builds a string from a slice of characters.
pub fn string_of(chars: &[char]) -> (res: String)
    ensures
        res@ == chars@,
{
    let mut res = String::new();
    let mut i: usize = 0;
    while i < chars.len()
        invariant
            i <= chars.len(),
            res@ == chars@.take(i as int),
        decreases chars.len() - i,
    {
        push_char(&mut res, chars[i]);
        assert(chars@.take(i as int + 1) == chars@.take(i as int).push(chars@[i as int]));
        i += 1;
    }
    assert(chars@.take(chars.len() as int) == chars@);
    res
}

/// Builds a string from a string literal or slice.
pub fn string_from(s: &str) -> (res: String)
    ensures
        res@ == s@,
{
    s.to_owned()
}

/// Appends a string slice to a string.
pub fn append_str(s: &mut String, t: &str)
    ensures
        final(s)@ == old(s)@ + t@,
{
    let chars = chars_of(t);
    let mut i: usize = 0;
    while i < chars.len()
        invariant
            i <= chars.len(),
            chars@ == t@,
            s@ == old(s)@ + t@.take(i as int),
        decreases chars.len() - i,
    {
        push_char(s, chars[i]);
        assert(t@.take(i as int + 1) == t@.take(i as int).push(t@[i as int]));
        i += 1;
    }
    assert(t@.take(t@.len() as int) == t@);
}

/// Copies the range `from..to` of a character slice.
pub fn copy_range(s: &[char], from: usize, to: usize) -> (res: Vec<char>)
    requires
        from <= to <= s@.len(),
    ensures
        res@ == s@.subrange(from as int, to as int),
{
    slice_to_vec(slice_subrange(s, from, to))
}

pub fn seq_eq(a: &[char], b: &[char]) -> (r: bool)
    ensures
        r == (a@ == b@),
{
    if a.len() != b.len() {
        return false;
    }
    let mut i: usize = 0;
    while i < a.len()
        invariant
            a@.len() == b@.len(),
            i <= a.len(),
            forall|j: int| 0 <= j < i ==> a@[j] == b@[j],
        decreases a.len() - i,
    {
        if a[i] != b[i] {
            return false;
        }
        i += 1;
    }
    assert(a@ =~= b@);
    true
}

/// Whether two strings hold the same characters.
pub fn str_eq(a: &str, b: &str) -> (r: bool)
    ensures
        r == (a@ == b@),
{
    let x = chars_of(a);
    let y = chars_of(b);
    seq_eq(x.as_slice(), y.as_slice())
}

// ---------------------------------------------------------------------------
// Length in bytes
// ---------------------------------------------------------------------------

/// The number of bytes UTF-8 takes for a character.
pub open spec fn char_width(c: char) -> nat {
    if (c as u32) < 0x80 {
        1
    } else if (c as u32) < 0x800 {
        2
    } else if (c as u32) < 0x10000 {
        3
    } else {
        4
    }
}

/// The length of a string in bytes (`str::len`).
pub open spec fn utf8_len(s: Seq<char>) -> nat
    decreases s.len(),
{
    if s.len() == 0 {
        0
    } else {
        utf8_len(s.drop_last()) + char_width(s.last())
    }
}

pub proof fn lemma_utf8_len_prefix(s: Seq<char>, i: int)
    requires
        0 <= i <= s.len(),
    ensures
        utf8_len(s.take(i)) <= utf8_len(s),
    decreases s.len() - i,
{
    if i < s.len() {
        lemma_utf8_len_prefix(s, i + 1);
        assert(s.take(i + 1).drop_last() == s.take(i));
    } else {
        assert(s.take(i) == s);
    }
}

fn char_width_exec(c: char) -> (w: usize)
    ensures
        w == char_width(c),
{
    let v = c as u32;
    if v < 0x80 {
        1
    } else if v < 0x800 {
        2
    } else if v < 0x10000 {
        3
    } else {
        4
    }
}

/// Whether a string takes at most `limit` bytes.
pub fn utf8_len_at_most(s: &[char], limit: usize) -> (r: bool)
    ensures
        r == (utf8_len(s@) <= limit),
{
    let mut total: usize = 0;
    let mut i: usize = 0;
    while i < s.len()
        invariant
            i <= s.len(),
            total == utf8_len(s@.take(i as int)),
            total <= limit,
        decreases s.len() - i,
    {
        let w = char_width_exec(s[i]);
        proof {
            assert(s@.take(i as int + 1).drop_last() == s@.take(i as int));
        }
        if w > limit - total {
            proof {
                lemma_utf8_len_prefix(s@, i as int + 1);
            }
            return false;
        }
        total = total + w;
        i += 1;
    }
    assert(s@.take(s.len() as int) == s@);
    true
}

// ---------------------------------------------------------------------------
// Leading and trailing runs, trimming
// ---------------------------------------------------------------------------

/// The length of the longest prefix whose characters all satisfy `p`.
pub open spec fn lead(s: Seq<char>, p: spec_fn(char) -> bool) -> nat
    decreases s.len(),
{
    if s.len() > 0 && p(s[0]) {
        1 + lead(s.drop_first(), p)
    } else {
        0
    }
}

/// The length of the longest suffix whose characters all satisfy `p`.
pub open spec fn trail(s: Seq<char>, p: spec_fn(char) -> bool) -> nat
    decreases s.len(),
{
    if s.len() > 0 && p(s.last()) {
        1 + trail(s.drop_last(), p)
    } else {
        0
    }
}

pub proof fn lemma_lead(s: Seq<char>, p: spec_fn(char) -> bool, k: int)
    requires
        0 <= k <= s.len(),
        forall|i: int| 0 <= i < k ==> p(#[trigger] s[i]),
        k == s.len() || !p(s[k]),
    ensures
        lead(s, p) == k,
    decreases k,
{
    if k > 0 {
        let t = s.drop_first();
        assert forall|i: int| 0 <= i < k - 1 implies p(#[trigger] t[i]) by {
            assert(t[i] == s[i + 1]);
        }
        if k - 1 < t.len() {
            assert(t[k - 1] == s[k]);
        }
        lemma_lead(t, p, k - 1);
    }
}

pub proof fn lemma_trail(s: Seq<char>, p: spec_fn(char) -> bool, k: int)
    requires
        0 <= k <= s.len(),
        forall|i: int| s.len() - k <= i < s.len() ==> p(#[trigger] s[i]),
        k == s.len() || !p(s[s.len() - k - 1]),
    ensures
        trail(s, p) == k,
    decreases k,
{
    if k > 0 {
        let t = s.drop_last();
        assert forall|i: int| t.len() - (k - 1) <= i < t.len() implies p(#[trigger] t[i]) by {
            assert(t[i] == s[i]);
        }
        if k - 1 < t.len() {
            assert(t[t.len() - (k - 1) - 1] == s[s.len() - k - 1]);
        }
        lemma_trail(t, p, k - 1);
    }
}

pub proof fn lemma_lead_bounds(s: Seq<char>, p: spec_fn(char) -> bool)
    ensures
        lead(s, p) <= s.len(),
        forall|i: int| 0 <= i < lead(s, p) ==> p(#[trigger] s[i]),
        lead(s, p) < s.len() ==> !p(s[lead(s, p) as int]),
    decreases s.len(),
{
    if s.len() > 0 && p(s[0]) {
        let t = s.drop_first();
        lemma_lead_bounds(t, p);
        assert forall|i: int| 0 <= i < lead(s, p) implies p(#[trigger] s[i]) by {
            if i > 0 {
                assert(s[i] == t[i - 1]);
            }
        }
        if lead(s, p) < s.len() {
            assert(s[lead(s, p) as int] == t[lead(t, p) as int]);
        }
    }
}

pub proof fn lemma_trail_bounds(s: Seq<char>, p: spec_fn(char) -> bool)
    ensures
        trail(s, p) <= s.len(),
        forall|i: int| s.len() - trail(s, p) <= i < s.len() ==> p(#[trigger] s[i]),
        trail(s, p) < s.len() ==> !p(s[s.len() - trail(s, p) - 1]),
    decreases s.len(),
{
    if s.len() > 0 && p(s.last()) {
        let t = s.drop_last();
        lemma_trail_bounds(t, p);
        assert forall|i: int| s.len() - trail(s, p) <= i < s.len() implies p(#[trigger] s[i]) by {
            if i < s.len() - 1 {
                assert(s[i] == t[i]);
            }
        }
        if trail(s, p) < s.len() {
            assert(s[s.len() - trail(s, p) - 1] == t[t.len() - trail(t, p) - 1]);
        }
    }
}

pub open spec fn trim_start_by(s: Seq<char>, p: spec_fn(char) -> bool) -> Seq<char> {
    s.skip(lead(s, p) as int)
}

pub open spec fn trim_end_by(s: Seq<char>, p: spec_fn(char) -> bool) -> Seq<char> {
    s.take(s.len() - trail(s, p))
}

/// `str::trim`.
pub open spec fn trim(s: Seq<char>) -> Seq<char> {
    trim_end_by(trim_start_by(s, whitespace()), whitespace())
}

/// `str::trim_start`.
pub open spec fn trim_start(s: Seq<char>) -> Seq<char> {
    trim_start_by(s, whitespace())
}

/// `str::trim_end`.
pub open spec fn trim_end(s: Seq<char>) -> Seq<char> {
    trim_end_by(s, whitespace())
}

/// The number of leading whitespace characters.
fn lead_whitespace(s: &[char]) -> (k: usize)
    ensures
        k == lead(s@, whitespace()),
{
    let mut k: usize = 0;
    while k < s.len() && char_is_whitespace(s[k])
        invariant
            k <= s.len(),
            forall|i: int| 0 <= i < k ==> is_whitespace(#[trigger] s@[i]),
        decreases s.len() - k,
    {
        k += 1;
    }
    proof {
        lemma_lead(s@, whitespace(), k as int);
    }
    k
}

/// The number of trailing whitespace characters.
fn trail_whitespace(s: &[char]) -> (k: usize)
    ensures
        k == trail(s@, whitespace()),
{
    let mut k: usize = 0;
    while k < s.len() && char_is_whitespace(s[s.len() - k - 1])
        invariant
            k <= s.len(),
            forall|i: int| s.len() - k <= i < s.len() ==> is_whitespace(#[trigger] s@[i]),
        decreases s.len() - k,
    {
        k += 1;
    }
    proof {
        lemma_trail(s@, whitespace(), k as int);
    }
    k
}

/// The number of leading characters equal to `c`.
fn lead_char(s: &[char], c: char) -> (k: usize)
    ensures
        k == lead(s@, equals(c)),
{
    let mut k: usize = 0;
    while k < s.len() && s[k] == c
        invariant
            k <= s.len(),
            forall|i: int| 0 <= i < k ==> #[trigger] s@[i] == c,
        decreases s.len() - k,
    {
        k += 1;
    }
    proof {
        lemma_lead(s@, equals(c), k as int);
    }
    k
}

/// The number of trailing characters equal to `c`.
fn trail_char(s: &[char], c: char) -> (k: usize)
    ensures
        k == trail(s@, equals(c)),
{
    let mut k: usize = 0;
    while k < s.len() && s[s.len() - k - 1] == c
        invariant
            k <= s.len(),
            forall|i: int| s.len() - k <= i < s.len() ==> #[trigger] s@[i] == c,
        decreases s.len() - k,
    {
        k += 1;
    }
    proof {
        lemma_trail(s@, equals(c), k as int);
    }
    k
}

/// `str::trim` on characters.
pub fn trim_chars(s: &[char]) -> (res: Vec<char>)
    ensures
        res@ == trim(s@),
{
    let a = lead_whitespace(s);
    proof {
        lemma_lead_bounds(s@, whitespace());
    }
    let rest = copy_range(s, a, s.len());
    let b = trail_whitespace(rest.as_slice());
    proof {
        lemma_trail_bounds(rest@, whitespace());
    }
    copy_range(rest.as_slice(), 0, rest.len() - b)
}

/// `str::trim_start` on characters.
pub fn trim_start_chars(s: &[char]) -> (res: Vec<char>)
    ensures
        res@ == trim_start(s@),
{
    let a = lead_whitespace(s);
    proof {
        lemma_lead_bounds(s@, whitespace());
    }
    copy_range(s, a, s.len())
}

/// `str::trim_end` on characters.
pub fn trim_end_chars(s: &[char]) -> (res: Vec<char>)
    ensures
        res@ == trim_end(s@),
{
    let b = trail_whitespace(s);
    proof {
        lemma_trail_bounds(s@, whitespace());
    }
    copy_range(s, 0, s.len() - b)
}

/// `str::trim_start_matches(c)` on characters.
pub fn trim_start_matches_chars(s: &[char], c: char) -> (res: Vec<char>)
    ensures
        res@ == trim_start_by(s@, equals(c)),
{
    let a = lead_char(s, c);
    proof {
        lemma_lead_bounds(s@, equals(c));
    }
    copy_range(s, a, s.len())
}

/// `str::trim_end_matches(c)` on characters.
pub fn trim_end_matches_chars(s: &[char], c: char) -> (res: Vec<char>)
    ensures
        res@ == trim_end_by(s@, equals(c)),
{
    let b = trail_char(s, c);
    proof {
        lemma_trail_bounds(s@, equals(c));
    }
    copy_range(s, 0, s.len() - b)
}

/// `str::trim`: the string without leading and trailing whitespace.
pub fn trim_str(s: &str) -> (res: Vec<char>)
    ensures
        res@ == trim(s@),
{
    let chars = chars_of(s);
    trim_chars(chars.as_slice())
}

/// ASCII lower case of every character.
pub fn lower_chars(s: &[char]) -> (res: Vec<char>)
    ensures
        res@ == lower(s@),
{
    let mut res: Vec<char> = Vec::new();
    let mut i: usize = 0;
    while i < s.len()
        invariant
            i <= s.len(),
            res@ == lower(s@.take(i as int)),
        decreases s.len() - i,
    {
        let c = char_to_lower(s[i]);
        res.push(c);
        assert(s@.take(i as int + 1) == s@.take(i as int).push(s@[i as int]));
        i += 1;
    }
    assert(s@.take(s.len() as int) == s@);
    res
}

/// ASCII upper case of every character.
pub fn upper_chars(s: &[char]) -> (res: Vec<char>)
    ensures
        res@ == upper(s@),
{
    let mut res: Vec<char> = Vec::new();
    let mut i: usize = 0;
    while i < s.len()
        invariant
            i <= s.len(),
            res@ == upper(s@.take(i as int)),
        decreases s.len() - i,
    {
        let c = char_to_upper(s[i]);
        res.push(c);
        assert(s@.take(i as int + 1) == s@.take(i as int).push(s@[i as int]));
        i += 1;
    }
    assert(s@.take(s.len() as int) == s@);
    res
}

// ---------------------------------------------------------------------------
// Prefixes, suffixes, containment
// ---------------------------------------------------------------------------

pub open spec fn starts_with(s: Seq<char>, p: Seq<char>) -> bool {
    p.len() <= s.len() && s.take(p.len() as int) == p
}

pub open spec fn ends_with(s: Seq<char>, p: Seq<char>) -> bool {
    p.len() <= s.len() && s.skip(s.len() - p.len()) == p
}

pub open spec fn occurs_at(s: Seq<char>, p: Seq<char>, i: int) -> bool {
    0 <= i && i + p.len() <= s.len() && s.subrange(i, i + p.len()) == p
}

pub open spec fn contains_seq(s: Seq<char>, p: Seq<char>) -> bool {
    exists|i: int| occurs_at(s, p, i)
}

pub open spec fn strip_prefix(s: Seq<char>, p: Seq<char>) -> Option<Seq<char>> {
    if starts_with(s, p) {
        Some(s.skip(p.len() as int))
    } else {
        None
    }
}

pub open spec fn strip_suffix(s: Seq<char>, p: Seq<char>) -> Option<Seq<char>> {
    if ends_with(s, p) {
        Some(s.take(s.len() - p.len()))
    } else {
        None
    }
}

/// Whether `p` occurs in `s` at index `i`.
pub fn occurs_at_chars(s: &[char], p: &[char], i: usize) -> (r: bool)
    ensures
        r == occurs_at(s@, p@, i as int),
{
    if i > s.len() || p.len() > s.len() - i {
        return false;
    }
    let mut k: usize = 0;
    while k < p.len()
        invariant
            i + p.len() <= s.len(),
            k <= p.len(),
            forall|j: int| 0 <= j < k ==> s@[i + j] == p@[j],
        decreases p.len() - k,
    {
        if s[i + k] != p[k] {
            assert(s@.subrange(i as int, i + p.len())[k as int] != p@[k as int]);
            return false;
        }
        k += 1;
    }
    assert(s@.subrange(i as int, i + p.len()) =~= p@);
    true
}

pub fn starts_with_chars(s: &[char], p: &[char]) -> (r: bool)
    ensures
        r == starts_with(s@, p@),
{
    let r = occurs_at_chars(s, p, 0);
    assert(s@.subrange(0, p@.len() as int) == s@.take(p@.len() as int));
    r
}

pub fn ends_with_chars(s: &[char], p: &[char]) -> (r: bool)
    ensures
        r == ends_with(s@, p@),
{
    if p.len() > s.len() {
        return false;
    }
    let r = occurs_at_chars(s, p, s.len() - p.len());
    assert(s@.subrange(s@.len() - p@.len(), s@.len() as int) == s@.skip(s@.len() - p@.len()));
    r
}

pub fn contains_chars(s: &[char], p: &[char]) -> (r: bool)
    ensures
        r == contains_seq(s@, p@),
{
    if p.len() > s.len() {
        assert forall|i: int| !occurs_at(s@, p@, i) by {}
        return false;
    }
    let last = s.len() - p.len();
    let mut i: usize = 0;
    loop
        invariant
            p.len() <= s.len(),
            last == s.len() - p.len(),
            i <= last,
            forall|j: int| 0 <= j < i ==> !occurs_at(s@, p@, j),
        ensures
            forall|j: int| 0 <= j <= last ==> !occurs_at(s@, p@, j),
        decreases last - i,
    {
        if occurs_at_chars(s, p, i) {
            return true;
        }
        if i == last {
            break;
        }
        i += 1;
    }
    assert forall|j: int| !occurs_at(s@, p@, j) by {
        if 0 <= j <= last {
        }
    }
    false
}

/// Whether a character occurs in a character slice.
pub fn has_char(s: &[char], c: char) -> (r: bool)
    ensures
        r == s@.contains(c),
{
    let mut i: usize = 0;
    while i < s.len()
        invariant
            i <= s.len(),
            forall|j: int| 0 <= j < i ==> s@[j] != c,
        decreases s.len() - i,
    {
        if s[i] == c {
            assert(s@[i as int] == c);
            return true;
        }
        i += 1;
    }
    false
}

// ---------------------------------------------------------------------------
// Splitting
// ---------------------------------------------------------------------------

/// `str::split` by a predicate on characters, defined from the end: the
/// pieces of `s` are the pieces of `s` without its last character, with that
/// character either opening a new piece (a separator) or extending the last.
pub open spec fn split_by(s: Seq<char>, p: spec_fn(char) -> bool) -> Seq<Seq<char>>
    decreases s.len(),
{
    if s.len() == 0 {
        seq![Seq::<char>::empty()]
    } else {
        let rest = split_by(s.drop_last(), p);
        if p(s.last()) {
            rest.push(Seq::<char>::empty())
        } else {
            rest.update(rest.len() - 1, rest.last().push(s.last()))
        }
    }
}

/// `str::split(c)`.
pub open spec fn split(s: Seq<char>, c: char) -> Seq<Seq<char>> {
    split_by(s, equals(c))
}

pub proof fn lemma_split_by_len(s: Seq<char>, p: spec_fn(char) -> bool)
    ensures
        split_by(s, p).len() >= 1,
    decreases s.len(),
{
    if s.len() > 0 {
        lemma_split_by_len(s.drop_last(), p);
    }
}

/// The first piece of a split is empty when the text starts with a
/// separator (and then a second piece follows); otherwise it starts with the
/// text's first character.
pub proof fn lemma_split_by_first(s: Seq<char>, p: spec_fn(char) -> bool)
    requires
        s.len() > 0,
    ensures
        p(s[0]) ==> split_by(s, p).len() >= 2 && split_by(s, p)[0].len() == 0,
        !p(s[0]) ==> split_by(s, p).len() >= 1 && split_by(s, p)[0].len() > 0 && split_by(
            s,
            p,
        )[0][0] == s[0],
    decreases s.len(),
{
    let t = s.drop_last();
    lemma_split_by_len(t, p);
    if t.len() > 0 {
        lemma_split_by_first(t, p);
        assert(t[0] == s[0]);
    } else {
        assert(split_by(t, p) =~= seq![Seq::<char>::empty()]);
        assert(s.last() == s[0]);
    }
}

/// The last piece of a split is empty when the text ends with a separator;
/// otherwise it ends with the text's last character.
pub proof fn lemma_split_by_last(s: Seq<char>, p: spec_fn(char) -> bool)
    requires
        s.len() > 0,
    ensures
        split_by(s, p).len() >= 1,
        p(s.last()) ==> split_by(s, p).last().len() == 0,
        !p(s.last()) ==> split_by(s, p).last().len() > 0 && split_by(s, p).last().last()
            == s.last(),
{
    lemma_split_by_len(s.drop_last(), p);
}

/// No piece of a split holds a separator.
pub proof fn lemma_split_by_pieces(s: Seq<char>, p: spec_fn(char) -> bool)
    ensures
        forall|i: int, j: int|
            0 <= i < split_by(s, p).len() && 0 <= j < split_by(s, p)[i].len() ==> !p(
                #[trigger] split_by(s, p)[i][j],
            ),
    decreases s.len(),
{
    if s.len() > 0 {
        lemma_split_by_pieces(s.drop_last(), p);
        lemma_split_by_len(s.drop_last(), p);
    }
}

/// The character sequences held by a sequence of character vectors.
pub open spec fn views(v: Seq<Vec<char>>) -> Seq<Seq<char>> {
    v.map_values(|x: Vec<char>| x@)
}

/// Splits a character slice at every character equal to `c`.
pub fn split_chars(s: &[char], c: char) -> (res: Vec<Vec<char>>)
    ensures
        views(res@) == split(s@, c),
{
    let mut res: Vec<Vec<char>> = Vec::new();
    let mut cur: Vec<char> = Vec::new();
    let mut i: usize = 0;
    proof {
        assert(s@.take(0) =~= Seq::<char>::empty());
    }
    while i < s.len()
        invariant
            i <= s.len(),
            views(res@).push(cur@) == split(s@.take(i as int), c),
        decreases s.len() - i,
    {
        let ghost prev = s@.take(i as int);
        proof {
            assert(s@.take(i as int + 1).drop_last() == prev);
            assert(s@.take(i as int + 1).last() == s@[i as int]);
            lemma_split_by_len(prev, equals(c));
        }
        if s[i] == c {
            let ghost before = res@;
            let done = cur;
            res.push(done);
            cur = Vec::new();
            proof {
                assert(res@ == before.push(done));
                assert(views(res@) =~= views(before).push(done@));
                assert(views(res@).push(cur@) =~= split(prev, c).push(Seq::<char>::empty()));
            }
        } else {
            cur.push(s[i]);
            proof {
                let r = split(prev, c);
                assert(views(res@).push(cur@) =~= r.update(r.len() - 1, r.last().push(s@[i as int])));
            }
        }
        i += 1;
    }
    assert(s@.take(s.len() as int) == s@);
    let ghost before = res@;
    let ghost last = cur@;
    res.push(cur);
    assert(views(res@) =~= views(before).push(last));
    res
}

/// The first index of `c` in `s`, or the length of `s`.
pub open spec fn find(s: Seq<char>, c: char) -> nat {
    lead(s, differs(c))
}

pub open spec fn differs(x: char) -> spec_fn(char) -> bool {
    |c: char| c != x
}

/// `str::split_once(c)`.
pub open spec fn split_once(s: Seq<char>, c: char) -> Option<(Seq<char>, Seq<char>)> {
    if find(s, c) < s.len() {
        Some((s.take(find(s, c) as int), s.skip(find(s, c) as int + 1)))
    } else {
        None
    }
}

pub proof fn lemma_find(s: Seq<char>, c: char)
    ensures
        find(s, c) <= s.len(),
        forall|i: int| 0 <= i < find(s, c) ==> #[trigger] s[i] != c,
        find(s, c) < s.len() ==> s[find(s, c) as int] == c,
        find(s, c) == s.len() <==> !s.contains(c),
{
    lemma_lead_bounds(s, differs(c));
    if find(s, c) == s.len() {
        assert forall|i: int| 0 <= i < s.len() implies s[i] != c by {
            assert(0 <= i < find(s, c));
        }
    }
}

/// The index of the first `c` in `s`, or the length of `s`.
pub fn find_char(s: &[char], c: char) -> (k: usize)
    ensures
        k == find(s@, c),
{
    let mut k: usize = 0;
    while k < s.len() && s[k] != c
        invariant
            k <= s.len(),
            forall|i: int| 0 <= i < k ==> #[trigger] s@[i] != c,
        decreases s.len() - k,
    {
        k += 1;
    }
    proof {
        lemma_lead(s@, differs(c), k as int);
    }
    k
}

/// `str::split_once(c)` on characters.
pub fn split_once_chars(s: &[char], c: char) -> (res: Option<(Vec<char>, Vec<char>)>)
    ensures
        match res {
            Some((a, b)) => split_once(s@, c) == Some((a@, b@)),
            None => split_once(s@, c) is None,
        },
{
    let k = find_char(s, c);
    proof {
        lemma_find(s@, c);
    }
    if k < s.len() {
        Some((copy_range(s, 0, k), copy_range(s, k + 1, s.len())))
    } else {
        None
    }
}

/// Drops one trailing carriage return.
pub open spec fn strip_cr(s: Seq<char>) -> Seq<char> {
    if s.len() > 0 && s.last() == '\r' {
        s.drop_last()
    } else {
        s
    }
}

/// `str::lines`: the pieces between line feeds; a piece that a line feed ends
/// loses one trailing carriage return, and an empty final piece is no line.
pub open spec fn strip_cr_all(p: Seq<Seq<char>>) -> Seq<Seq<char>> {
    p.map_values(|l: Seq<char>| strip_cr(l))
}

pub open spec fn lines(s: Seq<char>) -> Seq<Seq<char>> {
    let p = split(s, '\n');
    let ended = strip_cr_all(p.take(p.len() - 1));
    if p.last().len() == 0 {
        ended
    } else {
        ended.push(p.last())
    }
}

fn strip_cr_chars(s: Vec<char>) -> (res: Vec<char>)
    ensures
        res@ == strip_cr(s@),
{
    if s.len() > 0 && s[s.len() - 1] == '\r' {
        copy_range(s.as_slice(), 0, s.len() - 1)
    } else {
        s
    }
}

/// `str::lines` on characters.
pub fn lines_chars(s: &[char]) -> (res: Vec<Vec<char>>)
    ensures
        views(res@) == lines(s@),
{
    let pieces = split_chars(s, '\n');
    let ghost p = split(s@, '\n');
    proof {
        lemma_split_by_len(s@, equals('\n'));
    }
    let n = pieces.len();
    let mut res: Vec<Vec<char>> = Vec::new();
    let mut i: usize = 0;
    while i + 1 < n
        invariant
            n == pieces@.len() == p.len(),
            n >= 1,
            views(pieces@) == p,
            i <= n - 1,
            views(res@) == strip_cr_all(p.take(i as int)),
        decreases n - i,
    {
        let piece = pieces[i].clone();
        proof {
            assert(piece@ == p[i as int]);
        }
        let line = strip_cr_chars(piece);
        let ghost before = res@;
        let ghost lv = line@;
        res.push(line);
        proof {
            assert(p.take(i as int + 1) == p.take(i as int).push(p[i as int]));
            assert(views(res@) =~= views(before).push(lv));
            assert(views(res@) =~= strip_cr_all(p.take(i as int + 1)));
        }
        i += 1;
    }
    let last = pieces[n - 1].clone();
    proof {
        assert(last@ == p.last());
    }
    if last.len() > 0 {
        let ghost before = res@;
        let ghost lv = last@;
        res.push(last);
        assert(views(res@) =~= views(before).push(lv));
    }
    res
}

// ---------------------------------------------------------------------------
// Joining
// ---------------------------------------------------------------------------

/// `[&str]::join(sep)`.
pub open spec fn join(parts: Seq<Seq<char>>, sep: Seq<char>) -> Seq<char>
    decreases parts.len(),
{
    if parts.len() == 0 {
        Seq::<char>::empty()
    } else if parts.len() == 1 {
        parts[0]
    } else {
        join(parts.drop_last(), sep) + sep + parts.last()
    }
}

/// Joins character vectors with a separator.
pub fn join_chars(parts: &Vec<Vec<char>>, sep: &[char]) -> (res: Vec<char>)
    ensures
        res@ == join(views(parts@), sep@),
{
    let mut res: Vec<char> = Vec::new();
    let mut i: usize = 0;
    while i < parts.len()
        invariant
            i <= parts.len(),
            res@ == join(views(parts@).take(i as int), sep@),
        decreases parts.len() - i,
    {
        let ghost before = res@;
        if i > 0 {
            let mut k: usize = 0;
            while k < sep.len()
                invariant
                    k <= sep.len(),
                    res@ == before + sep@.take(k as int),
                decreases sep.len() - k,
            {
                res.push(sep[k]);
                assert(sep@.take(k as int + 1) == sep@.take(k as int).push(sep@[k as int]));
                k += 1;
            }
            assert(sep@.take(sep.len() as int) == sep@);
        }
        let ghost middle = res@;
        let part = &parts[i];
        assert(part@ == views(parts@)[i as int]);
        let mut k: usize = 0;
        while k < part.len()
            invariant
                k <= part.len(),
                res@ == middle + part@.take(k as int),
            decreases part.len() - k,
        {
            res.push(part[k]);
            assert(part@.take(k as int + 1) == part@.take(k as int).push(part@[k as int]));
            k += 1;
        }
        proof {
            assert(part@.take(part.len() as int) == part@);
            let dv = views(parts@);
            assert(dv.take(i as int + 1).drop_last() == dv.take(i as int));
            assert(dv.take(i as int + 1).last() == dv[i as int]);
            if i == 0 {
                assert(res@ =~= dv.take(1)[0]);
            } else {
                assert(res@ =~= join(dv.take(i as int), sep@) + sep@ + dv[i as int]);
            }
        }
        i += 1;
    }
    assert(views(parts@).take(parts.len() as int) == views(parts@));
    res
}


// ---------------------------------------------------------------------------
// Numbers
// ---------------------------------------------------------------------------

pub open spec fn digit_char(d: nat) -> char {
    ((d % 10) + 48) as char
}

/// The decimal digits of a natural number.
pub open spec fn digits(n: nat) -> Seq<char>
    decreases n,
{
    if n < 10 {
        seq![digit_char(n)]
    } else {
        digits(n / 10).push(digit_char(n % 10))
    }
}

/// The decimal text of an integer, with a leading `-` when negative.
pub open spec fn decimal(n: int) -> Seq<char> {
    if n < 0 {
        seq!['-'] + digits((-n) as nat)
    } else {
        digits(n as nat)
    }
}

fn digits_exec(n: u64) -> (res: Vec<char>)
    ensures
        res@ == digits(n as nat),
    decreases n,
{
    let d = (n % 10) as u8;
    let c = (48u8 + d) as char;
    assert(c == digit_char(n as nat));
    if n < 10 {
        vec![c]
    } else {
        let mut res = digits_exec(n / 10);
        res.push(c);
        res
    }
}

/// The decimal text of a signed integer (`i64`'s `Display`).
pub fn decimal_i64(n: i64) -> (res: String)
    ensures
        res@ == decimal(n as int),
{
    if n < 0 {
        let magnitude: u64 = if n == i64::MIN {
            9223372036854775808u64
        } else {
            (-n) as u64
        };
        let d = digits_exec(magnitude);
        let mut s = String::new();
        push_char(&mut s, '-');
        let t = string_of(d.as_slice());
        append_str(&mut s, t.as_str());
        s
    } else {
        let d = digits_exec(n as u64);
        string_of(d.as_slice())
    }
}

/// The decimal text of an unsigned integer (`u64`'s `Display`).
pub fn decimal_u64(n: u64) -> (res: String)
    ensures
        res@ == decimal(n as int),
{
    let d = digits_exec(n);
    string_of(d.as_slice())
}

} // verus!
