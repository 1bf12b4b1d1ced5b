//! The order of strings (by code point, which is the order of their UTF-8
//! bytes and so the order `String` implements) and a sort by a two-part key.
use vstd::prelude::*;
use crate::text::chars_of;
use vstd::multiset::Multiset;

verus! {

broadcast use vstd::seq_lib::group_to_multiset_ensures;

/// `a <= b` in the lexicographic order of code points.
pub open spec fn lex_le(a: Seq<char>, b: Seq<char>) -> bool
    decreases a.len(),
{
    if a.len() == 0 {
        true
    } else if b.len() == 0 {
        false
    } else if a[0] != b[0] {
        a[0] < b[0]
    } else {
        lex_le(a.drop_first(), b.drop_first())
    }
}

pub open spec fn lex_lt(a: Seq<char>, b: Seq<char>) -> bool {
    lex_le(a, b) && a != b
}

pub proof fn lemma_lex_reflexive(a: Seq<char>)
    ensures
        lex_le(a, a),
    decreases a.len(),
{
    if a.len() > 0 {
        lemma_lex_reflexive(a.drop_first());
    }
}

pub proof fn lemma_lex_total(a: Seq<char>, b: Seq<char>)
    ensures
        lex_le(a, b) || lex_le(b, a),
    decreases a.len(),
{
    if a.len() > 0 && b.len() > 0 && a[0] == b[0] {
        lemma_lex_total(a.drop_first(), b.drop_first());
    }
}

pub proof fn lemma_lex_antisymmetric(a: Seq<char>, b: Seq<char>)
    requires
        lex_le(a, b),
        lex_le(b, a),
    ensures
        a == b,
    decreases a.len(),
{
    if a.len() > 0 && b.len() > 0 {
        lemma_lex_antisymmetric(a.drop_first(), b.drop_first());
        assert(a =~= seq![a[0]] + a.drop_first());
        assert(b =~= seq![b[0]] + b.drop_first());
    } else {
        assert(a.len() == 0 && b.len() == 0);
        assert(a =~= b);
    }
}

pub proof fn lemma_lex_transitive(a: Seq<char>, b: Seq<char>, c: Seq<char>)
    requires
        lex_le(a, b),
        lex_le(b, c),
    ensures
        lex_le(a, c),
    decreases a.len(),
{
    if a.len() > 0 && b.len() > 0 && c.len() > 0 && a[0] == b[0] && b[0] == c[0] {
        lemma_lex_transitive(a.drop_first(), b.drop_first(), c.drop_first());
    }
}

proof fn lemma_lex_skip(a: Seq<char>, b: Seq<char>, i: int)
    requires
        0 <= i <= a.len(),
        i <= b.len(),
        forall|j: int| 0 <= j < i ==> a[j] == b[j],
    ensures
        lex_le(a, b) == lex_le(a.skip(i), b.skip(i)),
    decreases i,
{
    if i > 0 {
        lemma_lex_skip(a.drop_first(), b.drop_first(), i - 1);
        assert(a.drop_first().skip(i - 1) =~= a.skip(i));
        assert(b.drop_first().skip(i - 1) =~= b.skip(i));
    } else {
        assert(a.skip(0) =~= a);
        assert(b.skip(0) =~= b);
    }
}

/// Compares two character slices in code-point order.
pub fn lex_le_chars(a: &[char], b: &[char]) -> (r: bool)
    ensures
        r == lex_le(a@, b@),
{
    let mut i: usize = 0;
    while i < a.len() && i < b.len() && a[i] == b[i]
        invariant
            i <= a.len(),
            i <= b.len(),
            forall|j: int| 0 <= j < i ==> a@[j] == b@[j],
        decreases a.len() - i,
    {
        i += 1;
    }
    proof {
        lemma_lex_skip(a@, b@, i as int);
    }
    if i == a.len() {
        true
    } else if i == b.len() {
        false
    } else {
        assert(a@.skip(i as int)[0] == a@[i as int]);
        assert(b@.skip(i as int)[0] == b@[i as int]);
        a[i] < b[i]
    }
}

/// `a <= b` for strings, in the order `String` implements.
pub fn str_le(a: &str, b: &str) -> (r: bool)
    ensures
        r == lex_le(a@, b@),
{
    let x = chars_of(a);
    let y = chars_of(b);
    lex_le_chars(x.as_slice(), y.as_slice())
}

/// Two-part sort keys: a rank (`false` before `true`), then a name.
pub open spec fn key_le(a: (bool, Seq<char>), b: (bool, Seq<char>)) -> bool {
    (!a.0 && b.0) || (a.0 == b.0 && lex_le(a.1, b.1))
}

pub proof fn lemma_key_total(a: (bool, Seq<char>), b: (bool, Seq<char>))
    ensures
        key_le(a, b) || key_le(b, a),
{
    lemma_lex_total(a.1, b.1);
}

pub proof fn lemma_key_transitive(a: (bool, Seq<char>), b: (bool, Seq<char>), c: (bool, Seq<char>))
    requires
        key_le(a, b),
        key_le(b, c),
    ensures
        key_le(a, c),
{
    if a.0 == b.0 && b.0 == c.0 {
        lemma_lex_transitive(a.1, b.1, c.1);
    }
}

/// Values that are sorted by a rank and a name.
pub trait SortKey: Sized {
    spec fn sort_key(&self) -> (bool, Seq<char>);

    fn rank(&self) -> (r: bool)
        ensures
            r == self.sort_key().0,
    ;

    fn name_chars(&self) -> (r: Vec<char>)
        ensures
            r@ == self.sort_key().1,
    ;
}

pub open spec fn sorted_by_key<T: SortKey>(s: Seq<T>) -> bool {
    forall|i: int, j: int| 0 <= i < j < s.len() ==> key_le(s[i].sort_key(), s[j].sort_key())
}

/// `a <= b` by rank, then by name.
pub fn key_le_exec<T: SortKey>(a: &T, b: &T) -> (r: bool)
    ensures
        r == key_le(a.sort_key(), b.sort_key()),
{
    let ra = a.rank();
    let rb = b.rank();
    if ra != rb {
        !ra
    } else {
        let na = a.name_chars();
        let nb = b.name_chars();
        lex_le_chars(na.as_slice(), nb.as_slice())
    }
}

proof fn lemma_insert_multiset<T>(s: Seq<T>, pos: int, x: T)
    requires
        0 <= pos <= s.len(),
    ensures
        s.insert(pos, x).to_multiset() == s.to_multiset().insert(x),
{
    broadcast use vstd::multiset::group_multiset_axioms;

    let t = s.insert(pos, x);
    s.insert_ensures(pos, x);
    assert(t.remove(pos) =~= s);
    assert(t.remove(pos).to_multiset() =~= t.to_multiset().remove(t[pos]));
    assert(t.contains(x)) by {
        assert(t[pos] == x);
    }
    assert(t.to_multiset().count(x) > 0);
    assert(t.to_multiset() =~= s.to_multiset().insert(x));
}

/// Sorts by rank, then by name; elements of equal keys keep their order.
pub fn sort_by_key<T: SortKey>(v: Vec<T>) -> (res: Vec<T>)
    ensures
        res@.to_multiset() == v@.to_multiset(),
        sorted_by_key(res@),
{
    broadcast use vstd::multiset::group_multiset_axioms;

    let mut rest = v;
    let mut out: Vec<T> = Vec::new();
    let ghost orig = rest@;
    while rest.len() > 0
        invariant
            out@.to_multiset().add(rest@.to_multiset()) == orig.to_multiset(),
            sorted_by_key(out@),
        decreases rest.len(),
    {
        let ghost before_rest = rest@;
        let x = rest.remove(0);
        proof {
            assert(before_rest.remove(0).to_multiset() =~= before_rest.to_multiset().remove(
                before_rest[0],
            ));
            assert(before_rest.to_multiset().count(x) > 0) by {
                assert(before_rest.contains(x)) by {
                    assert(before_rest[0] == x);
                }
            }
        }
        let mut pos: usize = 0;
        while pos < out.len() && key_le_exec(&out[pos], &x)
            invariant
                pos <= out.len(),
                forall|k: int| 0 <= k < pos ==> key_le(#[trigger] out@[k].sort_key(), x.sort_key()),
            decreases out.len() - pos,
        {
            pos += 1;
        }
        let ghost before_out = out@;
        proof {
            if pos < out.len() {
                assert(!key_le(out@[pos as int].sort_key(), x.sort_key()));
                lemma_key_total(out@[pos as int].sort_key(), x.sort_key());
            }
            assert forall|k: int| pos <= k < out@.len() implies key_le(
                x.sort_key(),
                #[trigger] out@[k].sort_key(),
            ) by {
                if k > pos {
                    lemma_key_transitive(
                        x.sort_key(),
                        out@[pos as int].sort_key(),
                        out@[k].sort_key(),
                    );
                }
            }
            lemma_insert_multiset(before_out, pos as int, x);
            before_out.insert_ensures(pos as int, x);
        }
        out.insert(pos, x);
        proof {
            let n = out@;
            assert forall|i: int, j: int| 0 <= i < j < n.len() implies key_le(
                n[i].sort_key(),
                n[j].sort_key(),
            ) by {
                if j < pos {
                } else if j == pos {
                } else if i < pos {
                    lemma_key_transitive(
                        n[i].sort_key(),
                        x.sort_key(),
                        n[j].sort_key(),
                    );
                } else if i == pos {
                } else {
                }
            }
            assert(out@.to_multiset().add(rest@.to_multiset()) =~= orig.to_multiset());
        }
    }
    proof {
        assert(rest@.to_multiset() =~= Multiset::empty());
        assert(out@.to_multiset() =~= orig.to_multiset());
    }
    out
}

impl SortKey for String {
    open spec fn sort_key(&self) -> (bool, Seq<char>) {
        (false, self@)
    }

    fn rank(&self) -> (r: bool) {
        false
    }

    fn name_chars(&self) -> (r: Vec<char>) {
        chars_of(self.as_str())
    }
}

} // verus!
