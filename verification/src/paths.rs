//! Canonical filesystem paths (absolute, no `.` or `..` parts, no trailing
//! `/` except the root itself), compared by their components as
//! `Path::starts_with` and `Path::parent` do.
use vstd::prelude::*;
use crate::text::{chars_of, seq_eq, starts_with, starts_with_chars, string_of, copy_range};

verus! {

/// Whether `child` is `parent` or lies inside it.
pub open spec fn path_within(child: Seq<char>, parent: Seq<char>) -> bool {
    ||| child == parent
    ||| parent.len() > 0 && parent.last() == '/' && starts_with(child, parent)
    ||| starts_with(child, parent.push('/'))
}

/// Every path lies within itself.
pub proof fn lemma_path_within_reflexive(p: Seq<char>)
    ensures
        path_within(p, p),
{
}

/// What lies within a directory that lies within another lies within that
/// other too.
pub proof fn lemma_path_within_transitive(a: Seq<char>, b: Seq<char>, c: Seq<char>)
    requires
        path_within(a, b),
        path_within(b, c),
    ensures
        path_within(a, c),
{
    if a == b || b == c {
    } else {
        let pb = if b.len() > 0 && b.last() == '/' && starts_with(a, b) {
            b
        } else {
            b.push('/')
        };
        let pc = if c.len() > 0 && c.last() == '/' && starts_with(b, c) {
            c
        } else {
            c.push('/')
        };
        assert(starts_with(a, pb));
        assert(starts_with(b, pc));
        assert(pc.len() <= b.len());
        assert(b.len() <= pb.len());
        assert(a.take(pc.len() as int) =~= pb.take(pc.len() as int));
        assert(pb.take(pc.len() as int) =~= b.take(pc.len() as int));
        assert(starts_with(a, pc));
    }
}

pub fn path_within_str(child: &str, parent: &str) -> (r: bool)
    ensures
        r == path_within(child@, parent@),
{
    let c = chars_of(child);
    let p = chars_of(parent);
    if seq_eq(c.as_slice(), p.as_slice()) {
        return true;
    }
    if p.len() > 0 && p[p.len() - 1] == '/' && starts_with_chars(c.as_slice(), p.as_slice()) {
        return true;
    }
    let mut q = p.clone();
    q.push('/');
    starts_with_chars(c.as_slice(), q.as_slice())
}

/// The index of the last `/`, or the length when there is none.
pub open spec fn last_slash(p: Seq<char>) -> int
    decreases p.len(),
{
    if p.len() == 0 {
        0
    } else if p.last() == '/' {
        p.len() - 1
    } else if !p.drop_last().contains('/') {
        p.len() as int
    } else {
        last_slash(p.drop_last())
    }
}

/// `Path::parent` and `Path::file_name` of a canonical path with a name.
pub open spec fn split_name(p: Seq<char>) -> Option<(Seq<char>, Seq<char>)> {
    let k = last_slash(p);
    if k >= p.len() || k + 1 >= p.len() {
        None
    } else if k == 0 {
        Some((seq!['/'], p.skip(1)))
    } else {
        Some((p.take(k), p.skip(k + 1)))
    }
}

proof fn lemma_last_slash(p: Seq<char>)
    ensures
        0 <= last_slash(p) <= p.len(),
        last_slash(p) < p.len() ==> p[last_slash(p)] == '/',
        forall|i: int| last_slash(p) < i < p.len() ==> p[i] != '/',
        last_slash(p) == p.len() ==> !p.contains('/'),
    decreases p.len(),
{
    if p.len() > 0 && p.last() != '/' {
        if p.drop_last().contains('/') {
            lemma_last_slash(p.drop_last());
            let k = last_slash(p.drop_last());
            assert forall|i: int| k < i < p.len() implies p[i] != '/' by {
                if i < p.len() - 1 {
                    assert(p[i] == p.drop_last()[i]);
                }
            }
            if k == p.len() - 1 {
                assert(!p.drop_last().contains('/'));
            }
        } else {
            assert forall|i: int| 0 <= i < p.len() implies p[i] != '/' by {
                if i < p.len() - 1 {
                    assert(p[i] == p.drop_last()[i]);
                }
            }
        }
    }
}

fn last_slash_exec(p: &[char]) -> (k: usize)
    ensures
        k == last_slash(p@),
{
    proof {
        lemma_last_slash(p@);
    }
    let mut i: usize = p.len();
    while i > 0 && p[i - 1] != '/'
        invariant
            i <= p.len(),
            forall|j: int| i <= j < p.len() ==> p@[j] != '/',
        decreases i,
    {
        i -= 1;
    }
    let r = if i == 0 {
        p.len()
    } else {
        i - 1
    };
    proof {
        let k = last_slash(p@);
        if i == 0 {
            assert(!p@.contains('/'));
            if k < p@.len() {
                assert(p@[k] == '/');
            }
        } else {
            if k < i - 1 {
                assert(p@[i - 1] == '/');
            }
            if k > i - 1 && k < p@.len() {
                assert(p@[k] == '/');
            }
            if k == p@.len() {
                assert(p@[i - 1] == '/');
                assert(p@.contains('/'));
            }
        }
    }
    r
}

/// The parent directory and the name of a canonical path.
pub fn split_name_str(path: &str) -> (res: Option<(String, String)>)
    ensures
        match res {
            Some((parent, name)) => split_name(path@) == Some((parent@, name@)),
            None => split_name(path@) is None,
        },
{
    let p = chars_of(path);
    let k = last_slash_exec(p.as_slice());
    if k >= p.len() || k + 1 >= p.len() {
        return None;
    }
    let name = copy_range(p.as_slice(), k + 1, p.len());
    if k == 0 {
        let root = vec!['/'];
        assert(root@ =~= seq!['/']);
        assert(name@ =~= p@.skip(1));
        Some((string_of(root.as_slice()), string_of(name.as_slice())))
    } else {
        let parent = copy_range(p.as_slice(), 0, k);
        assert(parent@ =~= p@.take(k as int));
        assert(name@ =~= p@.skip(k as int + 1));
        Some((string_of(parent.as_slice()), string_of(name.as_slice())))
    }
}

} // verus!
