//! The admin interface's static files: which file a path asks for, and the
//! content type it is served with.
use vstd::prelude::*;
use crate::git::{has_parent_part, has_parent_part_chars};
use crate::text::{chars_of, equals, lemma_split_by_len, seq_eq, split, split_chars, string_from};

verus! {

/// The file a request path names: `index.html` for the empty path.
pub open spec fn requested_file(path: Seq<char>) -> Seq<char> {
    if path.len() == 0 {
        "index.html"@
    } else {
        path
    }
}

pub fn requested_asset(path: &str) -> (r: String)
    ensures
        r@ == requested_file(path@),
{
    let c = chars_of(path);
    if c.len() == 0 {
        string_from("index.html")
    } else {
        string_from(path)
    }
}

/// What follows the last `.` of a name, or the whole name without one.
pub open spec fn extension(name: Seq<char>) -> Seq<char> {
    split(name, '.').last()
}

/// The content type of a file, by its extension.
pub open spec fn content_type_of(name: Seq<char>) -> Seq<char> {
    let e = extension(name);
    if e == "js"@ {
        "text/javascript; charset=utf-8"@
    } else if e == "css"@ {
        "text/css; charset=utf-8"@
    } else if e == "svg"@ {
        "image/svg+xml"@
    } else {
        "text/html; charset=utf-8"@
    }
}

/// The content type a requested file is served with.
pub fn content_type(requested: &str) -> (r: &'static str)
    ensures
        r@ == content_type_of(requested@),
{
    let c = chars_of(requested);
    let pieces = split_chars(c.as_slice(), '.');
    proof {
        lemma_split_by_len(requested@, equals('.'));
    }
    let last = &pieces[pieces.len() - 1];
    let js = chars_of("js");
    let css = chars_of("css");
    let svg = chars_of("svg");
    if seq_eq(last.as_slice(), js.as_slice()) {
        "text/javascript; charset=utf-8"
    } else if seq_eq(last.as_slice(), css.as_slice()) {
        "text/css; charset=utf-8"
    } else if seq_eq(last.as_slice(), svg.as_slice()) {
        "image/svg+xml"
    } else {
        "text/html; charset=utf-8"
    }
}

/// A requested file stays inside the asset directory: a relative path
/// without `..` parts.
pub fn asset_path_ok(name: &str) -> (r: bool)
    ensures
        r == (!(name@.len() > 0 && name@[0] == '/') && !has_parent_part(name@)),
{
    let c = chars_of(name);
    !(c.len() > 0 && c[0] == '/') && !has_parent_part_chars(c.as_slice())
}

} // verus!
