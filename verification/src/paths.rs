//! Paths as text. The library holds a path as a `String`. What the final
//! component of a path is, and what a path with another file name looks like,
//! is decided by `std::path`, whose answers are named here. How a file name
//! splits into stem and extension is stated and proved here, as `std::path`
//! documents it.
use vstd::prelude::*;
use crate::text::{chars_of, opt_text, slice_chars, text_of};

verus! {

/// The final component that `Path::file_name` finds in a path, if it has one.
/// `std::path` splits a path as the platform that the library is built for
/// writes paths.
pub uninterp spec fn file_name_of(path: Seq<char>) -> Option<Seq<char>>;

/// The path that `PathBuf::set_file_name` makes of a path and a new file name,
/// on the platform that the library is built for.
pub uninterp spec fn with_file_name_of(path: Seq<char>, name: Seq<char>) -> Seq<char>;

/// Where the last dot of a file name stands, or -1 where it has no dot.
pub open spec fn last_dot(name: Seq<char>) -> int
    decreases name.len(),
{
    if name.len() == 0 {
        -1
    } else if name.last() == '.' {
        name.len() - 1
    } else {
        last_dot(name.drop_last())
    }
}

/// The stem of a file name: the whole name where it has no dot, or only the
/// one it begins with; else what stands before its last dot.
pub open spec fn stem_of_name(name: Seq<char>) -> Seq<char> {
    if last_dot(name) <= 0 {
        name
    } else {
        name.take(last_dot(name))
    }
}

/// The extension of a file name: none where it has no dot, or only the one it
/// begins with; else what stands after its last dot.
pub open spec fn extension_of_name(name: Seq<char>) -> Option<Seq<char>> {
    if last_dot(name) <= 0 {
        None
    } else {
        Some(name.skip(last_dot(name) + 1))
    }
}

/// The stem of a path, as `Path::file_stem` is documented: the stem of its
/// final component, if it has one.
pub open spec fn file_stem_of(path: Seq<char>) -> Option<Seq<char>> {
    match file_name_of(path) {
        Some(name) => Some(stem_of_name(name)),
        None => None,
    }
}

/// The extension of a path, as `Path::extension` is documented: the extension
/// of its final component, if it has one.
pub open spec fn extension_of(path: Seq<char>) -> Option<Seq<char>> {
    match file_name_of(path) {
        Some(name) => extension_of_name(name),
        None => None,
    }
}

/// The stem of a path as text, empty where the path has none.
pub open spec fn stem_text(path: Seq<char>) -> Seq<char> {
    match file_stem_of(path) {
        Some(stem) => stem,
        None => Seq::empty(),
    }
}

/// Trusted: calls `Path::file_name` on the path and hands the component back
/// as text. The path came from a `str`, so the component is valid UTF-8.
#[verifier::external_body]
pub(crate) fn file_name(path: &str) -> (r: Option<String>)
    ensures
        opt_text(r) == file_name_of(path@),
{
    match std::path::Path::new(path).file_name() {
        Some(name) => Some(name.to_string_lossy().into_owned()),
        None => None,
    }
}

/// Trusted: copies the path into a `PathBuf`, calls `PathBuf::set_file_name`
/// with the new name, and hands the resulting path back as text.
#[verifier::external_body]
pub(crate) fn with_file_name(path: &str, name: &str) -> (r: String)
    ensures
        r@ == with_file_name_of(path@, name@),
{
    let mut buf = std::path::PathBuf::from(path);
    buf.set_file_name(name);
    buf.to_string_lossy().into_owned()
}

/// Where the last dot of a file name stands, if it has one.
pub fn find_last_dot(name: &Vec<char>) -> (r: Option<usize>)
    ensures
        match r {
            Some(at) => at == last_dot(name@) && at < name.len(),
            None => last_dot(name@) == -1,
        },
{
    let mut left: usize = name.len();
    assert(name@.take(left as int) =~= name@);
    while left > 0
        invariant
            left <= name.len(),
            last_dot(name@) == last_dot(name@.take(left as int)),
        decreases left,
    {
        proof {
            assert(name@.take(left as int).drop_last() =~= name@.take(left - 1));
            assert(name@.take(left as int).last() == name@[left - 1]);
        }
        if name[left - 1] == '.' {
            return Some(left - 1);
        }
        left = left - 1;
    }
    None
}

/// The stem and the extension of a file name.
pub fn split_file_name(name: &str) -> (r: (String, Option<String>))
    ensures
        r.0@ == stem_of_name(name@),
        opt_text(r.1) == extension_of_name(name@),
{
    let chars = chars_of(name);
    match find_last_dot(&chars) {
        Some(at) => {
            if at == 0 {
                (text_of(&chars), None)
            } else {
                let stem = slice_chars(&chars, 0, at);
                let rest = slice_chars(&chars, at + 1, chars.len());
                proof {
                    assert(chars@.take(at as int) =~= chars@.subrange(0, at as int));
                    assert(chars@.skip(at + 1) =~= chars@.subrange(at + 1, chars@.len() as int));
                }
                (text_of(&stem), Some(text_of(&rest)))
            }
        },
        None => (text_of(&chars), None),
    }
}

/// The stem of a path, if it has a final component.
pub fn file_stem(path: &str) -> (r: Option<String>)
    ensures
        opt_text(r) == file_stem_of(path@),
{
    match file_name(path) {
        Some(name) => Some(split_file_name(name.as_str()).0),
        None => None,
    }
}

/// The stem of a path as text, empty where the path has none.
pub fn stem_or_empty(path: &str) -> (r: String)
    ensures
        r@ == stem_text(path@),
{
    match file_stem(path) {
        Some(stem) => stem,
        None => String::new(),
    }
}

} // verus!
