//! Filesystem paths as the verified code sees them. A `PathBuf` is opaque; what the library
//! needs of one is named after the `std::path` operation that produces or inspects it.
use crate::text::chars_of;
use std::path::PathBuf;
use vstd::prelude::*;

verus! {

/// A filesystem path.
#[verifier::external_type_specification]
#[verifier::external_body]
pub struct ExPathBuf(std::path::PathBuf);

/// What `PathBuf::from` builds from the text `s`.
pub uninterp spec fn path_of(s: Seq<char>) -> PathBuf;

/// `PathBuf::from`: the path spelled `s`.
#[verifier::external_body]
pub fn path_from_str(s: &str) -> (p: PathBuf)
    ensures
        p == path_of(s@),
{
    PathBuf::from(s)
}

/// What `Path::join` gives for `base` joined with `rel`.
pub uninterp spec fn joined(base: PathBuf, rel: PathBuf) -> PathBuf;

/// Text that is one plain path component on every platform: not empty, not `.` or `..`, and
/// free of the characters that separate components or begin a drive prefix (`/`, `\`, `:`).
pub open spec fn single_component(s: Seq<char>) -> bool {
    &&& s.len() > 0
    &&& s != "."@ && s != ".."@
    &&& forall|i: int| 0 <= i < s.len() ==> s[i] != '/' && s[i] != '\\' && s[i] != ':'
}

/// `Path::join`: `rel` appended to `base`. A relative `rel` is appended after a separator
/// (`PathBuf::push`), so when `rel` is one plain component it is the joined path's final
/// component, which `Path::file_name` returns.
#[verifier::external_body]
pub fn path_join(base: &PathBuf, rel: &PathBuf) -> (p: PathBuf)
    ensures
        p == joined(*base, *rel),
        forall|s: Seq<char>| #[trigger] path_of(s) == *rel && single_component(s) ==> file_name_of(p) == Some(s),
{
    base.join(rel)
}

/// `base` joined with the single name `name`.
pub fn join_str(base: &PathBuf, name: &str) -> (p: PathBuf)
    ensures
        p == joined(*base, path_of(name@)),
        single_component(name@) ==> file_name_of(p) == Some(name@),
{
    let rel = path_from_str(name);
    path_join(base, &rel)
}

/// What `Path::eq` answers for `a` and `b` (paths compare component by component).
pub uninterp spec fn same_path(a: PathBuf, b: PathBuf) -> bool;

/// `Path::eq`. `Eq` makes it reflexive.
#[verifier::external_body]
pub fn paths_equal(a: &PathBuf, b: &PathBuf) -> (r: bool)
    ensures
        r == same_path(*a, *b),
        *a == *b ==> r,
{
    a == b
}

/// What `Path::file_stem` gives, as text (`to_string_lossy`), or nothing.
pub uninterp spec fn stem_of(p: PathBuf) -> Option<Seq<char>>;

/// `Path::file_stem`, as text.
#[verifier::external_body]
pub fn file_stem_text(p: &PathBuf) -> (r: Option<String>)
    ensures
        r matches Some(s) ==> stem_of(*p) == Some(s@),
        r is None ==> stem_of(*p) is None,
{
    p.file_stem().map(|s| s.to_string_lossy().into_owned())
}

/// What `Path::extension` gives, as text, or nothing.
pub uninterp spec fn extension_of(p: PathBuf) -> Option<Seq<char>>;

/// `Path::extension`, as text.
#[verifier::external_body]
pub fn extension_text(p: &PathBuf) -> (r: Option<String>)
    ensures
        r matches Some(s) ==> extension_of(*p) == Some(s@),
        r is None ==> extension_of(*p) is None,
{
    p.extension().map(|s| s.to_string_lossy().into_owned())
}

/// What `Path::file_name` gives, as text, or nothing.
pub uninterp spec fn file_name_of(p: PathBuf) -> Option<Seq<char>>;

/// `Path::file_name`, as text.
#[verifier::external_body]
pub fn file_name_text(p: &PathBuf) -> (r: Option<String>)
    ensures
        r matches Some(s) ==> file_name_of(*p) == Some(s@),
        r is None ==> file_name_of(*p) is None,
{
    p.file_name().map(|s| s.to_string_lossy().into_owned())
}

/// What `Path::parent` gives, or nothing.
pub uninterp spec fn parent_of(p: PathBuf) -> Option<PathBuf>;

/// `Path::parent`, owned.
#[verifier::external_body]
pub fn parent_path(p: &PathBuf) -> (r: Option<PathBuf>)
    ensures
        r == parent_of(*p),
{
    p.parent().map(|q| q.to_path_buf())
}

/// What `Path::starts_with` answers: `base` is a whole-component prefix of `p`.
pub uninterp spec fn has_prefix(p: PathBuf, base: PathBuf) -> bool;

/// `Path::starts_with`.
#[verifier::external_body]
pub fn path_starts_with(p: &PathBuf, base: &PathBuf) -> (r: bool)
    ensures
        r == has_prefix(*p, *base),
{
    p.starts_with(base)
}

/// `PathBuf::clone`: the same path, owned anew.
pub assume_specification[ <PathBuf as Clone>::clone ](p: &PathBuf) -> (r: PathBuf)
    ensures
        r == *p,
;

/// The file name `suffixed` gives a path: ` (n)` inserted before the extension.
pub open spec fn suffixed_name(p: PathBuf, n: Seq<char>) -> Seq<char> {
    let stem = match stem_of(p) {
        Some(s) => s,
        None => Seq::empty(),
    };
    match extension_of(p) {
        Some(ext) => stem + " ("@ + n + ")."@ + ext,
        None => stem + " ("@ + n + ")"@,
    }
}

/// The path with ` (n)` inserted before its extension: `foo.flac` becomes `foo (2).flac`.
pub open spec fn spec_suffixed(p: PathBuf, n: Seq<char>) -> PathBuf {
    match parent_of(p) {
        Some(parent) => joined(parent, path_of(suffixed_name(p, n))),
        None => path_of(suffixed_name(p, n)),
    }
}

/// ` (n)` inserted before the path's extension, in the same directory.
pub fn suffixed(path: &PathBuf, n: u32) -> (r: PathBuf)
    ensures
        r == spec_suffixed(*path, crate::text::decimal_string(n as nat)),
{
    let stem = match file_stem_text(path) {
        Some(s) => s,
        None => String::new(),
    };
    let digits = crate::text::u64_to_chars(n as u64);
    let mut name: Vec<char> = chars_of(stem.as_str());
    let ghost stem_v = name@;
    crate::text::append_chars(&mut name, &chars_of(" ("));
    crate::text::append_chars(&mut name, &digits);
    match extension_text(path) {
        Some(ext) => {
            crate::text::append_chars(&mut name, &chars_of(")."));
            crate::text::append_chars(&mut name, &chars_of(ext.as_str()));
        },
        None => {
            crate::text::append_chars(&mut name, &chars_of(")"));
        },
    }
    proof {
        assert(name@ =~= suffixed_name(*path, crate::text::decimal_string(n as nat)));
    }
    let new_name = crate::text::string_from_chars(&name);
    match parent_path(path) {
        Some(parent) => join_str(&parent, new_name.as_str()),
        None => path_from_str(new_name.as_str()),
    }
}

} // verus!
