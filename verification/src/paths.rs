//! File-system paths, held as text and taken apart with `std::path`.
//!
//! How `std::path::Path` splits a path into components is platform behaviour;
//! the functions here name its results so that the logic built on them can be
//! stated exactly.
use vstd::prelude::*;
use crate::text::opt_view;

verus! {

/// `Path::file_stem` of a path given as text.
pub uninterp spec fn file_stem_of(path: Seq<char>) -> Option<Seq<char>>;

/// Calls `Path::file_stem`.
#[verifier::external_body]
pub(crate) fn path_file_stem(path: &str) -> (r: Option<String>)
    ensures
        opt_view(r) == file_stem_of(path@),
{
    std::path::Path::new(path).file_stem().map(|s| s.to_string_lossy().into_owned())
}

/// `Path::extension` of a path given as text.
pub uninterp spec fn extension_of(path: Seq<char>) -> Option<Seq<char>>;

/// Calls `Path::extension`.
#[verifier::external_body]
pub(crate) fn path_extension(path: &str) -> (r: Option<String>)
    ensures
        opt_view(r) == extension_of(path@),
{
    std::path::Path::new(path).extension().map(|s| s.to_string_lossy().into_owned())
}

/// `Path::parent` of a path given as text.
pub uninterp spec fn parent_of(path: Seq<char>) -> Option<Seq<char>>;

/// Calls `Path::parent`.
#[verifier::external_body]
pub(crate) fn path_parent(path: &str) -> (r: Option<String>)
    ensures
        opt_view(r) == parent_of(path@),
{
    std::path::Path::new(path).parent().map(|p| p.to_string_lossy().into_owned())
}

/// `Path::join`.
pub uninterp spec fn joined(base: Seq<char>, rest: Seq<char>) -> Seq<char>;

/// Calls `Path::join`.
#[verifier::external_body]
pub(crate) fn path_join(base: &str, rest: &str) -> (r: String)
    ensures
        r@ == joined(base@, rest@),
{
    std::path::Path::new(base).join(rest).to_string_lossy().into_owned()
}

/// `Path::strip_prefix`.
pub uninterp spec fn stripped_prefix(path: Seq<char>, base: Seq<char>) -> Option<Seq<char>>;

/// Calls `Path::strip_prefix`.
#[verifier::external_body]
pub(crate) fn path_strip_prefix(path: &str, base: &str) -> (r: Option<String>)
    ensures
        opt_view(r) == stripped_prefix(path@, base@),
{
    std::path::Path::new(path).strip_prefix(base).ok().map(|p| p.to_string_lossy().into_owned())
}

/// `Path::with_extension`.
pub uninterp spec fn with_extension(path: Seq<char>, ext: Seq<char>) -> Seq<char>;

/// Calls `Path::with_extension`, which panics on an extension that holds a
/// path separator; such extensions are left out.
#[verifier::external_body]
pub(crate) fn path_with_extension(path: &str, ext: &str) -> (r: String)
    requires
        !ext@.contains('/'),
        !ext@.contains('\\'),
    ensures
        r@ == with_extension(path@, ext@),
{
    std::path::Path::new(path).with_extension(ext).to_string_lossy().into_owned()
}

/// The number of `Path::components`.
pub uninterp spec fn component_count(path: Seq<char>) -> nat;

/// Calls `Path::components` and counts them.
#[verifier::external_body]
pub(crate) fn path_component_count(path: &str) -> (r: usize)
    ensures
        r as nat == component_count(path@),
{
    std::path::Path::new(path).components().count()
}

/// `Path::is_absolute`.
pub uninterp spec fn is_absolute_path(path: Seq<char>) -> bool;

/// Calls `Path::is_absolute`.
#[verifier::external_body]
pub(crate) fn path_is_absolute(path: &str) -> (r: bool)
    ensures
        r == is_absolute_path(path@),
{
    std::path::Path::new(path).is_absolute()
}

/// `str::to_lowercase` (Unicode lowercase mapping).
pub uninterp spec fn unicode_lowercase(s: Seq<char>) -> Seq<char>;

/// Calls `str::to_lowercase`.
#[verifier::external_body]
pub(crate) fn to_lowercase(s: &str) -> (r: String)
    ensures
        r@ == unicode_lowercase(s@),
{
    s.to_lowercase()
}


/// One component of a path: a name, `.`, or anything else (a root, `..`, a
/// prefix).
pub enum PathPart {
    Normal(String),
    CurDir,
    Other,
}

/// A path component as characters.
pub enum PartView {
    Normal(Seq<char>),
    CurDir,
    Other,
}

pub open spec fn part_view(p: PathPart) -> PartView {
    match p {
        PathPart::Normal(s) => PartView::Normal(s@),
        PathPart::CurDir => PartView::CurDir,
        PathPart::Other => PartView::Other,
    }
}

/// `Path::components` of a path given as text.
pub uninterp spec fn path_parts_of(path: Seq<char>) -> Seq<PartView>;

/// Calls `Path::components`, telling names, `.` and the rest apart.
#[verifier::external_body]
pub(crate) fn path_components(path: &str) -> (r: Vec<PathPart>)
    ensures
        r@.map_values(|p: PathPart| part_view(p)) == path_parts_of(path@),
{
    std::path::Path::new(path).components().map(|component| match component {
        std::path::Component::Normal(name) => PathPart::Normal(name.to_string_lossy().into_owned()),
        std::path::Component::CurDir => PathPart::CurDir,
        _ => PathPart::Other,
    }).collect()
}

} // verus!
