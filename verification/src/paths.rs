//! Paths through `std::path`: joining, testing for absolute paths, and
//! the final component and stem of a path, each named as std gives it on
//! the platform the library is built for.
use vstd::prelude::*;

verus! {

/// What `Path::is_absolute` says of the path `p` (which paths are absolute
/// depends on the platform: a leading `/` on Unix, a drive or UNC prefix
/// with a root on Windows).
pub uninterp spec fn is_absolute(p: Seq<char>) -> bool;

/// Whether the path `p` is absolute (`Path::is_absolute`); the contract names
/// the answer.
#[verifier::external_body]
pub(crate) fn path_is_absolute(p: &str) -> (b: bool)
    ensures
        b == is_absolute(p@),
{
    std::path::Path::new(p).is_absolute()
}

/// What `Path::join` gives for `base` and `rel` (`PathBuf::push`): an
/// absolute `rel` replaces `base`, otherwise the platform's separator goes
/// between them unless `base` already ends with one.
pub uninterp spec fn path_join(base: Seq<char>, rel: Seq<char>) -> Seq<char>;

/// `base` joined with `rel` (`Path::join`; both are UTF-8, so the joined
/// path is too); the contract names the result.
#[verifier::external_body]
pub(crate) fn join_path(base: &str, rel: &str) -> (r: String)
    ensures
        r@ == path_join(base@, rel@),
{
    std::path::Path::new(base).join(rel).to_string_lossy().into_owned()
}

/// What `Path::file_name` gives for `p`: its final component (split at the
/// platform's separators), none when it ends in `..` or has none.
pub uninterp spec fn file_name_of(p: Seq<char>) -> Option<Seq<char>>;

/// What `Path::file_stem` gives for `p`: the final component without its
/// last extension (a leading dot starts no extension), none when there is
/// no final component.
pub uninterp spec fn file_stem_of(p: Seq<char>) -> Option<Seq<char>>;

/// The final component of `p` (`Path::file_name`); the contract names it.
#[verifier::external_body]
pub(crate) fn file_name_text(p: &str) -> (r: Option<String>)
    ensures
        match file_name_of(p@) {
            Some(n) => r matches Some(x) && x@ == n,
            None => r is None,
        },
{
    std::path::Path::new(p).file_name().map(|n| n.to_string_lossy().into_owned())
}

/// The stem of the final component of `p` (`Path::file_stem`); the contract
/// names it.
#[verifier::external_body]
pub(crate) fn file_stem_text(p: &str) -> (r: Option<String>)
    ensures
        match file_stem_of(p@) {
            Some(n) => r matches Some(x) && x@ == n,
            None => r is None,
        },
{
    std::path::Path::new(p).file_stem().map(|n| n.to_string_lossy().into_owned())
}

/// What `format!("{:?}", Path::new(p))` gives: the path in double quotes,
/// with its special characters escaped as `Path`'s `Debug` does.
pub uninterp spec fn path_debug(p: Seq<char>) -> Seq<char>;

/// `p` written as `Path`'s `Debug` writes it; the contract names the result.
#[verifier::external_body]
pub(crate) fn debug_path(p: &str) -> (r: String)
    ensures
        r@ == path_debug(p@),
{
    format!("{:?}", std::path::Path::new(p))
}

} // verus!
