use vstd::prelude::*;

verus! {

/// The last component of `path` as `std::path::Path::file_name` gives it, for
/// the target this crate is built for; `None` when the path ends in `..` or
/// has no final component.
pub uninterp spec fn path_file_name(path: Seq<char>) -> Option<Seq<char>>;

/// What is left of `path` after `base` as `std::path::Path::strip_prefix`
/// gives it, for the target this crate is built for; `None` when `base` is not
/// a prefix of `path` component by component.
pub uninterp spec fn path_strip_prefix(path: Seq<char>, base: Seq<char>) -> Option<Seq<char>>;

/// `dir` joined with `name` as `std::path::Path::join` gives it, for the target
/// this crate is built for.
pub uninterp spec fn path_join(dir: Seq<char>, name: Seq<char>) -> Seq<char>;

/// `std::path::Path::file_name`, the name turned into a `String`. Paths given
/// as `&str` are valid UTF-8, so the conversion loses nothing. The contract
/// claims the result is the one `path_file_name` names.
#[verifier::external_body]
pub(crate) fn file_name(path: &str) -> (r: Option<String>)
    ensures
        r is None <==> path_file_name(path@) is None,
        r is Some ==> path_file_name(path@) == Some(r->Some_0@),
{
    match std::path::Path::new(path).file_name() {
        Some(name) => Some(name.to_string_lossy().into_owned()),
        None => None,
    }
}

/// `std::path::Path::strip_prefix`, the rest turned into a `String`. The
/// contract claims the result is the one `path_strip_prefix` names.
#[verifier::external_body]
pub(crate) fn strip_prefix(path: &str, base: &str) -> (r: Option<String>)
    ensures
        r is None <==> path_strip_prefix(path@, base@) is None,
        r is Some ==> path_strip_prefix(path@, base@) == Some(r->Some_0@),
{
    match std::path::Path::new(path).strip_prefix(base) {
        Ok(rest) => Some(rest.to_string_lossy().into_owned()),
        Err(_) => None,
    }
}

/// `std::path::Path::join`, the joined path turned into a `String`. The
/// contract claims the result is the one `path_join` names.
#[verifier::external_body]
pub(crate) fn join(dir: &str, name: &str) -> (r: String)
    ensures
        r@ == path_join(dir@, name@),
{
    std::path::Path::new(dir).join(name).to_string_lossy().into_owned()
}

} // verus!
