use vstd::prelude::*;

verus! {

/// What `Path::new(base).join(rel)` gives, read back as text.
pub uninterp spec fn joined(base: Seq<char>, rel: Seq<char>) -> Seq<char>;

/// Calls `std::path::Path::join` and reads the path back as a `String`; the result
/// is named `joined` of the two inputs (a path built from `&str` is valid UTF-8, so
/// reading it back loses nothing).
#[verifier::external_body]
pub(crate) fn join_path(base: &str, rel: &str) -> (r: String)
    ensures
        r@ == joined(base@, rel@),
{
    std::path::Path::new(base).join(rel).to_string_lossy().into_owned()
}

} // verus!
