//! Reading a source text as Rust with `syn`.
use vstd::prelude::*;

verus! {

/// The syntax tree that `syn` reads from a source text. Nothing here looks
/// inside it: it is handed on to be read into the library's syntax tree.
#[verifier::external_type_specification]
#[verifier::external_body]
pub struct ExSynFile(syn::File);

/// What `syn::parse_file` says of a source text: nothing when it reads the
/// text as a Rust file, otherwise the message of the error it gives.
pub uninterp spec fn rust_parse_error(source: Seq<char>) -> Option<Seq<char>>;

/// Calls `syn::parse_file` on the source text and renders its error, if
/// any, as text. Claimed: whether it succeeds, and the message when it
/// does not, depend on the text alone (syn's parser is a pure function of
/// its input). Not stated: which tree it builds, which only the caller's
/// reading of that tree makes use of.
#[verifier::external_body]
pub(crate) fn read_rust_file(source: &str) -> (r: Result<syn::File, String>)
    ensures
        match r {
            Ok(_) => rust_parse_error(source@) is None,
            Err(m) => rust_parse_error(source@) == Some(m@),
        },
{
    syn::parse_file(source).map_err(|e| e.to_string())
}

} // verus!
