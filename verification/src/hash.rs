//! The hash primitive that links one element of a chain to the next.

use vstd::prelude::*;

verus! {

/// The digest of a text: the 64 lower-case hexadecimal digits of the SHA-256
/// hash of its UTF-8 encoding. Nothing but its being a function of the text
/// is assumed of it.
pub uninterp spec fn sha256_hex(input: Seq<char>) -> Seq<char>;

/// Hashes `input` with `sha256::digest`.
///
/// Trusted: the contract only gives that call's result its name, which says
/// that the digest depends on the characters of `input` and on nothing else.
#[verifier::external_body]
pub(crate) fn digest(input: &str) -> (out: String)
    ensures
        out@ == sha256_hex(input@),
{
    sha256::digest(input)
}

} // verus!
