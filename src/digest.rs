//! Content hashes used to name generated units.

use vstd::prelude::*;

verus! {

/// The lowercase hexadecimal MD5 digest of the UTF-8 bytes of a text.
pub uninterp spec fn md5_hex_of(s: Seq<char>) -> Seq<char>;

/// Relies on `chksum_md5::hash` and `Digest::to_hex_lowercase`: the digest of
/// the text's bytes, written as two lowercase hex digits for each of its
/// sixteen bytes.
#[verifier::external_body]
pub(crate) fn md5_hex(s: &str) -> (r: String)
    ensures
        r@ == md5_hex_of(s@),
        r@.len() == 32,
{
    chksum_md5::hash(s).to_hex_lowercase()
}

} // verus!
