use vstd::prelude::*;

verus! {

/// The SHA-256 digest of `data`, written as 64 lowercase hex digits.
pub uninterp spec fn sha256_hex(data: Seq<u8>) -> Seq<char>;

/// Relies on `sha2::Sha256::digest` and the lowercase-hex formatting of its
/// output: the result is a function of the bytes alone.
#[verifier::external_body]
pub(crate) fn sha256_hex_of(data: &[u8]) -> (r: String)
    ensures
        r@ == sha256_hex(data@),
{
    format!("{:x}", <sha2::Sha256 as sha2::Digest>::digest(data))
}

} // verus!
