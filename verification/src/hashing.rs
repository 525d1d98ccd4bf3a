//! The one place the library touches a cryptographic hash. The digest is
//! used only to pick stable, deterministic values (a palette slot for a
//! label, a filesystem identity for a project root), never for security.
use vstd::prelude::*;

verus! {

/// The BLAKE3 digest of a byte sequence: a pure function of the input
/// bytes alone, 32 bytes long, otherwise unspecified here.
pub uninterp spec fn blake3_digest_of(input: Seq<u8>) -> Seq<u8>;

/// Relies on `blake3::hash`: the digest depends on the input bytes alone,
/// and its default output is 32 bytes.
#[verifier::external_body]
pub fn blake3_digest(input: &[u8]) -> (r: Vec<u8>)
    ensures
        r@ == blake3_digest_of(input@),
        r@.len() == 32,
{
    blake3::hash(input).as_bytes().to_vec()
}

} // verus!
