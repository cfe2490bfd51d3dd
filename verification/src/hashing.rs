//! The content digest that binds a block to its fields and its predecessor.

use vstd::prelude::*;
use sha2::{Digest, Sha256};

verus! {

/// The lowercase-hex SHA-256 digest of a text. What the digest is on given
/// characters is left unstated; only that it is a function of them.
pub uninterp spec fn sha256_hex_of(s: Seq<char>) -> Seq<char>;

/// Relies on sha2's Sha256 (with generic-array's LowerHex rendering): the
/// lowercase-hex digest depends on the input text alone.
#[verifier::external_body]
pub(crate) fn sha256_hex(input: &str) -> (r: String)
    ensures
        r@ == sha256_hex_of(input@),
{
    let mut hasher = Sha256::new();
    hasher.update(input.as_bytes());
    format!("{:x}", hasher.finalize())
}

} // verus!
