//! The hash engine: content digests and chain digests.
//!
//! A digest is written as sixty-four lower-case hexadecimal characters, the
//! SHA-256 value of the bytes it was computed from. A chain digest is the
//! digest of ninety-six bytes: the decoded self hash, then the decoded child
//! hash, then the decoded chain digest of the previous version.

use crate::error::Error;
use crate::hex::{from_hex, hex_bytes, hex_chars, is_hex, lemma_hex_round_trip, to_hex};
use crate::sha256::{lemma_sha256_len, sha256, sha256_bytes};
use vstd::prelude::*;

verus! {

/// Number of characters in a digest.
pub const DIGEST_CHARS: usize = 64;

/// Whether `s` has the form of a digest.
pub open spec fn is_digest(s: Seq<char>) -> bool {
    s.len() == DIGEST_CHARS && is_hex(s)
}

/// The digest of a byte string.
#[verifier::opaque]
pub open spec fn digest_of(bytes: Seq<u8>) -> Seq<char> {
    hex_chars(sha256(bytes))
}

/// The chain digest of a version, from its two hashes and the chain digest
/// of the version before it.
#[verifier::opaque]
pub open spec fn chain_of(self_hash: Seq<char>, child_hash: Seq<char>, prev_chain: Seq<char>) -> Seq<
    char,
> {
    digest_of(hex_bytes(self_hash) + hex_bytes(child_hash) + hex_bytes(prev_chain))
}

/// The value that stands for the chain digest before the first version:
/// thirty-two zero bytes.
pub open spec fn seed_digest() -> Seq<char> {
    hex_chars(Seq::new(32, |i: int| 0u8))
}

/// Every digest is well-formed.
pub proof fn lemma_digest_of_is_digest(bytes: Seq<u8>)
    ensures
        is_digest(digest_of(bytes)),
{
    reveal(digest_of);
    lemma_sha256_len(bytes);
    lemma_hex_round_trip(sha256(bytes));
}

/// The seed is well-formed.
pub proof fn lemma_seed_is_digest()
    ensures
        is_digest(seed_digest()),
{
    lemma_hex_round_trip(Seq::new(32, |i: int| 0u8));
}

/// Computes the digest of `bytes`.
pub fn digest(bytes: &[u8]) -> (d: String)
    ensures
        d@ == digest_of(bytes@),
        is_digest(d@),
{
    proof {
        reveal(digest_of);
        lemma_digest_of_is_digest(bytes@);
    }
    let raw = sha256_bytes(bytes);
    to_hex(raw.as_slice())
}

/// The chain seed.
pub fn seed() -> (s: String)
    ensures
        s@ == seed_digest(),
        is_digest(s@),
{
    proof {
        lemma_seed_is_digest();
    }
    let mut zeros: Vec<u8> = Vec::new();
    let mut i: usize = 0;
    while i < 32
        invariant
            i <= 32,
            zeros@ == Seq::new(i as nat, |j: int| 0u8),
        decreases 32 - i,
    {
        zeros.push(0u8);
        i += 1;
    }
    to_hex(zeros.as_slice())
}

/// Computes the chain digest of a version. The three inputs are decoded and
/// concatenated in the order self hash, child hash, previous chain digest.
/// An input that is not a well-formed digest is rejected with
/// `Error::InvalidState`.
pub fn chain(self_hash: &str, child_hash: &str, prev_chain: &str) -> (r: Result<String, Error>)
    ensures
        r is Ok <==> is_digest(self_hash@) && is_digest(child_hash@) && is_digest(prev_chain@),
        r matches Ok(d) ==> d@ == chain_of(self_hash@, child_hash@, prev_chain@) && is_digest(d@),
        r matches Err(e) ==> e == Error::InvalidState,
{
    let a = from_hex(self_hash);
    let b = from_hex(child_hash);
    let c = from_hex(prev_chain);
    match (a, b, c) {
        (Some(first), Some(second), Some(third)) => {
            if first.len() != 32 || second.len() != 32 || third.len() != 32 {
                return Err(Error::InvalidState);
            }
            let mut bytes: Vec<u8> = Vec::with_capacity(96);
            bytes.extend_from_slice(first.as_slice());
            bytes.extend_from_slice(second.as_slice());
            bytes.extend_from_slice(third.as_slice());
            assert(bytes@ =~= hex_bytes(self_hash@) + hex_bytes(child_hash@) + hex_bytes(
                prev_chain@,
            ));
            proof {
                reveal(chain_of);
            }
            Ok(digest(bytes.as_slice()))
        },
        _ => Err(Error::InvalidState),
    }
}

} // verus!
