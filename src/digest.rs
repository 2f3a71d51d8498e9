//! The digest of a cell vector, used to tell search nodes apart quickly.
use vstd::prelude::*;

verus! {

/// The 64-bit digest that std's default hasher gives a byte sequence.
pub uninterp spec fn state_digest(codes: Seq<u8>) -> u64;

/// Relies on `BuildHasher::hash_one` over a `BuildHasherDefault<DefaultHasher>`:
/// every `DefaultHasher` made by `new` or `default` starts from the same keys,
/// so the digest depends on the bytes alone.
#[verifier::external_body]
pub(crate) fn digest_bytes(codes: &[u8]) -> (r: u64)
    ensures
        r == state_digest(codes@),
{
    std::hash::BuildHasher::hash_one(
        &std::hash::BuildHasherDefault::<std::collections::hash_map::DefaultHasher>::default(),
        codes,
    )
}

} // verus!
