//! The seed from which the node derives its keys.
use vstd::prelude::*;

verus! {

/// The number of bytes of a seed.
pub const WALLET_KEYS_SEED_LEN: usize = 64;

/// The seed that the bytes of a seed file hold: the bytes themselves where they are
/// as many as a seed has, and none else.
pub fn seed_from_bytes(bytes: &[u8]) -> (seed: Option<[u8; WALLET_KEYS_SEED_LEN]>)
    ensures
        seed is Some <==> bytes@.len() == WALLET_KEYS_SEED_LEN,
        seed matches Some(s) ==> s@ == bytes@,
{
    if bytes.len() != WALLET_KEYS_SEED_LEN {
        return None;
    }
    let mut seed: [u8; WALLET_KEYS_SEED_LEN] = [0u8; WALLET_KEYS_SEED_LEN];
    let mut i: usize = 0;
    while i < WALLET_KEYS_SEED_LEN
        invariant
            i <= WALLET_KEYS_SEED_LEN,
            bytes@.len() == WALLET_KEYS_SEED_LEN,
            forall|j: int| 0 <= j < i ==> seed@[j] == bytes@[j],
        decreases WALLET_KEYS_SEED_LEN - i,
    {
        seed[i] = bytes[i];
        i = i + 1;
    }
    assert(seed@ =~= bytes@);
    Some(seed)
}

} // verus!
