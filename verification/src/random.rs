//! Randomness from the operating system, for ids and pipe names.
use vstd::prelude::*;

use crate::vault::{hex_of, to_hex};

verus! {

/// `getrandom::fill` on `n` bytes, with its error (the OS random source
/// failed) reported as `None`. Nothing is promised of the bytes but their
/// number: they are whatever the operating system's random source produced.
/// An empty buffer is never handed to the random source, so asking for no
/// bytes always succeeds; for any other length, whether the source fails is
/// left unsaid.
#[verifier::external_body]
pub(crate) fn random_bytes(n: usize) -> (r: Option<Vec<u8>>)
    ensures
        r matches Some(b) ==> b@.len() == n,
        n == 0 ==> r is Some,
{
    let mut bytes = vec![0u8; n];
    getrandom::fill(&mut bytes).ok()?;
    Some(bytes)
}

/// `bytes` bytes of OS randomness as lowercase hex, or `None` when the
/// operating system has no randomness to give. No bytes are always there to
/// give: zero bytes is the empty string.
pub fn random_hex(bytes: usize) -> (r: Option<String>)
    ensures
        r matches Some(s) ==> exists|b: Seq<u8>| b.len() == bytes && s@ == hex_of(b),
        bytes == 0 ==> (r matches Some(s) && s@ == Seq::<char>::empty()),
{
    match random_bytes(bytes) {
        Some(b) => {
            let s = to_hex(&b);
            Some(s)
        },
        None => None,
    }
}

} // verus!
