//! Random byte buffers of a requested length, for use as benchmark input.
//! The bytes come from the thread-local generator of the `rand` crate and
//! differ from call to call; only the length of a buffer is specified.

use rand::RngCore;
use vstd::prelude::*;

verus! {

/// `RngCore::fill_bytes` on `rand::thread_rng()`: overwrites `dest` with
/// output of the thread-local generator. The call writes into the slice it
/// is given and cannot resize it, so the length is unchanged. Nothing is
/// claimed of the bytes written.
#[verifier::external_body]
fn fill_random(dest: &mut [u8])
    ensures
        final(dest)@.len() == old(dest)@.len(),
{
    rand::thread_rng().fill_bytes(dest);
}

/// A buffer of exactly `n` random bytes.
pub fn gen_vec(n: usize) -> (data: Vec<u8>)
    ensures
        data@.len() == n,
{
    let mut data: Vec<u8> = vec![0u8; n];
    fill_random(data.as_mut_slice());
    data
}

/// An array of exactly `N` random bytes.
pub fn gen_array<const N: usize>() -> (data: [u8; N])
    ensures
        data@.len() == N,
{
    let mut data: [u8; N] = [0u8; N];
    fill_random(&mut data);
    data
}

} // verus!
