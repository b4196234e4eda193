use vstd::prelude::*;
use crate::fips202::{
    absorb_once, absorb_spec, artifact_transform, keccak_iter, squeeze_blocks, squeeze_spec, xof_spec,
    zero_lanes, EternityState, ARTIFACT_128_RATE, ARTIFACT_256_RATE, XOF_DOMAIN,
};
use crate::params::{CRHBYTES, SEEDBYTES};

verus! {

/// Block size of the stream that the public matrix is drawn from.
pub const STREAM_BLOCKBYTES: usize = ARTIFACT_128_RATE;

/// The seed of a stream: the 32-byte seed followed by the nonce, little-endian.
pub open spec fn stream_input(essence: Seq<u8>, relic_nonce: u16) -> Seq<u8> {
    essence.take(32) + seq![(relic_nonce & 0xff) as u8, (relic_nonce >> 8u16) as u8]
}

/// Computes the 64-byte digest of the first `essence_length` bytes of `essence`
/// with the 256-bit variant.
pub fn compute_crh(digest: &mut [u8], essence: &[u8], essence_length: usize)
    requires
        old(digest)@.len() == CRHBYTES,
        essence_length <= essence@.len(),
    ensures
        final(digest)@ == xof_spec(ARTIFACT_256_RATE as int, essence@.take(essence_length as int), CRHBYTES as int),
{
    artifact_transform(digest, essence, essence_length, ARTIFACT_256_RATE);
}

/// Starts the stream of the 128-bit variant on a seed and a nonce.
pub fn eternity_stream_init(state: &mut EternityState, essence: &[u8], relic_nonce: u16)
    requires
        essence@.len() >= SEEDBYTES,
    ensures
        final(state).s@ == absorb_spec(zero_lanes(), ARTIFACT_128_RATE as int, stream_input(essence@, relic_nonce), XOF_DOMAIN),
{
    absorb_eternity_stream(state, essence, relic_nonce);
}

/// Squeezes `num_blocks` blocks of the stream into the front of `output`.
pub fn eternity_stream_squeeze_blocks(output: &mut [u8], num_blocks: u64, state: &mut EternityState)
    requires
        num_blocks * STREAM_BLOCKBYTES <= old(output)@.len(),
    ensures
        final(output)@.len() == old(output)@.len(),
        final(output)@.take(num_blocks * STREAM_BLOCKBYTES) == squeeze_spec(old(state).s@, ARTIFACT_128_RATE as int, num_blocks as nat),
        final(output)@.skip(num_blocks * STREAM_BLOCKBYTES) == old(output)@.skip(num_blocks * STREAM_BLOCKBYTES),
        final(state).s@ == keccak_iter(old(state).s@, num_blocks as nat),
{
    let total = output.len();
    assert(num_blocks * 168 <= total);
    squeeze_blocks(output, num_blocks as usize, state, ARTIFACT_128_RATE);
}

/// Absorbs the seed (its first 32 bytes) and the nonce (2 bytes, little-endian) and pads.
pub fn absorb_eternity_stream(state: &mut EternityState, essence: &[u8], relic_nonce: u16)
    requires
        essence@.len() >= SEEDBYTES,
    ensures
        final(state).s@ == absorb_spec(zero_lanes(), ARTIFACT_128_RATE as int, stream_input(essence@, relic_nonce), XOF_DOMAIN),
{
    let mut input: [u8; 34] = [0u8; 34];
    let mut i: usize = 0;
    while i < SEEDBYTES
        invariant
            0 <= i <= SEEDBYTES,
            essence@.len() >= SEEDBYTES,
            forall|j: int| 0 <= j < i ==> input@[j] == essence@[j],
        decreases SEEDBYTES - i,
    {
        input[i] = essence[i];
        i = i + 1;
    }
    input[32] = (relic_nonce & 0xff) as u8;
    input[33] = (relic_nonce >> 8u16) as u8;
    assert(input@.take(34) =~= stream_input(essence@, relic_nonce));
    absorb_once(state, ARTIFACT_128_RATE, &input, 34, XOF_DOMAIN);
}

} // verus!
