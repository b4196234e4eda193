use vstd::prelude::*;

verus! {

/// Bytes of a seed (the matrix seed of a key, the challenge seed of a signature).
pub const SEEDBYTES: usize = 32;
/// Bytes of the message digest bound into the challenge.
pub const CRHBYTES: usize = 64;
/// Coefficients of a ring element.
pub const ELEMENTS: usize = 256;
/// The prime modulus q.
pub const QUANTA: i32 = 8380417;
/// Bits dropped from t when the public key was made.
pub const DEPTH: u32 = 13;
/// Rows of the public matrix.
pub const K: usize = 6;
/// Columns of the public matrix.
pub const L: usize = 5;
/// Nonzero coefficients of a challenge.
pub const TAU: usize = 49;
/// Bound of the response before the rejection margin.
pub const GAMMA1: i32 = 524288;
/// Half the rounding step: (q - 1) / 32.
pub const GAMMA2: i32 = 261888;
/// Rejection margin: TAU * ETA.
pub const BETA: i32 = 196;
/// Largest number of hint bits in a signature.
pub const OMEGA: usize = 55;
/// Exclusive bound on the centered coefficients of an accepted response.
pub const GAMMA1_MINUS_BETA: i32 = 524092;

/// Bytes of one packed row of t1 (10 bits a coefficient).
pub const ELEMENTT1_PACKEDBYTES: usize = 320;
/// Bytes of one packed response polynomial (20 bits a coefficient).
pub const SHARD_PACKEDBYTES: usize = 640;
/// Bytes of one packed high-bits polynomial (4 bits a coefficient).
pub const GLYPH_PACKEDBYTES: usize = 128;
/// Bytes of the packed hint region.
pub const ELEMENTH_PACKEDBYTES: usize = OMEGA + K;

/// Bytes of a public key.
pub const ARTIFACTKEYBYTES: usize = SEEDBYTES + K * ELEMENTT1_PACKEDBYTES;
/// Bytes of a signature.
pub const SIGNATUREBYTES: usize = SEEDBYTES + L * SHARD_PACKEDBYTES + ELEMENTH_PACKEDBYTES;

} // verus!
