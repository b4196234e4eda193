//! Verification of lattice signatures: a Keccak sponge, arithmetic modulo
//! q = 8380417, the number-theoretic transform, strict decoding of keys and
//! signatures, and the pipeline that accepts or rejects a signature.

pub mod api;
pub mod errors;
pub mod fips202;
pub mod ntt;
pub mod packing;
pub mod params;
pub mod poly;
pub mod polyvec;
pub mod reduce;
pub mod rounding;
pub mod sign;
pub mod symmetric;
pub mod vault;

pub use api::{verify_transformation, EternityError};
