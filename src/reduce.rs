use vstd::prelude::*;
use vstd::arithmetic::div_mod::{lemma_fundamental_div_mod, lemma_div_multiples_vanish};
use crate::params::QUANTA;

verus! {

/// q^(-1) mod 2^32.
pub const QUANTA_INVERSE: u64 = 58728449;

/// 2^32.
pub open spec fn r32() -> int {
    0x1_0000_0000
}

/// Lowest input that Montgomery reduction accepts: -2^31 * q.
pub open spec fn mont_lo() -> int {
    -0x8000_0000 * (QUANTA as int)
}

/// Highest input that Montgomery reduction accepts: 2^31 * q.
pub open spec fn mont_hi() -> int {
    0x8000_0000 * (QUANTA as int)
}

/// `a` and `b` agree modulo q.
pub open spec fn congruent(a: int, b: int) -> bool {
    (a - b) % (QUANTA as int) == 0
}

/// The signed Montgomery factor of `a`: `a * q^(-1) mod 2^32`, taken in `[-2^31, 2^31)`.
pub open spec fn montgomery_factor(a: int) -> int {
    let m = ((a % r32()) * QUANTA_INVERSE) % r32();
    if m >= 0x8000_0000 { m - r32() } else { m }
}

/// One Montgomery step: `(a - t q) / 2^32` for the factor `t` of `a`.
pub open spec fn montgomery_spec(a: int) -> int {
    (a - montgomery_factor(a) * QUANTA) / r32()
}

/// `a` less the nearest multiple of q that a 23-bit shift finds.
pub open spec fn reduce32_spec(a: int) -> int {
    a - ((a + 0x40_0000) / 0x80_0000) * QUANTA
}

/// For every `a` below `2^31 - 2^22 - 1`, the 32-bit reduction lies in
/// `[-6283009, 6283007]` and agrees with `a` modulo q. (At `2^31 - 2^22 - 1` itself it is
/// 6283008.)
pub proof fn lemma_reduce32_range(a: int)
    requires
        i32::MIN <= a < 0x7fff_ffff - 0x40_0000,
    ensures
        -6283009 <= reduce32_spec(a) <= 6283007,
        congruent(reduce32_spec(a), a),
{
    lemma_fundamental_div_mod(a + 0x40_0000, 0x80_0000);
    let t = (a + 0x40_0000) / 0x80_0000;
    assert(-(t as int) * 8380417 == (-t) * 8380417);
    vstd::arithmetic::div_mod::lemma_mod_multiples_basic(-t, 8380417);
}

/// For every `a` in `[-2^31 q, 2^31 q)`, one Montgomery step lies strictly between -q and q
/// and equals `a * 2^-32` modulo q. (At `2^31 q` itself it is q.)
pub proof fn lemma_montgomery_range(a: int)
    requires
        mont_lo() <= a < mont_hi(),
    ensures
        -QUANTA < montgomery_spec(a) < QUANTA,
        congruent(montgomery_spec(a) * r32(), a),
{
    let low = a % r32();
    let k0 = a / r32();
    lemma_fundamental_div_mod(a, r32());
    let p = low * 58728449;
    let k1 = p / r32();
    let m = p % r32();
    lemma_fundamental_div_mod(p, r32());
    let t = montgomery_factor(a);
    assert(m == low * 58728449 - k1 * 0x1_0000_0000);
    let w = -a * 114592 + k0 * 58728449 * 8380417 + k1 * 8380417 + (if m >= 0x8000_0000 { 8380417int } else { 0int });
    assert(a - t * 8380417 == w * 0x1_0000_0000);
    assert(r32() * w == a - t * QUANTA);
    lemma_div_multiples_vanish(w, r32());
    assert(montgomery_spec(a) == w);
    assert(w > -8380417) by (nonlinear_arith)
        requires
            w * 0x1_0000_0000 > -0x1_0000_0000 * 8380417,
    ;
    assert(w < 8380417) by (nonlinear_arith)
        requires
            w * 0x1_0000_0000 < 0x1_0000_0000 * 8380417,
    ;
    assert(-t * 8380417 == (-t) * 8380417);
    vstd::arithmetic::div_mod::lemma_mod_multiples_basic(-t, 8380417);
}

/// For `a` in `[-2^31 q, 2^31 q]` returns `r` with `r * 2^32 == a (mod q)` and
/// `-q < r <= q`; below the top of the range `r < q`.
pub fn artifact_montgomery_reduce(a: i64) -> (r: i32)
    requires
        mont_lo() <= a <= mont_hi(),
    ensures
        r == montgomery_spec(a as int),
        congruent(r as int * r32(), a as int),
        -QUANTA < r <= QUANTA,
        a < mont_hi() ==> r < QUANTA,
{
    let q: i64 = QUANTA as i64;
    // a mod 2^32 through the two's-complement bits
    // a mod 2^32, through an offset of 2^24 * 2^32 that keeps the operand non-negative
    let b: i64 = a + 0x100_0000_0000_0000i64;
    let low: u64 = (b % 0x1_0000_0000i64) as u64;
    proof {
        vstd::arithmetic::div_mod::lemma_mod_multiples_vanish(0x100_0000, a as int, r32());
        lemma_fundamental_div_mod(a as int, r32());
    }
    assert(low as int == (a as int) % r32());
    let m: u64 = (low * QUANTA_INVERSE) % 0x1_0000_0000u64;
    let t: i64 = if m >= 0x8000_0000u64 { m as i64 - 0x1_0000_0000i64 } else { m as i64 };
    let u: i64 = a - t * q;
    let ghost k0: int = (a as int) / r32();
    let ghost k1: int = ((low * QUANTA_INVERSE) as int) / r32();
    let ghost w: int = -(a as int) * 114592 + k0 * 58728449 * 8380417 + k1 * 8380417
        + (if m >= 0x8000_0000u64 { 8380417int } else { 0int });
    proof {
        lemma_fundamental_div_mod((low * QUANTA_INVERSE) as int, r32());
        assert(a as int == k0 * 0x1_0000_0000 + low);
        assert(m as int == low as int * 58728449 - k1 * 0x1_0000_0000);
        assert(u as int == w * 0x1_0000_0000);
    }
    // u is a multiple of 2^32 and lies in (-2^32 q, 2^32 q]
    let shifted: i64 = u + 2 * 0x1_0000_0000i64 * q;
    let v: i64 = shifted / 0x1_0000_0000i64;
    proof {
        assert(shifted as int == (w + 2 * 8380417) * r32());
        assert(w + 2 * 8380417 >= 0) by (nonlinear_arith)
            requires
                shifted as int == (w + 2 * 8380417) * r32(),
                shifted >= 0,
                r32() > 0,
        ;
        lemma_div_multiples_vanish(w + 2 * 8380417, r32());
        assert(v as int == w + 2 * 8380417);
        assert(w * r32() > -r32() * 8380417);
        assert(w > -8380417) by (nonlinear_arith)
            requires
                w * r32() > -r32() * 8380417,
                r32() > 0,
        ;
        assert(w <= 8380417) by (nonlinear_arith)
            requires
                w * r32() <= r32() * 8380417,
                r32() > 0,
        ;
        assert(a < mont_hi() ==> w < 8380417) by (nonlinear_arith)
            requires
                a < mont_hi() ==> w * r32() < r32() * 8380417,
                r32() > 0,
        ;
        assert((w * r32() - a as int) == -(t as int) * 8380417);
        assert(-(t as int) * 8380417 == (-(t as int)) * 8380417);
        vstd::arithmetic::div_mod::lemma_mod_multiples_basic(-(t as int), 8380417);
        assert(t as int == montgomery_factor(a as int));
        assert(r32() * w == u as int);
        lemma_div_multiples_vanish(w, r32());
    }
    (v - 2 * q) as i32
}

/// For `a <= 2^31 - 2^22 - 1` returns `r == a (mod q)` with
/// `-6283009 <= r <= 6283008`; below the top of the range `r <= 6283007`.
pub fn artifact_reduce32(a: i32) -> (r: i32)
    requires
        a <= 0x7fff_ffff - 0x40_0000,
    ensures
        r == reduce32_spec(a as int),
        congruent(r as int, a as int),
        -6283009 <= r <= 6283008,
        a < 0x7fff_ffff - 0x40_0000 ==> r <= 6283007,
{
    // floor((a + 2^22) / 2^23), kept non-negative by an offset of 2^31 = 256 * 2^23
    let b: i64 = a as i64 + 0x40_0000i64 + 0x8000_0000i64;
    let t: i64 = b / 0x80_0000i64 - 256;
    proof {
        lemma_fundamental_div_mod(b as int, 0x80_0000);
        lemma_fundamental_div_mod(a as int + 0x40_0000, 0x80_0000);
        assert(-(t as int) * 8380417 == (-(t as int)) * 8380417);
        vstd::arithmetic::div_mod::lemma_mod_multiples_basic(-(t as int), 8380417);
    }
    (a as i64 - t * (QUANTA as i64)) as i32
}

/// Adds q to a negative `a`.
pub fn artifact_caddq(a: i32) -> (r: i32)
    ensures
        r as int == if a < 0 { a + QUANTA } else { a as int },
{
    let mask: i32 = (a >> 31u32) & QUANTA;
    assert(mask == if a < 0 { 8380417i32 } else { 0i32 }) by (bit_vector)
        requires
            mask == (a >> 31u32) & 8380417i32,
    ;
    a + mask
}

} // verus!
