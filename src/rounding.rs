use vstd::prelude::*;
use vstd::arithmetic::div_mod::lemma_fundamental_div_mod;
use crate::params::{GAMMA2, QUANTA};

verus! {

/// The rounding step alpha = 2 * GAMMA2.
pub open spec fn alpha() -> int {
    2 * GAMMA2
}

/// The `h` with `-alpha/2 < a - h * alpha <= alpha/2`.
pub open spec fn nearest_multiple(a: int) -> int {
    (a + GAMMA2 - 1) / alpha()
}

/// High part of a standard representative `a`: the nearest multiple index of alpha,
/// with the top index `(q - 1) / alpha` wrapped to 0.
pub open spec fn high_of(a: int) -> int {
    if nearest_multiple(a) == 16 { 0 } else { nearest_multiple(a) }
}

/// Low part of `a`: `a - high * alpha`, or `a - q` where the high part wrapped.
pub open spec fn low_of(a: int) -> int {
    if nearest_multiple(a) == 16 { a - QUANTA } else { a - nearest_multiple(a) * alpha() }
}

/// High part corrected by a hint bit: moved one step, modulo 16, toward the side of the low part.
pub open spec fn hinted_high(a: int, hint: u8) -> int {
    if hint == 0 {
        high_of(a)
    } else if low_of(a) > 0 {
        (high_of(a) + 1) % 16
    } else {
        (high_of(a) + 15) % 16
    }
}

/// The fast rounding of the high part lands in the bracket of the nearest multiple.
proof fn lemma_fast_round(a: u64, t1: u64, t2: u64, t3: u64, x: u64)
    requires
        a < 8380417,
        t1 == ((a + 127) as u64) >> 7u64,
        t2 == t1 * 1025 + 0x20_0000,
        t3 == t2 >> 22u64,
        x == t3 & 15,
    ensures
        x < 16,
        (x * 523776 < a + 261888 && a + 261888 <= x * 523776 + 523776) || (x == 0 && 16 * 523776
            < a + 261888),
{
    assert(x < 16 && ((x * 523776 < a + 261888 && a + 261888 <= x * 523776 + 523776) || (x == 0
        && 16 * 523776 < a + 261888))) by (bit_vector)
        requires
            a < 8380417,
            t1 == ((a + 127) as u64) >> 7u64,
            t2 == t1 * 1025 + 0x20_0000,
            t3 == t2 >> 22u64,
            x == t3 & 15,
    ;
}

/// Splits a standard representative `a` into `a == high * alpha + low` with
/// `-alpha/2 < low <= alpha/2`; where `high` would be `(q - 1) / alpha` it is 0 and
/// `low == a - q`.
pub fn artifact_decompose(low_fragment: &mut i32, a: i32) -> (high_fragment: i32)
    requires
        0 <= a < QUANTA,
    ensures
        high_fragment == high_of(a as int),
        *final(low_fragment) == low_of(a as int),
        0 <= high_fragment < 16,
        -GAMMA2 <= *final(low_fragment) <= GAMMA2,
{
    let au: u64 = a as u64;
    let t1: u64 = (au + 127) >> 7u64;
    assert(t1 <= 0x1_0000) by (bit_vector)
        requires
            au < 8380417,
            t1 == ((au + 127) as u64) >> 7u64,
    ;
    let t2: u64 = t1 * 1025 + 0x20_0000;
    let t3: u64 = t2 >> 22u64;
    let x: u64 = t3 & 15;
    proof {
        lemma_fast_round(au, t1, t2, t3, x);
        lemma_fundamental_div_mod(a as int + GAMMA2 - 1, alpha());
    }
    let high: i32 = x as i32;
    let mut low: i32 = a - high * 2 * GAMMA2;
    let c: i32 = (QUANTA - 1) / 2;
    let d: i32 = c - low;
    let mask: i32 = (d >> 31u32) & QUANTA;
    assert(mask == if low > c { 8380417i32 } else { 0i32 }) by (bit_vector)
        requires
            d == c - low,
            mask == (d >> 31u32) & 8380417i32,
            c == 4190208i32,
            -0x1000_0000 < low < 0x1000_0000,
    ;
    low = low - mask;
    *low_fragment = low;
    high
}

/// Recomputes the high part of `a` and, where `hint` is set, moves it one step
/// (modulo 16) toward the side of the low part.
pub fn artifact_use_hint(a: i32, hint: u8) -> (r: i32)
    requires
        0 <= a < QUANTA,
    ensures
        r == hinted_high(a as int, hint),
        0 <= r < 16,
{
    let mut low_fragment: i32 = 0;
    let high_fragment = artifact_decompose(&mut low_fragment, a);
    if hint == 0 {
        return high_fragment;
    }
    if low_fragment > 0 {
        if high_fragment == 15 { 0 } else { high_fragment + 1 }
    } else {
        if high_fragment == 0 { 15 } else { high_fragment - 1 }
    }
}

} // verus!
