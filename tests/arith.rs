use echoes_of_eternity::ntt::{invntt_tomont, ntt};
use echoes_of_eternity::params::{GAMMA1_MINUS_BETA, QUANTA};
use echoes_of_eternity::poly::{
    artifact_add, artifact_caddq, artifact_challenge, artifact_chknorm, artifact_invntt_tomont,
    artifact_ntt, artifact_pointwise_montgomery, artifact_reduce, artifact_sample_uniform,
    artifact_shiftl, artifact_sub, artifact_uniform, Artifact,
};
use echoes_of_eternity::reduce::{artifact_montgomery_reduce, artifact_reduce32};
use echoes_of_eternity::rounding::{artifact_decompose, artifact_use_hint};

const Q: i64 = 8380417;

fn lcg(state: &mut u64) -> u64 {
    *state = state.wrapping_mul(6364136223846793005).wrapping_add(1442695040888963407);
    *state >> 33
}

fn poly_from(v: &[i32]) -> Artifact {
    let mut a = Artifact::default();
    for (i, x) in v.iter().enumerate() {
        a.elements[i] = *x;
    }
    a
}

#[test]
fn montgomery_reduce_values() {
    assert_eq!(artifact_montgomery_reduce(5i64 << 32), 5);
    assert_eq!(artifact_montgomery_reduce(123456789), -2438631);
    assert_eq!(artifact_montgomery_reduce(-987654321012), 1349037);
    assert_eq!(artifact_montgomery_reduce((1i64 << 31) * Q - 1), 114592);
    assert_eq!(artifact_montgomery_reduce(-(1i64 << 31) * Q), 0);
    assert_eq!(artifact_montgomery_reduce(0), 0);
}

#[test]
fn montgomery_reduce_top_of_domain_reaches_q() {
    assert_eq!(artifact_montgomery_reduce((1i64 << 31) * Q), 8380417);
}

#[test]
fn montgomery_reduce_range_and_congruence_on_samples() {
    let mut st = 7u64;
    for _ in 0..10000 {
        let a = ((lcg(&mut st) as i64) << 24 | lcg(&mut st) as i64) % ((1i64 << 31) * Q);
        let a = if lcg(&mut st) & 1 == 1 { -a } else { a };
        let r = artifact_montgomery_reduce(a) as i64;
        assert!(-Q < r && r < Q);
        assert_eq!(((r << 32) - a).rem_euclid(Q), 0);
    }
}

#[test]
fn reduce32_values() {
    assert_eq!(artifact_reduce32(2143289343), 6283008);
    assert_eq!(artifact_reduce32(2143289342), 6283007);
    assert_eq!(artifact_reduce32(8380417), 0);
    assert_eq!(artifact_reduce32(-1), -1);
    assert_eq!(artifact_reduce32(i32::MIN), -2096896);
    assert_eq!(artifact_reduce32(12345678), 3965261);
}

#[test]
fn reduce32_range_on_samples() {
    let mut st = 11u64;
    for _ in 0..10000 {
        let a = (lcg(&mut st) as u32) as i32;
        if a >= 2143289343 {
            continue;
        }
        let r = artifact_reduce32(a);
        assert!(-6283009 <= r && r <= 6283007);
        assert_eq!((a as i64 - r as i64).rem_euclid(Q), 0);
    }
    assert_eq!(artifact_reduce32(-255 * (1 << 23) - (1 << 22)), -6283009);
}

#[test]
fn caddq_values() {
    assert_eq!(echoes_of_eternity::reduce::artifact_caddq(-1), 8380416);
    assert_eq!(echoes_of_eternity::reduce::artifact_caddq(5), 5);
    assert_eq!(echoes_of_eternity::reduce::artifact_caddq(0), 0);
    assert_eq!(echoes_of_eternity::reduce::artifact_caddq(-8380416), 1);
}

#[test]
fn decompose_values() {
    let cases: [(i32, i32, i32); 9] = [
        (0, 0, 0),
        (261888, 0, 261888),
        (261889, 1, -261887),
        (785664, 1, 261888),
        (8380416, 0, -1),
        (8118529, 0, -261888),
        (8118528, 15, 261888),
        (100000, 0, 100000),
        (523776 * 7 + 5, 7, 5),
    ];
    for (a, high, low) in cases {
        let mut l = 0i32;
        assert_eq!(artifact_decompose(&mut l, a), high, "a = {}", a);
        assert_eq!(l, low, "a = {}", a);
    }
}

#[test]
fn use_hint_values() {
    assert_eq!(artifact_use_hint(0, 1), 15);
    assert_eq!(artifact_use_hint(0, 0), 0);
    assert_eq!(artifact_use_hint(261888, 1), 1);
    assert_eq!(artifact_use_hint(261889, 1), 0);
    assert_eq!(artifact_use_hint(785664, 1), 2);
    assert_eq!(artifact_use_hint(8380416, 1), 15);
    assert_eq!(artifact_use_hint(8118528, 1), 0);
    assert_eq!(artifact_use_hint(8118528, 0), 15);
}

#[test]
fn elementwise_operations() {
    let mut a = poly_from(&[1, -2, 3, i32::MIN]);
    artifact_caddq(&mut a);
    assert_eq!(&a.elements[..4], &[1, 8380415, 3, i32::MIN + 8380417]);
    let mut b = poly_from(&[10, 20, 30]);
    let c = poly_from(&[1, 2, 3]);
    artifact_add(&mut b, &c);
    assert_eq!(&b.elements[..3], &[11, 22, 33]);
    artifact_sub(&mut b, &c);
    artifact_sub(&mut b, &c);
    assert_eq!(&b.elements[..3], &[9, 18, 27]);
    let mut d = poly_from(&[1023, -5]);
    artifact_shiftl(&mut d);
    assert_eq!(&d.elements[..2], &[1023 * 8192, -5 * 8192]);
    let mut e = poly_from(&[8380417, -1, 2143289343]);
    artifact_reduce(&mut e);
    assert_eq!(&e.elements[..3], &[0, -1, 6283008]);
}

#[test]
fn pointwise_montgomery_values() {
    let a = poly_from(&[1 << 16, 3, -7]);
    let b = poly_from(&[1 << 16, 123456789 / 3, 5]);
    let mut c = Artifact::default();
    artifact_pointwise_montgomery(&mut c, &a, &b);
    assert_eq!(c.elements[0], artifact_montgomery_reduce(1i64 << 32));
    assert_eq!(c.elements[0], 1);
    assert_eq!(c.elements[1], artifact_montgomery_reduce(123456789));
    assert_eq!(c.elements[2], artifact_montgomery_reduce(-35));
}

#[test]
fn chknorm_is_strict_at_the_bound() {
    let mut a = Artifact::default();
    a.elements[17] = GAMMA1_MINUS_BETA;
    assert_eq!(artifact_chknorm(&a, GAMMA1_MINUS_BETA), 1);
    a.elements[17] = GAMMA1_MINUS_BETA - 1;
    assert_eq!(artifact_chknorm(&a, GAMMA1_MINUS_BETA), 0);
    a.elements[17] = -GAMMA1_MINUS_BETA;
    assert_eq!(artifact_chknorm(&a, GAMMA1_MINUS_BETA), 1);
    a.elements[17] = -(GAMMA1_MINUS_BETA - 1);
    assert_eq!(artifact_chknorm(&a, GAMMA1_MINUS_BETA), 0);
}

#[test]
fn chknorm_rejects_bound_above_an_eighth_of_q() {
    let a = Artifact::default();
    assert_eq!(artifact_chknorm(&a, (QUANTA - 1) / 8 + 1), 1);
    assert_eq!(artifact_chknorm(&a, (QUANTA - 1) / 8), 0);
}

#[test]
fn ntt_round_trip_scales_by_montgomery_factor() {
    let mut st = 2024u64;
    for _ in 0..1000 {
        let mut a: Vec<i32> = (0..256).map(|_| (lcg(&mut st) % Q as u64) as i32).collect();
        let x = a.clone();
        ntt(&mut a);
        invntt_tomont(&mut a);
        for i in 0..256 {
            assert!(-Q < a[i] as i64 && (a[i] as i64) < Q);
            assert_eq!((a[i] as i64 - ((x[i] as i64) << 32)).rem_euclid(Q), 0);
        }
    }
}

#[test]
fn ntt_multiplies_polynomials() {
    // (1 + x) * x^255 = x^255 + x^256 = x^255 - 1 in Z_q[x]/(x^256 + 1)
    let mut a = Artifact::default();
    a.elements[0] = 1;
    a.elements[1] = 1;
    let mut b = Artifact::default();
    b.elements[255] = 1;
    artifact_ntt(&mut a);
    artifact_ntt(&mut b);
    let mut c = Artifact::default();
    artifact_pointwise_montgomery(&mut c, &a, &b);
    artifact_invntt_tomont(&mut c);
    for i in 0..256 {
        let expected: i64 = if i == 0 { -1 } else if i == 255 { 1 } else { 0 };
        assert_eq!((c.elements[i] as i64 - expected).rem_euclid(Q), 0, "coefficient {}", i);
    }
}

#[test]
fn sample_uniform_takes_accepted_candidates_in_order() {
    let buf = [0x01u8, 0x00, 0x00, 0xff, 0xff, 0xff, 0x00, 0x00, 0x80, 0x00, 0xe0, 0x7f, 0x05];
    let mut out = [9i32; 6];
    let n = artifact_sample_uniform(&mut out, 1, 4, &buf, 13);
    // 0x7fe000 = 8380416 is accepted, 0x7fffff is not; the 13th byte is no whole chunk
    assert_eq!(n, 3);
    assert_eq!(out, [9, 1, 0, 8380416, 9, 9]);
    let n = artifact_sample_uniform(&mut out, 0, 1, &buf, 13);
    assert_eq!(n, 1);
    assert_eq!(out[0], 1);
}

#[test]
fn uniform_matches_stream_rejection() {
    let seed: Vec<u8> = (0..32u32).map(|i| (i * 7) as u8).collect();
    let mut a = Artifact::default();
    assert!(artifact_uniform(&mut a, &seed, 0x0102));
    assert_eq!(&a.elements[..4], &[4712701, 3513038, 2549256, 5812905]);
    assert_eq!(a.elements[255], 7790337);
    assert!(a.elements.iter().all(|&x| 0 <= x && (x as i64) < Q));
}

#[test]
fn challenge_has_tau_signed_ones() {
    let seed = [42u8; 32];
    let mut c = Artifact::default();
    assert!(artifact_challenge(&mut c, &seed));
    assert_eq!(c.elements.iter().filter(|&&x| x != 0).count(), 49);
    assert!(c.elements.iter().all(|&x| x == -1 || x == 0 || x == 1));
    let first: Vec<(usize, i32)> = (0..256).filter(|&i| c.elements[i] != 0).map(|i| (i, c.elements[i])).take(8).collect();
    assert_eq!(first, vec![(0, 1), (6, -1), (7, -1), (14, -1), (17, -1), (23, -1), (31, -1), (39, 1)]);
}
