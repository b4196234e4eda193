use echoes_of_eternity::fips202::{
    artifact_transform, load_artifact_64, store_artifact_64, transform_artifact, EternityState,
    ARTIFACT_128_RATE, ARTIFACT_256_RATE,
};
use echoes_of_eternity::symmetric::{compute_crh, eternity_stream_init, eternity_stream_squeeze_blocks};

fn hex(bytes: &[u8]) -> String {
    let mut s = String::new();
    for b in bytes {
        s.push_str(&format!("{:02x}", b));
    }
    s
}

fn xof(rate: usize, input: &[u8], outlen: usize) -> Vec<u8> {
    let mut out = vec![0u8; outlen];
    artifact_transform(&mut out, input, input.len(), rate);
    out
}

#[test]
fn shake128_empty_known_answer() {
    assert_eq!(
        hex(&xof(ARTIFACT_128_RATE, b"", 32)),
        "7f9c2ba4e88f827d616045507605853ed73b8093f6efbc88eb1a6eacfa66ef26"
    );
}

#[test]
fn shake256_empty_known_answer() {
    assert_eq!(
        hex(&xof(ARTIFACT_256_RATE, b"", 64)),
        "46b9dd2b0ba88d13233b3feb743eeb243fcd52ea62b81b82b50c27646ed5762fd75dc4ddd8c0f200cb05019d67b592f6fc821c49479ab48640292eacb3b7c4be"
    );
}

#[test]
fn shake128_short_message_known_answer() {
    assert_eq!(
        hex(&xof(ARTIFACT_128_RATE, b"The quick brown fox jumps over the lazy dog", 32)),
        "f4202e3c5852f9182a0430fd8144f0a74b95e7417ecae17db0f8cfeed0e3e66e"
    );
}

#[test]
fn shake256_short_message_known_answer() {
    assert_eq!(
        hex(&xof(ARTIFACT_256_RATE, b"The quick brown fox jumps over the lazy dog", 64)),
        "2f671343d9b2e1604dc9dcf0753e5fe15c7c64a0d283cbbf722d411a0e36f6ca1d01d1369a23539cd80f7c054b6e5daf9c962cad5b8ed5bd11998b40d5734442"
    );
}

#[test]
fn shake128_multi_block_known_answer() {
    let input = vec![0xa3u8; 200];
    assert_eq!(
        hex(&xof(ARTIFACT_128_RATE, &input, 32)),
        "131ab8d2b594946b9c81333f9bb6e0ce75c3b93104fa3469d3917457385da037"
    );
}

#[test]
fn shake256_multi_block_known_answer() {
    let input = vec![0xa3u8; 200];
    assert_eq!(
        hex(&xof(ARTIFACT_256_RATE, &input, 64)),
        "cd8a920ed141aa0407a22d59288652e9d9f1a7ee0c1e7c1ca699424da84a904d2d700caae7396ece96604440577da4f3aa22aeb8857f961c4cd8e06f0ae6610b"
    );
}

#[test]
fn shake128_exact_block_known_answer() {
    let input: Vec<u8> = (0..168u32).map(|i| i as u8).collect();
    assert_eq!(
        hex(&xof(ARTIFACT_128_RATE, &input, 32)),
        "f15277eb61c4908d44a2853f3cde071ae2ed7a23461fbe162a1a98cf6875059c"
    );
}

#[test]
fn shake256_exact_block_known_answer() {
    let input: Vec<u8> = (0..136u32).map(|i| i as u8).collect();
    assert_eq!(
        hex(&xof(ARTIFACT_256_RATE, &input, 64)),
        "b7ff4073b3f5a8eabd6e17705ca7f6761a31058f9df781a6a47e3a3063b9d67a757e8dbf043dac48d2154e46d59c0b9e8bc36ba035153691fbe83b9eff5dae4a"
    );
}

#[test]
fn shake128_long_output_known_answer() {
    let out = xof(ARTIFACT_128_RATE, b"", 400);
    assert_eq!(hex(&out[368..]), "3a7a9c4a95d91c55d495e9f51dd0b5e9d83c6d5e8ce803aa62b8d654db53d09b");
    assert_eq!(&out[..32], &xof(ARTIFACT_128_RATE, b"", 32)[..]);
}

#[test]
fn input_length_limits_what_is_absorbed() {
    let input = b"The quick brown fox jumps over the lazy dog and more";
    let mut out = vec![0u8; 32];
    artifact_transform(&mut out, input, 43, ARTIFACT_128_RATE);
    assert_eq!(hex(&out), "f4202e3c5852f9182a0430fd8144f0a74b95e7417ecae17db0f8cfeed0e3e66e");
}

#[test]
fn permutation_of_zero_state() {
    let mut s = [0u64; 25];
    transform_artifact(&mut s);
    assert_eq!(s[0], 0xF1258F7940E1DDE7);
    assert_eq!(s[1], 0x84D5CCF933C0478A);
}

#[test]
fn crh_is_the_256_bit_digest() {
    let mut digest = vec![0u8; 64];
    compute_crh(&mut digest, b"The quick brown fox jumps over the lazy dog", 43);
    assert_eq!(digest, xof(ARTIFACT_256_RATE, b"The quick brown fox jumps over the lazy dog", 64));
}

#[test]
fn stream_is_the_128_bit_xof_of_seed_and_nonce() {
    let seed: Vec<u8> = (0..32u32).map(|i| (i * 7) as u8).collect();
    let mut state = EternityState::default();
    eternity_stream_init(&mut state, &seed, 0x0102);
    let mut out = vec![0u8; 2 * ARTIFACT_128_RATE];
    eternity_stream_squeeze_blocks(&mut out, 2, &mut state);
    let mut input = seed.clone();
    input.push(0x02);
    input.push(0x01);
    assert_eq!(out, xof(ARTIFACT_128_RATE, &input, 2 * ARTIFACT_128_RATE));
}

#[test]
fn load_and_store_little_endian() {
    let bytes = [1u8, 2, 3, 4, 5, 6, 7, 8, 9];
    assert_eq!(load_artifact_64(&bytes), 0x0807060504030201);
    let mut out = [0xffu8; 10];
    store_artifact_64(&mut out, 0x1122334455667788);
    assert_eq!(out, [0x88, 0x77, 0x66, 0x55, 0x44, 0x33, 0x22, 0x11, 0xff, 0xff]);
}

#[test]
fn initialize_clears_state() {
    let mut state = EternityState::default();
    state.s[3] = 9;
    state.pos = 4;
    state.initialize();
    assert_eq!(state.s, [0u64; 25]);
    assert_eq!(state.pos, 0);
}
