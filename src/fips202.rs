use vstd::prelude::*;

verus! {

/// Block size of the 128-bit security variant, in bytes.
pub const ARTIFACT_128_RATE: usize = 168;
/// Block size of the 256-bit security variant, in bytes.
pub const ARTIFACT_256_RATE: usize = 136;
/// Domain-separation byte of the extendable-output functions.
pub const XOF_DOMAIN: u8 = 0x1f;

/// A block size this sponge accepts: whole lanes, below the 200-byte state.
pub open spec fn valid_rate(rate: int) -> bool {
    0 < rate < 200 && rate % 8 == 0
}

/// The all-zero state.
pub open spec fn zero_lanes() -> Seq<u64> {
    Seq::new(25, |i: int| 0u64)
}

/// Rotation of a lane to the left by `n` bits, `0 < n < 64`.
pub open spec fn rotl(v: u64, n: u64) -> u64 {
    (v << n) ^ (v >> ((64 - n) as u64))
}

/// Byte `j` of `b`, or 0 past its end.
pub open spec fn byte_at(b: Seq<u8>, j: int) -> u8 {
    if 0 <= j < b.len() { b[j] } else { 0 }
}

/// The little-endian 64-bit value of the eight bytes of `b` from `off` (zero past its end).
pub open spec fn load64_spec(b: Seq<u8>, off: int) -> u64 {
    (byte_at(b, off) as u64) | ((byte_at(b, off + 1) as u64) << 8u64) | ((byte_at(b, off + 2)
        as u64) << 16u64) | ((byte_at(b, off + 3) as u64) << 24u64) | ((byte_at(b, off + 4) as u64)
        << 32u64) | ((byte_at(b, off + 5) as u64) << 40u64) | ((byte_at(b, off + 6) as u64)
        << 48u64) | ((byte_at(b, off + 7) as u64) << 56u64)
}

/// Byte `j` (little-endian) of the lane `v`.
pub open spec fn lane_byte(v: u64, j: int) -> u8 {
    (v >> ((8 * j) as u64)) as u8
}

/// The 24 round constants.
pub open spec fn round_constants() -> Seq<u64> {
    seq![
        0x0000000000000001u64,
        0x0000000000008082u64,
        0x800000000000808au64,
        0x8000000080008000u64,
        0x000000000000808bu64,
        0x0000000080000001u64,
        0x8000000080008081u64,
        0x8000000000008009u64,
        0x000000000000008au64,
        0x0000000000000088u64,
        0x0000000080008009u64,
        0x000000008000000au64,
        0x000000008000808bu64,
        0x800000000000008bu64,
        0x8000000000008089u64,
        0x8000000000008003u64,
        0x8000000000008002u64,
        0x8000000000000080u64,
        0x000000000000800au64,
        0x800000008000000au64,
        0x8000000080008081u64,
        0x8000000000008080u64,
        0x0000000080000001u64,
        0x8000000080008008u64,
    ]
}

/// One round: theta, rho and pi, chi, iota, on the 25 lanes (lane `x + 5 y`).
pub open spec fn keccak_round(a: Seq<u64>, rc: u64) -> Seq<u64>
    recommends
        a.len() == 25,
{
    let c0: u64 = a[0] ^ a[5] ^ a[10] ^ a[15] ^ a[20];
    let c1: u64 = a[1] ^ a[6] ^ a[11] ^ a[16] ^ a[21];
    let c2: u64 = a[2] ^ a[7] ^ a[12] ^ a[17] ^ a[22];
    let c3: u64 = a[3] ^ a[8] ^ a[13] ^ a[18] ^ a[23];
    let c4: u64 = a[4] ^ a[9] ^ a[14] ^ a[19] ^ a[24];
    let d0: u64 = c4 ^ rotl(c1, 1);
    let d1: u64 = c0 ^ rotl(c2, 1);
    let d2: u64 = c1 ^ rotl(c3, 1);
    let d3: u64 = c2 ^ rotl(c4, 1);
    let d4: u64 = c3 ^ rotl(c0, 1);
    let b0: u64 = a[0] ^ d0;
    let b10: u64 = rotl((a[1] ^ d1), 1);
    let b20: u64 = rotl((a[2] ^ d2), 62);
    let b5: u64 = rotl((a[3] ^ d3), 28);
    let b15: u64 = rotl((a[4] ^ d4), 27);
    let b16: u64 = rotl((a[5] ^ d0), 36);
    let b1: u64 = rotl((a[6] ^ d1), 44);
    let b11: u64 = rotl((a[7] ^ d2), 6);
    let b21: u64 = rotl((a[8] ^ d3), 55);
    let b6: u64 = rotl((a[9] ^ d4), 20);
    let b7: u64 = rotl((a[10] ^ d0), 3);
    let b17: u64 = rotl((a[11] ^ d1), 10);
    let b2: u64 = rotl((a[12] ^ d2), 43);
    let b12: u64 = rotl((a[13] ^ d3), 25);
    let b22: u64 = rotl((a[14] ^ d4), 39);
    let b23: u64 = rotl((a[15] ^ d0), 41);
    let b8: u64 = rotl((a[16] ^ d1), 45);
    let b18: u64 = rotl((a[17] ^ d2), 15);
    let b3: u64 = rotl((a[18] ^ d3), 21);
    let b13: u64 = rotl((a[19] ^ d4), 8);
    let b14: u64 = rotl((a[20] ^ d0), 18);
    let b24: u64 = rotl((a[21] ^ d1), 2);
    let b9: u64 = rotl((a[22] ^ d2), 61);
    let b19: u64 = rotl((a[23] ^ d3), 56);
    let b4: u64 = rotl((a[24] ^ d4), 14);
    seq![
        b0 ^ (!b1 & b2) ^ rc,
        b1 ^ (!b2 & b3),
        b2 ^ (!b3 & b4),
        b3 ^ (!b4 & b0),
        b4 ^ (!b0 & b1),
        b5 ^ (!b6 & b7),
        b6 ^ (!b7 & b8),
        b7 ^ (!b8 & b9),
        b8 ^ (!b9 & b5),
        b9 ^ (!b5 & b6),
        b10 ^ (!b11 & b12),
        b11 ^ (!b12 & b13),
        b12 ^ (!b13 & b14),
        b13 ^ (!b14 & b10),
        b14 ^ (!b10 & b11),
        b15 ^ (!b16 & b17),
        b16 ^ (!b17 & b18),
        b17 ^ (!b18 & b19),
        b18 ^ (!b19 & b15),
        b19 ^ (!b15 & b16),
        b20 ^ (!b21 & b22),
        b21 ^ (!b22 & b23),
        b22 ^ (!b23 & b24),
        b23 ^ (!b24 & b20),
        b24 ^ (!b20 & b21),
    ]
}

/// The first `n` rounds applied to `s`.
pub open spec fn keccak_rounds(s: Seq<u64>, n: nat) -> Seq<u64>
    decreases n,
{
    if n == 0 {
        s
    } else {
        keccak_round(keccak_rounds(s, (n - 1) as nat), round_constants()[n - 1])
    }
}

/// The 24-round permutation.
pub open spec fn keccak_f(s: Seq<u64>) -> Seq<u64> {
    keccak_rounds(s, 24)
}

/// The permutation applied `n` times.
pub open spec fn keccak_iter(s: Seq<u64>, n: nat) -> Seq<u64>
    decreases n,
{
    if n == 0 {
        s
    } else {
        keccak_f(keccak_iter(s, (n - 1) as nat))
    }
}

/// `s` with each lane XORed with the little-endian lane of `block` at its place.
pub open spec fn xor_block(s: Seq<u64>, block: Seq<u8>) -> Seq<u64> {
    Seq::new(25, |i: int| s[i] ^ load64_spec(block, 8 * i))
}

/// The last block of an input: the remaining bytes, the domain byte after them,
/// and the top bit of the block's last byte.
pub open spec fn pad_block(data: Seq<u8>, rate: int, ds: u8) -> Seq<u8> {
    Seq::new(
        rate as nat,
        |j: int|
            {
                let b0 = byte_at(data, j);
                let b1 = if j == data.len() { b0 ^ ds } else { b0 };
                if j == rate - 1 { b1 ^ 0x80u8 } else { b1 }
            },
    )
}

/// The state after absorbing `data` into `s` block by block and XORing in the padded
/// last block (the permutation that follows it is the first of the squeeze).
pub open spec fn absorb_spec(s: Seq<u64>, rate: int, data: Seq<u8>, ds: u8) -> Seq<u64>
    decreases data.len(),
{
    if rate <= 0 || data.len() < rate {
        xor_block(s, pad_block(data, rate, ds))
    } else {
        absorb_spec(keccak_f(xor_block(s, data.take(rate))), rate, data.skip(rate), ds)
    }
}

/// The first `rate` bytes of the state, lane by lane, little-endian.
pub open spec fn state_bytes(s: Seq<u64>, rate: int) -> Seq<u8> {
    Seq::new(rate as nat, |j: int| lane_byte(s[j / 8], j % 8))
}

/// `n` output blocks squeezed from an absorbed state `s`: block `b` is the state after
/// `b + 1` permutations.
pub open spec fn squeeze_spec(s: Seq<u64>, rate: int, n: nat) -> Seq<u8>
    decreases n,
{
    if n == 0 {
        Seq::empty()
    } else {
        squeeze_spec(s, rate, (n - 1) as nat) + state_bytes(keccak_iter(s, n), rate)
    }
}

/// Number of blocks of `rate` bytes that cover `len` bytes.
pub open spec fn blocks_for(len: int, rate: int) -> nat {
    ((len + rate - 1) / rate) as nat
}

/// The first `outlen` output bytes of the extendable-output function of block size `rate`
/// on `data`.
pub open spec fn xof_spec(rate: int, data: Seq<u8>, outlen: int) -> Seq<u8> {
    squeeze_spec(absorb_spec(zero_lanes(), rate, data, XOF_DOMAIN), rate, blocks_for(outlen, rate)).take(
        outlen,
    )
}

/// The sponge state: 25 lanes and the block size it was absorbed with.
#[derive(Copy, Clone)]
pub struct EternityState {
    pub s: [u64; 25],
    pub pos: usize,
}

impl Default for EternityState {
    fn default() -> (r: Self)
        ensures
            r.s@ == zero_lanes(),
            r.pos == 0,
    {
        let r = EternityState { s: [0u64; 25], pos: 0 };
        assert(r.s@ =~= zero_lanes());
        r
    }
}

impl EternityState {
    /// Clears the lanes and the cursor.
    pub fn initialize(&mut self)
        ensures
            final(self).s@ == zero_lanes(),
            final(self).pos == 0,
    {
        self.s = [0u64; 25];
        self.pos = 0;
        assert(self.s@ =~= zero_lanes());
    }
}

/// Rotates `value` left by `offset` bits.
fn rotate_left(value: u64, offset: u64) -> (r: u64)
    requires
        0 < offset < 64,
    ensures
        r == rotl(value, offset),
{
    (value << offset) ^ (value >> (64 - offset))
}

/// Loads the eight bytes of `bytes` from `off` as a little-endian integer.
fn load64_at(bytes: &[u8], off: usize) -> (r: u64)
    requires
        off + 8 <= bytes@.len(),
    ensures
        r == load64_spec(bytes@, off as int),
{
    (bytes[off] as u64) | ((bytes[off + 1] as u64) << 8u64) | ((bytes[off + 2] as u64) << 16u64)
        | ((bytes[off + 3] as u64) << 24u64) | ((bytes[off + 4] as u64) << 32u64) | ((bytes[off
        + 5] as u64) << 40u64) | ((bytes[off + 6] as u64) << 48u64) | ((bytes[off + 7] as u64)
        << 56u64)
}

/// Loads 8 bytes as a little-endian 64-bit integer.
pub fn load_artifact_64(bytes: &[u8]) -> (r: u64)
    requires
        bytes@.len() >= 8,
    ensures
        r == load64_spec(bytes@, 0),
{
    load64_at(bytes, 0)
}

/// Stores a 64-bit integer into the first 8 bytes, little-endian.
pub fn store_artifact_64(bytes: &mut [u8], value: u64)
    requires
        old(bytes)@.len() >= 8,
    ensures
        final(bytes)@.len() == old(bytes)@.len(),
        forall|j: int| 0 <= j < 8 ==> final(bytes)@[j] == lane_byte(value, j),
        forall|j: int| 8 <= j < old(bytes)@.len() ==> final(bytes)@[j] == old(bytes)@[j],
{
    let mut i: usize = 0;
    while i < 8
        invariant
            0 <= i <= 8,
            bytes@.len() == old(bytes)@.len(),
            old(bytes)@.len() >= 8,
            forall|j: int| 0 <= j < i ==> bytes@[j] == lane_byte(value, j),
            forall|j: int| 8 <= j < old(bytes)@.len() ==> bytes@[j] == old(bytes)@[j],
        decreases 8 - i,
    {
        bytes[i] = (value >> (8 * i) as u64) as u8;
        i = i + 1;
    }
}

/// One round of the permutation, in place.
fn keccak_round_in_place(s: &mut [u64; 25], rc: u64)
    ensures
        final(s)@ == keccak_round(old(s)@, rc),
{
    let c0: u64 = s[0] ^ s[5] ^ s[10] ^ s[15] ^ s[20];
    let c1: u64 = s[1] ^ s[6] ^ s[11] ^ s[16] ^ s[21];
    let c2: u64 = s[2] ^ s[7] ^ s[12] ^ s[17] ^ s[22];
    let c3: u64 = s[3] ^ s[8] ^ s[13] ^ s[18] ^ s[23];
    let c4: u64 = s[4] ^ s[9] ^ s[14] ^ s[19] ^ s[24];
    let d0: u64 = c4 ^ rotate_left(c1, 1);
    let d1: u64 = c0 ^ rotate_left(c2, 1);
    let d2: u64 = c1 ^ rotate_left(c3, 1);
    let d3: u64 = c2 ^ rotate_left(c4, 1);
    let d4: u64 = c3 ^ rotate_left(c0, 1);
    let b0: u64 = s[0] ^ d0;
    let b10: u64 = rotate_left((s[1] ^ d1), 1);
    let b20: u64 = rotate_left((s[2] ^ d2), 62);
    let b5: u64 = rotate_left((s[3] ^ d3), 28);
    let b15: u64 = rotate_left((s[4] ^ d4), 27);
    let b16: u64 = rotate_left((s[5] ^ d0), 36);
    let b1: u64 = rotate_left((s[6] ^ d1), 44);
    let b11: u64 = rotate_left((s[7] ^ d2), 6);
    let b21: u64 = rotate_left((s[8] ^ d3), 55);
    let b6: u64 = rotate_left((s[9] ^ d4), 20);
    let b7: u64 = rotate_left((s[10] ^ d0), 3);
    let b17: u64 = rotate_left((s[11] ^ d1), 10);
    let b2: u64 = rotate_left((s[12] ^ d2), 43);
    let b12: u64 = rotate_left((s[13] ^ d3), 25);
    let b22: u64 = rotate_left((s[14] ^ d4), 39);
    let b23: u64 = rotate_left((s[15] ^ d0), 41);
    let b8: u64 = rotate_left((s[16] ^ d1), 45);
    let b18: u64 = rotate_left((s[17] ^ d2), 15);
    let b3: u64 = rotate_left((s[18] ^ d3), 21);
    let b13: u64 = rotate_left((s[19] ^ d4), 8);
    let b14: u64 = rotate_left((s[20] ^ d0), 18);
    let b24: u64 = rotate_left((s[21] ^ d1), 2);
    let b9: u64 = rotate_left((s[22] ^ d2), 61);
    let b19: u64 = rotate_left((s[23] ^ d3), 56);
    let b4: u64 = rotate_left((s[24] ^ d4), 14);
    s[0] = b0 ^ (!b1 & b2) ^ rc;
    s[1] = b1 ^ (!b2 & b3);
    s[2] = b2 ^ (!b3 & b4);
    s[3] = b3 ^ (!b4 & b0);
    s[4] = b4 ^ (!b0 & b1);
    s[5] = b5 ^ (!b6 & b7);
    s[6] = b6 ^ (!b7 & b8);
    s[7] = b7 ^ (!b8 & b9);
    s[8] = b8 ^ (!b9 & b5);
    s[9] = b9 ^ (!b5 & b6);
    s[10] = b10 ^ (!b11 & b12);
    s[11] = b11 ^ (!b12 & b13);
    s[12] = b12 ^ (!b13 & b14);
    s[13] = b13 ^ (!b14 & b10);
    s[14] = b14 ^ (!b10 & b11);
    s[15] = b15 ^ (!b16 & b17);
    s[16] = b16 ^ (!b17 & b18);
    s[17] = b17 ^ (!b18 & b19);
    s[18] = b18 ^ (!b19 & b15);
    s[19] = b19 ^ (!b15 & b16);
    s[20] = b20 ^ (!b21 & b22);
    s[21] = b21 ^ (!b22 & b23);
    s[22] = b22 ^ (!b23 & b24);
    s[23] = b23 ^ (!b24 & b20);
    s[24] = b24 ^ (!b20 & b21);
    assert(s@ =~= keccak_round(old(s)@, rc));
}

/// Applies the 24-round permutation to the state.
pub fn transform_artifact(state: &mut [u64; 25])
    ensures
        final(state)@ == keccak_f(old(state)@),
{
    let table: [u64; 24] = [
        0x0000000000000001u64,
        0x0000000000008082u64,
        0x800000000000808au64,
        0x8000000080008000u64,
        0x000000000000808bu64,
        0x0000000080000001u64,
        0x8000000080008081u64,
        0x8000000000008009u64,
        0x000000000000008au64,
        0x0000000000000088u64,
        0x0000000080008009u64,
        0x000000008000000au64,
        0x000000008000808bu64,
        0x800000000000008bu64,
        0x8000000000008089u64,
        0x8000000000008003u64,
        0x8000000000008002u64,
        0x8000000000000080u64,
        0x000000000000800au64,
        0x800000008000000au64,
        0x8000000080008081u64,
        0x8000000000008080u64,
        0x0000000080000001u64,
        0x8000000080008008u64,
    ];
    assert(table@ == round_constants());
    let mut round: usize = 0;
    while round < 24
        invariant
            0 <= round <= 24,
            table@ == round_constants(),
            state@ == keccak_rounds(old(state)@, round as nat),
        decreases 24 - round,
    {
        keccak_round_in_place(state, table[round]);
        round = round + 1;
    }
}

/// The lane `i` of a block at `off` in `block` is the lane `i` read at `off + 8 i`.
proof fn lemma_load64_subrange(block: Seq<u8>, off: int, rate: int, i: int)
    requires
        0 <= off,
        off + rate <= block.len(),
        0 <= i,
        8 * i + 8 <= rate,
    ensures
        load64_spec(block.subrange(off, off + rate), 8 * i) == load64_spec(block, off + 8 * i),
{
    let sub = block.subrange(off, off + rate);
    assert forall|k: int| 0 <= k < 8 implies #[trigger] byte_at(sub, 8 * i + k) == byte_at(block, off + 8 * i
        + k) by {}
}

/// Past the end of a block every lane reads as zero, and XOR with zero keeps a lane.
proof fn lemma_load64_past_end(block: Seq<u8>, off: int, v: u64)
    requires
        off >= block.len(),
    ensures
        v ^ load64_spec(block, off) == v,
{
    assert(load64_spec(block, off) == 0u64) by {
        assert((0u8 as u64) | ((0u8 as u64) << 8u64) | ((0u8 as u64) << 16u64) | ((0u8 as u64)
            << 24u64) | ((0u8 as u64) << 32u64) | ((0u8 as u64) << 40u64) | ((0u8 as u64) << 48u64)
            | ((0u8 as u64) << 56u64) == 0u64) by (bit_vector);
    }
    assert(v ^ 0u64 == v) by (bit_vector);
}

/// XORs the `rate` bytes of `block` at `off` into the lanes.
fn xor_lanes(s: &mut [u64; 25], block: &[u8], off: usize, rate: usize)
    requires
        valid_rate(rate as int),
        off + rate <= block@.len(),
    ensures
        final(s)@ == xor_block(old(s)@, block@.subrange(off as int, off + rate)),
{
    let ghost sub = block@.subrange(off as int, off + rate);
    proof {
        vstd::arithmetic::div_mod::lemma_fundamental_div_mod(rate as int, 8);
    }
    let total = block.len();
    let mut i: usize = 0;
    while i < rate / 8
        invariant
            valid_rate(rate as int),
            total == block@.len(),
            off + rate <= block@.len(),
            sub == block@.subrange(off as int, off + rate),
            rate == 8 * (rate / 8),
            0 <= i <= rate / 8,
            forall|j: int| 0 <= j < i ==> s@[j] == old(s)@[j] ^ load64_spec(sub, 8 * j),
            forall|j: int| i <= j < 25 ==> s@[j] == old(s)@[j],
        decreases rate / 8 - i,
    {
        proof {
            lemma_load64_subrange(block@, off as int, rate as int, i as int);
        }
        let lane = load64_at(block, off + 8 * i);
        s[i] = s[i] ^ lane;
        i = i + 1;
    }
    proof {
        assert forall|j: int| rate / 8 <= j < 25 implies s@[j] == old(s)@[j] ^ load64_spec(sub, 8
            * j) by {
            lemma_load64_past_end(sub, 8 * j, old(s)@[j]);
        }
    }
    assert(s@ =~= xor_block(old(s)@, sub));
}

/// Resets the state and absorbs the first `len` bytes of `data` with the block size
/// `rate`, padding the last block with the domain byte `ds`.
pub fn absorb_once(state: &mut EternityState, rate: usize, data: &[u8], len: usize, ds: u8)
    requires
        valid_rate(rate as int),
        len <= data@.len(),
    ensures
        final(state).s@ == absorb_spec(zero_lanes(), rate as int, data@.take(len as int), ds),
        final(state).pos == rate,
{
    state.initialize();
    let ghost whole = data@.take(len as int);
    let mut idx: usize = 0;
    assert(whole.skip(0) =~= whole);
    while len - idx >= rate
        invariant
            valid_rate(rate as int),
            len <= data@.len(),
            whole == data@.take(len as int),
            idx <= len,
            absorb_spec(state.s@, rate as int, whole.skip(idx as int), ds) == absorb_spec(
                zero_lanes(),
                rate as int,
                whole,
                ds,
            ),
        decreases len - idx,
    {
        let ghost before = state.s@;
        proof {
            assert(whole.skip(idx as int).take(rate as int) =~= data@.subrange(
                idx as int,
                idx + rate,
            ));
            assert(whole.skip(idx as int).skip(rate as int) =~= whole.skip(idx + rate));
        }
        xor_lanes(&mut state.s, data, idx, rate);
        transform_artifact(&mut state.s);
        idx = idx + rate;
    }
    let rem: usize = len - idx;
    let mut buf: [u8; 200] = [0u8; 200];
    let mut j: usize = 0;
    while j < rem
        invariant
            rem == len - idx,
            rem < rate,
            valid_rate(rate as int),
            idx + rem <= data@.len(),
            0 <= j <= rem,
            forall|t: int| 0 <= t < j ==> buf@[t] == data@[idx + t],
            forall|t: int| j <= t < 200 ==> buf@[t] == 0u8,
        decreases rem - j,
    {
        buf[j] = data[idx + j];
        j = j + 1;
    }
    buf[rem] = buf[rem] ^ ds;
    buf[rate - 1] = buf[rate - 1] ^ 0x80u8;
    proof {
        let tail = whole.skip(idx as int);
        assert(buf@.subrange(0, rate as int) =~= pad_block(tail, rate as int, ds));
    }
    xor_lanes(&mut state.s, &buf, 0, rate);
    state.pos = rate;
}

/// Writes the first `rate` bytes of the lanes to `out` at `off`.
fn store_block(out: &mut [u8], off: usize, s: &[u64; 25], rate: usize)
    requires
        valid_rate(rate as int),
        off + rate <= old(out)@.len(),
    ensures
        final(out)@.len() == old(out)@.len(),
        final(out)@.subrange(off as int, off + rate) == state_bytes(s@, rate as int),
        forall|t: int|
            0 <= t < old(out)@.len() && !(off <= t < off + rate) ==> final(out)@[t] == old(out)@[t],
{
    let total = out.len();
    let mut j: usize = 0;
    while j < rate
        invariant
            valid_rate(rate as int),
            total == out@.len(),
            off + rate <= total,
            off + rate <= old(out)@.len(),
            out@.len() == old(out)@.len(),
            0 <= j <= rate,
            forall|t: int| off <= t < off + j ==> out@[t] == lane_byte(s@[(t - off) / 8], (t - off) % 8),
            forall|t: int|
                0 <= t < old(out)@.len() && !(off <= t < off + j) ==> out@[t] == old(out)@[t],
        decreases rate - j,
    {
        assert(j / 8 < 25);
        out[off + j] = (s[j / 8] >> (8 * (j % 8)) as u64) as u8;
        j = j + 1;
    }
    assert(out@.subrange(off as int, off + rate) =~= state_bytes(s@, rate as int));
}

/// Squeezes `nblocks` blocks of `rate` bytes into the front of `out`, permuting before each.
pub fn squeeze_blocks(out: &mut [u8], nblocks: usize, state: &mut EternityState, rate: usize)
    requires
        valid_rate(rate as int),
        nblocks * rate <= old(out)@.len(),
    ensures
        final(out)@.len() == old(out)@.len(),
        final(out)@.take(nblocks * rate) == squeeze_spec(old(state).s@, rate as int, nblocks as nat),
        final(out)@.skip(nblocks * rate) == old(out)@.skip(nblocks * rate),
        final(state).s@ == keccak_iter(old(state).s@, nblocks as nat),
        final(state).pos == old(state).pos,
{
    let ghost s0 = state.s@;
    let total = out.len();
    let mut b: usize = 0;
    while b < nblocks
        invariant
            valid_rate(rate as int),
            total == old(out)@.len(),
            nblocks * rate <= old(out)@.len(),
            s0 == old(state).s@,
            state.pos == old(state).pos,
            out@.len() == old(out)@.len(),
            0 <= b <= nblocks,
            out@.take(b * rate) == squeeze_spec(s0, rate as int, b as nat),
            forall|t: int| b * rate <= t < old(out)@.len() ==> out@[t] == old(out)@[t],
            state.s@ == keccak_iter(s0, b as nat),
        decreases nblocks - b,
    {
        assert(b * rate + rate <= nblocks * rate) by (nonlinear_arith)
            requires
                b < nblocks,
        ;
        assert((b + 1) * rate == b * rate + rate) by (nonlinear_arith);
        let ghost prev = out@;
        transform_artifact(&mut state.s);
        store_block(out, b * rate, &state.s, rate);
        proof {
            assert(out@.take((b + 1) * rate) =~= prev.take(b * rate) + state_bytes(
                keccak_iter(s0, (b + 1) as nat),
                rate as int,
            ));
        }
        b = b + 1;
    }
    assert(out@.skip(nblocks * rate) =~= old(out)@.skip(nblocks * rate));
}

/// Fills `output` with the extendable-output function of block size `rate` on the first
/// `input_length` bytes of `input`.
pub fn artifact_transform(output: &mut [u8], input: &[u8], input_length: usize, rate: usize)
    requires
        valid_rate(rate as int),
        input_length <= input@.len(),
        old(output)@.len() + 200 <= usize::MAX,
    ensures
        final(output)@ == xof_spec(rate as int, input@.take(input_length as int), old(output)@.len() as int),
{
    let mut state = EternityState::default();
    absorb_once(&mut state, rate, input, input_length, XOF_DOMAIN);
    let ghost absorbed = state.s@;
    let outlen = output.len();
    let nblocks: usize = (outlen + rate - 1) / rate;
    proof {
        let num: int = outlen + rate - 1;
        let d: int = rate as int;
        vstd::arithmetic::div_mod::lemma_fundamental_div_mod(num, d);
        let n: int = nblocks as int;
        let rm: int = num % d;
        assert(n * d <= outlen + d) by (nonlinear_arith)
            requires
                num == d * n + rm,
                rm >= 0,
                num == outlen + d - 1,
        ;
        assert(n * d >= outlen) by (nonlinear_arith)
            requires
                num == d * n + rm,
                rm < d,
                num == outlen + d - 1,
        ;
    }
    let mut buf: Vec<u8> = vec![0u8; nblocks * rate];
    squeeze_blocks(buf.as_mut_slice(), nblocks, &mut state, rate);
    let mut i: usize = 0;
    while i < outlen
        invariant
            outlen == output@.len(),
            outlen <= buf@.len(),
            buf@.len() == nblocks * rate,
            0 <= i <= outlen,
            forall|t: int| 0 <= t < i ==> output@[t] == buf@[t],
        decreases outlen - i,
    {
        output[i] = buf[i];
        i = i + 1;
    }
    assert(output@ =~= buf@.take(nblocks * rate).take(outlen as int));
}

} // verus!
