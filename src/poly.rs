use vstd::prelude::*;
use crate::fips202::{
    absorb_once, absorb_spec, keccak_iter, load64_spec, load_artifact_64, squeeze_blocks,
    squeeze_spec, state_bytes, zero_lanes, EternityState, ARTIFACT_128_RATE, ARTIFACT_256_RATE, XOF_DOMAIN,
};
use crate::params::{ELEMENTS, QUANTA, SEEDBYTES, TAU};
use crate::reduce::{
    artifact_montgomery_reduce, artifact_reduce32, mont_hi, mont_lo, montgomery_spec,
    reduce32_spec,
};
use crate::ntt::{
    all_below, invntt_spec, invntt_tomont, ntt, ntt_spec, NTT_INPUT_BOUND, NTT_OUTPUT_BOUND,
};
use crate::rounding::hinted_high;
use crate::symmetric::{
    eternity_stream_init, eternity_stream_squeeze_blocks, stream_input, STREAM_BLOCKBYTES,
};

verus! {

/// Largest input of the 32-bit reduction: 2^31 - 2^22 - 1.
pub const REDUCE32_MAX: i32 = 2143289343;
/// Stream blocks drawn at first when a polynomial is sampled.
pub const POLY_UNIFORM_NBLOCKS: usize = 5;
/// Most stream blocks a sampler draws before it gives up.
pub const SAMPLER_MAX_BLOCKS: usize = 64;

/// A ring element: its coefficients, 256 of them in a well-formed element.
#[derive(Clone)]
pub struct Artifact {
    pub elements: Vec<i32>,
}

impl Artifact {
    /// The element of `size` zero coefficients.
    pub fn new(size: usize) -> (r: Self)
        ensures
            r.elements@ == Seq::new(size as nat, |i: int| 0i32),
    {
        let r = Artifact { elements: vec![0i32; size] };
        assert(r.elements@ =~= Seq::new(size as nat, |i: int| 0i32));
        r
    }

    /// A copy of the coefficients.
    pub fn duplicate(&self) -> (r: Self)
        ensures
            r.elements@ == self.elements@,
    {
        let mut v: Vec<i32> = Vec::new();
        let mut i: usize = 0;
        while i < self.elements.len()
            invariant
                0 <= i <= self.elements@.len(),
                v@ == self.elements@.take(i as int),
            decreases self.elements@.len() - i,
        {
            v.push(self.elements[i]);
            i = i + 1;
            assert(v@ =~= self.elements@.take(i as int));
        }
        assert(self.elements@.take(self.elements@.len() as int) =~= self.elements@);
        Artifact { elements: v }
    }
}

impl Default for Artifact {
    fn default() -> (r: Self)
        ensures
            r.elements@ == Seq::new(ELEMENTS as nat, |i: int| 0i32),
    {
        Artifact::new(ELEMENTS)
    }
}

/// The element has 256 coefficients.
pub open spec fn well_formed(a: &Artifact) -> bool {
    a.elements@.len() == ELEMENTS
}

/// Every coefficient lies in `[lo, hi]`.
pub open spec fn bounded(a: &Artifact, lo: int, hi: int) -> bool {
    forall|i: int| 0 <= i < ELEMENTS ==> lo <= #[trigger] a.elements@[i] <= hi
}

/// The centered absolute value of a coefficient.
pub open spec fn centered_abs(x: int) -> int {
    if x < 0 { -x } else { x }
}

/// Reduces each coefficient to `reduce32`'s range, keeping it modulo q.
pub fn artifact_reduce(a: &mut Artifact)
    requires
        well_formed(old(a)),
        forall|i: int| 0 <= i < ELEMENTS ==> #[trigger] old(a).elements@[i] <= REDUCE32_MAX,
    ensures
        well_formed(final(a)),
        forall|i: int| 0 <= i < ELEMENTS ==> #[trigger] final(a).elements@[i] == reduce32_spec(old(a).elements@[i] as int),
        bounded(final(a), -6283009, 6283008),
{
    let mut i: usize = 0;
    while i < ELEMENTS
        invariant
            a.elements@.len() == ELEMENTS,
            0 <= i <= ELEMENTS,
            forall|j: int| 0 <= j < ELEMENTS ==> #[trigger] old(a).elements@[j] <= REDUCE32_MAX,
            forall|j: int| 0 <= j < i ==> #[trigger] a.elements@[j] == reduce32_spec(old(a).elements@[j] as int),
            forall|j: int| 0 <= j < i ==> -6283009 <= #[trigger] a.elements@[j] <= 6283008,
            forall|j: int| i <= j < ELEMENTS ==> #[trigger] a.elements@[j] == old(a).elements@[j],
        decreases ELEMENTS - i,
    {
        let v = artifact_reduce32(a.elements[i]);
        a.elements.set(i, v);
        i = i + 1;
    }
}

/// Adds q to each negative coefficient.
pub fn artifact_caddq(a: &mut Artifact)
    requires
        well_formed(old(a)),
    ensures
        well_formed(final(a)),
        forall|i: int| 0 <= i < ELEMENTS ==> #[trigger] final(a).elements@[i] as int == if old(a).elements@[i] < 0 {
            old(a).elements@[i] + QUANTA
        } else {
            old(a).elements@[i] as int
        },
{
    let mut i: usize = 0;
    while i < ELEMENTS
        invariant
            a.elements@.len() == ELEMENTS,
            0 <= i <= ELEMENTS,
            forall|j: int| 0 <= j < i ==> #[trigger] a.elements@[j] as int == if old(a).elements@[j] < 0 {
                old(a).elements@[j] + QUANTA
            } else {
                old(a).elements@[j] as int
            },
            forall|j: int| i <= j < ELEMENTS ==> #[trigger] a.elements@[j] == old(a).elements@[j],
        decreases ELEMENTS - i,
    {
        let v = crate::reduce::artifact_caddq(a.elements[i]);
        a.elements.set(i, v);
        i = i + 1;
    }
}

/// Adds `b` to `c` coefficient by coefficient, without reduction.
pub fn artifact_add(c: &mut Artifact, b: &Artifact)
    requires
        well_formed(old(c)),
        well_formed(b),
        forall|i: int| 0 <= i < ELEMENTS ==> i32::MIN <= #[trigger] old(c).elements@[i] + b.elements@[i] <= i32::MAX,
    ensures
        well_formed(final(c)),
        forall|i: int| 0 <= i < ELEMENTS ==> #[trigger] final(c).elements@[i] == old(c).elements@[i] + b.elements@[i],
{
    let mut i: usize = 0;
    while i < ELEMENTS
        invariant
            c.elements@.len() == ELEMENTS,
            well_formed(b),
            0 <= i <= ELEMENTS,
            forall|j: int| 0 <= j < ELEMENTS ==> i32::MIN <= #[trigger] old(c).elements@[j] + b.elements@[j] <= i32::MAX,
            forall|j: int| 0 <= j < i ==> #[trigger] c.elements@[j] == old(c).elements@[j] + b.elements@[j],
            forall|j: int| i <= j < ELEMENTS ==> #[trigger] c.elements@[j] == old(c).elements@[j],
        decreases ELEMENTS - i,
    {
        let v = c.elements[i] + b.elements[i];
        c.elements.set(i, v);
        i = i + 1;
    }
}

/// Subtracts `b` from `c` coefficient by coefficient, without reduction.
pub fn artifact_sub(c: &mut Artifact, b: &Artifact)
    requires
        well_formed(old(c)),
        well_formed(b),
        forall|i: int| 0 <= i < ELEMENTS ==> i32::MIN <= #[trigger] old(c).elements@[i] - b.elements@[i] <= i32::MAX,
    ensures
        well_formed(final(c)),
        forall|i: int| 0 <= i < ELEMENTS ==> #[trigger] final(c).elements@[i] == old(c).elements@[i] - b.elements@[i],
{
    let mut i: usize = 0;
    while i < ELEMENTS
        invariant
            c.elements@.len() == ELEMENTS,
            well_formed(b),
            0 <= i <= ELEMENTS,
            forall|j: int| 0 <= j < ELEMENTS ==> i32::MIN <= #[trigger] old(c).elements@[j] - b.elements@[j] <= i32::MAX,
            forall|j: int| 0 <= j < i ==> #[trigger] c.elements@[j] == old(c).elements@[j] - b.elements@[j],
            forall|j: int| i <= j < ELEMENTS ==> #[trigger] c.elements@[j] == old(c).elements@[j],
        decreases ELEMENTS - i,
    {
        let v = c.elements[i] - b.elements[i];
        c.elements.set(i, v);
        i = i + 1;
    }
}

/// Multiplies each coefficient by 2^13, without reduction.
pub fn artifact_shiftl(a: &mut Artifact)
    requires
        well_formed(old(a)),
        bounded(old(a), -0x3_ffff, 0x3_ffff),
    ensures
        well_formed(final(a)),
        forall|i: int| 0 <= i < ELEMENTS ==> #[trigger] final(a).elements@[i] == old(a).elements@[i] * 8192,
{
    let mut i: usize = 0;
    while i < ELEMENTS
        invariant
            a.elements@.len() == ELEMENTS,
            0 <= i <= ELEMENTS,
            bounded(old(a), -0x3_ffff, 0x3_ffff),
            forall|j: int| 0 <= j < i ==> #[trigger] a.elements@[j] == old(a).elements@[j] * 8192,
            forall|j: int| i <= j < ELEMENTS ==> #[trigger] a.elements@[j] == old(a).elements@[j],
        decreases ELEMENTS - i,
    {
        let x = a.elements[i];
        assert(-0x3_ffff <= x <= 0x3_ffff);
        a.elements.set(i, x * 8192);
        i = i + 1;
    }
}

/// In-place forward transform; each coefficient grows by less than 8 q in magnitude.
pub fn artifact_ntt(a: &mut Artifact)
    requires
        well_formed(old(a)),
        all_below(old(a).elements@, NTT_INPUT_BOUND as int),
    ensures
        well_formed(final(a)),
        final(a).elements@ == ntt_spec(old(a).elements@),
        all_below(final(a).elements@, NTT_OUTPUT_BOUND as int),
{
    ntt(&mut a.elements);
}

/// In-place inverse transform with scaling by 2^32; inputs of magnitude at most q give
/// outputs of magnitude below q.
pub fn artifact_invntt_tomont(a: &mut Artifact)
    requires
        well_formed(old(a)),
        all_below(old(a).elements@, QUANTA + 1),
    ensures
        well_formed(final(a)),
        final(a).elements@ == invntt_spec(old(a).elements@),
        bounded(final(a), -QUANTA + 1, QUANTA - 1),
{
    invntt_tomont(&mut a.elements);
}

/// Multiplies `a` and `b` coefficient by coefficient into `c`, each product scaled by 2^-32.
pub fn artifact_pointwise_montgomery(c: &mut Artifact, a: &Artifact, b: &Artifact)
    requires
        well_formed(old(c)),
        well_formed(a),
        well_formed(b),
        forall|i: int| 0 <= i < ELEMENTS ==> mont_lo() <= #[trigger] (a.elements@[i] * b.elements@[i]) <= mont_hi(),
    ensures
        well_formed(final(c)),
        forall|i: int| 0 <= i < ELEMENTS ==> #[trigger] final(c).elements@[i] == montgomery_spec(a.elements@[i] * b.elements@[i]),
        bounded(final(c), -QUANTA + 1, QUANTA as int),
{
    let mut i: usize = 0;
    while i < ELEMENTS
        invariant
            c.elements@.len() == ELEMENTS,
            well_formed(a),
            well_formed(b),
            0 <= i <= ELEMENTS,
            forall|j: int| 0 <= j < ELEMENTS ==> mont_lo() <= #[trigger] (a.elements@[j] * b.elements@[j]) <= mont_hi(),
            forall|j: int| 0 <= j < i ==> #[trigger] c.elements@[j] == montgomery_spec(a.elements@[j] * b.elements@[j]),
            forall|j: int| 0 <= j < i ==> -QUANTA < #[trigger] c.elements@[j] <= QUANTA,
        decreases ELEMENTS - i,
    {
        let x = a.elements[i] as i64;
        let y = b.elements[i] as i64;
        assert(mont_lo() <= a.elements@[i as int] * b.elements@[i as int] <= mont_hi());
        assert(mont_hi() < 0x7fff_ffff_ffff_ffff);
        assert(mont_lo() > -0x7fff_ffff_ffff_ffff);
        let v = artifact_montgomery_reduce(x * y);
        c.elements.set(i, v);
        i = i + 1;
    }
}

/// Replaces each coefficient (a standard representative) by its high part corrected by the
/// hint coefficient at its place.
pub fn artifact_use_hint(corrected: &mut Artifact, hint: &Artifact)
    requires
        well_formed(old(corrected)),
        well_formed(hint),
        bounded(old(corrected), 0, QUANTA - 1),
        bounded(hint, 0, 1),
    ensures
        well_formed(final(corrected)),
        forall|i: int| 0 <= i < ELEMENTS ==> #[trigger] final(corrected).elements@[i] == hinted_high(old(corrected).elements@[i] as int, hint.elements@[i] as u8),
        bounded(final(corrected), 0, 15),
{
    let mut i: usize = 0;
    while i < ELEMENTS
        invariant
            corrected.elements@.len() == ELEMENTS,
            well_formed(hint),
            bounded(old(corrected), 0, QUANTA - 1),
            bounded(hint, 0, 1),
            0 <= i <= ELEMENTS,
            forall|j: int| 0 <= j < i ==> #[trigger] corrected.elements@[j] == hinted_high(old(corrected).elements@[j] as int, hint.elements@[j] as u8),
            forall|j: int| 0 <= j < i ==> 0 <= #[trigger] corrected.elements@[j] <= 15,
            forall|j: int| i <= j < ELEMENTS ==> #[trigger] corrected.elements@[j] == old(corrected).elements@[j],
        decreases ELEMENTS - i,
    {
        let x = corrected.elements[i];
        let h = hint.elements[i] as u8;
        assert(0 <= x < QUANTA);
        let v = crate::rounding::artifact_use_hint(x, h);
        corrected.elements.set(i, v);
        i = i + 1;
    }
}

/// The norm check rejects: the bound is above (q - 1) / 8, or some coefficient's centered
/// absolute value reaches it.
pub open spec fn norm_exceeds(a: &Artifact, bound: i32) -> bool {
    bound > (QUANTA - 1) / 8 || exists|i: int| 0 <= i < ELEMENTS && centered_abs(#[trigger] a.elements@[i] as int) >= bound
}

/// Returns 1 where the norm check rejects (see `norm_exceeds`), 0 where every coefficient's
/// centered absolute value is below `bound`.
pub fn artifact_chknorm(a: &Artifact, bound: i32) -> (r: u8)
    requires
        well_formed(a),
        bounded(a, i32::MIN + 1, i32::MAX as int),
    ensures
        r == 1 <==> norm_exceeds(a, bound),
        r == 0 <==> !norm_exceeds(a, bound),
{
    if bound > (QUANTA - 1) / 8 {
        return 1;
    }
    let mut i: usize = 0;
    while i < ELEMENTS
        invariant
            well_formed(a),
            bounded(a, i32::MIN + 1, i32::MAX as int),
            bound <= (QUANTA - 1) / 8,
            0 <= i <= ELEMENTS,
            forall|j: int| 0 <= j < i ==> centered_abs(#[trigger] a.elements@[j] as int) < bound,
        decreases ELEMENTS - i,
    {
        let x = a.elements[i];
        assert(i32::MIN + 1 <= x);
        let t: i32 = if x < 0 { -x } else { x };
        if t >= bound {
            assert(centered_abs(a.elements@[i as int] as int) >= bound);
            return 1;
        }
        i = i + 1;
    }
    0
}

/// The 23-bit candidate that the three bytes of chunk `j` of `buf` give.
pub open spec fn candidate(buf: Seq<u8>, j: int) -> int {
    (buf[3 * j] as int + buf[3 * j + 1] as int * 256 + (buf[3 * j + 2] as int % 128) * 65536)
}

/// The candidates below q among the first `n` chunks of `buf`, in order.
pub open spec fn accepted(buf: Seq<u8>, n: nat) -> Seq<i32>
    decreases n,
{
    if n == 0 {
        Seq::empty()
    } else {
        let prev = accepted(buf, (n - 1) as nat);
        if candidate(buf, n - 1) < QUANTA {
            prev.push(candidate(buf, n - 1) as i32)
        } else {
            prev
        }
    }
}

/// The accepted values of fewer chunks are a prefix of those of more.
pub proof fn lemma_accepted_prefix(buf: Seq<u8>, m: nat, n: nat)
    requires
        m <= n,
    ensures
        accepted(buf, m).len() <= accepted(buf, n).len(),
        accepted(buf, n).take(accepted(buf, m).len() as int) == accepted(buf, m),
    decreases n - m,
{
    if m < n {
        lemma_accepted_prefix(buf, m, (n - 1) as nat);
        let prev = accepted(buf, (n - 1) as nat);
        assert(accepted(buf, n).take(prev.len() as int) =~= prev);
        assert(accepted(buf, n).take(accepted(buf, m).len() as int) =~= prev.take(
            accepted(buf, m).len() as int,
        ));
    } else {
        assert(accepted(buf, n).take(accepted(buf, n).len() as int) =~= accepted(buf, n));
    }
}

/// Every accepted value is a standard representative.
pub proof fn lemma_accepted_range(buf: Seq<u8>, n: nat)
    ensures
        forall|i: int| 0 <= i < accepted(buf, n).len() ==> 0 <= #[trigger] accepted(buf, n)[i] < QUANTA,
    decreases n,
{
    if n > 0 {
        lemma_accepted_range(buf, (n - 1) as nat);
        let prev = accepted(buf, (n - 1) as nat);
        let v = candidate(buf, n - 1);
        assert(v >= 0);
        assert forall|i: int| 0 <= i < accepted(buf, n).len() implies 0 <= #[trigger] accepted(
            buf,
            n,
        )[i] < QUANTA by {
            if i < prev.len() {
                assert(accepted(buf, n)[i] == prev[i]);
            }
        }
    }
}

/// The accepted values of `n` chunks depend on the first `3 n` bytes alone.
pub proof fn lemma_accepted_prefix_bytes(b1: Seq<u8>, b2: Seq<u8>, n: nat)
    requires
        3 * n <= b1.len(),
        3 * n <= b2.len(),
        b1.take(3 * n as int) == b2.take(3 * n as int),
    ensures
        accepted(b1, n) == accepted(b2, n),
    decreases n,
{
    if n > 0 {
        assert(b1.take(3 * (n - 1)) =~= b1.take(3 * n as int).take(3 * (n - 1)));
        assert(b2.take(3 * (n - 1)) =~= b2.take(3 * n as int).take(3 * (n - 1)));
        lemma_accepted_prefix_bytes(b1, b2, (n - 1) as nat);
        let j = n - 1;
        assert(b1[3 * j] == b1.take(3 * n as int)[3 * j]);
        assert(b1[3 * j + 1] == b1.take(3 * n as int)[3 * j + 1]);
        assert(b1[3 * j + 2] == b1.take(3 * n as int)[3 * j + 2]);
        assert(b2[3 * j] == b2.take(3 * n as int)[3 * j]);
        assert(b2[3 * j + 1] == b2.take(3 * n as int)[3 * j + 1]);
        assert(b2[3 * j + 2] == b2.take(3 * n as int)[3 * j + 2]);
    }
}

/// Sampling two byte strings one after the other is sampling their concatenation.
pub proof fn lemma_accepted_concat(x: Seq<u8>, y: Seq<u8>, p: nat, q: nat)
    requires
        x.len() == 3 * p,
        3 * q <= y.len(),
    ensures
        accepted(x + y, p + q) == accepted(x, p) + accepted(y, q),
    decreases q,
{
    if q == 0 {
        assert((x + y).take(3 * p as int) =~= x.take(3 * p as int));
        lemma_accepted_prefix_bytes(x + y, x, p);
        assert(accepted(x, p) + accepted(y, 0) =~= accepted(x, p));
    } else {
        lemma_accepted_concat(x, y, p, (q - 1) as nat);
        let j = p + q - 1;
        assert((x + y)[3 * j] == y[3 * (q - 1)]);
        assert((x + y)[3 * j + 1] == y[3 * (q - 1) + 1]);
        assert((x + y)[3 * j + 2] == y[3 * (q - 1) + 2]);
        assert(candidate(x + y, j) == candidate(y, q - 1));
        let prev = accepted(x, p) + accepted(y, (q - 1) as nat);
        if candidate(y, q - 1) < QUANTA {
            assert(prev.push(candidate(y, q - 1) as i32) =~= accepted(x, p) + accepted(y, (q - 1) as nat).push(candidate(y, q - 1) as i32));
        }
    }
}

/// The stream of `n` blocks of `r` bytes has `r n` bytes, and fewer blocks give a prefix of it.
pub proof fn lemma_stream_prefix(s: Seq<u64>, r: int, m: nat, n: nat)
    requires
        0 < r,
        m <= n,
    ensures
        squeeze_spec(s, r, n).len() == r * n,
        squeeze_spec(s, r, n).take(r * m) == squeeze_spec(s, r, m),
    decreases n,
{
    if n > 0 {
        assert(r * n == r * (n - 1) + r) by (nonlinear_arith);
        if m == n {
            lemma_stream_prefix(s, r, 0, (n - 1) as nat);
            assert(squeeze_spec(s, r, n).take(r * m) =~= squeeze_spec(s, r, n));
        } else {
            lemma_stream_prefix(s, r, m, (n - 1) as nat);
            assert(r * m <= r * (n - 1)) by (nonlinear_arith)
                requires
                    m <= n - 1,
                    0 < r,
            ;
            assert(squeeze_spec(s, r, n).take(r * m) =~= squeeze_spec(s, r, (n - 1) as nat).take(r * m));
        }
    } else {
        assert(squeeze_spec(s, r, n).take(0) =~= squeeze_spec(s, r, 0));
    }
}

/// The first `nblocks` blocks of the 128-bit stream of `seed` and `nonce`.
pub open spec fn uniform_stream(seed: Seq<u8>, nonce: u16, nblocks: nat) -> Seq<u8> {
    squeeze_spec(absorb_spec(zero_lanes(), ARTIFACT_128_RATE as int, stream_input(seed, nonce), XOF_DOMAIN), ARTIFACT_128_RATE as int, nblocks)
}

/// The values below q that the stream of `seed` and `nonce` gives within
/// `SAMPLER_MAX_BLOCKS` blocks, in order.
pub open spec fn uniform_candidates(seed: Seq<u8>, nonce: u16) -> Seq<i32> {
    accepted(uniform_stream(seed, nonce, SAMPLER_MAX_BLOCKS as nat), (56 * SAMPLER_MAX_BLOCKS) as nat)
}

/// Writes, from `offset`, the candidates below q that the 3-byte chunks of the first `buflen`
/// bytes of `buf` give, up to `len` of them; returns how many it wrote.
pub fn artifact_sample_uniform(elements: &mut [i32], offset: usize, len: u32, buf: &[u8], buflen: usize) -> (count: u32)
    requires
        buflen <= buf@.len(),
        offset + len <= old(elements)@.len(),
    ensures
        final(elements)@.len() == old(elements)@.len(),
        count as int == if accepted(buf@, (buflen / 3) as nat).len() < len {
            accepted(buf@, (buflen / 3) as nat).len() as int
        } else {
            len as int
        },
        final(elements)@.subrange(offset as int, offset + count) == accepted(buf@, (buflen / 3) as nat).take(count as int),
        forall|t: int| 0 <= t < old(elements)@.len() && !(offset <= t < offset + count) ==> final(elements)@[t] == old(elements)@[t],
{
    let total = elements.len();
    let mut count: usize = 0;
    let mut pos: usize = 0;
    let ghost chunks: nat = (buflen / 3) as nat;
    while count < len as usize && buflen - pos >= 3
        invariant
            buflen <= buf@.len(),
            total == elements@.len(),
            total == old(elements)@.len(),
            offset + len <= total,
            chunks == buflen / 3,
            pos % 3 == 0,
            pos <= buflen,
            count <= len,
            count == accepted(buf@, (pos / 3) as nat).len(),
            elements@.subrange(offset as int, offset + count) == accepted(buf@, (pos / 3) as nat),
            forall|t: int| 0 <= t < total && !(offset <= t < offset + count) ==> elements@[t] == old(elements)@[t],
        decreases buflen - pos,
    {
        let ghost before = elements@;
        let b0 = buf[pos] as u32;
        let b1 = buf[pos + 1] as u32;
        let b2 = buf[pos + 2] as u32;
        let value: u32 = (b0 | (b1 << 8u32) | (b2 << 16u32)) & 0x7F_FFFF;
        proof {
            assert(value == b0 + b1 * 256 + (b2 % 128) * 65536) by (bit_vector)
                requires
                    b0 < 256,
                    b1 < 256,
                    b2 < 256,
                    value == (b0 | (b1 << 8u32) | (b2 << 16u32)) & 0x7F_FFFF,
            ;
            assert(value == candidate(buf@, (pos / 3) as int));
        }
        let ghost j: nat = (pos / 3) as nat;
        pos = pos + 3;
        assert((pos / 3) as nat == j + 1);
        if value < QUANTA as u32 {
            elements[offset + count] = value as i32;
            count = count + 1;
            assert(elements@.subrange(offset as int, offset + count) =~= accepted(buf@, j).push(value as i32));
        } else {
            assert(elements@.subrange(offset as int, offset + count) =~= before.subrange(offset as int, offset + count));
        }
    }
    proof {
        lemma_accepted_prefix(buf@, (pos / 3) as nat, chunks);
        if count < len {
            assert(buflen - pos < 3);
            assert(pos / 3 == chunks);
        }
        assert(accepted(buf@, chunks).take(count as int) =~= accepted(buf@, (pos / 3) as nat));
    }
    count as u32
}

/// Fills `a` with coefficients drawn uniformly from `[0, q)`: the first 256 values below q
/// among the 3-byte chunks of the stream of `seed` (its first 32 bytes) and `nonce`. Returns
/// false, with `a` not filled, exactly where `SAMPLER_MAX_BLOCKS` blocks of the stream give
/// fewer than 256 such values.
#[verifier::rlimit(60)]
pub fn artifact_uniform(a: &mut Artifact, seed: &[u8], nonce: u16) -> (filled: bool)
    requires
        well_formed(old(a)),
        seed@.len() >= SEEDBYTES,
    ensures
        well_formed(final(a)),
        filled <==> uniform_candidates(seed@, nonce).len() >= ELEMENTS,
        filled ==> final(a).elements@ == uniform_candidates(seed@, nonce).take(ELEMENTS as int),
        filled ==> bounded(final(a), 0, QUANTA - 1),
{
    let mut buf: [u8; 840] = [0u8; 840];
    let mut state = EternityState::default();
    eternity_stream_init(&mut state, seed, nonce);
    let ghost s0 = state.s@;
    eternity_stream_squeeze_blocks(&mut buf, POLY_UNIFORM_NBLOCKS as u64, &mut state);
    let count0 = artifact_sample_uniform(a.elements.as_mut_slice(), 0, ELEMENTS as u32, &buf, 840);
    let ghost mut stream = uniform_stream(seed@, nonce, 5);
    proof {
        assert(buf@.take(840) =~= buf@);
        assert(5 * 168 == 840);
        lemma_stream_prefix(s0, 168, 5, 5);
        assert(buf@ == stream);
        assert(a.elements@.take(count0 as int) =~= a.elements@.subrange(0, count0 as int));
    }
    let mut count: usize = count0 as usize;
    let mut blocks: usize = POLY_UNIFORM_NBLOCKS;
    while count < ELEMENTS && blocks < SAMPLER_MAX_BLOCKS
        invariant
            a.elements@.len() == ELEMENTS,
            count <= ELEMENTS,
            5 <= blocks <= SAMPLER_MAX_BLOCKS,
            s0 == absorb_spec(zero_lanes(), ARTIFACT_128_RATE as int, stream_input(seed@, nonce), XOF_DOMAIN),
            state.s@ == keccak_iter(s0, blocks as nat),
            stream == uniform_stream(seed@, nonce, blocks as nat),
            stream.len() == 168 * blocks,
            count as int == if accepted(stream, (56 * blocks) as nat).len() < ELEMENTS {
                accepted(stream, (56 * blocks) as nat).len() as int
            } else {
                ELEMENTS as int
            },
            a.elements@.take(count as int) == accepted(stream, (56 * blocks) as nat).take(count as int),
        decreases SAMPLER_MAX_BLOCKS - blocks,
    {
        let ghost before = a.elements@;
        eternity_stream_squeeze_blocks(&mut buf, 1, &mut state);
        let got = artifact_sample_uniform(a.elements.as_mut_slice(), count, (ELEMENTS - count) as u32, &buf, STREAM_BLOCKBYTES);
        proof {
            let block = state_bytes(keccak_iter(s0, (blocks + 1) as nat), 168);
            let x = keccak_iter(s0, blocks as nat);
            assert(keccak_iter(x, 0) == x);
            assert(keccak_iter(x, 1) == crate::fips202::keccak_f(x));
            assert(keccak_iter(s0, (blocks + 1) as nat) == crate::fips202::keccak_f(x));
            assert(squeeze_spec(x, 168, 0) == Seq::<u8>::empty());
            assert(squeeze_spec(x, 168, 1) =~= block);
            assert(buf@.take(168) == block);
            assert(block.take(168) =~= block);
            lemma_accepted_prefix_bytes(buf@, block, 56);
            lemma_accepted_concat(stream, block, (56 * blocks) as nat, 56);
            assert((56 * blocks + 56) as nat == (56 * (blocks + 1)) as nat);
            let acc_old = accepted(stream, (56 * blocks) as nat);
            let acc_new = accepted(stream + block, (56 * (blocks + 1)) as nat);
            assert(acc_new == acc_old + accepted(block, 56));
            assert(count == acc_old.len());
            assert(acc_old.take(count as int) =~= acc_old);
            assert(a.elements@.take(count + got) =~= acc_new.take(count + got)) by {
                assert forall|t: int| 0 <= t < count + got implies a.elements@[t] == acc_new[t] by {
                    if t < count {
                        assert(a.elements@[t] == before[t]);
                        assert(before[t] == before.take(count as int)[t]);
                    } else {
                        assert(a.elements@[t] == a.elements@.subrange(count as int, count + got)[t - count]);
                    }
                }
            }
        }
        count = count + got as usize;
        blocks = blocks + 1;
        proof {
            assert(stream + state_bytes(keccak_iter(s0, blocks as nat), 168) == uniform_stream(seed@, nonce, blocks as nat));
            stream = stream + state_bytes(keccak_iter(s0, blocks as nat), 168);
        }
    }
    proof {
        lemma_stream_prefix(s0, 168, blocks as nat, SAMPLER_MAX_BLOCKS as nat);
        let whole = uniform_stream(seed@, nonce, SAMPLER_MAX_BLOCKS as nat);
        assert(whole.take(168 * blocks) == stream);
        assert(whole.take(3 * (56 * blocks)) == stream.take(3 * (56 * blocks)));
        lemma_accepted_prefix_bytes(whole, stream, (56 * blocks) as nat);
        lemma_accepted_prefix(whole, (56 * blocks) as nat, (56 * SAMPLER_MAX_BLOCKS) as nat);
        lemma_accepted_range(whole, (56 * SAMPLER_MAX_BLOCKS) as nat);
        let all = uniform_candidates(seed@, nonce);
        let part = accepted(stream, (56 * blocks) as nat);
        if count == ELEMENTS {
            assert(all.take(part.len() as int) == part);
            assert(all.take(ELEMENTS as int) =~= part.take(ELEMENTS as int));
            assert(a.elements@ =~= a.elements@.take(ELEMENTS as int));
            assert forall|i: int| 0 <= i < ELEMENTS implies 0 <= #[trigger] a.elements@[i] <= QUANTA - 1 by {
                assert(a.elements@[i] == all[i]);
            }
        } else {
            assert(blocks == SAMPLER_MAX_BLOCKS);
            assert(part == all);
        }
    }
    count == ELEMENTS
}

/// The stream of the challenge: `SAMPLER_MAX_BLOCKS` blocks of the 256-bit XOF of `seed`'s
/// first 32 bytes.
pub open spec fn challenge_stream(seed: Seq<u8>) -> Seq<u8> {
    squeeze_spec(absorb_spec(zero_lanes(), ARTIFACT_256_RATE as int, seed.take(32), XOF_DOMAIN), ARTIFACT_256_RATE as int, SAMPLER_MAX_BLOCKS as nat)
}

/// The first position from `pos` whose byte is at most `i`, or -1 where the stream ends first.
pub open spec fn next_draw(s: Seq<u8>, pos: int, i: int) -> int
    decreases s.len() - pos,
{
    if pos < 0 || pos >= s.len() {
        -1
    } else if s[pos] <= i {
        pos
    } else {
        next_draw(s, pos + 1, i)
    }
}

/// The challenge after `t` placements on stream `s`: the coefficients, the next stream
/// position, and whether the stream sufficed. Placement `t` (from 0) puts position
/// `256 - TAU + t` in play: a drawn index `b <= 256 - TAU + t` hands its coefficient to that
/// position and takes the sign that bit `t` of the first eight stream bytes gives.
pub open spec fn challenge_steps(s: Seq<u8>, t: nat) -> (Seq<i32>, int, bool)
    decreases t,
{
    if t == 0 {
        (Seq::new(ELEMENTS as nat, |j: int| 0i32), 8, true)
    } else {
        let prev = challenge_steps(s, (t - 1) as nat);
        let i = ELEMENTS - TAU + t - 1;
        if !prev.2 {
            prev
        } else {
            let p = next_draw(s, prev.1, i);
            if p < 0 {
                (prev.0, prev.1, false)
            } else {
                let b = s[p] as int;
                let sign: i32 = if (load64_spec(s, 0) >> ((t - 1) as u64)) & 1u64 == 1u64 { -1i32 } else { 1i32 };
                (prev.0.update(i, prev.0[b]).update(b, sign), p + 1, true)
            }
        }
    }
}

/// The challenge of `seed`: the coefficients after TAU placements, and whether the stream
/// sufficed.
pub open spec fn challenge_of(seed: Seq<u8>) -> (Seq<i32>, int, bool) {
    challenge_steps(challenge_stream(seed), TAU as nat)
}

proof fn lemma_shift_step(x: u64, t: u64)
    requires
        t < 63,
    ensures
        (x >> t) >> 1u64 == x >> ((t + 1) as u64),
{
    assert((x >> t) >> 1u64 == x >> ((t + 1) as u64)) by (bit_vector)
        requires
            t < 63,
    ;
}

proof fn lemma_challenge_failure_sticks(s: Seq<u8>, t: nat, n: nat)
    requires
        t <= n,
        !challenge_steps(s, t).2,
    ensures
        !challenge_steps(s, n).2,
    decreases n - t,
{
    if t < n {
        lemma_challenge_failure_sticks(s, t, (n - 1) as nat);
    }
}

proof fn lemma_block_of_stream(s0: Seq<u64>, r: int, b: nat, n: nat)
    requires
        0 < r,
        1 <= b <= n,
    ensures
        squeeze_spec(s0, r, n).subrange(r * (b - 1), r * b) == state_bytes(keccak_iter(s0, b), r),
{
    lemma_stream_prefix(s0, r, b, n);
    lemma_stream_prefix(s0, r, (b - 1) as nat, (b - 1) as nat);
    assert(r * b == r * (b - 1) + r) by (nonlinear_arith);
    let whole = squeeze_spec(s0, r, n);
    assert(r * b <= r * n) by (nonlinear_arith)
        requires
            b <= n,
            0 < r,
    ;
    assert(r * (b - 1) >= 0) by (nonlinear_arith)
        requires
            b >= 1,
            0 < r,
    ;
    assert forall|k: int| r * (b - 1) <= k < r * b implies #[trigger] whole[k] == squeeze_spec(s0, r, b)[k] by {
        assert(whole.take(r * b)[k] == whole[k]);
    }
    assert(whole.subrange(r * (b - 1), r * b) =~= squeeze_spec(s0, r, b).subrange(r * (b - 1), r * b));
    assert(squeeze_spec(s0, r, b).subrange(r * (b - 1), r * b) =~= state_bytes(keccak_iter(s0, b), r));
}

/// Fills `c` with the challenge of `seed` (its first 32 bytes): TAU coefficients of +1 or -1,
/// placed by a shuffle driven by the 256-bit stream of the seed (see `challenge_steps`).
/// Returns false exactly where the stream ran past `SAMPLER_MAX_BLOCKS` blocks.
pub fn artifact_challenge(c: &mut Artifact, seed: &[u8]) -> (done: bool)
    requires
        well_formed(old(c)),
        seed@.len() >= SEEDBYTES,
    ensures
        well_formed(final(c)),
        done == challenge_of(seed@).2,
        done ==> final(c).elements@ == challenge_of(seed@).0,
        bounded(final(c), -1, 1),
{
    let mut state = EternityState::default();
    absorb_once(&mut state, ARTIFACT_256_RATE, seed, SEEDBYTES, XOF_DOMAIN);
    let ghost s0 = state.s@;
    let ghost stream = challenge_stream(seed@);
    let mut buf: [u8; 136] = [0u8; 136];
    squeeze_blocks(&mut buf, 1, &mut state, ARTIFACT_256_RATE);
    proof {
        lemma_stream_prefix(s0, 136, 1, SAMPLER_MAX_BLOCKS as nat);
        lemma_block_of_stream(s0, 136, 1, SAMPLER_MAX_BLOCKS as nat);
        assert(squeeze_spec(s0, 136, 1) =~= squeeze_spec(s0, 136, 0) + state_bytes(keccak_iter(s0, 1), 136));
        assert(buf@ =~= stream.subrange(0, 136));
        assert forall|k: int| 0 <= k < 8 implies #[trigger] crate::fips202::byte_at(buf@, k) == crate::fips202::byte_at(stream, k) by {}
    }
    let mut signs: u64 = load_artifact_64(&buf);
    let ghost signs0 = signs;
    assert(signs >> 0u64 == signs) by (bit_vector);
    let mut pos: usize = 8;
    let mut j: usize = 0;
    while j < ELEMENTS
        invariant
            c.elements@.len() == ELEMENTS,
            0 <= j <= ELEMENTS,
            forall|t: int| 0 <= t < j ==> #[trigger] c.elements@[t] == 0,
        decreases ELEMENTS - j,
    {
        c.elements.set(j, 0);
        j = j + 1;
    }
    assert(c.elements@ =~= challenge_steps(stream, 0).0);
    let mut blocks: usize = 1;
    let mut i: usize = ELEMENTS - TAU;
    while i < ELEMENTS
        invariant
            c.elements@.len() == ELEMENTS,
            bounded(c, -1, 1),
            ELEMENTS - TAU <= i <= ELEMENTS,
            pos <= 136,
            1 <= blocks <= SAMPLER_MAX_BLOCKS,
            stream == challenge_stream(seed@),
            stream.len() == 136 * SAMPLER_MAX_BLOCKS,
            s0 == absorb_spec(zero_lanes(), ARTIFACT_256_RATE as int, seed@.take(32), XOF_DOMAIN),
            state.s@ == keccak_iter(s0, blocks as nat),
            buf@ == stream.subrange(136 * (blocks - 1), 136 * blocks),
            signs0 == load64_spec(stream, 0),
            signs == signs0 >> ((i - (ELEMENTS - TAU)) as u64),
            challenge_steps(stream, (i - (ELEMENTS - TAU)) as nat) == (c.elements@, 136 * (blocks - 1) + pos, true),
        decreases ELEMENTS - i,
    {
        let ghost t: nat = (i - (ELEMENTS - TAU)) as nat;
        let ghost gp0: int = 136 * (blocks - 1) + pos;
        let mut b: usize = 256;
        while b > i
            invariant
                c.elements@.len() == ELEMENTS,
                bounded(c, -1, 1),
                ELEMENTS - TAU <= i < ELEMENTS,
                pos <= 136,
                1 <= blocks <= SAMPLER_MAX_BLOCKS,
                stream == challenge_stream(seed@),
                stream.len() == 136 * SAMPLER_MAX_BLOCKS,
                s0 == absorb_spec(zero_lanes(), ARTIFACT_256_RATE as int, seed@.take(32), XOF_DOMAIN),
                state.s@ == keccak_iter(s0, blocks as nat),
                buf@ == stream.subrange(136 * (blocks - 1), 136 * blocks),
                b > i ==> next_draw(stream, gp0, i as int) == next_draw(stream, 136 * (blocks - 1) + pos, i as int),
                b <= i ==> pos >= 1 && next_draw(stream, gp0, i as int) == 136 * (blocks - 1) + pos - 1
                    && b == stream[136 * (blocks - 1) + pos - 1],
                gp0 >= 0,
                t == i - (ELEMENTS - TAU),
                challenge_steps(stream, t) == (c.elements@, gp0, true),
                signs0 == load64_spec(stream, 0),
                signs == signs0 >> (t as u64),
            decreases SAMPLER_MAX_BLOCKS - blocks, 136 - pos,
        {
            if pos >= 136 {
                if blocks == SAMPLER_MAX_BLOCKS {
                    proof {
                        assert(next_draw(stream, 136 * (blocks - 1) + pos, i as int) == -1);
                        assert(next_draw(stream, gp0, i as int) == -1);
                        assert(challenge_steps(stream, t) == (c.elements@, gp0, true));
                        assert((ELEMENTS - TAU + (t + 1) - 1) == i);
                        assert(!challenge_steps(stream, (t + 1) as nat).2);
                        lemma_challenge_failure_sticks(stream, (t + 1) as nat, TAU as nat);
                    }
                    return false;
                }
                squeeze_blocks(&mut buf, 1, &mut state, ARTIFACT_256_RATE);
                proof {
                    let x = keccak_iter(s0, blocks as nat);
                    assert(keccak_iter(x, 0) == x);
                    assert(keccak_iter(x, 1) == crate::fips202::keccak_f(x));
                    assert(squeeze_spec(x, 136, 0) == Seq::<u8>::empty());
                    assert(buf@.take(136) =~= buf@);
                    assert(squeeze_spec(x, 136, 1) =~= state_bytes(keccak_iter(s0, (blocks + 1) as nat), 136));
                    lemma_block_of_stream(s0, 136, (blocks + 1) as nat, SAMPLER_MAX_BLOCKS as nat);
                }
                blocks = blocks + 1;
                pos = 0;
            }
            b = buf[pos] as usize;
            assert(buf@[pos as int] == stream[136 * (blocks - 1) + pos]);
            pos = pos + 1;
        }
        let moved = c.elements[b];
        c.elements.set(i, moved);
        let sign: i32 = if signs & 1 == 1 { -1 } else { 1 };
        c.elements.set(b, sign);
        proof {
            assert(t < 63);
            lemma_shift_step(signs0, t as u64);
        }
        signs = signs >> 1u64;
        i = i + 1;
        proof {
            assert(challenge_steps(stream, (t + 1) as nat).0 =~= c.elements@);
        }
    }
    true
}

} // verus!
