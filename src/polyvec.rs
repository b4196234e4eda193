use vstd::prelude::*;
use crate::ntt::{all_below, invntt_spec, ntt_spec, NTT_INPUT_BOUND, NTT_OUTPUT_BOUND};
use crate::packing::{artifact_w1_pack, w1_byte};
use crate::params::{ELEMENTS, GLYPH_PACKEDBYTES, K, L, QUANTA, SEEDBYTES};
use crate::poly::{
    artifact_add, artifact_caddq, artifact_chknorm, artifact_invntt_tomont, artifact_ntt,
    artifact_pointwise_montgomery, artifact_reduce, artifact_shiftl, artifact_sub,
    artifact_uniform, artifact_use_hint, bounded, norm_exceeds, uniform_candidates, well_formed,
    Artifact, REDUCE32_MAX,
};
use crate::reduce::{mont_hi, mont_lo, montgomery_spec, reduce32_spec};
use crate::rounding::hinted_high;

verus! {

/// A vector of K ring elements.
#[derive(Clone)]
pub struct ArtifactArrayK {
    pub elements: Vec<Artifact>,
}

/// A vector of L ring elements.
#[derive(Clone)]
pub struct ArtifactArrayL {
    pub elements: Vec<Artifact>,
}

/// `n` zero elements of 256 coefficients.
fn zero_rows(n: usize) -> (rows: Vec<Artifact>)
    ensures
        rows@.len() == n,
        forall|i: int| 0 <= i < n ==> #[trigger] rows@[i].elements@ == Seq::new(ELEMENTS as nat, |j: int| 0i32),
{
    let mut rows: Vec<Artifact> = Vec::new();
    let mut i: usize = 0;
    while i < n
        invariant
            0 <= i <= n,
            rows@.len() == i,
            forall|t: int| 0 <= t < i ==> #[trigger] rows@[t].elements@ == Seq::new(ELEMENTS as nat, |j: int| 0i32),
        decreases n - i,
    {
        let ghost before = rows@;
        rows.push(Artifact::default());
        assert forall|t: int| 0 <= t <= i implies #[trigger] rows@[t].elements@ == Seq::new(ELEMENTS as nat, |j: int| 0i32) by {
            if t < i {
                assert(rows@[t] == before[t]);
            }
        }
        i = i + 1;
    }
    rows
}

/// `n` rows, each of 256 coefficients.
pub open spec fn rows_wf(rows: Seq<Artifact>, n: int) -> bool {
    rows.len() == n && forall|i: int| 0 <= i < n ==> well_formed(#[trigger] &rows[i])
}

/// Coefficient `j` of row `i`.
pub open spec fn coeff(rows: Seq<Artifact>, i: int, j: int) -> i32 {
    rows[i].elements@[j]
}

/// Every coefficient of the first `n` rows lies in `[lo, hi]`.
pub open spec fn rows_bounded(rows: Seq<Artifact>, n: int, lo: int, hi: int) -> bool {
    forall|i: int, j: int| 0 <= i < n && 0 <= j < ELEMENTS ==> lo <= #[trigger] coeff(rows, i, j) <= hi
}

impl ArtifactArrayK {
    /// A vector of `size` zero elements.
    pub fn new(size: usize) -> (r: Self)
        ensures
            r.elements@.len() == size,
            forall|i: int| 0 <= i < size ==> #[trigger] r.elements@[i].elements@ == Seq::new(ELEMENTS as nat, |j: int| 0i32),
    {
        ArtifactArrayK { elements: zero_rows(size) }
    }
}

impl Default for ArtifactArrayK {
    fn default() -> (r: Self)
        ensures
            r.elements@.len() == K,
            forall|i: int| 0 <= i < K ==> #[trigger] r.elements@[i].elements@ == Seq::new(ELEMENTS as nat, |j: int| 0i32),
    {
        ArtifactArrayK::new(K)
    }
}

impl ArtifactArrayL {
    /// A vector of `size` zero elements.
    pub fn new(size: usize) -> (r: Self)
        ensures
            r.elements@.len() == size,
            forall|i: int| 0 <= i < size ==> #[trigger] r.elements@[i].elements@ == Seq::new(ELEMENTS as nat, |j: int| 0i32),
    {
        ArtifactArrayL { elements: zero_rows(size) }
    }
}

impl Default for ArtifactArrayL {
    fn default() -> (r: Self)
        ensures
            r.elements@.len() == L,
            forall|i: int| 0 <= i < L ==> #[trigger] r.elements@[i].elements@ == Seq::new(ELEMENTS as nat, |j: int| 0i32),
    {
        ArtifactArrayL::new(L)
    }
}

/// Every entry of the matrix of `essence` has 256 candidates within the sampler's limit.
pub open spec fn matrix_samplable(essence: Seq<u8>) -> bool {
    forall|i: int, j: int| 0 <= i < K && 0 <= j < L ==> #[trigger] uniform_candidates(essence, (256 * i + j) as u16).len() >= ELEMENTS
}

/// Fills row `i`, column `j` of the K x L matrix with the uniform element of `essence` and
/// nonce `256 i + j`. Returns false exactly where a sampler gave up (see `artifact_uniform`).
pub fn artifact_matrix_expand(matrix: &mut Vec<ArtifactArrayL>, essence: &[u8]) -> (filled: bool)
    requires
        essence@.len() >= SEEDBYTES,
    ensures
        filled <==> matrix_samplable(essence@),
        filled ==> forall|i: int, j: int| 0 <= i < K && 0 <= j < L ==> #[trigger] final(matrix)@[i].elements@[j].elements@ == uniform_candidates(essence@, (256 * i + j) as u16).take(ELEMENTS as int),
        filled ==> final(matrix)@.len() == K,
        filled ==> forall|i: int| 0 <= i < K ==> rows_wf(#[trigger] final(matrix)@[i].elements@, L as int),
        filled ==> forall|i: int| 0 <= i < K ==> rows_bounded(#[trigger] final(matrix)@[i].elements@, L as int, 0, QUANTA - 1),
{
    let mut out: Vec<ArtifactArrayL> = Vec::new();
    let mut i: usize = 0;
    while i < K
        invariant
            0 <= i <= K,
            essence@.len() >= SEEDBYTES,
            out@.len() == i,
            forall|t: int, j: int| 0 <= t < i && 0 <= j < L ==> #[trigger] uniform_candidates(essence@, (256 * t + j) as u16).len() >= ELEMENTS,
            forall|t: int, j: int| 0 <= t < i && 0 <= j < L ==> #[trigger] out@[t].elements@[j].elements@ == uniform_candidates(essence@, (256 * t + j) as u16).take(ELEMENTS as int),
            forall|t: int| 0 <= t < i ==> rows_wf(#[trigger] out@[t].elements@, L as int),
            forall|t: int| 0 <= t < i ==> rows_bounded(#[trigger] out@[t].elements@, L as int, 0, QUANTA - 1),
        decreases K - i,
    {
        let mut row: Vec<Artifact> = Vec::new();
        let mut j: usize = 0;
        while j < L
            invariant
                0 <= j <= L,
                i < K,
                essence@.len() >= SEEDBYTES,
                row@.len() == j,
                forall|t: int, m: int| 0 <= t < i && 0 <= m < L ==> #[trigger] uniform_candidates(essence@, (256 * t + m) as u16).len() >= ELEMENTS,
                forall|m: int| 0 <= m < j ==> #[trigger] uniform_candidates(essence@, (256 * i + m) as u16).len() >= ELEMENTS,
                forall|m: int| 0 <= m < j ==> #[trigger] row@[m].elements@ == uniform_candidates(essence@, (256 * i + m) as u16).take(ELEMENTS as int),
                forall|t: int| 0 <= t < j ==> well_formed(#[trigger] &row@[t]),
                rows_bounded(row@, j as int, 0, QUANTA - 1),
            decreases L - j,
        {
            let mut a = Artifact::default();
            if !artifact_uniform(&mut a, essence, (i * 256 + j) as u16) {
                assert(!(uniform_candidates(essence@, (256 * i + j) as u16).len() >= ELEMENTS));
                return false;
            }
            let ghost ga = a;
            let ghost before = row@;
            row.push(a);
            j = j + 1;
            assert forall|t: int, m: int| 0 <= t < j && 0 <= m < ELEMENTS implies 0 <= #[trigger] coeff(row@, t, m) <= QUANTA - 1 by {
                if t < j - 1 {
                    assert(coeff(row@, t, m) == coeff(before, t, m));
                } else {
                    assert(row@[t] == ga);
                    assert(row@[t] == ga);
                    assert(0 <= ga.elements@[m] <= QUANTA - 1);
                }
            }
        }
        let ghost prev = out@;
        out.push(ArtifactArrayL { elements: row });
        assert forall|t: int, m: int| 0 <= t <= i && 0 <= m < L implies #[trigger] out@[t].elements@[m].elements@ == uniform_candidates(essence@, (256 * t + m) as u16).take(ELEMENTS as int) by {
            if t < i {
                assert(out@[t] == prev[t]);
            }
        }
        i = i + 1;
    }
    *matrix = out;
    true
}

/// Sum over the first `n` columns of the Montgomery products of coefficient `j`.
pub open spec fn acc_spec(u: Seq<Artifact>, v: Seq<Artifact>, j: int, n: nat) -> int
    decreases n,
{
    if n == 0 {
        0
    } else {
        acc_spec(u, v, j, (n - 1) as nat) + montgomery_spec(coeff(u, n - 1, j) * coeff(v, n - 1, j))
    }
}

/// Every product of coefficients at the same place in the first `n` rows is a Montgomery input.
pub open spec fn products_in_range(u: Seq<Artifact>, v: Seq<Artifact>, n: int) -> bool {
    forall|i: int, j: int| 0 <= i < n && 0 <= j < ELEMENTS ==> mont_lo() <= #[trigger] (coeff(u, i, j) * coeff(v, i, j)) <= mont_hi()
}

/// Writes to `result` the inner product of `u` and `v`, each product scaled by 2^-32,
/// without reduction between the terms.
pub fn artifact_array_l_pointwise_acc_montgomery(result: &mut Artifact, u: &ArtifactArrayL, v: &ArtifactArrayL)
    requires
        well_formed(old(result)),
        rows_wf(u.elements@, L as int),
        rows_wf(v.elements@, L as int),
        products_in_range(u.elements@, v.elements@, L as int),
    ensures
        well_formed(final(result)),
        forall|j: int| 0 <= j < ELEMENTS ==> #[trigger] final(result).elements@[j] == acc_spec(u.elements@, v.elements@, j, L as nat),
        bounded(final(result), -5 * QUANTA + 5, 5 * QUANTA),
{
    let mut temp = Artifact::default();
    assert forall|j: int| 0 <= j < ELEMENTS implies mont_lo() <= #[trigger] (u.elements@[0].elements@[j] * v.elements@[0].elements@[j]) <= mont_hi() by {
        assert(coeff(u.elements@, 0, j) * coeff(v.elements@, 0, j) == u.elements@[0].elements@[j] * v.elements@[0].elements@[j]);
    }
    artifact_pointwise_montgomery(result, &u.elements[0], &v.elements[0]);
    assert forall|j: int| 0 <= j < ELEMENTS implies #[trigger] result.elements@[j] == acc_spec(u.elements@, v.elements@, j, 1) by {
        assert(acc_spec(u.elements@, v.elements@, j, 0) == 0);
    }
    let mut i: usize = 1;
    while i < L
        invariant
            1 <= i <= L,
            well_formed(result),
            well_formed(&temp),
            rows_wf(u.elements@, L as int),
            rows_wf(v.elements@, L as int),
            products_in_range(u.elements@, v.elements@, L as int),
            forall|j: int| 0 <= j < ELEMENTS ==> #[trigger] result.elements@[j] == acc_spec(u.elements@, v.elements@, j, i as nat),
            bounded(result, -(i as int) * QUANTA + i, (i as int) * QUANTA),
        decreases L - i,
    {
        assert forall|j: int| 0 <= j < ELEMENTS implies mont_lo() <= #[trigger] (u.elements@[i as int].elements@[j] * v.elements@[i as int].elements@[j]) <= mont_hi() by {
            assert(coeff(u.elements@, i as int, j) * coeff(v.elements@, i as int, j) == u.elements@[i as int].elements@[j] * v.elements@[i as int].elements@[j]);
        }
        artifact_pointwise_montgomery(&mut temp, &u.elements[i], &v.elements[i]);
        artifact_add(result, &temp);
        i = i + 1;
    }
}

/// The matrix times the vector: row `i` of `result` is the inner product of matrix row `i`
/// and `vector` (see `artifact_array_l_pointwise_acc_montgomery`).
pub fn artifact_matrix_pointwise_montgomery(result: &mut ArtifactArrayK, matrix: &Vec<ArtifactArrayL>, vector: &ArtifactArrayL)
    requires
        rows_wf(old(result).elements@, K as int),
        matrix@.len() == K,
        forall|i: int| 0 <= i < K ==> rows_wf(#[trigger] matrix@[i].elements@, L as int),
        rows_wf(vector.elements@, L as int),
        forall|i: int| 0 <= i < K ==> products_in_range(#[trigger] matrix@[i].elements@, vector.elements@, L as int),
    ensures
        rows_wf(final(result).elements@, K as int),
        forall|i: int, j: int| 0 <= i < K && 0 <= j < ELEMENTS ==> #[trigger] coeff(final(result).elements@, i, j) == acc_spec(matrix@[i].elements@, vector.elements@, j, L as nat),
        rows_bounded(final(result).elements@, K as int, -5 * QUANTA + 5, 5 * QUANTA),
{
    let mut i: usize = 0;
    while i < K
        invariant
            0 <= i <= K,
            rows_wf(result.elements@, K as int),
            matrix@.len() == K,
            forall|t: int| 0 <= t < K ==> rows_wf(#[trigger] matrix@[t].elements@, L as int),
            rows_wf(vector.elements@, L as int),
            forall|t: int| 0 <= t < K ==> products_in_range(#[trigger] matrix@[t].elements@, vector.elements@, L as int),
            forall|t: int, j: int| 0 <= t < i && 0 <= j < ELEMENTS ==> #[trigger] coeff(result.elements@, t, j) == acc_spec(matrix@[t].elements@, vector.elements@, j, L as nat),
            rows_bounded(result.elements@, i as int, -5 * QUANTA + 5, 5 * QUANTA),
        decreases K - i,
    {
        let mut row = result.elements[i].duplicate();
        artifact_array_l_pointwise_acc_montgomery(&mut row, &matrix[i], vector);
        let ghost before = result.elements@;
        result.elements.set(i, row);
        assert forall|t: int, j: int| 0 <= t < i && 0 <= j < ELEMENTS implies #[trigger] coeff(result.elements@, t, j) == coeff(before, t, j) by {}
        i = i + 1;
    }
}

/// Forward transform of each element of a vector of length L.
pub fn artifact_array_l_ntt(vector: &mut ArtifactArrayL)
    requires
        rows_wf(old(vector).elements@, L as int),
        forall|i: int| 0 <= i < L ==> all_below(#[trigger] old(vector).elements@[i].elements@, NTT_INPUT_BOUND as int),
    ensures
        rows_wf(final(vector).elements@, L as int),
        forall|i: int| 0 <= i < L ==> #[trigger] final(vector).elements@[i].elements@ == ntt_spec(old(vector).elements@[i].elements@),
        forall|i: int| 0 <= i < L ==> all_below(#[trigger] final(vector).elements@[i].elements@, NTT_OUTPUT_BOUND as int),
{
    let mut i: usize = 0;
    while i < L
        invariant
            0 <= i <= L,
            rows_wf(vector.elements@, L as int),
            forall|t: int| 0 <= t < i ==> all_below(#[trigger] vector.elements@[t].elements@, NTT_OUTPUT_BOUND as int),
            forall|t: int| 0 <= t < i ==> #[trigger] vector.elements@[t].elements@ == ntt_spec(old(vector).elements@[t].elements@),
            forall|t: int| i <= t < L ==> #[trigger] vector.elements@[t] == old(vector).elements@[t],
            forall|t: int| 0 <= t < L ==> all_below(#[trigger] old(vector).elements@[t].elements@, NTT_INPUT_BOUND as int),
        decreases L - i,
    {
        let mut row = vector.elements[i].duplicate();
        assert(vector.elements@[i as int] == old(vector).elements@[i as int]);
        assert(all_below(old(vector).elements@[i as int].elements@, NTT_INPUT_BOUND as int));
        artifact_ntt(&mut row);
        let ghost before = vector.elements@;
        vector.elements.set(i, row);
        assert forall|t: int| 0 <= t <= i implies all_below(#[trigger] vector.elements@[t].elements@, NTT_OUTPUT_BOUND as int) && vector.elements@[t].elements@ == ntt_spec(old(vector).elements@[t].elements@) by {
            if t < i {
                assert(vector.elements@[t] == before[t]);
            }
        }
        i = i + 1;
    }
}

/// 1 where some element of the vector fails the norm check against `bound`, else 0.
pub fn artifact_array_l_chknorm(vector: &ArtifactArrayL, bound: i32) -> (r: u8)
    requires
        rows_wf(vector.elements@, L as int),
        rows_bounded(vector.elements@, L as int, i32::MIN + 1, i32::MAX as int),
    ensures
        r == 1 <==> exists|i: int| 0 <= i < L && norm_exceeds(#[trigger] &vector.elements@[i], bound),
        r == 0 <==> !exists|i: int| 0 <= i < L && norm_exceeds(#[trigger] &vector.elements@[i], bound),
{
    let mut i: usize = 0;
    while i < L
        invariant
            0 <= i <= L,
            rows_wf(vector.elements@, L as int),
            rows_bounded(vector.elements@, L as int, i32::MIN + 1, i32::MAX as int),
            forall|t: int| 0 <= t < i ==> !norm_exceeds(#[trigger] &vector.elements@[t], bound),
        decreases L - i,
    {
        assert forall|j: int| 0 <= j < ELEMENTS implies i32::MIN + 1 <= #[trigger] vector.elements@[i as int].elements@[j] <= i32::MAX by {
            assert(coeff(vector.elements@, i as int, j) == vector.elements@[i as int].elements@[j]);
        }
        if artifact_chknorm(&vector.elements[i], bound) > 0 {
            return 1;
        }
        i = i + 1;
    }
    0
}

/// Reduces every coefficient of a vector of length K to `reduce32`'s range, keeping it modulo q.
pub fn artifact_array_k_reduce(vector: &mut ArtifactArrayK)
    requires
        rows_wf(old(vector).elements@, K as int),
        rows_bounded(old(vector).elements@, K as int, i32::MIN as int, REDUCE32_MAX as int),
    ensures
        rows_wf(final(vector).elements@, K as int),
        forall|i: int, j: int| 0 <= i < K && 0 <= j < ELEMENTS ==> #[trigger] coeff(final(vector).elements@, i, j) == reduce32_spec(coeff(old(vector).elements@, i, j) as int),
        rows_bounded(final(vector).elements@, K as int, -6283009, 6283008),
{
    let mut i: usize = 0;
    while i < K
        invariant
            0 <= i <= K,
            rows_wf(vector.elements@, K as int),
            rows_bounded(old(vector).elements@, K as int, i32::MIN as int, REDUCE32_MAX as int),
            forall|t: int, j: int| 0 <= t < i && 0 <= j < ELEMENTS ==> #[trigger] coeff(vector.elements@, t, j) == reduce32_spec(coeff(old(vector).elements@, t, j) as int),
            rows_bounded(vector.elements@, i as int, -6283009, 6283008),
            forall|t: int| i <= t < K ==> #[trigger] vector.elements@[t] == old(vector).elements@[t],
        decreases K - i,
    {
        let mut row = vector.elements[i].duplicate();
        assert forall|j: int| 0 <= j < ELEMENTS implies #[trigger] row.elements@[j] <= REDUCE32_MAX by {
            assert(coeff(old(vector).elements@, i as int, j) == row.elements@[j]);
        }
        let ghost old_row = row;
        artifact_reduce(&mut row);
        let ghost before = vector.elements@;
        vector.elements.set(i, row);
        assert forall|t: int, j: int| 0 <= t <= i && 0 <= j < ELEMENTS implies #[trigger] coeff(vector.elements@, t, j) == (if t < i { coeff(before, t, j) } else { row.elements@[j] }) by {}
        i = i + 1;
    }
}

/// Adds q to every negative coefficient of a vector of length K.
pub fn artifact_array_k_caddq(vector: &mut ArtifactArrayK)
    requires
        rows_wf(old(vector).elements@, K as int),
    ensures
        rows_wf(final(vector).elements@, K as int),
        forall|i: int, j: int| 0 <= i < K && 0 <= j < ELEMENTS ==> #[trigger] coeff(final(vector).elements@, i, j) == (if coeff(old(vector).elements@, i, j) < 0 { coeff(old(vector).elements@, i, j) + QUANTA } else { coeff(old(vector).elements@, i, j) as int }),
{
    let mut i: usize = 0;
    while i < K
        invariant
            0 <= i <= K,
            rows_wf(vector.elements@, K as int),
            forall|t: int, j: int| 0 <= t < i && 0 <= j < ELEMENTS ==> #[trigger] coeff(vector.elements@, t, j) == (if coeff(old(vector).elements@, t, j) < 0 { coeff(old(vector).elements@, t, j) + QUANTA } else { coeff(old(vector).elements@, t, j) as int }),
            forall|t: int| i <= t < K ==> #[trigger] vector.elements@[t] == old(vector).elements@[t],
        decreases K - i,
    {
        let mut row = vector.elements[i].duplicate();
        let ghost old_row = row;
        artifact_caddq(&mut row);
        let ghost before = vector.elements@;
        vector.elements.set(i, row);
        assert forall|t: int, j: int| 0 <= t <= i && 0 <= j < ELEMENTS implies #[trigger] coeff(vector.elements@, t, j) == (if t < i { coeff(before, t, j) } else { row.elements@[j] }) by {}
        i = i + 1;
    }
}

/// Multiplies every coefficient of a vector of length K by 2^13, without reduction.
pub fn artifact_array_k_shiftl(vector: &mut ArtifactArrayK)
    requires
        rows_wf(old(vector).elements@, K as int),
        rows_bounded(old(vector).elements@, K as int, -0x3_ffff, 0x3_ffff),
    ensures
        rows_wf(final(vector).elements@, K as int),
        forall|i: int, j: int| 0 <= i < K && 0 <= j < ELEMENTS ==> #[trigger] coeff(final(vector).elements@, i, j) == coeff(old(vector).elements@, i, j) * 8192,
{
    let mut i: usize = 0;
    while i < K
        invariant
            0 <= i <= K,
            rows_wf(vector.elements@, K as int),
            rows_bounded(old(vector).elements@, K as int, -0x3_ffff, 0x3_ffff),
            forall|t: int, j: int| 0 <= t < i && 0 <= j < ELEMENTS ==> #[trigger] coeff(vector.elements@, t, j) == coeff(old(vector).elements@, t, j) * 8192,
            forall|t: int| i <= t < K ==> #[trigger] vector.elements@[t] == old(vector).elements@[t],
        decreases K - i,
    {
        let mut row = vector.elements[i].duplicate();
        assert forall|j: int| 0 <= j < ELEMENTS implies -0x3_ffff <= #[trigger] row.elements@[j] <= 0x3_ffff by {
            assert(coeff(old(vector).elements@, i as int, j) == row.elements@[j]);
        }
        let ghost old_row = row;
        artifact_shiftl(&mut row);
        let ghost before = vector.elements@;
        vector.elements.set(i, row);
        assert forall|t: int, j: int| 0 <= t <= i && 0 <= j < ELEMENTS implies #[trigger] coeff(vector.elements@, t, j) == (if t < i { coeff(before, t, j) } else { row.elements@[j] }) by {}
        i = i + 1;
    }
}

/// Subtracts `vector` from `result` element by element, without reduction.
pub fn artifact_array_k_sub(result: &mut ArtifactArrayK, vector: &ArtifactArrayK)
    requires
        rows_wf(old(result).elements@, K as int),
        rows_wf(vector.elements@, K as int),
        forall|i: int, j: int| 0 <= i < K && 0 <= j < ELEMENTS ==> i32::MIN <= #[trigger] coeff(old(result).elements@, i, j) - coeff(vector.elements@, i, j) <= i32::MAX,
    ensures
        rows_wf(final(result).elements@, K as int),
        forall|i: int, j: int| 0 <= i < K && 0 <= j < ELEMENTS ==> #[trigger] coeff(final(result).elements@, i, j) == coeff(old(result).elements@, i, j) - coeff(vector.elements@, i, j),
{
    let mut i: usize = 0;
    while i < K
        invariant
            0 <= i <= K,
            rows_wf(result.elements@, K as int),
            rows_wf(vector.elements@, K as int),
            forall|i: int, j: int| 0 <= i < K && 0 <= j < ELEMENTS ==> i32::MIN <= #[trigger] coeff(old(result).elements@, i, j) - coeff(vector.elements@, i, j) <= i32::MAX,
            forall|t: int, j: int| 0 <= t < i && 0 <= j < ELEMENTS ==> #[trigger] coeff(result.elements@, t, j) == coeff(old(result).elements@, t, j) - coeff(vector.elements@, t, j),
            forall|t: int| i <= t < K ==> #[trigger] result.elements@[t] == old(result).elements@[t],
        decreases K - i,
    {
        let mut row = result.elements[i].duplicate();
        assert forall|j: int| 0 <= j < ELEMENTS implies i32::MIN <= #[trigger] row.elements@[j] - vector.elements@[i as int].elements@[j] <= i32::MAX by {
            assert(coeff(old(result).elements@, i as int, j) == row.elements@[j]);
            assert(coeff(vector.elements@, i as int, j) == vector.elements@[i as int].elements@[j]);
        }
        let ghost old_row = row;
        artifact_sub(&mut row, &vector.elements[i]);
        let ghost before = result.elements@;
        result.elements.set(i, row);
        assert forall|t: int, j: int| 0 <= t <= i && 0 <= j < ELEMENTS implies #[trigger] coeff(result.elements@, t, j) == (if t < i { coeff(before, t, j) } else { row.elements@[j] }) by {}
        i = i + 1;
    }
}

/// Multiplies each element of `vector` by `scalar` coefficient by coefficient into `result`, each product scaled by 2^-32.
pub fn artifact_array_k_pointwise_poly_montgomery(result: &mut ArtifactArrayK, scalar: &Artifact, vector: &ArtifactArrayK)
    requires
        rows_wf(old(result).elements@, K as int),
        well_formed(scalar),
        rows_wf(vector.elements@, K as int),
        forall|i: int, j: int| 0 <= i < K && 0 <= j < ELEMENTS ==> mont_lo() <= #[trigger] (scalar.elements@[j] * coeff(vector.elements@, i, j)) <= mont_hi(),
    ensures
        rows_wf(final(result).elements@, K as int),
        forall|i: int, j: int| 0 <= i < K && 0 <= j < ELEMENTS ==> #[trigger] coeff(final(result).elements@, i, j) == montgomery_spec(scalar.elements@[j] * coeff(vector.elements@, i, j)),
        rows_bounded(final(result).elements@, K as int, -QUANTA + 1, QUANTA as int),
{
    let mut i: usize = 0;
    while i < K
        invariant
            0 <= i <= K,
            rows_wf(result.elements@, K as int),
            well_formed(scalar),
            rows_wf(vector.elements@, K as int),
            forall|i: int, j: int| 0 <= i < K && 0 <= j < ELEMENTS ==> mont_lo() <= #[trigger] (scalar.elements@[j] * coeff(vector.elements@, i, j)) <= mont_hi(),
            forall|t: int, j: int| 0 <= t < i && 0 <= j < ELEMENTS ==> #[trigger] coeff(result.elements@, t, j) == montgomery_spec(scalar.elements@[j] * coeff(vector.elements@, t, j)),
            rows_bounded(result.elements@, i as int, -QUANTA + 1, QUANTA as int),
            forall|t: int| i <= t < K ==> #[trigger] result.elements@[t] == old(result).elements@[t],
        decreases K - i,
    {
        let mut row = result.elements[i].duplicate();
        assert forall|j: int| 0 <= j < ELEMENTS implies mont_lo() <= #[trigger] (scalar.elements@[j] * vector.elements@[i as int].elements@[j]) <= mont_hi() by {
            assert(coeff(old(result).elements@, i as int, j) == row.elements@[j]);
            assert(coeff(vector.elements@, i as int, j) == vector.elements@[i as int].elements@[j]);
        }
        let ghost old_row = row;
        artifact_pointwise_montgomery(&mut row, scalar, &vector.elements[i]);
        let ghost before = result.elements@;
        result.elements.set(i, row);
        assert forall|t: int, j: int| 0 <= t <= i && 0 <= j < ELEMENTS implies #[trigger] coeff(result.elements@, t, j) == (if t < i { coeff(before, t, j) } else { row.elements@[j] }) by {}
        i = i + 1;
    }
}

/// Replaces every coefficient (a standard representative) of `result` by its high part corrected by the hint at its place.
pub fn artifact_array_k_use_hint(result: &mut ArtifactArrayK, hint: &ArtifactArrayK)
    requires
        rows_wf(old(result).elements@, K as int),
        rows_wf(hint.elements@, K as int),
        rows_bounded(old(result).elements@, K as int, 0, QUANTA - 1),
        rows_bounded(hint.elements@, K as int, 0, 1),
    ensures
        rows_wf(final(result).elements@, K as int),
        forall|i: int, j: int| 0 <= i < K && 0 <= j < ELEMENTS ==> #[trigger] coeff(final(result).elements@, i, j) == hinted_high(coeff(old(result).elements@, i, j) as int, coeff(hint.elements@, i, j) as u8),
        rows_bounded(final(result).elements@, K as int, 0, 15),
{
    let mut i: usize = 0;
    while i < K
        invariant
            0 <= i <= K,
            rows_wf(result.elements@, K as int),
            rows_wf(hint.elements@, K as int),
            rows_bounded(old(result).elements@, K as int, 0, QUANTA - 1),
            rows_bounded(hint.elements@, K as int, 0, 1),
            forall|t: int, j: int| 0 <= t < i && 0 <= j < ELEMENTS ==> #[trigger] coeff(result.elements@, t, j) == hinted_high(coeff(old(result).elements@, t, j) as int, coeff(hint.elements@, t, j) as u8),
            rows_bounded(result.elements@, i as int, 0, 15),
            forall|t: int| i <= t < K ==> #[trigger] result.elements@[t] == old(result).elements@[t],
        decreases K - i,
    {
        let mut row = result.elements[i].duplicate();
        assert forall|j: int| 0 <= j < ELEMENTS implies 0 <= #[trigger] row.elements@[j] <= QUANTA - 1 by {
            assert(coeff(old(result).elements@, i as int, j) == row.elements@[j]);
        }
        assert forall|j: int| 0 <= j < ELEMENTS implies 0 <= #[trigger] hint.elements@[i as int].elements@[j] <= 1 by {
            assert(coeff(old(result).elements@, i as int, j) == row.elements@[j]);
            assert(coeff(hint.elements@, i as int, j) == hint.elements@[i as int].elements@[j]);
        }
        let ghost old_row = row;
        artifact_use_hint(&mut row, &hint.elements[i]);
        let ghost before = result.elements@;
        result.elements.set(i, row);
        assert forall|t: int, j: int| 0 <= t <= i && 0 <= j < ELEMENTS implies #[trigger] coeff(result.elements@, t, j) == (if t < i { coeff(before, t, j) } else { row.elements@[j] }) by {}
        i = i + 1;
    }
}

/// Forward transform of each element of a vector of length K.
pub fn artifact_array_k_ntt(vector: &mut ArtifactArrayK)
    requires
        rows_wf(old(vector).elements@, K as int),
        forall|i: int| 0 <= i < K ==> all_below(#[trigger] old(vector).elements@[i].elements@, NTT_INPUT_BOUND as int),
    ensures
        rows_wf(final(vector).elements@, K as int),
        forall|i: int| 0 <= i < K ==> #[trigger] final(vector).elements@[i].elements@ == ntt_spec(old(vector).elements@[i].elements@),
        forall|i: int| 0 <= i < K ==> all_below(#[trigger] final(vector).elements@[i].elements@, NTT_OUTPUT_BOUND as int),
{
    let mut i: usize = 0;
    while i < K
        invariant
            0 <= i <= K,
            rows_wf(vector.elements@, K as int),
            forall|t: int| 0 <= t < i ==> all_below(#[trigger] vector.elements@[t].elements@, NTT_OUTPUT_BOUND as int),
            forall|t: int| 0 <= t < i ==> #[trigger] vector.elements@[t].elements@ == ntt_spec(old(vector).elements@[t].elements@),
            forall|t: int| i <= t < K ==> #[trigger] vector.elements@[t] == old(vector).elements@[t],
            forall|t: int| 0 <= t < K ==> all_below(#[trigger] old(vector).elements@[t].elements@, NTT_INPUT_BOUND as int),
        decreases K - i,
    {
        let mut row = vector.elements[i].duplicate();
        assert(vector.elements@[i as int] == old(vector).elements@[i as int]);
        assert(all_below(old(vector).elements@[i as int].elements@, NTT_INPUT_BOUND as int));
        artifact_ntt(&mut row);
        let ghost before = vector.elements@;
        vector.elements.set(i, row);
        assert forall|t: int| 0 <= t <= i implies all_below(#[trigger] vector.elements@[t].elements@, NTT_OUTPUT_BOUND as int) && vector.elements@[t].elements@ == ntt_spec(old(vector).elements@[t].elements@) by {
            if t < i {
                assert(vector.elements@[t] == before[t]);
            }
        }
        i = i + 1;
    }
}

/// Inverse transform, with scaling by 2^32, of each element of a vector of length K.
pub fn artifact_array_k_invntt_tomont(vector: &mut ArtifactArrayK)
    requires
        rows_wf(old(vector).elements@, K as int),
        forall|i: int| 0 <= i < K ==> all_below(#[trigger] old(vector).elements@[i].elements@, QUANTA + 1),
    ensures
        rows_wf(final(vector).elements@, K as int),
        forall|i: int| 0 <= i < K ==> #[trigger] final(vector).elements@[i].elements@ == invntt_spec(old(vector).elements@[i].elements@),
        rows_bounded(final(vector).elements@, K as int, -QUANTA + 1, QUANTA - 1),
{
    let mut i: usize = 0;
    while i < K
        invariant
            0 <= i <= K,
            rows_wf(vector.elements@, K as int),
            rows_bounded(vector.elements@, i as int, -QUANTA + 1, QUANTA - 1),
            forall|t: int| 0 <= t < i ==> #[trigger] vector.elements@[t].elements@ == invntt_spec(old(vector).elements@[t].elements@),
            forall|t: int| i <= t < K ==> #[trigger] vector.elements@[t] == old(vector).elements@[t],
            forall|t: int| 0 <= t < K ==> all_below(#[trigger] old(vector).elements@[t].elements@, QUANTA + 1),
        decreases K - i,
    {
        let mut row = vector.elements[i].duplicate();
        assert(vector.elements@[i as int] == old(vector).elements@[i as int]);
        assert(all_below(old(vector).elements@[i as int].elements@, QUANTA + 1));
        artifact_invntt_tomont(&mut row);
        let ghost before = vector.elements@;
        vector.elements.set(i, row);
        assert forall|t: int| 0 <= t <= i implies #[trigger] vector.elements@[t].elements@ == invntt_spec(old(vector).elements@[t].elements@) by {
            if t < i {
                assert(vector.elements@[t] == before[t]);
            }
        }
        assert forall|t: int, j: int| 0 <= t <= i && 0 <= j < ELEMENTS implies -QUANTA + 1 <= #[trigger] coeff(vector.elements@, t, j) <= QUANTA - 1 by {
            if t < i {
                assert(coeff(vector.elements@, t, j) == coeff(before, t, j));
            }
        }
        i = i + 1;
    }
}

/// Packs the K rows of high parts (each in `[0, 16)`) into the front of `result`, 128 bytes
/// a row.
pub fn artifact_array_k_pack_w1(result: &mut [u8], vector: &ArtifactArrayK)
    requires
        old(result)@.len() >= K * GLYPH_PACKEDBYTES,
        rows_wf(vector.elements@, K as int),
        rows_bounded(vector.elements@, K as int, 0, 15),
    ensures
        final(result)@.len() == old(result)@.len(),
        forall|i: int, m: int| 0 <= i < K && 0 <= m < GLYPH_PACKEDBYTES ==> #[trigger] final(result)@[i * GLYPH_PACKEDBYTES + m] as int == w1_byte(vector.elements@[i].elements@, m),
{
    let mut i: usize = 0;
    while i < K
        invariant
            0 <= i <= K,
            result@.len() == old(result)@.len(),
            old(result)@.len() >= K * GLYPH_PACKEDBYTES,
            rows_wf(vector.elements@, K as int),
            rows_bounded(vector.elements@, K as int, 0, 15),
            forall|r: int, m: int| 0 <= r < i && 0 <= m < GLYPH_PACKEDBYTES ==> #[trigger] result@[r * GLYPH_PACKEDBYTES + m] as int == w1_byte(vector.elements@[r].elements@, m),
        decreases K - i,
    {
        assert forall|j: int| 0 <= j < ELEMENTS implies 0 <= #[trigger] vector.elements@[i as int].elements@[j] <= 15 by {
            assert(coeff(vector.elements@, i as int, j) == vector.elements@[i as int].elements@[j]);
        }
        let ghost before = result@;
        artifact_w1_pack(result, i * GLYPH_PACKEDBYTES, &vector.elements[i]);
        assert forall|r: int, m: int| 0 <= r <= i && 0 <= m < GLYPH_PACKEDBYTES implies #[trigger] result@[r * GLYPH_PACKEDBYTES + m] as int == w1_byte(vector.elements@[r].elements@, m) by {
            if r < i {
                assert(r * GLYPH_PACKEDBYTES + m < i * GLYPH_PACKEDBYTES);
                assert(result@[r * GLYPH_PACKEDBYTES + m] == before[r * GLYPH_PACKEDBYTES + m]);
            } else {
                assert(result@[i * GLYPH_PACKEDBYTES + m] as int == w1_byte(vector.elements@[i as int].elements@, m));
            }
        }
        i = i + 1;
    }
}

} // verus!
