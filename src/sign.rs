use vstd::prelude::*;
use crate::fips202::{artifact_transform, xof_spec, ARTIFACT_256_RATE};
use crate::ntt::{all_below, invntt_spec, ntt_spec, NTT_OUTPUT_BOUND};
use crate::packing::{
    hint_region, hint_set, hints_valid, t1_coeff, unpack_artifact_key, unpack_artifact_signature,
    w1_byte, z_coeff,
};
use crate::params::{
    ARTIFACTKEYBYTES, CRHBYTES, ELEMENTS, ELEMENTT1_PACKEDBYTES, GAMMA1_MINUS_BETA,
    GLYPH_PACKEDBYTES, K, L, QUANTA, SEEDBYTES, SHARD_PACKEDBYTES, SIGNATUREBYTES,
};
use crate::poly::{
    artifact_challenge, artifact_ntt, bounded, centered_abs, challenge_of, uniform_candidates,
    well_formed, Artifact,
};
use crate::polyvec::{
    artifact_array_k_caddq, artifact_array_k_invntt_tomont, artifact_array_k_ntt,
    artifact_array_k_pack_w1, artifact_array_k_pointwise_poly_montgomery, artifact_array_k_reduce,
    artifact_array_k_shiftl, artifact_array_k_sub, artifact_array_k_use_hint,
    artifact_array_l_chknorm, artifact_array_l_ntt, artifact_matrix_expand,
    acc_spec, artifact_matrix_pointwise_montgomery, coeff, matrix_samplable, products_in_range, rows_bounded,
    rows_wf, ArtifactArrayK, ArtifactArrayL,
};
use crate::reduce::{mont_hi, mont_lo, montgomery_spec, reduce32_spec};
use crate::rounding::hinted_high;

verus! {

/// Why a verification did not accept.
#[derive(Debug, PartialEq, Eq, Structural)]
pub enum ValidationError {
    /// The key or the signature is malformed: wrong length, ill-formed hints, or a response
    /// coefficient at or beyond its bound.
    Input,
    /// The encodings are sound but the signature does not match the key and message.
    Verify,
}

/// Some response coefficient of the signature reaches GAMMA1 - BETA in centered absolute value.
pub open spec fn shards_too_large(sig: Seq<u8>) -> bool {
    exists|i: int, j: int|
        0 <= i < L && 0 <= j < ELEMENTS && centered_abs(#[trigger] z_coeff(sig, SEEDBYTES + i * SHARD_PACKEDBYTES, j)) >= GAMMA1_MINUS_BETA
}

/// The inputs fail to decode: a length is wrong, the hints are ill formed, or a response
/// coefficient is too large.
pub open spec fn decode_rejects(sig: Seq<u8>, key: Seq<u8>) -> bool {
    sig.len() != SIGNATUREBYTES || key.len() != ARTIFACTKEYBYTES || !hints_valid(hint_region(sig))
        || shards_too_large(sig)
}

/// A signature one byte short of its size never decodes: verification reports a malformed
/// input for it, whatever the key.
pub proof fn lemma_truncated_signature_rejected(sig: Seq<u8>, key: Seq<u8>)
    requires
        sig.len() == SIGNATUREBYTES,
    ensures
        decode_rejects(sig.take(sig.len() - 1), key),
{
}

/// The message digest: the 64-byte XOF output on the 32-byte digest of the key followed by
/// the message.
pub open spec fn message_digest(key: Seq<u8>, message: Seq<u8>) -> Seq<u8> {
    xof_spec(ARTIFACT_256_RATE as int, xof_spec(ARTIFACT_256_RATE as int, key, SEEDBYTES as int) + message, CRHBYTES as int)
}

/// Canonical representative of a coefficient in `(-q, q)`.
pub open spec fn canonical(x: int) -> int {
    if x < 0 { x + QUANTA } else { x }
}

/// The coefficient rows of a vector of ring elements.
pub open spec fn rows_of(v: Seq<Artifact>) -> Seq<Seq<i32>> {
    Seq::new(v.len(), |i: int| v[i].elements@)
}

/// The packed high parts of the rows `w` corrected by the hint rows `hints`: K rows of 128
/// bytes.
pub open spec fn w1_packed(w: Seq<Seq<i32>>, hints: Seq<Seq<i32>>) -> Seq<u8> {
    Seq::new(
        (K * GLYPH_PACKEDBYTES) as nat,
        |t: int|
            (w1_byte(
                Seq::new(ELEMENTS as nat, |j: int| hinted_high(canonical(w[t / 128][j] as int), hints[t / 128][j] as u8) as i32),
                t % 128,
            )) as u8,
    )
}

/// The hint rows of a signature: 1 where a coefficient's index is listed in its row.
pub open spec fn hint_rows(sig: Seq<u8>) -> Seq<Seq<i32>> {
    Seq::new(K as nat, |i: int| Seq::new(ELEMENTS as nat, |c: int| (if hint_set(hint_region(sig), i, c) { 1i32 } else { 0i32 })))
}

/// The challenge seed that verification recomputes from the digest and the corrected high parts.
pub open spec fn recomputed_seal(digest: Seq<u8>, w: Seq<Seq<i32>>, hints: Seq<Seq<i32>>) -> Seq<u8> {
    xof_spec(ARTIFACT_256_RATE as int, digest + w1_packed(w, hints), SEEDBYTES as int)
}

/// Row `i` of t1 in a key.
pub open spec fn t1_row(key: Seq<u8>, i: int) -> Seq<i32> {
    Seq::new(ELEMENTS as nat, |j: int| t1_coeff(key, SEEDBYTES + i * ELEMENTT1_PACKEDBYTES, j) as i32)
}

/// Row `l` of the response in a signature.
pub open spec fn z_row(sig: Seq<u8>, l: int) -> Seq<i32> {
    Seq::new(ELEMENTS as nat, |j: int| z_coeff(sig, SEEDBYTES + l * SHARD_PACKEDBYTES, j) as i32)
}

/// Coefficient `j` of row `i` of the matrix of `essence` times the transforms of the rows
/// `z`, over the first `n` columns.
pub open spec fn matrix_times(essence: Seq<u8>, z: Seq<Seq<i32>>, i: int, j: int, n: nat) -> int
    decreases n,
{
    if n == 0 {
        0
    } else {
        matrix_times(essence, z, i, j, (n - 1) as nat) + montgomery_spec(
            uniform_candidates(essence, (256 * i + n - 1) as u16).take(ELEMENTS as int)[j] * ntt_spec(z[n - 1])[j],
        )
    }
}

/// Coefficient `j` of the challenge of `seal` times row `t1` scaled by 2^13, both transformed.
pub open spec fn challenge_times(seal: Seq<u8>, t1: Seq<i32>, j: int) -> int {
    montgomery_spec(ntt_spec(challenge_of(seal).0)[j] * ntt_spec(scaled_row(t1))[j])
}

/// Row `i` of the recomputed w: the matrix times the response, less the challenge times the
/// scaled t1, reduced and transformed back.
pub open spec fn w_row(key: Seq<u8>, sig: Seq<u8>, i: int) -> Seq<i32> {
    invntt_spec(
        Seq::new(
            ELEMENTS as nat,
            |j: int|
                reduce32_spec(
                    matrix_times(key.take(32), Seq::new(L as nat, |l: int| z_row(sig, l)), i, j, L as nat)
                        - challenge_times(sig.take(32), t1_row(key, i), j),
                ) as i32,
        ),
    )
}

/// The signature is accepted: it decodes, the matrix and the challenge can be sampled, and
/// the seal equals the one recomputed from the digest and the corrected high parts of w.
pub open spec fn verify_accepts(sig: Seq<u8>, message: Seq<u8>, key: Seq<u8>) -> bool {
    &&& !decode_rejects(sig, key)
    &&& matrix_samplable(key.take(32))
    &&& challenge_of(sig.take(32)).2
    &&& sig.take(32) == xof_spec(
        ARTIFACT_256_RATE as int,
        message_digest(key, message) + w1_packed(Seq::new(K as nat, |i: int| w_row(key, sig, i)), hint_rows(sig)),
        SEEDBYTES as int,
    )
}

/// Stage 1: checks both lengths and unpacks the key into its matrix seed and t1 rows.
pub fn artifact_verify_stage1(signature: &[u8], artifact_key: &[u8]) -> (res: Result<(Vec<u8>, ArtifactArrayK), ValidationError>)
    ensures
        res.is_err() <==> signature@.len() != SIGNATUREBYTES || artifact_key@.len() != ARTIFACTKEYBYTES,
        res.is_err() ==> res == Err::<(Vec<u8>, ArtifactArrayK), ValidationError>(ValidationError::Input),
        res.is_ok() ==> res->Ok_0.0@ == artifact_key@.take(SEEDBYTES as int),
        res.is_ok() ==> rows_wf(res->Ok_0.1.elements@, K as int),
        res.is_ok() ==> rows_bounded(res->Ok_0.1.elements@, K as int, 0, 1023),
        res.is_ok() ==> forall|i: int| 0 <= i < K ==> #[trigger] res->Ok_0.1.elements@[i].elements@ == t1_row(artifact_key@, i),
{
    if signature.len() != SIGNATUREBYTES || artifact_key.len() != ARTIFACTKEYBYTES {
        return Err(ValidationError::Input);
    }
    let mut essence: Vec<u8> = vec![0u8; SEEDBYTES];
    let mut elements = ArtifactArrayK::default();
    unpack_artifact_key(essence.as_mut_slice(), &mut elements, artifact_key);
    assert forall|i: int| 0 <= i < K implies #[trigger] elements.elements@[i].elements@ == t1_row(artifact_key@, i) by {
        assert forall|j: int| 0 <= j < ELEMENTS implies #[trigger] elements.elements@[i].elements@[j] == t1_row(artifact_key@, i)[j] by {
            assert(coeff(elements.elements@, i, j) == elements.elements@[i].elements@[j]);
        }
        assert(elements.elements@[i].elements@ =~= t1_row(artifact_key@, i));
    }
    assert(essence@ =~= essence@.take(SEEDBYTES as int));
    Ok((essence, elements))
}

/// Stage 2: unpacks the signature and checks the response norm; fails with `Input` exactly
/// where the hints are ill formed or a response coefficient is too large.
pub fn artifact_verify_stage2(signature: &[u8]) -> (res: Result<(Vec<u8>, ArtifactArrayL, ArtifactArrayK), ValidationError>)
    requires
        signature@.len() == SIGNATUREBYTES,
    ensures
        res.is_err() <==> !hints_valid(hint_region(signature@)) || shards_too_large(signature@),
        res.is_err() ==> res == Err::<(Vec<u8>, ArtifactArrayL, ArtifactArrayK), ValidationError>(ValidationError::Input),
        res.is_ok() ==> res->Ok_0.0@ == signature@.take(SEEDBYTES as int),
        res.is_ok() ==> rows_wf(res->Ok_0.1.elements@, L as int),
        res.is_ok() ==> rows_bounded(res->Ok_0.1.elements@, L as int, -GAMMA1_MINUS_BETA + 1, GAMMA1_MINUS_BETA - 1),
        res.is_ok() ==> rows_wf(res->Ok_0.2.elements@, K as int),
        res.is_ok() ==> rows_bounded(res->Ok_0.2.elements@, K as int, 0, 1),
        res.is_ok() ==> forall|i: int, c: int| 0 <= i < K && 0 <= c < ELEMENTS ==> #[trigger] coeff(res->Ok_0.2.elements@, i, c) == (if hint_set(hint_region(signature@), i, c) { 1int } else { 0int }),
        res.is_ok() ==> forall|l: int| 0 <= l < L ==> #[trigger] res->Ok_0.1.elements@[l].elements@ == z_row(signature@, l),
        res.is_ok() ==> rows_of(res->Ok_0.2.elements@) == hint_rows(signature@),
{
    let mut seal: Vec<u8> = vec![0u8; SEEDBYTES];
    let mut fragments = ArtifactArrayL::default();
    let mut glyphs = ArtifactArrayK::default();
    let unpacked = unpack_artifact_signature(seal.as_mut_slice(), &mut fragments, &mut glyphs, signature);
    if unpacked.is_err() {
        return Err(ValidationError::Input);
    }
    proof {
        assert forall|i: int, j: int| 0 <= i < L && 0 <= j < ELEMENTS implies i32::MIN + 1 <= #[trigger] coeff(fragments.elements@, i, j) <= i32::MAX by {}
    }
    let too_large = artifact_array_l_chknorm(&fragments, GAMMA1_MINUS_BETA);
    proof {
        if too_large == 1 {
            let i = choose|i: int| 0 <= i < L && crate::poly::norm_exceeds(#[trigger] &fragments.elements@[i], GAMMA1_MINUS_BETA);
            let j = choose|j: int| 0 <= j < ELEMENTS && centered_abs(#[trigger] fragments.elements@[i].elements@[j] as int) >= GAMMA1_MINUS_BETA;
            assert(coeff(fragments.elements@, i, j) == z_coeff(signature@, SEEDBYTES + i * SHARD_PACKEDBYTES, j));
        } else {
            assert forall|i: int, j: int| 0 <= i < L && 0 <= j < ELEMENTS implies centered_abs(#[trigger] z_coeff(signature@, SEEDBYTES + i * SHARD_PACKEDBYTES, j)) < GAMMA1_MINUS_BETA by {
                assert(!crate::poly::norm_exceeds(&fragments.elements@[i], GAMMA1_MINUS_BETA));
                assert(coeff(fragments.elements@, i, j) == fragments.elements@[i].elements@[j]);
            }
            assert forall|i: int, j: int| 0 <= i < L && 0 <= j < ELEMENTS implies -GAMMA1_MINUS_BETA + 1 <= #[trigger] coeff(fragments.elements@, i, j) <= GAMMA1_MINUS_BETA - 1 by {
                assert(centered_abs(z_coeff(signature@, SEEDBYTES + i * SHARD_PACKEDBYTES, j)) < GAMMA1_MINUS_BETA);
            }
        }
    }
    if too_large > 0 {
        return Err(ValidationError::Input);
    }
    assert(seal@ =~= seal@.take(SEEDBYTES as int));
    assert forall|l: int| 0 <= l < L implies #[trigger] fragments.elements@[l].elements@ == z_row(signature@, l) by {
        assert forall|j: int| 0 <= j < ELEMENTS implies #[trigger] fragments.elements@[l].elements@[j] == z_row(signature@, l)[j] by {
            assert(coeff(fragments.elements@, l, j) == fragments.elements@[l].elements@[j]);
        }
        assert(fragments.elements@[l].elements@ =~= z_row(signature@, l));
    }
    assert forall|i: int| 0 <= i < K implies #[trigger] rows_of(glyphs.elements@)[i] == hint_rows(signature@)[i] by {
        assert forall|c: int| 0 <= c < ELEMENTS implies #[trigger] rows_of(glyphs.elements@)[i][c] == hint_rows(signature@)[i][c] by {
            assert(coeff(glyphs.elements@, i, c) == glyphs.elements@[i].elements@[c]);
        }
        assert(rows_of(glyphs.elements@)[i] =~= hint_rows(signature@)[i]);
    }
    assert(rows_of(glyphs.elements@) =~= hint_rows(signature@));
    Ok((seal, fragments, glyphs))
}

/// Appends the bytes of `src` to `dst`.
fn append_bytes(dst: &mut Vec<u8>, src: &[u8])
    ensures
        final(dst)@ == old(dst)@ + src@,
{
    let mut i: usize = 0;
    while i < src.len()
        invariant
            0 <= i <= src@.len(),
            dst@ == old(dst)@ + src@.take(i as int),
        decreases src@.len() - i,
    {
        dst.push(src[i]);
        i = i + 1;
        assert(dst@ =~= old(dst)@ + src@.take(i as int));
    }
    assert(src@.take(src@.len() as int) =~= src@);
}

/// Stage 3: the 64-byte digest that binds the key and the message.
pub fn artifact_verify_stage3(artifact_key: &[u8], message: &[u8]) -> (digest: Vec<u8>)
    ensures
        digest@ == message_digest(artifact_key@, message@),
{
    let mut tr: Vec<u8> = vec![0u8; SEEDBYTES];
    artifact_transform(tr.as_mut_slice(), artifact_key, artifact_key.len(), ARTIFACT_256_RATE);
    assert(artifact_key@.take(artifact_key@.len() as int) =~= artifact_key@);
    let mut input: Vec<u8> = Vec::new();
    append_bytes(&mut input, tr.as_slice());
    append_bytes(&mut input, message);
    assert(input@ =~= tr@ + message@);
    let mut digest: Vec<u8> = vec![0u8; CRHBYTES];
    artifact_transform(digest.as_mut_slice(), input.as_slice(), input.len(), ARTIFACT_256_RATE);
    assert(input@.take(input@.len() as int) =~= input@);
    digest
}

/// Stage 4: the challenge of the seal; `Verify` exactly where its stream ran out.
pub fn artifact_verify_stage4(seal: &[u8]) -> (res: Result<Artifact, ValidationError>)
    requires
        seal@.len() >= SEEDBYTES,
    ensures
        res.is_ok() <==> challenge_of(seal@).2,
        res.is_ok() ==> res->Ok_0.elements@ == challenge_of(seal@).0,
        res.is_ok() ==> well_formed(&res->Ok_0),
        res.is_ok() ==> bounded(&res->Ok_0, -1, 1),
        res.is_err() ==> res == Err::<Artifact, ValidationError>(ValidationError::Verify),
{
    let mut challenge = Artifact::default();
    if !artifact_challenge(&mut challenge, seal) {
        return Err(ValidationError::Verify);
    }
    Ok(challenge)
}

/// Stage 5: the public matrix of `essence`; `Verify` exactly where a sampler ran out.
pub fn artifact_verify_stage5(essence: &[u8]) -> (res: Result<Vec<ArtifactArrayL>, ValidationError>)
    requires
        essence@.len() >= SEEDBYTES,
    ensures
        res.is_ok() <==> matrix_samplable(essence@),
        res.is_ok() ==> forall|i: int, j: int| 0 <= i < K && 0 <= j < L ==> #[trigger] res->Ok_0@[i].elements@[j].elements@ == uniform_candidates(essence@, (256 * i + j) as u16).take(ELEMENTS as int),
        res.is_ok() ==> res->Ok_0@.len() == K,
        res.is_ok() ==> forall|i: int| 0 <= i < K ==> rows_wf(#[trigger] res->Ok_0@[i].elements@, L as int),
        res.is_ok() ==> forall|i: int| 0 <= i < K ==> rows_bounded(#[trigger] res->Ok_0@[i].elements@, L as int, 0, QUANTA - 1),
        res.is_err() ==> res == Err::<Vec<ArtifactArrayL>, ValidationError>(ValidationError::Verify),
{
    let mut matrix: Vec<ArtifactArrayL> = Vec::new();
    if !artifact_matrix_expand(&mut matrix, essence) {
        return Err(ValidationError::Verify);
    }
    Ok(matrix)
}

/// Coefficient `j` of matrix row `row` times the transformed vector `z`: the sum over the
/// first `n` columns of the Montgomery products with the transforms of the rows of `z`.
pub open spec fn row_times_ntt(row: Seq<Artifact>, z: Seq<Artifact>, j: int, n: nat) -> int
    decreases n,
{
    if n == 0 {
        0
    } else {
        row_times_ntt(row, z, j, (n - 1) as nat) + montgomery_spec(coeff(row, n - 1, j) * ntt_spec(z[n - 1].elements@)[j])
    }
}

proof fn lemma_row_times_is_matrix_times(essence: Seq<u8>, row: Seq<Artifact>, z: Seq<Artifact>, i: int, j: int, n: nat)
    requires
        n <= row.len(),
        n <= z.len(),
        forall|l: int| 0 <= l < n ==> #[trigger] row[l].elements@ == uniform_candidates(essence, (256 * i + l) as u16).take(ELEMENTS as int),
    ensures
        row_times_ntt(row, z, j, n) == matrix_times(essence, rows_of(z), i, j, n),
    decreases n,
{
    if n > 0 {
        lemma_row_times_is_matrix_times(essence, row, z, i, j, (n - 1) as nat);
        assert(row[n - 1].elements@ == uniform_candidates(essence, (256 * i + n - 1) as u16).take(ELEMENTS as int));
        assert(rows_of(z)[n - 1] == z[n - 1].elements@);
    }
}

/// A row of t1 multiplied by 2^13.
pub open spec fn scaled_row(a: Seq<i32>) -> Seq<i32> {
    Seq::new(ELEMENTS as nat, |x: int| (a[x] * 8192) as i32)
}

proof fn lemma_acc_is_row_times_ntt(row: Seq<Artifact>, zhat: Seq<Artifact>, z: Seq<Artifact>, j: int, n: nat)
    requires
        n <= zhat.len(),
        n <= z.len(),
        forall|l: int| 0 <= l < n ==> #[trigger] zhat[l].elements@ == ntt_spec(z[l].elements@),
    ensures
        acc_spec(row, zhat, j, n) == row_times_ntt(row, z, j, n),
    decreases n,
{
    if n > 0 {
        lemma_acc_is_row_times_ntt(row, zhat, z, j, (n - 1) as nat);
        assert(zhat[n - 1].elements@ == ntt_spec(z[n - 1].elements@));
    }
}

/// Stage 6: transforms the response and multiplies it by the matrix; transforms the
/// challenge and the scaled t1 rows and multiplies them. Returns both products, in the
/// transform domain.
pub fn artifact_verify_stage6(
    challenge: Artifact,
    matrix: Vec<ArtifactArrayL>,
    fragments: ArtifactArrayL,
    elements: ArtifactArrayK,
) -> (res: (ArtifactArrayK, ArtifactArrayK))
    requires
        well_formed(&challenge),
        bounded(&challenge, -1, 1),
        matrix@.len() == K,
        forall|i: int| 0 <= i < K ==> rows_wf(#[trigger] matrix@[i].elements@, L as int),
        forall|i: int| 0 <= i < K ==> rows_bounded(#[trigger] matrix@[i].elements@, L as int, 0, QUANTA - 1),
        rows_wf(fragments.elements@, L as int),
        rows_bounded(fragments.elements@, L as int, -GAMMA1_MINUS_BETA + 1, GAMMA1_MINUS_BETA - 1),
        rows_wf(elements.elements@, K as int),
        rows_bounded(elements.elements@, K as int, 0, 1023),
    ensures
        rows_wf(res.0.elements@, K as int),
        forall|i: int, j: int| 0 <= i < K && 0 <= j < ELEMENTS ==> #[trigger] coeff(res.0.elements@, i, j) == row_times_ntt(matrix@[i].elements@, fragments.elements@, j, L as nat),
        rows_bounded(res.0.elements@, K as int, -5 * QUANTA + 5, 5 * QUANTA),
        rows_wf(res.1.elements@, K as int),
        forall|i: int, j: int| 0 <= i < K && 0 <= j < ELEMENTS ==> #[trigger] coeff(res.1.elements@, i, j) == montgomery_spec(ntt_spec(challenge.elements@)[j] * ntt_spec(scaled_row(elements.elements@[i].elements@))[j]),
        rows_bounded(res.1.elements@, K as int, -QUANTA + 1, QUANTA as int),
{
    let ghost z0 = fragments.elements@;
    let ghost c0 = challenge.elements@;
    let ghost t0 = elements.elements@;
    let mut fragments = fragments;
    let mut challenge = challenge;
    let mut elements = elements;
    assert forall|i: int| 0 <= i < L implies all_below(#[trigger] fragments.elements@[i].elements@, crate::ntt::NTT_INPUT_BOUND as int) by {
        assert forall|j: int| 0 <= j < fragments.elements@[i].elements@.len() implies -crate::ntt::NTT_INPUT_BOUND < #[trigger] fragments.elements@[i].elements@[j] < crate::ntt::NTT_INPUT_BOUND by {
            assert(coeff(fragments.elements@, i, j) == fragments.elements@[i].elements@[j]);
        }
    }
    artifact_array_l_ntt(&mut fragments);
    let mut transformed = ArtifactArrayK::default();
    assert forall|i: int| 0 <= i < K implies products_in_range(#[trigger] matrix@[i].elements@, fragments.elements@, L as int) by {
        assert forall|l: int, j: int| 0 <= l < L && 0 <= j < ELEMENTS implies mont_lo() <= #[trigger] (coeff(matrix@[i].elements@, l, j) * coeff(fragments.elements@, l, j)) <= mont_hi() by {
            let x = coeff(matrix@[i].elements@, l, j);
            let y = coeff(fragments.elements@, l, j);
            assert(all_below(fragments.elements@[l].elements@, NTT_OUTPUT_BOUND as int));
            assert(-NTT_OUTPUT_BOUND < y < NTT_OUTPUT_BOUND);
            assert(0 <= x < QUANTA);
            assert(-(QUANTA as int) * 0x8000_0000 <= x * y <= (QUANTA as int) * 0x8000_0000) by (nonlinear_arith)
                requires
                    0 <= x < 8380417,
                    -75431944 < y < 75431944,
            ;
        }
    }
    artifact_matrix_pointwise_montgomery(&mut transformed, &matrix, &fragments);
    assert forall|i: int, j: int| 0 <= i < K && 0 <= j < ELEMENTS implies #[trigger] coeff(transformed.elements@, i, j) == row_times_ntt(matrix@[i].elements@, z0, j, L as nat) by {
        lemma_acc_is_row_times_ntt(matrix@[i].elements@, fragments.elements@, z0, j, L as nat);
    }
    assert(all_below(challenge.elements@, crate::ntt::NTT_INPUT_BOUND as int));
    artifact_ntt(&mut challenge);
    artifact_array_k_shiftl(&mut elements);
    assert forall|i: int| 0 <= i < K implies #[trigger] elements.elements@[i].elements@ == scaled_row(t0[i].elements@) by {
        assert forall|x: int| 0 <= x < ELEMENTS implies #[trigger] elements.elements@[i].elements@[x] == scaled_row(t0[i].elements@)[x] by {
            assert(coeff(elements.elements@, i, x) == coeff(t0, i, x) * 8192);
        }
        assert(elements.elements@[i].elements@ =~= scaled_row(t0[i].elements@));
    }
    let ghost scaled0 = elements.elements@;
    assert forall|i: int| 0 <= i < K implies all_below(#[trigger] elements.elements@[i].elements@, crate::ntt::NTT_INPUT_BOUND as int) by {
        assert forall|j: int| 0 <= j < elements.elements@[i].elements@.len() implies -crate::ntt::NTT_INPUT_BOUND < #[trigger] elements.elements@[i].elements@[j] < crate::ntt::NTT_INPUT_BOUND by {
            assert(coeff(elements.elements@, i, j) == elements.elements@[i].elements@[j]);
        }
    }
    artifact_array_k_ntt(&mut elements);
    let mut scaled = ArtifactArrayK::default();
    assert forall|i: int, j: int| 0 <= i < K && 0 <= j < ELEMENTS implies mont_lo() <= #[trigger] (challenge.elements@[j] * coeff(elements.elements@, i, j)) <= mont_hi() by {
        let x = challenge.elements@[j];
        let y = coeff(elements.elements@, i, j);
        assert(all_below(elements.elements@[i].elements@, NTT_OUTPUT_BOUND as int));
        assert(-NTT_OUTPUT_BOUND < y < NTT_OUTPUT_BOUND);
        assert(-NTT_OUTPUT_BOUND < x < NTT_OUTPUT_BOUND);
        assert(-(QUANTA as int) * 0x8000_0000 <= x * y <= (QUANTA as int) * 0x8000_0000) by (nonlinear_arith)
            requires
                -75431944 < x < 75431944,
                -75431944 < y < 75431944,
        ;
    }
    artifact_array_k_pointwise_poly_montgomery(&mut scaled, &challenge, &elements);
    assert forall|i: int, j: int| 0 <= i < K && 0 <= j < ELEMENTS implies #[trigger] coeff(scaled.elements@, i, j) == montgomery_spec(ntt_spec(c0)[j] * ntt_spec(scaled_row(t0[i].elements@))[j]) by {
        assert(elements.elements@[i].elements@ == ntt_spec(scaled0[i].elements@));
        assert(coeff(elements.elements@, i, j) == elements.elements@[i].elements@[j]);
    }
    (transformed, scaled)
}

/// Row `i` of the difference of `w` and `v`, reduced, before the inverse transform.
pub open spec fn reduced_difference(w: Seq<Artifact>, v: Seq<Artifact>, i: int) -> Seq<i32> {
    Seq::new(ELEMENTS as nat, |j: int| reduce32_spec(coeff(w, i, j) - coeff(v, i, j)) as i32)
}

/// Stage 7: subtracts the scaled t1 product, reduces, and returns to the normal domain.
pub fn artifact_verify_stage7(transformed: ArtifactArrayK, elements: ArtifactArrayK) -> (res: ArtifactArrayK)
    requires
        rows_wf(transformed.elements@, K as int),
        rows_bounded(transformed.elements@, K as int, -5 * QUANTA + 5, 5 * QUANTA),
        rows_wf(elements.elements@, K as int),
        rows_bounded(elements.elements@, K as int, -QUANTA + 1, QUANTA as int),
    ensures
        rows_wf(res.elements@, K as int),
        forall|i: int| 0 <= i < K ==> #[trigger] res.elements@[i].elements@ == invntt_spec(reduced_difference(transformed.elements@, elements.elements@, i)),
        rows_bounded(res.elements@, K as int, -QUANTA + 1, QUANTA - 1),
{
    let ghost w0 = transformed.elements@;
    let mut transformed = transformed;
    artifact_array_k_sub(&mut transformed, &elements);
    artifact_array_k_reduce(&mut transformed);
    assert forall|i: int| 0 <= i < K implies #[trigger] transformed.elements@[i].elements@ == reduced_difference(w0, elements.elements@, i) by {
        assert forall|x: int| 0 <= x < ELEMENTS implies #[trigger] transformed.elements@[i].elements@[x] == reduced_difference(w0, elements.elements@, i)[x] by {
            assert(coeff(transformed.elements@, i, x) == transformed.elements@[i].elements@[x]);
        }
        assert(transformed.elements@[i].elements@ =~= reduced_difference(w0, elements.elements@, i));
    }
    let ghost reduced = transformed.elements@;
    assert forall|i: int| 0 <= i < K implies all_below(#[trigger] transformed.elements@[i].elements@, QUANTA + 1) by {
        assert forall|j: int| 0 <= j < transformed.elements@[i].elements@.len() implies -(QUANTA + 1) < #[trigger] transformed.elements@[i].elements@[j] < QUANTA + 1 by {
            assert(coeff(transformed.elements@, i, j) == transformed.elements@[i].elements@[j]);
        }
    }
    artifact_array_k_invntt_tomont(&mut transformed);
    assert forall|i: int| 0 <= i < K implies #[trigger] transformed.elements@[i].elements@ == invntt_spec(reduced_difference(w0, elements.elements@, i)) by {
        assert(transformed.elements@[i].elements@ == invntt_spec(reduced[i].elements@));
    }
    transformed
}

/// The first `n` bytes of `a` and `b` agree.
fn prefix_equal(a: &[u8], b: &[u8], n: usize) -> (r: bool)
    requires
        n <= a@.len(),
        n <= b@.len(),
    ensures
        r <==> a@.take(n as int) == b@.take(n as int),
{
    let mut i: usize = 0;
    while i < n
        invariant
            0 <= i <= n,
            n <= a@.len(),
            n <= b@.len(),
            a@.take(i as int) == b@.take(i as int),
        decreases n - i,
    {
        if a[i] != b[i] {
            assert(a@.take(n as int)[i as int] != b@.take(n as int)[i as int]);
            return false;
        }
        i = i + 1;
        assert(a@.take(i as int) =~= b@.take(i as int));
    }
    true
}

/// Stage 8: canonicalizes, applies the hints, packs the high parts, hashes them after the
/// digest, and accepts exactly where the result equals the seal.
pub fn artifact_verify_stage8(
    transformed: ArtifactArrayK,
    glyphs: &ArtifactArrayK,
    digest: &[u8],
    seal: &[u8],
) -> (res: Result<(), ValidationError>)
    requires
        rows_wf(transformed.elements@, K as int),
        rows_bounded(transformed.elements@, K as int, -QUANTA + 1, QUANTA - 1),
        rows_wf(glyphs.elements@, K as int),
        rows_bounded(glyphs.elements@, K as int, 0, 1),
        seal@.len() >= SEEDBYTES,
    ensures
        res.is_ok() <==> seal@.take(SEEDBYTES as int) == recomputed_seal(digest@, rows_of(transformed.elements@), rows_of(glyphs.elements@)),
        res.is_err() ==> res == Err::<(), ValidationError>(ValidationError::Verify),
{
    let ghost w = transformed.elements@;
    let mut transformed = transformed;
    artifact_array_k_caddq(&mut transformed);
    assert forall|i: int, j: int| 0 <= i < K && 0 <= j < ELEMENTS implies 0 <= #[trigger] coeff(transformed.elements@, i, j) <= QUANTA - 1 by {
        assert(-QUANTA + 1 <= coeff(w, i, j) <= QUANTA - 1);
    }
    let ghost c = transformed.elements@;
    artifact_array_k_use_hint(&mut transformed, glyphs);
    let mut buffer: Vec<u8> = vec![0u8; K * GLYPH_PACKEDBYTES];
    artifact_array_k_pack_w1(buffer.as_mut_slice(), &transformed);
    proof {
        assert forall|t: int| 0 <= t < K * GLYPH_PACKEDBYTES implies #[trigger] buffer@[t] == w1_packed(rows_of(w), rows_of(glyphs.elements@))[t] by {
            let i = t / 128;
            let m = t % 128;
            assert(t == i * 128 + m);
            let row = Seq::new(ELEMENTS as nat, |j: int| hinted_high(canonical(rows_of(w)[i][j] as int), rows_of(glyphs.elements@)[i][j] as u8) as i32);
            assert forall|j: int| 0 <= j < ELEMENTS implies #[trigger] transformed.elements@[i].elements@[j] == row[j] by {
                assert(coeff(transformed.elements@, i, j) == transformed.elements@[i].elements@[j]);
                assert(coeff(c, i, j) == canonical(coeff(w, i, j) as int));
            }
            assert(transformed.elements@[i].elements@ =~= row);
            assert(buffer@[i * GLYPH_PACKEDBYTES + m] as int == w1_byte(transformed.elements@[i].elements@, m));
        }
        assert(buffer@ =~= w1_packed(rows_of(w), rows_of(glyphs.elements@)));
    }
    let mut input: Vec<u8> = Vec::new();
    append_bytes(&mut input, digest);
    append_bytes(&mut input, buffer.as_slice());
    let mut computed: Vec<u8> = vec![0u8; SEEDBYTES];
    artifact_transform(computed.as_mut_slice(), input.as_slice(), input.len(), ARTIFACT_256_RATE);
    assert(input@.take(input@.len() as int) =~= digest@ + w1_packed(rows_of(w), rows_of(glyphs.elements@)));
    assert(computed@.take(SEEDBYTES as int) =~= computed@);
    if prefix_equal(seal, computed.as_slice(), SEEDBYTES) {
        Ok(())
    } else {
        Err(ValidationError::Verify)
    }
}

/// Stages 4 to 6: the challenge, the matrix, and the two products.
fn validate_matrix(
    essence: &[u8],
    seal: &[u8],
    fragments: ArtifactArrayL,
    elements: ArtifactArrayK,
) -> (res: Result<(ArtifactArrayK, ArtifactArrayK), ValidationError>)
    requires
        essence@.len() >= SEEDBYTES,
        seal@.len() >= SEEDBYTES,
        rows_wf(fragments.elements@, L as int),
        rows_bounded(fragments.elements@, L as int, -GAMMA1_MINUS_BETA + 1, GAMMA1_MINUS_BETA - 1),
        rows_wf(elements.elements@, K as int),
        rows_bounded(elements.elements@, K as int, 0, 1023),
    ensures
        res.is_ok() ==> rows_wf(res->Ok_0.0.elements@, K as int),
        res.is_ok() ==> rows_bounded(res->Ok_0.0.elements@, K as int, -5 * QUANTA + 5, 5 * QUANTA),
        res.is_ok() ==> rows_wf(res->Ok_0.1.elements@, K as int),
        res.is_ok() ==> rows_bounded(res->Ok_0.1.elements@, K as int, -QUANTA + 1, QUANTA as int),
        res.is_err() ==> res == Err::<(ArtifactArrayK, ArtifactArrayK), ValidationError>(ValidationError::Verify),
        res.is_ok() <==> challenge_of(seal@).2 && matrix_samplable(essence@),
        res.is_ok() ==> forall|i: int, j: int| 0 <= i < K && 0 <= j < ELEMENTS ==> #[trigger] coeff(res->Ok_0.0.elements@, i, j) == matrix_times(essence@, rows_of(fragments.elements@), i, j, L as nat),
        res.is_ok() ==> forall|i: int, j: int| 0 <= i < K && 0 <= j < ELEMENTS ==> #[trigger] coeff(res->Ok_0.1.elements@, i, j) == challenge_times(seal@, elements.elements@[i].elements@, j),
{
    let challenge = artifact_verify_stage4(seal)?;
    let matrix = artifact_verify_stage5(essence)?;
    let ghost m = matrix@;
    let ghost z = fragments.elements@;
    let ghost t = elements.elements@;
    let ghost c = challenge.elements@;
    let products = artifact_verify_stage6(challenge, matrix, fragments, elements);
    assert forall|i: int, j: int| 0 <= i < K && 0 <= j < ELEMENTS implies #[trigger] coeff(products.0.elements@, i, j) == matrix_times(essence@, rows_of(z), i, j, L as nat) by {
        assert forall|l: int| 0 <= l < L implies #[trigger] m[i].elements@[l].elements@ == uniform_candidates(essence@, (256 * i + l) as u16).take(ELEMENTS as int) by {}
        lemma_row_times_is_matrix_times(essence@, m[i].elements@, z, i, j, L as nat);
    }
    Ok(products)
}

/// Stages 7 and 8.
fn finalize_verification(
    transformed: ArtifactArrayK,
    elements: ArtifactArrayK,
    glyphs: &ArtifactArrayK,
    digest: &[u8],
    seal: &[u8],
) -> (res: Result<(), ValidationError>)
    requires
        rows_wf(transformed.elements@, K as int),
        rows_bounded(transformed.elements@, K as int, -5 * QUANTA + 5, 5 * QUANTA),
        rows_wf(elements.elements@, K as int),
        rows_bounded(elements.elements@, K as int, -QUANTA + 1, QUANTA as int),
        rows_wf(glyphs.elements@, K as int),
        rows_bounded(glyphs.elements@, K as int, 0, 1),
        seal@.len() >= SEEDBYTES,
    ensures
        res.is_err() ==> res == Err::<(), ValidationError>(ValidationError::Verify),
        res.is_ok() <==> seal@.take(SEEDBYTES as int) == recomputed_seal(
            digest@,
            Seq::new(K as nat, |i: int| invntt_spec(reduced_difference(transformed.elements@, elements.elements@, i))),
            rows_of(glyphs.elements@),
        ),
{
    let ghost w = transformed.elements@;
    let ghost v = elements.elements@;
    let refined = artifact_verify_stage7(transformed, elements);
    assert(rows_of(refined.elements@) =~= Seq::new(K as nat, |i: int| invntt_spec(reduced_difference(w, v, i))));
    artifact_verify_stage8(refined, glyphs, digest, seal)
}

/// The rows that the last two stages see are those of `w_row`, given the products that
/// `validate_matrix` returns for the decoded key and signature.
proof fn lemma_recomputed_rows(key: Seq<u8>, sig: Seq<u8>, az: Seq<Artifact>, ct: Seq<Artifact>, z: Seq<Artifact>, t: Seq<Artifact>)
    requires
        z.len() == L,
        t.len() == K,
        forall|l: int| 0 <= l < L ==> #[trigger] z[l].elements@ == z_row(sig, l),
        forall|i: int| 0 <= i < K ==> #[trigger] t[i].elements@ == t1_row(key, i),
        forall|i: int, j: int| 0 <= i < K && 0 <= j < ELEMENTS ==> #[trigger] coeff(az, i, j) == matrix_times(key.take(32), rows_of(z), i, j, L as nat),
        forall|i: int, j: int| 0 <= i < K && 0 <= j < ELEMENTS ==> #[trigger] coeff(ct, i, j) == challenge_times(sig.take(32), t[i].elements@, j),
    ensures
        Seq::new(K as nat, |i: int| invntt_spec(reduced_difference(az, ct, i))) == Seq::new(K as nat, |i: int| w_row(key, sig, i)),
{
    let zrows = Seq::new(L as nat, |l: int| z_row(sig, l));
    assert(rows_of(z) =~= zrows);
    assert forall|i: int| 0 <= i < K implies #[trigger] reduced_difference(az, ct, i) == Seq::new(
        ELEMENTS as nat,
        |j: int| reduce32_spec(matrix_times(key.take(32), zrows, i, j, L as nat) - challenge_times(sig.take(32), t1_row(key, i), j)) as i32,
    ) by {
        assert(t[i].elements@ == t1_row(key, i));
        assert(reduced_difference(az, ct, i) =~= Seq::new(
            ELEMENTS as nat,
            |j: int| reduce32_spec(matrix_times(key.take(32), zrows, i, j, L as nat) - challenge_times(sig.take(32), t1_row(key, i), j)) as i32,
        ));
    }
    assert(Seq::new(K as nat, |i: int| invntt_spec(reduced_difference(az, ct, i))) =~= Seq::new(K as nat, |i: int| w_row(key, sig, i)));
}

/// Verifies `signature` on `message` under `artifact_key`. Fails with `Input` exactly where
/// the inputs do not decode (see `decode_rejects`); otherwise accepts or fails with `Verify`.
#[verifier::rlimit(100)]
pub fn artifact_verify(signature: &[u8], message: &[u8], artifact_key: &[u8]) -> (res: Result<(), ValidationError>)
    ensures
        res == Err::<(), ValidationError>(ValidationError::Input) <==> decode_rejects(signature@, artifact_key@),
        res.is_err() ==> res == Err::<(), ValidationError>(ValidationError::Input) || res == Err::<(), ValidationError>(ValidationError::Verify),
        res.is_ok() <==> verify_accepts(signature@, message@, artifact_key@),
{
    let (essence, elements) = artifact_verify_stage1(signature, artifact_key)?;
    let (seal, fragments, glyphs) = artifact_verify_stage2(signature)?;
    let digest = artifact_verify_stage3(artifact_key, message);
    let ghost z = fragments.elements@;
    let ghost t = elements.elements@;
    let (transformed, scaled) = validate_matrix(essence.as_slice(), seal.as_slice(), fragments, elements)?;
    proof {
        lemma_recomputed_rows(artifact_key@, signature@, transformed.elements@, scaled.elements@, z, t);
        assert(seal@.take(SEEDBYTES as int) =~= signature@.take(32));
        assert(essence@ =~= artifact_key@.take(32));
    }
    finalize_verification(transformed, scaled, &glyphs, digest.as_slice(), seal.as_slice())
}

} // verus!
