use vstd::prelude::*;
use crate::params::{
    ELEMENTS, ELEMENTT1_PACKEDBYTES, GAMMA1, GLYPH_PACKEDBYTES, K, L, OMEGA, SEEDBYTES,
    SHARD_PACKEDBYTES, ARTIFACTKEYBYTES, SIGNATUREBYTES,
};
use crate::poly::{bounded, well_formed, Artifact};
use crate::polyvec::{coeff, rows_bounded, rows_wf, ArtifactArrayK, ArtifactArrayL};

verus! {

/// Where the hint region of a signature starts.
pub const HINT_OFFSET: usize = SEEDBYTES + L * SHARD_PACKEDBYTES;

/// Decoding failures of a signature or a key.
#[derive(Debug, PartialEq, Eq, Structural)]
pub enum TransformationError {
    InvalidInput,
}

/// The little-endian integer of the five bytes of `b` from `o`.
pub open spec fn le40(b: Seq<u8>, o: int) -> int {
    b[o] + b[o + 1] * 256 + b[o + 2] * 65536 + b[o + 3] * 16777216 + b[o + 4] * 4294967296
}

/// 2^(10 k) for `k < 4`.
pub open spec fn pow1024(k: int) -> int {
    if k == 0 { 1 } else if k == 1 { 1024 } else if k == 2 { 1048576 } else { 1073741824 }
}

/// Coefficient `j` of a packed t1 row at `off`: bits `[10 j, 10 j + 10)`, little-endian.
pub open spec fn t1_coeff(b: Seq<u8>, off: int, j: int) -> int {
    (le40(b, off + 5 * (j / 4)) / pow1024(j % 4)) % 1024
}

/// Coefficient `j` of a packed response row at `off`: GAMMA1 less bits `[20 j, 20 j + 20)`.
pub open spec fn z_coeff(b: Seq<u8>, off: int, j: int) -> int {
    GAMMA1 - (le40(b, off + 5 * (j / 2)) / (if j % 2 == 0 { 1int } else { 1048576int })) % 1048576
}

/// Byte `m` of a packed high-bits row: coefficients `2 m` and `2 m + 1`, four bits each.
pub open spec fn w1_byte(a: Seq<i32>, m: int) -> int {
    a[2 * m] + 16 * a[2 * m + 1]
}

/// Five bytes as a 40-bit little-endian integer, and its 10- and 20-bit fields.
proof fn lemma_le40_fields(b0: u64, b1: u64, b2: u64, b3: u64, b4: u64, w: u64)
    requires
        b0 < 256,
        b1 < 256,
        b2 < 256,
        b3 < 256,
        b4 < 256,
        w == b0 | (b1 << 8u64) | (b2 << 16u64) | (b3 << 24u64) | (b4 << 32u64),
    ensures
        w == b0 + b1 * 256 + b2 * 65536 + b3 * 16777216 + b4 * 4294967296,
        w & 0x3ff == (w / 1) % 1024,
        (w >> 10u64) & 0x3ff == (w / 1024) % 1024,
        (w >> 20u64) & 0x3ff == (w / 1048576) % 1024,
        (w >> 30u64) & 0x3ff == (w / 1073741824) % 1024,
        w & 0xfffff == (w / 1) % 1048576,
        (w >> 20u64) & 0xfffff == (w / 1048576) % 1048576,
{
    assert(w == b0 + b1 * 256 + b2 * 65536 + b3 * 16777216 + b4 * 4294967296) by (bit_vector)
        requires
            b0 < 256,
            b1 < 256,
            b2 < 256,
            b3 < 256,
            b4 < 256,
            w == b0 | (b1 << 8u64) | (b2 << 16u64) | (b3 << 24u64) | (b4 << 32u64),
    ;
    assert(w & 0x3ff == (w / 1) % 1024 && (w >> 10u64) & 0x3ff == (w / 1024) % 1024 && (w >> 20u64)
        & 0x3ff == (w / 1048576) % 1024 && (w >> 30u64) & 0x3ff == (w / 1073741824) % 1024 && w
        & 0xfffff == (w / 1) % 1048576 && (w >> 20u64) & 0xfffff == (w / 1048576) % 1048576)
        by (bit_vector);
}

/// The five bytes of `a` from `o` as a little-endian integer.
fn load40(a: &[u8], o: usize) -> (w: u64)
    requires
        o + 5 <= a@.len(),
    ensures
        w == le40(a@, o as int),
        w & 0x3ff == (w / 1) % 1024,
        (w >> 10u64) & 0x3ff == (w / 1024) % 1024,
        (w >> 20u64) & 0x3ff == (w / 1048576) % 1024,
        (w >> 30u64) & 0x3ff == (w / 1073741824) % 1024,
        w & 0xfffff == (w / 1) % 1048576,
        (w >> 20u64) & 0xfffff == (w / 1048576) % 1048576,
{
    let b0 = a[o] as u64;
    let b1 = a[o + 1] as u64;
    let b2 = a[o + 2] as u64;
    let b3 = a[o + 3] as u64;
    let b4 = a[o + 4] as u64;
    let w = b0 | (b1 << 8u64) | (b2 << 16u64) | (b3 << 24u64) | (b4 << 32u64);
    proof {
        lemma_le40_fields(b0, b1, b2, b3, b4, w);
    }
    w
}

/// Decodes the packed t1 row at `off` of `a` into `r`.
pub fn artifact_element_unpack(r: &mut Artifact, a: &[u8], off: usize)
    requires
        well_formed(old(r)),
        off + ELEMENTT1_PACKEDBYTES <= a@.len(),
    ensures
        well_formed(final(r)),
        forall|j: int| 0 <= j < ELEMENTS ==> #[trigger] final(r).elements@[j] == t1_coeff(a@, off as int, j),
        bounded(final(r), 0, 1023),
{
    let total = a.len();
    let mut g: usize = 0;
    while g < 64
        invariant
            0 <= g <= 64,
            r.elements@.len() == ELEMENTS,
            total == a@.len(),
            off + ELEMENTT1_PACKEDBYTES <= a@.len(),
            forall|j: int| 0 <= j < 4 * g ==> #[trigger] r.elements@[j] == t1_coeff(a@, off as int, j),
            forall|j: int| 0 <= j < 4 * g ==> 0 <= #[trigger] r.elements@[j] <= 1023,
        decreases 64 - g,
    {
        let w = load40(a, off + 5 * g);
        r.elements.set(4 * g, (w & 0x3ff) as i32);
        r.elements.set(4 * g + 1, ((w >> 10u64) & 0x3ff) as i32);
        r.elements.set(4 * g + 2, ((w >> 20u64) & 0x3ff) as i32);
        r.elements.set(4 * g + 3, ((w >> 30u64) & 0x3ff) as i32);
        assert((4 * g) / 4 == g && (4 * g) % 4 == 0);
        assert((4 * g + 1) / 4 == g && (4 * g + 1) % 4 == 1);
        assert((4 * g + 2) / 4 == g && (4 * g + 2) % 4 == 2);
        assert((4 * g + 3) / 4 == g && (4 * g + 3) % 4 == 3);
        g = g + 1;
    }
}

/// Decodes the packed response row at `off` of `a` into `r`.
pub fn shard_unpack(r: &mut Artifact, a: &[u8], off: usize)
    requires
        well_formed(old(r)),
        off + SHARD_PACKEDBYTES <= a@.len(),
    ensures
        well_formed(final(r)),
        forall|j: int| 0 <= j < ELEMENTS ==> #[trigger] final(r).elements@[j] == z_coeff(a@, off as int, j),
        bounded(final(r), -GAMMA1 + 1, GAMMA1 as int),
{
    let total = a.len();
    let mut g: usize = 0;
    while g < 128
        invariant
            0 <= g <= 128,
            r.elements@.len() == ELEMENTS,
            total == a@.len(),
            off + SHARD_PACKEDBYTES <= a@.len(),
            forall|j: int| 0 <= j < 2 * g ==> #[trigger] r.elements@[j] == z_coeff(a@, off as int, j),
            forall|j: int| 0 <= j < 2 * g ==> -GAMMA1 + 1 <= #[trigger] r.elements@[j] <= GAMMA1,
        decreases 128 - g,
    {
        let w = load40(a, off + 5 * g);
        r.elements.set(2 * g, GAMMA1 - (w & 0xfffff) as i32);
        r.elements.set(2 * g + 1, GAMMA1 - ((w >> 20u64) & 0xfffff) as i32);
        assert((2 * g) / 2 == g && (2 * g) % 2 == 0);
        assert((2 * g + 1) / 2 == g && (2 * g + 1) % 2 == 1);
        g = g + 1;
    }
}

/// Packs a row of high parts (each in `[0, 16)`) into the 128 bytes of `r` from `off`.
pub fn artifact_w1_pack(r: &mut [u8], off: usize, a: &Artifact)
    requires
        well_formed(a),
        bounded(a, 0, 15),
        off + GLYPH_PACKEDBYTES <= old(r)@.len(),
    ensures
        final(r)@.len() == old(r)@.len(),
        forall|m: int| 0 <= m < GLYPH_PACKEDBYTES ==> #[trigger] final(r)@[off + m] as int == w1_byte(a.elements@, m),
        forall|t: int| 0 <= t < old(r)@.len() && !(off <= t < off + GLYPH_PACKEDBYTES) ==> final(r)@[t] == old(r)@[t],
{
    let total = r.len();
    let mut m: usize = 0;
    while m < GLYPH_PACKEDBYTES
        invariant
            0 <= m <= GLYPH_PACKEDBYTES,
            total == r@.len(),
            total == old(r)@.len(),
            off + GLYPH_PACKEDBYTES <= total,
            well_formed(a),
            bounded(a, 0, 15),
            forall|t: int| 0 <= t < m ==> #[trigger] r@[off + t] as int == w1_byte(a.elements@, t),
            forall|t: int| 0 <= t < total && !(off <= t < off + m) ==> r@[t] == old(r)@[t],
        decreases GLYPH_PACKEDBYTES - m,
    {
        let lo = a.elements[2 * m];
        let hi = a.elements[2 * m + 1];
        assert(0 <= lo <= 15 && 0 <= hi <= 15);
        let x = lo as u32;
        let y = hi as u32;
        let v: u32 = x | (y << 4u32);
        assert(v == x + 16 * y) by (bit_vector)
            requires
                x < 16,
                y < 16,
                v == x | (y << 4u32),
        ;
        r[off + m] = v as u8;
        m = m + 1;
    }
}

/// Count of hint indices up to the start of row `i` (0 for the first row).
pub open spec fn row_start(h: Seq<u8>, i: int) -> int {
    if i == 0 { 0 } else { h[OMEGA + i - 1] as int }
}

/// Count of hint indices up to the end of row `i`.
pub open spec fn row_end(h: Seq<u8>, i: int) -> int {
    h[OMEGA + i] as int
}

/// The hint region `h` (OMEGA index bytes, then K running counts) is well formed: the
/// counts never fall and stay within OMEGA, the indices of each row strictly increase, and
/// the index bytes past the last count are zero.
pub open spec fn hints_valid(h: Seq<u8>) -> bool {
    &&& forall|i: int| 0 <= i < K ==> row_start(h, i) <= #[trigger] row_end(h, i) <= OMEGA
    &&& forall|i: int, j: int|
        #![trigger row_end(h, i), h[j]]
        0 <= i < K && row_start(h, i) < j < row_end(h, i) ==> h[j - 1] < h[j]
    &&& forall|j: int| row_end(h, K - 1) <= j < OMEGA ==> #[trigger] h[j] == 0
}

/// Some index byte in `[lo, hi)` of `h` is `c`.
pub open spec fn seen(h: Seq<u8>, lo: int, hi: int, c: int) -> bool {
    exists|j: int| lo <= j < hi && #[trigger] h[j] as int == c
}

/// Coefficient `c` of row `i` carries a hint: its index is listed in the row's segment.
pub open spec fn hint_set(h: Seq<u8>, i: int, c: int) -> bool {
    seen(h, row_start(h, i), row_end(h, i), c)
}

proof fn lemma_seen_step(h: Seq<u8>, lo: int, j: int, c: int)
    requires
        lo <= j < h.len(),
    ensures
        seen(h, lo, j + 1, c) <==> (seen(h, lo, j, c) || h[j] as int == c),
{
    if seen(h, lo, j + 1, c) {
        let w = choose|w: int| lo <= w < j + 1 && #[trigger] h[w] as int == c;
        if w < j {
            assert(seen(h, lo, j, c));
        }
    }
    if h[j] as int == c {
        assert(seen(h, lo, j + 1, c));
    }
    if seen(h, lo, j, c) {
        let w = choose|w: int| lo <= w < j && #[trigger] h[w] as int == c;
        assert(seen(h, lo, j + 1, c));
    }
}

/// The hint region of a signature.
pub open spec fn hint_region(sig: Seq<u8>) -> Seq<u8> {
    sig.subrange(HINT_OFFSET as int, SIGNATUREBYTES as int)
}

/// Decodes row `i` of the hint region, whose indices occupy `[k, end)`; fails exactly where
/// they do not strictly increase.
fn unpack_hint_row(sig: &[u8], i: usize, k: usize, end: usize) -> (res: Result<Artifact, TransformationError>)
    requires
        sig@.len() == SIGNATUREBYTES,
        i < K,
        k == row_start(hint_region(sig@), i as int),
        end == row_end(hint_region(sig@), i as int),
        k <= end <= OMEGA,
    ensures
        res.is_ok() <==> forall|j: int| k < j < end ==> hint_region(sig@)[j - 1] < #[trigger] hint_region(sig@)[j],
        res.is_ok() ==> well_formed(&res->Ok_0),
        res.is_ok() ==> bounded(&res->Ok_0, 0, 1),
        res.is_ok() ==> forall|c: int| 0 <= c < ELEMENTS ==> #[trigger] res->Ok_0.elements@[c] == (if hint_set(hint_region(sig@), i as int, c) { 1int } else { 0int }),
{
    let ghost h = hint_region(sig@);
    let mut row = Artifact::default();
    let mut j: usize = k;
    while j < end
        invariant
            sig@.len() == SIGNATUREBYTES,
            h == hint_region(sig@),
            k <= j <= end,
            end <= OMEGA,
            well_formed(&row),
            bounded(&row, 0, 1),
            forall|c: int| 0 <= c < ELEMENTS ==> #[trigger] row.elements@[c] == (if seen(h, k as int, j as int, c) { 1int } else { 0int }),
            forall|t: int| k < t < j ==> h[t - 1] < #[trigger] h[t],
        decreases end - j,
    {
        let idx = sig[HINT_OFFSET + j];
        assert(idx == h[j as int]);
        if j > k && idx <= sig[HINT_OFFSET + j - 1] {
            assert(!(h[j - 1] < h[j as int]));
            return Err(TransformationError::InvalidInput);
        }
        row.elements.set(idx as usize, 1);
        proof {
            assert forall|c: int| 0 <= c < ELEMENTS implies #[trigger] row.elements@[c] == (if seen(h, k as int, j + 1, c) { 1int } else { 0int }) by {
                lemma_seen_step(h, k as int, j as int, c);
            }
        }
        j = j + 1;
    }
    Ok(row)
}

/// Decodes the hint region that starts at `HINT_OFFSET` of `sig` into K rows of 0/1
/// coefficients; fails exactly where the region is not well formed.
#[verifier::rlimit(80)]
pub fn unpack_hints(sig: &[u8]) -> (res: Result<Vec<Artifact>, TransformationError>)
    requires
        sig@.len() == SIGNATUREBYTES,
    ensures
        res.is_ok() <==> hints_valid(hint_region(sig@)),
        res.is_ok() ==> rows_wf(res->Ok_0@, K as int),
        res.is_ok() ==> rows_bounded(res->Ok_0@, K as int, 0, 1),
        res.is_ok() ==> forall|i: int, c: int| 0 <= i < K && 0 <= c < ELEMENTS ==> #[trigger] coeff(res->Ok_0@, i, c) == (if hint_set(hint_region(sig@), i, c) { 1int } else { 0int }),
{
    let ghost h = hint_region(sig@);
    let mut rows: Vec<Artifact> = Vec::new();
    let mut k: usize = 0;
    let mut i: usize = 0;
    while i < K
        invariant
            sig@.len() == SIGNATUREBYTES,
            h == hint_region(sig@),
            0 <= i <= K,
            rows@.len() == i,
            k == row_start(h, i as int),
            k <= OMEGA,
            forall|r: int| 0 <= r < i ==> row_start(h, r) <= #[trigger] row_end(h, r) <= OMEGA,
            forall|r: int, j: int|
                #![trigger row_end(h, r), h[j]]
                0 <= r < i && row_start(h, r) < j < row_end(h, r) ==> h[j - 1] < h[j],
            rows_wf(rows@, i as int),
            rows_bounded(rows@, i as int, 0, 1),
            forall|r: int, c: int| 0 <= r < i && 0 <= c < ELEMENTS ==> #[trigger] coeff(rows@, r, c) == (if hint_set(h, r, c) { 1int } else { 0int }),
        decreases K - i,
    {
        let end = sig[HINT_OFFSET + OMEGA + i] as usize;
        assert(end == row_end(h, i as int));
        if end < k || end > OMEGA {
            assert(!(row_start(h, i as int) <= row_end(h, i as int) <= OMEGA));
            return Err(TransformationError::InvalidInput);
        }
        let decoded = unpack_hint_row(sig, i, k, end);
        let row = match decoded {
            Ok(row) => row,
            Err(e) => {
                proof {
                    let j = choose|j: int| k < j < end && !(h[j - 1] < #[trigger] h[j]);
                    assert(row_end(h, i as int) == end);
                    assert(!(h[j - 1] < h[j]));
                }
                return Err(e);
            },
        };
        let ghost before = rows@;
        rows.push(row);
        proof {
            assert forall|r: int, c: int| 0 <= r <= i && 0 <= c < ELEMENTS implies #[trigger] coeff(rows@, r, c) == (if hint_set(h, r, c) { 1int } else { 0int }) && 0 <= coeff(rows@, r, c) <= 1 by {
                if r < i {
                    assert(coeff(rows@, r, c) == coeff(before, r, c));
                }
            }
            assert forall|r: int, j: int|
                #![trigger row_end(h, r), h[j]]
                0 <= r <= i && row_start(h, r) < j < row_end(h, r) implies h[j - 1] < h[j] by {
                if r == i {
                    assert(h[j] == hint_region(sig@)[j]);
                }
            }
        }
        k = end;
        i = i + 1;
    }
    let mut j: usize = k;
    while j < OMEGA
        invariant
            sig@.len() == SIGNATUREBYTES,
            h == hint_region(sig@),
            k == row_end(h, K - 1),
            k <= j <= OMEGA,
            forall|t: int| k <= t < j ==> #[trigger] h[t] == 0,
        decreases OMEGA - j,
    {
        if sig[HINT_OFFSET + j] > 0 {
            assert(h[j as int] != 0);
            return Err(TransformationError::InvalidInput);
        }
        j = j + 1;
    }
    Ok(rows)
}

/// Copies the first 32 bytes of `src` into the front of `dst`.
fn copy_seed(dst: &mut [u8], src: &[u8])
    requires
        old(dst)@.len() >= SEEDBYTES,
        src@.len() >= SEEDBYTES,
    ensures
        final(dst)@.len() == old(dst)@.len(),
        final(dst)@.take(SEEDBYTES as int) == src@.take(SEEDBYTES as int),
        final(dst)@.skip(SEEDBYTES as int) == old(dst)@.skip(SEEDBYTES as int),
{
    let mut i: usize = 0;
    while i < SEEDBYTES
        invariant
            0 <= i <= SEEDBYTES,
            dst@.len() == old(dst)@.len(),
            old(dst)@.len() >= SEEDBYTES,
            src@.len() >= SEEDBYTES,
            forall|t: int| 0 <= t < i ==> dst@[t] == src@[t],
            forall|t: int| i <= t < dst@.len() ==> dst@[t] == old(dst)@[t],
        decreases SEEDBYTES - i,
    {
        dst[i] = src[i];
        i = i + 1;
    }
    assert(dst@.take(SEEDBYTES as int) =~= src@.take(SEEDBYTES as int));
    assert(dst@.skip(SEEDBYTES as int) =~= old(dst)@.skip(SEEDBYTES as int));
}

/// Unpacks a public key into its matrix seed `essence` (front 32 bytes) and its K rows of t1.
pub fn unpack_artifact_key(essence: &mut [u8], elements: &mut ArtifactArrayK, artifact_key: &[u8])
    requires
        old(essence)@.len() >= SEEDBYTES,
        artifact_key@.len() == ARTIFACTKEYBYTES,
    ensures
        final(essence)@.len() == old(essence)@.len(),
        final(essence)@.take(SEEDBYTES as int) == artifact_key@.take(SEEDBYTES as int),
        rows_wf(final(elements).elements@, K as int),
        forall|i: int, j: int| 0 <= i < K && 0 <= j < ELEMENTS ==> #[trigger] coeff(final(elements).elements@, i, j) == t1_coeff(artifact_key@, SEEDBYTES + i * ELEMENTT1_PACKEDBYTES, j),
        rows_bounded(final(elements).elements@, K as int, 0, 1023),
{
    copy_seed(essence, artifact_key);
    let mut rows: Vec<Artifact> = Vec::new();
    let mut i: usize = 0;
    while i < K
        invariant
            0 <= i <= K,
            artifact_key@.len() == ARTIFACTKEYBYTES,
            rows@.len() == i,
            rows_wf(rows@, i as int),
            forall|r: int, j: int| 0 <= r < i && 0 <= j < ELEMENTS ==> #[trigger] coeff(rows@, r, j) == t1_coeff(artifact_key@, SEEDBYTES + r * ELEMENTT1_PACKEDBYTES, j),
            rows_bounded(rows@, i as int, 0, 1023),
        decreases K - i,
    {
        let mut row = Artifact::default();
        artifact_element_unpack(&mut row, artifact_key, SEEDBYTES + i * ELEMENTT1_PACKEDBYTES);
        let ghost before = rows@;
        rows.push(row);
        assert forall|r: int, j: int| 0 <= r <= i && 0 <= j < ELEMENTS implies #[trigger] coeff(rows@, r, j) == t1_coeff(artifact_key@, SEEDBYTES + r * ELEMENTT1_PACKEDBYTES, j) && 0 <= coeff(rows@, r, j) <= 1023 by {
            if r < i {
                assert(coeff(rows@, r, j) == coeff(before, r, j));
            }
        }
        i = i + 1;
    }
    elements.elements = rows;
}

/// Unpacks a signature into its challenge seed `seal` (front 32 bytes), its L response rows
/// and its K hint rows. Fails exactly where the hint region is not well formed; `glyph` is
/// set only on success.
pub fn unpack_artifact_signature(
    seal: &mut [u8],
    shards: &mut ArtifactArrayL,
    glyph: &mut ArtifactArrayK,
    artifact_signature: &[u8],
) -> (res: Result<(), TransformationError>)
    requires
        old(seal)@.len() >= SEEDBYTES,
        artifact_signature@.len() == SIGNATUREBYTES,
    ensures
        final(seal)@.len() == old(seal)@.len(),
        final(seal)@.take(SEEDBYTES as int) == artifact_signature@.take(SEEDBYTES as int),
        rows_wf(final(shards).elements@, L as int),
        forall|i: int, j: int| 0 <= i < L && 0 <= j < ELEMENTS ==> #[trigger] coeff(final(shards).elements@, i, j) == z_coeff(artifact_signature@, SEEDBYTES + i * SHARD_PACKEDBYTES, j),
        rows_bounded(final(shards).elements@, L as int, -GAMMA1 + 1, GAMMA1 as int),
        res.is_ok() <==> hints_valid(hint_region(artifact_signature@)),
        res.is_ok() ==> rows_wf(final(glyph).elements@, K as int),
        res.is_ok() ==> rows_bounded(final(glyph).elements@, K as int, 0, 1),
        res.is_ok() ==> forall|i: int, c: int| 0 <= i < K && 0 <= c < ELEMENTS ==> #[trigger] coeff(final(glyph).elements@, i, c) == (if hint_set(hint_region(artifact_signature@), i, c) { 1int } else { 0int }),
{
    copy_seed(seal, artifact_signature);
    let mut rows: Vec<Artifact> = Vec::new();
    let mut i: usize = 0;
    while i < L
        invariant
            0 <= i <= L,
            artifact_signature@.len() == SIGNATUREBYTES,
            rows@.len() == i,
            rows_wf(rows@, i as int),
            forall|r: int, j: int| 0 <= r < i && 0 <= j < ELEMENTS ==> #[trigger] coeff(rows@, r, j) == z_coeff(artifact_signature@, SEEDBYTES + r * SHARD_PACKEDBYTES, j),
            rows_bounded(rows@, i as int, -GAMMA1 + 1, GAMMA1 as int),
        decreases L - i,
    {
        let mut row = Artifact::default();
        shard_unpack(&mut row, artifact_signature, SEEDBYTES + i * SHARD_PACKEDBYTES);
        let ghost before = rows@;
        rows.push(row);
        assert forall|r: int, j: int| 0 <= r <= i && 0 <= j < ELEMENTS implies #[trigger] coeff(rows@, r, j) == z_coeff(artifact_signature@, SEEDBYTES + r * SHARD_PACKEDBYTES, j) && -GAMMA1 + 1 <= coeff(rows@, r, j) <= GAMMA1 by {
            if r < i {
                assert(coeff(rows@, r, j) == coeff(before, r, j));
            }
        }
        i = i + 1;
    }
    shards.elements = rows;
    match unpack_hints(artifact_signature) {
        Ok(hints) => {
            glyph.elements = hints;
            Ok(())
        },
        Err(e) => Err(e),
    }
}

} // verus!
