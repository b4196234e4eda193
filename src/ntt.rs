use vstd::prelude::*;
use crate::params::{ELEMENTS, QUANTA};
use crate::reduce::{artifact_montgomery_reduce, montgomery_spec};
use vstd::arithmetic::div_mod::lemma_fundamental_div_mod_converse;

verus! {

/// Exclusive bound on the input coefficients of the forward transform: 2^23.
pub const NTT_INPUT_BOUND: i32 = 0x80_0000;
/// Exclusive bound on the output coefficients of the forward transform: 2^23 + 8 q.
pub const NTT_OUTPUT_BOUND: i32 = 75431944;
/// mont^2 / 256 modulo q: undoes the 256-fold sum of the inverse butterflies and leaves
/// the Montgomery factor 2^32.
pub const INVNTT_SCALE: i32 = 41978;

/// Every coefficient has magnitude below `m`.
pub open spec fn all_below(a: Seq<i32>, m: int) -> bool {
    forall|i: int| 0 <= i < a.len() ==> -m < #[trigger] a[i] < m
}

/// Half-width of the butterflies of forward layer `level`: 128 halved `level` times.
pub open spec fn layer_len(level: int) -> int {
    if level == 0 { 128 } else if level == 1 { 64 } else if level == 2 { 32 } else if level == 3 {
        16
    } else if level == 4 { 8 } else if level == 5 { 4 } else if level == 6 { 2 } else { 1 }
}

/// Index `i` was already rewritten in the current layer: it lies in an earlier block,
/// or in the part of the current block (`start`, half-width `len`) done up to `j`.
pub open spec fn done_in_layer(i: int, start: int, j: int, len: int) -> bool {
    i < start || (start <= i < j) || (start + len <= i < j + len)
}

/// The twiddle factors: Montgomery forms of the powers of the 512th root of unity 1753,
/// in bit-reversed order, centered.
pub open spec fn zetas_spec() -> Seq<i32> {
    seq![
        0i32, 25847i32, -2608894i32, -518909i32, 237124i32, -777960i32, -876248i32, 466468i32,
        1826347i32, 2353451i32, -359251i32, -2091905i32, 3119733i32, -2884855i32, 3111497i32, 2680103i32,
        2725464i32, 1024112i32, -1079900i32, 3585928i32, -549488i32, -1119584i32, 2619752i32, -2108549i32,
        -2118186i32, -3859737i32, -1399561i32, -3277672i32, 1757237i32, -19422i32, 4010497i32, 280005i32,
        2706023i32, 95776i32, 3077325i32, 3530437i32, -1661693i32, -3592148i32, -2537516i32, 3915439i32,
        -3861115i32, -3043716i32, 3574422i32, -2867647i32, 3539968i32, -300467i32, 2348700i32, -539299i32,
        -1699267i32, -1643818i32, 3505694i32, -3821735i32, 3507263i32, -2140649i32, -1600420i32, 3699596i32,
        811944i32, 531354i32, 954230i32, 3881043i32, 3900724i32, -2556880i32, 2071892i32, -2797779i32,
        -3930395i32, -1528703i32, -3677745i32, -3041255i32, -1452451i32, 3475950i32, 2176455i32, -1585221i32,
        -1257611i32, 1939314i32, -4083598i32, -1000202i32, -3190144i32, -3157330i32, -3632928i32, 126922i32,
        3412210i32, -983419i32, 2147896i32, 2715295i32, -2967645i32, -3693493i32, -411027i32, -2477047i32,
        -671102i32, -1228525i32, -22981i32, -1308169i32, -381987i32, 1349076i32, 1852771i32, -1430430i32,
        -3343383i32, 264944i32, 508951i32, 3097992i32, 44288i32, -1100098i32, 904516i32, 3958618i32,
        -3724342i32, -8578i32, 1653064i32, -3249728i32, 2389356i32, -210977i32, 759969i32, -1316856i32,
        189548i32, -3553272i32, 3159746i32, -1851402i32, -2409325i32, -177440i32, 1315589i32, 1341330i32,
        1285669i32, -1584928i32, -812732i32, -1439742i32, -3019102i32, -3881060i32, -3628969i32, 3839961i32,
        2091667i32, 3407706i32, 2316500i32, 3817976i32, -3342478i32, 2244091i32, -2446433i32, -3562462i32,
        266997i32, 2434439i32, -1235728i32, 3513181i32, -3520352i32, -3759364i32, -1197226i32, -3193378i32,
        900702i32, 1859098i32, 909542i32, 819034i32, 495491i32, -1613174i32, -43260i32, -522500i32,
        -655327i32, -3122442i32, 2031748i32, 3207046i32, -3556995i32, -525098i32, -768622i32, -3595838i32,
        342297i32, 286988i32, -2437823i32, 4108315i32, 3437287i32, -3342277i32, 1735879i32, 203044i32,
        2842341i32, 2691481i32, -2590150i32, 1265009i32, 4055324i32, 1247620i32, 2486353i32, 1595974i32,
        -3767016i32, 1250494i32, 2635921i32, -3548272i32, -2994039i32, 1869119i32, 1903435i32, -1050970i32,
        -1333058i32, 1237275i32, -3318210i32, -1430225i32, -451100i32, 1312455i32, 3306115i32, -1962642i32,
        -1279661i32, 1917081i32, -2546312i32, -1374803i32, 1500165i32, 777191i32, 2235880i32, 3406031i32,
        -542412i32, -2831860i32, -1671176i32, -1846953i32, -2584293i32, -3724270i32, 594136i32, -3776993i32,
        -2013608i32, 2432395i32, 2454455i32, -164721i32, 1957272i32, 3369112i32, 185531i32, -1207385i32,
        -3183426i32, 162844i32, 1616392i32, 3014001i32, 810149i32, 1652634i32, -3694233i32, -1799107i32,
        -3038916i32, 3523897i32, 3866901i32, 269760i32, 2213111i32, -975884i32, 1717735i32, 472078i32,
        -426683i32, 1723600i32, -1803090i32, 1910376i32, -1667432i32, -1104333i32, -260646i32, -3833893i32,
        -2939036i32, -2235985i32, -420899i32, -2286327i32, 183443i32, -976891i32, 1612842i32, -3545687i32,
        -554416i32, 3919660i32, -48306i32, -1362209i32, 3937738i32, 1400424i32, -846154i32, 1976782i32,
    ]
}

/// Blocks of forward layer `level`: 1 doubled `level` times.
pub open spec fn layer_blocks(level: int) -> int {
    layer_len(7 - level)
}

proof fn lemma_layer_step(level: int)
    requires
        0 <= level < 7,
    ensures
        layer_blocks(level + 1) == 2 * layer_blocks(level),
        layer_len(level) == 2 * layer_len(level + 1),
{
    if level == 0 {} else if level == 1 {} else if level == 2 {} else if level == 3 {} else if level == 4 {} else if level == 5 {} else {}
}

/// Forward layer `level` applied to `a`: in each block of `2 len` coefficients the pair at
/// offsets `o` and `o + len` becomes `(x + t, x - t)` with `t` the Montgomery product of the
/// block's twiddle factor and the upper coefficient.
pub open spec fn fwd_layer(a: Seq<i32>, level: int) -> Seq<i32> {
    let len = layer_len(level);
    Seq::new(
        ELEMENTS as nat,
        |x: int|
            {
                let z = zetas_spec()[layer_blocks(level) + x / (2 * len)];
                if x % (2 * len) < len {
                    (a[x] + montgomery_spec(z * a[x + len])) as i32
                } else {
                    (a[x - len] - montgomery_spec(z * a[x])) as i32
                }
            },
    )
}

/// The first `n` forward layers.
pub open spec fn fwd_layers(a: Seq<i32>, n: nat) -> Seq<i32>
    decreases n,
{
    if n == 0 {
        a
    } else {
        fwd_layer(fwd_layers(a, (n - 1) as nat), n - 1)
    }
}

/// The forward transform: its eight layers.
pub open spec fn ntt_spec(a: Seq<i32>) -> Seq<i32> {
    fwd_layers(a, 8)
}

/// The twiddle factors: Montgomery forms of the powers of the 512th root of unity 1753,
/// in bit-reversed order, centered.
fn zeta_table() -> (t: [i32; 256])
    ensures
        t@ == zetas_spec(),
        forall|i: int| 0 <= i < 256 ==> -QUANTA < #[trigger] t@[i] < QUANTA,
{
    let t: [i32; 256] = [
        0, 25847, -2608894, -518909, 237124, -777960, -876248, 466468,
        1826347, 2353451, -359251, -2091905, 3119733, -2884855, 3111497, 2680103,
        2725464, 1024112, -1079900, 3585928, -549488, -1119584, 2619752, -2108549,
        -2118186, -3859737, -1399561, -3277672, 1757237, -19422, 4010497, 280005,
        2706023, 95776, 3077325, 3530437, -1661693, -3592148, -2537516, 3915439,
        -3861115, -3043716, 3574422, -2867647, 3539968, -300467, 2348700, -539299,
        -1699267, -1643818, 3505694, -3821735, 3507263, -2140649, -1600420, 3699596,
        811944, 531354, 954230, 3881043, 3900724, -2556880, 2071892, -2797779,
        -3930395, -1528703, -3677745, -3041255, -1452451, 3475950, 2176455, -1585221,
        -1257611, 1939314, -4083598, -1000202, -3190144, -3157330, -3632928, 126922,
        3412210, -983419, 2147896, 2715295, -2967645, -3693493, -411027, -2477047,
        -671102, -1228525, -22981, -1308169, -381987, 1349076, 1852771, -1430430,
        -3343383, 264944, 508951, 3097992, 44288, -1100098, 904516, 3958618,
        -3724342, -8578, 1653064, -3249728, 2389356, -210977, 759969, -1316856,
        189548, -3553272, 3159746, -1851402, -2409325, -177440, 1315589, 1341330,
        1285669, -1584928, -812732, -1439742, -3019102, -3881060, -3628969, 3839961,
        2091667, 3407706, 2316500, 3817976, -3342478, 2244091, -2446433, -3562462,
        266997, 2434439, -1235728, 3513181, -3520352, -3759364, -1197226, -3193378,
        900702, 1859098, 909542, 819034, 495491, -1613174, -43260, -522500,
        -655327, -3122442, 2031748, 3207046, -3556995, -525098, -768622, -3595838,
        342297, 286988, -2437823, 4108315, 3437287, -3342277, 1735879, 203044,
        2842341, 2691481, -2590150, 1265009, 4055324, 1247620, 2486353, 1595974,
        -3767016, 1250494, 2635921, -3548272, -2994039, 1869119, 1903435, -1050970,
        -1333058, 1237275, -3318210, -1430225, -451100, 1312455, 3306115, -1962642,
        -1279661, 1917081, -2546312, -1374803, 1500165, 777191, 2235880, 3406031,
        -542412, -2831860, -1671176, -1846953, -2584293, -3724270, 594136, -3776993,
        -2013608, 2432395, 2454455, -164721, 1957272, 3369112, 185531, -1207385,
        -3183426, 162844, 1616392, 3014001, 810149, 1652634, -3694233, -1799107,
        -3038916, 3523897, 3866901, 269760, 2213111, -975884, 1717735, 472078,
        -426683, 1723600, -1803090, 1910376, -1667432, -1104333, -260646, -3833893,
        -2939036, -2235985, -420899, -2286327, 183443, -976891, 1612842, -3545687,
        -554416, 3919660, -48306, -1362209, 3937738, 1400424, -846154, 1976782,
    ];
    assert(forall|i: int| 0 <= i < 256 ==> -QUANTA < #[trigger] t@[i] < QUANTA);
    assert(t@ =~= zetas_spec());
    t
}

/// Forward layer `level` in place: each block of `2 len` coefficients goes through its
/// butterflies with the block's twiddle factor.
fn fwd_layer_in_place(a: &mut Vec<i32>, zetas: &[i32; 256], level: usize, len: usize, nb: usize)
    requires
        old(a)@.len() == ELEMENTS,
        level < 8,
        len == layer_len(level as int),
        nb == layer_blocks(level as int),
        len * nb == 128,
        zetas@ == zetas_spec(),
        forall|i: int| 0 <= i < 256 ==> -QUANTA < #[trigger] zetas@[i] < QUANTA,
        all_below(old(a)@, NTT_INPUT_BOUND + level * QUANTA),
    ensures
        final(a)@.len() == ELEMENTS,
        final(a)@ == fwd_layer(old(a)@, level as int),
        all_below(final(a)@, NTT_INPUT_BOUND + (level + 1) * QUANTA),
{
    let ghost pre = a@;
    let ghost lo: int = NTT_INPUT_BOUND + level * QUANTA;
    let ghost hi: int = lo + QUANTA;
    assert(nb <= 128 && len >= 1);
    let mut b: usize = 0;
    let mut start: usize = 0;
    while b < nb
        invariant
            forall|i: int| 0 <= i < 256 ==> -QUANTA < #[trigger] zetas@[i] < QUANTA,
            a@.len() == ELEMENTS,
            level < 8,
            len * nb == 128,
            len >= 1,
            b <= nb,
            start == 2 * len * b,
            nb <= 128,
            lo == NTT_INPUT_BOUND + level * QUANTA,
            hi == lo + QUANTA,
            nb == layer_blocks(level as int),
            len == layer_len(level as int),
            zetas@ == zetas_spec(),
            pre.len() == ELEMENTS,
            forall|i: int| 0 <= i < 256 && i < start ==> -hi < #[trigger] a@[i] < hi,
            forall|i: int| 0 <= i < 256 && i >= start ==> -lo < #[trigger] a@[i] < lo,
            forall|i: int| 0 <= i < 256 && i < start ==> #[trigger] a@[i] == fwd_layer(pre, level as int)[i],
            forall|i: int| 0 <= i < 256 && i >= start ==> #[trigger] a@[i] == pre[i],
        decreases nb - b,
    {
        assert(start + 2 * len <= 256) by (nonlinear_arith)
            requires
                start == 2 * len * b,
                b < nb,
                len * nb == 128,
        ;
        let zeta = zetas[nb + b];
        let mut j: usize = start;
        while j < start + len
            invariant
                a@.len() == ELEMENTS,
                start + 2 * len <= 256,
                start <= j <= start + len,
                -QUANTA < zeta < QUANTA,
                lo == NTT_INPUT_BOUND + level * QUANTA,
                level < 8,
                hi == lo + QUANTA,
                len >= 1,
                start == 2 * len * b,
                zeta == zetas_spec()[layer_blocks(level as int) + b],
                len == layer_len(level as int),
                pre.len() == ELEMENTS,
                forall|i: int|
                    0 <= i < 256 && done_in_layer(i, start as int, j as int, len as int) ==> -hi
                        < #[trigger] a@[i] < hi,
                forall|i: int|
                    0 <= i < 256 && !done_in_layer(i, start as int, j as int, len as int) ==> -lo
                        < #[trigger] a@[i] < lo,
                forall|i: int|
                    0 <= i < 256 && done_in_layer(i, start as int, j as int, len as int) ==> #[trigger] a@[i]
                        == fwd_layer(pre, level as int)[i],
                forall|i: int|
                    0 <= i < 256 && !done_in_layer(i, start as int, j as int, len as int) ==> #[trigger] a@[i]
                        == pre[i],
            decreases start + len - j,
        {
            let x = a[j];
            let y = a[j + len];
            proof {
                assert(b * (2 * len) == 2 * len * b) by (nonlinear_arith);
                lemma_fundamental_div_mod_converse(j as int, 2 * len, b as int, j - start);
                lemma_fundamental_div_mod_converse(j + len, 2 * len, b as int, j + len - start);
            }
            assert(!done_in_layer(j as int, start as int, j as int, len as int));
            assert(!done_in_layer(j + len, start as int, j as int, len as int));
            assert(-(QUANTA as int) * 0x8000_0000 <= (zeta as i64) * (y as i64) <= (QUANTA as int) * 0x8000_0000) by (nonlinear_arith)
                requires
                    -QUANTA < zeta < QUANTA,
                    -0x8000_0000 <= y < 0x8000_0000,
            ;
            let t = artifact_montgomery_reduce((zeta as i64) * (y as i64));
            a.set(j + len, x - t);
            a.set(j, x + t);
            j = j + 1;
        }
        assert(2 * len * (b + 1) == 2 * len * b + 2 * len) by (nonlinear_arith);
        assert forall|i: int| 0 <= i < 256 && i < start + 2 * len implies #[trigger] a@[i] == fwd_layer(pre, level as int)[i] by {
            assert(done_in_layer(i, start as int, (start + len) as int, len as int));
        }
        start = start + 2 * len;
        b = b + 1;
    }
    assert(start == 256) by (nonlinear_arith)
        requires
            start == 2 * len * b,
            b == nb,
            len * nb == 128,
    ;
    assert(a@ =~= fwd_layer(pre, level as int));
}

/// In-place forward number-theoretic transform (bit-reversed output). Each of the eight
/// layers adds less than q to a coefficient's magnitude.
pub fn ntt(a: &mut Vec<i32>)
    requires
        old(a)@.len() == ELEMENTS,
        all_below(old(a)@, NTT_INPUT_BOUND as int),
    ensures
        final(a)@.len() == ELEMENTS,
        final(a)@ == ntt_spec(old(a)@),
        all_below(final(a)@, NTT_OUTPUT_BOUND as int),
{
    let zetas = zeta_table();
    let mut len: usize = 128;
    let mut nb: usize = 1;
    let mut level: usize = 0;
    while level < 8
        invariant
            forall|i: int| 0 <= i < 256 ==> -QUANTA < #[trigger] zetas@[i] < QUANTA,
            a@.len() == ELEMENTS,
            level <= 8,
            level < 8 ==> len == layer_len(level as int) && len * nb == 128 && nb == layer_blocks(level as int),
            zetas@ == zetas_spec(),
            a@ == fwd_layers(old(a)@, level as nat),
            all_below(a@, NTT_INPUT_BOUND + level * QUANTA),
        decreases 8 - level,
    {
        fwd_layer_in_place(a, &zetas, level, len, nb);
        if level < 7 {
            proof {
                lemma_layer_step(level as int);
                let h = layer_len(level as int + 1);
                assert(h * (nb * 2) == 128) by (nonlinear_arith)
                    requires
                        len == 2 * h,
                        len * nb == 128,
                ;
            }
        }
        len = len / 2;
        nb = nb * 2;
        level = level + 1;
    }
}

/// Half-width of the butterflies of inverse layer `level`: 1 doubled `level` times.
pub open spec fn inv_layer_len(level: int) -> int {
    layer_len(7 - level)
}

/// Exclusive bound on the coefficients before inverse layer `level`: 2^level (q + 1).
pub open spec fn inv_layer_bound(level: int) -> int {
    (QUANTA + 1) * (if level >= 8 { 256 } else { layer_len(7 - level) })
}

/// Inverse layer `level` applied to `a`: in each block of `2 len` coefficients the pair
/// `(x, y)` at offsets `o` and `o + len` becomes `x + y` and the Montgomery product of the
/// block's negated twiddle factor and `x - y`.
pub open spec fn inv_layer(a: Seq<i32>, level: int) -> Seq<i32> {
    let len = inv_layer_len(level);
    Seq::new(
        ELEMENTS as nat,
        |x: int|
            {
                let z = -zetas_spec()[2 * layer_len(level) - x / (2 * len) - 1];
                if x % (2 * len) < len {
                    (a[x] + a[x + len]) as i32
                } else {
                    montgomery_spec(z * (a[x - len] - a[x])) as i32
                }
            },
    )
}

/// The first `n` inverse layers.
pub open spec fn inv_layers(a: Seq<i32>, n: nat) -> Seq<i32>
    decreases n,
{
    if n == 0 {
        a
    } else {
        inv_layer(inv_layers(a, (n - 1) as nat), n - 1)
    }
}

/// The inverse transform: its eight layers, then each coefficient times `INVNTT_SCALE`
/// through one Montgomery step.
pub open spec fn invntt_spec(a: Seq<i32>) -> Seq<i32> {
    Seq::new(ELEMENTS as nat, |x: int| montgomery_spec(INVNTT_SCALE * inv_layers(a, 8)[x]) as i32)
}

/// Inverse layer `level` in place.
fn inv_layer_in_place(a: &mut Vec<i32>, zetas: &[i32; 256], level: usize, len: usize, nb: usize)
    requires
        old(a)@.len() == ELEMENTS,
        level < 8,
        len == inv_layer_len(level as int),
        nb == layer_len(level as int),
        len * nb == 128,
        zetas@ == zetas_spec(),
        forall|i: int| 0 <= i < 256 ==> -QUANTA < #[trigger] zetas@[i] < QUANTA,
        all_below(old(a)@, inv_layer_bound(level as int)),
    ensures
        final(a)@.len() == ELEMENTS,
        final(a)@ == inv_layer(old(a)@, level as int),
        all_below(final(a)@, inv_layer_bound(level as int + 1)),
{
    let ghost pre = a@;
    let ghost lo: int = inv_layer_bound(level as int);
    let ghost hi: int = inv_layer_bound(level as int + 1);
    assert(hi == 2 * lo);
    assert(hi <= 0x7fff_ffff);
    assert(lo >= QUANTA + 1);
    assert(nb <= 128 && nb >= 1 && len >= 1);
    let mut b: usize = 0;
    let mut start: usize = 0;
    while b < nb
        invariant
            forall|i: int| 0 <= i < 256 ==> -QUANTA < #[trigger] zetas@[i] < QUANTA,
            a@.len() == ELEMENTS,
            level < 8,
            len * nb == 128,
            len >= 1,
            nb <= 128,
            b <= nb,
            start == 2 * len * b,
            hi == 2 * lo,
            hi <= 0x7fff_ffff,
            lo >= QUANTA + 1,
            nb == layer_len(level as int),
            len == inv_layer_len(level as int),
            zetas@ == zetas_spec(),
            pre.len() == ELEMENTS,
            forall|i: int| 0 <= i < 256 && i < start ==> -hi < #[trigger] a@[i] < hi,
            forall|i: int| 0 <= i < 256 && i >= start ==> -lo < #[trigger] a@[i] < lo,
            forall|i: int| 0 <= i < 256 && i < start ==> #[trigger] a@[i] == inv_layer(pre, level as int)[i],
            forall|i: int| 0 <= i < 256 && i >= start ==> #[trigger] a@[i] == pre[i],
        decreases nb - b,
    {
        assert(start + 2 * len <= 256) by (nonlinear_arith)
            requires
                start == 2 * len * b,
                b < nb,
                len * nb == 128,
        ;
        let zeta = -zetas[2 * nb - b - 1];
        let mut j: usize = start;
        while j < start + len
            invariant
                a@.len() == ELEMENTS,
                start + 2 * len <= 256,
                start <= j <= start + len,
                -QUANTA < zeta < QUANTA,
                hi == 2 * lo,
                hi <= 0x7fff_ffff,
                lo >= QUANTA + 1,
                len >= 1,
                start == 2 * len * b,
                zeta == -zetas_spec()[2 * layer_len(level as int) - b - 1],
                len == inv_layer_len(level as int),
                pre.len() == ELEMENTS,
                forall|i: int|
                    0 <= i < 256 && done_in_layer(i, start as int, j as int, len as int) ==> -hi
                        < #[trigger] a@[i] < hi,
                forall|i: int|
                    0 <= i < 256 && !done_in_layer(i, start as int, j as int, len as int) ==> -lo
                        < #[trigger] a@[i] < lo,
                forall|i: int|
                    0 <= i < 256 && done_in_layer(i, start as int, j as int, len as int) ==> #[trigger] a@[i]
                        == inv_layer(pre, level as int)[i],
                forall|i: int|
                    0 <= i < 256 && !done_in_layer(i, start as int, j as int, len as int) ==> #[trigger] a@[i]
                        == pre[i],
            decreases start + len - j,
        {
            let t = a[j];
            let u = a[j + len];
            proof {
                assert(b * (2 * len) == 2 * len * b) by (nonlinear_arith);
                lemma_fundamental_div_mod_converse(j as int, 2 * len, b as int, j - start);
                lemma_fundamental_div_mod_converse(j + len, 2 * len, b as int, j + len - start);
            }
            assert(!done_in_layer(j as int, start as int, j as int, len as int));
            assert(!done_in_layer(j + len, start as int, j as int, len as int));
            let diff: i32 = t - u;
            assert(-(QUANTA as int) * 0x8000_0000 <= (zeta as i64) * (diff as i64) <= (QUANTA as int) * 0x8000_0000) by (nonlinear_arith)
                requires
                    -QUANTA < zeta < QUANTA,
                    -0x8000_0000 <= diff < 0x8000_0000,
            ;
            a.set(j, t + u);
            let r = artifact_montgomery_reduce((zeta as i64) * (diff as i64));
            a.set(j + len, r);
            j = j + 1;
        }
        assert(2 * len * (b + 1) == 2 * len * b + 2 * len) by (nonlinear_arith);
        assert forall|i: int| 0 <= i < 256 && i < start + 2 * len implies #[trigger] a@[i] == inv_layer(pre, level as int)[i] by {
            assert(done_in_layer(i, start as int, (start + len) as int, len as int));
        }
        start = start + 2 * len;
        b = b + 1;
    }
    assert(start == 256) by (nonlinear_arith)
        requires
            start == 2 * len * b,
            b == nb,
            len * nb == 128,
    ;
    assert(a@ =~= inv_layer(pre, level as int));
}

/// In-place inverse transform, with the result multiplied by the Montgomery factor 2^32.
/// Inputs of magnitude at most q give outputs of magnitude below q.
pub fn invntt_tomont(a: &mut Vec<i32>)
    requires
        old(a)@.len() == ELEMENTS,
        all_below(old(a)@, QUANTA + 1),
    ensures
        final(a)@.len() == ELEMENTS,
        final(a)@ == invntt_spec(old(a)@),
        all_below(final(a)@, QUANTA as int),
{
    let zetas = zeta_table();
    let mut len: usize = 1;
    let mut nb: usize = 128;
    let mut level: usize = 0;
    assert(layer_len(7) == 1);
    assert(inv_layer_bound(0) == (QUANTA + 1) * 1);
    while level < 8
        invariant
            forall|i: int| 0 <= i < 256 ==> -QUANTA < #[trigger] zetas@[i] < QUANTA,
            a@.len() == ELEMENTS,
            level <= 8,
            level < 8 ==> len == inv_layer_len(level as int) && nb == layer_len(level as int) && len * nb == 128,
            zetas@ == zetas_spec(),
            a@ == inv_layers(old(a)@, level as nat),
            all_below(a@, inv_layer_bound(level as int)),
        decreases 8 - level,
    {
        inv_layer_in_place(a, &zetas, level, len, nb);
        if level < 7 {
            proof {
                lemma_layer_step(6 - level as int);
                lemma_layer_step(level as int);
                assert(nb == 2 * layer_len(level as int + 1));
                assert((len * 2) * layer_len(level as int + 1) == 128) by (nonlinear_arith)
                    requires
                        nb == 2 * layer_len(level as int + 1),
                        len * nb == 128,
                ;
            }
        }
        len = len * 2;
        nb = nb / 2;
        level = level + 1;
    }
    let ghost layered = a@;
    let mut j: usize = 0;
    while j < ELEMENTS
        invariant
            a@.len() == ELEMENTS,
            0 <= j <= ELEMENTS,
            layered == inv_layers(old(a)@, 8),
            all_below(layered, inv_layer_bound(8)),
            forall|i: int| 0 <= i < j ==> -QUANTA < #[trigger] a@[i] < QUANTA,
            forall|i: int| 0 <= i < j ==> #[trigger] a@[i] == invntt_spec(old(a)@)[i],
            forall|i: int| j <= i < ELEMENTS ==> #[trigger] a@[i] == layered[i],
        decreases ELEMENTS - j,
    {
        let x = a[j];
        assert(-inv_layer_bound(8) < x < inv_layer_bound(8));
        assert(-(QUANTA as int) * 0x8000_0000 <= (INVNTT_SCALE as i64) * (x as i64) < (QUANTA as int) * 0x8000_0000) by (nonlinear_arith)
            requires
                -0x8000_0000 < x < 0x8000_0000,
        ;
        let r = artifact_montgomery_reduce((INVNTT_SCALE as i64) * (x as i64));
        a.set(j, r);
        j = j + 1;
    }
    assert(a@ =~= invntt_spec(old(a)@));
}

} // verus!
