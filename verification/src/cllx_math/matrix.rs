// cllX-Math: integer matrix diffusion layer.
// Generates invertible (unit upper triangular) matrices and applies them
// blockwise to word sequences, all arithmetic taken modulo 2^32.
use vstd::prelude::*;
use vstd::arithmetic::div_mod::{
    lemma_add_mod_noop, lemma_fundamental_div_mod_converse, lemma_mod_mod, lemma_sub_mod_noop,
};
use crate::base::error::Error;
use super::sums::{
    sigma, lemma_sigma_ext, lemma_sigma_zero, lemma_sigma_single, lemma_sigma_split,
    lemma_sigma_first, lemma_sigma_congruent, lemma_sigma_scale, lemma_sigma_swap, lemma_sigma_restrict,
    lemma_mul_congruent, row_sum, col_sum,
};
use rand::SeedableRng;
use rand::RngCore;
use rand_chacha::ChaCha20Rng;

verus! {

/// The modulus of 32-bit word arithmetic.
pub open spec fn m32() -> int {
    0x1_0000_0000
}

/// The modulus of 64-bit word arithmetic.
pub open spec fn m64() -> int {
    0x1_0000_0000_0000_0000
}

/// The rows of a matrix of words, each as a sequence.
pub open spec fn rows_view(m: Seq<Vec<u32>>) -> Seq<Seq<u32>> {
    m.map_values(|r: Vec<u32>| r@)
}

/// `a` has (at least) `n` rows of (at least) `n` entries.
pub open spec fn covers(a: Seq<Seq<u32>>, n: int) -> bool {
    &&& a.len() >= n
    &&& forall|i: int| 0 <= i < n ==> #[trigger] a[i].len() >= n
}

/// `a` is an `n x n` matrix.
pub open spec fn is_square(a: Seq<Seq<u32>>, n: int) -> bool {
    &&& a.len() == n
    &&& forall|i: int| 0 <= i < n ==> #[trigger] a[i].len() == n
}

/// `a` is an `n x n` upper triangular matrix with ones on its diagonal.
pub open spec fn is_unit_upper(a: Seq<Seq<u32>>, n: int) -> bool {
    &&& is_square(a, n)
    &&& forall|i: int, j: int| 0 <= j < i < n ==> #[trigger] a[i][j] == 0
    &&& forall|i: int| 0 <= i < n ==> #[trigger] a[i][i] == 1
}

/// The sum that back substitution negates to obtain entry `(i, j)` of the inverse of `f`:
/// `sum_{k = i+1}^{j} f[i][k] * g[k][j]`.
pub open spec fn back_sum(f: Seq<Seq<u32>>, g: Seq<Seq<u32>>, i: int, j: int) -> int {
    sigma(i + 1, j + 1, |k: int| f[i][k] as int * g[k][j] as int)
}

/// `g` is the inverse of `f` computed by back substitution modulo 2^32: unit upper
/// triangular, and each entry above the diagonal is minus the sum of the products
/// of the row of `f` with the already computed part of its column.
pub open spec fn is_back_sub_inverse(f: Seq<Seq<u32>>, g: Seq<Seq<u32>>, n: int) -> bool {
    &&& is_unit_upper(g, n)
    &&& forall|i: int, j: int|
        0 <= i < j < n ==> #[trigger] g[i][j] as int == (-back_sum(f, g, i, j)) % m32()
}

/// `sum_{j < m} a[i][j] * v[b + j]`: row `i` of the top-left `m x m` block of `a`
/// applied to the `m` words of `v` starting at `b`.
pub open spec fn block_dot(a: Seq<Seq<u32>>, i: int, v: Seq<u32>, b: int, m: int) -> int {
    sigma(0, m, |j: int| a[i][j] as int * v[b + j] as int)
}

/// Start of the block of size `n` that holds position `k`.
pub open spec fn block_start_of(n: int, k: int) -> int {
    (k / n) * n
}

/// Length of the block of size `n` starting at `b` in a sequence of length `len`
/// (the last block may be shorter).
pub open spec fn block_len_at(n: int, len: int, b: int) -> int {
    if len - b < n {
        len - b
    } else {
        n
    }
}

/// Blockwise application of `a` to `v`: `v` is cut into blocks of `n` words (the last
/// one possibly shorter, using the top-left part of `a`), and each output word is the
/// matching row of `a` times its block, modulo 2^32.
pub open spec fn spec_diffuse(a: Seq<Seq<u32>>, n: int, v: Seq<u32>) -> Seq<u32> {
    Seq::new(
        v.len(),
        |k: int|
            {
                let b = block_start_of(n, k);
                (block_dot(a, k - b, v, b, block_len_at(n, v.len() as int, b)) % m32()) as u32
            },
    )
}

/// Word `pos` of the ChaCha20 random stream seeded by `seed` (as produced by
/// `rand_chacha::ChaCha20Rng`).
pub uninterp spec fn chacha20_rng_word(seed: Seq<u8>, pos: u128) -> u32;

/// Trusted: seeds `rand_chacha::ChaCha20Rng::from_seed` with `seed`, moves it to word
/// `pos` with `set_word_pos` and returns `next_u32`. The word depends on the seed and the
/// position only; nothing more is claimed of its value.
#[verifier::external_body]
fn rng_word(seed: &[u8; 32], pos: u128) -> (w: u32)
    ensures
        w == chacha20_rng_word(seed@, pos),
{
    let mut rng = ChaCha20Rng::from_seed(*seed);
    rng.set_word_pos(pos);
    rng.next_u32()
}

/// Number of entries strictly above the diagonal in the first `i` rows of an
/// `n x n` matrix.
pub open spec fn row_start(n: int, i: int) -> int
    decreases i,
{
    if i <= 0 {
        0
    } else {
        row_start(n, i - 1) + (n - i)
    }
}

/// Position in the random stream of the entry `(i, j)` (`i < j`): entries above the
/// diagonal are drawn in row-major order.
pub open spec fn upper_pos(n: int, i: int, j: int) -> int {
    row_start(n, i) + (j - i - 1)
}

/// The forward matrix generated from `seed`: ones on the diagonal, zeros below it, and
/// above it the random words taken modulo 256 in row-major order.
pub open spec fn spec_forward_entry(seed: Seq<u8>, n: int, i: int, j: int) -> u32 {
    if i == j {
        1
    } else if i < j {
        chacha20_rng_word(seed, upper_pos(n, i, j) as u128) % 256
    } else {
        0
    }
}

/// The forward matrix generated from `seed` as a whole.
pub open spec fn spec_forward(seed: Seq<u8>, n: int) -> Seq<Seq<u32>> {
    Seq::new(n as nat, |i: int| Seq::new(n as nat, |j: int| spec_forward_entry(seed, n, i, j)))
}

/// The generated forward matrix is unit upper triangular.
pub proof fn lemma_forward_unit_upper(seed: Seq<u8>, n: int)
    requires
        n >= 0,
    ensures
        is_unit_upper(spec_forward(seed, n), n),
{
}

/// Matrix for integer diffusion (N x N).
#[derive(Clone)]
pub struct DiffusionMatrix {
    pub n: usize,
    pub forward: Vec<Vec<u32>>,
    pub inverse: Vec<Vec<u32>>,
}

/// One step of a 64-bit wrapping accumulation keeps the residue of the exact sum.
proof fn lemma_wrap_step(total: int, s: u64, p: u64)
    requires
        s as int == total % m64(),
    ensures
        (if s + p > u64::MAX { (s + p - m64()) as u64 } else { (s + p) as u64 }) as int == (total
            + p) % m64(),
{
    lemma_add_mod_noop(total, p as int, m64());
    assert((p as int) % m64() == p as int);
    assert(s as int % m64() == s as int);
    if s + p > u64::MAX {
        lemma_fundamental_div_mod_converse(s + p, m64(), 1, s + p - m64());
    } else {
        lemma_fundamental_div_mod_converse(s + p, m64(), 0, s + p);
    }
}

/// Keeping the low 32 bits of a 64-bit residue gives the 32-bit residue.
proof fn lemma_low_word(total: int, s: u64)
    requires
        s as int == total % m64(),
    ensures
        (s & 0xFFFF_FFFF) as int == total % m32(),
{
    assert((s & 0xFFFF_FFFF) == s % 0x1_0000_0000) by (bit_vector);
    lemma_mod_mod(total, m32(), m32());
    assert(m32() * m32() == m64());
}

/// The product of two words fits in 64 bits.
proof fn lemma_word_product(a: u32, b: u32)
    ensures
        (a as int) * (b as int) <= u64::MAX,
{
    assert((a as int) * (b as int) <= 0xFFFF_FFFFint * 0xFFFF_FFFFint) by (nonlinear_arith)
        requires
            a as int <= 0xFFFF_FFFF,
            b as int <= 0xFFFF_FFFF,
            0 <= a,
            0 <= b,
    ;
}

/// Word arithmetic negation: `0 - (t mod 2^32)` wrapped is `-t mod 2^32`.
proof fn lemma_word_neg(t: int, x: u32)
    requires
        x as int == t % m32(),
    ensures
        (if 0 - x < 0 { (0 - x + m32()) as u32 } else { (0 - x) as u32 }) as int == (-t)
            % m32(),
{
    lemma_sub_mod_noop(0, t, m32());
    assert(0int % m32() == 0);
    if x == 0 {
        assert((0 - 0int) % m32() == 0);
    } else {
        lemma_fundamental_div_mod_converse(0 - x as int, m32(), -1, m32() - x);
    }
}

/// The stream positions used for an `n x n` matrix stay far below 2^128.
proof fn lemma_row_start_bound(n: int, i: int)
    requires
        0 <= i <= n,
        n <= usize::MAX,
    ensures
        0 <= row_start(n, i) <= i * n,
        row_start(n, i) + n <= u128::MAX,
    decreases i,
{
    if i > 0 {
        lemma_row_start_bound(n, i - 1);
        assert((i - 1) * n + n == i * n) by (nonlinear_arith);
    }
    assert(i * n <= n * n) by (nonlinear_arith)
        requires
            0 <= i <= n,
    ;
    assert(n * n + n <= u128::MAX) by (nonlinear_arith)
        requires
            0 <= n <= 0xFFFF_FFFF_FFFF_FFFFint,
    ;
}

/// Row `i` of `f` times column `l` of `g`, over the first `m` indices.
pub open spec fn prod_entry(f: Seq<Seq<u32>>, g: Seq<Seq<u32>>, m: int, i: int, l: int) -> int {
    sigma(0, m, |k: int| f[i][k] as int * g[k][l] as int)
}

/// Law: the matrix times its back-substitution inverse is the identity modulo 2^32, and
/// so is every top-left `m x m` block of the product.
pub proof fn lemma_product_identity(f: Seq<Seq<u32>>, g: Seq<Seq<u32>>, n: int, m: int, i: int, l: int)
    requires
        0 < m <= n,
        0 <= i < m,
        0 <= l < m,
        is_unit_upper(f, n),
        is_back_sub_inverse(f, g, n),
    ensures
        prod_entry(f, g, m, i, l) % m32() == (if i == l { 1int } else { 0int }),
{
    let term = |k: int| f[i][k] as int * g[k][l] as int;
    assert forall|k: int| 0 <= k < m && (k < i || k > l) implies #[trigger] term(k) == 0 by {
        if k < i {
            assert(f[i][k] == 0);
        } else {
            assert(g[k][l] == 0);
        }
    }
    if i > l {
        lemma_sigma_zero(0, m, term);
    } else if i == l {
        lemma_sigma_single(0, i, m, term);
        assert(f[i][i] == 1 && g[i][i] == 1);
    } else {
        lemma_sigma_restrict(0, i, l + 1, m, term);
        lemma_sigma_first(i, l + 1, term);
        let s = back_sum(f, g, i, l);
        lemma_sigma_ext(i + 1, l + 1, term, |k: int| f[i][k] as int * g[k][l] as int);
        assert(f[i][i] == 1);
        assert(g[i][l] as int == (-s) % m32());
        lemma_add_mod_noop(-s, s, m32());
        assert((s % m32()) % m32() == s % m32()) by {
            lemma_mod_mod(s, m32(), 1);
        }
    }
}

/// Row `r` of the top-left `m x m` block of `f` applied to the vector `z`.
pub open spec fn row_apply(f: Seq<Seq<u32>>, r: int, m: int, z: spec_fn(int) -> int) -> int {
    sigma(0, m, |k: int| f[r][k] as int * z(k))
}

/// Word `i` of a block after diffusing with `f` and then with `g` (each modulo 2^32).
pub open spec fn twice_applied(
    f: Seq<Seq<u32>>,
    g: Seq<Seq<u32>>,
    m: int,
    v: Seq<u32>,
    b: int,
    i: int,
) -> int {
    sigma(0, m, |l: int| g[i][l] as int * (block_dot(f, l, v, b, m) % m32())) % m32()
}

/// `(a + r) == (c + r)` modulo 2^32 with `a`, `c` words forces `a == c`.
proof fn lemma_cancel_add(a: int, c: int, r: int)
    requires
        0 <= a < m32(),
        0 <= c < m32(),
        (a + r) % m32() == (c + r) % m32(),
    ensures
        a == c,
{
    lemma_sub_mod_noop(a + r, r, m32());
    lemma_sub_mod_noop(c + r, r, m32());
    lemma_fundamental_div_mod_converse(a, m32(), 0, a);
    lemma_fundamental_div_mod_converse(c, m32(), 0, c);
}

/// A unit upper triangular matrix is injective on vectors of words modulo 2^32
/// (shown from the last row upwards).
proof fn lemma_unit_upper_injective(
    f: Seq<Seq<u32>>,
    n: int,
    m: int,
    z: spec_fn(int) -> int,
    x: spec_fn(int) -> int,
    i: int,
)
    requires
        0 < m <= n,
        0 <= i <= m,
        is_unit_upper(f, n),
        forall|k: int| 0 <= k < m ==> 0 <= #[trigger] z(k) < m32(),
        forall|k: int| 0 <= k < m ==> 0 <= #[trigger] x(k) < m32(),
        forall|r: int|
            0 <= r < m ==> #[trigger] row_apply(f, r, m, z) % m32() == row_apply(f, r, m, x) % m32(),
    ensures
        forall|k: int| i <= k < m ==> #[trigger] z(k) == x(k),
    decreases m - i,
{
    if i < m {
        lemma_unit_upper_injective(f, n, m, z, x, i + 1);
        let fz = |k: int| f[i][k] as int * z(k);
        let fx = |k: int| f[i][k] as int * x(k);
        assert forall|k: int| 0 <= k < i implies #[trigger] fz(k) == 0 && fx(k) == 0 by {
            assert(f[i][k] == 0);
        }
        lemma_sigma_split(0, i, m, fz);
        lemma_sigma_split(0, i, m, fx);
        lemma_sigma_zero(0, i, fz);
        lemma_sigma_zero(0, i, fx);
        lemma_sigma_first(i, m, fz);
        lemma_sigma_first(i, m, fx);
        lemma_sigma_ext(i + 1, m, fz, fx);
        assert(f[i][i] == 1);
        assert(row_apply(f, i, m, z) % m32() == row_apply(f, i, m, x) % m32());
        lemma_sigma_ext(0, m, fz, |k: int| f[i][k] as int * z(k));
        lemma_sigma_ext(0, m, fx, |k: int| f[i][k] as int * x(k));
        lemma_cancel_add(z(i), x(i), sigma(i + 1, m, fz));
    }
}

/// One block: applying `g` after `f` (each modulo 2^32) gives back the block's words.
proof fn lemma_block_roundtrip(
    f: Seq<Seq<u32>>,
    g: Seq<Seq<u32>>,
    n: int,
    m: int,
    v: Seq<u32>,
    b: int,
)
    requires
        0 < m <= n,
        0 <= b,
        b + m <= v.len(),
        is_unit_upper(f, n),
        is_back_sub_inverse(f, g, n),
    ensures
        forall|i: int| 0 <= i < m ==> #[trigger] twice_applied(f, g, m, v, b, i) == v[b + i] as int,
{
    let x = |k: int| v[b + k] as int;
    let y = |l: int| block_dot(f, l, v, b, m) % m32();
    let t = |k: int| sigma(0, m, |l: int| g[k][l] as int * y(l));
    let z = |k: int| t(k) % m32();
    assert forall|r: int| 0 <= r < m implies #[trigger] row_apply(f, r, m, z) % m32() == row_apply(
        f,
        r,
        m,
        x,
    ) % m32() by {
        // f z == f t (mod 2^32)
        assert forall|k: int| 0 <= k < m implies #[trigger] (f[r][k] as int * z(k)) % m32() == (
        f[r][k] as int * t(k)) % m32() by {
            lemma_mod_mod(t(k), m32(), 1);
            lemma_mul_congruent(f[r][k] as int, z(k), t(k), m32());
        }
        lemma_sigma_congruent(
            0,
            m,
            |k: int| f[r][k] as int * z(k),
            |k: int| f[r][k] as int * t(k),
            m32(),
        );
        // f t == (f g) y, exchanging the order of summation
        let h = |k: int, l: int| f[r][k] as int * (g[k][l] as int * y(l));
        assert forall|k: int| 0 <= k < m implies #[trigger] (f[r][k] as int * t(k)) == row_sum(
            m,
            h,
            k,
        ) by {
            lemma_sigma_scale(
                0,
                m,
                f[r][k] as int,
                |l: int| g[k][l] as int * y(l),
                |l: int| h(k, l),
            );
        }
        lemma_sigma_ext(0, m, |k: int| f[r][k] as int * t(k), |k: int| row_sum(m, h, k));
        lemma_sigma_swap(m, m, h);
        assert forall|l: int| 0 <= l < m implies #[trigger] col_sum(m, h, l) == y(l) * prod_entry(
            f,
            g,
            m,
            r,
            l,
        ) by {
            assert forall|k: int| 0 <= k < m implies #[trigger] h(k, l) == y(l) * (f[r][k] as int
                * g[k][l] as int) by {
                assert(f[r][k] as int * (g[k][l] as int * y(l)) == y(l) * (f[r][k] as int
                    * g[k][l] as int)) by (nonlinear_arith);
            }
            lemma_sigma_scale(
                0,
                m,
                y(l),
                |k: int| f[r][k] as int * g[k][l] as int,
                |k: int| h(k, l),
            );
        }
        // (f g) y == y (mod 2^32) since f g is the identity
        let delta = |l: int| if l == r { y(l) } else { 0int };
        assert forall|l: int| 0 <= l < m implies #[trigger] col_sum(m, h, l) % m32() == delta(l)
            % m32() by {
            lemma_product_identity(f, g, n, m, r, l);
            lemma_mul_congruent(
                y(l),
                prod_entry(f, g, m, r, l),
                if l == r { 1int } else { 0int },
                m32(),
            );
        }
        lemma_sigma_congruent(0, m, |l: int| col_sum(m, h, l), delta, m32());
        lemma_sigma_single(0, r, m, delta);
        // y == f x (mod 2^32)
        lemma_mod_mod(block_dot(f, r, v, b, m), m32(), 1);
        lemma_sigma_ext(0, m, |j: int| f[r][j] as int * v[b + j] as int, |k: int| f[r][k] as int * x(k));
    }
    assert forall|k: int| 0 <= k < m implies 0 <= #[trigger] z(k) < m32() by {}
    assert forall|k: int| 0 <= k < m implies 0 <= #[trigger] x(k) < m32() by {}
    lemma_unit_upper_injective(f, n, m, z, x, 0);
    assert forall|i: int| 0 <= i < m implies #[trigger] twice_applied(f, g, m, v, b, i) == v[b
        + i] as int by {
        lemma_sigma_ext(0, m, |l: int| g[i][l] as int * (block_dot(f, l, v, b, m) % m32()), |l: int| g[i][l] as int * y(l));
        assert(z(i) == x(i));
    }
}

/// Law: with `g` the back-substitution inverse of a unit upper triangular `f`,
/// diffusing with `g` undoes diffusing with `f`, for every word sequence.
pub proof fn lemma_diffuse_roundtrip(f: Seq<Seq<u32>>, g: Seq<Seq<u32>>, n: int, v: Seq<u32>)
    requires
        n > 0,
        is_unit_upper(f, n),
        is_back_sub_inverse(f, g, n),
    ensures
        spec_diffuse(g, n, spec_diffuse(f, n, v)) == v,
{
    let y = spec_diffuse(f, n, v);
    let w = spec_diffuse(g, n, y);
    assert forall|k: int| 0 <= k < v.len() implies #[trigger] w[k] == v[k] by {
        let b = block_start_of(n, k);
        let q = k / n;
        let i = k % n;
        vstd::arithmetic::div_mod::lemma_fundamental_div_mod(k, n);
        vstd::arithmetic::div_mod::lemma_mod_pos_bound(k, n);
        vstd::arithmetic::mul::lemma_mul_is_commutative(q, n);
        assert(b == q * n);
        assert(k == b + i);
        assert(0 <= i < n);
        let m = block_len_at(n, v.len() as int, b);
        assert(0 < m <= n);
        assert(i < m);
        assert forall|l: int| 0 <= l < m implies #[trigger] y[b + l] as int == block_dot(f, l, v, b, m)
            % m32() by {
            lemma_fundamental_div_mod_converse(b + l, n, q, l);
            assert(block_start_of(n, b + l) == b);
        }
        lemma_sigma_ext(
            0,
            m,
            |j: int| g[i][j] as int * y[b + j] as int,
            |l: int| g[i][l] as int * (block_dot(f, l, v, b, m) % m32()),
        );
        lemma_block_roundtrip(f, g, n, m, v, b);
        assert(twice_applied(f, g, m, v, b, i) == v[b + i] as int);
        assert(block_len_at(n, y.len() as int, b) == m);
        assert(w[k] == (block_dot(g, i, y, b, m) % m32()) as u32);
    }
    assert(w =~= v);
}

/// One block: applying `f` after `g` (each modulo 2^32) gives back the block's words.
proof fn lemma_block_inverse_first(
    f: Seq<Seq<u32>>,
    g: Seq<Seq<u32>>,
    n: int,
    m: int,
    w: Seq<u32>,
    b: int,
)
    requires
        0 < m <= n,
        0 <= b,
        b + m <= w.len(),
        is_unit_upper(f, n),
        is_back_sub_inverse(f, g, n),
    ensures
        forall|r: int| 0 <= r < m ==> #[trigger] twice_applied(g, f, m, w, b, r) == w[b + r] as int,
{
    let y = |l: int| w[b + l] as int;
    let t = |k: int| sigma(0, m, |l: int| g[k][l] as int * y(l));
    let z = |k: int| t(k) % m32();
    assert forall|r: int| 0 <= r < m implies #[trigger] twice_applied(g, f, m, w, b, r) == w[b + r] as int by {
        // g applied to the block is t
        assert forall|k: int| 0 <= k < m implies #[trigger] block_dot(g, k, w, b, m) == t(k) by {
            lemma_sigma_ext(0, m, |j: int| g[k][j] as int * w[b + j] as int, |l: int| g[k][l] as int * y(l));
        }
        lemma_sigma_ext(
            0,
            m,
            |k: int| f[r][k] as int * (block_dot(g, k, w, b, m) % m32()),
            |k: int| f[r][k] as int * z(k),
        );
        // f z == f t (mod 2^32)
        assert forall|k: int| 0 <= k < m implies #[trigger] (f[r][k] as int * z(k)) % m32() == (
        f[r][k] as int * t(k)) % m32() by {
            lemma_mod_mod(t(k), m32(), 1);
            lemma_mul_congruent(f[r][k] as int, z(k), t(k), m32());
        }
        lemma_sigma_congruent(
            0,
            m,
            |k: int| f[r][k] as int * z(k),
            |k: int| f[r][k] as int * t(k),
            m32(),
        );
        // f t == (f g) y, exchanging the order of summation
        let h = |k: int, l: int| f[r][k] as int * (g[k][l] as int * y(l));
        assert forall|k: int| 0 <= k < m implies #[trigger] (f[r][k] as int * t(k)) == row_sum(
            m,
            h,
            k,
        ) by {
            lemma_sigma_scale(
                0,
                m,
                f[r][k] as int,
                |l: int| g[k][l] as int * y(l),
                |l: int| h(k, l),
            );
        }
        lemma_sigma_ext(0, m, |k: int| f[r][k] as int * t(k), |k: int| row_sum(m, h, k));
        lemma_sigma_swap(m, m, h);
        assert forall|l: int| 0 <= l < m implies #[trigger] col_sum(m, h, l) == y(l) * prod_entry(
            f,
            g,
            m,
            r,
            l,
        ) by {
            assert forall|k: int| 0 <= k < m implies #[trigger] h(k, l) == y(l) * (f[r][k] as int
                * g[k][l] as int) by {
                assert(f[r][k] as int * (g[k][l] as int * y(l)) == y(l) * (f[r][k] as int
                    * g[k][l] as int)) by (nonlinear_arith);
            }
            lemma_sigma_scale(
                0,
                m,
                y(l),
                |k: int| f[r][k] as int * g[k][l] as int,
                |k: int| h(k, l),
            );
        }
        // (f g) y == y (mod 2^32) since f g is the identity
        let delta = |l: int| if l == r { y(l) } else { 0int };
        assert forall|l: int| 0 <= l < m implies #[trigger] col_sum(m, h, l) % m32() == delta(l)
            % m32() by {
            lemma_product_identity(f, g, n, m, r, l);
            lemma_mul_congruent(
                y(l),
                prod_entry(f, g, m, r, l),
                if l == r { 1int } else { 0int },
                m32(),
            );
        }
        lemma_sigma_congruent(0, m, |l: int| col_sum(m, h, l), delta, m32());
        lemma_sigma_single(0, r, m, delta);
        lemma_fundamental_div_mod_converse(y(r), m32(), 0, y(r));
    }
}

/// Law: with `g` the back-substitution inverse of a unit upper triangular `f`,
/// diffusing with `f` undoes diffusing with `g`, for every word sequence (the other
/// order of `lemma_diffuse_roundtrip`).
pub proof fn lemma_diffuse_inverse_roundtrip(f: Seq<Seq<u32>>, g: Seq<Seq<u32>>, n: int, v: Seq<u32>)
    requires
        n > 0,
        is_unit_upper(f, n),
        is_back_sub_inverse(f, g, n),
    ensures
        spec_diffuse(f, n, spec_diffuse(g, n, v)) == v,
{
    let y = spec_diffuse(g, n, v);
    let w = spec_diffuse(f, n, y);
    assert forall|k: int| 0 <= k < v.len() implies #[trigger] w[k] == v[k] by {
        let b = block_start_of(n, k);
        let q = k / n;
        let i = k % n;
        vstd::arithmetic::div_mod::lemma_fundamental_div_mod(k, n);
        vstd::arithmetic::div_mod::lemma_mod_pos_bound(k, n);
        vstd::arithmetic::mul::lemma_mul_is_commutative(q, n);
        assert(b == q * n);
        assert(k == b + i);
        assert(0 <= i < n);
        let m = block_len_at(n, v.len() as int, b);
        assert(0 < m <= n);
        assert(i < m);
        assert forall|l: int| 0 <= l < m implies #[trigger] y[b + l] as int == block_dot(g, l, v, b, m)
            % m32() by {
            lemma_fundamental_div_mod_converse(b + l, n, q, l);
            assert(block_start_of(n, b + l) == b);
        }
        lemma_sigma_ext(
            0,
            m,
            |j: int| f[i][j] as int * y[b + j] as int,
            |l: int| f[i][l] as int * (block_dot(g, l, v, b, m) % m32()),
        );
        lemma_block_inverse_first(f, g, n, m, v, b);
        assert(twice_applied(g, f, m, v, b, i) == v[b + i] as int);
        assert(block_len_at(n, y.len() as int, b) == m);
        assert(w[k] == (block_dot(f, i, y, b, m) % m32()) as u32);
    }
    assert(w =~= v);
}

impl DiffusionMatrix {
    /// Generate a new invertible matrix from seed.
    /// Using upper triangular matrix with 1s on diagonal (guaranteed invertible).
    pub fn generate(seed: &[u8; 32], n: usize) -> (r: Result<Self, Error>)
        ensures
            r matches Ok(m) && m.n == n && rows_view(m.forward@) == spec_forward(seed@, n as int)
                && is_back_sub_inverse(rows_view(m.forward@), rows_view(m.inverse@), n as int),
    {
        let mut forward: Vec<Vec<u32>> = Vec::new();
        let mut pos: u128 = 0;
        let mut i: usize = 0;
        while i < n
            invariant
                i <= n,
                pos as int == row_start(n as int, i as int),
                forward.len() == i,
                forall|r: int| 0 <= r < i ==> #[trigger] forward@[r]@ == spec_forward(seed@, n as int)[r],
            decreases n - i,
        {
            proof {
                lemma_row_start_bound(n as int, i as int);
                lemma_row_start_bound(n as int, i as int + 1);
            }
            let mut row: Vec<u32> = Vec::new();
            let mut j: usize = 0;
            while j < n
                invariant
                    i < n,
                    j <= n,
                    row.len() == j,
                    j <= i + 1 ==> pos as int == row_start(n as int, i as int),
                    j > i + 1 ==> pos as int == upper_pos(n as int, i as int, j as int),
                    forall|c: int| 0 <= c < j ==> #[trigger] row@[c] == spec_forward_entry(seed@, n as int, i as int, c),
                    row_start(n as int, i as int) + n <= u128::MAX,
                decreases n - j,
            {
                if j == i {
                    row.push(1);
                } else if j > i {
                    let w = rng_word(seed, pos);
                    row.push(w % 256);
                    pos = pos + 1;
                } else {
                    row.push(0);
                }
                j = j + 1;
            }
            assert(row@ =~= spec_forward(seed@, n as int)[i as int]);
            forward.push(row);
            i = i + 1;
        }
        assert(rows_view(forward@) =~= spec_forward(seed@, n as int));
        let inverse = Self::invert_upper_triangular(&forward, n);
        Ok(DiffusionMatrix { n, forward, inverse })
    }

    /// Back substitution for one column `j` of the inverse of an upper triangular
    /// matrix with ones on its diagonal: entries below `j` are zero, entry `j` is one,
    /// and entries above are computed from the bottom up.
    fn invert_column(matrix: &Vec<Vec<u32>>, n: usize, j: usize) -> (col: Vec<u32>)
        requires
            j < n,
            covers(rows_view(matrix@), n as int),
        ensures
            col@.len() == n,
            col@[j as int] == 1,
            forall|k: int| j < k < n ==> #[trigger] col@[k] == 0,
            forall|i: int|
                0 <= i < j ==> #[trigger] col@[i] as int == (-sigma(
                    i + 1,
                    j + 1,
                    |k: int| matrix@[i]@[k] as int * col@[k] as int,
                )) % m32(),
    {
        let mut col: Vec<u32> = Vec::new();
        let mut k: usize = 0;
        while k < n
            invariant
                k <= n,
                j < n,
                col@.len() == k,
                forall|r: int| 0 <= r < k ==> #[trigger] col@[r] == (if r == j { 1u32 } else { 0u32 }),
            decreases n - k,
        {
            if k == j {
                col.push(1);
            } else {
                col.push(0);
            }
            k = k + 1;
        }
        let ghost init = col@;
        let mut i: usize = j;
        while i > 0
            invariant
                i <= j,
                j < n,
                covers(rows_view(matrix@), n as int),
                col@.len() == n,
                col@[j as int] == 1,
                forall|r: int| j < r < n ==> #[trigger] col@[r] == 0,
                forall|r: int| 0 <= r < i ==> #[trigger] col@[r] == 0,
                forall|r: int|
                    i <= r < j ==> #[trigger] col@[r] as int == (-sigma(
                        r + 1,
                        j + 1,
                        |k: int| matrix@[r]@[k] as int * col@[k] as int,
                    )) % m32(),
            decreases i,
        {
            i = i - 1;
            let ghost before = col@;
            let ghost row = matrix@[i as int]@;
            assert(rows_view(matrix@)[i as int] == row);
            assert(rows_view(matrix@).len() == matrix@.len());
            let mut sum: u64 = 0;
            let mut k: usize = i + 1;
            while k <= j
                invariant
                    i < k <= j + 1,
                    j < n,
                    col@ == before,
                    matrix@.len() >= n,
                    row == matrix@[i as int]@,
                    row.len() >= n,
                    before.len() == n,
                    sum as int == sigma(i + 1, k as int, |c: int| row[c] as int * before[c] as int)
                        % m64(),
                decreases j + 1 - k,
            {
                let a = matrix[i][k];
                let b = col[k];
                proof {
                    lemma_word_product(a, b);
                    lemma_wrap_step(
                        sigma(i + 1, k as int, |c: int| row[c] as int * before[c] as int),
                        sum,
                        (a as u64 * b as u64) as u64,
                    );
                }
                sum = sum.wrapping_add(a as u64 * b as u64);
                k = k + 1;
            }
            let ghost total = sigma(i + 1, j + 1, |c: int| row[c] as int * before[c] as int);
            proof {
                lemma_low_word(total, sum);
                lemma_word_neg(total, (sum & 0xFFFF_FFFF) as u32);
            }
            let v = 0u32.wrapping_sub((sum & 0xFFFF_FFFF) as u32);
            col.set(i, v);
            proof {
                assert forall|r: int| i <= r < j implies #[trigger] col@[r] as int == (-sigma(
                    r + 1,
                    j + 1,
                    |k: int| matrix@[r]@[k] as int * col@[k] as int,
                )) % m32() by {
                    lemma_sigma_ext(
                        r + 1,
                        j + 1,
                        |k: int| matrix@[r]@[k] as int * col@[k] as int,
                        |k: int| matrix@[r]@[k] as int * before[k] as int,
                    );
                    if r == i {
                        lemma_sigma_ext(
                            r + 1,
                            j + 1,
                            |k: int| matrix@[r]@[k] as int * before[k] as int,
                            |c: int| row[c] as int * before[c] as int,
                        );
                    }
                }
            }
        }
        col
    }

    /// Invert an upper triangular matrix with 1s on diagonal.
    /// For upper triangular U with U[i][i] = 1, the inverse is also upper triangular.
    fn invert_upper_triangular(matrix: &Vec<Vec<u32>>, n: usize) -> (inv: Vec<Vec<u32>>)
        requires
            covers(rows_view(matrix@), n as int),
        ensures
            is_back_sub_inverse(rows_view(matrix@), rows_view(inv@), n as int),
    {
        let mut cols: Vec<Vec<u32>> = Vec::new();
        let mut j: usize = 0;
        while j < n
            invariant
                j <= n,
                covers(rows_view(matrix@), n as int),
                cols@.len() == j,
                forall|c: int| 0 <= c < j ==> {
                    &&& (#[trigger] cols@[c])@.len() == n
                    &&& cols@[c]@[c] == 1
                    &&& forall|k: int| c < k < n ==> #[trigger] cols@[c]@[k] == 0
                    &&& forall|i: int|
                        0 <= i < c ==> #[trigger] cols@[c]@[i] as int == (-sigma(
                            i + 1,
                            c + 1,
                            |k: int| matrix@[i]@[k] as int * cols@[c]@[k] as int,
                        )) % m32()
                },
            decreases n - j,
        {
            let col = Self::invert_column(matrix, n, j);
            cols.push(col);
            j = j + 1;
        }
        let mut inv: Vec<Vec<u32>> = Vec::new();
        let mut i: usize = 0;
        while i < n
            invariant
                i <= n,
                cols@.len() == n,
                forall|c: int| 0 <= c < n ==> (#[trigger] cols@[c])@.len() == n,
                inv@.len() == i,
                forall|r: int| 0 <= r < i ==> (#[trigger] inv@[r])@.len() == n,
                forall|r: int, c: int| 0 <= r < i && 0 <= c < n ==> #[trigger] inv@[r]@[c] == cols@[c]@[r],
            decreases n - i,
        {
            let mut row: Vec<u32> = Vec::new();
            let mut c: usize = 0;
            while c < n
                invariant
                    i < n,
                    c <= n,
                    cols@.len() == n,
                    forall|c2: int| 0 <= c2 < n ==> (#[trigger] cols@[c2])@.len() == n,
                    row@.len() == c,
                    forall|c2: int| 0 <= c2 < c ==> #[trigger] row@[c2] == cols@[c2]@[i as int],
                decreases n - c,
            {
                row.push(cols[c][i]);
                c = c + 1;
            }
            inv.push(row);
            i = i + 1;
        }
        proof {
            let f = rows_view(matrix@);
            let g = rows_view(inv@);
            assert forall|r: int, c: int| 0 <= r < n && 0 <= c < n implies #[trigger] g[r][c]
                == cols@[c]@[r] by {}
            assert forall|r: int, c: int| 0 <= r < c < n implies #[trigger] g[r][c] as int == (
            -back_sum(f, g, r, c)) % m32() by {
                lemma_sigma_ext(
                    r + 1,
                    c + 1,
                    |k: int| f[r][k] as int * g[k][c] as int,
                    |k: int| matrix@[r]@[k] as int * cols@[c]@[k] as int,
                );
            }
            assert forall|r: int| 0 <= r < n implies #[trigger] g[r].len() == n by {}
            assert forall|r: int, c: int| 0 <= c < r < n implies #[trigger] g[r][c] == 0 by {}
            assert forall|r: int| 0 <= r < n implies #[trigger] g[r][r] == 1 by {}
        }
        inv
    }

    /// Blockwise product of `mat` with `poly` (see `spec_diffuse`).
    fn apply_blocks(mat: &Vec<Vec<u32>>, n: usize, poly: &[u32]) -> (out: Vec<u32>)
        requires
            n > 0,
            covers(rows_view(mat@), n as int),
        ensures
            out@ == spec_diffuse(rows_view(mat@), n as int, poly@),
    {
        let len = poly.len();
        let ghost a = rows_view(mat@);
        let ghost spec = spec_diffuse(a, n as int, poly@);
        let mut result: Vec<u32> = Vec::new();
        let mut block_start: usize = 0;
        let ghost mut t: int = 0;
        while block_start < len
            invariant
                n > 0,
                len == poly@.len(),
                a == rows_view(mat@),
                covers(a, n as int),
                mat@.len() >= n,
                spec == spec_diffuse(a, n as int, poly@),
                block_start <= len,
                t >= 0,
                block_start < len ==> block_start == t * n,
                result@ == spec.take(block_start as int),
            decreases len - block_start,
        {
            let block_size = if len - block_start < n { len - block_start } else { n };
            let block_end = block_start + block_size;
            let ghost b = block_start as int;
            let mut i: usize = 0;
            while i < block_size
                invariant
                    n > 0,
                    len == poly@.len(),
                    a == rows_view(mat@),
                    covers(a, n as int),
                    mat@.len() >= n,
                    spec == spec_diffuse(a, n as int, poly@),
                    b == block_start,
                    b == t * n,
                    t >= 0,
                    block_size == block_len_at(n as int, len as int, b),
                    block_size <= n,
                    block_end == b + block_size,
                    block_end <= len,
                    i <= block_size,
                    result@ == spec.take(b + i),
                decreases block_size - i,
            {
                let ghost row = a[i as int];
                assert(row == mat@[i as int]@);
                let ghost term = |j: int| row[j] as int * poly@[b + j] as int;
                let mut sum: u64 = 0;
                let mut j: usize = 0;
                while j < block_size
                    invariant
                        i < block_size,
                        block_size <= n,
                        block_end == b + block_size,
                        block_end <= len,
                        len == poly@.len(),
                        mat@.len() >= n,
                        row == mat@[i as int]@,
                        row.len() >= n,
                        b == block_start,
                        j <= block_size,
                        forall|j2: int| #[trigger] term(j2) == row[j2] as int * poly@[b + j2] as int,
                        sum as int == sigma(0, j as int, term) % m64(),
                    decreases block_size - j,
                {
                    let x = mat[i][j];
                    let y = poly[block_start + j];
                    proof {
                        lemma_word_product(x, y);
                        lemma_wrap_step(sigma(0, j as int, term), sum, (x as u64 * y as u64) as u64);
                    }
                    sum = sum.wrapping_add(x as u64 * y as u64);
                    j = j + 1;
                }
                proof {
                    lemma_low_word(sigma(0, block_size as int, term), sum);
                    let k = b + i;
                    lemma_fundamental_div_mod_converse(k, n as int, t, i as int);
                    assert(block_start_of(n as int, k) == b);
                    lemma_sigma_ext(
                        0,
                        block_size as int,
                        term,
                        |j: int| a[k - b][j] as int * poly@[b + j] as int,
                    );
                    assert(spec[k] == (sigma(0, block_size as int, term) % m32()) as u32);
                }
                result.push((sum & 0xFFFF_FFFF) as u32);
                proof {
                    assert(result@ =~= spec.take(b + i + 1));
                }
                i = i + 1;
            }
            proof {
                if block_end < len {
                    t = t + 1;
                    assert(block_end == t * n) by (nonlinear_arith)
                        requires
                            block_end == b + n,
                            b == (t - 1) * n,
                    ;
                }
            }
            block_start = block_end;
        }
        assert(result@ =~= spec);
        result
    }

    /// Apply forward diffusion: out[i] = Σ(matrix[i][j] * poly[j]) mod 2^32,
    /// block by block.
    pub fn diffuse(&self, poly: &[u32]) -> (out: Vec<u32>)
        requires
            self.n > 0,
            covers(rows_view(self.forward@), self.n as int),
        ensures
            out@ == spec_diffuse(rows_view(self.forward@), self.n as int, poly@),
    {
        Self::apply_blocks(&self.forward, self.n, poly)
    }

    /// Apply inverse diffusion, block by block.
    pub fn diffuse_inv(&self, poly: &[u32]) -> (out: Vec<u32>)
        requires
            self.n > 0,
            covers(rows_view(self.inverse@), self.n as int),
        ensures
            out@ == spec_diffuse(rows_view(self.inverse@), self.n as int, poly@),
    {
        Self::apply_blocks(&self.inverse, self.n, poly)
    }
}

} // verus!
