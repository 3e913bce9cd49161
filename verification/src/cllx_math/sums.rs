// Finite sums over integer ranges and the facts about them that the
// matrix layer needs (splitting, linearity, exchange of order, congruence).
use vstd::prelude::*;
use vstd::arithmetic::div_mod::{lemma_add_mod_noop, lemma_mul_mod_noop_right};
use vstd::arithmetic::mul::lemma_mul_is_distributive_add;

verus! {

/// Sum of `f(k)` for `lo <= k < hi` (zero when the range is empty).
pub open spec fn sigma(lo: int, hi: int, f: spec_fn(int) -> int) -> int
    decreases hi - lo,
{
    if hi <= lo {
        0
    } else {
        sigma(lo, hi - 1, f) + f(hi - 1)
    }
}

/// Sums of functions that agree on the range are equal.
pub proof fn lemma_sigma_ext(lo: int, hi: int, f: spec_fn(int) -> int, g: spec_fn(int) -> int)
    requires
        forall|k: int| lo <= k < hi ==> #[trigger] f(k) == g(k),
    ensures
        sigma(lo, hi, f) == sigma(lo, hi, g),
    decreases hi - lo,
{
    if hi > lo {
        lemma_sigma_ext(lo, hi - 1, f, g);
    }
}

/// A sum whose terms all vanish is zero.
pub proof fn lemma_sigma_zero(lo: int, hi: int, f: spec_fn(int) -> int)
    requires
        forall|k: int| lo <= k < hi ==> #[trigger] f(k) == 0,
    ensures
        sigma(lo, hi, f) == 0,
    decreases hi - lo,
{
    if hi > lo {
        lemma_sigma_zero(lo, hi - 1, f);
    }
}

/// Splitting a range at `mid`.
pub proof fn lemma_sigma_split(lo: int, mid: int, hi: int, f: spec_fn(int) -> int)
    requires
        lo <= mid <= hi,
    ensures
        sigma(lo, hi, f) == sigma(lo, mid, f) + sigma(mid, hi, f),
    decreases hi - mid,
{
    if hi > mid {
        lemma_sigma_split(lo, mid, hi - 1, f);
    }
}

/// Peeling off the first term.
pub proof fn lemma_sigma_first(lo: int, hi: int, f: spec_fn(int) -> int)
    requires
        lo < hi,
    ensures
        sigma(lo, hi, f) == f(lo) + sigma(lo + 1, hi, f),
{
    lemma_sigma_split(lo, lo + 1, hi, f);
    assert(sigma(lo, lo, f) == 0);
    assert(sigma(lo, lo + 1, f) == f(lo));
}

/// A sum over `[lo, hi)` whose terms vanish outside `[a, b)` equals the sum over `[a, b)`.
pub proof fn lemma_sigma_restrict(lo: int, a: int, b: int, hi: int, f: spec_fn(int) -> int)
    requires
        lo <= a <= b <= hi,
        forall|k: int| lo <= k < a ==> #[trigger] f(k) == 0,
        forall|k: int| b <= k < hi ==> #[trigger] f(k) == 0,
    ensures
        sigma(lo, hi, f) == sigma(a, b, f),
{
    lemma_sigma_split(lo, a, hi, f);
    lemma_sigma_split(a, b, hi, f);
    lemma_sigma_zero(lo, a, f);
    lemma_sigma_zero(b, hi, f);
}

/// A sum whose only possibly non-zero term is at `i` equals that term.
pub proof fn lemma_sigma_single(lo: int, i: int, hi: int, f: spec_fn(int) -> int)
    requires
        lo <= i < hi,
        forall|k: int| lo <= k < hi && k != i ==> #[trigger] f(k) == 0,
    ensures
        sigma(lo, hi, f) == f(i),
{
    lemma_sigma_restrict(lo, i, i + 1, hi, f);
    assert(sigma(i, i, f) == 0);
    assert(sigma(i, i + 1, f) == f(i));
}

/// Sum of a pointwise sum: if `s(k) == f(k) + g(k)` on the range then the sums add up.
pub proof fn lemma_sigma_add(
    lo: int,
    hi: int,
    f: spec_fn(int) -> int,
    g: spec_fn(int) -> int,
    s: spec_fn(int) -> int,
)
    requires
        forall|k: int| lo <= k < hi ==> #[trigger] s(k) == f(k) + g(k),
    ensures
        sigma(lo, hi, s) == sigma(lo, hi, f) + sigma(lo, hi, g),
    decreases hi - lo,
{
    if hi > lo {
        lemma_sigma_add(lo, hi - 1, f, g, s);
    }
}

/// A constant factor moves out of the sum: if `g(k) == c * f(k)` on the range.
pub proof fn lemma_sigma_scale(lo: int, hi: int, c: int, f: spec_fn(int) -> int, g: spec_fn(int) -> int)
    requires
        forall|k: int| lo <= k < hi ==> #[trigger] g(k) == c * f(k),
    ensures
        sigma(lo, hi, g) == c * sigma(lo, hi, f),
    decreases hi - lo,
{
    if hi > lo {
        lemma_sigma_scale(lo, hi - 1, c, f, g);
        lemma_mul_is_distributive_add(c, sigma(lo, hi - 1, f), f(hi - 1));
    }
}

/// The row sums of `h` over the `p` columns, for row `k`.
pub open spec fn row_sum(p: int, h: spec_fn(int, int) -> int, k: int) -> int {
    sigma(0, p, |l: int| h(k, l))
}

/// The column sums of `h` over the first `m` rows, for column `l`.
pub open spec fn col_sum(m: int, h: spec_fn(int, int) -> int, l: int) -> int {
    sigma(0, m, |k: int| h(k, l))
}

/// Exchange of the order of a double sum over a rectangle.
pub proof fn lemma_sigma_swap(m: int, p: int, h: spec_fn(int, int) -> int)
    requires
        m >= 0,
        p >= 0,
    ensures
        sigma(0, m, |k: int| row_sum(p, h, k)) == sigma(0, p, |l: int| col_sum(m, h, l)),
    decreases m,
{
    if m > 0 {
        lemma_sigma_swap(m - 1, p, h);
        let cm = |l: int| col_sum(m, h, l);
        let cp = |l: int| col_sum(m - 1, h, l);
        let last = |l: int| h(m - 1, l);
        assert forall|l: int| 0 <= l < p implies #[trigger] cm(l) == cp(l) + last(l) by {
            assert(col_sum(m, h, l) == col_sum(m - 1, h, l) + h(m - 1, l));
        }
        lemma_sigma_add(0, p, cp, last, cm);
        let rows = |k: int| row_sum(p, h, k);
        assert(sigma(0, m, rows) == sigma(0, m - 1, rows) + rows(m - 1));
        lemma_sigma_ext(0, p, |l: int| h(m - 1, l), last);
        assert(rows(m - 1) == sigma(0, p, last));
        lemma_sigma_ext(0, m, |k: int| row_sum(p, h, k), rows);
        lemma_sigma_ext(0, m - 1, |k: int| row_sum(p, h, k), rows);
        lemma_sigma_ext(0, p, |l: int| col_sum(m, h, l), cm);
        lemma_sigma_ext(0, p, |l: int| col_sum(m - 1, h, l), cp);
    } else {
        assert forall|l: int| 0 <= l < p implies #[trigger] col_sum(m, h, l) == 0 by {}
        lemma_sigma_zero(0, p, |l: int| col_sum(m, h, l));
    }
}

/// Sums of termwise congruent functions are congruent.
pub proof fn lemma_sigma_congruent(
    lo: int,
    hi: int,
    f: spec_fn(int) -> int,
    g: spec_fn(int) -> int,
    md: int,
)
    requires
        md > 0,
        forall|k: int| lo <= k < hi ==> #[trigger] f(k) % md == g(k) % md,
    ensures
        sigma(lo, hi, f) % md == sigma(lo, hi, g) % md,
    decreases hi - lo,
{
    if hi > lo {
        lemma_sigma_congruent(lo, hi - 1, f, g, md);
        let a = sigma(lo, hi - 1, f);
        let b = sigma(lo, hi - 1, g);
        lemma_add_mod_noop(a, f(hi - 1), md);
        lemma_add_mod_noop(b, g(hi - 1), md);
    }
}

/// Replacing a factor by a congruent one keeps a product congruent.
pub proof fn lemma_mul_congruent(a: int, x: int, y: int, md: int)
    requires
        md > 0,
        x % md == y % md,
    ensures
        (a * x) % md == (a * y) % md,
{
    lemma_mul_mod_noop_right(a, x, md);
    lemma_mul_mod_noop_right(a, y, md);
}

} // verus!
