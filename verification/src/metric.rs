//! Squared Euclidean distance over integer coordinate vectors, together with
//! the facts the decomposer's pruning bound rests on: non-negativity, the
//! Cauchy-Schwarz inequality, and the safety of skipping a point whose
//! distance to its current owner is at most a quarter of the squared
//! owner-to-candidate distance.

use vstd::prelude::*;

verus! {

/// Pointwise difference of two coordinate vectors of equal length.
pub open spec fn diff(a: Seq<int>, b: Seq<int>) -> Seq<int> {
    Seq::new(a.len(), |i: int| a[i] - b[i])
}

/// Inner product of two coordinate vectors of equal length.
pub open spec fn dot(a: Seq<int>, b: Seq<int>) -> int
    decreases a.len(),
{
    if a.len() == 0 || b.len() == 0 {
        0
    } else {
        dot(a.drop_last(), b.drop_last()) + a.last() * b.last()
    }
}

/// Squared Euclidean distance between two points of equal dimension.
pub open spec fn dist_sq(a: Seq<int>, b: Seq<int>) -> int {
    dot(diff(a, b), diff(a, b))
}

/// The inner product of a vector with itself is a sum of squares.
pub proof fn lemma_dot_self_nonneg(a: Seq<int>)
    ensures
        dot(a, a) >= 0,
    decreases a.len(),
{
    if a.len() > 0 {
        lemma_dot_self_nonneg(a.drop_last());
        assert(a.last() * a.last() >= 0) by (nonlinear_arith);
    }
}

/// Squared distances are never negative.
pub proof fn lemma_dist_sq_nonneg(a: Seq<int>, b: Seq<int>)
    ensures
        dist_sq(a, b) >= 0,
{
    lemma_dot_self_nonneg(diff(a, b));
}

/// The distance from a point to itself is zero.
pub proof fn lemma_dist_sq_self_zero(a: Seq<int>)
    ensures
        dist_sq(a, a) == 0,
{
    lemma_dot_zero_seq(diff(a, a));
}

proof fn lemma_dot_zero_seq(a: Seq<int>)
    requires
        forall|i: int| 0 <= i < a.len() ==> #[trigger] a[i] == 0,
    ensures
        dot(a, a) == 0,
    decreases a.len(),
{
    if a.len() > 0 {
        lemma_dot_zero_seq(a.drop_last());
    }
}

/// Cauchy-Schwarz: the square of an inner product is bounded by the product
/// of the squared norms.
pub proof fn lemma_cauchy_schwarz(a: Seq<int>, b: Seq<int>)
    requires
        a.len() == b.len(),
    ensures
        dot(a, b) * dot(a, b) <= dot(a, a) * dot(b, b),
    decreases a.len(),
{
    if a.len() == 0 {
    } else {
        let a1 = a.drop_last();
        let b1 = b.drop_last();
        lemma_cauchy_schwarz(a1, b1);
        lemma_dot_self_nonneg(a1);
        lemma_dot_self_nonneg(b1);
        lemma_cauchy_schwarz_step(dot(a1, a1), dot(b1, b1), dot(a1, b1), a.last(), b.last());
    }
}

/// Binomial expansion of a product of two sums.
proof fn lemma_expand_binomial(u: int, v: int, w: int, z: int)
    by (nonlinear_arith)
    ensures
        (u + w) * (v + z) == u * v + u * z + w * v + w * z,
{
}

/// The arithmetic-geometric-mean bound `4ab <= (a + b)^2`.
proof fn lemma_four_ab_le_sq(a: int, b: int)
    by (nonlinear_arith)
    ensures
        4 * (a * b) <= (a + b) * (a + b),
{
}

/// Comparing against a non-negative value through squares.
proof fn lemma_sq_le(a: int, s: int)
    by (nonlinear_arith)
    requires
        a * a <= s * s,
        s >= 0,
    ensures
        a <= s,
{
}

/// One-coordinate extension step of the Cauchy-Schwarz induction. The key
/// inequality `2cxy <= p y^2 + q x^2` comes from squaring both sides and
/// applying `4ab <= (a + b)^2` with `a == p y^2`, `b == q x^2`.
proof fn lemma_cauchy_schwarz_step(p: int, q: int, c: int, x: int, y: int)
    requires
        p >= 0,
        q >= 0,
        c * c <= p * q,
    ensures
        (c + x * y) * (c + x * y) <= (p + x * x) * (q + y * y),
{
    assert((x * x) * (y * y) >= 0) by (nonlinear_arith);
    assert((2 * (c * (x * y))) * (2 * (c * (x * y))) == 4 * ((c * c) * ((x * x) * (y * y))))
        by (nonlinear_arith);
    assert((c * c) * ((x * x) * (y * y)) <= (p * q) * ((x * x) * (y * y))) by (nonlinear_arith)
        requires
            c * c <= p * q,
            (x * x) * (y * y) >= 0,
    ;
    assert((p * (y * y)) * (q * (x * x)) == (p * q) * ((x * x) * (y * y))) by (nonlinear_arith);
    lemma_four_ab_le_sq(p * (y * y), q * (x * x));
    assert((2 * (c * (x * y))) * (2 * (c * (x * y))) <= (p * (y * y) + q * (x * x)) * (p * (y * y)
        + q * (x * x)));
    assert(p * (y * y) + q * (x * x) >= 0) by (nonlinear_arith)
        requires
            p >= 0,
            q >= 0,
    ;
    lemma_sq_le(2 * (c * (x * y)), p * (y * y) + q * (x * x));
    lemma_expand_binomial(c, c, x * y, x * y);
    assert((x * y) * c == c * (x * y)) by (nonlinear_arith);
    assert((x * y) * (x * y) == (x * x) * (y * y)) by (nonlinear_arith);
    lemma_expand_binomial(p, q, x * x, y * y);
    assert((x * x) * q == q * (x * x)) by (nonlinear_arith);
}

/// Expanding the squared norm of a difference:
/// `|x - y|^2 == |x|^2 - 2 (x . y) + |y|^2`.
pub proof fn lemma_dot_diff_expand(x: Seq<int>, y: Seq<int>)
    requires
        x.len() == y.len(),
    ensures
        dot(diff(x, y), diff(x, y)) == dot(x, x) - 2 * dot(x, y) + dot(y, y),
    decreases x.len(),
{
    if x.len() == 0 {
    } else {
        let x1 = x.drop_last();
        let y1 = y.drop_last();
        lemma_dot_diff_expand(x1, y1);
        assert(diff(x, y).drop_last() =~= diff(x1, y1));
        let xl = x.last();
        let yl = y.last();
        assert(diff(x, y).last() == xl - yl);
        assert((xl - yl) * (xl - yl) == xl * xl - 2 * (xl * yl) + yl * yl) by (nonlinear_arith);
    }
}

/// Safety of the pruning bound. If a point `p` sits within a quarter of the
/// squared distance from its current owner `u` to a candidate center `v`
/// (that is, `4 * |p - u|^2 <= |v - u|^2`), then `v` is no closer to `p`
/// than `u` is, so the exact distance from `p` to `v` need not be computed.
pub proof fn lemma_prune_safe(p: Seq<int>, u: Seq<int>, v: Seq<int>)
    requires
        p.len() == u.len(),
        u.len() == v.len(),
        4 * dist_sq(p, u) <= dist_sq(v, u),
    ensures
        dist_sq(p, v) >= dist_sq(p, u),
{
    let x = diff(p, u);
    let y = diff(v, u);
    assert(diff(p, v) =~= diff(x, y));
    lemma_dot_diff_expand(x, y);
    lemma_cauchy_schwarz(x, y);
    lemma_dot_self_nonneg(x);
    lemma_dot_self_nonneg(y);
    let nx = dot(x, x);
    let ny = dot(y, y);
    let c = dot(x, y);
    if c > 0 {
        assert(2 * c <= ny) by (nonlinear_arith)
            requires
                c * c <= nx * ny,
                4 * nx <= ny,
                nx >= 0,
                ny >= 0,
                c > 0,
        ;
    }
}

/// Growing both prefixes by one coordinate adds that coordinate's squared
/// difference to the squared distance.
pub proof fn lemma_dist_sq_extend(a: Seq<int>, b: Seq<int>, k: int)
    requires
        a.len() == b.len(),
        0 <= k < a.len(),
    ensures
        dist_sq(a.subrange(0, k + 1), b.subrange(0, k + 1)) == dist_sq(
            a.subrange(0, k),
            b.subrange(0, k),
        ) + (a[k] - b[k]) * (a[k] - b[k]),
{
    let s1 = diff(a.subrange(0, k + 1), b.subrange(0, k + 1));
    let s0 = diff(a.subrange(0, k), b.subrange(0, k));
    assert(s1.drop_last() =~= s0);
    assert(s1.last() == a[k] - b[k]);
}

} // verus!
