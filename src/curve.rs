use vstd::prelude::*;

use crate::arith::{abs, fits_i32, trunc_div, trunc_div_i64};

verus! {

/// A control point of a response curve: input `x` maps to output `y`.
#[derive(Clone, Copy, Debug, PartialEq, Eq)]
pub struct CurvePoint {
    pub x: i32,
    pub y: i32,
}

/// A response curve given by its control points, evaluated by integer
/// Lagrange interpolation.
#[derive(Debug)]
pub struct Curve(Vec<CurvePoint>);

/// The running basis product of point `i` after folding over the first `k`
/// points: it starts at `y_i` and, for each other point `j`, becomes
/// `pre * (x - x_j) / (x_i - x_j)` with truncating division.
pub open spec fn basis_term(pts: Seq<CurvePoint>, i: int, x: int, k: nat) -> int
    decreases k,
{
    if k == 0 {
        pts[i].y as int
    } else {
        let pre = basis_term(pts, i, x, (k - 1) as nat);
        let j = k - 1;
        if j == i {
            pre
        } else {
            trunc_div(pre * (x - pts[j].x), pts[i].x - pts[j].x)
        }
    }
}

/// The weighted term contributed by point `i`.
pub open spec fn term(pts: Seq<CurvePoint>, i: int, x: int) -> int {
    basis_term(pts, i, x, pts.len())
}

/// Sum of the terms of the first `k` points.
pub open spec fn partial_sum(pts: Seq<CurvePoint>, x: int, k: nat) -> int
    decreases k,
{
    if k == 0 {
        0
    } else {
        partial_sum(pts, x, (k - 1) as nat) + term(pts, k - 1, x)
    }
}

/// The value of the curve through `pts` at `x`.
pub open spec fn curve_value(pts: Seq<CurvePoint>, x: int) -> int {
    partial_sum(pts, x, pts.len())
}

/// No two control points share an `x`.
pub open spec fn distinct_xs(pts: Seq<CurvePoint>) -> bool {
    forall|i: int, j: int| 0 <= i < pts.len() && 0 <= j < pts.len() && i != j ==> pts[i].x != pts[j].x
}

/// Every running product and every partial sum of the evaluation at `x` fits in an `i32`.
pub open spec fn in_range(pts: Seq<CurvePoint>, x: int) -> bool {
    &&& forall|i: int, k: nat| 0 <= i < pts.len() && k <= pts.len() ==> fits_i32(#[trigger] basis_term(pts, i, x, k))
    &&& forall|k: nat| k <= pts.len() ==> fits_i32(#[trigger] partial_sum(pts, x, k))
}

/// The curve can be evaluated at `x` with `i32` values and no division by zero.
pub open spec fn evaluable(pts: Seq<CurvePoint>, x: int) -> bool {
    distinct_xs(pts) && in_range(pts, x)
}

impl View for Curve {
    type V = Seq<CurvePoint>;

    closed spec fn view(&self) -> Seq<CurvePoint> {
        self.0@
    }
}

impl Curve {
    pub fn new(points: Vec<CurvePoint>) -> (r: Self)
        ensures
            r@ == points@,
    {
        Curve(points)
    }

    /// The control points, in order.
    pub fn points(&self) -> (r: &[CurvePoint])
        ensures
            r@ == self@,
    {
        self.0.as_slice()
    }

    /// Evaluates the curve at `x`, or `None` where two points share an `x`
    /// or a value of the evaluation leaves the `i32` range.
    pub fn try_apply(&self, x: i32) -> (r: Option<i32>)
        ensures
            r == (if evaluable(self@, x as int) {
                Some(curve_value(self@, x as int) as i32)
            } else {
                None::<i32>
            }),
    {
        let ghost pts = self@;
        let n = self.0.len();
        let mut sum: i32 = 0;
        let mut i: usize = 0;
        while i < n
            invariant
                pts == self@,
                n == pts.len(),
                0 <= i <= n,
                sum == partial_sum(pts, x as int, i as nat),
                forall|a: int, b: int| 0 <= a < i && 0 <= b < n && a != b ==> pts[a].x != pts[b].x,
                forall|a: int, k: nat| 0 <= a < i && k <= n ==> fits_i32(#[trigger] basis_term(pts, a, x as int, k)),
                forall|k: nat| k <= i ==> fits_i32(#[trigger] partial_sum(pts, x as int, k)),
            decreases n - i,
        {
            let pi = self.0[i];
            let mut pre: i32 = pi.y;
            let mut j: usize = 0;
            while j < n
                invariant
                    pts == self@,
                    n == pts.len(),
                    0 <= i < n,
                    0 <= j <= n,
                    pi == pts[i as int],
                    pre == basis_term(pts, i as int, x as int, j as nat),
                    forall|b: int| 0 <= b < j && b != i ==> pts[i as int].x != pts[b].x,
                    forall|k: nat| k <= j ==> fits_i32(#[trigger] basis_term(pts, i as int, x as int, k)),
                decreases n - j,
            {
                let ghost pre_j = pre;
                if j != i {
                    let pj = self.0[j];
                    let d: i64 = x as i64 - pj.x as i64;
                    let den: i64 = pi.x as i64 - pj.x as i64;
                    if den == 0 {
                        assert(!distinct_xs(pts)) by {
                            assert(pts[i as int].x == pts[j as int].x);
                        }
                        return None;
                    }
                    assert(-0x1_0000_0000 < d < 0x1_0000_0000);
                    let p64: i64 = pre as i64;
                    assert(-0x7fff_ffff_ffff_ffff <= p64 * d <= 0x7fff_ffff_ffff_ffff) by (nonlinear_arith)
                        requires
                            -0x8000_0000 <= p64 < 0x8000_0000,
                            -0x1_0000_0000 < d < 0x1_0000_0000,
                    ;
                    let num: i64 = p64 * d;
                    let q: i64 = trunc_div_i64(num, den);
                    assert(q == basis_term(pts, i as int, x as int, (j + 1) as nat));
                    if q < i32::MIN as i64 || q > i32::MAX as i64 {
                        assert(!in_range(pts, x as int)) by {
                            assert(!fits_i32(basis_term(pts, i as int, x as int, (j + 1) as nat)));
                        }
                        return None;
                    }
                    pre = q as i32;
                }
                j = j + 1;
                assert(forall|k: nat| k <= j ==> fits_i32(#[trigger] basis_term(pts, i as int, x as int, k))) by {
                    assert(fits_i32(basis_term(pts, i as int, x as int, j as nat)));
                }
            }
            let s: i64 = sum as i64 + pre as i64;
            assert(s == partial_sum(pts, x as int, (i + 1) as nat));
            if s < i32::MIN as i64 || s > i32::MAX as i64 {
                assert(!in_range(pts, x as int)) by {
                    assert(!fits_i32(partial_sum(pts, x as int, (i + 1) as nat)));
                }
                return None;
            }
            sum = s as i32;
            i = i + 1;
            assert(forall|k: nat| k <= i ==> fits_i32(#[trigger] partial_sum(pts, x as int, k))) by {
                assert(fits_i32(partial_sum(pts, x as int, i as nat)));
            }
        }
        Some(sum)
    }

    /// Evaluates the curve at `x`: for each point `i`, the running product
    /// `y_i * (x - x_j) / (x_i - x_j)` over every other point `j`, with
    /// truncating division at each step, summed over all points.
    pub fn apply(&self, x: i32) -> (r: i32)
        requires
            evaluable(self@, x as int),
        ensures
            r == curve_value(self@, x as int),
    {
        match self.try_apply(x) {
            Some(v) => v,
            None => {
                proof {
                    assert(false);
                }
                0
            },
        }
    }
}

/// Multiplying by a nonzero `b` and then dividing by it with truncation gives back `a`.
pub proof fn lemma_trunc_div_mul_cancel(a: int, b: int)
    requires
        b != 0,
    ensures
        trunc_div(a * b, b) == a,
{
    assert(abs(a * b) == abs(a) * abs(b)) by (nonlinear_arith);
    assert(abs(a) * abs(b) / abs(b) == abs(a)) by (nonlinear_arith)
        requires
            abs(b) > 0,
    ;
    assert(a != 0 ==> ((a * b >= 0) == (b > 0) <==> a > 0)) by (nonlinear_arith)
        requires
            b != 0,
    ;
}

/// A curve with a single control point is constant: its value at any `x` is
/// that point's `y`, and evaluating it never leaves the `i32` range.
pub proof fn lemma_single_point(p: CurvePoint, x: int)
    ensures
        curve_value(seq![p], x) == p.y,
        evaluable(seq![p], x),
{
    let pts = seq![p];
    assert(pts[0] == p);
    assert(basis_term(pts, 0, x, 0) == p.y);
    assert(basis_term(pts, 0, x, 1) == p.y);
    assert(partial_sum(pts, x, 0) == 0);
    assert(partial_sum(pts, x, 1) == p.y);
    assert forall|i: int, k: nat| 0 <= i < pts.len() && k <= pts.len() implies fits_i32(
        #[trigger] basis_term(pts, i, x, k),
    ) by {
        assert(i == 0);
        if k == 1 {
            assert(basis_term(pts, 0, x, 1) == basis_term(pts, 0, x, 0));
        }
    }
    assert forall|k: nat| k <= pts.len() implies fits_i32(#[trigger] partial_sum(pts, x, k)) by {
        if k == 1 {
            assert(partial_sum(pts, x, 1) == p.y);
        }
    }
}

proof fn lemma_own_basis(pts: Seq<CurvePoint>, c: int, m: nat)
    requires
        distinct_xs(pts),
        0 <= c < pts.len(),
        m <= pts.len(),
    ensures
        basis_term(pts, c, pts[c].x as int, m) == pts[c].y,
    decreases m,
{
    if m > 0 {
        lemma_own_basis(pts, c, (m - 1) as nat);
        let j = m - 1;
        if j != c {
            lemma_trunc_div_mul_cancel(pts[c].y as int, pts[c].x - pts[j].x);
        }
    }
}

proof fn lemma_other_basis(pts: Seq<CurvePoint>, i: int, c: int, m: nat)
    requires
        distinct_xs(pts),
        0 <= i < pts.len(),
        0 <= c < pts.len(),
        i != c,
        c < m <= pts.len(),
    ensures
        basis_term(pts, i, pts[c].x as int, m) == 0,
    decreases m,
{
    let x = pts[c].x as int;
    let j = m - 1;
    let pre = basis_term(pts, i, x, (m - 1) as nat);
    let f = x - pts[j].x;
    if j == c {
        assert(f == 0);
        assert(pre * f == 0) by (nonlinear_arith)
            requires
                f == 0,
        ;
        assert(pts[i].x != pts[j].x);
    } else {
        lemma_other_basis(pts, i, c, (m - 1) as nat);
        if j != i {
            assert(pre * f == 0) by (nonlinear_arith)
                requires
                    pre == 0,
            ;
            assert(pts[i].x != pts[j].x);
        }
    }
}

proof fn lemma_sum_at_point(pts: Seq<CurvePoint>, c: int, m: nat)
    requires
        distinct_xs(pts),
        0 <= c < pts.len(),
        m <= pts.len(),
    ensures
        partial_sum(pts, pts[c].x as int, m) == (if c < m {
            pts[c].y as int
        } else {
            0
        }),
    decreases m,
{
    if m > 0 {
        lemma_sum_at_point(pts, c, (m - 1) as nat);
        let i = m - 1;
        if i == c {
            lemma_own_basis(pts, c, pts.len());
        } else {
            lemma_other_basis(pts, i, c, pts.len());
        }
    }
}

/// At the `x` of a control point, the curve takes exactly that point's `y`:
/// the truncating evaluation agrees with exact interpolation there, since the
/// point's own basis product divides out exactly and every other basis
/// product meets the factor `x - x_c == 0`.
pub proof fn lemma_interpolates_control_points(pts: Seq<CurvePoint>, c: int)
    requires
        distinct_xs(pts),
        0 <= c < pts.len(),
    ensures
        curve_value(pts, pts[c].x as int) == pts[c].y,
{
    lemma_sum_at_point(pts, c, pts.len());
}

/// The product of `x - x_j` over the first `m` points `j` other than `i`.
/// In exact arithmetic the Lagrange weight of point `i` at `x` is
/// `node_product(pts, i, x, n) / node_product(pts, i, x_i, n)`.
pub open spec fn node_product(pts: Seq<CurvePoint>, i: int, x: int, m: nat) -> int
    decreases m,
{
    if m == 0 {
        1
    } else {
        let j = m - 1;
        let f: int = if j == i {
            1
        } else {
            x - pts[j].x
        };
        node_product(pts, i, x, (m - 1) as nat) * f
    }
}

proof fn lemma_own_product_nonzero(pts: Seq<CurvePoint>, c: int, m: nat)
    requires
        distinct_xs(pts),
        0 <= c < pts.len(),
        m <= pts.len(),
    ensures
        node_product(pts, c, pts[c].x as int, m) != 0,
    decreases m,
{
    if m > 0 {
        lemma_own_product_nonzero(pts, c, (m - 1) as nat);
        let j = m - 1;
        let a = node_product(pts, c, pts[c].x as int, (m - 1) as nat);
        let f: int = if j == c {
            1
        } else {
            pts[c].x - pts[j].x
        };
        assert(f != 0);
        assert(a * f != 0) by (nonlinear_arith)
            requires
                a != 0,
                f != 0,
        ;
    }
}

proof fn lemma_other_product_zero(pts: Seq<CurvePoint>, i: int, c: int, m: nat)
    requires
        0 <= i < pts.len(),
        0 <= c < pts.len(),
        i != c,
        c < m <= pts.len(),
    ensures
        node_product(pts, i, pts[c].x as int, m) == 0,
    decreases m,
{
    let j = m - 1;
    let a = node_product(pts, i, pts[c].x as int, (m - 1) as nat);
    let f: int = if j == i {
        1
    } else {
        pts[c].x - pts[j].x
    };
    if j != c {
        lemma_other_product_zero(pts, i, c, (m - 1) as nat);
        assert(a * f == 0) by (nonlinear_arith)
            requires
                a == 0,
        ;
    } else {
        assert(a * f == 0) by (nonlinear_arith)
            requires
                f == 0,
        ;
    }
}

/// Exact Lagrange interpolation passes through every control point: at
/// `x_c`, the weight of point `c` is 1 (its numerator and denominator are the
/// same nonzero product) and every other point's weight is 0 (its numerator
/// holds the factor `x_c - x_c`), so the exact value there is `y_c`.
pub proof fn lemma_exact_weights_at_control_point(pts: Seq<CurvePoint>, c: int)
    requires
        distinct_xs(pts),
        0 <= c < pts.len(),
    ensures
        node_product(pts, c, pts[c].x as int, pts.len()) != 0,
        forall|i: int|
            0 <= i < pts.len() && i != c ==> #[trigger] node_product(pts, i, pts[c].x as int, pts.len()) == 0,
{
    lemma_own_product_nonzero(pts, c, pts.len());
    assert forall|i: int| 0 <= i < pts.len() && i != c implies #[trigger] node_product(
        pts,
        i,
        pts[c].x as int,
        pts.len(),
    ) == 0 by {
        lemma_other_product_zero(pts, i, c, pts.len());
    }
}

/// Truncating division is off by less than one divisor:
/// `|trunc_div(a, d) * d - a| < |d|`.
pub proof fn lemma_trunc_div_close(a: int, d: int)
    requires
        d != 0,
    ensures
        abs(trunc_div(a, d) * d - a) < abs(d),
{
    let q = abs(a) / abs(d);
    assert(abs(a) - abs(d) < q * abs(d) <= abs(a)) by (nonlinear_arith)
        requires
            q == abs(a) / abs(d),
            abs(d) > 0,
            abs(a) >= 0,
    ;
    assert(q >= 0) by (nonlinear_arith)
        requires
            q == abs(a) / abs(d),
            abs(d) > 0,
            abs(a) >= 0,
    ;
    if d > 0 {
        assert(q * abs(d) == q * d);
        assert(-q * d == -(q * d)) by (nonlinear_arith);
    } else {
        assert(q * abs(d) == -(q * d)) by (nonlinear_arith)
            requires
                d < 0,
        ;
        assert(-q * d == -(q * d)) by (nonlinear_arith);
    }
}

/// On a curve of two points the truncating evaluation stays within two of
/// the exact line `L` through them: with `d = x_1 - x_0`, `L(x) * d` is
/// `y_1 * (x - x_0) - y_0 * (x - x_1)`, and the curve's value times `d`
/// differs from it by less than `2 * |d|`.
pub proof fn lemma_two_point_deviation(p0: CurvePoint, p1: CurvePoint, x: int)
    requires
        p0.x != p1.x,
    ensures
        abs(curve_value(seq![p0, p1], x) * (p1.x - p0.x) - (p1.y * (x - p0.x) - p0.y * (x - p1.x))) < 2
            * abs(p1.x - p0.x),
{
    let pts = seq![p0, p1];
    let d: int = p1.x - p0.x;
    let a0: int = p0.y * (x - p1.x);
    let a1: int = p1.y * (x - p0.x);
    assert(pts[0] == p0 && pts[1] == p1);
    assert(basis_term(pts, 0, x, 0) == p0.y);
    assert(basis_term(pts, 0, x, 1) == p0.y);
    let t0 = trunc_div(a0, -d);
    assert(basis_term(pts, 0, x, 2) == t0);
    assert(basis_term(pts, 1, x, 0) == p1.y);
    let t1 = trunc_div(a1, d);
    assert(basis_term(pts, 1, x, 1) == t1);
    assert(basis_term(pts, 1, x, 2) == t1);
    assert(partial_sum(pts, x, 0) == 0);
    assert(partial_sum(pts, x, 1) == t0);
    assert(curve_value(pts, x) == t0 + t1);
    lemma_trunc_div_close(a0, -d);
    lemma_trunc_div_close(a1, d);
    assert(t0 * (-d) == -(t0 * d)) by (nonlinear_arith);
    assert((t0 + t1) * d == t0 * d + t1 * d) by (nonlinear_arith);
}

} // verus!
