//! The algebra behind the group law, over the integers modulo `p`: a line
//! that meets the cubic `x^3 + a*x + b` in two points meets it in a third.
//!
//! Congruence is written as divisibility of a difference: `(u - v) % p == 0`.
use crate::number_theory::{
    is_prime, lemma_multiple_add, lemma_multiple_mul, lemma_multiple_neg,
    lemma_prime_divides_factor,
};
use vstd::prelude::*;

verus! {

/// How far `(x, y)` is from the curve: `y^2 - (x^3 + a*x + b)`.
pub open spec fn residual(x: int, y: int, a: int, b: int) -> int {
    y * y - (x * x * x + a * x + b)
}

/// The cubic minus the square of the line `y = m*x + l`; its roots are where
/// the line meets the curve.
pub open spec fn cubic_on_line(x: int, a: int, b: int, m: int, l: int) -> int {
    x * x * x + a * x + b - (m * x + l) * (m * x + l)
}

/// The coefficient of `x` that is left of `cubic_on_line` after taking out
/// `(x - x1)*(x - x2)*(x - x3)`.
pub open spec fn linear_rest(x1: int, x2: int, x3: int, a: int, m: int, l: int) -> int {
    a - 2 * m * l - (x1 * x2 + x1 * x3 + x2 * x3)
}

/// The constant that is left of `cubic_on_line` after taking out
/// `(x - x1)*(x - x2)*(x - x3)`.
pub open spec fn constant_rest(x1: int, x2: int, x3: int, b: int, l: int) -> int {
    b - l * l + x1 * x2 * x3
}

/// The product `(x - x1)*(x - x2)*(x - x3)` written out by powers of `x`.
proof fn lemma_three_roots(x: int, x1: int, x2: int, x3: int)
    ensures
        (x - x1) * (x - x2) * (x - x3) == (x * x) * x - (x1 + x2 + x3) * (x * x) + (x1 * x2 + x1
            * x3 + x2 * x3) * x - x1 * x2 * x3,
{
    let xx = x * x;
    let s = x1 + x2;
    let t = x1 * x2;
    let q = (x - x1) * (x - x2);
    assert(q == xx - s * x + t) by (nonlinear_arith)
        requires
            q == (x - x1) * (x - x2),
            xx == x * x,
            s == x1 + x2,
            t == x1 * x2,
    ;
    let e1 = x1 + x2 + x3;
    let e2 = x1 * x2 + x1 * x3 + x2 * x3;
    assert(e2 == t + s * x3) by (nonlinear_arith)
        requires
            e2 == x1 * x2 + x1 * x3 + x2 * x3,
            s == x1 + x2,
            t == x1 * x2,
    ;
    assert(q * (x - x3) == xx * x - e1 * xx + e2 * x - t * x3) by (nonlinear_arith)
        requires
            q == xx - s * x + t,
            xx == x * x,
            e1 == s + x3,
            e2 == t + s * x3,
    ;
}

/// The square of the line `m*x + l` written out by powers of `x`.
proof fn lemma_line_square(m: int, x: int, l: int)
    ensures
        (m * x + l) * (m * x + l) == (m * m) * (x * x) + (2 * m * l) * x + l * l,
{
    assert((m * x + l) * (m * x + l) == (m * m) * (x * x) + (2 * m * l) * x + l * l)
        by (nonlinear_arith);
}

/// With `x1 + x2 + x3 = m^2` modulo `p`, the cubic on the line is, at each
/// of the three, its linear rest.
pub proof fn lemma_cubic_on_line_at(
    p: int,
    x: int,
    x1: int,
    x2: int,
    x3: int,
    a: int,
    b: int,
    m: int,
    l: int,
)
    requires
        p > 0,
        (x1 + x2 + x3 - m * m) % p == 0,
        x == x1 || x == x2 || x == x3,
    ensures
        (cubic_on_line(x, a, b, m, l) - (linear_rest(x1, x2, x3, a, m, l) * x + constant_rest(
            x1,
            x2,
            x3,
            b,
            l,
        ))) % p == 0,
{
    let xx = x * x;
    let k = 2 * m * l;
    let e1 = x1 + x2 + x3;
    let e2 = x1 * x2 + x1 * x3 + x2 * x3;
    let e3 = x1 * x2 * x3;
    let excess = e1 - m * m;
    let c1 = linear_rest(x1, x2, x3, a, m, l);
    let c0 = constant_rest(x1, x2, x3, b, l);
    let product = (x - x1) * (x - x2) * (x - x3);
    assert(product == 0) by (nonlinear_arith)
        requires
            x == x1 || x == x2 || x == x3,
            product == (x - x1) * (x - x2) * (x - x3),
    ;
    lemma_three_roots(x, x1, x2, x3);
    lemma_line_square(m, x, l);
    assert(c1 * x == a * x - k * x - e2 * x) by (nonlinear_arith)
        requires
            c1 == a - k - e2,
    ;
    assert(excess * xx == e1 * xx - (m * m) * xx) by (nonlinear_arith)
        requires
            excess == e1 - m * m,
    ;
    assert(cubic_on_line(x, a, b, m, l) - (c1 * x + c0) == product + excess * xx);
    lemma_multiple_mul(excess, xx, p);
}

/// The chord: if a line of slope `m` passes through two points of the
/// curve with different `x`, the linear rest vanishes modulo a prime `p`.
pub proof fn lemma_chord_linear_rest(
    p: int,
    x1: int,
    y1: int,
    x2: int,
    y2: int,
    x3: int,
    a: int,
    b: int,
    m: int,
)
    requires
        is_prime(p),
        residual(x1, y1, a, b) % p == 0,
        residual(x2, y2, a, b) % p == 0,
        (x2 - x1) % p != 0,
        (m * (x2 - x1) - (y2 - y1)) % p == 0,
        (x1 + x2 + x3 - m * m) % p == 0,
    ensures
        linear_rest(x1, x2, x3, a, m, y1 - m * x1) % p == 0,
{
    let l = y1 - m * x1;
    let c1 = linear_rest(x1, x2, x3, a, m, l);
    let c0 = constant_rest(x1, x2, x3, b, l);
    let r1 = residual(x1, y1, a, b);
    let r2 = residual(x2, y2, a, b);
    let e3 = m * (x2 - x1) - (y2 - y1);
    let g1 = cubic_on_line(x1, a, b, m, l);
    let g2 = cubic_on_line(x2, a, b, m, l);
    lemma_cubic_on_line_at(p, x1, x1, x2, x3, a, b, m, l);
    lemma_cubic_on_line_at(p, x2, x1, x2, x3, a, b, m, l);
    let d1 = g1 - (c1 * x1 + c0);
    let d2 = g2 - (c1 * x2 + c0);
    // The line passes through the first point, and modulo p through the second.
    assert(m * x1 + l == y1);
    assert(g1 == -r1);
    assert(m * x2 + l == y2 + e3) by (nonlinear_arith)
        requires
            l == y1 - m * x1,
            e3 == m * (x2 - x1) - (y2 - y1),
    ;
    assert(g2 == -r2 - e3 * (2 * y2 + e3)) by (nonlinear_arith)
        requires
            g2 == x2 * x2 * x2 + a * x2 + b - (m * x2 + l) * (m * x2 + l),
            r2 == y2 * y2 - (x2 * x2 * x2 + a * x2 + b),
            m * x2 + l == y2 + e3,
    ;
    // c1 * (x2 - x1) is a sum of multiples of p.
    assert(c1 * (x2 - x1) == ((r1 + d1) + (-r2)) + ((-d2) + e3 * (-(2 * y2 + e3))))
        by (nonlinear_arith)
        requires
            d1 == g1 - (c1 * x1 + c0),
            d2 == g2 - (c1 * x2 + c0),
            g1 == -r1,
            g2 == -r2 - e3 * (2 * y2 + e3),
    ;
    lemma_multiple_add(r1, d1, p);
    lemma_multiple_neg(r2, p);
    lemma_multiple_add(r1 + d1, -r2, p);
    lemma_multiple_neg(d2, p);
    lemma_multiple_mul(e3, -(2 * y2 + e3), p);
    lemma_multiple_add(-d2, e3 * (-(2 * y2 + e3)), p);
    lemma_multiple_add((r1 + d1) + (-r2), (-d2) + e3 * (-(2 * y2 + e3)), p);
    lemma_prime_divides_factor(p, c1, x2 - x1);
}

/// The tangent: if a line through a point has the slope of the curve there,
/// `m * 2*y1 = 3*x1^2 + a`, the linear rest vanishes modulo `p`.
pub proof fn lemma_tangent_linear_rest(p: int, x1: int, y1: int, x3: int, a: int, m: int)
    requires
        p > 0,
        (m * (2 * y1) - (3 * (x1 * x1) + a)) % p == 0,
        (x1 + x1 + x3 - m * m) % p == 0,
    ensures
        linear_rest(x1, x1, x3, a, m, y1 - m * x1) % p == 0,
{
    let l = y1 - m * x1;
    let c1 = linear_rest(x1, x1, x3, a, m, l);
    let slope_gap = m * (2 * y1) - (3 * (x1 * x1) + a);
    let excess = x1 + x1 + x3 - m * m;
    assert(c1 == (-slope_gap) + excess * (-2 * x1)) by (nonlinear_arith)
        requires
            l == y1 - m * x1,
            c1 == a - 2 * m * l - (x1 * x1 + x1 * x3 + x1 * x3),
            slope_gap == m * (2 * y1) - (3 * (x1 * x1) + a),
            excess == x1 + x1 + x3 - m * m,
    ;
    lemma_multiple_neg(slope_gap, p);
    lemma_multiple_mul(excess, -2 * x1, p);
    lemma_multiple_add(-slope_gap, excess * (-2 * x1), p);
}

/// The third point: if the line of slope `m` through a point `(x1, y1)` of
/// the curve has a vanishing linear rest, then `(x3, y3)` with
/// `x3 = m^2 - x1 - x2` and `y3 = m*(x1 - x3) - y1` is on the curve, all
/// modulo `p`.
pub proof fn lemma_third_point(
    p: int,
    x1: int,
    y1: int,
    x2: int,
    x3: int,
    y3: int,
    a: int,
    b: int,
    m: int,
)
    requires
        p > 0,
        residual(x1, y1, a, b) % p == 0,
        (x1 + x2 + x3 - m * m) % p == 0,
        (y3 - (m * (x1 - x3) - y1)) % p == 0,
        linear_rest(x1, x2, x3, a, m, y1 - m * x1) % p == 0,
    ensures
        residual(x3, y3, a, b) % p == 0,
{
    let l = y1 - m * x1;
    let c1 = linear_rest(x1, x2, x3, a, m, l);
    let c0 = constant_rest(x1, x2, x3, b, l);
    let r1 = residual(x1, y1, a, b);
    let g1 = cubic_on_line(x1, a, b, m, l);
    let g3 = cubic_on_line(x3, a, b, m, l);
    lemma_cubic_on_line_at(p, x1, x1, x2, x3, a, b, m, l);
    lemma_cubic_on_line_at(p, x3, x1, x2, x3, a, b, m, l);
    let d1 = g1 - (c1 * x1 + c0);
    let d3 = g3 - (c1 * x3 + c0);
    assert(m * x1 + l == y1);
    assert(g1 == -r1);
    // c0 = g1 - d1 - c1 * x1 is a multiple of p, and so is g3.
    assert(g3 == (d3 + c1 * (x3 - x1)) + ((-r1) + (-d1))) by (nonlinear_arith)
        requires
            d1 == g1 - (c1 * x1 + c0),
            d3 == g3 - (c1 * x3 + c0),
            g1 == -r1,
    ;
    lemma_multiple_mul(c1, x3 - x1, p);
    lemma_multiple_add(d3, c1 * (x3 - x1), p);
    lemma_multiple_neg(r1, p);
    lemma_multiple_neg(d1, p);
    lemma_multiple_add(-r1, -d1, p);
    lemma_multiple_add(d3 + c1 * (x3 - x1), (-r1) + (-d1), p);
    assert(g3 % p == 0);
    // y3 is the line's value at x3, mirrored.
    let gap = y3 - (m * (x1 - x3) - y1);
    let line = m * x3 + l;
    assert(y3 == gap - line) by (nonlinear_arith)
        requires
            gap == y3 - (m * (x1 - x3) - y1),
            line == m * x3 + l,
            l == y1 - m * x1,
    ;
    assert(residual(x3, y3, a, b) == gap * (gap - 2 * line) + (-g3)) by (nonlinear_arith)
        requires
            y3 == gap - line,
            line == m * x3 + l,
            g3 == x3 * x3 * x3 + a * x3 + b - (m * x3 + l) * (m * x3 + l),
    ;
    lemma_multiple_mul(gap, gap - 2 * line, p);
    lemma_multiple_neg(g3, p);
    lemma_multiple_add(gap * (gap - 2 * line), -g3, p);
}

} // verus!
