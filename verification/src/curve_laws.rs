//! The laws of the group of points, proved of the model [`CurvePoint`].
//!
//! The laws that rest on division ask that the modulus is a prime.
use crate::curve_algebra::{
    lemma_chord_linear_rest, lemma_tangent_linear_rest, lemma_third_point, residual,
};
use crate::finite_fields::Residue;
use crate::number_theory::{
    is_prime, lemma_congruent, lemma_congruent_difference, lemma_multiple_add,
    lemma_multiple_mul, lemma_multiple_neg, lemma_remainder_difference,
};
use crate::point::CurvePoint;
use vstd::arithmetic::div_mod::{
    lemma_add_mod_noop, lemma_mod_self_0, lemma_mod_sub_multiples_vanish,
    lemma_mul_mod_noop_general, lemma_small_mod,
};
use vstd::prelude::*;

verus! {

/// The curve equation in the field says that the residual of the numbers is
/// a multiple of the modulus.
pub proof fn lemma_equation_residual(x: Residue, y: Residue, a: Residue, b: Residue)
    requires
        a.compatible(b),
        x.compatible(a),
        y.compatible(a),
    ensures
        CurvePoint::satisfies_equation(x, y, a, b) <==> residual(x.num, y.num, a.num, b.num)
            % a.prime == 0,
{
    let p = a.prime;
    let square = x.num * x.num;
    let cube = square * x.num;
    let linear = a.num * x.num;
    lemma_mul_mod_noop_general(square, x.num, p);
    lemma_add_mod_noop(cube, linear, p);
    lemma_add_mod_noop(cube + linear, b.num, p);
    lemma_small_mod(b.num as nat, p as nat);
    let right = x.mul(x).mul(x).add(a.mul(x)).add(b);
    assert(right.num == (cube + linear + b.num) % p);
    assert(right.prime == p);
    let left = y.mul(y);
    assert(left.num == (y.num * y.num) % p);
    assert(left.prime == p);
    if left == right {
        lemma_congruent_difference(y.num * y.num, cube + linear + b.num, p);
    }
    if residual(x.num, y.num, a.num, b.num) % p == 0 {
        lemma_congruent(y.num * y.num, cube + linear + b.num, p);
    }
}

/// The numbers of the third point on a line of slope `m`: modulo the
/// modulus, `x3 = m^2 - x1 - x2` and `y3 = m*(x1 - x3) - y1`.
proof fn lemma_third_point_numbers(first: CurvePoint, second: CurvePoint, slope: Residue)
    requires
        first.wf(),
        second.wf(),
        first.same_curve(second),
        !first.is_infinity(),
        !second.is_infinity(),
        slope.compatible(first.a),
    ensures
        first.third_point(second, slope).wf(),
        first.third_point(second, slope).same_curve(first),
        !first.third_point(second, slope).is_infinity(),
        (first.x().num + second.x().num + first.third_point(second, slope).x().num - slope.num
            * slope.num) % first.prime() == 0,
        (first.third_point(second, slope).y().num - (slope.num * (first.x().num
            - first.third_point(second, slope).x().num) - first.y().num)) % first.prime() == 0,
{
    let p = first.prime();
    let m = slope.num;
    let x1 = first.x().num;
    let y1 = first.y().num;
    let x2 = second.x().num;
    let third = first.third_point(second, slope);
    let x3 = third.x().num;
    let y3 = third.y().num;
    let square = slope.mul(slope);
    let step = square.sub(first.x());
    slope.lemma_closed(slope);
    square.lemma_closed(first.x());
    step.lemma_closed(second.x());
    assert(third.x() == step.sub(second.x()));
    // x3 differs from m*m - x1 - x2 by multiples of p.
    lemma_remainder_difference(m * m, p);
    lemma_remainder_difference(square.num - x1, p);
    lemma_remainder_difference(step.num - x2, p);
    let gap_square = square.num - m * m;
    let gap_step = step.num - (square.num - x1);
    let gap_x = x3 - (step.num - x2);
    lemma_multiple_add(gap_x, gap_step, p);
    lemma_multiple_add(gap_x + gap_step, gap_square, p);
    assert(x1 + x2 + x3 - m * m == (gap_x + gap_step) + gap_square);
    // y3 differs from m*(x1 - x3) - y1 by multiples of p.
    let across = first.x().sub(third.x());
    let rise = slope.mul(across);
    first.x().lemma_closed(third.x());
    slope.lemma_closed(across);
    rise.lemma_closed(first.y());
    assert(third.y() == rise.sub(first.y()));
    lemma_remainder_difference(x1 - x3, p);
    lemma_remainder_difference(m * across.num, p);
    lemma_remainder_difference(rise.num - y1, p);
    let gap_across = across.num - (x1 - x3);
    let gap_rise = rise.num - m * across.num;
    let gap_y = y3 - (rise.num - y1);
    lemma_multiple_mul(gap_across, m, p);
    assert(m * across.num - m * (x1 - x3) == gap_across * m) by (nonlinear_arith)
        requires
            gap_across == across.num - (x1 - x3),
    ;
    lemma_multiple_add(gap_y, gap_rise, p);
    lemma_multiple_add(gap_y + gap_rise, gap_across * m, p);
    assert(y3 - (m * (x1 - x3) - y1) == (gap_y + gap_rise) + gap_across * m);
}

/// In a prime field the chord's slope `m` satisfies
/// `m * (x2 - x1) = y2 - y1`.
proof fn lemma_chord_slope(first: CurvePoint, second: CurvePoint)
    requires
        is_prime(first.prime()),
        first.wf(),
        second.wf(),
        first.same_curve(second),
        !first.is_infinity(),
        !second.is_infinity(),
        first.x() != second.x(),
    ensures
        first.chord_slope(second).compatible(first.a),
        (second.x().num - first.x().num) % first.prime() != 0,
        (first.chord_slope(second).num * (second.x().num - first.x().num) - (second.y().num
            - first.y().num)) % first.prime() == 0,
{
    let p = first.prime();
    let rise = second.y().sub(first.y());
    let run = second.x().sub(first.x());
    let slope = first.chord_slope(second);
    second.y().lemma_closed(first.y());
    second.x().lemma_closed(first.x());
    second.x().lemma_sub_is_zero(first.x());
    rise.lemma_div_closed(run);
    rise.lemma_div_mul(run);
    assert(slope.mul(run) == rise);
    let m = slope.num;
    let dx = second.x().num - first.x().num;
    let dy = second.y().num - first.y().num;
    assert((m * run.num) % p == rise.num);
    lemma_mul_mod_noop_general(m, dx, p);
    assert((m * dx) % p == dy % p);
    lemma_congruent_difference(m * dx, dy, p);
}

/// In a prime field the tangent's slope `m` satisfies
/// `m * 2*y = 3*x^2 + a`, where `2*y` is not zero.
proof fn lemma_tangent_slope(point: CurvePoint)
    requires
        is_prime(point.prime()),
        point.wf(),
        !point.is_infinity(),
        point.tangent_denominator().num != 0,
    ensures
        point.tangent_slope().compatible(point.a),
        (point.tangent_slope().num * (2 * point.y().num) - (3 * (point.x().num * point.x().num)
            + point.a.num)) % point.prime() == 0,
{
    let p = point.prime();
    let x = point.x().num;
    let y = point.y().num;
    let a = point.a.num;
    let three = Residue::of(3, p);
    let two = Residue::of(2, p);
    Residue::lemma_of_valid(3, p);
    Residue::lemma_of_valid(2, p);
    let square = point.x().mul(point.x());
    point.x().lemma_closed(point.x());
    let scaled = three.mul(square);
    three.lemma_closed(square);
    let above = scaled.add(point.a);
    scaled.lemma_closed(point.a);
    let below = point.tangent_denominator();
    two.lemma_closed(point.y());
    let slope = point.tangent_slope();
    assert(slope == above.div(below));
    above.lemma_div_closed(below);
    above.lemma_div_mul(below);
    assert(slope.mul(below) == above);
    let m = slope.num;
    assert((m * below.num) % p == above.num);
    // below is 2*y and above is 3*x*x + a, modulo p.
    lemma_mul_mod_noop_general(2, y, p);
    assert(below.num == (2 * y) % p);
    lemma_mul_mod_noop_general(3, x * x, p);
    assert(scaled.num == (3 * (x * x)) % p);
    lemma_add_mod_noop(3 * (x * x), a, p);
    lemma_small_mod(a as nat, p as nat);
    assert(above.num == (3 * (x * x) + a) % p);
    lemma_mul_mod_noop_general(m, 2 * y, p);
    assert((m * (2 * y)) % p == (3 * (x * x) + a) % p);
    lemma_congruent_difference(m * (2 * y), 3 * (x * x) + a, p);
}

impl CurvePoint {
    /// The point at infinity is the identity: `P + O == P` and `O + P == P`.
    pub proof fn lemma_add_identity(self)
        ensures
            self.add(CurvePoint::infinity(self.a, self.b)) == self,
            CurvePoint::infinity(self.a, self.b).add(self) == self,
    {
    }

    /// Over a field with an odd modulus no tangent's slope divides by zero,
    /// so any two valid points of one curve can be added.
    pub proof fn lemma_add_defined_odd(self, other: CurvePoint)
        requires
            self.wf(),
            other.wf(),
            self.same_curve(other),
            self.prime() % 2 == 1,
        ensures
            self.add_defined(other),
    {
        if self.is_doubling(other) {
            let p = self.prime();
            let y = self.y().num;
            lemma_small_mod(2, p as nat);
            if 2 * y < p {
                lemma_small_mod((2 * y) as nat, p as nat);
            } else {
                assert(0 < 2 * y - p < p);
                lemma_small_mod((2 * y - p) as nat, p as nat);
                lemma_mod_sub_multiples_vanish(2 * y, p);
                assert((2 * y) % p == 2 * y - p);
            }
        }
    }

    /// Addition is associative where one of the three points is the point
    /// at infinity.
    pub proof fn lemma_add_associative_infinity(self, second: CurvePoint, third: CurvePoint)
        requires
            self.wf(),
            second.wf(),
            third.wf(),
            self.same_curve(second),
            self.same_curve(third),
            self.is_infinity() || second.is_infinity() || third.is_infinity(),
        ensures
            self.add(second).add(third) == self.add(second.add(third)),
    {
        self.lemma_add_valid(second);
        second.lemma_add_valid(third);
    }

    /// The sum of two valid points of one curve is a valid point of that
    /// curve.
    pub proof fn lemma_add_valid(self, other: CurvePoint)
        requires
            self.wf(),
            other.wf(),
            self.same_curve(other),
        ensures
            self.add(other).wf(),
            self.add(other).same_curve(self),
    {
        if !self.is_infinity() && !other.is_infinity() {
            let p = self.prime();
            if self.x() == other.x() {
                if self.y() == other.y() && self.y().num != 0 {
                    let three = Residue::of(3, p);
                    let two = Residue::of(2, p);
                    Residue::lemma_of_valid(3, p);
                    Residue::lemma_of_valid(2, p);
                    self.x().lemma_closed(self.x());
                    three.lemma_closed(self.x().mul(self.x()));
                    three.mul(self.x().mul(self.x())).lemma_closed(self.a);
                    two.lemma_closed(self.y());
                    three.mul(self.x().mul(self.x())).add(self.a).lemma_div_closed(
                        self.tangent_denominator(),
                    );
                    lemma_third_point_numbers(self, other, self.tangent_slope());
                }
            } else {
                other.y().lemma_closed(self.y());
                other.x().lemma_closed(self.x());
                other.y().sub(self.y()).lemma_div_closed(other.x().sub(self.x()));
                lemma_third_point_numbers(self, other, self.chord_slope(other));
            }
        }
    }

    /// Closure: over a prime field the sum of two points of a curve is a
    /// point of that curve.
    pub proof fn lemma_add_on_curve(self, other: CurvePoint)
        requires
            is_prime(self.prime()),
            self.on_curve(),
            other.on_curve(),
            self.add_defined(other),
        ensures
            self.add(other).on_curve(),
            self.add(other).same_curve(self),
    {
        self.lemma_add_valid(other);
        let p = self.prime();
        let sum = self.add(other);
        if !self.is_infinity() && !other.is_infinity() && !sum.is_infinity() {
            let x1 = self.x().num;
            let y1 = self.y().num;
            let x2 = other.x().num;
            let y2 = other.y().num;
            let a = self.a.num;
            let b = self.b.num;
            lemma_equation_residual(self.x(), self.y(), self.a, self.b);
            lemma_equation_residual(other.x(), other.y(), self.a, self.b);
            if self.x() == other.x() {
                assert(self == other);
                lemma_tangent_slope(self);
                let slope = self.tangent_slope();
                lemma_third_point_numbers(self, other, slope);
                let x3 = sum.x().num;
                let y3 = sum.y().num;
                lemma_tangent_linear_rest(p, x1, y1, x3, a, slope.num);
                lemma_third_point(p, x1, y1, x2, x3, y3, a, b, slope.num);
            } else {
                lemma_chord_slope(self, other);
                let slope = self.chord_slope(other);
                lemma_third_point_numbers(self, other, slope);
                let x3 = sum.x().num;
                let y3 = sum.y().num;
                lemma_chord_linear_rest(p, x1, y1, x2, y2, x3, a, b, slope.num);
                lemma_third_point(p, x1, y1, x2, x3, y3, a, b, slope.num);
            }
            lemma_equation_residual(sum.x(), sum.y(), self.a, self.b);
        }
    }

    /// The mirror image of a point of the curve is a point of the same
    /// curve.
    pub proof fn lemma_neg_on_curve(self)
        requires
            self.on_curve(),
        ensures
            self.neg().on_curve(),
            self.neg().same_curve(self),
    {
        if !self.is_infinity() {
            let p = self.prime();
            let y = self.y().num;
            let mirrored = self.y().neg();
            self.y().lemma_closed(self.y());
            lemma_mul_mod_noop_general(-y, -y, p);
            assert((-y) * (-y) == y * y) by (nonlinear_arith);
            assert(mirrored.mul(mirrored) == self.y().mul(self.y()));
        }
    }

    /// A point and its mirror image add up to the point at infinity,
    /// wherever their sum is defined.
    pub proof fn lemma_add_neg(self)
        requires
            self.wf(),
            self.add_defined(self.neg()),
        ensures
            self.add(self.neg()) == CurvePoint::infinity(self.a, self.b),
    {
        if !self.is_infinity() {
            let p = self.prime();
            let y = self.y().num;
            let mirrored = self.y().neg();
            if mirrored == self.y() && y != 0 {
                // Then 2*y is a multiple of p, and the tangent would divide by zero.
                assert(self.neg() == self);
                self.y().lemma_neg_value();
                assert(2 * y == p);
                lemma_mod_self_0(p);
                lemma_mul_mod_noop_general(2, y, p);
                assert(self.tangent_denominator().num == 0);
            }
        }
    }

    /// Over a prime field addition is commutative: `P + Q == Q + P`.
    pub proof fn lemma_add_commutative(self, other: CurvePoint)
        requires
            is_prime(self.prime()),
            self.wf(),
            other.wf(),
            self.same_curve(other),
        ensures
            self.add(other) == other.add(self),
    {
        if !self.is_infinity() && !other.is_infinity() && self.x() != other.x() {
            let p = self.prime();
            let x1 = self.x().num;
            let y1 = self.y().num;
            let x2 = other.x().num;
            let y2 = other.y().num;
            lemma_chord_slope(self, other);
            lemma_chord_slope(other, self);
            let forth = self.chord_slope(other);
            let back = other.chord_slope(self);
            // Both slopes solve m * (x2 - x1) = y2 - y1, so they are the same.
            let rise = other.y().sub(self.y());
            let run = other.x().sub(self.x());
            other.y().lemma_closed(self.y());
            other.x().lemma_closed(self.x());
            let gap = back.num * (x1 - x2) - (y1 - y2);
            lemma_multiple_neg(gap, p);
            assert(back.num * (x2 - x1) - (y2 - y1) == -gap) by (nonlinear_arith)
                requires
                    gap == back.num * (x1 - x2) - (y1 - y2),
            ;
            lemma_congruent(back.num * (x2 - x1), y2 - y1, p);
            lemma_mul_mod_noop_general(back.num, x2 - x1, p);
            assert(back.mul(run) == rise);
            rise.lemma_div_unique(run, back);
            assert(back == forth);
            // The two third points have the same numbers modulo p.
            let m = forth.num;
            let left = self.third_point(other, forth);
            let right = other.third_point(self, forth);
            lemma_third_point_numbers(self, other, forth);
            lemma_third_point_numbers(other, self, forth);
            let lx = left.x().num;
            let rx = right.x().num;
            let ly = left.y().num;
            let ry = right.y().num;
            let lx_gap = x1 + x2 + lx - m * m;
            let rx_gap = x2 + x1 + rx - m * m;
            lemma_multiple_neg(rx_gap, p);
            lemma_multiple_add(lx_gap, -rx_gap, p);
            assert(lx - rx == lx_gap + (-rx_gap));
            lemma_congruent(lx, rx, p);
            lemma_small_mod(lx as nat, p as nat);
            lemma_small_mod(rx as nat, p as nat);
            assert(lx == rx);
            let ly_gap = ly - (m * (x1 - lx) - y1);
            let ry_gap = ry - (m * (x2 - rx) - y2);
            let slope_gap = m * (x2 - x1) - (y2 - y1);
            lemma_multiple_neg(ry_gap, p);
            lemma_multiple_neg(slope_gap, p);
            lemma_multiple_add(ly_gap, -ry_gap, p);
            lemma_multiple_add(ly_gap + (-ry_gap), -slope_gap, p);
            assert(ly - ry == (ly_gap + (-ry_gap)) + (-slope_gap)) by (nonlinear_arith)
                requires
                    ly_gap == ly - (m * (x1 - lx) - y1),
                    ry_gap == ry - (m * (x2 - rx) - y2),
                    slope_gap == m * (x2 - x1) - (y2 - y1),
                    lx == rx,
            ;
            lemma_congruent(ly, ry, p);
            lemma_small_mod(ly as nat, p as nat);
            lemma_small_mod(ry as nat, p as nat);
            assert(ly == ry);
            assert(left.x() == right.x());
            assert(left.y() == right.y());
        }
    }

    /// Double-and-add on valid points of one curve gives a valid point of
    /// that curve.
    pub proof fn lemma_double_and_add_valid(k: int, accumulator: CurvePoint, current: CurvePoint)
        requires
            accumulator.wf(),
            current.wf(),
            accumulator.same_curve(current),
        ensures
            CurvePoint::double_and_add(k, accumulator, current).wf(),
            CurvePoint::double_and_add(k, accumulator, current).same_curve(current),
        decreases k,
    {
        if k > 0 {
            accumulator.lemma_add_valid(current);
            current.lemma_add_valid(current);
            let next = if k % 2 == 1 {
                accumulator.add(current)
            } else {
                accumulator
            };
            CurvePoint::lemma_double_and_add_valid(k / 2, next, current.add(current));
        }
    }

    /// Over a prime field with an odd modulus, double-and-add on points of
    /// a curve gives a point of that curve.
    pub proof fn lemma_double_and_add_on_curve(
        k: int,
        accumulator: CurvePoint,
        current: CurvePoint,
    )
        requires
            is_prime(current.prime()),
            current.prime() % 2 == 1,
            accumulator.on_curve(),
            current.on_curve(),
            accumulator.same_curve(current),
        ensures
            CurvePoint::double_and_add(k, accumulator, current).on_curve(),
            CurvePoint::double_and_add(k, accumulator, current).same_curve(current),
        decreases k,
    {
        if k > 0 {
            accumulator.lemma_add_defined_odd(current);
            current.lemma_add_defined_odd(current);
            accumulator.lemma_add_on_curve(current);
            current.lemma_add_on_curve(current);
            let next = if k % 2 == 1 {
                accumulator.add(current)
            } else {
                accumulator
            };
            CurvePoint::lemma_double_and_add_on_curve(k / 2, next, current.add(current));
        }
    }

    /// Every multiple of a valid point is a valid point of the same curve.
    pub proof fn lemma_scalar_mul_valid(self, k: int)
        requires
            self.wf(),
        ensures
            self.scalar_mul(k).wf(),
            self.scalar_mul(k).same_curve(self),
    {
        CurvePoint::lemma_double_and_add_valid(k, CurvePoint::infinity(self.a, self.b), self);
    }

    /// Once the running point is the point at infinity, double-and-add
    /// leaves the accumulator as it is.
    pub proof fn lemma_double_and_add_at_infinity(
        k: int,
        accumulator: CurvePoint,
        current: CurvePoint,
    )
        requires
            current.is_infinity(),
            accumulator.same_curve(current),
        ensures
            CurvePoint::double_and_add(k, accumulator, current) == accumulator,
        decreases k,
    {
        if k > 0 {
            assert(accumulator.add(current) == accumulator);
            assert(current.add(current) == current);
            CurvePoint::lemma_double_and_add_at_infinity(k / 2, accumulator, current);
        }
    }

    /// Every multiple of the point at infinity is the point at infinity.
    pub proof fn lemma_scalar_mul_infinity(self, k: int)
        requires
            self.is_infinity(),
        ensures
            self.scalar_mul(k) == self,
    {
        CurvePoint::lemma_double_and_add_at_infinity(k, self, self);
    }

    /// A point with `y = 0` is its own mirror image: its odd multiples are
    /// the point, its even multiples the point at infinity.
    pub proof fn lemma_scalar_mul_vertical(self, k: int)
        requires
            !self.is_infinity(),
            self.y().num == 0,
            k > 0,
        ensures
            self.scalar_mul(k) == if k % 2 == 1 {
                self
            } else {
                CurvePoint::infinity(self.a, self.b)
            },
    {
        let origin = CurvePoint::infinity(self.a, self.b);
        assert(self.add(self) == origin);
        assert(origin.add(self) == self);
        let next = if k % 2 == 1 {
            self
        } else {
            origin
        };
        CurvePoint::lemma_double_and_add_at_infinity(k / 2, next, origin);
    }

    /// Over a prime field, every multiple of a point of a curve that can be
    /// computed is a point of that curve.
    pub proof fn lemma_scalar_mul_on_curve(self, k: int)
        requires
            is_prime(self.prime()),
            self.on_curve(),
            self.scalar_mul_defined(k),
        ensures
            self.scalar_mul(k).on_curve(),
            self.scalar_mul(k).same_curve(self),
    {
        if k <= 0 {
        } else if self.prime() % 2 == 1 {
            CurvePoint::lemma_double_and_add_on_curve(
                k,
                CurvePoint::infinity(self.a, self.b),
                self,
            );
        } else if self.is_infinity() {
            self.lemma_scalar_mul_infinity(k);
        } else {
            self.lemma_scalar_mul_vertical(k);
        }
    }

    /// The first multiples: `k * P` is the point at infinity for `k` not
    /// above zero, `1 * P == P`, `2 * P == P + P` and `3 * P == P + (P + P)`.
    pub proof fn lemma_scalar_mul_small(self, k: int)
        ensures
            k <= 0 ==> self.scalar_mul(k) == CurvePoint::infinity(self.a, self.b),
            self.scalar_mul(1) == self,
            self.scalar_mul(2) == self.add(self),
            self.scalar_mul(3) == self.add(self.add(self)),
    {
        let origin = CurvePoint::infinity(self.a, self.b);
        let double = self.add(self);
        let fourfold = double.add(double);
        assert(CurvePoint::double_and_add(0, self, double) == self);
        assert(CurvePoint::double_and_add(1, origin, self) == self);
        assert(CurvePoint::double_and_add(0, double, fourfold) == double);
        assert(CurvePoint::double_and_add(1, origin, double) == double);
        assert(CurvePoint::double_and_add(2, origin, self) == double);
        assert(CurvePoint::double_and_add(0, self.add(double), fourfold) == self.add(double));
        assert(CurvePoint::double_and_add(1, self, double) == self.add(double));
        assert(CurvePoint::double_and_add(3, origin, self) == self.add(double));
    }

    /// Over a prime field the third multiple is the second plus the point:
    /// `3 * P == (2 * P) + P`.
    pub proof fn lemma_scalar_mul_three(self)
        requires
            is_prime(self.prime()),
            self.wf(),
        ensures
            self.scalar_mul(3) == self.scalar_mul(2).add(self),
    {
        self.lemma_scalar_mul_small(3);
        self.lemma_add_valid(self);
        self.lemma_add_commutative(self.add(self));
    }

    /// Over a prime field with an odd modulus, a sum of copies of a point of
    /// a curve is a point of that curve.
    pub proof fn lemma_repeated_sum_on_curve(self, k: nat)
        requires
            is_prime(self.prime()),
            self.prime() % 2 == 1,
            self.on_curve(),
        ensures
            self.repeated_sum(k).on_curve(),
            self.repeated_sum(k).same_curve(self),
        decreases k,
    {
        if k > 0 {
            let before = self.repeated_sum((k - 1) as nat);
            self.lemma_repeated_sum_on_curve((k - 1) as nat);
            before.lemma_add_defined_odd(self);
            before.lemma_add_on_curve(self);
        }
    }

    /// Where addition is associative, sums of copies add up:
    /// `i*P + j*P == (i + j)*P`.
    pub proof fn lemma_repeated_sum_adds(self, i: nat, j: nat)
        requires
            is_prime(self.prime()),
            self.prime() % 2 == 1,
            self.on_curve(),
            CurvePoint::addition_associates(self.a, self.b),
        ensures
            self.repeated_sum(i).add(self.repeated_sum(j)) == self.repeated_sum(i + j),
        decreases j,
    {
        let left = self.repeated_sum(i);
        self.lemma_repeated_sum_on_curve(i);
        if j == 0 {
            left.lemma_add_identity();
        } else {
            let j1 = (j - 1) as nat;
            let before = self.repeated_sum(j1);
            self.lemma_repeated_sum_on_curve(j1);
            self.lemma_repeated_sum_adds(i, j1);
            assert(left.add(before).add(self) == left.add(before.add(self)));
            assert(self.repeated_sum(i + j) == self.repeated_sum((i + j1) as nat).add(self));
        }
    }

    /// Where addition is associative, double-and-add from `n*P` with the
    /// running point `c*P` ends at `(n + k*c)*P`.
    pub proof fn lemma_double_and_add_sums(self, k: nat, n: nat, c: nat)
        requires
            is_prime(self.prime()),
            self.prime() % 2 == 1,
            self.on_curve(),
            CurvePoint::addition_associates(self.a, self.b),
        ensures
            CurvePoint::double_and_add(k as int, self.repeated_sum(n), self.repeated_sum(c))
                == self.repeated_sum(n + k * c),
        decreases k,
    {
        if k == 0 {
            assert(k * c == 0);
        } else {
            let half = k / 2;
            let bit = k % 2;
            let n_next = if bit == 1 {
                n + c
            } else {
                n
            };
            self.lemma_repeated_sum_adds(n, c);
            self.lemma_repeated_sum_adds(c, c);
            self.lemma_double_and_add_sums(half, n_next, c + c);
            assert(n_next + half * (c + c) == n + k * c) by (nonlinear_arith)
                requires
                    k == 2 * half + bit,
                    n_next == n + bit * c,
                    bit == 0 || bit == 1,
            ;
        }
    }

    /// Every sum of copies of the point at infinity is the point at
    /// infinity.
    pub proof fn lemma_repeated_sum_infinity(self, k: nat)
        requires
            self.is_infinity(),
        ensures
            self.repeated_sum(k) == self,
        decreases k,
    {
        if k > 0 {
            self.lemma_repeated_sum_infinity((k - 1) as nat);
        }
    }

    /// A point with `y = 0` is its own mirror image: a sum of an odd number
    /// of copies is the point, of an even number the point at infinity.
    pub proof fn lemma_repeated_sum_vertical(self, k: nat)
        requires
            !self.is_infinity(),
            self.y().num == 0,
        ensures
            self.repeated_sum(k) == if k % 2 == 1 {
                self
            } else {
                CurvePoint::infinity(self.a, self.b)
            },
        decreases k,
    {
        if k > 0 {
            self.lemma_repeated_sum_vertical((k - 1) as nat);
            assert(self.add(self) == CurvePoint::infinity(self.a, self.b));
            assert(CurvePoint::infinity(self.a, self.b).add(self) == self);
        }
    }

    /// The multiple `k * P` that double-and-add computes is the sum of `k`
    /// copies of `P`: over an odd modulus where addition is associative on
    /// the curve, and over the prime 2 wherever the multiple can be computed.
    pub proof fn lemma_scalar_mul_is_repeated_sum(self, k: nat)
        requires
            is_prime(self.prime()),
            self.on_curve(),
            self.scalar_mul_defined(k as int),
            self.prime() % 2 == 1 ==> CurvePoint::addition_associates(self.a, self.b),
        ensures
            self.scalar_mul(k as int) == self.repeated_sum(k),
    {
        if k == 0 {
        } else if self.prime() % 2 == 1 {
            self.lemma_double_and_add_sums(k, 0, 1);
            self.lemma_add_identity();
            assert(self.repeated_sum(1) == self.repeated_sum(0).add(self));
            assert(k * 1 == k);
        } else if self.is_infinity() {
            self.lemma_scalar_mul_infinity(k as int);
            self.lemma_repeated_sum_infinity(k);
        } else {
            self.lemma_scalar_mul_vertical(k as int);
            self.lemma_repeated_sum_vertical(k);
        }
    }

    /// Under the same conditions the next multiple is the multiple plus the
    /// point: `(k + 1) * P == k * P + P`.
    pub proof fn lemma_scalar_mul_successor(self, k: nat)
        requires
            is_prime(self.prime()),
            self.on_curve(),
            self.scalar_mul_defined(k as int + 1),
            self.prime() % 2 == 1 ==> CurvePoint::addition_associates(self.a, self.b),
        ensures
            self.scalar_mul(k as int + 1) == self.scalar_mul(k as int).add(self),
    {
        self.lemma_scalar_mul_is_repeated_sum(k);
        self.lemma_scalar_mul_is_repeated_sum(k + 1);
    }
}

} // verus!
