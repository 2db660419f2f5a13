//! Points of a curve `y^2 = x^3 + a*x + b` over a prime field, and their
//! addition.
//!
//! [`CurvePoint`] is the mathematical model, with the addition law written
//! case by case over [`Residue`]. [`Point`] is the executable value.
use crate::finite_fields::{FieldElement, Residue};
use crate::integer::{halve, integer_value, is_positive};
use crate::number_theory::is_prime;
use crate::text::{append_decimal, decimal};
use rug::Integer;
use std::ops::{Add, Mul};
use vstd::prelude::*;
use vstd::std_specs::ops::{AddSpecImpl, MulSpecImpl};
use vstd::string::StringExecFns;

verus! {

/// The mathematical value of a point: the curve coefficients and either a
/// coordinate pair or, with no coordinates, the point at infinity.
pub ghost struct CurvePoint {
    pub a: Residue,
    pub b: Residue,
    pub coordinates: Option<(Residue, Residue)>,
}

impl CurvePoint {
    /// The identity of the curve `(a, b)`.
    pub open spec fn infinity(a: Residue, b: Residue) -> CurvePoint {
        CurvePoint { a, b, coordinates: None }
    }

    /// The point `(x, y)` of the curve `(a, b)`.
    pub open spec fn finite(x: Residue, y: Residue, a: Residue, b: Residue) -> CurvePoint {
        CurvePoint { a, b, coordinates: Some((x, y)) }
    }

    pub open spec fn is_infinity(self) -> bool {
        self.coordinates is None
    }

    pub open spec fn x(self) -> Residue
        recommends
            !self.is_infinity(),
    {
        self.coordinates.unwrap().0
    }

    pub open spec fn y(self) -> Residue
        recommends
            !self.is_infinity(),
    {
        self.coordinates.unwrap().1
    }

    /// The modulus of the field that the curve is defined over.
    pub open spec fn prime(self) -> int {
        self.a.prime
    }

    /// The coefficients, and the coordinates where there are any, are valid
    /// residues of one field.
    pub open spec fn wf(self) -> bool {
        &&& self.a.compatible(self.b)
        &&& !self.is_infinity() ==> self.x().compatible(self.a) && self.y().compatible(self.a)
    }

    /// `y^2 == x^3 + a*x + b` in the field.
    pub open spec fn satisfies_equation(x: Residue, y: Residue, a: Residue, b: Residue) -> bool {
        y.mul(y) == x.mul(x).mul(x).add(a.mul(x)).add(b)
    }

    /// The point is valid and, unless it is the point at infinity, its
    /// coordinates satisfy the curve equation.
    pub open spec fn on_curve(self) -> bool {
        &&& self.wf()
        &&& !self.is_infinity() ==> CurvePoint::satisfies_equation(
            self.x(),
            self.y(),
            self.a,
            self.b,
        )
    }

    /// Both points name the same curve.
    pub open spec fn same_curve(self, other: CurvePoint) -> bool {
        self.a == other.a && self.b == other.b
    }

    /// The denominator `2*y` of the tangent's slope.
    pub open spec fn tangent_denominator(self) -> Residue {
        Residue::of(2, self.prime()).mul(self.y())
    }

    /// The slope `(3*x^2 + a) / (2*y)` of the tangent at a finite point.
    pub open spec fn tangent_slope(self) -> Residue {
        Residue::of(3, self.prime()).mul(self.x().mul(self.x())).add(self.a).div(
            self.tangent_denominator(),
        )
    }

    /// The slope `(y2 - y1) / (x2 - x1)` of the chord from `self` to `other`.
    pub open spec fn chord_slope(self, other: CurvePoint) -> Residue {
        other.y().sub(self.y()).div(other.x().sub(self.x()))
    }

    /// The third point of the curve on the line of the given slope through
    /// `self` and `other`, reflected: `x' = m^2 - x1 - x2`,
    /// `y' = m*(x1 - x') - y1`.
    pub open spec fn third_point(self, other: CurvePoint, slope: Residue) -> CurvePoint {
        let x3 = slope.mul(slope).sub(self.x()).sub(other.x());
        let y3 = slope.mul(self.x().sub(x3)).sub(self.y());
        CurvePoint::finite(x3, y3, self.a, self.b)
    }

    /// Whether the sum is the tangent case with a tangent that is not
    /// vertical: the two points are the same finite point and `y` is not zero.
    pub open spec fn is_doubling(self, other: CurvePoint) -> bool {
        !self.is_infinity() && self == other && self.y().num != 0
    }

    /// The sum can be computed: both points are valid, they lie on the same
    /// curve, and a tangent's slope does not divide by zero.
    pub open spec fn add_defined(self, other: CurvePoint) -> bool {
        &&& self.wf()
        &&& other.wf()
        &&& self.same_curve(other)
        &&& self.is_doubling(other) ==> self.tangent_denominator().num != 0
    }

    /// The group law.
    pub open spec fn add(self, other: CurvePoint) -> CurvePoint {
        if self.is_infinity() {
            other
        } else if other.is_infinity() {
            self
        } else if self.x() == other.x() && self.y() != other.y() {
            CurvePoint::infinity(self.a, self.b)
        } else if self.x() == other.x() {
            if self.y().num == 0 {
                CurvePoint::infinity(self.a, self.b)
            } else {
                self.third_point(other, self.tangent_slope())
            }
        } else {
            self.third_point(other, self.chord_slope(other))
        }
    }

    /// The mirror image `(x, -y)`; the point at infinity is its own.
    pub open spec fn neg(self) -> CurvePoint {
        if self.is_infinity() {
            self
        } else {
            CurvePoint::finite(self.x(), self.y().neg(), self.a, self.b)
        }
    }

    /// Double-and-add from the lowest bit of `k` up: for each bit, `current`
    /// joins the accumulator when the bit is set, then `current` is doubled
    /// and `k` halved. A `k` that is not positive leaves the accumulator.
    pub open spec fn double_and_add(k: int, accumulator: CurvePoint, current: CurvePoint)
        -> CurvePoint
        decreases k,
    {
        if k <= 0 {
            accumulator
        } else {
            CurvePoint::double_and_add(
                k / 2,
                if k % 2 == 1 {
                    accumulator.add(current)
                } else {
                    accumulator
                },
                current.add(current),
            )
        }
    }

    /// The multiple `k * self`, by double-and-add from the point at infinity.
    pub open spec fn scalar_mul(self, k: int) -> CurvePoint {
        CurvePoint::double_and_add(k, CurvePoint::infinity(self.a, self.b), self)
    }

    /// The multiple `k * self` can be computed: the point is valid and no
    /// doubling divides by zero. That is so where nothing is doubled or
    /// added (`k` not above zero), where the modulus is odd, for the point at
    /// infinity, and for a point with `y = 0`, whose double is the point at
    /// infinity.
    pub open spec fn scalar_mul_defined(self, k: int) -> bool {
        self.wf() && (k <= 0 || self.prime() % 2 == 1 || self.is_infinity() || self.y().num == 0)
    }

    /// The sum of `k` copies of the point: `O + P + ... + P`.
    pub open spec fn repeated_sum(self, k: nat) -> CurvePoint
        decreases k,
    {
        if k == 0 {
            CurvePoint::infinity(self.a, self.b)
        } else {
            self.repeated_sum((k - 1) as nat).add(self)
        }
    }

    /// Addition is associative on the points of the curve `(a, b)`. This
    /// asks that the curve has no singular point: through `(0, 0)` of
    /// `y^2 = x^3` addition does not associate.
    pub open spec fn addition_associates(a: Residue, b: Residue) -> bool {
        forall|p: CurvePoint, q: CurvePoint, r: CurvePoint|
            p.on_curve() && q.on_curve() && r.on_curve() && p.a == a && p.b == b && p.same_curve(q)
                && p.same_curve(r) ==> #[trigger] p.add(q).add(r) == p.add(q.add(r))
    }

    /// The text of a finite point: its coordinates in round brackets, then
    /// the coefficients `a` and `b`, each after an underscore.
    pub open spec fn text(self) -> Seq<char>
        recommends
            !self.is_infinity(),
    {
        "Point("@ + decimal(self.x().num as nat) + ", "@ + decimal(self.y().num as nat) + ")_"@
            + decimal(self.a.num as nat) + "_"@ + decimal(self.b.num as nat)
    }
}

/// Why a point could not be built.
#[derive(Clone, Copy, Debug, PartialEq, Eq, Structural)]
pub enum CreationError {
    /// The coordinates do not satisfy the curve equation.
    PointNotInCurve,
}

/// A point of the curve `y^2 = x^3 + a*x + b`, or its point at infinity.
#[derive(Clone, Copy, Debug, PartialEq, Eq, Structural)]
pub struct Point {
    a: FieldElement,
    b: FieldElement,
    x: Option<FieldElement>,
    y: Option<FieldElement>,
}

impl View for Point {
    type V = CurvePoint;

    closed spec fn view(&self) -> CurvePoint {
        CurvePoint {
            a: self.a@,
            b: self.b@,
            coordinates: match (self.x, self.y) {
                (Some(x), Some(y)) => Some((x@, y@)),
                _ => None,
            },
        }
    }
}

impl Point {
    /// Either both coordinates are present or neither is.
    #[verifier::type_invariant]
    spec fn paired(self) -> bool {
        self.x is Some <==> self.y is Some
    }

    /// The point's value is valid.
    pub open spec fn wf(&self) -> bool {
        self@.wf()
    }

    /// The point whose value is `value`.
    pub closed spec fn of_value(value: CurvePoint) -> Point {
        Point {
            a: FieldElement::of_residue(value.a),
            b: FieldElement::of_residue(value.b),
            x: match value.coordinates {
                Some((x, _)) => Some(FieldElement::of_residue(x)),
                None => None,
            },
            y: match value.coordinates {
                Some((_, y)) => Some(FieldElement::of_residue(y)),
                None => None,
            },
        }
    }

    /// A point is the point made from its own value.
    proof fn lemma_of_view(self)
        requires
            self.paired(),
        ensures
            Point::of_value(self@) == self,
    {
        self.a.lemma_of_view();
        self.b.lemma_of_view();
        if let Some(x) = self.x {
            x.lemma_of_view();
        }
        if let Some(y) = self.y {
            y.lemma_of_view();
        }
    }

    /// Builds the point `(x, y)` of the curve `(a, b)`, unless it does not
    /// satisfy the curve equation.
    pub fn new(x: FieldElement, y: FieldElement, a: FieldElement, b: FieldElement) -> (result:
        Result<Point, CreationError>)
        requires
            a@.compatible(b@),
            x@.compatible(a@),
            y@.compatible(a@),
        ensures
            match result {
                Ok(point) => CurvePoint::satisfies_equation(x@, y@, a@, b@) && point@
                    == CurvePoint::finite(x@, y@, a@, b@) && point@.on_curve(),
                Err(CreationError::PointNotInCurve) => !CurvePoint::satisfies_equation(
                    x@,
                    y@,
                    a@,
                    b@,
                ),
            },
    {
        let left = y * y;
        let right = x * x * x + a * x + b;
        if left.not_equal(&right) {
            return Err(CreationError::PointNotInCurve);
        }
        Ok(Point { a, b, x: Some(x), y: Some(y) })
    }

    /// The point at infinity of the curve `(a, b)`.
    pub fn infinity(a: FieldElement, b: FieldElement) -> (point: Point)
        ensures
            point@ == CurvePoint::infinity(a@, b@),
            a@.compatible(b@) ==> point@.on_curve(),
    {
        Point { a, b, x: None, y: None }
    }

    /// The coefficient `a` of the point's curve.
    pub fn a(&self) -> (a: FieldElement)
        ensures
            a@ == self@.a,
    {
        self.a
    }

    /// The coefficient `b` of the point's curve.
    pub fn b(&self) -> (b: FieldElement)
        ensures
            b@ == self@.b,
    {
        self.b
    }

    /// The coordinate `x`, or nothing for the point at infinity.
    pub fn x(&self) -> (x: Option<FieldElement>)
        ensures
            x is None <==> self@.is_infinity(),
            x matches Some(value) ==> value@ == self@.x(),
    {
        proof {
            use_type_invariant(self);
        }
        self.x
    }

    /// The coordinate `y`, or nothing for the point at infinity.
    pub fn y(&self) -> (y: Option<FieldElement>)
        ensures
            y is None <==> self@.is_infinity(),
            y matches Some(value) ==> value@ == self@.y(),
    {
        proof {
            use_type_invariant(self);
        }
        self.y
    }

    /// Whether the point is the point at infinity.
    pub fn is_infinity(&self) -> (answer: bool)
        ensures
            answer == self@.is_infinity(),
    {
        proof {
            use_type_invariant(self);
        }
        self.x.is_none()
    }

    /// A finite point as text, such as `Point(192, 105)_0_7`.
    pub fn to_string(&self) -> (text: String)
        requires
            self.wf(),
            !self@.is_infinity(),
        ensures
            text@ == self@.text(),
    {
        match (self.x, self.y) {
            (Some(x), Some(y)) => {
                let mut text = String::from_str("Point(");
                append_decimal(&mut text, x.num() as u32);
                text.append(", ");
                append_decimal(&mut text, y.num() as u32);
                text.append(")_");
                append_decimal(&mut text, self.a.num() as u32);
                text.append("_");
                append_decimal(&mut text, self.b.num() as u32);
                text
            },
            _ => String::new(),
        }
    }

    /// The multiple `k * self` for a scalar that fits a machine word; see
    /// the product of an `Integer` and a point.
    pub fn times(self, k: i32) -> (product: Point)
        requires
            self@.scalar_mul_defined(k as int),
        ensures
            product@ == self@.scalar_mul(k as int),
            product.wf(),
            product@.same_curve(self@),
            is_prime(self@.prime()) && self@.on_curve() ==> product@.on_curve(),
    {
        Integer::from(k) * self
    }

    /// Whether both points are the same point of the same curve.
    pub fn equal(&self, other: &Point) -> (same: bool)
        ensures
            same == (self@ == other@),
    {
        proof {
            use_type_invariant(self);
            use_type_invariant(other);
        }
        let same_coordinates = match (self.x, self.y, other.x, other.y) {
            (Some(x1), Some(y1), Some(x2), Some(y2)) => x1.equal(&x2) && y1.equal(&y2),
            (None, _, None, _) => true,
            _ => false,
        };
        same_coordinates && self.a.equal(&other.a) && self.b.equal(&other.b)
    }

    /// Whether the points differ, in their curve or in their coordinates.
    pub fn not_equal(&self, other: &Point) -> (differ: bool)
        ensures
            differ == (self@ != other@),
    {
        !self.equal(other)
    }
}

impl AddSpecImpl for Point {
    open spec fn obeys_add_spec() -> bool {
        true
    }

    open spec fn add_req(self, rhs: Point) -> bool {
        self@.add_defined(rhs@)
    }

    open spec fn add_spec(self, rhs: Point) -> Point {
        Point::of_value(self@.add(rhs@))
    }
}

impl Add for Point {
    type Output = Point;

    /// The sum of two points under the group law. Both points must be valid
    /// and of the same curve, and a tangent must not divide by zero
    /// (`add_req`); over a prime field the sum of points of the curve is a
    /// point of the curve.
    fn add(self, other: Point) -> (sum: Point)
        ensures
            sum@ == self@.add(other@),
            sum.wf(),
            is_prime(self@.prime()) && self@.on_curve() && other@.on_curve() ==> sum@.on_curve(),
    {
        proof {
            use_type_invariant(self);
            use_type_invariant(other);
            self@.lemma_add_valid(other@);
            if is_prime(self@.prime()) && self@.on_curve() && other@.on_curve() {
                self@.lemma_add_on_curve(other@);
            }
        }
        let sum = match (self.x, self.y, other.x, other.y) {
            (Some(x1), Some(y1), Some(x2), Some(y2)) => {
                let prime: i32 = self.a.prime();
                if x1.equal(&x2) && (y1.not_equal(&y2) || y1.num() == 0) {
                    Point::infinity(self.a, self.b)
                } else {
                    let slope = if x1.equal(&x2) {
                        let three = FieldElement::reduce(3, prime);
                        let two = FieldElement::reduce(2, prime);
                        (three * (x1 * x1) + self.a) / (two * y1)
                    } else {
                        proof {
                            x2@.lemma_sub_is_zero(x1@);
                        }
                        (y2 - y1) / (x2 - x1)
                    };
                    let x_sum = slope * slope - x1 - x2;
                    let y_sum = slope * (x1 - x_sum) - y1;
                    Point { a: self.a, b: self.b, x: Some(x_sum), y: Some(y_sum) }
                }
            },
            (None, _, _, _) => other,
            _ => self,
        };
        proof {
            use_type_invariant(sum);
            sum.lemma_of_view();
        }
        sum
    }
}

impl MulSpecImpl<Point> for Integer {
    open spec fn obeys_mul_spec() -> bool {
        true
    }

    open spec fn mul_req(self, point: Point) -> bool {
        point@.scalar_mul_defined(integer_value(self))
    }

    open spec fn mul_spec(self, point: Point) -> Point {
        Point::of_value(point@.scalar_mul(integer_value(self)))
    }
}

impl Mul<Point> for Integer {
    type Output = Point;

    /// The multiple `self * point`, by double-and-add over the bits of
    /// `self` from the lowest up. A scalar that is not positive gives the
    /// point at infinity. The multiple must be one that can be computed
    /// (`mul_req`): over an odd modulus every multiple of a valid point is.
    ///
    /// The running time depends on the bits of the scalar: this is not for
    /// scalars that must stay secret.
    fn mul(self, point: Point) -> (product: Point)
        ensures
            product@ == point@.scalar_mul(integer_value(self)),
            product.wf(),
            product@.same_curve(point@),
            is_prime(point@.prime()) && point@.on_curve() ==> product@.on_curve(),
    {
        proof {
            if is_prime(point@.prime()) && point@.on_curve() {
                point@.lemma_scalar_mul_on_curve(integer_value(self));
            }
        }
        let mut coef = self;
        let mut current = point;
        let mut result = Point::infinity(point.a, point.b);
        while is_positive(&coef)
            invariant
                current.wf(),
                result.wf(),
                current@.same_curve(point@),
                result@.same_curve(point@),
                point@.prime() % 2 == 1 || current@.is_infinity() || (result@.is_infinity()
                    && current@.y().num == 0) || integer_value(coef) <= 0,
                CurvePoint::double_and_add(integer_value(coef), result@, current@)
                    == point@.scalar_mul(integer_value(self)),
            decreases integer_value(coef),
        {
            proof {
                if point@.prime() % 2 == 1 {
                    result@.lemma_add_defined_odd(current@);
                    current@.lemma_add_defined_odd(current@);
                }
            }
            if coef.is_odd() {
                result = result + current;
            }
            current = current + current;
            halve(&mut coef);
        }
        proof {
            use_type_invariant(result);
            result.lemma_of_view();
        }
        result
    }
}

} // verus!
