//! Arithmetic in the field of residues modulo a prime.
//!
//! [`Residue`] is the mathematical model: a pair of unbounded integers with
//! the field operations written as plain formulas. [`FieldElement`] is the
//! executable value; every operation on it is specified by the matching
//! operation on its view.
use crate::number_theory::is_prime;
use crate::text::{append_decimal, decimal};
use std::ops::{Add, Div, Mul, Sub};
use vstd::arithmetic::div_mod::{lemma_mul_mod_noop_general, lemma_small_mod};
use vstd::arithmetic::power::{
    lemma_pow0, lemma_pow1, lemma_pow_adds, lemma_pow_mod_noop, lemma_pow_multiplies, pow,
};
use vstd::prelude::*;
use vstd::std_specs::ops::{AddSpecImpl, DivSpecImpl, MulSpecImpl, SubSpecImpl};
use vstd::string::StringExecFns;

verus! {

/// `base` raised to `exponent`, reduced modulo `modulus`. An exponent below
/// zero counts as zero.
pub open spec fn modular_pow_spec(base: int, exponent: int, modulus: int) -> int {
    pow(base, (if exponent < 0 { 0 } else { exponent }) as nat) % modulus
}

/// The mathematical value of a field element: the residue `num` modulo `prime`.
pub ghost struct Residue {
    pub num: int,
    pub prime: int,
}

impl Residue {
    /// The residue lies in `[0, prime)`.
    pub open spec fn wf(self) -> bool {
        0 <= self.num < self.prime
    }

    /// Both residues are valid and belong to the same field.
    pub open spec fn compatible(self, rhs: Residue) -> bool {
        self.wf() && rhs.wf() && self.prime == rhs.prime
    }

    /// The residue of an arbitrary integer.
    pub open spec fn of(value: int, prime: int) -> Residue {
        Residue { num: value % prime, prime }
    }

    /// The sum `(num + rhs.num) mod prime`.
    pub open spec fn add(self, rhs: Residue) -> Residue {
        Residue::of(self.num + rhs.num, self.prime)
    }

    /// The difference `(num - rhs.num) mod prime`, never negative.
    pub open spec fn sub(self, rhs: Residue) -> Residue {
        Residue::of(self.num - rhs.num, self.prime)
    }

    /// The product `(num * rhs.num) mod prime`.
    pub open spec fn mul(self, rhs: Residue) -> Residue {
        Residue::of(self.num * rhs.num, self.prime)
    }

    /// The additive inverse `(-num) mod prime`.
    pub open spec fn neg(self) -> Residue {
        Residue::of(-self.num, self.prime)
    }

    /// The candidate multiplicative inverse `num^(prime - 2)`; it is the
    /// inverse when `prime` is prime and `num` is not zero.
    pub open spec fn inv(self) -> Residue {
        Residue { num: modular_pow_spec(self.num, self.prime - 2, self.prime), prime: self.prime }
    }

    /// Division: multiplication by the inverse of `rhs`.
    pub open spec fn div(self, rhs: Residue) -> Residue {
        self.mul(rhs.inv())
    }

    /// The exponent that `pow` really uses: `exponent` reduced into
    /// `[0, prime - 1)`.
    pub open spec fn effective_exponent(self, exponent: int) -> int {
        exponent % (self.prime - 1)
    }

    /// The text of a valid residue: `FieldElement_`, the modulus, and the
    /// number in round brackets.
    pub open spec fn repr(self) -> Seq<char> {
        "FieldElement_"@ + decimal(self.prime as nat) + "("@ + decimal(self.num as nat) + ")"@
    }

    /// Exponentiation with the exponent reduced modulo `prime - 1`, so that
    /// negative exponents are accepted.
    pub open spec fn pow(self, exponent: int) -> Residue {
        Residue {
            num: modular_pow_spec(self.num, self.effective_exponent(exponent), self.prime),
            prime: self.prime,
        }
    }
}

/// Why a field element could not be built.
#[derive(Clone, Copy, Debug, PartialEq, Eq, Structural)]
pub enum CreationError {
    /// The number is below zero.
    Negative,
    /// The number is not below the prime.
    NumberGreaterPrime,
}

/// An element of the field of integers modulo `prime`.
#[derive(Clone, Copy, Debug, PartialEq, Eq, Structural)]
pub struct FieldElement {
    num: i32,
    prime: i32,
}

impl View for FieldElement {
    type V = Residue;

    closed spec fn view(&self) -> Residue {
        Residue { num: self.num as int, prime: self.prime as int }
    }
}

/// The Euclidean remainder of `x` by a positive `m`.
fn rem_euclid(x: i64, m: i64) -> (r: i64)
    requires
        m > 0,
    ensures
        r == x % m,
        0 <= r < m,
{
    x.checked_rem_euclid(m).unwrap()
}

/// One round of square-and-multiply keeps `acc * base^exp` unchanged modulo `m`.
proof fn lemma_square_and_multiply_step(acc: int, base: int, exp: nat, m: int)
    requires
        m > 0,
        exp > 0,
    ensures
        (if exp % 2 == 1 { (acc * base) % m } else { acc }) * pow((base * base) % m, exp / 2) % m
            == acc * pow(base, exp) % m,
{
    let half = exp / 2;
    let square = base * base;
    // pow(base, exp) == pow(square, half) * (base or 1)
    assert(pow(base, 2) == square) by {
        lemma_pow_adds(base, 1, 1);
        lemma_pow1(base);
    }
    lemma_pow_multiplies(base, 2, half);
    assert(pow(base, 2 * half) == pow(square, half));
    lemma_pow_mod_noop(square, half, m);
    let t = pow(square, half);
    let t_reduced = pow(square % m, half);
    assert(t_reduced % m == t % m);
    if exp % 2 == 1 {
        assert(exp == 2 * half + 1);
        lemma_pow_adds(base, 2 * half, 1);
        lemma_pow1(base);
        assert(pow(base, exp) == t * base);
        assert(acc * (t * base) == (acc * base) * t) by (nonlinear_arith);
        lemma_mul_mod_noop_general(acc * base, t, m);
        lemma_mul_mod_noop_general((acc * base) % m, t_reduced, m);
        lemma_mul_mod_noop_general((acc * base) % m, t, m);
    } else {
        assert(exp == 2 * half);
        lemma_mul_mod_noop_general(acc, t, m);
        lemma_mul_mod_noop_general(acc, t_reduced, m);
    }
}

/// Modular exponentiation: `base^exponent mod modulus`, by repeated squaring.
/// An exponent below zero counts as zero.
///
/// The running time depends on the bits of the exponent: this is not for
/// exponents that must stay secret.
pub fn modular_pow(base: i32, exponent: i32, modulus: i32) -> (result: i32)
    requires
        modulus > 0,
    ensures
        result == modular_pow_spec(base as int, exponent as int, modulus as int),
        0 <= result < modulus,
{
    let m: i64 = modulus as i64;
    if modulus == 1 {
        return 0;
    }
    let mut e: i32 = if exponent < 0 { 0 } else { exponent };
    let mut b: i64 = rem_euclid(base as i64, m);
    let mut acc: i64 = 1;
    let ghost goal = modular_pow_spec(base as int, exponent as int, modulus as int);
    proof {
        lemma_pow_mod_noop(base as int, e as nat, m as int);
        assert(1 * pow(b as int, e as nat) == pow(b as int, e as nat));
    }
    while e > 0
        invariant
            m == modulus,
            m > 1,
            e >= 0,
            0 <= b < m,
            0 <= acc < m,
            (acc * pow(b as int, e as nat)) % (m as int) == goal,
        decreases e,
    {
        proof {
            lemma_square_and_multiply_step(acc as int, b as int, e as nat, m as int);
            assert(0 <= acc * b <= (m - 1) * (m - 1)) by (nonlinear_arith)
                requires
                    0 <= acc < m,
                    0 <= b < m,
            ;
            assert(0 <= b * b <= (m - 1) * (m - 1)) by (nonlinear_arith)
                requires
                    0 <= b < m,
            ;
            assert((m - 1) * (m - 1) < 0x4000_0000_0000_0000) by (nonlinear_arith)
                requires
                    1 < m <= 0x7fff_ffff,
            ;
        }
        if e % 2 == 1 {
            acc = (acc * b) % m;
        }
        b = (b * b) % m;
        e = e / 2;
    }
    proof {
        lemma_pow0(b as int);
        lemma_small_mod(acc as nat, m as nat);
    }
    acc as i32
}

impl FieldElement {
    /// The element is a valid residue.
    pub open spec fn wf(&self) -> bool {
        self@.wf()
    }

    /// The element whose value is `value`.
    pub closed spec fn of_residue(value: Residue) -> FieldElement {
        FieldElement { num: value.num as i32, prime: value.prime as i32 }
    }

    /// An element is the element made from its own value.
    pub proof fn lemma_of_view(self)
        ensures
            FieldElement::of_residue(self@) == self,
    {
    }

    /// Two elements with the same value are the same element.
    pub proof fn lemma_view_injective(self, other: FieldElement)
        requires
            self@ == other@,
        ensures
            self == other,
    {
    }

    /// Builds the element `num` of the field modulo `prime`, unless `num`
    /// lies outside `[0, prime)`.
    pub fn new(num: i32, prime: i32) -> (result: Result<FieldElement, CreationError>)
        ensures
            match result {
                Ok(element) => 0 <= num < prime && element@ == (Residue {
                    num: num as int,
                    prime: prime as int,
                }),
                Err(CreationError::NumberGreaterPrime) => num >= prime,
                Err(CreationError::Negative) => num < 0 && num < prime,
            },
    {
        if num >= prime {
            Err(CreationError::NumberGreaterPrime)
        } else if num < 0 {
            Err(CreationError::Negative)
        } else {
            Ok(FieldElement { num, prime })
        }
    }

    /// The residue, in `[0, prime)` for a valid element.
    pub fn num(&self) -> (n: i32)
        ensures
            n == self@.num,
    {
        self.num
    }

    /// The modulus of the field.
    pub fn prime(&self) -> (p: i32)
        ensures
            p == self@.prime,
    {
        self.prime
    }

    /// The element as text, such as `FieldElement_31(2)`.
    pub fn repr(&self) -> (text: String)
        requires
            self.wf(),
        ensures
            text@ == self@.repr(),
    {
        let mut text = String::from_str("FieldElement_");
        append_decimal(&mut text, self.prime as u32);
        text.append("(");
        append_decimal(&mut text, self.num as u32);
        text.append(")");
        text
    }

    /// Whether both the residue and the field agree.
    pub fn equal(&self, other: &FieldElement) -> (same: bool)
        ensures
            same == (self@ == other@),
    {
        self.num == other.num && self.prime == other.prime
    }

    /// Whether the residue or the field differs.
    pub fn not_equal(&self, other: &FieldElement) -> (differ: bool)
        ensures
            differ == (self@ != other@),
    {
        self.num != other.num || self.prime != other.prime
    }

    /// Raises the element to `exponent`, which may be negative: the exponent
    /// is first reduced into `[0, prime - 1)`. In a prime field that leaves
    /// the power of an element other than zero as it is.
    pub fn pow(&self, exponent: i32) -> (power: FieldElement)
        requires
            self.wf(),
            self@.prime > 1,
        ensures
            power.wf(),
            power@ == self@.pow(exponent as int),
            is_prime(self@.prime) && self@.num != 0 && exponent >= 0 ==> power@.num == pow(
                self@.num,
                exponent as nat,
            ) % self@.prime,
    {
        proof {
            if is_prime(self@.prime) && self@.num != 0 && exponent >= 0 {
                self@.lemma_pow_is_power(exponent as nat);
            }
        }
        let n: i64 = rem_euclid(exponent as i64, self.prime as i64 - 1);
        let number: i32 = modular_pow(self.num, n as i32, self.prime);
        FieldElement { num: number, prime: self.prime }
    }

    /// The element of the field modulo `prime` that `value` reduces to.
    pub(crate) fn reduce(value: i64, prime: i32) -> (element: FieldElement)
        requires
            prime > 0,
        ensures
            element.wf(),
            element@ == Residue::of(value as int, prime as int),
    {
        let r: i64 = rem_euclid(value, prime as i64);
        FieldElement { num: r as i32, prime }
    }
}

impl AddSpecImpl for FieldElement {
    open spec fn obeys_add_spec() -> bool {
        true
    }

    open spec fn add_req(self, rhs: FieldElement) -> bool {
        self@.compatible(rhs@)
    }

    open spec fn add_spec(self, rhs: FieldElement) -> FieldElement {
        FieldElement::of_residue(self@.add(rhs@))
    }
}

impl Add for FieldElement {
    type Output = FieldElement;

    /// Addition in the field. Both elements must be valid and of the same
    /// field (`add_req`).
    fn add(self, rhs: FieldElement) -> (sum: FieldElement)
        ensures
            sum.wf(),
            sum@ == self@.add(rhs@),
    {
        FieldElement::reduce(self.num as i64 + rhs.num as i64, self.prime)
    }
}

impl SubSpecImpl for FieldElement {
    open spec fn obeys_sub_spec() -> bool {
        true
    }

    open spec fn sub_req(self, rhs: FieldElement) -> bool {
        self@.compatible(rhs@)
    }

    open spec fn sub_spec(self, rhs: FieldElement) -> FieldElement {
        FieldElement::of_residue(self@.sub(rhs@))
    }
}

impl Sub for FieldElement {
    type Output = FieldElement;

    /// Subtraction in the field; a negative difference wraps back into
    /// `[0, prime)`. Both elements must be valid and of the same field
    /// (`sub_req`).
    fn sub(self, rhs: FieldElement) -> (difference: FieldElement)
        ensures
            difference.wf(),
            difference@ == self@.sub(rhs@),
    {
        FieldElement::reduce(self.num as i64 - rhs.num as i64, self.prime)
    }
}

impl MulSpecImpl for FieldElement {
    open spec fn obeys_mul_spec() -> bool {
        true
    }

    open spec fn mul_req(self, rhs: FieldElement) -> bool {
        self@.compatible(rhs@)
    }

    open spec fn mul_spec(self, rhs: FieldElement) -> FieldElement {
        FieldElement::of_residue(self@.mul(rhs@))
    }
}

impl Mul for FieldElement {
    type Output = FieldElement;

    /// Multiplication in the field. Both elements must be valid and of the
    /// same field (`mul_req`).
    fn mul(self, rhs: FieldElement) -> (product: FieldElement)
        ensures
            product.wf(),
            product@ == self@.mul(rhs@),
    {
        proof {
            assert(0 <= self.num * rhs.num <= 0x7fff_ffff * 0x7fff_ffff) by (nonlinear_arith)
                requires
                    0 <= self.num <= 0x7fff_ffff,
                    0 <= rhs.num <= 0x7fff_ffff,
            ;
        }
        FieldElement::reduce(self.num as i64 * rhs.num as i64, self.prime)
    }
}

impl DivSpecImpl for FieldElement {
    open spec fn obeys_div_spec() -> bool {
        true
    }

    open spec fn div_req(self, rhs: FieldElement) -> bool {
        self@.compatible(rhs@) && rhs@.num != 0
    }

    open spec fn div_spec(self, rhs: FieldElement) -> FieldElement {
        FieldElement::of_residue(self@.div(rhs@))
    }
}

impl Div for FieldElement {
    type Output = FieldElement;

    /// Division in the field: multiplication by `rhs^(prime - 2)`. In a prime
    /// field the quotient times `rhs` is `self` again. Both elements must be
    /// valid and of the same field, and `rhs` must not be zero (`div_req`).
    fn div(self, rhs: FieldElement) -> (quotient: FieldElement)
        ensures
            quotient.wf(),
            quotient@ == self@.div(rhs@),
            is_prime(self@.prime) ==> quotient@.mul(rhs@) == self@,
    {
        proof {
            if is_prime(self@.prime) {
                self@.lemma_div_mul(rhs@);
            }
        }
        let inverse: i32 = modular_pow(rhs.num, self.prime - 2, self.prime);
        proof {
            assert(0 <= self.num * inverse <= 0x7fff_ffff * 0x7fff_ffff) by (nonlinear_arith)
                requires
                    0 <= self.num <= 0x7fff_ffff,
                    0 <= inverse <= 0x7fff_ffff,
            ;
        }
        FieldElement::reduce(self.num as i64 * inverse as i64, self.prime)
    }
}

} // verus!
