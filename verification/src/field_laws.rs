//! The laws of field arithmetic, proved of the model [`Residue`].
//!
//! The laws that need a multiplicative inverse ask that the modulus is a
//! prime; the others hold for every positive modulus.
use crate::finite_fields::Residue;
use crate::number_theory::{is_prime, lemma_fermat_little};
use vstd::arithmetic::div_mod::{
    lemma_add_mod_noop, lemma_div_pos_is_pos, lemma_fundamental_div_mod,
    lemma_mod_add_multiples_vanish, lemma_mod_bound, lemma_mod_self_0, lemma_mod_twice,
    lemma_mul_mod_noop_general, lemma_small_mod, lemma_sub_mod_noop,
};
use vstd::arithmetic::power::{
    lemma1_pow, lemma_pow_adds, lemma_pow_mod_noop, lemma_pow_multiplies, pow,
};
use vstd::prelude::*;

verus! {

impl Residue {
    /// The zero of the field modulo `prime`.
    pub open spec fn zero(prime: int) -> Residue {
        Residue { num: 0, prime }
    }

    /// The one of the field modulo `prime`.
    pub open spec fn one(prime: int) -> Residue {
        Residue::of(1, prime)
    }

    /// Reducing an integer gives a valid residue.
    pub proof fn lemma_of_valid(value: int, prime: int)
        requires
            prime > 0,
        ensures
            Residue::of(value, prime).wf(),
            Residue::of(value, prime).prime == prime,
    {
        lemma_mod_bound(value, prime);
    }

    /// Reducing a valid residue's number gives the residue back.
    pub proof fn lemma_of_num(self)
        requires
            self.wf(),
        ensures
            Residue::of(self.num, self.prime) == self,
    {
        lemma_small_mod(self.num as nat, self.prime as nat);
    }

    /// Closure: sums, differences, products and mirror images of valid
    /// residues of one field are valid residues of that field.
    pub proof fn lemma_closed(self, rhs: Residue)
        requires
            self.compatible(rhs),
        ensures
            self.add(rhs).compatible(self),
            self.sub(rhs).compatible(self),
            self.mul(rhs).compatible(self),
            self.neg().compatible(self),
    {
        let p = self.prime;
        Residue::lemma_of_valid(self.num + rhs.num, p);
        Residue::lemma_of_valid(self.num - rhs.num, p);
        Residue::lemma_of_valid(self.num * rhs.num, p);
        Residue::lemma_of_valid(-self.num, p);
    }

    /// Closure: the power of a valid residue is a valid residue of the same
    /// field, and so is `num^(prime - 2)`.
    pub proof fn lemma_pow_closed(self, exponent: int)
        requires
            self.wf(),
        ensures
            self.pow(exponent).compatible(self),
            self.inv().compatible(self),
    {
        let p = self.prime;
        lemma_mod_bound(pow(self.num, self.effective_exponent(exponent) as nat), p);
        lemma_mod_bound(pow(self.num, 0), p);
        lemma_mod_bound(pow(self.num, (p - 2) as nat), p);
    }

    /// Closure: the quotient of valid residues of one field is a valid
    /// residue of that field.
    pub proof fn lemma_div_closed(self, rhs: Residue)
        requires
            self.compatible(rhs),
        ensures
            self.div(rhs).compatible(self),
    {
        rhs.lemma_pow_closed(0);
        self.lemma_closed(rhs.inv());
    }

    /// A difference is zero exactly when the two residues are the same.
    pub proof fn lemma_sub_is_zero(self, rhs: Residue)
        requires
            self.compatible(rhs),
        ensures
            self.sub(rhs).num == 0 <==> self == rhs,
    {
        let d = self.num - rhs.num;
        let p = self.prime;
        if d >= 0 {
            lemma_small_mod(d as nat, p as nat);
        } else {
            lemma_mod_add_multiples_vanish(d, p);
            lemma_small_mod((p + d) as nat, p as nat);
            assert(d % p == p + d);
        }
    }

    /// Addition is commutative.
    pub proof fn lemma_add_commutative(self, rhs: Residue)
        requires
            self.compatible(rhs),
        ensures
            self.add(rhs) == rhs.add(self),
    {
    }

    /// Multiplication is commutative.
    pub proof fn lemma_mul_commutative(self, rhs: Residue)
        requires
            self.compatible(rhs),
        ensures
            self.mul(rhs) == rhs.mul(self),
    {
        assert(self.num * rhs.num == rhs.num * self.num) by (nonlinear_arith);
    }

    /// Addition is associative.
    pub proof fn lemma_add_associative(self, y: Residue, z: Residue)
        requires
            self.compatible(y),
            self.compatible(z),
        ensures
            self.add(y).add(z) == self.add(y.add(z)),
    {
        let p = self.prime;
        lemma_small_mod(self.num as nat, p as nat);
        lemma_small_mod(z.num as nat, p as nat);
        lemma_add_mod_noop(self.num + y.num, z.num, p);
        lemma_add_mod_noop(self.num, y.num + z.num, p);
    }

    /// Multiplication is associative.
    pub proof fn lemma_mul_associative(self, y: Residue, z: Residue)
        requires
            self.compatible(y),
            self.compatible(z),
        ensures
            self.mul(y).mul(z) == self.mul(y.mul(z)),
    {
        let p = self.prime;
        lemma_mul_mod_noop_general(self.num * y.num, z.num, p);
        lemma_mul_mod_noop_general(self.num, y.num * z.num, p);
        assert((self.num * y.num) * z.num == self.num * (y.num * z.num)) by (nonlinear_arith);
    }

    /// Zero is neutral for addition and one for multiplication.
    pub proof fn lemma_neutral(self)
        requires
            self.wf(),
        ensures
            self.add(Residue::zero(self.prime)) == self,
            self.mul(Residue::one(self.prime)) == self,
    {
        let p = self.prime;
        self.lemma_of_num();
        lemma_mul_mod_noop_general(self.num, 1, p);
        assert(self.num * 1 == self.num);
    }

    /// The mirror image of `num` is `prime - num`, that of zero is zero.
    pub proof fn lemma_neg_value(self)
        requires
            self.wf(),
        ensures
            self.neg().num == if self.num == 0 {
                0
            } else {
                self.prime - self.num
            },
    {
        let p = self.prime;
        if self.num == 0 {
            lemma_small_mod(0, p as nat);
        } else {
            lemma_small_mod((p - self.num) as nat, p as nat);
            lemma_mod_self_0(p);
            lemma_sub_mod_noop(p, self.num, p);
            lemma_sub_mod_noop(0, self.num, p);
        }
    }

    /// A residue and its mirror image add up to zero: `x + (p - x) = 0`.
    pub proof fn lemma_add_neg(self)
        requires
            self.wf(),
        ensures
            self.add(self.neg()) == Residue::zero(self.prime),
            self.neg().add(self) == Residue::zero(self.prime),
    {
        let p = self.prime;
        self.lemma_neg_value();
        lemma_small_mod(0, p as nat);
        lemma_mod_self_0(p);
    }

    /// In a prime field `num^(prime - 2)` is the inverse of a residue that is
    /// not zero: `x * x^(p - 2) = 1`.
    pub proof fn lemma_mul_inv(self)
        requires
            self.wf(),
            is_prime(self.prime),
            self.num != 0,
        ensures
            self.mul(self.inv()) == Residue::one(self.prime),
            self.inv().mul(self) == Residue::one(self.prime),
            self.pow(self.prime - 2) == self.inv(),
            self.mul(self.pow(self.prime - 2)).num == 1,
    {
        let p = self.prime;
        let x = self.num;
        let e = (p - 2) as nat;
        let power = pow(x, e);
        lemma_small_mod(x as nat, p as nat);
        lemma_fermat_little(x, p);
        assert(pow(x, (p - 1) as nat) == x * power) by {
            reveal(pow);
        }
        lemma_mul_mod_noop_general(x, power, p);
        assert(x * (power % p) == (power % p) * x) by (nonlinear_arith);
        lemma_small_mod(1, p as nat);
        lemma_small_mod(e, (p - 1) as nat);
    }

    /// In a prime field division undoes multiplication: `(x / y) * y = x`
    /// for `y` not zero.
    pub proof fn lemma_div_mul(self, rhs: Residue)
        requires
            self.compatible(rhs),
            is_prime(self.prime),
            rhs.num != 0,
        ensures
            self.div(rhs).mul(rhs) == self,
    {
        rhs.lemma_pow_closed(0);
        rhs.lemma_mul_inv();
        self.lemma_mul_associative(rhs.inv(), rhs);
        self.lemma_neutral();
    }

    /// In a prime field the quotient is the only residue that multiplied by
    /// the divisor gives the dividend.
    pub proof fn lemma_div_unique(self, rhs: Residue, quotient: Residue)
        requires
            self.compatible(rhs),
            quotient.compatible(rhs),
            is_prime(self.prime),
            rhs.num != 0,
            quotient.mul(rhs) == self,
        ensures
            quotient == self.div(rhs),
    {
        rhs.lemma_pow_closed(0);
        rhs.lemma_mul_inv();
        quotient.lemma_mul_associative(rhs, rhs.inv());
        quotient.lemma_neutral();
    }

    /// The exponent counts only modulo `prime - 1`: raising to `e` and to
    /// `e mod (prime - 1)` give the same residue.
    pub proof fn lemma_pow_reduces_exponent(self, exponent: int)
        requires
            self.wf(),
            self.num != 0,
        ensures
            self.pow(exponent) == self.pow(exponent % (self.prime - 1)),
    {
        lemma_mod_twice(exponent, self.prime - 1);
    }

    /// In a prime field, reducing the exponent does not change the power:
    /// `pow` of a residue that is not zero is `num^e mod prime` for every
    /// `e` that is not negative.
    pub proof fn lemma_pow_is_power(self, exponent: nat)
        requires
            self.wf(),
            is_prime(self.prime),
            self.num != 0,
        ensures
            self.pow(exponent as int).num == pow(self.num, exponent) % self.prime,
    {
        let p = self.prime;
        let x = self.num;
        let order = (p - 1) as nat;
        let q = (exponent as int / (p - 1)) as nat;
        let r = (exponent as int % (p - 1)) as nat;
        lemma_fundamental_div_mod(exponent as int, p - 1);
        lemma_div_pos_is_pos(exponent as int, p - 1);
        lemma_mod_bound(exponent as int, p - 1);
        assert(exponent == order * q + r);
        // x^e == (x^(p-1))^q * x^r, and x^(p-1) leaves 1.
        lemma_pow_adds(x, order * q, r);
        lemma_pow_multiplies(x, order, q);
        let cycle = pow(x, order);
        lemma_small_mod(x as nat, p as nat);
        lemma_fermat_little(x, p);
        lemma_pow_mod_noop(cycle, q, p);
        lemma1_pow(q);
        lemma_mul_mod_noop_general(pow(cycle, q), pow(x, r), p);
        lemma_small_mod(1, p as nat);
        assert(1 * (pow(x, r) % p) == pow(x, r) % p);
        lemma_mod_twice(pow(x, r), p);
    }
}

} // verus!
