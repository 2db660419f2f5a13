//! The number theory under a prime field: divisibility by a prime, binomial
//! coefficients, and Fermat's little theorem.
use vstd::arithmetic::div_mod::{
    lemma_add_mod_noop, lemma_fundamental_div_mod, lemma_mod_multiples_basic,
    lemma_mod_multiples_vanish, lemma_mod_twice, lemma_mul_mod_noop_general, lemma_small_mod,
};
use vstd::arithmetic::power::{lemma0_pow, lemma_pow0, lemma_pow_mod_noop, pow};
use vstd::prelude::*;

verus! {

/// `p` is a prime number.
pub open spec fn is_prime(p: int) -> bool {
    p > 1 && forall|d: int| 1 < d < p ==> #[trigger] (p % d) != 0
}

/// A sum of two multiples of `m` is a multiple of `m`.
pub proof fn lemma_multiple_add(a: int, b: int, m: int)
    requires
        m > 0,
        a % m == 0,
        b % m == 0,
    ensures
        (a + b) % m == 0,
{
    lemma_add_mod_noop(a, b, m);
    lemma_small_mod(0, m as nat);
}

/// A product with a multiple of `m` is a multiple of `m`.
pub proof fn lemma_multiple_mul(a: int, k: int, m: int)
    requires
        m > 0,
        a % m == 0,
    ensures
        (a * k) % m == 0,
        (k * a) % m == 0,
{
    lemma_mul_mod_noop_general(a, k, m);
    lemma_mul_mod_noop_general(k, a, m);
    assert(0 * k == 0);
    assert(k * 0 == 0);
    lemma_small_mod(0, m as nat);
}

/// Two integers that differ by a multiple of `m` leave the same remainder.
pub proof fn lemma_congruent(a: int, b: int, m: int)
    requires
        m > 0,
        (a - b) % m == 0,
    ensures
        a % m == b % m,
{
    let k = (a - b) / m;
    lemma_fundamental_div_mod(a - b, m);
    assert(a == m * k + b);
    lemma_mod_multiples_vanish(k, b, m);
}

/// Two integers that leave the same remainder differ by a multiple of `m`.
pub proof fn lemma_congruent_difference(a: int, b: int, m: int)
    requires
        m > 0,
        a % m == b % m,
    ensures
        (a - b) % m == 0,
{
    lemma_fundamental_div_mod(a, m);
    lemma_fundamental_div_mod(b, m);
    let k = a / m - b / m;
    assert(a - b == m * k) by (nonlinear_arith)
        requires
            a == m * (a / m) + a % m,
            b == m * (b / m) + b % m,
            a % m == b % m,
            k == a / m - b / m,
    ;
    assert(a - b == k * m) by (nonlinear_arith)
        requires
            a - b == m * k,
    ;
    lemma_mod_multiples_basic(k, m);
}

/// An integer and its remainder differ by a multiple of `m`.
pub proof fn lemma_remainder_difference(a: int, m: int)
    requires
        m > 0,
    ensures
        (a % m - a) % m == 0,
        (a - a % m) % m == 0,
{
    lemma_mod_twice(a, m);
    lemma_congruent_difference(a % m, a, m);
    lemma_congruent_difference(a, a % m, m);
}

/// The negative of a multiple of `m` is a multiple of `m`.
pub proof fn lemma_multiple_neg(a: int, m: int)
    requires
        m > 0,
        a % m == 0,
    ensures
        (-a) % m == 0,
{
    lemma_multiple_mul(a, -1, m);
    assert(a * (-1) == -a);
}

/// Euclid's lemma for a factor below the prime: if `p` divides `x * y` and
/// `0 < x < p`, then `p` divides `y`.
pub proof fn lemma_prime_divides_cofactor(p: int, x: int, y: int)
    requires
        is_prime(p),
        0 < x < p,
        (x * y) % p == 0,
    ensures
        y % p == 0,
    decreases x,
{
    if x == 1 {
        assert(x * y == y) by (nonlinear_arith)
            requires
                x == 1,
        ;
    } else {
        let q = p / x;
        let r = p % x;
        lemma_fundamental_div_mod(p, x);
        assert(r != 0);
        assert(0 < r < x);
        // r * y == p * y - q * (x * y), a difference of multiples of p.
        lemma_mod_multiples_basic(y, p);
        lemma_multiple_mul(x * y, -q, p);
        lemma_multiple_add(y * p, (x * y) * (-q), p);
        assert(r * y == y * p + (x * y) * (-q)) by (nonlinear_arith)
            requires
                p == x * q + r,
        ;
        lemma_prime_divides_cofactor(p, r, y);
    }
}

/// Euclid's lemma: a prime that divides a product divides one of the
/// factors.
pub proof fn lemma_prime_divides_factor(p: int, x: int, y: int)
    requires
        is_prime(p),
        (x * y) % p == 0,
    ensures
        x % p == 0 || y % p == 0,
{
    let r = x % p;
    if r != 0 {
        lemma_mul_mod_noop_general(x, y, p);
        lemma_prime_divides_cofactor(p, r, y);
    }
}

/// The number of ways to choose `k` out of `n`, by Pascal's rule.
pub open spec fn binomial(n: nat, k: nat) -> int
    decreases n,
{
    if k == 0 {
        1
    } else if n == 0 {
        0
    } else {
        binomial((n - 1) as nat, (k - 1) as nat) + binomial((n - 1) as nat, k)
    }
}

/// There is no way to choose more than all.
pub proof fn lemma_binomial_beyond(n: nat, k: nat)
    requires
        k > n,
    ensures
        binomial(n, k) == 0,
    decreases n,
{
    if n > 0 {
        lemma_binomial_beyond((n - 1) as nat, (k - 1) as nat);
        lemma_binomial_beyond((n - 1) as nat, k);
    }
}

/// There is one way to choose all.
pub proof fn lemma_binomial_all(n: nat)
    ensures
        binomial(n, n) == 1,
    decreases n,
{
    if n > 0 {
        lemma_binomial_all((n - 1) as nat);
        lemma_binomial_beyond((n - 1) as nat, n);
    }
}

/// The absorption identity `k * C(n, k) == n * C(n - 1, k - 1)`.
pub proof fn lemma_binomial_absorption(n: nat, k: nat)
    requires
        n >= 1,
        k >= 1,
    ensures
        k * binomial(n, k) == n * binomial((n - 1) as nat, (k - 1) as nat),
    decreases n,
{
    let n1 = (n - 1) as nat;
    let k1 = (k - 1) as nat;
    if n == 1 {
        if k > 1 {
            lemma_binomial_beyond(1, k);
            assert(binomial(0, k1) == 0);
        } else {
            assert(binomial(1, 1) == binomial(0, 0) + binomial(0, 1));
        }
    } else {
        let upper = binomial(n1, k1);
        let same = binomial(n1, k);
        assert(binomial(n, k) == upper + same);
        lemma_binomial_absorption(n1, k);
        let below = binomial((n1 - 1) as nat, k1);
        assert(k * same == n1 * below);
        if k == 1 {
            assert(upper == 1);
            assert(below == 1);
            assert(k * (upper + same) == n * upper) by (nonlinear_arith)
                requires
                    k == 1,
                    upper == 1,
                    below == 1,
                    k * same == n1 * below,
                    n == n1 + 1,
            ;
        } else {
            lemma_binomial_absorption(n1, k1);
            let corner = binomial((n1 - 1) as nat, (k1 - 1) as nat);
            assert(k1 * upper == n1 * corner);
            assert(upper == corner + below);
            assert(k * (upper + same) == n * upper) by (nonlinear_arith)
                requires
                    k1 * upper == n1 * corner,
                    k * same == n1 * below,
                    upper == corner + below,
                    k == k1 + 1,
                    n == n1 + 1,
            ;
        }
    }
}

/// A prime divides each of its binomial coefficients but the first and the
/// last.
pub proof fn lemma_prime_divides_binomial(p: nat, k: nat)
    requires
        is_prime(p as int),
        0 < k < p,
    ensures
        binomial(p, k) % (p as int) == 0,
{
    lemma_binomial_absorption(p, k);
    let inner = binomial((p - 1) as nat, (k - 1) as nat);
    lemma_mod_multiples_basic(inner, p as int);
    assert(inner * p == p * inner) by (nonlinear_arith);
    assert((k * binomial(p, k)) % (p as int) == 0);
    lemma_prime_divides_cofactor(p as int, k as int, binomial(p, k));
}

/// The sum of `C(n, i) * a^i` for `i` from 0 to `m`.
pub open spec fn binomial_sum(n: nat, m: nat, a: int) -> int
    decreases m,
{
    binomial(n, m) * pow(a, m) + if m == 0 {
        0
    } else {
        binomial_sum(n, (m - 1) as nat, a)
    }
}

/// Multiplying a partial sum of row `n - 1` by `a + 1` gives the partial sum
/// of row `n` and one term that looks ahead.
proof fn lemma_binomial_sum_step(n: nat, m: nat, a: int)
    requires
        n >= 1,
    ensures
        (a + 1) * binomial_sum((n - 1) as nat, m, a) == binomial_sum(n, m, a) + binomial(
            (n - 1) as nat,
            m,
        ) * pow(a, m + 1),
    decreases m,
{
    let n1 = (n - 1) as nat;
    let power = pow(a, m);
    assert(pow(a, m + 1) == a * power) by {
        reveal(pow);
    }
    if m == 0 {
        lemma_pow0(a);
        assert(binomial_sum(n1, 0, a) == 1 * power + 0);
        assert(binomial_sum(n, 0, a) == 1 * power + 0);
        assert(binomial(n1, 0) == 1);
    } else {
        let m1 = (m - 1) as nat;
        lemma_binomial_sum_step(n, m1, a);
        let before = binomial_sum(n1, m1, a);
        let before_next = binomial_sum(n, m1, a);
        let upper = binomial(n1, m1);
        let same = binomial(n1, m);
        assert(binomial(n, m) == upper + same);
        assert(m1 + 1 == m);
        assert((a + 1) * before == before_next + upper * power);
        assert(binomial_sum(n1, m, a) == same * power + before);
        assert(binomial_sum(n, m, a) == (upper + same) * power + before_next);
        assert((a + 1) * (same * power + before) == ((upper + same) * power + before_next) + same
            * (a * power)) by (nonlinear_arith)
            requires
                (a + 1) * before == before_next + upper * power,
        ;
    }
}

/// The binomial theorem for `(a + 1)^n`.
pub proof fn lemma_binomial_theorem(a: int, n: nat)
    ensures
        pow(a + 1, n) == binomial_sum(n, n, a),
    decreases n,
{
    if n == 0 {
        lemma_pow0(a + 1);
        lemma_pow0(a);
        assert(binomial_sum(0, 0, a) == 1 * pow(a, 0) + 0);
    } else {
        let n1 = (n - 1) as nat;
        lemma_binomial_theorem(a, n1);
        assert(pow(a + 1, n) == (a + 1) * pow(a + 1, n1)) by {
            reveal(pow);
        }
        lemma_binomial_sum_step(n, n1, a);
        lemma_binomial_all(n1);
        lemma_binomial_all(n);
        assert(n1 + 1 == n);
        let power = pow(a, n);
        assert(binomial_sum(n, n, a) == 1 * power + binomial_sum(n, n1, a));
        assert((a + 1) * binomial_sum(n1, n1, a) == binomial_sum(n, n1, a) + 1 * power);
    }
}

/// Modulo a prime `p`, the partial sums of row `p` stay at 1 until the last
/// term joins.
proof fn lemma_binomial_sum_mod_prime(p: nat, m: nat, a: int)
    requires
        is_prime(p as int),
        m < p,
    ensures
        binomial_sum(p, m, a) % (p as int) == 1,
    decreases m,
{
    if m == 0 {
        lemma_pow0(a);
        assert(binomial_sum(p, 0, a) == 1 * pow(a, 0) + 0);
        lemma_small_mod(1, p);
    } else {
        let m1 = (m - 1) as nat;
        lemma_binomial_sum_mod_prime(p, m1, a);
        lemma_prime_divides_binomial(p, m);
        let term = binomial(p, m) * pow(a, m);
        lemma_multiple_mul(binomial(p, m), pow(a, m), p as int);
        let before = binomial_sum(p, m1, a);
        lemma_add_mod_noop(term, before, p as int);
        lemma_small_mod(1, p);
    }
}

/// Modulo a prime `p`, `(a + 1)^p` is `a^p + 1`.
pub proof fn lemma_successor_pow_prime(a: int, p: nat)
    requires
        is_prime(p as int),
    ensures
        pow(a + 1, p) % (p as int) == (pow(a, p) + 1) % (p as int),
{
    let below = (p - 1) as nat;
    lemma_binomial_theorem(a, p);
    lemma_binomial_sum_mod_prime(p, below, a);
    lemma_binomial_all(p);
    let power = pow(a, p);
    let before = binomial_sum(p, below, a);
    assert(binomial_sum(p, p, a) == 1 * power + before);
    lemma_add_mod_noop(power, before, p as int);
    lemma_add_mod_noop(power, 1, p as int);
    lemma_small_mod(1, p);
}

/// Fermat's little theorem, in the form `a^p = a` modulo a prime `p`.
pub proof fn lemma_fermat_pow_prime(a: nat, p: nat)
    requires
        is_prime(p as int),
    ensures
        pow(a as int, p) % (p as int) == (a as int) % (p as int),
    decreases a,
{
    if a == 0 {
        lemma0_pow(p);
    } else {
        let a1 = (a - 1) as nat;
        lemma_fermat_pow_prime(a1, p);
        lemma_successor_pow_prime(a1 as int, p);
        lemma_add_mod_noop(pow(a1 as int, p), 1, p as int);
        lemma_add_mod_noop(a1 as int, 1, p as int);
    }
}

/// Fermat's little theorem: `a^(p - 1) = 1` modulo a prime `p` that does not
/// divide `a`.
pub proof fn lemma_fermat_little(a: int, p: int)
    requires
        is_prime(p),
        a % p != 0,
    ensures
        pow(a, (p - 1) as nat) % p == 1,
{
    let r = a % p;
    let e = (p - 1) as nat;
    let power = pow(r, e);
    lemma_fermat_pow_prime(r as nat, p as nat);
    assert(pow(r, p as nat) == r * power) by {
        reveal(pow);
    }
    lemma_small_mod(r as nat, p as nat);
    // r * power and r leave the same remainder, so p divides r * (power - 1).
    lemma_congruent_difference(r * power, r, p);
    assert(r * power - r == r * (power - 1)) by (nonlinear_arith);
    lemma_prime_divides_cofactor(p, r, power - 1);
    lemma_congruent(power, 1, p);
    lemma_small_mod(1, p as nat);
    lemma_pow_mod_noop(a, e, p);
}

} // verus!
