//! Facts about divisibility, congruences and greatest common divisors that
//! the arithmetic rests on.

use vstd::prelude::*;
use vstd::arithmetic::div_mod::*;
use vstd::arithmetic::mul::*;
use vstd::arithmetic::power::*;

verus! {

/// `d` divides `n`.
pub open spec fn divides(d: int, n: int) -> bool {
    d > 0 && n % d == 0
}

/// The greatest common divisor, by Euclid's recursion.
pub open spec fn gcd_spec(a: nat, b: nat) -> nat
    decreases b,
{
    if b == 0 {
        a
    } else {
        gcd_spec(b, a % b)
    }
}

/// The Euclidean remainder of a negative number, from that of its negation.
pub proof fn lemma_mod_of_negative(x: int, m: int)
    requires
        m > 0,
    ensures
        x % m == if (-x) % m == 0 { 0 } else { m - (-x) % m },
{
    let q = (-x) / m;
    let r0 = (-x) % m;
    lemma_fundamental_div_mod(-x, m);
    if r0 == 0 {
        assert(x == (-q) * m + 0) by {
            lemma_mul_unary_negation(q, m);
            lemma_mul_is_commutative(q, m);
        }
        lemma_fundamental_div_mod_converse(x, m, -q, 0);
    } else {
        assert(x == (-q - 1) * m + (m - r0)) by {
            lemma_mul_is_distributive_sub_other_way(m, -q, 1);
            lemma_mul_unary_negation(q, m);
            lemma_mul_is_commutative(q, m);
        }
        lemma_fundamental_div_mod_converse(x, m, -q - 1, m - r0);
    }
}

/// Congruent factors give congruent products.
pub proof fn lemma_mul_congruent(a: int, b: int, c: int, d: int, m: int)
    requires
        m > 0,
        a % m == b % m,
        c % m == d % m,
    ensures
        (a * c) % m == (b * d) % m,
{
    lemma_mul_mod_noop(a, c, m);
    lemma_mul_mod_noop(b, d, m);
}

/// Congruent terms give congruent sums.
pub proof fn lemma_add_congruent(a: int, b: int, c: int, d: int, m: int)
    requires
        m > 0,
        a % m == b % m,
        c % m == d % m,
    ensures
        (a + c) % m == (b + d) % m,
{
    lemma_add_mod_noop(a, c, m);
    lemma_add_mod_noop(b, d, m);
}

/// Congruent terms give congruent differences.
pub proof fn lemma_sub_congruent(a: int, b: int, c: int, d: int, m: int)
    requires
        m > 0,
        a % m == b % m,
        c % m == d % m,
    ensures
        (a - c) % m == (b - d) % m,
{
    lemma_sub_mod_noop(a, c, m);
    lemma_sub_mod_noop(b, d, m);
}

/// `y` is the inverse of `a` modulo `m`, taken in `[0, m)`.
pub open spec fn is_inverse(a: int, y: int, m: int) -> bool {
    0 <= y < m && (a * y) % m == 1int % m
}

/// `a` has an inverse modulo `m`.
pub open spec fn invertible(a: int, m: int) -> bool {
    exists|y: int| is_inverse(a, y, m)
}

/// The inverse of `a` modulo `m` in `[0, m)`, where `a` has one.
pub open spec fn inverse_of(a: int, m: int) -> int {
    choose|y: int| is_inverse(a, y, m)
}

/// A number has at most one inverse in `[0, m)`.
pub proof fn lemma_inverse_unique(a: int, y: int, z: int, m: int)
    requires
        m > 0,
        is_inverse(a, y, m),
        is_inverse(a, z, m),
    ensures
        y == z,
{
    // y = y * 1 = y * (a * z) = (a * y) * z = 1 * z = z, all modulo m.
    assert((y * (a * z)) % m == (y * 1) % m) by {
        lemma_mul_congruent(y, y, a * z, 1, m);
    }
    assert(((a * y) * z) % m == (1 * z) % m) by {
        lemma_mul_congruent(a * y, 1, z, z, m);
    }
    assert(y * (a * z) == (a * y) * z) by (nonlinear_arith);
    lemma_small_mod(y as nat, m as nat);
    lemma_small_mod(z as nat, m as nat);
}

/// An inverse that is at hand is the inverse.
pub proof fn lemma_inverse_of(a: int, y: int, m: int)
    requires
        m > 0,
        is_inverse(a, y, m),
    ensures
        invertible(a, m),
        inverse_of(a, m) == y,
{
    lemma_inverse_unique(a, y, inverse_of(a, m), m);
}

/// Whether a number is invertible depends only on its residue.
pub proof fn lemma_invertible_congruent(a: int, b: int, m: int)
    requires
        m > 0,
        a % m == b % m,
    ensures
        invertible(a, m) == invertible(b, m),
        invertible(a, m) ==> inverse_of(a, m) == inverse_of(b, m),
{
    if invertible(a, m) {
        let y = inverse_of(a, m);
        lemma_mul_congruent(a, b, y, y, m);
        lemma_inverse_of(b, y, m);
    }
    if invertible(b, m) {
        let y = inverse_of(b, m);
        lemma_mul_congruent(a, b, y, y, m);
        lemma_inverse_of(a, y, m);
    }
}

/// A multiple of `d` leaves no remainder.
pub proof fn lemma_multiple_divides(d: int, k: int)
    requires
        d > 0,
    ensures
        divides(d, k * d),
{
    lemma_mod_multiples_basic(k, d);
}

/// What `d` divides is a multiple of `d`.
pub proof fn lemma_divides_multiple(d: int, n: int)
    requires
        divides(d, n),
    ensures
        n == (n / d) * d,
{
    lemma_fundamental_div_mod(n, d);
    lemma_mul_is_commutative(d, n / d);
}

/// A common divisor of two numbers divides their integer combinations.
pub proof fn lemma_divides_combination(d: int, x: int, y: int, s: int, t: int)
    requires
        divides(d, x),
        divides(d, y),
    ensures
        divides(d, s * x + t * y),
{
    lemma_divides_multiple(d, x);
    lemma_divides_multiple(d, y);
    let k = s * (x / d) + t * (y / d);
    assert(s * x + t * y == k * d) by (nonlinear_arith)
        requires
            x == (x / d) * d,
            y == (y / d) * d,
            k == s * (x / d) + t * (y / d),
    ;
    lemma_multiple_divides(d, k);
}

/// The greatest common divisor is positive unless both numbers are zero.
pub proof fn lemma_gcd_positive(a: nat, b: nat)
    requires
        a > 0 || b > 0,
    ensures
        gcd_spec(a, b) > 0,
    decreases b,
{
    if b != 0 {
        lemma_gcd_positive(b, a % b);
    }
}

/// The greatest common divisor divides both numbers.
pub proof fn lemma_gcd_divides(a: nat, b: nat)
    requires
        a > 0 || b > 0,
    ensures
        divides(gcd_spec(a, b) as int, a as int),
        divides(gcd_spec(a, b) as int, b as int),
    decreases b,
{
    lemma_gcd_positive(a, b);
    let g = gcd_spec(a, b) as int;
    if b == 0 {
        lemma_mod_self_0(a as int);
        assert(0int % g == 0) by {
            lemma_small_mod(0, g as nat);
        }
    } else {
        lemma_gcd_divides(b, a % b);
        // a = (a / b) * b + a % b
        let (x, y) = (a as int, b as int);
        let (q, r) = (x / y, x % y);
        lemma_fundamental_div_mod(x, y);
        lemma_divides_combination(g, y, r, q, 1);
        assert(q * y + 1 * r == x) by (nonlinear_arith)
            requires
                x == y * q + r,
        ;
    }
}

/// Every common divisor divides the greatest common divisor.
pub proof fn lemma_gcd_greatest(a: nat, b: nat, d: int)
    requires
        divides(d, a as int),
        divides(d, b as int),
    ensures
        divides(d, gcd_spec(a, b) as int),
    decreases b,
{
    if b != 0 {
        let (x, y) = (a as int, b as int);
        let (q, r) = (x / y, x % y);
        lemma_fundamental_div_mod(x, y);
        lemma_divides_combination(d, x, y, 1, -q);
        assert(1 * x + (-q) * y == r) by (nonlinear_arith)
            requires
                x == y * q + r,
        ;
        lemma_gcd_greatest(b, a % b, d);
    }
}

/// A positive number is at least as large as each of its positive divisors.
pub proof fn lemma_divides_bound(d: int, n: int)
    requires
        d > 0,
        n > 0,
        divides(d, n),
    ensures
        d <= n,
{
    lemma_divides_multiple(d, n);
    let k = n / d;
    if k <= 0 {
        assert(k * d <= 0) by (nonlinear_arith)
            requires
                k <= 0,
                d > 0,
        ;
    } else {
        assert(k * d >= d) by (nonlinear_arith)
            requires
                k >= 1,
                d > 0,
        ;
    }
}

/// A number that shares a factor above 1 with the modulus has no inverse.
pub proof fn lemma_common_divisor_not_invertible(a: int, m: int, d: int)
    requires
        m > 0,
        d > 1,
        divides(d, a),
        divides(d, m),
    ensures
        !invertible(a, m),
{
    if invertible(a, m) {
        let y = inverse_of(a, m);
        lemma_divides_bound(d, m);
        lemma_small_mod(1, m as nat);
        // a * y = q * m + 1, so d divides 1.
        lemma_fundamental_div_mod(a * y, m);
        let q = (a * y) / m;
        lemma_divides_combination(d, a, m, y, -q);
        assert(y * a + (-q) * m == 1) by (nonlinear_arith)
            requires
                a * y == m * q + 1,
        ;
        lemma_divides_bound(d, 1);
    }
}

/// One step of square-and-multiply keeps `acc * base^e` unchanged modulo `m`.
pub proof fn lemma_pow_step(acc: int, base: int, e: nat, m: int)
    requires
        m > 0,
        e > 0,
    ensures
        ((if e % 2 == 1 {
            (acc * base) % m
        } else {
            acc
        }) * pow((base * base) % m, e / 2)) % m == (acc * pow(base, e)) % m,
{
    let h = e / 2;
    let sq = (base * base) % m;
    // pow(sq, h) is congruent to pow(base, 2 * h)
    lemma_pow_mod_noop(base * base, h, m);
    lemma_square_is_pow2(base);
    lemma_pow_multiplies(base, 2, h);
    assert(pow(sq, h) % m == pow(base, 2 * h) % m);
    if e % 2 == 1 {
        assert(e == 2 * h + 1);
        lemma_pow_adds(base, 1, 2 * h);
        lemma_pow1(base);
        assert(pow(base, e) == base * pow(base, 2 * h));
        lemma_mul_mod_noop_left(acc * base, pow(sq, h), m);
        lemma_mul_congruent(acc * base, acc * base, pow(sq, h), pow(base, 2 * h), m);
        lemma_mul_is_associative(acc, base, pow(base, 2 * h));
    } else {
        assert(e == 2 * h);
        lemma_mul_congruent(acc, acc, pow(sq, h), pow(base, 2 * h), m);
    }
}

} // verus!
