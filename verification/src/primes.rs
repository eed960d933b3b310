//! Arithmetic modulo a prime: units, Euclid's lemma and Fermat's little
//! theorem.

use vstd::prelude::*;
use vstd::arithmetic::div_mod::*;
use vstd::arithmetic::mul::*;
use vstd::arithmetic::power::*;
use crate::number_theory::{
    divides, gcd_spec, inverse_of, invertible, is_inverse, lemma_divides_bound, lemma_gcd_divides,
    lemma_gcd_positive, lemma_mul_congruent,
};

verus! {

/// `p` is a prime number.
pub open spec fn is_prime(p: int) -> bool {
    p >= 2 && forall|d: int| 1 < d < p ==> #[trigger] (p % d) != 0
}

/// Bezout's identity: the greatest common divisor of two numbers is an
/// integer combination of them, with the coefficients returned.
pub proof fn lemma_bezout(a: nat, b: nat) -> (r: (int, int))
    ensures
        r.0 * a + r.1 * b == gcd_spec(a, b),
    decreases b,
{
    if b == 0 {
        assert(1 * a + 0 * b == a) by (nonlinear_arith);
        (1, 0)
    } else {
        let (s, t) = lemma_bezout(b, a % b);
        let (x, y) = (a as int, b as int);
        let (q, rem) = (x / y, x % y);
        lemma_fundamental_div_mod(x, y);
        assert(t * x + (s - q * t) * y == s * y + t * rem) by (nonlinear_arith)
            requires
                x == y * q + rem,
        ;
        (t, s - q * t)
    }
}

/// A number without a common factor with the modulus has an inverse.
pub proof fn lemma_coprime_invertible(a: int, m: int)
    requires
        m > 0,
        gcd_spec((a % m) as nat, m as nat) == 1,
    ensures
        invertible(a, m),
{
    let a0 = a % m;
    lemma_mod_bound(a, m);
    let (s, t) = lemma_bezout(a0 as nat, m as nat);
    // s * a0 + t * m = 1, so a * s is congruent to 1
    let y = s % m;
    lemma_mod_bound(s, m);
    lemma_mod_twice(a, m);
    lemma_mod_twice(s, m);
    lemma_mul_congruent(a, a0, y, s, m);
    lemma_mod_multiples_vanish(-t, 1, m);
    assert(a0 * s == m * (-t) + 1) by {
        lemma_mul_is_commutative(s, a0);
        lemma_mul_is_commutative(t, m);
        lemma_mul_unary_negation(m, t);
    }
    assert(is_inverse(a, y, m));
}

/// Modulo a prime every number that is not a multiple of it has an inverse.
pub proof fn lemma_prime_unit(a: int, p: int)
    requires
        is_prime(p),
        a % p != 0,
    ensures
        invertible(a, p),
{
    let a0 = a % p;
    lemma_mod_bound(a, p);
    let g = gcd_spec(a0 as nat, p as nat) as int;
    lemma_gcd_positive(a0 as nat, p as nat);
    lemma_gcd_divides(a0 as nat, p as nat);
    lemma_divides_bound(g, a0);
    if g > 1 {
        assert(p % g == 0);
    }
    lemma_coprime_invertible(a, p);
}

/// A unit can be cancelled from both sides of a congruence.
pub proof fn lemma_cancel(a: int, x: int, y: int, m: int)
    requires
        m > 0,
        invertible(a, m),
        (a * x) % m == (a * y) % m,
    ensures
        x % m == y % m,
{
    let u = inverse_of(a, m);
    assert(is_inverse(a, u, m));
    // x = 1 * x is congruent to (a * u) * x = u * (a * x)
    lemma_mul_congruent(a * u, 1, x, x, m);
    lemma_mul_congruent(a * u, 1, y, y, m);
    lemma_mul_congruent(u, u, a * x, a * y, m);
    assert((a * u) * x == u * (a * x)) by (nonlinear_arith);
    assert((a * u) * y == u * (a * y)) by (nonlinear_arith);
    lemma_mod_twice(1, m);
    assert(1 * x == x && 1 * y == y);
}

/// Euclid's lemma: a prime that divides a product divides a factor.
pub proof fn lemma_euclid(a: int, b: int, p: int)
    requires
        is_prime(p),
        (a * b) % p == 0,
    ensures
        a % p == 0 || b % p == 0,
{
    if a % p != 0 {
        lemma_prime_unit(a, p);
        assert(a * 0 == 0);
        lemma_small_mod(0, p as nat);
        lemma_cancel(a, b, 0, p);
    }
}

/// Modulo a prime, numbers with the same square are equal or opposite.
pub proof fn lemma_square_roots(x: int, y: int, p: int)
    requires
        is_prime(p),
        (x * x) % p == (y * y) % p,
    ensures
        x % p == y % p || x % p == (-y) % p,
{
    lemma_mod_equivalence(x * x, y * y, p);
    assert((x - y) * (x + y) == x * x - y * y) by (nonlinear_arith);
    lemma_euclid(x - y, x + y, p);
    if (x - y) % p == 0 {
        lemma_mod_equivalence(x, y, p);
    } else {
        lemma_mod_equivalence(x, -y, p);
    }
}

/// The product of the entries of a sequence.
pub open spec fn product(s: Seq<int>) -> int
    decreases s.len(),
{
    if s.len() == 0 {
        1
    } else {
        product(s.drop_last()) * s.last()
    }
}

/// An entry can be taken out of a product as a factor.
proof fn lemma_product_remove(s: Seq<int>, i: int)
    requires
        0 <= i < s.len(),
    ensures
        product(s) == s[i] * product(s.remove(i)),
    decreases s.len(),
{
    if i == s.len() - 1 {
        assert(s.remove(i) =~= s.drop_last());
        lemma_mul_is_commutative(s[i], product(s.remove(i)));
    } else {
        let dl = s.drop_last();
        lemma_product_remove(dl, i);
        assert(s.remove(i).drop_last() =~= dl.remove(i));
        assert(s.remove(i).last() == s.last());
        lemma_mul_is_associative(s[i], product(dl.remove(i)), s.last());
    }
}

/// Sequences with the same entries, in whatever order, have the same
/// product.
proof fn lemma_product_permutation(s: Seq<int>, t: Seq<int>)
    requires
        s.to_multiset() == t.to_multiset(),
    ensures
        product(s) == product(t),
    decreases s.len(),
{
    s.to_multiset_ensures();
    t.to_multiset_ensures();
    if s.len() == 0 {
    } else {
        let x = s.last();
        let dl = s.drop_last();
        assert(s[s.len() - 1] == x);
        assert(s.contains(x));
        assert(s.to_multiset().count(x) > 0);
        assert(t.to_multiset().count(x) > 0);
        assert(t.contains(x));
        let i = choose|i: int| 0 <= i < t.len() && t[i] == x;
        assert(dl =~= s.remove(s.len() - 1));
        assert(dl.to_multiset() == t.remove(i).to_multiset());
        lemma_product_permutation(dl, t.remove(i));
        lemma_product_remove(t, i);
        lemma_mul_is_commutative(x, product(t.remove(i)));
    }
}

/// The numbers `1, 2, ..., n`.
pub open spec fn units(n: nat) -> Seq<int> {
    Seq::new(n, |i: int| i + 1)
}

/// The residues of `a, 2a, ..., n*a` modulo `p`.
pub open spec fn multiples(a: int, p: int, n: nat) -> Seq<int> {
    Seq::new(n, |i: int| (a * (i + 1)) % p)
}

/// The product of the first `n` multiples of `a` is congruent to `a^n` times
/// the product of `1..n`.
proof fn lemma_product_of_multiples(a: int, p: int, n: nat)
    requires
        p > 0,
    ensures
        product(multiples(a, p, n)) % p == (pow(a, n) * product(units(n))) % p,
    decreases n,
{
    if n == 0 {
        lemma_pow0(a);
    } else {
        let k = (n - 1) as nat;
        let (s, t) = (multiples(a, p, n), units(n));
        assert(s.drop_last() =~= multiples(a, p, k));
        assert(t.drop_last() =~= units(k));
        lemma_product_of_multiples(a, p, k);
        let (ps, pt) = (product(multiples(a, p, k)), product(units(k)));
        // ps * ((a * n) % p) is congruent to (a^k * pt) * (a * n) = a^n * (pt * n)
        lemma_mod_twice(a * n, p);
        lemma_mul_congruent(ps, pow(a, k) * pt, (a * n) % p, a * n, p);
        lemma_pow_adds(a, k, 1);
        lemma_pow1(a);
        let ak = pow(a, k);
        assert((ak * pt) * (a * n) == (ak * a) * (pt * n)) by (nonlinear_arith);
    }
}

/// A prime does not divide the product of the numbers below it.
proof fn lemma_product_of_units_coprime(p: int, n: nat)
    requires
        is_prime(p),
        n < p,
    ensures
        product(units(n)) % p != 0,
    decreases n,
{
    if n == 0 {
        lemma_small_mod(1, p as nat);
    } else {
        let k = (n - 1) as nat;
        assert(units(n).drop_last() =~= units(k));
        lemma_product_of_units_coprime(p, k);
        if product(units(n)) % p == 0 {
            lemma_euclid(product(units(k)), n as int, p);
            lemma_small_mod(n, p as nat);
        }
    }
}

/// Multiplying by a unit permutes the non-zero residues of a prime.
proof fn lemma_multiples_permute(a: int, p: int)
    requires
        is_prime(p),
        a % p != 0,
    ensures
        multiples(a, p, (p - 1) as nat).to_multiset() == units((p - 1) as nat).to_multiset(),
{
    let n = (p - 1) as nat;
    let (s, t) = (multiples(a, p, n), units(n));
    lemma_prime_unit(a, p);
    let u = inverse_of(a, p);
    assert(is_inverse(a, u, p));
    lemma_small_mod(0, p as nat);
    lemma_small_mod(1, p as nat);
    // the multiples are distinct
    assert forall|i: int, j: int| 0 <= i < s.len() && 0 <= j < s.len() && i != j implies s[i]
        != s[j] by {
        if s[i] == s[j] {
            lemma_cancel(a, i + 1, j + 1, p);
            lemma_small_mod((i + 1) as nat, p as nat);
            lemma_small_mod((j + 1) as nat, p as nat);
        }
    }
    assert(s.no_duplicates());
    assert(t.no_duplicates());
    // and they are the residues 1..p-1
    assert forall|v: int| s.contains(v) <==> 1 <= v < p by {
        if s.contains(v) {
            let i = choose|i: int| 0 <= i < s.len() && s[i] == v;
            lemma_mod_bound(a * (i + 1), p);
            if v == 0 {
                lemma_euclid(a, i + 1, p);
                lemma_small_mod((i + 1) as nat, p as nat);
            }
        }
        if 1 <= v < p {
            // v = a * k for k = u * v modulo p
            let k = (u * v) % p;
            lemma_mod_bound(u * v, p);
            lemma_mod_twice(u * v, p);
            lemma_mul_congruent(a, a, k, u * v, p);
            lemma_mul_congruent(a * u, 1, v, v, p);
            assert(a * (u * v) == (a * u) * v) by (nonlinear_arith);
            assert(1 * v == v);
            lemma_small_mod(v as nat, p as nat);
            assert((a * k) % p == v);
            if k == 0 {
                assert(a * 0 == 0);
            }
            assert(s[k - 1] == v);
        }
    }
    assert forall|v: int| t.contains(v) <==> 1 <= v < p by {
        if 1 <= v < p {
            assert(t[v - 1] == v);
        }
    }
    s.lemma_multiset_has_no_duplicates();
    t.lemma_multiset_has_no_duplicates();
    s.to_multiset_ensures();
    t.to_multiset_ensures();
    assert forall|v: int| s.to_multiset().count(v) == t.to_multiset().count(v) by {
        if s.contains(v) {
            assert(t.contains(v));
            assert(s.to_multiset().contains(v));
            assert(t.to_multiset().contains(v));
        } else {
            assert(!t.contains(v));
        }
    }
    assert(s.to_multiset() =~= t.to_multiset());
}

/// Fermat's little theorem: `a^(p-1)` is congruent to 1 modulo a prime `p`
/// that does not divide `a`.
pub proof fn lemma_fermat(a: int, p: int)
    requires
        is_prime(p),
        a % p != 0,
    ensures
        pow(a, (p - 1) as nat) % p == 1,
{
    let n = (p - 1) as nat;
    let f = product(units(n));
    lemma_multiples_permute(a, p);
    lemma_product_permutation(multiples(a, p, n), units(n));
    lemma_product_of_multiples(a, p, n);
    lemma_product_of_units_coprime(p, n);
    // f is congruent to a^n * f, and f is a unit
    lemma_prime_unit(f, p);
    lemma_mul_is_commutative(pow(a, n), f);
    assert(f * 1 == f);
    lemma_cancel(f, 1, pow(a, n), p);
    lemma_small_mod(1, p as nat);
}

/// The inverse of a number in `[1, m)` without a common factor with `m`
/// multiplies with it to 1 modulo `m`.
pub proof fn lemma_inverse_correct(a: int, m: int)
    requires
        1 <= a < m,
        gcd_spec(a as nat, m as nat) == 1,
    ensures
        invertible(a, m),
        0 <= inverse_of(a, m) < m,
        (a * inverse_of(a, m)) % m == 1,
{
    lemma_small_mod(a as nat, m as nat);
    lemma_small_mod(1, m as nat);
    lemma_coprime_invertible(a, m);
    assert(is_inverse(a, inverse_of(a, m), m));
}

} // verus!
