//! Greatest common divisor: the Euclidean specification, the divisibility
//! facts the fraction type's contracts rest on, and a verified executable
//! computation.

use vstd::arithmetic::div_mod::{
    lemma_fundamental_div_mod, lemma_fundamental_div_mod_converse_mod, lemma_mod_multiples_basic,
    lemma_mod_self_0, lemma_small_mod,
};
use vstd::prelude::*;

verus! {

/// The greatest common divisor of two natural numbers, by Euclid's rule.
/// `gcd(a, 0) == a`, so `gcd(0, 0) == 0`; whenever one argument is positive
/// the result is positive.
pub open spec fn gcd(a: nat, b: nat) -> nat
    decreases b,
{
    if b == 0 {
        a
    } else {
        gcd(b, a % b)
    }
}

/// `d` divides `x` exactly.
pub open spec fn divides(d: nat, x: nat) -> bool {
    d > 0 && x % d == 0
}

/// A positive multiple of `d` is at least `d`.
pub proof fn lemma_divides_le(d: nat, x: nat)
    requires
        divides(d, x),
        x > 0,
    ensures
        d <= x,
{
    lemma_fundamental_div_mod(x as int, d as int);
    assert(x == d * (x as int / d as int));
    if x as int / d as int <= 0 {
        assert(d * (x as int / d as int) <= 0) by (nonlinear_arith)
            requires
                d > 0,
                x as int / d as int <= 0,
        ;
    }
    assert(x as int / d as int >= 1);
    assert(d * (x as int / d as int) >= d) by (nonlinear_arith)
        requires
            d > 0,
            x as int / d as int >= 1,
    ;
}

/// If `d` divides `x`, then `x` is `d` times the quotient `x / d`.
pub proof fn lemma_divides_exact(d: nat, x: nat)
    requires
        divides(d, x),
    ensures
        x == d * (x / d),
{
    lemma_fundamental_div_mod(x as int, d as int);
}

/// A divisor of two numbers divides any sum `q * b + r` of them; stated in
/// the form needed to walk one step of Euclid's rule backwards.
proof fn lemma_divides_step(d: nat, b: nat, r: nat, q: int, x: nat)
    requires
        divides(d, b),
        divides(d, r),
        x == q * b + r,
    ensures
        divides(d, x),
{
    lemma_divides_exact(d, b);
    assert(q * b == (q * (b / d) as int) * d) by (nonlinear_arith)
        requires
            b == d * (b / d),
    ;
    lemma_divides_exact(d, r);
    assert(x == (q * (b / d) as int + (r / d) as int) * d + 0) by (nonlinear_arith)
        requires
            x == q * b + r,
            q * b == (q * (b / d) as int) * d,
            r == d * (r / d),
    ;
    lemma_fundamental_div_mod_converse_mod(
        x as int,
        d as int,
        q * (b / d) as int + (r / d) as int,
        0,
    );
}

/// The greatest common divisor divides both of its arguments, and is
/// positive as soon as one argument is.
pub proof fn lemma_gcd_divides(a: nat, b: nat)
    requires
        a > 0 || b > 0,
    ensures
        gcd(a, b) > 0,
        divides(gcd(a, b), a),
        divides(gcd(a, b), b),
    decreases b,
{
    if b == 0 {
        lemma_mod_self_0(a as int);
        lemma_small_mod(0, a);
    } else {
        lemma_gcd_divides(b, a % b);
        let g = gcd(b, a % b);
        lemma_fundamental_div_mod(a as int, b as int);
        lemma_divides_step(g, b, a % b, a as int / b as int, a);
    }
}

/// Any common divisor of `a` and `b` divides their greatest common divisor.
pub proof fn lemma_gcd_greatest(a: nat, b: nat, d: nat)
    requires
        divides(d, a),
        divides(d, b),
    ensures
        divides(d, gcd(a, b)),
    decreases b,
{
    if b == 0 {
    } else {
        lemma_fundamental_div_mod(a as int, b as int);
        lemma_divides_exact(d, a);
        lemma_divides_exact(d, b);
        let q = a as int / b as int;
        assert(a % b == ((a / d) as int - q * (b / d) as int) * d + 0) by (nonlinear_arith)
            requires
                a == d * (a / d),
                b == d * (b / d),
                a % b == a - (a as int / b as int) * b,
                q == a as int / b as int,
        ;
        lemma_fundamental_div_mod_converse_mod(
            (a % b) as int,
            d as int,
            (a / d) as int - q * (b / d) as int,
            0,
        );
        lemma_gcd_greatest(b, a % b, d);
    }
}

/// Dividing two numbers by their greatest common divisor leaves a coprime
/// pair: the heart of reduction to lowest terms.
pub proof fn lemma_gcd_quotients_coprime(a: nat, b: nat)
    requires
        a > 0 || b > 0,
    ensures
        gcd(a / gcd(a, b), b / gcd(a, b)) == 1,
{
    let g = gcd(a, b);
    lemma_gcd_divides(a, b);
    let a1 = a / g;
    let b1 = b / g;
    lemma_divides_exact(g, a);
    lemma_divides_exact(g, b);
    if a1 == 0 && b1 == 0 {
        assert(a == g * 0 && b == g * 0);
        assert(false);
    }
    lemma_gcd_divides(a1, b1);
    let c = gcd(a1, b1);
    lemma_divides_exact(c, a1);
    lemma_divides_exact(c, b1);
    // c * g divides a and b, hence divides g; g > 0 forces c == 1.
    assert(a == (a1 / c) as int * (c * g) + 0) by (nonlinear_arith)
        requires
            a == g * a1,
            a1 == c * (a1 / c),
    ;
    assert(b == (b1 / c) as int * (c * g) + 0) by (nonlinear_arith)
        requires
            b == g * b1,
            b1 == c * (b1 / c),
    ;
    assert(c * g > 0) by (nonlinear_arith)
        requires
            c > 0,
            g > 0,
    ;
    lemma_fundamental_div_mod_converse_mod(a as int, (c * g) as int, (a1 / c) as int, 0);
    assert(divides(c * g, a));
    lemma_fundamental_div_mod_converse_mod(b as int, (c * g) as int, (b1 / c) as int, 0);
    assert(divides(c * g, b));
    lemma_gcd_greatest(a, b, c * g);
    lemma_divides_le(c * g, g);
    if c > 1 {
        assert(c * g > g * 1) by (nonlinear_arith)
            requires
                c > 1,
                g > 0,
        ;
    }
}

/// Anything shares no factor but one with `1`.
pub proof fn lemma_gcd_one(a: nat)
    ensures
        gcd(a, 1) == 1,
{
    lemma_small_mod(0, 1);
    assert(a % 1 == 0) by {
        lemma_fundamental_div_mod(a as int, 1);
        lemma_fundamental_div_mod_converse_mod(a as int, 1, a as int, 0);
    }
    assert(gcd(a, 1) == gcd(1, 0));
}

/// Euclid's rule, executably: the greatest common divisor of two
/// non-negative machine integers, one of them positive.
pub fn gcd_exec(a: i128, b: i128) -> (r: i128)
    requires
        a >= 0,
        b >= 0,
        a > 0 || b > 0,
    ensures
        r > 0,
        r as nat == gcd(a as nat, b as nat),
{
    let mut x: i128 = a;
    let mut y: i128 = b;
    while y != 0
        invariant
            x >= 0,
            y >= 0,
            x > 0 || y > 0,
            gcd(x as nat, y as nat) == gcd(a as nat, b as nat),
        decreases y,
    {
        let t: i128 = x % y;
        proof {
            assert(t == x as nat % y as nat);
            assert(gcd(x as nat, y as nat) == gcd(y as nat, (x % y) as nat));
        }
        x = y;
        y = t;
    }
    x
}

/// Scaling both operands scales the remainder.
proof fn lemma_mod_scale(a: nat, b: nat, c: nat)
    requires
        b > 0,
        c > 0,
    ensures
        (c * a) % (c * b) == c * (a % b),
{
    lemma_fundamental_div_mod(a as int, b as int);
    let q = a as int / b as int;
    let r = a % b;
    assert(c * b > 0) by (nonlinear_arith)
        requires
            b > 0,
            c > 0,
    ;
    assert(c * a == q * (c * b) + c * r) by (nonlinear_arith)
        requires
            a == b * q + r,
    ;
    assert(c * r < c * b) by (nonlinear_arith)
        requires
            r < b,
            c > 0,
    ;
    assert(c * r >= 0) by (nonlinear_arith)
        requires
            r >= 0,
            c >= 0,
    ;
    lemma_fundamental_div_mod_converse_mod((c * a) as int, (c * b) as int, q, (c * r) as int);
}

/// Scaling both operands scales the greatest common divisor.
pub proof fn lemma_gcd_scale(a: nat, b: nat, c: nat)
    requires
        c > 0,
    ensures
        gcd(c * a, c * b) == c * gcd(a, b),
    decreases b,
{
    if b == 0 {
        assert(c * b == 0) by (nonlinear_arith)
            requires
                b == 0,
        ;
    } else {
        assert(c * b > 0) by (nonlinear_arith)
            requires
                b > 0,
                c > 0,
        ;
        lemma_mod_scale(a, b, c);
        lemma_gcd_scale(b, a % b, c);
        assert(gcd(c * a, c * b) == gcd(c * b, (c * a) % (c * b)));
    }
}

/// The two arguments of the greatest common divisor may be swapped.
pub proof fn lemma_gcd_symmetric(a: nat, b: nat)
    ensures
        gcd(a, b) == gcd(b, a),
{
    if a == 0 && b == 0 {
        assert(gcd(0, 0) == 0);
    } else {
        lemma_gcd_divides(a, b);
        lemma_gcd_divides(b, a);
        lemma_gcd_greatest(a, b, gcd(b, a));
        lemma_gcd_greatest(b, a, gcd(a, b));
        lemma_divides_le(gcd(a, b), gcd(b, a));
        lemma_divides_le(gcd(b, a), gcd(a, b));
    }
}

/// Euclid's lemma for a coprime divisor: if `d` divides the product `x * y`
/// and shares no factor with `x`, it divides `y`.
pub proof fn lemma_coprime_divides(d: nat, x: nat, y: nat)
    requires
        gcd(d, x) == 1,
        divides(d, x * y),
    ensures
        divides(d, y),
{
    if y == 0 {
        lemma_small_mod(0, d);
    } else {
        lemma_gcd_scale(d, x, y);
        assert(gcd(y * d, y * x) == y * 1) by (nonlinear_arith)
            requires
                gcd(y * d, y * x) == y * gcd(d, x),
                gcd(d, x) == 1,
        ;
        lemma_mod_multiples_basic(y as int, d as int);
        assert(divides(d, y * d));
        assert(divides(d, y * x)) by {
            assert(y * x == x * y) by (nonlinear_arith);
        }
        lemma_gcd_greatest(y * d, y * x, d);
    }
}

} // verus!
