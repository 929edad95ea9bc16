//! The fraction value type: a signed numerator over a positive denominator,
//! kept in lowest terms by every constructor and operation.

use crate::gcd::{
    divides, gcd, gcd_exec, lemma_coprime_divides, lemma_divides_exact, lemma_divides_le,
    lemma_gcd_divides, lemma_gcd_greatest, lemma_gcd_one, lemma_gcd_quotients_coprime,
    lemma_gcd_symmetric,
};
use core::cmp::Ordering;
use vstd::arithmetic::div_mod::{
    lemma_div_basics, lemma_div_basics_4, lemma_div_basics_5, lemma_mod_multiples_basic,
    lemma_mod_self_0, lemma_small_mod,
};
use vstd::math::abs;
use vstd::prelude::*;

verus! {

/// An exact rational number. A value produced by this library's functions
/// always satisfies `wf`: positive denominator, numerator and denominator
/// coprime. The fields are public, as plain data; `simplify` turns any pair
/// with a non-zero denominator into the canonical form.
#[derive(Debug, Clone, Copy, PartialEq, Eq, Structural)]
pub struct MyFraction {
    pub numerator: i128,
    pub denominator: i128,
}

/// The factor that normalization removes: the greatest common divisor of
/// the two magnitudes.
pub open spec fn common_factor(n: int, d: int) -> nat {
    gcd(abs(n), abs(d))
}

/// The numerator of the pair `n / d` reduced to lowest terms, the sign of
/// the value carried on the numerator.
pub open spec fn norm_num(n: int, d: int) -> int {
    let q = abs(n) as int / common_factor(n, d) as int;
    if (n < 0) != (d < 0) {
        -q
    } else {
        q
    }
}

/// The denominator of the pair `n / d` reduced to lowest terms: always
/// positive when `d != 0`.
pub open spec fn norm_den(n: int, d: int) -> int {
    abs(d) as int / common_factor(n, d) as int
}

impl MyFraction {
    /// The invariant of every fraction this library hands out: the
    /// denominator is positive and the pair is in lowest terms.
    pub open spec fn wf(self) -> bool {
        &&& self.denominator > 0
        &&& gcd(abs(self.numerator as int), self.denominator as nat) == 1
    }

    /// Reduction to lowest terms with the sign moved onto the numerator,
    /// by the Euclidean greatest common divisor.
    pub fn simplify(self) -> (r: Self)
        requires
            self.denominator != 0,
            self.numerator > i128::MIN,
            self.denominator > i128::MIN,
        ensures
            r.numerator == norm_num(self.numerator as int, self.denominator as int),
            r.denominator == norm_den(self.numerator as int, self.denominator as int),
            r.wf(),
            r.numerator * self.denominator == self.numerator * r.denominator,
            self.wf() ==> r == self,
    {
        let n = self.numerator;
        let d = self.denominator;
        let an: i128 = if n < 0 {
            -n
        } else {
            n
        };
        let ad: i128 = if d < 0 {
            -d
        } else {
            d
        };
        let g: i128 = gcd_exec(an, ad);
        proof {
            lemma_gcd_divides(an as nat, ad as nat);
            lemma_divides_exact(g as nat, an as nat);
            lemma_divides_exact(g as nat, ad as nat);
            lemma_div_basics_4(an as int, g as int);
            lemma_div_basics_5(an as int, g as int);
            lemma_div_basics_4(ad as int, g as int);
            lemma_div_basics_5(ad as int, g as int);
        }
        let qn: i128 = an / g;
        let qd: i128 = ad / g;
        proof {
            assert(qd > 0) by (nonlinear_arith)
                requires
                    ad == g * qd,
                    ad > 0,
                    g > 0,
                    qd >= 0,
            ;
            lemma_gcd_quotients_coprime(an as nat, ad as nat);
            assert(qn * ad == an * qd) by (nonlinear_arith)
                requires
                    an == g * qn,
                    ad == g * qd,
            ;
        }
        let r = if (n < 0) != (d < 0) {
            MyFraction { numerator: -qn, denominator: qd }
        } else {
            MyFraction { numerator: qn, denominator: qd }
        };
        proof {
            assert(r.numerator * d == n * r.denominator) by (nonlinear_arith)
                requires
                    qn * ad == an * qd,
                    (n >= 0 && an == n) || (n < 0 && an == -n),
                    (d >= 0 && ad == d) || (d < 0 && ad == -d),
                    r.denominator == qd,
                    ((n < 0) != (d < 0) && r.numerator == -qn) || ((n < 0) == (d < 0)
                        && r.numerator == qn),
            ;
            if self.wf() {
                lemma_norm_of_wf(self);
            }
        }
        r
    }

    /// Construction from a numerator and a non-zero denominator; the result
    /// is the pair reduced to lowest terms, with a positive denominator.
    pub fn new(num: i128, den: i128) -> (r: Self)
        requires
            den != 0,
            num > i128::MIN,
            den > i128::MIN,
        ensures
            r.numerator == norm_num(num as int, den as int),
            r.denominator == norm_den(num as int, den as int),
            r.wf(),
            r.numerator * den == num * r.denominator,
    {
        (Self { numerator: num, denominator: den }).simplify()
    }
}

/// Every value the intermediate arithmetic produces must lie in the machine
/// range; the lower bound is kept strict so that a magnitude never
/// overflows.
pub open spec fn fits(x: int) -> bool {
    i128::MIN < x <= i128::MAX
}

/// The numerator of a sum before normalization: numerators combine directly
/// over a shared denominator, otherwise by cross-multiplication.
pub open spec fn sum_num(a: MyFraction, b: MyFraction) -> int {
    if a.denominator == b.denominator {
        a.numerator + b.numerator
    } else {
        a.numerator * b.denominator + b.numerator * a.denominator
    }
}

/// The denominator of a sum or difference before normalization.
pub open spec fn sum_den(a: MyFraction, b: MyFraction) -> int {
    if a.denominator == b.denominator {
        a.denominator as int
    } else {
        a.denominator * b.denominator
    }
}

/// The numerator of a difference before normalization.
pub open spec fn diff_num(a: MyFraction, b: MyFraction) -> int {
    if a.denominator == b.denominator {
        a.numerator - b.numerator
    } else {
        a.numerator * b.denominator - b.numerator * a.denominator
    }
}

impl MyFraction {
    /// The sum of two fractions, normalized.
    pub fn add(self, rhs: Self) -> (r: Self)
        requires
            self.denominator != 0,
            rhs.denominator != 0,
            fits(sum_num(self, rhs)),
            fits(sum_den(self, rhs)),
            self.denominator != rhs.denominator ==> fits(self.numerator * rhs.denominator) && fits(
                rhs.numerator * self.denominator,
            ),
        ensures
            r.numerator == norm_num(sum_num(self, rhs), sum_den(self, rhs)),
            r.denominator == norm_den(sum_num(self, rhs), sum_den(self, rhs)),
            r.wf(),
            r.numerator * (self.denominator * rhs.denominator) == (self.numerator
                * rhs.denominator + rhs.numerator * self.denominator) * r.denominator,
    {
        let r = if self.denominator == rhs.denominator {
            (Self {
                numerator: self.numerator + rhs.numerator,
                denominator: self.denominator,
            }).simplify()
        } else {
            proof {
                assert(self.denominator * rhs.denominator != 0) by (nonlinear_arith)
                    requires
                        self.denominator != 0,
                        rhs.denominator != 0,
                ;
            }
            (Self {
                numerator: self.numerator * rhs.denominator + rhs.numerator * self.denominator,
                denominator: self.denominator * rhs.denominator,
            }).simplify()
        };
        proof {
            if self.denominator == rhs.denominator {
                assert(r.numerator * (self.denominator * rhs.denominator) == (self.numerator
                    * rhs.denominator + rhs.numerator * self.denominator) * r.denominator)
                    by (nonlinear_arith)
                    requires
                        r.numerator * self.denominator == (self.numerator + rhs.numerator)
                            * r.denominator,
                        rhs.denominator == self.denominator,
                ;
            }
        }
        r
    }

    /// The difference of two fractions, normalized.
    pub fn sub(self, rhs: Self) -> (r: Self)
        requires
            self.denominator != 0,
            rhs.denominator != 0,
            fits(diff_num(self, rhs)),
            fits(sum_den(self, rhs)),
            self.denominator != rhs.denominator ==> fits(self.numerator * rhs.denominator) && fits(
                rhs.numerator * self.denominator,
            ),
        ensures
            r.numerator == norm_num(diff_num(self, rhs), sum_den(self, rhs)),
            r.denominator == norm_den(diff_num(self, rhs), sum_den(self, rhs)),
            r.wf(),
            r.numerator * (self.denominator * rhs.denominator) == (self.numerator
                * rhs.denominator - rhs.numerator * self.denominator) * r.denominator,
    {
        let r = if self.denominator == rhs.denominator {
            (Self {
                numerator: self.numerator - rhs.numerator,
                denominator: self.denominator,
            }).simplify()
        } else {
            proof {
                assert(self.denominator * rhs.denominator != 0) by (nonlinear_arith)
                    requires
                        self.denominator != 0,
                        rhs.denominator != 0,
                ;
            }
            (Self {
                numerator: self.numerator * rhs.denominator - rhs.numerator * self.denominator,
                denominator: self.denominator * rhs.denominator,
            }).simplify()
        };
        proof {
            if self.denominator == rhs.denominator {
                assert(r.numerator * (self.denominator * rhs.denominator) == (self.numerator
                    * rhs.denominator - rhs.numerator * self.denominator) * r.denominator)
                    by (nonlinear_arith)
                    requires
                        r.numerator * self.denominator == (self.numerator - rhs.numerator)
                            * r.denominator,
                        rhs.denominator == self.denominator,
                ;
            }
        }
        r
    }

    /// The product of two fractions, normalized.
    pub fn mul(self, rhs: Self) -> (r: Self)
        requires
            self.denominator != 0,
            rhs.denominator != 0,
            fits(self.numerator * rhs.numerator),
            fits(self.denominator * rhs.denominator),
        ensures
            r.numerator == norm_num(
                self.numerator * rhs.numerator,
                self.denominator * rhs.denominator,
            ),
            r.denominator == norm_den(
                self.numerator * rhs.numerator,
                self.denominator * rhs.denominator,
            ),
            r.wf(),
            r.numerator * (self.denominator * rhs.denominator) == (self.numerator * rhs.numerator)
                * r.denominator,
    {
        proof {
            assert(self.denominator * rhs.denominator != 0) by (nonlinear_arith)
                requires
                    self.denominator != 0,
                    rhs.denominator != 0,
            ;
        }
        (Self {
            numerator: self.numerator * rhs.numerator,
            denominator: self.denominator * rhs.denominator,
        }).simplify()
    }

    /// The quotient of two fractions, normalized: `(a/b) / (c/d)` is
    /// `(a*d) / (b*c)`. The divisor's numerator must not be zero; dividing
    /// by a fraction equal to zero has no defined result.
    pub fn div(self, rhs: Self) -> (r: Self)
        requires
            self.denominator != 0,
            rhs.denominator != 0,
            rhs.numerator != 0,
            fits(self.numerator * rhs.denominator),
            fits(self.denominator * rhs.numerator),
        ensures
            r.numerator == norm_num(
                self.numerator * rhs.denominator,
                self.denominator * rhs.numerator,
            ),
            r.denominator == norm_den(
                self.numerator * rhs.denominator,
                self.denominator * rhs.numerator,
            ),
            r.wf(),
            r.numerator * (self.denominator * rhs.numerator) == (self.numerator * rhs.denominator)
                * r.denominator,
    {
        proof {
            assert(self.denominator * rhs.numerator != 0) by (nonlinear_arith)
                requires
                    self.denominator != 0,
                    rhs.numerator != 0,
            ;
        }
        (Self {
            numerator: self.numerator * rhs.denominator,
            denominator: self.denominator * rhs.numerator,
        }).simplify()
    }

    /// Division guarded against a zero divisor: `None` exactly when the
    /// divisor's numerator is zero, otherwise the quotient.
    pub fn checked_div(self, rhs: Self) -> (r: Option<Self>)
        requires
            self.denominator != 0,
            rhs.denominator != 0,
            rhs.numerator != 0 ==> fits(self.numerator * rhs.denominator) && fits(
                self.denominator * rhs.numerator,
            ),
        ensures
            r is Some <==> rhs.numerator != 0,
            rhs.numerator != 0 ==> {
                let q = r->Some_0;
                &&& q.numerator == norm_num(
                    self.numerator * rhs.denominator,
                    self.denominator * rhs.numerator,
                )
                &&& q.denominator == norm_den(
                    self.numerator * rhs.denominator,
                    self.denominator * rhs.numerator,
                )
                &&& q.wf()
            },
    {
        if rhs.numerator == 0 {
            None
        } else {
            Some(self.div(rhs))
        }
    }

    /// In-place addition: replaces the value with the sum.
    pub fn add_assign(&mut self, rhs: Self)
        requires
            old(self).denominator != 0,
            rhs.denominator != 0,
            fits(sum_num(*old(self), rhs)),
            fits(sum_den(*old(self), rhs)),
            old(self).denominator != rhs.denominator ==> fits(
                old(self).numerator * rhs.denominator,
            ) && fits(rhs.numerator * old(self).denominator),
        ensures
            final(self).numerator == norm_num(sum_num(*old(self), rhs), sum_den(*old(self), rhs)),
            final(self).denominator == norm_den(
                sum_num(*old(self), rhs),
                sum_den(*old(self), rhs),
            ),
            final(self).wf(),
    {
        *self = (*self).add(rhs);
    }

    /// In-place subtraction: replaces the value with the difference.
    pub fn sub_assign(&mut self, rhs: Self)
        requires
            old(self).denominator != 0,
            rhs.denominator != 0,
            fits(diff_num(*old(self), rhs)),
            fits(sum_den(*old(self), rhs)),
            old(self).denominator != rhs.denominator ==> fits(
                old(self).numerator * rhs.denominator,
            ) && fits(rhs.numerator * old(self).denominator),
        ensures
            final(self).numerator == norm_num(diff_num(*old(self), rhs), sum_den(*old(self), rhs)),
            final(self).denominator == norm_den(
                diff_num(*old(self), rhs),
                sum_den(*old(self), rhs),
            ),
            final(self).wf(),
    {
        *self = (*self).sub(rhs);
    }
    /// In-place addition of an integer.
    pub fn add_assign_int(&mut self, rhs: i128)
        requires
            old(self).denominator != 0,
            old(self).denominator > i128::MIN,
            fits(rhs * old(self).denominator),
            fits(old(self).numerator + rhs * old(self).denominator),
        ensures
            final(self).numerator == norm_num(
                old(self).numerator + rhs * old(self).denominator,
                old(self).denominator as int,
            ),
            final(self).denominator == norm_den(
                old(self).numerator + rhs * old(self).denominator,
                old(self).denominator as int,
            ),
            final(self).wf(),
    {
        *self = (*self).add_int(rhs);
    }

    /// In-place subtraction of an integer.
    pub fn sub_assign_int(&mut self, rhs: i128)
        requires
            old(self).denominator != 0,
            old(self).denominator > i128::MIN,
            fits(rhs * old(self).denominator),
            fits(old(self).numerator - rhs * old(self).denominator),
        ensures
            final(self).numerator == norm_num(
                old(self).numerator - rhs * old(self).denominator,
                old(self).denominator as int,
            ),
            final(self).denominator == norm_den(
                old(self).numerator - rhs * old(self).denominator,
                old(self).denominator as int,
            ),
            final(self).wf(),
    {
        *self = (*self).sub_int(rhs);
    }

}

/// A fraction already in canonical form normalizes to itself.
pub proof fn lemma_norm_of_wf(f: MyFraction)
    requires
        f.wf(),
    ensures
        norm_num(f.numerator as int, f.denominator as int) == f.numerator as int,
        norm_den(f.numerator as int, f.denominator as int) == f.denominator as int,
{
    lemma_div_basics(abs(f.numerator as int) as int);
    lemma_div_basics(f.denominator as int);
}

/// Normalization is idempotent: reducing an already reduced pair changes
/// nothing.
pub proof fn lemma_norm_idempotent(n: int, d: int)
    requires
        d != 0,
    ensures
        norm_num(norm_num(n, d), norm_den(n, d)) == norm_num(n, d),
        norm_den(norm_num(n, d), norm_den(n, d)) == norm_den(n, d),
{
    let g = common_factor(n, d);
    lemma_gcd_divides(abs(n), abs(d));
    lemma_divides_exact(g, abs(n));
    lemma_divides_exact(g, abs(d));
    let nn = norm_num(n, d);
    let nd = norm_den(n, d);
    assert(nd > 0) by (nonlinear_arith)
        requires
            abs(d) == g * (abs(d) as int / g as int),
            nd == abs(d) as int / g as int,
            abs(d) > 0,
            g > 0,
            nd >= 0,
    ;
    assert(abs(nn) == abs(n) as int / g as int);
    assert(abs(nd) == nd);
    lemma_gcd_quotients_coprime(abs(n), abs(d));
    assert(common_factor(nn, nd) == 1);
    lemma_div_basics(abs(nn) as int);
    lemma_div_basics(nd);
}

impl MyFraction {
    /// A fraction equal to the given integer: the integer over a
    /// denominator of one, already in lowest terms.
    pub fn from_int(value: i128) -> (r: Self)
        ensures
            r.numerator == value,
            r.denominator == 1,
            r.wf(),
    {
        proof {
            lemma_gcd_one(abs(value as int));
        }
        Self { numerator: value, denominator: 1 }
    }

    /// The sum of a fraction and an integer: the integer scales onto the
    /// existing denominator.
    pub fn add_int(self, rhs: i128) -> (r: Self)
        requires
            self.denominator != 0,
            self.denominator > i128::MIN,
            fits(rhs * self.denominator),
            fits(self.numerator + rhs * self.denominator),
        ensures
            r.numerator == norm_num(
                self.numerator + rhs * self.denominator,
                self.denominator as int,
            ),
            r.denominator == norm_den(
                self.numerator + rhs * self.denominator,
                self.denominator as int,
            ),
            r.wf(),
            r.numerator * self.denominator == (self.numerator + rhs * self.denominator)
                * r.denominator,
    {
        (Self {
            numerator: self.numerator + rhs * self.denominator,
            denominator: self.denominator,
        }).simplify()
    }

    /// The difference of a fraction and an integer.
    pub fn sub_int(self, rhs: i128) -> (r: Self)
        requires
            self.denominator != 0,
            self.denominator > i128::MIN,
            fits(rhs * self.denominator),
            fits(self.numerator - rhs * self.denominator),
        ensures
            r.numerator == norm_num(
                self.numerator - rhs * self.denominator,
                self.denominator as int,
            ),
            r.denominator == norm_den(
                self.numerator - rhs * self.denominator,
                self.denominator as int,
            ),
            r.wf(),
            r.numerator * self.denominator == (self.numerator - rhs * self.denominator)
                * r.denominator,
    {
        (Self {
            numerator: self.numerator - rhs * self.denominator,
            denominator: self.denominator,
        }).simplify()
    }

    /// The difference with the integer on the left: `lhs - self`.
    pub fn int_sub(lhs: i128, rhs: Self) -> (r: Self)
        requires
            rhs.denominator != 0,
            rhs.denominator > i128::MIN,
            fits(lhs * rhs.denominator),
            fits(lhs * rhs.denominator - rhs.numerator),
        ensures
            r.numerator == norm_num(
                lhs * rhs.denominator - rhs.numerator,
                rhs.denominator as int,
            ),
            r.denominator == norm_den(
                lhs * rhs.denominator - rhs.numerator,
                rhs.denominator as int,
            ),
            r.wf(),
            r.numerator * rhs.denominator == (lhs * rhs.denominator - rhs.numerator)
                * r.denominator,
    {
        (Self {
            numerator: lhs * rhs.denominator - rhs.numerator,
            denominator: rhs.denominator,
        }).simplify()
    }

    /// The product of a fraction and an integer: only the numerator scales.
    pub fn mul_int(self, rhs: i128) -> (r: Self)
        requires
            self.denominator != 0,
            self.denominator > i128::MIN,
            fits(self.numerator * rhs),
        ensures
            r.numerator == norm_num(self.numerator * rhs, self.denominator as int),
            r.denominator == norm_den(self.numerator * rhs, self.denominator as int),
            r.wf(),
            r.numerator * self.denominator == (self.numerator * rhs) * r.denominator,
    {
        (Self { numerator: self.numerator * rhs, denominator: self.denominator }).simplify()
    }

    /// The quotient of a fraction by a non-zero integer: only the
    /// denominator scales.
    pub fn div_int(self, rhs: i128) -> (r: Self)
        requires
            self.denominator != 0,
            rhs != 0,
            self.numerator > i128::MIN,
            fits(self.denominator * rhs),
        ensures
            r.numerator == norm_num(self.numerator as int, self.denominator * rhs),
            r.denominator == norm_den(self.numerator as int, self.denominator * rhs),
            r.wf(),
            r.numerator * (self.denominator * rhs) == self.numerator * r.denominator,
    {
        proof {
            assert(self.denominator * rhs != 0) by (nonlinear_arith)
                requires
                    self.denominator != 0,
                    rhs != 0,
            ;
        }
        (Self { numerator: self.numerator, denominator: self.denominator * rhs }).simplify()
    }

    /// The quotient with the integer on the left: `lhs / self`. The
    /// fraction's numerator becomes the denominator and must not be zero.
    pub fn int_div(lhs: i128, rhs: Self) -> (r: Self)
        requires
            rhs.denominator != 0,
            rhs.numerator != 0,
            rhs.numerator > i128::MIN,
            fits(lhs * rhs.denominator),
        ensures
            r.numerator == norm_num(lhs * rhs.denominator, rhs.numerator as int),
            r.denominator == norm_den(lhs * rhs.denominator, rhs.numerator as int),
            r.wf(),
            r.numerator * rhs.numerator == (lhs * rhs.denominator) * r.denominator,
    {
        (Self { numerator: lhs * rhs.denominator, denominator: rhs.numerator }).simplify()
    }

    /// Exact comparison of two fractions by cross-multiplication; never
    /// through floating point.
    pub fn cmp(self, rhs: Self) -> (r: Ordering)
        requires
            self.denominator > 0,
            rhs.denominator > 0,
            self.denominator != rhs.denominator ==> fits(self.numerator * rhs.denominator) && fits(
                rhs.numerator * self.denominator,
            ),
        ensures
            (r == Ordering::Less) <==> self.numerator * rhs.denominator < rhs.numerator
                * self.denominator,
            (r == Ordering::Equal) <==> self.numerator * rhs.denominator == rhs.numerator
                * self.denominator,
            (r == Ordering::Greater) <==> self.numerator * rhs.denominator > rhs.numerator
                * self.denominator,
            self.wf() && rhs.wf() ==> ((r == Ordering::Equal) <==> self == rhs),
    {
        proof {
            if self.wf() && rhs.wf() && self.numerator * rhs.denominator == rhs.numerator
                * self.denominator {
                lemma_lowest_terms_unique(self, rhs);
            }
        }
        if self.denominator == rhs.denominator {
            proof {
                lemma_mul_order_preserved(
                    self.numerator as int,
                    rhs.numerator as int,
                    self.denominator as int,
                );
            }
            if self.numerator < rhs.numerator {
                Ordering::Less
            } else if self.numerator == rhs.numerator {
                Ordering::Equal
            } else {
                Ordering::Greater
            }
        } else {
            let x = self.numerator * rhs.denominator;
            let y = rhs.numerator * self.denominator;
            if x < y {
                Ordering::Less
            } else if x == y {
                Ordering::Equal
            } else {
                Ordering::Greater
            }
        }
    }

    /// Strictly less than.
    pub fn lt(self, rhs: Self) -> (r: bool)
        requires
            self.denominator > 0,
            rhs.denominator > 0,
            self.denominator != rhs.denominator ==> fits(self.numerator * rhs.denominator) && fits(
                rhs.numerator * self.denominator,
            ),
        ensures
            r <==> self.numerator * rhs.denominator < rhs.numerator * self.denominator,
    {
        matches!(self.cmp(rhs), Ordering::Less)
    }

    /// Less than or equal.
    pub fn le(self, rhs: Self) -> (r: bool)
        requires
            self.denominator > 0,
            rhs.denominator > 0,
            self.denominator != rhs.denominator ==> fits(self.numerator * rhs.denominator) && fits(
                rhs.numerator * self.denominator,
            ),
        ensures
            r <==> self.numerator * rhs.denominator <= rhs.numerator * self.denominator,
    {
        !matches!(self.cmp(rhs), Ordering::Greater)
    }

    /// Strictly greater than.
    pub fn gt(self, rhs: Self) -> (r: bool)
        requires
            self.denominator > 0,
            rhs.denominator > 0,
            self.denominator != rhs.denominator ==> fits(self.numerator * rhs.denominator) && fits(
                rhs.numerator * self.denominator,
            ),
        ensures
            r <==> self.numerator * rhs.denominator > rhs.numerator * self.denominator,
    {
        matches!(self.cmp(rhs), Ordering::Greater)
    }

    /// Greater than or equal.
    pub fn ge(self, rhs: Self) -> (r: bool)
        requires
            self.denominator > 0,
            rhs.denominator > 0,
            self.denominator != rhs.denominator ==> fits(self.numerator * rhs.denominator) && fits(
                rhs.numerator * self.denominator,
            ),
        ensures
            r <==> self.numerator * rhs.denominator >= rhs.numerator * self.denominator,
    {
        !matches!(self.cmp(rhs), Ordering::Less)
    }

    /// Equality against an integer. On a fraction in lowest terms this is
    /// exactly mathematical equality with the integer: the denominator is
    /// one and the numerator is the integer itself.
    pub fn eq_int(self, rhs: i128) -> (r: bool)
        requires
            self.wf(),
        ensures
            r <==> self.numerator == rhs * self.denominator,
    {
        proof {
            lemma_eq_int_characterization(self, rhs as int);
        }
        self.denominator == 1 && self.numerator == rhs
    }

    /// Equality with the integer on the left; equality is symmetric, so
    /// this mirrors `eq_int`.
    pub fn int_eq(lhs: i128, rhs: Self) -> (r: bool)
        requires
            rhs.wf(),
        ensures
            r <==> lhs * rhs.denominator == rhs.numerator,
    {
        rhs.eq_int(lhs)
    }

    /// Exact comparison of a fraction against an integer: the integer is
    /// read over a denominator of one and compared by cross-multiplication.
    pub fn cmp_int(self, rhs: i128) -> (r: Ordering)
        requires
            self.denominator > 0,
            fits(rhs * self.denominator),
        ensures
            (r == Ordering::Less) <==> self.numerator < rhs * self.denominator,
            (r == Ordering::Equal) <==> self.numerator == rhs * self.denominator,
            (r == Ordering::Greater) <==> self.numerator > rhs * self.denominator,
    {
        let scaled = rhs * self.denominator;
        if self.numerator < scaled {
            Ordering::Less
        } else if self.numerator == scaled {
            Ordering::Equal
        } else {
            Ordering::Greater
        }
    }

    /// Comparison with the integer on the left: `lhs` compared to `rhs`.
    pub fn int_cmp(lhs: i128, rhs: Self) -> (r: Ordering)
        requires
            rhs.denominator > 0,
            fits(lhs * rhs.denominator),
        ensures
            (r == Ordering::Less) <==> lhs * rhs.denominator < rhs.numerator,
            (r == Ordering::Equal) <==> lhs * rhs.denominator == rhs.numerator,
            (r == Ordering::Greater) <==> lhs * rhs.denominator > rhs.numerator,
    {
        let scaled = lhs * rhs.denominator;
        if scaled < rhs.numerator {
            Ordering::Less
        } else if scaled == rhs.numerator {
            Ordering::Equal
        } else {
            Ordering::Greater
        }
    }
}

/// Multiplying both sides by a positive factor preserves order and
/// equality, in both directions.
proof fn lemma_mul_order_preserved(a: int, b: int, d: int)
    requires
        d > 0,
    ensures
        (a < b) <==> (a * d < b * d),
        (a == b) <==> (a * d == b * d),
        (a > b) <==> (a * d > b * d),
{
    assert((a < b) ==> (a * d < b * d)) by (nonlinear_arith)
        requires
            d > 0,
    ;
    assert((a > b) ==> (a * d > b * d)) by (nonlinear_arith)
        requires
            d > 0,
    ;
}

/// A fraction in lowest terms equals an integer times its denominator only
/// when the denominator is one: a denominator above one shares no factor
/// with the numerator, so it cannot divide it.
proof fn lemma_eq_int_characterization(f: MyFraction, k: int)
    requires
        f.wf(),
    ensures
        (f.numerator == k * f.denominator) <==> (f.denominator == 1 && f.numerator == k),
{
    let n = f.numerator as int;
    let d = f.denominator as int;
    assert(d == 1 ==> k * d == k) by (nonlinear_arith);
    if n == k * d {
        if d != 1 {
            assert(abs(n) == abs(k) * d) by (nonlinear_arith)
                requires
                    n == k * d,
                    d > 0,
                    abs(n) == if n < 0 { -n } else { n },
                    abs(k) == if k < 0 { -k } else { k },
            ;
            lemma_mod_multiples_basic(abs(k) as int, d);
            lemma_mod_self_0(d);
            assert(divides(d as nat, abs(n)));
            assert(divides(d as nat, d as nat));
            lemma_gcd_greatest(abs(n), d as nat, d as nat);
            lemma_small_mod(1, d as nat);
            assert(false);
        }
    }
}

/// Addition is commutative: the pair that `add` normalizes is the same in
/// either operand order, so the sums are equal fractions.
pub proof fn lemma_add_commutative(a: MyFraction, b: MyFraction)
    ensures
        sum_num(a, b) == sum_num(b, a),
        sum_den(a, b) == sum_den(b, a),
        norm_num(sum_num(a, b), sum_den(a, b)) == norm_num(sum_num(b, a), sum_den(b, a)),
        norm_den(sum_num(a, b), sum_den(a, b)) == norm_den(sum_num(b, a), sum_den(b, a)),
{
    assert(a.numerator * b.denominator + b.numerator * a.denominator == b.numerator
        * a.denominator + a.numerator * b.denominator) by (nonlinear_arith);
    assert(a.denominator * b.denominator == b.denominator * a.denominator) by (nonlinear_arith);
}

/// Multiplication is commutative: the pair that `mul` normalizes is the
/// same in either operand order, so the products are equal fractions.
pub proof fn lemma_mul_commutative(a: MyFraction, b: MyFraction)
    ensures
        a.numerator * b.numerator == b.numerator * a.numerator,
        a.denominator * b.denominator == b.denominator * a.denominator,
        norm_num(a.numerator * b.numerator, a.denominator * b.denominator) == norm_num(
            b.numerator * a.numerator,
            b.denominator * a.denominator,
        ),
        norm_den(a.numerator * b.numerator, a.denominator * b.denominator) == norm_den(
            b.numerator * a.numerator,
            b.denominator * a.denominator,
        ),
{
    assert(a.numerator * b.numerator == b.numerator * a.numerator) by (nonlinear_arith);
    assert(a.denominator * b.denominator == b.denominator * a.denominator) by (nonlinear_arith);
}

/// Two fractions in lowest terms with equal cross-products are the same
/// pair: the canonical form of a rational value is unique, so structural
/// equality of normalized fractions is exactly mathematical equality.
pub proof fn lemma_lowest_terms_unique(a: MyFraction, b: MyFraction)
    requires
        a.wf(),
        b.wf(),
        a.numerator * b.denominator == b.numerator * a.denominator,
    ensures
        a == b,
{
    let n1 = a.numerator as int;
    let d1 = a.denominator as int;
    let n2 = b.numerator as int;
    let d2 = b.denominator as int;
    assert(abs(n1) * d2 == abs(n2) * d1) by (nonlinear_arith)
        requires
            n1 * d2 == n2 * d1,
            d1 > 0,
            d2 > 0,
            abs(n1) == if n1 < 0 {
                -n1
            } else {
                n1
            },
            abs(n2) == if n2 < 0 {
                -n2
            } else {
                n2
            },
    ;
    lemma_mod_multiples_basic(abs(n2) as int, d1);
    assert((abs(n1) * d2) % d1 == 0);
    assert(abs(n1) * (d2 as nat) == (abs(n1) * d2) as nat) by (nonlinear_arith)
        requires
            d2 > 0,
    ;
    lemma_gcd_symmetric(abs(n1), d1 as nat);
    lemma_coprime_divides(d1 as nat, abs(n1), d2 as nat);
    lemma_mod_multiples_basic(abs(n1) as int, d2);
    assert((abs(n2) * d1) % d2 == 0);
    assert(abs(n2) * (d1 as nat) == (abs(n2) * d1) as nat) by (nonlinear_arith)
        requires
            d1 > 0,
    ;
    lemma_gcd_symmetric(abs(n2), d2 as nat);
    lemma_coprime_divides(d2 as nat, abs(n2), d1 as nat);
    lemma_divides_le(d1 as nat, d2 as nat);
    lemma_divides_le(d2 as nat, d1 as nat);
    assert(d1 == d2);
    assert(n1 == n2) by (nonlinear_arith)
        requires
            n1 * d2 == n2 * d1,
            d1 == d2,
            d1 > 0,
    ;
}

} // verus!
