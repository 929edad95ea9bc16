//! Decimal rendering of fractions: the short form and the mixed-number
//! form, built character by character against an exact sequence-of-chars
//! specification.

use crate::fraction::MyFraction;
use vstd::prelude::*;
use vstd::string::StringExecFns;

verus! {

/// The character for one decimal digit.
pub open spec fn digit_char(d: nat) -> char {
    if d == 0 {
        '0'
    } else if d == 1 {
        '1'
    } else if d == 2 {
        '2'
    } else if d == 3 {
        '3'
    } else if d == 4 {
        '4'
    } else if d == 5 {
        '5'
    } else if d == 6 {
        '6'
    } else if d == 7 {
        '7'
    } else if d == 8 {
        '8'
    } else {
        '9'
    }
}

/// The decimal digits of a natural number, most significant first, with no
/// leading zero except for the number zero itself.
pub open spec fn dec_digits(n: nat) -> Seq<char>
    decreases n,
{
    if n < 10 {
        seq![digit_char(n)]
    } else {
        dec_digits(n / 10).push(digit_char(n % 10))
    }
}

/// The canonical decimal rendering of an integer: a minus sign for a
/// negative value, then the digits of the magnitude.
pub open spec fn dec_str(n: int) -> Seq<char> {
    if n < 0 {
        seq!['-'] + dec_digits((-n) as nat)
    } else {
        dec_digits(n as nat)
    }
}

/// Appends the character of one decimal digit.
fn push_digit(s: &mut String, d: u8)
    requires
        d < 10,
    ensures
        final(s)@ == old(s)@ + seq![digit_char(d as nat)],
{
    proof {
        reveal_strlit("0");
        reveal_strlit("1");
        reveal_strlit("2");
        reveal_strlit("3");
        reveal_strlit("4");
        reveal_strlit("5");
        reveal_strlit("6");
        reveal_strlit("7");
        reveal_strlit("8");
        reveal_strlit("9");
    }
    let c: &str = if d == 0 {
        "0"
    } else if d == 1 {
        "1"
    } else if d == 2 {
        "2"
    } else if d == 3 {
        "3"
    } else if d == 4 {
        "4"
    } else if d == 5 {
        "5"
    } else if d == 6 {
        "6"
    } else if d == 7 {
        "7"
    } else if d == 8 {
        "8"
    } else {
        "9"
    };
    proof {
        assert(c@ =~= seq![digit_char(d as nat)]);
    }
    s.append(c);
}

/// Appends the decimal digits of a non-negative number.
fn push_decimal(s: &mut String, n: u128)
    ensures
        final(s)@ == old(s)@ + dec_digits(n as nat),
    decreases n,
{
    if n < 10 {
        push_digit(s, n as u8);
    } else {
        push_decimal(s, n / 10);
        push_digit(s, (n % 10) as u8);
        proof {
            assert(final(s)@ =~= old(s)@ + dec_digits(n as nat));
        }
    }
}

/// Appends the decimal rendering of a signed number, minus sign included.
fn push_int(s: &mut String, n: i128)
    requires
        n > i128::MIN,
    ensures
        final(s)@ == old(s)@ + dec_str(n as int),
{
    if n < 0 {
        proof {
            reveal_strlit("-");
        }
        s.append("-");
        push_decimal(s, (-n) as u128);
        proof {
            assert(final(s)@ =~= old(s)@ + dec_str(n as int));
        }
    } else {
        push_decimal(s, n as u128);
    }
}

impl MyFraction {
    /// The short rendering: the numerator alone over a denominator of one,
    /// otherwise the pair in parentheses.
    pub open spec fn display_view(self) -> Seq<char> {
        if self.denominator == 1 {
            dec_str(self.numerator as int)
        } else {
            seq!['('] + dec_str(self.numerator as int) + seq!['/'] + dec_str(
                self.denominator as int,
            ) + seq![')']
        }
    }

    /// The mixed-number rendering: a whole number alone over a denominator
    /// of one; a parenthesized proper fraction when the numerator is below
    /// the denominator (every negative numerator falls here, and keeps its
    /// sign inside the parentheses); otherwise the whole part followed by
    /// the parenthesized remainder over the denominator.
    pub open spec fn mixed_view(self) -> Seq<char> {
        let n = self.numerator as int;
        let d = self.denominator as int;
        if d == 1 {
            dec_str(n)
        } else if n < d {
            seq!['('] + dec_str(n) + seq!['/'] + dec_str(d) + seq![')']
        } else {
            dec_str((n - n % d) / d) + seq!['('] + dec_str(n % d) + seq!['/'] + dec_str(d) + seq![
                ')',
            ]
        }
    }

    /// Renders the fraction in its short form.
    pub fn as_string(&self) -> (r: String)
        requires
            self.numerator > i128::MIN,
            self.denominator > i128::MIN,
        ensures
            r@ == self.display_view(),
    {
        let mut s = String::new();
        if self.denominator == 1 {
            push_int(&mut s, self.numerator);
            proof {
                assert(s@ =~= self.display_view());
            }
            return s;
        }
        proof {
            reveal_strlit("(");
            reveal_strlit("/");
            reveal_strlit(")");
        }
        s.append("(");
        push_int(&mut s, self.numerator);
        s.append("/");
        push_int(&mut s, self.denominator);
        s.append(")");
        proof {
            assert(s@ =~= self.display_view());
        }
        s
    }

    /// Renders the fraction as a mixed number.
    pub fn as_mixed(&self) -> (r: String)
        requires
            self.denominator > 0,
            self.numerator > i128::MIN,
        ensures
            r@ == self.mixed_view(),
    {
        let mut s = String::new();
        if self.denominator == 1 {
            push_int(&mut s, self.numerator);
            proof {
                assert(s@ =~= self.mixed_view());
            }
            return s;
        }
        proof {
            reveal_strlit("(");
            reveal_strlit("/");
            reveal_strlit(")");
        }
        if self.numerator < self.denominator {
            s.append("(");
            push_int(&mut s, self.numerator);
            s.append("/");
            push_int(&mut s, self.denominator);
            s.append(")");
            proof {
                assert(s@ =~= self.mixed_view());
            }
            return s;
        }
        let rem = self.numerator % self.denominator;
        let whole = (self.numerator - rem) / self.denominator;
        push_int(&mut s, whole);
        s.append("(");
        push_int(&mut s, rem);
        s.append("/");
        push_int(&mut s, self.denominator);
        s.append(")");
        proof {
            assert(s@ =~= self.mixed_view());
        }
        s
    }
}

} // verus!
