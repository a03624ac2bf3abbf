use vstd::prelude::*;

use crate::bignat::BigNat;
use crate::error::EvalError;

verus! {

/// The exact value `num / den` of a number.
pub ghost struct Rational {
    pub num: int,
    pub den: int,
}

pub open spec fn rat(num: int, den: int) -> Rational {
    Rational { num, den }
}

pub open spec fn rat_add(a: Rational, b: Rational) -> Rational {
    rat(a.num * b.den + b.num * a.den, a.den * b.den)
}

pub open spec fn rat_sub(a: Rational, b: Rational) -> Rational {
    rat(a.num * b.den - b.num * a.den, a.den * b.den)
}

pub open spec fn rat_mul(a: Rational, b: Rational) -> Rational {
    rat(a.num * b.num, a.den * b.den)
}

pub open spec fn rat_neg(a: Rational) -> Rational {
    rat(-a.num, a.den)
}

/// The quotient, with the sign carried by the numerator.
pub open spec fn rat_div(a: Rational, b: Rational) -> Result<Rational, EvalError> {
    if b.num == 0 {
        Err(EvalError::DivisionByZero)
    } else if b.num > 0 {
        Ok(rat(a.num * b.den, a.den * b.num))
    } else {
        Ok(rat(-(a.num * b.den), a.den * -b.num))
    }
}

pub open spec fn rat_recip(a: Rational) -> Result<Rational, EvalError> {
    if a.num == 0 {
        Err(EvalError::DivisionByZero)
    } else if a.num > 0 {
        Ok(rat(a.den, a.num))
    } else {
        Ok(rat(-a.den, -a.num))
    }
}

/// `a` multiplied by itself `k` times, starting from one.
pub open spec fn rat_pow_nat(a: Rational, k: nat) -> Rational
    decreases k,
{
    if k == 0 {
        rat(1, 1)
    } else {
        rat_mul(rat_pow_nat(a, (k - 1) as nat), a)
    }
}

/// `a` raised to a whole exponent; a negative one raises the reciprocal.
pub open spec fn rat_pow(a: Rational, e: Rational) -> Result<Rational, EvalError> {
    if e.num % e.den != 0 {
        Err(EvalError::NonIntegerExponent)
    } else if e.num / e.den >= 0 {
        Ok(rat_pow_nat(a, (e.num / e.den) as nat))
    } else {
        match rat_recip(a) {
            Ok(r) => Ok(rat_pow_nat(r, (-(e.num / e.den)) as nat)),
            Err(err) => Err(err),
        }
    }
}

/// The two cross products that order `a` against `b`.
pub open spec fn rat_cross(a: Rational, b: Rational) -> (int, int) {
    (a.num * b.den, b.num * a.den)
}

/// An unbounded integer: a sign and a magnitude.
#[derive(Debug)]
pub struct BigInt {
    neg: bool,
    mag: BigNat,
}

impl View for BigInt {
    type V = int;

    closed spec fn view(&self) -> int {
        if self.neg {
            -(self.mag@ as int)
        } else {
            self.mag@ as int
        }
    }
}

impl Clone for BigInt {
    fn clone(&self) -> (r: BigInt)
        ensures
            r@ == self@,
    {
        BigInt { neg: self.neg, mag: self.mag.clone() }
    }
}

impl BigInt {
    pub fn from_nat(n: BigNat) -> (r: BigInt)
        ensures
            r@ == n@ as int,
    {
        BigInt { neg: false, mag: n }
    }

    pub fn from_i64(n: i64) -> (r: BigInt)
        ensures
            r@ == n as int,
    {
        if n < 0 {
            let m: u64 = (-(n + 1)) as u64 + 1;
            BigInt { neg: true, mag: BigNat::from_u64(m) }
        } else {
            BigInt { neg: false, mag: BigNat::from_u64(n as u64) }
        }
    }

    /// Whether the value is below zero.
    pub fn is_negative(&self) -> (r: bool)
        ensures
            r == (self@ < 0),
    {
        self.neg && !self.mag.is_zero()
    }

    pub fn is_zero(&self) -> (r: bool)
        ensures
            r == (self@ == 0),
    {
        self.mag.is_zero()
    }

    /// The absolute value.
    pub fn magnitude(&self) -> (r: BigNat)
        ensures
            r@ as int == if self@ < 0 { -self@ } else { self@ },
    {
        self.mag.clone()
    }

    pub fn neg(&self) -> (r: BigInt)
        ensures
            r@ == -self@,
    {
        BigInt { neg: !self.neg, mag: self.mag.clone() }
    }

    pub fn add(&self, other: &BigInt) -> (r: BigInt)
        ensures
            r@ == self@ + other@,
    {
        if self.neg == other.neg {
            BigInt { neg: self.neg, mag: self.mag.add(&other.mag) }
        } else {
            let (d, below) = self.mag.sub_borrow(&other.mag);
            if !below {
                BigInt { neg: self.neg, mag: d }
            } else {
                let (e, _) = other.mag.sub_borrow(&self.mag);
                BigInt { neg: other.neg, mag: e }
            }
        }
    }

    pub fn sub(&self, other: &BigInt) -> (r: BigInt)
        ensures
            r@ == self@ - other@,
    {
        self.add(&other.neg())
    }

    pub fn mul(&self, other: &BigInt) -> (r: BigInt)
        ensures
            r@ == self@ * other@,
    {
        let m = self.mag.mul(&other.mag);
        let r = BigInt { neg: self.neg != other.neg, mag: m };
        proof {
            let a = self.mag@ as int;
            let b = other.mag@ as int;
            assert((-a) * b == -(a * b)) by (nonlinear_arith);
            assert(a * (-b) == -(a * b)) by (nonlinear_arith);
            assert((-a) * (-b) == a * b) by (nonlinear_arith);
        }
        r
    }

    pub fn mul_nat(&self, n: &BigNat) -> (r: BigInt)
        ensures
            r@ == self@ * n@,
    {
        self.mul(&BigInt { neg: false, mag: n.clone() })
    }

    pub fn less(&self, other: &BigInt) -> (r: bool)
        ensures
            r == (self@ < other@),
    {
        self.sub(other).is_negative()
    }

    pub fn equal(&self, other: &BigInt) -> (r: bool)
        ensures
            r == (self@ == other@),
    {
        self.sub(other).is_zero()
    }
}

/// A number held exactly as a fraction of two unbounded integers; the
/// denominator is always positive. Fractions are not reduced.
#[derive(Debug)]
pub struct Number {
    num: BigInt,
    den: BigNat,
}

impl View for Number {
    type V = Rational;

    closed spec fn view(&self) -> Rational {
        rat(self.num@, self.den@ as int)
    }
}

pub open spec fn lift(r: Result<Number, EvalError>) -> Result<Rational, EvalError> {
    match r {
        Ok(n) => Ok(n@),
        Err(e) => Err(e),
    }
}

impl Clone for Number {
    fn clone(&self) -> (r: Number)
        ensures
            r@ == self@,
    {
        proof {
            use_type_invariant(self);
        }
        Number { num: self.num.clone(), den: self.den.clone() }
    }
}

impl Number {
    #[verifier::type_invariant]
    spec fn inv(&self) -> bool {
        self.den@ > 0
    }

    /// The whole number `n`.
    pub fn integer(n: i64) -> (r: Number)
        ensures
            r@ == rat(n as int, 1),
    {
        Number { num: BigInt::from_i64(n), den: BigNat::from_u64(1) }
    }

    /// The fraction `num / den`, kept as given.
    pub fn fraction(num: i64, den: i64) -> (r: Number)
        requires
            den > 0,
        ensures
            r@ == rat(num as int, den as int),
    {
        Number { num: BigInt::from_i64(num), den: BigNat::from_u64(den as u64) }
    }

    /// The fraction `num / den` of two naturals.
    pub fn from_parts(num: BigNat, den: BigNat) -> (r: Number)
        requires
            den@ > 0,
        ensures
            r@ == rat(num@ as int, den@ as int),
    {
        Number { num: BigInt::from_nat(num), den }
    }

    pub fn numerator(&self) -> (r: BigInt)
        ensures
            r@ == self@.num,
    {
        self.num.clone()
    }

    pub fn denominator(&self) -> (r: BigNat)
        ensures
            r@ as int == self@.den,
            r@ > 0,
    {
        proof {
            use_type_invariant(self);
        }
        self.den.clone()
    }

    /// Whether two numbers are equal in value.
    pub fn same_value(&self, other: &Number) -> (r: bool)
        ensures
            r == (self@.num * other@.den == other@.num * self@.den),
    {
        let (x, y) = self.cross(other);
        x.equal(&y)
    }

    pub fn add(&self, other: &Number) -> (r: Number)
        ensures
            r@ == rat_add(self@, other@),
    {
        proof {
            use_type_invariant(self);
            use_type_invariant(other);
            vstd::arithmetic::mul::lemma_mul_strictly_positive(self.den@ as int, other.den@ as int);
        }
        let x = self.num.mul_nat(&other.den);
        let y = other.num.mul_nat(&self.den);
        Number { num: x.add(&y), den: self.den.mul(&other.den) }
    }

    pub fn sub(&self, other: &Number) -> (r: Number)
        ensures
            r@ == rat_sub(self@, other@),
    {
        proof {
            use_type_invariant(self);
            use_type_invariant(other);
            vstd::arithmetic::mul::lemma_mul_strictly_positive(self.den@ as int, other.den@ as int);
        }
        let x = self.num.mul_nat(&other.den);
        let y = other.num.mul_nat(&self.den);
        Number { num: x.sub(&y), den: self.den.mul(&other.den) }
    }

    pub fn mul(&self, other: &Number) -> (r: Number)
        ensures
            r@ == rat_mul(self@, other@),
    {
        proof {
            use_type_invariant(self);
            use_type_invariant(other);
            vstd::arithmetic::mul::lemma_mul_strictly_positive(self.den@ as int, other.den@ as int);
        }
        Number { num: self.num.mul(&other.num), den: self.den.mul(&other.den) }
    }

    pub fn div(&self, other: &Number) -> (r: Result<Number, EvalError>)
        ensures
            lift(r) == rat_div(self@, other@),
    {
        proof {
            use_type_invariant(self);
            use_type_invariant(other);
        }
        if other.num.is_zero() {
            return Err(EvalError::DivisionByZero);
        }
        let x = self.num.mul_nat(&other.den);
        let m = other.num.magnitude();
        proof {
            vstd::arithmetic::mul::lemma_mul_strictly_positive(self.den@ as int, m@ as int);
        }
        let y = self.den.mul(&m);
        if other.num.is_negative() {
            Ok(Number { num: x.neg(), den: y })
        } else {
            Ok(Number { num: x, den: y })
        }
    }

    pub fn neg(&self) -> (r: Number)
        ensures
            r@ == rat_neg(self@),
    {
        proof {
            use_type_invariant(self);
        }
        Number { num: self.num.neg(), den: self.den.clone() }
    }

    pub fn recip(&self) -> (r: Result<Number, EvalError>)
        ensures
            lift(r) == rat_recip(self@),
    {
        if self.num.is_zero() {
            return Err(EvalError::DivisionByZero);
        }
        let d = BigInt::from_nat(self.denominator());
        let m = self.num.magnitude();
        if self.num.is_negative() {
            Ok(Number { num: d.neg(), den: m })
        } else {
            Ok(Number { num: d, den: m })
        }
    }

    /// The cross products `self.num * other.den` and `other.num * self.den`.
    pub fn cross(&self, other: &Number) -> (r: (BigInt, BigInt))
        ensures
            (r.0@, r.1@) == rat_cross(self@, other@),
    {
        (self.num.mul_nat(&other.den), other.num.mul_nat(&self.den))
    }
}

/// Where `m` lies against the multiples of `d`: exactly on the `i`-th, or
/// strictly between two of them.
proof fn lemma_multiple_or_not(m: int, d: int, i: int, x: int)
    requires
        d > 0,
        i >= 0,
        m >= 0,
        x == m || x == -m,
        i * d >= m,
        i == 0 || (i - 1) * d < m,
    ensures
        (x % d == 0) == (i * d == m),
        i * d == m && x == m ==> x / d == i,
        i * d == m && x == -m ==> x / d == -i,
{
    vstd::arithmetic::div_mod::lemma_fundamental_div_mod(x, d);
    vstd::arithmetic::div_mod::lemma_mod_bound(x, d);
    let q = x / d;
    let r = x % d;
    if i * d == m {
        if x == m {
            vstd::arithmetic::div_mod::lemma_fundamental_div_mod_converse(x, d, i, 0);
        } else {
            assert(x == (-i) * d + 0) by (nonlinear_arith)
                requires x == -m, m == i * d;
            vstd::arithmetic::div_mod::lemma_fundamental_div_mod_converse(x, d, -i, 0);
        }
    } else {
        if r == 0 {
            assert(false) by (nonlinear_arith)
                requires
                    d > 0, i >= 1, x == d * q, x == m || x == -m,
                    (i - 1) * d < m, m < i * d;
        }
    }
}

impl Number {
    /// This number raised to a whole exponent; an exponent that is no whole
    /// number is refused.
    pub fn pow(&self, exponent: &Number) -> (r: Result<Number, EvalError>)
        ensures
            lift(r) == rat_pow(self@, exponent@),
    {
        proof {
            use_type_invariant(exponent);
        }
        let m = exponent.num.magnitude();
        let d = exponent.denominator();
        let ghost x = exponent@.num;
        let mut count = BigNat::zero();
        let ghost mut i: int = 0;
        let mut more = count.lt(&m);
        while more
            invariant
                more == (count@ < m@),
                d@ > 0,
                count@ == i * d@,
                i >= 0,
                i == 0 || (i - 1) * d@ < m@,
                count@ < m@ + d@,
            decreases m@ + d@ - count@,
        {
            let ghost before = count@;
            count = count.add(&d);
            assert(count@ > before);
            proof {
                i = i + 1;
                assert(count@ == i * d@) by (nonlinear_arith)
                    requires count@ == (i - 1) * d@ + d@;
            }
            more = count.lt(&m);
        }
        proof {
            lemma_multiple_or_not(m@ as int, d@ as int, i, x);
        }
        if m.lt(&count) {
            return Err(EvalError::NonIntegerExponent);
        }
        let base = if exponent.num.is_negative() {
            match self.recip() {
                Ok(b) => b,
                Err(e) => return Err(e),
            }
        } else {
            self.clone()
        };
        let mut acc = Number::integer(1);
        let mut c2 = BigNat::zero();
        let ghost mut j: int = 0;
        let mut more2 = c2.lt(&m);
        while more2
            invariant
                more2 == (c2@ < m@),
                d@ > 0,
                m@ == i * d@,
                c2@ == j * d@,
                0 <= j <= i,
                acc@ == rat_pow_nat(base@, j as nat),
                c2@ < m@ + d@,
            decreases m@ + d@ - c2@,
        {
            proof {
                assert(j < i) by (nonlinear_arith)
                    requires j * d@ < i * d@, d@ > 0;
            }
            let ghost before = c2@;
            c2 = c2.add(&d);
            assert(c2@ > before);
            acc = acc.mul(&base);
            proof {
                j = j + 1;
                assert(c2@ == j * d@) by (nonlinear_arith)
                    requires c2@ == (j - 1) * d@ + d@;
            }
            more2 = c2.lt(&m);
        }
        proof {
            assert(j == i) by (nonlinear_arith)
                requires j * d@ >= i * d@, j <= i, d@ > 0;
        }
        Ok(acc)
    }
}

} // verus!
