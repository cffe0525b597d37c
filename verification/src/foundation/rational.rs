//! Exact rational numbers.
//!
//! The arithmetic is performed by `num-rational`'s `BigRational`.  Between
//! operations a value is kept as the two's-complement little-endian bytes of
//! its numerator and denominator in lowest terms, so that every contract can
//! speak of the number itself: the view of a `Rational` is the pair
//! `(numerator, denominator)`, always reduced with a positive denominator.

use vstd::prelude::*;
use vstd::arithmetic::power::{lemma_pow_adds, lemma_pow_positive, pow};
use num_bigint::BigInt;
use num_rational::BigRational;
use num_traits::{Signed, Zero};
use crate::order::{int_order, Order};
use crate::text::{decimal, signed_decimal};

verus! {

/// Unsigned little-endian value of a byte string.
pub open spec fn unsigned_le(bytes: Seq<u8>) -> nat
    decreases bytes.len(),
{
    if bytes.len() == 0 {
        0
    } else {
        bytes[0] as nat + 256 * unsigned_le(bytes.skip(1))
    }
}

/// Two's-complement little-endian value of a byte string; the empty string
/// is zero.
pub open spec fn signed_le(bytes: Seq<u8>) -> int {
    if bytes.len() > 0 && bytes.last() >= 128 {
        unsigned_le(bytes) - pow(256, bytes.len())
    } else {
        unsigned_le(bytes) as int
    }
}

/// Greatest common divisor by Euclid's algorithm.
pub open spec fn spec_gcd(a: nat, b: nat) -> nat
    decreases b,
{
    if b == 0 {
        a
    } else {
        spec_gcd(b, a % b)
    }
}

pub open spec fn abs_int(x: int) -> nat {
    if x < 0 {
        (-x) as nat
    } else {
        x as nat
    }
}

/// A fraction `(numerator, denominator)`.
pub type RationalView = (int, int);

/// Lowest terms with a positive denominator.
pub open spec fn is_reduced(r: RationalView) -> bool {
    r.1 > 0 && spec_gcd(abs_int(r.0), r.1 as nat) == 1
}

/// The two fractions stand for the same number (denominators nonzero).
pub open spec fn same_value(a: RationalView, b: RationalView) -> bool {
    a.0 * b.1 == b.0 * a.1
}

pub open spec fn rat_of_int(n: int) -> RationalView {
    (n, 1)
}

pub open spec fn rat_add(a: RationalView, b: RationalView) -> RationalView {
    (a.0 * b.1 + b.0 * a.1, a.1 * b.1)
}

pub open spec fn rat_neg(a: RationalView) -> RationalView {
    (-a.0, a.1)
}

pub open spec fn rat_sub(a: RationalView, b: RationalView) -> RationalView {
    rat_add(a, rat_neg(b))
}

pub open spec fn rat_mul(a: RationalView, b: RationalView) -> RationalView {
    (a.0 * b.0, a.1 * b.1)
}

/// The quotient `a / b`, with the sign moved into the numerator.
pub open spec fn rat_div(a: RationalView, b: RationalView) -> RationalView {
    if b.0 >= 0 {
        (a.0 * b.1, a.1 * b.0)
    } else {
        (-(a.0 * b.1), -(a.1 * b.0))
    }
}

pub open spec fn rat_pow(a: RationalView, e: nat) -> RationalView {
    (pow(a.0, e), pow(a.1, e))
}

/// The sign of `a - b` for fractions with positive denominators.
pub open spec fn rat_order(a: RationalView, b: RationalView) -> int {
    int_order(a.0 * b.1, b.0 * a.1)
}

/// `numerator` for an integer, otherwise `numerator/denominator`.
pub open spec fn rational_text(r: RationalView) -> Seq<char> {
    if r.1 == 1 {
        signed_decimal(r.0)
    } else {
        signed_decimal(r.0) + seq!['/'] + decimal(r.1 as nat)
    }
}

/// An exact rational number in lowest terms.
#[derive(Debug, PartialEq, Eq, Hash)]
pub struct Rational {
    numer: Vec<u8>,
    denom: Vec<u8>,
}

impl View for Rational {
    type V = RationalView;

    closed spec fn view(&self) -> RationalView {
        (signed_le(self.numer@), signed_le(self.denom@))
    }
}

impl Rational {
    /// Every value is in lowest terms with a positive denominator.
    #[verifier::type_invariant]
    pub open spec fn is_well_formed(self) -> bool {
        is_reduced(self@)
    }
}

fn copy_bytes(bytes: &Vec<u8>) -> (out: Vec<u8>)
    ensures
        out@ == bytes@,
{
    let mut out: Vec<u8> = Vec::new();
    let mut i: usize = 0;
    while i < bytes.len()
        invariant
            i <= bytes@.len(),
            out@ == bytes@.take(i as int),
        decreases bytes@.len() - i,
    {
        out.push(bytes[i]);
        proof {
            assert(bytes@.take(i + 1) =~= bytes@.take(i as int).push(bytes@[i as int]));
        }
        i += 1;
    }
    proof {
        assert(bytes@.take(bytes@.len() as int) =~= bytes@);
    }
    out
}

impl Clone for Rational {
    fn clone(&self) -> (r: Self)
        ensures
            r@ == self@,
    {
        proof {
            use_type_invariant(self);
        }
        Rational { numer: copy_bytes(&self.numer), denom: copy_bytes(&self.denom) }
    }
}

/// Equality of fractions is an equivalence relation on nonzero denominators.
pub proof fn lemma_same_value_transitive(a: RationalView, b: RationalView, c: RationalView)
    requires
        same_value(a, b),
        same_value(b, c),
        b.1 != 0,
    ensures
        same_value(a, c),
{
    assert(b.1 * (a.0 * c.1 - c.0 * a.1) == 0) by (nonlinear_arith)
        requires
            a.0 * b.1 == b.0 * a.1,
            b.0 * c.1 == c.0 * b.1,
    ;
    assert(a.0 * c.1 - c.0 * a.1 == 0) by (nonlinear_arith)
        requires
            b.1 * (a.0 * c.1 - c.0 * a.1) == 0,
            b.1 != 0,
    ;
}

/// Multiplication respects equality of fractions.
pub proof fn lemma_mul_congruent(a: RationalView, a2: RationalView, b: RationalView, b2: RationalView)
    requires
        same_value(a, a2),
        same_value(b, b2),
    ensures
        same_value(rat_mul(a, b), rat_mul(a2, b2)),
{
    assert((a.0 * b.0) * (a2.1 * b2.1) == (a2.0 * b2.0) * (a.1 * b.1)) by (nonlinear_arith)
        requires
            a.0 * a2.1 == a2.0 * a.1,
            b.0 * b2.1 == b2.0 * b.1,
    ;
}

/// Addition respects equality of fractions.
pub proof fn lemma_add_congruent(a: RationalView, a2: RationalView, b: RationalView, b2: RationalView)
    requires
        same_value(a, a2),
        same_value(b, b2),
    ensures
        same_value(rat_add(a, b), rat_add(a2, b2)),
{
    let (x0, x1, y0, y1) = (a.0, a.1, b.0, b.1);
    let (u0, u1, v0, v1) = (a2.0, a2.1, b2.0, b2.1);
    assert((x0 * y1) * (u1 * v1) == (x0 * u1) * (y1 * v1)) by (nonlinear_arith);
    assert((y0 * x1) * (u1 * v1) == (y0 * v1) * (x1 * u1)) by (nonlinear_arith);
    assert((u0 * x1) * (y1 * v1) == (u0 * v1) * (x1 * y1)) by (nonlinear_arith);
    assert((v0 * y1) * (x1 * u1) == (v0 * u1) * (x1 * y1)) by (nonlinear_arith);
    assert((x0 * y1 + y0 * x1) * (u1 * v1) == (x0 * y1) * (u1 * v1) + (y0 * x1) * (u1 * v1))
        by (nonlinear_arith);
    assert((u0 * v1 + v0 * u1) * (x1 * y1) == (u0 * v1) * (x1 * y1) + (v0 * u1) * (x1 * y1))
        by (nonlinear_arith);
}

/// Negation and subtraction respect equality of fractions.
pub proof fn lemma_sub_congruent(a: RationalView, a2: RationalView, b: RationalView, b2: RationalView)
    requires
        same_value(a, a2),
        same_value(b, b2),
    ensures
        same_value(rat_sub(a, b), rat_sub(a2, b2)),
{
    assert((-b.0) * b2.1 == (-b2.0) * b.1) by (nonlinear_arith)
        requires
            b.0 * b2.1 == b2.0 * b.1,
    ;
    lemma_add_congruent(a, a2, rat_neg(b), rat_neg(b2));
}

/// Division respects equality of fractions with nonzero divisors.
pub proof fn lemma_div_congruent(a: RationalView, a2: RationalView, b: RationalView, b2: RationalView)
    requires
        same_value(a, a2),
        same_value(b, b2),
    ensures
        same_value(rat_div(a, b), rat_div(a2, b2)),
{
    let (p, q) = (a.0 * b.1, a.1 * b.0);
    let (p2, q2) = (a2.0 * b2.1, a2.1 * b2.0);
    assert(p * q2 == p2 * q) by (nonlinear_arith)
        requires
            a.0 * a2.1 == a2.0 * a.1,
            b.0 * b2.1 == b2.0 * b.1,
            p == a.0 * b.1,
            q == a.1 * b.0,
            p2 == a2.0 * b2.1,
            q2 == a2.1 * b2.0,
    ;
    assert((-p) * q2 == p2 * (-q)) by (nonlinear_arith)
        requires
            p * q2 == p2 * q,
    ;
    assert(p * (-q2) == (-p2) * q) by (nonlinear_arith)
        requires
            p * q2 == p2 * q,
    ;
    assert((-p) * (-q2) == (-p2) * (-q)) by (nonlinear_arith)
        requires
            p * q2 == p2 * q,
    ;
}

/// Adding a value with zero numerator keeps the value.
pub proof fn lemma_add_zero_numerator(x: RationalView, s: RationalView, p: RationalView)
    requires
        same_value(x, s),
        p.0 == 0,
    ensures
        same_value(x, rat_add(s, p)),
{
    assert(x.0 * (s.1 * p.1) == (s.0 * p.1 + p.0 * s.1) * x.1) by (nonlinear_arith)
        requires
            x.0 * s.1 == s.0 * x.1,
            p.0 == 0,
    ;
}

/// Negation respects equality of fractions.
pub proof fn lemma_neg_congruent(a: RationalView, b: RationalView)
    requires
        same_value(a, b),
    ensures
        same_value(rat_neg(a), rat_neg(b)),
{
    assert((-a.0) * b.1 == (-b.0) * a.1) by (nonlinear_arith)
        requires
            a.0 * b.1 == b.0 * a.1,
    ;
}

/// Addition of fractions is associative, exactly.
pub proof fn lemma_rat_add_associative(x: RationalView, y: RationalView, z: RationalView)
    ensures
        rat_add(rat_add(x, y), z) == rat_add(x, rat_add(y, z)),
{
    let (x0, x1) = x;
    let (y0, y1) = y;
    let (z0, z1) = z;
    assert((x0 * y1 + y0 * x1) * z1 == (x0 * y1) * z1 + (y0 * x1) * z1) by (nonlinear_arith);
    assert((y0 * z1 + z0 * y1) * x1 == (y0 * z1) * x1 + (z0 * y1) * x1) by (nonlinear_arith);
    assert((x0 * y1) * z1 == x0 * (y1 * z1)) by (nonlinear_arith);
    assert((y0 * x1) * z1 == (y0 * z1) * x1) by (nonlinear_arith);
    assert(z0 * (x1 * y1) == (z0 * y1) * x1) by (nonlinear_arith);
    assert((x1 * y1) * z1 == x1 * (y1 * z1)) by (nonlinear_arith);
}

/// Addition of fractions is commutative, exactly.
pub proof fn lemma_rat_add_commutative(x: RationalView, y: RationalView)
    ensures
        rat_add(x, y) == rat_add(y, x),
{
    assert(x.1 * y.1 == y.1 * x.1) by (nonlinear_arith);
}

/// Multiplication of fractions is commutative and associative, exactly.
pub proof fn lemma_rat_mul_laws(x: RationalView, y: RationalView, z: RationalView)
    ensures
        rat_mul(x, y) == rat_mul(y, x),
        rat_mul(rat_mul(x, y), z) == rat_mul(x, rat_mul(y, z)),
{
    assert(x.0 * y.0 == y.0 * x.0) by (nonlinear_arith);
    assert(x.1 * y.1 == y.1 * x.1) by (nonlinear_arith);
    assert((x.0 * y.0) * z.0 == x.0 * (y.0 * z.0)) by (nonlinear_arith);
    assert((x.1 * y.1) * z.1 == x.1 * (y.1 * z.1)) by (nonlinear_arith);
}

/// Multiplication distributes over addition, in value.
pub proof fn lemma_rat_distributes(x: RationalView, y: RationalView, c: RationalView)
    ensures
        same_value(rat_mul(rat_add(x, y), c), rat_add(rat_mul(x, c), rat_mul(y, c))),
{
    let l = rat_mul(rat_add(x, y), c);
    let r = rat_add(rat_mul(x, c), rat_mul(y, c));
    let (x0, x1, y0, y1, c0, c1) = (x.0, x.1, y.0, y.1, c.0, c.1);
    assert(l.0 == (x0 * y1 + y0 * x1) * c0 && l.1 == (x1 * y1) * c1);
    assert(r.0 == (x0 * c0) * (y1 * c1) + (y0 * c0) * (x1 * c1) && r.1 == (x1 * c1) * (y1 * c1));
    let s = x0 * y1 + y0 * x1;
    let t = (x1 * y1) * c1;
    let k = c0 * c1;
    assert((x0 * c0) * (y1 * c1) == k * (x0 * y1)) by (nonlinear_arith)
        requires
            k == c0 * c1,
    ;
    assert((y0 * c0) * (x1 * c1) == k * (y0 * x1)) by (nonlinear_arith)
        requires
            k == c0 * c1,
    ;
    assert(k * (x0 * y1) + k * (y0 * x1) == k * s) by (nonlinear_arith)
        requires
            s == x0 * y1 + y0 * x1,
    ;
    assert((x1 * c1) * (y1 * c1) == t * c1) by (nonlinear_arith)
        requires
            t == (x1 * y1) * c1,
    ;
    assert((s * c0) * (t * c1) == (k * s) * t) by (nonlinear_arith)
        requires
            k == c0 * c1,
    ;
    assert(l.0 * r.1 == r.0 * l.1);
}

pub proof fn lemma_denominator_product_positive(a: RationalView, b: RationalView)
    requires
        a.1 > 0,
        b.1 > 0,
    ensures
        a.1 * b.1 > 0,
{
    assert(a.1 * b.1 > 0) by (nonlinear_arith)
        requires
            a.1 > 0,
            b.1 > 0,
    ;
}

impl Rational {
    /// `BigRational::new`: the quotient `num / den` in lowest terms.
    #[verifier::external_body]
    pub fn new(num: i128, den: i128) -> (r: Self)
        requires
            den != 0,
        ensures
            same_value(r@, (num as int, den as int)),
    {
        let value = BigRational::new(BigInt::from(num), BigInt::from(den));
        Rational { numer: value.numer().to_signed_bytes_le(), denom: value.denom().to_signed_bytes_le() }
    }

    pub fn from_i128(value: i128) -> (r: Self)
        ensures
            same_value(r@, rat_of_int(value as int)),
    {
        Rational::new(value, 1)
    }

    pub fn from_usize(value: usize) -> (r: Self)
        ensures
            same_value(r@, rat_of_int(value as int)),
    {
        Rational::new(value as i128, 1)
    }

    pub fn from_i64(value: i64) -> (r: Self)
        ensures
            same_value(r@, rat_of_int(value as int)),
    {
        Rational::new(value as i128, 1)
    }

    pub fn zero() -> (r: Self)
        ensures
            r@ == rat_of_int(0),
    {
        let r = Rational::new(0, 1);
        proof {
            use_type_invariant(&r);
            assert(r@.0 == 0);
            assert(spec_gcd(0, r@.1 as nat) == spec_gcd(r@.1 as nat, 0));
        }
        r
    }

    pub fn one() -> (r: Self)
        ensures
            r@ == rat_of_int(1),
    {
        let r = Rational::new(1, 1);
        proof {
            use_type_invariant(&r);
            let d = r@.1 as nat;
            assert(r@.0 == r@.1);
            assert(spec_gcd(d, d) == spec_gcd(d, 0)) by {
                assert(d % d == 0) by (nonlinear_arith)
                    requires
                        d > 0,
                ;
            }
        }
        r
    }

    /// `Zero::is_zero` of `BigRational`: the numerator is zero.
    #[verifier::external_body]
    pub fn is_zero(&self) -> (z: bool)
        ensures
            z == (self@.0 == 0),
    {
        BigRational::new_raw(BigInt::from_signed_bytes_le(&self.numer), BigInt::from_signed_bytes_le(&self.denom)).is_zero()
    }

    /// `Signed::is_negative` of `BigRational`: numerator and denominator have
    /// opposite signs.
    #[verifier::external_body]
    pub fn is_negative(&self) -> (n: bool)
        ensures
            n == (self@.0 * self@.1 < 0),
    {
        BigRational::new_raw(BigInt::from_signed_bytes_le(&self.numer), BigInt::from_signed_bytes_le(&self.denom)).is_negative()
    }

    /// `BigRational` addition.
    #[verifier::external_body]
    pub fn add(&self, rhs: &Self) -> (r: Self)
        ensures
            same_value(r@, rat_add(self@, rhs@)),
    {
        let value = BigRational::new_raw(BigInt::from_signed_bytes_le(&self.numer), BigInt::from_signed_bytes_le(&self.denom))
            + BigRational::new_raw(BigInt::from_signed_bytes_le(&rhs.numer), BigInt::from_signed_bytes_le(&rhs.denom));
        Rational { numer: value.numer().to_signed_bytes_le(), denom: value.denom().to_signed_bytes_le() }
    }

    /// `BigRational` subtraction.
    #[verifier::external_body]
    pub fn sub(&self, rhs: &Self) -> (r: Self)
        ensures
            same_value(r@, rat_sub(self@, rhs@)),
    {
        let value = BigRational::new_raw(BigInt::from_signed_bytes_le(&self.numer), BigInt::from_signed_bytes_le(&self.denom))
            - BigRational::new_raw(BigInt::from_signed_bytes_le(&rhs.numer), BigInt::from_signed_bytes_le(&rhs.denom));
        Rational { numer: value.numer().to_signed_bytes_le(), denom: value.denom().to_signed_bytes_le() }
    }

    /// `BigRational` multiplication.
    #[verifier::external_body]
    pub fn mul(&self, rhs: &Self) -> (r: Self)
        ensures
            same_value(r@, rat_mul(self@, rhs@)),
    {
        let value = BigRational::new_raw(BigInt::from_signed_bytes_le(&self.numer), BigInt::from_signed_bytes_le(&self.denom))
            * BigRational::new_raw(BigInt::from_signed_bytes_le(&rhs.numer), BigInt::from_signed_bytes_le(&rhs.denom));
        Rational { numer: value.numer().to_signed_bytes_le(), denom: value.denom().to_signed_bytes_le() }
    }

    /// `BigRational` division; it panics on a zero divisor, which `requires`
    /// rules out.
    #[verifier::external_body]
    pub fn div(&self, rhs: &Self) -> (r: Self)
        requires
            rhs@.0 != 0,
        ensures
            same_value(r@, rat_div(self@, rhs@)),
    {
        let value = BigRational::new_raw(BigInt::from_signed_bytes_le(&self.numer), BigInt::from_signed_bytes_le(&self.denom))
            / BigRational::new_raw(BigInt::from_signed_bytes_le(&rhs.numer), BigInt::from_signed_bytes_le(&rhs.denom));
        Rational { numer: value.numer().to_signed_bytes_le(), denom: value.denom().to_signed_bytes_le() }
    }

    /// `BigRational` negation.
    #[verifier::external_body]
    pub fn neg(&self) -> (r: Self)
        ensures
            same_value(r@, rat_neg(self@)),
    {
        let value = -BigRational::new_raw(BigInt::from_signed_bytes_le(&self.numer), BigInt::from_signed_bytes_le(&self.denom));
        Rational { numer: value.numer().to_signed_bytes_le(), denom: value.denom().to_signed_bytes_le() }
    }

    /// `PartialEq` of `BigRational`, which compares the numbers themselves.
    #[verifier::external_body]
    pub fn equals(&self, rhs: &Self) -> (e: bool)
        ensures
            e == same_value(self@, rhs@),
    {
        BigRational::new_raw(BigInt::from_signed_bytes_le(&self.numer), BigInt::from_signed_bytes_le(&self.denom))
            == BigRational::new_raw(BigInt::from_signed_bytes_le(&rhs.numer), BigInt::from_signed_bytes_le(&rhs.denom))
    }

    /// `Ord` of `BigRational`: the sign of `self - rhs`.
    #[verifier::external_body]
    pub fn compare(&self, rhs: &Self) -> (o: Order)
        ensures
            o.sign() == rat_order(self@, rhs@),
    {
        match BigRational::new_raw(BigInt::from_signed_bytes_le(&self.numer), BigInt::from_signed_bytes_le(&self.denom))
            .cmp(&BigRational::new_raw(BigInt::from_signed_bytes_le(&rhs.numer), BigInt::from_signed_bytes_le(&rhs.denom))) {
            std::cmp::Ordering::Less => Order::Less,
            std::cmp::Ordering::Equal => Order::Equal,
            std::cmp::Ordering::Greater => Order::Greater,
        }
    }

    /// `Display` of `BigRational`: the numerator, followed by `/` and the
    /// denominator unless the denominator is one.
    #[verifier::external_body]
    pub fn text(&self) -> (out: String)
        ensures
            out@ == rational_text(self@),
    {
        format!("{}", BigRational::new_raw(BigInt::from_signed_bytes_le(&self.numer), BigInt::from_signed_bytes_le(&self.denom)))
    }

    /// The absolute value.
    pub fn abs(&self) -> (r: Self)
        ensures
            same_value(r@, (abs_int(self@.0) as int, self@.1)),
    {
        proof {
            use_type_invariant(self);
        }
        if self.is_negative() {
            let r = self.neg();
            proof {
                assert(self@.0 < 0) by (nonlinear_arith)
                    requires
                        self@.0 * self@.1 < 0,
                        self@.1 > 0,
                ;
            }
            r
        } else {
            proof {
                assert(self@.0 >= 0) by (nonlinear_arith)
                    requires
                        !(self@.0 * self@.1 < 0),
                        self@.1 > 0,
                ;
            }
            self.clone()
        }
    }

    /// `self^exp` by repeated squaring.
    pub fn pow_usize(&self, exp: usize) -> (r: Self)
        ensures
            same_value(r@, rat_pow(self@, exp as nat)),
    {
        proof {
            use_type_invariant(self);
        }
        let ghost a = self@;
        let mut base = self.clone();
        let mut e = exp;
        let mut out = Rational::one();
        let ghost mut acc: nat = 0;
        let ghost mut p: nat = 1;
        proof {
            vstd::arithmetic::power::lemma_pow0(a.0);
            vstd::arithmetic::power::lemma_pow0(a.1);
            vstd::arithmetic::power::lemma_pow1(a.0);
            vstd::arithmetic::power::lemma_pow1(a.1);
        }
        while e > 0
            invariant
                a == self@,
                a.1 > 0,
                exp as nat == acc + e * p,
                same_value(out@, rat_pow(a, acc)),
                e > 0 ==> same_value(base@, rat_pow(a, p)),
            decreases e,
        {
            proof {
                use_type_invariant(&out);
                use_type_invariant(&base);
                lemma_pow_positive(a.1, acc);
                lemma_pow_positive(a.1, p);
            }
            if e % 2 == 1 {
                let next = out.mul(&base);
                proof {
                    let old_acc = acc;
                    lemma_mul_congruent(out@, rat_pow(a, acc), base@, rat_pow(a, p));
                    lemma_pow_adds(a.0, acc, p);
                    lemma_pow_adds(a.1, acc, p);
                    lemma_denominator_product_positive(out@, base@);
                    lemma_same_value_transitive(next@, rat_mul(out@, base@), rat_pow(a, acc + p));
                    acc = acc + p;
                    assert(exp as nat == acc + (e - 1) * p) by (nonlinear_arith)
                        requires
                            exp as nat == old_acc + e * p,
                            acc == old_acc + p,
                    ;
                }
                out = next;
            }
            proof {
                assert(exp as nat == acc + (e / 2) * (2 * p)) by (nonlinear_arith)
                    requires
                        e % 2 == 1 ==> exp as nat == acc + (e - 1) * p,
                        e % 2 == 0 ==> exp as nat == acc + e * p,
                        e >= 1,
                ;
            }
            e = e / 2;
            if e > 0 {
                let squared = base.mul(&base);
                proof {
                    lemma_mul_congruent(base@, rat_pow(a, p), base@, rat_pow(a, p));
                    lemma_pow_adds(a.0, p, p);
                    lemma_pow_adds(a.1, p, p);
                    lemma_denominator_product_positive(base@, base@);
                    lemma_same_value_transitive(squared@, rat_mul(base@, base@), rat_pow(a, p + p));
                }
                base = squared;
            }
            proof {
                p = 2 * p;
            }
        }
        out
    }
}

} // verus!
