use vstd::prelude::*;

use num_bigint::{BigInt, BigUint, Sign};

use crate::natural::{be_value, Natural};

verus! {

/// The integer with sign flag `negative` and magnitude given by big-endian bytes.
pub open spec fn signed_value(negative: bool, magnitude: Seq<u8>) -> int {
    if negative {
        -(be_value(magnitude) as int)
    } else {
        be_value(magnitude) as int
    }
}

pub open spec fn int_abs(x: int) -> int {
    if x < 0 {
        -x
    } else {
        x
    }
}

/// Division rounded toward zero.
pub open spec fn trunc_div(a: int, b: int) -> int {
    let q = int_abs(a) / int_abs(b);
    if (a < 0) == (b < 0) {
        q
    } else {
        -q
    }
}

// ---------------------------------------------------------------------------
// Calls into num-bigint's BigInt. Integers cross as a sign flag and the
// big-endian bytes of the magnitude.
// ---------------------------------------------------------------------------

/// Relies on `BigInt + BigInt`: the sum.
#[verifier::external_body]
fn bigint_add(an: bool, a: &[u8], bn: bool, b: &[u8]) -> (r: (bool, Vec<u8>))
    ensures
        signed_value(r.0, r.1@) == signed_value(an, a@) + signed_value(bn, b@),
{
    let x = BigInt::from_biguint(if an { Sign::Minus } else { Sign::Plus }, BigUint::from_bytes_be(a));
    let y = BigInt::from_biguint(if bn { Sign::Minus } else { Sign::Plus }, BigUint::from_bytes_be(b));
    let (sign, bytes) = (x + y).to_bytes_be();
    (sign == Sign::Minus, bytes)
}

/// Relies on `BigInt - BigInt`: the difference.
#[verifier::external_body]
fn bigint_sub(an: bool, a: &[u8], bn: bool, b: &[u8]) -> (r: (bool, Vec<u8>))
    ensures
        signed_value(r.0, r.1@) == signed_value(an, a@) - signed_value(bn, b@),
{
    let x = BigInt::from_biguint(if an { Sign::Minus } else { Sign::Plus }, BigUint::from_bytes_be(a));
    let y = BigInt::from_biguint(if bn { Sign::Minus } else { Sign::Plus }, BigUint::from_bytes_be(b));
    let (sign, bytes) = (x - y).to_bytes_be();
    (sign == Sign::Minus, bytes)
}

/// Relies on `BigInt * BigInt`: the product.
#[verifier::external_body]
fn bigint_mul(an: bool, a: &[u8], bn: bool, b: &[u8]) -> (r: (bool, Vec<u8>))
    ensures
        signed_value(r.0, r.1@) == signed_value(an, a@) * signed_value(bn, b@),
{
    let x = BigInt::from_biguint(if an { Sign::Minus } else { Sign::Plus }, BigUint::from_bytes_be(a));
    let y = BigInt::from_biguint(if bn { Sign::Minus } else { Sign::Plus }, BigUint::from_bytes_be(b));
    let (sign, bytes) = (x * y).to_bytes_be();
    (sign == Sign::Minus, bytes)
}

/// Relies on `BigInt / BigInt`: the quotient rounded toward zero; it panics on
/// a zero divisor.
#[verifier::external_body]
fn bigint_div(an: bool, a: &[u8], bn: bool, b: &[u8]) -> (r: (bool, Vec<u8>))
    requires
        signed_value(bn, b@) != 0,
    ensures
        signed_value(r.0, r.1@) == trunc_div(signed_value(an, a@), signed_value(bn, b@)),
{
    let x = BigInt::from_biguint(if an { Sign::Minus } else { Sign::Plus }, BigUint::from_bytes_be(a));
    let y = BigInt::from_biguint(if bn { Sign::Minus } else { Sign::Plus }, BigUint::from_bytes_be(b));
    let (sign, bytes) = (x / y).to_bytes_be();
    (sign == Sign::Minus, bytes)
}

/// An arbitrary-precision integer: a sign and a magnitude, zero never negative.
#[derive(Debug)]
pub struct Integer {
    negative: bool,
    magnitude: Natural,
}

impl View for Integer {
    type V = int;

    closed spec fn view(&self) -> int {
        if self.negative {
            -(self.magnitude@ as int)
        } else {
            self.magnitude@ as int
        }
    }
}

impl Integer {
    #[verifier::type_invariant]
    spec fn inv(&self) -> bool {
        self.magnitude@ == 0 ==> !self.negative
    }

    fn from_parts(negative: bool, bytes: &[u8]) -> (r: Integer)
        ensures
            r@ == signed_value(negative, bytes@),
    {
        let magnitude = Natural::from_bytes_be(bytes);
        let negative = negative && !magnitude.is_zero();
        Integer { negative, magnitude }
    }

    /// The non-negative integer `n`.
    pub fn from_natural(n: &Natural) -> (r: Integer)
        ensures
            r@ == n@ as int,
    {
        Integer { negative: false, magnitude: n.duplicate() }
    }

    /// The integer `v`.
    pub fn from_i64(v: i64) -> (r: Integer)
        ensures
            r@ == v as int,
    {
        if v < 0 {
            let m: u64 = if v == i64::MIN { 0x8000_0000_0000_0000u64 } else { (-v) as u64 };
            Integer { negative: true, magnitude: Natural::from_u64(m) }
        } else {
            Integer { negative: false, magnitude: Natural::from_u64(v as u64) }
        }
    }

    /// The number itself when it is not negative.
    pub fn to_natural(&self) -> (r: Option<Natural>)
        ensures
            r is Some <==> self@ >= 0,
            r matches Some(n) ==> n@ == self@,
    {
        proof {
            use_type_invariant(self);
        }
        if self.negative {
            None
        } else {
            Some(self.magnitude.duplicate())
        }
    }

    pub fn duplicate(&self) -> (r: Integer)
        ensures
            r@ == self@,
    {
        proof {
            use_type_invariant(self);
        }
        Integer { negative: self.negative, magnitude: self.magnitude.duplicate() }
    }

    pub fn is_zero(&self) -> (r: bool)
        ensures
            r == (self@ == 0),
    {
        self.magnitude.is_zero()
    }

    pub fn is_negative(&self) -> (r: bool)
        ensures
            r == (self@ < 0),
    {
        proof {
            use_type_invariant(self);
        }
        self.negative
    }

    pub fn plus(&self, other: &Integer) -> (r: Integer)
        ensures
            r@ == self@ + other@,
    {
        let a = self.magnitude.to_bytes_be();
        let b = other.magnitude.to_bytes_be();
        let (n, v) = bigint_add(self.negative, a.as_slice(), other.negative, b.as_slice());
        Integer::from_parts(n, v.as_slice())
    }

    pub fn minus(&self, other: &Integer) -> (r: Integer)
        ensures
            r@ == self@ - other@,
    {
        let a = self.magnitude.to_bytes_be();
        let b = other.magnitude.to_bytes_be();
        let (n, v) = bigint_sub(self.negative, a.as_slice(), other.negative, b.as_slice());
        Integer::from_parts(n, v.as_slice())
    }

    pub fn times(&self, other: &Integer) -> (r: Integer)
        ensures
            r@ == self@ * other@,
    {
        let a = self.magnitude.to_bytes_be();
        let b = other.magnitude.to_bytes_be();
        let (n, v) = bigint_mul(self.negative, a.as_slice(), other.negative, b.as_slice());
        Integer::from_parts(n, v.as_slice())
    }

    /// The quotient rounded toward zero.
    pub fn div_trunc(&self, other: &Integer) -> (r: Integer)
        requires
            other@ != 0,
        ensures
            r@ == trunc_div(self@, other@),
    {
        let a = self.magnitude.to_bytes_be();
        let b = other.magnitude.to_bytes_be();
        let (n, v) = bigint_div(self.negative, a.as_slice(), other.negative, b.as_slice());
        Integer::from_parts(n, v.as_slice())
    }
}

impl Integer {
    /// Whether the two integers are equal.
    pub fn equals(&self, other: &Integer) -> (r: bool)
        ensures
            r == (self@ == other@),
    {
        proof {
            use_type_invariant(self);
            use_type_invariant(other);
        }
        self.negative == other.negative && self.magnitude.equals(&other.magnitude)
    }
}

impl PartialEq for Integer {
    fn eq(&self, other: &Integer) -> (r: bool) {
        self.equals(other)
    }
}

impl vstd::std_specs::cmp::PartialEqSpecImpl for Integer {
    open spec fn obeys_eq_spec() -> bool {
        true
    }

    open spec fn eq_spec(&self, other: &Integer) -> bool {
        self@ == other@
    }
}

} // verus!
