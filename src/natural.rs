use vstd::arithmetic::power::pow;
use vstd::arithmetic::power2::pow2;
use vstd::prelude::*;

use num_bigint::BigUint;
use num_bigint::RandBigInt;
use num::Integer as NumInteger;

verus! {

// ---------------------------------------------------------------------------
// Big-endian byte strings as natural numbers.
// ---------------------------------------------------------------------------

/// The natural number that the big-endian byte string `s` denotes.
pub open spec fn be_value(s: Seq<u8>) -> nat
    decreases s.len(),
{
    if s.len() == 0 {
        0
    } else {
        be_value(s.drop_last()) * 256 + s.last() as nat
    }
}

/// 256 to the power `n`.
pub open spec fn pow256(n: nat) -> nat
    decreases n,
{
    if n == 0 {
        1
    } else {
        256 * pow256((n - 1) as nat)
    }
}

/// The big-endian encoding of `x` in exactly `len` bytes (only the low `len`
/// bytes of `x` are kept).
pub open spec fn to_be(x: nat, len: nat) -> Seq<u8>
    decreases len,
{
    if len == 0 {
        Seq::empty()
    } else {
        to_be(x / 256, (len - 1) as nat).push((x % 256) as u8)
    }
}

/// The number of bytes in the shortest big-endian encoding of `x` (0 for 0).
pub open spec fn byte_len(x: nat) -> nat
    decreases x,
{
    if x == 0 {
        0
    } else {
        1 + byte_len(x / 256)
    }
}

/// A byte string without leading zero bytes.
pub open spec fn canonical(s: Seq<u8>) -> bool {
    s.len() == 0 || s[0] != 0
}

pub proof fn lemma_pow256_positive(n: nat)
    ensures
        pow256(n) > 0,
    decreases n,
{
    if n > 0 {
        lemma_pow256_positive((n - 1) as nat);
    }
}

/// A byte string of `len` bytes denotes a number below 256^len.
pub proof fn lemma_be_value_bound(s: Seq<u8>)
    ensures
        be_value(s) < pow256(s.len()),
    decreases s.len(),
{
    if s.len() > 0 {
        let p = s.drop_last();
        lemma_be_value_bound(p);
        let a = be_value(p);
        let b = pow256(p.len());
        assert(a * 256 + s.last() < 256 * b) by (nonlinear_arith)
            requires
                a < b,
                s.last() < 256,
        ;
    }
}

/// The value of a concatenation.
pub proof fn lemma_be_value_append(a: Seq<u8>, b: Seq<u8>)
    ensures
        be_value(a + b) == be_value(a) * pow256(b.len()) + be_value(b),
    decreases b.len(),
{
    if b.len() == 0 {
        assert(a + b =~= a);
        assert(pow256(0) == 1);
    } else {
        let b1 = b.drop_last();
        assert(pow256(b.len()) == 256 * pow256(b1.len()));
        assert(be_value(b) == be_value(b1) * 256 + b.last());
        assert((a + b).drop_last() =~= a + b1);
        assert((a + b).last() == b.last());
        assert(be_value(a + b) == be_value(a + b1) * 256 + b.last());
        lemma_be_value_append(a, b1);
        let va = be_value(a);
        let p = pow256(b1.len());
        let vb1 = be_value(b1);
        assert((va * p + vb1) * 256 + b.last() == va * (256 * p) + (vb1 * 256 + b.last()))
            by (nonlinear_arith);
    }
}

/// A run of zero bytes denotes zero.
pub proof fn lemma_be_value_zeros(n: nat)
    ensures
        be_value(Seq::new(n, |i: int| 0u8)) == 0,
    decreases n,
{
    if n > 0 {
        let z = Seq::new(n, |i: int| 0u8);
        assert(z.drop_last() =~= Seq::new((n - 1) as nat, |i: int| 0u8));
        lemma_be_value_zeros((n - 1) as nat);
    }
}

/// Two byte strings of one length with one value are equal.
pub proof fn lemma_be_value_injective(a: Seq<u8>, b: Seq<u8>)
    requires
        a.len() == b.len(),
        be_value(a) == be_value(b),
    ensures
        a == b,
    decreases a.len(),
{
    if a.len() > 0 {
        let (pa, pb) = (a.drop_last(), b.drop_last());
        let (va, vb) = (be_value(pa), be_value(pb));
        let (la, lb) = (a.last() as int, b.last() as int);
        assert(va == vb && la == lb) by (nonlinear_arith)
            requires
                va * 256 + la == vb * 256 + lb,
                0 <= la < 256,
                0 <= lb < 256,
                va >= 0,
                vb >= 0,
        ;
        lemma_be_value_injective(pa, pb);
        assert(a =~= pa.push(a.last()));
        assert(b =~= pb.push(b.last()));
    }
}

/// Encoding a number that fits and decoding it again gives it back.
pub proof fn lemma_to_be_value(x: nat, len: nat)
    requires
        x < pow256(len),
    ensures
        to_be(x, len).len() == len,
        be_value(to_be(x, len)) == x,
    decreases len,
{
    if len > 0 {
        let p = pow256((len - 1) as nat);
        assert(x / 256 < p) by (nonlinear_arith)
            requires
                x < 256 * p,
        ;
        lemma_to_be_value(x / 256, (len - 1) as nat);
        let s = to_be(x, len);
        assert(s.drop_last() =~= to_be(x / 256, (len - 1) as nat));
    }
}

/// `x` fits in `n` bytes exactly when its shortest encoding is at most `n` bytes long.
pub proof fn lemma_byte_len_fits(x: nat, n: nat)
    ensures
        byte_len(x) <= n <==> x < pow256(n),
    decreases n,
{
    lemma_pow256_positive(n);
    if n == 0 {
        assert(pow256(0) == 1);
    }
    if n > 0 && x > 0 {
        lemma_byte_len_fits(x / 256, (n - 1) as nat);
        let p = pow256((n - 1) as nat);
        assert(pow256(n) == 256 * p);
        assert(x / 256 < p <==> x < 256 * p) by (nonlinear_arith);
    }
}

/// A canonical byte string is as long as the shortest encoding of its value.
pub proof fn lemma_canonical_len(s: Seq<u8>)
    requires
        canonical(s),
    ensures
        s.len() == byte_len(be_value(s)),
        s.len() > 0 ==> be_value(s) > 0,
    decreases s.len(),
{
    if s.len() > 0 {
        let p = s.drop_last();
        assert(canonical(p));
        lemma_canonical_len(p);
        let v = be_value(s);
        assert(v / 256 == be_value(p) && v % 256 == s.last());
        if p.len() == 0 {
            assert(s.last() == s[0]);
        }
    }
}

/// The canonical encoding of a number.
pub proof fn lemma_canonical_is_to_be(s: Seq<u8>)
    requires
        canonical(s),
    ensures
        s == to_be(be_value(s), byte_len(be_value(s))),
{
    lemma_canonical_len(s);
    lemma_be_value_bound(s);
    lemma_to_be_value(be_value(s), s.len());
    lemma_be_value_injective(s, to_be(be_value(s), s.len()));
}

/// A byte string that starts with a zero byte denotes a number below 256^(len - 1).
pub proof fn lemma_be_value_leading_zero(s: Seq<u8>)
    requires
        s.len() > 0,
        s[0] == 0,
    ensures
        be_value(s) < pow256((s.len() - 1) as nat),
{
    let rest = s.subrange(1, s.len() as int);
    assert(s =~= seq![0u8] + rest);
    lemma_be_value_append(seq![0u8], rest);
    assert(seq![0u8].drop_last() =~= Seq::<u8>::empty());
    assert(be_value(Seq::<u8>::empty()) == 0);
    assert(seq![0u8].last() == 0u8);
    assert(be_value(seq![0u8]) == 0);
    let (v, p) = (be_value(seq![0u8]), pow256(rest.len()));
    assert(v * p == 0) by (nonlinear_arith)
        requires
            v == 0,
    ;
    lemma_be_value_bound(rest);
}

// ---------------------------------------------------------------------------
// The arbitrary-precision natural number.
// ---------------------------------------------------------------------------

/// An arbitrary-precision natural number, held as its big-endian bytes
/// without leading zeros (zero has no bytes).
#[derive(Debug)]
pub struct Natural {
    digits: Vec<u8>,
}

impl View for Natural {
    type V = nat;

    closed spec fn view(&self) -> nat {
        be_value(self.digits@)
    }
}

impl Natural {
    #[verifier::type_invariant]
    spec fn inv(&self) -> bool {
        canonical(self.digits@)
    }

    /// The natural number denoted by the big-endian bytes `bytes`.
    pub fn from_bytes_be(bytes: &[u8]) -> (r: Natural)
        ensures
            r@ == be_value(bytes@),
    {
        let mut start: usize = 0;
        while start < bytes.len() && bytes[start] == 0
            invariant
                start <= bytes@.len(),
                forall|i: int| 0 <= i < start ==> bytes@[i] == 0,
            decreases bytes@.len() - start,
        {
            start += 1;
        }
        let mut digits: Vec<u8> = Vec::new();
        let mut i: usize = start;
        while i < bytes.len()
            invariant
                start <= i <= bytes@.len(),
                digits@ =~= bytes@.subrange(start as int, i as int),
            decreases bytes@.len() - i,
        {
            digits.push(bytes[i]);
            i += 1;
        }
        proof {
            let z = bytes@.subrange(0, start as int);
            assert(z =~= Seq::new(start as nat, |j: int| 0u8));
            assert(bytes@ =~= z + digits@);
            lemma_be_value_append(z, digits@);
            lemma_be_value_zeros(start as nat);
            assert(be_value(bytes@) == 0 * pow256(digits@.len()) + be_value(digits@));
            if digits@.len() > 0 {
                assert(digits@[0] == bytes@[start as int]);
            }
        }
        Natural { digits }
    }

    /// The natural number `v`.
    pub fn from_u64(v: u64) -> (r: Natural)
        ensures
            r@ == v,
    {
        let mut bytes: Vec<u8> = Vec::new();
        let mut rest: u64 = v;
        let mut i: usize = 0;
        proof {
            assert(pow256(0) == 1);
            assert(be_value(bytes@) == 0);
        }
        while i < 8
            invariant
                i <= 8,
                bytes@.len() == i,
                v == rest as nat * pow256(i as nat) + be_value(bytes@),
            decreases 8 - i,
        {
            let b = (rest % 256) as u8;
            proof {
                lemma_be_value_append(seq![b], bytes@);
                assert(seq![b].drop_last() =~= Seq::<u8>::empty());
                assert(be_value(Seq::<u8>::empty()) == 0);
                assert(seq![b].last() == b);
                assert(be_value(seq![b]) == be_value(Seq::<u8>::empty()) * 256 + b);
                let p = pow256(i as nat);
                assert(pow256((i + 1) as nat) == 256 * p);
                let r = rest as nat;
                assert(r * p == (r / 256) * (256 * p) + (r % 256) * p) by (nonlinear_arith);
            }
            let ghost old_bytes = bytes@;
            bytes.insert(0, b);
            proof {
                assert(bytes@ =~= seq![b] + old_bytes);
                assert(b == rest % 256);
            }
            rest = rest / 256;
            i += 1;
        }
        proof {
            reveal_with_fuel(pow256, 9);
            assert(rest == 0) by (nonlinear_arith)
                requires
                    v == rest as nat * pow256(8) + be_value(bytes@),
                    pow256(8) == 0x1_0000_0000_0000_0000nat,
                    v < 0x1_0000_0000_0000_0000nat,
            {}
        }
        Natural::from_bytes_be(bytes.as_slice())
    }

    /// The shortest big-endian encoding of the number (empty for zero).
    pub fn to_bytes_be(&self) -> (r: Vec<u8>)
        ensures
            r@ == to_be(self@, byte_len(self@)),
            r@.len() == byte_len(self@),
            be_value(r@) == self@,
    {
        proof {
            use_type_invariant(self);
            lemma_canonical_is_to_be(self.digits@);
            lemma_canonical_len(self.digits@);
        }
        self.digits.clone()
    }

    /// The number of bytes of the shortest encoding.
    pub fn byte_length(&self) -> (r: usize)
        ensures
            r == byte_len(self@),
    {
        proof {
            use_type_invariant(self);
            lemma_canonical_len(self.digits@);
        }
        self.digits.len()
    }

    /// A copy of the number.
    pub fn duplicate(&self) -> (r: Natural)
        ensures
            r@ == self@,
    {
        proof {
            use_type_invariant(self);
        }
        Natural { digits: self.digits.clone() }
    }

    pub fn is_zero(&self) -> (r: bool)
        ensures
            r == (self@ == 0),
    {
        proof {
            use_type_invariant(self);
            lemma_canonical_len(self.digits@);
        }
        self.digits.len() == 0
    }

    pub fn is_even(&self) -> (r: bool)
        ensures
            r == (self@ % 2 == 0),
    {
        let len = self.digits.len();
        if len == 0 {
            true
        } else {
            let last = self.digits[len - 1];
            proof {
                let s = self.digits@;
                assert(s.last() == last);
                let a = be_value(s.drop_last());
                assert((a * 256 + last) % 2 == last % 2) by (nonlinear_arith);
            }
            last % 2 == 0
        }
    }

    /// Whether the two numbers are equal.
    pub fn equals(&self, other: &Natural) -> (r: bool)
        ensures
            r == (self@ == other@),
    {
        proof {
            use_type_invariant(self);
            use_type_invariant(other);
            lemma_canonical_len(self.digits@);
            lemma_canonical_len(other.digits@);
        }
        if self.digits.len() != other.digits.len() {
            return false;
        }
        let mut i: usize = 0;
        while i < self.digits.len()
            invariant
                i <= self.digits@.len(),
                self.digits@.len() == other.digits@.len(),
                forall|j: int| 0 <= j < i ==> self.digits@[j] == other.digits@[j],
            decreases self.digits@.len() - i,
        {
            if self.digits[i] != other.digits[i] {
                proof {
                    if self@ == other@ {
                        lemma_be_value_injective(self.digits@, other.digits@);
                    }
                }
                return false;
            }
            i += 1;
        }
        proof {
            assert(self.digits@ =~= other.digits@);
        }
        true
    }
}

impl PartialEq for Natural {
    fn eq(&self, other: &Natural) -> (r: bool) {
        self.equals(other)
    }
}

impl vstd::std_specs::cmp::PartialEqSpecImpl for Natural {
    open spec fn obeys_eq_spec() -> bool {
        true
    }

    open spec fn eq_spec(&self, other: &Natural) -> bool {
        self@ == other@
    }
}

// ---------------------------------------------------------------------------
// Hexadecimal text.
// ---------------------------------------------------------------------------

pub open spec fn hex_char(d: nat) -> char {
    seq!['0', '1', '2', '3', '4', '5', '6', '7', '8', '9', 'a', 'b', 'c', 'd', 'e', 'f'][d as int]
}

/// The lower-case hexadecimal numeral of `v`, without leading zeros ("0" for zero).
pub open spec fn hex_digits(v: nat) -> Seq<char>
    decreases v,
{
    if v < 16 {
        seq![hex_char(v)]
    } else {
        hex_digits(v / 16).push(hex_char(v % 16))
    }
}

pub open spec fn is_hex_char(c: char) -> bool {
    ('0' <= c && c <= '9') || ('a' <= c && c <= 'f') || ('A' <= c && c <= 'F')
}

pub open spec fn hex_char_value(c: char) -> nat {
    if '0' <= c && c <= '9' {
        (c as u32 - '0' as u32) as nat
    } else if 'a' <= c && c <= 'f' {
        (c as u32 - 'a' as u32 + 10) as nat
    } else {
        (c as u32 - 'A' as u32 + 10) as nat
    }
}

/// A non-empty string of hexadecimal digits.
pub open spec fn is_hex(s: Seq<char>) -> bool {
    s.len() > 0 && forall|i: int| 0 <= i < s.len() ==> is_hex_char(#[trigger] s[i])
}

/// The number that a string of hexadecimal digits denotes.
pub open spec fn hex_value(s: Seq<char>) -> nat
    decreases s.len(),
{
    if s.len() == 0 {
        0
    } else {
        hex_value(s.drop_last()) * 16 + hex_char_value(s.last())
    }
}

/// The base-16 digit values of `v`, most significant first, without leading
/// zeros ([0] for zero).
pub open spec fn radix16_digits(v: nat) -> Seq<u8>
    decreases v,
{
    if v < 16 {
        seq![v as u8]
    } else {
        radix16_digits(v / 16).push((v % 16) as u8)
    }
}

/// The number that a sequence of base-16 digit values denotes.
pub open spec fn radix16_value(s: Seq<u8>) -> nat
    decreases s.len(),
{
    if s.len() == 0 {
        0
    } else {
        radix16_value(s.drop_last()) * 16 + s.last() as nat
    }
}

/// The base-16 digits of a number are digit values, and they denote the number.
pub proof fn lemma_radix16_round_trip(v: nat)
    ensures
        forall|i: int| 0 <= i < radix16_digits(v).len() ==> #[trigger] radix16_digits(v)[i] < 16,
        radix16_value(radix16_digits(v)) == v,
    decreases v,
{
    if v < 16 {
        let s = radix16_digits(v);
        assert(s.drop_last() =~= Seq::<u8>::empty());
        assert(radix16_value(Seq::<u8>::empty()) == 0);
    } else {
        lemma_radix16_round_trip(v / 16);
        let s = radix16_digits(v);
        assert(s.drop_last() =~= radix16_digits(v / 16));
    }
}

/// The number of base-16 digits of `v` (1 for zero).
pub proof fn lemma_radix16_len(v: nat)
    ensures
        radix16_digits(v).len() <= 2 * byte_len(v) + 1,
    decreases v,
{
    if v >= 256 {
        lemma_radix16_len(v / 256);
        assert(v / 16 / 16 == v / 256) by {
            vstd::arithmetic::div_mod::lemma_div_denominator(v as int, 16, 16);
        }
        assert(v / 16 >= 16);
        assert(radix16_digits(v).len() == radix16_digits(v / 16).len() + 1);
        assert(radix16_digits(v / 16).len() == radix16_digits(v / 16 / 16).len() + 1);
        assert(byte_len(v) == 1 + byte_len(v / 256));
    } else if v >= 16 {
        assert(v / 16 < 16);
        assert(radix16_digits(v).len() == radix16_digits(v / 16).len() + 1);
        assert(v / 256 == 0);
        assert(byte_len(v) == 1 + byte_len(v / 256));
        assert(byte_len(v / 256) == 0);
    }
}

// ---------------------------------------------------------------------------
// Calls into num-bigint. Numbers cross as big-endian bytes.
// ---------------------------------------------------------------------------

/// Relies on `BigUint::modpow`: `(base ^ exponent) % modulus`; it panics on a zero modulus.
#[verifier::external_body]
fn big_modpow(base: &[u8], exponent: &[u8], modulus: &[u8]) -> (r: Vec<u8>)
    requires
        be_value(modulus@) > 0,
    ensures
        be_value(r@) == pow(be_value(base@) as int, be_value(exponent@)) % (be_value(modulus@) as int),
{
    let b = BigUint::from_bytes_be(base);
    let e = BigUint::from_bytes_be(exponent);
    let m = BigUint::from_bytes_be(modulus);
    b.modpow(&e, &m).to_bytes_be()
}

/// Relies on `BigUint * BigUint`: the product.
#[verifier::external_body]
fn big_mul(a: &[u8], b: &[u8]) -> (r: Vec<u8>)
    ensures
        be_value(r@) == be_value(a@) * be_value(b@),
{
    (BigUint::from_bytes_be(a) * BigUint::from_bytes_be(b)).to_bytes_be()
}

/// Relies on `BigUint + BigUint`: the sum.
#[verifier::external_body]
fn big_add(a: &[u8], b: &[u8]) -> (r: Vec<u8>)
    ensures
        be_value(r@) == be_value(a@) + be_value(b@),
{
    (BigUint::from_bytes_be(a) + BigUint::from_bytes_be(b)).to_bytes_be()
}

/// Relies on `BigUint - BigUint`: the difference; it panics when it would be negative.
#[verifier::external_body]
fn big_sub(a: &[u8], b: &[u8]) -> (r: Vec<u8>)
    requires
        be_value(a@) >= be_value(b@),
    ensures
        be_value(r@) == be_value(a@) - be_value(b@),
{
    (BigUint::from_bytes_be(a) - BigUint::from_bytes_be(b)).to_bytes_be()
}

/// Relies on `BigUint % BigUint`: the remainder; it panics on a zero divisor.
#[verifier::external_body]
fn big_rem(a: &[u8], b: &[u8]) -> (r: Vec<u8>)
    requires
        be_value(b@) > 0,
    ensures
        be_value(r@) == be_value(a@) % be_value(b@),
{
    (BigUint::from_bytes_be(a) % BigUint::from_bytes_be(b)).to_bytes_be()
}

/// Relies on `Integer::div_floor` for `BigUint`: the quotient rounded down; it
/// panics on a zero divisor.
#[verifier::external_body]
fn big_div_floor(a: &[u8], b: &[u8]) -> (r: Vec<u8>)
    requires
        be_value(b@) > 0,
    ensures
        be_value(r@) == be_value(a@) / be_value(b@),
{
    BigUint::from_bytes_be(a).div_floor(&BigUint::from_bytes_be(b)).to_bytes_be()
}

/// Relies on `RandBigInt::gen_biguint` over `rand::thread_rng`: a random number
/// of at most `bits` bits.
#[verifier::external_body]
fn big_random_bits(bits: u64) -> (r: Vec<u8>)
    ensures
        be_value(r@) < pow2(bits as nat),
{
    rand::thread_rng().gen_biguint(bits).to_bytes_be()
}

/// Relies on `RandBigInt::gen_biguint_below` over `rand::thread_rng`: a random
/// number below `bound`; it panics on a zero bound.
#[verifier::external_body]
fn big_random_below(bound: &[u8]) -> (r: Vec<u8>)
    requires
        be_value(bound@) > 0,
    ensures
        be_value(r@) < be_value(bound@),
{
    rand::thread_rng().gen_biguint_below(&BigUint::from_bytes_be(bound)).to_bytes_be()
}

/// Relies on `RandBigInt::gen_biguint_range` over `rand::thread_rng`: a random
/// number in `[low, high)`; it panics unless `low < high`.
#[verifier::external_body]
fn big_random_range(low: &[u8], high: &[u8]) -> (r: Vec<u8>)
    requires
        be_value(low@) < be_value(high@),
    ensures
        be_value(low@) <= be_value(r@) < be_value(high@),
{
    let l = BigUint::from_bytes_be(low);
    let h = BigUint::from_bytes_be(high);
    rand::thread_rng().gen_biguint_range(&l, &h).to_bytes_be()
}

/// Relies on `BigUint::to_str_radix` with radix 16: lower-case digits without
/// leading zeros, "0" for zero.
#[verifier::external_body]
fn big_to_hex(a: &[u8]) -> (r: String)
    ensures
        r@ == hex_digits(be_value(a@)),
{
    BigUint::from_bytes_be(a).to_str_radix(16)
}

/// Relies on `Num::from_str_radix` for `BigUint` with radix 16: a non-empty
/// string of hexadecimal digits is accepted and read as a number.
#[verifier::external_body]
fn big_from_hex(s: &str) -> (r: Option<Vec<u8>>)
    ensures
        is_hex(s@) ==> r is Some && be_value(r->0@) == hex_value(s@),
{
    match <BigUint as num::Num>::from_str_radix(s, 16) {
        Ok(v) => Some(v.to_bytes_be()),
        Err(_) => None,
    }
}

/// Relies on `BigUint::to_radix_be` with radix 16: the digit values, most
/// significant first, without leading zeros, [0] for zero.
#[verifier::external_body]
fn big_to_radix16(a: &[u8]) -> (r: Vec<u8>)
    ensures
        r@ == radix16_digits(be_value(a@)),
{
    BigUint::from_bytes_be(a).to_radix_be(16)
}

/// Relies on `BigUint::from_radix_be` with radix 16: it accepts exactly the
/// sequences of digit values below 16.
#[verifier::external_body]
fn big_from_radix16(digits: &[u8]) -> (r: Option<Vec<u8>>)
    ensures
        r is Some <==> forall|i: int| 0 <= i < digits@.len() ==> digits@[i] < 16,
        r matches Some(v) ==> be_value(v@) == radix16_value(digits@),
{
    BigUint::from_radix_be(digits, 16).map(|v| v.to_bytes_be())
}

impl Natural {
    /// The base-16 digit values of the number, most significant first.
    pub fn to_radix16(&self) -> (r: Vec<u8>)
        ensures
            r@ == radix16_digits(self@),
    {
        big_to_radix16(self.digits.as_slice())
    }

    /// The number that the base-16 digit values denote; `None` when a value is 16 or more.
    pub fn from_radix16(digits: &[u8]) -> (r: Option<Natural>)
        ensures
            r is Some <==> forall|i: int| 0 <= i < digits@.len() ==> digits@[i] < 16,
            r matches Some(v) ==> v@ == radix16_value(digits@),
    {
        match big_from_radix16(digits) {
            Some(v) => Some(Natural::from_bytes_be(v.as_slice())),
            None => None,
        }
    }

    /// `(self ^ exponent) % modulus`.
    pub fn modpow(&self, exponent: &Natural, modulus: &Natural) -> (r: Natural)
        requires
            modulus@ > 0,
        ensures
            r@ == pow(self@ as int, exponent@) % (modulus@ as int),
    {
        let v = big_modpow(self.digits.as_slice(), exponent.digits.as_slice(), modulus.digits.as_slice());
        Natural::from_bytes_be(v.as_slice())
    }

    pub fn times(&self, other: &Natural) -> (r: Natural)
        ensures
            r@ == self@ * other@,
    {
        let v = big_mul(self.digits.as_slice(), other.digits.as_slice());
        Natural::from_bytes_be(v.as_slice())
    }

    pub fn plus(&self, other: &Natural) -> (r: Natural)
        ensures
            r@ == self@ + other@,
    {
        let v = big_add(self.digits.as_slice(), other.digits.as_slice());
        Natural::from_bytes_be(v.as_slice())
    }

    pub fn minus(&self, other: &Natural) -> (r: Natural)
        requires
            self@ >= other@,
        ensures
            r@ == self@ - other@,
    {
        let v = big_sub(self.digits.as_slice(), other.digits.as_slice());
        Natural::from_bytes_be(v.as_slice())
    }

    pub fn div_floor(&self, other: &Natural) -> (r: Natural)
        requires
            other@ > 0,
        ensures
            r@ == self@ / other@,
    {
        let v = big_div_floor(self.digits.as_slice(), other.digits.as_slice());
        Natural::from_bytes_be(v.as_slice())
    }

    /// The remainder of the division by `other`.
    pub fn rem(&self, other: &Natural) -> (r: Natural)
        requires
            other@ > 0,
        ensures
            r@ == self@ % other@,
    {
        let v = big_rem(self.digits.as_slice(), other.digits.as_slice());
        Natural::from_bytes_be(v.as_slice())
    }

    /// A random number below 2^bits.
    pub fn random_bits(bits: u64) -> (r: Natural)
        ensures
            r@ < pow2(bits as nat),
    {
        let v = big_random_bits(bits);
        Natural::from_bytes_be(v.as_slice())
    }

    /// A random number below `bound`.
    pub fn random_below(bound: &Natural) -> (r: Natural)
        requires
            bound@ > 0,
        ensures
            r@ < bound@,
    {
        let v = big_random_below(bound.digits.as_slice());
        Natural::from_bytes_be(v.as_slice())
    }

    /// A random number in `[low, high)`.
    pub fn random_range(low: &Natural, high: &Natural) -> (r: Natural)
        requires
            low@ < high@,
        ensures
            low@ <= r@ < high@,
    {
        let v = big_random_range(low.digits.as_slice(), high.digits.as_slice());
        Natural::from_bytes_be(v.as_slice())
    }

    /// The lower-case hexadecimal numeral of the number.
    pub fn to_hex(&self) -> (r: String)
        ensures
            r@ == hex_digits(self@),
    {
        big_to_hex(self.digits.as_slice())
    }

    /// Reads a hexadecimal numeral; `None` when `s` is not one.
    pub fn from_hex(s: &str) -> (r: Option<Natural>)
        ensures
            is_hex(s@) ==> r is Some && r->0@ == hex_value(s@),
    {
        match big_from_hex(s) {
            Some(v) => Some(Natural::from_bytes_be(v.as_slice())),
            None => None,
        }
    }
}

} // verus!
