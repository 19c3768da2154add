use vstd::prelude::*;

use crate::errors::{Error, Result};
use crate::natural::{
    be_value, byte_len, lemma_be_value_append, lemma_be_value_injective, lemma_be_value_zeros,
    lemma_byte_len_fits, lemma_to_be_value, pow256, to_be, Natural,
};

verus! {

/// The byte-wise exclusive or of `a` and `b`, over the length of the shorter one.
pub open spec fn xor_bytes(a: Seq<u8>, b: Seq<u8>) -> Seq<u8> {
    let n = if a.len() <= b.len() { a.len() } else { b.len() };
    Seq::new(n, |i: int| a[i] ^ b[i])
}

/// I2OSP: the big-endian encoding of `x` in exactly `size` bytes.
pub fn i2osp(x: &Natural, size: usize) -> (r: Result<Vec<u8>>)
    ensures
        match r {
            Ok(v) => size > 0 && x@ < pow256(size as nat) && v@ == to_be(x@, size as nat) && v@.len() == size
                && be_value(v@) == x@,
            Err(e) => e == Error::IntegerTooLarge && (size == 0 || x@ >= pow256(size as nat)),
        },
{
    proof {
        lemma_byte_len_fits(x@, size as nat);
    }
    let digits = x.to_bytes_be();
    if size == 0 || digits.len() > size {
        return Err(Error::IntegerTooLarge);
    }
    let n_zeros: usize = size - digits.len();
    let mut output: Vec<u8> = Vec::new();
    let mut i: usize = 0;
    while i < n_zeros
        invariant
            i <= n_zeros,
            output@ =~= Seq::new(i as nat, |j: int| 0u8),
        decreases n_zeros - i,
    {
        output.push(0u8);
        i += 1;
    }
    let mut j: usize = 0;
    while j < digits.len()
        invariant
            j <= digits@.len(),
            output@ =~= Seq::new(n_zeros as nat, |t: int| 0u8) + digits@.subrange(0, j as int),
        decreases digits@.len() - j,
    {
        output.push(digits[j]);
        j += 1;
    }
    proof {
        let z = Seq::new(n_zeros as nat, |t: int| 0u8);
        assert(digits@.subrange(0, digits@.len() as int) =~= digits@);
        lemma_be_value_append(z, digits@);
        lemma_be_value_zeros(n_zeros as nat);
        assert(be_value(output@) == 0 * pow256(digits@.len()) + be_value(digits@));
        lemma_to_be_value(x@, size as nat);
        lemma_be_value_injective(output@, to_be(x@, size as nat));
    }
    Ok(output)
}

/// OS2IP: the number that the big-endian byte string `x` denotes.
pub fn os2ip(x: &[u8]) -> (r: Result<Natural>)
    ensures
        match r {
            Ok(v) => x@.len() > 0 && v@ == be_value(x@),
            Err(e) => e == Error::OctetStringEmpty && x@.len() == 0,
        },
{
    if x.len() == 0 {
        return Err(Error::OctetStringEmpty);
    }
    Ok(Natural::from_bytes_be(x))
}

/// The byte-wise exclusive or of `a` and `b`, over the length of the shorter one.
pub fn xor_vec(a: &[u8], b: &[u8]) -> (r: Vec<u8>)
    ensures
        r@ == xor_bytes(a@, b@),
{
    let n: usize = if a.len() <= b.len() { a.len() } else { b.len() };
    let mut output: Vec<u8> = Vec::new();
    let mut i: usize = 0;
    while i < n
        invariant
            i <= n,
            n <= a@.len(),
            n <= b@.len(),
            n == (if a@.len() <= b@.len() { a@.len() } else { b@.len() }),
            output@ =~= xor_bytes(a@, b@).subrange(0, i as int),
        decreases n - i,
    {
        output.push(a[i] ^ b[i]);
        i += 1;
    }
    proof {
        assert(output@ =~= xor_bytes(a@, b@));
    }
    output
}

/// The byte-wise exclusive or of `a` and `b`; the longer one is cut to the
/// length of the shorter. It never fails.
pub fn string_xor(a: &[u8], b: &[u8]) -> (r: Result<Vec<u8>>)
    ensures
        r matches Ok(v) && v@ == xor_bytes(a@, b@),
{
    Ok(xor_vec(a, b))
}

/// Decoding the I2OSP encoding of a number that fits in `size` bytes gives
/// the number back (OS2IP inverts I2OSP).
pub proof fn lemma_os2ip_i2osp_round_trip(x: nat, size: nat)
    requires
        size > 0,
        x < pow256(size),
    ensures
        to_be(x, size).len() == size,
        be_value(to_be(x, size)) == x,
{
    lemma_to_be_value(x, size);
}

} // verus!
