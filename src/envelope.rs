use vstd::prelude::*;

use base64::engine::general_purpose;
use base64::Engine;

use crate::natural::{
    byte_len, lemma_radix16_len, lemma_radix16_round_trip, radix16_digits, radix16_value, Natural,
};
use crate::plain_rsa::{PrivateKey, PublicKey};

verus! {

/// The standard padded base64 text of `b`.
pub uninterp spec fn base64_of(b: Seq<u8>) -> Seq<char>;

/// The bytes that the base64 text `s` decodes to, when it is valid.
pub uninterp spec fn base64_decoded(s: Seq<char>) -> Seq<u8>;

/// Largest modulus or exponent, in bytes, that an envelope holds.
pub const MAX_ENVELOPE_NUMBER_BYTES: usize = usize::MAX / 8;

/// Relies on base64's `general_purpose::STANDARD.encode`: the padded standard
/// encoding, a function of the bytes alone; it panics only on inputs longer
/// than about three quarters of the address space.
#[verifier::external_body]
fn base64_encode(bytes: &[u8]) -> (r: String)
    requires
        bytes@.len() <= usize::MAX / 2,
    ensures
        r@ == base64_of(bytes@),
{
    general_purpose::STANDARD.encode(bytes)
}

/// Relies on base64's `general_purpose::STANDARD.decode`: the decoded bytes,
/// a function of the text alone, or an error for text that is not base64; the
/// text that `STANDARD.encode` made of some bytes decodes to those bytes.
#[verifier::external_body]
fn base64_decode(text: &str) -> (r: Option<Vec<u8>>)
    ensures
        r matches Some(b) ==> b@ == base64_decoded(text@),
        forall|b: Seq<u8>| text@ == #[trigger] base64_of(b) ==> r is Some && r->0@ == b,
{
    general_purpose::STANDARD.decode(text).ok()
}

/// The envelope line of a number: the base64 text of its base-16 digit values.
pub open spec fn payload_line(v: nat) -> Seq<char> {
    base64_of(radix16_digits(v))
}

fn payload(x: &Natural) -> (r: String)
    requires
        byte_len(x@) < MAX_ENVELOPE_NUMBER_BYTES,
    ensures
        r@ == payload_line(x@),
{
    proof {
        lemma_radix16_len(x@);
    }
    let digits = x.to_radix16();
    base64_encode(digits.as_slice())
}

/// The number in an envelope line, when the line is base64 of digit values below 16.
fn read_payload(line: &str) -> (r: Option<Natural>)
    ensures
        r matches Some(v) ==> v@ == radix16_value(base64_decoded(line@)),
        forall|x: nat| line@ == #[trigger] payload_line(x) ==> (r matches Some(v) && v@ == x),
{
    let decoded = base64_decode(line);
    proof {
        assert forall|x: nat| line@ == #[trigger] payload_line(x) implies decoded matches Some(v) && v@
            == radix16_digits(x) by {
            assert(line@ == base64_of(radix16_digits(x)));
        }
    }
    match decoded {
        Some(digits) => {
            let r = Natural::from_radix16(digits.as_slice());
            proof {
                assert forall|x: nat| line@ == #[trigger] payload_line(x) implies (r matches Some(v) && v@
                    == x) by {
                    lemma_radix16_round_trip(x);
                    assert(digits@ == radix16_digits(x));
                }
            }
            r
        },
        None => None,
    }
}

/// The numbers on the second and third lines of an envelope.
fn read_numbers(lines: &[String]) -> (r: Option<(Natural, Natural)>)
    ensures
        lines@.len() < 3 ==> r is None,
        r matches Some((a, b)) ==> a@ == radix16_value(base64_decoded(lines@[1]@)) && b@ == radix16_value(
            base64_decoded(lines@[2]@),
        ),
        forall|x: nat, y: nat|
            lines@.len() >= 3 && lines@[1]@ == #[trigger] payload_line(x) && lines@[2]@ == #[trigger] payload_line(y)
                ==> (r matches Some((a, b)) && a@ == x && b@ == y),
{
    if lines.len() < 3 {
        return None;
    }
    let a = match read_payload(lines[1].as_str()) {
        Some(a) => a,
        None => return None,
    };
    let b = match read_payload(lines[2].as_str()) {
        Some(b) => b,
        None => return None,
    };
    Some((a, b))
}

impl PublicKey {
    /// The lines of the public key file: begin marker, `n`, `e`, end marker.
    pub fn envelope_lines(&self) -> (r: Vec<String>)
        requires
            byte_len(self.n@) < MAX_ENVELOPE_NUMBER_BYTES,
            byte_len(self.e@) < MAX_ENVELOPE_NUMBER_BYTES,
        ensures
            r@.len() == 4,
            r@[0]@ == "---------- BEGIN RSA PUBLIC KEY ----------"@,
            r@[1]@ == payload_line(self.n@),
            r@[2]@ == payload_line(self.e@),
            r@[3]@ == "----------- END RSA PUBLIC KEY -----------"@,
    {
        let mut lines: Vec<String> = Vec::new();
        lines.push("---------- BEGIN RSA PUBLIC KEY ----------".to_owned());
        lines.push(payload(&self.n));
        lines.push(payload(&self.e));
        lines.push("----------- END RSA PUBLIC KEY -----------".to_owned());
        lines
    }

    /// The key in the lines of a public key file: `n` on the second line, `e`
    /// on the third.
    pub fn from_envelope_lines(lines: &[String]) -> (r: Option<PublicKey>)
        ensures
            lines@.len() < 3 ==> r is None,
            r matches Some(k) ==> k.n@ == radix16_value(base64_decoded(lines@[1]@)) && k.e@ == radix16_value(
                base64_decoded(lines@[2]@),
            ),
            forall|x: nat, y: nat|
                lines@.len() >= 3 && lines@[1]@ == #[trigger] payload_line(x) && lines@[2]@ == #[trigger] payload_line(y)
                    ==> (r matches Some(k) && k.n@ == x && k.e@ == y),
    {
        match read_numbers(lines) {
            Some((n, e)) => Some(PublicKey { n, e }),
            None => None,
        }
    }
}

impl PrivateKey {
    /// The lines of the private key file: begin marker, `n`, `d`, end marker.
    pub fn envelope_lines(&self) -> (r: Vec<String>)
        requires
            byte_len(self.n@) < MAX_ENVELOPE_NUMBER_BYTES,
            byte_len(self.d@) < MAX_ENVELOPE_NUMBER_BYTES,
        ensures
            r@.len() == 4,
            r@[0]@ == "---------- BEGIN RSA PRIVATE KEY ----------"@,
            r@[1]@ == payload_line(self.n@),
            r@[2]@ == payload_line(self.d@),
            r@[3]@ == "----------- END RSA PRIVATE KEY -----------"@,
    {
        let mut lines: Vec<String> = Vec::new();
        lines.push("---------- BEGIN RSA PRIVATE KEY ----------".to_owned());
        lines.push(payload(&self.n));
        lines.push(payload(&self.d));
        lines.push("----------- END RSA PRIVATE KEY -----------".to_owned());
        lines
    }

    /// The key in the lines of a private key file: `n` on the second line,
    /// `d` on the third.
    pub fn from_envelope_lines(lines: &[String]) -> (r: Option<PrivateKey>)
        ensures
            lines@.len() < 3 ==> r is None,
            r matches Some(k) ==> k.n@ == radix16_value(base64_decoded(lines@[1]@)) && k.d@ == radix16_value(
                base64_decoded(lines@[2]@),
            ),
            forall|x: nat, y: nat|
                lines@.len() >= 3 && lines@[1]@ == #[trigger] payload_line(x) && lines@[2]@ == #[trigger] payload_line(y)
                    ==> (r matches Some(k) && k.n@ == x && k.d@ == y),
    {
        match read_numbers(lines) {
            Some((n, d)) => Some(PrivateKey { n, d }),
            None => None,
        }
    }
}

} // verus!
