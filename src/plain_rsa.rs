use vstd::arithmetic::power::pow;
use vstd::prelude::*;
use vstd::string::StringSliceAdditionalSpecFns;
use vstd::utf8::{decode_utf8, valid_utf8};

use crate::errors::{Error, Result};
use crate::natural::{be_value, byte_len, hex_digits, hex_value, is_hex, to_be, Natural};

verus! {

/// Every byte is below 0x80.
pub open spec fn ascii_bytes(b: Seq<u8>) -> bool {
    forall|i: int| 0 <= i < b.len() ==> b[i] < 0x80
}

/// The textbook RSA public operation `m^e mod n`.
pub open spec fn rsa_public(m: nat, e: nat, n: nat) -> nat {
    (pow(m as int, e) % (n as int)) as nat
}

/// An RSA public key: modulus `n` and public exponent `e`.
#[derive(Debug)]
pub struct PublicKey {
    pub n: Natural,
    pub e: Natural,
}

/// An RSA private key: modulus `n` and private exponent `d`.
#[derive(Debug)]
pub struct PrivateKey {
    pub n: Natural,
    pub d: Natural,
}

/// Relies on `String::from_utf8`: it accepts exactly the valid UTF-8 byte
/// strings and decodes them.
#[verifier::external_body]
fn utf8_string(bytes: Vec<u8>) -> (r: Option<String>)
    ensures
        r is Some <==> valid_utf8(bytes@),
        r matches Some(s) ==> s@ == decode_utf8(bytes@),
{
    String::from_utf8(bytes).ok()
}

/// Whether every byte is below 0x80.
fn all_ascii(bytes: &[u8]) -> (r: bool)
    ensures
        r == ascii_bytes(bytes@),
{
    let mut i: usize = 0;
    while i < bytes.len()
        invariant
            i <= bytes@.len(),
            forall|j: int| 0 <= j < i ==> bytes@[j] < 0x80,
        decreases bytes@.len() - i,
    {
        if bytes[i] >= 0x80 {
            return false;
        }
        i += 1;
    }
    true
}

impl PublicKey {
    pub fn new(n: &Natural, e: &Natural) -> (r: Result<Self>)
        ensures
            r matches Ok(k) && k.n@ == n@ && k.e@ == e@,
    {
        Ok(PublicKey { n: n.duplicate(), e: e.duplicate() })
    }

    /// Textbook RSA on the big-endian value of an ASCII message.
    pub fn encrypt_plain(&self, msg: &str) -> (r: Result<Natural>)
        requires
            self.n@ > 0,
        ensures
            match r {
                Ok(c) => ascii_bytes(msg.spec_bytes())
                    && c@ == rsa_public(be_value(msg.spec_bytes()), self.e@, self.n@),
                Err(e) => e == Error::MessageNotASCII && !ascii_bytes(msg.spec_bytes()),
            },
    {
        let bytes = msg.as_bytes();
        if !all_ascii(bytes) {
            return Err(Error::MessageNotASCII);
        }
        let m = Natural::from_bytes_be(bytes);
        Ok(m.modpow(&self.e, &self.n))
    }

    /// Textbook RSA of an ASCII message, as a lower-case hexadecimal numeral.
    pub fn encrypt(&self, msg: &str) -> (r: Result<String>)
        requires
            self.n@ > 0,
        ensures
            match r {
                Ok(c) => ascii_bytes(msg.spec_bytes())
                    && c@ == hex_digits(rsa_public(be_value(msg.spec_bytes()), self.e@, self.n@)),
                Err(e) => e == Error::MessageNotASCII && !ascii_bytes(msg.spec_bytes()),
            },
    {
        match self.encrypt_plain(msg) {
            Ok(c) => Ok(c.to_hex()),
            Err(e) => Err(e),
        }
    }
}

impl PrivateKey {
    pub fn new(n: &Natural, d: &Natural) -> (r: Result<Self>)
        ensures
            r matches Ok(k) && k.n@ == n@ && k.d@ == d@,
    {
        Ok(PrivateKey { n: n.duplicate(), d: d.duplicate() })
    }

    /// Textbook RSA decryption of a ciphertext given as a hexadecimal numeral.
    pub fn decrypt_plain(&self, ciphertext: &str) -> (r: Result<Natural>)
        requires
            self.n@ > 0,
        ensures
            is_hex(ciphertext@) ==> (r matches Ok(m) && m@ == rsa_public(hex_value(ciphertext@), self.d@, self.n@)),
            r matches Err(e) ==> e == Error::DecryptionError && !is_hex(ciphertext@),
    {
        match Natural::from_hex(ciphertext) {
            Some(c) => Ok(c.modpow(&self.d, &self.n)),
            None => Err(Error::DecryptionError),
        }
    }

    /// Textbook RSA decryption of a hexadecimal ciphertext into the text whose
    /// bytes are the shortest big-endian encoding of the recovered number.
    pub fn decrypt(&self, ciphertext: &str) -> (r: Result<String>)
        requires
            self.n@ > 0,
        ensures
            ({
                let m = rsa_public(hex_value(ciphertext@), self.d@, self.n@);
                let bytes = to_be(m, byte_len(m));
                &&& is_hex(ciphertext@) ==> (r is Ok <==> valid_utf8(bytes))
                &&& is_hex(ciphertext@) ==> (r matches Ok(s) ==> s@ == decode_utf8(bytes))
                &&& r matches Err(e) ==> e == Error::DecryptionError
            }),
    {
        let m = match self.decrypt_plain(ciphertext) {
            Ok(m) => m,
            Err(e) => return Err(e),
        };
        match utf8_string(m.to_bytes_be()) {
            Some(s) => Ok(s),
            None => Err(Error::DecryptionError),
        }
    }
}

} // verus!
