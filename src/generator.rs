use vstd::arithmetic::power2::pow2;
use vstd::prelude::*;

use crate::algorithms::{bases_in_range, divides, ext_euc, is_prime, prime_test_passes, rounds_for};
use crate::errors::{Error, Result};
use crate::integer::Integer;
use crate::natural::Natural;
use crate::plain_rsa::{PrivateKey, PublicKey};

verus! {

/// The public exponent of every generated key.
pub const PUBLIC_EXPONENT: u64 = 65537;

/// Random candidates drawn in one prime search before it gives up.
pub const MAX_PRIME_ATTEMPTS: u64 = 1_000_000;

/// Second primes drawn for one key before key generation gives up.
pub const MAX_PAIR_ATTEMPTS: u64 = 64;

/// What the primality test guarantees of a number it accepts, for a candidate
/// of at most `size` bits.
pub open spec fn prime_candidate(p: nat, size: nat) -> bool {
    &&& 2 <= p < pow2(size)
    &&& exists|fermat_base: nat, bases: Seq<nat>|
        fermat_base < p && bases.len() == rounds_for(p) && bases_in_range(p, bases) && prime_test_passes(
            p,
            fermat_base,
            bases,
        )
}

/// A key (n, e, d) built from the distinct prime candidates `p` and `q`:
/// n = p q and e d = 1 (mod (p - 1)(q - 1)).
pub open spec fn key_from_primes(n: nat, e: nat, d: nat, p: nat, q: nat, size: nat) -> bool {
    &&& p != q
    &&& prime_candidate(p, size)
    &&& prime_candidate(q, size)
    &&& n == p * q
    &&& (e * d) as int % ((p - 1) * (q - 1)) == 1
    &&& 0 < d < (p - 1) * (q - 1)
}

/// The numbers of one key-generation run.
#[derive(Debug)]
pub struct Generator {
    pub n: Natural,
    pub e: Natural,
    pub d: Natural,
}

/// `d` is an inverse of `e` modulo `m`.
pub open spec fn inverse_mod(e: int, d: int, m: int) -> bool {
    (e * d) % m == 1
}

/// When the gcd `g` that the extended Euclidean algorithm found for `e` and
/// `phi` is not 1, no multiple of `e` is 1 modulo `phi`.
proof fn lemma_no_inverse(e: int, phi: int, g: int)
    requires
        e > 0,
        phi >= 2,
        g > 0,
        g != 1,
        divides(g, e),
        divides(g, phi),
    ensures
        !exists|d: int| #[trigger] inverse_mod(e, d, phi),
{
    assert forall|d: int| !#[trigger] inverse_mod(e, d, phi) by {
        let ke = choose|k: int| #[trigger] (k * g) == e;
        let kp = choose|k: int| #[trigger] (k * g) == phi;
        vstd::arithmetic::div_mod::lemma_fundamental_div_mod(e * d, phi);
        let q = (e * d) / phi;
        if (e * d) % phi == 1 {
            assert(1 == g * (ke * d - kp * q)) by (nonlinear_arith)
                requires
                    e * d == phi * q + 1,
                    ke * g == e,
                    kp * g == phi,
            ;
            let c = ke * d - kp * q;
            assert(false) by (nonlinear_arith)
                requires
                    1 == g * c,
                    g > 1,
            ;
        }
    }
}

/// `s` moved into the non-negative numbers by adding `phi` while it is negative.
fn positive_residue(s: Integer, phi: &Integer) -> (r: Natural)
    requires
        phi@ > 0,
    ensures
        (r@ - s@) % phi@ == 0,
        s@ >= 0 ==> r@ == s@,
{
    let mut x = s;
    let ghost mut k: int = 0;
    while x.is_negative()
        invariant
            phi@ > 0,
            x@ == s@ + k * phi@,
            s@ >= 0 ==> k == 0,
        decreases (if x@ < 0 { -x@ } else { 0 }),
    {
        proof {
            assert(s@ + k * phi@ + phi@ == s@ + (k + 1) * phi@) by (nonlinear_arith);
            k = k + 1;
        }
        x = x.plus(phi);
    }
    proof {
        vstd::arithmetic::div_mod::lemma_mod_multiples_basic(k, phi@);
        assert(x@ - s@ == k * phi@);
    }
    match x.to_natural() {
        Some(r) => r,
        None => Natural::from_u64(0),
    }
}

impl Generator {
    /// Draws random numbers of at most `size` bits until one passes the
    /// primality test, giving up after `MAX_PRIME_ATTEMPTS` draws.
    pub fn new_prime(size: u64) -> (r: Result<Natural>)
        ensures
            match r {
                Ok(p) => prime_candidate(p@, size as nat),
                Err(e) => e == Error::PrimeSearchExhausted,
            },
    {
        let mut attempts: u64 = 0;
        while attempts < MAX_PRIME_ATTEMPTS
            invariant
                attempts <= MAX_PRIME_ATTEMPTS,
            decreases MAX_PRIME_ATTEMPTS - attempts,
        {
            let proposal = Natural::random_bits(size);
            if is_prime(&proposal) {
                return Ok(proposal);
            }
            attempts += 1;
        }
        Err(Error::PrimeSearchExhausted)
    }

    /// The key (p q, 65537, d) with d = 65537^-1 mod (p - 1)(q - 1), computed
    /// with the extended Euclidean algorithm; `None` when p = q or 65537 is not
    /// invertible modulo (p - 1)(q - 1).
    pub fn from_primes(p: &Natural, q: &Natural) -> (r: Option<Generator>)
        requires
            p@ >= 2,
            q@ >= 2,
        ensures
            match r {
                Some(g) => p@ != q@ && g.n@ == p@ * q@ && g.e@ == PUBLIC_EXPONENT && (g.e@ * g.d@) as int % ((
                p@ - 1) * (q@ - 1)) == 1 && 0 < g.d@ < (p@ - 1) * (q@ - 1),
                None => p@ == q@ || !exists|d: int| #[trigger] inverse_mod(
                    PUBLIC_EXPONENT as int,
                    d,
                    (p@ - 1) * (q@ - 1),
                ),
            },
    {
        if q.equals(p) {
            return None;
        }
        let one = Natural::from_u64(1);
        let e = Natural::from_u64(PUBLIC_EXPONENT);
        let e_int = Integer::from_natural(&e);
        let n = p.times(q);
        let phi = p.minus(&one).times(&q.minus(&one));
        let phi_int = Integer::from_natural(&phi);
        proof {
            let (pp, qq) = (p@ - 1, q@ - 1);
            assert(pp * qq >= 2) by (nonlinear_arith)
                requires
                    pp >= 1,
                    qq >= 1,
                    pp >= 2 || qq >= 2,
            ;
        }
        let (s0, t0, g) = ext_euc(&e_int, &phi_int);
        let g_is_one = match g.to_natural() {
            Some(gn) => gn.equals(&one),
            None => false,
        };
        if !g_is_one {
            proof {
                lemma_no_inverse(e@ as int, phi@ as int, g@);
            }
            return None;
        }
        let d0 = positive_residue(s0, &phi_int);
        let d = d0.rem(&phi);
        proof {
            let (z, y) = (d0@ as int, phi@ as int);
            vstd::arithmetic::div_mod::lemma_fundamental_div_mod(z, y);
            vstd::arithmetic::div_mod::lemma_mod_bound(z, y);
            assert((d@ - s0@) % y == 0) by {
                let k = z / y;
                assert(d@ - s0@ == (z - s0@) + (-k) * y) by (nonlinear_arith)
                    requires
                        z == y * k + d@,
                ;
                vstd::arithmetic::div_mod::lemma_mod_multiples_vanish(-k, z - s0@, y);
            }
        }
        proof {
            let (x, y, ss, tt, dd) = (e@ as int, phi@ as int, s0@, t0@, d@ as int);
            let m = (dd - ss) / y;
            vstd::arithmetic::div_mod::lemma_fundamental_div_mod(dd - ss, y);
            assert(x * dd == 1 + y * (x * m - tt)) by (nonlinear_arith)
                requires
                    x * ss + y * tt == 1,
                    dd - ss == y * m + 0,
            ;
            vstd::arithmetic::div_mod::lemma_mod_multiples_vanish(x * m - tt, 1, y);
            vstd::arithmetic::div_mod::lemma_small_mod(1, y as nat);
            assert((x * dd) % y == 1);
            if d@ == 0 {
                assert(x * dd == 0);
                assert(0int % y == 0);
            }
            assert(d@ < y);
        }
        Some(Generator { n, e, d })
    }

    /// Generates a key from two distinct primes of at most `size` bits with
    /// e = 65537. A second prime equal to the first, or one for which e is
    /// not invertible modulo (p - 1)(q - 1), is drawn again.
    pub fn new(size: u64) -> (r: Result<Self>)
        ensures
            match r {
                Ok(g) => g.e@ == PUBLIC_EXPONENT && exists|p: nat, q: nat|
                    key_from_primes(g.n@, g.e@, g.d@, p, q, size as nat),
                Err(e) => e == Error::PrimeSearchExhausted,
            },
    {
        let p = match Generator::new_prime(size) {
            Ok(p) => p,
            Err(e) => return Err(e),
        };
        let mut attempts: u64 = 0;
        while attempts < MAX_PAIR_ATTEMPTS
            invariant
                attempts <= MAX_PAIR_ATTEMPTS,
                prime_candidate(p@, size as nat),
            decreases MAX_PAIR_ATTEMPTS - attempts,
        {
            let q = match Generator::new_prime(size) {
                Ok(q) => q,
                Err(e) => return Err(e),
            };
            if let Some(g) = Generator::from_primes(&p, &q) {
                assert(key_from_primes(g.n@, g.e@, g.d@, p@, q@, size as nat));
                assert(exists|p0: nat, q0: nat| key_from_primes(g.n@, g.e@, g.d@, p0, q0, size as nat));
                return Ok(g);
            }
            attempts += 1;
        }
        Err(Error::PrimeSearchExhausted)
    }

    /// The key pair whose halves share one modulus, as a generator; the
    /// halves must have the same modulus.
    pub fn from_keys(pk: &PublicKey, sk: &PrivateKey) -> (r: Result<Generator>)
        ensures
            match r {
                Ok(g) => pk.n@ == sk.n@ && g.n@ == pk.n@ && g.e@ == pk.e@ && g.d@ == sk.d@,
                Err(e) => e == Error::InvalidKeyPair && pk.n@ != sk.n@,
            },
    {
        if !pk.n.equals(&sk.n) {
            return Err(Error::InvalidKeyPair);
        }
        Ok(Generator { n: pk.n.duplicate(), e: pk.e.duplicate(), d: sk.d.duplicate() })
    }
}

impl PublicKey {
    /// The public half (n, e) of a generated key.
    pub fn from_generator(g: &Generator) -> (r: PublicKey)
        ensures
            r.n@ == g.n@ && r.e@ == g.e@,
    {
        PublicKey { n: g.n.duplicate(), e: g.e.duplicate() }
    }
}

impl PrivateKey {
    /// The private half (n, d) of a generated key.
    pub fn from_generator(g: &Generator) -> (r: PrivateKey)
        ensures
            r.n@ == g.n@ && r.d@ == g.d@,
    {
        PrivateKey { n: g.n.duplicate(), d: g.d.duplicate() }
    }
}

} // verus!
