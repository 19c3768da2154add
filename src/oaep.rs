use vstd::arithmetic::power::pow;
use vstd::prelude::*;
use vstd::string::StringSliceAdditionalSpecFns;

use rand::RngCore;

use crate::convert::{i2osp, os2ip, xor_bytes, xor_vec};
use crate::errors::{Error, Result};
use crate::natural::{
    be_value, byte_len, lemma_be_value_injective, lemma_be_value_leading_zero, lemma_byte_len_fits,
    lemma_to_be_value, to_be,
};
use crate::plain_rsa::{rsa_public, PrivateKey, PublicKey};
use crate::sha256::{digest, lemma_digest_len, sha256};

verus! {

/// Length in bytes of the hash output.
pub const H_LEN: usize = 32;

/// Longest mask that MGF1 produces: 2^32 hash blocks.
pub const MAX_MASK_LEN: u64 = 0x20_0000_0000;

/// Bytes that encoding a message in a block of `k` bytes takes beyond the
/// message itself: two hashes, the leading zero and the separator.
pub const OVERHEAD: usize = 66;

/// Block `c` of MGF1 on `seed`: the hash of the seed and the 4-byte counter.
pub open spec fn mgf1_block(seed: Seq<u8>, c: nat) -> Seq<u8> {
    digest(seed + to_be(c, 4))
}

/// The first `len` bytes of the MGF1 stream on `seed`.
pub open spec fn mgf1_spec(seed: Seq<u8>, len: nat) -> Seq<u8> {
    Seq::new(len, |i: int| mgf1_block(seed, (i / 32) as nat)[i % 32])
}

/// DB = lHash || PS || 0x01 || M, in `k - 33` bytes.
pub open spec fn data_block(lhash: Seq<u8>, msg: Seq<u8>, k: nat) -> Seq<u8> {
    lhash + Seq::new((k - 66 - msg.len()) as nat, |i: int| 0u8) + seq![1u8] + msg
}

/// EME-OAEP encoding of `msg` into `k` bytes with the given seed.
pub open spec fn eme_encode(lhash: Seq<u8>, msg: Seq<u8>, seed: Seq<u8>, k: nat) -> Seq<u8> {
    let db = data_block(lhash, msg, k);
    let masked_db = xor_bytes(db, mgf1_spec(seed, (k - 33) as nat));
    let masked_seed = xor_bytes(seed, mgf1_spec(masked_db, 32));
    seq![0u8] + masked_seed + masked_db
}

/// The message after the zero run and the 0x01 separator, if the run ends in one.
pub open spec fn unpad(ps: Seq<u8>) -> Option<Seq<u8>>
    decreases ps.len(),
{
    if ps.len() == 0 {
        None
    } else if ps[0] == 0 {
        unpad(ps.drop_first())
    } else if ps[0] == 1 {
        Some(ps.drop_first())
    } else {
        None
    }
}

/// The data block that unmasking the `k`-byte block `em` recovers.
pub open spec fn unmasked_db(em: Seq<u8>, k: nat) -> Seq<u8> {
    let masked_seed = em.subrange(1, 33);
    let masked_db = em.subrange(33, k as int);
    let seed = xor_bytes(masked_seed, mgf1_spec(masked_db, 32));
    xor_bytes(masked_db, mgf1_spec(seed, (k - 33) as nat))
}

/// EME-OAEP decoding of the `k`-byte block `em`.
pub open spec fn eme_decode(lhash: Seq<u8>, em: Seq<u8>, k: nat) -> Option<Seq<u8>> {
    let db = unmasked_db(em, k);
    if em[0] != 0 || db.subrange(0, 32) != lhash {
        None
    } else {
        unpad(db.subrange(32, db.len() as int))
    }
}

/// RSAES-OAEP encryption under (n, e) with label hash `lhash` and seed `seed`;
/// `None` when the message does not fit.
pub open spec fn oaep_encrypt_spec(n: nat, e: nat, msg: Seq<u8>, lhash: Seq<u8>, seed: Seq<u8>) -> Option<Seq<u8>> {
    let k = byte_len(n);
    if k < 66 || msg.len() > k - 66 || k - 33 > MAX_MASK_LEN {
        None
    } else {
        let m = be_value(eme_encode(lhash, msg, seed, k));
        Some(to_be((pow(m as int, e) % (n as int)) as nat, k))
    }
}

/// RSAES-OAEP decryption under (n, d) with label hash `lhash`; `None` on any failure.
pub open spec fn oaep_decrypt_spec(n: nat, d: nat, ct: Seq<u8>, lhash: Seq<u8>) -> Option<Seq<u8>> {
    let k = byte_len(n);
    if ct.len() != k || k < 66 || k - 33 > MAX_MASK_LEN {
        None
    } else {
        let m = (pow(be_value(ct) as int, d) % (n as int)) as nat;
        eme_decode(lhash, to_be(m, k), k)
    }
}

/// The four bytes of the MGF1 counter.
fn counter_bytes(c: u64) -> (r: Vec<u8>)
    ensures
        r@ == to_be(c as nat, 4),
        r@.len() == 4,
{
    let c1 = c / 256;
    let c2 = c1 / 256;
    let c3 = c2 / 256;
    let mut r: Vec<u8> = Vec::new();
    r.push((c3 % 256) as u8);
    r.push((c2 % 256) as u8);
    r.push((c1 % 256) as u8);
    r.push((c % 256) as u8);
    proof {
        let t0 = to_be(c3 as nat / 256, 0);
        let t1 = to_be(c3 as nat, 1);
        let t2 = to_be(c2 as nat, 2);
        let t3 = to_be(c1 as nat, 3);
        assert(t1 =~= t0.push((c3 % 256) as u8));
        assert(t2 =~= t1.push((c2 % 256) as u8));
        assert(t3 =~= t2.push((c1 % 256) as u8));
        assert(to_be(c as nat, 4) =~= t3.push((c % 256) as u8));
        assert(r@ =~= to_be(c as nat, 4));
    }
    r
}

/// The first `mask_len` bytes of the MGF1 stream on `seed`.
fn mask_stream(seed: &[u8], mask_len: usize) -> (r: Vec<u8>)
    requires
        seed@.len() < 0x1000_0000_0000_0000,
        mask_len <= MAX_MASK_LEN,
    ensures
        r@ == mgf1_spec(seed@, mask_len as nat),
{
    let mut output: Vec<u8> = Vec::new();
    let mut counter: u64 = 0;
    while output.len() < mask_len
        invariant
            output@.len() <= mask_len,
            mask_len <= MAX_MASK_LEN,
            output@.len() < mask_len ==> output@.len() == 32 * counter,
            counter <= MAX_MASK_LEN / 32 + 1,
            output@ =~= mgf1_spec(seed@, output@.len()),
            seed@.len() < 0x1000_0000_0000_0000,
        decreases mask_len - output@.len(),
    {
        let mut input: Vec<u8> = Vec::new();
        input.extend_from_slice(seed);
        let mut tail = counter_bytes(counter);
        input.append(&mut tail);
        proof {
            assert(input@ =~= seed@ + to_be(counter as nat, 4));
        }
        let h = sha256(input.as_slice());
        let ghost start = output@.len();
        let mut j: usize = 0;
        while j < 32 && output.len() < mask_len
            invariant
                j <= 32,
                start == 32 * counter,
                output@.len() == start + j,
                output@.len() <= mask_len,
                h@ == mgf1_block(seed@, counter as nat),
                output@ =~= mgf1_spec(seed@, output@.len()),
            decreases 32 - j,
        {
            output.push(h[j]);
            proof {
                let i = start + j;
                assert(i / 32 == counter && i % 32 == j as int);
            }
            j += 1;
        }
        counter += 1;
    }
    output
}

/// MGF1 with SHA-256: `mask_len` bytes of the stream on `seed`.
pub fn mgf1(seed: &[u8], mask_len: usize) -> (r: Result<Vec<u8>>)
    requires
        seed@.len() < 0x1000_0000_0000_0000,
    ensures
        match r {
            Ok(v) => mask_len <= MAX_MASK_LEN && v@ == mgf1_spec(seed@, mask_len as nat),
            Err(e) => e == Error::MaskTooLong && mask_len > MAX_MASK_LEN,
        },
{
    if mask_len as u64 > MAX_MASK_LEN {
        return Err(Error::MaskTooLong);
    }
    Ok(mask_stream(seed, mask_len))
}

/// EME-OAEP encoding of `msg` into `k` bytes with label hash `lhash` and `seed`.
pub fn oaep_encode(lhash: &[u8], msg: &[u8], seed: &[u8], k: usize) -> (r: Vec<u8>)
    requires
        lhash@.len() == 32,
        seed@.len() == 32,
        k >= 66,
        msg@.len() <= k - 66,
        k - 33 <= MAX_MASK_LEN,
    ensures
        r@ == eme_encode(lhash@, msg@, seed@, k as nat),
        r@.len() == k,
{
    let mut db: Vec<u8> = Vec::new();
    db.extend_from_slice(lhash);
    let n_zeros: usize = k - 66 - msg.len();
    let mut i: usize = 0;
    while i < n_zeros
        invariant
            i <= n_zeros,
            db@ =~= lhash@ + Seq::new(i as nat, |t: int| 0u8),
        decreases n_zeros - i,
    {
        db.push(0u8);
        i += 1;
    }
    db.push(1u8);
    db.extend_from_slice(msg);
    proof {
        assert(db@ =~= data_block(lhash@, msg@, k as nat));
    }
    let db_mask = mask_stream(seed, k - 33);
    let masked_db = xor_vec(db.as_slice(), db_mask.as_slice());
    let seed_mask = mask_stream(masked_db.as_slice(), 32);
    let masked_seed = xor_vec(seed, seed_mask.as_slice());
    let mut em: Vec<u8> = Vec::new();
    em.push(0u8);
    em.extend_from_slice(masked_seed.as_slice());
    em.extend_from_slice(masked_db.as_slice());
    proof {
        assert(em@ =~= eme_encode(lhash@, msg@, seed@, k as nat));
    }
    em
}

/// A run of zeros in front of the separator does not change what `unpad` finds.
proof fn lemma_unpad_skip(ps: Seq<u8>, j: int)
    requires
        0 <= j <= ps.len(),
        forall|t: int| 0 <= t < j ==> ps[t] == 0,
    ensures
        unpad(ps) == unpad(ps.subrange(j, ps.len() as int)),
    decreases j,
{
    if j > 0 {
        let rest = ps.drop_first();
        assert forall|t: int| 0 <= t < j - 1 implies rest[t] == 0 by {
            assert(rest[t] == ps[t + 1]);
        }
        lemma_unpad_skip(rest, j - 1);
        assert(rest.subrange(j - 1, rest.len() as int) =~= ps.subrange(j, ps.len() as int));
    } else {
        assert(ps.subrange(0, ps.len() as int) =~= ps);
    }
}

/// EME-OAEP decoding of the `k`-byte block `em`; `None` on malformed input.
pub fn oaep_decode(lhash: &[u8], em: &[u8], k: usize) -> (r: Option<Vec<u8>>)
    requires
        lhash@.len() == 32,
        em@.len() == k,
        k >= 66,
        k - 33 <= MAX_MASK_LEN,
    ensures
        match r {
            Some(v) => eme_decode(lhash@, em@, k as nat) == Some(v@),
            None => eme_decode(lhash@, em@, k as nat) is None,
        },
{
    let mut masked_seed: Vec<u8> = Vec::new();
    let mut i: usize = 1;
    while i < 33
        invariant
            1 <= i <= 33,
            em@.len() == k,
            k >= 66,
            masked_seed@ =~= em@.subrange(1, i as int),
        decreases 33 - i,
    {
        masked_seed.push(em[i]);
        i += 1;
    }
    let mut masked_db: Vec<u8> = Vec::new();
    while i < k
        invariant
            33 <= i <= k,
            em@.len() == k,
            masked_db@ =~= em@.subrange(33, i as int),
        decreases k - i,
    {
        masked_db.push(em[i]);
        i += 1;
    }
    let seed_mask = mask_stream(masked_db.as_slice(), 32);
    let seed = xor_vec(masked_seed.as_slice(), seed_mask.as_slice());
    let db_mask = mask_stream(seed.as_slice(), k - 33);
    let db = xor_vec(masked_db.as_slice(), db_mask.as_slice());
    proof {
        assert(masked_db@.len() == k - 33);
        assert(db@.len() == k - 33);
        assert(db@ == unmasked_db(em@, k as nat));
    }
    if em[0] != 0 {
        return None;
    }
    let mut j: usize = 0;
    while j < 32
        invariant
            j <= 32,
            k >= 66,
            db@.len() == k - 33,
            db@ == unmasked_db(em@, k as nat),
            em@[0] == 0,
            lhash@.len() == 32,
            forall|t: int| 0 <= t < j ==> db@[t] == lhash@[t],
        decreases 32 - j,
    {
        if db[j] != lhash[j] {
            proof {
                assert(db@.subrange(0, 32)[j as int] != lhash@[j as int]);
            }
            return None;
        }
        j += 1;
    }
    proof {
        assert(db@.subrange(0, 32) =~= lhash@);
    }
    let ghost ps = db@.subrange(32, db@.len() as int);
    let mut msg_st: usize = 32;
    while msg_st < db.len() && db[msg_st] == 0
        invariant
            32 <= msg_st <= db@.len(),
            ps == db@.subrange(32, db@.len() as int),
            db@ == unmasked_db(em@, k as nat),
            forall|t: int| 0 <= t < msg_st - 32 ==> ps[t] == 0,
        decreases db@.len() - msg_st,
    {
        msg_st += 1;
    }
    proof {
        lemma_unpad_skip(ps, msg_st - 32);
    }
    if msg_st == db.len() || db[msg_st] != 1 {
        return None;
    }
    let mut msg: Vec<u8> = Vec::new();
    let mut t: usize = msg_st + 1;
    while t < db.len()
        invariant
            msg_st + 1 <= t <= db@.len(),
            msg@ =~= db@.subrange(msg_st + 1, t as int),
            db@ == unmasked_db(em@, k as nat),
        decreases db@.len() - t,
    {
        msg.push(db[t]);
        t += 1;
    }
    proof {
        let tail = ps.subrange(msg_st - 32, ps.len() as int);
        assert(tail.drop_first() =~= msg@);
    }
    Some(msg)
}

/// Relies on `RngCore::fill_bytes` of `rand::thread_rng`: `len` random bytes.
#[verifier::external_body]
fn random_bytes(len: usize) -> (r: Vec<u8>)
    ensures
        r@.len() == len,
{
    let mut bytes = vec![0u8; len];
    rand::thread_rng().fill_bytes(&mut bytes);
    bytes
}

/// RSAES-OAEP encryption of `msg` under `pk` with `label` and the given seed.
pub fn oaep_encrypt_with_seed(pk: &PublicKey, msg: &str, label: &str, seed: &[u8]) -> (r: Result<Vec<u8>>)
    requires
        seed@.len() == H_LEN,
        label.spec_bytes().len() < 0x2000_0000_0000_0000,
    ensures
        ({
            let k = byte_len(pk.n@);
            let m = msg.spec_bytes();
            match r {
                Ok(c) => oaep_encrypt_spec(pk.n@, pk.e@, m, digest(label.spec_bytes()), seed@) == Some(c@),
                Err(e) => (e == Error::MessageTooLong && (k < 66 || m.len() > k - 66)) || (e
                    == Error::MaskTooLong && k >= 66 && m.len() <= k - 66 && k - 33 > MAX_MASK_LEN),
            }
        }),
{
    let k = pk.n.byte_length();
    let m = msg.as_bytes();
    if k < OVERHEAD || m.len() > k - OVERHEAD {
        return Err(Error::MessageTooLong);
    }
    if (k - 33) as u64 > MAX_MASK_LEN {
        return Err(Error::MaskTooLong);
    }
    let lhash = sha256(label.as_bytes());
    let em = oaep_encode(&lhash, m, seed, k);
    proof {
        lemma_byte_len_fits(pk.n@, k as nat);
        lemma_byte_len_fits(pk.n@, 0);
    }
    let x = match os2ip(em.as_slice()) {
        Ok(x) => x,
        Err(e) => return Err(e),
    };
    let c = x.modpow(&pk.e, &pk.n);
    i2osp(&c, k)
}

/// RSAES-OAEP encryption of `msg` under `pk` with `label` and a fresh random seed.
pub fn oaep_encrypt_with_label(pk: &PublicKey, msg: &str, label: &str) -> (r: Result<Vec<u8>>)
    requires
        label.spec_bytes().len() < 0x2000_0000_0000_0000,
    ensures
        ({
            let k = byte_len(pk.n@);
            let m = msg.spec_bytes();
            match r {
                Ok(c) => exists|seed: Seq<u8>|
                    seed.len() == H_LEN && oaep_encrypt_spec(pk.n@, pk.e@, m, digest(label.spec_bytes()), seed)
                        == Some(c@),
                Err(e) => (e == Error::MessageTooLong && (k < 66 || m.len() > k - 66)) || (e
                    == Error::MaskTooLong && k >= 66 && m.len() <= k - 66 && k - 33 > MAX_MASK_LEN),
            }
        }),
{
    let seed = random_bytes(H_LEN);
    oaep_encrypt_with_seed(pk, msg, label, seed.as_slice())
}

/// RSAES-OAEP encryption of `msg` under `pk` with the empty label.
pub fn oaep_encrypt(pk: &PublicKey, msg: &str) -> (r: Result<Vec<u8>>)
    ensures
        ({
            let k = byte_len(pk.n@);
            let m = msg.spec_bytes();
            match r {
                Ok(c) => exists|seed: Seq<u8>|
                    seed.len() == H_LEN && oaep_encrypt_spec(pk.n@, pk.e@, m, digest(Seq::empty()), seed)
                        == Some(c@),
                Err(e) => (e == Error::MessageTooLong && (k < 66 || m.len() > k - 66)) || (e
                    == Error::MaskTooLong && k >= 66 && m.len() <= k - 66 && k - 33 > MAX_MASK_LEN),
            }
        }),
{
    proof {
        reveal_strlit("");
    }
    oaep_encrypt_with_label(pk, msg, "")
}

/// RSAES-OAEP decryption of `ciphertext` under `sk` with `label`. Every
/// failure is reported as the same `DecryptionError`.
pub fn oaep_decrypt_with_label(sk: &PrivateKey, ciphertext: &[u8], label: &str) -> (r: Result<Vec<u8>>)
    requires
        label.spec_bytes().len() < 0x2000_0000_0000_0000,
    ensures
        match r {
            Ok(m) => oaep_decrypt_spec(sk.n@, sk.d@, ciphertext@, digest(label.spec_bytes())) == Some(m@),
            Err(e) => e == Error::DecryptionError && oaep_decrypt_spec(
                sk.n@,
                sk.d@,
                ciphertext@,
                digest(label.spec_bytes()),
            ) is None,
        },
{
    let k = sk.n.byte_length();
    if k != ciphertext.len() || k < OVERHEAD || (k - 33) as u64 > MAX_MASK_LEN {
        return Err(Error::DecryptionError);
    }
    proof {
        lemma_byte_len_fits(sk.n@, k as nat);
        lemma_byte_len_fits(sk.n@, 0);
    }
    let c = match os2ip(ciphertext) {
        Ok(c) => c,
        Err(_) => return Err(Error::DecryptionError),
    };
    let m = c.modpow(&sk.d, &sk.n);
    let em = match i2osp(&m, k) {
        Ok(em) => em,
        Err(_) => return Err(Error::DecryptionError),
    };
    let lhash = sha256(label.as_bytes());
    proof {
        lemma_digest_len(label.spec_bytes());
    }
    match oaep_decode(&lhash, em.as_slice(), k) {
        Some(msg) => Ok(msg),
        None => Err(Error::DecryptionError),
    }
}

/// RSAES-OAEP decryption of `ciphertext` under `sk` with the empty label.
pub fn oaep_decrypt(sk: &PrivateKey, ciphertext: &[u8]) -> (r: Result<Vec<u8>>)
    ensures
        match r {
            Ok(m) => oaep_decrypt_spec(sk.n@, sk.d@, ciphertext@, digest(Seq::empty())) == Some(m@),
            Err(e) => e == Error::DecryptionError && oaep_decrypt_spec(
                sk.n@,
                sk.d@,
                ciphertext@,
                digest(Seq::empty()),
            ) is None,
        },
{
    proof {
        reveal_strlit("");
    }
    oaep_decrypt_with_label(sk, ciphertext, "")
}

/// Textbook RSA under (n, e) and then under (n, d) gives back every number below `n`.
pub open spec fn rsa_inverts(n: nat, e: nat, d: nat) -> bool {
    forall|x: nat| x < n ==> #[trigger] rsa_public(rsa_public(x, e, n), d, n) == x
}

/// Masking twice with the same mask gives the data back.
pub proof fn lemma_xor_twice(a: Seq<u8>, mask: Seq<u8>)
    requires
        mask.len() >= a.len(),
    ensures
        xor_bytes(xor_bytes(a, mask), mask) == a,
{
    let once = xor_bytes(a, mask);
    assert forall|i: int| 0 <= i < a.len() implies #[trigger] xor_bytes(once, mask)[i] == a[i] by {
        let (x, y) = (a[i], mask[i]);
        assert((x ^ y) ^ y == x) by (bit_vector);
    }
    assert(xor_bytes(once, mask) =~= a);
}

/// The separator after a zero run is found, and what follows it is the message.
proof fn lemma_unpad_data(zeros: nat, msg: Seq<u8>)
    ensures
        unpad(Seq::new(zeros, |i: int| 0u8) + seq![1u8] + msg) == Some(msg),
{
    let ps = Seq::new(zeros, |i: int| 0u8) + seq![1u8] + msg;
    lemma_unpad_skip(ps, zeros as int);
    let tail = ps.subrange(zeros as int, ps.len() as int);
    assert(tail =~= seq![1u8] + msg);
    assert(tail.drop_first() =~= msg);
}

/// EME-OAEP decoding undoes EME-OAEP encoding, whatever the seed.
pub proof fn lemma_eme_round_trip(lhash: Seq<u8>, msg: Seq<u8>, seed: Seq<u8>, k: nat)
    requires
        lhash.len() == 32,
        seed.len() == 32,
        k >= 66,
        msg.len() <= k - 66,
    ensures
        eme_encode(lhash, msg, seed, k).len() == k,
        eme_encode(lhash, msg, seed, k)[0] == 0,
        eme_decode(lhash, eme_encode(lhash, msg, seed, k), k) == Some(msg),
{
    let db = data_block(lhash, msg, k);
    let db_mask = mgf1_spec(seed, (k - 33) as nat);
    let masked_db = xor_bytes(db, db_mask);
    let seed_mask = mgf1_spec(masked_db, 32);
    let masked_seed = xor_bytes(seed, seed_mask);
    let em = eme_encode(lhash, msg, seed, k);
    assert(em.subrange(1, 33) =~= masked_seed);
    assert(em.subrange(33, k as int) =~= masked_db);
    lemma_xor_twice(seed, seed_mask);
    lemma_xor_twice(db, db_mask);
    assert(unmasked_db(em, k) == db);
    assert(db.subrange(0, 32) =~= lhash);
    let zeros = (k - 66 - msg.len()) as nat;
    assert(db.subrange(32, db.len() as int) =~= Seq::new(zeros, |i: int| 0u8) + seq![1u8] + msg);
    lemma_unpad_data(zeros, msg);
}

/// For a key pair whose textbook operations invert each other, RSAES-OAEP
/// decryption with a label gives back every message that encryption with that
/// label accepts, whatever the seed.
pub proof fn lemma_oaep_round_trip(n: nat, e: nat, d: nat, msg: Seq<u8>, label: Seq<u8>, seed: Seq<u8>)
    requires
        rsa_inverts(n, e, d),
        seed.len() == H_LEN,
        byte_len(n) >= 66,
        msg.len() <= byte_len(n) - 66,
        byte_len(n) - 33 <= MAX_MASK_LEN,
    ensures
        oaep_encrypt_spec(n, e, msg, digest(label), seed) matches Some(c) && oaep_decrypt_spec(
            n,
            d,
            c,
            digest(label),
        ) == Some(msg),
{
    let k = byte_len(n);
    let lhash = digest(label);
    lemma_digest_len(label);
    lemma_eme_round_trip(lhash, msg, seed, k);
    let em = eme_encode(lhash, msg, seed, k);
    lemma_be_value_leading_zero(em);
    let x = be_value(em);
    lemma_byte_len_fits(n, (k - 1) as nat);
    lemma_byte_len_fits(n, k);
    assert(x < n);
    let c_val = rsa_public(x, e, n);
    assert(c_val < n);
    lemma_to_be_value(c_val, k);
    let c = to_be(c_val, k);
    assert(rsa_public(c_val, d, n) == x);
    lemma_to_be_value(x, k);
    lemma_be_value_injective(to_be(x, k), em);
}

/// RSAES-OAEP decryption fails on a ciphertext of the wrong length, and
/// decoding fails on a block whose leading byte is not zero, whose recovered
/// label hash differs from the expected one, or whose data block has no 0x01
/// separator after the label hash.
pub proof fn lemma_oaep_decrypt_rejects(n: nat, d: nat, ct: Seq<u8>, lhash: Seq<u8>, em: Seq<u8>, k: nat)
    requires
        em.len() == k,
        k >= 66,
    ensures
        ct.len() != byte_len(n) ==> oaep_decrypt_spec(n, d, ct, lhash) is None,
        em[0] != 0 ==> eme_decode(lhash, em, k) is None,
        unmasked_db(em, k).subrange(0, 32) != lhash ==> eme_decode(lhash, em, k) is None,
        (forall|i: int| 32 <= i < unmasked_db(em, k).len() ==> unmasked_db(em, k)[i] == 0) ==> eme_decode(
            lhash,
            em,
            k,
        ) is None,
{
    let db = unmasked_db(em, k);
    if forall|i: int| 32 <= i < db.len() ==> db[i] == 0 {
        let ps = db.subrange(32, db.len() as int);
        assert forall|t: int| 0 <= t < ps.len() implies ps[t] == 0 by {
            assert(ps[t] == db[t + 32]);
        }
        lemma_unpad_skip(ps, ps.len() as int);
        assert(ps.subrange(ps.len() as int, ps.len() as int) =~= Seq::<u8>::empty());
    }
}

} // verus!
