use my_rsa::algorithms::{ext_euc, is_prime, is_prime_with_bases, miller_rabin_with_bases};
use my_rsa::errors::Error;
use my_rsa::generator::Generator;
use my_rsa::integer::Integer;
use my_rsa::natural::Natural;
use my_rsa::oaep::{
    oaep_decrypt, oaep_decrypt_with_label, oaep_encrypt, oaep_encrypt_with_label, oaep_encrypt_with_seed,
};
use my_rsa::plain_rsa::{PrivateKey, PublicKey};
use num_bigint::BigUint;

fn to_big(x: &Natural) -> BigUint {
    BigUint::from_bytes_be(&x.to_bytes_be())
}

fn from_big(x: &BigUint) -> Natural {
    Natural::from_bytes_be(&x.to_bytes_be())
}

#[test]
fn test_ext_euc() {
    let a = Integer::from_i64(240);
    let b = Integer::from_i64(46);
    let (s, t, d) = ext_euc(&a, &b);
    assert!(s == Integer::from_i64(-9), "s = {:?}", s);
    assert!(t == Integer::from_i64(47), "t = {:?}", t);
    assert!(d == Integer::from_i64(2), "d = {:?}", d);
}

#[test]
fn ext_euc_with_zero_argument() {
    let (s, t, d) = ext_euc(&Integer::from_i64(0), &Integer::from_i64(12));
    assert!(s == Integer::from_i64(12) && t == Integer::from_i64(0) && d == Integer::from_i64(1));
    let (s, t, d) = ext_euc(&Integer::from_i64(-5), &Integer::from_i64(0));
    assert!(s == Integer::from_i64(-5) && t == Integer::from_i64(0) && d == Integer::from_i64(1));
}

#[test]
fn ext_euc_bezout_identity() {
    let (a, b) = (65537i64, 3_120_000i64);
    let (s, t, d) = ext_euc(&Integer::from_i64(a), &Integer::from_i64(b));
    let lhs = Integer::from_i64(a).times(&s).plus(&Integer::from_i64(b).times(&t));
    assert!(lhs == d);
    assert!(d == Integer::from_i64(1));
}

#[test]
fn is_prime_rejects_even_zero_and_nine() {
    assert!(!is_prime(&Natural::from_u64(0)));
    assert!(!is_prime(&Natural::from_u64(1)));
    assert!(!is_prime(&Natural::from_u64(4)));
    assert!(!is_prime(&Natural::from_u64(1 << 40)));
    assert!(!is_prime(&Natural::from_u64(9)));
    assert!(!is_prime(&Natural::from_u64(561 * 1105)));
}

#[test]
fn is_prime_accepts_mersenne_prime() {
    assert!(is_prime(&Natural::from_u64((1u64 << 61) - 1)));
}

#[test]
fn test_gen_keys() {
    let gen = Generator::new(1024);
    match gen {
        Ok(v) => println!("Success:\n n: {:?},\n e: {:?},\n d: {:?}", v.n, v.e, v.d),
        Err(e) => println!("Error:\n {:?}", e),
    }
}

#[test]
fn generated_key_inverts() {
    let gen = Generator::new(256).unwrap();
    assert_eq!(gen.e, Natural::from_u64(65537));
    let pk = PublicKey::from_generator(&gen);
    let sk = PrivateKey::from_generator(&gen);
    let m = Natural::from_u64(0x1234_5678);
    let c = m.modpow(&pk.e, &pk.n);
    assert_eq!(c.modpow(&sk.d, &sk.n), m);
}

#[test]
fn test_encrypt_decrypt() {
    let gen = Generator::new(1024).unwrap();
    let enc = PublicKey::from_generator(&gen);
    let dec = PrivateKey::from_generator(&gen);

    assert_eq!(enc.n, dec.n);

    let msg = String::from("Hello World!");
    let ciphertext = enc.encrypt(&msg[..]).unwrap();
    let plaintext = dec.decrypt(&ciphertext[..]).unwrap();

    assert_eq!(&msg[..], &plaintext[..]);
    println!("msg: {}, \nciphertext: {}, \nplaintext: {}", msg, ciphertext, plaintext);
}

#[test]
fn encrypt_rejects_non_ascii() {
    let pk = PublicKey::new(&Natural::from_u64(3233), &Natural::from_u64(17)).unwrap();
    assert_eq!(pk.encrypt("héllo").unwrap_err(), Error::MessageNotASCII);
    assert_eq!(pk.encrypt_plain("A").unwrap(), Natural::from_u64(2790));
    let sk = PrivateKey::new(&Natural::from_u64(3233), &Natural::from_u64(413)).unwrap();
    assert_eq!(sk.decrypt_plain("ae6").unwrap(), Natural::from_u64(65));
    assert_eq!(sk.decrypt("ae6").unwrap(), "A");
}

#[test]
fn chosen_ciphertext_attack() {
    // initialize the oracle
    let gen = Generator::new(1024).unwrap();
    let enc_oracle = PublicKey::from_generator(&gen);
    let dec_oracle = PrivateKey::from_generator(&gen);

    // secret_msg is not visible by the attacker but the attacker wants to reveal it from the ciphertext
    let secret_msg = Natural::from_bytes_be("I am secret msg".as_bytes());
    let ciphertext = secret_msg.modpow(&enc_oracle.e, &enc_oracle.n);

    // the random multiplier
    let adder = Natural::from_bytes_be("msg adder".as_bytes());
    let forge_ciphertext = ciphertext.times(&adder.modpow(&enc_oracle.e, &enc_oracle.n));
    let forge_msg = forge_ciphertext.modpow(&dec_oracle.d, &dec_oracle.n);

    // compute the modular inverse of r modulo n
    let n_int = Integer::from_natural(&enc_oracle.n);
    let (mut adder_inv_module_n, _, _) = ext_euc(&Integer::from_natural(&adder), &n_int);
    while adder_inv_module_n.is_negative() {
        adder_inv_module_n = adder_inv_module_n.plus(&n_int);
    }

    // the secret_msg is revealed
    let adder_inv = adder_inv_module_n.to_natural().unwrap();
    let retrieve_msg = to_big(&forge_msg.times(&adder_inv)) % to_big(&enc_oracle.n);

    assert_eq!(from_big(&retrieve_msg), secret_msg);
}

#[test]
fn key_pair_from_mismatched_moduli() {
    let pk = PublicKey::new(&Natural::from_u64(3233), &Natural::from_u64(17)).unwrap();
    let sk = PrivateKey::new(&Natural::from_u64(3233), &Natural::from_u64(413)).unwrap();
    let g = Generator::from_keys(&pk, &sk).unwrap();
    assert_eq!(g.n, Natural::from_u64(3233));
    assert_eq!(g.d, Natural::from_u64(413));
    let other = PrivateKey::new(&Natural::from_u64(3127), &Natural::from_u64(413)).unwrap();
    assert_eq!(Generator::from_keys(&pk, &other).unwrap_err(), Error::InvalidKeyPair);
}

#[test]
fn oaep_hello_world_round_trip() {
    let gen = Generator::new(1024).unwrap();
    let pk = PublicKey::from_generator(&gen);
    let sk = PrivateKey::from_generator(&gen);
    let ciphertext = oaep_encrypt(&pk, "Hello World!").unwrap();
    assert_eq!(ciphertext.len(), pk.n.byte_length());
    let plaintext = oaep_decrypt(&sk, &ciphertext).unwrap();
    assert_eq!(std::str::from_utf8(&plaintext).unwrap(), "Hello World!");
}

#[test]
fn oaep_round_trip_with_label_and_lengths() {
    let gen = Generator::new(512).unwrap();
    let pk = PublicKey::from_generator(&gen);
    let sk = PrivateKey::from_generator(&gen);
    let k = pk.n.byte_length();
    let longest = "x".repeat(k - 66);
    for msg in ["", "a", "my message", longest.as_str()] {
        let c = oaep_encrypt_with_label(&pk, msg, "my label").unwrap();
        assert_eq!(oaep_decrypt_with_label(&sk, &c, "my label").unwrap(), msg.as_bytes());
    }
    let too_long = "x".repeat(k - 65);
    assert_eq!(oaep_encrypt(&pk, &too_long).unwrap_err(), Error::MessageTooLong);
}

#[test]
fn oaep_seed_is_deterministic() {
    let gen = Generator::new(512).unwrap();
    let pk = PublicKey::from_generator(&gen);
    let seed = [9u8; 32];
    let c1 = oaep_encrypt_with_seed(&pk, "same", "", &seed).unwrap();
    let c2 = oaep_encrypt_with_seed(&pk, "same", "", &seed).unwrap();
    assert_eq!(c1, c2);
    let c3 = oaep_encrypt_with_seed(&pk, "same", "", &[8u8; 32]).unwrap();
    assert_ne!(c1, c3);
}

#[test]
fn oaep_decrypt_failures() {
    let gen = Generator::new(512).unwrap();
    let pk = PublicKey::from_generator(&gen);
    let sk = PrivateKey::from_generator(&gen);
    let k = pk.n.byte_length();
    let c = oaep_encrypt_with_label(&pk, "secret", "label").unwrap();

    // wrong length
    assert_eq!(oaep_decrypt_with_label(&sk, &c[1..], "label").unwrap_err(), Error::DecryptionError);
    let mut longer = c.clone();
    longer.push(0);
    assert_eq!(oaep_decrypt_with_label(&sk, &longer, "label").unwrap_err(), Error::DecryptionError);

    // label mismatch
    assert_eq!(oaep_decrypt_with_label(&sk, &c, "other").unwrap_err(), Error::DecryptionError);

    // tampered leading byte: a block whose first byte is not zero
    let n = to_big(&pk.n);
    let mut em = vec![0u8; k];
    em[0] = 1;
    let bad = BigUint::from_bytes_be(&em).modpow(&to_big(&pk.e), &n);
    let mut bad_c = bad.to_bytes_be();
    while bad_c.len() < k {
        bad_c.insert(0, 0);
    }
    assert_eq!(oaep_decrypt_with_label(&sk, &bad_c, "label").unwrap_err(), Error::DecryptionError);

    // data block without a 0x01 separator: every byte zero
    let zero_c = vec![0u8; k];
    assert_eq!(oaep_decrypt(&sk, &zero_c).unwrap_err(), Error::DecryptionError);
}

#[test]
fn oaep_rejects_small_modulus() {
    let pk = PublicKey::new(&Natural::from_u64(3233), &Natural::from_u64(17)).unwrap();
    assert_eq!(oaep_encrypt(&pk, "").unwrap_err(), Error::MessageTooLong);
    let sk = PrivateKey::new(&Natural::from_u64(3233), &Natural::from_u64(413)).unwrap();
    assert_eq!(oaep_decrypt(&sk, &[1, 2]).unwrap_err(), Error::DecryptionError);
}

#[test]
fn envelope_lines_round_trip() {
    let pk = PublicKey::new(&Natural::from_u64(0xabcdef), &Natural::from_u64(65537)).unwrap();
    let lines = pk.envelope_lines();
    assert_eq!(lines.len(), 4);
    assert_eq!(lines[0], "---------- BEGIN RSA PUBLIC KEY ----------");
    assert_eq!(lines[3], "----------- END RSA PUBLIC KEY -----------");
    // base64 of the hexadecimal digit values [10, 11, 12, 13, 14, 15]
    assert_eq!(lines[1], "CgsMDQ4P");
    let back = PublicKey::from_envelope_lines(&lines).unwrap();
    assert_eq!(back.n, pk.n);
    assert_eq!(back.e, pk.e);

    let sk = PrivateKey::new(&Natural::from_u64(3233), &Natural::from_u64(413)).unwrap();
    let lines = sk.envelope_lines();
    assert_eq!(lines[0], "---------- BEGIN RSA PRIVATE KEY ----------");
    let back = PrivateKey::from_envelope_lines(&lines).unwrap();
    assert_eq!(back.n, sk.n);
    assert_eq!(back.d, sk.d);
    assert!(PrivateKey::from_envelope_lines(&lines[..2]).is_none());
}

#[test]
fn generator_from_primes() {
    let g = Generator::from_primes(&Natural::from_u64(61), &Natural::from_u64(53)).unwrap();
    assert_eq!(g.n, Natural::from_u64(3233));
    assert_eq!(g.e, Natural::from_u64(65537));
    // 65537 * 2753 = 1 (mod 3120)
    assert_eq!(g.d, Natural::from_u64(2753));
    assert!(Generator::from_primes(&Natural::from_u64(61), &Natural::from_u64(61)).is_none());
}

#[test]
fn miller_rabin_with_given_bases() {
    // 2047 = 23 * 89 is a strong probable prime to base 2 but not to base 3
    let n = Natural::from_u64(2047);
    assert!(miller_rabin_with_bases(&n, &[Natural::from_u64(2)]));
    assert!(!miller_rabin_with_bases(&n, &[Natural::from_u64(2), Natural::from_u64(3)]));
    assert!(miller_rabin_with_bases(&Natural::from_u64(3), &[]));
    assert!(!miller_rabin_with_bases(&Natural::from_u64(1), &[]));
    assert!(!miller_rabin_with_bases(&Natural::from_u64(10), &[Natural::from_u64(3)]));
}

#[test]
fn primality_with_given_bases() {
    let p = Natural::from_u64((1u64 << 61) - 1);
    let bases: Vec<Natural> = [2u64, 3, 5, 7, 11, 13, 17, 19].iter().map(|b| Natural::from_u64(*b)).collect();
    assert!(is_prime_with_bases(&p, &Natural::from_u64(3), &bases));
    // base 0 fails Fermat's test even for a prime
    assert!(!is_prime_with_bases(&p, &Natural::from_u64(0), &bases));
    // 67591 = 257 * 263 has no factor below 256 and fails Fermat's test to base 2
    assert!(!is_prime_with_bases(&Natural::from_u64(67591), &Natural::from_u64(2), &bases));
    // multiples of a small prime are rejected, the small prime itself is not
    assert!(!is_prime_with_bases(&Natural::from_u64(3 * 1_000_003), &Natural::from_u64(2), &bases));
    assert!(is_prime_with_bases(&Natural::from_u64(251), &Natural::from_u64(2), &bases[..1]));
}

#[test]
fn generated_exponent_is_reduced() {
    let p = Natural::from_u64(1_000_003);
    let q = Natural::from_u64(998_244_353);
    let g = Generator::from_primes(&p, &q).unwrap();
    let phi = to_big(&p.minus(&Natural::from_u64(1))) * to_big(&q.minus(&Natural::from_u64(1)));
    let d = to_big(&g.d);
    assert!(d < phi);
    assert_eq!((to_big(&g.e) * d) % phi, BigUint::from(1u32));
}

#[test]
fn all_error_messages() {
    assert_eq!(Error::MessageNotASCII.message(), "Message is not ASCII.");
    assert_eq!(Error::InvalidKeyPair.message(), "Invalid public key and secret key pair.");
    assert_eq!(Error::MaskTooLong.message(), "The mask is too long");
    assert_eq!(Error::MessageTooLong.message(), "The message is too long");
    assert_eq!(Error::OctetStringEmpty.message(), "The octet string is empty");
    assert_eq!(Error::InvalidBufferSize.message(), "Invalid buffer size");
}
