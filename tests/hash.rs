use my_rsa::sha256::sha256;
use sha2::{Digest, Sha256};

#[test]
fn test_sha256() {
    for i in 0..1000 {
        let input = vec![i as u8; i];
        let my_hash = sha256(&input);
        let mut standard_hasher = Sha256::new();
        standard_hasher.update(&input);
        let expected = standard_hasher.finalize();
        assert_eq!(my_hash[..], expected[..], "length {}", i);
    }
}

#[test]
fn sha256_of_abc() {
    let h = sha256(b"abc");
    let expected: [u8; 32] = [
        0xba, 0x78, 0x16, 0xbf, 0x8f, 0x01, 0xcf, 0xea, 0x41, 0x41, 0x40, 0xde, 0x5d, 0xae, 0x22, 0x23,
        0xb0, 0x03, 0x61, 0xa3, 0x96, 0x17, 0x7a, 0x9c, 0xb4, 0x10, 0xff, 0x61, 0xf2, 0x00, 0x15, 0xad,
    ];
    assert_eq!(h, expected);
}

#[test]
fn sha256_of_empty() {
    let h = sha256(b"");
    let expected: [u8; 32] = [
        0xe3, 0xb0, 0xc4, 0x42, 0x98, 0xfc, 0x1c, 0x14, 0x9a, 0xfb, 0xf4, 0xc8, 0x99, 0x6f, 0xb9, 0x24,
        0x27, 0xae, 0x41, 0xe4, 0x64, 0x9b, 0x93, 0x4c, 0xa4, 0x95, 0x99, 0x1b, 0x78, 0x52, 0xb8, 0x55,
    ];
    assert_eq!(h, expected);
}

#[test]
fn sha256_multi_block_boundaries() {
    for len in [55usize, 56, 63, 64, 65, 119, 120, 128, 1000, 4096] {
        let input: Vec<u8> = (0..len).map(|i| (i * 7 + 3) as u8).collect();
        let mut standard_hasher = Sha256::new();
        standard_hasher.update(&input);
        assert_eq!(sha256(&input)[..], standard_hasher.finalize()[..], "length {}", len);
    }
}
