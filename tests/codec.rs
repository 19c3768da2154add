use my_rsa::convert::{i2osp, os2ip, string_xor};
use my_rsa::errors::Error;
use my_rsa::natural::Natural;
use my_rsa::oaep::mgf1;
use my_rsa::sha256::sha256;

#[test]
fn i2osp_pads_to_size() {
    let x = Natural::from_u64(0x0102);
    assert_eq!(i2osp(&x, 4).unwrap(), vec![0, 0, 1, 2]);
    assert_eq!(i2osp(&Natural::from_u64(0), 3).unwrap(), vec![0, 0, 0]);
}

#[test]
fn i2osp_rejects_too_large_and_zero_size() {
    let x = Natural::from_u64(0x010000);
    assert_eq!(i2osp(&x, 2), Err(Error::IntegerTooLarge));
    assert_eq!(i2osp(&Natural::from_u64(5), 0), Err(Error::IntegerTooLarge));
    assert_eq!(i2osp(&Natural::from_u64(255), 1).unwrap(), vec![255]);
    assert_eq!(i2osp(&Natural::from_u64(256), 1), Err(Error::IntegerTooLarge));
}

#[test]
fn os2ip_reads_big_endian() {
    let v = os2ip(&[0, 0, 1, 0]).unwrap();
    assert_eq!(v, Natural::from_u64(256));
    assert_eq!(os2ip(&[]).unwrap_err(), Error::OctetStringEmpty);
}

#[test]
fn os2ip_inverts_i2osp() {
    for x in [0u64, 1, 255, 256, 65535, 0x0123_4567_89ab_cdef, u64::MAX] {
        for size in [8usize, 9, 16] {
            let n = Natural::from_u64(x);
            let bytes = i2osp(&n, size).unwrap();
            assert_eq!(bytes.len(), size);
            assert_eq!(os2ip(&bytes).unwrap(), n);
        }
    }
}

#[test]
fn string_xor_truncates_to_shorter() {
    assert_eq!(string_xor(&[0xff, 0x0f, 0xaa], &[0x0f, 0xff]).unwrap(), vec![0xf0, 0xf0]);
    assert_eq!(string_xor(&[1, 2], &[3, 4, 5]).unwrap(), vec![2, 6]);
    assert_eq!(string_xor(&[], &[1]).unwrap(), Vec::<u8>::new());
}

#[test]
fn mgf1_produces_requested_length() {
    let seed = [7u8; 20];
    let mask = mgf1(&seed, 70).unwrap();
    assert_eq!(mask.len(), 70);
    let mut block0 = seed.to_vec();
    block0.extend_from_slice(&[0, 0, 0, 0]);
    let mut block2 = seed.to_vec();
    block2.extend_from_slice(&[0, 0, 0, 2]);
    assert_eq!(mask[..32], sha256(&block0)[..]);
    assert_eq!(mask[64..], sha256(&block2)[..6]);
    assert_eq!(mgf1(&seed, 0).unwrap(), Vec::<u8>::new());
}

#[test]
fn mgf1_rejects_too_long_mask() {
    let too_long = (1usize << 37) + 1;
    assert_eq!(mgf1(&[1, 2, 3], too_long), Err(Error::MaskTooLong));
}

#[test]
fn natural_hex_round_trip() {
    let x = Natural::from_u64(0xdead_beef);
    assert_eq!(x.to_hex(), "deadbeef");
    assert_eq!(Natural::from_hex("DEADbeef").unwrap(), x);
    assert_eq!(Natural::from_u64(0).to_hex(), "0");
}

#[test]
fn natural_arithmetic() {
    let a = Natural::from_u64(1_000_000_007);
    let b = Natural::from_u64(998_244_353);
    assert_eq!(a.times(&b), Natural::from_bytes_be(&(1_000_000_007u128 * 998_244_353u128).to_be_bytes()));
    assert_eq!(a.minus(&b), Natural::from_u64(1_000_000_007 - 998_244_353));
    assert_eq!(a.plus(&b), Natural::from_u64(1_000_000_007 + 998_244_353));
    assert_eq!(a.div_floor(&Natural::from_u64(2)), Natural::from_u64(500_000_003));
    assert_eq!(Natural::from_u64(4).modpow(&Natural::from_u64(13), &Natural::from_u64(497)), Natural::from_u64(445));
    assert_eq!(Natural::from_bytes_be(&[0, 0, 5]).to_bytes_be(), vec![5]);
    assert!(Natural::from_u64(10).is_even());
    assert!(!Natural::from_u64(7).is_even());
}

#[test]
fn error_messages() {
    assert_eq!(Error::DecryptionError.message(), "Fail to decrypt");
    assert_eq!(Error::IntegerTooLarge.message(), "Integer too large");
}
