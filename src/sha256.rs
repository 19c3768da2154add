use vstd::prelude::*;

verus! {

/// Initial hash value H(0) of SHA-256.
pub const IV: [u32; 8] = [
    0x6a09e667, 0xbb67ae85, 0x3c6ef372, 0xa54ff53a, 0x510e527f, 0x9b05688c, 0x1f83d9ab, 0x5be0cd19,
];

/// The sixty-four round constants K of SHA-256.
pub const ROUND_CONSTANTS: [u32; 64] = [
    0x428a2f98, 0x71374491, 0xb5c0fbcf, 0xe9b5dba5, 0x3956c25b, 0x59f111f1, 0x923f82a4, 0xab1c5ed5,
    0xd807aa98, 0x12835b01, 0x243185be, 0x550c7dc3, 0x72be5d74, 0x80deb1fe, 0x9bdc06a7, 0xc19bf174,
    0xe49b69c1, 0xefbe4786, 0x0fc19dc6, 0x240ca1cc, 0x2de92c6f, 0x4a7484aa, 0x5cb0a9dc, 0x76f988da,
    0x983e5152, 0xa831c66d, 0xb00327c8, 0xbf597fc7, 0xc6e00bf3, 0xd5a79147, 0x06ca6351, 0x14292967,
    0x27b70a85, 0x2e1b2138, 0x4d2c6dfc, 0x53380d13, 0x650a7354, 0x766a0abb, 0x81c2c92e, 0x92722c85,
    0xa2bfe8a1, 0xa81a664b, 0xc24b8b70, 0xc76c51a3, 0xd192e819, 0xd6990624, 0xf40e3585, 0x106aa070,
    0x19a4c116, 0x1e376c08, 0x2748774c, 0x34b0bcb5, 0x391c0cb3, 0x4ed8aa4a, 0x5b9cca4f, 0x682e6ff3,
    0x748f82ee, 0x78a5636f, 0x84c87814, 0x8cc70208, 0x90befffa, 0xa4506ceb, 0xbef9a3f7, 0xc67178f2,
];

/// Length in bytes of a SHA-256 digest.
pub const DIGEST_LEN: usize = 32;

// ---------------------------------------------------------------------------
// The hash function as a mathematical object.
// ---------------------------------------------------------------------------

/// Addition modulo 2^32.
pub open spec fn add32(a: u32, b: u32) -> u32 {
    if a + b > u32::MAX {
        (a + b - 0x1_0000_0000) as u32
    } else {
        (a + b) as u32
    }
}

/// Rotation of a 32-bit word to the right by `n` places (taken modulo 32).
pub open spec fn rotr(x: u32, n: u32) -> u32 {
    let s = n % 32;
    if s == 0 {
        x
    } else {
        (x >> s) | (x << (32 - s) as u32)
    }
}

pub open spec fn bsig0(x: u32) -> u32 {
    rotr(x, 2) ^ rotr(x, 13) ^ rotr(x, 22)
}

pub open spec fn bsig1(x: u32) -> u32 {
    rotr(x, 6) ^ rotr(x, 11) ^ rotr(x, 25)
}

pub open spec fn ssig0(x: u32) -> u32 {
    rotr(x, 7) ^ rotr(x, 18) ^ (x >> 3)
}

pub open spec fn ssig1(x: u32) -> u32 {
    rotr(x, 17) ^ rotr(x, 19) ^ (x >> 10)
}

pub open spec fn ch(x: u32, y: u32, z: u32) -> u32 {
    (x & y) ^ (!x & z)
}

pub open spec fn maj(x: u32, y: u32, z: u32) -> u32 {
    (x & y) ^ (x & z) ^ (y & z)
}

/// The big-endian 32-bit word at word position `i` of `block`.
pub open spec fn block_word(block: Seq<u8>, i: int) -> u32 {
    ((block[4 * i] as u32) << 24u32) | ((block[4 * i + 1] as u32) << 16u32) | ((block[4 * i + 2] as u32) << 8u32)
        | (block[4 * i + 3] as u32)
}

/// Word `i` of the message schedule W of a 64-byte block.
pub open spec fn schedule(block: Seq<u8>, i: nat) -> u32
    decreases i,
{
    if i < 16 {
        block_word(block, i as int)
    } else {
        add32(
            add32(add32(schedule(block, (i - 16) as nat), ssig0(schedule(block, (i - 15) as nat))), schedule(block, (i - 7) as nat)),
            ssig1(schedule(block, (i - 2) as nat)),
        )
    }
}

/// One round of the compression function on the working variables a..h.
pub open spec fn round_spec(s: Seq<u32>, k: u32, w: u32) -> Seq<u32> {
    let t1 = add32(add32(add32(add32(s[7], bsig1(s[4])), ch(s[4], s[5], s[6])), k), w);
    let t2 = add32(bsig0(s[0]), maj(s[0], s[1], s[2]));
    seq![add32(t1, t2), s[0], s[1], s[2], add32(s[3], t1), s[4], s[5], s[6]]
}

/// The working variables after the first `i` rounds on `block`, starting from `s`.
pub open spec fn rounds(s: Seq<u32>, block: Seq<u8>, i: nat) -> Seq<u32>
    decreases i,
{
    if i == 0 {
        s
    } else {
        round_spec(rounds(s, block, (i - 1) as nat), ROUND_CONSTANTS@[i - 1], schedule(block, (i - 1) as nat))
    }
}

/// The compression function: the chaining value after absorbing one 64-byte block.
pub open spec fn compress_spec(s: Seq<u32>, block: Seq<u8>) -> Seq<u32> {
    let r = rounds(s, block, 64);
    Seq::new(8, |i: int| add32(s[i], r[i]))
}

/// Byte `i` (0 = most significant) of the big-endian encoding of the 64-bit word `x`.
pub open spec fn be64_byte(x: u64, i: int) -> u8 {
    ((x >> (56 - 8 * i) as u64) & 0xff) as u8
}

/// The padding appended to a message of `len` bytes: 0x80, zero bytes, and the
/// bit length as a big-endian 64-bit word, so that the total is a multiple of 64.
pub open spec fn pad(len: nat) -> Seq<u8> {
    let zeros = (63 - (len + 8) % 64) as nat;
    seq![0x80u8] + Seq::new(zeros, |i: int| 0u8) + Seq::new(8, |i: int| be64_byte((8 * len) as u64, i))
}

pub open spec fn padded(m: Seq<u8>) -> Seq<u8> {
    m + pad(m.len())
}

/// The chaining value after absorbing the first `i` blocks of the padded message `p`.
pub open spec fn chain(p: Seq<u8>, i: nat) -> Seq<u32>
    decreases i,
{
    if i == 0 {
        IV@
    } else {
        compress_spec(chain(p, (i - 1) as nat), p.subrange(64 * (i - 1), 64 * i as int))
    }
}

/// The big-endian byte encoding of a sequence of 32-bit words.
pub open spec fn words_to_bytes(s: Seq<u32>) -> Seq<u8> {
    Seq::new(4 * s.len(), |i: int| ((s[i / 4] >> (24 - 8 * (i % 4)) as u32) & 0xff) as u8)
}

/// The SHA-256 digest of `m`.
pub open spec fn digest(m: Seq<u8>) -> Seq<u8> {
    let p = padded(m);
    words_to_bytes(chain(p, p.len() / 64))
}

// ---------------------------------------------------------------------------
// Executable hash.
// ---------------------------------------------------------------------------

fn rightrotate32(x: u32, n: u32) -> (r: u32)
    ensures
        r == rotr(x, n),
{
    let s = n % 32;
    if s == 0 {
        x
    } else {
        (x >> s) | (x << (32 - s))
    }
}

fn big_sigma0(x: u32) -> (r: u32)
    ensures
        r == bsig0(x),
{
    rightrotate32(x, 2) ^ rightrotate32(x, 13) ^ rightrotate32(x, 22)
}

fn big_sigma1(x: u32) -> (r: u32)
    ensures
        r == bsig1(x),
{
    rightrotate32(x, 6) ^ rightrotate32(x, 11) ^ rightrotate32(x, 25)
}

fn low_sigma0(x: u32) -> (r: u32)
    ensures
        r == ssig0(x),
{
    rightrotate32(x, 7) ^ rightrotate32(x, 18) ^ (x >> 3)
}

fn low_sigma1(x: u32) -> (r: u32)
    ensures
        r == ssig1(x),
{
    rightrotate32(x, 17) ^ rightrotate32(x, 19) ^ (x >> 10)
}

fn choice(x: u32, y: u32, z: u32) -> (r: u32)
    ensures
        r == ch(x, y, z),
{
    (x & y) ^ (!x & z)
}

fn majority(x: u32, y: u32, z: u32) -> (r: u32)
    ensures
        r == maj(x, y, z),
{
    (x & y) ^ (x & z) ^ (y & z)
}

fn message_schedule(block: &[u8; 64]) -> (w: [u32; 64])
    ensures
        forall|i: int| 0 <= i < 64 ==> w[i] == schedule(block@, i as nat),
{
    let mut w: [u32; 64] = [0; 64];
    let mut i: usize = 0;
    while i < 16
        invariant
            i <= 16,
            forall|j: int| 0 <= j < i ==> w[j] == schedule(block@, j as nat),
        decreases 16 - i,
    {
        let word = ((block[4 * i] as u32) << 24u32) | ((block[4 * i + 1] as u32) << 16u32)
            | ((block[4 * i + 2] as u32) << 8u32) | (block[4 * i + 3] as u32);
        w[i] = word;
        i += 1;
    }
    while i < 64
        invariant
            16 <= i <= 64,
            forall|j: int| 0 <= j < i ==> w[j] == schedule(block@, j as nat),
        decreases 64 - i,
    {
        let word = w[i - 16].wrapping_add(low_sigma0(w[i - 15])).wrapping_add(w[i - 7]).wrapping_add(
            low_sigma1(w[i - 2]),
        );
        w[i] = word;
        i += 1;
    }
    w
}

fn round(state: &[u32; 8], round_constant: u32, schedule_word: u32) -> (r: [u32; 8])
    ensures
        r@ == round_spec(state@, round_constant, schedule_word),
{
    let ch = choice(state[4], state[5], state[6]);
    let tmp1 = state[7].wrapping_add(big_sigma1(state[4])).wrapping_add(ch).wrapping_add(
        round_constant,
    ).wrapping_add(schedule_word);
    let maj = majority(state[0], state[1], state[2]);
    let tmp2 = big_sigma0(state[0]).wrapping_add(maj);
    let r = [
        tmp1.wrapping_add(tmp2),
        state[0],
        state[1],
        state[2],
        state[3].wrapping_add(tmp1),
        state[4],
        state[5],
        state[6],
    ];
    assert(r@ =~= round_spec(state@, round_constant, schedule_word));
    r
}

fn compress(origin_state: &[u32; 8], block: &[u8; 64]) -> (r: [u32; 8])
    ensures
        r@ == compress_spec(origin_state@, block@),
{
    let w = message_schedule(block);
    let mut state = *origin_state;
    let mut i: usize = 0;
    while i < 64
        invariant
            i <= 64,
            state@ == rounds(origin_state@, block@, i as nat),
            forall|j: int| 0 <= j < 64 ==> w[j] == schedule(block@, j as nat),
        decreases 64 - i,
    {
        state = round(&state, ROUND_CONSTANTS[i], w[i]);
        i += 1;
    }
    let r = [
        origin_state[0].wrapping_add(state[0]),
        origin_state[1].wrapping_add(state[1]),
        origin_state[2].wrapping_add(state[2]),
        origin_state[3].wrapping_add(state[3]),
        origin_state[4].wrapping_add(state[4]),
        origin_state[5].wrapping_add(state[5]),
        origin_state[6].wrapping_add(state[6]),
        origin_state[7].wrapping_add(state[7]),
    ];
    assert(r@ =~= compress_spec(origin_state@, block@));
    r
}

fn padding(length: u64) -> (r: Vec<u8>)
    requires
        length < 0x2000_0000_0000_0000,
    ensures
        r@ == pad(length as nat),
{
    let mut padding_bytes: Vec<u8> = Vec::new();
    padding_bytes.push(0x80u8);
    let remainder_bytes: u64 = (length + 8) % 64;
    let filler_bytes: u64 = 64 - remainder_bytes;
    let zero_bytes: u64 = filler_bytes - 1;
    let mut i: u64 = 0;
    while i < zero_bytes
        invariant
            i <= zero_bytes,
            zero_bytes < 64,
            padding_bytes@ =~= seq![0x80u8] + Seq::new(i as nat, |j: int| 0u8),
        decreases zero_bytes - i,
    {
        padding_bytes.push(0u8);
        i += 1;
    }
    let bit_length: u64 = 8 * length;
    let mut b: u64 = 0;
    while b < 8
        invariant
            b <= 8,
            zero_bytes < 64,
            padding_bytes@ =~= seq![0x80u8] + Seq::new(zero_bytes as nat, |j: int| 0u8) + Seq::new(
                b as nat,
                |j: int| be64_byte(bit_length, j),
            ),
        decreases 8 - b,
    {
        let byte = ((bit_length >> (56 - 8 * b)) & 0xff) as u8;
        padding_bytes.push(byte);
        b += 1;
    }
    padding_bytes
}

fn get_hash(state: &[u32; 8]) -> (hash: [u8; 32])
    ensures
        hash@ == words_to_bytes(state@),
{
    let mut hash: [u8; 32] = [0; 32];
    let mut i: usize = 0;
    while i < 32
        invariant
            i <= 32,
            forall|j: int| 0 <= j < i ==> hash[j] == words_to_bytes(state@)[j],
        decreases 32 - i,
    {
        let word = state[i / 4];
        let shift: u32 = (24 - 8 * (i % 4)) as u32;
        hash[i] = ((word >> shift) & 0xff) as u8;
        i += 1;
    }
    assert(hash@ =~= words_to_bytes(state@));
    hash
}

/// Hashes `message` with SHA-256.
pub fn sha256(message: &[u8]) -> (r: [u8; 32])
    requires
        message@.len() < 0x2000_0000_0000_0000,
    ensures
        r@ == digest(message@),
{
    let mut padded_message: Vec<u8> = Vec::new();
    padded_message.extend_from_slice(message);
    let mut tail = padding(message.len() as u64);
    padded_message.append(&mut tail);
    assert(padded_message@ =~= padded(message@));
    let n_blocks: usize = padded_message.len() / 64;
    assert(padded_message@.len() % 64 == 0);
    let mut state: [u32; 8] = IV;
    let mut i: usize = 0;
    while i < n_blocks
        invariant
            i <= n_blocks,
            n_blocks == padded_message@.len() / 64,
            padded_message@.len() % 64 == 0,
            padded_message@ == padded(message@),
            state@ == chain(padded_message@, i as nat),
            padded_message@.len() <= usize::MAX,
        decreases n_blocks - i,
    {
        let mut block: [u8; 64] = [0; 64];
        let mut j: usize = 0;
        while j < 64
            invariant
                j <= 64,
                i < n_blocks,
                n_blocks == padded_message@.len() / 64,
                padded_message@.len() == 64 * n_blocks,
                padded_message@.len() <= usize::MAX,
                forall|t: int| 0 <= t < j ==> block[t] == padded_message@[64 * i + t],
            decreases 64 - j,
        {
            block[j] = padded_message[64 * i + j];
            j += 1;
        }
        assert(block@ =~= padded_message@.subrange(64 * i as int, 64 * (i + 1) as int));
        state = compress(&state, &block);
        i += 1;
    }
    get_hash(&state)
}

proof fn lemma_chain_len(p: Seq<u8>, i: nat)
    ensures
        chain(p, i).len() == 8,
    decreases i,
{
    if i > 0 {
        lemma_chain_len(p, (i - 1) as nat);
    }
}

/// Every digest is thirty-two bytes long.
pub proof fn lemma_digest_len(m: Seq<u8>)
    ensures
        digest(m).len() == 32,
{
    let p = padded(m);
    lemma_chain_len(p, p.len() / 64);
}

} // verus!
