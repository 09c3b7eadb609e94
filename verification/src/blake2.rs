//! BLAKE2b restricted to an eight-byte digest and no key: the content hash of a store.
//!
//! It is stated from the mixing of two words up to the digest of a whole message. A message is a byte
//! slice, so its length fits in the low word of the block counter.

use crate::endian;
use vstd::prelude::*;

verus! {

/// Bytes in a block.
pub const BLOCK: usize = 128;

/// The initialisation vector.
pub const IV: [u64; 8] = [
    0x6a09e667f3bcc908,
    0xbb67ae8584caa73b,
    0x3c6ef372fe94f82b,
    0xa54ff53a5f1d36f1,
    0x510e527fade682d1,
    0x9b05688c2b3e6c1f,
    0x1f83d9abfb41bd6b,
    0x5be0cd19137e2179,
];

/// The first state word carries the parameters: no key, a digest of eight bytes.
pub const PARAMETERS: u64 = 0x0101_0008;

/// The message schedule of a round. The schedules repeat after ten rounds.
pub open spec fn sigma(round: nat) -> Seq<int> {
    let r = round % 10;
    if r == 0 {
        seq![0, 1, 2, 3, 4, 5, 6, 7, 8, 9, 10, 11, 12, 13, 14, 15]
    } else if r == 1 {
        seq![14, 10, 4, 8, 9, 15, 13, 6, 1, 12, 0, 2, 11, 7, 5, 3]
    } else if r == 2 {
        seq![11, 8, 12, 0, 5, 2, 15, 13, 10, 14, 3, 6, 7, 1, 9, 4]
    } else if r == 3 {
        seq![7, 9, 3, 1, 13, 12, 11, 14, 2, 6, 5, 10, 4, 0, 15, 8]
    } else if r == 4 {
        seq![9, 0, 5, 7, 2, 4, 10, 15, 14, 1, 11, 12, 6, 8, 3, 13]
    } else if r == 5 {
        seq![2, 12, 6, 10, 0, 11, 8, 3, 4, 13, 7, 5, 15, 14, 1, 9]
    } else if r == 6 {
        seq![12, 5, 1, 15, 14, 13, 4, 10, 0, 7, 6, 3, 9, 2, 8, 11]
    } else if r == 7 {
        seq![13, 11, 7, 14, 12, 1, 3, 9, 5, 0, 15, 4, 8, 6, 2, 10]
    } else if r == 8 {
        seq![6, 15, 14, 9, 11, 3, 0, 8, 12, 2, 13, 7, 1, 4, 10, 5]
    } else {
        seq![10, 2, 8, 4, 7, 6, 1, 5, 15, 11, 9, 14, 3, 12, 13, 0]
    }
}

/// Addition modulo two to the sixty-fourth.
pub open spec fn plus(x: u64, y: u64) -> u64 {
    x.wrapping_add(y)
}

/// Rotation to the right by `n` bits, `0 < n < 64`.
pub open spec fn rotr(x: u64, n: u64) -> u64 {
    (x >> n) | (x << ((64 - n) as u64))
}

/// Mixes two message words into four words of the working vector.
#[verifier::opaque]
pub open spec fn mixed(v: Seq<u64>, a: int, b: int, c: int, d: int, x: u64, y: u64) -> Seq<u64> {
    let v = v.update(a, plus(plus(v[a], v[b]), x));
    let v = v.update(d, rotr(v[d] ^ v[a], 32));
    let v = v.update(c, plus(v[c], v[d]));
    let v = v.update(b, rotr(v[b] ^ v[c], 24));
    let v = v.update(a, plus(plus(v[a], v[b]), y));
    let v = v.update(d, rotr(v[d] ^ v[a], 16));
    let v = v.update(c, plus(v[c], v[d]));
    v.update(b, rotr(v[b] ^ v[c], 63))
}

/// One round: the four columns, then the four diagonals.
#[verifier::opaque]
pub open spec fn round_of(v: Seq<u64>, m: Seq<u64>, s: Seq<int>) -> Seq<u64> {
    let v = mixed(v, 0, 4, 8, 12, m[s[0]], m[s[1]]);
    let v = mixed(v, 1, 5, 9, 13, m[s[2]], m[s[3]]);
    let v = mixed(v, 2, 6, 10, 14, m[s[4]], m[s[5]]);
    let v = mixed(v, 3, 7, 11, 15, m[s[6]], m[s[7]]);
    let v = mixed(v, 0, 5, 10, 15, m[s[8]], m[s[9]]);
    let v = mixed(v, 1, 6, 11, 12, m[s[10]], m[s[11]]);
    let v = mixed(v, 2, 7, 8, 13, m[s[12]], m[s[13]]);
    mixed(v, 3, 4, 9, 14, m[s[14]], m[s[15]])
}

/// The working vector after the first `n` rounds.
pub open spec fn rounds(v: Seq<u64>, m: Seq<u64>, n: nat) -> Seq<u64>
    decreases n,
{
    if n == 0 {
        v
    } else {
        round_of(rounds(v, m, (n - 1) as nat), m, sigma((n - 1) as nat))
    }
}

/// The sixteen little-endian words of a block.
pub open spec fn words(block: Seq<u8>) -> Seq<u64> {
    Seq::new(16, |i: int| endian::le(block.subrange(8 * i, 8 * i + 8)) as u64)
}

/// The working vector that a block starts from, after `count` message bytes in all.
pub open spec fn start(h: Seq<u64>, count: nat, last: bool) -> Seq<u64> {
    let v = h + IV@;
    let v = v.update(12, v[12] ^ (count % 0x1_0000_0000_0000_0000) as u64);
    let v = v.update(13, v[13] ^ (count / 0x1_0000_0000_0000_0000) as u64);
    if last {
        v.update(14, !v[14])
    } else {
        v
    }
}

/// The state after a block.
pub open spec fn compressed(h: Seq<u64>, block: Seq<u8>, count: nat, last: bool) -> Seq<u64> {
    let v = rounds(start(h, count, last), words(block), 12);
    Seq::new(8, |i: int| h[i] ^ (v[i] ^ v[i + 8]))
}

/// `bytes` followed by zeros up to a whole block.
pub open spec fn padded(bytes: Seq<u8>) -> Seq<u8> {
    Seq::new(BLOCK as nat, |i: int| if i < bytes.len() { bytes[i] } else { 0u8 })
}

/// The state after the rest of a message, of which `count` bytes went before. An empty message is one
/// block of zeros.
pub open spec fn absorbed(h: Seq<u64>, rest: Seq<u8>, count: nat) -> Seq<u64>
    decreases rest.len(),
{
    if rest.len() <= BLOCK {
        compressed(h, padded(rest), count + rest.len(), true)
    } else {
        absorbed(
            compressed(h, rest.take(BLOCK as int), count + BLOCK as nat, false),
            rest.skip(BLOCK as int),
            count + BLOCK as nat,
        )
    }
}

/// The digest of a message, as the number that its eight bytes spell little-endian.
pub open spec fn digest(message: Seq<u8>) -> u64 {
    absorbed(IV@.update(0, IV@[0] ^ PARAMETERS), message, 0)[0]
}

/// Rotates right.
fn rotate(x: u64, n: u64) -> (r: u64)
    requires
        0 < n < 64,
    ensures
        r == rotr(x, n),
{
    (x >> n) | (x << (64 - n))
}

/// The message schedule of a round.
fn schedule(round: usize) -> (s: [usize; 16])
    ensures
        forall|k: int| #![trigger s[k]] 0 <= k < 16 ==> s[k] == sigma(round as nat)[k] && s[k] < 16,
{
    match round % 10 {
        0 => [0, 1, 2, 3, 4, 5, 6, 7, 8, 9, 10, 11, 12, 13, 14, 15],
        1 => [14, 10, 4, 8, 9, 15, 13, 6, 1, 12, 0, 2, 11, 7, 5, 3],
        2 => [11, 8, 12, 0, 5, 2, 15, 13, 10, 14, 3, 6, 7, 1, 9, 4],
        3 => [7, 9, 3, 1, 13, 12, 11, 14, 2, 6, 5, 10, 4, 0, 15, 8],
        4 => [9, 0, 5, 7, 2, 4, 10, 15, 14, 1, 11, 12, 6, 8, 3, 13],
        5 => [2, 12, 6, 10, 0, 11, 8, 3, 4, 13, 7, 5, 15, 14, 1, 9],
        6 => [12, 5, 1, 15, 14, 13, 4, 10, 0, 7, 6, 3, 9, 2, 8, 11],
        7 => [13, 11, 7, 14, 12, 1, 3, 9, 5, 0, 15, 4, 8, 6, 2, 10],
        8 => [6, 15, 14, 9, 11, 3, 0, 8, 12, 2, 13, 7, 1, 4, 10, 5],
        _ => [10, 2, 8, 4, 7, 6, 1, 5, 15, 11, 9, 14, 3, 12, 13, 0],
    }
}

/// Mixes two message words into four words of the working vector.
fn mix(v: &mut [u64; 16], a: usize, b: usize, c: usize, d: usize, x: u64, y: u64)
    requires
        a < 16,
        b < 16,
        c < 16,
        d < 16,
    ensures
        final(v)@ == mixed(old(v)@, a as int, b as int, c as int, d as int, x, y),
{
    reveal(mixed);
    v[a] = v[a].wrapping_add(v[b]).wrapping_add(x);
    v[d] = rotate(v[d] ^ v[a], 32);
    v[c] = v[c].wrapping_add(v[d]);
    v[b] = rotate(v[b] ^ v[c], 24);
    v[a] = v[a].wrapping_add(v[b]).wrapping_add(y);
    v[d] = rotate(v[d] ^ v[a], 16);
    v[c] = v[c].wrapping_add(v[d]);
    v[b] = rotate(v[b] ^ v[c], 63);
}

/// One round over the working vector.
fn round(v: &mut [u64; 16], m: &[u64; 16], r: usize)
    ensures
        final(v)@ == round_of(old(v)@, m@, sigma(r as nat)),
{
    reveal(round_of);
    let s: [usize; 16] = schedule(r);
    mix(v, 0, 4, 8, 12, m[s[0]], m[s[1]]);
    mix(v, 1, 5, 9, 13, m[s[2]], m[s[3]]);
    mix(v, 2, 6, 10, 14, m[s[4]], m[s[5]]);
    mix(v, 3, 7, 11, 15, m[s[6]], m[s[7]]);
    mix(v, 0, 5, 10, 15, m[s[8]], m[s[9]]);
    mix(v, 1, 6, 11, 12, m[s[10]], m[s[11]]);
    mix(v, 2, 7, 8, 13, m[s[12]], m[s[13]]);
    mix(v, 3, 4, 9, 14, m[s[14]], m[s[15]]);
}

/// The sixteen words of a block.
fn load(block: &[u8; 128]) -> (m: [u64; 16])
    ensures
        m@ == words(block@),
{
    let mut m: [u64; 16] = [0u64; 16];
    let bytes: &[u8] = block.as_slice();
    for i in 0..16usize
        invariant
            bytes@ == block@,
            block@.len() == 128,
            forall|j: int| 0 <= j < i ==> m[j] == words(block@)[j],
    {
        m[i] = endian::read_u64(bytes, 8 * i);
    }
    assert(m@ =~= words(block@));
    m
}

/// Takes a block into the state.
fn compress(h: &mut [u64; 8], block: &[u8; 128], count: u64, last: bool)
    ensures
        final(h)@ == compressed(old(h)@, block@, count as nat, last),
{
    let m: [u64; 16] = load(block);
    let mut v: [u64; 16] = [
        h[0], h[1], h[2], h[3], h[4], h[5], h[6], h[7],
        IV[0], IV[1], IV[2], IV[3], IV[4] ^ count, IV[5], IV[6], IV[7],
    ];
    if last {
        v[14] = !v[14];
    }
    let ghost begin = start(h@, count as nat, last);
    proof {
        let w = IV@[5];
        assert(w ^ 0u64 == w) by (bit_vector);
        assert(v@ =~= begin);
    }
    for r in 0..12usize
        invariant
            m@ == words(block@),
            v@ == rounds(begin, words(block@), r as nat),
    {
        round(&mut v, &m, r);
    }
    let ghost before = h@;
    for i in 0..8usize
        invariant
            before == old(h)@,
            forall|j: int| 0 <= j < i ==> h[j] == before[j] ^ (v[j] ^ v[j + 8]),
            forall|j: int| i <= j < 8 ==> h[j] == before[j],
    {
        h[i] = h[i] ^ (v[i] ^ v[i + 8]);
    }
    assert(h@ =~= compressed(before, block@, count as nat, last));
}

/// A block that starts with `len` bytes of `input` from `at`, and is zero after them.
fn block_at(input: &[u8], at: usize, len: usize) -> (block: [u8; 128])
    requires
        len <= BLOCK,
        at + len <= input.len(),
    ensures
        block@ == padded(input@.subrange(at as int, at + len)),
{
    let mut block: [u8; 128] = [0u8; 128];
    for i in 0..len
        invariant
            len <= BLOCK,
            at + len <= input.len(),
            forall|j: int| 0 <= j < i ==> block[j] == input@[at + j],
            forall|j: int| i <= j < 128 ==> block[j] == 0,
    {
        block[i] = input[at + i];
    }
    assert(block@ =~= padded(input@.subrange(at as int, at + len)));
    block
}

/// BLAKE2b with an eight-byte digest, as the number that the digest spells little-endian.
pub fn blake2b64(input: &[u8]) -> (h: u64)
    ensures
        h == digest(input@),
{
    let mut h: [u64; 8] = IV;
    h[0] = h[0] ^ PARAMETERS;
    let mut at: usize = 0;
    assert(input@.skip(0) =~= input@);
    while input.len() - at > BLOCK
        invariant
            at <= input@.len(),
            absorbed(h@, input@.skip(at as int), at as nat)[0] == digest(input@),
        decreases input@.len() - at,
    {
        let block: [u8; 128] = block_at(input, at, BLOCK);
        proof {
            let rest = input@.skip(at as int);
            assert(block@ =~= rest.take(BLOCK as int));
            assert(rest.skip(BLOCK as int) =~= input@.skip(at + BLOCK));
        }
        at = at + BLOCK;
        compress(&mut h, &block, at as u64, false);
    }
    let block: [u8; 128] = block_at(input, at, input.len() - at);
    assert(input@.subrange(at as int, input@.len() as int) =~= input@.skip(at as int));
    compress(&mut h, &block, input.len() as u64, true);
    h[0]
}

// ---------------------------------------------------------------------------------------------------
// Laws.

/// Addition drops what goes over sixty-four bits, and rotation brings what leaves on the right in again on
/// the left.
pub proof fn words_wrap_round(x: u64, y: u64)
    ensures
        plus(x, y) == (x + y) % 0x1_0000_0000_0000_0000,
        rotr(x, 32) & 0xffff_ffff == x >> 32,
        rotr(x, 32) >> 32 == x & 0xffff_ffff,
        rotr(x, 24) & 0xff_ffff_ffff == x >> 24,
        rotr(x, 24) >> 40 == x & 0xff_ffff,
        rotr(x, 16) & 0xffff_ffff_ffff == x >> 16,
        rotr(x, 16) >> 48 == x & 0xffff,
        rotr(x, 63) & 1 == x >> 63,
        rotr(x, 63) >> 1 == x & 0x7fff_ffff_ffff_ffff,
{
    assert(((x >> 32u64) | (x << 32u64)) & 0xffff_ffff == x >> 32) by (bit_vector);
    assert(((x >> 32u64) | (x << 32u64)) >> 32 == x & 0xffff_ffff) by (bit_vector);
    assert(((x >> 24u64) | (x << 40u64)) & 0xff_ffff_ffff == x >> 24) by (bit_vector);
    assert(((x >> 24u64) | (x << 40u64)) >> 40 == x & 0xff_ffff) by (bit_vector);
    assert(((x >> 16u64) | (x << 48u64)) & 0xffff_ffff_ffff == x >> 16) by (bit_vector);
    assert(((x >> 16u64) | (x << 48u64)) >> 48 == x & 0xffff) by (bit_vector);
    assert(((x >> 63u64) | (x << 1u64)) & 1 == x >> 63) by (bit_vector);
    assert(((x >> 63u64) | (x << 1u64)) >> 1 == x & 0x7fff_ffff_ffff_ffff) by (bit_vector);
}

/// Mixing changes four words and leaves the others alone. Each half adds a message word to the first, and
/// turns the fourth and the second by its own numbers of bits.
pub proof fn how_words_are_mixed(v: Seq<u64>, a: int, b: int, c: int, d: int, x: u64, y: u64, i: int)
    requires
        v.len() == 16,
        0 <= a < 16,
        0 <= b < 16,
        0 <= c < 16,
        0 <= d < 16,
        a != b && a != c && a != d && b != c && b != d && c != d,
    ensures
        ({
            let a1 = plus(plus(v[a], v[b]), x);
            let d1 = rotr(v[d] ^ a1, 32);
            let c1 = plus(v[c], d1);
            let b1 = rotr(v[b] ^ c1, 24);
            let a2 = plus(plus(a1, b1), y);
            let d2 = rotr(d1 ^ a2, 16);
            let c2 = plus(c1, d2);
            let b2 = rotr(b1 ^ c2, 63);
            let w = mixed(v, a, b, c, d, x, y);
            &&& w.len() == 16
            &&& w[a] == a2
            &&& w[b] == b2
            &&& w[c] == c2
            &&& w[d] == d2
            &&& 0 <= i < 16 && i != a && i != b && i != c && i != d ==> w[i] == v[i]
        }),
{
    reveal(mixed);
}

/// The schedules: each takes every message word once, and after ten they come again.
pub proof fn how_words_are_scheduled(round: nat)
    ensures
        sigma(0) == seq![0int, 1, 2, 3, 4, 5, 6, 7, 8, 9, 10, 11, 12, 13, 14, 15],
        sigma(1) == seq![14int, 10, 4, 8, 9, 15, 13, 6, 1, 12, 0, 2, 11, 7, 5, 3],
        sigma(2) == seq![11int, 8, 12, 0, 5, 2, 15, 13, 10, 14, 3, 6, 7, 1, 9, 4],
        sigma(3) == seq![7int, 9, 3, 1, 13, 12, 11, 14, 2, 6, 5, 10, 4, 0, 15, 8],
        sigma(4) == seq![9int, 0, 5, 7, 2, 4, 10, 15, 14, 1, 11, 12, 6, 8, 3, 13],
        sigma(5) == seq![2int, 12, 6, 10, 0, 11, 8, 3, 4, 13, 7, 5, 15, 14, 1, 9],
        sigma(6) == seq![12int, 5, 1, 15, 14, 13, 4, 10, 0, 7, 6, 3, 9, 2, 8, 11],
        sigma(7) == seq![13int, 11, 7, 14, 12, 1, 3, 9, 5, 0, 15, 4, 8, 6, 2, 10],
        sigma(8) == seq![6int, 15, 14, 9, 11, 3, 0, 8, 12, 2, 13, 7, 1, 4, 10, 5],
        sigma(9) == seq![10int, 2, 8, 4, 7, 6, 1, 5, 15, 11, 9, 14, 3, 12, 13, 0],
        sigma(round + 10) == sigma(round),
{
    assert((round + 10) % 10 == round % 10);
}

/// A round mixes the four columns and then the four diagonals, each with the next two words of the schedule.
pub proof fn how_a_round_goes(v: Seq<u64>, m: Seq<u64>, s: Seq<int>)
    ensures
        ({
            let v1 = mixed(v, 0, 4, 8, 12, m[s[0]], m[s[1]]);
            let v2 = mixed(v1, 1, 5, 9, 13, m[s[2]], m[s[3]]);
            let v3 = mixed(v2, 2, 6, 10, 14, m[s[4]], m[s[5]]);
            let v4 = mixed(v3, 3, 7, 11, 15, m[s[6]], m[s[7]]);
            let v5 = mixed(v4, 0, 5, 10, 15, m[s[8]], m[s[9]]);
            let v6 = mixed(v5, 1, 6, 11, 12, m[s[10]], m[s[11]]);
            let v7 = mixed(v6, 2, 7, 8, 13, m[s[12]], m[s[13]]);
            round_of(v, m, s) == mixed(v7, 3, 4, 9, 14, m[s[14]], m[s[15]])
        }),
        rounds(v, m, 0) == v,
        forall|n: nat| #[trigger]
            rounds(v, m, n + 1) == round_of(rounds(v, m, n), m, sigma(n)),
{
    reveal(round_of);
}

/// What a block is taken into: the state and the initialisation vector, with the number of bytes so far and,
/// in the last block, the finalisation word turned over.
pub proof fn how_a_block_starts(h: Seq<u64>, count: nat, last: bool, i: int)
    requires
        h.len() == 8,
        count < 0x1_0000_0000_0000_0000,
    ensures
        start(h, count, last).len() == 16,
        0 <= i < 8 ==> start(h, count, last)[i] == h[i],
        start(h, count, last)[8] == 0x6a09e667f3bcc908,
        start(h, count, last)[9] == 0xbb67ae8584caa73b,
        start(h, count, last)[10] == 0x3c6ef372fe94f82b,
        start(h, count, last)[11] == 0xa54ff53a5f1d36f1,
        start(h, count, last)[12] == 0x510e527fade682d1 ^ (count as u64),
        start(h, count, last)[13] == 0x9b05688c2b3e6c1f,
        !last ==> start(h, count, last)[14] == 0x1f83d9abfb41bd6b,
        last ==> start(h, count, last)[14] == !0x1f83d9abfb41bd6bu64,
        start(h, count, last)[15] == 0x5be0cd19137e2179,
{
    let w = IV@[5];
    assert(w ^ 0u64 == w) by (bit_vector);
    assert(count / 0x1_0000_0000_0000_0000 == 0);
    assert(count % 0x1_0000_0000_0000_0000 == count);
}

/// A block is taken in by twelve rounds over its sixteen words, and both halves of what comes out are laid
/// over the state.
pub proof fn how_a_block_is_taken_in(h: Seq<u64>, block: Seq<u8>, count: nat, last: bool, i: int)
    requires
        h.len() == 8,
        block.len() == 128,
    ensures
        ({
            let v = rounds(start(h, count, last), words(block), 12);
            let out = compressed(h, block, count, last);
            &&& out.len() == 8
            &&& 0 <= i < 8 ==> out[i] == h[i] ^ v[i] ^ v[i + 8]
            &&& words(block).len() == 16
            &&& 0 <= i < 16 ==> words(block)[i] == endian::le(block.subrange(8 * i, 8 * i + 8))
        }),
{
    if 0 <= i < 8 {
        let v = rounds(start(h, count, last), words(block), 12);
        let (p, q, r) = (h[i], v[i], v[i + 8]);
        assert(p ^ (q ^ r) == p ^ q ^ r) by (bit_vector);
    }
    if 0 <= i < 16 {
        endian::le_is_bounded(block.subrange(8 * i, 8 * i + 8));
    }
}

/// A message is taken in by blocks of 128 bytes. The last block is the one that ends the message, whole or
/// not; it is filled up with zeros, which are not counted.
pub proof fn how_a_message_is_taken_in(h: Seq<u64>, rest: Seq<u8>, count: nat, block: Seq<u8>)
    ensures
        rest.len() > 128 ==> absorbed(h, rest, count) == absorbed(
            compressed(h, rest.take(128), count + 128, false),
            rest.skip(128),
            count + 128,
        ),
        rest.len() <= 128 && block.len() == 128 && (forall|i: int|
            0 <= i < rest.len() ==> #[trigger] block[i] == rest[i]) && (forall|i: int|
            rest.len() <= i < 128 ==> #[trigger] block[i] == 0) ==> absorbed(h, rest, count)
            == compressed(h, block, count + rest.len(), true),
{
    if rest.len() <= 128 && block.len() == 128 && (forall|i: int|
        0 <= i < rest.len() ==> #[trigger] block[i] == rest[i]) && (forall|i: int|
        rest.len() <= i < 128 ==> #[trigger] block[i] == 0) {
        assert(block =~= padded(rest));
    }
}

/// A digest is the first word of the state after the whole message, from a state that carries the length of
/// the digest, eight bytes, and that there is no key.
pub proof fn how_a_digest_is_made(message: Seq<u8>, h: Seq<u64>)
    requires
        h == seq![
            0x6a09e667f3bcc908u64 ^ 0x0101_0008u64,
            0xbb67ae8584caa73b,
            0x3c6ef372fe94f82b,
            0xa54ff53a5f1d36f1,
            0x510e527fade682d1,
            0x9b05688c2b3e6c1f,
            0x1f83d9abfb41bd6b,
            0x5be0cd19137e2179,
        ],
    ensures
        digest(message) == absorbed(h, message, 0)[0],
{
    assert(h =~= IV@.update(0, IV@[0] ^ PARAMETERS));
}

} // verus!
