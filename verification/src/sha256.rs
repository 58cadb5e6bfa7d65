//! SHA-256 (FIPS 180-4) over byte sequences.
//!
//! The mathematical definition is given by [`sha256`]; the executable
//! [`sha256_bytes`] is proved to compute it. The message length field is the
//! bit length taken modulo 2^64, so the function is total; it agrees with the
//! standard on every message shorter than 2^61 bytes.

use vstd::prelude::*;

verus! {

/// The eight 32-bit words that the compression function works on.
#[derive(Clone, Copy)]
pub struct Words {
    pub a: u32,
    pub b: u32,
    pub c: u32,
    pub d: u32,
    pub e: u32,
    pub f: u32,
    pub g: u32,
    pub h: u32,
}

/// Rotation of a 32-bit word to the right by `n` bits, `0 < n < 32`.
pub open spec fn rotr(x: u32, n: u32) -> u32 {
    (x >> n) | (x << ((32 - n) as u32))
}

pub open spec fn ch(x: u32, y: u32, z: u32) -> u32 {
    (x & y) ^ (!x & z)
}

pub open spec fn maj(x: u32, y: u32, z: u32) -> u32 {
    (x & y) ^ (x & z) ^ (y & z)
}

pub open spec fn big_sigma0(x: u32) -> u32 {
    rotr(x, 2) ^ rotr(x, 13) ^ rotr(x, 22)
}

pub open spec fn big_sigma1(x: u32) -> u32 {
    rotr(x, 6) ^ rotr(x, 11) ^ rotr(x, 25)
}

pub open spec fn small_sigma0(x: u32) -> u32 {
    rotr(x, 7) ^ rotr(x, 18) ^ (x >> 3u32)
}

pub open spec fn small_sigma1(x: u32) -> u32 {
    rotr(x, 17) ^ rotr(x, 19) ^ (x >> 10u32)
}

/// The sixty-four round constants.
pub open spec fn round_constants() -> Seq<u32> {
    seq![
        0x428a2f98u32, 0x71374491u32, 0xb5c0fbcfu32, 0xe9b5dba5u32,
        0x3956c25bu32, 0x59f111f1u32, 0x923f82a4u32, 0xab1c5ed5u32,
        0xd807aa98u32, 0x12835b01u32, 0x243185beu32, 0x550c7dc3u32,
        0x72be5d74u32, 0x80deb1feu32, 0x9bdc06a7u32, 0xc19bf174u32,
        0xe49b69c1u32, 0xefbe4786u32, 0x0fc19dc6u32, 0x240ca1ccu32,
        0x2de92c6fu32, 0x4a7484aau32, 0x5cb0a9dcu32, 0x76f988dau32,
        0x983e5152u32, 0xa831c66du32, 0xb00327c8u32, 0xbf597fc7u32,
        0xc6e00bf3u32, 0xd5a79147u32, 0x06ca6351u32, 0x14292967u32,
        0x27b70a85u32, 0x2e1b2138u32, 0x4d2c6dfcu32, 0x53380d13u32,
        0x650a7354u32, 0x766a0abbu32, 0x81c2c92eu32, 0x92722c85u32,
        0xa2bfe8a1u32, 0xa81a664bu32, 0xc24b8b70u32, 0xc76c51a3u32,
        0xd192e819u32, 0xd6990624u32, 0xf40e3585u32, 0x106aa070u32,
        0x19a4c116u32, 0x1e376c08u32, 0x2748774cu32, 0x34b0bcb5u32,
        0x391c0cb3u32, 0x4ed8aa4au32, 0x5b9cca4fu32, 0x682e6ff3u32,
        0x748f82eeu32, 0x78a5636fu32, 0x84c87814u32, 0x8cc70208u32,
        0x90befffau32, 0xa4506cebu32, 0xbef9a3f7u32, 0xc67178f2u32,
    ]
}

/// The initial hash value.
pub open spec fn initial_words() -> Words {
    Words {
        a: 0x6a09e667u32,
        b: 0xbb67ae85u32,
        c: 0x3c6ef372u32,
        d: 0xa54ff53au32,
        e: 0x510e527fu32,
        f: 0x9b05688cu32,
        g: 0x1f83d9abu32,
        h: 0x5be0cd19u32,
    }
}

/// Number of zero bytes between the `0x80` marker and the length field.
pub open spec fn zero_fill(len: nat) -> nat {
    ((119 - len % 64) % 64) as nat
}

/// The message length in bits, modulo 2^64, as eight big-endian bytes.
pub open spec fn length_field(len: nat) -> Seq<u8> {
    let bits = (len as u64).wrapping_mul(8u64);
    seq![
        (bits >> 56u64) as u8,
        (bits >> 48u64) as u8,
        (bits >> 40u64) as u8,
        (bits >> 32u64) as u8,
        (bits >> 24u64) as u8,
        (bits >> 16u64) as u8,
        (bits >> 8u64) as u8,
        bits as u8,
    ]
}

/// The padded message: the message, the byte `0x80`, zero bytes up to 56
/// modulo 64, and the length field.
pub open spec fn padded(msg: Seq<u8>) -> Seq<u8> {
    msg.push(0x80u8) + Seq::new(zero_fill(msg.len()), |i: int| 0u8) + length_field(msg.len())
}

/// The big-endian 32-bit word that starts at byte `at`.
pub open spec fn word_at(bytes: Seq<u8>, at: int) -> u32 {
    ((bytes[at] as u32) << 24u32) | ((bytes[at + 1] as u32) << 16u32) | ((bytes[at + 2] as u32)
        << 8u32) | (bytes[at + 3] as u32)
}

/// Word `t` of the message schedule of the block that starts at byte `base`.
pub open spec fn schedule(bytes: Seq<u8>, base: int, t: int) -> u32
    decreases t,
{
    if t < 16 {
        word_at(bytes, base + 4 * t)
    } else {
        small_sigma1(schedule(bytes, base, t - 2)).wrapping_add(
            schedule(bytes, base, t - 7),
        ).wrapping_add(small_sigma0(schedule(bytes, base, t - 15))).wrapping_add(
            schedule(bytes, base, t - 16),
        )
    }
}

/// One round of the compression function with round constant `k` and
/// schedule word `w`.
pub open spec fn round(s: Words, k: u32, w: u32) -> Words {
    let t1 = s.h.wrapping_add(big_sigma1(s.e)).wrapping_add(ch(s.e, s.f, s.g)).wrapping_add(
        k,
    ).wrapping_add(w);
    let t2 = big_sigma0(s.a).wrapping_add(maj(s.a, s.b, s.c));
    Words {
        a: t1.wrapping_add(t2),
        b: s.a,
        c: s.b,
        d: s.c,
        e: s.d.wrapping_add(t1),
        f: s.e,
        g: s.f,
        h: s.g,
    }
}

/// The working words after the first `t` rounds on the block at `base`.
pub open spec fn rounds(s: Words, bytes: Seq<u8>, base: int, t: int) -> Words
    decreases t,
{
    if t <= 0 {
        s
    } else {
        round(
            rounds(s, bytes, base, t - 1),
            round_constants()[t - 1],
            schedule(bytes, base, t - 1),
        )
    }
}

/// Word-wise sum modulo 2^32.
pub open spec fn add_words(x: Words, y: Words) -> Words {
    Words {
        a: x.a.wrapping_add(y.a),
        b: x.b.wrapping_add(y.b),
        c: x.c.wrapping_add(y.c),
        d: x.d.wrapping_add(y.d),
        e: x.e.wrapping_add(y.e),
        f: x.f.wrapping_add(y.f),
        g: x.g.wrapping_add(y.g),
        h: x.h.wrapping_add(y.h),
    }
}

/// The hash value after the block at `base` has been absorbed into `s`.
pub open spec fn compress(s: Words, bytes: Seq<u8>, base: int) -> Words {
    add_words(s, rounds(s, bytes, base, 64))
}

/// The hash value after the first `n` blocks of `bytes`.
pub open spec fn absorb(bytes: Seq<u8>, n: int) -> Words
    decreases n,
{
    if n <= 0 {
        initial_words()
    } else {
        compress(absorb(bytes, n - 1), bytes, 64 * (n - 1))
    }
}

/// The four big-endian bytes of a word.
pub open spec fn word_bytes(w: u32) -> Seq<u8> {
    seq![(w >> 24u32) as u8, (w >> 16u32) as u8, (w >> 8u32) as u8, w as u8]
}

/// The thirty-two bytes of a hash value.
pub open spec fn words_bytes(s: Words) -> Seq<u8> {
    word_bytes(s.a) + word_bytes(s.b) + word_bytes(s.c) + word_bytes(s.d) + word_bytes(s.e)
        + word_bytes(s.f) + word_bytes(s.g) + word_bytes(s.h)
}

/// The SHA-256 digest of a message.
pub open spec fn sha256(msg: Seq<u8>) -> Seq<u8> {
    words_bytes(absorb(padded(msg), padded(msg).len() as int / 64))
}

/// A digest always has thirty-two bytes.
pub proof fn lemma_sha256_len(msg: Seq<u8>)
    ensures
        sha256(msg).len() == 32,
{
}

fn rotate_right(x: u32, n: u32) -> (r: u32)
    requires
        0 < n < 32,
    ensures
        r == rotr(x, n),
{
    (x >> n) | (x << (32 - n))
}

fn exec_small_sigma0(x: u32) -> (r: u32)
    ensures
        r == small_sigma0(x),
{
    rotate_right(x, 7) ^ rotate_right(x, 18) ^ (x >> 3u32)
}

fn exec_small_sigma1(x: u32) -> (r: u32)
    ensures
        r == small_sigma1(x),
{
    rotate_right(x, 17) ^ rotate_right(x, 19) ^ (x >> 10u32)
}

fn exec_big_sigma0(x: u32) -> (r: u32)
    ensures
        r == big_sigma0(x),
{
    rotate_right(x, 2) ^ rotate_right(x, 13) ^ rotate_right(x, 22)
}

fn exec_big_sigma1(x: u32) -> (r: u32)
    ensures
        r == big_sigma1(x),
{
    rotate_right(x, 6) ^ rotate_right(x, 11) ^ rotate_right(x, 25)
}

fn round_constant(t: usize) -> (k: u32)
    requires
        t < 64,
    ensures
        k == round_constants()[t as int],
{
    let table: [u32; 64] = [
        0x428a2f98u32, 0x71374491u32, 0xb5c0fbcfu32, 0xe9b5dba5u32,
        0x3956c25bu32, 0x59f111f1u32, 0x923f82a4u32, 0xab1c5ed5u32,
        0xd807aa98u32, 0x12835b01u32, 0x243185beu32, 0x550c7dc3u32,
        0x72be5d74u32, 0x80deb1feu32, 0x9bdc06a7u32, 0xc19bf174u32,
        0xe49b69c1u32, 0xefbe4786u32, 0x0fc19dc6u32, 0x240ca1ccu32,
        0x2de92c6fu32, 0x4a7484aau32, 0x5cb0a9dcu32, 0x76f988dau32,
        0x983e5152u32, 0xa831c66du32, 0xb00327c8u32, 0xbf597fc7u32,
        0xc6e00bf3u32, 0xd5a79147u32, 0x06ca6351u32, 0x14292967u32,
        0x27b70a85u32, 0x2e1b2138u32, 0x4d2c6dfcu32, 0x53380d13u32,
        0x650a7354u32, 0x766a0abbu32, 0x81c2c92eu32, 0x92722c85u32,
        0xa2bfe8a1u32, 0xa81a664bu32, 0xc24b8b70u32, 0xc76c51a3u32,
        0xd192e819u32, 0xd6990624u32, 0xf40e3585u32, 0x106aa070u32,
        0x19a4c116u32, 0x1e376c08u32, 0x2748774cu32, 0x34b0bcb5u32,
        0x391c0cb3u32, 0x4ed8aa4au32, 0x5b9cca4fu32, 0x682e6ff3u32,
        0x748f82eeu32, 0x78a5636fu32, 0x84c87814u32, 0x8cc70208u32,
        0x90befffau32, 0xa4506cebu32, 0xbef9a3f7u32, 0xc67178f2u32,
    ];
    assert(table@ =~= round_constants());
    table[t]
}

fn exec_ch(x: u32, y: u32, z: u32) -> (r: u32)
    ensures
        r == ch(x, y, z),
{
    (x & y) ^ (!x & z)
}

fn exec_maj(x: u32, y: u32, z: u32) -> (r: u32)
    ensures
        r == maj(x, y, z),
{
    (x & y) ^ (x & z) ^ (y & z)
}

fn load_word(bytes: &[u8], at: usize) -> (w: u32)
    requires
        at + 4 <= bytes.len(),
    ensures
        w == word_at(bytes@, at as int),
{
    ((bytes[at] as u32) << 24u32) | ((bytes[at + 1] as u32) << 16u32) | ((bytes[at + 2] as u32)
        << 8u32) | (bytes[at + 3] as u32)
}

fn expand(bytes: &[u8], base: usize) -> (w: Vec<u32>)
    requires
        base + 64 <= bytes.len(),
    ensures
        w.len() == 64,
        forall|t: int| 0 <= t < 64 ==> w[t] == schedule(bytes@, base as int, t),
{
    let mut w: Vec<u32> = Vec::with_capacity(64);
    let mut t: usize = 0;
    while t < 16
        invariant
            t <= 16,
            w.len() == t,
            base + 64 <= bytes.len(),
            forall|j: int| 0 <= j < t ==> w[j] == schedule(bytes@, base as int, j),
        decreases 16 - t,
    {
        let word = load_word(bytes, base + 4 * t);
        w.push(word);
        t += 1;
    }
    while t < 64
        invariant
            16 <= t <= 64,
            w.len() == t,
            forall|j: int| 0 <= j < t ==> w[j] == schedule(bytes@, base as int, j),
        decreases 64 - t,
    {
        let word = exec_small_sigma1(w[t - 2]).wrapping_add(w[t - 7]).wrapping_add(
            exec_small_sigma0(w[t - 15]),
        ).wrapping_add(w[t - 16]);
        w.push(word);
        t += 1;
    }
    w
}

fn compress_block(s: Words, bytes: &[u8], base: usize) -> (r: Words)
    requires
        base + 64 <= bytes.len(),
    ensures
        r == compress(s, bytes@, base as int),
{
    let w = expand(bytes, base);
    let mut cur = s;
    let mut t: usize = 0;
    while t < 64
        invariant
            t <= 64,
            w.len() == 64,
            forall|j: int| 0 <= j < 64 ==> w[j] == schedule(bytes@, base as int, j),
            cur == rounds(s, bytes@, base as int, t as int),
        decreases 64 - t,
    {
        let t1 = cur.h.wrapping_add(exec_big_sigma1(cur.e)).wrapping_add(
            exec_ch(cur.e, cur.f, cur.g),
        ).wrapping_add(round_constant(t)).wrapping_add(w[t]);
        let t2 = exec_big_sigma0(cur.a).wrapping_add(exec_maj(cur.a, cur.b, cur.c));
        cur = Words {
            a: t1.wrapping_add(t2),
            b: cur.a,
            c: cur.b,
            d: cur.c,
            e: cur.d.wrapping_add(t1),
            f: cur.e,
            g: cur.f,
            h: cur.g,
        };
        t += 1;
    }
    Words {
        a: s.a.wrapping_add(cur.a),
        b: s.b.wrapping_add(cur.b),
        c: s.c.wrapping_add(cur.c),
        d: s.d.wrapping_add(cur.d),
        e: s.e.wrapping_add(cur.e),
        f: s.f.wrapping_add(cur.f),
        g: s.g.wrapping_add(cur.g),
        h: s.h.wrapping_add(cur.h),
    }
}

fn pad(msg: &[u8]) -> (p: Vec<u8>)
    ensures
        p@ == padded(msg@),
{
    let len = msg.len();
    let mut p: Vec<u8> = Vec::new();
    p.extend_from_slice(msg);
    p.push(0x80u8);
    let fill = (119 - len % 64) % 64;
    let mut i: usize = 0;
    while i < fill
        invariant
            i <= fill,
            p@ == msg@.push(0x80u8) + Seq::new(i as nat, |j: int| 0u8),
        decreases fill - i,
    {
        p.push(0u8);
        i += 1;
    }
    let bits = (len as u64).wrapping_mul(8u64);
    p.push(#[verifier::truncate] ((bits >> 56u64) as u8));
    p.push(#[verifier::truncate] ((bits >> 48u64) as u8));
    p.push(#[verifier::truncate] ((bits >> 40u64) as u8));
    p.push(#[verifier::truncate] ((bits >> 32u64) as u8));
    p.push(#[verifier::truncate] ((bits >> 24u64) as u8));
    p.push(#[verifier::truncate] ((bits >> 16u64) as u8));
    p.push(#[verifier::truncate] ((bits >> 8u64) as u8));
    p.push(#[verifier::truncate] (bits as u8));
    p
}

fn push_word(out: &mut Vec<u8>, w: u32)
    ensures
        final(out)@ == old(out)@ + word_bytes(w),
{
    out.push(#[verifier::truncate] ((w >> 24u32) as u8));
    out.push(#[verifier::truncate] ((w >> 16u32) as u8));
    out.push(#[verifier::truncate] ((w >> 8u32) as u8));
    out.push(#[verifier::truncate] (w as u8));
}

/// Computes the SHA-256 digest of `msg`.
pub fn sha256_bytes(msg: &[u8]) -> (d: Vec<u8>)
    ensures
        d@ == sha256(msg@),
        d.len() == 32,
{
    let p = pad(msg);
    let n = p.len() / 64;
    let mut s = Words {
        a: 0x6a09e667u32,
        b: 0xbb67ae85u32,
        c: 0x3c6ef372u32,
        d: 0xa54ff53au32,
        e: 0x510e527fu32,
        f: 0x9b05688cu32,
        g: 0x1f83d9abu32,
        h: 0x5be0cd19u32,
    };
    let mut i: usize = 0;
    while i < n
        invariant
            i <= n,
            n == p.len() / 64,
            s == absorb(p@, i as int),
        decreases n - i,
    {
        s = compress_block(s, p.as_slice(), 64 * i);
        i += 1;
    }
    let mut d: Vec<u8> = Vec::with_capacity(32);
    push_word(&mut d, s.a);
    push_word(&mut d, s.b);
    push_word(&mut d, s.c);
    push_word(&mut d, s.d);
    push_word(&mut d, s.e);
    push_word(&mut d, s.f);
    push_word(&mut d, s.g);
    push_word(&mut d, s.h);
    d
}

} // verus!
