//! The digests and ciphers of NTLM: MD4, MD5, HMAC-MD5 and DES.
use vstd::prelude::*;
use vstd::slice::slice_subrange;
use crate::bytes::{copy_all, get_u32, le32, le64, put_bytes, put_u32, put_u64, put_u8, put_zeros, u32_at, zeros};
use crate::text::{encode_utf16_bytes, utf16_bytes};

verus! {

/// `x` rotated left by `s` bits, for `s` from 1 to 31.
pub open spec fn rotl(x: u32, s: u32) -> u32 {
    (x << s) | (x >> (32 - s) as u32)
}

fn rotate(x: u32, s: u32) -> (r: u32)
    requires
        0 < s < 32,
    ensures
        r == rotl(x, s),
{
    (x << s) | (x >> (32 - s))
}

/// The four chaining words of a digest.
#[derive(Clone, Copy)]
pub struct Words {
    pub a: u32,
    pub b: u32,
    pub c: u32,
    pub d: u32,
}

/// The chaining words that MD4 and MD5 start from.
pub open spec fn initial_words() -> Words {
    Words { a: 0x6745_2301, b: 0xEFCD_AB89, c: 0x98BA_DCFE, d: 0x1032_5476 }
}

/// Word-wise sum.
pub open spec fn sum_words(x: Words, y: Words) -> Words {
    Words {
        a: x.a.wrapping_add(y.a),
        b: x.b.wrapping_add(y.b),
        c: x.c.wrapping_add(y.c),
        d: x.d.wrapping_add(y.d),
    }
}

/// The chaining words as sixteen bytes.
pub open spec fn digest_bytes(w: Words) -> Seq<u8> {
    le32(w.a) + le32(w.b) + le32(w.c) + le32(w.d)
}

/// The padding of a message of `len` bytes: a one bit, zeros up to eight bytes
/// short of a whole block, and the length in bits.
pub open spec fn padding(len: nat) -> Seq<u8> {
    seq![0x80u8] + zeros(((119 - len % 64) % 64) as nat) + le64(((8 * len) % 0x1_0000_0000_0000_0000) as u64)
}

/// The padded message is a whole number of blocks.
pub proof fn lemma_padding_fills(len: nat)
    ensures
        (len + padding(len).len()) % 64 == 0,
{
    let r = (len % 64) as int;
    let q = (len / 64) as int;
    let z = (119 - r) % 64;
    assert(z == if r <= 55 {
        55 - r
    } else {
        119 - r
    });
    assert(padding(len).len() == 9 + z);
    assert(len == 64 * q + r);
    let n = len + padding(len).len();
    assert(n == if r <= 55 {
        64 * (q + 1)
    } else {
        64 * (q + 2)
    });
}

fn initial() -> (w: Words)
    ensures
        w == initial_words(),
{
    Words { a: 0x6745_2301, b: 0xEFCD_AB89, c: 0x98BA_DCFE, d: 0x1032_5476 }
}

fn plus(x: Words, y: Words) -> (w: Words)
    ensures
        w == sum_words(x, y),
{
    Words {
        a: x.a.wrapping_add(y.a),
        b: x.b.wrapping_add(y.b),
        c: x.c.wrapping_add(y.c),
        d: x.d.wrapping_add(y.d),
    }
}

fn to_digest(w: Words) -> (out: [u8; 16])
    ensures
        out@ == digest_bytes(w),
{
    let mut v: Vec<u8> = Vec::new();
    put_u32(&mut v, w.a);
    put_u32(&mut v, w.b);
    put_u32(&mut v, w.c);
    put_u32(&mut v, w.d);
    assert(v@ =~= digest_bytes(w));
    array16(v.as_slice())
}

/// The sixteen bytes of `s` as an array.
pub fn array16(s: &[u8]) -> (out: [u8; 16])
    requires
        s@.len() == 16,
    ensures
        out@ == s@,
{
    let mut out: [u8; 16] = [0u8; 16];
    let mut i: usize = 0;
    while i < 16
        invariant
            i <= 16,
            s@.len() == 16,
            forall|k: int| 0 <= k < i ==> out@[k] == s@[k],
        decreases 16 - i,
    {
        out[i] = s[i];
        i += 1;
    }
    assert(out@ =~= s@);
    out
}

/// Only the low 64 bits of a length enter its padding.
proof fn lemma_padding_wraps(len: nat, low: u64)
    requires
        low == len % 0x1_0000_0000_0000_0000,
    ensures
        padding(len) == padding(low as nat),
{
    assert(low as int % 64 == len as int % 64);
    assert((8 * low as int) % 0x1_0000_0000_0000_0000 == (8 * len as int) % 0x1_0000_0000_0000_0000);
}

fn make_padding(len: u64) -> (pad: Vec<u8>)
    ensures
        pad@ == padding(len as nat),
{
    let mut pad: Vec<u8> = Vec::new();
    put_u8(&mut pad, 0x80);
    assert(pad@ =~= seq![0x80u8]);
    put_zeros(&mut pad, ((119 - len % 64) % 64) as usize);
    let bits: u128 = 8 * (len as u128);
    put_u64(&mut pad, (bits % 0x1_0000_0000_0000_0000u128) as u64);
    pad
}

// ---------------- MD4 ----------------

/// Message word used by step `i` of MD4.
pub open spec fn md4_index(i: int) -> int {
    if i < 16 {
        i
    } else if i < 32 {
        (i % 4) * 4 + (i - 16) / 4
    } else {
        bit_reverse4(i - 32)
    }
}

/// The four bits of `i` in reverse order.
pub open spec fn bit_reverse4(i: int) -> int {
    (i % 2) * 8 + ((i / 2) % 2) * 4 + ((i / 4) % 2) * 2 + (i / 8) % 2
}

/// Rotation of step `i` of MD4.
pub open spec fn md4_shift(i: int) -> u32 {
    if i < 16 {
        if i % 4 == 0 { 3 } else if i % 4 == 1 { 7 } else if i % 4 == 2 { 11 } else { 19 }
    } else if i < 32 {
        if i % 4 == 0 { 3 } else if i % 4 == 1 { 5 } else if i % 4 == 2 { 9 } else { 13 }
    } else {
        if i % 4 == 0 { 3 } else if i % 4 == 1 { 9 } else if i % 4 == 2 { 11 } else { 15 }
    }
}

/// Mixing function of step `i` of MD4, its additive constant included.
pub open spec fn md4_mix(i: int, a: u32, b: u32, c: u32, d: u32, x: u32) -> u32 {
    if i < 16 {
        a.wrapping_add((b & c) | (!b & d)).wrapping_add(x)
    } else if i < 32 {
        a.wrapping_add((b & c) | (b & d) | (c & d)).wrapping_add(x.wrapping_add(0x5A82_7999))
    } else {
        a.wrapping_add(b ^ c ^ d).wrapping_add(x.wrapping_add(0x6ED9_EBA1))
    }
}

/// Step `i` of MD4 on a 64-byte block that starts at `at` of the message.
pub open spec fn md4_step(w: Words, msg: Seq<u8>, at: int, i: int) -> Words {
    let x = u32_at(msg, at + 4 * md4_index(i));
    Words { a: w.d, b: rotl(md4_mix(i, w.a, w.b, w.c, w.d, x), md4_shift(i)), c: w.b, d: w.c }
}

/// The first `n` steps of MD4.
pub open spec fn md4_steps(w: Words, msg: Seq<u8>, at: int, n: int) -> Words
    decreases n,
{
    if n <= 0 {
        w
    } else {
        md4_step(md4_steps(w, msg, at, n - 1), msg, at, n - 1)
    }
}

/// MD4 over the first `n` blocks of a message.
pub open spec fn md4_blocks(msg: Seq<u8>, n: int) -> Words
    decreases n,
{
    if n <= 0 {
        initial_words()
    } else {
        let w = md4_blocks(msg, n - 1);
        sum_words(w, md4_steps(w, msg, 64 * (n - 1), 48))
    }
}

/// The MD4 digest of `data`.
pub open spec fn md4_spec(data: Seq<u8>) -> Seq<u8> {
    let msg = data + padding(data.len());
    digest_bytes(md4_blocks(msg, (msg.len() / 64) as int))
}

fn md4_compress(w: Words, msg: &[u8], at: usize) -> (r: Words)
    requires
        at + 64 <= msg@.len(),
    ensures
        r == md4_steps(w, msg@, at as int, 48),
{
    let mut s: Words = w;
    let n: usize = msg.len();
    let mut i: usize = 0;
    while i < 48
        invariant
            i <= 48,
            n == msg@.len(),
            at + 64 <= n,
            s == md4_steps(w, msg@, at as int, i as int),
        decreases 48 - i,
    {
        let k: usize = if i < 16 {
            i
        } else if i < 32 {
            (i % 4) * 4 + (i - 16) / 4
        } else {
            let j: usize = i - 32;
            (j % 2) * 8 + ((j / 2) % 2) * 4 + ((j / 4) % 2) * 2 + (j / 8) % 2
        };
        assert(k == md4_index(i as int));
        assert(k < 16);
        let x: u32 = get_u32(msg, at + 4 * k);
        let q: usize = i % 4;
        let sh: u32 = if i < 16 {
            if q == 0 { 3 } else if q == 1 { 7 } else if q == 2 { 11 } else { 19 }
        } else if i < 32 {
            if q == 0 { 3 } else if q == 1 { 5 } else if q == 2 { 9 } else { 13 }
        } else {
            if q == 0 { 3 } else if q == 1 { 9 } else if q == 2 { 11 } else { 15 }
        };
        let t: u32 = if i < 16 {
            s.a.wrapping_add((s.b & s.c) | (!s.b & s.d)).wrapping_add(x)
        } else if i < 32 {
            s.a.wrapping_add((s.b & s.c) | (s.b & s.d) | (s.c & s.d)).wrapping_add(x.wrapping_add(0x5A82_7999))
        } else {
            s.a.wrapping_add(s.b ^ s.c ^ s.d).wrapping_add(x.wrapping_add(0x6ED9_EBA1))
        };
        s = Words { a: s.d, b: rotate(t, sh), c: s.b, d: s.c };
        i += 1;
    }
    s
}

/// The MD4 digest of `data`.
pub fn md4(data: &[u8]) -> (out: [u8; 16])
    ensures
        out@ == md4_spec(data@),
{
    let mut msg: Vec<u8> = copy_all(data);
    let pad = make_padding(data.len() as u64);
    put_bytes(&mut msg, pad.as_slice());
    proof {
        lemma_padding_fills(data@.len());
    }
    let len: usize = msg.len();
    let blocks: usize = len / 64;
    let mut w: Words = initial();
    let mut n: usize = 0;
    while n < blocks
        invariant
            n <= blocks,
            len == msg@.len(),
            blocks == len / 64,
            w == md4_blocks(msg@, n as int),
        decreases blocks - n,
    {
        let r = md4_compress(w, msg.as_slice(), 64 * n);
        w = plus(w, r);
        n += 1;
    }
    to_digest(w)
}

/// The NT hash of a password: MD4 of its UTF-16 form.
pub open spec fn nt_hash_spec(password: Seq<char>) -> Seq<u8> {
    md4_spec(utf16_bytes(password))
}

/// The NT hash of a password.
pub fn nt_hash(password: &str) -> (out: [u8; 16])
    ensures
        out@ == nt_hash_spec(password@),
{
    let b = encode_utf16_bytes(password);
    md4(b.as_slice())
}

// ---------------- MD5 ----------------

/// Additive constants of the MD5 steps.
pub const MD5_K: [u32; 64] = [
    0xd76aa478, 0xe8c7b756, 0x242070db, 0xc1bdceee, 0xf57c0faf, 0x4787c62a, 0xa8304613, 0xfd469501,
    0x698098d8, 0x8b44f7af, 0xffff5bb1, 0x895cd7be, 0x6b901122, 0xfd987193, 0xa679438e, 0x49b40821,
    0xf61e2562, 0xc040b340, 0x265e5a51, 0xe9b6c7aa, 0xd62f105d, 0x02441453, 0xd8a1e681, 0xe7d3fbc8,
    0x21e1cde6, 0xc33707d6, 0xf4d50d87, 0x455a14ed, 0xa9e3e905, 0xfcefa3f8, 0x676f02d9, 0x8d2a4c8a,
    0xfffa3942, 0x8771f681, 0x6d9d6122, 0xfde5380c, 0xa4beea44, 0x4bdecfa9, 0xf6bb4b60, 0xbebfbc70,
    0x289b7ec6, 0xeaa127fa, 0xd4ef3085, 0x04881d05, 0xd9d4d039, 0xe6db99e5, 0x1fa27cf8, 0xc4ac5665,
    0xf4292244, 0x432aff97, 0xab9423a7, 0xfc93a039, 0x655b59c3, 0x8f0ccc92, 0xffeff47d, 0x85845dd1,
    0x6fa87e4f, 0xfe2ce6e0, 0xa3014314, 0x4e0811a1, 0xf7537e82, 0xbd3af235, 0x2ad7d2bb, 0xeb86d391,
];

/// Rotation of step `i` of MD5.
pub open spec fn md5_shift(i: int) -> u32 {
    if i < 16 {
        if i % 4 == 0 { 7 } else if i % 4 == 1 { 12 } else if i % 4 == 2 { 17 } else { 22 }
    } else if i < 32 {
        if i % 4 == 0 { 5 } else if i % 4 == 1 { 9 } else if i % 4 == 2 { 14 } else { 20 }
    } else if i < 48 {
        if i % 4 == 0 { 4 } else if i % 4 == 1 { 11 } else if i % 4 == 2 { 16 } else { 23 }
    } else {
        if i % 4 == 0 { 6 } else if i % 4 == 1 { 10 } else if i % 4 == 2 { 15 } else { 21 }
    }
}

/// Message word used by step `i` of MD5.
pub open spec fn md5_index(i: int) -> int {
    if i < 16 {
        i
    } else if i < 32 {
        (5 * i + 1) % 16
    } else if i < 48 {
        (3 * i + 5) % 16
    } else {
        (7 * i) % 16
    }
}

/// Mixing function of step `i` of MD5.
pub open spec fn md5_mix(i: int, b: u32, c: u32, d: u32) -> u32 {
    if i < 16 {
        (b & c) | (!b & d)
    } else if i < 32 {
        (d & b) | (!d & c)
    } else if i < 48 {
        b ^ c ^ d
    } else {
        c ^ (b | !d)
    }
}

/// Step `i` of MD5 on a 64-byte block that starts at `at` of the message.
pub open spec fn md5_step(w: Words, msg: Seq<u8>, at: int, i: int) -> Words {
    let x = u32_at(msg, at + 4 * md5_index(i));
    let sum = w.a.wrapping_add(md5_mix(i, w.b, w.c, w.d)).wrapping_add(MD5_K@[i]).wrapping_add(x);
    Words { a: w.d, b: w.b.wrapping_add(rotl(sum, md5_shift(i))), c: w.b, d: w.c }
}

/// The first `n` steps of MD5.
pub open spec fn md5_steps(w: Words, msg: Seq<u8>, at: int, n: int) -> Words
    decreases n,
{
    if n <= 0 {
        w
    } else {
        md5_step(md5_steps(w, msg, at, n - 1), msg, at, n - 1)
    }
}

/// MD5 over the first `n` blocks of a message.
pub open spec fn md5_blocks(msg: Seq<u8>, n: int) -> Words
    decreases n,
{
    if n <= 0 {
        initial_words()
    } else {
        let w = md5_blocks(msg, n - 1);
        sum_words(w, md5_steps(w, msg, 64 * (n - 1), 64))
    }
}

/// The MD5 digest of `data`.
pub open spec fn md5_spec(data: Seq<u8>) -> Seq<u8> {
    let msg = data + padding(data.len());
    digest_bytes(md5_blocks(msg, (msg.len() / 64) as int))
}

proof fn lemma_steps_same(w: Words, m1: Seq<u8>, at1: int, m2: Seq<u8>, at2: int, n: int)
    requires
        0 <= at1 && at1 + 64 <= m1.len(),
        0 <= at2 && at2 + 64 <= m2.len(),
        forall|j: int| 0 <= j < 64 ==> #[trigger] m1[at1 + j] == m2[at2 + j],
        n <= 64,
    ensures
        md5_steps(w, m1, at1, n) == md5_steps(w, m2, at2, n),
    decreases n,
{
    if n > 0 {
        lemma_steps_same(w, m1, at1, m2, at2, n - 1);
        let k = 4 * md5_index(n - 1);
        assert(0 <= k && k + 4 <= 64);
        assert(m1[at1 + k] == m2[at2 + k]);
        assert(m1[at1 + (k + 1)] == m2[at2 + (k + 1)]);
        assert(m1[at1 + (k + 2)] == m2[at2 + (k + 2)]);
        assert(m1[at1 + (k + 3)] == m2[at2 + (k + 3)]);
    }
}

proof fn lemma_blocks_same(m1: Seq<u8>, m2: Seq<u8>, n: int)
    requires
        64 * n <= m1.len(),
        64 * n <= m2.len(),
        forall|j: int| 0 <= j < 64 * n ==> m1[j] == m2[j],
    ensures
        md5_blocks(m1, n) == md5_blocks(m2, n),
    decreases n,
{
    if n > 0 {
        lemma_blocks_same(m1, m2, n - 1);
        let at = 64 * (n - 1);
        assert forall|j: int| 0 <= j < 64 implies #[trigger] m1[at + j] == m2[at + j] by {}
        lemma_steps_same(md5_blocks(m1, n - 1), m1, at, m2, at, 64);
    }
}

/// A running MD5 computation.
struct Md5Ctx {
    state: Words,
    pending: Vec<u8>,
    total: u64,
    data: Ghost<Seq<u8>>,
}

impl Md5Ctx {
    /// All bytes absorbed so far.
    closed spec fn absorbed(&self) -> Seq<u8> {
        self.data@
    }

    /// The chaining words cover all whole blocks, the rest is pending.
    closed spec fn wf(&self) -> bool {
        let n = (self.data@.len() / 64) as int;
        &&& self.state == md5_blocks(self.data@, n)
        &&& self.pending@ == self.data@.subrange(64 * n, self.data@.len() as int)
        &&& self.total == self.data@.len() % 0x1_0000_0000_0000_0000
    }

    fn new() -> (c: Self)
        ensures
            c.wf(),
            c.absorbed() == Seq::<u8>::empty(),
    {
        let c = Md5Ctx { state: initial(), pending: Vec::new(), total: 0, data: Ghost(Seq::empty()) };
        assert(c.pending@ =~= c.data@.subrange(0, 0));
        c
    }

    fn block(w: Words, msg: &[u8]) -> (r: Words)
        requires
            msg@.len() == 64,
        ensures
            r == sum_words(w, md5_steps(w, msg@, 0, 64)),
    {
        let mut s: Words = w;
        let ks: [u32; 64] = MD5_K;
        let mut i: usize = 0;
        while i < 64
            invariant
                i <= 64,
                msg@.len() == 64,
                ks == MD5_K,
                s == md5_steps(w, msg@, 0, i as int),
            decreases 64 - i,
        {
            let k: usize = if i < 16 {
                i
            } else if i < 32 {
                (5 * i + 1) % 16
            } else if i < 48 {
                (3 * i + 5) % 16
            } else {
                (7 * i) % 16
            };
            let x: u32 = get_u32(msg, 4 * k);
            let q: usize = i % 4;
            let sh: u32 = if i < 16 {
                if q == 0 { 7 } else if q == 1 { 12 } else if q == 2 { 17 } else { 22 }
            } else if i < 32 {
                if q == 0 { 5 } else if q == 1 { 9 } else if q == 2 { 14 } else { 20 }
            } else if i < 48 {
                if q == 0 { 4 } else if q == 1 { 11 } else if q == 2 { 16 } else { 23 }
            } else {
                if q == 0 { 6 } else if q == 1 { 10 } else if q == 2 { 15 } else { 21 }
            };
            let f: u32 = if i < 16 {
                (s.b & s.c) | (!s.b & s.d)
            } else if i < 32 {
                (s.d & s.b) | (!s.d & s.c)
            } else if i < 48 {
                s.b ^ s.c ^ s.d
            } else {
                s.c ^ (s.b | !s.d)
            };
            let sum: u32 = s.a.wrapping_add(f).wrapping_add(ks[i]).wrapping_add(x);
            s = Words { a: s.d, b: s.b.wrapping_add(rotate(sum, sh)), c: s.b, d: s.c };
            i += 1;
        }
        plus(w, s)
    }

    fn absorb_byte(&mut self, b: u8)
        requires
            old(self).wf(),
        ensures
            final(self).wf(),
            final(self).absorbed() == old(self).absorbed().push(b),
    {
        let ghost before = self.data@;
        let ghost after = self.data@.push(b);
        let ghost n = (before.len() / 64) as int;
        self.pending.push(b);
        self.total = self.total.wrapping_add(1);
        proof {
            lemma_blocks_same(before, after, n);
        }
        if self.pending.len() == 64 {
            let w = Self::block(self.state, self.pending.as_slice());
            proof {
                assert(after.len() == 64 * (n + 1));
                assert forall|j: int| 0 <= j < 64 implies #[trigger] self.pending@[0 + j] == after[64 * n + j] by {}
                lemma_steps_same(self.state, self.pending@, 0, after, 64 * n, 64);
            }
            self.state = w;
            self.pending.clear();
            assert(self.pending@ =~= after.subrange(64 * (n + 1), after.len() as int));
        } else {
            assert(after.len() / 64 == n);
            assert(self.pending@ =~= after.subrange(64 * n, after.len() as int));
        }
        self.data = Ghost(after);
    }

    fn update(&mut self, data: &[u8])
        requires
            old(self).wf(),
        ensures
            final(self).wf(),
            final(self).absorbed() == old(self).absorbed() + data@,
    {
        let mut i: usize = 0;
        assert(self.absorbed() =~= old(self).absorbed() + data@.take(0));
        while i < data.len()
            invariant
                i <= data@.len(),
                self.wf(),
                self.absorbed() == old(self).absorbed() + data@.take(i as int),
            decreases data@.len() - i,
        {
            self.absorb_byte(data[i]);
            i += 1;
            assert(self.absorbed() =~= old(self).absorbed() + data@.take(i as int));
        }
        assert(data@.take(i as int) =~= data@);
    }

    fn finish(self) -> (out: [u8; 16])
        requires
            self.wf(),
        ensures
            out@ == md5_spec(self.absorbed()),
    {
        let mut c = self;
        let pad = make_padding(c.total);
        proof {
            lemma_padding_wraps(self.data@.len(), self.total);
            lemma_padding_fills(self.data@.len());
        }
        c.update(pad.as_slice());
        to_digest(c.state)
    }
}

/// The MD5 digest of `data`.
pub fn md5(data: &[u8]) -> (out: [u8; 16])
    ensures
        out@ == md5_spec(data@),
{
    let mut ctx = Md5Ctx::new();
    ctx.update(data);
    assert(ctx.absorbed() =~= data@);
    ctx.finish()
}

/// The HMAC key block: the key, or its digest where it is longer than a block,
/// filled up with zeros.
pub open spec fn hmac_block(key: Seq<u8>) -> Seq<u8> {
    let k = if key.len() > 64 {
        md5_spec(key)
    } else {
        key
    };
    k + zeros((64 - k.len()) as nat)
}

/// `k` with every byte masked.
pub open spec fn masked(k: Seq<u8>, m: u8) -> Seq<u8> {
    Seq::new(k.len(), |i: int| m ^ k[i])
}

/// HMAC-MD5 of `data` under `key`.
pub open spec fn hmac_md5_spec(key: Seq<u8>, data: Seq<u8>) -> Seq<u8> {
    let k = hmac_block(key);
    md5_spec(masked(k, 0x5c) + md5_spec(masked(k, 0x36) + data))
}

fn mask(k: &[u8], m: u8) -> (r: Vec<u8>)
    ensures
        r@ == masked(k@, m),
{
    let mut r: Vec<u8> = Vec::new();
    let mut i: usize = 0;
    while i < k.len()
        invariant
            r@.len() == i <= k@.len(),
            forall|j: int| 0 <= j < i ==> r@[j] == m ^ k@[j],
        decreases k@.len() - i,
    {
        r.push(m ^ k[i]);
        i += 1;
    }
    assert(r@ =~= masked(k@, m));
    r
}

/// HMAC-MD5 of `data` under `key`.
pub fn hmac_md5(key: &[u8], data: &[u8]) -> (out: [u8; 16])
    ensures
        out@ == hmac_md5_spec(key@, data@),
{
    let mut k: Vec<u8> = if key.len() > 64 {
        let d = md5(key);
        copy_all(d.as_slice())
    } else {
        copy_all(key)
    };
    let fill: usize = 64 - k.len();
    put_zeros(&mut k, fill);
    let ipad = mask(k.as_slice(), 0x36);
    let opad = mask(k.as_slice(), 0x5c);
    let mut inner = Md5Ctx::new();
    inner.update(ipad.as_slice());
    inner.update(data);
    assert(inner.absorbed() =~= masked(k@, 0x36) + data@);
    let ih = inner.finish();
    let mut outer = Md5Ctx::new();
    outer.update(opad.as_slice());
    outer.update(ih.as_slice());
    assert(outer.absorbed() =~= masked(k@, 0x5c) + ih@);
    outer.finish()
}

// ---------------- DES (single block) ----------------

/// Initial permutation. Positions count from one.
pub const DES_IP: [u8; 64] = [
    58, 50, 42, 34, 26, 18, 10, 2, 60, 52, 44, 36, 28, 20, 12, 4,
    62, 54, 46, 38, 30, 22, 14, 6, 64, 56, 48, 40, 32, 24, 16, 8,
    57, 49, 41, 33, 25, 17, 9, 1, 59, 51, 43, 35, 27, 19, 11, 3,
    61, 53, 45, 37, 29, 21, 13, 5, 63, 55, 47, 39, 31, 23, 15, 7,
];

/// Final permutation. Positions count from one.
pub const DES_FP: [u8; 64] = [
    40, 8, 48, 16, 56, 24, 64, 32, 39, 7, 47, 15, 55, 23, 63, 31,
    38, 6, 46, 14, 54, 22, 62, 30, 37, 5, 45, 13, 53, 21, 61, 29,
    36, 4, 44, 12, 52, 20, 60, 28, 35, 3, 43, 11, 51, 19, 59, 27,
    34, 2, 42, 10, 50, 18, 58, 26, 33, 1, 41, 9, 49, 17, 57, 25,
];

/// Expansion of a half block. Positions count from one.
pub const DES_E: [u8; 48] = [
    32, 1, 2, 3, 4, 5, 4, 5, 6, 7, 8, 9, 8, 9, 10, 11,
    12, 13, 12, 13, 14, 15, 16, 17, 16, 17, 18, 19, 20, 21, 20, 21,
    22, 23, 24, 25, 24, 25, 26, 27, 28, 29, 28, 29, 30, 31, 32, 1,
];

/// Permutation behind the S-boxes. Positions count from one.
pub const DES_P: [u8; 32] = [
    16, 7, 20, 21, 29, 12, 28, 17, 1, 15, 23, 26, 5, 18, 31, 10,
    2, 8, 24, 14, 32, 27, 3, 9, 19, 13, 30, 6, 22, 11, 4, 25,
];

/// First key permutation. Positions count from one.
pub const DES_PC1: [u8; 56] = [
    57, 49, 41, 33, 25, 17, 9, 1, 58, 50, 42, 34, 26, 18, 10, 2,
    59, 51, 43, 35, 27, 19, 11, 3, 60, 52, 44, 36, 63, 55, 47, 39,
    31, 23, 15, 7, 62, 54, 46, 38, 30, 22, 14, 6, 61, 53, 45, 37,
    29, 21, 13, 5, 28, 20, 12, 4,
];

/// Second key permutation. Positions count from one.
pub const DES_PC2: [u8; 48] = [
    14, 17, 11, 24, 1, 5, 3, 28, 15, 6, 21, 10, 23, 19, 12, 4,
    26, 8, 16, 7, 27, 20, 13, 2, 41, 52, 31, 37, 47, 55, 30, 40,
    51, 45, 33, 48, 44, 49, 39, 56, 34, 53, 46, 42, 50, 36, 29, 32,
];

/// The eight S-boxes, one after the other, four rows of sixteen each.
pub const DES_SBOX: [u8; 512] = [
    14, 4, 13, 1, 2, 15, 11, 8, 3, 10, 6, 12, 5, 9, 0, 7,
    0, 15, 7, 4, 14, 2, 13, 1, 10, 6, 12, 11, 9, 5, 3, 8,
    4, 1, 14, 8, 13, 6, 2, 11, 15, 12, 9, 7, 3, 10, 5, 0,
    15, 12, 8, 2, 4, 9, 1, 7, 5, 11, 3, 14, 10, 0, 6, 13,
    15, 1, 8, 14, 6, 11, 3, 4, 9, 7, 2, 13, 12, 0, 5, 10,
    3, 13, 4, 7, 15, 2, 8, 14, 12, 0, 1, 10, 6, 9, 11, 5,
    0, 14, 7, 11, 10, 4, 13, 1, 5, 8, 12, 6, 9, 3, 2, 15,
    13, 8, 10, 1, 3, 15, 4, 2, 11, 6, 7, 12, 0, 5, 14, 9,
    10, 0, 9, 14, 6, 3, 15, 5, 1, 13, 12, 7, 11, 4, 2, 8,
    13, 7, 0, 9, 3, 4, 6, 10, 2, 8, 5, 14, 12, 11, 15, 1,
    13, 6, 4, 9, 8, 15, 3, 0, 11, 1, 2, 12, 5, 10, 14, 7,
    1, 10, 13, 0, 6, 9, 8, 7, 4, 15, 14, 3, 11, 5, 2, 12,
    7, 13, 14, 3, 0, 6, 9, 10, 1, 2, 8, 5, 11, 12, 4, 15,
    13, 8, 11, 5, 6, 15, 0, 3, 4, 7, 2, 12, 1, 10, 14, 9,
    10, 6, 9, 0, 12, 11, 7, 13, 15, 1, 3, 14, 5, 2, 8, 4,
    3, 15, 0, 6, 10, 1, 13, 8, 9, 4, 5, 11, 12, 7, 2, 14,
    2, 12, 4, 1, 7, 10, 11, 6, 8, 5, 3, 15, 13, 0, 14, 9,
    14, 11, 2, 12, 4, 7, 13, 1, 5, 0, 15, 10, 3, 9, 8, 6,
    4, 2, 1, 11, 10, 13, 7, 8, 15, 9, 12, 5, 6, 3, 0, 14,
    11, 8, 12, 7, 1, 14, 2, 13, 6, 15, 0, 9, 10, 4, 5, 3,
    12, 1, 10, 15, 9, 2, 6, 8, 0, 13, 3, 4, 14, 7, 5, 11,
    10, 15, 4, 2, 7, 12, 9, 5, 6, 1, 13, 14, 0, 11, 3, 8,
    9, 14, 15, 5, 2, 8, 12, 3, 7, 0, 4, 10, 1, 13, 11, 6,
    4, 3, 2, 12, 9, 5, 15, 10, 11, 14, 1, 7, 6, 0, 8, 13,
    4, 11, 2, 14, 15, 0, 8, 13, 3, 12, 9, 7, 5, 10, 6, 1,
    13, 0, 11, 7, 4, 9, 1, 10, 14, 3, 5, 12, 2, 15, 8, 6,
    1, 4, 11, 13, 12, 3, 7, 14, 10, 15, 6, 8, 0, 5, 9, 2,
    6, 11, 13, 8, 1, 4, 10, 7, 9, 5, 0, 15, 14, 2, 3, 12,
    13, 2, 8, 4, 6, 15, 11, 1, 10, 9, 3, 14, 5, 0, 12, 7,
    1, 15, 13, 8, 10, 3, 7, 4, 12, 5, 6, 11, 0, 14, 9, 2,
    7, 11, 4, 1, 9, 12, 14, 2, 0, 6, 10, 13, 15, 3, 5, 8,
    2, 1, 14, 7, 4, 10, 8, 13, 15, 12, 9, 0, 3, 5, 6, 11,
];

/// Bit `i` of `s`; false outside.
pub open spec fn bit_at(s: Seq<bool>, i: int) -> bool {
    0 <= i < s.len() && s[i]
}

/// The bits of `s` at the positions of a table that counts from one.
pub open spec fn pick(s: Seq<bool>, table: Seq<u8>) -> Seq<bool> {
    Seq::new(table.len(), |i: int| bit_at(s, table[i] - 1))
}

/// The bits of `s`, the highest bit of each byte first.
pub open spec fn bits_of(s: Seq<u8>) -> Seq<bool> {
    Seq::new(8 * s.len(), |i: int| (s[i / 8] >> ((7 - i % 8) as u8)) & 1 == 1)
}

/// The number that a bit stands for.
pub open spec fn bit_value(b: bool) -> int {
    if b {
        1
    } else {
        0
    }
}

/// The byte whose bits stand in `s` at `8 * i`, the highest first.
pub open spec fn byte_of(s: Seq<bool>, i: int) -> u8 {
    (128 * bit_value(s[8 * i]) + 64 * bit_value(s[8 * i + 1]) + 32 * bit_value(s[8 * i + 2]) + 16 * bit_value(
        s[8 * i + 3],
    ) + 8 * bit_value(s[8 * i + 4]) + 4 * bit_value(s[8 * i + 5]) + 2 * bit_value(s[8 * i + 6]) + bit_value(
        s[8 * i + 7],
    )) as u8
}

/// The bytes of a run of bits.
pub open spec fn bytes_of(s: Seq<bool>) -> Seq<u8> {
    Seq::new(s.len() / 8, |i: int| byte_of(s, i))
}

/// Bitwise difference.
pub open spec fn xor_bits(a: Seq<bool>, b: Seq<bool>) -> Seq<bool> {
    Seq::new(a.len(), |i: int| a[i] != bit_at(b, i))
}

/// Where S-box `n` looks up the six bits of `s` at `6 * n`.
pub open spec fn sbox_index(s: Seq<bool>, n: int) -> int {
    64 * n + 32 * bit_value(s[6 * n]) + 16 * bit_value(s[6 * n + 5]) + 8 * bit_value(s[6 * n + 1]) + 4
        * bit_value(s[6 * n + 2]) + 2 * bit_value(s[6 * n + 3]) + bit_value(s[6 * n + 4])
}

/// Bit `j` of a four-bit value, the highest first.
pub open spec fn nibble_bit(v: u8, j: int) -> bool {
    (if j == 0 {
        v / 8
    } else if j == 1 {
        v / 4
    } else if j == 2 {
        v / 2
    } else {
        v
    }) % 2 == 1
}

/// What the eight S-boxes make of 48 bits.
pub open spec fn sboxes(s: Seq<bool>) -> Seq<bool> {
    Seq::new(32, |i: int| nibble_bit(DES_SBOX@[sbox_index(s, i / 4)], i % 4))
}

/// The DES round function.
pub open spec fn des_f(r: Seq<bool>, key: Seq<bool>) -> Seq<bool> {
    pick(sboxes(xor_bits(pick(r, DES_E@), key)), DES_P@)
}

/// The two halves after `n` rounds.
pub open spec fn des_rounds(l: Seq<bool>, r: Seq<bool>, keys: Seq<Seq<bool>>, n: int) -> (Seq<bool>, Seq<bool>)
    decreases n,
{
    if n <= 0 {
        (l, r)
    } else {
        let (l1, r1) = des_rounds(l, r, keys, n - 1);
        (r1, xor_bits(l1, des_f(r1, keys[n - 1])))
    }
}

/// DES of one block under sixteen round keys.
pub open spec fn des_block_spec(block: Seq<u8>, keys: Seq<Seq<bool>>) -> Seq<u8> {
    let ip = pick(bits_of(block), DES_IP@);
    let (l, r) = des_rounds(ip.subrange(0, 32), ip.subrange(32, 64), keys, 16);
    bytes_of(pick(r + l, DES_FP@))
}

/// `s` rotated left by `n`.
pub open spec fn rotated(s: Seq<bool>, n: int) -> Seq<bool> {
    s.subrange(n, s.len() as int) + s.subrange(0, n)
}

/// How far the key halves turn before round `i`.
pub open spec fn key_shift(i: int) -> int {
    if i == 0 || i == 1 || i == 8 || i == 15 {
        1
    } else {
        2
    }
}

/// A key half after the turns of the first `n` rounds.
pub open spec fn key_half(s: Seq<bool>, n: int) -> Seq<bool>
    decreases n,
{
    if n <= 0 {
        s
    } else {
        rotated(key_half(s, n - 1), key_shift(n - 1))
    }
}

/// The key register of a seven-byte key: a parity bit, which is not looked at, follows every
/// seven bits.
pub open spec fn key_register(key: Seq<u8>) -> Seq<bool> {
    Seq::new(64, |i: int| i % 8 != 7 && bits_of(key)[7 * (i / 8) + i % 8])
}

/// The sixteen round keys of a seven-byte key.
pub open spec fn des_keys(key: Seq<u8>) -> Seq<Seq<bool>> {
    let k = pick(key_register(key), DES_PC1@);
    Seq::new(
        16,
        |i: int| pick(key_half(k.subrange(0, 28), i + 1) + key_half(k.subrange(28, 56), i + 1), DES_PC2@),
    )
}

/// DES of one block under a seven-byte key.
pub open spec fn des_spec(key: Seq<u8>, block: Seq<u8>) -> Seq<u8> {
    des_block_spec(block, des_keys(key))
}

fn permute(s: &[bool], table: &[u8]) -> (r: Vec<bool>)
    ensures
        r@ == pick(s@, table@),
{
    let mut r: Vec<bool> = Vec::new();
    let mut i: usize = 0;
    while i < table.len()
        invariant
            r@.len() == i <= table@.len(),
            forall|k: int| 0 <= k < i ==> r@[k] == bit_at(s@, table@[k] - 1),
        decreases table@.len() - i,
    {
        let p: usize = table[i] as usize;
        r.push(p >= 1 && p <= s.len() && s[p - 1]);
        i += 1;
    }
    assert(r@ =~= pick(s@, table@));
    r
}

fn bytes_to_bits(s: &[u8]) -> (r: Vec<bool>)
    requires
        8 * s@.len() <= usize::MAX,
    ensures
        r@ == bits_of(s@),
{
    let mut r: Vec<bool> = Vec::new();
    let n: usize = s.len();
    let mut i: usize = 0;
    while i < 8 * n
        invariant
            n == s@.len(),
            8 * n <= usize::MAX,
            r@.len() == i <= 8 * n,
            forall|k: int| 0 <= k < i ==> r@[k] == bits_of(s@)[k],
        decreases 8 * n - i,
    {
        let sh: u8 = (7 - i % 8) as u8;
        r.push((s[i / 8] >> sh) & 1 == 1);
        i += 1;
    }
    assert(r@ =~= bits_of(s@));
    r
}

fn value(b: bool) -> (v: u8)
    ensures
        v == bit_value(b),
{
    if b {
        1
    } else {
        0
    }
}

fn bits_to_bytes(s: &[bool]) -> (r: Vec<u8>)
    ensures
        r@ == bytes_of(s@),
{
    let mut r: Vec<u8> = Vec::new();
    let len: usize = s.len();
    let n: usize = len / 8;
    let mut i: usize = 0;
    while i < n
        invariant
            len == s@.len(),
            n == len / 8,
            r@.len() == i <= n,
            forall|k: int| 0 <= k < i ==> r@[k] == byte_of(s@, k),
        decreases n - i,
    {
        let b: u8 = 128 * value(s[8 * i]) + 64 * value(s[8 * i + 1]) + 32 * value(s[8 * i + 2]) + 16 * value(
            s[8 * i + 3],
        ) + 8 * value(s[8 * i + 4]) + 4 * value(s[8 * i + 5]) + 2 * value(s[8 * i + 6]) + value(s[8 * i + 7]);
        r.push(b);
        i += 1;
    }
    assert(r@ =~= bytes_of(s@));
    r
}

fn difference(a: &[bool], b: &[bool]) -> (r: Vec<bool>)
    ensures
        r@ == xor_bits(a@, b@),
{
    let mut r: Vec<bool> = Vec::new();
    let mut i: usize = 0;
    while i < a.len()
        invariant
            r@.len() == i <= a@.len(),
            forall|k: int| 0 <= k < i ==> r@[k] == (a@[k] != bit_at(b@, k)),
        decreases a@.len() - i,
    {
        let other: bool = i < b.len() && b[i];
        r.push(a[i] != other);
        i += 1;
    }
    assert(r@ =~= xor_bits(a@, b@));
    r
}

fn look_up(s: &[bool], n: usize) -> (v: u8)
    requires
        s@.len() == 48,
        n < 8,
    ensures
        v == DES_SBOX@[sbox_index(s@, n as int)],
{
    let boxes: [u8; 512] = DES_SBOX;
    let row: usize = 2 * (value(s[6 * n]) as usize) + (value(s[6 * n + 5]) as usize);
    let col: usize = 8 * (value(s[6 * n + 1]) as usize) + 4 * (value(s[6 * n + 2]) as usize) + 2 * (value(
        s[6 * n + 3],
    ) as usize) + (value(s[6 * n + 4]) as usize);
    boxes[64 * n + 16 * row + col]
}

fn substitute(s: &[bool]) -> (r: Vec<bool>)
    requires
        s@.len() == 48,
    ensures
        r@ == sboxes(s@),
{
    let mut r: Vec<bool> = Vec::new();
    let mut n: usize = 0;
    while n < 8
        invariant
            s@.len() == 48,
            n <= 8,
            r@.len() == 4 * n,
            forall|k: int| 0 <= k < 4 * n ==> r@[k] == #[trigger] sboxes(s@)[k],
        decreases 8 - n,
    {
        let v: u8 = look_up(s, n);
        let ghost before = r@;
        r.push((v / 8) % 2 == 1);
        r.push((v / 4) % 2 == 1);
        r.push((v / 2) % 2 == 1);
        r.push(v % 2 == 1);
        assert forall|k: int| 0 <= k < 4 * (n + 1) implies r@[k] == #[trigger] sboxes(s@)[k] by {
            if k < 4 * n {
                assert(r@[k] == before[k]);
            } else {
                assert(k / 4 == n);
                assert(k % 4 == k - 4 * n);
            }
        }
        n += 1;
    }
    assert(r@ =~= sboxes(s@));
    r
}

fn round_function(r: &[bool], key: &[bool]) -> (out: Vec<bool>)
    ensures
        out@ == des_f(r@, key@),
{
    let e: [u8; 48] = DES_E;
    let p: [u8; 32] = DES_P;
    let x = permute(r, e.as_slice());
    let y = difference(x.as_slice(), key);
    let z = substitute(y.as_slice());
    permute(z.as_slice(), p.as_slice())
}

/// The contents of a list of bit strings.
spec fn deep(v: Seq<Vec<bool>>) -> Seq<Seq<bool>> {
    Seq::new(v.len(), |i: int| v[i]@)
}

fn des_block(block: &[u8], keys: &Vec<Vec<bool>>) -> (out: Vec<u8>)
    requires
        block@.len() == 8,
        keys@.len() == 16,
    ensures
        out@ == des_block_spec(block@, deep(keys@)),
{
    let ipt: [u8; 64] = DES_IP;
    let fpt: [u8; 64] = DES_FP;
    let bits = bytes_to_bits(block);
    let ip = permute(bits.as_slice(), ipt.as_slice());
    let ghost l0 = ip@.subrange(0, 32);
    let ghost r0 = ip@.subrange(32, 64);
    let mut l: Vec<bool> = bits_range(ip.as_slice(), 0, 32);
    let mut r: Vec<bool> = bits_range(ip.as_slice(), 32, 64);
    let mut n: usize = 0;
    while n < 16
        invariant
            n <= 16,
            keys@.len() == 16,
            (l@, r@) == des_rounds(l0, r0, deep(keys@), n as int),
        decreases 16 - n,
    {
        let f = round_function(r.as_slice(), keys[n].as_slice());
        let x = difference(l.as_slice(), f.as_slice());
        l = r;
        r = x;
        n += 1;
    }
    let mut pre: Vec<bool> = r;
    pre.append(&mut l);
    let outbits = permute(pre.as_slice(), fpt.as_slice());
    bits_to_bytes(outbits.as_slice())
}

fn bits_range(s: &[bool], lo: usize, hi: usize) -> (r: Vec<bool>)
    requires
        lo <= hi <= s@.len(),
    ensures
        r@ == s@.subrange(lo as int, hi as int),
{
    let mut r: Vec<bool> = Vec::new();
    let mut i: usize = lo;
    while i < hi
        invariant
            lo <= i <= hi <= s@.len(),
            r@ == s@.subrange(lo as int, i as int),
        decreases hi - i,
    {
        r.push(s[i]);
        i += 1;
        assert(r@ =~= s@.subrange(lo as int, i as int));
    }
    r
}

fn turn(s: Vec<bool>, n: usize) -> (r: Vec<bool>)
    requires
        n <= s@.len(),
    ensures
        r@ == rotated(s@, n as int),
        r@.len() == s@.len(),
{
    let mut r = bits_range(s.as_slice(), n, s.len());
    let mut front = bits_range(s.as_slice(), 0, n);
    r.append(&mut front);
    r
}

fn spread_key(key: &[u8]) -> (r: Vec<bool>)
    requires
        key@.len() == 7,
    ensures
        r@ == key_register(key@),
{
    let all = bytes_to_bits(key);
    let mut r: Vec<bool> = Vec::new();
    let mut i: usize = 0;
    while i < 64
        invariant
            i <= 64,
            key@.len() == 7,
            all@ == bits_of(key@),
            r@.len() == i,
            forall|k: int| 0 <= k < i ==> r@[k] == key_register(key@)[k],
        decreases 64 - i,
    {
        if i % 8 == 7 {
            r.push(false);
        } else {
            r.push(all[7 * (i / 8) + i % 8]);
        }
        i += 1;
    }
    assert(r@ =~= key_register(key@));
    r
}

/// DES of one block under a seven-byte key.
fn des_encrypt_key(key: &[u8], block: &[u8]) -> (out: Vec<u8>)
    requires
        key@.len() == 7,
        block@.len() == 8,
    ensures
        out@ == des_spec(key@, block@),
{
    let pc1: [u8; 56] = DES_PC1;
    let pc2: [u8; 48] = DES_PC2;
    let all = spread_key(key);
    let k = permute(all.as_slice(), pc1.as_slice());
    let ghost c0 = k@.subrange(0, 28);
    let ghost d0 = k@.subrange(28, 56);
    let mut cl: Vec<bool> = bits_range(k.as_slice(), 0, 28);
    let mut cr: Vec<bool> = bits_range(k.as_slice(), 28, 56);
    let mut keys: Vec<Vec<bool>> = Vec::new();
    let mut n: usize = 0;
    while n < 16
        invariant
            n <= 16,
            keys@.len() == n,
            pc2 == DES_PC2,
            c0 == k@.subrange(0, 28),
            d0 == k@.subrange(28, 56),
            k@ == pick(key_register(key@), DES_PC1@),
            cl@.len() == 28,
            cr@.len() == 28,
            cl@ == key_half(c0, n as int),
            cr@ == key_half(d0, n as int),
            forall|i: int| 0 <= i < n ==> (#[trigger] keys@[i])@ == des_keys(key@)[i],
        decreases 16 - n,
    {
        let s: usize = if n == 0 || n == 1 || n == 8 || n == 15 {
            1
        } else {
            2
        };
        cl = turn(cl, s);
        cr = turn(cr, s);
        let mut both: Vec<bool> = bits_range(cl.as_slice(), 0, 28);
        let mut right: Vec<bool> = bits_range(cr.as_slice(), 0, 28);
        both.append(&mut right);
        assert(both@ =~= cl@ + cr@);
        let sub = permute(both.as_slice(), pc2.as_slice());
        keys.push(sub);
        n += 1;
    }
    assert(deep(keys@) =~= des_keys(key@));
    des_block(block, &keys)
}

/// NTLMv1 response: the challenge under the three seven-byte thirds of the
/// expanded hash.
pub open spec fn ntlmv1_spec(hash21: Seq<u8>, challenge: Seq<u8>) -> Seq<u8> {
    des_spec(hash21.subrange(0, 7), challenge) + des_spec(hash21.subrange(7, 14), challenge) + des_spec(
        hash21.subrange(14, 21),
        challenge,
    )
}

/// Each of the three blocks of an NTLMv1 response is the challenge under its own third of
/// the hash, and depends on nothing else: equal thirds, wherever they stand, give equal
/// blocks.
pub proof fn law_response_blocks(hash: Seq<u8>, other: Seq<u8>, challenge: Seq<u8>, i: int, j: int)
    requires
        hash.len() == 21,
        other.len() == 21,
        challenge.len() == 8,
        0 <= i < 3,
        0 <= j < 3,
    ensures
        ({
            let a = ntlmv1_spec(hash, challenge);
            let b = ntlmv1_spec(other, challenge);
            &&& a.len() == 24
            &&& a.subrange(8 * i, 8 * i + 8) == des_spec(hash.subrange(7 * i, 7 * i + 7), challenge)
            &&& other.subrange(7 * j, 7 * j + 7) == hash.subrange(7 * i, 7 * i + 7) ==> b.subrange(8 * j, 8 * j + 8)
                == a.subrange(8 * i, 8 * i + 8)
        }),
{
    lemma_response_block(hash, challenge, i);
    lemma_response_block(other, challenge, j);
}

proof fn lemma_response_block(hash: Seq<u8>, challenge: Seq<u8>, i: int)
    requires
        hash.len() == 21,
        challenge.len() == 8,
        0 <= i < 3,
    ensures
        ntlmv1_spec(hash, challenge).len() == 24,
        ntlmv1_spec(hash, challenge).subrange(8 * i, 8 * i + 8) == des_spec(hash.subrange(7 * i, 7 * i + 7), challenge),
{
    let a = des_spec(hash.subrange(0, 7), challenge);
    let b = des_spec(hash.subrange(7, 14), challenge);
    let c = des_spec(hash.subrange(14, 21), challenge);
    assert(a.len() == 8 && b.len() == 8 && c.len() == 8);
    let r = ntlmv1_spec(hash, challenge);
    assert(r =~= a + b + c);
    if i == 0 {
        assert(r.subrange(0, 8) =~= a);
    } else if i == 1 {
        assert(r.subrange(8, 16) =~= b);
    } else {
        assert(r.subrange(16, 24) =~= c);
    }
}

/// NTLMv1 LM/NT response.
pub fn ntlmv1_response(hash21: &[u8; 21], challenge: &[u8; 8]) -> (out: [u8; 24])
    ensures
        out@ == ntlmv1_spec(hash21@, challenge@),
{
    let h = hash21.as_slice();
    let c = challenge.as_slice();
    let mut v: Vec<u8> = des_encrypt_key(slice_subrange(h, 0, 7), c);
    let b = des_encrypt_key(slice_subrange(h, 7, 14), c);
    let d = des_encrypt_key(slice_subrange(h, 14, 21), c);
    put_bytes(&mut v, b.as_slice());
    put_bytes(&mut v, d.as_slice());
    let mut out: [u8; 24] = [0u8; 24];
    let mut i: usize = 0;
    while i < 24
        invariant
            i <= 24,
            v@.len() == 24,
            forall|k: int| 0 <= k < i ==> out@[k] == v@[k],
        decreases 24 - i,
    {
        out[i] = v[i];
        i += 1;
    }
    assert(out@ =~= v@);
    out
}

} // verus!
