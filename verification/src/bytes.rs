//! Little-endian byte primitives shared by every wire format in the crate.
use vstd::prelude::*;
use vstd::slice::slice_subrange;

verus! {

/// The two bytes of `v`, least significant first.
pub open spec fn le16(v: u16) -> Seq<u8> {
    seq![(v % 256) as u8, (v / 256) as u8]
}

/// The four bytes of `v`, least significant first.
pub open spec fn le32(v: u32) -> Seq<u8> {
    seq![
        (v % 256) as u8,
        ((v / 256) % 256) as u8,
        ((v / 65536) % 256) as u8,
        (v / 16777216) as u8,
    ]
}

/// The eight bytes of `v`, least significant first.
pub open spec fn le64(v: u64) -> Seq<u8> {
    le32((v % 4294967296) as u32) + le32((v / 4294967296) as u32)
}

/// The byte of `s` at `i`, or zero past the end.
pub open spec fn byte_at(s: Seq<u8>, i: int) -> u8 {
    if 0 <= i < s.len() {
        s[i]
    } else {
        0
    }
}

/// The little-endian 16-bit integer at offset `i`, missing bytes read as zero.
pub open spec fn u16_at(s: Seq<u8>, i: int) -> u16 {
    (byte_at(s, i) + 256 * byte_at(s, i + 1)) as u16
}

/// The little-endian 32-bit integer at offset `i`, missing bytes read as zero.
pub open spec fn u32_at(s: Seq<u8>, i: int) -> u32 {
    (u16_at(s, i) + 65536 * u16_at(s, i + 2)) as u32
}

/// The little-endian 64-bit integer at offset `i`, missing bytes read as zero.
pub open spec fn u64_at(s: Seq<u8>, i: int) -> u64 {
    (u32_at(s, i) + 4294967296 * u32_at(s, i + 4)) as u64
}

/// `n` zero bytes.
pub open spec fn zeros(n: nat) -> Seq<u8> {
    Seq::new(n, |i: int| 0u8)
}

/// `s` with the bytes from `at` on replaced by `patch`.
pub open spec fn patched(s: Seq<u8>, at: int, patch: Seq<u8>) -> Seq<u8> {
    Seq::new(s.len(), |i: int| if at <= i < at + patch.len() { patch[i - at] } else { s[i] })
}

/// Whether `pat` stands in `s` at `i`.
pub open spec fn stands_at(s: Seq<u8>, pat: Seq<u8>, i: int) -> bool {
    0 <= i && i + pat.len() <= s.len() && s.subrange(i, i + pat.len()) == pat
}

/// A 16-bit integer is read back from where it was written.
pub proof fn lemma_u16_round_trip(pre: Seq<u8>, v: u16, post: Seq<u8>)
    ensures
        u16_at(pre + le16(v) + post, pre.len() as int) == v,
{
    let s = pre + le16(v) + post;
    assert(s[pre.len() as int] == le16(v)[0]);
    assert(s[pre.len() as int + 1] == le16(v)[1]);
}

/// A 32-bit integer is read back from where it was written.
pub proof fn lemma_u32_round_trip(pre: Seq<u8>, v: u32, post: Seq<u8>)
    ensures
        u32_at(pre + le32(v) + post, pre.len() as int) == v,
{
    let s = pre + le32(v) + post;
    let n = pre.len() as int;
    assert(s[n] == le32(v)[0]);
    assert(s[n + 1] == le32(v)[1]);
    assert(s[n + 2] == le32(v)[2]);
    assert(s[n + 3] == le32(v)[3]);
}

/// A 64-bit integer is read back from where it was written.
pub proof fn lemma_u64_round_trip(pre: Seq<u8>, v: u64, post: Seq<u8>)
    ensures
        u64_at(pre + le64(v) + post, pre.len() as int) == v,
{
    let lo = (v % 4294967296) as u32;
    let hi = (v / 4294967296) as u32;
    let s = pre + le64(v) + post;
    lemma_u32_round_trip(pre, lo, le32(hi) + post);
    lemma_u32_round_trip(pre + le32(lo), hi, post);
    assert(pre + le32(lo) + (le32(hi) + post) =~= s);
    assert(pre + le32(lo) + le32(hi) + post =~= s);
}

/// Appends `src` to `dst`.
pub fn put_bytes(dst: &mut Vec<u8>, src: &[u8])
    ensures
        final(dst)@ == old(dst)@ + src@,
{
    dst.extend_from_slice(src);
    assert(dst@ =~= old(dst)@ + src@);
}

/// Appends one byte.
pub fn put_u8(dst: &mut Vec<u8>, v: u8)
    ensures
        final(dst)@ == old(dst)@ + seq![v],
{
    dst.push(v);
    assert(dst@ =~= old(dst)@ + seq![v]);
}

/// Appends the two bytes of `v`.
pub fn put_u16(dst: &mut Vec<u8>, v: u16)
    ensures
        final(dst)@ == old(dst)@ + le16(v),
{
    dst.push((v % 256) as u8);
    dst.push((v / 256) as u8);
    assert(dst@ =~= old(dst)@ + le16(v));
}

/// Appends the four bytes of `v`.
pub fn put_u32(dst: &mut Vec<u8>, v: u32)
    ensures
        final(dst)@ == old(dst)@ + le32(v),
{
    dst.push((v % 256) as u8);
    dst.push(((v / 256) % 256) as u8);
    dst.push(((v / 65536) % 256) as u8);
    dst.push((v / 16777216) as u8);
    assert(dst@ =~= old(dst)@ + le32(v));
}

/// Appends the eight bytes of `v`.
pub fn put_u64(dst: &mut Vec<u8>, v: u64)
    ensures
        final(dst)@ == old(dst)@ + le64(v),
{
    put_u32(dst, (v % 4294967296) as u32);
    put_u32(dst, (v / 4294967296) as u32);
    assert(dst@ =~= old(dst)@ + le64(v));
}

/// Appends `n` zero bytes.
pub fn put_zeros(dst: &mut Vec<u8>, n: usize)
    ensures
        final(dst)@ == old(dst)@ + zeros(n as nat),
{
    let mut i: usize = 0;
    while i < n
        invariant
            i <= n,
            dst@ == old(dst)@ + zeros(i as nat),
        decreases n - i,
    {
        dst.push(0);
        i += 1;
        assert(dst@ =~= old(dst)@ + zeros(i as nat));
    }
}

/// Reads the byte at `i`, zero past the end.
pub fn get_u8(s: &[u8], i: usize) -> (v: u8)
    ensures
        v == byte_at(s@, i as int),
{
    if i < s.len() {
        s[i]
    } else {
        0
    }
}

/// Reads the 16-bit integer at `i`, missing bytes as zero.
pub fn get_u16(s: &[u8], i: usize) -> (v: u16)
    requires
        i < usize::MAX,
    ensures
        v == u16_at(s@, i as int),
{
    get_u8(s, i) as u16 + 256 * (get_u8(s, i + 1) as u16)
}

/// Reads the 32-bit integer at `i`, missing bytes as zero.
pub fn get_u32(s: &[u8], i: usize) -> (v: u32)
    requires
        i < usize::MAX - 2,
    ensures
        v == u32_at(s@, i as int),
{
    get_u16(s, i) as u32 + 65536 * (get_u16(s, i + 2) as u32)
}

/// Reads the 64-bit integer at `i`, missing bytes as zero.
pub fn get_u64(s: &[u8], i: usize) -> (v: u64)
    requires
        i < usize::MAX - 6,
    ensures
        v == u64_at(s@, i as int),
{
    get_u32(s, i) as u64 + 4294967296 * (get_u32(s, i + 4) as u64)
}

/// A copy of the bytes from `lo` up to `hi`.
pub fn copy_range(s: &[u8], lo: usize, hi: usize) -> (v: Vec<u8>)
    requires
        lo <= hi <= s@.len(),
    ensures
        v@ == s@.subrange(lo as int, hi as int),
{
    let mut v: Vec<u8> = Vec::new();
    put_bytes(&mut v, slice_subrange(s, lo, hi));
    assert(v@ =~= s@.subrange(lo as int, hi as int));
    v
}

/// A copy of all bytes of `s`.
pub fn copy_all(s: &[u8]) -> (v: Vec<u8>)
    ensures
        v@ == s@,
{
    let mut v: Vec<u8> = Vec::new();
    put_bytes(&mut v, s);
    assert(v@ =~= s@);
    v
}

/// Whether two byte strings are the same.
pub fn same_bytes(a: &[u8], b: &[u8]) -> (same: bool)
    ensures
        same == (a@ == b@),
{
    if a.len() != b.len() {
        return false;
    }
    let mut i: usize = 0;
    while i < a.len()
        invariant
            i <= a@.len(),
            a@.len() == b@.len(),
            forall|k: int| 0 <= k < i ==> a@[k] == b@[k],
        decreases a@.len() - i,
    {
        if a[i] != b[i] {
            return false;
        }
        i += 1;
    }
    assert(a@ =~= b@);
    true
}

/// Whether `pat` stands in `s` at offset `i`.
pub fn matches_at(s: &[u8], pat: &[u8], i: usize) -> (yes: bool)
    ensures
        yes == stands_at(s@, pat@, i as int),
{
    if i > s.len() || pat.len() > s.len() - i {
        return false;
    }
    same_bytes(slice_subrange(s, i, i + pat.len()), pat)
}

/// The first offset at which `pat` stands in `s`.
pub fn find_bytes(s: &[u8], pat: &[u8]) -> (at: Option<usize>)
    ensures
        match at {
            Some(i) => stands_at(s@, pat@, i as int) && forall|k: int|
                0 <= k < i ==> !stands_at(s@, pat@, k),
            None => forall|k: int| !stands_at(s@, pat@, k),
        },
{
    if pat.len() > s.len() {
        return None;
    }
    let last: usize = s.len() - pat.len();
    let mut i: usize = 0;
    while i <= last
        invariant
            last == s@.len() - pat@.len(),
            i <= last + 1,
            forall|k: int| 0 <= k < i ==> !stands_at(s@, pat@, k),
        decreases last + 1 - i,
    {
        if matches_at(s, pat, i) {
            return Some(i);
        }
        if i == last {
            return None;
        }
        i += 1;
    }
    None
}

/// Overwrites the bytes of `buf` from `at` on with `patch`.
pub fn put_at(buf: &mut Vec<u8>, at: usize, patch: &[u8])
    requires
        at + patch@.len() <= old(buf)@.len(),
    ensures
        final(buf)@ == patched(old(buf)@, at as int, patch@),
{
    let n: usize = buf.len();
    let mut i: usize = 0;
    while i < patch.len()
        invariant
            i <= patch@.len(),
            buf@.len() == n,
            at + patch@.len() <= n,
            buf@ == patched(old(buf)@, at as int, patch@.take(i as int)),
        decreases patch@.len() - i,
    {
        buf.set(at + i, patch[i]);
        i += 1;
        assert(buf@ =~= patched(old(buf)@, at as int, patch@.take(i as int)));
    }
    assert(patch@.take(i as int) =~= patch@);
    assert(buf@ =~= patched(old(buf)@, at as int, patch@));
}

/// The value of the `n` bytes from `at` on, least significant first.
pub open spec fn little(s: Seq<u8>, at: int, n: nat) -> int
    decreases n,
{
    if n == 0 {
        0
    } else {
        s[at] + 256 * little(s, at + 1, (n - 1) as nat)
    }
}

/// What is read at an offset is the value of the bytes there.
pub proof fn lemma_little(s: Seq<u8>, at: int)
    requires
        0 <= at,
    ensures
        at + 2 <= s.len() ==> u16_at(s, at) == little(s, at, 2),
        at + 4 <= s.len() ==> u32_at(s, at) == little(s, at, 4),
        at + 8 <= s.len() ==> u64_at(s, at) == little(s, at, 8),
{
    reveal_with_fuel(little, 9);
}

/// What is written at the end of `pre` has its value there.
pub proof fn lemma_little_written(pre: Seq<u8>, a: u16, b: u32, c: u64, post: Seq<u8>)
    ensures
        little(pre + le16(a) + post, pre.len() as int, 2) == a,
        little(pre + le32(b) + post, pre.len() as int, 4) == b,
        little(pre + le64(c) + post, pre.len() as int, 8) == c,
{
    lemma_u16_round_trip(pre, a, post);
    lemma_u32_round_trip(pre, b, post);
    lemma_u64_round_trip(pre, c, post);
    lemma_little(pre + le16(a) + post, pre.len() as int);
    lemma_little(pre + le32(b) + post, pre.len() as int);
    lemma_little(pre + le64(c) + post, pre.len() as int);
}

/// Integers are written with their least significant byte first.
pub proof fn law_integers_are_little_endian(a: u16, b: u32, c: u64)
    ensures
        le16(a).len() == 2 && little(le16(a), 0, 2) == a,
        le32(b).len() == 4 && little(le32(b), 0, 4) == b,
        le64(c).len() == 8 && little(le64(c), 0, 8) == c,
{
    let e = Seq::<u8>::empty();
    lemma_little_written(e, a, b, c, e);
    assert(e + le16(a) + e =~= le16(a));
    assert(e + le32(b) + e =~= le32(b));
    assert(e + le64(c) + e =~= le64(c));
}

/// The value of bytes does not depend on what stands behind them.
pub proof fn lemma_little_front(s: Seq<u8>, rest: Seq<u8>, at: int, n: nat)
    requires
        0 <= at,
        at + n <= s.len(),
    ensures
        little(s + rest, at, n) == little(s, at, n),
    decreases n,
{
    if n > 0 {
        assert((s + rest)[at] == s[at]);
        lemma_little_front(s, rest, at + 1, (n - 1) as nat);
    }
}

} // verus!
