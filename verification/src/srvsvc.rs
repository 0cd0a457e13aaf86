//! The server service over a named pipe: reassembly of DCERPC requests, and the
//! list of shares as answer to NetShareEnumAll.
use std::collections::VecDeque;
use ms_ndr::NdrEncoder;
use vstd::prelude::*;
use vstd::slice::slice_subrange;
use crate::bytes::{copy_all, get_u16, get_u32, le16, le32, put_bytes, put_u16, put_u32, put_u8, put_zeros, u16_at, u32_at, zeros};
use crate::text::{law_text_round_trip, lowercase, to_lowercase, units_of, utf16, utf16_bytes, utf16_lossy};
use crate::trans2::{low16, low32};

verus! {

/// One advertised share for NetShareEnum level 1.
#[derive(Debug)]
pub struct ShareInfo {
    pub netname: String,
    pub shi_type: u32,
    pub remark: String,
}

// ---------------- NDR ----------------

/// `ms_ndr::NdrEncoder`, a growing stub buffer.
#[verifier::external_type_specification]
#[verifier::external_body]
pub struct ExNdrEncoder(NdrEncoder);

/// The bytes in an encoder.
pub uninterp spec fn ndr_bytes(e: NdrEncoder) -> Seq<u8>;

/// The id that an encoder gives to its next pointer.
pub uninterp spec fn ndr_next(e: NdrEncoder) -> u32;

/// The id of the first pointer in a stub.
pub const FIRST_REFERENT: u32 = 0x0002_0000;

/// `s` filled up with zeros to whole four bytes.
pub open spec fn aligned4(s: Seq<u8>) -> Seq<u8> {
    s + zeros(((4 - s.len() as int % 4) % 4) as nat)
}

/// `s` with an aligned 32-bit integer behind it.
#[verifier::opaque]
pub open spec fn with_u32(s: Seq<u8>, v: u32) -> Seq<u8> {
    aligned4(s) + le32(v)
}

/// How many units a string has, its terminator counted.
pub open spec fn wstr_units(t: Seq<char>) -> u32 {
    low32(utf16(t).len() as int + 1)
}

/// `s` with a conformant varying string behind it: room, offset, length, units
/// and terminator.
pub open spec fn with_wstr(s: Seq<u8>, t: Seq<char>) -> Seq<u8> {
    with_u32(with_u32(with_u32(s, wstr_units(t)), 0), wstr_units(t)) + utf16_bytes(t) + le16(0)
}

/// `NdrEncoder::new`: an empty stub.
#[verifier::external_body]
fn ndr_new() -> (e: NdrEncoder)
    ensures
        ndr_bytes(e) == Seq::<u8>::empty(),
        ndr_next(e) == FIRST_REFERENT,
{
    NdrEncoder::new()
}

/// `NdrEncoder::u32`: appends a 32-bit integer, little-endian, at the next multiple
/// of four.
#[verifier::external_body]
fn ndr_u32(e: &mut NdrEncoder, v: u32)
    ensures
        ndr_bytes(*final(e)) == with_u32(ndr_bytes(*old(e)), v),
        ndr_next(*final(e)) == ndr_next(*old(e)),
{
    e.u32(v);
}

/// `NdrEncoder::referent`: appends a fresh pointer id; ids grow by four.
#[verifier::external_body]
fn ndr_referent(e: &mut NdrEncoder) -> (id: u32)
    requires
        ndr_next(*old(e)) + 4 <= u32::MAX,
    ensures
        id == ndr_next(*old(e)),
        ndr_bytes(*final(e)) == with_u32(ndr_bytes(*old(e)), id),
        ndr_next(*final(e)) == id + 4,
{
    e.referent()
}

/// `NdrEncoder::conformant_varying_wstr`: appends a string with its counts and
/// terminator.
#[verifier::external_body]
fn ndr_wstr(e: &mut NdrEncoder, s: &str)
    ensures
        ndr_bytes(*final(e)) == with_wstr(ndr_bytes(*old(e)), s@),
        ndr_next(*final(e)) == ndr_next(*old(e)),
{
    e.conformant_varying_wstr(s);
}

/// `NdrEncoder::into_bytes`: the stub.
#[verifier::external_body]
fn ndr_into_bytes(e: NdrEncoder) -> (b: Vec<u8>)
    ensures
        b@ == ndr_bytes(e),
{
    e.into_bytes()
}

/// The id of pointer `k` of a stub.
pub open spec fn referent(k: int) -> u32 {
    (FIRST_REFERENT + 4 * k) as u32
}

/// `s` with the fixed parts of the first `n` shares behind it: name pointer, type
/// and remark pointer.
pub open spec fn with_fixed(s: Seq<u8>, shares: Seq<ShareInfo>, n: int) -> Seq<u8>
    decreases n,
{
    if n <= 0 {
        s
    } else {
        with_u32(
            with_u32(with_u32(with_fixed(s, shares, n - 1), referent(2 * n)), shares[n - 1].shi_type),
            referent(2 * n + 1),
        )
    }
}

/// `s` with names and remarks of the first `n` shares behind it.
pub open spec fn with_strings(s: Seq<u8>, shares: Seq<ShareInfo>, n: int) -> Seq<u8>
    decreases n,
{
    if n <= 0 {
        s
    } else {
        with_wstr(with_wstr(with_strings(s, shares, n - 1), shares[n - 1].netname@), shares[n - 1].remark@)
    }
}

/// The head of a share list of `n` entries: level, union switch, container
/// pointer, count, array pointer and room.
pub open spec fn stub_head(n: u32) -> Seq<u8> {
    with_u32(
        with_u32(with_u32(with_u32(with_u32(with_u32(Seq::empty(), 1), 1), referent(0)), n), referent(1)),
        n,
    )
}

/// The stub of a NetShareEnumAll response at level 1. The strings stand behind all
/// fixed parts, in the order of their pointers; total, resume handle and return
/// code come last.
pub open spec fn stub_bytes(shares: Seq<ShareInfo>) -> Seq<u8> {
    let n = shares.len() as int;
    let body = with_strings(with_fixed(stub_head(n as u32), shares, n), shares, n);
    with_u32(with_u32(with_u32(with_u32(body, n as u32), referent(2 * n + 2)), 0), 0)
}

/// Builds the stub of a NetShareEnumAll response at level 1.
pub fn netshareenum_stub(shares: &[ShareInfo]) -> (b: Vec<u8>)
    requires
        shares@.len() < 0x1000_0000,
    ensures
        b@ == stub_bytes(shares@),
{
    let n: u32 = shares.len() as u32;
    let mut e = ndr_new();
    ndr_u32(&mut e, 1);
    ndr_u32(&mut e, 1);
    let _ = ndr_referent(&mut e);
    ndr_u32(&mut e, n);
    let _ = ndr_referent(&mut e);
    ndr_u32(&mut e, n);
    let ghost head = ndr_bytes(e);
    assert(head == stub_head(n));
    let mut i: usize = 0;
    while i < shares.len()
        invariant
            i <= shares@.len() < 0x1000_0000,
            ndr_bytes(e) == with_fixed(head, shares@, i as int),
            ndr_next(e) == FIRST_REFERENT + 8 + 8 * i,
        decreases shares@.len() - i,
    {
        let _ = ndr_referent(&mut e);
        ndr_u32(&mut e, shares[i].shi_type);
        let _ = ndr_referent(&mut e);
        i += 1;
    }
    let ghost fixed = ndr_bytes(e);
    i = 0;
    while i < shares.len()
        invariant
            i <= shares@.len() < 0x1000_0000,
            ndr_bytes(e) == with_strings(fixed, shares@, i as int),
            ndr_next(e) == FIRST_REFERENT + 8 + 8 * shares@.len(),
        decreases shares@.len() - i,
    {
        ndr_wstr(&mut e, shares[i].netname.as_str());
        ndr_wstr(&mut e, shares[i].remark.as_str());
        i += 1;
    }
    ndr_u32(&mut e, n);
    let _ = ndr_referent(&mut e);
    ndr_u32(&mut e, 0);
    ndr_u32(&mut e, 0);
    ndr_into_bytes(e)
}

/// Every pointer of a share list has an id of its own, and none is null.
pub proof fn law_referents_distinct(i: int, j: int)
    requires
        0 <= i < 0x3000_0000,
        0 <= j < 0x3000_0000,
    ensures
        referent(i) != 0,
        i != j ==> referent(i) != referent(j),
{
}

/// A share list is a whole number of four-byte units long.
pub proof fn law_stub_aligned(shares: Seq<ShareInfo>)
    ensures
        stub_bytes(shares).len() % 4 == 0,
{
    let n = shares.len() as int;
    let body = with_strings(with_fixed(stub_head(n as u32), shares, n), shares, n);
    lemma_u32_aligned(with_u32(with_u32(with_u32(body, n as u32), referent(2 * n + 2)), 0), 0);
}

proof fn lemma_u32_aligned(s: Seq<u8>, v: u32)
    ensures
        with_u32(s, v).len() % 4 == 0,
{
    reveal(with_u32);
}

// ---------------- reading a stub ----------------

/// The aligned 32-bit integer at `p` of a stub, and what stands behind it.
pub open spec fn read_u32(b: Seq<u8>, p: int) -> Option<(u32, int)> {
    let q = p + (4 - p % 4) % 4;
    if q + 4 <= b.len() {
        Some((u32_at(b, q), q + 4))
    } else {
        None
    }
}

/// The conformant varying string at `p` of a stub: its counts agree, it starts at its
/// beginning and ends with a zero unit.
pub open spec fn read_wstr(b: Seq<u8>, p: int) -> Option<(Seq<char>, int)> {
    match read_u32(b, p) {
        None => None,
        Some((room, p1)) => match read_u32(b, p1) {
            None => None,
            Some((offset, p2)) => match read_u32(b, p2) {
                None => None,
                Some((n, p3)) => if room != n || offset != 0 || n == 0 || p3 + 2 * n > b.len() || u16_at(
                    b,
                    p3 + 2 * (n - 1),
                ) != 0 {
                    None
                } else {
                    Some((utf16_lossy(units_of(b.subrange(p3, p3 + 2 * (n - 1)))), p3 + 2 * n))
                },
            },
        },
    }
}

/// The fixed part of an entry: name pointer, type and remark pointer.
pub struct FixedPart {
    pub name: u32,
    pub shi_type: u32,
    pub remark: u32,
}

/// The fixed parts of `n` entries at `p` of a stub.
pub open spec fn read_fixed(b: Seq<u8>, p: int, n: int) -> Option<(Seq<FixedPart>, int)>
    decreases n,
{
    if n <= 0 {
        Some((Seq::empty(), p))
    } else {
        match read_fixed(b, p, n - 1) {
            None => None,
            Some((v, p0)) => match read_u32(b, p0) {
                None => None,
                Some((name, p1)) => match read_u32(b, p1) {
                    None => None,
                    Some((shi_type, p2)) => match read_u32(b, p2) {
                        None => None,
                        Some((remark, p3)) => Some((v.push(FixedPart { name, shi_type, remark }), p3)),
                    },
                },
            },
        }
    }
}

/// Names and remarks of `n` entries at `p` of a stub.
pub open spec fn read_strings(b: Seq<u8>, p: int, n: int) -> Option<(Seq<(Seq<char>, Seq<char>)>, int)>
    decreases n,
{
    if n <= 0 {
        Some((Seq::empty(), p))
    } else {
        match read_strings(b, p, n - 1) {
            None => None,
            Some((v, p0)) => match read_wstr(b, p0) {
                None => None,
                Some((name, p1)) => match read_wstr(b, p1) {
                    None => None,
                    Some((remark, p2)) => Some((v.push((name, remark)), p2)),
                },
            },
        }
    }
}

/// `n` integers at `p` of a stub.
pub open spec fn read_u32s(b: Seq<u8>, p: int, n: int) -> Option<(Seq<u32>, int)>
    decreases n,
{
    if n <= 0 {
        Some((Seq::empty(), p))
    } else {
        match read_u32s(b, p, n - 1) {
            None => None,
            Some((v, q)) => match read_u32(b, q) {
                None => None,
                Some((x, next)) => Some((v.push(x), next)),
            },
        }
    }
}

/// What a stub of a share list says.
pub struct ShareList {
    /// Level, union switch, container pointer, count, array pointer and room.
    pub head: Seq<u32>,
    pub fixed: Seq<FixedPart>,
    /// Names and remarks.
    pub strings: Seq<(Seq<char>, Seq<char>)>,
    /// Total, resume pointer, resume handle and return code.
    pub tail: Seq<u32>,
    /// How many bytes were read.
    pub end: int,
}

/// Reads a stub of a share list.
pub open spec fn read_stub(b: Seq<u8>) -> Option<ShareList> {
    match read_u32s(b, 0, 6) {
        None => None,
        Some((head, p1)) => match read_fixed(b, p1, head[5] as int) {
            None => None,
            Some((fixed, p2)) => match read_strings(b, p2, head[5] as int) {
                None => None,
                Some((strings, p3)) => match read_u32s(b, p3, 4) {
                    None => None,
                    Some((tail, end)) => Some(ShareList { head, fixed, strings, tail, end }),
                },
            },
        },
    }
}

/// Whether the strings of a share fit the counts of a stub.
pub open spec fn strings_fit(s: ShareInfo) -> bool {
    utf16(s.netname@).len() < u32::MAX && utf16(s.remark@).len() < u32::MAX
}

proof fn lemma_prefix_u32(s: Seq<u8>, v: u32, b: Seq<u8>)
    requires
        with_u32(s, v).is_prefix_of(b),
    ensures
        s.is_prefix_of(b),
        read_u32(b, s.len() as int) == Some((v, with_u32(s, v).len() as int)),
{
    reveal(with_u32);
    let w = with_u32(s, v);
    let q = aligned4(s).len() as int;
    assert forall|k: int| 0 <= k < w.len() implies b[k] == w[k] by {
        assert(b.subrange(0, w.len() as int)[k] == b[k]);
    }
    assert(b.subrange(0, s.len() as int) =~= s) by {
        assert forall|k: int| 0 <= k < s.len() implies b[k] == s[k] by {
            assert(w[k] == s[k]);
        }
    }
    assert(q == s.len() + (4 - s.len() as int % 4) % 4);
    assert(w[q] == le32(v)[0] && w[q + 1] == le32(v)[1] && w[q + 2] == le32(v)[2] && w[q + 3] == le32(v)[3]);
    assert(u32_at(b, q) == v);
}

proof fn lemma_prefix_wstr(s: Seq<u8>, t: Seq<char>, b: Seq<u8>)
    requires
        with_wstr(s, t).is_prefix_of(b),
        utf16(t).len() < u32::MAX,
    ensures
        s.is_prefix_of(b),
        read_wstr(b, s.len() as int) == Some((t, with_wstr(s, t).len() as int)),
{
    let n = wstr_units(t);
    let a1 = with_u32(s, n);
    let a2 = with_u32(a1, 0);
    let a3 = with_u32(a2, n);
    let u = utf16_bytes(t);
    assert(u.len() == 2 * utf16(t).len());
    assert(with_wstr(s, t) == a3 + u + le16(0));
    lemma_prefix_append(a3 + u, le16(0), b);
    lemma_prefix_append(a3, u, b);
    lemma_prefix_u32(a2, n, b);
    lemma_prefix_u32(a1, 0, b);
    lemma_prefix_u32(s, n, b);
    let p3 = a3.len() as int;
    assert(n == utf16(t).len() + 1);
    assert(p3 + 2 * (n - 1) == (a3 + u).len());
    lemma_zero_unit(b, p3 + 2 * (n - 1));
    law_text_round_trip(t);
    lemma_wstr_parts(b, s.len() as int, a1.len() as int, a2.len() as int, p3, n, t);
}

proof fn lemma_wstr_parts(b: Seq<u8>, p: int, p1: int, p2: int, p3: int, n: u32, t: Seq<char>)
    requires
        read_u32(b, p) == Some((n, p1)),
        read_u32(b, p1) == Some((0u32, p2)),
        read_u32(b, p2) == Some((n, p3)),
        n > 0,
        p3 + 2 * n <= b.len(),
        u16_at(b, p3 + 2 * (n - 1)) == 0,
        utf16_lossy(units_of(b.subrange(p3, p3 + 2 * (n - 1)))) == t,
    ensures
        read_wstr(b, p) == Some((t, p3 + 2 * n)),
{
}

proof fn lemma_prefix_append(a: Seq<u8>, c: Seq<u8>, b: Seq<u8>)
    requires
        (a + c).is_prefix_of(b),
    ensures
        a.is_prefix_of(b),
        a.len() + c.len() <= b.len(),
        b.subrange(a.len() as int, (a.len() + c.len()) as int) == c,
{
    let w = a + c;
    assert forall|k: int| 0 <= k < w.len() implies b[k] == w[k] by {
        assert(b.subrange(0, w.len() as int)[k] == b[k]);
    }
    assert(b.subrange(0, a.len() as int) =~= a) by {
        assert forall|k: int| 0 <= k < a.len() implies b[k] == a[k] by {
            assert(w[k] == a[k]);
        }
    }
    assert(b.subrange(a.len() as int, (a.len() + c.len()) as int) =~= c) by {
        assert forall|k: int| 0 <= k < c.len() implies b[a.len() + k] == c[k] by {
            assert(w[a.len() + k] == c[k]);
        }
    }
}

proof fn lemma_zero_unit(b: Seq<u8>, p: int)
    requires
        0 <= p,
        p + 2 <= b.len(),
        b.subrange(p, p + 2) == le16(0),
    ensures
        u16_at(b, p) == 0,
{
    assert(b.subrange(p, p + 2)[0] == b[p]);
    assert(b.subrange(p, p + 2)[1] == b[p + 1]);
}

proof fn lemma_fixed_grows(s: Seq<u8>, shares: Seq<ShareInfo>, n: int, b: Seq<u8>)
    requires
        0 <= n <= shares.len(),
        with_fixed(s, shares, n).is_prefix_of(b),
    ensures
        s.is_prefix_of(b),
        read_fixed(b, s.len() as int, n) == Some(
            (fixed_parts(shares, n), with_fixed(s, shares, n).len() as int),
        ),
    decreases n,
{
    if n > 0 {
        let f0 = with_fixed(s, shares, n - 1);
        let f1 = with_u32(f0, referent(2 * n));
        let f2 = with_u32(f1, shares[n - 1].shi_type);
        lemma_prefix_u32(f2, referent(2 * n + 1), b);
        lemma_prefix_u32(f1, shares[n - 1].shi_type, b);
        lemma_prefix_u32(f0, referent(2 * n), b);
        lemma_fixed_grows(s, shares, n - 1, b);
        assert(fixed_parts(shares, n) =~= fixed_parts(shares, n - 1).push(
            FixedPart { name: referent(2 * n), shi_type: shares[n - 1].shi_type, remark: referent(2 * n + 1) },
        ));
    } else {
        assert(fixed_parts(shares, n) =~= Seq::<FixedPart>::empty());
    }
}

proof fn lemma_strings_grow(s: Seq<u8>, shares: Seq<ShareInfo>, n: int, b: Seq<u8>)
    requires
        0 <= n <= shares.len(),
        forall|i: int| 0 <= i < shares.len() ==> strings_fit(#[trigger] shares[i]),
        with_strings(s, shares, n).is_prefix_of(b),
    ensures
        s.is_prefix_of(b),
        read_strings(b, s.len() as int, n) == Some(
            (share_texts(shares, n), with_strings(s, shares, n).len() as int),
        ),
    decreases n,
{
    if n > 0 {
        assert(strings_fit(shares[n - 1]));
        let f0 = with_strings(s, shares, n - 1);
        let f1 = with_wstr(f0, shares[n - 1].netname@);
        lemma_prefix_wstr(f1, shares[n - 1].remark@, b);
        lemma_prefix_wstr(f0, shares[n - 1].netname@, b);
        lemma_strings_grow(s, shares, n - 1, b);
        assert(share_texts(shares, n) =~= share_texts(shares, n - 1).push(
            (shares[n - 1].netname@, shares[n - 1].remark@),
        ));
    } else {
        assert(share_texts(shares, n) =~= Seq::<(Seq<char>, Seq<char>)>::empty());
    }
}

/// The fixed parts of the first `n` shares.
pub open spec fn fixed_parts(shares: Seq<ShareInfo>, n: int) -> Seq<FixedPart> {
    Seq::new(
        n as nat,
        |i: int| FixedPart { name: referent(2 * i + 2), shi_type: shares[i].shi_type, remark: referent(2 * i + 3) },
    )
}

/// Names and remarks of the first `n` shares.
pub open spec fn share_texts(shares: Seq<ShareInfo>, n: int) -> Seq<(Seq<char>, Seq<char>)> {
    Seq::new(n as nat, |i: int| (shares[i].netname@, shares[i].remark@))
}

/// Reading a stub gives the shares back, in order, with level, counts and pointers where
/// they belong, and leaves nothing over.
#[verifier::rlimit(60)]
#[verifier::spinoff_prover]
pub proof fn law_stub_is_read_back(shares: Seq<ShareInfo>)
    requires
        shares.len() < 0x1000_0000,
        forall|i: int| 0 <= i < shares.len() ==> strings_fit(#[trigger] shares[i]),
    ensures
        ({
            let n = shares.len() as int;
            read_stub(stub_bytes(shares)) == Some(
                ShareList {
                    head: seq![1u32, 1u32, referent(0), n as u32, referent(1), n as u32],
                    fixed: fixed_parts(shares, n),
                    strings: share_texts(shares, n),
                    tail: seq![n as u32, referent(2 * n + 2), 0u32, 0u32],
                    end: stub_bytes(shares).len() as int,
                },
            )
        }),
{
    let n = shares.len() as int;
    let b = stub_bytes(shares);
    let head = stub_head(n as u32);
    let fixed = with_fixed(head, shares, n);
    let body = with_strings(fixed, shares, n);
    lemma_tail_read(body, n as u32, referent(2 * n + 2), b);
    lemma_strings_grow(fixed, shares, n, b);
    lemma_fixed_grows(head, shares, n, b);
    lemma_head_read(n as u32, b);
    let l = ShareList {
        head: seq![1u32, 1u32, referent(0), n as u32, referent(1), n as u32],
        fixed: fixed_parts(shares, n),
        strings: share_texts(shares, n),
        tail: seq![n as u32, referent(2 * n + 2), 0u32, 0u32],
        end: b.len() as int,
    };
    assert(l.head[5] == n);
    lemma_stub_parts(b, head.len() as int, fixed.len() as int, body.len() as int, l);
}

proof fn lemma_stub_parts(b: Seq<u8>, p1: int, p2: int, p3: int, l: ShareList)
    requires
        read_u32s(b, 0, 6) == Some((l.head, p1)),
        read_fixed(b, p1, l.head[5] as int) == Some((l.fixed, p2)),
        read_strings(b, p2, l.head[5] as int) == Some((l.strings, p3)),
        read_u32s(b, p3, 4) == Some((l.tail, l.end)),
    ensures
        read_stub(b) == Some(l),
{
    assert(l == ShareList { head: l.head, fixed: l.fixed, strings: l.strings, tail: l.tail, end: l.end });
}

proof fn lemma_head_read(n: u32, b: Seq<u8>)
    requires
        stub_head(n).is_prefix_of(b),
    ensures
        read_u32s(b, 0, 6) == Some(
            (seq![1u32, 1u32, referent(0), n, referent(1), n], stub_head(n).len() as int),
        ),
{
    let h0 = Seq::<u8>::empty();
    let h1 = with_u32(h0, 1);
    let h2 = with_u32(h1, 1);
    let h3 = with_u32(h2, referent(0));
    let h4 = with_u32(h3, n);
    let h5 = with_u32(h4, referent(1));
    lemma_prefix_u32(h5, n, b);
    lemma_prefix_u32(h4, referent(1), b);
    lemma_prefix_u32(h3, n, b);
    lemma_prefix_u32(h2, referent(0), b);
    lemma_prefix_u32(h1, 1, b);
    lemma_prefix_u32(h0, 1, b);
    let e = Seq::<u32>::empty();
    assert(read_u32s(b, 0, 0) == Some((e, 0int)));
    assert(read_u32s(b, 0, 1) == Some((e.push(1), h1.len() as int)));
    assert(read_u32s(b, 0, 2) == Some((e.push(1).push(1), h2.len() as int)));
    assert(read_u32s(b, 0, 3) == Some((e.push(1).push(1).push(referent(0)), h3.len() as int)));
    assert(read_u32s(b, 0, 4) == Some((e.push(1).push(1).push(referent(0)).push(n), h4.len() as int)));
    assert(read_u32s(b, 0, 5) == Some((e.push(1).push(1).push(referent(0)).push(n).push(referent(1)), h5.len() as int)));
    let v = e.push(1).push(1).push(referent(0)).push(n).push(referent(1)).push(n);
    assert(read_u32s(b, 0, 6) == Some((v, stub_head(n).len() as int)));
    assert(v =~= seq![1u32, 1u32, referent(0), n, referent(1), n]);
}

proof fn lemma_tail_read(body: Seq<u8>, n: u32, id: u32, b: Seq<u8>)
    requires
        b == with_u32(with_u32(with_u32(with_u32(body, n), id), 0), 0),
    ensures
        body.is_prefix_of(b),
        read_u32s(b, body.len() as int, 4) == Some((seq![n, id, 0u32, 0u32], b.len() as int)),
{
    let t1 = with_u32(body, n);
    let t2 = with_u32(t1, id);
    let t3 = with_u32(t2, 0);
    assert(b.subrange(0, b.len() as int) =~= b);
    lemma_prefix_u32(t3, 0, b);
    lemma_prefix_u32(t2, 0, b);
    lemma_prefix_u32(t1, id, b);
    lemma_prefix_u32(body, n, b);
    let at = seq![body.len() as int, t1.len() as int, t2.len() as int, t3.len() as int, b.len() as int];
    lemma_read_four(b, at, seq![n, id, 0u32, 0u32]);
}

proof fn lemma_read_four(b: Seq<u8>, p: Seq<int>, v: Seq<u32>)
    requires
        p.len() == 5,
        v.len() == 4,
        forall|i: int| #![trigger v[i]] 0 <= i < 4 ==> read_u32(b, p[i]) == Some((v[i], p[i + 1])),
    ensures
        read_u32s(b, p[0], 4) == Some((v, p[4])),
{
    let e = Seq::<u32>::empty();
    assert(read_u32(b, p[0]) == Some((v[0], p[1])));
    assert(read_u32(b, p[1]) == Some((v[1], p[2])));
    assert(read_u32(b, p[2]) == Some((v[2], p[3])));
    assert(read_u32(b, p[3]) == Some((v[3], p[4])));
    assert(read_u32s(b, p[0], 0) == Some((e, p[0])));
    assert(read_u32s(b, p[0], 1) == Some((e.push(v[0]), p[1])));
    assert(read_u32s(b, p[0], 2) == Some((e.push(v[0]).push(v[1]), p[2])));
    assert(read_u32s(b, p[0], 3) == Some((e.push(v[0]).push(v[1]).push(v[2]), p[3])));
    assert(e.push(v[0]).push(v[1]).push(v[2]).push(v[3]) =~= v);
}

// ---------------- PDUs ----------------

/// A PDU: version, type, flags (first and last fragment), data representation,
/// lengths and call id, then the body.
pub open spec fn pdu(ptype: u8, call_id: u32, body: Seq<u8>) -> Seq<u8> {
    seq![5u8, 0u8] + seq![ptype] + seq![0x03u8] + le32(0x0000_0010) + le16(low16(body.len() as int + 16)) + le16(0) + le32(
        call_id,
    ) + body
}

fn fragment_length(n: usize) -> (v: u16)
    ensures
        v == low16(n as int + 16),
{
    ((n as u64 % 65536 + 16) % 65536) as u16
}

fn pdu_header(ptype: u8, call_id: u32, body: &[u8]) -> (p: Vec<u8>)
    ensures
        p@ == pdu(ptype, call_id, body@),
{
    let n: u16 = fragment_length(body.len());
    let mut p: Vec<u8> = Vec::new();
    p.push(5);
    p.push(0);
    assert(p@ =~= seq![5u8, 0u8]);
    put_u8(&mut p, ptype);
    put_u8(&mut p, 0x03);
    put_u32(&mut p, 0x0000_0010);
    put_u16(&mut p, n);
    put_u16(&mut p, 0);
    put_u32(&mut p, call_id);
    put_bytes(&mut p, body);
    p
}

/// The response to a request.
pub open spec fn response_bytes(call_id: u32, stub: Seq<u8>) -> Seq<u8> {
    pdu(2, call_id, le32(low32(stub.len() as int)) + le16(0) + zeros(2) + stub)
}

fn response_pdu(call_id: u32, stub: &[u8]) -> (p: Vec<u8>)
    ensures
        p@ == response_bytes(call_id, stub@),
{
    let mut body: Vec<u8> = Vec::new();
    put_u32(&mut body, (stub.len() as u64 % 0x1_0000_0000) as u32);
    assert(body@ =~= le32(low32(stub@.len() as int)));
    put_u16(&mut body, 0);
    put_zeros(&mut body, 2);
    put_bytes(&mut body, stub);
    pdu_header(2, call_id, body.as_slice())
}

/// The fault of an operation that is not supported.
pub open spec fn fault_bytes(call_id: u32) -> Seq<u8> {
    pdu(3, call_id, zeros(4) + le16(0) + zeros(2) + le32(0x1C01_0006))
}

fn build_fault(call_id: u32) -> (p: Vec<u8>)
    ensures
        p@ == fault_bytes(call_id),
{
    let mut body: Vec<u8> = Vec::new();
    put_zeros(&mut body, 4);
    assert(body@ =~= zeros(4));
    put_u16(&mut body, 0);
    put_zeros(&mut body, 2);
    put_u32(&mut body, 0x1C01_0006);
    pdu_header(3, call_id, body.as_slice())
}

/// The secondary address in a bind acknowledgement: `\\pipe\\srvsvc` and a zero.
pub const SEC_ADDR: [u8; 13] = [0x5C, 0x70, 0x69, 0x70, 0x65, 0x5C, 0x73, 0x72, 0x76, 0x73, 0x76, 0x63, 0];

/// The transfer syntax NDR.
pub const NDR_SYNTAX: [u8; 16] = [
    0x04, 0x5d, 0x88, 0x8a, 0xeb, 0x1c, 0xc9, 0x11, 0x9f, 0xe8, 0x08, 0x00, 0x2b, 0x10, 0x48, 0x60,
];

/// The acknowledgement of a bind.
pub open spec fn bind_ack_bytes(call_id: u32) -> Seq<u8> {
    pdu(
        12,
        call_id,
        le16(0x10b8) + le16(0x10b8) + le32(0x1234_5678) + le16(13) + SEC_ADDR@ + zeros(1) + le16(1) + zeros(2) + le16(
            0,
        ) + le16(0) + NDR_SYNTAX@ + le32(2),
    )
}

fn build_bind_ack(call_id: u32) -> (p: Vec<u8>)
    ensures
        p@ == bind_ack_bytes(call_id),
{
    let addr: [u8; 13] = SEC_ADDR;
    let syntax: [u8; 16] = NDR_SYNTAX;
    let mut b: Vec<u8> = Vec::new();
    put_u16(&mut b, 0x10b8);
    assert(b@ =~= le16(0x10b8));
    put_u16(&mut b, 0x10b8);
    put_u32(&mut b, 0x1234_5678);
    put_u16(&mut b, 13);
    put_bytes(&mut b, addr.as_slice());
    put_zeros(&mut b, 1);
    put_u16(&mut b, 1);
    put_zeros(&mut b, 2);
    put_u16(&mut b, 0);
    put_u16(&mut b, 0);
    put_bytes(&mut b, syntax.as_slice());
    put_u32(&mut b, 2);
    pdu_header(12, call_id, b.as_slice())
}

// ---------------- the pipe ----------------

/// A virtual named pipe bound to one open file id.
pub struct Pipe {
    pub name: String,
    /// Bytes written that are not yet a whole fragment.
    pub inbound: Vec<u8>,
    /// Replies that are not yet read.
    pub outbound: VecDeque<Vec<u8>>,
}

/// The length that a fragment announces.
pub open spec fn frag_len(s: Seq<u8>) -> int {
    u16_at(s, 8) as int
}

/// Whether a whole fragment is at hand.
pub open spec fn has_fragment(s: Seq<u8>) -> bool {
    s.len() >= 16 && s.len() >= frag_len(s)
}

/// Whether every whole fragment in `s` announces at least its own header.
pub open spec fn fragments_ok(s: Seq<u8>) -> bool
    decreases s.len(),
{
    if !has_fragment(s) {
        true
    } else {
        16 <= frag_len(s) <= s.len() && fragments_ok(s.subrange(frag_len(s), s.len() as int))
    }
}

/// What is left of `s` behind its whole fragments.
pub open spec fn unfinished(s: Seq<u8>) -> Seq<u8>
    decreases s.len(),
{
    if has_fragment(s) && 16 <= frag_len(s) <= s.len() {
        unfinished(s.subrange(frag_len(s), s.len() as int))
    } else {
        s
    }
}

/// The reply to a fragment: a bind is acknowledged, a request is answered with the
/// share list or with a fault, anything else is passed over.
pub open spec fn reply_to(f: Seq<u8>, shares: Seq<ShareInfo>) -> Option<Seq<u8>> {
    let call_id = u32_at(f, 12);
    if f[2] == 11 {
        Some(bind_ack_bytes(call_id))
    } else if f[2] == 0 && f.len() >= 24 {
        Some(
            response_bytes(
                call_id,
                if u16_at(f, 22) == 15 {
                    stub_bytes(shares)
                } else {
                    fault_bytes(call_id)
                },
            ),
        )
    } else {
        None
    }
}

/// The replies to the whole fragments in `s`.
pub open spec fn replies(s: Seq<u8>, shares: Seq<ShareInfo>) -> Seq<Seq<u8>>
    decreases s.len(),
{
    if has_fragment(s) && 16 <= frag_len(s) <= s.len() {
        let rest = replies(s.subrange(frag_len(s), s.len() as int), shares);
        match reply_to(s.subrange(0, frag_len(s)), shares) {
            Some(r) => seq![r] + rest,
            None => rest,
        }
    } else {
        Seq::empty()
    }
}

fn answer(f: &[u8], shares: &[ShareInfo]) -> (r: Option<Vec<u8>>)
    requires
        f@.len() >= 16,
        shares@.len() < 0x1000_0000,
    ensures
        match reply_to(f@, shares@) {
            Some(b) => r is Some && r->0@ == b,
            None => r is None,
        },
{
    let call_id: u32 = get_u32(f, 12);
    if f[2] == 11 {
        Some(build_bind_ack(call_id))
    } else if f[2] == 0 && f.len() >= 24 {
        let body = if get_u16(f, 22) == 15 {
            netshareenum_stub(shares)
        } else {
            build_fault(call_id)
        };
        Some(response_pdu(call_id, body.as_slice()))
    } else {
        None
    }
}

/// The contents of messages.
pub open spec fn contents(q: Seq<Vec<u8>>) -> Seq<Seq<u8>> {
    Seq::new(q.len(), |i: int| q[i]@)
}

impl Pipe {
    /// What the client has written and is not yet a whole fragment.
    pub open spec fn unread(&self) -> Seq<u8> {
        self.inbound@
    }

    /// The replies that the client has not yet read.
    pub open spec fn queue(&self) -> Seq<Seq<u8>> {
        contents(self.outbound@)
    }

    /// A pipe that was just opened.
    pub fn new(name: &str) -> (p: Self)
        ensures
            p.name@ == lowercase(name@),
            p.unread() == Seq::<u8>::empty(),
            p.queue() == Seq::<Seq<u8>>::empty(),
    {
        let p = Pipe { name: to_lowercase(name), inbound: Vec::new(), outbound: VecDeque::new() };
        assert(p.queue() =~= Seq::<Seq<u8>>::empty());
        assert(p.unread() =~= Seq::<u8>::empty());
        p
    }

    /// How many bytes of the first reply are left to read.
    pub fn pending(&self) -> (n: usize)
        ensures
            n == if self.queue().len() == 0 {
                0
            } else {
                self.queue()[0].len() as int
            },
    {
        if self.outbound.len() == 0 {
            0
        } else {
            self.outbound[0].len()
        }
    }

    /// Takes at most `max` bytes of the first reply.
    pub fn take(&mut self, max: usize) -> (out: Vec<u8>)
        ensures
            final(self).name == old(self).name,
            final(self).unread() == old(self).unread(),
            ({
                let q = old(self).queue();
                if q.len() == 0 {
                    out@ == Seq::<u8>::empty() && final(self).queue() == q
                } else {
                    let n = if q[0].len() <= max {
                        q[0].len() as int
                    } else {
                        max as int
                    };
                    &&& out@ == q[0].subrange(0, n)
                    &&& final(self).queue() == if n == q[0].len() {
                        q.subrange(1, q.len() as int)
                    } else {
                        q.update(0, q[0].subrange(n, q[0].len() as int))
                    }
                }
            }),
    {
        let ghost q = self.queue();
        match self.outbound.pop_front() {
            Some(msg) => {
                let mut msg = msg;
                let ghost whole = msg@;
                let n: usize = if msg.len() <= max {
                    msg.len()
                } else {
                    max
                };
                let rest = msg.split_off(n);
                assert(msg@ =~= whole.subrange(0, n as int));
                assert(rest@ =~= whole.subrange(n as int, whole.len() as int));
                if rest.len() != 0 {
                    self.outbound.push_front(rest);
                    assert(self.queue() =~= q.update(0, whole.subrange(n as int, whole.len() as int)));
                } else {
                    assert(self.queue() =~= q.subrange(1, q.len() as int));
                }
                msg
            },
            None => {
                let e: Vec<u8> = Vec::new();
                assert(e@ =~= Seq::<u8>::empty());
                e
            },
        }
    }

    /// Whether what is written leaves only fragments that announce at least their
    /// own header.
    pub fn accepts(&self, data: &[u8]) -> (r: bool)
        ensures
            r == fragments_ok(self.unread() + data@),
    {
        let mut s = copy_all(self.inbound.as_slice());
        put_bytes(&mut s, data);
        let ghost whole = s@;
        while s.len() >= 16
            invariant
                whole == self.unread() + data@,
                fragments_ok(s@) == fragments_ok(whole),
            ensures
                whole == self.unread() + data@,
                fragments_ok(whole),
            decreases s@.len(),
        {
            let n: usize = get_u16(s.as_slice(), 8) as usize;
            if s.len() < n {
                break;
            }
            if n < 16 {
                return false;
            }
            let ghost before = s@;
            s = s.split_off(n);
            assert(s@ =~= before.subrange(n as int, before.len() as int));
        }
        true
    }

    /// Takes what the client writes, and queues the replies to the fragments that
    /// it completes.
    pub fn on_write(&mut self, data: &[u8], shares: &[ShareInfo])
        requires
            shares@.len() < 0x1000_0000,
            fragments_ok(old(self).unread() + data@),
        ensures
            final(self).name == old(self).name,
            final(self).unread() == unfinished(old(self).unread() + data@),
            final(self).queue() == old(self).queue() + replies(old(self).unread() + data@, shares@),
    {
        put_bytes(&mut self.inbound, data);
        let ghost s = self.inbound@;
        let ghost q = self.queue();
        assert(q + replies(s, shares@) =~= self.queue() + replies(self.inbound@, shares@));
        while self.inbound.len() >= 16
            invariant
                shares@.len() < 0x1000_0000,
                self.name == old(self).name,
                fragments_ok(self.inbound@),
                unfinished(self.inbound@) == unfinished(s),
                self.queue() + replies(self.inbound@, shares@) == q + replies(s, shares@),
            ensures
                self.name == old(self).name,
                self.inbound@ == unfinished(s),
                self.queue() == q + replies(s, shares@),
            decreases self.inbound@.len(),
        {
            let n: usize = get_u16(self.inbound.as_slice(), 8) as usize;
            if self.inbound.len() < n {
                assert(self.queue() + Seq::<Seq<u8>>::empty() =~= self.queue());
                break;
            }
            let ghost before = self.inbound@;
            let ghost had = self.queue();
            let r = answer(slice_subrange(self.inbound.as_slice(), 0, n), shares);
            let rest = self.inbound.split_off(n);
            assert(rest@ =~= before.subrange(n as int, before.len() as int));
            self.inbound = rest;
            match r {
                Some(b) => {
                    self.outbound.push_back(b);
                    assert(self.queue() =~= had.push(b@));
                    assert(self.queue() + replies(rest@, shares@) =~= had + replies(before, shares@));
                },
                None => {},
            }
        }
        assert(self.inbound@ == unfinished(s));
        assert(self.queue() + Seq::<Seq<u8>>::empty() =~= self.queue());
    }
}

/// How a client cuts its writes does not matter: the replies to two writes are
/// those to both written at once.
pub proof fn law_writes_join(a: Seq<u8>, b: Seq<u8>, shares: Seq<ShareInfo>)
    requires
        fragments_ok(a),
        fragments_ok(a + b),
    ensures
        unfinished(unfinished(a) + b) == unfinished(a + b),
        replies(a, shares) + replies(unfinished(a) + b, shares) == replies(a + b, shares),
        fragments_ok(unfinished(a) + b),
    decreases a.len(),
{
    if has_fragment(a) {
        let n = frag_len(a);
        let rest = a.subrange(n, a.len() as int);
        assert(frag_len(a + b) == n);
        assert((a + b).subrange(n, (a + b).len() as int) =~= rest + b);
        assert((a + b).subrange(0, n) =~= a.subrange(0, n));
        law_writes_join(rest, b, shares);
        match reply_to(a.subrange(0, n), shares) {
            Some(r) => {
                assert(seq![r] + replies(rest, shares) + replies(unfinished(rest) + b, shares) =~= seq![r] + replies(
                    rest + b,
                    shares,
                ));
            },
            None => {},
        }
    } else {
        assert(replies(a, shares) + replies(a + b, shares) =~= replies(a + b, shares));
    }
}

} // verus!
