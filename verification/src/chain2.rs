//! Chains of SMB2 requests in one frame: unsealing, walking the chain, assembling
//! the responses and deciding whether the reply is sealed.
use vstd::prelude::*;
use vstd::slice::slice_subrange;
use crate::bytes::{copy_all, copy_range, get_u16, get_u32, le32, lemma_little, lemma_u32_round_trip, little, matches_at, patched, put_at, put_bytes, put_u32, put_zeros, stands_at, u16_at, u32_at, zeros};
use crate::conn2::{Server2, Smb2Conn};
use crate::frame2::{decrypt_transform, file_id_body_offset, file_id_offset, opened_frame, seal_pdu, sealed_frame, COMPRESSED_MAGIC, FLAG_RELATED, HEADER_LEN, TF_MAGIC};
use crate::sealing::{bytes_of, MAX_SEALED};

verus! {

broadcast use vstd::std_specs::hash::group_hash_axioms;

// ---------------- unsealing ----------------

/// What a frame turns out to be.
pub enum Opening {
    /// It cannot be opened: the frame is dropped.
    Dropped,
    /// A message in the clear.
    Plain(Vec<u8>),
    /// A message that was sealed.
    Unsealed(Vec<u8>),
    /// A sealed message that is still compressed.
    Compressed(Vec<u8>),
}

/// The message in a sealed frame of a connection; none without keys and cipher.
pub open spec fn unsealed(c: &Smb2Conn, f: Seq<u8>) -> Option<Seq<u8>> {
    match (c.enc_keys, c.cipher) {
        (Some(k), Some(cipher)) => opened_frame(c.session_id, k.0@, cipher, f),
        _ => None,
    }
}

/// Whether a frame is opened as it should.
pub open spec fn opens_as(c: &Smb2Conn, f: Seq<u8>, r: Opening) -> bool {
    if !stands_at(f, TF_MAGIC@, 0) {
        r matches Opening::Plain(m) && m@ == f
    } else {
        match unsealed(c, f) {
            None => r is Dropped,
            Some(m) => if stands_at(m, COMPRESSED_MAGIC@, 0) {
                r matches Opening::Compressed(v) && v@ == m
            } else {
                r matches Opening::Unsealed(v) && v@ == m
            },
        }
    }
}

/// Opens a frame: a transform frame is decrypted with the client's key.
pub fn open_message(conn: &Smb2Conn, f: &[u8]) -> (r: Opening)
    requires
        f@.len() <= MAX_SEALED,
    ensures
        opens_as(conn, f@, r),
{
    let magic: [u8; 4] = TF_MAGIC;
    if !matches_at(f, magic.as_slice(), 0) {
        return Opening::Plain(copy_all(f));
    }
    let keys = match conn.enc_keys {
        Some(k) => k,
        None => return Opening::Dropped,
    };
    let cipher: u16 = match conn.cipher {
        Some(c) => c,
        None => return Opening::Dropped,
    };
    match decrypt_transform(conn.session_id, &keys.0, cipher, f) {
        None => Opening::Dropped,
        Some(m) => {
            let packed: [u8; 4] = COMPRESSED_MAGIC;
            if matches_at(m.as_slice(), packed.as_slice(), 0) {
                Opening::Compressed(m)
            } else {
                Opening::Unsealed(m)
            }
        },
    }
}

/// Starts a frame: nothing of the frame before it is left.
pub fn begin_frame(conn: &mut Smb2Conn, encrypted: bool)
    ensures
        *final(conn) == (Smb2Conn {
            peer_encrypts: old(conn).peer_encrypts || encrypted,
            seal_current: false,
            req_encrypted: encrypted,
            chain_fid: None,
            ..*old(conn)
        }),
{
    if encrypted {
        conn.peer_encrypts = true;
    }
    conn.seal_current = false;
    conn.req_encrypted = encrypted;
    conn.chain_fid = None;
}

// ---------------- walking the chain ----------------

/// The file id that stands for the one opened just before.
pub open spec fn is_wildcard(id: Seq<u8>) -> bool {
    id == Seq::new(16, |i: int| 0xFFu8)
}

/// Where the file id of a related request stands that is to be replaced.
pub open spec fn wildcard_place(work: Seq<u8>, off: int) -> Option<int> {
    if u32_at(work, off + 16) & FLAG_RELATED == 0 {
        None
    } else {
        match file_id_offset(u16_at(work, off + 12)) {
            Some(o) => {
                let at = off + HEADER_LEN + o;
                if at + 16 <= work.len() && is_wildcard(work.subrange(at, at + 16)) {
                    Some(at)
                } else {
                    None
                }
            },
            None => None,
        }
    }
}

/// The chain with the file id of the request at `off` filled in.
pub open spec fn resolved_chain(work: Seq<u8>, off: int, fid: Option<[u8; 16]>) -> Seq<u8> {
    match (fid, wildcard_place(work, off)) {
        (Some(id), Some(at)) => patched(work, at, id@),
        _ => work,
    }
}

/// Where the request behind the one at `off` starts.
pub open spec fn next_start(work: Seq<u8>, off: int) -> Option<int> {
    let n = u32_at(work, off + 20);
    if n == 0 || n >= work.len() - off {
        None
    } else {
        Some(off + n)
    }
}

/// A chain of requests with the responses so far.
pub struct Chain {
    pub work: Vec<u8>,
    pub off: usize,
    /// There is no further request.
    pub done: bool,
    /// The responses; the flag tells whether one may be sealed.
    pub parts: Vec<(Vec<u8>, bool)>,
    /// Whether each request was related to the one before it.
    pub related: Vec<bool>,
}

fn is_all_ones(s: &[u8]) -> (r: bool)
    requires
        s@.len() == 16,
    ensures
        r == is_wildcard(s@),
{
    let mut i: usize = 0;
    while i < 16
        invariant
            i <= 16,
            s@.len() == 16,
            forall|k: int| 0 <= k < i ==> s@[k] == 0xFF,
        decreases 16 - i,
    {
        if s[i] != 0xFF {
            assert(s@[i as int] != Seq::new(16, |i: int| 0xFFu8)[i as int]);
            return false;
        }
        i += 1;
    }
    assert(s@ =~= Seq::new(16, |i: int| 0xFFu8));
    true
}

fn find_wildcard(work: &[u8], off: usize) -> (r: Option<usize>)
    requires
        off + HEADER_LEN <= work@.len(),
    ensures
        match r {
            Some(at) => wildcard_place(work@, off as int) == Some(at as int) && at + 16 <= work@.len(),
            None => wildcard_place(work@, off as int) is None,
        },
{
    let n: usize = work.len();
    if get_u32(work, off + 16) & FLAG_RELATED == 0 {
        return None;
    }
    match file_id_body_offset(get_u16(work, off + 12)) {
        Some(o) => {
            if n - off - HEADER_LEN < o + 16 {
                return None;
            }
            let at: usize = off + HEADER_LEN + o;
            if is_all_ones(slice_subrange(work, at, at + 16)) {
                Some(at)
            } else {
                None
            }
        },
        None => None,
    }
}

impl Chain {
    /// The place in the chain is inside the frame, and each response is a message.
    pub open spec fn wf(&self) -> bool {
        &&& self.off <= self.work@.len()
        &&& self.work@.len() <= MAX_SEALED
        &&& self.parts@.len() == self.related@.len()
        &&& messages(self.parts@)
    }

    /// Starts at the first request of a frame.
    pub fn new(work: Vec<u8>) -> (c: Chain)
        requires
            work@.len() <= MAX_SEALED,
        ensures
            c.wf(),
            c.work@ == work@,
            c.off == 0,
            !c.done,
            c.parts@.len() == 0,
            c.related@.len() == 0,
    {
        Chain { work, off: 0, done: false, parts: Vec::new(), related: Vec::new() }
    }

    /// Whether a request is left.
    pub open spec fn has_request(&self) -> bool {
        !self.done && self.off + HEADER_LEN <= self.work@.len()
    }

    /// The next request, with the file that the chain opened last in place of the
    /// wildcard id; none at the end of the chain.
    pub fn next_request(&mut self, chain_fid: Option<[u8; 16]>) -> (r: Option<Vec<u8>>)
        requires
            old(self).wf(),
        ensures
            final(self).wf(),
            request_taken(*old(self), *final(self), chain_fid, r),
    {
        if self.done || self.off > self.work.len() || self.work.len() - self.off < HEADER_LEN {
            return None;
        }
        match chain_fid {
            Some(id) => {
                match find_wildcard(self.work.as_slice(), self.off) {
                    Some(at) => put_at(&mut self.work, at, id.as_slice()),
                    None => {},
                }
            },
            None => {},
        }
        Some(copy_range(self.work.as_slice(), self.off, self.work.len()))
    }

    /// Notes the response to the request that was handed out last, returns the
    /// credits it grants to the client, and goes on to the next request.
    pub fn record(&mut self, conn: &mut Smb2Conn, single: Vec<u8>, may_wrap: bool)
        requires
            old(self).wf(),
            old(self).has_request(),
            HEADER_LEN <= single@.len() <= MAX_SEALED,
        ensures
            final(self).wf(),
            response_noted(*old(self), *final(self), *old(conn), *final(conn), single, may_wrap),
    {
        let granted: u32 = get_u16(single.as_slice(), 14) as u32;
        conn.client_credits = if conn.client_credits > u32::MAX - granted {
            u32::MAX
        } else {
            conn.client_credits + granted
        };
        let related: bool = get_u32(self.work.as_slice(), self.off + 16) & FLAG_RELATED != 0;
        self.parts.push((single, may_wrap));
        self.related.push(related);
        let n: usize = get_u32(self.work.as_slice(), self.off + 20) as usize;
        if n == 0 || n >= self.work.len() - self.off {
            self.done = true;
        } else {
            self.off = self.off + n;
        }
    }
}

/// Whether the next request of a chain is handed out.
pub open spec fn request_taken(a: Chain, b: Chain, chain_fid: Option<[u8; 16]>, r: Option<Vec<u8>>) -> bool {
    if a.has_request() {
        &&& r matches Some(q)
        &&& b.work@ == resolved_chain(a.work@, a.off as int, chain_fid)
        &&& q@ == b.work@.subrange(a.off as int, b.work@.len() as int)
        &&& b == (Chain { work: b.work, ..a })
    } else {
        r is None && b == a
    }
}

/// Whether a response is noted and the chain goes on to its next request.
pub open spec fn response_noted(
    a: Chain,
    b: Chain,
    c0: Smb2Conn,
    c1: Smb2Conn,
    single: Vec<u8>,
    may_wrap: bool,
) -> bool {
    &&& b.work == a.work
    &&& b.parts@ == a.parts@.push((single, may_wrap))
    &&& b.related@ == a.related@.push(u32_at(a.work@, a.off + 16) & FLAG_RELATED != 0)
    &&& match next_start(a.work@, a.off as int) {
        Some(n) => b.off == n && !b.done && b.off > a.off,
        None => b.off == a.off && b.done,
    }
    &&& c1 == (Smb2Conn { client_credits: credits_plus(c0.client_credits, u16_at(single@, 14)), ..c0 })
}

/// Credits with a grant; the count does not wrap.
pub open spec fn credits_plus(credits: u32, granted: u16) -> u32 {
    if credits + granted > u32::MAX {
        u32::MAX
    } else {
        (credits + granted) as u32
    }
}

/// A related request that carries the wildcard id is about the file that the chain
/// opened last.
pub proof fn law_wildcard_names_last_create(work: Seq<u8>, off: int, fid: [u8; 16])
    requires
        0 <= off,
        off + HEADER_LEN <= work.len(),
        wildcard_place(work, off) is Some,
    ensures
        ({
            let w = resolved_chain(work, off, Some(fid));
            &&& w.len() == work.len()
            &&& crate::exchange2::file_of(u16_at(w, off + 12), w.subrange(off, w.len() as int)) == Some(fid@)
        }),
{
    let w = resolved_chain(work, off, Some(fid));
    let o = file_id_offset(u16_at(work, off + 12))->0;
    let at = off + HEADER_LEN + o;
    assert(w =~= work.subrange(0, at) + fid@ + work.subrange(at + 16, work.len() as int));
    assert(w[off + 12] == work[off + 12] && w[off + 13] == work[off + 13]);
    let s = w.subrange(off, w.len() as int);
    assert(s.subrange(HEADER_LEN + o, HEADER_LEN + o + 16) =~= fid@);
}

// ---------------- assembling ----------------

/// Whether all parts are messages.
pub open spec fn messages(parts: Seq<(Vec<u8>, bool)>) -> bool {
    forall|i: int| 0 <= i < parts.len() ==> HEADER_LEN <= (#[trigger] parts[i]).0@.len() <= MAX_SEALED
}

/// The bytes that bring a length to a multiple of eight.
pub open spec fn pad8(n: int) -> int {
    (8 - n % 8) % 8
}

/// A response in its place in the chain: it links to the next one, and a related
/// one that is not the first says so.
pub open spec fn linked(parts: Seq<(Vec<u8>, bool)>, related: Seq<bool>, i: int) -> Seq<u8> {
    let p = parts[i].0@;
    let q = if i + 1 < parts.len() {
        patched(p, 20, le32((p.len() + pad8(p.len() as int)) as u32))
    } else {
        p
    };
    if i >= 1 && related[i] {
        q.update(16, q[16] | 4)
    } else {
        q
    }
}

/// The first `n` responses of a chain, each at a multiple of eight.
pub open spec fn assembled(parts: Seq<(Vec<u8>, bool)>, related: Seq<bool>, n: int) -> Seq<u8>
    decreases n,
{
    if n <= 0 {
        Seq::empty()
    } else {
        let a = assembled(parts, related, n - 1);
        a + zeros(pad8(a.len() as int) as nat) + linked(parts, related, n - 1)
    }
}

/// Where response `i` starts.
pub open spec fn start_of(parts: Seq<(Vec<u8>, bool)>, i: int) -> int
    decreases i,
{
    if i <= 0 {
        0
    } else {
        let p = parts[i - 1].0@.len() as int;
        start_of(parts, i - 1) + p + pad8(p)
    }
}

fn make_linked(parts: &Vec<(Vec<u8>, bool)>, related: &Vec<bool>, i: usize) -> (q: Vec<u8>)
    requires
        i < parts@.len() == related@.len(),
        messages(parts@),
    ensures
        q@ == linked(parts@, related@, i as int),
        q@.len() == parts@[i as int].0@.len(),
{
    let mut q = copy_all(parts[i].0.as_slice());
    let n: usize = q.len();
    let count: usize = parts.len();
    if i + 1 < count {
        let pad: usize = (8 - n % 8) % 8;
        let mut v: Vec<u8> = Vec::new();
        put_u32(&mut v, (n + pad) as u32);
        assert(v@ =~= le32((n + pad) as u32));
        put_at(&mut q, 20, v.as_slice());
    }
    if i >= 1 && related[i] {
        let b: u8 = q[16];
        q.set(16, b | 4);
    }
    q
}

/// Puts the responses of a chain together.
pub fn assemble(parts: &Vec<(Vec<u8>, bool)>, related: &Vec<bool>) -> (out: Vec<u8>)
    requires
        parts@.len() == related@.len(),
        messages(parts@),
    ensures
        out@ == assembled(parts@, related@, parts@.len() as int),
{
    let mut out: Vec<u8> = Vec::new();
    assert(out@ =~= assembled(parts@, related@, 0));
    let n: usize = parts.len();
    let mut i: usize = 0;
    while i < n
        invariant
            i <= n == parts@.len(),
            n == related@.len(),
            messages(parts@),
            out@ == assembled(parts@, related@, i as int),
        decreases n - i,
    {
        let pad: usize = (8 - out.len() % 8) % 8;
        put_zeros(&mut out, pad);
        let q = make_linked(parts, related, i);
        put_bytes(&mut out, q.as_slice());
        i += 1;
    }
    out
}

proof fn lemma_pad8(s: int, q: int)
    requires
        s % 8 == 0,
        q >= 0,
        s >= 0,
    ensures
        pad8(s + q) == pad8(q),
        (s + q + pad8(q)) % 8 == 0,
        0 <= pad8(q) < 8,
{
}

proof fn lemma_assembled_len(parts: Seq<(Vec<u8>, bool)>, related: Seq<bool>, n: int)
    requires
        0 < n <= parts.len(),
        parts.len() == related.len(),
        messages(parts),
    ensures
        start_of(parts, n - 1) % 8 == 0,
        start_of(parts, n) % 8 == 0,
        assembled(parts, related, n).len() == start_of(parts, n - 1) + parts[n - 1].0@.len(),
    decreases n,
{
    let p = parts[n - 1].0@.len() as int;
    lemma_linked(parts, related, n - 1);
    lemma_start_positive(parts, n - 1);
    if n > 1 {
        lemma_assembled_len(parts, related, n - 1);
        let q = parts[n - 2].0@.len() as int;
        lemma_start_positive(parts, n - 2);
        lemma_pad8(start_of(parts, n - 2), q);
    } else {
        assert(assembled(parts, related, 0).len() == 0);
    }
    lemma_pad8(start_of(parts, n - 1), p);
}

proof fn lemma_part_stands(parts: Seq<(Vec<u8>, bool)>, related: Seq<bool>, n: int, i: int)
    requires
        0 <= i < n <= parts.len(),
        parts.len() == related.len(),
        messages(parts),
    ensures
        start_of(parts, i) % 8 == 0,
        0 <= start_of(parts, i),
        start_of(parts, i) + parts[i].0@.len() <= assembled(parts, related, n).len(),
        linked(parts, related, i).len() == parts[i].0@.len(),
        forall|k: int|
            0 <= k < parts[i].0@.len() ==> #[trigger] assembled(parts, related, n)[start_of(parts, i) + k] == linked(
                parts,
                related,
                i,
            )[k],
    decreases n,
{
    let out = assembled(parts, related, n);
    let at = start_of(parts, i);
    let p = parts[i].0@;
    let l = linked(parts, related, i);
    lemma_assembled_len(parts, related, n);
    lemma_assembled_len(parts, related, i + 1);
    let a = assembled(parts, related, n - 1);
    if i < n - 1 {
        lemma_part_stands(parts, related, n - 1, i);
        assert forall|k: int| 0 <= k < p.len() implies #[trigger] out[at + k] == l[k] by {
            assert(out[at + k] == a[at + k]);
        }
    } else {
        if n > 1 {
            lemma_assembled_len(parts, related, n - 1);
        }
        let z = pad8(a.len() as int);
        assert(at == a.len() + z);
    }
    lemma_start_positive(parts, i);
}

proof fn lemma_start_positive(parts: Seq<(Vec<u8>, bool)>, i: int)
    ensures
        0 <= start_of(parts, i),
    decreases i,
{
    if i > 0 {
        lemma_start_positive(parts, i - 1);
    }
}

proof fn lemma_linked(parts: Seq<(Vec<u8>, bool)>, related: Seq<bool>, i: int)
    requires
        0 <= i < parts.len(),
        messages(parts),
    ensures
        ({
            let p = parts[i].0@;
            let l = linked(parts, related, i);
            &&& l.len() == p.len()
            &&& i + 1 < parts.len() ==> u32_at(l, 20) == p.len() + pad8(p.len() as int)
            &&& i + 1 == parts.len() ==> u32_at(l, 20) == u32_at(p, 20)
            &&& forall|k: int| HEADER_LEN <= k < p.len() ==> #[trigger] l[k] == p[k]
        }),
{
    let p = parts[i].0@;
    let l = linked(parts, related, i);
    if i + 1 < parts.len() {
        let v = (p.len() + pad8(p.len() as int)) as u32;
        let q = patched(p, 20, le32(v));
        assert(q =~= p.subrange(0, 20) + le32(v) + p.subrange(24, p.len() as int));
        lemma_u32_round_trip(p.subrange(0, 20), v, p.subrange(24, p.len() as int));
        assert(l[20] == q[20] && l[21] == q[21] && l[22] == q[22] && l[23] == q[23]);
    } else {
        assert(l[20] == p[20] && l[21] == p[21] && l[22] == p[22] && l[23] == p[23]);
    }
}

/// In an assembled reply response `i` starts at a multiple of eight, its body is
/// that of the response, and its link leads to the next response; the last one's
/// link is left as it was.
pub proof fn law_chain_links(parts: Seq<(Vec<u8>, bool)>, related: Seq<bool>, i: int)
    requires
        0 <= i < parts.len(),
        parts.len() == related.len(),
        messages(parts),
    ensures
        ({
            let out = assembled(parts, related, parts.len() as int);
            let at = start_of(parts, i);
            let p = parts[i].0@;
            &&& at % 8 == 0
            &&& at + p.len() <= out.len()
            &&& i + 1 < parts.len() ==> u32_at(out, at + 20) == start_of(parts, i + 1) - at
            &&& i + 1 == parts.len() ==> u32_at(out, at + 20) == u32_at(p, 20)
            &&& forall|k: int| HEADER_LEN <= k < p.len() ==> #[trigger] out[at + k] == p[k]
        }),
{
    let out = assembled(parts, related, parts.len() as int);
    let at = start_of(parts, i);
    let l = linked(parts, related, i);
    let p = parts[i].0@;
    lemma_part_stands(parts, related, parts.len() as int, i);
    lemma_linked(parts, related, i);
    assert(u32_at(out, at + 20) == u32_at(l, 20)) by {
        assert(out[at + 20] == l[20] && out[at + 21] == l[21] && out[at + 22] == l[22] && out[at + 23] == l[23]);
    }
    assert forall|k: int| HEADER_LEN <= k < p.len() implies #[trigger] out[at + k] == p[k] by {
        assert(l[k] == p[k]);
    }
    assert(start_of(parts, i + 1) == at + p.len() + pad8(p.len() as int));
}

// ---------------- sealing the reply ----------------

/// Whether all responses may be sealed.
pub open spec fn all_wrap(parts: Seq<(Vec<u8>, bool)>) -> bool {
    forall|i: int| 0 <= i < parts.len() ==> (#[trigger] parts[i]).1
}

/// Whether the reply is sealed: the session asks for it, the request was sealed,
/// or the tree of the first request asks for it.
pub open spec fn seals(server: &Server2, c: &Smb2Conn, work: Seq<u8>, parts: Seq<(Vec<u8>, bool)>) -> bool {
    let tid = if work.len() >= HEADER_LEN {
        u32_at(work, 36)
    } else {
        0
    };
    (c.encrypt_data || c.req_encrypted || c.seal_current || c.tree_encrypts(server, tid)) && all_wrap(parts)
}

/// How a frame is answered.
pub enum FrameReply {
    Silent,
    /// In the clear.
    Plain(Vec<u8>),
    /// Sealed, after compression with the algorithm that is given.
    Seal(Vec<u8>, Option<u16>),
}

/// Whether a frame is answered as it should.
pub open spec fn replied(server: &Server2, c: &Smb2Conn, chain: &Chain, r: FrameReply) -> bool {
    let n = chain.parts@.len() as int;
    let out = assembled(chain.parts@, chain.related@, n);
    if n == 0 {
        r is Silent
    } else if seals(server, c, chain.work@, chain.parts@) {
        r matches FrameReply::Seal(m, algo) && m@ == out && algo == (if c.compress_response {
            c.compress_algo
        } else {
            None
        })
    } else {
        r matches FrameReply::Plain(m) && m@ == out
    }
}

fn may_all_wrap(parts: &Vec<(Vec<u8>, bool)>) -> (r: bool)
    ensures
        r == all_wrap(parts@),
{
    let n: usize = parts.len();
    let mut i: usize = 0;
    while i < n
        invariant
            i <= n == parts@.len(),
            forall|k: int| 0 <= k < i ==> (#[trigger] parts@[k]).1,
        decreases n - i,
    {
        if !parts[i].1 {
            assert(!parts@[i as int].1);
            return false;
        }
        i += 1;
    }
    true
}

/// The reply to a frame whose requests are all answered.
pub fn finish_frame(server: &Server2, conn: &Smb2Conn, chain: &Chain) -> (r: FrameReply)
    requires
        server.wf(),
        chain.wf(),
    ensures
        replied(server, conn, chain, r),
{
    if chain.parts.len() == 0 {
        return FrameReply::Silent;
    }
    let out = assemble(&chain.parts, &chain.related);
    let tid: u32 = if chain.work.len() >= HEADER_LEN {
        get_u32(chain.work.as_slice(), 36)
    } else {
        0
    };
    let wanted: bool = conn.encrypt_data || conn.req_encrypted || conn.seal_current || conn.encrypts_tree(server, tid);
    if wanted && may_all_wrap(&chain.parts) {
        let algo: Option<u16> = if conn.compress_response {
            conn.compress_algo
        } else {
            None
        };
        FrameReply::Seal(out, algo)
    } else {
        FrameReply::Plain(out)
    }
}

/// Seals a reply with the server's key; none without keys and cipher, and then
/// nothing is sent.
pub fn encrypt_response(conn: &Smb2Conn, random: &[u8; 16], msg: &[u8]) -> (r: Option<Vec<u8>>)
    requires
        msg@.len() <= MAX_SEALED,
    ensures
        bytes_of(r) == (match (conn.enc_keys, conn.cipher) {
            (Some(k), Some(cipher)) => Some(sealed_frame(conn.session_id, k.1@, cipher, random@, msg@)),
            _ => None,
        }),
{
    let keys = match conn.enc_keys {
        Some(k) => k,
        None => return None,
    };
    match conn.cipher {
        Some(cipher) => Some(seal_pdu(conn.session_id, &keys.1, cipher, random, msg)),
        None => None,
    }
}

/// A session that is encrypted, and a request that was, is answered with nothing
/// in the clear unless a response must not be sealed.
pub proof fn law_no_plain_answer(server: &Server2, c: &Smb2Conn, chain: &Chain, r: FrameReply)
    requires
        replied(server, c, chain, r),
        c.encrypt_data || c.req_encrypted,
        all_wrap(chain.parts@),
    ensures
        !(r is Plain),
{
}

/// The requests of a chain are handed out one after the other, each where the one before it
/// points (bytes 20 to 23 of its header), until one points nowhere; each is answered once,
/// in order.
pub proof fn law_chain_is_walked_in_order(
    a: Chain,
    b: Chain,
    d: Chain,
    c0: Smb2Conn,
    c1: Smb2Conn,
    fid: Option<[u8; 16]>,
    r: Option<Vec<u8>>,
    single: Vec<u8>,
    may_wrap: bool,
)
    requires
        a.wf(),
        request_taken(a, b, fid, r),
        response_noted(b, d, c0, c1, single, may_wrap),
        a.has_request(),
    ensures
        r matches Some(q) && q@.len() == a.work@.len() - a.off,
        d.parts@.len() == a.parts@.len() + 1 && d.parts@.last() == (single, may_wrap),
        forall|i: int| 0 <= i < a.parts@.len() ==> d.parts@[i] == #[trigger] a.parts@[i],
        ({
            let n = little(b.work@, a.off + 20, 4);
            if n != 0 && a.off + n < b.work@.len() {
                d.off == a.off + n && !d.done
            } else {
                d.done && !d.has_request()
            }
        }),
        c1.client_credits >= c0.client_credits,
        c0.client_credits + u16_at(single@, 14) <= u32::MAX ==> c1.client_credits == c0.client_credits + u16_at(
            single@,
            14,
        ),
{
    lemma_little(b.work@, a.off + 20);
}

/// A request of a chain reaches its handler as the client sent it, but for the id that
/// stands for the file opened just before.
pub proof fn law_chained_request_is_the_clients(a: Chain, b: Chain, fid: Option<[u8; 16]>, r: Option<Vec<u8>>)
    requires
        a.wf(),
        request_taken(a, b, fid, r),
        a.has_request(),
        wildcard_place(a.work@, a.off as int) is None || fid is None,
    ensures
        r matches Some(q) && q@ == a.work@.subrange(a.off as int, a.work@.len() as int),
{
}

/// A sealed frame is opened with the client's key or not at all; a frame in the clear is
/// taken as it is. What the server sends sealed is sealed with the server's key.
pub proof fn law_frames_are_opened_with_the_clients_key(c: &Smb2Conn, f: Seq<u8>, r: Opening)
    requires
        opens_as(c, f, r),
        f.len() >= 4,
    ensures
        f.subrange(0, 4) != seq![0xFDu8, 0x53u8, 0x4Du8, 0x42u8] ==> (r matches Opening::Plain(m) && m@ == f),
        f.subrange(0, 4) == seq![0xFDu8, 0x53u8, 0x4Du8, 0x42u8] ==> {
            &&& !(r is Plain)
            &&& c.enc_keys is None || c.cipher is None ==> r is Dropped
            &&& r matches Opening::Unsealed(m) ==> (c.enc_keys matches Some(k) && (c.cipher matches Some(x) && opened_frame(
                c.session_id,
                k.0@,
                x,
                f,
            ) == Some(m@)))
        },
{
    assert(TF_MAGIC@ =~= seq![0xFDu8, 0x53u8, 0x4Du8, 0x42u8]);
}

/// A frame is answered where there is something to answer: in the clear only where neither
/// the session, nor the request, nor the tree asks for sealing, or a response must not be
/// sealed.
pub proof fn law_sealing_is_decided(server: &Server2, c: &Smb2Conn, chain: &Chain, r: FrameReply)
    requires
        replied(server, c, chain, r),
        chain.wf(),
        chain.work@.len() >= 64,
    ensures
        r is Silent <==> chain.parts@.len() == 0,
        chain.parts@.len() > 0 ==> (r is Seal <==> (c.encrypt_data || c.req_encrypted || c.seal_current || c.tree_encrypts(
            server,
            little(chain.work@, 36, 4) as u32,
        )) && (forall|i: int| 0 <= i < chain.parts@.len() ==> (#[trigger] chain.parts@[i]).1)),
{
    lemma_little(chain.work@, 36);
}

} // verus!
