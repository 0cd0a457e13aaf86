//! The bodies of SMB2 responses and notifications.
use vstd::prelude::*;
use crate::bytes::{copy_all, le16, le32, le64, lemma_little_front, lemma_little_written, lemma_u32_round_trip, little, put_bytes, put_u16, put_u32, put_u64, put_zeros, u32_at, zeros};
use crate::trans2::low32;
use crate::wire2::{CTX_DURABLE_V1, CTX_DURABLE_V2, CTX_LEASE};

verus! {

/// No oplock.
pub const OPLOCK_NONE: u8 = 0x00;

pub const OPLOCK_LEVEL_II: u8 = 0x01;

pub const OPLOCK_EXCLUSIVE: u8 = 0x08;

pub const OPLOCK_BATCH: u8 = 0x09;

/// A lease in place of an oplock.
pub const OPLOCK_LEASE: u8 = 0xFF;

pub const LEASE_READ: u32 = 1;

pub const LEASE_HANDLE: u32 = 2;

pub const LEASE_WRITE: u32 = 4;

/// Read and handle caching.
pub const LEASE_RH: u32 = 3;

/// Read, handle and write caching.
pub const LEASE_RWH: u32 = 7;

/// The holder of a broken lease has to acknowledge.
pub const LEASE_ACK_REQUIRED: u32 = 1;

fn word_of(n: usize) -> (r: u32)
    ensures
        r == low32(n as int),
{
    (n as u64 % 0x1_0000_0000) as u32
}

/// The four bytes of a response without content.
pub open spec fn empty_body() -> Seq<u8> {
    le16(4) + le16(0)
}

/// The body of the responses to echo, flush, lock, logoff and tree disconnect.
pub fn build_empty_resp() -> (b: Vec<u8>)
    ensures
        b@ == empty_body(),
{
    let mut b: Vec<u8> = Vec::new();
    put_u16(&mut b, 4);
    assert(b@ =~= le16(4));
    put_u16(&mut b, 0);
    b
}

/// The body of the response to a set info.
pub open spec fn set_info_body() -> Seq<u8> {
    le16(2)
}

/// The body of the response to a set info.
pub fn build_set_info_resp() -> (b: Vec<u8>)
    ensures
        b@ == set_info_body(),
{
    let mut b: Vec<u8> = Vec::new();
    put_u16(&mut b, 2);
    assert(b@ =~= le16(2));
    b
}

/// The body of the response to a read: the data stands 80 bytes behind the start of
/// the header.
pub open spec fn read_body(data: Seq<u8>) -> Seq<u8> {
    le16(17) + seq![80u8, 0u8] + le32(low32(data.len() as int)) + le32(0) + le32(0) + data
}

/// The body of the response to a read.
pub fn build_read_resp(data: &[u8]) -> (b: Vec<u8>)
    ensures
        b@ == read_body(data@),
{
    let mut b: Vec<u8> = Vec::new();
    put_u16(&mut b, 17);
    assert(b@ =~= le16(17));
    let o: [u8; 2] = [80, 0];
    assert(o@ =~= seq![80u8, 0u8]);
    put_bytes(&mut b, o.as_slice());
    put_u32(&mut b, word_of(data.len()));
    put_u32(&mut b, 0);
    put_u32(&mut b, 0);
    put_bytes(&mut b, data);
    b
}

/// The body of the response to a write.
pub open spec fn write_body(count: u32) -> Seq<u8> {
    le16(17) + le16(0) + le32(count) + le32(0) + le32(0)
}

/// The body of the response to a write.
pub fn build_write_resp(count: u32) -> (b: Vec<u8>)
    ensures
        b@ == write_body(count),
{
    let mut b: Vec<u8> = Vec::new();
    put_u16(&mut b, 17);
    assert(b@ =~= le16(17));
    put_u16(&mut b, 0);
    put_u32(&mut b, count);
    put_u32(&mut b, 0);
    put_u32(&mut b, 0);
    b
}

/// The body of the responses to queries: the data stands 72 bytes behind the start
/// of the header.
pub open spec fn info_body(data: Seq<u8>) -> Seq<u8> {
    le16(9) + le16(72) + le32(low32(data.len() as int)) + data
}

/// The body of the responses to queries.
pub fn build_info_resp(data: &[u8]) -> (b: Vec<u8>)
    ensures
        b@ == info_body(data@),
{
    let mut b: Vec<u8> = Vec::new();
    put_u16(&mut b, 9);
    assert(b@ =~= le16(9));
    put_u16(&mut b, 72);
    put_u32(&mut b, word_of(data.len()));
    put_bytes(&mut b, data);
    b
}

/// The body of the response to a close.
pub open spec fn close_body(times: [u64; 4], alloc: u64, eof: u64, attrs: u32) -> Seq<u8> {
    le16(60) + le16(0) + le32(0) + le64(times[0]) + le64(times[1]) + le64(times[2]) + le64(times[3]) + le64(alloc) + le64(
        eof,
    ) + le32(attrs)
}

/// The body of the response to a close.
pub fn build_close_resp(times: [u64; 4], alloc: u64, eof: u64, attrs: u32) -> (b: Vec<u8>)
    ensures
        b@ == close_body(times, alloc, eof, attrs),
{
    let mut b: Vec<u8> = Vec::new();
    put_u16(&mut b, 60);
    assert(b@ =~= le16(60));
    put_u16(&mut b, 0);
    put_u32(&mut b, 0);
    put_u64(&mut b, times[0]);
    put_u64(&mut b, times[1]);
    put_u64(&mut b, times[2]);
    put_u64(&mut b, times[3]);
    put_u64(&mut b, alloc);
    put_u64(&mut b, eof);
    put_u32(&mut b, attrs);
    b
}

/// The first 64 bytes of the response to a create.
#[verifier::opaque]
pub open spec fn create_front(
    oplock: u8,
    action: u32,
    times: [u64; 4],
    alloc: u64,
    eof: u64,
    attrs: u32,
) -> Seq<u8> {
    le16(89) + seq![oplock, 0u8] + le32(action) + le64(times[0]) + le64(times[1]) + le64(times[2]) + le64(times[3])
        + le64(alloc) + le64(eof) + le32(attrs) + le32(0)
}

/// Where the contexts of a create response stand, counted from the header; zero
/// without contexts.
pub open spec fn contexts_offset(contexts: Seq<u8>) -> u32 {
    if contexts.len() == 0 {
        0
    } else {
        152
    }
}

/// The body of the response to a create.
pub open spec fn create_body(
    oplock: u8,
    action: u32,
    times: [u64; 4],
    alloc: u64,
    eof: u64,
    attrs: u32,
    fid: Seq<u8>,
    contexts: Seq<u8>,
) -> Seq<u8> {
    create_front(oplock, action, times, alloc, eof, attrs) + fid + le32(contexts_offset(contexts)) + le32(low32(contexts.len() as int)) + contexts
}

fn make_create_front(oplock: u8, action: u32, times: [u64; 4], alloc: u64, eof: u64, attrs: u32) -> (b: Vec<u8>)
    ensures
        b@ == create_front(oplock, action, times, alloc, eof, attrs),
{
    proof {
        reveal(create_front);
    }
    let mut b: Vec<u8> = Vec::new();
    put_u16(&mut b, 89);
    assert(b@ =~= le16(89));
    let o: [u8; 2] = [oplock, 0];
    assert(o@ =~= seq![oplock, 0u8]);
    put_bytes(&mut b, o.as_slice());
    put_u32(&mut b, action);
    put_u64(&mut b, times[0]);
    put_u64(&mut b, times[1]);
    put_u64(&mut b, times[2]);
    put_u64(&mut b, times[3]);
    put_u64(&mut b, alloc);
    put_u64(&mut b, eof);
    put_u32(&mut b, attrs);
    put_u32(&mut b, 0);
    b
}

/// The body of the response to a create.
pub fn build_create_resp(
    oplock: u8,
    action: u32,
    times: [u64; 4],
    alloc: u64,
    eof: u64,
    attrs: u32,
    fid: &[u8; 16],
    contexts: &[u8],
) -> (b: Vec<u8>)
    ensures
        b@ == create_body(oplock, action, times, alloc, eof, attrs, fid@, contexts@),
{
    let mut b = make_create_front(oplock, action, times, alloc, eof, attrs);
    put_bytes(&mut b, fid.as_slice());
    put_u32(
        &mut b,
        if contexts.len() == 0 {
            0
        } else {
            152
        },
    );
    put_u32(&mut b, word_of(contexts.len()));
    put_bytes(&mut b, contexts);
    b
}

// ---------------- create contexts ----------------

/// A granted lease.
#[derive(Clone, Copy, Debug)]
pub struct LeaseResp {
    pub key: [u8; 16],
    pub state: u32,
    pub flags: u32,
    pub epoch: u16,
    pub v2: bool,
}

/// The data of a lease context: of version 2 with a parent key of zeros and the
/// epoch.
pub open spec fn lease_data(l: LeaseResp) -> Seq<u8> {
    let v1 = l.key@ + le32(l.state) + le32(l.flags) + zeros(8);
    if l.v2 {
        v1 + zeros(16) + le16(l.epoch) + le16(0)
    } else {
        v1
    }
}

/// The data of a lease context.
pub fn lease_context_data(l: &LeaseResp) -> (b: Vec<u8>)
    ensures
        b@ == lease_data(*l),
{
    let mut b = copy_all(l.key.as_slice());
    put_u32(&mut b, l.state);
    put_u32(&mut b, l.flags);
    put_zeros(&mut b, 8);
    if l.v2 {
        put_zeros(&mut b, 16);
        put_u16(&mut b, l.epoch);
        put_u16(&mut b, 0);
    }
    b
}

/// The data that grants a durable handle of version 1.
pub fn durable_v1_resp_data() -> (b: Vec<u8>)
    ensures
        b@ == zeros(8),
{
    let mut b: Vec<u8> = Vec::new();
    put_zeros(&mut b, 8);
    assert(b@ =~= zeros(8));
    b
}

/// The data that grants a durable handle of version 2.
pub fn durable_v2_resp_data(timeout: u32, flags: u32) -> (b: Vec<u8>)
    ensures
        b@ == le32(timeout) + le32(flags),
{
    let mut b: Vec<u8> = Vec::new();
    put_u32(&mut b, timeout);
    assert(b@ =~= le32(timeout));
    put_u32(&mut b, flags);
    b
}

/// One context: a name of four bytes, its data 24 bytes behind its start.
pub open spec fn context_bytes(next: u32, name: Seq<u8>, data: Seq<u8>) -> Seq<u8> {
    le32(next) + le16(16) + le16(4) + le16(0) + le16(24) + le32(low32(data.len() as int)) + name + zeros(4)
        + data
}

fn make_context(next: u32, name: &[u8; 4], data: &[u8]) -> (b: Vec<u8>)
    ensures
        b@ == context_bytes(next, name@, data@),
{
    let mut b: Vec<u8> = Vec::new();
    put_u32(&mut b, next);
    assert(b@ =~= le32(next));
    put_u16(&mut b, 16);
    put_u16(&mut b, 4);
    put_u16(&mut b, 0);
    put_u16(&mut b, 24);
    put_u32(&mut b, word_of(data.len()));
    put_bytes(&mut b, name.as_slice());
    put_zeros(&mut b, 4);
    put_bytes(&mut b, data);
    b
}

/// What is granted about a durable handle: the version, and for version 2 timeout
/// and flags.
#[derive(Clone, Copy, PartialEq, Eq, Structural, Debug)]
pub enum DurableGrant {
    V1,
    V2 { timeout: u32, flags: u32 },
}

/// The context that grants a durable handle.
pub open spec fn durable_context(d: DurableGrant) -> Seq<u8> {
    match d {
        DurableGrant::V1 => context_bytes(0, CTX_DURABLE_V1@, zeros(8)),
        DurableGrant::V2 { timeout, flags } => context_bytes(0, CTX_DURABLE_V2@, le32(timeout) + le32(flags)),
    }
}

/// The contexts of a create response: the lease first, then the durable handle,
/// which starts at a multiple of eight.
pub open spec fn create_contexts(l: Option<LeaseResp>, d: Option<DurableGrant>) -> Seq<u8> {
    match (l, d) {
        (None, None) => Seq::empty(),
        (Some(l), None) => context_bytes(0, CTX_LEASE@, lease_data(l)),
        (None, Some(d)) => durable_context(d),
        (Some(l), Some(d)) => if l.v2 {
            context_bytes(80, CTX_LEASE@, lease_data(l)) + zeros(4) + durable_context(d)
        } else {
            context_bytes(56, CTX_LEASE@, lease_data(l)) + durable_context(d)
        },
    }
}

fn make_durable_context(d: DurableGrant) -> (b: Vec<u8>)
    ensures
        b@ == durable_context(d),
{
    match d {
        DurableGrant::V1 => {
            let name: [u8; 4] = CTX_DURABLE_V1;
            let data = durable_v1_resp_data();
            make_context(0, &name, data.as_slice())
        },
        DurableGrant::V2 { timeout, flags } => {
            let name: [u8; 4] = CTX_DURABLE_V2;
            let data = durable_v2_resp_data(timeout, flags);
            make_context(0, &name, data.as_slice())
        },
    }
}

/// Encodes the contexts of a create response.
pub fn encode_create_contexts(l: &Option<LeaseResp>, d: Option<DurableGrant>) -> (b: Vec<u8>)
    ensures
        b@ == create_contexts(*l, d),
{
    let name: [u8; 4] = CTX_LEASE;
    match l {
        None => match d {
            None => {
                let e: Vec<u8> = Vec::new();
                assert(e@ =~= Seq::<u8>::empty());
                e
            },
            Some(d) => make_durable_context(d),
        },
        Some(l) => {
            let data = lease_context_data(l);
            match d {
                None => make_context(0, &name, data.as_slice()),
                Some(d) => {
                    let tail = make_durable_context(d);
                    if l.v2 {
                        let mut b = make_context(80, &name, data.as_slice());
                        put_zeros(&mut b, 4);
                        put_bytes(&mut b, tail.as_slice());
                        b
                    } else {
                        let mut b = make_context(56, &name, data.as_slice());
                        put_bytes(&mut b, tail.as_slice());
                        b
                    }
                },
            }
        },
    }
}

/// Where a create response carries two contexts, the first links to the second.
pub proof fn law_contexts_link(l: LeaseResp, d: DurableGrant)
    ensures
        ({
            let b = create_contexts(Some(l), Some(d));
            let next = u32_at(b, 0) as int;
            &&& next % 8 == 0
            &&& next < b.len()
            &&& b.subrange(next, b.len() as int) == durable_context(d)
        }),
{
    let b = create_contexts(Some(l), Some(d));
    let first: u32 = if l.v2 {
        80
    } else {
        56
    };
    let c = context_bytes(first, CTX_LEASE@, lease_data(l));
    lemma_context_len(first, CTX_LEASE@, lease_data(l));
    lemma_durable_len(d);
    let rest = b.subrange(4, b.len() as int);
    assert(b =~= Seq::<u8>::empty() + le32(first) + rest);
    lemma_u32_round_trip(Seq::empty(), first, rest);
    assert(b.subrange(first as int, b.len() as int) =~= durable_context(d));
}

proof fn lemma_context_len(next: u32, name: Seq<u8>, data: Seq<u8>)
    requires
        name.len() == 4,
    ensures
        context_bytes(next, name, data).len() == 24 + data.len(),
        context_bytes(next, name, data).subrange(0, 4) == le32(next),
{
    assert(context_bytes(next, name, data).subrange(0, 4) =~= le32(next));
}

proof fn lemma_durable_len(d: DurableGrant)
    ensures
        durable_context(d).len() > 0,
{
    match d {
        DurableGrant::V1 => lemma_context_len(0, CTX_DURABLE_V1@, zeros(8)),
        DurableGrant::V2 { timeout, flags } => lemma_context_len(0, CTX_DURABLE_V2@, le32(timeout) + le32(flags)),
    }
}

// ---------------- breaks ----------------

/// The body of a lease break: flags, key, the state held and the state that is
/// left.
pub open spec fn lease_break_body(key: Seq<u8>, current: u32, new: u32, epoch: u16, flags: u32) -> Seq<u8> {
    le16(44) + le16(epoch) + le32(flags) + key + le32(current) + le32(new) + zeros(12)
}

/// The body of a lease break.
pub fn build_lease_break(key: &[u8; 16], current: u32, new: u32, epoch: u16, flags: u32) -> (b: Vec<u8>)
    ensures
        b@ == lease_break_body(key@, current, new, epoch, flags),
{
    let mut b: Vec<u8> = Vec::new();
    put_u16(&mut b, 44);
    assert(b@ =~= le16(44));
    put_u16(&mut b, epoch);
    put_u32(&mut b, flags);
    put_bytes(&mut b, key.as_slice());
    put_u32(&mut b, current);
    put_u32(&mut b, new);
    put_zeros(&mut b, 12);
    b
}

/// The body of an oplock break, and of the response to its acknowledgement.
pub open spec fn oplock_break_body(fid: Seq<u8>, level: u8) -> Seq<u8> {
    le16(24) + seq![level, 0u8] + le32(0) + fid
}

/// The body of an oplock break.
pub fn build_oplock_break(fid: &[u8; 16], level: u8) -> (b: Vec<u8>)
    ensures
        b@ == oplock_break_body(fid@, level),
{
    let mut b: Vec<u8> = Vec::new();
    put_u16(&mut b, 24);
    assert(b@ =~= le16(24));
    let o: [u8; 2] = [level, 0];
    assert(o@ =~= seq![level, 0u8]);
    put_bytes(&mut b, o.as_slice());
    put_u32(&mut b, 0);
    put_bytes(&mut b, fid.as_slice());
    b
}

/// The body of the response to the acknowledgement of a lease break.
pub open spec fn lease_ack_body(key: Seq<u8>, state: u32) -> Seq<u8> {
    le16(36) + le16(0) + le32(0) + key + le32(state) + zeros(8)
}

/// The body of the response to the acknowledgement of a lease break.
pub fn build_lease_break_resp(key: &[u8; 16], state: u32) -> (b: Vec<u8>)
    ensures
        b@ == lease_ack_body(key@, state),
{
    let mut b: Vec<u8> = Vec::new();
    put_u16(&mut b, 36);
    assert(b@ =~= le16(36));
    put_u16(&mut b, 0);
    put_u32(&mut b, 0);
    put_bytes(&mut b, key.as_slice());
    put_u32(&mut b, state);
    put_zeros(&mut b, 8);
    b
}

// ---------------- ioctl ----------------

/// The first 48 bytes of the response to an ioctl; the output stands 112 bytes
/// behind the start of the header.
pub open spec fn ioctl_front(fid: Seq<u8>, code: u32, len: int) -> Seq<u8> {
    le16(49) + le16(0) + le32(code) + fid + le32(112) + le32(0) + le32(112) + le32(low32(len)) + le32(0)
        + le32(0)
}

/// The body of the response to an ioctl.
pub open spec fn ioctl_body(fid: Seq<u8>, code: u32, out: Seq<u8>) -> Seq<u8> {
    ioctl_front(fid, code, out.len() as int) + out
}

/// The body of the response to an ioctl.
pub fn build_ioctl_resp(fid: &[u8; 16], code: u32, out: &[u8]) -> (b: Vec<u8>)
    ensures
        b@ == ioctl_body(fid@, code, out@),
{
    let mut b: Vec<u8> = Vec::new();
    put_u16(&mut b, 49);
    assert(b@ =~= le16(49));
    put_u16(&mut b, 0);
    put_u32(&mut b, code);
    put_bytes(&mut b, fid.as_slice());
    put_u32(&mut b, 112);
    put_u32(&mut b, 0);
    put_u32(&mut b, 112);
    put_u32(&mut b, word_of(out.len()));
    put_u32(&mut b, 0);
    put_u32(&mut b, 0);
    put_bytes(&mut b, out);
    b
}

/// The output of a copy: chunks written, bytes of a chunk cut short, bytes in all.
/// On a request past the limits it carries the limits.
pub open spec fn copychunk_bytes(chunks: u32, chunk_bytes: u32, total: u32) -> Seq<u8> {
    le32(chunks) + le32(chunk_bytes) + le32(total)
}

/// The output of a copy.
pub fn build_copychunk_resp(chunks: u32, chunk_bytes: u32, total: u32) -> (b: Vec<u8>)
    ensures
        b@ == copychunk_bytes(chunks, chunk_bytes, total),
{
    let mut b: Vec<u8> = Vec::new();
    put_u32(&mut b, chunks);
    assert(b@ =~= le32(chunks));
    put_u32(&mut b, chunk_bytes);
    put_u32(&mut b, total);
    b
}

/// The bytes in all that the output of a copy reports; zero where it is cut short.
pub fn copychunk_total(out: &[u8]) -> (n: u32)
    ensures
        n == if out@.len() >= 12 {
            u32_at(out@, 8)
        } else {
            0
        },
{
    if out.len() >= 12 {
        crate::bytes::get_u32(out, 8)
    } else {
        0
    }
}

/// What a copy reports is read back from its output.
pub proof fn law_copychunk_total(chunks: u32, chunk_bytes: u32, total: u32)
    ensures
        copychunk_bytes(chunks, chunk_bytes, total).len() == 12,
        u32_at(copychunk_bytes(chunks, chunk_bytes, total), 8) == total,
{
    let b = copychunk_bytes(chunks, chunk_bytes, total);
    assert(b =~= le32(chunks) + le32(chunk_bytes) + le32(total) + Seq::<u8>::empty());
    lemma_u32_round_trip(le32(chunks) + le32(chunk_bytes), total, Seq::empty());
}

// ---------------- where the fields of a response stand ----------------

/// The response to a read carries the data, its length, and where in the message it
/// stands: 64 bytes of header come first.
pub proof fn law_read_response_carries_the_data(data: Seq<u8>)
    requires
        data.len() < 0x1_0000_0000,
    ensures
        ({
            let b = read_body(data);
            &&& little(b, 0, 2) == 17
            &&& little(b, 4, 4) == data.len()
            &&& b.subrange(b[2] - 64, b.len() as int) == data
        }),
{
    let b = read_body(data);
    let n = low32(data.len() as int);
    assert(b =~= (le16(17) + seq![80u8, 0u8]) + le32(n) + (le32(0) + le32(0) + data));
    lemma_little_written(le16(17) + seq![80u8, 0u8], 0, n, 0, le32(0) + le32(0) + data);
    assert(b =~= Seq::<u8>::empty() + le16(17) + (seq![80u8, 0u8] + le32(n) + le32(0) + le32(0) + data));
    lemma_little_written(Seq::empty(), 17, 0, 0, seq![80u8, 0u8] + le32(n) + le32(0) + le32(0) + data);
    assert(b.subrange(16, b.len() as int) =~= data);
}

/// The response to a write carries how many bytes were written.
pub proof fn law_write_response_carries_the_count(count: u32)
    ensures
        write_body(count).len() == 16,
        little(write_body(count), 0, 2) == 17,
        little(write_body(count), 4, 4) == count,
{
    let b = write_body(count);
    assert(b =~= (le16(17) + le16(0)) + le32(count) + (le32(0) + le32(0)));
    lemma_little_written(le16(17) + le16(0), 0, count, 0, le32(0) + le32(0));
    assert(b =~= Seq::<u8>::empty() + le16(17) + (le16(0) + le32(count) + le32(0) + le32(0)));
    lemma_little_written(Seq::empty(), 17, 0, 0, le16(0) + le32(count) + le32(0) + le32(0));
}

/// The response to a query carries the data, its length, and where in the message it
/// stands.
pub proof fn law_query_response_carries_the_data(data: Seq<u8>)
    requires
        data.len() < 0x1_0000_0000,
    ensures
        ({
            let b = info_body(data);
            &&& little(b, 0, 2) == 9
            &&& little(b, 4, 4) == data.len()
            &&& b.subrange(little(b, 2, 2) - 64, b.len() as int) == data
        }),
{
    let b = info_body(data);
    let n = low32(data.len() as int);
    assert(b =~= Seq::<u8>::empty() + le16(9) + (le16(72) + le32(n) + data));
    lemma_little_written(Seq::empty(), 9, 0, 0, le16(72) + le32(n) + data);
    assert(b =~= le16(9) + le16(72) + (le32(n) + data));
    lemma_little_written(le16(9), 72, 0, 0, le32(n) + data);
    assert(b =~= (le16(9) + le16(72)) + le32(n) + data);
    lemma_little_written(le16(9) + le16(72), 0, n, 0, data);
    assert(b.subrange(8, b.len() as int) =~= data);
}

/// The response to a create carries what was granted and what was found: the oplock level,
/// what was done, times, sizes and attributes, and the id that the file is reached by.
pub proof fn law_create_response_fields(
    oplock: u8,
    action: u32,
    times: [u64; 4],
    alloc: u64,
    eof: u64,
    attrs: u32,
    fid: Seq<u8>,
    contexts: Seq<u8>,
)
    requires
        fid.len() == 16,
        contexts.len() < 0x1_0000_0000,
    ensures
        ({
            let b = create_body(oplock, action, times, alloc, eof, attrs, fid, contexts);
            &&& little(b, 0, 2) == 89
            &&& b[2] == oplock
            &&& little(b, 4, 4) == action
            &&& little(b, 8, 8) == times[0] && little(b, 16, 8) == times[1] && little(b, 24, 8) == times[2] && little(b, 32, 8)
                == times[3]
            &&& little(b, 40, 8) == alloc
            &&& little(b, 48, 8) == eof
            &&& little(b, 56, 4) == attrs
            &&& b.subrange(64, 80) == fid
            &&& little(b, 84, 4) == contexts.len()
            &&& contexts.len() > 0 ==> b.subrange(little(b, 80, 4) - 64, b.len() as int) == contexts
        }),
{
    let f = create_front(oplock, action, times, alloc, eof, attrs);
    lemma_create_front(oplock, action, times, alloc, eof, attrs);
    lemma_behind_front(f, fid, contexts_offset(contexts), low32(contexts.len() as int), contexts);
}

#[verifier::rlimit(40)]
#[verifier::spinoff_prover]
proof fn lemma_behind_front(f: Seq<u8>, fid: Seq<u8>, o: u32, n: u32, contexts: Seq<u8>)
    requires
        f.len() == 64,
        fid.len() == 16,
    ensures
        ({
            let b = f + fid + le32(o) + le32(n) + contexts;
            &&& b[2] == f[2]
            &&& little(b, 0, 2) == little(f, 0, 2)
            &&& little(b, 4, 4) == little(f, 4, 4)
            &&& little(b, 8, 8) == little(f, 8, 8)
            &&& little(b, 16, 8) == little(f, 16, 8)
            &&& little(b, 24, 8) == little(f, 24, 8)
            &&& little(b, 32, 8) == little(f, 32, 8)
            &&& little(b, 40, 8) == little(f, 40, 8)
            &&& little(b, 48, 8) == little(f, 48, 8)
            &&& little(b, 56, 4) == little(f, 56, 4)
            &&& b.subrange(64, 80) == fid
            &&& little(b, 80, 4) == o
            &&& little(b, 84, 4) == n
            &&& b.subrange(88, b.len() as int) == contexts
        }),
{
    let b = f + fid + le32(o) + le32(n) + contexts;
    let rest = fid + le32(o) + le32(n) + contexts;
    assert(b =~= f + rest);
    lemma_little_front(f, rest, 0, 2);
    lemma_little_front(f, rest, 4, 4);
    lemma_little_front(f, rest, 8, 8);
    lemma_little_front(f, rest, 16, 8);
    lemma_little_front(f, rest, 24, 8);
    lemma_little_front(f, rest, 32, 8);
    lemma_little_front(f, rest, 40, 8);
    lemma_little_front(f, rest, 48, 8);
    lemma_little_front(f, rest, 56, 4);
    assert(b =~= (f + fid) + le32(o) + (le32(n) + contexts));
    lemma_little_written(f + fid, 0, o, 0, le32(n) + contexts);
    lemma_little_written(f + fid + le32(o), 0, n, 0, contexts);
    assert(b.subrange(64, 80) =~= fid);
    assert(b.subrange(88, b.len() as int) =~= contexts);
}

#[verifier::rlimit(40)]
#[verifier::spinoff_prover]
proof fn lemma_create_front(oplock: u8, action: u32, times: [u64; 4], alloc: u64, eof: u64, attrs: u32)
    ensures
        ({
            let b = create_front(oplock, action, times, alloc, eof, attrs);
            &&& b.len() == 64
            &&& little(b, 0, 2) == 89
            &&& b[2] == oplock
            &&& little(b, 4, 4) == action
            &&& little(b, 8, 8) == times[0] && little(b, 16, 8) == times[1] && little(b, 24, 8) == times[2] && little(b, 32, 8)
                == times[3]
            &&& little(b, 40, 8) == alloc
            &&& little(b, 48, 8) == eof
            &&& little(b, 56, 4) == attrs
        }),
{
    reveal(create_front);
    let b = create_front(oplock, action, times, alloc, eof, attrs);
    let p0 = Seq::<u8>::empty();
    let p2 = le16(89) + seq![oplock, 0u8];
    let p3 = p2 + le32(action);
    let p4 = p3 + le64(times[0]);
    let p5 = p4 + le64(times[1]);
    let p6 = p5 + le64(times[2]);
    let p7 = p6 + le64(times[3]);
    let p8 = p7 + le64(alloc);
    let p9 = p8 + le64(eof);
    assert(b =~= p9 + le32(attrs) + b.subrange(60, 64));
    lemma_little_written(p9, 0, attrs, 0, b.subrange(60, 64));
    assert(b =~= p8 + le64(eof) + b.subrange(56, 64));
    lemma_little_written(p8, 0, 0, eof, b.subrange(56, 64));
    assert(b =~= p7 + le64(alloc) + b.subrange(48, 64));
    lemma_little_written(p7, 0, 0, alloc, b.subrange(48, 64));
    assert(b =~= p6 + le64(times[3]) + b.subrange(40, 64));
    lemma_little_written(p6, 0, 0, times[3], b.subrange(40, 64));
    assert(b =~= p5 + le64(times[2]) + b.subrange(32, 64));
    lemma_little_written(p5, 0, 0, times[2], b.subrange(32, 64));
    assert(b =~= p4 + le64(times[1]) + b.subrange(24, 64));
    lemma_little_written(p4, 0, 0, times[1], b.subrange(24, 64));
    assert(b =~= p3 + le64(times[0]) + b.subrange(16, 64));
    lemma_little_written(p3, 0, 0, times[0], b.subrange(16, 64));
    assert(b =~= p2 + le32(action) + b.subrange(8, 64));
    lemma_little_written(p2, 0, action, 0, b.subrange(8, 64));
    assert(b =~= p0 + le16(89) + b.subrange(2, 64));
    lemma_little_written(p0, 89, 0, 0, b.subrange(2, 64));
}

/// The response to a close carries times, sizes and attributes of the file.
pub proof fn law_close_response_fields(times: [u64; 4], alloc: u64, eof: u64, attrs: u32)
    ensures
        ({
            let b = close_body(times, alloc, eof, attrs);
            &&& b.len() == 60
            &&& little(b, 0, 2) == 60
            &&& little(b, 8, 8) == times[0] && little(b, 16, 8) == times[1] && little(b, 24, 8) == times[2] && little(b, 32, 8)
                == times[3]
            &&& little(b, 40, 8) == alloc
            &&& little(b, 48, 8) == eof
            &&& little(b, 56, 4) == attrs
        }),
{
    let b = close_body(times, alloc, eof, attrs);
    let p0 = Seq::<u8>::empty();
    let p1 = le16(60) + le16(0) + le32(0);
    let p2 = p1 + le64(times[0]);
    let p3 = p2 + le64(times[1]);
    let p4 = p3 + le64(times[2]);
    let p5 = p4 + le64(times[3]);
    let p6 = p5 + le64(alloc);
    let p7 = p6 + le64(eof);
    assert(b =~= p7 + le32(attrs) + p0);
    lemma_little_written(p7, 0, attrs, 0, p0);
    assert(b =~= p6 + le64(eof) + b.subrange(56, 60));
    lemma_little_written(p6, 0, 0, eof, b.subrange(56, 60));
    assert(b =~= p5 + le64(alloc) + b.subrange(48, 60));
    lemma_little_written(p5, 0, 0, alloc, b.subrange(48, 60));
    assert(b =~= p4 + le64(times[3]) + b.subrange(40, 60));
    lemma_little_written(p4, 0, 0, times[3], b.subrange(40, 60));
    assert(b =~= p3 + le64(times[2]) + b.subrange(32, 60));
    lemma_little_written(p3, 0, 0, times[2], b.subrange(32, 60));
    assert(b =~= p2 + le64(times[1]) + b.subrange(24, 60));
    lemma_little_written(p2, 0, 0, times[1], b.subrange(24, 60));
    assert(b =~= p1 + le64(times[0]) + b.subrange(16, 60));
    lemma_little_written(p1, 0, 0, times[0], b.subrange(16, 60));
    assert(b =~= p0 + le16(60) + b.subrange(2, 60));
    lemma_little_written(p0, 60, 0, 0, b.subrange(2, 60));
}

/// A lease break names the lease, the state it had and the state that is left; an oplock
/// break names the file and the level that is left.
pub proof fn law_break_fields(key: Seq<u8>, current: u32, new: u32, epoch: u16, flags: u32, fid: Seq<u8>, level: u8)
    requires
        key.len() == 16,
        fid.len() == 16,
    ensures
        ({
            let b = lease_break_body(key, current, new, epoch, flags);
            &&& b.len() == 44 && little(b, 0, 2) == 44
            &&& little(b, 2, 2) == epoch
            &&& little(b, 4, 4) == flags
            &&& b.subrange(8, 24) == key
            &&& little(b, 24, 4) == current
            &&& little(b, 28, 4) == new
        }),
        ({
            let b = oplock_break_body(fid, level);
            b.len() == 24 && little(b, 0, 2) == 24 && b[2] == level && b.subrange(8, 24) == fid
        }),
        ({
            let b = lease_ack_body(key, current);
            b.len() == 36 && little(b, 0, 2) == 36 && b.subrange(8, 24) == key && little(b, 24, 4) == current
        }),
{
    let e = Seq::<u8>::empty();
    let b = lease_break_body(key, current, new, epoch, flags);
    let p2 = le16(44) + le16(epoch);
    let p3 = p2 + le32(flags) + key;
    assert(b =~= e + le16(44) + b.subrange(2, 44));
    lemma_little_written(e, 44, 0, 0, b.subrange(2, 44));
    assert(b =~= le16(44) + le16(epoch) + b.subrange(4, 44));
    lemma_little_written(le16(44), epoch, 0, 0, b.subrange(4, 44));
    assert(b =~= p2 + le32(flags) + b.subrange(8, 44));
    lemma_little_written(p2, 0, flags, 0, b.subrange(8, 44));
    assert(b =~= p3 + le32(current) + b.subrange(28, 44));
    lemma_little_written(p3, 0, current, 0, b.subrange(28, 44));
    assert(b =~= (p3 + le32(current)) + le32(new) + b.subrange(32, 44));
    lemma_little_written(p3 + le32(current), 0, new, 0, b.subrange(32, 44));
    assert(b.subrange(8, 24) =~= key);
    let o = oplock_break_body(fid, level);
    assert(o =~= e + le16(24) + o.subrange(2, 24));
    lemma_little_written(e, 24, 0, 0, o.subrange(2, 24));
    assert(o.subrange(8, 24) =~= fid);
    let a = lease_ack_body(key, current);
    assert(a =~= e + le16(36) + a.subrange(2, 36));
    lemma_little_written(e, 36, 0, 0, a.subrange(2, 36));
    let q = le16(36) + le16(0) + le32(0) + key;
    assert(a =~= q + le32(current) + a.subrange(28, 36));
    lemma_little_written(q, 0, current, 0, a.subrange(28, 36));
    assert(a.subrange(8, 24) =~= key);
}

/// The response to an ioctl carries code, file and output, and where in the message the
/// output stands.
pub proof fn law_ioctl_response_fields(fid: Seq<u8>, code: u32, out: Seq<u8>)
    requires
        fid.len() == 16,
        out.len() < 0x1_0000_0000,
    ensures
        ({
            let b = ioctl_body(fid, code, out);
            &&& little(b, 0, 2) == 49
            &&& little(b, 4, 4) == code
            &&& b.subrange(8, 24) == fid
            &&& little(b, 36, 4) == out.len()
            &&& b.subrange(little(b, 32, 4) - 64, b.len() as int) == out
        }),
{
    let b = ioctl_body(fid, code, out);
    let e = Seq::<u8>::empty();
    let end = b.len() as int;
    let n = low32(out.len() as int);
    assert(b =~= e + le16(49) + b.subrange(2, end));
    lemma_little_written(e, 49, 0, 0, b.subrange(2, end));
    let p = le16(49) + le16(0);
    assert(b =~= p + le32(code) + b.subrange(8, end));
    lemma_little_written(p, 0, code, 0, b.subrange(8, end));
    let q = p + le32(code) + fid + le32(112) + le32(0);
    assert(b =~= q + le32(112) + b.subrange(36, end));
    lemma_little_written(q, 0, 112, 0, b.subrange(36, end));
    assert(b =~= (q + le32(112)) + le32(n) + b.subrange(40, end));
    lemma_little_written(q + le32(112), 0, n, 0, b.subrange(40, end));
    assert(b.subrange(8, 24) =~= fid);
    assert(b.subrange(48, end) =~= out);
}

/// A client that reads the lease context of a create response finds the lease that was
/// granted, and in the context of a durable handle its timeout and flags.
pub proof fn law_granted_contexts_fields(l: LeaseResp, timeout: u32, flags: u32)
    ensures
        ({
            let d = lease_data(l);
            &&& d.len() == if l.v2 {
                52int
            } else {
                32
            }
            &&& d.subrange(0, 16) == l.key@
            &&& little(d, 16, 4) == l.state
            &&& little(d, 20, 4) == l.flags
            &&& l.v2 ==> little(d, 48, 2) == l.epoch
        }),
        ({
            let b = durable_context(DurableGrant::V2 { timeout, flags });
            &&& b.subrange(16, 20) == seq![0x44u8, 0x48u8, 0x32u8, 0x51u8]
            &&& little(b, 24, 4) == timeout
            &&& little(b, 28, 4) == flags
        }),
        durable_context(DurableGrant::V1).subrange(16, 20) == seq![0x44u8, 0x48u8, 0x6Eu8, 0x51u8],
        create_contexts(Some(l), None).subrange(16, 20) == seq![0x52u8, 0x71u8, 0x4Cu8, 0x73u8],
        create_contexts(Some(l), None).subrange(24, create_contexts(Some(l), None).len() as int) == lease_data(l),
{
    let e = Seq::<u8>::empty();
    let d = lease_data(l);
    let end = d.len() as int;
    assert(d =~= l.key@ + le32(l.state) + d.subrange(20, end));
    lemma_little_written(l.key@, 0, l.state, 0, d.subrange(20, end));
    assert(d =~= (l.key@ + le32(l.state)) + le32(l.flags) + d.subrange(24, end));
    lemma_little_written(l.key@ + le32(l.state), 0, l.flags, 0, d.subrange(24, end));
    if l.v2 {
        let p = l.key@ + le32(l.state) + le32(l.flags) + zeros(8) + zeros(16);
        assert(d =~= p + le16(l.epoch) + le16(0));
        lemma_little_written(p, l.epoch, 0, 0, le16(0));
    }
    assert(d.subrange(0, 16) =~= l.key@);
    let b = durable_context(DurableGrant::V2 { timeout, flags });
    let n = b.len() as int;
    assert(b =~= b.subrange(0, 24) + le32(timeout) + b.subrange(28, n));
    lemma_little_written(b.subrange(0, 24), 0, timeout, 0, b.subrange(28, n));
    assert(b =~= b.subrange(0, 28) + le32(flags) + b.subrange(32, n));
    lemma_little_written(b.subrange(0, 28), 0, flags, 0, b.subrange(32, n));
    assert(b.subrange(16, 20) =~= seq![0x44u8, 0x48u8, 0x32u8, 0x51u8]);
    assert(durable_context(DurableGrant::V1).subrange(16, 20) =~= seq![0x44u8, 0x48u8, 0x6Eu8, 0x51u8]);
    let c = create_contexts(Some(l), None);
    assert(c.subrange(16, 20) =~= seq![0x52u8, 0x71u8, 0x4Cu8, 0x73u8]);
    assert(c.subrange(24, c.len() as int) =~= d);
}

} // verus!
