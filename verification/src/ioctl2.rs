//! SMB2 ioctl: negotiation checks, resilient handles, pipe transactions, server-side
//! copies and the smaller controls.
use vstd::prelude::*;
use vstd::slice::slice_subrange;
use crate::bytes::{copy_all, get_u16, get_u32, get_u64, le16, le32, le64, lemma_little, little, put_bytes, put_u16, put_u32, put_u64, put_zeros, same_bytes, u16_at, u32_at, u64_at, zeros};
use crate::conn2::{counted, next_resume_nonce, Server2, Smb2Conn};
use crate::frame2::{build_interface_list, interface_list, HostAddr, DIALECT_202, DIALECT_210, DIALECT_300, DIALECT_302, DIALECT_311};
use crate::ops2::{has_share, only_pipe_changes, pipe_drained, pipe_fed, share_of};
use crate::reply2::{build_copychunk_resp, build_ioctl_resp, copychunk_bytes, ioctl_body};
use crate::sessions::DurableEntry;
use crate::smb::Status;
use crate::srvsvc::{fragments_ok, replies, Pipe, ShareInfo};
use crate::vfs::{vfs_err, vfs_status, OpenFile, VfsError};
use crate::wire2::IoctlReq;

verus! {

pub const FSCTL_DFS_GET_REFERRALS: u32 = 0x0006_0194;

pub const FSCTL_SET_SPARSE: u32 = 0x0009_00C4;

pub const FSCTL_SET_ZERO_DATA: u32 = 0x0009_80C8;

pub const FSCTL_FILE_LEVEL_TRIM: u32 = 0x0009_8208;

pub const FSCTL_PIPE_WAIT: u32 = 0x0011_0018;

pub const FSCTL_PIPE_TRANSACT: u32 = 0x0011_C017;

pub const FSCTL_SRV_REQUEST_RESUME_KEY: u32 = 0x0014_0078;

pub const FSCTL_LMR_REQUEST_RESILIENCY: u32 = 0x0014_01D4;

pub const FSCTL_QUERY_NETWORK_INTERFACE_INFO: u32 = 0x0014_01FC;

pub const FSCTL_VALIDATE_NEGOTIATE_INFO: u32 = 0x0014_0204;

pub const FSCTL_SRV_COPYCHUNK: u32 = 0x0014_40F2;

pub const FSCTL_SRV_COPYCHUNK_WRITE: u32 = 0x0014_80F2;

// ---------------- validation of the negotiation ----------------

/// Whether the server speaks a dialect.
pub open spec fn supported(d: u16) -> bool {
    d == DIALECT_202 || d == DIALECT_210 || d == DIALECT_300 || d == DIALECT_302 || d == DIALECT_311
}

/// The newest dialect that both sides speak, among the first `n` that are offered
/// from place 24 of the input on.
pub open spec fn best_dialect(input: Seq<u8>, n: int) -> Option<u16>
    decreases n,
{
    if n <= 0 {
        None
    } else {
        let d = u16_at(input, 24 + 2 * (n - 1));
        let best = best_dialect(input, n - 1);
        if supported(d) && (best is None || best->0 < d) {
            Some(d)
        } else {
            best
        }
    }
}

/// Whether what the client says it negotiated differs from what the server saw: an
/// attempt to talk the two sides down.
pub open spec fn was_talked_down(c: &Smb2Conn, input: Seq<u8>, max_output: u32) -> bool {
    let n = u16_at(input, 22) as int;
    ||| c.dialect == Some(DIALECT_311)
    ||| input.len() < 24
    ||| max_output < 24
    ||| u32_at(input, 0) != c.client_capabilities
    ||| input.subrange(4, 20) != c.client_guid@
    ||| u16_at(input, 20) != c.client_security_mode
    ||| 24 + 2 * n > input.len()
    ||| best_dialect(input, n) != c.dialect
}

/// What the server answers to a validation: capabilities, guid, security mode and
/// dialect as negotiated.
pub open spec fn validation(server: &Server2, c: &Smb2Conn) -> Seq<u8> {
    le32(c.advertised_caps) + server.guid@ + le16(
        if server.require_signing {
            3
        } else {
            1
        },
    ) + le16(
        match c.dialect {
            Some(d) => d,
            None => DIALECT_210,
        },
    )
}

fn is_supported(d: u16) -> (r: bool)
    ensures
        r == supported(d),
{
    d == DIALECT_202 || d == DIALECT_210 || d == DIALECT_300 || d == DIALECT_302 || d == DIALECT_311
}

fn find_best(input: &[u8], n: usize) -> (r: Option<u16>)
    requires
        24 + 2 * n <= input@.len(),
    ensures
        r == best_dialect(input@, n as int),
{
    let len: usize = input.len();
    let mut best: Option<u16> = None;
    let mut i: usize = 0;
    while i < n
        invariant
            i <= n,
            24 + 2 * n <= len == input@.len(),
            best == best_dialect(input@, i as int),
        decreases n - i,
    {
        let d: u16 = get_u16(input, 24 + 2 * i);
        if is_supported(d) {
            match best {
                Some(b) => {
                    if b < d {
                        best = Some(d);
                    }
                },
                None => {
                    best = Some(d);
                },
            }
        }
        i += 1;
    }
    best
}

fn same_dialect(a: Option<u16>, b: Option<u16>) -> (r: bool)
    ensures
        r == (a == b),
{
    match (a, b) {
        (Some(x), Some(y)) => x == y,
        (None, None) => true,
        _ => false,
    }
}

/// Finds out whether the two sides were talked down.
pub fn is_talked_down(conn: &Smb2Conn, input: &[u8], max_output: u32) -> (r: bool)
    ensures
        r == was_talked_down(conn, input@, max_output),
{
    if same_dialect(conn.dialect, Some(DIALECT_311)) {
        return true;
    }
    if input.len() < 24 || max_output < 24 {
        return true;
    }
    if get_u32(input, 0) != conn.client_capabilities {
        return true;
    }
    if !same_bytes(slice_subrange(input, 4, 20), conn.client_guid.as_slice()) {
        return true;
    }
    if get_u16(input, 20) != conn.client_security_mode {
        return true;
    }
    let n: usize = get_u16(input, 22) as usize;
    if 24 + 2 * n > input.len() {
        return true;
    }
    !same_dialect(find_best(input, n), conn.dialect)
}

fn make_validation(server: &Server2, conn: &Smb2Conn) -> (b: Vec<u8>)
    ensures
        b@ == validation(server, conn),
{
    let mut b: Vec<u8> = Vec::new();
    put_u32(&mut b, conn.advertised_caps);
    assert(b@ =~= le32(conn.advertised_caps));
    put_bytes(&mut b, server.guid.as_slice());
    put_u16(
        &mut b,
        if server.require_signing {
            3
        } else {
            1
        },
    );
    put_u16(
        &mut b,
        match conn.dialect {
            Some(d) => d,
            None => DIALECT_210,
        },
    );
    b
}

// ---------------- server-side copies ----------------

/// The most chunks of one copy.
pub const MAX_CHUNKS: u32 = 256;

/// The most bytes of one chunk.
pub const MAX_CHUNK_SIZE: u32 = 0x10_0000;

/// The most bytes of one copy.
pub const MAX_TOTAL_SIZE: u32 = 0x100_0000;

/// One chunk of a copy.
#[derive(Clone, Copy, PartialEq, Eq, Structural, Debug)]
pub struct CopyChunk {
    pub source_offset: u64,
    pub target_offset: u64,
    pub length: u32,
}

/// The chunk at `at`.
pub open spec fn chunk_at(b: Seq<u8>, at: int) -> CopyChunk {
    CopyChunk { source_offset: u64_at(b, at), target_offset: u64_at(b, at + 8), length: u32_at(b, at + 16) }
}

/// The chunks that the input of a copy lists.
pub open spec fn chunks_of(b: Seq<u8>) -> Seq<CopyChunk> {
    Seq::new(u32_at(b, 24) as nat, |i: int| chunk_at(b, 32 + 24 * i))
}

/// Whether the input of a copy is whole.
pub open spec fn copy_whole(b: Seq<u8>) -> bool {
    b.len() >= 32 && 32 + 24 * u32_at(b, 24) <= b.len()
}

/// The bytes that the first `n` chunks ask for.
pub open spec fn asked_bytes(c: Seq<CopyChunk>, n: int) -> int
    decreases n,
{
    if n <= 0 {
        0
    } else {
        asked_bytes(c, n - 1) + c[n - 1].length
    }
}

/// Whether a copy is within the limits.
pub open spec fn within_limits(c: Seq<CopyChunk>) -> bool {
    &&& c.len() <= MAX_CHUNKS
    &&& forall|i: int| 0 <= i < c.len() ==> (#[trigger] c[i]).length <= MAX_CHUNK_SIZE
    &&& asked_bytes(c, c.len() as int) <= MAX_TOTAL_SIZE
}

/// The file that a resume key stands for.
pub open spec fn resumed(keys: Seq<([u8; 24], [u8; 16])>, key: Seq<u8>) -> Option<[u8; 16]>
    decreases keys.len(),
{
    if keys.len() == 0 {
        None
    } else if keys.last().0@ == key {
        Some(keys.last().1)
    } else {
        resumed(keys.drop_last(), key)
    }
}

/// A copy that is under way.
pub struct CopyRun {
    pub source: [u8; 16],
    pub target: [u8; 16],
    pub chunks: Vec<CopyChunk>,
    /// Chunks that are copied.
    pub done: usize,
    /// Bytes that are written.
    pub total: u32,
}

fn read_chunks(b: &[u8]) -> (r: Vec<CopyChunk>)
    requires
        copy_whole(b@),
    ensures
        r@ == chunks_of(b@),
{
    let len: usize = b.len();
    let n: usize = get_u32(b, 24) as usize;
    let mut r: Vec<CopyChunk> = Vec::new();
    let mut i: usize = 0;
    while i < n
        invariant
            i <= n,
            32 + 24 * n <= len == b@.len(),
            r@.len() == i,
            forall|k: int| 0 <= k < i ==> r@[k] == chunk_at(b@, 32 + 24 * k),
        decreases n - i,
    {
        let at: usize = 32 + 24 * i;
        r.push(CopyChunk { source_offset: get_u64(b, at), target_offset: get_u64(b, at + 8), length: get_u32(b, at + 16) });
        i += 1;
    }
    assert(r@ =~= chunks_of(b@));
    r
}

proof fn lemma_asked_grows(c: Seq<CopyChunk>, a: int, b: int)
    requires
        0 <= a <= b <= c.len(),
    ensures
        0 <= asked_bytes(c, a) <= asked_bytes(c, b),
    decreases b,
{
    if a < b {
        lemma_asked_grows(c, a, b - 1);
    } else if a > 0 {
        lemma_asked_grows(c, a - 1, a - 1);
    }
}

fn is_within_limits(c: &Vec<CopyChunk>) -> (r: bool)
    ensures
        r == within_limits(c@),
{
    let n: usize = c.len();
    if n > MAX_CHUNKS as usize {
        return false;
    }
    let mut total: u64 = 0;
    let mut i: usize = 0;
    while i < n
        invariant
            i <= n == c@.len(),
            n <= MAX_CHUNKS,
            total == asked_bytes(c@, i as int),
            total <= i * 0x1_0000_0000,
            forall|k: int| 0 <= k < i ==> (#[trigger] c@[k]).length <= MAX_CHUNK_SIZE,
        decreases n - i,
    {
        if c[i].length > MAX_CHUNK_SIZE {
            assert(c@[i as int].length > MAX_CHUNK_SIZE);
            return false;
        }
        total += c[i].length as u64;
        i += 1;
    }
    total <= MAX_TOTAL_SIZE as u64
}

fn find_resumed(keys: &Vec<([u8; 24], [u8; 16])>, key: &[u8]) -> (r: Option<[u8; 16]>)
    ensures
        r == resumed(keys@, key@),
{
    let n: usize = keys.len();
    let mut i: usize = n;
    assert(keys@.subrange(0, n as int) =~= keys@);
    while i > 0
        invariant
            i <= n == keys@.len(),
            resumed(keys@, key@) == resumed(keys@.subrange(0, i as int), key@),
        decreases i,
    {
        assert(keys@.subrange(0, i as int).last() == keys@[i - 1]);
        if same_bytes(keys[i - 1].0.as_slice(), key) {
            return Some(keys[i - 1].1);
        }
        assert(keys@.subrange(0, i as int).drop_last() =~= keys@.subrange(0, i - 1));
        i -= 1;
    }
    None
}

/// Whether a copy starts as it should: past the limits it is refused with the
/// limits, and its source is the file that the resume key stands for.
pub open spec fn copy_planned(c: &Smb2Conn, req: IoctlReq, r: Result<CopyRun, (Status, Vec<u8>)>) -> bool {
    let b = req.input@;
    if !copy_whole(b) {
        r matches Err(e) && e.0 == Status::INVALID_PARAMETER && e.1@.len() == 0
    } else if !within_limits(chunks_of(b)) {
        r matches Err(e) && e.0 == Status::INVALID_PARAMETER && e.1@ == copychunk_bytes(
            MAX_CHUNKS,
            MAX_CHUNK_SIZE,
            MAX_TOTAL_SIZE,
        )
    } else {
        match resumed(c.resume_keys@, b.subrange(0, 24)) {
            None => r matches Err(e) && e.0 == Status::OBJECT_NAME_NOT_FOUND && e.1@.len() == 0,
            Some(f) => {
                &&& r matches Ok(run)
                &&& run.source == f
                &&& run.target == req.file_id
                &&& run.chunks@ == chunks_of(b)
                &&& run.done == 0
                &&& run.total == 0
            },
        }
    }
}

/// Starts a copy.
pub fn plan_copychunk(conn: &Smb2Conn, req: &IoctlReq) -> (r: Result<CopyRun, (Status, Vec<u8>)>)
    ensures
        copy_planned(conn, *req, r),
        r matches Ok(run) ==> run.wf(),
{
    let b = req.input.as_slice();
    if b.len() < 32 || (b.len() - 32) / 24 < get_u32(b, 24) as usize {
        return Err((Status::INVALID_PARAMETER, Vec::new()));
    }
    let chunks = read_chunks(b);
    if !is_within_limits(&chunks) {
        return Err(
            (Status::INVALID_PARAMETER, build_copychunk_resp(MAX_CHUNKS, MAX_CHUNK_SIZE, MAX_TOTAL_SIZE)),
        );
    }
    match find_resumed(&conn.resume_keys, slice_subrange(b, 0, 24)) {
        None => Err((Status::OBJECT_NAME_NOT_FOUND, Vec::new())),
        Some(source) => Ok(CopyRun { source, target: req.file_id, chunks, done: 0, total: 0 }),
    }
}

impl CopyRun {
    /// The copy is within the limits, and so is what was written.
    pub open spec fn wf(&self) -> bool {
        &&& within_limits(self.chunks@)
        &&& self.done <= self.chunks@.len()
        &&& self.total <= asked_bytes(self.chunks@, self.done as int)
    }

    /// The chunk that is copied next; none once all are.
    pub open spec fn next_copied(&self, c: &Smb2Conn) -> Result<Option<CopyChunk>, Status> {
        if self.done == self.chunks@.len() {
            Ok(None)
        } else if !c.handles@.contains_key(self.source) || !c.handles@.contains_key(self.target) {
            Err(Status::INVALID_HANDLE)
        } else {
            Ok(Some(self.chunks@[self.done as int]))
        }
    }

    /// Whether `self` is `before` with one more chunk copied.
    pub open spec fn one_more(&self, before: CopyRun, written: u32) -> bool {
        *self == (CopyRun { done: (before.done + 1) as usize, total: (before.total + written) as u32, ..before })
    }

    /// The chunk that is next, if both files are open: it is read from the source and
    /// written to the target.
    pub fn next_chunk(&self, conn: &Smb2Conn) -> (r: Result<Option<CopyChunk>, Status>)
        requires
            self.wf(),
            conn.wf(),
        ensures
            r == self.next_copied(conn),
    {
        if self.done == self.chunks.len() {
            return Ok(None);
        }
        if !conn.handles.contains(&self.source) || !conn.handles.contains(&self.target) {
            return Err(Status::INVALID_HANDLE);
        }
        Ok(Some(self.chunks[self.done]))
    }

    /// Notes how many bytes of the chunk were written.
    pub fn record(&mut self, written: u32)
        requires
            old(self).wf(),
            old(self).done < old(self).chunks@.len(),
            written <= old(self).chunks@[old(self).done as int].length,
        ensures
            final(self).wf(),
            final(self).one_more(*old(self), written),
    {
        proof {
            lemma_asked_grows(self.chunks@, self.done + 1, self.chunks@.len() as int);
        }
        self.total = self.total + written;
        self.done = self.done + 1;
    }

    /// The output of a copy whose chunks are all copied.
    pub fn output(&self) -> (b: Vec<u8>)
        requires
            self.wf(),
        ensures
            b@ == copychunk_bytes(self.done as u32, 0, self.total),
    {
        build_copychunk_resp(self.done as u32, 0, self.total)
    }
}

/// No copy writes more than the limit.
pub proof fn law_copy_is_bounded(run: CopyRun)
    requires
        run.wf(),
    ensures
        run.total <= MAX_TOTAL_SIZE,
        run.done <= MAX_CHUNKS,
{
    lemma_asked_grows(run.chunks@, run.done as int, run.chunks@.len() as int);
}

// ---------------- the dispatch ----------------

/// How an ioctl goes on.
pub enum IoctlPlan {
    /// The connection ends without an answer.
    Silent,
    Reply(Status, Vec<u8>),
    /// The server's network interfaces are listed.
    Interfaces,
    /// A copy starts.
    Copy(CopyRun),
    /// A range of the file is zeroed.
    Zero { start: u64, len: u64 },
}

/// Whether the answer is `out` with a status.
pub open spec fn answers_with(req: IoctlReq, r: IoctlPlan, s: Status, out: Seq<u8>) -> bool {
    r matches IoctlPlan::Reply(st, b) && st == s && b@ == ioctl_body(req.file_id@, req.ctl_code, out)
}

/// Whether the answer is an error without output.
pub open spec fn fails_with(r: IoctlPlan, s: Status) -> bool {
    r matches IoctlPlan::Reply(st, b) && st == s && b@.len() == 0
}

/// The timeout that a resilient handle is asked for, in milliseconds.
pub open spec fn resilient_timeout(input: Seq<u8>) -> u32 {
    if input.len() >= 4 && u32_at(input, 0) != 0 {
        u32_at(input, 0)
    } else {
        60_000
    }
}

/// Whether `e` is the durable handle that a resilient open leaves.
pub open spec fn resilient_of(e: DurableEntry, c: &Smb2Conn, o: OpenFile, req: IoctlReq) -> bool {
    &&& e.persistent_id == req.file_id
    &&& e.create_guid@ == zeros(16)
    &&& e.rel@ == o.rel@
    &&& e.is_dir == o.is_dir
    &&& e.access == if o.can_write {
        0x001F_01FFu32
    } else {
        0x0012_0089u32
    }
    &&& e.options == if o.is_dir {
        0x1u32
    } else {
        0x40u32
    }
    &&& e.session_id == c.session_id
    &&& e.owner_user@ == c.user@
    &&& e.client_guid == c.client_guid
    &&& e.lease_key is None
    &&& e.lease_state == 0
    &&& !e.persistent
    &&& e.timeout == resilient_timeout(req.input@)
}

/// Whether a resilient handle is recorded.
pub open spec fn made_resilient(c0: &Smb2Conn, c1: &Smb2Conn, req: IoctlReq) -> bool {
    if c0.handles@.contains_key(req.file_id) {
        &&& *c1 == (Smb2Conn { durable: c1.durable, ..*c0 })
        &&& c1.durable.wf()
        &&& c1.durable@.contains_key(req.file_id)
        &&& c1.durable@ == c0.durable@.insert(req.file_id, c1.durable@[req.file_id])
        &&& resilient_of(c1.durable@[req.file_id], c0, c0.handles@[req.file_id], req)
    } else {
        *c1 == *c0
    }
}

/// A resume key: the file id and a number.
pub open spec fn resume_key(fid: Seq<u8>, n: u64) -> Seq<u8> {
    fid + le64(n)
}

/// Whether a pipe transaction is carried out: the input is written, then the first
/// reply is read.
pub open spec fn transacted(
    c0: &Smb2Conn,
    c1: &Smb2Conn,
    req: IoctlReq,
    shares: Seq<ShareInfo>,
    mid: Pipe,
    out: Seq<u8>,
) -> bool {
    &&& only_pipe_changes(c0, c1, req.file_id)
    &&& pipe_fed(c0.pipes@[req.file_id], mid, req.input@, shares)
    &&& pipe_drained(mid, c1.pipes@[req.file_id], req.max_output as int, out)
}

/// Whether an ioctl that changes nothing goes on as it should.
pub open spec fn plain_control(server: &Server2, c: &Smb2Conn, tid: u32, req: IoctlReq, r: IoctlPlan) -> bool {
    let code = req.ctl_code;
    let input = req.input@;
    if code == FSCTL_SRV_COPYCHUNK || code == FSCTL_SRV_COPYCHUNK_WRITE {
        if share_of(server, c, tid) is None {
            fails_with(r, Status::INVALID_HANDLE)
        } else {
            match r {
                IoctlPlan::Copy(run) => copy_planned(c, req, Ok(run)) && run.wf(),
                IoctlPlan::Reply(s, b) => exists|e: Vec<u8>|
                    #[trigger] copy_planned(c, req, Err((s, e))) && b@ == ioctl_body(req.file_id@, code, e@),
                _ => false,
            }
        }
    } else if code == FSCTL_SET_SPARSE || code == FSCTL_PIPE_WAIT {
        answers_with(req, r, Status::SUCCESS, Seq::empty())
    } else if code == FSCTL_FILE_LEVEL_TRIM {
        if input.len() >= 8 && u32_at(input, 0) == 0 {
            answers_with(req, r, Status::SUCCESS, le32(u32_at(input, 4)))
        } else {
            fails_with(r, Status::INVALID_PARAMETER)
        }
    } else if code == FSCTL_DFS_GET_REFERRALS {
        fails_with(r, Status::NOT_FOUND)
    } else if code == FSCTL_QUERY_NETWORK_INTERFACE_INFO {
        r is Interfaces
    } else if code == FSCTL_SET_ZERO_DATA {
        if share_of(server, c, tid) is None {
            fails_with(r, Status::INVALID_HANDLE)
        } else if input.len() < 16 || u64_at(input, 8) < u64_at(input, 0) {
            fails_with(r, Status::INVALID_PARAMETER)
        } else if !c.handles@.contains_key(req.file_id) {
            fails_with(r, Status::INVALID_HANDLE)
        } else {
            r == (IoctlPlan::Zero { start: u64_at(input, 0), len: (u64_at(input, 8) - u64_at(input, 0)) as u64 })
        }
    } else {
        fails_with(r, Status::NOT_IMPLEMENTED)
    }
}

/// Whether an ioctl goes on as it should.
pub open spec fn ioctl_planned(
    s0: &Server2,
    s1: &Server2,
    c0: &Smb2Conn,
    c1: &Smb2Conn,
    tid: u32,
    req: IoctlReq,
    shares: Seq<ShareInfo>,
    r: IoctlPlan,
) -> bool {
    let code = req.ctl_code;
    if code == FSCTL_VALIDATE_NEGOTIATE_INFO {
        &&& *s1 == *s0
        &&& if was_talked_down(c0, req.input@, req.max_output) {
            r is Silent && *c1 == (Smb2Conn { disconnect: true, ..*c0 })
        } else {
            answers_with(req, r, Status::SUCCESS, validation(s0, c0)) && *c1 == *c0
        }
    } else if code == FSCTL_LMR_REQUEST_RESILIENCY {
        &&& *s1 == *s0
        &&& made_resilient(c0, c1, req)
        &&& answers_with(req, r, Status::SUCCESS, Seq::empty())
    } else if code == FSCTL_PIPE_TRANSACT {
        &&& *s1 == *s0
        &&& if c0.pipes@.contains_key(req.file_id) {
            exists|mid: Pipe, out: Seq<u8>|
                #[trigger] transacted(c0, c1, req, shares, mid, out) && answers_with(req, r, Status::SUCCESS, out)
        } else {
            fails_with(r, Status::NOT_IMPLEMENTED) && *c1 == *c0
        }
    } else if code == FSCTL_SRV_REQUEST_RESUME_KEY {
        if c0.handles@.contains_key(req.file_id) {
            let key = resume_key(req.file_id@, s0.next_resume_nonce);
            &&& *s1 == (Server2 { next_resume_nonce: counted(s0.next_resume_nonce), ..*s0 })
            &&& *c1 == (Smb2Conn { resume_keys: c1.resume_keys, ..*c0 })
            &&& c1.resume_keys@.len() == c0.resume_keys@.len() + 1
            &&& c1.resume_keys@.drop_last() == c0.resume_keys@
            &&& c1.resume_keys@.last().0@ == key
            &&& c1.resume_keys@.last().1 == req.file_id
            &&& answers_with(req, r, Status::SUCCESS, key + zeros(8))
        } else {
            fails_with(r, Status::INVALID_HANDLE) && *s1 == *s0 && *c1 == *c0
        }
    } else {
        *s1 == *s0 && *c1 == *c0 && plain_control(s0, c0, tid, req, r)
    }
}

fn reply_with(req: &IoctlReq, s: Status, out: &[u8]) -> (r: IoctlPlan)
    ensures
        answers_with(*req, r, s, out@),
{
    IoctlPlan::Reply(s, build_ioctl_resp(&req.file_id, req.ctl_code, out))
}

fn reply_empty(req: &IoctlReq) -> (r: IoctlPlan)
    ensures
        answers_with(*req, r, Status::SUCCESS, Seq::empty()),
{
    let e: [u8; 0] = [];
    assert(e@ =~= Seq::<u8>::empty());
    reply_with(req, Status::SUCCESS, e.as_slice())
}

fn fail(s: Status) -> (r: IoctlPlan)
    ensures
        fails_with(r, s),
{
    IoctlPlan::Reply(s, Vec::new())
}

fn make_resilient(conn: &mut Smb2Conn, req: &IoctlReq)
    requires
        old(conn).wf(),
    ensures
        made_resilient(old(conn), final(conn), *req),
        final(conn).wf(),
{
    let input = req.input.as_slice();
    let asked: u32 = if input.len() >= 4 {
        get_u32(input, 0)
    } else {
        0
    };
    let timeout: u32 = if asked != 0 {
        asked
    } else {
        60_000
    };
    let zero: [u8; 16] = [0; 16];
    assert(zero@ =~= zeros(16));
    let e = match conn.handles.get(&req.file_id) {
        None => return,
        Some(o) => DurableEntry {
            persistent_id: req.file_id,
            create_guid: zero,
            rel: o.rel.clone(),
            is_dir: o.is_dir,
            access: if o.can_write {
                0x001F_01FF
            } else {
                0x0012_0089
            },
            options: if o.is_dir {
                0x1
            } else {
                0x40
            },
            session_id: conn.session_id,
            owner_user: conn.user.clone(),
            client_guid: conn.client_guid,
            lease_key: None,
            lease_state: 0,
            persistent: false,
            timeout,
        },
    };
    conn.durable.insert(req.file_id, e);
}

fn array24(s: &[u8]) -> (r: [u8; 24])
    requires
        s@.len() == 24,
    ensures
        r@ == s@,
{
    let mut r: [u8; 24] = [0; 24];
    let mut i: usize = 0;
    while i < 24
        invariant
            i <= 24,
            s@.len() == 24,
            forall|k: int| 0 <= k < i ==> r@[k] == s@[k],
        decreases 24 - i,
    {
        r[i] = s[i];
        i += 1;
    }
    assert(r@ =~= s@);
    r
}

fn hand_out_key(server: &mut Server2, conn: &mut Smb2Conn, req: &IoctlReq) -> (r: IoctlPlan)
    requires
        old(conn).handles@.contains_key(req.file_id),
        req.ctl_code == FSCTL_SRV_REQUEST_RESUME_KEY,
    ensures
        ioctl_planned(old(server), final(server), old(conn), final(conn), 0, *req, Seq::empty(), r),
        final(conn).handles == old(conn).handles,
{
    let n: u64 = next_resume_nonce(server);
    let mut k = copy_all(req.file_id.as_slice());
    put_u64(&mut k, n);
    let key = array24(k.as_slice());
    let ghost before = conn.resume_keys@;
    conn.resume_keys.push((key, req.file_id));
    assert(conn.resume_keys@.drop_last() =~= before);
    let mut out = copy_all(key.as_slice());
    put_zeros(&mut out, 8);
    reply_with(req, Status::SUCCESS, out.as_slice())
}

fn plain(server: &Server2, conn: &Smb2Conn, tid: u32, req: &IoctlReq) -> (r: IoctlPlan)
    requires
        server.wf(),
        conn.wf(),
    ensures
        plain_control(server, conn, tid, *req, r),
{
    let code: u32 = req.ctl_code;
    let input = req.input.as_slice();
    if code == FSCTL_SRV_COPYCHUNK || code == FSCTL_SRV_COPYCHUNK_WRITE {
        if !has_share(server, conn, tid) {
            return fail(Status::INVALID_HANDLE);
        }
        match plan_copychunk(conn, req) {
            Ok(run) => IoctlPlan::Copy(run),
            Err(e) => {
                assert(copy_planned(conn, *req, Err((e.0, e.1))));
                IoctlPlan::Reply(e.0, build_ioctl_resp(&req.file_id, code, e.1.as_slice()))
            },
        }
    } else if code == FSCTL_SET_SPARSE || code == FSCTL_PIPE_WAIT {
        reply_empty(req)
    } else if code == FSCTL_FILE_LEVEL_TRIM {
        if input.len() >= 8 && get_u32(input, 0) == 0 {
            let mut out: Vec<u8> = Vec::new();
            put_u32(&mut out, get_u32(input, 4));
            assert(out@ =~= le32(u32_at(input@, 4)));
            reply_with(req, Status::SUCCESS, out.as_slice())
        } else {
            fail(Status::INVALID_PARAMETER)
        }
    } else if code == FSCTL_DFS_GET_REFERRALS {
        fail(Status::NOT_FOUND)
    } else if code == FSCTL_QUERY_NETWORK_INTERFACE_INFO {
        IoctlPlan::Interfaces
    } else if code == FSCTL_SET_ZERO_DATA {
        if !has_share(server, conn, tid) {
            return fail(Status::INVALID_HANDLE);
        }
        if input.len() < 16 {
            return fail(Status::INVALID_PARAMETER);
        }
        let start: u64 = get_u64(input, 0);
        let end: u64 = get_u64(input, 8);
        if end < start {
            return fail(Status::INVALID_PARAMETER);
        }
        if !conn.handles.contains(&req.file_id) {
            return fail(Status::INVALID_HANDLE);
        }
        IoctlPlan::Zero { start, len: end - start }
    } else {
        fail(Status::NOT_IMPLEMENTED)
    }
}

/// Whether a pipe takes what a transaction writes to it.
pub fn transact_accepted(conn: &Smb2Conn, req: &IoctlReq) -> (r: bool)
    requires
        conn.wf(),
    ensures
        r == (conn.pipes@.contains_key(req.file_id) ==> fragments_ok(conn.pipes@[req.file_id].unread() + req.input@)),
{
    match conn.pipes.get(&req.file_id) {
        Some(p) => p.accepts(req.input.as_slice()),
        None => true,
    }
}

/// Carries out an ioctl as far as nothing outside is needed.
pub fn ioctl(server: &mut Server2, conn: &mut Smb2Conn, tid: u32, req: &IoctlReq, shares: &Vec<ShareInfo>) -> (r:
    IoctlPlan)
    requires
        old(server).wf(),
        old(conn).wf(),
        shares@.len() < 0x1000_0000,
        req.ctl_code == FSCTL_PIPE_TRANSACT && old(conn).pipes@.contains_key(req.file_id) ==> fragments_ok(
            old(conn).pipes@[req.file_id].unread() + req.input@,
        ),
    ensures
        ioctl_planned(old(server), final(server), old(conn), final(conn), tid, *req, shares@, r),
        final(server).wf(),
        final(conn).wf(),
{
    let code: u32 = req.ctl_code;
    if code == FSCTL_VALIDATE_NEGOTIATE_INFO {
        if is_talked_down(conn, req.input.as_slice(), req.max_output) {
            conn.disconnect = true;
            return IoctlPlan::Silent;
        }
        let out = make_validation(server, conn);
        return reply_with(req, Status::SUCCESS, out.as_slice());
    }
    if code == FSCTL_LMR_REQUEST_RESILIENCY {
        make_resilient(conn, req);
        return reply_empty(req);
    }
    if code == FSCTL_PIPE_TRANSACT {
        if !conn.pipes.contains(&req.file_id) {
            return fail(Status::NOT_IMPLEMENTED);
        }
        match conn.pipes.remove(&req.file_id) {
            Some(p) => {
                let mut p = p;
                p.on_write(req.input.as_slice(), shares.as_slice());
                let ghost mid = p;
                let out = p.take(req.max_output as usize);
                conn.pipes.insert(req.file_id, p);
                assert(conn.pipes@ =~= old(conn).pipes@.insert(req.file_id, conn.pipes@[req.file_id]));
                assert(transacted(old(conn), conn, *req, shares@, mid, out@));
                return reply_with(req, Status::SUCCESS, out.as_slice());
            },
            None => {},
        }
    }
    if code == FSCTL_SRV_REQUEST_RESUME_KEY {
        if !conn.handles.contains(&req.file_id) {
            return fail(Status::INVALID_HANDLE);
        }
        return hand_out_key(server, conn, req);
    }
    plain(server, conn, tid, req)
}

/// Answers with the list of interfaces.
pub fn finish_interfaces(req: &IoctlReq, list: &[(u32, HostAddr)]) -> (r: IoctlPlan)
    ensures
        answers_with(*req, r, Status::SUCCESS, interface_list(list@, list@.len() as int)),
{
    let out = build_interface_list(list);
    reply_with(req, Status::SUCCESS, out.as_slice())
}

/// Answers a copy whose chunks are all copied.
pub fn finish_copychunk(req: &IoctlReq, run: &CopyRun) -> (r: IoctlPlan)
    requires
        run.wf(),
    ensures
        answers_with(*req, r, Status::SUCCESS, copychunk_bytes(run.done as u32, 0, run.total)),
{
    let out = run.output();
    reply_with(req, Status::SUCCESS, out.as_slice())
}

/// Answers a zeroed range.
pub fn finish_zero(req: &IoctlReq, done: Result<(), VfsError>) -> (r: IoctlPlan)
    ensures
        match done {
            Ok(_) => answers_with(*req, r, Status::SUCCESS, Seq::empty()),
            Err(e) => fails_with(r, vfs_status(e)),
        },
{
    match done {
        Ok(_) => reply_empty(req),
        Err(e) => fail(vfs_err(&e)),
    }
}

/// A resume key that was handed out names the file it was asked for.
pub proof fn law_resume_key_names_file(
    s0: &Server2,
    s1: &Server2,
    c0: &Smb2Conn,
    c1: &Smb2Conn,
    tid: u32,
    req: IoctlReq,
    shares: Seq<ShareInfo>,
    r: IoctlPlan,
)
    requires
        ioctl_planned(s0, s1, c0, c1, tid, req, shares, r),
        req.ctl_code == FSCTL_SRV_REQUEST_RESUME_KEY,
        c0.handles@.contains_key(req.file_id),
    ensures
        resumed(c1.resume_keys@, resume_key(req.file_id@, s0.next_resume_nonce)) == Some(req.file_id),
{
}

// ---------------- what the controls are for ----------------

/// A copy copies the chunks that its request lists, from and to the offsets and for the
/// lengths that stand there, out of the file that its resume key was handed out for and
/// into the file that the request is about.
pub proof fn law_copy_is_what_was_asked_for(c: &Smb2Conn, req: IoctlReq, r: Result<CopyRun, (Status, Vec<u8>)>, i: int)
    requires
        copy_planned(c, req, r),
        r is Ok,
        0 <= i < r->Ok_0.chunks@.len(),
    ensures
        ({
            let b = req.input@;
            let run = r->Ok_0;
            &&& run.chunks@.len() == little(b, 24, 4)
            &&& run.chunks@[i].source_offset == little(b, 32 + 24 * i, 8)
            &&& run.chunks@[i].target_offset == little(b, 40 + 24 * i, 8)
            &&& run.chunks@[i].length == little(b, 48 + 24 * i, 4)
            &&& run.target == req.file_id
            &&& run.done == 0 && run.total == 0
            &&& exists|k: int|
                0 <= k < c.resume_keys@.len() && (#[trigger] c.resume_keys@[k]).0@ == b.subrange(0, 24)
                    && c.resume_keys@[k].1 == run.source
        }),
{
    let b = req.input@;
    lemma_little(b, 24);
    lemma_little(b, 32 + 24 * i);
    lemma_little(b, 40 + 24 * i);
    lemma_little(b, 48 + 24 * i);
    lemma_resumed(c.resume_keys@, b.subrange(0, 24));
}

proof fn lemma_resumed(keys: Seq<([u8; 24], [u8; 16])>, key: Seq<u8>)
    ensures
        match resumed(keys, key) {
            Some(f) => exists|k: int| 0 <= k < keys.len() && (#[trigger] keys[k]).0@ == key && keys[k].1 == f,
            None => forall|k: int| 0 <= k < keys.len() ==> (#[trigger] keys[k]).0@ != key,
        },
    decreases keys.len(),
{
    if keys.len() > 0 {
        let d = keys.drop_last();
        lemma_resumed(d, key);
        if keys.last().0@ == key {
            assert(keys[keys.len() - 1].1 == keys.last().1);
        } else {
            match resumed(d, key) {
                Some(f) => {
                    let k = choose|k: int| 0 <= k < d.len() && (#[trigger] d[k]).0@ == key && d[k].1 == f;
                    assert(keys[k] == d[k]);
                },
                None => {
                    assert forall|k: int| 0 <= k < keys.len() implies (#[trigger] keys[k]).0@ != key by {
                        if k < d.len() {
                            assert(d[k].0@ != key);
                        }
                    }
                },
            }
        }
    }
}

/// A copy that lists more than 256 chunks, or a chunk over one megabyte, or more than
/// sixteen in all, is refused and told the limits; a whole copy within them under a resume
/// key that was handed out is carried out.
pub proof fn law_copy_limits(c: &Smb2Conn, req: IoctlReq, r: Result<CopyRun, (Status, Vec<u8>)>)
    requires
        copy_planned(c, req, r),
        copy_whole(req.input@),
    ensures
        ({
            let l = chunks_of(req.input@);
            let fits = l.len() <= 256 && (forall|i: int| 0 <= i < l.len() ==> (#[trigger] l[i]).length <= 1048576)
                && asked_bytes(l, l.len() as int) <= 16777216;
            let known = exists|k: int|
                0 <= k < c.resume_keys@.len() && (#[trigger] c.resume_keys@[k]).0@ == req.input@.subrange(0, 24);
            &&& r is Ok <==> fits && known
            &&& !fits ==> (r matches Err(e) && e.0 == Status::INVALID_PARAMETER && e.1@.subrange(0, 4) == le32(256)
                && e.1@.subrange(4, 8) == le32(1048576) && e.1@.subrange(8, 12) == le32(16777216))
            &&& fits && !known ==> (r matches Err(e) && e.0 == Status::OBJECT_NAME_NOT_FOUND)
        }),
{
    lemma_resumed(c.resume_keys@, req.input@.subrange(0, 24));
    let x = copychunk_bytes(256, 1048576, 16777216);
    assert(x.subrange(0, 4) =~= le32(256));
    assert(x.subrange(4, 8) =~= le32(1048576));
    assert(x.subrange(8, 12) =~= le32(16777216));
}

/// The chunks of a copy are copied one after the other, each once: once one is noted, the
/// next is the one behind it, and the bytes add up. Without both files nothing is copied.
pub proof fn law_chunks_are_copied_in_order(run: CopyRun, next: CopyRun, written: u32, c: &Smb2Conn)
    requires
        run.wf(),
        run.done < run.chunks@.len(),
        written <= run.chunks@[run.done as int].length,
        next.one_more(run, written),
        next.wf(),
    ensures
        c.handles@.dom().contains(run.source) && c.handles@.dom().contains(run.target) ==> run.next_copied(c) == Ok::<
            Option<CopyChunk>,
            Status,
        >(Some(run.chunks@[run.done as int])),
        !(c.handles@.dom().contains(run.source) && c.handles@.dom().contains(run.target)) ==> run.next_copied(c) == Err::<
            Option<CopyChunk>,
            Status,
        >(Status::INVALID_HANDLE),
        next.done == run.done + 1,
        next.total == run.total + written,
        next.chunks == run.chunks && next.source == run.source && next.target == run.target,
        next.done == next.chunks@.len() <==> next.next_copied(c) == Ok::<Option<CopyChunk>, Status>(None),
{
    law_copy_is_bounded(run);
    law_copy_is_bounded(next);
    lemma_asked_grows(run.chunks@, run.done + 1, run.chunks@.len() as int);
}

/// The client is told how many chunks and how many bytes were copied.
pub proof fn law_copy_reports_what_was_done(req: IoctlReq, run: CopyRun, r: IoctlPlan)
    requires
        run.wf(),
        answers_with(req, r, Status::SUCCESS, copychunk_bytes(run.done as u32, 0, run.total)),
    ensures
        r matches IoctlPlan::Reply(s, b) && s == Status::SUCCESS && b@.subrange(48, 52) == le32(run.done as u32)
            && b@.subrange(56, 60) == le32(run.total) && b@.subrange(8, 24) == req.file_id@,
{
    let b = ioctl_body(req.file_id@, req.ctl_code, copychunk_bytes(run.done as u32, 0, run.total));
    assert(b.subrange(48, 52) =~= le32(run.done as u32));
    assert(b.subrange(56, 60) =~= le32(run.total));
    assert(b.subrange(8, 24) =~= req.file_id@);
}

/// Of the dialects that a client says it offered, the best is one that it offered and that
/// the server speaks, and none of these is newer; there is none only where the two have
/// none in common.
pub proof fn law_best_dialect_is_the_newest_common(input: Seq<u8>, n: int)
    requires
        0 <= n,
        24 + 2 * n <= input.len(),
    ensures
        ({
            let spoken = |d: int| d == 0x0202 || d == 0x0210 || d == 0x0300 || d == 0x0302 || d == 0x0311;
            match best_dialect(input, n) {
                Some(d) => {
                    &&& spoken(d as int)
                    &&& exists|i: int| 0 <= i < n && #[trigger] little(input, 24 + 2 * i, 2) == d
                    &&& forall|i: int|
                        0 <= i < n && spoken(#[trigger] little(input, 24 + 2 * i, 2)) ==> little(input, 24 + 2 * i, 2) <= d
                },
                None => forall|i: int| 0 <= i < n ==> !spoken(#[trigger] little(input, 24 + 2 * i, 2)),
            }
        }),
    decreases n,
{
    if n > 0 {
        law_best_dialect_is_the_newest_common(input, n - 1);
        lemma_little(input, 24 + 2 * (n - 1));
        assert(little(input, 24 + 2 * (n - 1), 2) == u16_at(input, 24 + 2 * (n - 1)));
        let best = best_dialect(input, n - 1);
        if best is Some {
            let i = choose|i: int| 0 <= i < n - 1 && #[trigger] little(input, 24 + 2 * i, 2) == best->0;
            assert(little(input, 24 + 2 * i, 2) == best->0);
        }
    }
}

/// A negotiation that was tampered with ends the connection without an answer: where the
/// client's capabilities, guid, security mode or best dialect are not what the server saw.
/// One that was not is confirmed with what the server negotiated.
pub proof fn law_tampered_negotiation_ends_the_connection(
    s0: &Server2,
    s1: &Server2,
    c0: &Smb2Conn,
    c1: &Smb2Conn,
    tid: u32,
    req: IoctlReq,
    shares: Seq<ShareInfo>,
    r: IoctlPlan,
)
    requires
        ioctl_planned(s0, s1, c0, c1, tid, req, shares, r),
        req.ctl_code == 0x0014_0204,
        req.input@.len() >= 24,
    ensures
        r is Silent ==> *c1 == (Smb2Conn { disconnect: true, ..*c0 }),
        little(req.input@, 0, 4) != c0.client_capabilities ==> r is Silent,
        req.input@.subrange(4, 20) != c0.client_guid@ ==> r is Silent,
        little(req.input@, 20, 2) != c0.client_security_mode ==> r is Silent,
        24 + 2 * little(req.input@, 22, 2) <= req.input@.len() && best_dialect(req.input@, little(req.input@, 22, 2))
            != c0.dialect ==> r is Silent,
        !(r is Silent) ==> (r matches IoctlPlan::Reply(s, b) && s == Status::SUCCESS && b@.subrange(48, 52) == le32(
            c0.advertised_caps,
        ) && b@.subrange(52, 68) == s0.guid@ && *c1 == *c0) && (c0.dialect matches Some(d) ==> (
        r->Reply_1)@.subrange(70, 72) == le16(d)),
{
    lemma_little(req.input@, 0);
    lemma_little(req.input@, 20);
    lemma_little(req.input@, 22);
    let v = validation(s0, c0);
    let b = ioctl_body(req.file_id@, req.ctl_code, v);
    assert(b.subrange(48, 52) =~= le32(c0.advertised_caps));
    assert(b.subrange(52, 68) =~= s0.guid@);
    match c0.dialect {
        Some(d) => {
            assert(b.subrange(70, 72) =~= le16(d));
        },
        None => {},
    }
}

/// A range that is to be zeroed is the one that the request names: from its first number
/// up to its second.
pub proof fn law_zeroed_range_is_the_one_named(server: &Server2, c: &Smb2Conn, tid: u32, req: IoctlReq, r: IoctlPlan)
    requires
        plain_control(server, c, tid, req, r),
        req.ctl_code == 0x0009_80C8,
    ensures
        r matches IoctlPlan::Zero { start, len } ==> start == little(req.input@, 0, 8) && start + len == little(
            req.input@,
            8,
            8,
        ) && c.handles@.dom().contains(req.file_id),
        req.input@.len() >= 16 && little(req.input@, 0, 8) <= little(req.input@, 8, 8) && c.handles@.dom().contains(
            req.file_id,
        ) && share_of(server, c, tid) is Some ==> r is Zero,
{
    lemma_little(req.input@, 0);
    lemma_little(req.input@, 8);
}

/// A resume key starts with the id of the file that it is for, and the client is told
/// exactly the key under which the file is then found.
pub proof fn law_resume_key_is_handed_out(
    s0: &Server2,
    s1: &Server2,
    c0: &Smb2Conn,
    c1: &Smb2Conn,
    tid: u32,
    req: IoctlReq,
    shares: Seq<ShareInfo>,
    r: IoctlPlan,
)
    requires
        ioctl_planned(s0, s1, c0, c1, tid, req, shares, r),
        req.ctl_code == 0x0014_0078,
    ensures
        c0.handles@.dom().contains(req.file_id) <==> (r matches IoctlPlan::Reply(s, b) && s == Status::SUCCESS),
        c0.handles@.dom().contains(req.file_id) ==> (r matches IoctlPlan::Reply(s, b) && resumed(
            c1.resume_keys@,
            b@.subrange(48, 72),
        ) == Some(req.file_id) && b@.subrange(48, 64) == req.file_id@),
{
    if c0.handles@.contains_key(req.file_id) {
        law_resume_key_names_file(s0, s1, c0, c1, tid, req, shares, r);
        let key = resume_key(req.file_id@, s0.next_resume_nonce);
        let b = ioctl_body(req.file_id@, req.ctl_code, key + zeros(8));
        assert(b.subrange(48, 72) =~= key);
        assert(b.subrange(48, 64) =~= req.file_id@);
    }
}

/// A resilient handle is durable from then on, for the time that is asked for in
/// milliseconds, or a minute.
pub proof fn law_resilient_handle_is_durable(c0: &Smb2Conn, c1: &Smb2Conn, req: IoctlReq)
    requires
        made_resilient(c0, c1, req),
        c0.handles@.dom().contains(req.file_id),
    ensures
        c1.durable@.dom().contains(req.file_id),
        ({
            let e = c1.durable@[req.file_id];
            &&& e.rel@ == c0.handles@[req.file_id].rel@
            &&& e.owner_user@ == c0.user@
            &&& e.timeout == if req.input@.len() >= 4 && little(req.input@, 0, 4) != 0 {
                little(req.input@, 0, 4)
            } else {
                60000
            }
        }),
        c1.handles == c0.handles,
{
    lemma_little(req.input@, 0);
}

/// What a transaction reads from a pipe is the front of what the pipe had to say with the
/// replies to the input behind it: nothing is lost or given twice.
pub proof fn law_transaction_writes_then_reads(
    c0: &Smb2Conn,
    c1: &Smb2Conn,
    req: IoctlReq,
    shares: Seq<ShareInfo>,
    mid: Pipe,
    out: Seq<u8>,
)
    requires
        transacted(c0, c1, req, shares, mid, out),
        c0.pipes@[req.file_id].queue().len() == 0,
        replies(c0.pipes@[req.file_id].unread() + req.input@, shares).len() == 1,
        replies(c0.pipes@[req.file_id].unread() + req.input@, shares)[0].len() <= req.max_output,
    ensures
        out == replies(c0.pipes@[req.file_id].unread() + req.input@, shares)[0],
        c1.pipes@[req.file_id].queue().len() == 0,
{
    let a = replies(c0.pipes@[req.file_id].unread() + req.input@, shares);
    let q = mid.queue();
    assert(q =~= a);
    assert(out =~= a[0]);
}

} // verus!
