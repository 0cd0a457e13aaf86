//! SMB1 message parsing and response assembly, AndX chaining included in both.
use vstd::prelude::*;
use vstd::slice::slice_subrange;
use crate::bytes::{copy_all, get_u16, get_u32, le16, le32, lemma_little, little, matches_at, patched, put_at, put_bytes, put_u16, put_u32, put_u8, put_zeros, stands_at, u16_at, u32_at, zeros};
use crate::smb::{dos_code, status_code, status_of, to_dos, Status};
use crate::smb::{COM_LOCKING_ANDX, COM_LOGOFF_ANDX, COM_OPEN_ANDX, COM_READ_ANDX, COM_SESSION_SETUP_ANDX, COM_TREE_CONNECT_ANDX, COM_WRITE_ANDX};
use crate::smb::{FLAGS2_LONG_NAMES, FLAGS2_NT_STATUS, FLAGS2_UNICODE, FLAGS_CASE_SENSITIVE, FLAGS_RESPONSE, SMB_MAGIC};

verus! {

/// Length of the fixed SMB1 header.
pub const HDR_LEN: usize = 32;

/// The fields of an SMB1 header.
#[derive(Debug, Clone, Copy)]
pub struct SmbHeader {
    pub command: u8,
    pub status: Status,
    pub flags: u8,
    pub flags2: u16,
    pub pid_high: u16,
    pub tid: u16,
    pub pid: u16,
    pub uid: u16,
    pub mid: u16,
}

/// One command of a message: the shared header and where its words and bytes lie.
pub struct Request<'a> {
    pub hdr: SmbHeader,
    /// Full message buffer (header + params + bytes).
    pub buf: &'a [u8],
    /// Offset of the WordCount byte.
    pub wc_off: usize,
    pub wct: usize,
    /// Offset of the ByteCount low byte.
    pub bc_off: usize,
}

impl<'a> Request<'a> {
    /// The parameter words as far as the message holds them.
    pub open spec fn words(&self) -> Seq<u8> {
        let start = self.wc_off + 1;
        let end = if start + 2 * self.wct <= self.buf@.len() {
            start + 2 * self.wct
        } else {
            self.buf@.len() as int
        };
        self.buf@.subrange(start, end)
    }

    /// The byte area as far as the message holds it; empty without a ByteCount.
    pub open spec fn byte_area(&self) -> Seq<u8> {
        if self.bc_off == 0 || self.bc_off + 2 > self.buf@.len() {
            Seq::empty()
        } else {
            let start = self.bc_off + 2;
            let bc = u16_at(self.buf@, self.bc_off as int);
            let end = if start + bc <= self.buf@.len() {
                start + bc
            } else {
                self.buf@.len() as int
            };
            self.buf@.subrange(start, end)
        }
    }

    /// The parameter words.
    pub fn word_bytes(&self) -> (w: &'a [u8])
        requires
            self.wc_off < self.buf@.len(),
        ensures
            w@ == self.words(),
    {
        let n: usize = self.buf.len();
        let start: usize = self.wc_off + 1;
        let room: usize = n - start;
        let end: usize = if self.wct <= room / 2 {
            start + 2 * self.wct
        } else {
            n
        };
        slice_subrange(self.buf, start, end)
    }

    /// The byte area behind the ByteCount.
    pub fn data(&self) -> (d: &'a [u8])
        ensures
            d@ == self.byte_area(),
    {
        let n: usize = self.buf.len();
        if self.bc_off == 0 || self.bc_off > n || n - self.bc_off < 2 {
            let d = slice_subrange(self.buf, 0, 0);
            assert(d@ =~= Seq::<u8>::empty());
            return d;
        }
        let bc: usize = get_u16(self.buf, self.bc_off) as usize;
        let start: usize = self.bc_off + 2;
        let end: usize = if bc <= n - start {
            start + bc
        } else {
            n
        };
        slice_subrange(self.buf, start, end)
    }

    /// The next command of an AndX chain.
    pub fn andx_command(&self) -> (c: Option<u8>)
        requires
            self.wc_off < self.buf@.len(),
            self.wct >= 2 ==> self.wc_off + 1 < self.buf@.len(),
        ensures
            c == if self.wct >= 2 && self.words()[0] != 0xFF {
                Some(self.words()[0])
            } else {
                None
            },
    {
        let w = self.word_bytes();
        if self.wct >= 2 && w[0] != 0xFF {
            Some(w[0])
        } else {
            None
        }
    }

    /// Where the next command of an AndX chain lies.
    pub fn andx_offset(&self) -> (o: Option<usize>)
        requires
            self.wc_off < self.buf@.len(),
            self.wct >= 3 ==> self.wc_off + 1 < self.buf@.len(),
            self.wct >= 3 && self.buf@[self.wc_off + 1] != 0xFF ==> self.wc_off + 4 < self.buf@.len(),
        ensures
            o == if self.wct >= 3 && self.words()[0] != 0xFF {
                Some(u16_at(self.words(), 2) as usize)
            } else {
                None
            },
    {
        let w = self.word_bytes();
        if self.wct >= 3 && w[0] != 0xFF {
            Some(get_u16(w, 2) as usize)
        } else {
            None
        }
    }

    /// Whether strings are Unicode.
    pub fn unicode(&self) -> (u: bool)
        ensures
            u == (self.hdr.flags2 & FLAGS2_UNICODE != 0),
    {
        self.hdr.flags2 & FLAGS2_UNICODE != 0
    }

    /// Whether the client speaks NT status.
    pub fn status32(&self) -> (u: bool)
        ensures
            u == (self.hdr.flags2 & FLAGS2_NT_STATUS != 0),
    {
        self.hdr.flags2 & FLAGS2_NT_STATUS != 0
    }
}

/// Whether `buf` starts with an SMB1 header and a WordCount byte.
pub open spec fn has_header(buf: Seq<u8>) -> bool {
    buf.len() >= HDR_LEN + 1 && stands_at(buf, SMB_MAGIC@, 0)
}

/// The header fields at the start of `buf`.
pub open spec fn header_of(buf: Seq<u8>) -> SmbHeader {
    SmbHeader {
        command: buf[4],
        status: status_of(u32_at(buf, 5)),
        flags: buf[9],
        flags2: u16_at(buf, 10),
        pid_high: u16_at(buf, 12),
        tid: u16_at(buf, 24),
        pid: u16_at(buf, 26),
        uid: u16_at(buf, 28),
        mid: u16_at(buf, 30),
    }
}

/// Parses an SMB header; gives it with the offset of the WordCount byte.
pub fn parse_header(buf: &[u8]) -> (r: Option<(SmbHeader, usize)>)
    ensures
        r == if has_header(buf@) {
            Some((header_of(buf@), HDR_LEN))
        } else {
            None
        },
{
    if buf.len() < HDR_LEN + 1 {
        return None;
    }
    let magic: [u8; 4] = SMB_MAGIC;
    if !matches_at(buf, magic.as_slice(), 0) {
        return None;
    }
    let hdr = SmbHeader {
        command: buf[4],
        status: Status::from_raw(get_u32(buf, 5)),
        flags: buf[9],
        flags2: get_u16(buf, 10),
        pid_high: get_u16(buf, 12),
        tid: get_u16(buf, 24),
        pid: get_u16(buf, 26),
        uid: get_u16(buf, 28),
        mid: get_u16(buf, 30),
    };
    Some((hdr, HDR_LEN))
}

/// Whether a command with all its words and a ByteCount lies at `offset`.
pub open spec fn command_at(buf: Seq<u8>, offset: int) -> bool {
    &&& has_header(buf)
    &&& 0 <= offset
    &&& offset + 1 < buf.len()
    &&& offset + 1 + 2 * buf[offset] + 2 <= buf.len()
}

/// A view of the command at `offset` of a message.
pub fn chained_request<'a>(buf: &'a [u8], offset: usize) -> (r: Option<Request<'a>>)
    ensures
        r is Some <==> command_at(buf@, offset as int),
        r matches Some(q) ==> {
            &&& q.hdr == header_of(buf@)
            &&& q.buf@ == buf@
            &&& q.wc_off == offset
            &&& q.wct == buf@[offset as int]
            &&& q.bc_off == offset + 1 + 2 * q.wct
        },
{
    let n: usize = buf.len();
    if offset >= n || n - offset <= 1 {
        return None;
    }
    let wct: usize = buf[offset] as usize;
    if n - offset - 1 < 2 * wct + 2 {
        return None;
    }
    let bc_off: usize = offset + 1 + 2 * wct;
    match parse_header(buf) {
        Some((hdr, _)) => Some(Request { hdr, buf, wc_off: offset, wct, bc_off }),
        None => None,
    }
}

/// One response body (parameters + bytes), possibly part of an AndX chain.
pub struct RespBody {
    pub command: u8,
    pub params: Vec<u8>,
    /// Some messages (NEGOTIATE) carry one byte more between words and ByteCount.
    pub trailer_byte: Option<u8>,
    pub bytes: Vec<u8>,
    /// SESSION_SETUP and TREE_CONNECT return fresh ids in the header.
    pub uid_override: Option<u16>,
    pub tid_override: Option<u16>,
}

/// What a response body holds.
pub struct BodyView {
    pub command: u8,
    pub params: Seq<u8>,
    pub trailer_byte: Option<u8>,
    pub bytes: Seq<u8>,
    pub uid_override: Option<u16>,
    pub tid_override: Option<u16>,
}

impl View for RespBody {
    type V = BodyView;

    open spec fn view(&self) -> BodyView {
        BodyView {
            command: self.command,
            params: self.params@,
            trailer_byte: self.trailer_byte,
            bytes: self.bytes@,
            uid_override: self.uid_override,
            tid_override: self.tid_override,
        }
    }
}

/// A body without a trailer and without fresh ids.
pub open spec fn plain_body(command: u8, params: Seq<u8>, bytes: Seq<u8>) -> BodyView {
    BodyView {
        command,
        params,
        trailer_byte: None,
        bytes,
        uid_override: None,
        tid_override: None,
    }
}

impl RespBody {
    /// A body without a trailer and without fresh ids.
    pub fn new(command: u8, params: Vec<u8>, bytes: Vec<u8>) -> (b: Self)
        ensures
            b@ == plain_body(command, params@, bytes@),
    {
        RespBody {
            command,
            params,
            trailer_byte: None,
            bytes,
            uid_override: None,
            tid_override: None,
        }
    }
}

/// A TRANS2 subcommand. The parameter buffer starts with a one-byte subcommand,
/// then (typically) one pad byte, then fixed 16-bit parameters.
pub struct SubReq<'a> {
    pub subcmd: u8,
    /// Fixed parameters (after subcommand and pad).
    pub params: &'a [u8],
    /// Contents of the data section.
    pub data: &'a [u8],
    /// Frame offset of `params[0]`, for string parity.
    pub param_base: usize,
    /// Frame offset of `data[0]`.
    pub data_base: usize,
    pub unicode: bool,
}

/// Whether a command's words start with an AndX block.
pub open spec fn is_andx(cmd: u8) -> bool {
    cmd == COM_SESSION_SETUP_ANDX || cmd == COM_TREE_CONNECT_ANDX || cmd == COM_OPEN_ANDX || cmd
        == COM_READ_ANDX || cmd == COM_WRITE_ANDX || cmd == COM_LOGOFF_ANDX || cmd == COM_LOCKING_ANDX
}

/// Whether a body can be sent: whole words, but for a trailer byte.
pub open spec fn body_ok(b: BodyView) -> bool {
    b.trailer_byte is Some || b.params.len() % 2 == 0
}

/// The parameter words on the wire, before AndX patching.
pub open spec fn raw_words(b: BodyView) -> Seq<u8> {
    if b.trailer_byte is Some && b.params.len() % 2 != 0 {
        b.params.subrange(0, b.params.len() - 1)
    } else {
        b.params
    }
}

/// The AndX block of a body: the next command and where it starts, or the end mark.
pub open spec fn andx_block(next: Option<u8>, next_off: int) -> Seq<u8> {
    match next {
        Some(cmd) => seq![cmd, 0u8] + le16((next_off % 65536) as u16),
        None => seq![0xFFu8, 0u8, 0u8, 0u8],
    }
}

/// The parameter words on the wire.
pub open spec fn wire_words(b: BodyView, next: Option<u8>, next_off: int) -> Seq<u8> {
    if is_andx(b.command) && b.params.len() >= 4 {
        patched(raw_words(b), 0, andx_block(next, next_off))
    } else {
        raw_words(b)
    }
}

/// The trailer byte, where there is one.
pub open spec fn trailer(b: BodyView) -> Seq<u8> {
    match b.trailer_byte {
        Some(t) => seq![t],
        None => seq![],
    }
}

/// How many bytes a body takes on the wire.
pub open spec fn body_len(b: BodyView) -> int {
    (1 + raw_words(b).len() + trailer(b).len() + 2 + b.bytes.len()) as int
}

/// A body on the wire, where it starts at `start` and `next` follows it.
pub open spec fn body_bytes(b: BodyView, next: Option<u8>, start: int) -> Seq<u8> {
    seq![((raw_words(b).len() / 2) % 256) as u8] + wire_words(b, next, start + body_len(b)) + trailer(b)
        + le16((b.bytes.len() % 65536) as u16) + b.bytes
}

/// The command of the body behind body `i`.
pub open spec fn next_of(bs: Seq<BodyView>, i: int) -> Option<u8> {
    if i + 1 < bs.len() {
        Some(bs[i + 1].command)
    } else {
        None
    }
}

/// Where body `n` of a response starts.
pub open spec fn body_start(bs: Seq<BodyView>, n: int) -> int
    decreases n,
{
    if n <= 0 {
        HDR_LEN as int
    } else {
        body_start(bs, n - 1) + body_len(bs[n - 1])
    }
}

/// The first `n` bodies of a response on the wire.
pub open spec fn chain_bytes(bs: Seq<BodyView>, n: int) -> Seq<u8>
    decreases n,
{
    if n <= 0 {
        seq![]
    } else {
        chain_bytes(bs, n - 1) + body_bytes(bs[n - 1], next_of(bs, n - 1), body_start(bs, n - 1))
    }
}

/// The status field of a response: the code for clients that asked for NT
/// status, else the DOS code and class.
pub open spec fn status_field(flags2: u16, status: Status) -> Seq<u8> {
    if flags2 & FLAGS2_NT_STATUS != 0 {
        le32(status_code(status))
    } else {
        seq![dos_code(status).1, 0u8, dos_code(status).0, 0u8]
    }
}

/// The Flags field of a response.
pub open spec fn reply_flags(flags: u8) -> u8 {
    FLAGS_RESPONSE | (flags & FLAGS_CASE_SENSITIVE)
}

/// The Flags2 field of a response.
pub open spec fn reply_flags2(flags2: u16) -> u16 {
    let kept = (flags2 & (FLAGS2_UNICODE | FLAGS2_LONG_NAMES | FLAGS2_NT_STATUS)) | FLAGS2_LONG_NAMES;
    if flags2 & FLAGS2_NT_STATUS != 0 {
        kept | FLAGS2_NT_STATUS
    } else {
        kept
    }
}

/// The header of a response.
pub open spec fn reply_header(h: SmbHeader, status: Status, first: BodyView) -> Seq<u8> {
    SMB_MAGIC@ + seq![first.command] + status_field(h.flags2, status) + seq![reply_flags(h.flags)] + le16(
        reply_flags2(h.flags2),
    ) + le16(h.pid_high) + zeros(8) + zeros(2) + le16(
        match first.tid_override {
            Some(t) => t,
            None => h.tid,
        },
    ) + le16(h.pid) + le16(
        match first.uid_override {
            Some(u) => u,
            None => h.uid,
        },
    ) + le16(h.mid)
}

/// The bodies that are sent: a bare one where there are none.
pub open spec fn sent_bodies(h: SmbHeader, bs: Seq<BodyView>) -> Seq<BodyView> {
    if bs.len() == 0 {
        seq![plain_body(h.command, Seq::empty(), Seq::empty())]
    } else {
        bs
    }
}

/// A whole response.
pub open spec fn response_bytes(h: SmbHeader, status: Status, bs: Seq<BodyView>) -> Seq<u8> {
    let sent = sent_bodies(h, bs);
    reply_header(h, status, sent[0]) + chain_bytes(sent, sent.len() as int)
}

/// The views of response bodies.
pub open spec fn body_views(bs: Seq<RespBody>) -> Seq<BodyView> {
    bs.map_values(|b: RespBody| b@)
}

fn has_andx(cmd: u8) -> (r: bool)
    ensures
        r == is_andx(cmd),
{
    cmd == COM_SESSION_SETUP_ANDX || cmd == COM_TREE_CONNECT_ANDX || cmd == COM_OPEN_ANDX || cmd
        == COM_READ_ANDX || cmd == COM_WRITE_ANDX || cmd == COM_LOGOFF_ANDX || cmd == COM_LOCKING_ANDX
}

proof fn lemma_reply_header_len(h: SmbHeader, status: Status, first: BodyView)
    ensures
        reply_header(h, status, first).len() == HDR_LEN,
{
}

proof fn lemma_chain_len(bs: Seq<BodyView>, n: int)
    requires
        0 <= n <= bs.len(),
    ensures
        HDR_LEN + chain_bytes(bs, n).len() == body_start(bs, n),
    decreases n,
{
    if n > 0 {
        lemma_chain_len(bs, n - 1);
        let b = bs[n - 1];
        assert(wire_words(b, next_of(bs, n - 1), body_start(bs, n - 1) + body_len(b)).len() == raw_words(b).len());
    }
}

/// The header of a response.
fn make_header(h: &SmbHeader, status: Status, first: &RespBody) -> (out: Vec<u8>)
    ensures
        out@ == reply_header(*h, status, first@),
{
    let magic: [u8; 4] = SMB_MAGIC;
    let mut out: Vec<u8> = copy_all(magic.as_slice());
    put_u8(&mut out, first.command);
    let field = make_status_field(h.flags2, status);
    put_bytes(&mut out, field.as_slice());
    put_u8(&mut out, FLAGS_RESPONSE | (h.flags & FLAGS_CASE_SENSITIVE));
    let mut flags2: u16 = (h.flags2 & (FLAGS2_UNICODE | FLAGS2_LONG_NAMES | FLAGS2_NT_STATUS)) | FLAGS2_LONG_NAMES;
    if h.flags2 & FLAGS2_NT_STATUS != 0 {
        flags2 = flags2 | FLAGS2_NT_STATUS;
    }
    put_u16(&mut out, flags2);
    put_u16(&mut out, h.pid_high);
    put_zeros(&mut out, 8);
    put_zeros(&mut out, 2);
    let tid: u16 = match first.tid_override {
        Some(t) => t,
        None => h.tid,
    };
    put_u16(&mut out, tid);
    put_u16(&mut out, h.pid);
    let uid: u16 = match first.uid_override {
        Some(u) => u,
        None => h.uid,
    };
    put_u16(&mut out, uid);
    put_u16(&mut out, h.mid);
    out
}

/// The status field of a response.
fn make_status_field(flags2: u16, status: Status) -> (out: Vec<u8>)
    ensures
        out@ == status_field(flags2, status),
{
    let mut out: Vec<u8> = Vec::new();
    if flags2 & FLAGS2_NT_STATUS != 0 {
        put_u32(&mut out, status.raw());
    } else {
        let (class, code) = to_dos(status);
        out.push(code);
        out.push(0);
        out.push(class);
        out.push(0);
    }
    assert(out@ =~= status_field(flags2, status));
    out
}

/// A body before its AndX block is filled in: word count and words, and what follows them.
pub open spec fn body_head(b: BodyView) -> Seq<u8> {
    seq![((raw_words(b).len() / 2) % 256) as u8]
}

/// What follows the words of a body.
pub open spec fn body_tail(b: BodyView) -> Seq<u8> {
    trailer(b) + le16((b.bytes.len() % 65536) as u16) + b.bytes
}

proof fn lemma_patch_middle(a: Seq<u8>, w: Seq<u8>, t: Seq<u8>, block: Seq<u8>)
    requires
        block.len() <= w.len(),
    ensures
        patched(a + w + t, a.len() as int, block) == a + patched(w, 0, block) + t,
{
    assert(patched(a + w + t, a.len() as int, block) =~= a + patched(w, 0, block) + t);
}

/// Appends a body with its AndX block as given.
fn put_raw_body(out: &mut Vec<u8>, body: &RespBody)
    requires
        body_ok(body@),
    ensures
        final(out)@ == old(out)@ + body_head(body@) + raw_words(body@) + body_tail(body@),
{
    let mut wcb: usize = body.params.len();
    if body.trailer_byte.is_some() && wcb % 2 != 0 {
        wcb = wcb - 1;
    }
    let words = slice_subrange(body.params.as_slice(), 0, wcb);
    assert(words@ =~= raw_words(body@));
    out.push(((wcb / 2) % 256) as u8);
    put_bytes(out, words);
    if let Some(tb) = body.trailer_byte {
        out.push(tb);
    }
    put_u16(out, (body.bytes.len() % 65536) as u16);
    put_bytes(out, body.bytes.as_slice());
    assert(out@ =~= old(out)@ + body_head(body@) + raw_words(body@) + body_tail(body@));
}

/// The AndX block of a body whose successor starts at `end`.
fn make_block(next: Option<u8>, end: usize) -> (block: Vec<u8>)
    ensures
        block@ == andx_block(next, end as int),
        block@.len() == 4,
{
    let mut block: Vec<u8> = Vec::new();
    match next {
        Some(cmd) => {
            block.push(cmd);
            block.push(0);
            put_u16(&mut block, (end % 65536) as u16);
        },
        None => {
            block.push(0xFF);
            block.push(0);
            block.push(0);
            block.push(0);
        },
    }
    assert(block@ =~= andx_block(next, end as int));
    block
}

fn put_body(out: &mut Vec<u8>, body: &RespBody, next: Option<u8>)
    requires
        body_ok(body@),
    ensures
        final(out)@ == old(out)@ + body_bytes(body@, next, old(out)@.len() as int),
{
    let at: usize = out.len();
    put_raw_body(out, body);
    let ghost a = old(out)@ + body_head(body@);
    let ghost b = body@;
    if has_andx(body.command) && body.params.len() >= 4 {
        let end: usize = out.len();
        assert(end == at + body_len(b));
        let block = make_block(next, end);
        proof {
            lemma_patch_middle(a, raw_words(b), body_tail(b), block@);
        }
        put_at(out, at + 1, block.as_slice());
        assert(out@ == a + wire_words(b, next, at + body_len(b)) + body_tail(b));
    }
    assert(out@ =~= old(out)@ + body_bytes(b, next, at as int));
}

/// Assembles a whole response from the request's header and the bodies. The
/// first body supplies command and fresh ids; every AndX body names the body
/// behind it and its offset, the last one carries the end mark.
pub fn build_response(req_hdr: &SmbHeader, status: Status, bodies: Vec<RespBody>) -> (out: Vec<u8>)
    requires
        forall|i: int| 0 <= i < bodies@.len() ==> body_ok(#[trigger] bodies@[i]@),
    ensures
        out@ == response_bytes(*req_hdr, status, body_views(bodies@)),
{
    let mut bodies = bodies;
    let ghost given = body_views(bodies@);
    if bodies.len() == 0 {
        bodies.push(RespBody::new(req_hdr.command, Vec::new(), Vec::new()));
        assert(body_views(bodies@) =~= sent_bodies(*req_hdr, given));
    }
    let ghost sent = body_views(bodies@);
    let mut out: Vec<u8> = make_header(req_hdr, status, &bodies[0]);
    let ghost head = reply_header(*req_hdr, status, sent[0]);
    proof {
        lemma_reply_header_len(*req_hdr, status, sent[0]);
        assert(out@ =~= head + chain_bytes(sent, 0));
    }
    let mut i: usize = 0;
    while i < bodies.len()
        invariant
            i <= bodies@.len(),
            sent == body_views(bodies@),
            forall|k: int| 0 <= k < bodies@.len() ==> body_ok(#[trigger] bodies@[k]@),
            head.len() == HDR_LEN,
            out@ == head + chain_bytes(sent, i as int),
        decreases bodies@.len() - i,
    {
        let next: Option<u8> = if bodies.len() - i > 1 {
            Some(bodies[i + 1].command)
        } else {
            None
        };
        let ghost before = out@;
        proof {
            lemma_chain_len(sent, i as int);
            assert(bodies@[i as int]@ == sent[i as int]);
            assert(next == next_of(sent, i as int));
        }
        put_body(&mut out, &bodies[i], next);
        i += 1;
        assert(out@ =~= head + chain_bytes(sent, i as int));
    }
    out
}

/// A client that parses a response finds the first body's command, the echoed
/// process and multiplex ids, the tree and user ids that the first body hands out, else
/// the request's, and the status where the client speaks NT status.
pub proof fn law_response_header(h: SmbHeader, status: Status, bs: Seq<BodyView>)
    ensures
        has_header(response_bytes(h, status, bs)),
        ({
            let first = sent_bodies(h, bs)[0];
            let got = header_of(response_bytes(h, status, bs));
            &&& got.command == first.command
            &&& got.flags == reply_flags(h.flags)
            &&& got.flags2 == reply_flags2(h.flags2)
            &&& got.pid_high == h.pid_high
            &&& got.pid == h.pid
            &&& got.mid == h.mid
            &&& got.tid == (match first.tid_override {
                Some(t) => t,
                None => h.tid,
            })
            &&& got.uid == (match first.uid_override {
                Some(u) => u,
                None => h.uid,
            })
            &&& h.flags2 & FLAGS2_NT_STATUS != 0 ==> status_code(got.status) == status_code(status)
        }),
{
    lemma_response_header(h, status, bs);
    lemma_status_back(header_of(response_bytes(h, status, bs)).status, status);
}

proof fn lemma_status_back(a: Status, b: Status)
    ensures
        a == status_of(status_code(b)) ==> status_code(a) == status_code(b),
{
    crate::smb::law_status_round_trip(status_code(b));
}

proof fn lemma_response_header(h: SmbHeader, status: Status, bs: Seq<BodyView>)
    ensures
        has_header(response_bytes(h, status, bs)),
        ({
            let first = sent_bodies(h, bs)[0];
            let got = header_of(response_bytes(h, status, bs));
            &&& got.command == first.command
            &&& got.flags == reply_flags(h.flags)
            &&& got.flags2 == reply_flags2(h.flags2)
            &&& got.pid_high == h.pid_high
            &&& got.pid == h.pid
            &&& got.mid == h.mid
            &&& got.tid == (match first.tid_override {
                Some(t) => t,
                None => h.tid,
            })
            &&& got.uid == (match first.uid_override {
                Some(u) => u,
                None => h.uid,
            })
            &&& h.flags2 & FLAGS2_NT_STATUS != 0 ==> got.status == status_of(status_code(status))
        }),
{
    let sent = sent_bodies(h, bs);
    let r = response_bytes(h, status, bs);
    let head = reply_header(h, status, sent[0]);
    lemma_reply_header_len(h, status, sent[0]);
    lemma_chain_len(sent, sent.len() as int);
    lemma_start_grows(sent, 1, sent.len() as int);
    assert(r.subrange(0, 4) =~= SMB_MAGIC@);
    assert forall|i: int| 0 <= i < 32 implies r[i] == head[i] by {}
}

proof fn lemma_start_grows(bs: Seq<BodyView>, m: int, n: int)
    requires
        0 <= m <= n <= bs.len(),
    ensures
        body_start(bs, m) <= body_start(bs, n),
        m < n ==> body_start(bs, m) + body_len(bs[m]) <= body_start(bs, n),
    decreases n,
{
    if m < n {
        lemma_start_grows(bs, m, n - 1);
    }
}

proof fn lemma_chain_prefix(bs: Seq<BodyView>, m: int, n: int)
    requires
        0 <= m <= n <= bs.len(),
    ensures
        chain_bytes(bs, m).len() <= chain_bytes(bs, n).len(),
        chain_bytes(bs, n).subrange(0, chain_bytes(bs, m).len() as int) == chain_bytes(bs, m),
    decreases n,
{
    if m < n {
        lemma_chain_prefix(bs, m, n - 1);
        assert(chain_bytes(bs, n).subrange(0, chain_bytes(bs, m).len() as int) =~= chain_bytes(bs, m));
    } else {
        assert(chain_bytes(bs, n).subrange(0, chain_bytes(bs, m).len() as int) =~= chain_bytes(bs, m));
    }
}

/// Each body of a response stands where `body_start` says.
pub proof fn law_body_placed(h: SmbHeader, status: Status, bs: Seq<BodyView>, i: int)
    requires
        0 <= i < sent_bodies(h, bs).len(),
    ensures
        ({
            let sent = sent_bodies(h, bs);
            stands_at(
                response_bytes(h, status, bs),
                body_bytes(sent[i], next_of(sent, i), body_start(sent, i)),
                body_start(sent, i),
            )
        }),
{
    let sent = sent_bodies(h, bs);
    let r = response_bytes(h, status, bs);
    let b = body_bytes(sent[i], next_of(sent, i), body_start(sent, i));
    lemma_reply_header_len(h, status, sent[0]);
    lemma_chain_len(sent, i);
    lemma_chain_len(sent, i + 1);
    lemma_chain_prefix(sent, i + 1, sent.len() as int);
    let c = chain_bytes(sent, i + 1);
    assert(c == chain_bytes(sent, i) + b);
    let s = body_start(sent, i);
    assert(r.subrange(s, s + b.len()) =~= b) by {
        assert forall|k: int| 0 <= k < b.len() implies r[s + k] == b[k] by {
            let full = chain_bytes(sent, sent.len() as int);
            assert(r[s + k] == full[s + k - HDR_LEN]);
            assert(full.subrange(0, c.len() as int)[s + k - HDR_LEN] == c[s + k - HDR_LEN]);
        }
    }
}

/// AndX chaining: an AndX body names the command of the body behind it and the
/// offset at which that body starts; the last one carries the end mark and
/// offset zero.
pub proof fn law_andx_links(h: SmbHeader, status: Status, bs: Seq<BodyView>, i: int)
    requires
        0 <= i < sent_bodies(h, bs).len(),
        is_andx(sent_bodies(h, bs)[i].command),
        sent_bodies(h, bs)[i].params.len() >= 4,
        body_ok(sent_bodies(h, bs)[i]),
    ensures
        ({
            let sent = sent_bodies(h, bs);
            let r = response_bytes(h, status, bs);
            let s = body_start(sent, i);
            &&& i + 1 < sent.len() ==> r[s + 1] == sent[i + 1].command && u16_at(r, s + 3) == body_start(
                sent,
                i + 1,
            ) % 65536
            &&& i + 1 == sent.len() ==> r[s + 1] == 0xFF && u16_at(r, s + 3) == 0
        }),
{
    let sent = sent_bodies(h, bs);
    let r = response_bytes(h, status, bs);
    let s = body_start(sent, i);
    law_body_placed(h, status, bs, i);
    let b = body_bytes(sent[i], next_of(sent, i), s);
    let block = andx_block(next_of(sent, i), s + body_len(sent[i]));
    assert(b[1] == block[0] && b[3] == block[2] && b[4] == block[3]);
    assert(r.subrange(s, s + b.len())[1] == r[s + 1]);
    assert(r.subrange(s, s + b.len())[3] == r[s + 3]);
    assert(r.subrange(s, s + b.len())[4] == r[s + 4]);
    assert(body_start(sent, i + 1) == s + body_len(sent[i]));
}

/// What holds of the one body that is sent.
pub proof fn lemma_only_body(v: Seq<RespBody>, b: BodyView)
    requires
        body_views(v) == seq![b],
    ensures
        v.len() == 1,
        v[0]@ == b,
{
    assert(body_views(v).len() == v.len());
    assert(body_views(v)[0] == v[0]@);
}

/// The fields of a header stand where the wire has them, least significant byte first; only
/// a message with the mark of the older dialect has one.
#[verifier::rlimit(40)]
#[verifier::spinoff_prover]
pub proof fn law_request_header_fields(b: Seq<u8>)
    requires
        has_header(b),
    ensures
        ({
            let h = header_of(b);
            &&& b.len() >= 33 && b[0] == 0xFF && b[1] == 0x53 && b[2] == 0x4D && b[3] == 0x42
            &&& h.command == b[4]
            &&& h.flags == b[9]
            &&& h.flags2 == little(b, 10, 2)
            &&& h.pid_high == little(b, 12, 2)
            &&& h.tid == little(b, 24, 2)
            &&& h.pid == little(b, 26, 2)
            &&& h.uid == little(b, 28, 2)
            &&& h.mid == little(b, 30, 2)
        }),
{
    lemma_little(b, 10);
    lemma_little(b, 12);
    lemma_little(b, 24);
    lemma_little(b, 26);
    lemma_little(b, 28);
    lemma_little(b, 30);
    assert(b[0] == SMB_MAGIC@[0] && b[1] == SMB_MAGIC@[1] && b[2] == SMB_MAGIC@[2] && b[3] == SMB_MAGIC@[3]);
}

} // verus!
