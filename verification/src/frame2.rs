//! SMB2 messages on the wire: headers, responses, notifications, signatures and
//! transform frames.
use vstd::prelude::*;
use vstd::slice::slice_subrange;
use crate::bytes::{copy_all, copy_range, get_u16, get_u32, get_u64, le16, le32, le64, lemma_little, lemma_u16_round_trip, lemma_u32_round_trip, lemma_u64_round_trip, little, matches_at, patched, put_at, put_bytes, put_u16, put_u32, put_u64, put_zeros, same_bytes, stands_at, u16_at, u32_at, u64_at, zeros};
use crate::sealing::{aes128_cmac, aes128_cmac_of, bytes_of, cipher_is_gcm, hmac_sha256, hmac_sha256_of, nonce_len, open, opened_of, seal, sealed_of, MAX_SEALED, TAG_LEN};
use crate::smb::{status_code, Status};
use crate::text::{chars_of, text_of_range};
use crate::wildcard::last_slash;

verus! {

// ---------------- constants ----------------

/// The mark in front of an SMB2 message.
pub const SMB2_MAGIC: [u8; 4] = [0xFE, 0x53, 0x4D, 0x42];

/// The mark in front of an encrypted message.
pub const TF_MAGIC: [u8; 4] = [0xFD, 0x53, 0x4D, 0x42];

/// The mark in front of a compressed message.
pub const COMPRESSED_MAGIC: [u8; 4] = [0xFC, 0x53, 0x4D, 0x42];

/// Length of an SMB2 header.
pub const HEADER_LEN: usize = 64;

/// A response or notification.
pub const FLAG_SERVER_TO_REDIR: u32 = 0x0000_0001;

/// The header carries an async id.
pub const FLAG_ASYNC: u32 = 0x0000_0002;

/// The request goes on from the one before it.
pub const FLAG_RELATED: u32 = 0x0000_0004;

/// The message is signed.
pub const FLAG_SIGNED: u32 = 0x0000_0008;

pub const CMD_NEGOTIATE: u16 = 0x0000;

pub const CMD_SESSION_SETUP: u16 = 0x0001;

pub const CMD_LOGOFF: u16 = 0x0002;

pub const CMD_TREE_CONNECT: u16 = 0x0003;

pub const CMD_TREE_DISCONNECT: u16 = 0x0004;

pub const CMD_CREATE: u16 = 0x0005;

pub const CMD_CLOSE: u16 = 0x0006;

pub const CMD_FLUSH: u16 = 0x0007;

pub const CMD_READ: u16 = 0x0008;

pub const CMD_WRITE: u16 = 0x0009;

pub const CMD_LOCK: u16 = 0x000A;

pub const CMD_IOCTL: u16 = 0x000B;

pub const CMD_CANCEL: u16 = 0x000C;

pub const CMD_ECHO: u16 = 0x000D;

pub const CMD_QUERY_DIRECTORY: u16 = 0x000E;

pub const CMD_CHANGE_NOTIFY: u16 = 0x000F;

pub const CMD_QUERY_INFO: u16 = 0x0010;

pub const CMD_SET_INFO: u16 = 0x0011;

pub const CMD_OPLOCK_BREAK: u16 = 0x0012;

pub const DIALECT_202: u16 = 0x0202;

pub const DIALECT_210: u16 = 0x0210;

pub const DIALECT_300: u16 = 0x0300;

pub const DIALECT_302: u16 = 0x0302;

pub const DIALECT_311: u16 = 0x0311;

/// Stands for "any SMB2 dialect" in answers to probes.
pub const DIALECT_WILDCARD: u16 = 0x02FF;

// ---------------- headers ----------------

/// The fields of a request header.
#[derive(Clone, Copy, Debug)]
pub struct Header2 {
    pub credit_charge: u16,
    pub status: u32,
    pub command: u16,
    pub credits: u16,
    pub flags: u32,
    pub next_command: u32,
    pub message_id: u64,
    pub tree_id: u32,
    pub session_id: u64,
}

/// Whether a message starts with an SMB2 header.
pub open spec fn has_header2(b: Seq<u8>) -> bool {
    b.len() >= HEADER_LEN && stands_at(b, SMB2_MAGIC@, 0)
}

/// The header at the start of a message.
pub open spec fn header2_of(b: Seq<u8>) -> Header2 {
    Header2 {
        credit_charge: u16_at(b, 6),
        status: u32_at(b, 8),
        command: u16_at(b, 12),
        credits: u16_at(b, 14),
        flags: u32_at(b, 16),
        next_command: u32_at(b, 20),
        message_id: u64_at(b, 24),
        tree_id: u32_at(b, 36),
        session_id: u64_at(b, 40),
    }
}

impl Header2 {
    /// Whether the message is signed.
    pub open spec fn signed(&self) -> bool {
        self.flags & FLAG_SIGNED != 0
    }

    /// Reads the header of a message.
    pub fn parse(b: &[u8]) -> (r: Option<Header2>)
        ensures
            r == if has_header2(b@) {
                Some(header2_of(b@))
            } else {
                None
            },
    {
        let magic: [u8; 4] = SMB2_MAGIC;
        if b.len() < HEADER_LEN || !matches_at(b, magic.as_slice(), 0) {
            return None;
        }
        Some(
            Header2 {
                credit_charge: get_u16(b, 6),
                status: get_u32(b, 8),
                command: get_u16(b, 12),
                credits: get_u16(b, 14),
                flags: get_u32(b, 16),
                next_command: get_u32(b, 20),
                message_id: get_u64(b, 24),
                tree_id: get_u32(b, 36),
                session_id: get_u64(b, 40),
            },
        )
    }

    /// Whether the message is signed.
    pub fn is_signed(&self) -> (r: bool)
        ensures
            r == self.signed(),
    {
        self.flags & FLAG_SIGNED != 0
    }

    /// Whether the header carries an async id.
    pub fn is_async(&self) -> (r: bool)
        ensures
            r == (self.flags & FLAG_ASYNC != 0),
    {
        self.flags & FLAG_ASYNC != 0
    }
}

/// Where the file id stands in the body of a request that carries one.
pub open spec fn file_id_offset(command: u16) -> Option<usize> {
    if command == CMD_CLOSE || command == CMD_FLUSH || command == CMD_LOCK || command == CMD_IOCTL || command
        == CMD_QUERY_DIRECTORY || command == CMD_CHANGE_NOTIFY {
        Some(8)
    } else if command == CMD_READ || command == CMD_WRITE || command == CMD_SET_INFO {
        Some(16)
    } else if command == CMD_QUERY_INFO {
        Some(24)
    } else {
        None
    }
}

/// Where the file id stands in the body of a request that carries one.
pub fn file_id_body_offset(command: u16) -> (r: Option<usize>)
    ensures
        r == file_id_offset(command),
{
    if command == CMD_CLOSE || command == CMD_FLUSH || command == CMD_LOCK || command == CMD_IOCTL || command
        == CMD_QUERY_DIRECTORY || command == CMD_CHANGE_NOTIFY {
        Some(8)
    } else if command == CMD_READ || command == CMD_WRITE || command == CMD_SET_INFO {
        Some(16)
    } else if command == CMD_QUERY_INFO {
        Some(24)
    } else {
        None
    }
}

// ---------------- responses ----------------

/// The body of an error without details.
pub open spec fn error_bytes() -> Seq<u8> {
    le16(9) + zeros(6)
}

/// The body of an error without details.
pub fn error_resp() -> (b: Vec<u8>)
    ensures
        b@ == error_bytes(),
{
    let mut b: Vec<u8> = Vec::new();
    put_u16(&mut b, 9);
    assert(b@ =~= le16(9));
    put_zeros(&mut b, 6);
    b
}

/// The credits granted: what the client asks for, at least its charge and one, at
/// most 512.
pub open spec fn credit_grant(h: Header2) -> u16 {
    let wanted = if h.credits >= h.credit_charge {
        h.credits
    } else {
        h.credit_charge
    };
    if wanted < 1 {
        1
    } else if wanted > 512 {
        512
    } else {
        wanted
    }
}

/// The header of a message: charge, status, command, credits, flags, message id,
/// the eight bytes of process and tree id or async id, and session id.
#[verifier::opaque]
pub open spec fn header_bytes(
    charge: u16,
    status: u32,
    command: u16,
    credits: u16,
    flags: u32,
    message_id: u64,
    middle: Seq<u8>,
    session_id: u64,
) -> Seq<u8> {
    SMB2_MAGIC@ + le16(64) + le16(charge) + le32(status) + le16(command) + le16(credits) + le32(flags) + le32(0) + le64(
        message_id,
    ) + middle + le64(session_id) + zeros(16)
}

fn put_header(
    charge: u16,
    status: u32,
    command: u16,
    credits: u16,
    flags: u32,
    message_id: u64,
    middle: &[u8],
    session_id: u64,
) -> (f: Vec<u8>)
    requires
        middle@.len() == 8,
    ensures
        f@ == header_bytes(charge, status, command, credits, flags, message_id, middle@, session_id),
        f@.len() == HEADER_LEN,
{
    reveal(header_bytes);
    let magic: [u8; 4] = SMB2_MAGIC;
    let mut f = copy_all(magic.as_slice());
    put_u16(&mut f, 64);
    put_u16(&mut f, charge);
    put_u32(&mut f, status);
    put_u16(&mut f, command);
    put_u16(&mut f, credits);
    put_u32(&mut f, flags);
    put_u32(&mut f, 0);
    put_u64(&mut f, message_id);
    put_bytes(&mut f, middle);
    put_u64(&mut f, session_id);
    put_zeros(&mut f, 16);
    f
}

/// The body that a response carries: an error without details where a handler
/// that did not succeed gave none.
pub open spec fn sent_body(status: Status, body: Seq<u8>) -> Seq<u8> {
    if status != Status::SUCCESS && body.len() == 0 {
        error_bytes()
    } else {
        body
    }
}

/// The response to a request: message and tree id echoed, credits granted, the
/// session id as given.
pub open spec fn response_frame(h: Header2, status: Status, body: Seq<u8>, session_id: u64) -> Seq<u8> {
    header_bytes(
        h.credit_charge,
        status_code(status),
        h.command,
        credit_grant(h),
        1,
        h.message_id,
        le32(0) + le32(h.tree_id),
        session_id,
    ) + sent_body(status, body)
}

/// Builds the response to a request.
pub fn response(h: &Header2, status: Status, body: Vec<u8>, session_id: u64) -> (f: Vec<u8>)
    ensures
        f@ == response_frame(*h, status, body@, session_id),
        f@.len() >= HEADER_LEN,
{
    let body = if status != Status::SUCCESS && body.len() == 0 {
        error_resp()
    } else {
        body
    };
    let wanted: u16 = if h.credits >= h.credit_charge {
        h.credits
    } else {
        h.credit_charge
    };
    let grant: u16 = if wanted < 1 {
        1
    } else if wanted > 512 {
        512
    } else {
        wanted
    };
    let mut middle: Vec<u8> = Vec::new();
    put_u32(&mut middle, 0);
    assert(middle@ =~= le32(0));
    put_u32(&mut middle, h.tree_id);
    let mut f = put_header(
        h.credit_charge,
        status.raw(),
        h.command,
        grant,
        1,
        h.message_id,
        middle.as_slice(),
        session_id,
    );
    put_bytes(&mut f, body.as_slice());
    f
}

/// A message about a request that is answered later: the async id stands in place
/// of process and tree id.
pub open spec fn async_frame(
    session_id: u64,
    message_id: u64,
    async_id: u64,
    command: u16,
    status: Status,
    body: Seq<u8>,
) -> Seq<u8> {
    header_bytes(1, status_code(status), command, 1, 3, message_id, le64(async_id), session_id) + body
}

/// Builds a message about a request that is answered later.
pub fn build_async_frame(
    session_id: u64,
    message_id: u64,
    async_id: u64,
    command: u16,
    status: Status,
    body: &[u8],
) -> (f: Vec<u8>)
    ensures
        f@ == async_frame(session_id, message_id, async_id, command, status, body@),
        f@.len() >= HEADER_LEN,
{
    let mut middle: Vec<u8> = Vec::new();
    put_u64(&mut middle, async_id);
    assert(middle@ =~= le64(async_id));
    let mut f = put_header(1, status.raw(), command, 1, 3, message_id, middle.as_slice(), session_id);
    put_bytes(&mut f, body);
    f
}

/// A break notification: no message id, no session.
pub open spec fn break_frame(body: Seq<u8>) -> Seq<u8> {
    header_bytes(0, 0, CMD_OPLOCK_BREAK, 0, 1, u64::MAX, zeros(8), 0) + body
}

/// Builds a break notification.
pub fn build_break_frame(body: &[u8]) -> (f: Vec<u8>)
    ensures
        f@ == break_frame(body@),
        f@.len() >= HEADER_LEN,
{
    let mut middle: Vec<u8> = Vec::new();
    put_zeros(&mut middle, 8);
    assert(middle@ =~= zeros(8));
    let mut f = put_header(0, 0, CMD_OPLOCK_BREAK, 0, 1, u64::MAX, middle.as_slice(), 0);
    put_bytes(&mut f, body);
    f
}

/// The body that answers a probe for SMB2: the wildcard dialect, everything else
/// zero.
pub open spec fn probe_bytes() -> Seq<u8> {
    le16(65) + le16(0) + le16(DIALECT_WILDCARD) + zeros(58)
}

/// The body that answers a probe for SMB2.
pub fn probe_negotiate_resp() -> (b: Vec<u8>)
    ensures
        b@ == probe_bytes(),
{
    let mut b: Vec<u8> = Vec::new();
    put_u16(&mut b, 65);
    assert(b@ =~= le16(65));
    put_u16(&mut b, 0);
    put_u16(&mut b, DIALECT_WILDCARD);
    put_zeros(&mut b, 58);
    b
}

/// A message that starts with a header is parsed into the fields it was made of.
#[verifier::rlimit(60)]
#[verifier::spinoff_prover]
pub proof fn law_header_fields(
    charge: u16,
    status: u32,
    command: u16,
    credits: u16,
    flags: u32,
    message_id: u64,
    middle: Seq<u8>,
    session_id: u64,
    rest: Seq<u8>,
)
    requires
        middle.len() == 8,
    ensures
        ({
            let f = header_bytes(charge, status, command, credits, flags, message_id, middle, session_id) + rest;
            has_header2(f) && header2_of(f) == (Header2 {
                credit_charge: charge,
                status,
                command,
                credits,
                flags,
                next_command: 0,
                message_id,
                tree_id: u32_at(middle, 4),
                session_id,
            }) && f.subrange(32, 40) == middle
        }),
{
    reveal(header_bytes);
    let h = header_bytes(charge, status, command, credits, flags, message_id, middle, session_id);
    let f = h + rest;
    let m = SMB2_MAGIC@;
    let p6 = m + le16(64);
    let p8 = p6 + le16(charge);
    let p12 = p8 + le32(status);
    let p14 = p12 + le16(command);
    let p16 = p14 + le16(credits);
    let p20 = p16 + le32(flags);
    let p24 = p20 + le32(0);
    let p32 = p24 + le64(message_id);
    let p40 = p32 + middle;
    let q40 = zeros(16) + rest;
    let q32 = le64(session_id) + q40;
    let q24 = middle + q32;
    let q20 = le64(message_id) + q24;
    let q16 = le32(0) + q20;
    let q14 = le32(flags) + q16;
    let q12 = le16(credits) + q14;
    let q8 = le16(command) + q12;
    let q6 = le32(status) + q8;
    assert(u64_at(f, 40) == session_id) by {
        assert(f =~= p40 + le64(session_id) + q40);
        lemma_u64_round_trip(p40, session_id, q40);
    }
    assert(u64_at(f, 24) == message_id) by {
        assert(f =~= p24 + le64(message_id) + q24);
        lemma_u64_round_trip(p24, message_id, q24);
    }
    assert(u32_at(f, 20) == 0) by {
        assert(f =~= p20 + le32(0) + q20);
        lemma_u32_round_trip(p20, 0, q20);
    }
    assert(u32_at(f, 16) == flags) by {
        assert(f =~= p16 + le32(flags) + q16);
        lemma_u32_round_trip(p16, flags, q16);
    }
    assert(u16_at(f, 14) == credits) by {
        assert(f =~= p14 + le16(credits) + q14);
        lemma_u16_round_trip(p14, credits, q14);
    }
    assert(u16_at(f, 12) == command) by {
        assert(f =~= p12 + le16(command) + q12);
        lemma_u16_round_trip(p12, command, q12);
    }
    assert(u32_at(f, 8) == status) by {
        assert(f =~= p8 + le32(status) + q8);
        lemma_u32_round_trip(p8, status, q8);
    }
    assert(u16_at(f, 6) == charge) by {
        assert(f =~= p6 + le16(charge) + q6);
        lemma_u16_round_trip(p6, charge, q6);
    }
    assert(f.subrange(0, 4) =~= SMB2_MAGIC@);
    assert(f.subrange(32, 40) =~= middle);
    assert forall|i: int| 0 <= i < 8 implies f[32 + i] == middle[i] by {
        assert(f.subrange(32, 40)[i] == f[32 + i]);
    }
}

/// A response carries status, command, message, tree and session id where its
/// reader looks for them.
pub proof fn law_response_echoes(h: Header2, status: Status, body: Seq<u8>, session_id: u64)
    ensures
        ({
            let got = header2_of(response_frame(h, status, body, session_id));
            &&& has_header2(response_frame(h, status, body, session_id))
            &&& got.status == status_code(status)
            &&& got.command == h.command
            &&& got.credits == credit_grant(h)
            &&& got.message_id == h.message_id
            &&& got.tree_id == h.tree_id
            &&& got.session_id == session_id
        }),
{
    let middle = le32(0) + le32(h.tree_id);
    law_header_fields(
        h.credit_charge,
        status_code(status),
        h.command,
        credit_grant(h),
        1,
        h.message_id,
        middle,
        session_id,
        sent_body(status, body),
    );
    lemma_u32_round_trip(le32(0), h.tree_id, Seq::empty());
    assert(le32(0) + le32(h.tree_id) + Seq::<u8>::empty() =~= middle);
}

/// The async id of a message stands where the process id would.
pub proof fn law_async_frame_ids(
    session_id: u64,
    message_id: u64,
    async_id: u64,
    command: u16,
    status: Status,
    body: Seq<u8>,
)
    ensures
        ({
            let f = async_frame(session_id, message_id, async_id, command, status, body);
            &&& has_header2(f)
            &&& header2_of(f).flags == FLAG_SERVER_TO_REDIR | FLAG_ASYNC
            &&& header2_of(f).message_id == message_id
            &&& header2_of(f).session_id == session_id
            &&& header2_of(f).status == status_code(status)
            &&& header2_of(f).command == command
            &&& u64_at(f.subrange(32, 40), 0) == async_id
        }),
{
    law_header_fields(1, status_code(status), command, 1, 3, message_id, le64(async_id), session_id, body);
    lemma_u64_round_trip(Seq::empty(), async_id, Seq::empty());
    assert(Seq::<u8>::empty() + le64(async_id) + Seq::<u8>::empty() =~= le64(async_id));
    assert(1u32 | 2u32 == 3u32) by (bit_vector);
}

// ---------------- signatures ----------------

/// Whether a dialect signs with AES-CMAC.
pub open spec fn signs_with_cmac(dialect: Option<u16>) -> bool {
    dialect == Some(DIALECT_300) || dialect == Some(DIALECT_302) || dialect == Some(DIALECT_311)
}

/// The signature of a message: AES-CMAC for dialects 3, else the front of its
/// HMAC-SHA-256.
pub open spec fn signature_of(key: Seq<u8>, dialect: Option<u16>, msg: Seq<u8>) -> Seq<u8> {
    Seq::new(
        16,
        |i: int|
            if signs_with_cmac(dialect) {
                aes128_cmac_of(key, msg)[i]
            } else {
                hmac_sha256_of(key, msg)[i]
            },
    )
}

/// A message with its signature field cleared.
pub open spec fn unsigned(f: Seq<u8>) -> Seq<u8> {
    f.subrange(0, 48) + zeros(16) + f.subrange(64, f.len() as int)
}

/// A message marked as signed.
pub open spec fn marked_signed(f: Seq<u8>) -> Seq<u8> {
    f.update(16, f[16] | 8)
}

/// A message with its signature.
pub open spec fn signed_frame(f: Seq<u8>, key: Seq<u8>, dialect: Option<u16>) -> Seq<u8> {
    patched(marked_signed(f), 48, signature_of(key, dialect, unsigned(marked_signed(f))))
}

/// Whether a message carries the signature that the key gives it.
pub open spec fn signature_verifies(f: Seq<u8>, key: Seq<u8>, dialect: Option<u16>) -> bool {
    f.len() >= HEADER_LEN && signature_of(key, dialect, unsigned(f)) == f.subrange(48, 64)
}

fn clear_signature(f: &[u8]) -> (m: Vec<u8>)
    requires
        f@.len() >= HEADER_LEN,
    ensures
        m@ == unsigned(f@),
{
    let mut m = copy_range(f, 0, 48);
    put_zeros(&mut m, 16);
    put_bytes(&mut m, slice_subrange(f, 64, f.len()));
    m
}

fn make_signature(key: &[u8; 16], dialect: Option<u16>, msg: &[u8]) -> (s: [u8; 16])
    ensures
        s@ == signature_of(key@, dialect, msg@),
{
    let strong: bool = match dialect {
        Some(d) => d == DIALECT_300 || d == DIALECT_302 || d == DIALECT_311,
        None => false,
    };
    if strong {
        let s = aes128_cmac(key, msg);
        assert(s@ =~= signature_of(key@, dialect, msg@));
        s
    } else {
        let h = hmac_sha256(key.as_slice(), msg);
        let s = crate::crypto::array16(slice_subrange(h.as_slice(), 0, 16));
        assert(s@ =~= signature_of(key@, dialect, msg@));
        s
    }
}

/// Signs a message in place.
pub fn sign_pdu(f: &mut Vec<u8>, key: &[u8; 16], dialect: Option<u16>)
    requires
        old(f)@.len() >= HEADER_LEN,
    ensures
        final(f)@ == signed_frame(old(f)@, key@, dialect),
        final(f)@.len() == old(f)@.len(),
{
    let b: u8 = f[16];
    f.set(16, b | 8);
    let msg = clear_signature(f.as_slice());
    let sig = make_signature(key, dialect, msg.as_slice());
    put_at(f, 48, sig.as_slice());
}

/// Checks the signature of a message.
pub fn verify_pdu_signature(f: &[u8], key: &[u8; 16], dialect: Option<u16>) -> (r: bool)
    ensures
        r == signature_verifies(f@, key@, dialect),
{
    if f.len() < HEADER_LEN {
        return false;
    }
    let msg = clear_signature(f);
    let sig = make_signature(key, dialect, msg.as_slice());
    same_bytes(sig.as_slice(), slice_subrange(f, 48, 64))
}

/// What was signed verifies under the same key and dialect.
pub proof fn law_signed_verifies(f: Seq<u8>, key: Seq<u8>, dialect: Option<u16>)
    requires
        f.len() >= HEADER_LEN,
    ensures
        signature_verifies(signed_frame(f, key, dialect), key, dialect),
{
    let m = marked_signed(f);
    let sig = signature_of(key, dialect, unsigned(m));
    let g = patched(m, 48, sig);
    assert(unsigned(g) =~= unsigned(m));
    assert(g.subrange(48, 64) =~= sig);
}

/// A message that verifies, and whose contents then change while its signature
/// stays, verifies again only if both have the same signature.
pub proof fn law_tampering_shows(f: Seq<u8>, g: Seq<u8>, key: Seq<u8>, dialect: Option<u16>)
    requires
        signature_verifies(f, key, dialect),
        g.len() >= HEADER_LEN,
        g.subrange(48, 64) == f.subrange(48, 64),
    ensures
        signature_verifies(g, key, dialect) <==> signature_of(key, dialect, unsigned(g)) == signature_of(
            key,
            dialect,
            unsigned(f),
        ),
{
}

// ---------------- transform frames ----------------

/// Length of a transform header.
pub const TF_LEN: usize = 52;

/// The part of a transform header that is authenticated: nonce, length, flags and
/// session id.
pub open spec fn transform_tail(session_id: u64, nonce: Seq<u8>, len: int) -> Seq<u8> {
    nonce + le32(len as u32) + le16(0) + le16(1) + le64(session_id)
}

/// The nonce field: as many given bytes as the cipher uses, then zeros.
pub open spec fn nonce_field(cipher: u16, random: Seq<u8>) -> Seq<u8> {
    Seq::new(16, |i: int| if i < nonce_len(cipher) { random[i] } else { 0u8 })
}

/// A message sealed into a transform frame: the tag stands in the signature field,
/// the ciphertext behind the header.
pub open spec fn sealed_frame(session_id: u64, key: Seq<u8>, cipher: u16, random: Seq<u8>, msg: Seq<u8>) -> Seq<u8> {
    let nonce = nonce_field(cipher, random);
    let aad = transform_tail(session_id, nonce, msg.len() as int);
    let c = sealed_of(cipher, key, nonce.subrange(0, nonce_len(cipher)), aad, msg);
    TF_MAGIC@ + c.subrange(msg.len() as int, c.len() as int) + aad + c.subrange(0, msg.len() as int)
}

/// Whether a transform frame holds its header and the ciphertext it announces.
pub open spec fn transform_whole(f: Seq<u8>) -> bool {
    f.len() >= TF_LEN && stands_at(f, TF_MAGIC@, 0) && TF_LEN + u32_at(f, 36) <= f.len()
}

/// The message in a transform frame of a session; none where the frame is cut
/// short, belongs to another session, or does not authenticate.
pub open spec fn opened_frame(session_id: u64, key: Seq<u8>, cipher: u16, f: Seq<u8>) -> Option<Seq<u8>> {
    if !transform_whole(f) || u64_at(f, 44) != session_id {
        None
    } else {
        opened_of(
            cipher,
            key,
            f.subrange(20, 20 + nonce_len(cipher)),
            f.subrange(20, 52),
            f.subrange(52, 52 + u32_at(f, 36)) + f.subrange(4, 20),
        )
    }
}

fn make_nonce(cipher: u16, random: &[u8; 16]) -> (n: [u8; 16])
    ensures
        n@ == nonce_field(cipher, random@),
{
    let used: usize = if cipher_is_gcm(cipher) {
        12
    } else {
        11
    };
    let mut n: [u8; 16] = [0; 16];
    let mut i: usize = 0;
    while i < used
        invariant
            i <= used <= 16,
            forall|k: int| 0 <= k < i ==> n@[k] == random@[k],
            forall|k: int| i <= k < 16 ==> n@[k] == 0,
        decreases used - i,
    {
        n[i] = random[i];
        i += 1;
    }
    assert(n@ =~= nonce_field(cipher, random@));
    n
}

/// Seals a message into a transform frame with `random` as the source of the
/// nonce. The holder of the key opens it to the same message.
pub fn seal_pdu(session_id: u64, key: &[u8; 32], cipher: u16, random: &[u8; 16], msg: &[u8]) -> (f: Vec<u8>)
    requires
        msg@.len() <= MAX_SEALED,
    ensures
        f@ == sealed_frame(session_id, key@, cipher, random@, msg@),
        opened_frame(session_id, key@, cipher, f@) == Some(msg@),
{
    let nonce = make_nonce(cipher, random);
    let mut aad = copy_all(nonce.as_slice());
    put_u32(&mut aad, msg.len() as u32);
    put_u16(&mut aad, 0);
    put_u16(&mut aad, 1);
    put_u64(&mut aad, session_id);
    let n: usize = msg.len();
    let c = seal(cipher, key, &nonce, aad.as_slice(), msg);
    let magic: [u8; 4] = TF_MAGIC;
    let mut f = copy_all(magic.as_slice());
    put_bytes(&mut f, slice_subrange(c.as_slice(), n, c.len()));
    put_bytes(&mut f, aad.as_slice());
    put_bytes(&mut f, slice_subrange(c.as_slice(), 0, n));
    proof {
        lemma_sealed_parts(session_id, nonce@, n as int, c@, f@);
        assert(f@.subrange(20, 52).subrange(0, nonce_len(cipher)) =~= f@.subrange(20, 20 + nonce_len(cipher)));
        assert(aad@.subrange(0, nonce_len(cipher)) =~= nonce@.subrange(0, nonce_len(cipher)));
    }
    f
}

proof fn lemma_sealed_parts(session_id: u64, nonce: Seq<u8>, n: int, c: Seq<u8>, f: Seq<u8>)
    requires
        nonce.len() == 16,
        0 <= n <= MAX_SEALED,
        c.len() == n + TAG_LEN,
        f == TF_MAGIC@ + c.subrange(n, c.len() as int) + transform_tail(session_id, nonce, n) + c.subrange(0, n),
    ensures
        transform_whole(f),
        u64_at(f, 44) == session_id,
        u32_at(f, 36) == n,
        f.subrange(20, 52) == transform_tail(session_id, nonce, n),
        f.subrange(52, 52 + n) + f.subrange(4, 20) == c,
{
    let tag = c.subrange(n, c.len() as int);
    let ct = c.subrange(0, n);
    let aad = transform_tail(session_id, nonce, n);
    assert(f.subrange(0, 4) =~= TF_MAGIC@);
    assert(f.subrange(20, 52) =~= aad);
    let pre = TF_MAGIC@ + tag + nonce;
    let post = le16(0) + le16(1) + le64(session_id) + ct;
    assert(f =~= pre + le32(n as u32) + post);
    lemma_u32_round_trip(pre, n as u32, post);
    let pre2 = pre + le32(n as u32) + le16(0) + le16(1);
    assert(f =~= pre2 + le64(session_id) + ct);
    lemma_u64_round_trip(pre2, session_id, ct);
    assert(f.subrange(52, 52 + n) + f.subrange(4, 20) =~= c);
}

/// Opens a transform frame of a session.
pub fn decrypt_transform(session_id: u64, key: &[u8; 32], cipher: u16, f: &[u8]) -> (r: Option<Vec<u8>>)
    requires
        f@.len() <= MAX_SEALED,
    ensures
        bytes_of(r) == opened_frame(session_id, key@, cipher, f@),
{
    let magic: [u8; 4] = TF_MAGIC;
    if f.len() < TF_LEN || !matches_at(f, magic.as_slice(), 0) {
        return None;
    }
    let n: u32 = get_u32(f, 36);
    if n as usize > f.len() - TF_LEN || get_u64(f, 44) != session_id {
        return None;
    }
    let mut c = copy_range(f, 52, 52 + n as usize);
    put_bytes(&mut c, slice_subrange(f, 4, 20));
    let aad = slice_subrange(f, 20, 52);
    assert(aad@.subrange(0, nonce_len(cipher)) =~= f@.subrange(20, 20 + nonce_len(cipher)));
    open(cipher, key, aad, aad, c.as_slice())
}

// ---------------- interface lists ----------------

/// The address of a network interface.
#[derive(Clone, Copy, PartialEq, Eq, Structural, Debug)]
pub enum HostAddr {
    V4(u8, u8, u8, u8),
    /// The sixteen bytes, most significant first.
    V6(u128),
}

/// Byte `i` of a 128-bit number, most significant first.
pub open spec fn byte_of_u128(v: u128, i: int) -> u8 {
    ((v >> ((8 * (15 - i)) as u128)) & 0xFF) as u8
}

/// A socket address in 128 bytes.
pub open spec fn sockaddr_bytes(a: HostAddr) -> Seq<u8> {
    match a {
        HostAddr::V4(p, q, r, s) => le16(2) + zeros(2) + seq![p, q, r, s] + zeros(120),
        HostAddr::V6(v) => le16(23) + zeros(6) + Seq::new(16, |i: int| byte_of_u128(v, i)) + zeros(104),
    }
}

/// One entry of an interface list: the offset of the next one, index, no
/// capabilities, ten gigabits per second, address.
pub open spec fn interface_bytes(next: u32, index: u32, a: HostAddr) -> Seq<u8> {
    le32(next) + le32(index) + le32(0) + le32(0) + le64(10_000_000_000) + sockaddr_bytes(a)
}

/// The first `n` entries of an interface list.
pub open spec fn interface_list(e: Seq<(u32, HostAddr)>, n: int) -> Seq<u8>
    decreases n,
{
    if n <= 0 {
        Seq::empty()
    } else {
        interface_list(e, n - 1) + interface_bytes(
            if n < e.len() {
                152
            } else {
                0
            },
            e[n - 1].0,
            e[n - 1].1,
        )
    }
}

fn make_sockaddr(a: HostAddr) -> (b: Vec<u8>)
    ensures
        b@ == sockaddr_bytes(a),
{
    let mut b: Vec<u8> = Vec::new();
    match a {
        HostAddr::V4(p, q, r, s) => {
            put_u16(&mut b, 2);
            assert(b@ =~= le16(2));
            put_zeros(&mut b, 2);
            let o: [u8; 4] = [p, q, r, s];
            assert(o@ =~= seq![p, q, r, s]);
            put_bytes(&mut b, o.as_slice());
            put_zeros(&mut b, 120);
        },
        HostAddr::V6(v) => {
            put_u16(&mut b, 23);
            assert(b@ =~= le16(23));
            put_zeros(&mut b, 6);
            let o = u128_bytes(v);
            put_bytes(&mut b, o.as_slice());
            put_zeros(&mut b, 104);
        },
    }
    b
}

fn u128_bytes(v: u128) -> (b: Vec<u8>)
    ensures
        b@ == Seq::new(16, |i: int| byte_of_u128(v, i)),
{
    let mut b: Vec<u8> = Vec::new();
    let mut i: usize = 0;
    while i < 16
        invariant
            i <= 16,
            b@.len() == i,
            forall|k: int| 0 <= k < i ==> b@[k] == byte_of_u128(v, k),
        decreases 16 - i,
    {
        let shift: u128 = (8 * (15 - i)) as u128;
        b.push(((v >> shift) & 0xFF) as u8);
        i += 1;
    }
    assert(b@ =~= Seq::new(16, |i: int| byte_of_u128(v, i)));
    b
}

/// Encodes an interface list.
pub fn build_interface_list(e: &[(u32, HostAddr)]) -> (out: Vec<u8>)
    ensures
        out@ == interface_list(e@, e@.len() as int),
{
    let mut out: Vec<u8> = Vec::new();
    assert(out@ =~= interface_list(e@, 0));
    let n: usize = e.len();
    let mut i: usize = 0;
    while i < n
        invariant
            i <= n == e@.len(),
            out@ == interface_list(e@, i as int),
        decreases n - i,
    {
        let next: u32 = if i + 1 < n {
            152
        } else {
            0
        };
        let one = make_interface(next, e[i].0, e[i].1);
        put_bytes(&mut out, one.as_slice());
        i += 1;
    }
    out
}

fn make_interface(next: u32, index: u32, a: HostAddr) -> (b: Vec<u8>)
    ensures
        b@ == interface_bytes(next, index, a),
{
    let mut b: Vec<u8> = Vec::new();
    put_u32(&mut b, next);
    assert(b@ =~= le32(next));
    put_u32(&mut b, index);
    put_u32(&mut b, 0);
    put_u32(&mut b, 0);
    put_u64(&mut b, 10_000_000_000);
    let sa = make_sockaddr(a);
    put_bytes(&mut b, sa.as_slice());
    b
}

/// Every entry of an interface list is 152 bytes long, so that each links to the
/// next.
pub proof fn law_interface_list_len(e: Seq<(u32, HostAddr)>, n: int)
    requires
        0 <= n <= e.len(),
    ensures
        interface_list(e, n).len() == 152 * n,
    decreases n,
{
    if n > 0 {
        law_interface_list_len(e, n - 1);
        assert(sockaddr_bytes(e[n - 1].1).len() == 128);
    }
}

// ---------------- paths ----------------

/// The part of a path in front of its last slash of either kind; empty where there
/// is none.
pub open spec fn parent_of(p: Seq<char>) -> Seq<char> {
    match last_slash(p, p.len() as int) {
        Some(i) => p.subrange(0, i),
        None => Seq::empty(),
    }
}

/// The directory that a path lies in; the share root is empty.
pub fn parent_dir(path: &str) -> (r: String)
    ensures
        r@ == parent_of(path@),
{
    let c = chars_of(path);
    let n: usize = c.len();
    let mut i: usize = n;
    while i > 0 && c[i - 1] != '/' && c[i - 1] != '\\'
        invariant
            i <= n,
            c@ == path@,
            c@.len() == n,
            last_slash(c@, n as int) == last_slash(c@, i as int),
        decreases i,
    {
        i -= 1;
    }
    if i == 0 {
        let e = String::new();
        assert(e@ =~= Seq::<char>::empty());
        e
    } else {
        text_of_range(c.as_slice(), 0, i - 1)
    }
}

/// The fields of a header stand where the wire has them, least significant byte first; only
/// a message with the mark of the newer dialects has one. A signed message, and one that is
/// answered later, is told by its flags.
#[verifier::rlimit(40)]
#[verifier::spinoff_prover]
pub proof fn law_request_header_is_read(b: Seq<u8>)
    requires
        has_header2(b),
    ensures
        ({
            let h = header2_of(b);
            &&& b.len() >= 64 && b[0] == 0xFE && b[1] == 0x53 && b[2] == 0x4D && b[3] == 0x42
            &&& h.credit_charge == little(b, 6, 2)
            &&& h.command == little(b, 12, 2)
            &&& h.credits == little(b, 14, 2)
            &&& h.flags == little(b, 16, 4)
            &&& h.next_command == little(b, 20, 4)
            &&& h.message_id == little(b, 24, 8)
            &&& h.tree_id == little(b, 36, 4)
            &&& h.session_id == little(b, 40, 8)
            &&& h.signed() <==> (little(b, 16, 4) / 8) % 2 == 1
        }),
{
    lemma_little(b, 6);
    lemma_little(b, 12);
    lemma_little(b, 14);
    lemma_little(b, 16);
    lemma_little(b, 20);
    lemma_little(b, 24);
    lemma_little(b, 36);
    lemma_little(b, 40);
    let f = u32_at(b, 16);
    assert((f & 0x8 != 0) == ((f / 8) % 2 == 1)) by (bit_vector);
    assert(b[0] == SMB2_MAGIC@[0] && b[1] == SMB2_MAGIC@[1] && b[2] == SMB2_MAGIC@[2] && b[3] == SMB2_MAGIC@[3]);
}

} // verus!
