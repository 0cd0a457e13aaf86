//! The way of a request through the server: decoded into a typed request, accepted,
//! served by its handler, answered. The states are types, so that nothing is answered
//! twice and nothing is completed that was not deferred.
use vstd::prelude::*;
use crate::async2::{begin_change_notify, begin_lock, cancel, cancel_target, interim_frame, lock_started, notify_refusal, op_dropped, op_noted, pending_frame, LockStart, NotifyStart};
use crate::bytes::{get_u16, le16, le32, lemma_little, lemma_little_written, little, put_u16, put_u32, u16_at, u32_at, zeros};
use crate::conn2::{Server2, Smb2Conn};
use crate::frame2::{error_bytes, error_resp, has_header2, header2_of, Header2, CMD_CANCEL, CMD_CHANGE_NOTIFY, CMD_CLOSE, CMD_CREATE, CMD_ECHO, CMD_FLUSH, CMD_IOCTL, CMD_LOCK, CMD_LOGOFF, CMD_OPLOCK_BREAK, CMD_QUERY_DIRECTORY, CMD_QUERY_INFO, CMD_READ, CMD_SET_INFO, CMD_TREE_CONNECT, CMD_TREE_DISCONNECT, CMD_WRITE};
use crate::leases::{LeaseHolder, LeaseTable};
use crate::ops2::{logoff, session_released, tree_connect, tree_connected2, tree_disconnect, TreeReply};
use crate::reply2::{build_empty_resp, build_lease_break_resp, build_oplock_break, empty_body, law_break_fields, lease_ack_body, oplock_break_body};
use crate::smb::Status;
use crate::wire2::{holds, holds_create, law_read_request_fields, law_write_request_fields, ChangeNotifyReq, CloseReq, CreateReq, FlushReq, IoctlReq, LeaseBreakAck, LockReq, OplockBreakAck, QueryDirReq, QueryInfoReq, ReadReq, SetInfoReq, WriteReq};

verus! {

// ---------------- states and origins ----------------

/// Closes the sets of states and origins.
pub trait Sealed {

}

/// A state in the life of a request.
pub trait IoState: Sealed {

}

/// The request is decoded and ready to be served.
#[derive(Clone, Copy, Debug)]
pub struct Accepted;

/// The request is answered for good.
#[derive(Clone, Copy, Debug)]
pub struct Completed;

/// The request was deferred: its final answer is owed.
#[derive(Debug)]
pub struct Pending {
    pub async_id: u64,
}

impl Sealed for Accepted {

}

impl Sealed for Completed {

}

impl Sealed for Pending {

}

impl IoState for Accepted {

}

impl IoState for Completed {

}

impl IoState for Pending {

}

/// Where a work item comes from.
pub trait Origin: Sealed {
    /// What it carries.
    type Request;
}

/// A client's message, carried along.
#[derive(Debug)]
pub struct Solicited;

/// A client's message that was handed to its handler.
#[derive(Debug)]
pub struct Bare;

/// An event of the server.
#[derive(Debug)]
pub struct Unsolicited;

impl Sealed for Solicited {

}

impl Sealed for Bare {

}

impl Sealed for Unsolicited {

}

impl Origin for Solicited {
    type Request = SmbRequest;
}

impl Origin for Bare {
    type Request = ();
}

impl Origin for Unsolicited {
    type Request = ();
}

// ---------------- answers ----------------

/// Whether an answer is signed and sealed.
#[derive(Clone, Copy, PartialEq, Eq, Structural, Debug, Default)]
pub struct SealIntent {
    pub sign: bool,
    pub seal: bool,
}

/// The header fields of an answer.
#[derive(Clone, Copy, PartialEq, Eq, Structural, Debug)]
pub struct ReplyHeader {
    pub command: u16,
    pub message_id: u64,
    pub session_id: u64,
    pub tree_id: u32,
    pub credits: u16,
    pub seal: SealIntent,
}

/// A finished answer: its status, its header and its body.
#[derive(Debug)]
pub struct SmbResponse {
    pub status: Status,
    pub reply: ReplyHeader,
    pub body: Vec<u8>,
}

/// What is serialised as the body of an answer.
pub trait Encode {
    /// The bytes of the body.
    spec fn encoded(&self, hdr: ReplyHeader) -> Seq<u8>;

    /// Encodes the body of an answer.
    fn encode(&self, hdr: &ReplyHeader) -> (b: Vec<u8>)
        ensures
            b@ == self.encoded(*hdr),
    ;
}

/// An answer without content.
#[derive(Clone, Copy, Debug)]
pub struct EmptyBody;

impl Encode for EmptyBody {
    open spec fn encoded(&self, hdr: ReplyHeader) -> Seq<u8> {
        empty_body()
    }

    fn encode(&self, hdr: &ReplyHeader) -> (b: Vec<u8>) {
        build_empty_resp()
    }
}

/// The body of the answer to a tree connect: type of the share, flags for encryption
/// and compression, the capability of continuous availability, and full access.
pub open spec fn tree_body(t: TreeReply) -> Seq<u8> {
    le16(16) + seq![
        if t.is_pipe {
            2u8
        } else {
            1u8
        },
        0u8,
    ] + le32(
        ((if t.encrypt {
            0x8000int
        } else {
            0
        }) + (if t.compress {
            0x10_0000int
        } else {
            0
        })) as u32,
    ) + le32(
        if t.ca {
            0x10
        } else {
            0
        },
    ) + le32(0x001F_01FF)
}

impl Encode for TreeReply {
    open spec fn encoded(&self, hdr: ReplyHeader) -> Seq<u8> {
        tree_body(*self)
    }

    fn encode(&self, hdr: &ReplyHeader) -> (b: Vec<u8>) {
        let mut b: Vec<u8> = Vec::new();
        put_u16(&mut b, 16);
        assert(b@ =~= le16(16));
        let kind: [u8; 2] = [
            if self.is_pipe {
                2
            } else {
                1
            },
            0,
        ];
        assert(kind@ =~= seq![
            if self.is_pipe {
                2u8
            } else {
                1u8
            },
            0u8,
        ]);
        crate::bytes::put_bytes(&mut b, kind.as_slice());
        let e: u32 = if self.encrypt {
            0x8000
        } else {
            0
        };
        let z: u32 = if self.compress {
            0x10_0000
        } else {
            0
        };
        put_u32(&mut b, e + z);
        put_u32(
            &mut b,
            if self.ca {
                0x10
            } else {
                0
            },
        );
        put_u32(&mut b, 0x001F_01FF);
        b
    }
}

// ---------------- work items ----------------

/// A work item in state `S` from origin `O`: the header of its answer, and the
/// request as long as it is carried along.
pub struct IoContext<S: IoState, O: Origin> {
    pub reply: ReplyHeader,
    pub request: O::Request,
    pub state: S,
}

impl IoContext<Accepted, Solicited> {
    /// Accepts a decoded request.
    pub fn accept(reply: ReplyHeader, request: SmbRequest) -> (c: Self)
        ensures
            c.reply == reply,
            c.request == request,
    {
        IoContext { reply, request, state: Accepted }
    }

    /// Takes the request out for its handler.
    pub fn split(self) -> (r: (IoContext<Accepted, Bare>, SmbRequest))
        ensures
            r.0.reply == self.reply,
            r.1 == self.request,
    {
        (IoContext { reply: self.reply, request: (), state: Accepted }, self.request)
    }
}

impl IoContext<Accepted, Unsolicited> {
    /// A work item of the server itself.
    pub fn from_event(reply: ReplyHeader) -> (c: Self)
        ensures
            c.reply == reply,
    {
        IoContext { reply, request: (), state: Accepted }
    }
}

impl<O: Origin> IoContext<Accepted, O> {
    /// Answers for good.
    pub fn respond(self, status: Status, body: Vec<u8>) -> (r: SmbResponse)
        ensures
            r.status == status,
            r.reply == self.reply,
            r.body == body,
    {
        SmbResponse { status, reply: self.reply, body }
    }
}

impl IoContext<Accepted, Bare> {
    /// Defers the request under an async id.
    pub fn defer(self, async_id: u64) -> (c: IoContext<Pending, Bare>)
        ensures
            c.reply == self.reply,
            c.state.async_id == async_id,
    {
        IoContext { reply: self.reply, request: (), state: Pending { async_id } }
    }
}

impl IoContext<Pending, Bare> {
    /// The async id under which the request was deferred.
    pub fn async_id(&self) -> (id: u64)
        ensures
            id == self.state.async_id,
    {
        self.state.async_id
    }

    /// Answers that the request is pending.
    pub fn interim(&self, status: Status, body: Vec<u8>) -> (r: SmbResponse)
        ensures
            r.status == status,
            r.reply == self.reply,
            r.body == body,
    {
        SmbResponse { status, reply: self.reply, body }
    }

    /// Answers a deferred request for good.
    pub fn complete(self, status: Status, body: Vec<u8>) -> (r: SmbResponse)
        ensures
            r.status == status,
            r.reply == self.reply,
            r.body == body,
    {
        SmbResponse { status, reply: self.reply, body }
    }
}

/// What serving a request led to.
pub enum Outcome {
    /// The final answer.
    Final(SmbResponse),
    /// An answer that the request is pending; the final one is owed.
    Interim { parked: IoContext<Pending, Bare>, interim: SmbResponse },
    /// No answer.
    Silent,
}

/// Whether the outcome is a final answer.
pub open spec fn answers(o: Outcome, reply: ReplyHeader, status: Status, body: Seq<u8>) -> bool {
    o matches Outcome::Final(r) && r.reply == reply && r.status == status && r.body@ == body
}

/// Whether the outcome is that the request is pending.
pub open spec fn parks(o: Outcome, reply: ReplyHeader, async_id: u64) -> bool {
    &&& o matches Outcome::Interim { parked, interim }
    &&& parked.reply == reply
    &&& parked.state.async_id == async_id
    &&& interim.reply == reply
    &&& interim.status == Status::PENDING
    &&& interim.body@ == error_bytes()
}

pub(crate) fn answer(ctx: IoContext<Accepted, Bare>, status: Status, body: Vec<u8>) -> (o: Outcome)
    ensures
        answers(o, ctx.reply, status, body@),
{
    Outcome::Final(ctx.respond(status, body))
}

pub(crate) fn refuse(ctx: IoContext<Accepted, Bare>, status: Status) -> (o: Outcome)
    ensures
        answers(o, ctx.reply, status, Seq::empty()),
{
    let e: Vec<u8> = Vec::new();
    assert(e@ =~= Seq::<u8>::empty());
    Outcome::Final(ctx.respond(status, e))
}

fn park(ctx: IoContext<Accepted, Bare>, async_id: u64) -> (o: Outcome)
    ensures
        parks(o, ctx.reply, async_id),
{
    let parked = ctx.defer(async_id);
    let interim = parked.interim(Status::PENDING, error_resp());
    Outcome::Interim { parked, interim }
}

// ---------------- requests ----------------

/// Decodes one frame into a typed request.
pub trait Decode: Sized {
    /// Whether a frame holds the request.
    spec fn whole(frame: Seq<u8>) -> bool;

    /// Whether this is the request that a frame holds.
    spec fn is_held(&self, frame: Seq<u8>) -> bool;

    /// The command code of the request.
    spec fn code() -> u16;

    /// The command code of the request.
    fn command_code() -> (c: u16)
        ensures
            c == Self::code(),
    ;

    /// Reads the request; a frame that is cut short is an invalid parameter.
    fn decode(frame: &[u8]) -> (r: Result<Self, Status>)
        requires
            frame@.len() < 0x8000_0000,
        ensures
            r is Ok <==> Self::whole(frame@),
            r matches Ok(q) ==> q.is_held(frame@),
            r matches Err(s) ==> s == Status::INVALID_PARAMETER,
    ;
}

/// ECHO: nothing to read.
#[derive(Debug)]
pub struct EchoReq;

/// TREE_DISCONNECT: nothing to read.
#[derive(Debug)]
pub struct TreeDisconnectReq;

/// TREE_CONNECT: the handler reads the path.
#[derive(Debug)]
pub struct TreeConnectReq;

/// LOGOFF: nothing to read.
#[derive(Debug)]
pub struct LogoffReq;

/// CANCEL: what it is about stands in the header.
#[derive(Debug)]
pub struct CancelReq;

/// OPLOCK_BREAK: the handler tells oplocks and leases apart.
#[derive(Debug)]
pub struct OplockBreakReq;

impl Decode for EchoReq {
    open spec fn whole(frame: Seq<u8>) -> bool {
        true
    }

    open spec fn is_held(&self, frame: Seq<u8>) -> bool {
        true
    }

    open spec fn code() -> u16 {
        CMD_ECHO
    }

    fn command_code() -> (c: u16) {
        CMD_ECHO
    }

    fn decode(frame: &[u8]) -> (r: Result<Self, Status>) {
        Ok(EchoReq)
    }
}

impl Decode for TreeDisconnectReq {
    open spec fn whole(frame: Seq<u8>) -> bool {
        true
    }

    open spec fn is_held(&self, frame: Seq<u8>) -> bool {
        true
    }

    open spec fn code() -> u16 {
        CMD_TREE_DISCONNECT
    }

    fn command_code() -> (c: u16) {
        CMD_TREE_DISCONNECT
    }

    fn decode(frame: &[u8]) -> (r: Result<Self, Status>) {
        Ok(TreeDisconnectReq)
    }
}

impl Decode for TreeConnectReq {
    open spec fn whole(frame: Seq<u8>) -> bool {
        true
    }

    open spec fn is_held(&self, frame: Seq<u8>) -> bool {
        true
    }

    open spec fn code() -> u16 {
        CMD_TREE_CONNECT
    }

    fn command_code() -> (c: u16) {
        CMD_TREE_CONNECT
    }

    fn decode(frame: &[u8]) -> (r: Result<Self, Status>) {
        Ok(TreeConnectReq)
    }
}

impl Decode for LogoffReq {
    open spec fn whole(frame: Seq<u8>) -> bool {
        true
    }

    open spec fn is_held(&self, frame: Seq<u8>) -> bool {
        true
    }

    open spec fn code() -> u16 {
        CMD_LOGOFF
    }

    fn command_code() -> (c: u16) {
        CMD_LOGOFF
    }

    fn decode(frame: &[u8]) -> (r: Result<Self, Status>) {
        Ok(LogoffReq)
    }
}

impl Decode for CancelReq {
    open spec fn whole(frame: Seq<u8>) -> bool {
        true
    }

    open spec fn is_held(&self, frame: Seq<u8>) -> bool {
        true
    }

    open spec fn code() -> u16 {
        CMD_CANCEL
    }

    fn command_code() -> (c: u16) {
        CMD_CANCEL
    }

    fn decode(frame: &[u8]) -> (r: Result<Self, Status>) {
        Ok(CancelReq)
    }
}

impl Decode for OplockBreakReq {
    open spec fn whole(frame: Seq<u8>) -> bool {
        true
    }

    open spec fn is_held(&self, frame: Seq<u8>) -> bool {
        true
    }

    open spec fn code() -> u16 {
        CMD_OPLOCK_BREAK
    }

    fn command_code() -> (c: u16) {
        CMD_OPLOCK_BREAK
    }

    fn decode(frame: &[u8]) -> (r: Result<Self, Status>) {
        Ok(OplockBreakReq)
    }
}

impl Decode for CreateReq {
    open spec fn whole(frame: Seq<u8>) -> bool {
        holds_create(frame)
    }

    open spec fn is_held(&self, frame: Seq<u8>) -> bool {
        self.read_from(frame)
    }

    open spec fn code() -> u16 {
        CMD_CREATE
    }

    fn command_code() -> (c: u16) {
        CMD_CREATE
    }

    fn decode(frame: &[u8]) -> (r: Result<Self, Status>) {
        match CreateReq::parse(frame) {
            Some(q) => Ok(q),
            None => Err(Status::INVALID_PARAMETER),
        }
    }
}

impl Decode for CloseReq {
    open spec fn whole(frame: Seq<u8>) -> bool {
        holds(frame, 24)
    }

    open spec fn is_held(&self, frame: Seq<u8>) -> bool {
        self.read_from(frame)
    }

    open spec fn code() -> u16 {
        CMD_CLOSE
    }

    fn command_code() -> (c: u16) {
        CMD_CLOSE
    }

    fn decode(frame: &[u8]) -> (r: Result<Self, Status>) {
        match CloseReq::parse(frame) {
            Some(q) => Ok(q),
            None => Err(Status::INVALID_PARAMETER),
        }
    }
}

impl Decode for FlushReq {
    open spec fn whole(frame: Seq<u8>) -> bool {
        holds(frame, 24)
    }

    open spec fn is_held(&self, frame: Seq<u8>) -> bool {
        self.read_from(frame)
    }

    open spec fn code() -> u16 {
        CMD_FLUSH
    }

    fn command_code() -> (c: u16) {
        CMD_FLUSH
    }

    fn decode(frame: &[u8]) -> (r: Result<Self, Status>) {
        match FlushReq::parse(frame) {
            Some(q) => Ok(q),
            None => Err(Status::INVALID_PARAMETER),
        }
    }
}

impl Decode for ReadReq {
    open spec fn whole(frame: Seq<u8>) -> bool {
        holds(frame, 48)
    }

    open spec fn is_held(&self, frame: Seq<u8>) -> bool {
        self.read_from(frame)
    }

    open spec fn code() -> u16 {
        CMD_READ
    }

    fn command_code() -> (c: u16) {
        CMD_READ
    }

    fn decode(frame: &[u8]) -> (r: Result<Self, Status>) {
        match ReadReq::parse(frame) {
            Some(q) => Ok(q),
            None => Err(Status::INVALID_PARAMETER),
        }
    }
}

impl Decode for WriteReq {
    open spec fn whole(frame: Seq<u8>) -> bool {
        holds(frame, 48) && u16_at(frame, 66) + u32_at(frame, 68) <= frame.len()
    }

    open spec fn is_held(&self, frame: Seq<u8>) -> bool {
        self.read_from(frame)
    }

    open spec fn code() -> u16 {
        CMD_WRITE
    }

    fn command_code() -> (c: u16) {
        CMD_WRITE
    }

    fn decode(frame: &[u8]) -> (r: Result<Self, Status>) {
        match WriteReq::parse(frame) {
            Some(q) => Ok(q),
            None => Err(Status::INVALID_PARAMETER),
        }
    }
}

impl Decode for LockReq {
    open spec fn whole(frame: Seq<u8>) -> bool {
        holds(frame, 24) && 88 + 24 * u16_at(frame, 66) <= frame.len()
    }

    open spec fn is_held(&self, frame: Seq<u8>) -> bool {
        self.read_from(frame)
    }

    open spec fn code() -> u16 {
        CMD_LOCK
    }

    fn command_code() -> (c: u16) {
        CMD_LOCK
    }

    fn decode(frame: &[u8]) -> (r: Result<Self, Status>) {
        match LockReq::parse(frame) {
            Some(q) => Ok(q),
            None => Err(Status::INVALID_PARAMETER),
        }
    }
}

impl Decode for IoctlReq {
    open spec fn whole(frame: Seq<u8>) -> bool {
        holds(frame, 56) && u32_at(frame, 88) + u32_at(frame, 92) <= frame.len()
    }

    open spec fn is_held(&self, frame: Seq<u8>) -> bool {
        self.read_from(frame)
    }

    open spec fn code() -> u16 {
        CMD_IOCTL
    }

    fn command_code() -> (c: u16) {
        CMD_IOCTL
    }

    fn decode(frame: &[u8]) -> (r: Result<Self, Status>) {
        match IoctlReq::parse(frame) {
            Some(q) => Ok(q),
            None => Err(Status::INVALID_PARAMETER),
        }
    }
}

impl Decode for QueryDirReq {
    open spec fn whole(frame: Seq<u8>) -> bool {
        holds(frame, 32) && u16_at(frame, 88) + u16_at(frame, 90) <= frame.len()
    }

    open spec fn is_held(&self, frame: Seq<u8>) -> bool {
        self.read_from(frame)
    }

    open spec fn code() -> u16 {
        CMD_QUERY_DIRECTORY
    }

    fn command_code() -> (c: u16) {
        CMD_QUERY_DIRECTORY
    }

    fn decode(frame: &[u8]) -> (r: Result<Self, Status>) {
        match QueryDirReq::parse(frame) {
            Some(q) => Ok(q),
            None => Err(Status::INVALID_PARAMETER),
        }
    }
}

impl Decode for ChangeNotifyReq {
    open spec fn whole(frame: Seq<u8>) -> bool {
        holds(frame, 32)
    }

    open spec fn is_held(&self, frame: Seq<u8>) -> bool {
        self.read_from(frame)
    }

    open spec fn code() -> u16 {
        CMD_CHANGE_NOTIFY
    }

    fn command_code() -> (c: u16) {
        CMD_CHANGE_NOTIFY
    }

    fn decode(frame: &[u8]) -> (r: Result<Self, Status>) {
        match ChangeNotifyReq::parse(frame) {
            Some(q) => Ok(q),
            None => Err(Status::INVALID_PARAMETER),
        }
    }
}

impl Decode for QueryInfoReq {
    open spec fn whole(frame: Seq<u8>) -> bool {
        holds(frame, 40)
    }

    open spec fn is_held(&self, frame: Seq<u8>) -> bool {
        self.read_from(frame)
    }

    open spec fn code() -> u16 {
        CMD_QUERY_INFO
    }

    fn command_code() -> (c: u16) {
        CMD_QUERY_INFO
    }

    fn decode(frame: &[u8]) -> (r: Result<Self, Status>) {
        match QueryInfoReq::parse(frame) {
            Some(q) => Ok(q),
            None => Err(Status::INVALID_PARAMETER),
        }
    }
}

impl Decode for SetInfoReq {
    open spec fn whole(frame: Seq<u8>) -> bool {
        holds(frame, 32) && u16_at(frame, 72) + u32_at(frame, 68) <= frame.len()
    }

    open spec fn is_held(&self, frame: Seq<u8>) -> bool {
        self.read_from(frame)
    }

    open spec fn code() -> u16 {
        CMD_SET_INFO
    }

    fn command_code() -> (c: u16) {
        CMD_SET_INFO
    }

    fn decode(frame: &[u8]) -> (r: Result<Self, Status>) {
        match SetInfoReq::parse(frame) {
            Some(q) => Ok(q),
            None => Err(Status::INVALID_PARAMETER),
        }
    }
}

/// A request of a client.
#[derive(Debug)]
pub enum SmbRequest {
    Echo(EchoReq),
    TreeConnect(TreeConnectReq),
    TreeDisconnect(TreeDisconnectReq),
    Logoff(LogoffReq),
    Create(CreateReq),
    Close(CloseReq),
    Flush(FlushReq),
    Read(ReadReq),
    Write(WriteReq),
    Lock(LockReq),
    Ioctl(IoctlReq),
    QueryDir(QueryDirReq),
    ChangeNotify(ChangeNotifyReq),
    QueryInfo(QueryInfoReq),
    SetInfo(SetInfoReq),
    Cancel(CancelReq),
    OplockBreak(OplockBreakReq),
}

/// The command code of a request.
pub open spec fn request_code(r: SmbRequest) -> u16 {
    match r {
        SmbRequest::Echo(_) => CMD_ECHO,
        SmbRequest::TreeConnect(_) => CMD_TREE_CONNECT,
        SmbRequest::TreeDisconnect(_) => CMD_TREE_DISCONNECT,
        SmbRequest::Logoff(_) => CMD_LOGOFF,
        SmbRequest::Create(_) => CMD_CREATE,
        SmbRequest::Close(_) => CMD_CLOSE,
        SmbRequest::Flush(_) => CMD_FLUSH,
        SmbRequest::Read(_) => CMD_READ,
        SmbRequest::Write(_) => CMD_WRITE,
        SmbRequest::Lock(_) => CMD_LOCK,
        SmbRequest::Ioctl(_) => CMD_IOCTL,
        SmbRequest::QueryDir(_) => CMD_QUERY_DIRECTORY,
        SmbRequest::ChangeNotify(_) => CMD_CHANGE_NOTIFY,
        SmbRequest::QueryInfo(_) => CMD_QUERY_INFO,
        SmbRequest::SetInfo(_) => CMD_SET_INFO,
        SmbRequest::Cancel(_) => CMD_CANCEL,
        SmbRequest::OplockBreak(_) => CMD_OPLOCK_BREAK,
    }
}

/// Whether this is the request that a frame holds.
pub open spec fn request_held(r: SmbRequest, f: Seq<u8>) -> bool {
    match r {
        SmbRequest::Create(q) => q.is_held(f),
        SmbRequest::Close(q) => q.is_held(f),
        SmbRequest::Flush(q) => q.is_held(f),
        SmbRequest::Read(q) => q.is_held(f),
        SmbRequest::Write(q) => q.is_held(f),
        SmbRequest::Lock(q) => q.is_held(f),
        SmbRequest::Ioctl(q) => q.is_held(f),
        SmbRequest::QueryDir(q) => q.is_held(f),
        SmbRequest::ChangeNotify(q) => q.is_held(f),
        SmbRequest::QueryInfo(q) => q.is_held(f),
        SmbRequest::SetInfo(q) => q.is_held(f),
        _ => true,
    }
}

/// Whether a request is decoded under a command code.
pub open spec fn is_decoded(command: u16) -> bool {
    2 <= command <= 0x12
}

/// Whether a frame holds the request of a command.
pub open spec fn decodes(command: u16, f: Seq<u8>) -> bool {
    if command == CMD_CREATE {
        CreateReq::whole(f)
    } else if command == CMD_CLOSE {
        CloseReq::whole(f)
    } else if command == CMD_FLUSH {
        FlushReq::whole(f)
    } else if command == CMD_READ {
        ReadReq::whole(f)
    } else if command == CMD_WRITE {
        WriteReq::whole(f)
    } else if command == CMD_LOCK {
        LockReq::whole(f)
    } else if command == CMD_IOCTL {
        IoctlReq::whole(f)
    } else if command == CMD_QUERY_DIRECTORY {
        QueryDirReq::whole(f)
    } else if command == CMD_CHANGE_NOTIFY {
        ChangeNotifyReq::whole(f)
    } else if command == CMD_QUERY_INFO {
        QueryInfoReq::whole(f)
    } else if command == CMD_SET_INFO {
        SetInfoReq::whole(f)
    } else {
        is_decoded(command)
    }
}

/// Whether a frame is decoded under a command code. An unknown command is not implemented;
/// a frame that is cut short is an invalid parameter.
pub open spec fn parsed(command: u16, frame: Seq<u8>, r: Result<SmbRequest, Status>) -> bool {
    match r {
        Ok(q) => is_decoded(command) && decodes(command, frame) && request_code(q) == command && request_held(q, frame),
        Err(s) => s == if is_decoded(command) {
            Status::INVALID_PARAMETER
        } else {
            Status::NOT_IMPLEMENTED
        } && (is_decoded(command) ==> !decodes(command, frame)),
    }
}

impl SmbRequest {
    /// The command code of the request.
    pub fn command(&self) -> (c: u16)
        ensures
            c == request_code(*self),
    {
        match self {
            SmbRequest::Echo(_) => CMD_ECHO,
            SmbRequest::TreeConnect(_) => CMD_TREE_CONNECT,
            SmbRequest::TreeDisconnect(_) => CMD_TREE_DISCONNECT,
            SmbRequest::Logoff(_) => CMD_LOGOFF,
            SmbRequest::Create(_) => CMD_CREATE,
            SmbRequest::Close(_) => CMD_CLOSE,
            SmbRequest::Flush(_) => CMD_FLUSH,
            SmbRequest::Read(_) => CMD_READ,
            SmbRequest::Write(_) => CMD_WRITE,
            SmbRequest::Lock(_) => CMD_LOCK,
            SmbRequest::Ioctl(_) => CMD_IOCTL,
            SmbRequest::QueryDir(_) => CMD_QUERY_DIRECTORY,
            SmbRequest::ChangeNotify(_) => CMD_CHANGE_NOTIFY,
            SmbRequest::QueryInfo(_) => CMD_QUERY_INFO,
            SmbRequest::SetInfo(_) => CMD_SET_INFO,
            SmbRequest::Cancel(_) => CMD_CANCEL,
            SmbRequest::OplockBreak(_) => CMD_OPLOCK_BREAK,
        }
    }

    /// Decodes a frame under a command code. An unknown command is not implemented; a
    /// frame that is cut short is an invalid parameter.
    pub fn parse(command: u16, frame: &[u8]) -> (r: Result<SmbRequest, Status>)
        requires
            frame@.len() < 0x8000_0000,
        ensures
            parsed(command, frame@, r),
    {
        if command == CMD_ECHO {
            return Ok(SmbRequest::Echo(EchoReq));
        }
        if command == CMD_TREE_CONNECT {
            return Ok(SmbRequest::TreeConnect(TreeConnectReq));
        }
        if command == CMD_TREE_DISCONNECT {
            return Ok(SmbRequest::TreeDisconnect(TreeDisconnectReq));
        }
        if command == CMD_LOGOFF {
            return Ok(SmbRequest::Logoff(LogoffReq));
        }
        if command == CMD_CANCEL {
            return Ok(SmbRequest::Cancel(CancelReq));
        }
        if command == CMD_OPLOCK_BREAK {
            return Ok(SmbRequest::OplockBreak(OplockBreakReq));
        }
        if command == CMD_CREATE {
            return match CreateReq::decode(frame) {
                Ok(q) => Ok(SmbRequest::Create(q)),
                Err(s) => Err(s),
            };
        }
        if command == CMD_CLOSE {
            return match CloseReq::decode(frame) {
                Ok(q) => Ok(SmbRequest::Close(q)),
                Err(s) => Err(s),
            };
        }
        if command == CMD_FLUSH {
            return match FlushReq::decode(frame) {
                Ok(q) => Ok(SmbRequest::Flush(q)),
                Err(s) => Err(s),
            };
        }
        if command == CMD_READ {
            return match ReadReq::decode(frame) {
                Ok(q) => Ok(SmbRequest::Read(q)),
                Err(s) => Err(s),
            };
        }
        if command == CMD_WRITE {
            return match WriteReq::decode(frame) {
                Ok(q) => Ok(SmbRequest::Write(q)),
                Err(s) => Err(s),
            };
        }
        if command == CMD_LOCK {
            return match LockReq::decode(frame) {
                Ok(q) => Ok(SmbRequest::Lock(q)),
                Err(s) => Err(s),
            };
        }
        if command == CMD_IOCTL {
            return match IoctlReq::decode(frame) {
                Ok(q) => Ok(SmbRequest::Ioctl(q)),
                Err(s) => Err(s),
            };
        }
        if command == CMD_QUERY_DIRECTORY {
            return match QueryDirReq::decode(frame) {
                Ok(q) => Ok(SmbRequest::QueryDir(q)),
                Err(s) => Err(s),
            };
        }
        if command == CMD_CHANGE_NOTIFY {
            return match ChangeNotifyReq::decode(frame) {
                Ok(q) => Ok(SmbRequest::ChangeNotify(q)),
                Err(s) => Err(s),
            };
        }
        if command == CMD_QUERY_INFO {
            return match QueryInfoReq::decode(frame) {
                Ok(q) => Ok(SmbRequest::QueryInfo(q)),
                Err(s) => Err(s),
            };
        }
        if command == CMD_SET_INFO {
            return match SetInfoReq::decode(frame) {
                Ok(q) => Ok(SmbRequest::SetInfo(q)),
                Err(s) => Err(s),
            };
        }
        Err(Status::NOT_IMPLEMENTED)
    }
}

/// Whether a request is accepted, or refused.
pub open spec fn accepted(
    conn: &Smb2Conn,
    h: Header2,
    frame: Seq<u8>,
    r: Result<IoContext<Accepted, Solicited>, Status>,
) -> bool {
    match r {
        Ok(c) => {
            &&& is_decoded(h.command)
            &&& decodes(h.command, frame)
            &&& request_code(c.request) == h.command
            &&& request_held(c.request, frame)
            &&& c.reply == reply_for(conn, h)
        },
        Err(s) => s == (if is_decoded(h.command) {
            Status::INVALID_PARAMETER
        } else {
            Status::NOT_IMPLEMENTED
        }) && (is_decoded(h.command) ==> !decodes(h.command, frame)),
    }
}

/// Accepts a request: its answer goes out under the header of the message and the
/// session of the connection.
pub fn accept_request(conn: &Smb2Conn, h: &Header2, frame: &[u8]) -> (r: Result<IoContext<Accepted, Solicited>, Status>)
    requires
        frame@.len() < 0x8000_0000,
    ensures
        accepted(conn, *h, frame@, r),
{
    match SmbRequest::parse(h.command, frame) {
        Err(s) => Err(s),
        Ok(q) => Ok(
            IoContext::accept(
                ReplyHeader {
                    command: h.command,
                    message_id: h.message_id,
                    session_id: conn.session_id,
                    tree_id: h.tree_id,
                    credits: 0,
                    seal: SealIntent { sign: false, seal: false },
                },
                q,
            ),
        ),
    }
}

/// The header of the answer to a message.
pub open spec fn reply_for(c: &Smb2Conn, h: Header2) -> ReplyHeader {
    ReplyHeader {
        command: h.command,
        message_id: h.message_id,
        session_id: c.session_id,
        tree_id: h.tree_id,
        credits: 0,
        seal: SealIntent { sign: false, seal: false },
    }
}

/// What becomes of an outcome.
#[derive(Debug)]
pub enum Routed {
    /// A status and a body, still to be framed.
    Framed(Status, Vec<u8>),
    /// A frame that is sent as it is.
    Raw(Vec<u8>),
    /// Nothing is sent.
    Silent,
}

/// What is sent now of an outcome.
pub open spec fn outcome_routed(conn: &Smb2Conn, h: Header2, o: Outcome, r: Routed) -> bool {
    match o {
        Outcome::Final(a) => r == Routed::Framed(a.status, a.body),
        Outcome::Interim { parked, interim } => r matches Routed::Raw(f) && f@ == pending_frame(
            conn,
            h,
            parked.state.async_id,
        ),
        Outcome::Silent => r is Silent,
    }
}

/// Turns an outcome into what is sent now. An answer that the request is pending is
/// framed here, and signed where the request was.
pub fn route_outcome(conn: &Smb2Conn, h: &Header2, o: Outcome) -> (r: Routed)
    ensures
        outcome_routed(conn, *h, o, r),
{
    match o {
        Outcome::Final(a) => Routed::Framed(a.status, a.body),
        Outcome::Interim { parked, interim: _ } => Routed::Raw(interim_frame(conn, h, parked.async_id())),
        Outcome::Silent => Routed::Silent,
    }
}

// ---------------- handlers ----------------

/// Serves ECHO.
pub struct EchoCmd;

impl EchoCmd {
    /// Answers at once.
    pub fn serve(ctx: IoContext<Accepted, Bare>) -> (o: Outcome)
        ensures
            answers(o, ctx.reply, Status::SUCCESS, empty_body()),
    {
        answer(ctx, Status::SUCCESS, build_empty_resp())
    }
}

/// Whether a tree is disconnected and the request answered.
pub open spec fn tree_left_behind(ctx: IoContext<Accepted, Bare>, c0: &Smb2Conn, c1: &Smb2Conn, o: Outcome) -> bool {
    &&& answers(o, ctx.reply, Status::SUCCESS, empty_body())
    &&& *c1 == (Smb2Conn { trees: c1.trees, ..*c0 })
    &&& c1.trees@ == c0.trees@.remove(ctx.reply.tree_id)
}

/// Serves TREE_DISCONNECT.
pub struct TreeDisconnectCmd;

impl TreeDisconnectCmd {
    /// Disconnects the tree and answers.
    pub fn serve(ctx: IoContext<Accepted, Bare>, conn: &mut Smb2Conn) -> (o: Outcome)
        ensures
            tree_left_behind(ctx, old(conn), final(conn), o),
    {
        tree_disconnect(conn, ctx.reply.tree_id);
        answer(ctx, Status::SUCCESS, build_empty_resp())
    }
}

/// Whether a session is ended and the request answered.
pub open spec fn session_left(
    ctx: IoContext<Accepted, Bare>,
    s0: &Server2,
    s1: &Server2,
    c0: &Smb2Conn,
    c1: &Smb2Conn,
    o: Outcome,
) -> bool {
    &&& answers(o, ctx.reply, Status::SUCCESS, empty_body())
    &&& session_released(s0, s1, c0.session_id)
    &&& !c1.authenticated
    &&& c1.session_id == c0.session_id
}

/// Serves LOGOFF.
pub struct LogoffCmd;

impl LogoffCmd {
    /// Ends the session and answers.
    pub fn serve(ctx: IoContext<Accepted, Bare>, server: &mut Server2, conn: &mut Smb2Conn) -> (o: Outcome)
        requires
            old(server).wf(),
            old(conn).wf(),
        ensures
            final(server).wf(),
            final(conn).wf(),
            session_left(ctx, old(server), final(server), old(conn), final(conn), o),
    {
        logoff(server, conn);
        answer(ctx, Status::SUCCESS, build_empty_resp())
    }
}

/// Whether a tree is connected and the request answered.
pub open spec fn tree_served(
    ctx: IoContext<Accepted, Bare>,
    s0: &Server2,
    s1: &Server2,
    c0: &Smb2Conn,
    c1: &Smb2Conn,
    frame: Seq<u8>,
    o: Outcome,
) -> bool {
    exists|r: Result<TreeReply, Status>|
        #[trigger] tree_connected2(s0, s1, c0, c1, frame, r) && (match r {
            Ok(t) => answers(o, ctx.reply, Status::SUCCESS, tree_body(t)),
            Err(s) => answers(o, ctx.reply, s, Seq::empty()),
        })
}

/// Serves TREE_CONNECT.
pub struct TreeConnectCmd;

impl TreeConnectCmd {
    /// Connects the tree and answers.
    pub fn serve(ctx: IoContext<Accepted, Bare>, server: &mut Server2, conn: &mut Smb2Conn, frame: &[u8]) -> (o: Outcome)
        requires
            old(server).wf(),
        ensures
            final(server).wf(),
            tree_served(ctx, old(server), final(server), old(conn), final(conn), frame@, o),
    {
        let r = tree_connect(server, conn, frame);
        assert(tree_connected2(old(server), server, old(conn), conn, frame@, r));
        match r {
            Ok(t) => {
                let b = t.encode(&ctx.reply);
                answer(ctx, Status::SUCCESS, b)
            },
            Err(s) => refuse(ctx, s),
        }
    }
}

/// Whether a lock request is answered, or deferred with the path and the ranges that are
/// waited for.
pub open spec fn lock_served(
    ctx: IoContext<Accepted, Bare>,
    s0: &Server2,
    s1: &Server2,
    c0: &Smb2Conn,
    c1: &Smb2Conn,
    h: Header2,
    req: LockReq,
    o: Outcome,
    waited: Option<(String, Vec<(u64, u64, bool)>)>,
) -> bool {
    exists|st: LockStart|
        #[trigger] lock_started(&s0.locks, &s1.locks, c0, c1, h, req, st) && (match st {
            LockStart::Reply(s, b) => answers(o, ctx.reply, s, b@) && waited is None,
            LockStart::Pending { async_id, path, ranges } => parks(o, ctx.reply, async_id) && waited == Some((path, ranges)),
        })
}

/// Serves LOCK.
pub struct LockCmd;

impl LockCmd {
    /// Locks and answers, or defers the request. A deferred request comes with the path
    /// and the ranges that are waited for.
    pub fn serve(
        ctx: IoContext<Accepted, Bare>,
        server: &mut Server2,
        conn: &mut Smb2Conn,
        h: &Header2,
        req: &LockReq,
    ) -> (r: (Outcome, Option<(String, Vec<(u64, u64, bool)>)>))
        requires
            old(server).wf(),
            old(conn).wf(),
        ensures
            final(server).wf(),
            final(conn).wf(),
            *final(server) == (Server2 { locks: final(server).locks, ..*old(server) }),
            lock_served(ctx, old(server), final(server), old(conn), final(conn), *h, *req, r.0, r.1),
    {
        let st = begin_lock(&mut server.locks, conn, h, req);
        assert(lock_started(&old(server).locks, &server.locks, old(conn), conn, *h, *req, st));
        match st {
            LockStart::Reply(s, b) => (answer(ctx, s, b), None),
            LockStart::Pending { async_id, path, ranges } => (park(ctx, async_id), Some((path, ranges))),
        }
    }
}

/// Whether a change notification is refused, or deferred with the path that is watched.
pub open spec fn notify_served(
    ctx: IoContext<Accepted, Bare>,
    c0: &Smb2Conn,
    c1: &Smb2Conn,
    h: Header2,
    req: ChangeNotifyReq,
    o: Outcome,
    watched: Option<String>,
) -> bool {
    match notify_refusal(c0, req) {
        Some(s) => answers(o, ctx.reply, s, Seq::empty()) && watched is None && *c1 == *c0,
        None => {
            &&& parks(o, ctx.reply, c0.next_async_id)
            &&& watched matches Some(p) && p@ == c0.handles@[req.file_id].path@
            &&& op_noted(c0, c1, h.message_id, Some(req.file_id))
        },
    }
}

/// Serves CHANGE_NOTIFY.
pub struct ChangeNotifyCmd;

impl ChangeNotifyCmd {
    /// Refuses the request, or defers it. A deferred request comes with the path that
    /// is watched.
    pub fn serve(ctx: IoContext<Accepted, Bare>, conn: &mut Smb2Conn, h: &Header2, req: &ChangeNotifyReq) -> (r: (
        Outcome,
        Option<String>,
    ))
        requires
            old(conn).wf(),
        ensures
            final(conn).wf(),
            notify_served(ctx, old(conn), final(conn), *h, *req, r.0, r.1),
    {
        match begin_change_notify(conn, h, req) {
            NotifyStart::Refused(s) => (refuse(ctx, s), None),
            NotifyStart::Pending { async_id, path } => (park(ctx, async_id), Some(path)),
        }
    }
}

/// Whether a cancellation is taken: nothing is answered, and the operation that it is about
/// ends.
pub open spec fn cancel_served(c0: &Smb2Conn, c1: &Smb2Conn, frame: Seq<u8>, o: Outcome, ended: Option<u64>) -> bool {
    &&& o is Silent
    &&& if !has_header2(frame) || cancel_target(c0, header2_of(frame), frame) is None {
        ended is None && *c1 == *c0
    } else {
        let id = cancel_target(c0, header2_of(frame), frame)->0;
        &&& op_dropped(c0, c1, id)
        &&& ended == if c0.async_cancels@.contains(id) {
            Some(id)
        } else {
            None
        }
    }
}

/// Serves CANCEL.
pub struct CancelCmd;

impl CancelCmd {
    /// Cancels the operation that the request is about; nothing is answered. The
    /// operation that is returned ends with CANCELLED.
    pub fn serve(conn: &mut Smb2Conn, frame: &[u8]) -> (r: (Outcome, Option<u64>))
        ensures
            cancel_served(old(conn), final(conn), frame@, r.0, r.1),
    {
        match Header2::parse(frame) {
            Some(h) => {
                let id = cancel(conn, &h, frame);
                (Outcome::Silent, id)
            },
            None => (Outcome::Silent, None),
        }
    }
}

/// Serves OPLOCK_BREAK.
pub struct OplockBreakCmd;

/// Whether the state of a lease is recorded.
pub open spec fn lease_settled(t0: &LeaseTable, t1: &LeaseTable, key: [u8; 16], state: u32) -> bool {
    let p = |h: LeaseHolder| h.key == key;
    if exists|path: Seq<char>, i: int| #[trigger] t0.holder_is(path, i, p) {
        exists|path: Seq<char>, i: int| #[trigger]
            t0.holder_is(path, i, p) && t1.one_changed(t0, path, i, (LeaseHolder { state, ..t0.holders(path)[i] }))
    } else {
        forall|path: Seq<char>| #[trigger] t1.holders(path) == t0.holders(path)
    }
}

/// Whether the acknowledgement of a break is taken: of a lease, whose state is recorded, or
/// of an oplock, whose level is echoed.
pub open spec fn break_acknowledged(
    ctx: IoContext<Accepted, Bare>,
    s0: &Server2,
    s1: &Server2,
    frame: Seq<u8>,
    o: Outcome,
) -> bool {
    &&& *s1 == (Server2 { leases: s1.leases, ..*s0 })
    &&& if u16_at(frame, 64) == 36 {
        if holds(frame, 36) {
            exists|key: [u8; 16]|
                #[trigger] key@ == frame.subrange(72, 88) && lease_settled(&s0.leases, &s1.leases, key, u32_at(frame, 88))
                    && answers(o, ctx.reply, Status::SUCCESS, lease_ack_body(key@, u32_at(frame, 88)))
        } else {
            answers(o, ctx.reply, Status::INVALID_PARAMETER, Seq::empty()) && *s1 == *s0
        }
    } else {
        &&& *s1 == *s0
        &&& if holds(frame, 24) {
            answers(o, ctx.reply, Status::SUCCESS, oplock_break_body(frame.subrange(72, 88), frame[66]))
        } else {
            answers(o, ctx.reply, Status::INVALID_PARAMETER, Seq::empty())
        }
    }
}

impl OplockBreakCmd {
    /// Takes the acknowledgement of a break: of a lease, whose state is recorded, or of
    /// an oplock, whose level is echoed.
    pub fn serve(ctx: IoContext<Accepted, Bare>, server: &mut Server2, frame: &[u8]) -> (o: Outcome)
        requires
            old(server).wf(),
        ensures
            final(server).wf(),
            break_acknowledged(ctx, old(server), final(server), frame@, o),
    {
        if get_u16(frame, 64) == 36 {
            return match LeaseBreakAck::parse(frame) {
                Some(ack) => {
                    server.leases.set_state(ack.key, ack.state);
                    assert(lease_settled(&old(server).leases, &server.leases, ack.key, ack.state));
                    assert(ack.key@ == frame@.subrange(72, 88));
                    answer(ctx, Status::SUCCESS, build_lease_break_resp(&ack.key, ack.state))
                },
                None => refuse(ctx, Status::INVALID_PARAMETER),
            };
        }
        match OplockBreakAck::parse(frame) {
            Some(ack) => answer(ctx, Status::SUCCESS, build_oplock_break(&ack.file_id, ack.level)),
            None => refuse(ctx, Status::INVALID_PARAMETER),
        }
    }
}

// ---------------- laws ----------------

/// Each command number is decoded into the request that it stands for: reads into reads,
/// writes into writes, and so on. Numbers that stand for nothing are not implemented.
pub proof fn law_requests_by_command_number(command: u16, frame: Seq<u8>, r: Result<SmbRequest, Status>)
    requires
        parsed(command, frame, r),
    ensures
        r matches Ok(q) ==> {
            &&& command == 2 <==> q is Logoff
            &&& command == 3 <==> q is TreeConnect
            &&& command == 4 <==> q is TreeDisconnect
            &&& command == 5 <==> q is Create
            &&& command == 6 <==> q is Close
            &&& command == 7 <==> q is Flush
            &&& command == 8 <==> q is Read
            &&& command == 9 <==> q is Write
            &&& command == 10 <==> q is Lock
            &&& command == 11 <==> q is Ioctl
            &&& command == 12 <==> q is Cancel
            &&& command == 13 <==> q is Echo
            &&& command == 14 <==> q is QueryDir
            &&& command == 15 <==> q is ChangeNotify
            &&& command == 16 <==> q is QueryInfo
            &&& command == 17 <==> q is SetInfo
            &&& command == 18 <==> q is OplockBreak
        },
        command > 18 ==> r == Err::<SmbRequest, Status>(Status::NOT_IMPLEMENTED),
        2 <= command <= 18 && r is Err ==> r->Err_0 == Status::INVALID_PARAMETER,
        command == 3 || command == 4 || command == 12 || command == 13 ==> r is Ok,
        command == 8 && frame.len() >= 112 ==> r is Ok,
        command == 9 && frame.len() >= 112 && little(frame, 66, 2) + little(frame, 68, 4) <= frame.len() ==> r is Ok,
{
    if frame.len() >= 112 {
        lemma_little(frame, 66);
        lemma_little(frame, 68);
    }
}

/// A read or a write is decoded with the offset, the file and the length, or the bytes,
/// that its frame holds.
pub proof fn law_reads_and_writes_are_decoded(command: u16, frame: Seq<u8>, r: Result<SmbRequest, Status>)
    requires
        parsed(command, frame, r),
    ensures
        r matches Ok(SmbRequest::Read(q)) ==> q.offset == little(frame, 72, 8) && q.length == little(frame, 68, 4)
            && q.file_id@ == frame.subrange(80, 96),
        r matches Ok(SmbRequest::Write(q)) ==> q.offset == little(frame, 72, 8) && q.payload@.len() == little(frame, 68, 4)
            && q.file_id@ == frame.subrange(80, 96),
{
    match r {
        Ok(SmbRequest::Read(q)) => {
            law_read_request_fields(q, frame);
            assert(q.file_id@ =~= frame.subrange(80, 96));
        },
        Ok(SmbRequest::Write(q)) => {
            law_write_request_fields(q, frame);
            assert(q.file_id@ =~= frame.subrange(80, 96));
        },
        _ => {},
    }
}

/// An accepted request is answered to whoever sent it: under the message id, the command
/// and the tree of its header, and the session of the connection.
pub proof fn law_answer_goes_to_the_request(
    conn: &Smb2Conn,
    h: Header2,
    frame: Seq<u8>,
    r: Result<IoContext<Accepted, Solicited>, Status>,
)
    requires
        accepted(conn, h, frame, r),
    ensures
        r matches Ok(c) ==> c.reply.message_id == h.message_id && c.reply.command == h.command && c.reply.tree_id == h.tree_id
            && c.reply.session_id == conn.session_id && request_code(c.request) == h.command,
        h.command == 8 && frame.len() >= 112 ==> (r matches Ok(c) && c.request is Read),
        h.command > 18 ==> r is Err,
{
}

/// A final answer is sent with its own status and body; a request that is pending is
/// announced as such; a silent outcome sends nothing.
pub proof fn law_outcomes_are_sent(conn: &Smb2Conn, h: Header2, o: Outcome, r: Routed)
    requires
        outcome_routed(conn, h, o, r),
    ensures
        o matches Outcome::Final(a) ==> (r matches Routed::Framed(s, b) && s == a.status && b@ == a.body@),
        o is Interim <==> r is Raw,
        o is Silent <==> r is Silent,
{
}

/// A tree connect is answered with the type of the share, whether its messages are
/// encrypted, and whether handles on it persist; all rights are granted.
#[verifier::rlimit(40)]
#[verifier::spinoff_prover]
pub proof fn law_tree_answer_fields(t: TreeReply)
    ensures
        ({
            let b = tree_body(t);
            &&& b.len() == 16 && little(b, 0, 2) == 16
            &&& b[2] == 2 <==> t.is_pipe
            &&& b[2] == 1 <==> !t.is_pipe
            &&& (little(b, 4, 4) / 0x8000) % 2 == 1 <==> t.encrypt
            &&& (little(b, 4, 4) / 0x10_0000) % 2 == 1 <==> t.compress
            &&& little(b, 8, 4) == 0x10 <==> t.ca
            &&& little(b, 12, 4) == 0x001F_01FF
        }),
{
    let b = tree_body(t);
    let kind = if t.is_pipe {
        2u8
    } else {
        1u8
    };
    let flags = ((if t.encrypt {
        0x8000int
    } else {
        0
    }) + (if t.compress {
        0x10_0000int
    } else {
        0
    })) as u32;
    let caps: u32 = if t.ca {
        0x10
    } else {
        0
    };
    let q0 = seq![kind, 0u8] + le32(flags) + le32(caps) + le32(0x001F_01FF);
    assert(b =~= Seq::<u8>::empty() + le16(16) + q0);
    lemma_little_written(Seq::empty(), 16, 0, 0, q0);
    let p1 = le16(16) + seq![kind, 0u8];
    assert(b =~= p1 + le32(flags) + (le32(caps) + le32(0x001F_01FF)));
    lemma_little_written(p1, 0, flags, 0, le32(caps) + le32(0x001F_01FF));
    let p2 = p1 + le32(flags);
    assert(b =~= p2 + le32(caps) + le32(0x001F_01FF));
    lemma_little_written(p2, 0, caps, 0, le32(0x001F_01FF));
    let p3 = p2 + le32(caps);
    assert(b =~= p3 + le32(0x001F_01FF) + Seq::<u8>::empty());
    lemma_little_written(p3, 0, 0x001F_01FF, 0, Seq::empty());
}

/// A disconnected tree is gone, and only that; a session that is left is no longer
/// authenticated. Both are always answered with success.
pub proof fn law_leaving_is_answered(
    ctx: IoContext<Accepted, Bare>,
    s0: &Server2,
    s1: &Server2,
    c0: &Smb2Conn,
    c1: &Smb2Conn,
    a: Outcome,
    c2: &Smb2Conn,
    b: Outcome,
    other: u32,
)
    requires
        tree_left_behind(ctx, c0, c1, a),
        session_left(ctx, s0, s1, c0, c2, b),
    ensures
        !c1.trees@.dom().contains(ctx.reply.tree_id),
        other != ctx.reply.tree_id ==> c1.trees@.dom().contains(other) == c0.trees@.dom().contains(other),
        c1.handles@ == c0.handles@ && c1.authenticated == c0.authenticated,
        !c2.authenticated,
        a matches Outcome::Final(x) && x.status == Status::SUCCESS && x.reply == ctx.reply,
        b matches Outcome::Final(x) && x.status == Status::SUCCESS && x.reply == ctx.reply,
{
}

/// A lock request is always answered or deferred, to whoever sent it; a change notification
/// is deferred, on the path of the open directory, or refused and nothing changes.
pub proof fn law_deferred_requests_are_owed(
    ctx: IoContext<Accepted, Bare>,
    s0: &Server2,
    s1: &Server2,
    c0: &Smb2Conn,
    c1: &Smb2Conn,
    h: Header2,
    lock: LockReq,
    a: Outcome,
    waited: Option<(String, Vec<(u64, u64, bool)>)>,
    c2: &Smb2Conn,
    notify: ChangeNotifyReq,
    b: Outcome,
    watched: Option<String>,
)
    requires
        lock_served(ctx, s0, s1, c0, c1, h, lock, a, waited),
        notify_served(ctx, c0, c2, h, notify, b, watched),
    ensures
        waited is None ==> (a matches Outcome::Final(x) && x.reply == ctx.reply),
        waited is Some ==> (a matches Outcome::Interim { parked, interim } && parked.reply == ctx.reply && interim.status
            == Status::PENDING),
        b is Interim <==> watched is Some,
        watched matches Some(p) ==> c0.handles@.dom().contains(notify.file_id) && p@
            == c0.handles@[notify.file_id].path@ && c2.async_cancels@.contains(c0.next_async_id) && (
        b matches Outcome::Interim { parked, interim } && parked.state.async_id == c0.next_async_id),
        watched is None ==> *c2 == *c0 && (b matches Outcome::Final(x) && x.status != Status::SUCCESS),
{
    if watched is Some {
        let v = c0.async_cancels@;
        assert(v.push(c0.next_async_id)[v.len() as int] == c0.next_async_id);
    }
}

/// Nothing is answered to a cancellation; what it is about is pending no longer.
pub proof fn law_cancellation_is_silent(c0: &Smb2Conn, c1: &Smb2Conn, frame: Seq<u8>, o: Outcome, ended: Option<u64>)
    requires
        cancel_served(c0, c1, frame, o, ended),
    ensures
        o is Silent,
        ended matches Some(id) ==> c0.async_cancels@.contains(id),
        ended is Some ==> cancel_target(c0, header2_of(frame), frame) == ended,
        c1.handles@ == c0.handles@ && c1.trees@ == c0.trees@,
{
}

/// The acknowledgement of a lease break is answered with the key and the state that it
/// holds, that of an oplock break with the file and the level; no other table changes.
#[verifier::rlimit(40)]
#[verifier::spinoff_prover]
pub proof fn law_acknowledgement_is_echoed(
    ctx: IoContext<Accepted, Bare>,
    s0: &Server2,
    s1: &Server2,
    frame: Seq<u8>,
    o: Outcome,
)
    requires
        break_acknowledged(ctx, s0, s1, frame, o),
        frame.len() >= 100,
    ensures
        s1.locks == s0.locks && s1.oplocks == s0.oplocks && s1.shares == s0.shares,
        little(frame, 64, 2) != 36 ==> *s1 == *s0,
        o matches Outcome::Final(a) && a.reply == ctx.reply && a.status == Status::SUCCESS && a.body@.subrange(8, 24)
            == frame.subrange(72, 88) && (little(frame, 64, 2) == 36 ==> little(a.body@, 24, 4) == little(frame, 88, 4)) && (
        little(frame, 64, 2) != 36 ==> a.body@[2] == frame[66]),
{
    lemma_little(frame, 64);
    lemma_little(frame, 88);
    let k = frame.subrange(72, 88);
    let st = u32_at(frame, 88);
    let b = lease_ack_body(k, st);
    let pre = le16(36) + le16(0) + le32(0) + k;
    assert(b =~= pre + le32(st) + zeros(8));
    lemma_little_written(pre, 0, st, 0, zeros(8));
    assert(b.subrange(8, 24) =~= k);
    law_break_fields(k, 0, 0, 0, 0, k, frame[66]);
}

/// The state that a holder acknowledges is recorded for a lease of that key, and no other
/// lease changes; a key that nobody holds changes nothing.
#[verifier::rlimit(40)]
#[verifier::spinoff_prover]
pub proof fn law_acknowledged_state_is_recorded(
    t0: &LeaseTable,
    t1: &LeaseTable,
    key: [u8; 16],
    state: u32,
    path: Seq<char>,
    i: int,
)
    requires
        lease_settled(t0, t1, key, state),
        0 <= i < t0.holders(path).len(),
    ensures
        t1.holders(path).len() == t0.holders(path).len(),
        t0.holders(path)[i].key != key ==> t1.holders(path)[i] == t0.holders(path)[i],
        t0.holders(path)[i].key == key ==> t1.holders(path)[i] == t0.holders(path)[i] || t1.holders(path)[i].state == state,
        t0.holders(path)[i].key == key ==> exists|p: Seq<char>, k: int|
            0 <= k < t1.holders(p).len() && #[trigger] t1.holders(p)[k].key == key && t1.holders(p)[k].state == state,
{
    let q = |h: LeaseHolder| h.key == key;
    if t0.holders(path)[i].key == key {
        assert(t0.holder_is(path, i, q));
    }
    if exists|p: Seq<char>, k: int| #[trigger] t0.holder_is(p, k, q) {
        let (p, k) = choose|p: Seq<char>, k: int| #[trigger]
            t0.holder_is(p, k, q) && t1.one_changed(t0, p, k, (LeaseHolder { state, ..t0.holders(p)[k] }));
        assert(t1.holders(p)[k].key == key && t1.holders(p)[k].state == state);
        if p == path && k == i {
        } else if p != path {
            assert(t1.holders(path) == t0.holders(path));
        }
    }
}

} // verus!
