//! Handlers whose work goes through the storage backend. A handler starts with what
//! can be told from the tables; where the backend is needed it hands the work out, and
//! ends once the work is done.
use vstd::prelude::*;
use crate::async2::{complete_pending_notifies, law_closed_directory_ends_its_watches, msgs_without, ops_without, other_file, watches_on};
use crate::bytes::little;
use crate::conn2::{Server2, Smb2Conn};
use crate::create2::Notice;
use crate::frame2::{error_bytes, error_resp};
use crate::io2::{answer, answers, refuse, Accepted, Bare, IoContext, Outcome};
use crate::ioctl2::IoctlPlan;
use crate::ops2::{finish_close, finish_read, finish_write, has_share, known_pipe, only_pipe_changes, open_released, pipe_close, pipe_create, pipe_created, pipe_drained, pipe_fed, pipe_read, pipe_write, plan_read, plan_write, read_len, read_refusal, share_is_ipc, share_of, take_open, write_breaks, write_refusal};
use crate::query2::{info_planned, listing_planned, plan_query_directory, plan_query_info, plan_set_info, set_planned2, Change, DirPlan, InfoPlan, SetPlan2};
use crate::reply2::{build_close_resp, build_empty_resp, build_info_resp, build_set_info_resp, close_body, empty_body, info_body, law_query_response_carries_the_data, law_read_response_carries_the_data, law_write_response_carries_the_count, read_body, set_info_body, write_body};
use crate::smb::Status;
use crate::srvsvc::{fragments_ok, ShareInfo};
use crate::text::lowercase;
use crate::vfs::{vfs_err, vfs_status, FileMeta, OpenFile, VfsError};
use crate::wildcard::without_leading;
use crate::wire2::{CloseReq, CreateReq, FlushReq, QueryDirReq, QueryInfoReq, ReadReq, SetInfoReq, WriteReq};

verus! {

/// How a request goes on: it is answered, or the backend is asked for something.
pub enum Step<T> {
    Answered(Outcome),
    Storage(IoContext<Accepted, Bare>, T),
}

/// Whether a request is answered at once.
pub open spec fn done<T>(s: Step<T>, ctx: IoContext<Accepted, Bare>, status: Status, body: Seq<u8>) -> bool {
    s matches Step::Answered(o) && answers(o, ctx.reply, status, body)
}

/// Whether a request goes on to the backend.
pub open spec fn goes_on<T>(s: Step<T>, ctx: IoContext<Accepted, Bare>, work: T) -> bool {
    s matches Step::Storage(c, w) && c == ctx && w == work
}

/// Whether a result is answered: with its body, or with the error alone.
pub open spec fn answers_result(o: Outcome, ctx: IoContext<Accepted, Bare>, r: Result<Vec<u8>, Status>) -> bool {
    match r {
        Ok(b) => answers(o, ctx.reply, Status::SUCCESS, b@),
        Err(s) => answers(o, ctx.reply, s, Seq::empty()),
    }
}

fn answer_result(ctx: IoContext<Accepted, Bare>, r: Result<Vec<u8>, Status>) -> (o: Outcome)
    ensures
        answers_result(o, ctx, r),
{
    match r {
        Ok(b) => answer(ctx, Status::SUCCESS, b),
        Err(s) => refuse(ctx, s),
    }
}

/// Whether work of the backend is answered: with `body` where it was done, else with what
/// went wrong.
pub open spec fn settled(o: Outcome, ctx: IoContext<Accepted, Bare>, work: Result<(), VfsError>, body: Seq<u8>) -> bool {
    match work {
        Ok(_) => answers(o, ctx.reply, Status::SUCCESS, body),
        Err(e) => answers(o, ctx.reply, vfs_status(e), Seq::empty()),
    }
}

// ---------------- flush ----------------

/// How a flush goes on.
pub open spec fn flush_started(
    ctx: IoContext<Accepted, Bare>,
    server: &Server2,
    conn: &Smb2Conn,
    req: FlushReq,
    r: Step<()>,
) -> bool {
    if share_of(server, conn, ctx.reply.tree_id) is None {
        done(r, ctx, Status::INVALID_HANDLE, Seq::empty())
    } else if !conn.handles@.contains_key(req.file_id) {
        done(r, ctx, Status::SUCCESS, empty_body())
    } else {
        goes_on(r, ctx, ())
    }
}

/// Serves FLUSH.
pub struct FlushCmd;

impl FlushCmd {
    /// Asks the backend to flush an open file. Where there is none, nothing is left to
    /// do.
    pub fn start(ctx: IoContext<Accepted, Bare>, server: &Server2, conn: &Smb2Conn, req: &FlushReq) -> (r: Step<()>)
        requires
            server.wf(),
            conn.wf(),
        ensures
            flush_started(ctx, server, conn, *req, r),
    {
        if !has_share(server, conn, ctx.reply.tree_id) {
            Step::Answered(refuse(ctx, Status::INVALID_HANDLE))
        } else if !conn.handles.contains(&req.file_id) {
            Step::Answered(answer(ctx, Status::SUCCESS, build_empty_resp()))
        } else {
            Step::Storage(ctx, ())
        }
    }

    /// Answers once the file is flushed, or could not be.
    pub fn finish(ctx: IoContext<Accepted, Bare>, flushed: Result<(), VfsError>) -> (o: Outcome)
        ensures
            settled(o, ctx, flushed, empty_body()),
    {
        match flushed {
            Ok(_) => answer(ctx, Status::SUCCESS, build_empty_resp()),
            Err(e) => refuse(ctx, vfs_err(&e)),
        }
    }
}

// ---------------- read ----------------

/// How a read goes on: a pipe is read at once, a file by the backend.
pub open spec fn read_started(
    ctx: IoContext<Accepted, Bare>,
    server: &Server2,
    c0: &Smb2Conn,
    c1: &Smb2Conn,
    req: ReadReq,
    r: Step<usize>,
) -> bool {
    if c0.pipes@.contains_key(req.file_id) {
        &&& only_pipe_changes(c0, c1, req.file_id)
        &&& exists|out: Seq<u8>|
            done(r, ctx, Status::SUCCESS, #[trigger] read_body(out)) && pipe_drained(
                c0.pipes@[req.file_id],
                c1.pipes@[req.file_id],
                req.length as int,
                out,
            )
    } else {
        &&& *c1 == *c0
        &&& if share_of(server, c0, ctx.reply.tree_id) is None {
            done(r, ctx, Status::INVALID_HANDLE, Seq::empty())
        } else {
            match read_refusal(server, c0, req) {
                Some(s) => done(r, ctx, s, Seq::empty()),
                None => goes_on(r, ctx, read_len(req) as usize),
            }
        }
    }
}

/// Whether a read is answered: with the bytes that the backend gave, or with what went
/// wrong.
pub open spec fn read_settled(o: Outcome, ctx: IoContext<Accepted, Bare>, data: Result<Vec<u8>, VfsError>) -> bool {
    match data {
        Ok(d) => answers(o, ctx.reply, Status::SUCCESS, read_body(d@)),
        Err(e) => answers(o, ctx.reply, vfs_status(e), Seq::empty()),
    }
}

/// Serves READ.
pub struct ReadCmd;

impl ReadCmd {
    /// Reads from a pipe, or asks the backend for so many bytes of a file.
    pub fn start(ctx: IoContext<Accepted, Bare>, server: &Server2, conn: &mut Smb2Conn, req: &ReadReq) -> (r: Step<usize>)
        requires
            server.wf(),
            old(conn).wf(),
        ensures
            final(conn).wf(),
            read_started(ctx, server, old(conn), final(conn), *req, r),
    {
        match pipe_read(conn, req) {
            Some(b) => return Step::Answered(answer(ctx, Status::SUCCESS, b)),
            None => {},
        }
        if !has_share(server, conn, ctx.reply.tree_id) {
            return Step::Answered(refuse(ctx, Status::INVALID_HANDLE));
        }
        match plan_read(server, conn, req) {
            Ok(n) => Step::Storage(ctx, n),
            Err(s) => Step::Answered(refuse(ctx, s)),
        }
    }

    /// Answers with what was read.
    pub fn finish(ctx: IoContext<Accepted, Bare>, data: Result<Vec<u8>, VfsError>) -> (o: Outcome)
        ensures
            read_settled(o, ctx, data),
    {
        answer_result(ctx, finish_read(data))
    }
}

// ---------------- write ----------------

/// How a write goes on: a pipe is written at once, a file by the backend.
pub open spec fn write_started(
    ctx: IoContext<Accepted, Bare>,
    server: &Server2,
    c0: &Smb2Conn,
    c1: &Smb2Conn,
    req: WriteReq,
    shares: Seq<ShareInfo>,
    r: Step<()>,
) -> bool {
    if c0.pipes@.contains_key(req.file_id) {
        &&& only_pipe_changes(c0, c1, req.file_id)
        &&& pipe_fed(c0.pipes@[req.file_id], c1.pipes@[req.file_id], req.payload@, shares)
        &&& done(r, ctx, Status::SUCCESS, write_body(req.payload@.len() as u32))
    } else {
        &&& *c1 == *c0
        &&& if share_of(server, c0, ctx.reply.tree_id) is None {
            done(r, ctx, Status::INVALID_HANDLE, Seq::empty())
        } else {
            match write_refusal(server, c0, req) {
                Some(s) => done(r, ctx, s, Seq::empty()),
                None => goes_on(r, ctx, ()),
            }
        }
    }
}

/// How a write ends: it is answered, and leases that went stale are broken.
pub open spec fn write_settled(
    ctx: IoContext<Accepted, Bare>,
    s0: &Server2,
    s1: &Server2,
    conn: &Smb2Conn,
    fid: [u8; 16],
    written: Result<u64, VfsError>,
    o: Outcome,
    told: Seq<Notice>,
) -> bool {
    &&& *s1 == (Server2 { leases: s1.leases, ..*s0 })
    &&& match written {
        Ok(n) => {
            &&& answers(o, ctx.reply, Status::SUCCESS, write_body((n % 0x1_0000_0000) as u32))
            &&& write_breaks(&s0.leases, &s1.leases, conn, conn.handles@[fid].path@, fid, told)
        },
        Err(e) => answers(o, ctx.reply, vfs_status(e), Seq::empty()) && told.len() == 0 && *s1 == *s0,
    }
}

/// Serves WRITE.
pub struct WriteCmd;

impl WriteCmd {
    /// Writes to a pipe, or asks the backend to write to a file. `shares` is the list
    /// that a pipe answers with.
    pub fn start(
        ctx: IoContext<Accepted, Bare>,
        server: &Server2,
        conn: &mut Smb2Conn,
        req: &WriteReq,
        shares: &Vec<ShareInfo>,
    ) -> (r: Step<()>)
        requires
            server.wf(),
            old(conn).wf(),
            shares@.len() < 0x1000_0000,
            req.payload@.len() <= u32::MAX,
            old(conn).pipes@.contains_key(req.file_id) ==> fragments_ok(
                old(conn).pipes@[req.file_id].unread() + req.payload@,
            ),
        ensures
            final(conn).wf(),
            write_started(ctx, server, old(conn), final(conn), *req, shares@, r),
    {
        match pipe_write(conn, req, shares) {
            Some(b) => return Step::Answered(answer(ctx, Status::SUCCESS, b)),
            None => {},
        }
        if !has_share(server, conn, ctx.reply.tree_id) {
            return Step::Answered(refuse(ctx, Status::INVALID_HANDLE));
        }
        match plan_write(server, conn, req) {
            Some(s) => Step::Answered(refuse(ctx, s)),
            None => Step::Storage(ctx, ()),
        }
    }

    /// Answers once the bytes are written; leases that went stale are broken.
    pub fn finish(
        ctx: IoContext<Accepted, Bare>,
        server: &mut Server2,
        conn: &Smb2Conn,
        req: &WriteReq,
        written: Result<u64, VfsError>,
    ) -> (r: (Outcome, Vec<Notice>))
        requires
            old(server).wf(),
            conn.wf(),
            conn.handles@.contains_key(req.file_id),
        ensures
            final(server).wf(),
            write_settled(ctx, old(server), final(server), conn, req.file_id, written, r.0, r.1@),
    {
        let (b, told) = finish_write(server, conn, req.file_id, written);
        (answer_result(ctx, b), told)
    }
}

// ---------------- close ----------------

/// How a close goes on: a pipe is gone at once, and an open file is taken off its
/// connection for the backend to close.
pub open spec fn close_started(
    ctx: IoContext<Accepted, Bare>,
    server: &Server2,
    c0: &Smb2Conn,
    c1: &Smb2Conn,
    fid: [u8; 16],
    r: Step<OpenFile>,
) -> bool {
    if c0.pipes@.contains_key(fid) {
        &&& done(r, ctx, Status::SUCCESS, close_body([0, 0, 0, 0], 0, 0, 0))
        &&& *c1 == (Smb2Conn { pipes: c1.pipes, ..*c0 })
        &&& c1.pipes@ == c0.pipes@.remove(fid)
    } else if share_of(server, c0, ctx.reply.tree_id) is None || !c0.handles@.contains_key(fid) {
        done(r, ctx, Status::INVALID_HANDLE, Seq::empty()) && *c1 == *c0
    } else {
        &&& goes_on(r, ctx, c0.handles@[fid])
        &&& *c1 == (Smb2Conn { handles: c1.handles, searches: c1.searches, lease_keys: c1.lease_keys, ..*c0 })
        &&& c1.handles@ == c0.handles@.remove(fid)
        &&& c1.searches@ == c0.searches@.remove(fid)
        &&& c1.lease_keys@ == c0.lease_keys@.remove(fid)
    }
}

/// How a close ends: what the open held is released, and the change notifications on it,
/// `ended`, end too.
pub open spec fn close_settled(
    ctx: IoContext<Accepted, Bare>,
    s0: &Server2,
    s1: &Server2,
    c0: &Smb2Conn,
    c1: &Smb2Conn,
    fid: [u8; 16],
    path: Seq<char>,
    meta: FileMeta,
    closed: Result<(), VfsError>,
    o: Outcome,
    ended: Seq<u64>,
) -> bool {
    match closed {
        Ok(_) => {
            let ids = watches_on(c0.async_by_file@, fid, c0.async_by_file@.len() as int);
            &&& answers(o, ctx.reply, Status::SUCCESS, close_body(meta.times, meta.alloc, meta.eof, meta.attrs))
            &&& open_released(s0, s1, path, (c0.session_id, fid))
            &&& *c1 == (Smb2Conn {
                durable: c1.durable,
                async_cancels: c1.async_cancels,
                async_msgids: c1.async_msgids,
                async_by_file: c1.async_by_file,
                ..*c0
            })
            &&& c1.durable@ == c0.durable@.remove(fid)
            &&& ended == ids
            &&& c1.async_by_file@ == c0.async_by_file@.filter(other_file(fid))
            &&& c1.async_msgids@ == msgs_without(c0.async_msgids@, ids, ids.len() as int)
            &&& c1.async_cancels@ == ops_without(c0.async_cancels@, ids, ids.len() as int)
        },
        Err(e) => answers(o, ctx.reply, vfs_status(e), Seq::empty()) && ended.len() == 0 && *s1 == *s0 && *c1 == *c0,
    }
}

/// Serves CLOSE.
pub struct CloseCmd;

impl CloseCmd {
    /// Closes a pipe, or takes an open file off its connection for the backend to
    /// close.
    pub fn start(ctx: IoContext<Accepted, Bare>, server: &Server2, conn: &mut Smb2Conn, req: &CloseReq) -> (r: Step<
        OpenFile,
    >)
        requires
            server.wf(),
            old(conn).wf(),
        ensures
            final(conn).wf(),
            close_started(ctx, server, old(conn), final(conn), req.file_id, r),
    {
        if conn.pipes.contains(&req.file_id) {
            let _ = pipe_close(conn, &req.file_id);
            return Step::Answered(answer(ctx, Status::SUCCESS, build_close_resp([0, 0, 0, 0], 0, 0, 0)));
        }
        if !has_share(server, conn, ctx.reply.tree_id) {
            return Step::Answered(refuse(ctx, Status::INVALID_HANDLE));
        }
        match take_open(conn, &req.file_id) {
            Some(o) => Step::Storage(ctx, o),
            None => Step::Answered(refuse(ctx, Status::INVALID_HANDLE)),
        }
    }

    /// Answers once the file is closed: what it held is released, and the change
    /// notifications on it, which are returned, end with NOTIFY_CLEANUP.
    pub fn finish(
        ctx: IoContext<Accepted, Bare>,
        server: &mut Server2,
        conn: &mut Smb2Conn,
        req: &CloseReq,
        path: &str,
        meta: &FileMeta,
        closed: Result<(), VfsError>,
    ) -> (r: (Outcome, Vec<u64>))
        requires
            old(server).wf(),
            old(conn).wf(),
        ensures
            final(server).wf(),
            final(conn).wf(),
            close_settled(
                ctx,
                old(server),
                final(server),
                old(conn),
                final(conn),
                req.file_id,
                path@,
                *meta,
                closed,
                r.0,
                r.1@,
            ),
    {
        match finish_close(server, conn, &req.file_id, path, meta, closed) {
            Ok(b) => {
                let ended = complete_pending_notifies(conn, &req.file_id);
                (answer(ctx, Status::SUCCESS, b), ended)
            },
            Err(s) => (refuse(ctx, s), Vec::new()),
        }
    }
}

// ---------------- queries ----------------

/// How the listing of a directory goes on.
pub open spec fn query_dir_started(
    ctx: IoContext<Accepted, Bare>,
    server: &Server2,
    conn: &Smb2Conn,
    req: QueryDirReq,
    r: Step<DirPlan>,
) -> bool {
    if share_of(server, conn, ctx.reply.tree_id) is None {
        done(r, ctx, Status::INVALID_HANDLE, Seq::empty())
    } else {
        exists|p: DirPlan|
            #[trigger] listing_planned(conn, req, p) && (match p {
                DirPlan::Refuse(s) => done(r, ctx, s, Seq::empty()),
                _ => goes_on(r, ctx, p),
            })
    }
}

/// How a query of information goes on.
pub open spec fn query_info_started(
    ctx: IoContext<Accepted, Bare>,
    server: &Server2,
    conn: &Smb2Conn,
    req: QueryInfoReq,
    r: Step<InfoPlan>,
) -> bool {
    if share_of(server, conn, ctx.reply.tree_id) is None {
        done(r, ctx, Status::INVALID_HANDLE, Seq::empty())
    } else {
        exists|p: InfoPlan|
            #[trigger] info_planned(conn, req, p) && (match p {
                InfoPlan::Refuse(s) => done(r, ctx, s, Seq::empty()),
                InfoPlan::Unknown => done(r, ctx, Status::NOT_IMPLEMENTED, Seq::empty()),
                _ => goes_on(r, ctx, p),
            })
    }
}

/// How a change of information goes on.
pub open spec fn set_started(
    ctx: IoContext<Accepted, Bare>,
    server: &Server2,
    conn: &Smb2Conn,
    req: SetInfoReq,
    change: Change,
    r: Step<SetPlan2>,
) -> bool {
    if share_of(server, conn, ctx.reply.tree_id) is None {
        done(r, ctx, Status::INVALID_HANDLE, Seq::empty())
    } else {
        match set_planned2(conn, req, change) {
            SetPlan2::Refuse(s) => done(r, ctx, s, Seq::empty()),
            SetPlan2::Done => done(r, ctx, Status::SUCCESS, set_info_body()),
            p => goes_on(r, ctx, p),
        }
    }
}

/// Whether a query is answered: with what was found, with `none` where nothing was, or
/// with what went wrong.
pub open spec fn found_settled(
    o: Outcome,
    ctx: IoContext<Accepted, Bare>,
    found: Result<Option<Vec<u8>>, Status>,
    none: Status,
) -> bool {
    match found {
        Ok(Some(b)) => answers(o, ctx.reply, Status::SUCCESS, info_body(b@)),
        Ok(None) => answers(o, ctx.reply, none, Seq::empty()),
        Err(s) => answers(o, ctx.reply, s, Seq::empty()),
    }
}

/// Serves QUERY_DIRECTORY.
pub struct QueryDirCmd;

impl QueryDirCmd {
    /// Plans the listing of a directory.
    pub fn start(ctx: IoContext<Accepted, Bare>, server: &Server2, conn: &Smb2Conn, req: &QueryDirReq) -> (r: Step<
        DirPlan,
    >)
        requires
            server.wf(),
            conn.wf(),
        ensures
            query_dir_started(ctx, server, conn, *req, r),
    {
        if !has_share(server, conn, ctx.reply.tree_id) {
            return Step::Answered(refuse(ctx, Status::INVALID_HANDLE));
        }
        let p = plan_query_directory(conn, req);
        assert(listing_planned(conn, *req, p));
        match p {
            DirPlan::Refuse(s) => Step::Answered(refuse(ctx, s)),
            _ => Step::Storage(ctx, p),
        }
    }

    /// Answers with the entries, or that there are no more.
    pub fn finish(ctx: IoContext<Accepted, Bare>, listed: Result<Option<Vec<u8>>, Status>) -> (o: Outcome)
        ensures
            found_settled(o, ctx, listed, Status::NO_MORE_FILES),
    {
        match listed {
            Ok(Some(b)) => answer(ctx, Status::SUCCESS, build_info_resp(b.as_slice())),
            Ok(None) => refuse(ctx, Status::NO_MORE_FILES),
            Err(s) => refuse(ctx, s),
        }
    }
}

/// Serves QUERY_INFO.
pub struct QueryInfoCmd;

impl QueryInfoCmd {
    /// Plans a query of information.
    pub fn start(ctx: IoContext<Accepted, Bare>, server: &Server2, conn: &Smb2Conn, req: &QueryInfoReq) -> (r: Step<
        InfoPlan,
    >)
        requires
            server.wf(),
            conn.wf(),
        ensures
            query_info_started(ctx, server, conn, *req, r),
    {
        if !has_share(server, conn, ctx.reply.tree_id) {
            return Step::Answered(refuse(ctx, Status::INVALID_HANDLE));
        }
        let p = plan_query_info(conn, req);
        assert(info_planned(conn, *req, p));
        match p {
            InfoPlan::Refuse(s) => Step::Answered(refuse(ctx, s)),
            InfoPlan::Unknown => Step::Answered(refuse(ctx, Status::NOT_IMPLEMENTED)),
            _ => Step::Storage(ctx, p),
        }
    }

    /// Answers with the information, or that it is not served.
    pub fn finish(ctx: IoContext<Accepted, Bare>, found: Result<Option<Vec<u8>>, Status>) -> (o: Outcome)
        ensures
            found_settled(o, ctx, found, Status::NOT_IMPLEMENTED),
    {
        match found {
            Ok(Some(b)) => answer(ctx, Status::SUCCESS, build_info_resp(b.as_slice())),
            Ok(None) => refuse(ctx, Status::NOT_IMPLEMENTED),
            Err(s) => refuse(ctx, s),
        }
    }
}

/// Serves SET_INFO.
pub struct SetInfoCmd;

impl SetInfoCmd {
    /// Plans a change of information; `change` is what its data was read as.
    pub fn start(ctx: IoContext<Accepted, Bare>, server: &Server2, conn: &Smb2Conn, req: &SetInfoReq, change: Change) -> (r:
        Step<SetPlan2>)
        requires
            server.wf(),
            conn.wf(),
        ensures
            set_started(ctx, server, conn, *req, change, r),
    {
        if !has_share(server, conn, ctx.reply.tree_id) {
            return Step::Answered(refuse(ctx, Status::INVALID_HANDLE));
        }
        let p = plan_set_info(conn, req, change);
        match p {
            SetPlan2::Refuse(s) => Step::Answered(refuse(ctx, s)),
            SetPlan2::Done => Step::Answered(answer(ctx, Status::SUCCESS, build_set_info_resp())),
            _ => Step::Storage(ctx, p),
        }
    }

    /// Answers once the change is applied, or could not be.
    pub fn finish(ctx: IoContext<Accepted, Bare>, applied: Result<(), VfsError>) -> (o: Outcome)
        ensures
            settled(o, ctx, applied, set_info_body()),
    {
        match applied {
            Ok(_) => answer(ctx, Status::SUCCESS, build_set_info_resp()),
            Err(e) => refuse(ctx, vfs_err(&e)),
        }
    }
}

// ---------------- create and ioctl ----------------

/// How a create goes on: a pipe is opened at once, a file by the backend.
pub open spec fn create_started(
    ctx: IoContext<Accepted, Bare>,
    s0: &Server2,
    s1: &Server2,
    c0: &Smb2Conn,
    c1: &Smb2Conn,
    name: Seq<char>,
    r: Step<()>,
) -> bool {
    match share_of(s0, c0, ctx.reply.tree_id) {
        None => done(r, ctx, Status::INVALID_HANDLE, Seq::empty()) && *s1 == *s0 && *c1 == *c0,
        Some(s) => if s.is_ipc {
            exists|b: Result<Vec<u8>, Status>|
                #[trigger] pipe_created(s0, s1, c0, c1, name, b) && (r matches Step::Answered(o) && answers_result(o, ctx, b))
        } else {
            goes_on(r, ctx, ()) && *s1 == *s0 && *c1 == *c0
        },
    }
}

/// How a create is answered. Where a symbolic link stopped it, the answer says where the
/// link leads, once.
pub open spec fn create_settled(
    ctx: IoContext<Accepted, Bare>,
    c0: &Smb2Conn,
    c1: &Smb2Conn,
    created: Result<Vec<u8>, Status>,
    o: Outcome,
) -> bool {
    match created {
        Ok(b) => answers(o, ctx.reply, Status::SUCCESS, b@) && *c1 == *c0,
        Err(s) => if s == Status::STOPPED_ON_SYMLINK {
            &&& *c1 == (Smb2Conn { symlink_error: None, ..*c0 })
            &&& answers(
                o,
                ctx.reply,
                s,
                match c0.symlink_error {
                    Some(b) => b@,
                    None => error_bytes(),
                },
            )
        } else {
            answers(o, ctx.reply, s, Seq::empty()) && *c1 == *c0
        },
    }
}

/// How an ioctl goes on.
pub open spec fn ioctl_started(ctx: IoContext<Accepted, Bare>, plan: IoctlPlan, r: Step<IoctlPlan>) -> bool {
    match plan {
        IoctlPlan::Reply(s, b) => done(r, ctx, s, b@),
        IoctlPlan::Silent => r matches Step::Answered(o) && o is Silent,
        _ => goes_on(r, ctx, plan),
    }
}

/// Serves CREATE.
pub struct CreateCmd;

impl CreateCmd {
    /// Opens a pipe, or goes on to open a file.
    pub fn start(ctx: IoContext<Accepted, Bare>, server: &mut Server2, conn: &mut Smb2Conn, req: &CreateReq) -> (r: Step<
        (),
    >)
        requires
            old(server).wf(),
            old(conn).wf(),
        ensures
            final(server).wf(),
            final(conn).wf(),
            create_started(ctx, old(server), final(server), old(conn), final(conn), req.name@, r),
    {
        if share_is_ipc(server, conn, ctx.reply.tree_id) {
            let b = pipe_create(server, conn, req);
            assert(pipe_created(old(server), server, old(conn), conn, req.name@, b));
            return Step::Answered(answer_result(ctx, b));
        }
        if !has_share(server, conn, ctx.reply.tree_id) {
            return Step::Answered(refuse(ctx, Status::INVALID_HANDLE));
        }
        Step::Storage(ctx, ())
    }

    /// Answers a create. Where a symbolic link stopped it, the answer says where the
    /// link leads, once.
    pub fn finish(ctx: IoContext<Accepted, Bare>, conn: &mut Smb2Conn, created: Result<Vec<u8>, Status>) -> (o: Outcome)
        ensures
            create_settled(ctx, old(conn), final(conn), created, o),
    {
        match created {
            Ok(b) => answer(ctx, Status::SUCCESS, b),
            Err(s) => {
                if s == Status::STOPPED_ON_SYMLINK {
                    let mut told: Option<Vec<u8>> = None;
                    std::mem::swap(&mut told, &mut conn.symlink_error);
                    let b = match told {
                        Some(b) => b,
                        None => error_resp(),
                    };
                    answer(ctx, s, b)
                } else {
                    refuse(ctx, s)
                }
            },
        }
    }
}

/// Serves IOCTL.
pub struct IoctlCmd;

impl IoctlCmd {
    /// Answers an ioctl, or stays silent, or goes on to what is asked of the outside.
    pub fn serve(ctx: IoContext<Accepted, Bare>, plan: IoctlPlan) -> (r: Step<IoctlPlan>)
        ensures
            ioctl_started(ctx, plan, r),
    {
        match plan {
            IoctlPlan::Reply(s, b) => Step::Answered(answer(ctx, s, b)),
            IoctlPlan::Silent => Step::Answered(Outcome::Silent),
            _ => Step::Storage(ctx, plan),
        }
    }
}

// ---------------- laws ----------------

/// Work of the backend is reported as it went, to whoever asked for it: success is
/// answered exactly where the work was done.
pub proof fn law_work_is_reported(o: Outcome, ctx: IoContext<Accepted, Bare>, work: Result<(), VfsError>, body: Seq<u8>)
    requires
        settled(o, ctx, work, body),
    ensures
        o matches Outcome::Final(a) && a.reply == ctx.reply && (a.status == Status::SUCCESS <==> work is Ok) && (work is Ok
            ==> a.body@ == body) && (work is Err ==> a.body@.len() == 0),
{
}

/// A flush of an open file always reaches the backend; one without a share is refused.
pub proof fn law_open_file_is_flushed(
    ctx: IoContext<Accepted, Bare>,
    server: &Server2,
    conn: &Smb2Conn,
    req: FlushReq,
    r: Step<()>,
)
    requires
        flush_started(ctx, server, conn, req, r),
    ensures
        r is Storage <==> share_of(server, conn, ctx.reply.tree_id) is Some && conn.handles@.dom().contains(req.file_id),
        r matches Step::Storage(c, _) ==> c == ctx,
        share_of(server, conn, ctx.reply.tree_id) is None ==> (r matches Step::Answered(o) && (o matches Outcome::Final(a)
            && a.status == Status::INVALID_HANDLE)),
{
}

/// A file that is open for reading, and that nobody has locked, is always read by the
/// backend, as much as is asked for up to one megabyte; a pipe never is. Reading a file
/// changes nothing on the connection.
pub proof fn law_open_file_is_read(
    ctx: IoContext<Accepted, Bare>,
    server: &Server2,
    c0: &Smb2Conn,
    c1: &Smb2Conn,
    req: ReadReq,
    r: Step<usize>,
)
    requires
        read_started(ctx, server, c0, c1, req, r),
    ensures
        c0.pipes@.dom().contains(req.file_id) ==> r is Answered,
        !c0.pipes@.dom().contains(req.file_id) ==> *c1 == *c0,
        r matches Step::Storage(c, n) ==> c == ctx && c0.handles@.dom().contains(req.file_id)
            && c0.handles@[req.file_id].can_read && !c0.handles@[req.file_id].is_dir && n <= req.length && (req.length
            <= 1048576 ==> n == req.length),
        !c0.pipes@.dom().contains(req.file_id) && share_of(server, c0, ctx.reply.tree_id) is Some
            && c0.handles@.dom().contains(req.file_id) && c0.handles@[req.file_id].can_read
            && !c0.handles@[req.file_id].is_dir && server.locks.locks(c0.handles@[req.file_id].path@).len() == 0
            ==> r is Storage,
{
}

/// A file that is open for writing, and that nobody has locked, is always written by the
/// backend; a pipe never is, and its client is told that all bytes were taken.
pub proof fn law_open_file_is_written(
    ctx: IoContext<Accepted, Bare>,
    server: &Server2,
    c0: &Smb2Conn,
    c1: &Smb2Conn,
    req: WriteReq,
    shares: Seq<ShareInfo>,
    r: Step<()>,
)
    requires
        write_started(ctx, server, c0, c1, req, shares, r),
        req.payload@.len() < 0x1_0000_0000,
    ensures
        c0.pipes@.dom().contains(req.file_id) ==> (r matches Step::Answered(o) && (o matches Outcome::Final(a) && a.status
            == Status::SUCCESS && little(a.body@, 4, 4) == req.payload@.len())),
        !c0.pipes@.dom().contains(req.file_id) ==> *c1 == *c0,
        r matches Step::Storage(c, _) ==> c == ctx && c0.handles@.dom().contains(req.file_id)
            && c0.handles@[req.file_id].can_write && !c0.handles@[req.file_id].is_dir,
        !c0.pipes@.dom().contains(req.file_id) && share_of(server, c0, ctx.reply.tree_id) is Some
            && c0.handles@.dom().contains(req.file_id) && c0.handles@[req.file_id].can_write
            && !c0.handles@[req.file_id].is_dir && server.locks.locks(c0.handles@[req.file_id].path@).len() == 0
            ==> r is Storage,
{
    law_write_response_carries_the_count(req.payload@.len() as u32);
}

/// The client gets the bytes that the backend read, and a failed read gives none.
pub proof fn law_bytes_read_are_sent(o: Outcome, ctx: IoContext<Accepted, Bare>, data: Result<Vec<u8>, VfsError>)
    requires
        read_settled(o, ctx, data),
        data matches Ok(d) ==> d@.len() < 0x1_0000_0000,
    ensures
        o matches Outcome::Final(a) && a.reply == ctx.reply && (a.status == Status::SUCCESS <==> data is Ok) && (data matches Ok(
            d,
        ) ==> little(a.body@, 4, 4) == d@.len() && a.body@.subrange(a.body@[2] - 64, a.body@.len() as int) == d@),
{
    if data is Ok {
        law_read_response_carries_the_data(data->Ok_0@);
    }
}

/// A write is answered with success exactly where the backend wrote, with the count of
/// what it wrote; a failed write breaks no caching.
pub proof fn law_written_bytes_are_counted(
    ctx: IoContext<Accepted, Bare>,
    s0: &Server2,
    s1: &Server2,
    conn: &Smb2Conn,
    fid: [u8; 16],
    written: Result<u64, VfsError>,
    o: Outcome,
    told: Seq<Notice>,
)
    requires
        write_settled(ctx, s0, s1, conn, fid, written, o, told),
    ensures
        o matches Outcome::Final(a) && a.reply == ctx.reply && (a.status == Status::SUCCESS <==> written is Ok) && (
        written matches Ok(n) ==> (n < 0x1_0000_0000 ==> little(a.body@, 4, 4) == n)),
        written is Err ==> *s1 == *s0 && told.len() == 0,
        s1.locks == s0.locks && s1.shares == s0.shares && s1.oplocks == s0.oplocks,
{
    if written is Ok {
        let n = written->Ok_0;
        law_write_response_carries_the_count((n % 0x1_0000_0000) as u32);
    }
}

/// A close takes away the pipe or the file that it names and no other; only an open file
/// reaches the backend, and a handle that is neither is refused.
pub proof fn law_close_takes_the_open_away(
    ctx: IoContext<Accepted, Bare>,
    server: &Server2,
    c0: &Smb2Conn,
    c1: &Smb2Conn,
    fid: [u8; 16],
    r: Step<OpenFile>,
    other: [u8; 16],
)
    requires
        close_started(ctx, server, c0, c1, fid, r),
        other != fid,
    ensures
        r matches Step::Storage(c, o) ==> c == ctx && c0.handles@.dom().contains(fid) && o == c0.handles@[fid]
            && !c1.handles@.dom().contains(fid) && !c1.searches@.dom().contains(fid) && !c1.lease_keys@.dom().contains(fid),
        share_of(server, c0, ctx.reply.tree_id) is Some && c0.handles@.dom().contains(fid)
            && !c0.pipes@.dom().contains(fid) ==> r is Storage,
        c0.pipes@.dom().contains(fid) ==> !c1.pipes@.dom().contains(fid) && c1.handles@ == c0.handles@ && r is Answered,
        !c0.pipes@.dom().contains(fid) && !c0.handles@.dom().contains(fid) ==> *c1 == *c0 && (r matches Step::Answered(o)
            && (o matches Outcome::Final(a) && a.status == Status::INVALID_HANDLE)),
        c1.handles@.dom().contains(other) == c0.handles@.dom().contains(other),
        c0.handles@.dom().contains(other) ==> c1.handles@[other] == c0.handles@[other],
        c1.pipes@.dom().contains(other) == c0.pipes@.dom().contains(other),
{
}

/// A close that succeeded ends the durability of its open and every watch on it; one that
/// failed changes nothing.
#[verifier::rlimit(40)]
#[verifier::spinoff_prover]
pub proof fn law_closed_file_is_watched_no_more(
    ctx: IoContext<Accepted, Bare>,
    s0: &Server2,
    s1: &Server2,
    c0: &Smb2Conn,
    c1: &Smb2Conn,
    fid: [u8; 16],
    path: Seq<char>,
    meta: FileMeta,
    closed: Result<(), VfsError>,
    o: Outcome,
    ended: Seq<u64>,
    i: int,
)
    requires
        close_settled(ctx, s0, s1, c0, c1, fid, path, meta, closed, o, ended),
    ensures
        o matches Outcome::Final(a) && a.reply == ctx.reply && (a.status == Status::SUCCESS <==> closed is Ok),
        closed is Err ==> *s1 == *s0 && *c1 == *c0 && ended.len() == 0,
        closed is Ok ==> !c1.durable@.dom().contains(fid),
        closed is Ok && 0 <= i < c1.async_by_file@.len() ==> c1.async_by_file@[i].0 != fid,
        closed is Ok && 0 <= i < c0.async_by_file@.len() && c0.async_by_file@[i].0 == fid ==> ended.contains(
            c0.async_by_file@[i].1,
        ),
        c1.handles@ == c0.handles@ && c1.pipes@ == c0.pipes@ && c1.trees@ == c0.trees@,
{
    if closed is Ok {
        let v = c0.async_by_file@;
        if 0 <= i < v.len() {
            law_closed_directory_ends_its_watches(v, fid, i, 0);
        }
        if 0 <= i < c1.async_by_file@.len() {
            v.lemma_filter_pred(other_file(fid), i);
        }
    }
}

/// What a query found is sent, whole; where nothing was found or the query failed, the
/// status says so and nothing is sent.
pub proof fn law_found_information_is_sent(
    o: Outcome,
    ctx: IoContext<Accepted, Bare>,
    found: Result<Option<Vec<u8>>, Status>,
    none: Status,
)
    requires
        found_settled(o, ctx, found, none),
        found matches Ok(Some(b)) ==> b@.len() < 0x1_0000_0000,
    ensures
        ({
            &&& o matches Outcome::Final(a)
            &&& a.reply == ctx.reply
            &&& found matches Ok(Some(b)) ==> a.status == Status::SUCCESS && little(a.body@, 4, 4) == b@.len()
                && a.body@.subrange(8, a.body@.len() as int) == b@
            &&& found matches Ok(None) ==> a.status == none && a.body@.len() == 0
            &&& found matches Err(s) ==> a.status == s && a.body@.len() == 0
        }),
{
    match found {
        Ok(Some(b)) => {
            law_query_response_carries_the_data(b@);
            assert(info_body(b@).subrange(8, info_body(b@).len() as int) =~= b@);
        },
        _ => {},
    }
}

/// On a share, a listing goes on to the backend exactly where it lists or goes on listing;
/// a query exactly where it asks for what is known.
pub proof fn law_queries_reach_storage(
    ctx: IoContext<Accepted, Bare>,
    server: &Server2,
    conn: &Smb2Conn,
    listing: QueryDirReq,
    d: Step<DirPlan>,
    query: QueryInfoReq,
    q: Step<InfoPlan>,
)
    requires
        query_dir_started(ctx, server, conn, listing, d),
        query_info_started(ctx, server, conn, query, q),
    ensures
        d matches Step::Storage(c, p) ==> c == ctx && listing_planned(conn, listing, p) && !(p is Refuse),
        q matches Step::Storage(c, p) ==> c == ctx && info_planned(conn, query, p) && !(p is Refuse) && !(p is Unknown),
        share_of(server, conn, ctx.reply.tree_id) is None ==> d is Answered && q is Answered,
        share_of(server, conn, ctx.reply.tree_id) is Some && query.info_type == 1 && conn.handles@.dom().contains(
            query.file_id,
        ) ==> q is Storage,
        share_of(server, conn, ctx.reply.tree_id) is Some && query.info_type == 2 ==> q is Storage,
        d matches Step::Answered(o) ==> (o matches Outcome::Final(a) && a.status != Status::SUCCESS),
        q matches Step::Answered(o) ==> (o matches Outcome::Final(a) && a.status != Status::SUCCESS),
{
}

/// A change of an open file is carried out by the backend: it is answered with success at
/// once only where its data asks for nothing.
pub proof fn law_changes_reach_storage(
    ctx: IoContext<Accepted, Bare>,
    server: &Server2,
    conn: &Smb2Conn,
    req: SetInfoReq,
    change: Change,
    r: Step<SetPlan2>,
)
    requires
        set_started(ctx, server, conn, req, change, r),
    ensures
        r matches Step::Answered(o) ==> (o matches Outcome::Final(a) && (a.status == Status::SUCCESS ==> req.info_type == 1
            && change == Change::Advisory)),
        share_of(server, conn, ctx.reply.tree_id) is Some && conn.handles@.dom().contains(req.file_id) && (req.info_type == 3
            || req.info_type == 1 && change == Change::Operation) ==> r is Storage,
        r matches Step::Storage(c, p) ==> c == ctx && (p == SetPlan2::ApplyFile <==> req.info_type == 1),
        share_of(server, conn, ctx.reply.tree_id) is None ==> r is Answered,
{
}

/// On a share of files every create goes on to the backend and changes nothing yet; on the
/// pipe share none does, and only a pipe that is served is opened.
pub proof fn law_create_reaches_storage(
    ctx: IoContext<Accepted, Bare>,
    s0: &Server2,
    s1: &Server2,
    c0: &Smb2Conn,
    c1: &Smb2Conn,
    name: Seq<char>,
    r: Step<()>,
)
    requires
        create_started(ctx, s0, s1, c0, c1, name, r),
    ensures
        r is Storage <==> (share_of(s0, c0, ctx.reply.tree_id) matches Some(s) && !s.is_ipc),
        r matches Step::Storage(c, _) ==> c == ctx && *s1 == *s0 && *c1 == *c0,
        c1.handles@ == c0.handles@,
        r matches Step::Answered(o) ==> (o matches Outcome::Final(a) && a.reply == ctx.reply && (a.status
            == Status::SUCCESS <==> (share_of(s0, c0, ctx.reply.tree_id) is Some && known_pipe(
            lowercase(without_leading(name)),
        )))),
{
}

/// A create is answered with success exactly where it succeeded, with the body it was
/// given. What a symbolic link leads to is told once.
pub proof fn law_create_is_answered(
    ctx: IoContext<Accepted, Bare>,
    c0: &Smb2Conn,
    c1: &Smb2Conn,
    created: Result<Vec<u8>, Status>,
    o: Outcome,
)
    requires
        create_settled(ctx, c0, c1, created, o),
        created != Err::<Vec<u8>, Status>(Status::SUCCESS),
    ensures
        ({
            &&& o matches Outcome::Final(a)
            &&& a.reply == ctx.reply
            &&& a.status == Status::SUCCESS <==> created is Ok
            &&& created matches Ok(b) ==> a.body@ == b@
            &&& created matches Err(s) ==> a.status == s
            &&& created == Err::<Vec<u8>, Status>(Status::STOPPED_ON_SYMLINK) ==> c1.symlink_error is None && (
            c0.symlink_error matches Some(b) ==> a.body@ == b@)
            &&& c1.handles@ == c0.handles@
        }),
{
}

/// An ioctl is answered with what its plan holds, and what its plan asks of the outside is
/// asked for.
pub proof fn law_ioctl_follows_its_plan(ctx: IoContext<Accepted, Bare>, plan: IoctlPlan, r: Step<IoctlPlan>)
    requires
        ioctl_started(ctx, plan, r),
    ensures
        plan matches IoctlPlan::Reply(s, b) ==> (r matches Step::Answered(o) && (o matches Outcome::Final(a) && a.reply
            == ctx.reply && a.status == s && a.body@ == b@)),
        plan is Silent ==> (r matches Step::Answered(o) && o is Silent),
        !(plan is Reply) && !(plan is Silent) ==> (r matches Step::Storage(c, p) && c == ctx && p == plan),
{
}

} // verus!
