//! From a message to what is done about it: the chain of commands in it, who may
//! issue them, which handler takes each, and how the answers become one message.
use std::collections::HashMap;
use vstd::prelude::*;
use vstd::slice::slice_subrange;
use crate::bytes::{get_u16, lemma_little, little, u16_at};
use crate::dirops::{addressable, check_directory, create_directory, delete, delete_directory, delete_planned, directory_planned, done, is_path_plan, is_rename_plan, nt_rename, nt_rename_planned, query_information, rename, set_information, set_time_planned, DeletePlan, PathPlan, RenamePlan, SetTimePlan};
use crate::files::{base_found, close, closed, create_base_path, create_parsed, flush, flush_planned, lock_accepted, locking_andx, parse_nt_create, read_andx, read_planned, seek, seek_planned, write_andx, write_planned, ClosePlan, FlushPlan, NtCreate, ReadPlan, SeekFrom, WritePlan};
use crate::handlers::{disk_queried, echo, echoed, empty_body, handle_negotiate, logged_off, logoff, negotiated, one_body, query_disk, session_set_up, session_setup, tree_connect, tree_connected, tree_disconnect, tree_disconnected};
use crate::message::{body_ok, body_views, build_response, chained_request, command_at, has_header, header_of, is_andx, parse_header, response_bytes, BodyView, Request, RespBody, SmbHeader, SubReq, HDR_LEN};
use crate::ntlm::Type2Options;
use crate::smb::{Status, COM_CHECK_DIRECTORY, COM_CLOSE, COM_CREATE, COM_CREATE_DIRECTORY, COM_DELETE, COM_DELETE_DIRECTORY, COM_ECHO, COM_FLUSH, COM_LOCKING_ANDX, COM_LOCK_BYTE_RANGE, COM_LOGOFF_ANDX, COM_NEGOTIATE, COM_NT_CANCEL, COM_NT_CREATE_ANDX, COM_NT_RENAME, COM_NT_TRANSACT, COM_OPEN, COM_OPEN_ANDX, COM_PROCESS_EXIT, COM_QUERY_INFORMATION, COM_QUERY_INFORMATION_DISK, COM_READ, COM_READ_ANDX, COM_RENAME, COM_SEARCH, COM_SEEK, COM_SESSION_SETUP_ANDX, COM_SET_INFORMATION, COM_TRANSACTION, COM_TRANSACTION2, COM_TREE_CONNECT_ANDX, COM_TREE_DISCONNECT, COM_UNLOCK_BYTE_RANGE, COM_WRITE, COM_WRITE_ANDX, FLAGS2_UNICODE, TRANS2_FIND_FIRST2, TRANS2_FIND_NEXT2, TRANS2_QUERY_FILE_INFO, TRANS2_QUERY_FS_INFO, TRANS2_QUERY_PATH_INFO, TRANS2_SET_FILE_INFO, TRANS2_SET_PATH_INFO};
use crate::state::{next_uid, next_unreserved, ConnState, FileHandle, Ids, ServerShared, Session};
use crate::trans2::{file_queried, file_set, find_continued, find_first2, find_next2, find_planned, fs_queried, path_queried, path_set, query_file_info, query_fs_info, query_path_info, set_file_info, set_path_info, FileQuery, FindPlan, NextPlan, PathQuery, SetPlan};

verus! {

broadcast use vstd::std_specs::hash::group_hash_axioms;

// ---------------- the chain of commands ----------------

/// Whether the words of a request start with a link to a further command.
pub open spec fn has_link(command: u8) -> bool {
    is_andx(command) || command == COM_NT_CREATE_ANDX
}

/// The words of the command at `off`, as far as the message holds them.
pub open spec fn words_at(buf: Seq<u8>, off: int) -> Seq<u8> {
    let end = if off + 1 + 2 * buf[off] <= buf.len() {
        off + 1 + 2 * buf[off]
    } else {
        buf.len() as int
    };
    buf.subrange(off + 1, end)
}

/// Whether nothing but an empty command lies at `off`, at the end of the message.
pub open spec fn empty_tail(buf: Seq<u8>, off: int) -> bool {
    buf[off] == 0 && (u16_at(buf, off + 1) == 0 || off + 3 >= buf.len()) && off >= buf.len() - 4
}

/// The command that the one at `off` is linked to: its code and offset.
pub open spec fn link(buf: Seq<u8>, command: u8, off: int) -> Option<(u8, int)> {
    let w = words_at(buf, off);
    let next = u16_at(w, 2) as int;
    if has_link(command) && buf[off] >= 3 && w.len() >= 4 && w[0] != 0xFF && HDR_LEN < next < buf.len() && command_at(
        buf,
        next,
    ) && !empty_tail(buf, next) {
        Some((w[0], next))
    } else {
        None
    }
}

/// The commands of a message from the one at `off` on, at most `n` of them.
pub open spec fn chain(buf: Seq<u8>, command: u8, off: int, n: int) -> Seq<(u8, int)>
    decreases n,
{
    if n <= 0 {
        Seq::empty()
    } else {
        seq![(command, off)] + match link(buf, command, off) {
            Some((c, o)) => chain(buf, c, o, n - 1),
            None => Seq::empty(),
        }
    }
}

/// Whether `r` is the command `c.0` at `c.1` of a message.
pub open spec fn is_command(r: Request, buf: Seq<u8>, c: (u8, int)) -> bool {
    &&& r.hdr == (SmbHeader { command: c.0, ..header_of(buf) })
    &&& r.buf@ == buf
    &&& r.wc_off == c.1
    &&& r.wct == buf[c.1]
    &&& r.bc_off == c.1 + 1 + 2 * r.wct
}

fn next_command<'a>(cur: &Request<'a>) -> (r: Option<Request<'a>>)
    requires
        has_header(cur.buf@),
        cur.wc_off < cur.buf@.len(),
        is_command(*cur, cur.buf@, (cur.hdr.command, cur.wc_off as int)),
    ensures
        match link(cur.buf@, cur.hdr.command, cur.wc_off as int) {
            Some(c) => r is Some && is_command(r->0, cur.buf@, c) && r->0.wc_off < cur.buf@.len(),
            None => r is None,
        },
{
    let c: u8 = cur.hdr.command;
    let linked: bool = c == COM_SESSION_SETUP_ANDX || c == COM_TREE_CONNECT_ANDX || c == COM_OPEN_ANDX || c
        == COM_READ_ANDX || c == COM_WRITE_ANDX || c == COM_LOGOFF_ANDX || c == COM_LOCKING_ANDX || c
        == COM_NT_CREATE_ANDX;
    let w = cur.word_bytes();
    assert(w@ =~= words_at(cur.buf@, cur.wc_off as int));
    if !linked || cur.wct < 3 || w.len() < 4 || w[0] == 0xFF {
        return None;
    }
    let next: usize = get_u16(w, 2) as usize;
    let n: usize = cur.buf.len();
    if next <= HDR_LEN || next >= n {
        return None;
    }
    match chained_request(cur.buf, next) {
        Some(q) => {
            if q.wct == 0 && (get_u16(cur.buf, next + 1) == 0 || n - next <= 3) && next >= n - 4 {
                return None;
            }
            let mut hdr = q.hdr;
            hdr.command = w[0];
            Some(Request { hdr, buf: cur.buf, wc_off: next, wct: q.wct, bc_off: q.bc_off })
        },
        None => None,
    }
}

/// Whether these are the commands of a message.
pub open spec fn commands_of(buf: Seq<u8>, r: Option<Vec<Request>>) -> bool {
    &&& r is Some <==> has_header(buf)
    &&& r matches Some(v) ==> {
        let c = chain(buf, buf[4], HDR_LEN as int, buf.len() as int);
        &&& v@.len() == c.len()
        &&& forall|i: int| 0 <= i < c.len() ==> is_command(#[trigger] v@[i], buf, c[i])
    }
}

/// Parses a message into its commands; nothing without an SMB header.
pub fn commands<'a>(buf: &'a [u8]) -> (r: Option<Vec<Request<'a>>>)
    ensures
        commands_of(buf@, r),
{
    let n: usize = buf.len();
    let (hdr, wc_off) = match parse_header(buf) {
        Some(h) => h,
        None => {
            return None;
        },
    };
    let wct: usize = buf[wc_off] as usize;
    let bc_off: usize = wc_off + 1 + 2 * wct;
    let first = Request { hdr, buf, wc_off, wct, bc_off };
    let ghost whole = chain(buf@, buf@[4], HDR_LEN as int, n as int);
    let mut v: Vec<Request<'a>> = Vec::new();
    let mut cur = first;
    let mut left: usize = n;
    assert(v@.len() + chain(buf@, cur.hdr.command, cur.wc_off as int, left as int).len() == whole.len());
    loop
        invariant_except_break
            has_header(buf@),
            left >= 1,
            buf@.len() == n,
            cur.buf@ == buf@,
            cur.wc_off < n,
            is_command(cur, buf@, (cur.hdr.command, cur.wc_off as int)),
            whole.subrange(v@.len() as int, whole.len() as int) == chain(
                buf@,
                cur.hdr.command,
                cur.wc_off as int,
                left as int,
            ),
            v@.len() < whole.len(),
            forall|i: int| 0 <= i < v@.len() ==> is_command(#[trigger] v@[i], buf@, whole[i]),
        ensures
            v@.len() == whole.len(),
            forall|i: int| 0 <= i < v@.len() ==> is_command(#[trigger] v@[i], buf@, whole[i]),
        decreases left,
    {
        let ghost k = v@.len() as int;
        let ghost rest = whole.subrange(k, whole.len() as int);
        assert(rest[0] == (cur.hdr.command, cur.wc_off as int));
        assert(whole[k] == rest[0]);
        let next = next_command(&cur);
        proof {
            let tail = match link(buf@, cur.hdr.command, cur.wc_off as int) {
                Some((c, o)) => chain(buf@, c, o, left - 1),
                None => Seq::empty(),
            };
            assert(rest == seq![(cur.hdr.command, cur.wc_off as int)] + tail);
            assert(whole.subrange(k + 1, whole.len() as int) =~= rest.subrange(1, rest.len() as int));
            assert(rest.subrange(1, rest.len() as int) =~= tail);
        }
        v.push(cur);
        left -= 1;
        match next {
            Some(q) => {
                if left == 0 {
                    break;
                }
                cur = q;
            },
            None => {
                break;
            },
        }
    }
    Some(v)
}

// ---------------- admission ----------------

/// Whether a command needs a session.
pub open spec fn needs_session(command: u8) -> bool {
    !(command == COM_NEGOTIATE || command == COM_SESSION_SETUP_ANDX || command == COM_ECHO || command
        == COM_PROCESS_EXIT || command == COM_NT_CANCEL)
}

/// Whether a command needs a connected tree.
pub open spec fn needs_tree(command: u8) -> bool {
    needs_session(command) && command != COM_LOGOFF_ANDX && command != COM_TREE_CONNECT_ANDX
}

/// Whether the connection has neither a session nor one under way.
pub open spec fn is_stranger(conn: &ConnState) -> bool {
    conn.session is None && !conn.auth_pending
}

/// Whether a command makes a guest of a client that never authenticated.
pub open spec fn becomes_guest(server: &ServerShared, conn: &ConnState, command: u8) -> bool {
    is_stranger(conn) && server.takes_guests() && needs_session(command)
}

/// The status a command is refused with before any handler sees it.
pub open spec fn admission_refusal(server: &ServerShared, conn: &ConnState, command: u8, tid: u16) -> Option<Status> {
    if needs_session(command) && is_stranger(conn) && !server.takes_guests() {
        Some(Status::ACCESS_DENIED)
    } else if needs_tree(command) && !conn.trees@.contains_key(tid) {
        Some(Status::INVALID_HANDLE)
    } else {
        None
    }
}

/// Whether `c1` and `i1` are `c0` and `i0` with the client mapped to guest where
/// that is due.
pub open spec fn mapped(server: &ServerShared, c0: &ConnState, c1: &ConnState, i0: &Ids, i1: &Ids, command: u8) -> bool {
    if becomes_guest(server, c0, command) {
        let uid = if c0.uid != 0 {
            c0.uid
        } else {
            next_unreserved(i0.uid)
        };
        &&& *i1 == if c0.uid != 0 {
            *i0
        } else {
            Ids { uid: uid.wrapping_add(1), ..*i0 }
        }
        &&& c1.uid == uid
        &&& c1.same_but_session(c0)
        &&& c1.auth_pending == c0.auth_pending
        &&& c1.spnego == c0.spnego
        &&& c1.session matches Some(s)
        &&& s.user@ == "nobody"@
        &&& s.guest
        &&& s.trees@ == Seq::<u16>::empty()
    } else {
        *c1 == *c0 && *i1 == *i0
    }
}

/// Whether a command may reach its handler.
pub open spec fn admitted(server: &ServerShared, conn: &ConnState, command: u8, tid: u16, r: Result<(), Status>) -> bool {
    r == match admission_refusal(server, conn, command, tid) {
        Some(s) => Err::<(), Status>(s),
        None => Ok(()),
    }
}

/// Decides whether a command may reach its handler, and maps a client that never
/// authenticated to guest where the server allows that.
pub fn pass_admission(server: &ServerShared, conn: &mut ConnState, ids: &mut Ids, command: u8, tid: u16) -> (r: Result<(), Status>)
    requires
        server.wf(),
    ensures
        mapped(server, old(conn), final(conn), old(ids), final(ids), command),
        admitted(server, old(conn), command, tid, r),
{
    let session: bool = !(command == COM_NEGOTIATE || command == COM_SESSION_SETUP_ANDX || command == COM_ECHO
        || command == COM_PROCESS_EXIT || command == COM_NT_CANCEL);
    let tree: bool = session && command != COM_LOGOFF_ANDX && command != COM_TREE_CONNECT_ANDX;
    if session && conn.session.is_none() && !conn.auth_pending {
        if !server.allow_guest || !server.users.is_empty() {
            return Err(Status::ACCESS_DENIED);
        }
        let uid: u16 = if conn.uid != 0 {
            conn.uid
        } else {
            next_uid(ids)
        };
        conn.uid = uid;
        let trees: Vec<u16> = Vec::new();
        assert(trees@ =~= Seq::<u16>::empty());
        conn.session = Some(Session { user: "nobody".to_owned(), guest: true, trees });
    }
    if tree && !conn.trees.contains_key(&tid) {
        return Err(Status::INVALID_HANDLE);
    }
    Ok(())
}

/// A server that maps nobody to guest refuses every command that needs a session
/// from a client without one.
pub proof fn law_no_guest_no_service(server: &ServerShared, conn: &ConnState, command: u8, tid: u16)
    requires
        !server.takes_guests(),
        is_stranger(conn),
        needs_session(command),
    ensures
        admission_refusal(server, conn, command, tid) == Some(Status::ACCESS_DENIED),
{
}

/// Whoever issues it, a command on a tree that is not connected is refused.
pub proof fn law_no_tree_no_service(server: &ServerShared, conn: &ConnState, command: u8, tid: u16)
    requires
        needs_tree(command),
        !conn.trees@.contains_key(tid),
    ensures
        admission_refusal(server, conn, command, tid) is Some,
{
}

// ---------------- TRANS2 requests ----------------

/// The status a TRANS2 request is refused with before its subcommand is looked at.
pub open spec fn trans2_malformed(w: Seq<u8>, len: int) -> bool {
    ||| w.len() < 30
    ||| u16_at(w, 20) + u16_at(w, 18) > len
    ||| u16_at(w, 18) == 0 && w[26] == 0
}

/// How many bytes the data section has, as far as the message holds it.
pub open spec fn data_count(w: Seq<u8>, len: int) -> int {
    let count = u16_at(w, 24) as int;
    let off = u16_at(w, 26) as int;
    if off + count <= len {
        count
    } else if off <= len {
        len - off
    } else {
        0
    }
}

/// Whether `q` is the subrequest of a TRANS2 request. The subcommand stands in
/// the setup words, or in front of the parameters where there are none.
pub open spec fn is_sub_request(q: SubReq, req: &Request) -> bool {
    let w = req.words();
    let buf = req.buf@;
    let poff = u16_at(w, 20) as int;
    let pcount = u16_at(w, 18) as int;
    let doff = u16_at(w, 26) as int;
    let dcount = data_count(w, buf.len() as int);
    &&& q.data@ == if dcount > 0 && doff >= HDR_LEN {
        buf.subrange(doff, doff + dcount)
    } else {
        Seq::empty()
    }
    &&& q.data_base == doff
    &&& q.unicode == crate::dirops::in_unicode(req)
    &&& if w[26] >= 1 {
        &&& q.subcmd == w[28]
        &&& q.params@ == buf.subrange(poff, poff + pcount)
        &&& q.param_base == poff
    } else {
        &&& q.subcmd == buf[poff]
        &&& q.params@ == buf.subrange(
            poff + if pcount >= 2 {
                2int
            } else {
                1
            },
            poff + pcount,
        )
        &&& q.param_base == poff + 2
    }
}

/// Whether the subrequest of a TRANS2 request is read, or refused.
pub open spec fn sub_read(req: &Request, r: Result<SubReq, Status>) -> bool {
    if trans2_malformed(req.words(), req.buf@.len() as int) {
        r is Err && r->Err_0 == Status::INVALID_PARAMETER
    } else {
        r is Ok && is_sub_request(r->Ok_0, req) && r->Ok_0.param_base <= 0x10001
    }
}

/// Reads the subrequest of a TRANS2 request.
pub fn sub_request<'a>(req: &Request<'a>) -> (r: Result<SubReq<'a>, Status>)
    requires
        req.wc_off < req.buf@.len(),
    ensures
        sub_read(req, r),
{
    let w = req.word_bytes();
    if w.len() < 30 {
        return Err(Status::INVALID_PARAMETER);
    }
    let n: usize = req.buf.len();
    let pcount: usize = get_u16(w, 18) as usize;
    let poff: usize = get_u16(w, 20) as usize;
    let count: usize = get_u16(w, 24) as usize;
    let doff: usize = get_u16(w, 26) as usize;
    if poff > n || n - poff < pcount {
        return Err(Status::INVALID_PARAMETER);
    }
    if pcount == 0 && w[26] == 0 {
        return Err(Status::INVALID_PARAMETER);
    }
    let dcount: usize = if doff <= n && count <= n - doff {
        count
    } else if doff <= n {
        n - doff
    } else {
        0
    };
    let data = if dcount > 0 && doff >= HDR_LEN {
        slice_subrange(req.buf, doff, doff + dcount)
    } else {
        slice_subrange(req.buf, 0, 0)
    };
    assert(data@ =~= if dcount > 0 && doff >= HDR_LEN {
        req.buf@.subrange(doff as int, doff + dcount)
    } else {
        Seq::empty()
    });
    let unicode: bool = req.unicode();
    if w[26] >= 1 {
        let params = slice_subrange(req.buf, poff, poff + pcount);
        Ok(SubReq { subcmd: w[28], params, data, param_base: poff, data_base: doff, unicode })
    } else {
        let skip: usize = if pcount >= 2 {
            2
        } else {
            1
        };
        let params = slice_subrange(req.buf, poff + skip, poff + pcount);
        Ok(SubReq { subcmd: req.buf[poff], params, data, param_base: poff + 2, data_base: doff, unicode })
    }
}

// ---------------- routing ----------------

/// What is done about one command: it is answered or refused at once, or the
/// file system is asked first.
pub enum Step {
    Reply(Status, Vec<RespBody>),
    Refuse(Status),
    /// Open what is named, relative to this directory.
    Create(NtCreate, String),
    Read(ReadPlan),
    Write(WritePlan),
    /// Close the handle that was taken out; answer with these bodies.
    Close(ClosePlan, Vec<RespBody>),
    /// Close all these handles; answer with these bodies.
    CloseAll(HashMap<u16, FileHandle>, Vec<RespBody>),
    Flush(FlushPlan, Vec<RespBody>),
    Seek(u16, SeekFrom),
    CreateDirectory(PathPlan),
    DeleteDirectory(PathPlan),
    CheckDirectory(PathPlan),
    Delete(DeletePlan),
    Rename(RenamePlan),
    QueryInformation(PathPlan),
    SetInformation(SetTimePlan),
    FindFirst(FindPlan),
    FindNext(NextPlan),
    QueryPath(PathQuery),
    QueryFile(FileQuery),
    SetInfo(SetPlan),
}

/// Whether a command's words are of a length that its handler can read.
pub open spec fn words_fit(command: u8, n: int) -> bool {
    if command == COM_NT_CREATE_ANDX {
        n < 24 || n >= 43
    } else if command == COM_READ_ANDX {
        n < 12 || n >= 16
    } else if command == COM_CLOSE {
        n < 3 || n >= 6
    } else if command == COM_TREE_CONNECT_ANDX {
        n < 6 || n >= 8
    } else {
        true
    }
}

/// Whether a request can be dispatched: its offsets can be computed with, and
/// its words are of a length that its handler can read.
pub open spec fn dispatchable(req: &Request) -> bool {
    addressable(req) && req.wct <= 255 && words_fit(req.hdr.command, req.words().len() as int)
}

/// Whether a request can be dispatched.
pub fn can_dispatch(req: &Request) -> (r: bool)
    ensures
        r == dispatchable(req),
{
    let n: usize = req.buf.len();
    if req.wc_off >= n || req.wct > 255 || n >= usize::MAX - 2 || req.bc_off >= usize::MAX - 2 - n {
        return false;
    }
    let len: usize = req.word_bytes().len();
    let c: u8 = req.hdr.command;
    if c == COM_NT_CREATE_ANDX {
        len < 24 || len >= 43
    } else if c == COM_READ_ANDX {
        len < 12 || len >= 16
    } else if c == COM_CLOSE {
        len < 3 || len >= 6
    } else if c == COM_TREE_CONNECT_ANDX {
        len < 6 || len >= 8
    } else {
        true
    }
}

/// Whether nothing of connection and counters changed.
pub open spec fn unchanged(c0: &ConnState, c1: &ConnState, i0: &Ids, i1: &Ids) -> bool {
    *c1 == *c0 && *i1 == *i0
}

/// Commands that are known and not supported.
pub open spec fn is_unsupported(c: u8) -> bool {
    c == COM_TRANSACTION || c == COM_OPEN_ANDX || c == COM_SEARCH || c == COM_READ || c == COM_WRITE || c == COM_OPEN
        || c == COM_CREATE || c == COM_NT_TRANSACT
}

/// Commands about sessions, trees and the server.
pub open spec fn is_session_command(c: u8) -> bool {
    c == COM_NEGOTIATE || c == COM_SESSION_SETUP_ANDX || c == COM_TREE_CONNECT_ANDX || c == COM_TREE_DISCONNECT || c
        == COM_LOGOFF_ANDX || c == COM_ECHO || c == COM_QUERY_INFORMATION_DISK || c == COM_PROCESS_EXIT
}

/// Whether all handles were taken out of the connection.
pub open spec fn emptied(c0: &ConnState, c1: &ConnState, handles: Map<u16, FileHandle>) -> bool {
    handles == c0.handles@ && c1.handles@ == Map::<u16, FileHandle>::empty()
}

/// What is done about a command of the session group.
pub open spec fn session_step(
    server: &ServerShared,
    c0: &ConnState,
    c1: &ConnState,
    i0: &Ids,
    i1: &Ids,
    req: &Request,
    now: u64,
    opts: &Type2Options,
    step: Step,
) -> bool {
    let c = req.hdr.command;
    if c == COM_NEGOTIATE {
        &&& *c1 == (ConnState { negotiated: true, ..*c0 })
        &&& *i1 == *i0
        &&& step matches Step::Reply(st, b)
        &&& st == Status::SUCCESS
        &&& negotiated(req, server.guid@, now, b@)
    } else if c == COM_SESSION_SETUP_ANDX {
        match step {
            Step::Reply(st, b) => exists|uid: u16, guest: bool|
                #[trigger] session_set_up(server, c0, c1, i0, i1, req, now, opts, Ok((b, uid, guest, st))),
            Step::Refuse(s) => session_set_up(server, c0, c1, i0, i1, req, now, opts, Err(s)),
            _ => false,
        }
    } else if c == COM_TREE_CONNECT_ANDX {
        match step {
            Step::Reply(st, b) => st == Status::SUCCESS && tree_connected(server, c0, c1, i0, i1, req, Ok(b)),
            Step::Refuse(s) => tree_connected(server, c0, c1, i0, i1, req, Err(s)),
            _ => false,
        }
    } else if c == COM_TREE_DISCONNECT {
        &&& *i1 == *i0
        &&& step matches Step::Reply(st, b)
        &&& st == Status::SUCCESS
        &&& tree_disconnected(c0, c1, req.hdr.tid, b@)
    } else if c == COM_LOGOFF_ANDX {
        &&& *i1 == *i0
        &&& step matches Step::CloseAll(h, b)
        &&& emptied(c0, c1, h@)
        &&& c1.session is None
        &&& c1.same_but_handles(&(ConnState { session: None, ..*c0 }))
        &&& logged_off(b@)
    } else if c == COM_ECHO {
        &&& unchanged(c0, c1, i0, i1)
        &&& step matches Step::Reply(st, b)
        &&& st == Status::SUCCESS
        &&& echoed(req, b@)
    } else if c == COM_QUERY_INFORMATION_DISK {
        &&& unchanged(c0, c1, i0, i1)
        &&& match step {
            Step::Reply(st, b) => st == Status::SUCCESS && disk_queried(req, c0, Ok(b)),
            Step::Refuse(s) => disk_queried(req, c0, Err(s)),
            _ => false,
        }
    } else {
        &&& *i1 == *i0
        &&& step matches Step::CloseAll(h, b)
        &&& emptied(c0, c1, h@)
        &&& c1.same_but_handles(c0)
        &&& body_views(b@) == done(COM_PROCESS_EXIT)
    }
}

fn take_handles(conn: &mut ConnState) -> (h: HashMap<u16, FileHandle>)
    ensures
        emptied(old(conn), final(conn), h@),
        final(conn).same_but_handles(old(conn)),
{
    let mut h: HashMap<u16, FileHandle> = HashMap::new();
    std::mem::swap(&mut h, &mut conn.handles);
    h
}

fn dispatch_session(
    server: &ServerShared,
    conn: &mut ConnState,
    ids: &mut Ids,
    req: &Request,
    now: u64,
    opts: &Type2Options,
) -> (step: Step)
    requires
        server.wf(),
        dispatchable(req),
        is_session_command(req.hdr.command),
    ensures
        session_step(server, old(conn), final(conn), old(ids), final(ids), req, now, opts, step),
{
    let c: u8 = req.hdr.command;
    if c == COM_NEGOTIATE {
        conn.negotiated = true;
        Step::Reply(Status::SUCCESS, handle_negotiate(req, &server.guid, now))
    } else if c == COM_SESSION_SETUP_ANDX {
        let r = session_setup(server, conn, ids, req, now, opts);
        match r {
            Ok((b, uid, guest, st)) => {
                assert(session_set_up(
                    server,
                    old(conn),
                    conn,
                    old(ids),
                    ids,
                    req,
                    now,
                    opts,
                    Ok((b, uid, guest, st)),
                ));
                Step::Reply(st, b)
            },
            Err(s) => Step::Refuse(s),
        }
    } else if c == COM_TREE_CONNECT_ANDX {
        match tree_connect(server, conn, ids, req) {
            Ok(b) => Step::Reply(Status::SUCCESS, b),
            Err(s) => Step::Refuse(s),
        }
    } else if c == COM_TREE_DISCONNECT {
        Step::Reply(Status::SUCCESS, tree_disconnect(conn, req.hdr.tid))
    } else if c == COM_LOGOFF_ANDX {
        let h = take_handles(conn);
        conn.session = None;
        Step::CloseAll(h, logoff(req))
    } else if c == COM_ECHO {
        Step::Reply(Status::SUCCESS, echo(req))
    } else if c == COM_QUERY_INFORMATION_DISK {
        match query_disk(req, conn) {
            Ok(b) => Step::Reply(Status::SUCCESS, b),
            Err(s) => Step::Refuse(s),
        }
    } else {
        let h = take_handles(conn);
        Step::CloseAll(h, one_body(empty_body(COM_PROCESS_EXIT)))
    }
}

/// Commands on open files.
pub open spec fn is_file_command(c: u8) -> bool {
    c == COM_NT_CREATE_ANDX || c == COM_READ_ANDX || c == COM_WRITE_ANDX || c == COM_CLOSE || c == COM_FLUSH || c
        == COM_SEEK || c == COM_LOCKING_ANDX || c == COM_LOCK_BYTE_RANGE || c == COM_UNLOCK_BYTE_RANGE
}

/// What is done about a command of the file group.
pub open spec fn file_step(server: &ServerShared, c0: &ConnState, c1: &ConnState, req: &Request, step: Step) -> bool {
    let c = req.hdr.command;
    if c == COM_CLOSE {
        step matches Step::Close(plan, b) && closed(c0, c1, req, (b, plan))
    } else {
        &&& *c1 == *c0
        &&& if c == COM_NT_CREATE_ANDX {
            match step {
                Step::Create(n, base) => create_parsed(req, Ok(n)) && base_found(
                    server,
                    c0,
                    req.hdr.tid,
                    n.root_fid,
                    Ok(base),
                ),
                Step::Refuse(s) => create_parsed(req, Err(s)) || exists|n: NtCreate| #[trigger]
                    create_parsed(req, Ok(n)) && base_found(server, c0, req.hdr.tid, n.root_fid, Err(s)),
                _ => false,
            }
        } else if c == COM_READ_ANDX {
            match step {
                Step::Read(plan) => read_planned(c0, req, Ok(plan)),
                Step::Refuse(s) => read_planned(c0, req, Err(s)),
                _ => false,
            }
        } else if c == COM_WRITE_ANDX {
            match step {
                Step::Write(plan) => write_planned(c0, req, Ok(plan)),
                Step::Refuse(s) => write_planned(c0, req, Err(s)),
                _ => false,
            }
        } else if c == COM_FLUSH {
            step matches Step::Flush(plan, b) && flush_planned(c0, req, (b, plan))
        } else if c == COM_SEEK {
            match step {
                Step::Seek(fid, from) => seek_planned(c0, req, Ok((fid, from))),
                Step::Refuse(s) => seek_planned(c0, req, Err(s)),
                _ => false,
            }
        } else if c == COM_LOCKING_ANDX {
            step matches Step::Reply(st, b) && st == Status::SUCCESS && lock_accepted(b@)
        } else {
            step matches Step::Reply(st, b) && st == Status::SUCCESS && body_views(b@) == done(c)
        }
    }
}

fn dispatch_file(server: &ServerShared, conn: &mut ConnState, req: &Request) -> (step: Step)
    requires
        server.wf(),
        dispatchable(req),
        is_file_command(req.hdr.command),
    ensures
        file_step(server, old(conn), final(conn), req, step),
{
    let c: u8 = req.hdr.command;
    if c == COM_CLOSE {
        let (b, plan) = close(conn, req);
        Step::Close(plan, b)
    } else if c == COM_NT_CREATE_ANDX {
        match parse_nt_create(req) {
            Ok(n) => match create_base_path(server, conn, req.hdr.tid, n.root_fid) {
                Ok(base) => Step::Create(n, base),
                Err(s) => {
                    assert(create_parsed(req, Ok(n)));
                    Step::Refuse(s)
                },
            },
            Err(s) => Step::Refuse(s),
        }
    } else if c == COM_READ_ANDX {
        match read_andx(conn, req) {
            Ok(plan) => Step::Read(plan),
            Err(s) => Step::Refuse(s),
        }
    } else if c == COM_WRITE_ANDX {
        match write_andx(conn, req) {
            Ok(plan) => Step::Write(plan),
            Err(s) => Step::Refuse(s),
        }
    } else if c == COM_FLUSH {
        let (b, plan) = flush(conn, req);
        Step::Flush(plan, b)
    } else if c == COM_SEEK {
        match seek(conn, req) {
            Ok((fid, from)) => Step::Seek(fid, from),
            Err(s) => Step::Refuse(s),
        }
    } else if c == COM_LOCKING_ANDX {
        Step::Reply(Status::SUCCESS, locking_andx())
    } else {
        Step::Reply(Status::SUCCESS, one_body(empty_body(c)))
    }
}

/// Commands on paths.
pub open spec fn is_path_command(c: u8) -> bool {
    c == COM_CREATE_DIRECTORY || c == COM_DELETE_DIRECTORY || c == COM_CHECK_DIRECTORY || c == COM_DELETE || c
        == COM_RENAME || c == COM_NT_RENAME || c == COM_QUERY_INFORMATION || c == COM_SET_INFORMATION
}

/// What is done about a command of the path group.
pub open spec fn path_step(server: &ServerShared, conn: &ConnState, req: &Request, step: Step) -> bool {
    let c = req.hdr.command;
    if c == COM_CREATE_DIRECTORY {
        match step {
            Step::CreateDirectory(p) => directory_planned(server, conn, req, Ok(p)),
            Step::Refuse(s) => directory_planned(server, conn, req, Err(s)),
            _ => false,
        }
    } else if c == COM_DELETE_DIRECTORY {
        match step {
            Step::DeleteDirectory(p) => is_path_plan(Ok(p), server, conn, req),
            Step::Refuse(s) => is_path_plan(Err(s), server, conn, req),
            _ => false,
        }
    } else if c == COM_CHECK_DIRECTORY {
        match step {
            Step::CheckDirectory(p) => is_path_plan(Ok(p), server, conn, req),
            Step::Refuse(s) => is_path_plan(Err(s), server, conn, req),
            _ => false,
        }
    } else if c == COM_DELETE {
        match step {
            Step::Delete(p) => delete_planned(server, conn, req, Ok(p)),
            Step::Refuse(s) => delete_planned(server, conn, req, Err(s)),
            _ => false,
        }
    } else if c == COM_RENAME {
        match step {
            Step::Rename(p) => is_rename_plan(Ok(p), server, conn, req),
            Step::Refuse(s) => is_rename_plan(Err(s), server, conn, req),
            _ => false,
        }
    } else if c == COM_NT_RENAME {
        match step {
            Step::Rename(p) => nt_rename_planned(server, conn, req, Ok(p)),
            Step::Refuse(s) => nt_rename_planned(server, conn, req, Err(s)),
            _ => false,
        }
    } else if c == COM_QUERY_INFORMATION {
        match step {
            Step::QueryInformation(p) => is_path_plan(Ok(p), server, conn, req),
            Step::Refuse(s) => is_path_plan(Err(s), server, conn, req),
            _ => false,
        }
    } else {
        match step {
            Step::SetInformation(p) => set_time_planned(server, conn, req, Ok(p)),
            Step::Refuse(s) => set_time_planned(server, conn, req, Err(s)),
            _ => false,
        }
    }
}

fn dispatch_path(server: &ServerShared, conn: &ConnState, req: &Request) -> (step: Step)
    requires
        server.wf(),
        dispatchable(req),
        is_path_command(req.hdr.command),
    ensures
        path_step(server, conn, req, step),
{
    let c: u8 = req.hdr.command;
    if c == COM_CREATE_DIRECTORY {
        match create_directory(server, conn, req) {
            Ok(p) => Step::CreateDirectory(p),
            Err(s) => Step::Refuse(s),
        }
    } else if c == COM_DELETE_DIRECTORY {
        match delete_directory(server, conn, req) {
            Ok(p) => Step::DeleteDirectory(p),
            Err(s) => Step::Refuse(s),
        }
    } else if c == COM_CHECK_DIRECTORY {
        match check_directory(server, conn, req) {
            Ok(p) => Step::CheckDirectory(p),
            Err(s) => Step::Refuse(s),
        }
    } else if c == COM_DELETE {
        match delete(server, conn, req) {
            Ok(p) => Step::Delete(p),
            Err(s) => Step::Refuse(s),
        }
    } else if c == COM_RENAME {
        match rename(server, conn, req) {
            Ok(p) => Step::Rename(p),
            Err(s) => Step::Refuse(s),
        }
    } else if c == COM_NT_RENAME {
        match nt_rename(server, conn, req) {
            Ok(p) => Step::Rename(p),
            Err(s) => Step::Refuse(s),
        }
    } else if c == COM_QUERY_INFORMATION {
        match query_information(server, conn, req) {
            Ok(p) => Step::QueryInformation(p),
            Err(s) => Step::Refuse(s),
        }
    } else {
        match set_information(server, conn, req) {
            Ok(p) => Step::SetInformation(p),
            Err(s) => Step::Refuse(s),
        }
    }
}

/// What is done about the subrequest `q` of a TRANS2 request.
pub open spec fn trans2_step(
    server: &ServerShared,
    c0: &ConnState,
    c1: &ConnState,
    tid: u16,
    q: SubReq,
    now: u64,
    step: Step,
) -> bool {
    let sub = q.subcmd as u16;
    if sub == TRANS2_FIND_NEXT2 {
        match step {
            Step::FindNext(p) => find_continued(c0, c1, q, Ok(p)),
            Step::Refuse(s) => find_continued(c0, c1, q, Err(s)),
            _ => false,
        }
    } else if sub == TRANS2_SET_FILE_INFO {
        match step {
            Step::SetInfo(p) => file_set(server, c0, c1, tid, q, Ok(p)),
            Step::Refuse(s) => file_set(server, c0, c1, tid, q, Err(s)),
            _ => false,
        }
    } else if sub == TRANS2_SET_PATH_INFO {
        match step {
            Step::SetInfo(p) => path_set(server, c0, c1, tid, q, Ok(p)),
            Step::Refuse(s) => path_set(server, c0, c1, tid, q, Err(s)),
            _ => false,
        }
    } else {
        &&& *c1 == *c0
        &&& if sub == TRANS2_FIND_FIRST2 {
            match step {
                Step::FindFirst(p) => find_planned(server, c0, tid, q, Ok(p)),
                Step::Refuse(s) => find_planned(server, c0, tid, q, Err(s)),
                _ => false,
            }
        } else if sub == TRANS2_QUERY_FS_INFO {
            match step {
                Step::Reply(st, b) => st == Status::SUCCESS && b@.len() == 1 && fs_queried(
                    server,
                    c0,
                    tid,
                    q,
                    now,
                    Ok(b@[0]),
                ),
                Step::Refuse(s) => fs_queried(server, c0, tid, q, now, Err(s)),
                _ => false,
            }
        } else if sub == TRANS2_QUERY_PATH_INFO {
            match step {
                Step::QueryPath(p) => path_queried(server, c0, tid, q, Ok(p)),
                Step::Refuse(s) => path_queried(server, c0, tid, q, Err(s)),
                _ => false,
            }
        } else if sub == TRANS2_QUERY_FILE_INFO {
            match step {
                Step::QueryFile(p) => file_queried(c0, q, Ok(p)),
                Step::Refuse(s) => file_queried(c0, q, Err(s)),
                _ => false,
            }
        } else {
            step == Step::Refuse(Status::INVALID_PARAMETER)
        }
    }
}

fn dispatch_sub(server: &ServerShared, conn: &mut ConnState, tid: u16, q: &SubReq, now: u64) -> (step: Step)
    requires
        server.wf(),
        q.param_base <= 0x10001,
    ensures
        trans2_step(server, old(conn), final(conn), tid, *q, now, step),
{
    let sub: u16 = q.subcmd as u16;
    if sub == TRANS2_FIND_FIRST2 {
        match find_first2(server, conn, tid, q) {
            Ok(p) => Step::FindFirst(p),
            Err(s) => Step::Refuse(s),
        }
    } else if sub == TRANS2_FIND_NEXT2 {
        match find_next2(conn, q) {
            Ok(p) => Step::FindNext(p),
            Err(s) => Step::Refuse(s),
        }
    } else if sub == TRANS2_QUERY_FS_INFO {
        match query_fs_info(server, conn, tid, q, now) {
            Ok(b) => Step::Reply(Status::SUCCESS, one_body(b)),
            Err(s) => Step::Refuse(s),
        }
    } else if sub == TRANS2_QUERY_PATH_INFO {
        match query_path_info(server, conn, tid, q) {
            Ok(p) => Step::QueryPath(p),
            Err(s) => Step::Refuse(s),
        }
    } else if sub == TRANS2_QUERY_FILE_INFO {
        match query_file_info(conn, q) {
            Ok(p) => Step::QueryFile(p),
            Err(s) => Step::Refuse(s),
        }
    } else if sub == TRANS2_SET_FILE_INFO {
        match set_file_info(server, conn, tid, q) {
            Ok(p) => Step::SetInfo(p),
            Err(s) => Step::Refuse(s),
        }
    } else if sub == TRANS2_SET_PATH_INFO {
        match set_path_info(server, conn, tid, q) {
            Ok(p) => Step::SetInfo(p),
            Err(s) => Step::Refuse(s),
        }
    } else {
        Step::Refuse(Status::INVALID_PARAMETER)
    }
}

/// What is done about a TRANS2 request.
pub open spec fn trans2_handled(server: &ServerShared, c0: &ConnState, c1: &ConnState, req: &Request, now: u64, step: Step) -> bool {
    if trans2_malformed(req.words(), req.buf@.len() as int) {
        *c1 == *c0 && step == Step::Refuse(Status::INVALID_PARAMETER)
    } else {
        exists|q: SubReq| #[trigger]
            is_sub_request(q, req) && trans2_step(server, c0, c1, req.hdr.tid, q, now, step)
    }
}

/// Decides what is done about a TRANS2 request.
pub fn handle_trans2(server: &ServerShared, conn: &mut ConnState, req: &Request, now: u64) -> (step: Step)
    requires
        server.wf(),
        req.wc_off < req.buf@.len(),
    ensures
        trans2_handled(server, old(conn), final(conn), req, now, step),
{
    match sub_request(req) {
        Ok(q) => {
            let step = dispatch_sub(server, conn, req.hdr.tid, &q, now);
            assert(is_sub_request(q, req));
            step
        },
        Err(s) => Step::Refuse(s),
    }
}

/// What is done about a command that may reach its handler.
pub open spec fn routed(
    server: &ServerShared,
    c0: &ConnState,
    c1: &ConnState,
    i0: &Ids,
    i1: &Ids,
    req: &Request,
    now: u64,
    opts: &Type2Options,
    step: Step,
) -> bool {
    let c = req.hdr.command;
    if is_session_command(c) {
        session_step(server, c0, c1, i0, i1, req, now, opts, step)
    } else {
        &&& *i1 == *i0
        &&& if is_file_command(c) {
            file_step(server, c0, c1, req, step)
        } else if is_path_command(c) {
            *c1 == *c0 && path_step(server, c0, req, step)
        } else if c == COM_TRANSACTION2 {
            trans2_handled(server, c0, c1, req, now, step)
        } else {
            *c1 == *c0 && step == Step::Refuse(
                if is_unsupported(c) {
                    Status::NOT_IMPLEMENTED
                } else {
                    Status::INVALID_DEVICE_REQUEST
                },
            )
        }
    }
}

/// What is done about a command: it is refused before any handler sees it, or handled with the
/// connection as admission left it.
pub open spec fn dispatched(
    server: &ServerShared,
    c0: &ConnState,
    c1: &ConnState,
    i0: &Ids,
    i1: &Ids,
    req: &Request,
    now: u64,
    opts: &Type2Options,
    step: Step,
) -> bool {
    match admission_refusal(server, c0, req.hdr.command, req.hdr.tid) {
        Some(s) => step == Step::Refuse(s) && mapped(server, c0, c1, i0, i1, req.hdr.command),
        None => exists|c: ConnState, i: Ids| #[trigger]
            mapped(server, c0, &c, i0, &i, req.hdr.command) && routed(server, &c, c1, &i, i1, req, now, opts, step),
    }
}

/// Decides what is done about one command.
pub fn dispatch_one(
    server: &ServerShared,
    conn: &mut ConnState,
    ids: &mut Ids,
    req: &Request,
    now: u64,
    opts: &Type2Options,
) -> (step: Step)
    requires
        server.wf(),
        dispatchable(req),
    ensures
        dispatched(server, old(conn), final(conn), old(ids), final(ids), req, now, opts, step),
{
    let c: u8 = req.hdr.command;
    match pass_admission(server, conn, ids, c, req.hdr.tid) {
        Ok(_) => {},
        Err(s) => {
            return Step::Refuse(s);
        },
    }
    let ghost cm = *conn;
    let ghost im = *ids;
    let step = route(server, conn, ids, req, now, opts);
    assert(mapped(server, old(conn), &cm, old(ids), &im, c) && routed(
        server,
        &cm,
        conn,
        &im,
        ids,
        req,
        now,
        opts,
        step,
    ));
    step
}

fn route(
    server: &ServerShared,
    conn: &mut ConnState,
    ids: &mut Ids,
    req: &Request,
    now: u64,
    opts: &Type2Options,
) -> (step: Step)
    requires
        server.wf(),
        dispatchable(req),
    ensures
        routed(server, old(conn), final(conn), old(ids), final(ids), req, now, opts, step),
{
    let c: u8 = req.hdr.command;
    if c == COM_NEGOTIATE || c == COM_SESSION_SETUP_ANDX || c == COM_TREE_CONNECT_ANDX || c == COM_TREE_DISCONNECT || c
        == COM_LOGOFF_ANDX || c == COM_ECHO || c == COM_QUERY_INFORMATION_DISK || c == COM_PROCESS_EXIT {
        dispatch_session(server, conn, ids, req, now, opts)
    } else if c == COM_NT_CREATE_ANDX || c == COM_READ_ANDX || c == COM_WRITE_ANDX || c == COM_CLOSE || c == COM_FLUSH
        || c == COM_SEEK || c == COM_LOCKING_ANDX || c == COM_LOCK_BYTE_RANGE || c == COM_UNLOCK_BYTE_RANGE {
        dispatch_file(server, conn, req)
    } else if c == COM_CREATE_DIRECTORY || c == COM_DELETE_DIRECTORY || c == COM_CHECK_DIRECTORY || c == COM_DELETE || c
        == COM_RENAME || c == COM_NT_RENAME || c == COM_QUERY_INFORMATION || c == COM_SET_INFORMATION {
        dispatch_path(server, conn, req)
    } else if c == COM_TRANSACTION2 {
        handle_trans2(server, conn, req, now)
    } else if c == COM_TRANSACTION || c == COM_OPEN_ANDX || c == COM_SEARCH || c == COM_READ || c == COM_WRITE || c
        == COM_OPEN || c == COM_CREATE || c == COM_NT_TRANSACT {
        Step::Refuse(Status::NOT_IMPLEMENTED)
    } else {
        Step::Refuse(Status::INVALID_DEVICE_REQUEST)
    }
}

// ---------------- the answer to a message ----------------

/// Whether every body can be sent.
pub open spec fn all_ok(bodies: Seq<RespBody>) -> bool {
    forall|i: int| 0 <= i < bodies.len() ==> body_ok(#[trigger] bodies[i]@)
}

/// Whether every body can be sent.
pub fn sendable(bodies: &Vec<RespBody>) -> (r: bool)
    ensures
        r == all_ok(bodies@),
{
    let mut i: usize = 0;
    while i < bodies.len()
        invariant
            i <= bodies@.len(),
            forall|k: int| 0 <= k < i ==> body_ok(#[trigger] bodies@[k]@),
        decreases bodies@.len() - i,
    {
        if bodies[i].trailer_byte.is_none() && bodies[i].params.len() % 2 != 0 {
            assert(!body_ok(bodies@[i as int]@));
            return false;
        }
        i += 1;
    }
    true
}

/// How far the commands of a message are answered.
pub struct Answer {
    /// Header that the answer is made for.
    pub hdr: SmbHeader,
    pub status: Status,
    pub bodies: Vec<RespBody>,
    /// A command was refused; those behind it are not carried out.
    pub refused: bool,
}

/// Whether the answer of a command is added to what is answered so far.
pub open spec fn answer_grown(a0: Answer, a1: Answer, status: Status, bodies: Seq<RespBody>) -> bool {
    &&& a1.hdr == a0.hdr
    &&& a1.status == status
    &&& a1.bodies@ == a0.bodies@ + bodies
    &&& !a1.refused
}

/// Whether all that is answered is the refusal of one command.
pub open spec fn answer_refused(a: Answer, hdr: SmbHeader, status: Status) -> bool {
    &&& a.hdr == hdr
    &&& a.status == status
    &&& a.bodies@ == Seq::<RespBody>::empty()
    &&& a.refused
}

/// The message that answers.
pub open spec fn message_of(a: Answer) -> Seq<u8> {
    response_bytes(a.hdr, a.status, body_views(a.bodies@))
}

impl Answer {
    /// The answer to a message before any of its commands.
    pub fn new(hdr: SmbHeader) -> (a: Self)
        ensures
            a.hdr == hdr,
            a.status == Status::SUCCESS,
            a.bodies@ == Seq::<RespBody>::empty(),
            !a.refused,
    {
        Answer { hdr, status: Status::SUCCESS, bodies: Vec::new(), refused: false }
    }

    /// Adds the answer of a command that was carried out.
    pub fn carried_out(&mut self, status: Status, bodies: Vec<RespBody>)
        requires
            !old(self).refused,
        ensures
            answer_grown(*old(self), *final(self), status, bodies@),
    {
        let mut bodies = bodies;
        self.status = status;
        self.bodies.append(&mut bodies);
    }

    /// Replaces everything by the bare refusal of the command with this header.
    pub fn refuse(&mut self, hdr: SmbHeader, status: Status)
        ensures
            answer_refused(*final(self), hdr, status),
    {
        self.hdr = hdr;
        self.status = status;
        self.bodies = Vec::new();
        self.refused = true;
    }

    /// The message that answers.
    pub fn message(self) -> (out: Vec<u8>)
        requires
            all_ok(self.bodies@),
        ensures
            out@ == message_of(self),
    {
        build_response(&self.hdr, self.status, self.bodies)
    }
}

/// The answer to a cancellation; none to any other command.
pub fn cancel_answer(hdr: &SmbHeader) -> (r: Option<Vec<u8>>)
    ensures
        match r {
            Some(out) => hdr.command == COM_NT_CANCEL && out@ == response_bytes(
                *hdr,
                Status::CANCELLED,
                Seq::empty(),
            ),
            None => hdr.command != COM_NT_CANCEL,
        },
{
    if hdr.command == COM_NT_CANCEL {
        let none: Vec<RespBody> = Vec::new();
        assert(body_views(none@) =~= Seq::<BodyView>::empty());
        Some(build_response(hdr, Status::CANCELLED, none))
    } else {
        None
    }
}

// ---------------- laws ----------------

proof fn lemma_chain_linked(buf: Seq<u8>, command: u8, off: int, n: int, i: int)
    ensures
        ({
            let c = chain(buf, command, off, n);
            &&& n > 0 ==> c.len() > 0 && c[0] == (command, off)
            &&& 0 <= i < c.len() - 1 ==> link(buf, c[i].0, c[i].1) == Some(c[i + 1])
            &&& 0 <= i < c.len() ==> c[i].1 == off || HDR_LEN < c[i].1 < buf.len()
        }),
    decreases n,
{
    if n > 0 {
        match link(buf, command, off) {
            Some((k, o)) => {
                lemma_chain_linked(buf, k, o, n - 1, i - 1);
                lemma_chain_linked(buf, k, o, n - 1, 0);
                let rest = chain(buf, k, o, n - 1);
                let c = chain(buf, command, off, n);
                assert(c =~= seq![(command, off)] + rest);
                assert(forall|j: int| 0 <= j < rest.len() ==> c[j + 1] == rest[j]);
            },
            None => {},
        }
    }
}

/// The commands of a message are taken in the order of their links: the first is the one in
/// the header and stands behind it; each next one is named in the first byte of the words
/// before it, and stands where their bytes 2 and 3 say.
#[verifier::rlimit(40)]
#[verifier::spinoff_prover]
pub proof fn law_commands_follow_their_links(buf: Seq<u8>, r: Option<Vec<Request>>, i: int)
    requires
        commands_of(buf, r),
        has_header(buf),
    ensures
        ({
            &&& r matches Some(v)
            &&& v@.len() > 0
            &&& v@[0].hdr.command == buf[4] && v@[0].wc_off == 32
            &&& 0 <= i < v@.len() ==> v@[i].buf@ == buf && v@[i].hdr.tid == little(buf, 24, 2) && v@[i].hdr.uid
                == little(buf, 28, 2)
            &&& 0 <= i < v@.len() - 1 ==> {
                let off = v@[i].wc_off as int;
                &&& v@[i + 1].hdr.command == buf[off + 1]
                &&& buf[off + 1] != 0xFF
                &&& v@[i + 1].wc_off == little(buf, off + 3, 2)
            }
        }),
{
    let c = chain(buf, buf[4], 32, buf.len() as int);
    let v = r->0@;
    lemma_chain_linked(buf, buf[4], 32, buf.len() as int, i);
    lemma_little(buf, 24);
    lemma_little(buf, 28);
    assert(is_command(v[0], buf, c[0]));
    if 0 <= i < v.len() {
        assert(is_command(v[i], buf, c[i]));
        if i + 1 < v.len() {
            assert(is_command(v[i + 1], buf, c[i + 1]));
            let off = c[i].1;
            let w = words_at(buf, off);
            assert(w[0] == buf[off + 1]);
            assert(w[2] == buf[off + 3] && w[3] == buf[off + 4]);
            lemma_little(buf, off + 3);
        }
    }
}

/// A client with a session is let through to every tree that it has connected; a stranger
/// only where guests are taken, and then as a guest. What needs no session is open to all.
pub proof fn law_admission_is_owed(
    server: &ServerShared,
    c0: &ConnState,
    c1: &ConnState,
    i0: &Ids,
    i1: &Ids,
    command: u8,
    tid: u16,
    r: Result<(), Status>,
)
    requires
        admitted(server, c0, command, tid, r),
        mapped(server, c0, c1, i0, i1, command),
    ensures
        c0.session is Some && c0.trees@.dom().contains(tid) ==> r is Ok && *c1 == *c0,
        c0.session is Some && (command == 0x75 || command == 0x74) ==> r is Ok,
        command == 0x72 || command == 0x73 || command == 0x26 ==> r is Ok && *c1 == *c0,
        command == 0x2E || command == 0x2F || command == 0xA2 || command == 0x06 || command == 0x32 ==> (r is Ok
            ==> c0.trees@.dom().contains(tid)),
        r is Ok && c0.session is None && !c0.auth_pending && (command == 0x2E || command == 0x2F || command == 0xA2
            || command == 0x75) ==> server.takes_guests() && (c1.session matches Some(s) && s.guest),
        c0.session is Some ==> c1.session == c0.session,
        c1.trees@ == c0.trees@ && c1.handles@ == c0.handles@,
{
}

/// A subcommand is the one in the setup words, with the parameters and the data at the
/// places in the message that its words give, counted from the start.
pub proof fn law_subrequest_is_the_one_sent(req: &Request, r: Result<SubReq, Status>)
    requires
        sub_read(req, r),
        req.words().len() >= 30,
        req.words()[26] >= 1,
    ensures
        ({
            let w = req.words();
            let poff = little(w, 20, 2);
            let pcount = little(w, 18, 2);
            let doff = little(w, 26, 2);
            let dcount = little(w, 24, 2);
            &&& r is Ok <==> poff + pcount <= req.buf@.len()
            &&& r matches Ok(q) ==> {
                &&& q.subcmd == w[28]
                &&& q.params@ == req.buf@.subrange(poff, poff + pcount)
                &&& q.param_base == poff
                &&& 0 < dcount && 32 <= doff && doff + dcount <= req.buf@.len() ==> q.data@ == req.buf@.subrange(
                    doff,
                    doff + dcount,
                )
                &&& dcount == 0 ==> q.data@.len() == 0
                &&& q.unicode == (req.hdr.flags2 & FLAGS2_UNICODE != 0)
            }
        }),
{
    let w = req.words();
    lemma_little(w, 18);
    lemma_little(w, 20);
    lemma_little(w, 24);
    lemma_little(w, 26);
}

/// Each command reaches the handler that its number stands for: reads read, writes write,
/// and so on; a command on files that is not refused always asks something of the file
/// system. Unknown commands change nothing.
#[verifier::rlimit(40)]
#[verifier::spinoff_prover]
pub proof fn law_commands_reach_their_handlers(
    server: &ServerShared,
    c0: &ConnState,
    c1: &ConnState,
    i0: &Ids,
    i1: &Ids,
    req: &Request,
    now: u64,
    opts: &Type2Options,
    step: Step,
)
    requires
        routed(server, c0, c1, i0, i1, req, now, opts, step),
    ensures
        ({
            let c = req.hdr.command;
            &&& c == 0xA2 ==> (step is Create || step is Refuse) && *c1 == *c0
            &&& c == 0x2E ==> (step matches Step::Read(p) ==> read_planned(c0, req, Ok(p))) && (step is Read || step is Refuse)
            &&& c == 0x2F ==> (step matches Step::Write(p) ==> write_planned(c0, req, Ok(p))) && (step is Write
                || step is Refuse)
            &&& c == 0x04 ==> step is Close
            &&& c == 0x05 ==> step is Flush
            &&& c == 0x12 ==> step is Seek || step is Refuse
            &&& c == 0x00 ==> step is CreateDirectory || step is Refuse
            &&& c == 0x01 ==> step is DeleteDirectory || step is Refuse
            &&& c == 0x10 ==> step is CheckDirectory || step is Refuse
            &&& c == 0x06 ==> step is Delete || step is Refuse
            &&& c == 0x07 || c == 0xA5 ==> step is Rename || step is Refuse
            &&& c == 0x08 ==> step is QueryInformation || step is Refuse
            &&& c == 0x09 ==> step is SetInformation || step is Refuse
            &&& c == 0x74 ==> (step matches Step::CloseAll(h, _) && h@ == c0.handles@) && c1.session is None
            &&& c == 0x72 ==> step is Reply && c1.negotiated
            &&& c == 0x26 ==> step is Reply && *c1 == *c0
            &&& c == 0x25 || c == 0xA0 || c == 0x0A || c == 0x0B ==> step == Step::Refuse(Status::NOT_IMPLEMENTED) && *c1
                == *c0
            &&& c == 0xFF || c == 0x60 ==> step == Step::Refuse(Status::INVALID_DEVICE_REQUEST) && *c1 == *c0
        }),
{
}

/// Each subcommand reaches the handler that its number stands for.
pub proof fn law_subcommands_reach_their_handlers(
    server: &ServerShared,
    c0: &ConnState,
    c1: &ConnState,
    tid: u16,
    q: SubReq,
    now: u64,
    step: Step,
)
    requires
        trans2_step(server, c0, c1, tid, q, now, step),
    ensures
        q.subcmd == 1 ==> step is FindFirst || step is Refuse,
        q.subcmd == 2 ==> step is FindNext || step is Refuse,
        q.subcmd == 3 ==> step is Reply || step is Refuse,
        q.subcmd == 5 ==> step is QueryPath || step is Refuse,
        q.subcmd == 6 || q.subcmd == 8 ==> step is SetInfo || step is Refuse,
        q.subcmd == 7 ==> step is QueryFile || step is Refuse,
        q.subcmd == 0 || q.subcmd == 4 || q.subcmd > 8 ==> step == Step::Refuse(Status::INVALID_PARAMETER),
        q.subcmd == 6 ==> (step matches Step::SetInfo(p) ==> p.name is Some),
        q.subcmd == 8 ==> (step matches Step::SetInfo(p) ==> p.name is None),
        step is Refuse ==> c1.handles@ == c0.handles@ && c1.searches@ == c0.searches@,
{
}

/// A command is carried out only where it was admitted; a refused one is answered with the
/// refusal.
pub proof fn law_refused_commands_do_nothing(
    server: &ServerShared,
    c0: &ConnState,
    c1: &ConnState,
    i0: &Ids,
    i1: &Ids,
    req: &Request,
    now: u64,
    opts: &Type2Options,
    step: Step,
)
    requires
        dispatched(server, c0, c1, i0, i1, req, now, opts, step),
    ensures
        (req.hdr.command == 0x2E || req.hdr.command == 0x2F || req.hdr.command == 0x04) && !c0.trees@.dom().contains(
            req.hdr.tid,
        ) ==> step is Refuse && c1.handles@ == c0.handles@,
        c0.session is None && !c0.auth_pending && !server.takes_guests() && req.hdr.command != 0x72 && req.hdr.command
            != 0x73 && req.hdr.command != 0x26 && req.hdr.command != 0x11 && req.hdr.command != 0xA4 ==> step == Step::Refuse(
            Status::ACCESS_DENIED,
        ) && c1.handles@ == c0.handles@,
        c0.session is Some && c0.trees@.dom().contains(req.hdr.tid) && req.hdr.command == 0x2F ==> (step is Write <==> (
        exists|p: WritePlan| #[trigger] write_planned(c0, req, Ok(p)))),
{
    if c0.session is Some && c0.trees@.contains_key(req.hdr.tid) && req.hdr.command == 0x2F {
        let (c, i) = choose|c: ConnState, i: Ids| #[trigger]
            mapped(server, c0, &c, i0, &i, req.hdr.command) && routed(server, &c, c1, &i, i1, req, now, opts, step);
        assert(c == *c0);
        match step {
            Step::Write(p) => {
                assert(write_planned(c0, req, Ok(p)));
            },
            _ => {},
        }
    }
}

/// Answers are sent in the order in which the commands were carried out, with the status of
/// the last; a refusal is all that is sent.
pub proof fn law_answers_keep_their_order(
    a0: Answer,
    a1: Answer,
    a2: Answer,
    s1: Status,
    b1: Seq<RespBody>,
    s2: Status,
    b2: Seq<RespBody>,
    gone: Answer,
    hdr: SmbHeader,
    s3: Status,
)
    requires
        answer_grown(a0, a1, s1, b1),
        answer_grown(a1, a2, s2, b2),
        answer_refused(gone, hdr, s3),
    ensures
        a2.bodies@ == a0.bodies@ + b1 + b2,
        a2.status == s2,
        a2.hdr == a0.hdr,
        gone.bodies@.len() == 0 && gone.refused && gone.status == s3,
        message_of(gone) == response_bytes(hdr, s3, Seq::empty()),
{
    assert(a2.bodies@ =~= a0.bodies@ + b1 + b2);
    assert(body_views(gone.bodies@) =~= Seq::empty());
}

} // verus!
