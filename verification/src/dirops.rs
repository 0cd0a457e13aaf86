//! Commands on directories and paths: MKDIR, RMDIR, DELETE, RENAME,
//! CHECK_DIRECTORY, QUERY_INFORMATION and SET_INFORMATION.
use vstd::prelude::*;
use vstd::utf8::{decode_utf8, valid_utf8};
use crate::bytes::{get_u16, get_u32, le16, le32, lemma_little, lemma_little_written, little, put_u16, put_u32, put_zeros, u16_at, u32_at, zeros};
use crate::files::{attrs_of, io_status, map_io_err, share_behind, share_root, stat_attrs, utime_filetime, utime_to_filetime, words_only, FileStat};
use crate::handlers::{empty_body, lemma_zstring_end, one_body};
use crate::message::{body_views, lemma_only_body, plain_body, BodyView, Request, RespBody};
use crate::smb::{even_start, law_oem_string_round_trip, lemma_string_at, read_back, string_at, zbytes, zstring_bytes, zstring_end, zstring_text, Rd, Status, COM_CHECK_DIRECTORY, COM_CREATE_DIRECTORY, COM_DELETE, COM_DELETE_DIRECTORY, COM_QUERY_INFORMATION, COM_RENAME, COM_SET_INFORMATION, FLAGS2_UNICODE};
use crate::state::{ConnState, ServerShared};
use crate::text::text_has;
use crate::trans2::{has_wildcards, low16, low32, stat_eof};
use crate::vfs::IoKind;
use crate::wildcard::{law_pattern_is_split_behind_its_last_slash, lemma_last_slash, lemma_leading_are_slashes, pattern_split, split_pattern, without_leading};

verus! {

/// Whether the offsets of a request can be computed with.
pub open spec fn addressable(req: &Request) -> bool {
    req.wc_off < req.buf@.len() && req.bc_off + 2 + req.buf@.len() < usize::MAX
}

/// Whether a request is in Unicode.
pub open spec fn in_unicode(req: &Request) -> bool {
    req.hdr.flags2 & FLAGS2_UNICODE != 0
}

/// Behind a format byte at `p`, where one stands there.
pub open spec fn behind_format(d: Seq<u8>, p: int) -> int {
    if 0 <= p < d.len() && d[p] == 0x04 {
        p + 1
    } else {
        p
    }
}

/// The path that a request names.
pub open spec fn named_path(req: &Request) -> Seq<char> {
    zstring_text(req.byte_area(), behind_format(req.byte_area(), 0), in_unicode(req), req.bc_off + 2)
}

fn read_path(req: &Request) -> (s: String)
    requires
        addressable(req),
    ensures
        s@ == named_path(req),
{
    let d = req.data();
    let mut rd = Rd::new(d, 0);
    let base: usize = req.bc_off + 2;
    if d.len() > 0 && d[0] == 0x04 {
        rd.skip(1);
    }
    rd.zstring(req.unicode(), base)
}

/// Where the second of two paths starts, the first being read up to `p`. A
/// Unicode path starts at an even offset. A format byte may stand in front of either.
pub open spec fn second_start(d: Seq<u8>, p: int, unicode: bool, base: int) -> int {
    if unicode {
        behind_format(d, even_start(d, p, base))
    } else {
        behind_format(d, p)
    }
}

/// The second of the two paths that a request names.
pub open spec fn second_path(req: &Request) -> Seq<char> {
    let d = req.byte_area();
    let base = req.bc_off + 2;
    let p = zstring_end(d, behind_format(d, 0), in_unicode(req), base);
    zstring_text(d, second_start(d, p, in_unicode(req), base), in_unicode(req), base)
}

fn read_two_paths(req: &Request) -> (r: (String, String))
    requires
        addressable(req),
    ensures
        r.0@ == named_path(req),
        r.1@ == second_path(req),
{
    let d = req.data();
    let base: usize = req.bc_off + 2;
    let unicode: bool = req.unicode();
    let start: usize = if d.len() > 0 && d[0] == 0x04 {
        1
    } else {
        0
    };
    let mut rd = Rd::new(d, start);
    let a = rd.zstring(unicode, base);
    proof {
        lemma_zstring_end(d@, start as int, unicode, base as int);
    }
    if unicode {
        if (base + rd.pos) % 2 != 0 && rd.pos < d.len() {
            rd.skip(1);
        }
    }
    if rd.pos < d.len() && d[rd.pos] == 0x04 {
        rd.skip(1);
    }
    let b = rd.zstring(unicode, base);
    (a, b)
}

/// Two paths of single bytes, each behind a format byte, are found: what is read at either
/// place is valid UTF-8 and spells the path.
pub proof fn law_two_paths_are_found(a: Seq<char>, b: Seq<char>, base: int)
    requires
        forall|i: int| 0 <= i < a.len() ==> a[i] != '\0',
        forall|i: int| 0 <= i < b.len() ==> b[i] != '\0',
    ensures
        ({
            let f = seq![0x04u8];
            let d = f + zstring_bytes(1, a, false, base) + (f + zstring_bytes(0, b, false, base));
            let p1 = behind_format(d, 0);
            let p2 = second_start(d, zstring_end(d, p1, false, base), false, base);
            &&& valid_utf8(zbytes(d, p1)) && decode_utf8(zbytes(d, p1)) == a
            &&& valid_utf8(zbytes(d, p2)) && decode_utf8(zbytes(d, p2)) == b
        }),
{
    let f = seq![0x04u8];
    let w = zstring_bytes(1, a, false, base);
    let v = zstring_bytes(0, b, false, base);
    let d = f + w + (f + v);
    law_oem_string_round_trip(f, a, base, f + v);
    let e = zstring_end(d, 1, false, base);
    assert(d[0] == 0x04);
    assert(e == 1 + w.len());
    assert(d[e] == 0x04);
    let pre = f + w + f;
    assert(pre + zstring_bytes(pre.len() as int, b, false, base) + Seq::<u8>::empty() =~= d);
    law_oem_string_round_trip(pre, b, base, Seq::empty());
}

/// A path below a share root.
pub struct PathPlan {
    pub root: String,
    pub path: String,
}

/// Whether `p` is the path that a request names, below the root of its share.
pub open spec fn is_path_of(p: PathPlan, server: &ServerShared, conn: &ConnState, req: &Request) -> bool {
    p.root@ == share_behind(server, conn, req.hdr.tid)->0.root@ && p.path@ == named_path(req)
}

/// Whether `r` is the path that a request names, or the refusal of a tree that
/// is not there.
pub open spec fn is_path_plan(r: Result<PathPlan, Status>, server: &ServerShared, conn: &ConnState, req: &Request) -> bool {
    match share_behind(server, conn, req.hdr.tid) {
        None => r is Err && r->Err_0 == Status::INVALID_HANDLE,
        Some(_) => r is Ok && is_path_of(r->Ok_0, server, conn, req),
    }
}

fn plan_path(server: &ServerShared, conn: &ConnState, req: &Request) -> (r: Result<PathPlan, Status>)
    requires
        server.wf(),
        addressable(req),
    ensures
        is_path_plan(r, server, conn, req),
{
    match share_root(server, conn, req.hdr.tid) {
        Ok(s) => Ok(PathPlan { root: s.root.clone(), path: read_path(req) }),
        Err(e) => Err(e),
    }
}

/// Whether `r` is what a CREATE_DIRECTORY asks for.
pub open spec fn directory_planned(server: &ServerShared, conn: &ConnState, req: &Request, r: Result<PathPlan, Status>) -> bool {
    match share_behind(server, conn, req.hdr.tid) {
        None => r is Err && r->Err_0 == Status::INVALID_HANDLE,
        Some(s) => if s.is_ipc {
            r is Err && r->Err_0 == Status::ACCESS_DENIED
        } else {
            r is Ok && is_path_of(r->Ok_0, server, conn, req)
        },
    }
}

/// Reads a CREATE_DIRECTORY. Nothing is created on the pipe share.
pub fn create_directory(server: &ServerShared, conn: &ConnState, req: &Request) -> (r: Result<PathPlan, Status>)
    requires
        server.wf(),
        addressable(req),
    ensures
        directory_planned(server, conn, req, r),
{
    match share_root(server, conn, req.hdr.tid) {
        Ok(s) => {
            if s.is_ipc {
                return Err(Status::ACCESS_DENIED);
            }
            Ok(PathPlan { root: s.root.clone(), path: read_path(req) })
        },
        Err(e) => Err(e),
    }
}

/// The response of a command that answers with nothing but its success.
pub open spec fn done(command: u8) -> Seq<BodyView> {
    seq![plain_body(command, Seq::empty(), Seq::empty())]
}

fn make_done(command: u8) -> (v: Vec<RespBody>)
    ensures
        body_views(v@) == done(command),
{
    one_body(empty_body(command))
}

/// Whether `r` answers `command` with success, or refuses it with `s`.
pub open spec fn answers(r: Result<Vec<RespBody>, Status>, command: u8, s: Option<Status>) -> bool {
    match s {
        None => r is Ok && body_views(r->Ok_0@) == done(command),
        Some(e) => r is Err && r->Err_0 == e,
    }
}

/// How a CREATE_DIRECTORY is answered.
pub open spec fn directory_made(failed: Option<IoKind>, r: Result<Vec<RespBody>, Status>) -> bool {
    answers(
        r,
        COM_CREATE_DIRECTORY,
        match failed {
            None => None,
            Some(IoKind::AlreadyExists) => Some(Status::OBJECT_NAME_COLLISION),
            Some(_) => Some(Status::OBJECT_PATH_NOT_FOUND),
        },
    )
}

/// Answers a CREATE_DIRECTORY once the file system has spoken.
pub fn finish_create_directory(failed: Option<IoKind>) -> (r: Result<Vec<RespBody>, Status>)
    ensures
        directory_made(failed, r),
{
    match failed {
        None => Ok(make_done(COM_CREATE_DIRECTORY)),
        Some(IoKind::AlreadyExists) => Err(Status::OBJECT_NAME_COLLISION),
        Some(_) => Err(Status::OBJECT_PATH_NOT_FOUND),
    }
}

/// Reads a DELETE_DIRECTORY.
pub fn delete_directory(server: &ServerShared, conn: &ConnState, req: &Request) -> (r: Result<PathPlan, Status>)
    requires
        server.wf(),
        addressable(req),
    ensures
        is_path_plan(r, server, conn, req),
{
    plan_path(server, conn, req)
}

/// How a DELETE_DIRECTORY is answered.
pub open spec fn directory_removed(failed: Option<IoKind>, r: Result<Vec<RespBody>, Status>) -> bool {
    answers(
        r,
        COM_DELETE_DIRECTORY,
        match failed {
            None => None,
            Some(IoKind::DirectoryNotEmpty) => Some(Status::DIRECTORY_NOT_EMPTY),
            Some(IoKind::NotFound) => Some(Status::OBJECT_PATH_NOT_FOUND),
            Some(_) => Some(Status::ACCESS_DENIED),
        },
    )
}

/// Answers a DELETE_DIRECTORY once the file system has spoken.
pub fn finish_delete_directory(failed: Option<IoKind>) -> (r: Result<Vec<RespBody>, Status>)
    ensures
        directory_removed(failed, r),
{
    match failed {
        None => Ok(make_done(COM_DELETE_DIRECTORY)),
        Some(IoKind::DirectoryNotEmpty) => Err(Status::DIRECTORY_NOT_EMPTY),
        Some(IoKind::NotFound) => Err(Status::OBJECT_PATH_NOT_FOUND),
        Some(_) => Err(Status::ACCESS_DENIED),
    }
}

/// Reads a CHECK_DIRECTORY.
pub fn check_directory(server: &ServerShared, conn: &ConnState, req: &Request) -> (r: Result<PathPlan, Status>)
    requires
        server.wf(),
        addressable(req),
    ensures
        is_path_plan(r, server, conn, req),
{
    plan_path(server, conn, req)
}

/// How a CHECK_DIRECTORY is answered.
pub open spec fn directory_checked(is_dir: bool, r: Result<Vec<RespBody>, Status>) -> bool {
    answers(
        r,
        COM_CHECK_DIRECTORY,
        if is_dir {
            None
        } else {
            Some(Status::OBJECT_PATH_NOT_FOUND)
        },
    )
}

/// Answers a CHECK_DIRECTORY.
pub fn finish_check_directory(is_dir: bool) -> (r: Result<Vec<RespBody>, Status>)
    ensures
        directory_checked(is_dir, r),
{
    if is_dir {
        Ok(make_done(COM_CHECK_DIRECTORY))
    } else {
        Err(Status::OBJECT_PATH_NOT_FOUND)
    }
}

/// What a DELETE asks of the file system.
pub struct DeletePlan {
    pub root: String,
    /// Directory part of the pattern.
    pub dir: String,
    /// Name part of the pattern.
    pub name_pat: String,
    /// The name part holds wildcards: every file that it finds is removed.
    pub wild: bool,
}

/// Whether `r` is what a DELETE asks for.
pub open spec fn delete_planned(server: &ServerShared, conn: &ConnState, req: &Request, r: Result<DeletePlan, Status>) -> bool {
    match share_behind(server, conn, req.hdr.tid) {
        None => r is Err && r->Err_0 == Status::INVALID_HANDLE,
        Some(s) => {
            &&& r matches Ok(p)
            &&& p.root@ == s.root@
            &&& (p.dir@, p.name_pat@) == pattern_split(named_path(req))
            &&& p.wild == has_wildcards(p.name_pat@)
        },
    }
}

/// Reads a DELETE.
pub fn delete(server: &ServerShared, conn: &ConnState, req: &Request) -> (r: Result<DeletePlan, Status>)
    requires
        server.wf(),
        addressable(req),
    ensures
        delete_planned(server, conn, req, r),
{
    match share_root(server, conn, req.hdr.tid) {
        Ok(s) => {
            let pattern = read_path(req);
            let (dir, name_pat) = split_pattern(pattern.as_str());
            let wild: bool = text_has(name_pat.as_str(), '*') || text_has(name_pat.as_str(), '?');
            Ok(DeletePlan { root: s.root.clone(), dir, name_pat, wild })
        },
        Err(e) => Err(e),
    }
}

/// Whether the one file that a DELETE names is removed.
pub open spec fn deletable(is_dir: Option<bool>, r: Result<(), Status>) -> bool {
    r == match is_dir {
        None => Err::<(), Status>(Status::OBJECT_NAME_NOT_FOUND),
        Some(true) => Err(Status::FILE_IS_A_DIRECTORY),
        Some(false) => Ok(()),
    }
}

/// Whether the one file that a DELETE names may be removed; `is_dir` is what the
/// file system says of it, where it is there.
pub fn may_delete(is_dir: Option<bool>) -> (r: Result<(), Status>)
    ensures
        deletable(is_dir, r),
{
    match is_dir {
        None => Err(Status::OBJECT_NAME_NOT_FOUND),
        Some(d) => if d {
            Err(Status::FILE_IS_A_DIRECTORY)
        } else {
            Ok(())
        },
    }
}

/// How a DELETE is answered.
pub open spec fn files_deleted(removed: usize, failed: Option<IoKind>, r: Result<Vec<RespBody>, Status>) -> bool {
    answers(
        r,
        COM_DELETE,
        match failed {
            Some(k) => Some(io_status(k)),
            None => if removed == 0 {
                Some(Status::NO_SUCH_FILE)
            } else {
                None
            },
        },
    )
}

/// Answers a DELETE: `removed` files are gone, and the next removal, where it
/// failed, failed as told.
pub fn finish_delete(removed: usize, failed: Option<IoKind>) -> (r: Result<Vec<RespBody>, Status>)
    ensures
        files_deleted(removed, failed, r),
{
    match failed {
        Some(k) => Err(map_io_err(k)),
        None => if removed == 0 {
            Err(Status::NO_SUCH_FILE)
        } else {
            Ok(make_done(COM_DELETE))
        },
    }
}

/// What a RENAME asks of the file system.
pub struct RenamePlan {
    pub root: String,
    pub from: String,
    pub to: String,
}

/// Whether `r` is the rename that a request asks for, or its refusal.
pub open spec fn is_rename_plan(r: Result<RenamePlan, Status>, server: &ServerShared, conn: &ConnState, req: &Request) -> bool {
    match share_behind(server, conn, req.hdr.tid) {
        None => r is Err && r->Err_0 == Status::INVALID_HANDLE,
        Some(s) => if second_path(req).len() == 0 {
            r is Err && r->Err_0 == Status::INVALID_PARAMETER
        } else {
            &&& r matches Ok(p)
            &&& p.root@ == s.root@
            &&& p.from@ == named_path(req)
            &&& p.to@ == second_path(req)
        },
    }
}

/// Reads a RENAME.
pub fn rename(server: &ServerShared, conn: &ConnState, req: &Request) -> (r: Result<RenamePlan, Status>)
    requires
        server.wf(),
        addressable(req),
    ensures
        is_rename_plan(r, server, conn, req),
{
    match share_root(server, conn, req.hdr.tid) {
        Ok(s) => {
            let (from, to) = read_two_paths(req);
            if to.as_str().is_empty() {
                return Err(Status::INVALID_PARAMETER);
            }
            Ok(RenamePlan { root: s.root.clone(), from, to })
        },
        Err(e) => Err(e),
    }
}

/// Whether `r` is what an NT_RENAME asks for.
pub open spec fn nt_rename_planned(server: &ServerShared, conn: &ConnState, req: &Request, r: Result<RenamePlan, Status>) -> bool {
    let w = req.words();
    if w.len() < 4 || (u16_at(w, 0) != 1 && u16_at(w, 0) != 2) {
        r is Err && r->Err_0 == Status::INVALID_PARAMETER
    } else {
        is_rename_plan(r, server, conn, req)
    }
}

/// Reads an NT_RENAME; only its rename levels are supported.
pub fn nt_rename(server: &ServerShared, conn: &ConnState, req: &Request) -> (r: Result<RenamePlan, Status>)
    requires
        server.wf(),
        addressable(req),
    ensures
        nt_rename_planned(server, conn, req, r),
{
    let w = req.word_bytes();
    if w.len() < 4 {
        return Err(Status::INVALID_PARAMETER);
    }
    let level: u16 = get_u16(w, 0);
    if level != 1 && level != 2 {
        return Err(Status::INVALID_PARAMETER);
    }
    rename(server, conn, req)
}

/// How a RENAME is answered.
pub open spec fn paths_renamed(src_exists: bool, failed: Option<IoKind>, r: Result<Vec<RespBody>, Status>) -> bool {
    answers(
        r,
        COM_RENAME,
        if !src_exists {
            Some(Status::OBJECT_NAME_NOT_FOUND)
        } else {
            match failed {
                Some(k) => Some(io_status(k)),
                None => None,
            }
        },
    )
}

/// Answers a RENAME: whether the source was there, and how the rename failed.
pub fn finish_rename_paths(src_exists: bool, failed: Option<IoKind>) -> (r: Result<Vec<RespBody>, Status>)
    ensures
        paths_renamed(src_exists, failed, r),
{
    if !src_exists {
        return Err(Status::OBJECT_NAME_NOT_FOUND);
    }
    match failed {
        Some(k) => Err(map_io_err(k)),
        None => Ok(make_done(COM_RENAME)),
    }
}

/// Reads a QUERY_INFORMATION.
pub fn query_information(server: &ServerShared, conn: &ConnState, req: &Request) -> (r: Result<PathPlan, Status>)
    requires
        server.wf(),
        addressable(req),
    ensures
        is_path_plan(r, server, conn, req),
{
    plan_path(server, conn, req)
}

/// Seconds of a write time in 32 bits; times before 1970 count as 1970.
pub open spec fn utime32(secs: int) -> u32 {
    low32(
        if secs < 0 {
            0
        } else {
            secs
        },
    )
}

/// The words of a QUERY_INFORMATION response.
pub open spec fn information_words(s: FileStat) -> Seq<u8> {
    le16(low16(stat_attrs(s) as int)) + le32(utime32(s.mtime.secs as int)) + le32(low32(stat_eof(s) as int)) + zeros(20)
}

/// How a QUERY_INFORMATION is answered.
pub open spec fn information_told(stat: Option<FileStat>, r: Result<Vec<RespBody>, Status>) -> bool {
    match stat {
        None => r is Err && r->Err_0 == Status::OBJECT_NAME_NOT_FOUND,
        Some(s) => r is Ok && body_views(r->Ok_0@) == seq![
            plain_body(COM_QUERY_INFORMATION, information_words(s), Seq::empty()),
        ],
    }
}

/// Answers a QUERY_INFORMATION once the file system has spoken.
pub fn finish_query_information(stat: Option<FileStat>) -> (r: Result<Vec<RespBody>, Status>)
    ensures
        information_told(stat, r),
{
    match stat {
        None => Err(Status::OBJECT_NAME_NOT_FOUND),
        Some(s) => {
            let secs: u64 = if s.mtime.secs < 0 {
                0
            } else {
                s.mtime.secs as u64
            };
            let size: u64 = if s.is_dir {
                0
            } else {
                s.len
            };
            let mut p: Vec<u8> = Vec::new();
            put_u16(&mut p, (attrs_of(&s) % 65536) as u16);
            assert(p@ =~= le16(low16(stat_attrs(s) as int)));
            put_u32(&mut p, (secs % 0x1_0000_0000) as u32);
            put_u32(&mut p, (size % 0x1_0000_0000) as u32);
            put_zeros(&mut p, 20);
            Ok(one_body(words_only(COM_QUERY_INFORMATION, p)))
        },
    }
}

/// What a SET_INFORMATION asks of the file system: the write time to set, where
/// there is one.
pub struct SetTimePlan {
    pub root: String,
    pub path: String,
    pub time: Option<u64>,
}

/// Whether `r` is what a SET_INFORMATION asks for.
pub open spec fn set_time_planned(server: &ServerShared, conn: &ConnState, req: &Request, r: Result<SetTimePlan, Status>) -> bool {
    match share_behind(server, conn, req.hdr.tid) {
        None => r is Err && r->Err_0 == Status::INVALID_HANDLE,
        Some(s) => {
            &&& r matches Ok(p)
            &&& p.root@ == s.root@
            &&& p.path@ == named_path(req)
            &&& p.time == if req.words().len() >= 6 {
                utime_to_filetime(u32_at(req.words(), 2))
            } else {
                None
            }
        },
    }
}

/// Reads a SET_INFORMATION. The answer is `finish_set_information` whether or not
/// the time can be set.
pub fn set_information(server: &ServerShared, conn: &ConnState, req: &Request) -> (r: Result<SetTimePlan, Status>)
    requires
        server.wf(),
        addressable(req),
    ensures
        set_time_planned(server, conn, req, r),
{
    let w = req.word_bytes();
    match share_root(server, conn, req.hdr.tid) {
        Ok(s) => {
            let time: Option<u64> = if w.len() >= 6 {
                utime_filetime(get_u32(w, 2))
            } else {
                None
            };
            Ok(SetTimePlan { root: s.root.clone(), path: read_path(req), time })
        },
        Err(e) => Err(e),
    }
}

/// Answers a SET_INFORMATION.
pub fn finish_set_information() -> (v: Vec<RespBody>)
    ensures
        body_views(v@) == done(COM_SET_INFORMATION),
{
    make_done(COM_SET_INFORMATION)
}

/// Whether a request names the path `t`: behind a format byte.
pub open spec fn names(req: &Request, t: Seq<char>) -> bool {
    let d = req.byte_area();
    d.len() > 0 && d[0] == 0x04 && string_at(d, 1, t, in_unicode(req), req.bc_off + 2)
}

/// Whether a request names the path `t` and then the path `u`, each behind a format byte.
pub open spec fn names_both(req: &Request, t: Seq<char>, u: Seq<char>) -> bool {
    let d = req.byte_area();
    let base = req.bc_off + 2;
    let p = 1 + zstring_bytes(1, t, in_unicode(req), base).len() as int;
    names(req, t) && p < d.len() && d[p] == 0x04 && string_at(d, p + 1, u, in_unicode(req), base)
}

proof fn lemma_names(req: &Request, t: Seq<char>)
    requires
        names(req, t),
    ensures
        named_path(req) == read_back(t, in_unicode(req)),
{
    lemma_string_at(req.byte_area(), 1, t, in_unicode(req), req.bc_off + 2);
}

proof fn lemma_names_both(req: &Request, t: Seq<char>, u: Seq<char>)
    requires
        names_both(req, t, u),
    ensures
        named_path(req) == read_back(t, in_unicode(req)),
        second_path(req) == read_back(u, in_unicode(req)),
{
    let d = req.byte_area();
    let base = req.bc_off + 2;
    let p = 1 + zstring_bytes(1, t, in_unicode(req), base).len() as int;
    lemma_string_at(d, 1, t, in_unicode(req), base);
    lemma_string_at(d, p + 1, u, in_unicode(req), base);
}

/// A command on a path acts on the path that the client names, below the root of the share
/// that its tree leads to; without such a share it is refused.
pub proof fn law_path_is_the_one_named(
    server: &ServerShared,
    conn: &ConnState,
    req: &Request,
    t: Seq<char>,
    r: Result<PathPlan, Status>,
    made: Result<PathPlan, Status>,
)
    requires
        is_path_plan(r, server, conn, req),
        directory_planned(server, conn, req, made),
        names(req, t),
    ensures
        ({
            let tid = req.hdr.tid;
            let share = conn.trees@[tid]@;
            let there = conn.trees@.dom().contains(tid) && server.shares@.dom().contains(share);
            &&& r is Ok <==> there
            &&& made is Ok <==> there && !server.shares@[share].is_ipc
            &&& r matches Ok(p) ==> p.path@ == read_back(t, in_unicode(req)) && p.root@ == server.shares@[share].root@
            &&& made matches Ok(p) ==> p.path@ == read_back(t, in_unicode(req)) && p.root@ == server.shares@[share].root@
            &&& !there ==> r->Err_0 == Status::INVALID_HANDLE
        }),
{
    lemma_names(req, t);
}

/// A delete removes what the client names: in the directory before the last slash, the
/// files that the part behind it finds; all that match where it holds a wildcard.
#[verifier::rlimit(40)]
#[verifier::spinoff_prover]
pub proof fn law_delete_removes_what_is_named(
    server: &ServerShared,
    conn: &ConnState,
    req: &Request,
    front: Seq<char>,
    name: Seq<char>,
    r: Result<DeletePlan, Status>,
)
    requires
        delete_planned(server, conn, req, r),
        in_unicode(req),
        names(req, front + name),
        forall|k: int| 0 <= k < name.len() ==> #[trigger] name[k] != '\\' && name[k] != '/',
        front.len() > 0 ==> front.last() == '\\' || front.last() == '/',
    ensures
        r is Ok <==> conn.trees@.dom().contains(req.hdr.tid) && server.shares@.dom().contains(conn.trees@[req.hdr.tid]@),
        r matches Ok(p) ==> p.name_pat@ == name && p.root@ == server.shares@[conn.trees@[req.hdr.tid]@].root@,
        r matches Ok(p) ==> (p.wild <==> exists|k: int| 0 <= k < name.len() && (#[trigger] name[k] == '*' || name[k] == '?')),
        r matches Ok(p) ==> (front.len() == 0 ==> p.dir@.len() == 0),
{
    lemma_names(req, front + name);
    law_pattern_is_split_behind_its_last_slash(front, name);
    if front.len() == 0 {
        assert(front + name =~= name);
        lemma_leading_are_slashes(name);
        assert(without_leading(name) =~= name);
        lemma_last_slash(name, name.len() as int);
    }
    if name.contains('*') {
        let k = choose|k: int| 0 <= k < name.len() && name[k] == '*';
        assert(name[k] == '*');
    }
    if name.contains('?') {
        let k = choose|k: int| 0 <= k < name.len() && name[k] == '?';
        assert(name[k] == '?');
    }
}

/// A rename leads from the first path that the client names to the second, which must not
/// be empty.
pub proof fn law_rename_leads_from_first_to_second(
    server: &ServerShared,
    conn: &ConnState,
    req: &Request,
    t: Seq<char>,
    u: Seq<char>,
    r: Result<RenamePlan, Status>,
)
    requires
        is_rename_plan(r, server, conn, req),
        in_unicode(req),
        names_both(req, t, u),
    ensures
        r is Ok <==> conn.trees@.dom().contains(req.hdr.tid) && server.shares@.dom().contains(conn.trees@[req.hdr.tid]@)
            && u.len() > 0,
        r matches Ok(p) ==> p.from@ == t && p.to@ == u && p.root@ == server.shares@[conn.trees@[req.hdr.tid]@].root@,
{
    lemma_names_both(req, t, u);
}

/// A rename by level is a rename where the level is 1 or 2, and refused else.
pub proof fn law_only_rename_levels_rename(
    server: &ServerShared,
    conn: &ConnState,
    req: &Request,
    r: Result<RenamePlan, Status>,
)
    requires
        nt_rename_planned(server, conn, req, r),
        req.words().len() >= 4,
    ensures
        little(req.words(), 0, 2) == 1 || little(req.words(), 0, 2) == 2 ==> is_rename_plan(r, server, conn, req),
        little(req.words(), 0, 2) != 1 && little(req.words(), 0, 2) != 2 ==> r is Err,
{
    lemma_little(req.words(), 0);
}

/// A write time is set on the path that the client names: the one in bytes 2 to 5, counted
/// in seconds since 1970, unless that is all zeros or all ones.
pub proof fn law_write_time_is_set_on_the_path_named(
    server: &ServerShared,
    conn: &ConnState,
    req: &Request,
    t: Seq<char>,
    r: Result<SetTimePlan, Status>,
)
    requires
        set_time_planned(server, conn, req, r),
        names(req, t),
        req.words().len() >= 6,
    ensures
        ({
            let secs = little(req.words(), 2, 4);
            &&& r is Ok <==> conn.trees@.dom().contains(req.hdr.tid) && server.shares@.dom().contains(
                conn.trees@[req.hdr.tid]@,
            )
            &&& r matches Ok(p) ==> p.path@ == read_back(t, in_unicode(req)) && p.root@
                == server.shares@[conn.trees@[req.hdr.tid]@].root@ && p.time == if 0 < secs < 0xFFFF_FFFF {
                Some(((secs + 11_644_473_600) * 10_000_000) as u64)
            } else {
                None
            }
        }),
{
    lemma_names(req, t);
    lemma_little(req.words(), 2);
}

/// Each command on a path is answered with success, and with nothing else, exactly where
/// the file system did what was asked for.
pub proof fn law_success_is_what_was_done(
    failed: Option<IoKind>,
    is_dir: bool,
    removed: usize,
    src_exists: bool,
    made: Result<Vec<RespBody>, Status>,
    gone: Result<Vec<RespBody>, Status>,
    checked: Result<Vec<RespBody>, Status>,
    deleted: Result<Vec<RespBody>, Status>,
    renamed: Result<Vec<RespBody>, Status>,
)
    requires
        directory_made(failed, made),
        directory_removed(failed, gone),
        directory_checked(is_dir, checked),
        files_deleted(removed, failed, deleted),
        paths_renamed(src_exists, failed, renamed),
    ensures
        made is Ok <==> failed is None,
        gone is Ok <==> failed is None,
        checked is Ok <==> is_dir,
        deleted is Ok <==> failed is None && removed > 0,
        renamed is Ok <==> failed is None && src_exists,
        failed == Some(IoKind::AlreadyExists) ==> made->Err_0 == Status::OBJECT_NAME_COLLISION,
        failed == Some(IoKind::DirectoryNotEmpty) ==> gone->Err_0 == Status::DIRECTORY_NOT_EMPTY,
        failed is None && removed == 0 ==> deleted->Err_0 == Status::NO_SUCH_FILE,
        !src_exists ==> renamed->Err_0 == Status::OBJECT_NAME_NOT_FOUND,
        src_exists && failed == Some(IoKind::NotFound) ==> renamed->Err_0 == Status::OBJECT_NAME_NOT_FOUND,
        src_exists && failed == Some(IoKind::PermissionDenied) ==> renamed->Err_0 == Status::ACCESS_DENIED,
{
}

/// Only a file that is there is deleted by name: directories are kept.
pub proof fn law_directories_are_not_deleted(is_dir: Option<bool>, r: Result<(), Status>)
    requires
        deletable(is_dir, r),
    ensures
        r is Ok <==> is_dir == Some(false),
        is_dir == Some(true) ==> r == Err::<(), Status>(Status::FILE_IS_A_DIRECTORY),
{
}

/// The client is told the time of the last write in seconds, the size, and whether the
/// path is a directory; of a path that is not there, nothing.
#[verifier::rlimit(40)]
#[verifier::spinoff_prover]
pub proof fn law_information_is_that_of_the_file(stat: Option<FileStat>, r: Result<Vec<RespBody>, Status>)
    requires
        information_told(stat, r),
    ensures
        stat is Some <==> r is Ok,
        stat matches Some(s) ==> {
            let w = r->Ok_0@[0]@.params;
            &&& w.len() == 30
            &&& 0 <= s.mtime.secs < 0x1_0000_0000 ==> little(w, 2, 4) == s.mtime.secs
            &&& !s.is_dir && s.len < 0x1_0000_0000 ==> little(w, 6, 4) == s.len
            &&& s.is_dir ==> little(w, 6, 4) == 0 && little(w, 0, 2) == 0x10
            &&& !s.is_dir && s.mode & 0o222 != 0 ==> little(w, 0, 2) == 0x20
            &&& !s.is_dir && s.mode & 0o222 == 0 ==> little(w, 0, 2) == 0x21
        },
{
    match stat {
        Some(s) => {
            let v = r->Ok_0@;
            lemma_only_body(v, plain_body(COM_QUERY_INFORMATION, information_words(s), Seq::empty()));
            let w = information_words(s);
            let a = low16(stat_attrs(s) as int);
            let t = utime32(s.mtime.secs as int);
            let n = low32(stat_eof(s) as int);
            assert(0x20u32 | 0x1u32 == 0x21) by (bit_vector);
            assert(w =~= Seq::<u8>::empty() + le16(a) + (le32(t) + le32(n) + zeros(20)));
            lemma_little_written(Seq::empty(), a, 0, 0, le32(t) + le32(n) + zeros(20));
            assert(w =~= le16(a) + le32(t) + (le32(n) + zeros(20)));
            lemma_little_written(le16(a), 0, t, 0, le32(n) + zeros(20));
            assert(w =~= (le16(a) + le32(t)) + le32(n) + zeros(20));
            lemma_little_written(le16(a) + le32(t), 0, n, 0, zeros(20));
        },
        None => {},
    }
}

} // verus!
