//! Open files of the older dialect on a storage backend: what each command asks of the
//! backend, and the answer once the backend has spoken.
use vstd::prelude::*;
use std::collections::HashMap;
use crate::backend1::{acknowledged, below, finish_path, join_rel};
use crate::bytes::{le16, le32, lemma_little_written, little, zeros};
use crate::files::{create_words, finish_read, finish_seek, finish_write, law_opened_fields, lemma_option_bits, make_create_words, read_words, utime_filetime, utime_to_filetime, words_only, write_words};
use crate::handlers::one_body;
use crate::message::{body_views, lemma_only_body, plain_body, RespBody};
use crate::query2::without_trailing;
use crate::smb::{Status, COM_CLOSE, COM_FLUSH, COM_NT_CREATE_ANDX, COM_READ_ANDX, COM_SEEK, COM_WRITE_ANDX, OPT_DELETE_ON_CLOSE, OPT_DIRECTORY_FILE, OPT_NON_DIRECTORY_FILE};
use crate::state::{next_fid, next_not_all_ones, Ids};
use crate::text::same_text;
use crate::vfs::{vfs_err, vfs_status, FileMeta, OpenFile, VfsError};
use crate::wildcard::lemma_leading_are_slashes;

verus! {

broadcast use vstd::std_specs::hash::group_hash_axioms;

// ---------------- opening ----------------

/// An open that is asked for.
#[derive(Debug)]
pub struct CreateReq {
    /// The open that the name is relative to; 0 for the root of the share.
    pub root_fid: u32,
    pub name: String,
    pub access: u32,
    pub disposition: u32,
    pub options: u32,
    pub attrs: u32,
}

/// What an open asks of the backend.
#[derive(Debug)]
pub struct OpenStep {
    pub rel: String,
    pub want_dir: bool,
}

/// Whether a tree is the pipe share.
pub open spec fn is_pipe_tree(trees: Map<u16, String>, tid: u16) -> bool {
    trees.contains_key(tid) && trees[tid]@ == "ipc$"@
}

/// The path that the name of an open is relative to.
pub open spec fn create_root(handles: Map<u16, OpenFile>, root_fid: u32) -> Result<Seq<char>, Status> {
    if root_fid == 0 || root_fid > 0xFFFF {
        Ok(Seq::empty())
    } else if handles.contains_key(root_fid as u16) {
        Ok(handles[root_fid as u16].path@)
    } else {
        Err(Status::INVALID_HANDLE)
    }
}

/// Whether an open goes on as it should.
pub open spec fn create_planned(
    trees: Map<u16, String>,
    handles: Map<u16, OpenFile>,
    tid: u16,
    req: Option<CreateReq>,
    r: Result<OpenStep, Status>,
) -> bool {
    if is_pipe_tree(trees, tid) {
        r matches Err(s) && s == Status::OBJECT_NAME_NOT_FOUND
    } else {
        match req {
            None => r matches Err(s) && s == Status::INVALID_PARAMETER,
            Some(q) => match create_root(handles, q.root_fid) {
                Err(e) => r matches Err(s) && s == e,
                Ok(b) => r matches Ok(o) && o.rel@ == below(b, q.name@) && o.want_dir == (q.options & OPT_DIRECTORY_FILE
                    != 0),
            },
        }
    }
}

/// Plans an open; `req` is none where the request cannot be read.
pub fn nt_create(
    trees: &HashMap<u16, String>,
    handles: &HashMap<u16, OpenFile>,
    tid: u16,
    req: &Option<CreateReq>,
) -> (r: Result<OpenStep, Status>)
    ensures
        create_planned(trees@, handles@, tid, *req, r),
{
    if let Some(n) = trees.get(&tid) {
        if same_text(n.as_str(), "ipc$") {
            return Err(Status::OBJECT_NAME_NOT_FOUND);
        }
    }
    match req {
        None => Err(Status::INVALID_PARAMETER),
        Some(q) => {
            let want_dir = q.options & OPT_DIRECTORY_FILE != 0;
            if q.root_fid == 0 || q.root_fid > 0xFFFF {
                proof {
                    reveal_strlit("");
                    assert(""@ =~= Seq::<char>::empty());
                }
                return Ok(OpenStep { rel: join_rel("", q.name.as_str()), want_dir });
            }
            match handles.get(&(q.root_fid as u16)) {
                None => Err(Status::INVALID_HANDLE),
                Some(h) => Ok(OpenStep { rel: join_rel(h.path.as_str(), q.name.as_str()), want_dir }),
            }
        },
    }
}

/// An open as it is recorded: the wish to delete on close is noted.
pub open spec fn recorded(open: OpenFile, options: u32) -> OpenFile {
    OpenFile { delete_on_close: open.delete_on_close || options & OPT_DELETE_ON_CLOSE != 0, ..open }
}

/// Whether what the backend opened is taken: a directory is not where a file is asked for.
pub open spec fn open_accepted(open: OpenFile, options: u32, r: Result<OpenFile, Status>) -> bool {
    if options & OPT_NON_DIRECTORY_FILE != 0 && open.is_dir {
        r matches Err(s) && s == Status::FILE_IS_A_DIRECTORY
    } else {
        r matches Ok(o) && o == recorded(open, options)
    }
}

/// Takes what the backend opened: a directory is refused where a file is asked for, and
/// the wish to delete on close is noted.
pub fn accept_open(open: OpenFile, options: u32) -> (r: Result<OpenFile, Status>)
    ensures
        open_accepted(open, options, r),
{
    if options & OPT_NON_DIRECTORY_FILE != 0 && open.is_dir {
        return Err(Status::FILE_IS_A_DIRECTORY);
    }
    let mut open = open;
    if options & OPT_DELETE_ON_CLOSE != 0 {
        open.delete_on_close = true;
    }
    Ok(open)
}

/// The words that answer an open.
pub open spec fn opened_words(fid: u16, action: u32, m: FileMeta) -> Seq<u8> {
    create_words(
        fid,
        action,
        m.times@,
        m.attrs,
        m.alloc,
        m.eof,
        if m.is_dir {
            1
        } else {
            0
        },
    )
}

/// How an open ends: it is recorded under a fresh id, which the answer tells, or refused.
pub open spec fn create_finished(
    h0: Map<u16, OpenFile>,
    h1: Map<u16, OpenFile>,
    i0: Ids,
    i1: Ids,
    options: u32,
    opened: Result<(OpenFile, FileMeta, u32), VfsError>,
    r: Result<Vec<RespBody>, Status>,
) -> bool {
    match opened {
        Err(e) => (r matches Err(s) && s == vfs_status(e)) && h1 == h0 && i1 == i0,
        Ok((open, meta, action)) => if options & OPT_NON_DIRECTORY_FILE != 0 && open.is_dir {
            (r matches Err(s) && s == Status::FILE_IS_A_DIRECTORY) && h1 == h0 && i1 == i0
        } else {
            let fid = next_not_all_ones(i0.fid);
            &&& i1 == (Ids { fid: fid.wrapping_add(1), ..i0 })
            &&& h1 == h0.insert(fid, recorded(open, options))
            &&& r matches Ok(b) && body_views(b@) == seq![
                plain_body(COM_NT_CREATE_ANDX, opened_words(fid, action, meta), Seq::empty()),
            ]
        },
    }
}

/// Answers an open once the backend has carried it out: records it under a fresh id. The
/// last part of `opened` says what was done.
pub fn finish_create(
    handles: &mut HashMap<u16, OpenFile>,
    ids: &mut Ids,
    options: u32,
    opened: Result<(OpenFile, FileMeta, u32), VfsError>,
) -> (r: Result<Vec<RespBody>, Status>)
    ensures
        create_finished(old(handles)@, final(handles)@, *old(ids), *final(ids), options, opened, r),
{
    match opened {
        Err(e) => Err(vfs_err(&e)),
        Ok((open, meta, action)) => match accept_open(open, options) {
            Err(s) => Err(s),
            Ok(o) => {
                let fid: u16 = next_fid(ids);
                handles.insert(fid, o);
                let dir: u8 = if meta.is_dir {
                    1
                } else {
                    0
                };
                let p = make_create_words(fid, action, &meta.times, meta.attrs, meta.alloc, meta.eof, dir);
                Ok(one_body(words_only(COM_NT_CREATE_ANDX, p)))
            },
        },
    }
}

// ---------------- reading and writing ----------------

/// A read that is asked for.
#[derive(Clone, Copy, PartialEq, Eq, Structural, Debug)]
pub struct ReadReq {
    pub fid: u16,
    pub offset: u64,
    pub max_count: usize,
}

/// A write that is asked for.
#[derive(Debug)]
pub struct WriteReq {
    pub fid: u16,
    pub offset: u64,
    pub payload: Vec<u8>,
    pub write_through: bool,
}

/// Why an open cannot be read.
pub open spec fn unreadable(handles: Map<u16, OpenFile>, fid: u16) -> Option<Status> {
    if !handles.contains_key(fid) {
        Some(Status::INVALID_HANDLE)
    } else if handles[fid].is_dir || !handles[fid].can_read {
        Some(Status::ACCESS_DENIED)
    } else {
        None
    }
}

/// Why an open cannot be written.
pub open spec fn unwritable(handles: Map<u16, OpenFile>, fid: u16) -> Option<Status> {
    if !handles.contains_key(fid) {
        Some(Status::INVALID_HANDLE)
    } else if handles[fid].is_dir || !handles[fid].can_write {
        Some(Status::ACCESS_DENIED)
    } else {
        None
    }
}

/// How a read goes on.
pub open spec fn read_planned(req: Option<ReadReq>, handles: Map<u16, OpenFile>, r: Result<ReadReq, Status>) -> bool {
    r == match req {
        None => Err::<ReadReq, Status>(Status::INVALID_PARAMETER),
        Some(q) => match unreadable(handles, q.fid) {
            Some(e) => Err(e),
            None => Ok(q),
        },
    }
}

/// Plans a read; `req` is none where the request cannot be read.
pub fn read_andx(req: Option<ReadReq>, handles: &HashMap<u16, OpenFile>) -> (r: Result<ReadReq, Status>)
    ensures
        read_planned(req, handles@, r),
{
    match req {
        None => Err(Status::INVALID_PARAMETER),
        Some(q) => match handles.get(&q.fid) {
            None => Err(Status::INVALID_HANDLE),
            Some(h) => if h.is_dir || !h.can_read {
                Err(Status::ACCESS_DENIED)
            } else {
                Ok(q)
            },
        },
    }
}

/// How a read is answered.
pub open spec fn read_finished(got: Result<Vec<u8>, VfsError>, r: Result<Vec<RespBody>, Status>) -> bool {
    match got {
        Err(e) => r matches Err(s) && s == vfs_status(e),
        Ok(d) => r matches Ok(b) && body_views(b@) == seq![
            plain_body(COM_READ_ANDX, read_words(d@.len() as int), seq![0u8] + d@),
        ],
    }
}

/// Answers a read with the bytes that the backend gave.
pub fn finish_read_andx(got: Result<Vec<u8>, VfsError>) -> (r: Result<Vec<RespBody>, Status>)
    ensures
        read_finished(got, r),
{
    match got {
        Err(e) => Err(vfs_err(&e)),
        Ok(d) => Ok(finish_read(d.as_slice())),
    }
}

/// How a write goes on.
pub open spec fn write_planned(
    req: Result<WriteReq, Status>,
    handles: Map<u16, OpenFile>,
    r: Result<WriteReq, Status>,
) -> bool {
    match req {
        Err(e) => r matches Err(s) && s == e,
        Ok(q) => match unwritable(handles, q.fid) {
            Some(e) => r matches Err(s) && s == e,
            None => r matches Ok(p) && p == q,
        },
    }
}

/// Plans a write; `req` is the refusal where the request cannot be read.
pub fn write_andx(req: Result<WriteReq, Status>, handles: &HashMap<u16, OpenFile>) -> (r: Result<WriteReq, Status>)
    ensures
        write_planned(req, handles@, r),
{
    match req {
        Err(e) => Err(e),
        Ok(q) => match handles.get(&q.fid) {
            None => Err(Status::INVALID_HANDLE),
            Some(h) => if h.is_dir || !h.can_write {
                Err(Status::ACCESS_DENIED)
            } else {
                Ok(q)
            },
        },
    }
}

/// How a write is answered.
pub open spec fn write_finished(written: Result<u64, VfsError>, r: Result<Vec<RespBody>, Status>) -> bool {
    match written {
        Err(e) => r matches Err(s) && s == vfs_status(e),
        Ok(n) => r matches Ok(b) && body_views(b@) == seq![
            plain_body(COM_WRITE_ANDX, write_words(n as int), Seq::empty()),
        ],
    }
}

/// Answers a write with the number of bytes that the backend wrote.
pub fn finish_write_andx(written: Result<u64, VfsError>) -> (r: Result<Vec<RespBody>, Status>)
    ensures
        write_finished(written, r),
{
    match written {
        Err(e) => Err(vfs_err(&e)),
        Ok(n) => Ok(finish_write((n % 65536) as usize)),
    }
}

// ---------------- closing, flushing and seeking ----------------

/// A close that is asked for, with the write time to set in seconds since 1970.
#[derive(Clone, Copy, PartialEq, Eq, Structural, Debug)]
pub struct CloseReq {
    pub fid: u16,
    pub mtime: u32,
}

/// What a close asks of the backend: the write time to set first, whose failure goes
/// unreported, and the open to close.
#[derive(Debug)]
pub struct CloseStep {
    pub open: OpenFile,
    pub write_time: Option<u64>,
}

/// How a close goes on: the open leaves the table.
pub open spec fn close_planned(
    req: Option<CloseReq>,
    h0: Map<u16, OpenFile>,
    h1: Map<u16, OpenFile>,
    r: Result<CloseStep, Status>,
) -> bool {
    match req {
        None => (r matches Err(s) && s == Status::INVALID_PARAMETER) && h1 == h0,
        Some(q) => if h0.contains_key(q.fid) {
            (r matches Ok(c) && c.open == h0[q.fid] && c.write_time == utime_to_filetime(q.mtime)) && h1 == h0.remove(q.fid)
        } else {
            (r matches Err(s) && s == Status::INVALID_HANDLE) && h1 == h0
        },
    }
}

/// Takes an open out of the table to be closed; `req` is none where the request cannot be
/// read.
pub fn close(req: Option<CloseReq>, handles: &mut HashMap<u16, OpenFile>) -> (r: Result<CloseStep, Status>)
    ensures
        close_planned(req, old(handles)@, final(handles)@, r),
{
    match req {
        None => Err(Status::INVALID_PARAMETER),
        Some(q) => {
            let taken = handles.remove(&q.fid);
            match taken {
                None => {
                    assert(handles@ =~= old(handles)@);
                    Err(Status::INVALID_HANDLE)
                },
                Some(open) => Ok(CloseStep { open, write_time: utime_filetime(q.mtime) }),
            }
        },
    }
}

/// Answers a close.
pub fn finish_close(failed: Option<VfsError>) -> (r: Result<Vec<RespBody>, Status>)
    ensures
        acknowledged(r, COM_CLOSE, failed),
{
    finish_path(COM_CLOSE, failed)
}

/// What a flush asks of the backend.
#[derive(Clone, Copy, PartialEq, Eq, Structural, Debug)]
pub enum FlushStep {
    /// Every open file.
    All,
    One(u16),
    /// The file is not open: nothing is flushed.
    Nothing,
}

/// How a flush goes on.
pub open spec fn flush_planned(fid: Option<u16>, handles: Map<u16, OpenFile>, r: Result<FlushStep, Status>) -> bool {
    r == match fid {
        None => Err::<FlushStep, Status>(Status::INVALID_PARAMETER),
        Some(f) => Ok(
            if f == 0xFFFF {
                FlushStep::All
            } else if handles.contains_key(f) {
                FlushStep::One(f)
            } else {
                FlushStep::Nothing
            },
        ),
    }
}

/// Plans a flush; `fid` is none where the request cannot be read.
pub fn flush(fid: Option<u16>, handles: &HashMap<u16, OpenFile>) -> (r: Result<FlushStep, Status>)
    ensures
        flush_planned(fid, handles@, r),
{
    match fid {
        None => Err(Status::INVALID_PARAMETER),
        Some(f) => if f == 0xFFFF {
            Ok(FlushStep::All)
        } else if handles.contains_key(&f) {
            Ok(FlushStep::One(f))
        } else {
            Ok(FlushStep::Nothing)
        },
    }
}

/// Answers a flush.
pub fn finish_flush(failed: Option<VfsError>) -> (r: Result<Vec<RespBody>, Status>)
    ensures
        acknowledged(r, COM_FLUSH, failed),
{
    finish_path(COM_FLUSH, failed)
}

/// A move of the file pointer: from the start where `mode` is 0, from where it is where it
/// is 1, from the end where it is 2.
#[derive(Clone, Copy, PartialEq, Eq, Structural, Debug)]
pub struct SeekReq {
    pub fid: u16,
    pub mode: u16,
    pub offset: i64,
}

/// How a move of the file pointer goes on.
pub open spec fn seek_planned(req: Option<SeekReq>, handles: Map<u16, OpenFile>, r: Result<SeekReq, Status>) -> bool {
    r == match req {
        None => Err::<SeekReq, Status>(Status::INVALID_PARAMETER),
        Some(q) => if handles.contains_key(q.fid) {
            Ok(q)
        } else {
            Err(Status::INVALID_HANDLE)
        },
    }
}

/// Plans a move of the file pointer; `req` is none where the request cannot be read.
pub fn seek(req: Option<SeekReq>, handles: &HashMap<u16, OpenFile>) -> (r: Result<SeekReq, Status>)
    ensures
        seek_planned(req, handles@, r),
{
    match req {
        None => Err(Status::INVALID_PARAMETER),
        Some(q) => if handles.contains_key(&q.fid) {
            Ok(q)
        } else {
            Err(Status::INVALID_HANDLE)
        },
    }
}

/// How a move of the file pointer is answered.
pub open spec fn seek_finished(pos: Result<u64, VfsError>, r: Result<Vec<RespBody>, Status>) -> bool {
    match pos {
        Err(e) => r matches Err(s) && s == vfs_status(e),
        Ok(p) => r matches Ok(b) && body_views(b@) == seq![
            plain_body(COM_SEEK, le32((p % 0x1_0000_0000) as u32), Seq::empty()),
        ],
    }
}

/// Answers a move of the file pointer with where it stands now.
pub fn finish_seek_at(pos: Result<u64, VfsError>) -> (r: Result<Vec<RespBody>, Status>)
    ensures
        seek_finished(pos, r),
{
    match pos {
        Err(e) => Err(vfs_err(&e)),
        Ok(p) => Ok(finish_seek(p)),
    }
}

/// An open is found by the id it was answered with until it is closed, and closing it
/// leaves the other opens as they were.
pub proof fn law_close_undoes_create(handles: Map<u16, OpenFile>, fid: u16, open: OpenFile, options: u32)
    requires
        !handles.contains_key(fid),
    ensures
        ({
            let with = handles.insert(fid, recorded(open, options));
            &&& with.contains_key(fid)
            &&& with.remove(fid) == handles
            &&& open.can_read && !open.is_dir ==> unreadable(with, fid) is None
            &&& unreadable(with.remove(fid), fid) == Some(Status::INVALID_HANDLE)
            &&& unwritable(with.remove(fid), fid) == Some(Status::INVALID_HANDLE)
        }),
{
    assert(handles.insert(fid, recorded(open, options)).remove(fid) =~= handles);
}

/// An open asks for a directory exactly where the lowest bit of its options is set. Its
/// path is the name it gives, below the path of the open that it is relative to; slashes
/// in between are not doubled.
pub proof fn law_open_asks_for_what_the_client_names(
    trees: Map<u16, String>,
    handles: Map<u16, OpenFile>,
    tid: u16,
    req: CreateReq,
    r: Result<OpenStep, Status>,
)
    requires
        create_planned(trees, handles, tid, Some(req), r),
        !is_pipe_tree(trees, tid),
        req.name@.len() > 0 ==> req.name@[0] != '\\' && req.name@[0] != '/',
    ensures
        ({
            let at = req.root_fid as u16;
            let base = handles[at].path@;
            &&& r matches Ok(o) ==> o.want_dir == (req.options % 2 == 1)
            &&& req.root_fid == 0 ==> (r matches Ok(o) && o.rel@ == req.name@)
            &&& 0 < req.root_fid < 0x1_0000 && handles.dom().contains(at) && base.len() > 0 && base.last() != '\\'
                && base.last() != '/' ==> (r matches Ok(o) && o.rel@ == base.push('\\') + req.name@)
            &&& 0 < req.root_fid < 0x1_0000 && !handles.dom().contains(at) ==> r == Err::<OpenStep, Status>(
                Status::INVALID_HANDLE,
            )
        }),
{
    lemma_option_bits(req.options);
    lemma_leading_are_slashes(req.name@);
    assert(req.name@.subrange(0, req.name@.len() as int) =~= req.name@);
    let base = handles[req.root_fid as u16].path@;
    reveal_strlit("\\");
    if base.len() > 0 && base.last() != '\\' && base.last() != '/' {
        assert(without_trailing(base) == base);
        assert(base + "\\"@ =~= base.push('\\'));
    }
}

/// Nothing is opened on the pipe share, and a request that cannot be read opens nothing.
pub proof fn law_pipes_are_not_opened_as_files(
    trees: Map<u16, String>,
    handles: Map<u16, OpenFile>,
    tid: u16,
    req: Option<CreateReq>,
    r: Result<OpenStep, Status>,
)
    requires
        create_planned(trees, handles, tid, req, r),
    ensures
        trees.dom().contains(tid) && trees[tid]@ == "ipc$"@ || req is None ==> r is Err,
{
}

/// What the backend opened is found under the id that the answer tells, which is no id
/// that means all files, as it was opened; with the wish to delete on close where the
/// options hold it. Every other open stays. A directory is refused where the options ask
/// for a file, and a refused open leaves nothing behind.
#[verifier::rlimit(40)]
#[verifier::spinoff_prover]
pub proof fn law_opened_file_is_found(
    h0: Map<u16, OpenFile>,
    h1: Map<u16, OpenFile>,
    i0: Ids,
    i1: Ids,
    options: u32,
    opened: Result<(OpenFile, FileMeta, u32), VfsError>,
    r: Result<Vec<RespBody>, Status>,
    other: u16,
)
    requires
        create_finished(h0, h1, i0, i1, options, opened, r),
    ensures
        r is Err ==> h1 == h0 && i1 == i0,
        opened is Err ==> r is Err,
        opened matches Ok((open, meta, action)) ==> (r is Ok <==> !(open.is_dir && (options / 64) % 2 == 1)),
        opened matches Ok((open, meta, action)) ==> (r matches Ok(b) ==> {
            let w = b@[0]@.params;
            let fid = little(w, 5, 2) as u16;
            &&& fid != 0xFFFF
            &&& h1.dom().contains(fid)
            &&& h1[fid].path@ == open.path@ && h1[fid].inner == open.inner && h1[fid].is_dir == open.is_dir
            &&& h1[fid].can_read == open.can_read && h1[fid].can_write == open.can_write
            &&& h1[fid].delete_on_close == (open.delete_on_close || (options / 4096) % 2 == 1)
            &&& other != fid ==> h1.dom().contains(other) == h0.dom().contains(other) && h1[other] == h0[other]
            &&& little(w, 7, 4) == action
            &&& little(w, 55, 8) == meta.eof
            &&& w[67] == if meta.is_dir {
                1u8
            } else {
                0u8
            }
        }),
{
    lemma_option_bits(options);
    match opened {
        Ok((open, meta, action)) => {
            if r is Ok {
                let fid = next_not_all_ones(i0.fid);
                let b = r->Ok_0;
                lemma_only_body(b@, plain_body(COM_NT_CREATE_ANDX, opened_words(fid, action, meta), Seq::empty()));
                law_opened_fields(
                    fid,
                    action,
                    meta.times@,
                    meta.attrs,
                    meta.alloc,
                    meta.eof,
                    if meta.is_dir {
                        1
                    } else {
                        0
                    },
                );
            }
        },
        Err(_) => {},
    }
}

/// A read is carried out as it was asked for, exactly where its file is open for reading
/// and is no directory.
pub proof fn law_read_goes_to_the_open_file(req: ReadReq, handles: Map<u16, OpenFile>, r: Result<ReadReq, Status>)
    requires
        read_planned(Some(req), handles, r),
    ensures
        r is Ok <==> handles.dom().contains(req.fid) && handles[req.fid].can_read && !handles[req.fid].is_dir,
        r matches Ok(p) ==> p.fid == req.fid && p.offset == req.offset && p.max_count == req.max_count,
        !handles.dom().contains(req.fid) ==> r == Err::<ReadReq, Status>(Status::INVALID_HANDLE),
{
}

/// A write is carried out as it was asked for, exactly where its file is open for writing
/// and is no directory.
pub proof fn law_write_goes_to_the_open_file(req: WriteReq, handles: Map<u16, OpenFile>, r: Result<WriteReq, Status>)
    requires
        write_planned(Ok(req), handles, r),
    ensures
        r is Ok <==> handles.dom().contains(req.fid) && handles[req.fid].can_write && !handles[req.fid].is_dir,
        r matches Ok(p) ==> p.fid == req.fid && p.offset == req.offset && p.payload@ == req.payload@ && p.write_through
            == req.write_through,
        !handles.dom().contains(req.fid) ==> (r matches Err(s) && s == Status::INVALID_HANDLE),
{
}

/// The client gets the bytes that were read, behind one byte of padding, and their count;
/// of a write it gets the count.
#[verifier::rlimit(40)]
#[verifier::spinoff_prover]
pub proof fn law_io_is_answered_as_it_went(
    got: Result<Vec<u8>, VfsError>,
    a: Result<Vec<RespBody>, Status>,
    written: Result<u64, VfsError>,
    b: Result<Vec<RespBody>, Status>,
)
    requires
        read_finished(got, a),
        write_finished(written, b),
    ensures
        got is Ok <==> a is Ok,
        written is Ok <==> b is Ok,
        got matches Ok(d) ==> (a matches Ok(v) && v@[0]@.bytes.subrange(1, v@[0]@.bytes.len() as int) == d@ && (d@.len()
            < 0x1_0000 ==> little(v@[0]@.params, 10, 2) == d@.len())),
        written matches Ok(n) ==> (b matches Ok(v) && (n < 0x1_0000 ==> little(v@[0]@.params, 4, 2) == n)),
{
    match got {
        Ok(d) => {
            let v = a->Ok_0@;
            lemma_only_body(v, plain_body(COM_READ_ANDX, read_words(d@.len() as int), seq![0u8] + d@));
            assert((seq![0u8] + d@).subrange(1, 1 + d@.len() as int) =~= d@);
            let c = (d@.len() % 65536) as u16;
            let pre = seq![0xFFu8, 0u8] + le16(0) + le16(0) + le16(0) + le16(0);
            let post = le16(60) + le32(0) + le32(0) + zeros(2);
            assert(read_words(d@.len() as int) =~= pre + le16(c) + post);
            lemma_little_written(pre, c, 0, 0, post);
        },
        Err(_) => {},
    }
    match written {
        Ok(n) => {
            let v = b->Ok_0@;
            lemma_only_body(v, plain_body(COM_WRITE_ANDX, write_words(n as int), Seq::empty()));
            let c = (n % 65536) as u16;
            let pre = seq![0xFFu8, 0u8] + le16(0);
            let post = le16(65535) + le16(0) + le16(0);
            assert(write_words(n as int) =~= pre + le16(c) + post);
            lemma_little_written(pre, c, 0, 0, post);
        },
        Err(_) => {},
    }
}

/// A close takes the open that it names out of the table, leaves every other, and hands on
/// the write time, counted in steps of 100 nanoseconds since 1601, unless it is all zeros
/// or all ones.
pub proof fn law_closed_open_is_gone(
    req: CloseReq,
    h0: Map<u16, OpenFile>,
    h1: Map<u16, OpenFile>,
    r: Result<CloseStep, Status>,
    other: u16,
)
    requires
        close_planned(Some(req), h0, h1, r),
    ensures
        r is Ok <==> h0.dom().contains(req.fid),
        !h1.dom().contains(req.fid),
        other != req.fid ==> h1.dom().contains(other) == h0.dom().contains(other) && h1[other] == h0[other],
        r matches Ok(c) ==> c.open == h0[req.fid],
        r matches Ok(c) ==> c.write_time == if 0 < req.mtime < 0xFFFF_FFFF {
            Some(((req.mtime + 11_644_473_600) * 10_000_000) as u64)
        } else {
            None
        },
{
}

/// A flush reaches the file that it names where that is open, and all files where it names
/// them all; it never fails for want of an open file.
pub proof fn law_flush_reaches_the_open_file(fid: u16, handles: Map<u16, OpenFile>, r: Result<FlushStep, Status>)
    requires
        flush_planned(Some(fid), handles, r),
    ensures
        r is Ok,
        r == Ok::<FlushStep, Status>(FlushStep::All) <==> fid == 0xFFFF,
        fid != 0xFFFF && handles.dom().contains(fid) ==> r == Ok::<FlushStep, Status>(FlushStep::One(fid)),
        r == Ok::<FlushStep, Status>(FlushStep::Nothing) <==> fid != 0xFFFF && !handles.dom().contains(fid),
{
}

/// A move of the pointer of an open file is carried out as it was asked for, and answered
/// with where the pointer stands.
pub proof fn law_seek_moves_the_pointer_asked_for(
    req: SeekReq,
    handles: Map<u16, OpenFile>,
    r: Result<SeekReq, Status>,
    pos: Result<u64, VfsError>,
    a: Result<Vec<RespBody>, Status>,
)
    requires
        seek_planned(Some(req), handles, r),
        seek_finished(pos, a),
    ensures
        r is Ok <==> handles.dom().contains(req.fid),
        r matches Ok(p) ==> p.fid == req.fid && p.mode == req.mode && p.offset == req.offset,
        pos is Ok <==> a is Ok,
        pos matches Ok(n) ==> (a matches Ok(v) && (n < 0x1_0000_0000 ==> little(v@[0]@.params, 0, 4) == n)),
{
    match pos {
        Ok(n) => {
            let v = a->Ok_0@;
            let c = (n % 0x1_0000_0000) as u32;
            lemma_only_body(v, plain_body(COM_SEEK, le32(c), Seq::empty()));
            lemma_little_written(Seq::empty(), 0, c, 0, Seq::empty());
            assert(Seq::<u8>::empty() + le32(c) + Seq::<u8>::empty() =~= le32(c));
        },
        Err(_) => {},
    }
}

} // verus!
