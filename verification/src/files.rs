//! NT_CREATE, READ, WRITE, CLOSE, FLUSH, SEEK and LOCKING: what each request
//! asks of the file system, and the answer once the file system has spoken.
use vstd::prelude::*;
use vstd::slice::slice_subrange;
use crate::bytes::{get_u16, get_u32, le16, le32, le64, lemma_little, lemma_little_written, little, put_bytes, put_u16, put_u32, put_u64, put_u8, put_zeros, u16_at, u32_at, zeros};
use crate::handlers::{check_tree, empty_body, one_body};
use crate::message::{body_bytes, body_start, body_views, chain_bytes, lemma_only_body, plain_body, reply_header, response_bytes, Request, RespBody, SmbHeader, HDR_LEN};
use crate::smb::{filetime_of, filetime_to_unix, unix_of, unix_to_filetime, zbytes, Status, ATTR_ARCHIVE, ATTR_DIRECTORY, ATTR_READONLY, COM_CLOSE, COM_FLUSH, COM_LOCKING_ANDX, COM_NT_CREATE_ANDX, COM_READ_ANDX, COM_SEEK, COM_WRITE_ANDX, DELETE_ACCESS, DISP_CREATE, DISP_OPEN_IF, DISP_OVERWRITE, DISP_OVERWRITE_IF, DISP_SUPERSEDE, FILE_APPEND_DATA, FILE_READ_DATA, FILE_WRITE_DATA, FLAGS2_UNICODE, GENERIC_ALL, GENERIC_READ, GENERIC_WRITE, OPT_DELETE_ON_CLOSE, OPT_DIRECTORY_FILE, OPT_NON_DIRECTORY_FILE, WIN_EPOCH_SECS};
use crate::state::{next_fid, next_not_all_ones, ConnState, FileHandle, Ids, ServerShared, Share};
use crate::text::{from_utf16_lossy, from_utf8_lossy, read_units, units_of, utf16_lossy, utf8_lossy};
use crate::vfs::IoKind;

verus! {

broadcast use vstd::std_specs::hash::group_hash_axioms;

/// A Unix time: seconds and nanoseconds.
#[derive(Clone, Copy)]
pub struct UnixTime {
    pub secs: i64,
    pub nanos: u32,
}

/// What the operating system says of a file.
#[derive(Clone, Copy)]
pub struct FileStat {
    pub is_dir: bool,
    /// Unix permission bits.
    pub mode: u32,
    pub len: u64,
    pub ino: u64,
    pub ctime: UnixTime,
    pub atime: UnixTime,
    pub mtime: UnixTime,
}

impl FileStat {
    /// Times and length that the wire formats can hold.
    pub open spec fn in_range(&self) -> bool {
        &&& self.ctime.secs + WIN_EPOCH_SECS <= i64::MAX
        &&& self.atime.secs + WIN_EPOCH_SECS <= i64::MAX
        &&& self.mtime.secs + WIN_EPOCH_SECS <= i64::MAX
        &&& self.len + 4095 <= u64::MAX
    }

    /// Whether times and length are ones that the wire formats can hold.
    pub fn is_in_range(&self) -> (r: bool)
        ensures
            r == self.in_range(),
    {
        let top: i64 = i64::MAX - WIN_EPOCH_SECS;
        self.ctime.secs <= top && self.atime.secs <= top && self.mtime.secs <= top && self.len <= u64::MAX - 4095
    }
}

/// The FILETIME of a Unix time.
pub open spec fn time_of(t: UnixTime) -> u64 {
    filetime_of(t.secs as int, t.nanos as int)
}

/// Creation, access, write and change times of a file; the change time of the
/// inode stands for its creation.
pub open spec fn stat_times(s: FileStat) -> Seq<u64> {
    seq![time_of(s.ctime), time_of(s.atime), time_of(s.mtime), time_of(s.ctime)]
}

/// The attributes of a file: a directory, or an archive file that is read-only
/// where nobody may write it.
pub open spec fn stat_attrs(s: FileStat) -> u32 {
    if s.is_dir {
        ATTR_DIRECTORY
    } else if s.mode & 0o222 == 0 {
        ATTR_ARCHIVE | ATTR_READONLY
    } else {
        ATTR_ARCHIVE
    }
}

/// The attributes of a file.
pub fn attrs_of(s: &FileStat) -> (a: u32)
    ensures
        a == stat_attrs(*s),
{
    if s.is_dir {
        ATTR_DIRECTORY
    } else if s.mode & 0o222 == 0 {
        ATTR_ARCHIVE | ATTR_READONLY
    } else {
        ATTR_ARCHIVE
    }
}

/// The four times of a file.
pub fn times_of(s: &FileStat) -> (t: [u64; 4])
    requires
        s.in_range(),
    ensures
        t@ == stat_times(*s),
{
    let c: u64 = unix_to_filetime(s.ctime.secs, s.ctime.nanos);
    let a: u64 = unix_to_filetime(s.atime.secs, s.atime.nanos);
    let m: u64 = unix_to_filetime(s.mtime.secs, s.mtime.nanos);
    let t: [u64; 4] = [c, a, m, c];
    assert(t@ =~= stat_times(*s));
    t
}

/// `n` rounded up to whole blocks of `b` bytes.
pub open spec fn rounded(n: int, b: int) -> int {
    (n + (b - 1)) / b * b
}

/// Four times on the wire.
pub open spec fn times_bytes(t: Seq<u64>) -> Seq<u8> {
    le64(t[0]) + le64(t[1]) + le64(t[2]) + le64(t[3])
}

/// Appends four times.
pub fn put_times(out: &mut Vec<u8>, t: &[u64; 4])
    ensures
        final(out)@ == old(out)@ + times_bytes(t@),
{
    put_u64(out, t[0]);
    put_u64(out, t[1]);
    put_u64(out, t[2]);
    put_u64(out, t[3]);
    assert(out@ =~= old(out)@ + times_bytes(t@));
}

/// The status of a failure of the operating system.
pub open spec fn io_status(k: IoKind) -> Status {
    match k {
        IoKind::NotFound => Status::OBJECT_NAME_NOT_FOUND,
        IoKind::PermissionDenied => Status::ACCESS_DENIED,
        IoKind::AlreadyExists => Status::OBJECT_NAME_COLLISION,
        IoKind::DirectoryNotEmpty => Status::DIRECTORY_NOT_EMPTY,
        IoKind::Other(_) => Status::UNSUCCESSFUL,
    }
}

/// Maps a failure of the operating system to a status.
pub fn map_io_err(k: IoKind) -> (s: Status)
    ensures
        s == io_status(k),
{
    match k {
        IoKind::NotFound => Status::OBJECT_NAME_NOT_FOUND,
        IoKind::PermissionDenied => Status::ACCESS_DENIED,
        IoKind::AlreadyExists => Status::OBJECT_NAME_COLLISION,
        IoKind::DirectoryNotEmpty => Status::DIRECTORY_NOT_EMPTY,
        IoKind::Other(_) => Status::UNSUCCESSFUL,
    }
}

/// The share behind a tree id.
pub open spec fn share_behind(server: &ServerShared, conn: &ConnState, tid: u16) -> Option<Share> {
    if conn.trees@.contains_key(tid) && server.shares@.contains_key(conn.trees@[tid]@) {
        Some(server.shares@[conn.trees@[tid]@])
    } else {
        None
    }
}

/// The share behind a tree id.
pub fn share_root<'a>(server: &'a ServerShared, conn: &ConnState, tid: u16) -> (r: Result<&'a Share, Status>)
    requires
        server.wf(),
    ensures
        match r {
            Ok(s) => share_behind(server, conn, tid) == Some(*s),
            Err(e) => share_behind(server, conn, tid) is None && e == Status::INVALID_HANDLE,
        },
{
    match check_tree(conn, tid) {
        Ok(name) => match server.shares.get(name.as_str()) {
            Some(s) => Ok(s),
            None => Err(Status::INVALID_HANDLE),
        },
        Err(e) => Err(e),
    }
}

// ---------------- NT_CREATE ----------------

/// The units before the first zero unit.
pub open spec fn units_before_zero(u: Seq<u16>) -> Seq<u16>
    decreases u.len(),
{
    if u.len() == 0 || u[0] == 0 {
        Seq::empty()
    } else {
        seq![u[0]] + units_before_zero(u.subrange(1, u.len() as int))
    }
}

/// The text of a name field, up to its first zero.
pub open spec fn name_text(raw: Seq<u8>, unicode: bool) -> Seq<char> {
    if unicode {
        utf16_lossy(units_before_zero(units_of(raw)))
    } else {
        utf8_lossy(zbytes(raw, 0))
    }
}

/// Decodes a name field.
pub fn decode_name(raw: &[u8], unicode: bool) -> (s: String)
    ensures
        s@ == name_text(raw@, unicode),
{
    if unicode {
        let u = read_units(raw);
        let n: usize = u.len();
        let mut i: usize = 0;
        assert(u@.subrange(0, n as int) =~= u@);
        assert(u@.take(0) + units_before_zero(u@) =~= units_before_zero(u@));
        while i < n && u[i] != 0
            invariant
                i <= n == u@.len(),
                u@.take(i as int) + units_before_zero(u@.subrange(i as int, n as int)) == units_before_zero(u@),
            decreases n - i,
        {
            proof {
                let r = u@.subrange(i as int, n as int);
                assert(r.subrange(1, r.len() as int) =~= u@.subrange(i + 1, n as int));
                assert(u@.take(i + 1) + units_before_zero(u@.subrange(i + 1, n as int)) =~= u@.take(i as int)
                    + units_before_zero(r));
            }
            i += 1;
        }
        let head = slice_subrange(u.as_slice(), 0, i);
        assert(head@ =~= units_before_zero(u@)) by {
            assert(units_before_zero(u@.subrange(i as int, n as int)) =~= Seq::<u16>::empty());
            assert(u@.take(i as int) + Seq::<u16>::empty() =~= u@.take(i as int));
        }
        from_utf16_lossy(head)
    } else {
        let n: usize = raw.len();
        let mut i: usize = 0;
        assert(raw@.take(0) + zbytes(raw@, 0) =~= zbytes(raw@, 0));
        while i < n && raw[i] != 0
            invariant
                i <= n == raw@.len(),
                raw@.take(i as int) + zbytes(raw@, i as int) == zbytes(raw@, 0),
            decreases n - i,
        {
            assert(raw@.take(i + 1) + zbytes(raw@, i + 1) =~= raw@.take(i as int) + zbytes(raw@, i as int));
            i += 1;
        }
        let head = slice_subrange(raw, 0, i);
        assert(head@ =~= zbytes(raw@, 0)) by {
            assert(raw@.take(i as int) + Seq::<u8>::empty() =~= raw@.take(i as int));
        }
        from_utf8_lossy(head)
    }
}

/// The fields of an NT_CREATE.
pub struct NtCreate {
    pub name: String,
    pub root_fid: u32,
    pub access: u32,
    pub disposition: u32,
    pub options: u32,
}

/// The name field of an NT_CREATE: at an even offset of the message, as far as
/// the byte area goes.
pub open spec fn create_name_field(d: Seq<u8>, bc_off: int, name_len: int) -> Seq<u8> {
    let start: int = if (bc_off + 2) % 2 != 0 && d.len() > 0 {
        1
    } else {
        0
    };
    let end = if start + name_len <= d.len() {
        start + name_len
    } else {
        d.len() as int
    };
    d.subrange(start, end)
}

/// Whether `c` holds the fields of the NT_CREATE with these words and bytes.
pub open spec fn is_create_of(c: NtCreate, w: Seq<u8>, d: Seq<u8>, bc_off: int, unicode: bool) -> bool {
    &&& c.name@ == name_text(create_name_field(d, bc_off, u16_at(w, 5) as int), unicode)
    &&& c.root_fid == u32_at(w, 11)
    &&& c.access == u32_at(w, 15)
    &&& c.disposition == u32_at(w, 35)
    &&& c.options == u32_at(w, 39)
}

/// Whether `r` is what an NT_CREATE asks for.
pub open spec fn create_parsed(req: &Request, r: Result<NtCreate, Status>) -> bool {
    match r {
        Ok(c) => req.words().len() >= 43 && is_create_of(
            c,
            req.words(),
            req.byte_area(),
            req.bc_off as int,
            req.hdr.flags2 & FLAGS2_UNICODE != 0,
        ),
        Err(s) => req.words().len() < 24 && s == Status::INVALID_PARAMETER,
    }
}

/// Reads an NT_CREATE.
pub fn parse_nt_create(req: &Request) -> (r: Result<NtCreate, Status>)
    requires
        req.wc_off < req.buf@.len(),
        req.words().len() < 24 || req.words().len() >= 43,
    ensures
        create_parsed(req, r),
{
    let w = req.word_bytes();
    if w.len() < 24 {
        return Err(Status::INVALID_PARAMETER);
    }
    let name_len: usize = get_u16(w, 5) as usize;
    let data = req.data();
    let start: usize = if req.bc_off % 2 != 0 && data.len() > 0 {
        1
    } else {
        0
    };
    let end: usize = if name_len <= data.len() - start {
        start + name_len
    } else {
        data.len()
    };
    let raw = slice_subrange(data, start, end);
    Ok(
        NtCreate {
            name: decode_name(raw, req.unicode()),
            root_fid: get_u32(w, 11),
            access: get_u32(w, 15),
            disposition: get_u32(w, 35),
            options: get_u32(w, 39),
        },
    )
}

/// Where an open starts: the directory that its name is relative to.
pub open spec fn create_base(server: &ServerShared, conn: &ConnState, tid: u16, root_fid: u32) -> Result<Seq<char>, Status> {
    match share_behind(server, conn, tid) {
        None => Err(Status::INVALID_HANDLE),
        Some(s) => if s.is_ipc {
            Err(Status::OBJECT_NAME_NOT_FOUND)
        } else if root_fid != 0 && root_fid <= 0xFFFF {
            if conn.handles@.contains_key(root_fid as u16) {
                Ok(conn.handles@[root_fid as u16].path@)
            } else {
                Err(Status::INVALID_HANDLE)
            }
        } else {
            Ok(s.root@)
        },
    }
}

/// Whether `r` is the directory that an open is relative to.
pub open spec fn base_found(server: &ServerShared, conn: &ConnState, tid: u16, root_fid: u32, r: Result<String, Status>) -> bool {
    match r {
        Ok(p) => create_base(server, conn, tid, root_fid) == Ok::<Seq<char>, Status>(p@),
        Err(e) => create_base(server, conn, tid, root_fid) == Err::<Seq<char>, Status>(e),
    }
}

/// The directory that the name of an open is relative to. Pipes are refused.
pub fn create_base_path(server: &ServerShared, conn: &ConnState, tid: u16, root_fid: u32) -> (r: Result<String, Status>)
    requires
        server.wf(),
    ensures
        base_found(server, conn, tid, root_fid, r),
{
    let share = match share_root(server, conn, tid) {
        Ok(s) => s,
        Err(e) => {
            return Err(e);
        },
    };
    if share.is_ipc {
        return Err(Status::OBJECT_NAME_NOT_FOUND);
    }
    if root_fid != 0 && root_fid <= 0xFFFF {
        return match conn.handles.get(&(root_fid as u16)) {
            Some(h) => Ok(h.path.clone()),
            None => Err(Status::INVALID_HANDLE),
        };
    }
    Ok(share.root.clone())
}

/// What must be done to the path before it is opened.
#[derive(Clone, Copy, PartialEq, Eq, Structural, Debug)]
pub enum Prepare {
    Nothing,
    /// Empty the file that is there.
    Truncate,
    /// Create the directory and its parents.
    MakeDir,
    /// Create an empty file and its parents.
    MakeFile,
}

/// How an NT_CREATE goes on once the path has been looked up.
#[derive(Clone, Copy)]
pub struct CreatePlan {
    pub prepare: Prepare,
    /// The action reported for a file.
    pub action: u32,
    /// The path is opened as a directory.
    pub as_dir: bool,
    pub read: bool,
    pub write: bool,
    pub delete_on_close: bool,
}

/// Whether an access mask asks to read.
pub open spec fn create_reads(access: u32) -> bool {
    access & (GENERIC_READ | FILE_READ_DATA | GENERIC_ALL) != 0 || access & 0x120089 != 0
}

/// Whether an access mask asks to write.
pub open spec fn create_writes(access: u32) -> bool {
    access & (GENERIC_WRITE | FILE_WRITE_DATA | FILE_APPEND_DATA | DELETE_ACCESS | GENERIC_ALL) != 0
}

/// Whether a disposition empties a file that is there.
pub open spec fn disposition_truncates(d: u32) -> bool {
    d == DISP_OVERWRITE || d == DISP_OVERWRITE_IF || d == DISP_SUPERSEDE
}

/// Whether a disposition creates what is not there.
pub open spec fn disposition_creates(d: u32) -> bool {
    d == DISP_CREATE || d == DISP_OPEN_IF || d == DISP_SUPERSEDE || d == DISP_OVERWRITE_IF
}

/// How an open goes on, given what the path is.
pub open spec fn create_plan(
    disposition: u32,
    options: u32,
    access: u32,
    path_exists: bool,
    is_dir: bool,
) -> Result<CreatePlan, Status> {
    let want_dir = options & OPT_DIRECTORY_FILE != 0;
    let no_dir = options & OPT_NON_DIRECTORY_FILE != 0;
    let plan = CreatePlan {
        prepare: Prepare::Nothing,
        action: 1,
        as_dir: want_dir || (path_exists && is_dir),
        read: create_reads(access),
        write: create_writes(access),
        delete_on_close: options & OPT_DELETE_ON_CLOSE != 0,
    };
    if path_exists {
        if disposition == DISP_CREATE {
            Err(Status::OBJECT_NAME_COLLISION)
        } else if want_dir && !is_dir {
            Err(Status::FILE_IS_A_DIRECTORY)
        } else if no_dir && is_dir {
            Err(Status::FILE_IS_A_DIRECTORY)
        } else {
            Ok(
                CreatePlan {
                    prepare: if !want_dir && !is_dir && disposition_truncates(disposition) {
                        Prepare::Truncate
                    } else {
                        Prepare::Nothing
                    },
                    action: if disposition == DISP_SUPERSEDE {
                        0
                    } else if disposition == DISP_OVERWRITE || disposition == DISP_OVERWRITE_IF {
                        3
                    } else {
                        1
                    },
                    ..plan
                },
            )
        }
    } else if disposition_creates(disposition) {
        Ok(
            CreatePlan {
                prepare: if want_dir {
                    Prepare::MakeDir
                } else {
                    Prepare::MakeFile
                },
                action: 2,
                ..plan
            },
        )
    } else {
        Err(Status::OBJECT_NAME_NOT_FOUND)
    }
}

/// Decides how an NT_CREATE with a name goes on; `is_dir` is looked at only
/// where the path exists.
pub fn nt_create(c: &NtCreate, path_exists: bool, is_dir: bool) -> (r: Result<CreatePlan, Status>)
    ensures
        r == create_plan(c.disposition, c.options, c.access, path_exists, is_dir),
{
    let want_dir: bool = c.options & OPT_DIRECTORY_FILE != 0;
    let no_dir: bool = c.options & OPT_NON_DIRECTORY_FILE != 0;
    let d: u32 = c.disposition;
    let read: bool = c.access & (GENERIC_READ | FILE_READ_DATA | GENERIC_ALL) != 0 || c.access & 0x120089 != 0;
    let write: bool = c.access & (GENERIC_WRITE | FILE_WRITE_DATA | FILE_APPEND_DATA | DELETE_ACCESS | GENERIC_ALL) != 0;
    let delete_on_close: bool = c.options & OPT_DELETE_ON_CLOSE != 0;
    let truncates: bool = d == DISP_OVERWRITE || d == DISP_OVERWRITE_IF || d == DISP_SUPERSEDE;
    if path_exists {
        if d == DISP_CREATE {
            return Err(Status::OBJECT_NAME_COLLISION);
        }
        if want_dir && !is_dir {
            return Err(Status::FILE_IS_A_DIRECTORY);
        }
        if no_dir && is_dir {
            return Err(Status::FILE_IS_A_DIRECTORY);
        }
        let prepare: Prepare = if !want_dir && !is_dir && truncates {
            Prepare::Truncate
        } else {
            Prepare::Nothing
        };
        let action: u32 = if d == DISP_SUPERSEDE {
            0
        } else if d == DISP_OVERWRITE || d == DISP_OVERWRITE_IF {
            3
        } else {
            1
        };
        Ok(CreatePlan { prepare, action, as_dir: want_dir || is_dir, read, write, delete_on_close })
    } else if d == DISP_CREATE || d == DISP_OPEN_IF || d == DISP_SUPERSEDE || d == DISP_OVERWRITE_IF {
        let prepare: Prepare = if want_dir {
            Prepare::MakeDir
        } else {
            Prepare::MakeFile
        };
        Ok(CreatePlan { prepare, action: 2, as_dir: want_dir, read, write, delete_on_close })
    } else {
        Err(Status::OBJECT_NAME_NOT_FOUND)
    }
}

/// The status when preparing a path fails.
pub open spec fn prepare_failed(p: Prepare) -> Status {
    match p {
        Prepare::MakeDir => Status::OBJECT_PATH_NOT_FOUND,
        Prepare::MakeFile => Status::OBJECT_PATH_NOT_FOUND,
        _ => Status::ACCESS_DENIED,
    }
}

/// The status when preparing a path fails.
pub fn prepare_failure(p: Prepare) -> (s: Status)
    ensures
        s == prepare_failed(p),
{
    match p {
        Prepare::MakeDir => Status::OBJECT_PATH_NOT_FOUND,
        Prepare::MakeFile => Status::OBJECT_PATH_NOT_FOUND,
        _ => Status::ACCESS_DENIED,
    }
}

/// The words of an NT_CREATE response.
pub open spec fn create_words(
    fid: u16,
    action: u32,
    times: Seq<u64>,
    attrs: u32,
    alloc: u64,
    eof: u64,
    dir: u8,
) -> Seq<u8> {
    seq![0xFFu8, 0u8] + le16(0) + seq![0u8] + le16(fid) + le32(action) + times_bytes(times) + le32(attrs) + le64(alloc)
        + le64(eof) + le16(0) + le16(0) + seq![dir]
}

/// Writes the words of an NT_CREATE response.
pub fn make_create_words(fid: u16, action: u32, times: &[u64; 4], attrs: u32, alloc: u64, eof: u64, dir: u8) -> (p: Vec<u8>)
    ensures
        p@ == create_words(fid, action, times@, attrs, alloc, eof, dir),
{
    let mut p: Vec<u8> = Vec::new();
    p.push(0xFF);
    p.push(0);
    assert(p@ =~= seq![0xFFu8, 0u8]);
    put_u16(&mut p, 0);
    put_u8(&mut p, 0);
    put_u16(&mut p, fid);
    put_u32(&mut p, action);
    put_times(&mut p, times);
    put_u32(&mut p, attrs);
    put_u64(&mut p, alloc);
    put_u64(&mut p, eof);
    put_u16(&mut p, 0);
    put_u16(&mut p, 0);
    put_u8(&mut p, dir);
    p
}

/// Whether handle `fid` was added and nothing else changed.
pub open spec fn handle_added(new: &ConnState, old: &ConnState, fid: u16) -> bool {
    &&& new.handles@ == old.handles@.insert(fid, new.handles@[fid])
    &&& new.same_but_handles(old)
}

/// Whether an open file is recorded and answered.
pub open spec fn file_opened(
    c0: &ConnState,
    c1: &ConnState,
    i0: &Ids,
    i1: &Ids,
    path: String,
    plan: CreatePlan,
    st: FileStat,
    bodies: Seq<RespBody>,
) -> bool {
    let fid = next_not_all_ones(i0.fid);
    &&& *i1 == (Ids { fid: fid.wrapping_add(1), ..*i0 })
    &&& handle_added(c1, c0, fid)
    &&& c1.handles@[fid] == (FileHandle {
        path,
        is_dir: false,
        has_file: true,
        pos: 0,
        access_read: plan.read,
        access_write: plan.write,
        delete_on_close: plan.delete_on_close,
        delete_pending: false,
    })
    &&& body_views(bodies) == seq![
        plain_body(
            COM_NT_CREATE_ANDX,
            create_words(
                fid,
                plan.action,
                stat_times(st),
                stat_attrs(st),
                rounded(st.len as int, 512) as u64,
                st.len,
                0,
            ),
            Seq::empty(),
        ),
    ]
}

/// Answers an open of a file once it is open: records the handle and reports
/// what was found.
pub fn finish_open_file(conn: &mut ConnState, ids: &mut Ids, path: String, plan: &CreatePlan, st: &FileStat) -> (bodies: Vec<
    RespBody,
>)
    requires
        st.in_range(),
    ensures
        file_opened(old(conn), final(conn), old(ids), final(ids), path, *plan, *st, bodies@),
{
    let times = times_of(st);
    let alloc: u64 = (st.len + 511) / 512 * 512;
    let fid: u16 = next_fid(ids);
    conn.handles.insert(
        fid,
        FileHandle {
            path,
            is_dir: false,
            has_file: true,
            pos: 0,
            access_read: plan.read,
            access_write: plan.write,
            delete_on_close: plan.delete_on_close,
            delete_pending: false,
        },
    );
    let p = make_create_words(fid, plan.action, &times, attrs_of(st), alloc, st.len, 0);
    one_body(words_only(COM_NT_CREATE_ANDX, p))
}

/// A body without bytes.
pub fn words_only(command: u8, params: Vec<u8>) -> (b: RespBody)
    ensures
        b@ == plain_body(command, params@, Seq::empty()),
{
    let d: Vec<u8> = Vec::new();
    assert(d@ =~= Seq::<u8>::empty());
    RespBody::new(command, params, d)
}

/// Whether an open directory is recorded and answered, or refused.
pub open spec fn directory_opened(
    c0: &ConnState,
    c1: &ConnState,
    i0: &Ids,
    i1: &Ids,
    path: String,
    delete_on_close: bool,
    st: Option<FileStat>,
    r: Result<Vec<RespBody>, Status>,
) -> bool {
    match st {
        None => r is Err && r->Err_0 == Status::OBJECT_PATH_NOT_FOUND && *c1 == *c0 && *i1 == *i0,
        Some(s) => if !s.is_dir {
            r is Err && r->Err_0 == Status::NOT_A_DIRECTORY && *c1 == *c0 && *i1 == *i0
        } else {
            let fid = next_not_all_ones(i0.fid);
            &&& *i1 == (Ids { fid: fid.wrapping_add(1), ..*i0 })
            &&& handle_added(c1, c0, fid)
            &&& c1.handles@[fid] == (FileHandle {
                path,
                is_dir: true,
                has_file: false,
                pos: 0,
                access_read: true,
                access_write: false,
                delete_on_close,
                delete_pending: false,
            })
            &&& r matches Ok(v)
            &&& body_views(v@) == seq![
                plain_body(
                    COM_NT_CREATE_ANDX,
                    create_words(
                        fid,
                        1,
                        stat_times(s),
                        ATTR_DIRECTORY,
                        rounded(s.len as int, 512) as u64,
                        0,
                        1,
                    ),
                    Seq::empty(),
                ),
            ]
        },
    }
}

/// Answers an open of a directory: records the handle, or refuses what is not a
/// directory. `st` is what the operating system says of the path, where it says
/// anything.
pub fn open_directory_handle(
    conn: &mut ConnState,
    ids: &mut Ids,
    path: String,
    delete_on_close: bool,
    st: Option<FileStat>,
) -> (r: Result<Vec<RespBody>, Status>)
    requires
        st matches Some(s) ==> s.in_range(),
    ensures
        directory_opened(old(conn), final(conn), old(ids), final(ids), path, delete_on_close, st, r),
{
    let s: FileStat = match st {
        Some(s) => s,
        None => {
            return Err(Status::OBJECT_PATH_NOT_FOUND);
        },
    };
    if !s.is_dir {
        return Err(Status::NOT_A_DIRECTORY);
    }
    let times = times_of(&s);
    let fid: u16 = next_fid(ids);
    conn.handles.insert(
        fid,
        FileHandle {
            path,
            is_dir: true,
            has_file: false,
            pos: 0,
            access_read: true,
            access_write: false,
            delete_on_close,
            delete_pending: false,
        },
    );
    let alloc: u64 = (s.len + 511) / 512 * 512;
    let p = make_create_words(fid, 1, &times, ATTR_DIRECTORY, alloc, 0, 1);
    Ok(one_body(words_only(COM_NT_CREATE_ANDX, p)))
}

// ---------------- READ ----------------

/// What a READ asks of the file system.
#[derive(Clone, Copy)]
pub struct ReadPlan {
    pub fid: u16,
    pub offset: u64,
    pub count: usize,
}

/// The most bytes that one READ returns.
pub const READ_CAP: usize = 65_000;

/// Why a handle cannot be read; none where it can.
pub open spec fn read_refusal(conn: &ConnState, fid: u16) -> Option<Status> {
    if !conn.handles@.contains_key(fid) {
        Some(Status::INVALID_HANDLE)
    } else {
        let h = conn.handles@[fid];
        if h.is_dir || !h.access_read {
            Some(Status::ACCESS_DENIED)
        } else if !h.has_file {
            Some(Status::INVALID_HANDLE)
        } else {
            None
        }
    }
}

/// Why a handle cannot be written; none where it can.
pub open spec fn write_refusal(conn: &ConnState, fid: u16) -> Option<Status> {
    if !conn.handles@.contains_key(fid) {
        Some(Status::INVALID_HANDLE)
    } else {
        let h = conn.handles@[fid];
        if h.is_dir || !h.access_write {
            Some(Status::ACCESS_DENIED)
        } else if !h.has_file {
            Some(Status::INVALID_HANDLE)
        } else {
            None
        }
    }
}

/// What a READ with these words asks for.
pub open spec fn read_plan(w: Seq<u8>) -> ReadPlan {
    let hi: int = if w.len() >= 24 {
        u32_at(w, 20) as int
    } else {
        0
    };
    ReadPlan {
        fid: u16_at(w, 4),
        offset: (u32_at(w, 6) + 4294967296 * hi) as u64,
        count: if u16_at(w, 10) > READ_CAP {
            READ_CAP
        } else {
            u16_at(w, 10) as usize
        },
    }
}

/// Whether `r` is what a READ asks for.
pub open spec fn read_planned(conn: &ConnState, req: &Request, r: Result<ReadPlan, Status>) -> bool {
    r == if req.words().len() < 12 {
        Err::<ReadPlan, Status>(Status::INVALID_PARAMETER)
    } else {
        match read_refusal(conn, read_plan(req.words()).fid) {
            Some(s) => Err(s),
            None => Ok(read_plan(req.words())),
        }
    }
}

/// Reads a READ and checks its handle.
pub fn read_andx(conn: &ConnState, req: &Request) -> (r: Result<ReadPlan, Status>)
    requires
        req.wc_off < req.buf@.len(),
        req.words().len() < 12 || req.words().len() >= 16,
    ensures
        read_planned(conn, req, r),
{
    let w = req.word_bytes();
    if w.len() < 12 {
        return Err(Status::INVALID_PARAMETER);
    }
    let fid: u16 = get_u16(w, 4);
    let mut offset: u64 = get_u32(w, 6) as u64;
    if w.len() >= 24 {
        offset = offset + 4294967296 * (get_u32(w, 20) as u64);
    }
    let mut count: usize = get_u16(w, 10) as usize;
    if count > READ_CAP {
        count = READ_CAP;
    }
    match conn.handles.get(&fid) {
        Some(h) => {
            if h.is_dir || !h.access_read {
                return Err(Status::ACCESS_DENIED);
            }
            if !h.has_file {
                return Err(Status::INVALID_HANDLE);
            }
        },
        None => {
            return Err(Status::INVALID_HANDLE);
        },
    }
    Ok(ReadPlan { fid, offset, count })
}

/// The words of a READ response of `n` bytes, which start at offset 60.
pub open spec fn read_words(n: int) -> Seq<u8> {
    seq![0xFFu8, 0u8] + le16(0) + le16(0) + le16(0) + le16(0) + le16((n % 65536) as u16) + le16(60) + le32(0) + le32(0)
        + zeros(2)
}

/// Answers a READ with the bytes that were read.
pub fn finish_read(got: &[u8]) -> (bodies: Vec<RespBody>)
    ensures
        body_views(bodies@) == seq![
            plain_body(COM_READ_ANDX, read_words(got@.len() as int), seq![0u8] + got@),
        ],
{
    let mut p: Vec<u8> = Vec::new();
    p.push(0xFF);
    p.push(0);
    assert(p@ =~= seq![0xFFu8, 0u8]);
    put_u16(&mut p, 0);
    put_u16(&mut p, 0);
    put_u16(&mut p, 0);
    put_u16(&mut p, 0);
    put_u16(&mut p, (got.len() % 65536) as u16);
    put_u16(&mut p, 60);
    put_u32(&mut p, 0);
    put_u32(&mut p, 0);
    put_zeros(&mut p, 2);
    let mut b: Vec<u8> = Vec::new();
    b.push(0);
    assert(b@ =~= seq![0u8]);
    put_bytes(&mut b, got);
    one_body(RespBody::new(COM_READ_ANDX, p, b))
}

/// The data of a READ response starts where its DataOffset says, counted from
/// the start of the message, and reaches to the message's end.
pub proof fn law_read_data_offset(h: SmbHeader, status: Status, got: Seq<u8>)
    ensures
        ({
            let m = response_bytes(
                h,
                status,
                seq![plain_body(COM_READ_ANDX, read_words(got.len() as int), seq![0u8] + got)],
            );
            let at = u16_at(m, HDR_LEN + 1 + 12) as int;
            at <= m.len() && m.subrange(at, m.len() as int) == got
        }),
{
    let w = read_words(got.len() as int);
    let b = plain_body(COM_READ_ANDX, w, seq![0u8] + got);
    let sent = seq![b];
    let m = response_bytes(h, status, sent);
    let part = body_bytes(b, None, HDR_LEN as int);
    reveal_with_fuel(chain_bytes, 2);
    reveal_with_fuel(body_start, 2);
    assert(w[12] == le16(60)[0] && w[13] == le16(60)[1]);
    assert(m =~= reply_header(h, status, b) + part);
    assert(part[13] == w[12] && part[14] == w[13]);
    assert(m[45] == part[13] && m[46] == part[14]);
    assert(m.subrange(60, m.len() as int) =~= got);
}

/// A READ is planned at the offset that its words encode: the low half little-endian in
/// bytes 6 to 9, the high half in bytes 20 to 23 where the words reach that far; for the
/// count in bytes 10 and 11, up to a limit; on the handle in bytes 4 and 5.
pub proof fn law_read_comes_from_where_the_client_says(conn: &ConnState, req: &Request, r: Result<ReadPlan, Status>)
    requires
        read_planned(conn, req, r),
        r is Ok,
    ensures
        ({
            let w = req.words();
            let p = r->Ok_0;
            let low = w[6] + 256 * w[7] + 65536 * w[8] + 16777216 * w[9];
            let high = w[20] + 256 * w[21] + 65536 * w[22] + 16777216 * w[23];
            let count = w[10] + 256 * w[11];
            &&& w.len() >= 12
            &&& p.fid == w[4] + 256 * w[5]
            &&& p.offset == if w.len() >= 24 {
                low + 4294967296 * high
            } else {
                low
            }
            &&& p.count == if count <= 65000 {
                count
            } else {
                65000
            }
        }),
{
}

/// A handle is read through only where it is open for reading and no directory.
pub proof fn law_read_needs_the_right(conn: &ConnState, req: &Request, r: Result<ReadPlan, Status>)
    requires
        read_planned(conn, req, r),
        req.words().len() >= 12,
    ensures
        r is Ok <==> {
            let fid = u16_at(req.words(), 4);
            &&& conn.handles@.dom().contains(fid)
            &&& conn.handles@[fid].access_read
            &&& !conn.handles@[fid].is_dir
            &&& conn.handles@[fid].has_file
        },
{
}

// ---------------- WRITE ----------------

/// What a WRITE asks of the file system; the payload stands at `start` of the
/// message.
#[derive(Clone, Copy)]
pub struct WritePlan {
    pub fid: u16,
    pub offset: u64,
    pub start: usize,
    pub len: usize,
    /// The data must be flushed.
    pub flush: bool,
}

/// Whether a payload of `len` bytes at `off` lies behind the words and within
/// the message.
pub open spec fn payload_fits(len: int, off: int, words_len: int, msg_len: int) -> bool {
    len > 0 && off >= HDR_LEN + 1 + words_len / 2 * 2 + 2 && off + len <= msg_len
}

/// Length and offset of the payload of a WRITE. Three layouts of the words are
/// in use; the first whose payload lies within the message counts.
pub open spec fn write_payload(w: Seq<u8>, msg_len: int) -> Option<(int, int)> {
    let a = (u16_at(w, 22) as int, u16_at(w, 24) as int);
    let b = (u16_at(w, 20) as int, u16_at(w, 22) as int);
    let c = (u16_at(w, 18) as int, u16_at(w, 20) as int);
    let n = w.len() as int;
    if n >= 28 && u32_at(w, 18) == 0 && payload_fits(a.0, a.1, n, msg_len) {
        Some(a)
    } else if payload_fits(b.0, b.1, n, msg_len) {
        Some(b)
    } else if payload_fits(c.0, c.1, n, msg_len) {
        Some(c)
    } else {
        None
    }
}

/// The status a WRITE is refused with; none where it is carried out.
pub open spec fn write_andx_refusal(conn: &ConnState, w: Seq<u8>, msg_len: int) -> Option<Status> {
    if w.len() < 24 || write_payload(w, msg_len) is None {
        Some(Status::INVALID_PARAMETER)
    } else {
        write_refusal(conn, u16_at(w, 4))
    }
}

fn fits(len: usize, off: usize, words_len: usize, msg_len: usize) -> (r: bool)
    requires
        words_len <= 0x1_0000,
        len <= 0xFFFF,
        off <= 0xFFFF,
    ensures
        r == payload_fits(len as int, off as int, words_len as int, msg_len as int),
{
    len > 0 && off >= HDR_LEN + 1 + words_len / 2 * 2 + 2 && off + len <= msg_len
}

/// Whether `r` is what a WRITE asks for.
pub open spec fn write_planned(conn: &ConnState, req: &Request, r: Result<WritePlan, Status>) -> bool {
    match write_andx_refusal(conn, req.words(), req.buf@.len() as int) {
        Some(s) => r is Err && r->Err_0 == s,
        None => {
            let p = write_payload(req.words(), req.buf@.len() as int)->0;
            r is Ok && r->Ok_0 == (WritePlan {
                fid: u16_at(req.words(), 4),
                offset: u32_at(req.words(), 6) as u64,
                start: p.1 as usize,
                len: p.0 as usize,
                flush: u16_at(req.words(), 14) & 0x0001 != 0,
            })
        },
    }
}

/// Reads a WRITE and checks its handle.
pub fn write_andx(conn: &ConnState, req: &Request) -> (r: Result<WritePlan, Status>)
    requires
        req.wc_off < req.buf@.len(),
        req.wct <= 255,
    ensures
        write_planned(conn, req, r),
{
    let w = req.word_bytes();
    let n: usize = w.len();
    if n / 2 < 12 {
        return Err(Status::INVALID_PARAMETER);
    }
    let fid: u16 = get_u16(w, 4);
    let offset: u64 = get_u32(w, 6) as u64;
    let mode: u16 = get_u16(w, 14);
    let msg: usize = req.buf.len();
    let x18: usize = get_u16(w, 18) as usize;
    let x20: usize = get_u16(w, 20) as usize;
    let x22: usize = get_u16(w, 22) as usize;
    let mut len: usize = 0;
    let mut start: usize = 0;
    if n >= 28 && get_u32(w, 18) == 0 && fits(x22, get_u16(w, 24) as usize, n, msg) {
        len = x22;
        start = get_u16(w, 24) as usize;
    } else if fits(x20, x22, n, msg) {
        len = x20;
        start = x22;
    } else if fits(x18, x20, n, msg) {
        len = x18;
        start = x20;
    }
    if len == 0 {
        return Err(Status::INVALID_PARAMETER);
    }
    match conn.handles.get(&fid) {
        Some(h) => {
            if h.is_dir || !h.access_write {
                return Err(Status::ACCESS_DENIED);
            }
            if !h.has_file {
                return Err(Status::INVALID_HANDLE);
            }
        },
        None => {
            return Err(Status::INVALID_HANDLE);
        },
    }
    Ok(WritePlan { fid, offset, start, len, flush: mode & 0x0001 != 0 })
}

/// The words of a WRITE response.
pub open spec fn write_words(written: int) -> Seq<u8> {
    seq![0xFFu8, 0u8] + le16(0) + le16((written % 65536) as u16) + le16(65535) + le16(0) + le16(0)
}

/// Answers a WRITE with the number of bytes written.
pub fn finish_write(written: usize) -> (bodies: Vec<RespBody>)
    ensures
        body_views(bodies@) == seq![plain_body(COM_WRITE_ANDX, write_words(written as int), Seq::empty())],
{
    let mut p: Vec<u8> = Vec::new();
    p.push(0xFF);
    p.push(0);
    assert(p@ =~= seq![0xFFu8, 0u8]);
    put_u16(&mut p, 0);
    put_u16(&mut p, (written % 65536) as u16);
    put_u16(&mut p, 65535);
    put_u16(&mut p, 0);
    put_u16(&mut p, 0);
    one_body(words_only(COM_WRITE_ANDX, p))
}

/// A WRITE is planned at the offset that stands little-endian in bytes 6 to 9 of its words,
/// on the handle in bytes 4 and 5: a client that encodes an offset has its data written
/// there.
pub proof fn law_write_goes_where_the_client_says(conn: &ConnState, req: &Request, r: Result<WritePlan, Status>)
    requires
        write_planned(conn, req, r),
        r is Ok,
    ensures
        ({
            let w = req.words();
            let p = r->Ok_0;
            &&& w.len() >= 24
            &&& p.offset == w[6] + 256 * w[7] + 65536 * w[8] + 16777216 * w[9]
            &&& p.fid == w[4] + 256 * w[5]
            &&& p.flush == (w[14] % 2 == 1)
            &&& p.len > 0
            &&& HDR_LEN + w.len() <= p.start
            &&& p.start + p.len <= req.buf@.len()
        }),
        forall|o: u32| #[trigger] le32(o) == req.words().subrange(6, 10) ==> r->Ok_0.offset == o,
{
    let w = req.words();
    let m = u16_at(w, 14);
    assert((m & 1 != 0) == (m % 2 == 1)) by (bit_vector);
    assert forall|o: u32| #[trigger] le32(o) == w.subrange(6, 10) implies r->Ok_0.offset == o by {
        let b = w.subrange(6, 10);
        assert(b[0] == w[6] && b[1] == w[7] && b[2] == w[8] && b[3] == w[9]);
    }
}

/// Two WRITEs whose words differ in the offset bytes are planned at different offsets.
pub proof fn law_writes_at_different_offsets_differ(
    conn: &ConnState,
    a: &Request,
    b: &Request,
    ra: Result<WritePlan, Status>,
    rb: Result<WritePlan, Status>,
)
    requires
        write_planned(conn, a, ra),
        write_planned(conn, b, rb),
        ra is Ok && rb is Ok,
        a.words().subrange(6, 10) != b.words().subrange(6, 10),
    ensures
        ra->Ok_0.offset != rb->Ok_0.offset,
{
    law_write_goes_where_the_client_says(conn, a, ra);
    law_write_goes_where_the_client_says(conn, b, rb);
    let x = a.words();
    let y = b.words();
    if ra->Ok_0.offset == rb->Ok_0.offset {
        assert(x[6] == y[6] && x[7] == y[7] && x[8] == y[8] && x[9] == y[9]);
        assert(x.subrange(6, 10) =~= y.subrange(6, 10));
    }
}

/// The usual layout of a WRITE: with a zero in bytes 18 to 21, the payload has the length in
/// bytes 22 and 23 and stands at the offset of the message in bytes 24 and 25.
pub proof fn law_write_takes_the_payload_it_names(conn: &ConnState, req: &Request, r: Result<WritePlan, Status>)
    requires
        write_planned(conn, req, r),
        req.words().len() == 28,
        ({
            let w = req.words();
            let len = w[22] + 256 * w[23];
            let at = w[24] + 256 * w[25];
            &&& w[18] == 0 && w[19] == 0 && w[20] == 0 && w[21] == 0
            &&& len > 0 && at >= HDR_LEN + 31 && at + len <= req.buf@.len()
        }),
        write_refusal(conn, u16_at(req.words(), 4)) is None,
    ensures
        r matches Ok(p) && p.len == req.words()[22] + 256 * req.words()[23] && p.start == req.words()[24] + 256
            * req.words()[25],
{
}

/// A handle is written through only where it is open for writing and no directory.
pub proof fn law_write_needs_the_right(conn: &ConnState, req: &Request, r: Result<WritePlan, Status>)
    requires
        write_planned(conn, req, r),
        r is Ok,
    ensures
        ({
            let fid = r->Ok_0.fid;
            &&& conn.handles@.dom().contains(fid)
            &&& conn.handles@[fid].access_write
            &&& !conn.handles@[fid].is_dir
            &&& conn.handles@[fid].has_file
        }),
{
}

// ---------------- CLOSE ----------------

/// The FILETIME of an old-style time in seconds since 1970; none where it says
/// "leave as is".
pub open spec fn utime_to_filetime(t: u32) -> Option<u64> {
    if t == 0 || t == 0xFFFF_FFFF {
        None
    } else {
        Some(((t + WIN_EPOCH_SECS) * 10_000_000) as u64)
    }
}

/// The FILETIME of an old-style time; none where it says "leave as is".
pub fn utime_filetime(t: u32) -> (r: Option<u64>)
    ensures
        r == utime_to_filetime(t),
{
    if t == 0 || t == 0xFFFF_FFFF {
        None
    } else {
        Some((t as u64 + WIN_EPOCH_SECS as u64) * 10_000_000)
    }
}

/// What a CLOSE asks of the file system: the handle that was taken out, and the
/// write time to set on its path.
pub struct ClosePlan {
    pub handle: Option<FileHandle>,
    pub write_time: Option<u64>,
}

/// Whether a CLOSE takes the connection from `c0` to `c1` and gives `r`.
pub open spec fn closed(c0: &ConnState, c1: &ConnState, req: &Request, r: (Vec<RespBody>, ClosePlan)) -> bool {
    &&& body_views(r.0@) == seq![plain_body(COM_CLOSE, Seq::empty(), Seq::empty())]
    &&& c1.same_but_handles(c0)
    &&& {
        let w = req.words();
        let fid = u16_at(w, 0);
        if w.len() >= 3 {
            &&& c1.handles@ == c0.handles@.remove(fid)
            &&& r.1.handle == if c0.handles@.contains_key(fid) {
                Some(c0.handles@[fid])
            } else {
                None
            }
            &&& r.1.write_time == if c0.handles@.contains_key(fid) {
                utime_to_filetime(u32_at(w, 2))
            } else {
                None
            }
        } else {
            c1.handles@ == c0.handles@ && r.1.handle is None && r.1.write_time is None
        }
    }
}

/// Closes a handle. The answer is the same whether there was one or not.
pub fn close(conn: &mut ConnState, req: &Request) -> (r: (Vec<RespBody>, ClosePlan))
    requires
        req.wc_off < req.buf@.len(),
        req.words().len() < 3 || req.words().len() >= 6,
    ensures
        closed(old(conn), final(conn), req, r),
{
    let w = req.word_bytes();
    let mut plan = ClosePlan { handle: None, write_time: None };
    if w.len() >= 3 {
        let fid: u16 = get_u16(w, 0);
        let mtime: u32 = get_u32(w, 2);
        let h = conn.close_fid(fid);
        if h.is_some() {
            plan.write_time = utime_filetime(mtime);
        }
        plan.handle = h;
    }
    (one_body(empty_body(COM_CLOSE)), plan)
}

/// The time that the operating system is told to set.
pub open spec fn write_time_of(ft: u64) -> (u64, u32) {
    let (secs, nanos) = unix_of(ft);
    (
        if secs < 0 {
            0
        } else {
            secs as u64
        },
        nanos,
    )
}

/// Seconds and nanoseconds since 1970 of a write time to set.
pub fn set_write_time(ft: u64) -> (r: (u64, u32))
    ensures
        r == write_time_of(ft),
{
    let (secs, nanos) = filetime_to_unix(ft);
    if secs < 0 {
        (0, nanos)
    } else {
        (secs as u64, nanos)
    }
}

// ---------------- FLUSH ----------------

/// Which file objects a FLUSH writes back.
#[derive(Clone, Copy, PartialEq, Eq, Structural, Debug)]
pub enum FlushPlan {
    Nothing,
    All,
    One(u16),
}

/// Whether `r` is what a FLUSH asks for.
pub open spec fn flush_planned(conn: &ConnState, req: &Request, r: (Vec<RespBody>, FlushPlan)) -> bool {
    &&& body_views(r.0@) == seq![plain_body(COM_FLUSH, Seq::empty(), Seq::empty())]
    &&& {
        let w = req.words();
        let fid = u16_at(w, 0);
        r.1 == if w.len() < 2 {
            FlushPlan::Nothing
        } else if fid == 0xFFFF {
            FlushPlan::All
        } else if conn.handles@.contains_key(fid) && conn.handles@[fid].has_file {
            FlushPlan::One(fid)
        } else {
            FlushPlan::Nothing
        }
    }
}

/// Answers a FLUSH: one handle, or all where the id is all ones.
pub fn flush(conn: &ConnState, req: &Request) -> (r: (Vec<RespBody>, FlushPlan))
    requires
        req.wc_off < req.buf@.len(),
    ensures
        flush_planned(conn, req, r),
{
    let w = req.word_bytes();
    let mut plan = FlushPlan::Nothing;
    if w.len() >= 2 {
        let fid: u16 = get_u16(w, 0);
        if fid == 0xFFFF {
            plan = FlushPlan::All;
        } else {
            match conn.handles.get(&fid) {
                Some(h) => {
                    if h.has_file {
                        plan = FlushPlan::One(fid);
                    }
                },
                None => {},
            }
        }
    }
    (one_body(empty_body(COM_FLUSH)), plan)
}

// ---------------- SEEK ----------------

/// Where a SEEK counts from.
#[derive(Clone, Copy, PartialEq, Eq, Structural, Debug)]
pub enum SeekFrom {
    Start(u64),
    Current(i64),
    End(i64),
}

/// A 32-bit integer read as signed.
pub open spec fn as_signed(v: u32) -> int {
    if v >= 0x8000_0000 {
        v - 0x1_0000_0000
    } else {
        v as int
    }
}

/// What a SEEK asks for.
pub open spec fn seek_from(mode: u16, off: int) -> SeekFrom {
    if mode & 3 == 0 {
        SeekFrom::Start(
            if off < 0 {
                0
            } else {
                off as u64
            },
        )
    } else if mode & 3 == 1 {
        SeekFrom::Current(off as i64)
    } else {
        SeekFrom::End(off as i64)
    }
}

/// Whether `r` is what a SEEK asks for.
pub open spec fn seek_planned(conn: &ConnState, req: &Request, r: Result<(u16, SeekFrom), Status>) -> bool {
    let w = req.words();
    let fid = u16_at(w, 0);
    r == if w.len() < 8 {
        Err::<(u16, SeekFrom), Status>(Status::INVALID_PARAMETER)
    } else if !conn.handles@.contains_key(fid) || !conn.handles@[fid].has_file {
        Err(Status::INVALID_HANDLE)
    } else {
        Ok((fid, seek_from(u16_at(w, 2), as_signed(u32_at(w, 4)))))
    }
}

/// Reads a SEEK and checks its handle.
pub fn seek(conn: &ConnState, req: &Request) -> (r: Result<(u16, SeekFrom), Status>)
    requires
        req.wc_off < req.buf@.len(),
    ensures
        seek_planned(conn, req, r),
{
    let w = req.word_bytes();
    if w.len() < 8 {
        return Err(Status::INVALID_PARAMETER);
    }
    let fid: u16 = get_u16(w, 0);
    let mode: u16 = get_u16(w, 2);
    let raw: u32 = get_u32(w, 4);
    let off: i64 = if raw >= 0x8000_0000 {
        raw as i64 - 0x1_0000_0000
    } else {
        raw as i64
    };
    match conn.handles.get(&fid) {
        Some(h) => {
            if !h.has_file {
                return Err(Status::INVALID_HANDLE);
            }
        },
        None => {
            return Err(Status::INVALID_HANDLE);
        },
    }
    let from: SeekFrom = if mode & 3 == 0 {
        SeekFrom::Start(
            if off < 0 {
                0
            } else {
                off as u64
            },
        )
    } else if mode & 3 == 1 {
        SeekFrom::Current(off)
    } else {
        SeekFrom::End(off)
    };
    Ok((fid, from))
}

/// Answers a SEEK with the new position.
pub fn finish_seek(pos: u64) -> (bodies: Vec<RespBody>)
    ensures
        body_views(bodies@) == seq![plain_body(COM_SEEK, le32((pos % 0x1_0000_0000) as u32), Seq::empty())],
{
    let mut p: Vec<u8> = Vec::new();
    put_u32(&mut p, (pos % 0x1_0000_0000) as u32);
    assert(p@ =~= le32((pos % 0x1_0000_0000) as u32));
    one_body(words_only(COM_SEEK, p))
}

// ---------------- LOCKING ----------------

/// Whether `bodies` answers a LOCKING request.
pub open spec fn lock_accepted(bodies: Seq<RespBody>) -> bool {
    body_views(bodies) == seq![plain_body(COM_LOCKING_ANDX, seq![0xFFu8, 0u8, 0u8, 0u8], Seq::empty())]
}

/// Answers a LOCKING: every lock is accepted.
pub fn locking_andx() -> (bodies: Vec<RespBody>)
    ensures
        lock_accepted(bodies@),
{
    let mut p: Vec<u8> = Vec::new();
    p.push(0xFF);
    p.push(0);
    p.push(0);
    p.push(0);
    assert(p@ =~= seq![0xFFu8, 0u8, 0u8, 0u8]);
    one_body(words_only(COM_LOCKING_ANDX, p))
}

/// The bits of the options of an open.
pub proof fn lemma_option_bits(o: u32)
    ensures
        (o & OPT_DIRECTORY_FILE != 0) == (o % 2 == 1),
        (o & OPT_NON_DIRECTORY_FILE != 0) == ((o / 64) % 2 == 1),
        (o & OPT_DELETE_ON_CLOSE != 0) == ((o / 4096) % 2 == 1),
{
    assert((o & 0x1 != 0) == (o % 2 == 1)) by (bit_vector);
    assert((o & 0x40 != 0) == ((o / 64) % 2 == 1)) by (bit_vector);
    assert((o & 0x1000 != 0) == ((o / 4096) % 2 == 1)) by (bit_vector);
}

/// The answer to an open tells the id of the open, what was done, the size of the file and
/// whether it is a directory.
#[verifier::rlimit(40)]
#[verifier::spinoff_prover]
pub proof fn law_opened_fields(fid: u16, action: u32, times: Seq<u64>, attrs: u32, alloc: u64, eof: u64, dir: u8)
    requires
        times.len() == 4,
    ensures
        ({
            let w = create_words(fid, action, times, attrs, alloc, eof, dir);
            &&& w.len() == 68
            &&& little(w, 5, 2) == fid
            &&& little(w, 7, 4) == action
            &&& little(w, 43, 4) == attrs
            &&& little(w, 47, 8) == alloc
            &&& little(w, 55, 8) == eof
            &&& w[67] == dir
        }),
{
    let w = create_words(fid, action, times, attrs, alloc, eof, dir);
    let t = times_bytes(times);
    let p0 = seq![0xFFu8, 0u8] + le16(0) + seq![0u8];
    let q0 = le32(action) + t + le32(attrs) + le64(alloc) + le64(eof) + le16(0) + le16(0) + seq![dir];
    assert(w =~= p0 + le16(fid) + q0);
    lemma_little_written(p0, fid, 0, 0, q0);
    let p1 = p0 + le16(fid);
    let q1 = t + le32(attrs) + le64(alloc) + le64(eof) + le16(0) + le16(0) + seq![dir];
    assert(w =~= p1 + le32(action) + q1);
    lemma_little_written(p1, 0, action, 0, q1);
    let p2 = p1 + le32(action) + t;
    let q2 = le64(alloc) + le64(eof) + le16(0) + le16(0) + seq![dir];
    assert(w =~= p2 + le32(attrs) + q2);
    lemma_little_written(p2, 0, attrs, 0, q2);
    let p3 = p2 + le32(attrs);
    let q3 = le64(eof) + le16(0) + le16(0) + seq![dir];
    assert(w =~= p3 + le64(alloc) + q3);
    lemma_little_written(p3, 0, 0, alloc, q3);
    let p4 = p3 + le64(alloc);
    let q4 = le16(0) + le16(0) + seq![dir];
    assert(w =~= p4 + le64(eof) + q4);
    lemma_little_written(p4, 0, 0, eof, q4);
}

/// An open has the fields that its words encode: the id it is relative to, the rights, the
/// disposition and the options, each little-endian at its place.
pub proof fn law_open_request_fields(req: &Request, r: Result<NtCreate, Status>)
    requires
        create_parsed(req, r),
        req.words().len() >= 43,
    ensures
        ({
            let w = req.words();
            &&& r matches Ok(c)
            &&& c.root_fid == little(w, 11, 4)
            &&& c.access == little(w, 15, 4)
            &&& c.disposition == little(w, 35, 4)
            &&& c.options == little(w, 39, 4)
        }),
{
    let w = req.words();
    lemma_little(w, 11);
    lemma_little(w, 15);
    lemma_little(w, 35);
    lemma_little(w, 39);
}

/// The name of an open in single bytes stands at the start of the bytes, with the length
/// that its words give; a Unicode name starts at an even place of the message.
pub proof fn law_open_request_name(req: &Request, r: Result<NtCreate, Status>)
    requires
        create_parsed(req, r),
        r is Ok,
        req.bc_off % 2 == 0,
        little(req.words(), 5, 2) <= req.byte_area().len(),
    ensures
        r->Ok_0.name@ == name_text(
            req.byte_area().take(little(req.words(), 5, 2)),
            req.hdr.flags2 & FLAGS2_UNICODE != 0,
        ),
{
    lemma_little(req.words(), 5);
    let d = req.byte_area();
    let n = little(req.words(), 5, 2);
    assert(d.subrange(0, n) =~= d.take(n));
}

/// The name of an open is below the directory that it names by id, where that is open, and
/// else below the root of its share. Pipes are not opened so.
pub proof fn law_open_starts_at_its_root(
    server: &ServerShared,
    conn: &ConnState,
    tid: u16,
    root_fid: u32,
    r: Result<String, Status>,
)
    requires
        base_found(server, conn, tid, root_fid, r),
    ensures
        ({
            let share = share_behind(server, conn, tid);
            &&& share is None ==> r is Err
            &&& share matches Some(s) ==> (s.is_ipc ==> r is Err)
            &&& share matches Some(s) ==> (!s.is_ipc && root_fid == 0 ==> (r matches Ok(p) && p@ == s.root@))
            &&& share matches Some(s) ==> (!s.is_ipc && 0 < root_fid < 0x1_0000 && conn.handles@.dom().contains(
                root_fid as u16,
            ) ==> (r matches Ok(p) && p@ == conn.handles@[root_fid as u16].path@))
            &&& 0 < root_fid < 0x1_0000 && !conn.handles@.dom().contains(root_fid as u16) ==> r is Err
        }),
{
}

/// What an open does to the path: a file is created only where there is none and the
/// disposition asks for it, and emptied only where it is there and the disposition asks for
/// that; a directory is made where the options ask for one, and never emptied. Opening
/// what is there changes nothing.
pub proof fn law_disposition_decides(d: u32, options: u32, access: u32, path_exists: bool, is_dir: bool)
    requires
        !path_exists ==> !is_dir,
    ensures
        ({
            let r = create_plan(d, options, access, path_exists, is_dir);
            let creates = d == 0 || d == 2 || d == 3 || d == 5;
            let empties = d == 0 || d == 4 || d == 5;
            let dir = options % 2 == 1;
            let file = (options / 64) % 2 == 1;
            &&& path_exists && d == 2 ==> r == Err::<CreatePlan, Status>(Status::OBJECT_NAME_COLLISION)
            &&& !path_exists && !creates ==> r == Err::<CreatePlan, Status>(Status::OBJECT_NAME_NOT_FOUND)
            &&& path_exists && d != 2 && dir != is_dir && (dir || file) ==> r == Err::<CreatePlan, Status>(
                Status::FILE_IS_A_DIRECTORY,
            )
            &&& !path_exists && creates ==> r is Ok
            &&& path_exists && d != 2 && !(dir && !is_dir) && !(file && is_dir) ==> r is Ok
            &&& r matches Ok(p) ==> {
                &&& p.prepare is MakeDir <==> !path_exists && dir
                &&& p.prepare is MakeFile <==> !path_exists && !dir
                &&& p.prepare is Truncate <==> path_exists && !is_dir && empties
                &&& p.as_dir == (dir || is_dir)
                &&& p.delete_on_close == ((options / 4096) % 2 == 1)
                &&& p.action == if !path_exists {
                    2u32
                } else if d == 0 {
                    0
                } else if d == 4 || d == 5 {
                    3
                } else {
                    1
                }
            }
        }),
{
    lemma_option_bits(options);
}

/// Reading is granted where the rights ask to read data or for all, writing where they ask
/// to write, append, delete or for all; rights that ask for none of it grant none of it.
pub proof fn law_rights_are_those_asked_for(d: u32, options: u32, access: u32, path_exists: bool, is_dir: bool)
    ensures
        create_plan(d, options, access, path_exists, is_dir) matches Ok(p) ==> {
            &&& p.read == create_reads(access) && p.write == create_writes(access)
            &&& access & 0x0000_0001 != 0 || access & 0x8000_0000 != 0 || access & 0x1000_0000 != 0 ==> p.read
            &&& access & 0x0000_0002 != 0 || access & 0x0000_0004 != 0 || access & 0x0001_0000 != 0 || access & 0x4000_0000
                != 0 || access & 0x1000_0000 != 0 ==> p.write
            &&& access == 0 ==> !p.read && !p.write
            &&& access == 1 || access == 0x8000_0000 ==> !p.write
        },
{
    assert(0x8000_0000u32 | 0x1u32 | 0x1000_0000u32 == 0x9000_0001u32 && 0x4000_0000u32 | 0x2u32 | 0x4u32 | 0x1_0000u32
        | 0x1000_0000u32 == 0x5001_0006u32) by (bit_vector);
    assert((access & 0x0000_0001 != 0 || access & 0x8000_0000 != 0 || access & 0x1000_0000 != 0 ==> access & 0x9000_0001
        != 0) && (access & 0x0000_0002 != 0 || access & 0x0000_0004 != 0 || access & 0x0001_0000 != 0 || access
        & 0x4000_0000 != 0 || access & 0x1000_0000 != 0 ==> access & 0x5001_0006 != 0) && (access == 0 ==> access
        & 0x9000_0001 == 0 && access & 0x120089 == 0 && access & 0x5001_0006 == 0) && (access == 1 || access == 0x8000_0000
        ==> access & 0x5001_0006 == 0)) by (bit_vector);
}

/// A close takes away the handle that its words name and leaves every other; the write
/// time it sets is the one in bytes 2 to 5, unless that is all zeros or all ones.
pub proof fn law_close_is_about_its_handle(
    c0: &ConnState,
    c1: &ConnState,
    req: &Request,
    r: (Vec<RespBody>, ClosePlan),
    other: u16,
)
    requires
        closed(c0, c1, req, r),
        req.words().len() >= 6,
    ensures
        ({
            let fid = little(req.words(), 0, 2) as u16;
            let t = little(req.words(), 2, 4);
            &&& !c1.handles@.dom().contains(fid)
            &&& r.1.handle is Some <==> c0.handles@.dom().contains(fid)
            &&& r.1.handle matches Some(h) ==> h == c0.handles@[fid]
            &&& other != fid ==> c1.handles@.dom().contains(other) == c0.handles@.dom().contains(other)
                && c1.handles@[other] == c0.handles@[other]
            &&& c1.trees@ == c0.trees@ && c1.uid == c0.uid
            &&& c0.handles@.dom().contains(fid) && 0 < t < 0xFFFF_FFFF ==> r.1.write_time == Some(
                ((t + 11_644_473_600) * 10_000_000) as u64,
            )
            &&& t == 0 || t == 0xFFFF_FFFF ==> r.1.write_time is None
        }),
{
    lemma_little(req.words(), 0);
    lemma_little(req.words(), 2);
}

/// A flush writes back the file that its words name, where it is open, or all files where
/// they name them all.
pub proof fn law_flush_is_about_its_handle(conn: &ConnState, req: &Request, r: (Vec<RespBody>, FlushPlan))
    requires
        flush_planned(conn, req, r),
        req.words().len() >= 2,
    ensures
        ({
            let fid = little(req.words(), 0, 2) as u16;
            &&& r.1 == FlushPlan::All <==> fid == 0xFFFF
            &&& fid != 0xFFFF && conn.handles@.dom().contains(fid) && conn.handles@[fid].has_file ==> r.1
                == FlushPlan::One(fid)
            &&& fid != 0xFFFF && !conn.handles@.dom().contains(fid) ==> r.1 == FlushPlan::Nothing
        }),
{
    lemma_little(req.words(), 0);
}

/// A seek moves the pointer of the file that its words name, by the signed distance in
/// bytes 4 to 7: from the start, from where it is, or from the end, as the low bits of
/// bytes 2 and 3 say.
pub proof fn law_seek_is_about_its_handle(conn: &ConnState, req: &Request, r: Result<(u16, SeekFrom), Status>)
    requires
        seek_planned(conn, req, r),
        req.words().len() >= 8,
    ensures
        ({
            let w = req.words();
            let fid = little(w, 0, 2) as u16;
            let mode = w[2] % 4;
            let off = little(w, 4, 4);
            &&& r is Ok <==> conn.handles@.dom().contains(fid) && conn.handles@[fid].has_file
            &&& r matches Ok((f, from)) ==> {
                &&& f == fid
                &&& mode == 0 <==> from is Start
                &&& mode == 1 <==> from is Current
                &&& mode == 2 || mode == 3 <==> from is End
                &&& mode == 0 && off < 0x8000_0000 ==> from == SeekFrom::Start(off as u64)
                &&& mode == 1 && off < 0x8000_0000 ==> from == SeekFrom::Current(off as i64)
                &&& mode == 1 && off >= 0x8000_0000 ==> from == SeekFrom::Current((off - 0x1_0000_0000) as i64)
                &&& mode == 2 && off < 0x8000_0000 ==> from == SeekFrom::End(off as i64)
                &&& mode == 2 && off >= 0x8000_0000 ==> from == SeekFrom::End((off - 0x1_0000_0000) as i64)
            }
        }),
{
    let w = req.words();
    lemma_little(w, 0);
    lemma_little(w, 4);
    let m = u16_at(w, 2);
    assert(m & 3 == m % 4) by (bit_vector);
    assert(m % 4 == (w[2] % 4) as u16);
}

/// A file that was opened is found under the id that the answer tells, at the path it was
/// opened at and with the rights that were granted; every other handle stays. The answer
/// tells its size.
pub proof fn law_opened_file_is_recorded(
    c0: &ConnState,
    c1: &ConnState,
    i0: &Ids,
    i1: &Ids,
    path: String,
    plan: CreatePlan,
    st: FileStat,
    bodies: Seq<RespBody>,
    other: u16,
)
    requires
        file_opened(c0, c1, i0, i1, path, plan, st, bodies),
    ensures
        ({
            let w = bodies[0]@.params;
            let fid = little(w, 5, 2) as u16;
            &&& fid != 0xFFFF
            &&& c1.handles@.dom().contains(fid)
            &&& c1.handles@[fid].path@ == path@ && c1.handles@[fid].has_file && !c1.handles@[fid].is_dir
            &&& c1.handles@[fid].access_read == plan.read && c1.handles@[fid].access_write == plan.write
            &&& c1.handles@[fid].delete_on_close == plan.delete_on_close && c1.handles@[fid].pos == 0
            &&& other != fid ==> c1.handles@.dom().contains(other) == c0.handles@.dom().contains(other)
                && c1.handles@[other] == c0.handles@[other]
            &&& little(w, 7, 4) == plan.action
            &&& little(w, 55, 8) == st.len
            &&& w[67] == 0
        }),
{
    let fid = next_not_all_ones(i0.fid);
    let alloc = rounded(st.len as int, 512) as u64;
    lemma_only_body(
        bodies,
        plain_body(
            COM_NT_CREATE_ANDX,
            create_words(fid, plan.action, stat_times(st), stat_attrs(st), alloc, st.len, 0),
            Seq::empty(),
        ),
    );
    law_opened_fields(fid, plan.action, stat_times(st), stat_attrs(st), alloc, st.len, 0);
}

/// A directory that was opened is found under the id that the answer tells, and cannot be
/// written; what is no directory is refused, and leaves nothing behind.
pub proof fn law_opened_directory_is_recorded(
    c0: &ConnState,
    c1: &ConnState,
    i0: &Ids,
    i1: &Ids,
    path: String,
    delete_on_close: bool,
    st: Option<FileStat>,
    r: Result<Vec<RespBody>, Status>,
)
    requires
        directory_opened(c0, c1, i0, i1, path, delete_on_close, st, r),
    ensures
        r is Ok <==> (st matches Some(s) && s.is_dir),
        r is Err ==> *c1 == *c0 && *i1 == *i0,
        r matches Ok(v) ==> {
            let w = v@[0]@.params;
            let fid = little(w, 5, 2) as u16;
            &&& fid != 0xFFFF
            &&& c1.handles@.dom().contains(fid)
            &&& c1.handles@[fid].path@ == path@ && c1.handles@[fid].is_dir && !c1.handles@[fid].access_write
            &&& c1.handles@[fid].delete_on_close == delete_on_close
            &&& w[67] == 1
        },
{
    if r is Ok {
        let s = st->0;
        let fid = next_not_all_ones(i0.fid);
        let alloc = rounded(s.len as int, 512) as u64;
        lemma_only_body(
            r->Ok_0@,
            plain_body(
                COM_NT_CREATE_ANDX,
                create_words(fid, 1, stat_times(s), ATTR_DIRECTORY, alloc, 0, 1),
                Seq::empty(),
            ),
        );
        law_opened_fields(fid, 1, stat_times(s), ATTR_DIRECTORY, alloc, 0, 1);
    }
}

} // verus!
