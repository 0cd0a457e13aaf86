//! The older dialect served from a storage backend: the requests of a frame, the
//! switch to the newer dialects, and the commands on paths and open files.
use vstd::prelude::*;
use vstd::slice::slice_subrange;
use crate::bytes::{find_bytes, get_u16, get_u32, le16, le32, lemma_little, lemma_little_written, little, put_u16, put_u32, put_zeros, stands_at, u16_at, u32_at, zeros};
use crate::calendar::{dos_stamp_of, packs};
use crate::dirops::behind_format;
use crate::handlers::{empty_body, lemma_zstring_end, one_body};
use crate::message::{body_views, has_header, header_of, lemma_only_body, parse_header, plain_body, RespBody, SmbHeader, HDR_LEN};
use crate::files::words_only;
use crate::query2::{trim_trailing_slashes, without_trailing};
use crate::smb::{even_start, lemma_string_at, read_back, string_at, unix_of, zstring_bytes, zstring_end, zstring_text, Rd, Status, ATTR_READONLY, CAP_INFOLEVEL_PASSTHRU, CAP_LARGE_FILES, CAP_LARGE_READX, CAP_LARGE_WRITEX, CAP_LEVEL2_OPLOCKS, CAP_LOCK_AND_READ, CAP_NT_FIND, CAP_NT_SMBS, CAP_STATUS32, CAP_UNICODE, COM_DELETE, COM_NEGOTIATE, COM_QUERY_INFORMATION, FLAGS2_UNICODE, SMB_MAGIC};
use crate::text::{concat, text_has};
use crate::trans2::{get_whole_u64, has_wildcards, low32, whole_u64};
use crate::vfs::{vfs_err, vfs_status, FileMeta, SetOp, VfsError};
use crate::wildcard::{dir_cmds_split, law_pattern_is_split_behind_its_last_slash, lemma_last_slash, lemma_leading_are_slashes, pattern_split, trim_leading_slashes, without_leading};

verus! {

// ---------------- frames ----------------

/// How a frame is treated.
#[derive(Clone, Copy, PartialEq, Eq, Structural, Debug)]
pub enum FrameKind {
    /// Too short to be anything.
    Ignored,
    /// A message of the older dialect.
    Plain1,
    /// A message of the newer dialects, encrypted or not.
    Message2,
    /// A compressed message of the newer dialects.
    Compressed2,
}

/// How a frame is treated: by its first byte, and by whether the connection has
/// switched to the newer dialects.
pub open spec fn frame_kind(f: Seq<u8>, upgraded: bool) -> FrameKind {
    if f.len() < 4 {
        FrameKind::Ignored
    } else if f[0] == 0xFC {
        FrameKind::Compressed2
    } else if f[0] == 0xFE || f[0] == 0xFD || upgraded {
        FrameKind::Message2
    } else {
        FrameKind::Plain1
    }
}

/// Tells how a frame is treated.
pub fn classify(f: &[u8], upgraded: bool) -> (k: FrameKind)
    ensures
        k == frame_kind(f@, upgraded),
{
    if f.len() < 4 {
        FrameKind::Ignored
    } else if f[0] == 0xFC {
        FrameKind::Compressed2
    } else if f[0] == 0xFE || f[0] == 0xFD || upgraded {
        FrameKind::Message2
    } else {
        FrameKind::Plain1
    }
}

/// Whether a response is compressed.
pub open spec fn compressed(agreed: bool, resp: Seq<u8>) -> bool {
    agreed && resp.len() > 1024 && resp[0] != 0xFD
}

/// Whether a response is to be compressed: compression is agreed on, the response is
/// long enough, and it is not sealed.
pub fn wants_compression(agreed: bool, resp: &[u8]) -> (r: bool)
    ensures
        r == compressed(agreed, resp@),
{
    agreed && resp.len() > 1024 && resp[0] != 0xFD
}

/// Whether bytes occur in a buffer.
pub open spec fn occurs(buf: Seq<u8>, pat: Seq<u8>) -> bool {
    exists|i: int| #[trigger] stands_at(buf, pat, i)
}

/// Whether a message of the older dialect asks for the newer ones: a negotiation that
/// offers a dialect "SMB 2.", or that has the newer protocol id in it.
pub open spec fn asks_upgrade(buf: Seq<u8>) -> bool {
    has_header(buf) && buf[4] == COM_NEGOTIATE && (occurs(buf, seq![0xFEu8, 0x53, 0x4D, 0x42]) || occurs(
        buf,
        seq![0x53u8, 0x4D, 0x42, 0x20, 0x32, 0x2E],
    ))
}

/// Tells whether a message of the older dialect asks for the newer ones.
pub fn is_upgrade(buf: &[u8]) -> (r: bool)
    ensures
        r == asks_upgrade(buf@),
{
    match parse_header(buf) {
        None => false,
        Some((h, _)) => {
            if h.command != COM_NEGOTIATE {
                return false;
            }
            let id: [u8; 4] = [0xFE, 0x53, 0x4D, 0x42];
            let name: [u8; 6] = [0x53, 0x4D, 0x42, 0x20, 0x32, 0x2E];
            assert(id@ =~= seq![0xFEu8, 0x53, 0x4D, 0x42]);
            assert(name@ =~= seq![0x53u8, 0x4D, 0x42, 0x20, 0x32, 0x2E]);
            find_bytes(buf, id.as_slice()).is_some() || find_bytes(buf, name.as_slice()).is_some()
        },
    }
}

// ---------------- the requests of a frame ----------------

/// One request inside a frame.
#[derive(Debug)]
pub struct ReqView<'a> {
    /// The header of the frame.
    pub hdr: SmbHeader,
    /// How many words the request has.
    pub wct: usize,
    pub words: &'a [u8],
    /// What follows the byte count, up to the end of the frame.
    pub data: &'a [u8],
    /// Where the byte count stands.
    pub bc_off_abs: usize,
    pub frame: &'a [u8],
}

/// Whether a whole request stands at an offset.
pub open spec fn request_at(buf: Seq<u8>, off: int) -> bool {
    off < buf.len() && off + 3 + 2 * buf[off] <= buf.len()
}

/// Where the request behind one stands; none where there is none.
pub open spec fn successor(buf: Seq<u8>, off: int) -> Option<int> {
    let n = buf[off];
    let next = if n >= 2 {
        u16_at(buf, off + 3) as int
    } else {
        0
    };
    if n > 0 && buf[off + 1] != 0xFF && next > off && next < buf.len() {
        Some(next)
    } else {
        None
    }
}

/// Where the requests of a frame stand, from an offset on.
pub open spec fn request_offsets(buf: Seq<u8>, off: int) -> Seq<int>
    decreases buf.len() - off,
{
    if off < 0 || !request_at(buf, off) {
        Seq::empty()
    } else {
        match successor(buf, off) {
            Some(next) => if off < next < buf.len() {
                seq![off] + request_offsets(buf, next)
            } else {
                seq![off]
            },
            None => seq![off],
        }
    }
}

/// Whether this is the request at an offset.
pub open spec fn is_view(v: ReqView, buf: Seq<u8>, off: int) -> bool {
    let n = buf[off] as int;
    &&& v.hdr == header_of(buf)
    &&& v.wct == n
    &&& v.words@ == buf.subrange(off + 1, off + 1 + 2 * n)
    &&& v.data@ == buf.subrange(off + 3 + 2 * n, buf.len() as int)
    &&& v.bc_off_abs == off + 1 + 2 * n
    &&& v.frame@ == buf
}

/// Whether these are the requests of a frame.
pub open spec fn views_of(buf: Seq<u8>, r: Option<Vec<ReqView>>) -> bool {
    if has_header(buf) {
        let at = request_offsets(buf, HDR_LEN as int);
        r matches Some(v) && v@.len() == at.len() && forall|i: int|
            0 <= i < at.len() ==> is_view(#[trigger] v@[i], buf, at[i])
    } else {
        r is None
    }
}

/// Reads the requests of a frame; none where it has no header.
pub fn request_views<'a>(buf: &'a [u8]) -> (r: Option<Vec<ReqView<'a>>>)
    ensures
        views_of(buf@, r),
{
    let (hdr, start) = match parse_header(buf) {
        Some(p) => p,
        None => return None,
    };
    let n: usize = buf.len();
    let mut v: Vec<ReqView<'a>> = Vec::new();
    let mut off: usize = start;
    let ghost at = request_offsets(buf@, HDR_LEN as int);
    assert(at =~= Seq::<int>::empty() + request_offsets(buf@, off as int));
    let mut more: bool = true;
    while more
        invariant
            n == buf@.len(),
            hdr == header_of(buf@),
            at == request_offsets(buf@, HDR_LEN as int),
            v@.len() <= at.len(),
            forall|i: int| 0 <= i < v@.len() ==> is_view(#[trigger] v@[i], buf@, at[i]),
            more ==> off < n && at == at.take(v@.len() as int) + request_offsets(buf@, off as int),
            !more ==> at.len() == v@.len(),
        decreases (if more {
            n - off + 1
        } else {
            0
        }),
    {
        let w: usize = buf[off] as usize;
        let ghost rest = request_offsets(buf@, off as int);
        let ghost k = v@.len() as int;
        if n - off < 3 + 2 * w {
            assert(rest =~= Seq::<int>::empty());
            more = false;
        } else {
            let words = slice_subrange(buf, off + 1, off + 1 + 2 * w);
            let data = slice_subrange(buf, off + 3 + 2 * w, n);
            v.push(ReqView { hdr, wct: w, words, data, bc_off_abs: off + 1 + 2 * w, frame: buf });
            assert(at[k] == rest[0]);
            assert(rest[0] == off);
            let next: usize = if w >= 2 {
                get_u16(buf, off + 3) as usize
            } else {
                0
            };
            if w > 0 && buf[off + 1] != 0xFF && next > off && next < n {
                assert(at.take(k + 1) =~= at.take(k).push(off as int));
                assert(at =~= at.take(k + 1) + request_offsets(buf@, next as int));
                off = next;
            } else {
                assert(rest =~= seq![off as int]);
                more = false;
            }
        }
    }
    Some(v)
}

impl<'a> ReqView<'a> {
    /// Whether the request is in Unicode.
    pub open spec fn is_unicode(&self) -> bool {
        self.hdr.flags2 & FLAGS2_UNICODE != 0
    }

    /// The command that follows.
    pub open spec fn follows(&self) -> Option<u8> {
        if self.wct < 2 || self.words@.len() == 0 || self.words@[0] == 0xFF {
            None
        } else {
            Some(self.words@[0])
        }
    }

    /// Where the command that follows stands.
    pub open spec fn follows_at(&self) -> Option<usize> {
        if self.wct < 3 || self.follows() is None || self.words@.len() < 4 {
            None
        } else {
            Some(u16_at(self.words@, 2) as usize)
        }
    }

    /// Whether the offsets of the request can be computed with.
    pub open spec fn addressable(&self) -> bool {
        self.bc_off_abs + 2 + 2 * self.data@.len() + 4 < usize::MAX
    }

    /// Whether the request is in Unicode.
    pub fn unicode(&self) -> (u: bool)
        ensures
            u == self.is_unicode(),
    {
        self.hdr.flags2 & FLAGS2_UNICODE != 0
    }

    /// The command that follows, where the chain goes on.
    pub fn andx_command(&self) -> (c: Option<u8>)
        ensures
            c == self.follows(),
    {
        if self.wct < 2 || self.words.len() == 0 || self.words[0] == 0xFF {
            None
        } else {
            Some(self.words[0])
        }
    }

    /// Where the command that follows stands.
    pub fn andx_offset(&self) -> (o: Option<usize>)
        ensures
            o == self.follows_at(),
    {
        if self.wct < 3 || self.andx_command().is_none() || self.words.len() < 4 {
            None
        } else {
            Some(get_u16(self.words, 2) as usize)
        }
    }
}

/// The capabilities of the server.
pub open spec fn server_caps() -> u32 {
    CAP_UNICODE | CAP_LARGE_FILES | CAP_NT_SMBS | CAP_STATUS32 | CAP_LEVEL2_OPLOCKS | CAP_LOCK_AND_READ | CAP_NT_FIND
        | CAP_INFOLEVEL_PASSTHRU | CAP_LARGE_READX | CAP_LARGE_WRITEX
}

/// The capabilities of the server.
pub fn our_caps() -> (c: u32)
    ensures
        c == server_caps(),
{
    CAP_UNICODE | CAP_LARGE_FILES | CAP_NT_SMBS | CAP_STATUS32 | CAP_LEVEL2_OPLOCKS | CAP_LOCK_AND_READ | CAP_NT_FIND
        | CAP_INFOLEVEL_PASSTHRU | CAP_LARGE_READX | CAP_LARGE_WRITEX
}

// ---------------- paths ----------------

/// The path that a request names.
pub open spec fn path_named(v: ReqView) -> Seq<char> {
    zstring_text(v.data@, behind_format(v.data@, 0), v.is_unicode(), v.bc_off_abs + 2)
}

/// Where the first of two paths starts: behind a format byte, or at an even offset.
pub open spec fn first_start(v: ReqView) -> int {
    let d = v.data@;
    if d.len() > 0 && d[0] == 0x04 {
        1
    } else if v.is_unicode() && (v.bc_off_abs + 2) % 2 != 0 && d.len() > 0 {
        1
    } else {
        0
    }
}

/// The two paths that a request names.
pub open spec fn paths_named(v: ReqView) -> (Seq<char>, Seq<char>) {
    let d = v.data@;
    let u = v.is_unicode();
    let base = v.bc_off_abs + 2;
    let p = zstring_end(d, first_start(v), u, base);
    let q = if p >= d.len() {
        p
    } else if u {
        behind_format(d, even_start(d, p, base))
    } else {
        behind_format(d, p)
    };
    (zstring_text(d, first_start(v), u, base), zstring_text(d, q, u, base + q))
}

/// Reads the path that a request names.
pub fn read_path(v: &ReqView) -> (s: String)
    requires
        v.addressable(),
    ensures
        s@ == path_named(*v),
{
    let mut rd = Rd::new(v.data, 0);
    if v.data.len() > 0 && v.data[0] == 0x04 {
        rd.skip(1);
    }
    rd.zstring(v.unicode(), v.bc_off_abs + 2)
}

/// Reads the two paths that a request names.
pub fn read_two_paths(v: &ReqView) -> (r: (String, String))
    requires
        v.addressable(),
    ensures
        r.0@ == paths_named(*v).0,
        r.1@ == paths_named(*v).1,
{
    let d = v.data;
    let base: usize = v.bc_off_abs + 2;
    let unicode: bool = v.unicode();
    let start: usize = if d.len() > 0 && d[0] == 0x04 {
        1
    } else if unicode && base % 2 != 0 && d.len() > 0 {
        1
    } else {
        0
    };
    let mut rd = Rd::new(d, start);
    let a = rd.zstring(unicode, base);
    proof {
        lemma_zstring_end(d@, start as int, unicode, base as int);
    }
    if rd.pos < d.len() {
        if unicode && (base + rd.pos) % 2 != 0 {
            rd.skip(1);
        }
        if rd.pos < d.len() && d[rd.pos] == 0x04 {
            rd.skip(1);
        }
    }
    let p: usize = rd.pos;
    let b = rd.zstring(unicode, base + p);
    (a, b)
}

/// A name below a base path.
pub open spec fn below(base: Seq<char>, name: Seq<char>) -> Seq<char> {
    if base.len() == 0 {
        without_leading(name)
    } else {
        without_trailing(base) + "\\"@ + without_leading(name)
    }
}

/// Joins a name to a base path.
pub fn join_rel(base: &str, name: &str) -> (r: String)
    ensures
        r@ == below(base@, name@),
{
    let n = trim_leading_slashes(name);
    if base.unicode_len() == 0 {
        n
    } else {
        let a = trim_trailing_slashes(base);
        let b = concat(a.as_str(), "\\");
        concat(b.as_str(), n.as_str())
    }
}

/// Whether a command is answered with its success alone, or refused.
pub open spec fn acknowledged(r: Result<Vec<RespBody>, Status>, command: u8, failed: Option<VfsError>) -> bool {
    match failed {
        None => r matches Ok(b) && body_views(b@) == seq![plain_body(command, Seq::empty(), Seq::empty())],
        Some(e) => r matches Err(s) && s == vfs_status(e),
    }
}

/// Answers a command that has nothing to say but that it succeeded: making, removing or
/// looking for a directory.
pub fn finish_path(command: u8, failed: Option<VfsError>) -> (r: Result<Vec<RespBody>, Status>)
    ensures
        acknowledged(r, command, failed),
{
    match failed {
        None => Ok(one_body(empty_body(command))),
        Some(e) => Err(vfs_err(&e)),
    }
}

/// What a delete asks of the backend.
#[derive(Debug)]
pub enum DeleteStep {
    /// One file is removed.
    Unlink(String),
    /// What the pattern finds in a directory is removed.
    Pattern { dir: String, pattern: String },
}

/// Whether this is what a delete asks of the backend.
pub open spec fn deletes(path: Seq<char>, s: DeleteStep) -> bool {
    let parts = pattern_split(path);
    if has_wildcards(parts.1) {
        s matches DeleteStep::Pattern { dir, pattern } && dir@ == parts.0 && pattern@ == parts.1
    } else {
        s matches DeleteStep::Unlink(p) && p@ == below(parts.0, parts.1)
    }
}

/// Plans a delete: of one file, or of all that a pattern finds.
pub fn delete(v: &ReqView) -> (s: DeleteStep)
    requires
        v.addressable(),
    ensures
        deletes(path_named(*v), s),
{
    let path = read_path(v);
    let (dir, pattern) = dir_cmds_split(path.as_str());
    if text_has(pattern.as_str(), '*') || text_has(pattern.as_str(), '?') {
        DeleteStep::Pattern { dir, pattern }
    } else {
        DeleteStep::Unlink(join_rel(dir.as_str(), pattern.as_str()))
    }
}

/// How a delete is answered.
pub open spec fn delete_finished(deleted: Result<bool, VfsError>, r: Result<Vec<RespBody>, Status>) -> bool {
    match deleted {
        Ok(true) => acknowledged(r, COM_DELETE, None),
        Ok(false) => r matches Err(s) && s == Status::NO_SUCH_FILE,
        Err(e) => acknowledged(r, COM_DELETE, Some(e)),
    }
}

/// Answers a delete: `deleted` tells whether anything was removed.
pub fn finish_delete(deleted: Result<bool, VfsError>) -> (r: Result<Vec<RespBody>, Status>)
    ensures
        delete_finished(deleted, r),
{
    match deleted {
        Ok(d) => {
            if d {
                Ok(one_body(empty_body(COM_DELETE)))
            } else {
                Err(Status::NO_SUCH_FILE)
            }
        },
        Err(e) => Err(vfs_err(&e)),
    }
}

/// How a rename goes on.
pub open spec fn rename_planned(v: ReqView, r: Result<(String, String), Status>) -> bool {
    if paths_named(v).1.len() == 0 {
        r matches Err(s) && s == Status::INVALID_PARAMETER
    } else {
        r matches Ok(p) && p.0@ == paths_named(v).0 && p.1@ == paths_named(v).1
    }
}

/// Plans a rename: the old path and the new one, which must not be empty.
pub fn rename(v: &ReqView) -> (r: Result<(String, String), Status>)
    requires
        v.addressable(),
    ensures
        rename_planned(*v, r),
{
    let (a, b) = read_two_paths(v);
    if b.as_str().unicode_len() == 0 {
        Err(Status::INVALID_PARAMETER)
    } else {
        Ok((a, b))
    }
}

// ---------------- information ----------------

/// The attributes that older clients are told.
pub open spec fn old_attrs(m: FileMeta) -> u16 {
    if m.is_dir {
        0x10
    } else if m.attrs & ATTR_READONLY != 0 {
        0x21
    } else {
        0x20
    }
}

/// The words of the answer: attributes, packed time and size.
pub open spec fn legacy_words(m: FileMeta, stamp: u32) -> Seq<u8> {
    le16(old_attrs(m)) + le32(stamp) + le32(low32(m.eof as int)) + zeros(10)
}

/// Whether attributes, time of the last write and size are answered.
pub open spec fn legacy_told(found: Result<FileMeta, VfsError>, r: Result<Vec<RespBody>, Status>) -> bool {
    match found {
        Err(e) => r matches Err(s) && s == vfs_status(e),
        Ok(m) => exists|stamp: u32|
            packs(stamp, unix_of(m.times[2]).0 as int) && (r matches Ok(b) && body_views(b@) == seq![
                plain_body(COM_QUERY_INFORMATION, #[trigger] legacy_words(m, stamp), Seq::empty()),
            ]),
    }
}

/// Answers with attributes, time of the last write and size.
pub fn query_info_legacy(found: Result<FileMeta, VfsError>) -> (r: Result<Vec<RespBody>, Status>)
    ensures
        legacy_told(found, r),
{
    match found {
        Err(e) => Err(vfs_err(&e)),
        Ok(m) => {
            let stamp: u32 = dos_stamp_of(m.times[2]);
            let attrs: u16 = if m.is_dir {
                0x10
            } else if m.attrs & ATTR_READONLY != 0 {
                0x21
            } else {
                0x20
            };
            let mut p: Vec<u8> = Vec::new();
            put_u16(&mut p, attrs);
            assert(p@ =~= le16(old_attrs(m)));
            put_u32(&mut p, stamp);
            put_u32(&mut p, (m.eof % 0x1_0000_0000) as u32);
            put_zeros(&mut p, 10);
            assert(p@ == legacy_words(m, stamp));
            Ok(one_body(words_only(COM_QUERY_INFORMATION, p)))
        },
    }
}

/// The last-write time that is set; none where it stays.
pub open spec fn write_time(w: Seq<u8>) -> Option<u64> {
    let t = u32_at(w, 2);
    if w.len() < 6 || t == 0 || t == u32::MAX {
        None
    } else {
        Some(((t + 11_644_473_600) * 10_000_000) as u64)
    }
}

/// Plans a change of the last-write time.
pub fn set_info_legacy(v: &ReqView) -> (t: Option<u64>)
    ensures
        t == write_time(v.words@),
{
    if v.words.len() < 6 {
        return None;
    }
    let t: u32 = get_u32(v.words, 2);
    if t == 0 || t == u32::MAX {
        None
    } else {
        Some((t as u64 + 11_644_473_600) * 10_000_000)
    }
}

/// The change that a level of the older dialect asks for.
pub open spec fn set_op(level: u16, d: Seq<u8>) -> Result<SetOp, Status> {
    if level == 0x101 || level == 0x1004 {
        let t = whole_u64(d, 16);
        Ok(
            SetOp::Basic {
                write: if t != 0 && t != u64::MAX {
                    Some(t)
                } else {
                    None
                },
            },
        )
    } else if level == 0x103 || level == 0x100B {
        Ok(SetOp::Allocation(whole_u64(d, 0)))
    } else if level == 0x104 || level == 0x100C {
        Ok(SetOp::EndOfFile(whole_u64(d, 0)))
    } else if level == 0x102 || level == 0x100D {
        Ok(SetOp::Disposition { delete: d.len() > 0 && d[0] != 0 })
    } else {
        Err(Status::INVALID_PARAMETER)
    }
}

/// Reads the change that a level of the older dialect asks for.
pub fn decode_set_op(level: u16, d: &[u8]) -> (r: Result<SetOp, Status>)
    ensures
        r == set_op(level, d@),
{
    if level == 0x101 || level == 0x1004 {
        let t: u64 = get_whole_u64(d, 16);
        Ok(
            SetOp::Basic {
                write: if t != 0 && t != u64::MAX {
                    Some(t)
                } else {
                    None
                },
            },
        )
    } else if level == 0x103 || level == 0x100B {
        Ok(SetOp::Allocation(get_whole_u64(d, 0)))
    } else if level == 0x104 || level == 0x100C {
        Ok(SetOp::EndOfFile(get_whole_u64(d, 0)))
    } else if level == 0x102 || level == 0x100D {
        Ok(SetOp::Disposition { delete: d.len() > 0 && d[0] != 0 })
    } else {
        Err(Status::INVALID_PARAMETER)
    }
}

// ---------------- locks ----------------

/// Whether a lock or unlock is answered.
pub open spec fn lock_accepted(command: u8, b: Seq<RespBody>) -> bool {
    body_views(b) == seq![plain_body(command, seq![0xFFu8, 0, 0, 0], Seq::empty())]
}

/// Answers a lock or unlock of a range: accepted, and not enforced.
pub fn locking(command: u8) -> (b: Vec<RespBody>)
    ensures
        lock_accepted(command, b@),
{
    let mut p: Vec<u8> = Vec::new();
    p.push(0xFF);
    p.push(0);
    p.push(0);
    p.push(0);
    assert(p@ =~= seq![0xFFu8, 0, 0, 0]);
    one_body(words_only(command, p))
}

// ---------------- the backend of the pipe share ----------------

/// An operation of a storage backend.
#[derive(Clone, Copy, PartialEq, Eq, Structural, Debug)]
pub enum Operation {
    Create,
    Read,
    Write,
    Seek,
    Flush,
    FlushAll,
    Close,
    MakeDir,
    RemoveDir,
    CheckDir,
    Unlink,
    DeletePattern,
    Rename,
    List,
    Stat,
    SetInfo,
    QueryDisk,
}

/// What the backend of trees that lead to no share answers.
pub open spec fn ipc_answer(op: Operation) -> Result<(), VfsError> {
    match op {
        Operation::Flush | Operation::FlushAll | Operation::Close => Ok(()),
        Operation::CheckDir | Operation::Stat => Err(VfsError::NotFound),
        Operation::Seek | Operation::QueryDisk => Err(VfsError::NotSupported),
        _ => Err(VfsError::AccessDenied),
    }
}

/// The backend of trees that lead to no share: it flushes and closes, and refuses
/// everything else.
#[derive(Clone, Copy, Debug)]
pub struct IpcVfs;

impl IpcVfs {
    /// Whether an operation is carried out, or why not.
    pub fn answer(self, op: Operation) -> (r: Result<(), VfsError>)
        ensures
            r == ipc_answer(op),
    {
        match op {
            Operation::Flush | Operation::FlushAll | Operation::Close => Ok(()),
            Operation::CheckDir | Operation::Stat => Err(VfsError::NotFound),
            Operation::Seek | Operation::QueryDisk => Err(VfsError::NotSupported),
            _ => Err(VfsError::AccessDenied),
        }
    }
}

// ---------------- laws ----------------

/// A frame is told apart by its first byte: one that opens with the id of the newer
/// dialects, sealed or not, is theirs whether or not the connection has switched; a
/// connection that has switched never goes back.
pub proof fn law_frames_are_told_apart(f: Seq<u8>, upgraded: bool)
    requires
        f.len() >= 4,
    ensures
        frame_kind(f, upgraded) != FrameKind::Ignored,
        f[0] == 0xFF ==> (frame_kind(f, upgraded) == FrameKind::Plain1 <==> !upgraded),
        f[0] == 0xFE || f[0] == 0xFD ==> frame_kind(f, upgraded) == FrameKind::Message2,
        f[0] == 0xFC ==> frame_kind(f, upgraded) == FrameKind::Compressed2,
        upgraded ==> frame_kind(f, upgraded) != FrameKind::Plain1,
        frame_kind(f.take(3), upgraded) == FrameKind::Ignored,
{
}

/// Only a negotiation leads to the newer dialects: one that names them anywhere.
pub proof fn law_upgrade_is_asked_for(buf: Seq<u8>, i: int)
    ensures
        asks_upgrade(buf) ==> buf.len() > 32 && buf[0] == 0xFF && buf[4] == 0x72,
        has_header(buf) && buf[4] == 0x72 && 0 <= i && i + 6 <= buf.len() && buf.subrange(i, i + 6) == seq![
            0x53u8,
            0x4D,
            0x42,
            0x20,
            0x32,
            0x2E,
        ] ==> asks_upgrade(buf),
        has_header(buf) && buf[4] == 0x72 && 0 <= i && i + 4 <= buf.len() && buf.subrange(i, i + 4) == seq![
            0xFEu8,
            0x53,
            0x4D,
            0x42,
        ] ==> asks_upgrade(buf),
{
    let a = seq![0x53u8, 0x4D, 0x42, 0x20, 0x32, 0x2E];
    let b = seq![0xFEu8, 0x53, 0x4D, 0x42];
    if 0 <= i && i + 6 <= buf.len() && buf.subrange(i, i + 6) == a {
        assert(stands_at(buf, a, i));
    }
    if 0 <= i && i + 4 <= buf.len() && buf.subrange(i, i + 4) == b {
        assert(stands_at(buf, b, i));
    }
    if asks_upgrade(buf) {
        assert(SMB_MAGIC@[0] == 0xFF);
    }
}

/// A response is compressed only where that is agreed on, and never where it is sealed or
/// short.
pub proof fn law_sealed_responses_stay_as_they_are(agreed: bool, resp: Seq<u8>)
    ensures
        compressed(agreed, resp) ==> agreed && resp.len() > 1024,
        resp.len() > 0 && resp[0] == 0xFD ==> !compressed(agreed, resp),
        agreed && resp.len() > 1024 && resp[0] == 0xFE ==> compressed(agreed, resp),
{
}

#[verifier::rlimit(40)]
#[verifier::spinoff_prover]
proof fn lemma_offsets_linked(buf: Seq<u8>, off: int, i: int)
    requires
        0 <= off,
    ensures
        ({
            let at = request_offsets(buf, off);
            &&& at.len() > 0 <==> request_at(buf, off)
            &&& at.len() > 0 ==> at[0] == off
            &&& 0 <= i < at.len() ==> off <= at[i] && request_at(buf, at[i])
            &&& 0 <= i < at.len() - 1 ==> successor(buf, at[i]) == Some(at[i + 1])
            &&& at.len() > 0 && i == at.len() - 1 ==> (successor(buf, at[i]) is None || !request_at(
                buf,
                successor(buf, at[i])->0,
            ))
        }),
    decreases buf.len() - off,
{
    if request_at(buf, off) {
        match successor(buf, off) {
            Some(next) => {
                lemma_offsets_linked(buf, next, i - 1);
                lemma_offsets_linked(buf, next, 0);
                let rest = request_offsets(buf, next);
                let at = request_offsets(buf, off);
                assert(at =~= seq![off] + rest);
                assert(forall|k: int| 0 <= k < rest.len() ==> at[k + 1] == rest[k]);
            },
            None => {},
        }
    }
}

/// The requests of a frame are read in the order of their links: the first stands behind
/// the header, each next one where the one before it says, in bytes 3 and 4 from its start;
/// each has the words and the bytes that stand there. The chain ends with a request that
/// links to none.
#[verifier::rlimit(40)]
#[verifier::spinoff_prover]
pub proof fn law_requests_are_read_along_their_links(buf: Seq<u8>, r: Option<Vec<ReqView>>, i: int)
    requires
        views_of(buf, r),
        has_header(buf),
        buf[32] as int * 2 + 35 <= buf.len(),
    ensures
        ({
            &&& r matches Some(v)
            &&& v@.len() > 0
            &&& v@[0].words@ == buf.subrange(33, 33 + 2 * buf[32])
            &&& 0 <= i < v@.len() ==> {
                let off = v@[i].bc_off_abs - 1 - 2 * v@[i].wct;
                &&& 32 <= off < buf.len()
                &&& v@[i].wct == buf[off]
                &&& v@[i].words@ == buf.subrange(off + 1, off + 1 + 2 * buf[off])
                &&& v@[i].data@ == buf.subrange(off + 3 + 2 * buf[off], buf.len() as int)
                &&& v@[i].hdr == header_of(buf)
                &&& i + 1 < v@.len() ==> {
                    let next = v@[i + 1].bc_off_abs - 1 - 2 * v@[i + 1].wct;
                    next == little(buf, off + 3, 2) && next > off && buf[off + 1] != 0xFF
                }
                &&& i + 1 == v@.len() ==> buf[off] < 2 || buf[off + 1] == 0xFF || little(buf, off + 3, 2) <= off || !(
                request_at(buf, little(buf, off + 3, 2)))
            }
        }),
{
    let at = request_offsets(buf, 32);
    lemma_offsets_linked(buf, 32, 0);
    let v = r->0@;
    assert(is_view(v[0], buf, at[0]));
    if 0 <= i < v.len() {
        lemma_offsets_linked(buf, 32, i);
        assert(is_view(v[i], buf, at[i]));
        if at[i] + 5 <= buf.len() {
            lemma_little(buf, at[i] + 3);
        }
        if i + 1 < v.len() {
            assert(is_view(v[i + 1], buf, at[i + 1]));
            lemma_offsets_linked(buf, 32, i + 1);
        }
    }
}

/// The command that follows a request stands in the first byte of its words, unless that
/// is all ones; where it stands, in bytes 2 and 3.
pub proof fn law_following_command(v: ReqView)
    requires
        v.words@.len() == 2 * v.wct,
        v.wct >= 3,
    ensures
        v.words@[0] == 0xFF <==> v.follows() is None,
        v.words@[0] != 0xFF ==> v.follows() == Some(v.words@[0]) && (v.follows_at() matches Some(o) && o == little(v.words@, 2, 2)),
        v.words@[0] == 0xFF ==> v.follows_at() is None,
{
    lemma_little(v.words@, 2);
}

/// The server tells that it speaks Unicode, large files, the commands of NT, statuses of 32
/// bits, and large reads and writes, among others.
pub proof fn law_capabilities_told()
    ensures
        server_caps() == 0xC000_23DC,
{
    assert(0x4u32 | 0x8 | 0x10 | 0x40 | 0x80 | 0x100 | 0x200 | 0x2000 | 0x4000_0000 | 0x8000_0000 == 0xC000_23DC)
        by (bit_vector);
}

/// Whether a request names the path `t`: behind a format byte.
pub open spec fn view_names(v: ReqView, t: Seq<char>) -> bool {
    let d = v.data@;
    d.len() > 0 && d[0] == 0x04 && string_at(d, 1, t, v.is_unicode(), v.bc_off_abs + 2)
}

/// A command on a path is about the path that the client names.
pub proof fn law_path_named_is_read(v: ReqView, t: Seq<char>)
    requires
        view_names(v, t),
    ensures
        path_named(v) == read_back(t, v.is_unicode()),
{
    lemma_string_at(v.data@, 1, t, v.is_unicode(), v.bc_off_abs + 2);
}

/// A rename leads from the first path that the client names to the second; an empty second
/// path is refused.
pub proof fn law_rename_leads_from_first_to_second(v: ReqView, t: Seq<char>, u: Seq<char>, r: Result<(String, String), Status>)
    requires
        rename_planned(v, r),
        v.is_unicode(),
        view_names(v, t),
        ({
            let d = v.data@;
            let base = v.bc_off_abs + 2;
            let p = 1 + zstring_bytes(1, t, true, base).len() as int;
            p < d.len() && d[p] == 0x04 && string_at(d, p + 1, u, true, base + p + 1)
        }),
    ensures
        r is Ok <==> u.len() > 0,
        r matches Ok(p) ==> p.0@ == t && p.1@ == u,
{
    let d = v.data@;
    let base = v.bc_off_abs + 2;
    let p = 1 + zstring_bytes(1, t, true, base).len() as int;
    lemma_string_at(d, 1, t, true, base);
    lemma_string_at(d, p + 1, u, true, base + p + 1);
}

/// A delete removes what the client names: all that a pattern with wildcards finds in its
/// directory, or the one file.
pub proof fn law_delete_removes_what_is_named(path: Seq<char>, name: Seq<char>, s: DeleteStep)
    requires
        deletes(path, s),
        path == name,
        forall|k: int| 0 <= k < name.len() ==> #[trigger] name[k] != '\\' && name[k] != '/',
    ensures
        name.contains('*') || name.contains('?') ==> (s matches DeleteStep::Pattern { dir, pattern } && dir@.len() == 0
            && pattern@ == name),
        !name.contains('*') && !name.contains('?') ==> (s matches DeleteStep::Unlink(p) && p@ == name),
{
    lemma_leading_are_slashes(name);
    assert(without_leading(name) =~= name);
    lemma_last_slash(name, name.len() as int);
    assert(name.subrange(0, name.len() as int) =~= name);
}

/// A delete of a name in a directory is about that name: behind the last slash.
pub proof fn law_delete_is_in_its_directory(front: Seq<char>, name: Seq<char>, s: DeleteStep)
    requires
        deletes(front + name, s),
        forall|k: int| 0 <= k < name.len() ==> #[trigger] name[k] != '\\' && name[k] != '/',
        front.len() > 0 ==> front.last() == '\\' || front.last() == '/',
    ensures
        s is Pattern <==> name.contains('*') || name.contains('?'),
        s matches DeleteStep::Pattern { dir, pattern } ==> pattern@ == name,
{
    law_pattern_is_split_behind_its_last_slash(front, name);
}

/// Success is answered exactly where something was done: a delete that removed nothing is
/// told so.
pub proof fn law_path_commands_report(
    command: u8,
    failed: Option<VfsError>,
    a: Result<Vec<RespBody>, Status>,
    deleted: Result<bool, VfsError>,
    b: Result<Vec<RespBody>, Status>,
)
    requires
        acknowledged(a, command, failed),
        delete_finished(deleted, b),
    ensures
        a is Ok <==> failed is None,
        b is Ok <==> deleted == Ok::<bool, VfsError>(true),
        deleted == Ok::<bool, VfsError>(false) ==> b->Err_0 == Status::NO_SUCH_FILE,
        a matches Ok(v) ==> v@.len() == 1 && v@[0]@.command == command && v@[0]@.params.len() == 0,
{
    if a is Ok {
        lemma_only_body(a->Ok_0@, plain_body(command, Seq::empty(), Seq::empty()));
    }
}

/// Older clients are told the attributes and the size of the file; of a file that is not
/// there, why.
#[verifier::rlimit(40)]
#[verifier::spinoff_prover]
pub proof fn law_old_information_is_that_of_the_file(found: Result<FileMeta, VfsError>, r: Result<Vec<RespBody>, Status>)
    requires
        legacy_told(found, r),
    ensures
        found is Ok <==> r is Ok,
        found matches Ok(m) ==> {
            let w = r->Ok_0@[0]@.params;
            &&& w.len() == 20
            &&& m.is_dir <==> little(w, 0, 2) == 0x10
            &&& !m.is_dir && m.attrs % 2 == 1 ==> little(w, 0, 2) == 0x21
            &&& !m.is_dir && m.attrs % 2 == 0 ==> little(w, 0, 2) == 0x20
            &&& m.eof < 0x1_0000_0000 ==> little(w, 6, 4) == m.eof
        },
{
    match found {
        Ok(m) => {
            let stamp = choose|stamp: u32|
                packs(stamp, unix_of(m.times[2]).0 as int) && (r matches Ok(b) && body_views(b@) == seq![
                    plain_body(COM_QUERY_INFORMATION, #[trigger] legacy_words(m, stamp), Seq::empty()),
                ]);
            let w = legacy_words(m, stamp);
            lemma_only_body(r->Ok_0@, plain_body(COM_QUERY_INFORMATION, w, Seq::empty()));
            let x = m.attrs;
            assert((x & 0x1 != 0) == (x % 2 == 1)) by (bit_vector);
            let a = old_attrs(m);
            let n = low32(m.eof as int);
            assert(w =~= Seq::<u8>::empty() + le16(a) + (le32(stamp) + le32(n) + zeros(10)));
            lemma_little_written(Seq::empty(), a, 0, 0, le32(stamp) + le32(n) + zeros(10));
            assert(w =~= (le16(a) + le32(stamp)) + le32(n) + zeros(10));
            lemma_little_written(le16(a) + le32(stamp), 0, n, 0, zeros(10));
        },
        Err(_) => {},
    }
}

/// The write time that is set is the one in bytes 2 to 5, in seconds since 1970, unless
/// that is all zeros or all ones.
pub proof fn law_write_time_set(w: Seq<u8>)
    ensures
        w.len() < 6 ==> write_time(w) is None,
        w.len() >= 6 && 0 < little(w, 2, 4) < 0xFFFF_FFFF ==> write_time(w) == Some(
            ((little(w, 2, 4) + 11_644_473_600) * 10_000_000) as u64,
        ),
        w.len() >= 6 && (little(w, 2, 4) == 0 || little(w, 2, 4) == 0xFFFF_FFFF) ==> write_time(w) is None,
{
    lemma_little(w, 2);
}

/// A change does what its level stands for, with the value in its data: the size a file is
/// cut to or filled up to, the room it is given, whether it is deleted, when it was written.
pub proof fn law_change_is_the_one_asked_for(level: u16, d: Seq<u8>)
    requires
        d.len() >= 24,
    ensures
        level == 0x104 || level == 0x100C ==> (set_op(level, d) matches Ok(SetOp::EndOfFile(n)) && n == little(d, 0, 8)),
        level == 0x103 || level == 0x100B ==> (set_op(level, d) matches Ok(SetOp::Allocation(n)) && n == little(d, 0, 8)),
        level == 0x102 || level == 0x100D ==> (set_op(level, d) matches Ok(SetOp::Disposition { delete }) && (delete <==> d[0]
            != 0)),
        level == 0x101 || level == 0x1004 ==> (set_op(level, d) matches Ok(SetOp::Basic { write }) && (write matches Some(t)
            ==> t == little(d, 16, 8)) && (write is None <==> little(d, 16, 8) == 0 || little(d, 16, 8)
            == 0xFFFF_FFFF_FFFF_FFFF)),
        set_op(level, d) is Ok <==> 0x101 <= level <= 0x104 || level == 0x1004 || 0x100B <= level <= 0x100D,
{
    lemma_little(d, 0);
    lemma_little(d, 16);
}

/// A lock or unlock is answered under its own command, with nothing behind it in the chain.
pub proof fn law_locks_are_accepted(command: u8, b: Seq<RespBody>)
    requires
        lock_accepted(command, b),
    ensures
        b.len() == 1 && b[0]@.command == command && b[0]@.params.len() == 4 && b[0]@.params[0] == 0xFF
            && b[0]@.bytes.len() == 0,
{
    lemma_only_body(b, plain_body(command, seq![0xFFu8, 0, 0, 0], Seq::empty()));
}

/// Where a tree leads to no share, nothing can be opened, read, written or changed; what is
/// open can be flushed and closed.
pub proof fn law_no_share_no_files(op: Operation)
    ensures
        ipc_answer(op) is Ok <==> op == Operation::Flush || op == Operation::FlushAll || op == Operation::Close,
        op == Operation::Create || op == Operation::Read || op == Operation::Write || op == Operation::Unlink || op
            == Operation::Rename ==> ipc_answer(op) == Err::<(), VfsError>(VfsError::AccessDenied),
{
}

} // verus!
