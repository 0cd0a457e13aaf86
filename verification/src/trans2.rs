//! TRANS2 subcommands: directory searches, and querying and setting file and
//! file-system information.
use vstd::prelude::*;
use vstd::slice::slice_subrange;
use vstd::utf8::encode_utf8;
use crate::bytes::{get_u16, get_u32, get_u64, le16, le32, le64, lemma_little, lemma_little_written, little, put_bytes, put_u16, put_u32, put_u64, put_u8, put_zeros, u16_at, u32_at, u64_at, zeros};
use crate::files::{attrs_of, put_times, rounded, share_behind, share_root, stat_attrs, stat_times, times_bytes, times_of, FileStat};
use crate::message::{plain_body, BodyView, RespBody, SubReq};
use crate::smb::{filetime_to_unix, lemma_string_at, string_at, unix_of, zstring_text, Rd, Status, ATTR_READONLY, COM_TRANSACTION2, FIND_INFO_BOTH, FIND_INFO_DIRECTORY, FIND_INFO_FULL, FIND_INFO_NAMES, FIND_INFO_STANDARD, FS_ATTRIBUTE_INFO, FS_DEVICE_INFO, FS_SIZE_INFO, FS_VOLUME_INFO, QL_ALL_EAS, QL_BASIC, QL_EA_SIZE, QL_PT_ACCESS, QL_PT_ALL, QL_PT_ALLOC, QL_PT_ALT_NAME, QL_PT_BASIC, QL_PT_DISPOSITION, QL_PT_EA, QL_PT_EOF, QL_PT_INTERNAL, QL_PT_NAME, QL_PT_STANDARD, QL_PT_STREAMS, QL_STANDARD, QL_STREAMS, SL_ALLOC, SL_BASIC, SL_DISPOSITION, SL_EOF};
use crate::state::{next_sid, ConnState, FileHandle, Ids, SearchCtx, ServerShared};
use crate::text::{chars_of, decode_utf16_bytes, encode_utf16_bytes, same_text, text_has, text_of_range, texts, units_of, utf16_bytes, utf16_lossy};
use crate::wildcard::{finds, law_pattern_is_split_behind_its_last_slash, lemma_last_slash, lemma_leading_are_slashes, matching_names, pattern_split, sort_texts, split_pattern, texts_sorted, without_leading};

verus! {

broadcast use vstd::std_specs::hash::group_hash_axioms;

// ---------------- response body ----------------

/// Where the byte area of a TRANS2 response starts: header, word count, ten
/// words and byte count.
pub const BYTES_START: usize = 55;

/// Offset of the parameters in a TRANS2 response; zero where there are none.
pub open spec fn param_offset(plen: int) -> int {
    if plen > 0 {
        56
    } else {
        0
    }
}

/// Offset of the data in a TRANS2 response, even; zero where there is none.
pub open spec fn data_offset(plen: int, dlen: int) -> int {
    if dlen > 0 {
        rounded(
            if plen > 0 {
                56 + plen
            } else {
                BYTES_START as int
            },
            2,
        )
    } else {
        0
    }
}

/// The low 16 bits of a count.
pub open spec fn low16(n: int) -> u16 {
    (n % 65536) as u16
}

/// The words of a TRANS2 response.
pub open spec fn trans2_words(plen: int, dlen: int) -> Seq<u8> {
    le16(low16(plen)) + le16(low16(dlen)) + le16(0) + le16(low16(plen)) + le16(low16(param_offset(plen))) + le16(0)
        + le16(low16(dlen)) + le16(low16(data_offset(plen, dlen))) + le16(0) + seq![0u8] + seq![0u8]
}

/// The bytes of a TRANS2 response: each section at its offset, with zeros in
/// front where needed.
pub open spec fn trans2_bytes(params: Seq<u8>, data: Seq<u8>) -> Seq<u8> {
    let p = if params.len() > 0 {
        zeros(1) + params
    } else {
        Seq::empty()
    };
    if data.len() > 0 {
        p + zeros((data_offset(params.len() as int, data.len() as int) - BYTES_START - p.len()) as nat) + data
    } else {
        p
    }
}

/// A TRANS2 response.
pub open spec fn trans2_body(params: Seq<u8>, data: Seq<u8>) -> BodyView {
    plain_body(
        COM_TRANSACTION2,
        trans2_words(params.len() as int, data.len() as int),
        trans2_bytes(params, data),
    )
}

/// The offset of the data in a response with sections of these lengths.
fn data_start(plen: usize, dlen: usize) -> (at: u64)
    requires
        plen < 0x1_0000_0000,
    ensures
        at == data_offset(plen as int, dlen as int),
{
    if dlen > 0 {
        if plen > 0 {
            (56 + plen as u64 + 1) / 2 * 2
        } else {
            56
        }
    } else {
        0
    }
}

fn make_words(plen: usize, dlen: usize) -> (p: Vec<u8>)
    requires
        plen < 0x1_0000_0000,
    ensures
        p@ == trans2_words(plen as int, dlen as int),
{
    let poff: u16 = if plen > 0 {
        56
    } else {
        0
    };
    let doff: u64 = data_start(plen, dlen);
    let mut p: Vec<u8> = Vec::new();
    put_u16(&mut p, (plen % 65536) as u16);
    assert(p@ =~= le16(low16(plen as int)));
    put_u16(&mut p, (dlen % 65536) as u16);
    put_u16(&mut p, 0);
    put_u16(&mut p, (plen % 65536) as u16);
    put_u16(&mut p, poff);
    put_u16(&mut p, 0);
    put_u16(&mut p, (dlen % 65536) as u16);
    put_u16(&mut p, (doff % 65536) as u16);
    put_u16(&mut p, 0);
    put_u8(&mut p, 0);
    put_u8(&mut p, 0);
    p
}

fn make_bytes(params: &[u8], data: &[u8]) -> (b: Vec<u8>)
    requires
        params@.len() < 0x1_0000_0000,
    ensures
        b@ == trans2_bytes(params@, data@),
{
    let plen: usize = params.len();
    let dlen: usize = data.len();
    let mut bytes: Vec<u8> = Vec::new();
    if plen > 0 {
        put_zeros(&mut bytes, 1);
        assert(bytes@ =~= zeros(1));
        put_bytes(&mut bytes, params);
    } else {
        assert(bytes@ =~= Seq::<u8>::empty());
    }
    let ghost front = bytes@;
    if dlen > 0 {
        let pad: usize = if plen > 0 {
            plen % 2
        } else {
            1
        };
        assert(pad == data_offset(plen as int, dlen as int) - BYTES_START - front.len());
        put_zeros(&mut bytes, pad);
        put_bytes(&mut bytes, data);
    }
    bytes
}

/// Builds a TRANS2 response.
pub fn trans2_resp(params: &[u8], data: &[u8]) -> (b: RespBody)
    requires
        params@.len() < 0x1_0000_0000,
    ensures
        b@ == trans2_body(params@, data@),
{
    let p = make_words(params.len(), data.len());
    RespBody::new(COM_TRANSACTION2, p, make_bytes(params, data))
}

/// The sections of a TRANS2 response stand where its words say.
pub proof fn law_trans2_sections(params: Seq<u8>, data: Seq<u8>)
    ensures
        ({
            let b = trans2_bytes(params, data);
            let p = param_offset(params.len() as int) - BYTES_START;
            let d = data_offset(params.len() as int, data.len() as int) - BYTES_START;
            &&& params.len() > 0 ==> b.subrange(p, p + params.len()) == params
            &&& data.len() > 0 ==> b.subrange(d, d + data.len()) == data
            &&& data.len() > 0 ==> (d + BYTES_START) % 2 == 0
        }),
{
    let b = trans2_bytes(params, data);
    let p = param_offset(params.len() as int) - BYTES_START;
    let d = data_offset(params.len() as int, data.len() as int) - BYTES_START;
    if params.len() > 0 {
        assert(b.subrange(p, p + params.len()) =~= params);
    }
    if data.len() > 0 {
        assert(b.subrange(d, d + data.len()) =~= data);
    }
}

// ---------------- directory entries ----------------

/// A name on the wire.
pub open spec fn name_bytes(name: Seq<char>, unicode: bool) -> Seq<u8> {
    if unicode {
        utf16_bytes(name)
    } else {
        encode_utf8(name)
    }
}

fn make_name(name: &str, unicode: bool) -> (b: Vec<u8>)
    ensures
        b@ == name_bytes(name@, unicode),
{
    if unicode {
        encode_utf16_bytes(name)
    } else {
        let mut b: Vec<u8> = Vec::new();
        put_bytes(&mut b, name.as_bytes());
        assert(b@ =~= encode_utf8(name@));
        b
    }
}

/// The size of an entry's fixed part, by information level.
pub open spec fn fixed_size(level: u16) -> int {
    if level == FIND_INFO_FULL {
        68
    } else if level == FIND_INFO_DIRECTORY {
        32
    } else if level == FIND_INFO_NAMES {
        12
    } else if level == FIND_INFO_STANDARD {
        27
    } else {
        94
    }
}

/// The size that an entry announces: fixed part and name, in whole four bytes.
pub open spec fn entry_size(name: Seq<char>, level: u16, unicode: bool) -> int {
    rounded(
        if level == FIND_INFO_STANDARD {
            fixed_size(level) + encode_utf8(name).len() + 1
        } else {
            fixed_size(level) + name_bytes(name, unicode).len()
        },
        4,
    )
}

/// The bytes of a file: nothing for a directory.
pub open spec fn stat_eof(s: FileStat) -> u64 {
    if s.is_dir {
        0
    } else {
        s.len
    }
}

/// Seconds of a FILETIME in 32 bits.
pub open spec fn secs32(ft: u64) -> u32 {
    (unix_of(ft).0 as int % 0x1_0000_0000) as u32
}

/// The low 32 bits of a count.
pub open spec fn low32(n: int) -> u32 {
    (n % 0x1_0000_0000) as u32
}

/// An entry before its padding.
pub open spec fn entry_fields(name: Seq<char>, s: FileStat, level: u16, unicode: bool) -> Seq<u8> {
    let nb = name_bytes(name, unicode);
    let t = stat_times(s);
    let eof = stat_eof(s);
    let alloc = rounded(eof as int, 512);
    let head = le32(low32(entry_size(name, level, unicode))) + le32(0);
    if level == FIND_INFO_STANDARD {
        head + le32(secs32(t[0])) + le32(secs32(t[1])) + le32(secs32(t[2])) + le32(low32(eof as int)) + le32(
            low32(alloc),
        ) + le16(low16(stat_attrs(s) as int)) + seq![(nb.len() % 256) as u8] + nb
    } else if level == FIND_INFO_NAMES {
        head + times_bytes(t) + le32(low32(nb.len() as int)) + nb
    } else {
        let common = head + times_bytes(t) + le64(eof) + le64(alloc as u64) + le32(stat_attrs(s)) + le32(
            low32(nb.len() as int),
        );
        if level == FIND_INFO_DIRECTORY {
            common + nb
        } else if level == FIND_INFO_BOTH {
            common + le32(0) + zeros(26) + nb
        } else {
            common + le32(0) + nb
        }
    }
}

/// An entry, padded to the size it announces.
pub open spec fn entry_bytes(name: Seq<char>, s: FileStat, level: u16, unicode: bool) -> Seq<u8> {
    let f = entry_fields(name, s, level, unicode);
    let n = entry_size(name, level, unicode);
    if f.len() < n {
        f + zeros((n - f.len()) as nat)
    } else {
        f
    }
}

fn put_u32_low(out: &mut Vec<u8>, n: u64)
    ensures
        final(out)@ == old(out)@ + le32(low32(n as int)),
{
    put_u32(out, (n % 0x1_0000_0000) as u32);
}

fn make_entry_fields(name: &str, s: &FileStat, level: u16, unicode: bool, size: u64) -> (out: Vec<u8>)
    requires
        s.in_range(),
        size == entry_size(name@, level, unicode),
    ensures
        out@ == entry_fields(name@, *s, level, unicode),
{
    let nb = make_name(name, unicode);
    let t = times_of(s);
    let eof: u64 = if s.is_dir {
        0
    } else {
        s.len
    };
    let alloc: u64 = (eof + 511) / 512 * 512;
    let attrs: u32 = attrs_of(s);
    let nlen: u64 = nb.len() as u64;
    let mut out: Vec<u8> = Vec::new();
    put_u32_low(&mut out, size);
    assert(out@ =~= le32(low32(size as int)));
    put_u32(&mut out, 0);
    if level == FIND_INFO_STANDARD {
        put_secs(&mut out, t[0]);
        put_secs(&mut out, t[1]);
        put_secs(&mut out, t[2]);
        put_u32_low(&mut out, eof);
        put_u32_low(&mut out, alloc);
        put_u16(&mut out, (attrs % 65536) as u16);
        put_u8(&mut out, (nb.len() % 256) as u8);
        put_bytes(&mut out, nb.as_slice());
    } else if level == FIND_INFO_NAMES {
        put_times(&mut out, &t);
        put_u32_low(&mut out, nlen);
        put_bytes(&mut out, nb.as_slice());
    } else {
        put_times(&mut out, &t);
        put_u64(&mut out, eof);
        put_u64(&mut out, alloc);
        put_u32(&mut out, attrs);
        put_u32_low(&mut out, nlen);
        if level != FIND_INFO_DIRECTORY {
            put_u32(&mut out, 0);
            if level == FIND_INFO_BOTH {
                put_zeros(&mut out, 26);
            }
        }
        put_bytes(&mut out, nb.as_slice());
    }
    out
}

fn put_secs(out: &mut Vec<u8>, ft: u64)
    ensures
        final(out)@ == old(out)@ + le32(secs32(ft)),
{
    let (secs, _nanos) = filetime_to_unix(ft);
    assert(secs >= 0);
    put_u32(out, (secs as u64 % 0x1_0000_0000) as u32);
}

fn announced_size(name: &str, level: u16, unicode: bool) -> (n: u64)
    requires
        encode_utf8(name@).len() < 0x1_0000_0000,
        name_bytes(name@, unicode).len() < 0x1_0000_0000,
    ensures
        n == entry_size(name@, level, unicode),
{
    let fixed: u64 = if level == FIND_INFO_FULL {
        68
    } else if level == FIND_INFO_DIRECTORY {
        32
    } else if level == FIND_INFO_NAMES {
        12
    } else if level == FIND_INFO_STANDARD {
        27
    } else {
        94
    };
    let total: u64 = if level == FIND_INFO_STANDARD {
        fixed + name.as_bytes().len() as u64 + 1
    } else {
        let nb = make_name(name, unicode);
        fixed + nb.len() as u64
    };
    (total + 3) / 4 * 4
}

/// A name and what the operating system says of it.
pub struct Found {
    pub name: String,
    pub stat: Option<FileStat>,
}

impl Found {
    /// The name fits the wire format, and so does what is known of the file.
    pub open spec fn ok(&self) -> bool {
        &&& self.name@.len() < 0x1000_0000
        &&& (self.stat matches Some(s) ==> s.in_range())
    }
}

proof fn lemma_name_sizes(s: Seq<char>)
    ensures
        encode_utf8(s).len() <= 4 * s.len(),
        utf16_bytes(s).len() <= 4 * s.len(),
    decreases s.len(),
{
    lemma_utf16_size(s);
    lemma_utf8_size(s);
}

proof fn lemma_utf8_size(s: Seq<char>)
    ensures
        encode_utf8(s).len() <= 4 * s.len(),
    decreases s.len(),
{
    if s.len() > 0 {
        lemma_utf8_size(s.drop_first());
    }
}

proof fn lemma_utf16_size(s: Seq<char>)
    ensures
        crate::text::utf16(s).len() <= 2 * s.len(),
    decreases s.len(),
{
    if s.len() > 0 {
        lemma_utf16_size(s.drop_last());
    }
}

/// The entries of the first `n` names. A name of which nothing is known is left
/// out.
pub open spec fn entries_bytes(e: Seq<Found>, n: int, level: u16, unicode: bool) -> Seq<u8>
    decreases n,
{
    if n <= 0 {
        Seq::empty()
    } else {
        let front = entries_bytes(e, n - 1, level, unicode);
        match e[n - 1].stat {
            Some(s) => front + entry_bytes(e[n - 1].name@, s, level, unicode),
            None => front,
        }
    }
}

/// Where the last of the first `n` entries starts; zero where there is none.
pub open spec fn last_entry(e: Seq<Found>, n: int, level: u16, unicode: bool) -> int
    decreases n,
{
    if n <= 0 {
        0
    } else {
        match e[n - 1].stat {
            Some(_) => entries_bytes(e, n - 1, level, unicode).len() as int,
            None => last_entry(e, n - 1, level, unicode),
        }
    }
}

/// Encodes directory entries; gives them with the offset of the last one.
pub fn encode_entries(e: &Vec<Found>, level: u16, unicode: bool) -> (r: (Vec<u8>, usize))
    requires
        forall|i: int| 0 <= i < e@.len() ==> (#[trigger] e@[i]).ok(),
    ensures
        r.0@ == entries_bytes(e@, e@.len() as int, level, unicode),
        r.1 == last_entry(e@, e@.len() as int, level, unicode),
{
    let mut buf: Vec<u8> = Vec::new();
    let mut last: usize = 0;
    let mut i: usize = 0;
    assert(buf@ =~= entries_bytes(e@, 0, level, unicode));
    while i < e.len()
        invariant
            i <= e@.len(),
            forall|k: int| 0 <= k < e@.len() ==> (#[trigger] e@[k]).ok(),
            buf@ == entries_bytes(e@, i as int, level, unicode),
            last == last_entry(e@, i as int, level, unicode),
        decreases e@.len() - i,
    {
        assert(e@[i as int].ok());
        match e[i].stat {
            Some(s) => {
                last = buf.len();
                proof {
                    lemma_name_sizes(e@[i as int].name@);
                }
                let one = encode_entry(e[i].name.as_str(), &s, level, unicode);
                put_bytes(&mut buf, one.as_slice());
            },
            None => {},
        }
        i += 1;
    }
    (buf, last)
}

fn encode_entry(name: &str, s: &FileStat, level: u16, unicode: bool) -> (out: Vec<u8>)
    requires
        s.in_range(),
        encode_utf8(name@).len() < 0x1_0000_0000,
        name_bytes(name@, unicode).len() < 0x1_0000_0000,
    ensures
        out@ == entry_bytes(name@, *s, level, unicode),
{
    let size: u64 = announced_size(name, level, unicode);
    let mut out = make_entry_fields(name, s, level, unicode, size);
    let have: u64 = out.len() as u64;
    if have < size {
        let pad: u64 = size - have;
        proof {
            lemma_pad_small(name@, *s, level, unicode);
        }
        put_zeros(&mut out, pad as usize);
    }
    out
}

proof fn lemma_pad_small(name: Seq<char>, s: FileStat, level: u16, unicode: bool)
    requires
        encode_utf8(name).len() < 0x1_0000_0000,
    ensures
        entry_size(name, level, unicode) - entry_fields(name, s, level, unicode).len() < 0x1_0000_0000,
{
}

// ---------------- FIND_FIRST2 and FIND_NEXT2 ----------------

/// What a FIND_FIRST2 asks of the file system.
pub struct FindPlan {
    pub root: String,
    pub pattern: String,
    /// Directory part of the pattern.
    pub dir: String,
    /// Name part of the pattern.
    pub name_pat: String,
    /// The pattern holds wildcards.
    pub wild: bool,
    pub count: usize,
    pub flags: u16,
    pub level: u16,
}

/// Whether a pattern holds wildcards.
pub open spec fn has_wildcards(p: Seq<char>) -> bool {
    p.contains('*') || p.contains('?')
}

/// How many names are wanted: at least one.
pub open spec fn wanted(count: u16) -> int {
    if count == 0 {
        1
    } else {
        count as int
    }
}

/// The status a FIND_FIRST2 is refused with; none where it is carried out.
pub open spec fn find_refusal(server: &ServerShared, conn: &ConnState, tid: u16, p: Seq<u8>) -> Option<Status> {
    if p.len() < 12 {
        Some(Status::INVALID_PARAMETER)
    } else {
        match share_behind(server, conn, tid) {
            None => Some(Status::INVALID_HANDLE),
            Some(s) => if s.is_ipc {
                Some(Status::ACCESS_DENIED)
            } else {
                None
            },
        }
    }
}

/// Whether `f` is the plan of a FIND_FIRST2.
pub open spec fn is_find_of(f: FindPlan, server: &ServerShared, conn: &ConnState, tid: u16, q: SubReq) -> bool {
    let pattern = zstring_text(q.params@, 12, q.unicode, q.param_base as int);
    &&& f.root@ == share_behind(server, conn, tid)->0.root@
    &&& f.pattern@ == pattern
    &&& (f.dir@, f.name_pat@) == pattern_split(pattern)
    &&& f.wild == has_wildcards(pattern)
    &&& f.count == wanted(u16_at(q.params@, 2))
    &&& f.flags == u16_at(q.params@, 4)
    &&& f.level == u16_at(q.params@, 6)
}

/// Whether `r` is what a FIND_FIRST2 asks for.
pub open spec fn find_planned(server: &ServerShared, conn: &ConnState, tid: u16, q: SubReq, r: Result<FindPlan, Status>) -> bool {
    match find_refusal(server, conn, tid, q.params@) {
        Some(s) => r is Err && r->Err_0 == s,
        None => r is Ok && is_find_of(r->Ok_0, server, conn, tid, q),
    }
}

/// Reads a FIND_FIRST2.
pub fn find_first2(server: &ServerShared, conn: &ConnState, tid: u16, q: &SubReq) -> (r: Result<FindPlan, Status>)
    requires
        server.wf(),
        q.param_base + 12 <= usize::MAX,
    ensures
        find_planned(server, conn, tid, *q, r),
{
    let p = q.params;
    if p.len() < 12 {
        return Err(Status::INVALID_PARAMETER);
    }
    let asked: u16 = get_u16(p, 2);
    let count: usize = if asked == 0 {
        1
    } else {
        asked as usize
    };
    let flags: u16 = get_u16(p, 4);
    let level: u16 = get_u16(p, 6);
    let share = match share_root(server, conn, tid) {
        Ok(s) => s,
        Err(e) => {
            return Err(e);
        },
    };
    if share.is_ipc {
        return Err(Status::ACCESS_DENIED);
    }
    let mut rd = Rd::new(p, 12);
    let pattern = rd.zstring(q.unicode, q.param_base);
    let (dir, name_pat) = split_pattern(pattern.as_str());
    let wild: bool = text_has(pattern.as_str(), '*') || text_has(pattern.as_str(), '?');
    Ok(FindPlan { root: share.root.clone(), pattern, dir, name_pat, wild, count, flags, level })
}

/// The parameters of a FIND_FIRST2 response.
pub open spec fn find_first_params(sid: u16, count: int, end: bool, last: int) -> Seq<u8> {
    le16(sid) + find_next_params(count, end, last)
}

/// The parameters of a FIND_NEXT2 response.
pub open spec fn find_next_params(count: int, end: bool, last: int) -> Seq<u8> {
    le16(low16(count)) + le16(
        if end {
            1
        } else {
            0
        },
    ) + le16(0) + le16(low16(last))
}

fn make_find_next_params(count: usize, end: bool, last: usize) -> (p: Vec<u8>)
    ensures
        p@ == find_next_params(count as int, end, last as int),
        p@.len() == 8,
{
    let mut p: Vec<u8> = Vec::new();
    put_u16(&mut p, (count % 65536) as u16);
    assert(p@ =~= le16(low16(count as int)));
    put_u16(
        &mut p,
        if end {
            1
        } else {
            0
        },
    );
    put_u16(&mut p, 0);
    put_u16(&mut p, (last % 65536) as u16);
    p
}

/// How a FIND_FIRST2 whose pattern names one file is answered.
pub open spec fn file_found(i0: Ids, i1: Ids, found: Seq<Found>, level: u16, unicode: bool, b: BodyView) -> bool {
    &&& i1 == (Ids { sid: i0.sid.wrapping_add(1), ..i0 })
    &&& b == trans2_body(
        find_first_params(i0.sid, 1, true, last_entry(found, found.len() as int, level, unicode)),
        entries_bytes(found, found.len() as int, level, unicode),
    )
}

/// Answers a FIND_FIRST2 whose pattern names one file.
pub fn finish_find_file(ids: &mut Ids, found: &Vec<Found>, level: u16, unicode: bool) -> (b: RespBody)
    requires
        forall|i: int| 0 <= i < found@.len() ==> (#[trigger] found@[i]).ok(),
    ensures
        file_found(*old(ids), *final(ids), found@, level, unicode, b@),
{
    let (data, last) = encode_entries(found, level, unicode);
    let sid: u16 = next_sid(ids);
    let tail = make_find_next_params(1, true, last);
    let mut p: Vec<u8> = Vec::new();
    put_u16(&mut p, sid);
    assert(p@ =~= le16(sid));
    put_bytes(&mut p, tail.as_slice());
    trans2_resp(p.as_slice(), data.as_slice())
}

/// The names that a search returns at once and those that are kept for later.
pub struct Selection {
    pub now: Vec<String>,
    pub later: Vec<String>,
}

/// Whether the selection takes, in order, the first `count` of the names that
/// the pattern finds.
pub open spec fn selects(s: Selection, names: Seq<Seq<char>>, pat: Seq<char>, count: int) -> bool {
    let all = texts(s.now@) + texts(s.later@);
    &&& texts_sorted(all)
    &&& all.to_multiset() == names.filter(finds(pat)).to_multiset()
    &&& s.now@.len() == if all.len() <= count {
        all.len() as int
    } else {
        count
    }
}

/// Selects the names that a search returns: those that the pattern finds, in
/// order, at most `count` of them at once.
pub fn select_names(names: &Vec<String>, pat: &str, count: usize) -> (s: Selection)
    ensures
        selects(s, texts(names@), pat@, count as int),
{
    let hits = matching_names(names, pat);
    let sorted = sort_texts(&hits);
    let (now, later) = split_list(sorted, count);
    Selection { now, later }
}

/// Splits a list behind its first `count` elements.
fn split_list(v: Vec<String>, count: usize) -> (r: (Vec<String>, Vec<String>))
    ensures
        texts(r.0@) + texts(r.1@) == texts(v@),
        r.0@.len() == if v@.len() <= count {
            v@.len() as int
        } else {
            count as int
        },
{
    let mut v = v;
    let n: usize = if v.len() <= count {
        v.len()
    } else {
        count
    };
    let ghost all = v@;
    let later = v.split_off(n);
    assert(texts(v@) + texts(later@) =~= texts(all));
    (v, later)
}

/// How a FIND_FIRST2 is answered: the rest of the search is kept under a fresh id.
pub open spec fn search_begun(
    c0: &ConnState,
    c1: &ConnState,
    i0: Ids,
    i1: Ids,
    plan: FindPlan,
    dir: String,
    later: Vec<String>,
    found: Seq<Found>,
    unicode: bool,
    b: BodyView,
) -> bool {
    let sid = i0.sid;
    let n = found.len() as int;
    &&& i1 == (Ids { sid: sid.wrapping_add(1), ..i0 })
    &&& c1.same_but_searches(c0)
    &&& c1.searches@ == c0.searches@.insert(sid, c1.searches@[sid])
    &&& c1.searches@[sid].queue == later
    &&& c1.searches@[sid].info_level == plan.level
    &&& c1.searches@[sid].pattern@ == plan.pattern@
    &&& c1.searches@[sid].base_dir == dir
    &&& b == trans2_body(
        find_first_params(
            sid,
            n,
            later@.len() == 0 || plan.flags & 0x0001 != 0,
            last_entry(found, n, plan.level, unicode),
        ),
        entries_bytes(found, n, plan.level, unicode),
    )
}

/// Answers a FIND_FIRST2: records the rest of the search and returns the first
/// entries. The search ends where nothing is left or the client asks to close it.
pub fn finish_find_first(
    conn: &mut ConnState,
    ids: &mut Ids,
    plan: &FindPlan,
    dir: String,
    later: Vec<String>,
    found: &Vec<Found>,
    unicode: bool,
) -> (b: RespBody)
    requires
        forall|i: int| 0 <= i < found@.len() ==> (#[trigger] found@[i]).ok(),
    ensures
        search_begun(old(conn), final(conn), *old(ids), *final(ids), *plan, dir, later, found@, unicode, b@),
{
    let end: bool = later.len() == 0 || plan.flags & 0x0001 != 0;
    let sid: u16 = next_sid(ids);
    conn.searches.insert(
        sid,
        SearchCtx { queue: later, info_level: plan.level, pattern: plan.pattern.clone(), base_dir: dir },
    );
    let (data, last) = encode_entries(found, plan.level, unicode);
    let tail = make_find_next_params(found.len(), end, last);
    let mut p: Vec<u8> = Vec::new();
    put_u16(&mut p, sid);
    assert(p@ =~= le16(sid));
    put_bytes(&mut p, tail.as_slice());
    trans2_resp(p.as_slice(), data.as_slice())
}

/// What a FIND_NEXT2 asks of the file system.
pub struct NextPlan {
    pub names: Vec<String>,
    pub base_dir: String,
    pub level: u16,
    pub end: bool,
}

/// Whether a FIND_NEXT2 takes the connection from `c0` to `c1` and gives `r`.
pub open spec fn find_continued(c0: &ConnState, c1: &ConnState, q: SubReq, r: Result<NextPlan, Status>) -> bool {
    &&& c1.same_but_searches(c0)
    &&& {
        let p = q.params@;
        let sid = u16_at(p, 0);
        if p.len() < 12 {
            r is Err && r->Err_0 == Status::INVALID_PARAMETER && c1.searches@ == c0.searches@
        } else if !c0.searches@.contains_key(sid) {
            r is Err && r->Err_0 == Status::INVALID_HANDLE && c1.searches@ == c0.searches@
        } else {
            let was = c0.searches@[sid];
            let now = c1.searches@[sid];
            let n = if was.queue@.len() <= wanted(u16_at(p, 2)) {
                was.queue@.len() as int
            } else {
                wanted(u16_at(p, 2))
            };
            &&& c1.searches@ == c0.searches@.insert(sid, now)
            &&& now.info_level == was.info_level
            &&& now.pattern == was.pattern
            &&& now.base_dir == was.base_dir
            &&& r matches Ok(v)
            &&& v.names@.len() == n
            &&& texts(v.names@) + texts(now.queue@) == texts(was.queue@)
            &&& v.base_dir@ == was.base_dir@
            &&& v.level == if u16_at(p, 4) == 0 {
                was.info_level
            } else {
                u16_at(p, 4)
            }
            &&& v.end == (now.queue@.len() == 0 || u16_at(p, 10) & 0x0001 != 0)
        }
    }
}

/// A search that is begun and continued returns, with what is then left of it, every
/// name that the pattern finds, in order and once.
pub proof fn law_search_loses_nothing(
    s: Selection,
    names: Seq<Seq<char>>,
    pat: Seq<char>,
    count: int,
    c0: &ConnState,
    c1: &ConnState,
    q: SubReq,
    v: NextPlan,
)
    requires
        selects(s, names, pat, count),
        c0.searches@.contains_key(u16_at(q.params@, 0)),
        c0.searches@[u16_at(q.params@, 0)].queue == s.later,
        find_continued(c0, c1, q, Ok(v)),
    ensures
        ({
            let all = texts(s.now@) + texts(v.names@) + texts(c1.searches@[u16_at(q.params@, 0)].queue@);
            &&& texts_sorted(all)
            &&& all.to_multiset() == names.filter(finds(pat)).to_multiset()
        }),
{
    let rest = texts(c1.searches@[u16_at(q.params@, 0)].queue@);
    assert(texts(s.now@) + texts(v.names@) + rest =~= texts(s.now@) + texts(s.later@));
}

/// Continues a search: takes the next names off its queue.
pub fn find_next2(conn: &mut ConnState, q: &SubReq) -> (r: Result<NextPlan, Status>)
    ensures
        find_continued(old(conn), final(conn), *q, r),
{
    let p = q.params;
    if p.len() < 12 {
        return Err(Status::INVALID_PARAMETER);
    }
    let sid: u16 = get_u16(p, 0);
    let asked: u16 = get_u16(p, 2);
    let count: usize = if asked == 0 {
        1
    } else {
        asked as usize
    };
    let level: u16 = get_u16(p, 4);
    let flags: u16 = get_u16(p, 10);
    let ctx = match conn.searches.remove(&sid) {
        Some(c) => c,
        None => {
            assert(conn.searches@ =~= old(conn).searches@);
            return Err(Status::INVALID_HANDLE);
        },
    };
    let SearchCtx { queue, info_level, pattern, base_dir } = ctx;
    let (names, rest) = split_list(queue, count);
    let end: bool = rest.len() == 0 || flags & 0x0001 != 0;
    let lvl: u16 = if level == 0 {
        info_level
    } else {
        level
    };
    let base = base_dir.clone();
    conn.searches.insert(sid, SearchCtx { queue: rest, info_level, pattern, base_dir });
    assert(conn.searches@ =~= old(conn).searches@.insert(sid, conn.searches@[sid]));
    Ok(NextPlan { names, base_dir: base, level: lvl, end })
}

/// How a FIND_NEXT2 is answered.
pub open spec fn search_went_on(found: Seq<Found>, level: u16, unicode: bool, end: bool, b: BodyView) -> bool {
    b == trans2_body(
        find_next_params(found.len() as int, end, last_entry(found, found.len() as int, level, unicode)),
        entries_bytes(found, found.len() as int, level, unicode),
    )
}

/// Answers a FIND_NEXT2.
pub fn finish_find_next(found: &Vec<Found>, level: u16, unicode: bool, end: bool) -> (b: RespBody)
    requires
        forall|i: int| 0 <= i < found@.len() ==> (#[trigger] found@[i]).ok(),
    ensures
        search_went_on(found@, level, unicode, end, b@),
{
    let (data, last) = encode_entries(found, level, unicode);
    let p = make_find_next_params(found.len(), end, last);
    trans2_resp(p.as_slice(), data.as_slice())
}

/// Where a FIND_FIRST2 looks.
#[derive(Clone, Copy, PartialEq, Eq, Structural, Debug)]
pub enum FindStep {
    /// The pattern names one file.
    File,
    /// The directory part of the pattern is listed.
    Directory,
}

/// Where a FIND_FIRST2 looks, given what the file system says.
pub open spec fn step_picked(plan: FindPlan, names_file: bool, dir_exists: bool, r: Result<FindStep, Status>) -> bool {
    r == if !plan.wild && names_file {
        Ok::<FindStep, Status>(FindStep::File)
    } else if dir_exists {
        Ok(FindStep::Directory)
    } else {
        Err(Status::OBJECT_PATH_NOT_FOUND)
    }
}

/// Picks where a FIND_FIRST2 looks, from what the file system says of the whole
/// pattern and of its directory part.
pub fn find_step(plan: &FindPlan, names_file: bool, dir_exists: bool) -> (r: Result<FindStep, Status>)
    ensures
        step_picked(*plan, names_file, dir_exists, r),
{
    if !plan.wild && names_file {
        Ok(FindStep::File)
    } else if dir_exists {
        Ok(FindStep::Directory)
    } else {
        Err(Status::OBJECT_PATH_NOT_FOUND)
    }
}

// ---------------- QUERY_FS_INFO ----------------

/// A text on the wire behind its length in bytes.
pub open spec fn counted_name(name: Seq<char>) -> Seq<u8> {
    le32(low32(utf16_bytes(name).len() as int)) + utf16_bytes(name)
}

fn put_counted_name(out: &mut Vec<u8>, name: &str)
    ensures
        final(out)@ == old(out)@ + counted_name(name@),
{
    let b = encode_utf16_bytes(name);
    put_u32(out, (b.len() as u64 % 0x1_0000_0000) as u32);
    put_bytes(out, b.as_slice());
    assert(out@ =~= old(out)@ + counted_name(name@));
}

/// What is answered to a query of file-system information.
pub open spec fn fs_data(level: u16, now: u64) -> Option<Seq<u8>> {
    if level == FS_VOLUME_INFO {
        Some(le64(now) + le32(0x1234_5678) + counted_name("RUSTSMB"@))
    } else if level == FS_SIZE_INFO {
        Some(le64(1_048_576) + le64(524_288) + le32(64) + le32(512))
    } else if level == FS_DEVICE_INFO {
        Some(le32(0) + le32(0x20))
    } else if level == FS_ATTRIBUTE_INFO {
        Some(le32(0x0004_270C) + le32(255) + counted_name("NTFS"@))
    } else {
        None
    }
}

pub(crate) fn make_fs_data(level: u16, now: u64) -> (r: Option<Vec<u8>>)
    ensures
        match fs_data(level, now) {
            Some(d) => r is Some && r->0@ == d,
            None => r is None,
        },
{
    let mut d: Vec<u8> = Vec::new();
    if level == FS_VOLUME_INFO {
        put_u64(&mut d, now);
        assert(d@ =~= le64(now));
        put_u32(&mut d, 0x1234_5678);
        put_counted_name(&mut d, "RUSTSMB");
    } else if level == FS_SIZE_INFO {
        put_u64(&mut d, 1_048_576);
        assert(d@ =~= le64(1_048_576));
        put_u64(&mut d, 524_288);
        put_u32(&mut d, 64);
        put_u32(&mut d, 512);
    } else if level == FS_DEVICE_INFO {
        put_u32(&mut d, 0);
        assert(d@ =~= le32(0));
        put_u32(&mut d, 0x20);
    } else if level == FS_ATTRIBUTE_INFO {
        put_u32(&mut d, 0x0004_270C);
        assert(d@ =~= le32(0x0004_270C));
        put_u32(&mut d, 255);
        put_counted_name(&mut d, "NTFS");
    } else {
        return None;
    }
    Some(d)
}

/// Whether `r` answers a query of file-system information.
pub open spec fn fs_queried(server: &ServerShared, conn: &ConnState, tid: u16, q: SubReq, now: u64, r: Result<RespBody, Status>) -> bool {
    let level = u16_at(q.params@, 0);
    if q.params@.len() < 2 {
        r is Err && r->Err_0 == Status::INVALID_PARAMETER
    } else if share_behind(server, conn, tid) is None {
        r is Err && r->Err_0 == Status::INVALID_HANDLE
    } else {
        match fs_data(level, now) {
            None => r is Err && r->Err_0 == Status::INVALID_PARAMETER,
            Some(d) => r is Ok && r->Ok_0@ == trans2_body(Seq::empty(), d),
        }
    }
}

/// Answers a query of file-system information; `now` is the present FILETIME.
pub fn query_fs_info(server: &ServerShared, conn: &ConnState, tid: u16, q: &SubReq, now: u64) -> (r: Result<
    RespBody,
    Status,
>)
    requires
        server.wf(),
    ensures
        fs_queried(server, conn, tid, *q, now, r),
{
    if q.params.len() < 2 {
        return Err(Status::INVALID_PARAMETER);
    }
    let level: u16 = get_u16(q.params, 0);
    match share_root(server, conn, tid) {
        Ok(_share) => {},
        Err(e) => {
            return Err(e);
        },
    }
    match make_fs_data(level, now) {
        Some(d) => Ok(data_only(d)),
        None => Err(Status::INVALID_PARAMETER),
    }
}

/// A TRANS2 response without parameters.
fn data_only(d: Vec<u8>) -> (b: RespBody)
    ensures
        b@ == trans2_body(Seq::empty(), d@),
{
    let p: Vec<u8> = Vec::new();
    assert(p@ =~= Seq::<u8>::empty());
    trans2_resp(p.as_slice(), d.as_slice())
}

// ---------------- QUERY_PATH_INFO and QUERY_FILE_INFO ----------------

/// Times, attributes and zero.
pub const QL_COMPOSITE: u16 = 0x107;

/// A flag in one byte.
pub open spec fn flag_byte(b: bool) -> Seq<u8> {
    seq![if b { 1u8 } else { 0u8 }]
}

fn put_flag(out: &mut Vec<u8>, b: bool)
    ensures
        final(out)@ == old(out)@ + flag_byte(b),
{
    put_u8(
        out,
        if b {
            1
        } else {
            0
        },
    );
    assert(out@ =~= old(out)@ + flag_byte(b));
}

/// The allocation of a file: whole blocks of 4096 bytes.
pub open spec fn stat_alloc(s: FileStat) -> u64 {
    rounded(stat_eof(s) as int, 4096) as u64
}

/// A name behind twice its length in UTF-8.
#[verifier::opaque]
pub open spec fn announced_name(name: Seq<char>) -> Seq<u8> {
    le32(low32(encode_utf8(name).len() as int * 2)) + utf16_bytes(name)
}

/// Sizes, links, pending deletion and directory flag.
#[verifier::opaque]
pub open spec fn standard_bytes(alloc: u64, eof: u64, pending: bool, is_dir: bool) -> Seq<u8> {
    le64(alloc) + le64(eof) + le32(1) + flag_byte(pending) + flag_byte(is_dir)
}

/// Everything that the ALL level tells of a file.
#[verifier::opaque]
pub open spec fn all_bytes(s: FileStat) -> Seq<u8> {
    times_bytes(stat_times(s)) + le64(stat_alloc(s)) + le64(stat_eof(s)) + le32(1) + flag_byte(false) + flag_byte(
        s.is_dir,
    ) + le16(0) + le32(0) + le32(0x0012_009F) + le64(0) + le32(stat_attrs(s))
}

/// The composite answer: times, attributes, sizes, flags and name.
#[verifier::opaque]
pub open spec fn composite_bytes(s: FileStat, name: Seq<char>) -> Seq<u8> {
    times_bytes(stat_times(s)) + le32(stat_attrs(s)) + le32(0) + le64(stat_alloc(s)) + le64(stat_eof(s)) + le32(1)
        + flag_byte(false) + flag_byte(s.is_dir) + le16(0) + le32(0) + counted_name(name)
}

/// What is answered to a query of file information; none for an unknown level.
pub open spec fn query_data(level: u16, s: FileStat, name: Seq<char>) -> Option<Seq<u8>> {
    let times = times_bytes(stat_times(s));
    let eof = stat_eof(s);
    let alloc = stat_alloc(s);
    let attrs = stat_attrs(s);
    if level == QL_BASIC || level == QL_PT_BASIC || level == SL_BASIC {
        Some(times + le32(attrs))
    } else if level == QL_STANDARD {
        Some(standard_bytes(alloc, eof, attrs & ATTR_READONLY != 0, s.is_dir))
    } else if level == QL_PT_STANDARD {
        Some(standard_bytes(alloc, eof, false, s.is_dir) + le16(0))
    } else if level == QL_EA_SIZE || level == QL_PT_EA {
        Some(le32(0))
    } else if level == QL_ALL_EAS {
        Some(le32(4) + le32(0))
    } else if level == QL_PT_INTERNAL {
        Some(le64(s.ino))
    } else if level == QL_PT_ACCESS {
        Some(le32(0x0011_009F))
    } else if level == QL_PT_NAME || level == QL_PT_ALT_NAME {
        Some(announced_name(name))
    } else if level == QL_PT_ALLOC || level == SL_ALLOC {
        Some(le64(alloc))
    } else if level == QL_PT_EOF || level == SL_EOF {
        Some(le64(eof))
    } else if level == QL_PT_DISPOSITION {
        Some(flag_byte(false))
    } else if level == QL_PT_ALL {
        Some(all_bytes(s))
    } else if level == QL_STREAMS || level == QL_PT_STREAMS {
        Some(le32(0))
    } else if level == QL_COMPOSITE {
        Some(composite_bytes(s, name))
    } else {
        None
    }
}

fn basic_data(s: &FileStat) -> (d: Vec<u8>)
    requires
        s.in_range(),
    ensures
        d@ == times_bytes(stat_times(*s)),
{
    let t = times_of(s);
    let mut d: Vec<u8> = Vec::new();
    put_times(&mut d, &t);
    assert(d@ =~= times_bytes(stat_times(*s)));
    d
}

fn standard_data(alloc: u64, eof: u64, pending: bool, is_dir: bool) -> (d: Vec<u8>)
    ensures
        d@ == standard_bytes(alloc, eof, pending, is_dir),
{
    reveal(standard_bytes);
    let mut d = one_u64(alloc);
    put_u64(&mut d, eof);
    put_u32(&mut d, 1);
    put_flag(&mut d, pending);
    put_flag(&mut d, is_dir);
    d
}

fn all_data(s: &FileStat, alloc: u64, eof: u64, attrs: u32) -> (d: Vec<u8>)
    requires
        s.in_range(),
        alloc == stat_alloc(*s),
        eof == stat_eof(*s),
        attrs == stat_attrs(*s),
    ensures
        d@ == all_bytes(*s),
{
    reveal(all_bytes);
    let mut d = basic_data(s);
    put_u64(&mut d, alloc);
    put_u64(&mut d, eof);
    put_u32(&mut d, 1);
    put_flag(&mut d, false);
    put_flag(&mut d, s.is_dir);
    put_u16(&mut d, 0);
    put_u32(&mut d, 0);
    put_u32(&mut d, 0x0012_009F);
    put_u64(&mut d, 0);
    put_u32(&mut d, attrs);
    d
}

fn composite_data(s: &FileStat, alloc: u64, eof: u64, attrs: u32, name: &str) -> (d: Vec<u8>)
    requires
        s.in_range(),
        alloc == stat_alloc(*s),
        eof == stat_eof(*s),
        attrs == stat_attrs(*s),
    ensures
        d@ == composite_bytes(*s, name@),
{
    reveal(composite_bytes);
    let mut d = basic_data(s);
    put_u32(&mut d, attrs);
    put_u32(&mut d, 0);
    put_u64(&mut d, alloc);
    put_u64(&mut d, eof);
    put_u32(&mut d, 1);
    put_flag(&mut d, false);
    put_flag(&mut d, s.is_dir);
    put_u16(&mut d, 0);
    put_u32(&mut d, 0);
    put_counted_name(&mut d, name);
    d
}

fn one_u32(v: u32) -> (d: Vec<u8>)
    ensures
        d@ == le32(v),
{
    let mut d: Vec<u8> = Vec::new();
    put_u32(&mut d, v);
    assert(d@ =~= le32(v));
    d
}

fn one_u64(v: u64) -> (d: Vec<u8>)
    ensures
        d@ == le64(v),
{
    let mut d: Vec<u8> = Vec::new();
    put_u64(&mut d, v);
    assert(d@ =~= le64(v));
    d
}

fn twice_low32(n: u64) -> (v: u32)
    ensures
        v == low32(n as int * 2),
{
    (n % 0x8000_0000 * 2) as u32
}

fn name_data(name: &str) -> (d: Vec<u8>)
    ensures
        d@ == announced_name(name@),
{
    reveal(announced_name);
    let mut d = one_u32(twice_low32(name.as_bytes().len() as u64));
    let b = encode_utf16_bytes(name);
    put_bytes(&mut d, b.as_slice());
    d
}

fn alloc_of(s: &FileStat) -> (a: u64)
    requires
        s.in_range(),
    ensures
        a == stat_alloc(*s),
{
    if s.is_dir {
        0
    } else {
        (s.len + 4095) / 4096 * 4096
    }
}

spec fn bytes_or_none(r: Option<Vec<u8>>) -> Option<Seq<u8>> {
    match r {
        Some(d) => Some(d@),
        None => None,
    }
}

fn make_query_data(level: u16, s: &FileStat, name: &str) -> (r: Option<Vec<u8>>)
    requires
        s.in_range(),
    ensures
        bytes_or_none(r) == query_data(level, *s, name@),
{
    let eof: u64 = if s.is_dir {
        0
    } else {
        s.len
    };
    let alloc: u64 = alloc_of(s);
    let attrs: u32 = attrs_of(s);
    if level == QL_BASIC || level == QL_PT_BASIC || level == SL_BASIC {
        let mut d = basic_data(s);
        put_u32(&mut d, attrs);
        Some(d)
    } else if level == QL_STANDARD {
        Some(standard_data(alloc, eof, attrs & ATTR_READONLY != 0, s.is_dir))
    } else if level == QL_PT_STANDARD {
        let mut d = standard_data(alloc, eof, false, s.is_dir);
        put_u16(&mut d, 0);
        Some(d)
    } else if level == QL_EA_SIZE || level == QL_PT_EA {
        Some(one_u32(0))
    } else if level == QL_ALL_EAS {
        let mut d = one_u32(4);
        put_u32(&mut d, 0);
        Some(d)
    } else if level == QL_PT_INTERNAL {
        Some(one_u64(s.ino))
    } else if level == QL_PT_ACCESS {
        Some(one_u32(0x0011_009F))
    } else if level == QL_PT_NAME || level == QL_PT_ALT_NAME {
        Some(name_data(name))
    } else if level == QL_PT_ALLOC || level == SL_ALLOC {
        Some(one_u64(alloc))
    } else if level == QL_PT_EOF || level == SL_EOF {
        Some(one_u64(eof))
    } else if level == QL_PT_DISPOSITION {
        let mut d: Vec<u8> = Vec::new();
        put_flag(&mut d, false);
        assert(d@ =~= flag_byte(false));
        Some(d)
    } else if level == QL_PT_ALL {
        Some(all_data(s, alloc, eof, attrs))
    } else if level == QL_STREAMS || level == QL_PT_STREAMS {
        Some(one_u32(0))
    } else if level == QL_COMPOSITE {
        Some(composite_data(s, alloc, eof, attrs, name))
    } else {
        None
    }
}

/// How a query of file information is answered.
pub open spec fn info_encoded(level: u16, s: FileStat, name: Seq<char>, r: Result<RespBody, Status>) -> bool {
    match query_data(level, s, name) {
        Some(d) => r is Ok && r->Ok_0@ == trans2_body(Seq::empty(), d),
        None => r is Err && r->Err_0 == Status::INVALID_PARAMETER,
    }
}

/// Answers a query of file information.
pub fn encode_query_info(level: u16, s: &FileStat, name: &str) -> (r: Result<RespBody, Status>)
    requires
        s.in_range(),
    ensures
        info_encoded(level, *s, name@, r),
{
    match make_query_data(level, s, name) {
        Some(d) => Ok(data_only(d)),
        None => Err(Status::INVALID_PARAMETER),
    }
}

/// What a query by path asks of the file system.
pub struct PathQuery {
    pub root: String,
    pub name: String,
    pub level: u16,
}

/// Whether `r` is what a query by path asks for.
pub open spec fn path_queried(server: &ServerShared, conn: &ConnState, tid: u16, q: SubReq, r: Result<PathQuery, Status>) -> bool {
    let name = zstring_text(q.params@, 6, q.unicode, q.param_base as int);
    if q.params@.len() < 6 {
        r is Err && r->Err_0 == Status::INVALID_PARAMETER
    } else {
        match share_behind(server, conn, tid) {
            None => r is Err && r->Err_0 == Status::INVALID_HANDLE,
            Some(share) => if name.len() == 0 {
                r is Err && r->Err_0 == Status::INVALID_PARAMETER
            } else {
                r is Ok && r->Ok_0.root@ == share.root@ && r->Ok_0.name@ == name && r->Ok_0.level == u16_at(
                    q.params@,
                    0,
                )
            },
        }
    }
}

/// Reads a query by path.
pub fn query_path_info(server: &ServerShared, conn: &ConnState, tid: u16, q: &SubReq) -> (r: Result<
    PathQuery,
    Status,
>)
    requires
        server.wf(),
        q.param_base + 6 <= usize::MAX,
    ensures
        path_queried(server, conn, tid, *q, r),
{
    if q.params.len() < 6 {
        return Err(Status::INVALID_PARAMETER);
    }
    let level: u16 = get_u16(q.params, 0);
    let share = match share_root(server, conn, tid) {
        Ok(s) => s,
        Err(e) => {
            return Err(e);
        },
    };
    let mut rd = Rd::new(q.params, 6);
    let name = rd.zstring(q.unicode, q.param_base);
    if name.as_str().is_empty() {
        return Err(Status::INVALID_PARAMETER);
    }
    Ok(PathQuery { root: share.root.clone(), name, level })
}

/// How a query by path is answered.
pub open spec fn path_query_ended(query: PathQuery, stat: Option<FileStat>, r: Result<RespBody, Status>) -> bool {
    match stat {
        None => r is Err && r->Err_0 == Status::OBJECT_NAME_NOT_FOUND,
        Some(s) => match query_data(query.level, s, query.name@) {
            Some(d) => r is Ok && r->Ok_0@ == trans2_body(Seq::empty(), d),
            None => r is Err && r->Err_0 == Status::INVALID_PARAMETER,
        },
    }
}

/// Answers a query by path once the file system has spoken.
pub fn finish_query_path(query: &PathQuery, stat: Option<FileStat>) -> (r: Result<RespBody, Status>)
    requires
        stat matches Some(s) ==> s.in_range(),
    ensures
        path_query_ended(*query, stat, r),
{
    match stat {
        Some(s) => encode_query_info(query.level, &s, query.name.as_str()),
        None => Err(Status::OBJECT_NAME_NOT_FOUND),
    }
}

/// The position behind the last separator in the first `n` characters.
pub open spec fn last_part(p: Seq<char>, n: int) -> int
    decreases n,
{
    if n <= 0 || p[n - 1] == '/' {
        n
    } else {
        last_part(p, n - 1)
    }
}

/// The name of what the first `n` characters of a path lead to: the last
/// component that is neither empty nor a dot; empty where that leads up.
pub open spec fn file_name(p: Seq<char>, n: int) -> Seq<char>
    decreases n,
{
    let at = last_part(p, n);
    let tail = p.subrange(at, n);
    if n <= 0 {
        Seq::empty()
    } else if tail.len() == 0 || tail == "."@ {
        if at <= 0 || at > n {
            Seq::empty()
        } else {
            file_name(p, at - 1)
        }
    } else if tail == ".."@ {
        Seq::empty()
    } else {
        tail
    }
}

/// The name of what a path leads to.
pub fn file_name_of(path: &str) -> (r: String)
    ensures
        r@ == file_name(path@, path@.len() as int),
{
    let c = chars_of(path);
    let mut n: usize = c.len();
    while n > 0
        invariant
            c@ == path@,
            n <= c@.len(),
            file_name(path@, n as int) == file_name(path@, path@.len() as int),
        decreases n,
    {
        let mut at: usize = n;
        while at > 0 && c[at - 1] != '/'
            invariant
                c@ == path@,
                at <= n <= c@.len(),
                last_part(path@, at as int) == last_part(path@, n as int),
            decreases at,
        {
            at -= 1;
        }
        assert(at == last_part(path@, n as int));
        let tail = text_of_range(c.as_slice(), at, n);
        if tail.as_str().is_empty() || same_text(tail.as_str(), ".") {
            if at == 0 {
                return empty_text();
            }
            n = at - 1;
        } else if same_text(tail.as_str(), "..") {
            return empty_text();
        } else {
            return tail;
        }
    }
    empty_text()
}

fn empty_text() -> (s: String)
    ensures
        s@ == Seq::<char>::empty(),
{
    let s = String::new();
    assert(s@ =~= Seq::<char>::empty());
    s
}

/// What a query by handle asks of the file system.
pub struct FileQuery {
    pub fid: u16,
    pub level: u16,
    pub name: String,
}

/// Whether `r` is what a query by handle asks for.
pub open spec fn file_queried(conn: &ConnState, q: SubReq, r: Result<FileQuery, Status>) -> bool {
    let fid = u16_at(q.params@, 0);
    if q.params@.len() < 4 {
        r is Err && r->Err_0 == Status::INVALID_PARAMETER
    } else if !conn.handles@.contains_key(fid) {
        r is Err && r->Err_0 == Status::INVALID_HANDLE
    } else {
        let path = conn.handles@[fid].path@;
        r is Ok && r->Ok_0.fid == fid && r->Ok_0.level == u16_at(q.params@, 2) && r->Ok_0.name@ == file_name(
            path,
            path.len() as int,
        )
    }
}

/// Reads a query by handle.
pub fn query_file_info(conn: &ConnState, q: &SubReq) -> (r: Result<FileQuery, Status>)
    ensures
        file_queried(conn, *q, r),
{
    if q.params.len() < 4 {
        return Err(Status::INVALID_PARAMETER);
    }
    let fid: u16 = get_u16(q.params, 0);
    let level: u16 = get_u16(q.params, 2);
    match conn.handles.get(&fid) {
        Some(h) => Ok(FileQuery { fid, level, name: file_name_of(h.path.as_str()) }),
        None => Err(Status::INVALID_HANDLE),
    }
}

// ---------------- SET_FILE_INFO and SET_PATH_INFO ----------------

/// What a request to set information asks of the file system.
pub enum SetAction {
    Nothing,
    /// Set the write time to this FILETIME.
    WriteTime(u64),
    /// Set the length of the handle's file object.
    FileLength(u64),
    /// Open the target for writing and set its length.
    PathLength(u64),
    /// Remove the file or directory.
    Remove,
    /// Rename the target to this path below the share root.
    Rename(String),
}

/// Eight bytes at `i`; zero where they are not all there.
pub open spec fn whole_u64(d: Seq<u8>, i: int) -> u64 {
    if i + 8 <= d.len() {
        u64_at(d, i)
    } else {
        0
    }
}

pub(crate) fn get_whole_u64(d: &[u8], i: usize) -> (v: u64)
    ensures
        v == whole_u64(d@, i as int),
{
    if d.len() >= 8 && i <= d.len() - 8 {
        get_u64(d, i)
    } else {
        0
    }
}

/// The length of the new name in a rename.
pub open spec fn rename_len(d: Seq<u8>) -> int {
    if 12 <= d.len() {
        u32_at(d, 8) as int
    } else {
        0
    }
}

/// Whether a rename holds the name that it announces.
pub open spec fn rename_whole(d: Seq<u8>) -> bool {
    12 + rename_len(d) <= d.len()
}

/// The new name in a rename.
pub open spec fn rename_text(d: Seq<u8>) -> Seq<char> {
    utf16_lossy(units_of(d.subrange(12, 12 + rename_len(d))))
}

/// The levels at which information can be set.
pub open spec fn sets_basic(level: u16) -> bool {
    level == SL_BASIC || level == QL_PT_BASIC
}

/// The levels that set the length.
pub open spec fn sets_eof(level: u16) -> bool {
    level == SL_EOF || level == QL_PT_EOF
}

/// The levels that set the allocation.
pub open spec fn sets_alloc(level: u16) -> bool {
    level == SL_ALLOC || level == QL_PT_ALLOC
}

/// The levels that mark for deletion.
pub open spec fn sets_disposition(level: u16) -> bool {
    level == SL_DISPOSITION || level == QL_PT_DISPOSITION
}

/// Whether the handle has a file object.
pub open spec fn has_file(conn: &ConnState, fid: u16) -> bool {
    conn.handles@.contains_key(fid) && conn.handles@[fid].has_file
}

/// The deletion flag of a disposition.
pub open spec fn disposition_flag(d: Seq<u8>) -> bool {
    d.len() > 0 && d[0] != 0
}

/// The status a request to set information is refused with once its target is
/// known; none where it is carried out.
pub open spec fn set_refusal(level: u16, d: Seq<u8>) -> Option<Status> {
    if sets_basic(level) || sets_eof(level) || sets_alloc(level) || sets_disposition(level) {
        None
    } else if level == QL_PT_NAME && rename_whole(d) {
        None
    } else {
        Some(Status::INVALID_PARAMETER)
    }
}

/// Whether `a` is what a request to set information asks for.
pub open spec fn is_set_action(a: SetAction, conn: &ConnState, level: u16, d: Seq<u8>, by_path: bool, fid: u16) -> bool {
    let written = whole_u64(d, 16);
    let len = whole_u64(d, 0);
    if sets_basic(level) {
        if written != 0 && written != 0xFFFF_FFFF_FFFF_FFFF {
            a == SetAction::WriteTime(written)
        } else {
            a == SetAction::Nothing
        }
    } else if sets_eof(level) {
        if has_file(conn, fid) {
            a == SetAction::FileLength(len)
        } else if conn.handles@.contains_key(fid) {
            a == SetAction::Nothing
        } else {
            a == SetAction::PathLength(len)
        }
    } else if sets_alloc(level) {
        if len == 0 && has_file(conn, fid) {
            a == SetAction::FileLength(0)
        } else {
            a == SetAction::Nothing
        }
    } else if sets_disposition(level) {
        if by_path && disposition_flag(d) {
            a == SetAction::Remove
        } else {
            a == SetAction::Nothing
        }
    } else {
        a matches SetAction::Rename(t) && t@ == rename_text(d)
    }
}

/// Whether `new` is `old` with the handle marked as the disposition says.
pub open spec fn handle_marked(new: &ConnState, old: &ConnState, level: u16, d: Seq<u8>, by_path: bool, fid: u16) -> bool {
    &&& new.same_but_handles(old)
    &&& new.handles@ == if sets_disposition(level) && !by_path {
        old.handles@.insert(fid, FileHandle { delete_pending: disposition_flag(d), ..old.handles@[fid] })
    } else {
        old.handles@
    }
}

/// Reads a request to set information. `by_path` says that it names a path; the
/// handle is looked at all the same where the length is set.
fn apply_set_info(conn: &mut ConnState, level: u16, d: &[u8], by_path: bool, fid: u16) -> (r: Result<SetAction, Status>)
    requires
        !by_path ==> old(conn).handles@.contains_key(fid),
    ensures
        match set_refusal(level, d@) {
            Some(s) => r is Err && r->Err_0 == s && *final(conn) == *old(conn),
            None => r is Ok && is_set_action(r->Ok_0, old(conn), level, d@, by_path, fid) && handle_marked(
                final(conn),
                old(conn),
                level,
                d@,
                by_path,
                fid,
            ),
        },
{
    let has: bool = match conn.handles.get(&fid) {
        Some(h) => h.has_file,
        None => false,
    };
    if level == SL_BASIC || level == QL_PT_BASIC {
        let w: u64 = get_whole_u64(d, 16);
        if w != 0 && w != 0xFFFF_FFFF_FFFF_FFFF {
            return Ok(SetAction::WriteTime(w));
        }
        Ok(SetAction::Nothing)
    } else if level == SL_EOF || level == QL_PT_EOF {
        let len: u64 = get_whole_u64(d, 0);
        if has {
            Ok(SetAction::FileLength(len))
        } else if conn.handles.contains_key(&fid) {
            Ok(SetAction::Nothing)
        } else {
            Ok(SetAction::PathLength(len))
        }
    } else if level == SL_ALLOC || level == QL_PT_ALLOC {
        let len: u64 = get_whole_u64(d, 0);
        if len == 0 && has {
            Ok(SetAction::FileLength(0))
        } else {
            Ok(SetAction::Nothing)
        }
    } else if level == SL_DISPOSITION || level == QL_PT_DISPOSITION {
        let flag: bool = d.len() > 0 && d[0] != 0;
        if by_path {
            if flag {
                Ok(SetAction::Remove)
            } else {
                Ok(SetAction::Nothing)
            }
        } else {
            match conn.handles.remove(&fid) {
                Some(h) => {
                    let mut h = h;
                    h.delete_pending = flag;
                    conn.handles.insert(fid, h);
                    assert(conn.handles@ =~= old(conn).handles@.insert(
                        fid,
                        FileHandle { delete_pending: flag, ..old(conn).handles@[fid] },
                    ));
                },
                None => {},
            }
            Ok(SetAction::Nothing)
        }
    } else if level == QL_PT_NAME {
        let n: usize = if d.len() >= 12 {
            get_u32(d, 8) as usize
        } else {
            0
        };
        if d.len() < 12 || d.len() - 12 < n {
            return Err(Status::INVALID_PARAMETER);
        }
        Ok(SetAction::Rename(decode_utf16_bytes(slice_subrange(d, 12, 12 + n))))
    } else {
        Err(Status::INVALID_PARAMETER)
    }
}

/// What a request to set information asks for: its target is the handle, or the
/// named path below the root.
pub struct SetPlan {
    pub root: String,
    pub name: Option<String>,
    pub fid: u16,
    pub action: SetAction,
}

/// Whether setting information by handle takes the connection from `c0` to `c1`
/// and gives `r`.
pub open spec fn file_set(server: &ServerShared, c0: &ConnState, c1: &ConnState, tid: u16, q: SubReq, r: Result<SetPlan, Status>) -> bool {
    let fid = u16_at(q.params@, 0);
    let level = u16_at(q.params@, 2);
    let refused = if q.params@.len() < 4 {
        Some(Status::INVALID_PARAMETER)
    } else if share_behind(server, c0, tid) is None || !c0.handles@.contains_key(fid) {
        Some(Status::INVALID_HANDLE)
    } else {
        set_refusal(level, q.data@)
    };
    match refused {
        Some(s) => r is Err && r->Err_0 == s && *c1 == *c0,
        None => {
            &&& r matches Ok(p)
            &&& p.root@ == share_behind(server, c0, tid)->0.root@
            &&& p.name is None
            &&& p.fid == fid
            &&& is_set_action(p.action, c0, level, q.data@, false, fid)
            &&& handle_marked(c1, c0, level, q.data@, false, fid)
        },
    }
}

/// Reads a request to set information by handle.
pub fn set_file_info(server: &ServerShared, conn: &mut ConnState, tid: u16, q: &SubReq) -> (r: Result<SetPlan, Status>)
    requires
        server.wf(),
    ensures
        file_set(server, old(conn), final(conn), tid, *q, r),
{
    if q.params.len() < 4 {
        return Err(Status::INVALID_PARAMETER);
    }
    let fid: u16 = get_u16(q.params, 0);
    let level: u16 = get_u16(q.params, 2);
    let root = match share_root(server, conn, tid) {
        Ok(s) => s.root.clone(),
        Err(e) => {
            return Err(e);
        },
    };
    if !conn.handles.contains_key(&fid) {
        return Err(Status::INVALID_HANDLE);
    }
    match apply_set_info(conn, level, q.data, false, fid) {
        Ok(action) => Ok(SetPlan { root, name: None, fid, action }),
        Err(e) => Err(e),
    }
}

/// Whether setting information by path takes the connection from `c0` to `c1` and
/// gives `r`.
pub open spec fn path_set(server: &ServerShared, c0: &ConnState, c1: &ConnState, tid: u16, q: SubReq, r: Result<SetPlan, Status>) -> bool {
    let level = u16_at(q.params@, 0);
    let name = zstring_text(q.params@, 6, q.unicode, q.param_base as int);
    let refused = if q.params@.len() < 6 {
        Some(Status::INVALID_PARAMETER)
    } else if share_behind(server, c0, tid) is None {
        Some(Status::INVALID_HANDLE)
    } else if name.len() == 0 {
        Some(Status::INVALID_PARAMETER)
    } else {
        set_refusal(level, q.data@)
    };
    match refused {
        Some(s) => r is Err && r->Err_0 == s && *c1 == *c0,
        None => {
            &&& r matches Ok(p)
            &&& p.root@ == share_behind(server, c0, tid)->0.root@
            &&& p.name is Some
            &&& p.name->0@ == name
            &&& p.fid == 0
            &&& is_set_action(p.action, c0, level, q.data@, true, 0)
            &&& handle_marked(c1, c0, level, q.data@, true, 0)
        },
    }
}

/// Reads a request to set information by path.
pub fn set_path_info(server: &ServerShared, conn: &mut ConnState, tid: u16, q: &SubReq) -> (r: Result<SetPlan, Status>)
    requires
        server.wf(),
        q.param_base + 6 <= usize::MAX,
    ensures
        path_set(server, old(conn), final(conn), tid, *q, r),
{
    if q.params.len() < 6 {
        return Err(Status::INVALID_PARAMETER);
    }
    let level: u16 = get_u16(q.params, 0);
    let root = match share_root(server, conn, tid) {
        Ok(s) => s.root.clone(),
        Err(e) => {
            return Err(e);
        },
    };
    let mut rd = Rd::new(q.params, 6);
    let name = rd.zstring(q.unicode, q.param_base);
    if name.as_str().is_empty() {
        return Err(Status::INVALID_PARAMETER);
    }
    match apply_set_info(conn, level, q.data, true, 0) {
        Ok(action) => Ok(SetPlan { root, name: Some(name), fid: 0, action }),
        Err(e) => Err(e),
    }
}

/// Whether the handle follows a file that was renamed.
pub open spec fn handle_renamed(c0: &ConnState, c1: &ConnState, fid: u16, dest: String) -> bool {
    &&& c1.same_but_handles(c0)
    &&& c1.handles@ == if c0.handles@.contains_key(fid) {
        c0.handles@.insert(fid, FileHandle { path: dest, ..c0.handles@[fid] })
    } else {
        c0.handles@
    }
}

/// Records a rename that was carried out: the handle follows the file.
pub fn finish_rename(conn: &mut ConnState, fid: u16, dest: String)
    ensures
        handle_renamed(old(conn), final(conn), fid, dest),
{
    match conn.handles.remove(&fid) {
        Some(h) => {
            let mut h = h;
            h.path = dest;
            conn.handles.insert(fid, h);
            assert(conn.handles@ =~= old(conn).handles@.insert(
                fid,
                FileHandle { path: dest, ..old(conn).handles@[fid] },
            ));
        },
        None => {
            assert(conn.handles@ =~= old(conn).handles@);
        },
    }
}

/// Answers a request to set information that was carried out.
pub fn finish_set() -> (b: RespBody)
    ensures
        b@ == trans2_body(Seq::empty(), Seq::empty()),
{
    let d: Vec<u8> = Vec::new();
    assert(d@ =~= Seq::<u8>::empty());
    data_only(d)
}

// ---------------- laws ----------------

/// A search looks on the share of its tree for what the client gives as pattern: the part
/// behind the last slash, in the directory before it; as many names at once as bytes 2 and
/// 3 ask for, and at least one; at the level in bytes 6 and 7.
pub proof fn law_search_is_the_one_asked_for(
    server: &ServerShared,
    conn: &ConnState,
    tid: u16,
    q: SubReq,
    front: Seq<char>,
    name: Seq<char>,
    r: Result<FindPlan, Status>,
)
    requires
        find_planned(server, conn, tid, q, r),
        q.params@.len() >= 12,
        q.unicode,
        string_at(q.params@, 12, front + name, true, q.param_base as int),
        forall|k: int| 0 <= k < name.len() ==> #[trigger] name[k] != '\\' && name[k] != '/',
        front.len() > 0 ==> front.last() == '\\' || front.last() == '/',
    ensures
        ({
            let share = conn.trees@[tid]@;
            let asked = little(q.params@, 2, 2);
            &&& r is Ok <==> conn.trees@.dom().contains(tid) && server.shares@.dom().contains(share)
                && !server.shares@[share].is_ipc
            &&& r matches Ok(p) ==> {
                &&& p.root@ == server.shares@[share].root@
                &&& p.pattern@ == front + name
                &&& p.name_pat@ == name
                &&& front.len() == 0 ==> p.dir@.len() == 0
                &&& p.wild <==> (front + name).contains('*') || (front + name).contains('?')
                &&& asked > 0 ==> p.count == asked
                &&& asked == 0 ==> p.count == 1
                &&& p.flags == little(q.params@, 4, 2)
                &&& p.level == little(q.params@, 6, 2)
            }
        }),
{
    let t = front + name;
    lemma_string_at(q.params@, 12, t, true, q.param_base as int);
    lemma_little(q.params@, 2);
    lemma_little(q.params@, 4);
    lemma_little(q.params@, 6);
    law_pattern_is_split_behind_its_last_slash(front, name);
    if front.len() == 0 {
        assert(t =~= name);
        lemma_leading_are_slashes(name);
        assert(without_leading(name) =~= name);
        lemma_last_slash(name, name.len() as int);
    }
}

/// One file is looked up only where the pattern has no wildcards and names a file that is
/// there; else the directory is listed, where it is there.
pub proof fn law_search_looks_in_the_right_place(plan: FindPlan, names_file: bool, dir_exists: bool, r: Result<FindStep, Status>)
    requires
        step_picked(plan, names_file, dir_exists, r),
    ensures
        r == Ok::<FindStep, Status>(FindStep::File) <==> !plan.wild && names_file,
        (plan.wild || !names_file) && dir_exists ==> r == Ok::<FindStep, Status>(FindStep::Directory),
        (plan.wild || !names_file) && !dir_exists ==> r is Err,
{
}

/// A search that is begun is kept under the id that the answer tells, with the names that
/// are still to come; it is said to be at its end where none are, or where the lowest bit
/// of its flags asks for that. The answer counts the names that came.
#[verifier::rlimit(40)]
#[verifier::spinoff_prover]
pub proof fn law_begun_search_is_kept(
    c0: &ConnState,
    c1: &ConnState,
    i0: Ids,
    i1: Ids,
    plan: FindPlan,
    dir: String,
    later: Vec<String>,
    found: Seq<Found>,
    unicode: bool,
    b: BodyView,
    other: u16,
)
    requires
        search_begun(c0, c1, i0, i1, plan, dir, later, found, unicode, b),
        found.len() < 0x1_0000,
    ensures
        ({
            let p = b.bytes.subrange(1, 11);
            let sid = little(p, 0, 2) as u16;
            &&& c1.searches@.dom().contains(sid)
            &&& c1.searches@[sid].queue@ == later@
            &&& c1.searches@[sid].info_level == plan.level
            &&& c1.searches@[sid].base_dir@ == dir@
            &&& other != sid ==> c1.searches@.dom().contains(other) == c0.searches@.dom().contains(other)
                && c1.searches@[other] == c0.searches@[other]
            &&& little(p, 2, 2) == found.len()
            &&& little(p, 4, 2) == 1 <==> later@.len() == 0 || plan.flags % 2 == 1
            &&& c1.handles@ == c0.handles@ && c1.trees@ == c0.trees@
        }),
{
    let n = found.len() as int;
    let f = plan.flags;
    assert((f & 0x0001 != 0) == (f % 2 == 1)) by (bit_vector);
    let end = later@.len() == 0 || f & 0x0001 != 0;
    let last = last_entry(found, n, plan.level, unicode);
    let p = find_first_params(i0.sid, n, end, last);
    let d = entries_bytes(found, n, plan.level, unicode);
    law_search_answer_fields(i0.sid, n, end, last);
    assert(trans2_bytes(p, d).subrange(1, 11) =~= p);
}

/// The answer to a search tells its id, how many names came, and whether there are more.
#[verifier::rlimit(40)]
#[verifier::spinoff_prover]
pub proof fn law_search_answer_fields(sid: u16, count: int, end: bool, last: int)
    requires
        0 <= count < 0x1_0000,
    ensures
        ({
            let p = find_first_params(sid, count, end, last);
            &&& p.len() == 10
            &&& little(p, 0, 2) == sid
            &&& little(p, 2, 2) == count
            &&& little(p, 4, 2) == if end {
                1int
            } else {
                0
            }
        }),
{
    let c = (count % 65536) as u16;
    let e: u16 = if end {
        1
    } else {
        0
    };
    let l = (last % 65536) as u16;
    let p = find_first_params(sid, count, end, last);
    let q0 = le16(c) + le16(e) + le16(0) + le16(l);
    assert(p =~= Seq::<u8>::empty() + le16(sid) + q0);
    lemma_little_written(Seq::empty(), sid, 0, 0, q0);
    let q1 = le16(e) + le16(0) + le16(l);
    assert(p =~= le16(sid) + le16(c) + q1);
    lemma_little_written(le16(sid), c, 0, 0, q1);
    let p2 = le16(sid) + le16(c);
    assert(p =~= p2 + le16(e) + (le16(0) + le16(l)));
    lemma_little_written(p2, e, 0, 0, le16(0) + le16(l));
}

/// A search goes on where it stopped: under the id in bytes 0 and 1, the next names come in
/// order, as many as bytes 2 and 3 ask for as far as there are so many, and leave the
/// queue; other searches stay. It is at its end where no name is left, or where the lowest
/// bit of bytes 10 and 11 asks for that.
#[verifier::rlimit(40)]
#[verifier::spinoff_prover]
pub proof fn law_search_goes_on_where_it_stopped(
    c0: &ConnState,
    c1: &ConnState,
    q: SubReq,
    r: Result<NextPlan, Status>,
    i: int,
    other: u16,
)
    requires
        find_continued(c0, c1, q, r),
        q.params@.len() >= 12,
    ensures
        ({
            let sid = little(q.params@, 0, 2) as u16;
            let asked = little(q.params@, 2, 2);
            let was = c0.searches@[sid].queue@;
            let left = c1.searches@[sid].queue@;
            &&& r is Ok <==> c0.searches@.dom().contains(sid)
            &&& r matches Ok(v) ==> {
                &&& v.names@.len() + left.len() == was.len()
                &&& 0 < asked <= was.len() ==> v.names@.len() == asked
                &&& asked > was.len() ==> left.len() == 0
                &&& 0 <= i < v.names@.len() ==> v.names@[i]@ == was[i]@
                &&& v.end <==> left.len() == 0 || little(q.params@, 10, 2) % 2 == 1
                &&& v.base_dir@ == c0.searches@[sid].base_dir@
                &&& little(q.params@, 4, 2) != 0 ==> v.level == little(q.params@, 4, 2)
                &&& little(q.params@, 4, 2) == 0 ==> v.level == c0.searches@[sid].info_level
            }
            &&& other != sid ==> c1.searches@.dom().contains(other) == c0.searches@.dom().contains(other)
                && c1.searches@[other] == c0.searches@[other]
        }),
{
    lemma_little(q.params@, 0);
    lemma_little(q.params@, 2);
    lemma_little(q.params@, 4);
    lemma_little(q.params@, 10);
    let f = u16_at(q.params@, 10);
    assert((f & 0x0001 != 0) == (f % 2 == 1)) by (bit_vector);
    let sid = u16_at(q.params@, 0);
    if c0.searches@.contains_key(sid) {
        let v = r->Ok_0;
        let was = c0.searches@[sid].queue@;
        let left = c1.searches@[sid].queue@;
        assert(texts(v.names@).len() == v.names@.len());
        assert(texts(left).len() == left.len());
        assert(texts(was).len() == was.len());
        assert((texts(v.names@) + texts(left)).len() == texts(was).len());
        if 0 <= i < v.names@.len() {
            assert((texts(v.names@) + texts(left))[i] == texts(v.names@)[i]);
            assert(texts(v.names@)[i] == v.names@[i]@);
            assert(texts(was)[i] == was[i]@);
        }
    }
}

/// A query by path is about the path that the client names, on the share of its tree, at
/// the level in bytes 0 and 1.
pub proof fn law_path_query_is_about_the_path_named(
    server: &ServerShared,
    conn: &ConnState,
    tid: u16,
    q: SubReq,
    t: Seq<char>,
    r: Result<PathQuery, Status>,
)
    requires
        path_queried(server, conn, tid, q, r),
        q.params@.len() >= 6,
        q.unicode,
        string_at(q.params@, 6, t, true, q.param_base as int),
    ensures
        ({
            let share = conn.trees@[tid]@;
            &&& r is Ok <==> conn.trees@.dom().contains(tid) && server.shares@.dom().contains(share) && t.len() > 0
            &&& r matches Ok(p) ==> p.name@ == t && p.root@ == server.shares@[share].root@ && p.level
                == little(q.params@, 0, 2)
        }),
{
    lemma_string_at(q.params@, 6, t, true, q.param_base as int);
    lemma_little(q.params@, 0);
}

/// A query by handle is about the open file in bytes 0 and 1, at the level in bytes 2 and
/// 3.
pub proof fn law_file_query_is_about_its_handle(conn: &ConnState, q: SubReq, r: Result<FileQuery, Status>)
    requires
        file_queried(conn, q, r),
        q.params@.len() >= 4,
    ensures
        ({
            let fid = little(q.params@, 0, 2) as u16;
            &&& r is Ok <==> conn.handles@.dom().contains(fid)
            &&& r matches Ok(p) ==> p.fid == fid && p.level == little(q.params@, 2, 2)
        }),
{
    lemma_little(q.params@, 0);
    lemma_little(q.params@, 2);
}

proof fn lemma_last_part(p: Seq<char>, n: int)
    requires
        0 <= n <= p.len(),
    ensures
        0 <= last_part(p, n) <= n,
        forall|k: int| last_part(p, n) <= k < n ==> #[trigger] p[k] != '/',
        last_part(p, n) > 0 ==> p[last_part(p, n) - 1] == '/',
    decreases n,
{
    if n > 0 && p[n - 1] != '/' {
        lemma_last_part(p, n - 1);
    }
}

/// A file is known under its last name: what stands behind the last separator of its path.
pub proof fn law_file_is_known_by_its_last_name(front: Seq<char>, name: Seq<char>)
    requires
        name.len() > 0,
        name != "."@,
        name != ".."@,
        forall|k: int| 0 <= k < name.len() ==> #[trigger] name[k] != '/',
        front.len() > 0 ==> front.last() == '/',
    ensures
        file_name(front + name, (front + name).len() as int) == name,
{
    let p = front + name;
    let n = p.len() as int;
    lemma_last_part(p, n);
    let at = last_part(p, n);
    if at < front.len() {
        assert(p[front.len() - 1] == front.last());
    }
    if at > front.len() {
        assert(p[at - 1] == name[at - 1 - front.len()]);
    }
    assert(p.subrange(at, n) =~= name);
}

/// A query is answered with what its level stands for: the sizes of the file, its times,
/// its attributes; of a path that is not there, with nothing.
#[verifier::rlimit(40)]
#[verifier::spinoff_prover]
pub proof fn law_query_tells_the_file(query: PathQuery, stat: Option<FileStat>, r: Result<RespBody, Status>)
    requires
        path_query_ended(query, stat, r),
    ensures
        stat is None ==> r is Err,
        stat matches Some(s) ==> {
            let l = query.level;
            let b = r->Ok_0@.bytes;
            let d = b.subrange(1, b.len() as int);
            let eof = if s.is_dir {
                0
            } else {
                s.len
            };
            &&& l == 0x104 || l == 0x100C ==> r is Ok && little(d, 0, 8) == eof
            &&& l == 0x1006 ==> r is Ok && little(d, 0, 8) == s.ino
            &&& l == 0x101 || l == 0x1004 || l == 0x4 ==> r is Ok && little(d, 16, 8) == stat_times(s)[2] && little(d, 32, 4)
                == stat_attrs(s)
            &&& l == 0x1005 || l == 0x5 ==> r is Ok && little(d, 8, 8) == eof && (d[21] == 1 <==> s.is_dir)
            &&& l == 0 || l == 0xFFFF ==> r is Err
        },
{
    match stat {
        Some(s) => {
            lemma_query_data(query.level, s, query.name@);
            match query_data(query.level, s, query.name@) {
                Some(d) => {
                    let t = trans2_bytes(Seq::empty(), d);
                    if d.len() > 0 {
                        assert(t =~= zeros(1) + d);
                        assert(t.subrange(1, t.len() as int) =~= d);
                    }
                },
                None => {},
            }
        },
        None => {},
    }
}

#[verifier::rlimit(40)]
#[verifier::spinoff_prover]
proof fn lemma_query_data(l: u16, s: FileStat, name: Seq<char>)
    ensures
        ({
            let d = query_data(l, s, name)->0;
            let eof = stat_eof(s);
            &&& l == 0x104 || l == 0x100C || l == 0x1006 || l == 0x101 || l == 0x1004 || l == 0x4 || l == 0x1005 || l == 0x5
                ==> query_data(l, s, name) is Some && d.len() > 0
            &&& l == 0x104 || l == 0x100C ==> little(d, 0, 8) == eof
            &&& l == 0x1006 ==> little(d, 0, 8) == s.ino
            &&& l == 0x101 || l == 0x1004 || l == 0x4 ==> little(d, 16, 8) == stat_times(s)[2] && little(d, 32, 4)
                == stat_attrs(s)
            &&& l == 0x1005 || l == 0x5 ==> little(d, 8, 8) == eof && (d[21] == 1 <==> s.is_dir)
            &&& l == 0 || l == 0xFFFF ==> query_data(l, s, name) is None
        }),
{
    let e = Seq::<u8>::empty();
    let eof = stat_eof(s);
    let alloc = stat_alloc(s);
    lemma_little_written(e, 0, 0, eof, e);
    assert(e + le64(eof) + e =~= le64(eof));
    lemma_little_written(e, 0, 0, s.ino, e);
    assert(e + le64(s.ino) + e =~= le64(s.ino));
    let t = stat_times(s);
    let attrs = stat_attrs(s);
    let basic = times_bytes(t) + le32(attrs);
    let pre = le64(t[0]) + le64(t[1]);
    assert(basic =~= pre + le64(t[2]) + (le64(t[3]) + le32(attrs)));
    lemma_little_written(pre, 0, 0, t[2], le64(t[3]) + le32(attrs));
    assert(basic =~= times_bytes(t) + le32(attrs) + e);
    lemma_little_written(times_bytes(t), 0, attrs, 0, e);
    lemma_standard(alloc, eof, attrs & ATTR_READONLY != 0, s.is_dir, e);
    lemma_standard(alloc, eof, false, s.is_dir, le16(0));
    let q = standard_bytes(alloc, eof, attrs & ATTR_READONLY != 0, s.is_dir);
    assert(q + e =~= q);
}

proof fn lemma_standard(alloc: u64, eof: u64, pending: bool, is_dir: bool, post: Seq<u8>)
    ensures
        ({
            let d = standard_bytes(alloc, eof, pending, is_dir) + post;
            little(d, 8, 8) == eof && (d[21] == 1 <==> is_dir) && d.len() >= 22
        }),
{
    reveal(standard_bytes);
    let d = standard_bytes(alloc, eof, pending, is_dir) + post;
    let tail = le32(1) + flag_byte(pending) + flag_byte(is_dir) + post;
    assert(d =~= le64(alloc) + le64(eof) + tail);
    lemma_little_written(le64(alloc), 0, 0, eof, tail);
}

/// A change of an open file is the one that its level stands for, with the value in its
/// data, on the handle in bytes 0 and 1: its length, its write time, whether it is deleted
/// on close. Nothing is changed through a handle that is not open, and no other handle is
/// touched.
#[verifier::rlimit(40)]
#[verifier::spinoff_prover]
pub proof fn law_open_file_is_changed_as_asked(
    server: &ServerShared,
    c0: &ConnState,
    c1: &ConnState,
    tid: u16,
    q: SubReq,
    r: Result<SetPlan, Status>,
    other: u16,
)
    requires
        file_set(server, c0, c1, tid, q, r),
        q.params@.len() >= 4,
        q.data@.len() >= 24,
    ensures
        ({
            let fid = little(q.params@, 0, 2) as u16;
            let level = little(q.params@, 2, 2);
            let there = conn_share(server, c0, tid) && c0.handles@.dom().contains(fid);
            let size = little(q.data@, 0, 8) as u64;
            let time = little(q.data@, 16, 8) as u64;
            &&& r is Ok ==> there
            &&& r is Err ==> *c1 == *c0
            &&& r matches Ok(p) ==> p.fid == fid && p.name is None
            &&& there && (level == 0x104 || level == 0x100C) && c0.handles@[fid].has_file ==> (r matches Ok(p) && p.action
                == SetAction::FileLength(size))
            &&& there && (level == 0x101 || level == 0x1004) && 0 < time < 0xFFFF_FFFF_FFFF_FFFF ==> (r matches Ok(p)
                && p.action == SetAction::WriteTime(time))
            &&& there && (level == 0x102 || level == 0x100D) ==> r is Ok && c1.handles@.dom().contains(fid)
                && c1.handles@[fid].delete_pending == (q.data@[0] != 0) && c1.handles@[fid].path == c0.handles@[fid].path
            &&& level != 0x102 && level != 0x100D ==> c1.handles@ == c0.handles@
            &&& other != fid ==> c1.handles@.dom().contains(other) == c0.handles@.dom().contains(other)
                && c1.handles@[other] == c0.handles@[other]
        }),
{
    lemma_little(q.params@, 0);
    lemma_little(q.params@, 2);
    lemma_little(q.data@, 0);
    lemma_little(q.data@, 16);
}

/// Whether a tree leads to a share of the server.
pub open spec fn conn_share(server: &ServerShared, conn: &ConnState, tid: u16) -> bool {
    conn.trees@.dom().contains(tid) && server.shares@.dom().contains(conn.trees@[tid]@)
}

/// A change by path is about the path that the client names, on the share of its tree: a
/// write time that is set, a file that is removed. It touches no open handle.
#[verifier::rlimit(40)]
#[verifier::spinoff_prover]
pub proof fn law_path_is_changed_as_asked(
    server: &ServerShared,
    c0: &ConnState,
    c1: &ConnState,
    tid: u16,
    q: SubReq,
    t: Seq<char>,
    r: Result<SetPlan, Status>,
)
    requires
        path_set(server, c0, c1, tid, q, r),
        q.params@.len() >= 6,
        q.data@.len() >= 24,
        q.unicode,
        string_at(q.params@, 6, t, true, q.param_base as int),
    ensures
        ({
            let level = little(q.params@, 0, 2);
            let time = little(q.data@, 16, 8) as u64;
            let there = conn_share(server, c0, tid) && t.len() > 0;
            &&& r is Ok ==> there
            &&& c1.handles@ == c0.handles@ && c1.trees@ == c0.trees@
            &&& r matches Ok(p) ==> (p.name matches Some(n) && n@ == t) && p.root@ == server.shares@[c0.trees@[tid]@].root@
            &&& there && (level == 0x101 || level == 0x1004) && 0 < time < 0xFFFF_FFFF_FFFF_FFFF ==> (r matches Ok(p)
                && p.action == SetAction::WriteTime(time))
            &&& there && (level == 0x102 || level == 0x100D) && q.data@[0] != 0 ==> (r matches Ok(p) && p.action
                == SetAction::Remove)
            &&& there && (level == 0x102 || level == 0x100D) && q.data@[0] == 0 ==> (r matches Ok(p) && p.action
                == SetAction::Nothing)
        }),
{
    lemma_string_at(q.params@, 6, t, true, q.param_base as int);
    lemma_little(q.params@, 0);
    lemma_little(q.data@, 0);
    lemma_little(q.data@, 16);
}

/// A handle follows the file that is renamed through it; no other handle does.
pub proof fn law_handle_follows_its_file(c0: &ConnState, c1: &ConnState, fid: u16, dest: String, other: u16)
    requires
        handle_renamed(c0, c1, fid, dest),
    ensures
        c0.handles@.dom().contains(fid) ==> c1.handles@.dom().contains(fid) && c1.handles@[fid].path@ == dest@
            && c1.handles@[fid].has_file == c0.handles@[fid].has_file && c1.handles@[fid].access_write
            == c0.handles@[fid].access_write,
        other != fid ==> c1.handles@.dom().contains(other) == c0.handles@.dom().contains(other) && c1.handles@[other]
            == c0.handles@[other],
        !c0.handles@.dom().contains(fid) ==> c1.handles@ == c0.handles@,
{
}

/// The file system is told to have 512 bytes in a sector, and a volume the time that it is.
#[verifier::rlimit(40)]
#[verifier::spinoff_prover]
pub proof fn law_file_system_is_told(now: u64)
    ensures
        fs_data(0x103, now) matches Some(d) && little(d, 0, 8) == 1_048_576 && little(d, 8, 8) == 524_288 && little(d, 16, 4)
            == 64 && little(d, 20, 4) == 512,
        fs_data(0x102, now) matches Some(d) && little(d, 0, 8) == now,
        fs_data(0, now) is None,
{
    let e = Seq::<u8>::empty();
    let d = le64(1_048_576) + le64(524_288) + le32(64) + le32(512);
    assert(d =~= e + le64(1_048_576) + (le64(524_288) + le32(64) + le32(512)));
    lemma_little_written(e, 0, 0, 1_048_576, le64(524_288) + le32(64) + le32(512));
    assert(d =~= le64(1_048_576) + le64(524_288) + (le32(64) + le32(512)));
    lemma_little_written(le64(1_048_576), 0, 0, 524_288, le32(64) + le32(512));
    let p = le64(1_048_576) + le64(524_288);
    assert(d =~= p + le32(64) + le32(512));
    lemma_little_written(p, 0, 64, 0, le32(512));
    assert(d =~= (p + le32(64)) + le32(512) + e);
    lemma_little_written(p + le32(64), 0, 512, 0, e);
    let v = le64(now) + le32(0x1234_5678) + counted_name("RUSTSMB"@);
    assert(v =~= e + le64(now) + (le32(0x1234_5678) + counted_name("RUSTSMB"@)));
    lemma_little_written(e, 0, 0, now, le32(0x1234_5678) + counted_name("RUSTSMB"@));
}

/// Every name of which something is known has its entry in a listing, in order: the listing
/// of more names starts with that of fewer, and the last entry starts where it says.
pub proof fn law_listing_grows_by_entries(e: Seq<Found>, n: int, level: u16, unicode: bool)
    requires
        0 < n <= e.len(),
    ensures
        ({
            let all = entries_bytes(e, n, level, unicode);
            let front = entries_bytes(e, n - 1, level, unicode);
            &&& front.len() <= all.len()
            &&& all.subrange(0, front.len() as int) == front
            &&& e[n - 1].stat is None ==> all == front
            &&& e[n - 1].stat matches Some(s) ==> {
                &&& last_entry(e, n, level, unicode) == front.len()
                &&& all.subrange(front.len() as int, all.len() as int) == entry_bytes(e[n - 1].name@, s, level, unicode)
            }
        }),
{
    let all = entries_bytes(e, n, level, unicode);
    let front = entries_bytes(e, n - 1, level, unicode);
    assert(all.subrange(0, front.len() as int) =~= front);
    match e[n - 1].stat {
        Some(s) => {
            assert(all.subrange(front.len() as int, all.len() as int) =~= entry_bytes(e[n - 1].name@, s, level, unicode));
        },
        None => {},
    }
}

/// An entry at the level that clients use most tells the size of the file, its attributes,
/// and ends with its name, up to padding.
#[verifier::rlimit(40)]
#[verifier::spinoff_prover]
pub proof fn law_entry_tells_the_file(name: Seq<char>, s: FileStat)
    requires
        utf16_bytes(name).len() < 0x1_0000_0000,
    ensures
        ({
            let b = entry_bytes(name, s, 0x104, true);
            let nb = utf16_bytes(name);
            &&& little(b, 40, 8) == if s.is_dir {
                0
            } else {
                s.len
            }
            &&& little(b, 56, 4) == stat_attrs(s)
            &&& little(b, 60, 4) == nb.len()
            &&& b.len() >= 94 + nb.len()
            &&& b.subrange(94, 94 + nb.len() as int) == nb
        }),
{
    let nb = utf16_bytes(name);
    let t = stat_times(s);
    let eof = stat_eof(s);
    let alloc = rounded(eof as int, 512) as u64;
    let head = le32(low32(entry_size(name, 0x104, true))) + le32(0) + times_bytes(t);
    let attrs = stat_attrs(s);
    let n = low32(nb.len() as int);
    let tail = le32(0) + zeros(26) + nb;
    let f = entry_fields(name, s, 0x104, true);
    assert(f =~= head + le64(eof) + (le64(alloc) + le32(attrs) + le32(n) + tail));
    let b = entry_bytes(name, s, 0x104, true);
    let pad = b.subrange(f.len() as int, b.len() as int);
    assert(b =~= f + pad);
    let q0 = le64(alloc) + le32(attrs) + le32(n) + tail + pad;
    assert(b =~= head + le64(eof) + q0);
    lemma_little_written(head, 0, 0, eof, q0);
    let p1 = head + le64(eof) + le64(alloc);
    let q1 = le32(n) + tail + pad;
    assert(b =~= p1 + le32(attrs) + q1);
    lemma_little_written(p1, 0, attrs, 0, q1);
    let p2 = p1 + le32(attrs);
    assert(b =~= p2 + le32(n) + (tail + pad));
    lemma_little_written(p2, 0, n, 0, tail + pad);
    assert(b.subrange(94, 94 + nb.len() as int) =~= nb);
}

} // verus!
