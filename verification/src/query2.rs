//! SMB2 directory listings and file information.
use vstd::prelude::*;
use crate::conn2::Smb2Conn;
use crate::security::{descriptor_bytes, descriptor_parts, query_security, selected, source_parts, Parts, DEFAULT};
use crate::smb::Status;
use crate::text::{chars_of, concat, is_slash, lowercase, text_of, text_of_range, to_lowercase};
use crate::vfs::{Entry, FileMeta};
use crate::wildcard::{dir_cmds_split, found_by, last_slash, law_pattern_is_split_behind_its_last_slash, leading_slashes, lemma_last_slash, lemma_leading_are_slashes, pattern_split, trim_leading_slashes, wild, wildcard_match, without_leading};
use crate::wire2::{QueryDirReq, QueryInfoReq, SetInfoReq};

verus! {

// ---------------- directory listings ----------------

/// Starts the listing again.
pub const FIND_RESTART: u8 = 0x01;

/// Returns one entry only.
pub const FIND_SINGLE: u8 = 0x02;

/// Starts at an index.
pub const FIND_INDEX: u8 = 0x04;

/// Opens the directory again.
pub const FIND_REOPEN: u8 = 0x10;

/// The most entries of one answer.
pub const BATCH: usize = 512;

/// A text without the slashes at its end.
pub open spec fn without_trailing(s: Seq<char>) -> Seq<char>
    decreases s.len(),
{
    if s.len() > 0 && is_slash(s.last()) {
        without_trailing(s.drop_last())
    } else {
        s
    }
}

/// The directory that a search pattern lists, below the open directory.
pub open spec fn listed_dir(rel: Seq<char>, dir: Seq<char>) -> Seq<char> {
    if dir.len() == 0 {
        rel
    } else if rel.len() == 0 {
        dir
    } else {
        without_trailing(rel) + "\\"@ + dir
    }
}

/// How a listing goes on.
pub enum DirPlan {
    Refuse(Status),
    /// What is left of the listing is returned.
    Continue,
    /// The directory is read, and the names that the pattern finds are returned.
    List { rel: String, pattern: String },
}

/// Whether a listing starts anew.
pub open spec fn starts_listing(c: &Smb2Conn, req: QueryDirReq) -> bool {
    !c.searches@.contains_key(req.file_id) || req.flags & 0x15 != 0
}

/// Whether a listing goes on as it should.
pub open spec fn listing_planned(c: &Smb2Conn, req: QueryDirReq, r: DirPlan) -> bool {
    if !starts_listing(c, req) {
        r is Continue
    } else if !c.handles@.contains_key(req.file_id) {
        r == DirPlan::Refuse(Status::INVALID_HANDLE)
    } else if !c.handles@[req.file_id].is_dir {
        r == DirPlan::Refuse(Status::INVALID_PARAMETER)
    } else {
        let parts = pattern_split(req.pattern@);
        r matches DirPlan::List { rel, pattern } && rel@ == listed_dir(c.handles@[req.file_id].rel@, parts.0) && pattern@
            == parts.1
    }
}

pub(crate) fn trim_trailing_slashes(s: &str) -> (r: String)
    ensures
        r@ == without_trailing(s@),
{
    let c = chars_of(s);
    let n: usize = c.len();
    let mut i: usize = n;
    assert(c@.subrange(0, n as int) =~= c@);
    while i > 0 && (c[i - 1] == '\\' || c[i - 1] == '/')
        invariant
            i <= n == c@.len(),
            c@ == s@,
            without_trailing(c@) == without_trailing(c@.subrange(0, i as int)),
        decreases i,
    {
        assert(c@.subrange(0, i as int).drop_last() =~= c@.subrange(0, i - 1));
        i -= 1;
    }
    text_of_range(c.as_slice(), 0, i)
}

fn join_dir(rel: &str, dir: String) -> (r: String)
    ensures
        r@ == listed_dir(rel@, dir@),
{
    if dir.as_str().unicode_len() == 0 {
        rel.to_owned()
    } else if rel.unicode_len() == 0 {
        dir
    } else {
        let a = trim_trailing_slashes(rel);
        let b = concat(a.as_str(), "\\");
        concat(b.as_str(), dir.as_str())
    }
}

/// Plans a directory listing.
pub fn plan_query_directory(conn: &Smb2Conn, req: &QueryDirReq) -> (r: DirPlan)
    requires
        conn.wf(),
    ensures
        listing_planned(conn, *req, r),
{
    if conn.searches.contains(&req.file_id) && req.flags & 0x15 == 0 {
        return DirPlan::Continue;
    }
    match conn.handles.get(&req.file_id) {
        None => DirPlan::Refuse(Status::INVALID_HANDLE),
        Some(h) => {
            if !h.is_dir {
                return DirPlan::Refuse(Status::INVALID_PARAMETER);
            }
            let (dir, pattern) = dir_cmds_split(req.pattern.as_str());
            DirPlan::List { rel: join_dir(h.rel.as_str(), dir), pattern }
        },
    }
}

/// Name and metadata of entries.
pub open spec fn shown(e: Seq<Entry>) -> Seq<(Seq<char>, FileMeta)> {
    Seq::new(e.len(), |i: int| (e[i].name@, e[i].meta))
}

/// The test of a pattern on entries; an empty pattern takes all.
pub open spec fn picks(pat: Seq<char>) -> spec_fn((Seq<char>, FileMeta)) -> bool {
    |e: (Seq<char>, FileMeta)| pat.len() == 0 || found_by(e.0, pat)
}

/// The entries that a listing returns: the directory itself and its parent, then
/// the children, as far as the pattern takes them.
pub open spec fn picked(children: Seq<(Seq<char>, FileMeta)>, dot: FileMeta, pat: Seq<char>) -> Seq<(Seq<char>, FileMeta)> {
    (seq![("."@, dot), (".."@, dot)] + children).filter(picks(pat))
}

/// How many entries are passed over at the start.
pub open spec fn skipped(req: QueryDirReq, n: int) -> int {
    if req.flags & FIND_INDEX != 0 {
        if req.file_index <= n {
            req.file_index as int
        } else {
            n
        }
    } else {
        0
    }
}

fn pick_entries(children: Vec<Entry>, dot: FileMeta, pat: &str) -> (r: Vec<Entry>)
    ensures
        shown(r@) == picked(shown(children@), dot, pat@),
{
    let lower = to_lowercase(pat);
    let all: bool = pat.unicode_len() == 0;
    let mut rest = children;
    let mut queue: Vec<Entry> = Vec::new();
    queue.push(Entry { name: ".".to_owned(), meta: dot });
    queue.push(Entry { name: "..".to_owned(), meta: dot });
    let ghost dots = queue@;
    queue.append(&mut rest);
    let ghost every = shown(queue@);
    assert(every =~= seq![("."@, dot), (".."@, dot)] + shown(children@));
    let n: usize = queue.len();
    let mut r: Vec<Entry> = Vec::new();
    let mut i: usize = 0;
    proof {
        reveal(Seq::filter);
        assert(every.take(0) =~= Seq::<(Seq<char>, FileMeta)>::empty());
        assert(shown(r@) =~= Seq::<(Seq<char>, FileMeta)>::empty());
    }
    while i < n
        invariant
            i <= n == queue@.len(),
            every == shown(queue@),
            lower@ == lowercase(pat@),
            all == (pat@.len() == 0),
            shown(r@) == every.take(i as int).filter(picks(pat@)),
        decreases n - i,
    {
        reveal(Seq::filter);
        assert(every.take(i + 1).drop_last() =~= every.take(i as int));
        assert(every.take(i + 1).last() == every[i as int]);
        let name = to_lowercase(queue[i].name.as_str());
        if all || wildcard_match(name.as_str(), lower.as_str()) {
            let ghost before = shown(r@);
            let e = Entry { name: queue[i].name.clone(), meta: queue[i].meta };
            r.push(e);
            assert(shown(r@) =~= before.push(every[i as int]));
        }
        i += 1;
    }
    assert(every.take(n as int) =~= every);
    r
}

/// Whether a listing is kept on the connection.
pub open spec fn listing_kept(
    c0: &Smb2Conn,
    c1: &Smb2Conn,
    req: QueryDirReq,
    left: Seq<(Seq<char>, FileMeta)>,
) -> bool {
    &&& *c1 == (Smb2Conn { searches: c1.searches, ..*c0 })
    &&& c1.searches.wf()
    &&& c1.searches@.contains_key(req.file_id)
    &&& c1.searches@ == c0.searches@.insert(req.file_id, c1.searches@[req.file_id])
    &&& shown(c1.searches@[req.file_id]@) == left
}

/// Whether a listing starts with what a directory holds.
pub open spec fn listing_started(
    c0: &Smb2Conn,
    c1: &Smb2Conn,
    req: QueryDirReq,
    pat: Seq<char>,
    dot: FileMeta,
    children: Seq<Entry>,
) -> bool {
    let all = picked(shown(children), dot, pat);
    listing_kept(c0, c1, req, all.subrange(skipped(req, all.len() as int), all.len() as int))
}

/// Keeps what a directory holds for the answers to a listing. `dot` is the metadata
/// of the directory itself.
pub fn keep_listing(conn: &mut Smb2Conn, req: &QueryDirReq, pat: &str, dot: FileMeta, children: Vec<Entry>)
    requires
        old(conn).wf(),
    ensures
        final(conn).wf(),
        listing_started(old(conn), final(conn), *req, pat@, dot, children@),
{
    let mut all = pick_entries(children, dot, pat);
    let ghost every = shown(all@);
    let n: usize = all.len();
    let skip: usize = if req.flags & FIND_INDEX != 0 {
        if req.file_index as usize <= n {
            req.file_index as usize
        } else {
            n
        }
    } else {
        0
    };
    let left = all.split_off(skip);
    assert(shown(left@) =~= every.subrange(skip as int, every.len() as int));
    conn.searches.insert(req.file_id, left);
    assert(conn.searches@ =~= old(conn).searches@.insert(req.file_id, conn.searches@[req.file_id]));
}

/// How many entries the next answer returns.
pub open spec fn batch_len(flags: u8, left: int) -> int {
    let most = if flags & FIND_SINGLE != 0 {
        1
    } else {
        BATCH as int
    };
    if left <= most {
        left
    } else {
        most
    }
}

/// Whether an answer takes the connection from `c0` to `c1` and returns `r`: the next
/// entries of the listing; none where it is at its end.
pub open spec fn batch_taken(
    c0: &Smb2Conn,
    c1: &Smb2Conn,
    req: QueryDirReq,
    r: Result<Option<Vec<Entry>>, Status>,
) -> bool {
    if !c0.searches@.contains_key(req.file_id) {
        r == Err::<Option<Vec<Entry>>, Status>(Status::INVALID_PARAMETER) && *c1 == *c0
    } else {
        let all = shown(c0.searches@[req.file_id]@);
        let n = batch_len(req.flags, all.len() as int);
        &&& listing_kept(c0, c1, req, all.subrange(n, all.len() as int))
        &&& if n == 0 {
            r matches Ok(None)
        } else {
            r matches Ok(Some(v)) && shown(v@) == all.subrange(0, n)
        }
    }
}

/// Takes the entries of the next answer; none where the listing is at its end.
pub fn take_batch(conn: &mut Smb2Conn, req: &QueryDirReq) -> (r: Result<Option<Vec<Entry>>, Status>)
    requires
        old(conn).wf(),
    ensures
        final(conn).wf(),
        batch_taken(old(conn), final(conn), *req, r),
{
    if !conn.searches.contains(&req.file_id) {
        return Err(Status::INVALID_PARAMETER);
    }
    match conn.searches.remove(&req.file_id) {
        None => Err(Status::INVALID_PARAMETER),
        Some(q) => {
            let mut q = q;
            let ghost all = shown(q@);
            let most: usize = if req.flags & FIND_SINGLE != 0 {
                1
            } else {
                BATCH
            };
            let n: usize = if q.len() <= most {
                q.len()
            } else {
                most
            };
            let left = q.split_off(n);
            assert(shown(left@) =~= all.subrange(n as int, all.len() as int));
            assert(shown(q@) =~= all.subrange(0, n as int));
            conn.searches.insert(req.file_id, left);
            assert(conn.searches@ =~= old(conn).searches@.insert(req.file_id, conn.searches@[req.file_id]));
            if n == 0 {
                Ok(None)
            } else {
                Ok(Some(q))
            }
        },
    }
}

/// What an answer returns.
pub open spec fn returned(r: Result<Option<Vec<Entry>>, Status>) -> Seq<(Seq<char>, FileMeta)> {
    match r {
        Ok(Some(v)) => shown(v@),
        _ => Seq::empty(),
    }
}

/// Two answers of a listing, one after the other, and what is then left are the
/// listing: nothing is lost between them and nothing is returned twice. Where an answer
/// returns nothing, the listing is at its end.
pub proof fn law_listing_is_continuous(
    c0: &Smb2Conn,
    c1: &Smb2Conn,
    c2: &Smb2Conn,
    req1: QueryDirReq,
    req2: QueryDirReq,
    r1: Result<Option<Vec<Entry>>, Status>,
    r2: Result<Option<Vec<Entry>>, Status>,
)
    requires
        c0.searches@.contains_key(req1.file_id),
        req1.file_id == req2.file_id,
        batch_taken(c0, c1, req1, r1),
        batch_taken(c1, c2, req2, r2),
    ensures
        shown(c0.searches@[req1.file_id]@) == returned(r1) + returned(r2) + shown(c2.searches@[req1.file_id]@),
        r2 matches Ok(None) ==> shown(c2.searches@[req1.file_id]@).len() == 0,
{
    let all = shown(c0.searches@[req1.file_id]@);
    let n = batch_len(req1.flags, all.len() as int);
    let left = shown(c1.searches@[req1.file_id]@);
    let m = batch_len(req2.flags, left.len() as int);
    assert(returned(r1) =~= all.subrange(0, n));
    assert(returned(r2) =~= left.subrange(0, m));
    assert(all =~= returned(r1) + returned(r2) + left.subrange(m, left.len() as int));
}

/// A directory without children still lists itself and its parent.
pub proof fn law_empty_directory_lists_dots(dot: FileMeta)
    ensures
        picked(Seq::empty(), dot, Seq::empty()) == seq![("."@, dot), (".."@, dot)],
{
    reveal(Seq::filter);
    let s = seq![("."@, dot), (".."@, dot)] + Seq::<(Seq<char>, FileMeta)>::empty();
    let p = picks(Seq::empty());
    assert(s =~= seq![("."@, dot), (".."@, dot)]);
    assert(s.drop_last() =~= seq![("."@, dot)]);
    assert(s.drop_last().drop_last() =~= Seq::<(Seq<char>, FileMeta)>::empty());
    assert(s.drop_last().drop_last().filter(p) =~= Seq::<(Seq<char>, FileMeta)>::empty());
    assert(s.drop_last().filter(p) =~= seq![("."@, dot)]);
    assert(s.filter(p) =~= seq![("."@, dot), (".."@, dot)]);
}

/// Where a listing starts on an open directory, what is kept for it are exactly the names
/// that the request's own pattern finds, letter case aside: `name` is what stands behind
/// the last slash of the pattern, and without one the whole directory is listed. The
/// directory itself and its parent are listed like its children.
pub proof fn law_listing_returns_what_the_pattern_finds(
    c0: &Smb2Conn,
    c1: &Smb2Conn,
    req: QueryDirReq,
    plan: DirPlan,
    children: Seq<Entry>,
    dot: FileMeta,
    front: Seq<char>,
    name: Seq<char>,
    e: (Seq<char>, FileMeta),
)
    requires
        listing_planned(c0, req, plan),
        plan matches DirPlan::List { rel, pattern } && listing_started(c0, c1, req, pattern@, dot, children),
        req.pattern@ == front + name,
        forall|k: int| 0 <= k < name.len() ==> #[trigger] name[k] != '\\' && name[k] != '/',
        front.len() > 0 ==> front.last() == '\\' || front.last() == '/',
        req.flags & 0x04 == 0,
    ensures
        ({
            let kept = c1.searches@[req.file_id]@;
            let there = e == ("."@, dot) || e == (".."@, dot) || exists|i: int|
                0 <= i < children.len() && (#[trigger] children[i]).name@ == e.0 && children[i].meta == e.1;
            let found = name.len() == 0 || wild(lowercase(e.0), lowercase(name));
            (there && found) <==> exists|k: int| 0 <= k < kept.len() && (#[trigger] kept[k]).name@ == e.0 && kept[k].meta
                == e.1
        }),
{
    law_pattern_is_split_behind_its_last_slash(front, name);
    let kept = c1.searches@[req.file_id]@;
    let p = picks(name);
    let every = seq![("."@, dot), (".."@, dot)] + shown(children);
    let all = picked(shown(children), dot, name);
    assert(all.subrange(0, all.len() as int) =~= all);
    assert(shown(kept) == every.filter(p));
    if every.contains(e) && p(e) {
        let i = choose|i: int| 0 <= i < every.len() && every[i] == e;
        every.lemma_filter_contains(p, i);
        let k = choose|k: int| 0 <= k < shown(kept).len() && shown(kept)[k] == e;
        assert(kept[k].name@ == e.0 && kept[k].meta == e.1);
    }
    if exists|k: int| 0 <= k < kept.len() && (#[trigger] kept[k]).name@ == e.0 && kept[k].meta == e.1 {
        let k = choose|k: int| 0 <= k < kept.len() && (#[trigger] kept[k]).name@ == e.0 && kept[k].meta == e.1;
        assert(shown(kept)[k] == e);
        every.lemma_filter_pred(p, k);
        every.lemma_filter_contains_rev(p, e);
    }
    assert(every.contains(e) <==> (e == ("."@, dot) || e == (".."@, dot) || exists|i: int|
        0 <= i < children.len() && (#[trigger] children[i]).name@ == e.0 && children[i].meta == e.1)) by {
        if every.contains(e) {
            let i = choose|i: int| 0 <= i < every.len() && every[i] == e;
            if i >= 2 {
                assert(children[i - 2].name@ == e.0);
            }
        }
        assert(every[0] == ("."@, dot) && every[1] == (".."@, dot));
        if exists|i: int| 0 <= i < children.len() && (#[trigger] children[i]).name@ == e.0 && children[i].meta == e.1 {
            let i = choose|i: int|
                0 <= i < children.len() && (#[trigger] children[i]).name@ == e.0 && children[i].meta == e.1;
            assert(every[i + 2] == e);
        }
    }
}

/// A listing lists the directory that was opened, where its pattern names none, and goes
/// on where it stopped unless the request asks to start again (bits 0, 2 and 4 of its
/// flags).
pub proof fn law_listing_lists_the_open_directory(c: &Smb2Conn, req: QueryDirReq, plan: DirPlan)
    requires
        listing_planned(c, req, plan),
    ensures
        plan is Continue <==> c.searches@.dom().contains(req.file_id) && req.flags & 0x01 == 0 && req.flags & 0x04 == 0
            && req.flags & 0x10 == 0,
        plan is List ==> c.handles@.dom().contains(req.file_id) && c.handles@[req.file_id].is_dir,
        plan matches DirPlan::List { rel, pattern } ==> ((forall|k: int|
            0 <= k < req.pattern@.len() ==> #[trigger] req.pattern@[k] != '\\' && req.pattern@[k] != '/') ==> rel@
            == c.handles@[req.file_id].rel@),
        plan matches DirPlan::Refuse(s) ==> s == if c.handles@.dom().contains(req.file_id) {
            Status::INVALID_PARAMETER
        } else {
            Status::INVALID_HANDLE
        },
{
    let f = req.flags;
    assert((f & 0x15 == 0) == (f & 0x01 == 0 && f & 0x04 == 0 && f & 0x10 == 0)) by (bit_vector);
    let s = req.pattern@;
    if forall|k: int| 0 <= k < s.len() ==> #[trigger] s[k] != '\\' && s[k] != '/' {
        lemma_leading_are_slashes(s);
        if leading_slashes(s) > 0 {
            assert(s[0] == '\\' || s[0] == '/');
        }
        assert(without_leading(s) =~= s);
        lemma_last_slash(s, s.len() as int);
        match last_slash(s, s.len() as int) {
            Some(i) => {
                assert(is_slash(s[i]));
            },
            None => {},
        }
    }
}

/// An answer to a listing has one entry where one is asked for (bit 1 of the flags), else
/// as many as are left, up to a limit; it has none only where none are left.
pub proof fn law_single_entry_is_one(
    c0: &Smb2Conn,
    c1: &Smb2Conn,
    req: QueryDirReq,
    r: Result<Option<Vec<Entry>>, Status>,
)
    requires
        c0.searches@.dom().contains(req.file_id),
        batch_taken(c0, c1, req, r),
    ensures
        ({
            let n = c0.searches@[req.file_id]@.len();
            &&& (r matches Ok(None)) <==> n == 0
            &&& n > 0 ==> (r matches Ok(Some(v)) && v@.len() == if req.flags & 0x02 != 0 {
                1
            } else if n <= 512 {
                n as int
            } else {
                512
            })
        }),
{
    let n = c0.searches@[req.file_id]@.len();
    if n > 0 {
        match r {
            Ok(Some(v)) => {
                assert(shown(v@).len() == v@.len());
            },
            _ => {},
        }
    }
}

// ---------------- information ----------------

pub const INFO_FILE: u8 = 1;

pub const INFO_FS: u8 = 2;

pub const INFO_SECURITY: u8 = 3;

pub const INFO_QUOTA: u8 = 4;

/// The class that lists streams.
pub const CLASS_STREAM: u8 = 22;

/// The class that asks for the normalised name.
pub const CLASS_NORMALIZED_NAME: u8 = 48;

/// How a query of information goes on.
pub enum InfoPlan {
    Refuse(Status),
    /// The information is not served.
    Unknown,
    /// The streams of a file are listed.
    Streams { path: String },
    /// Metadata of a file is returned under a name.
    File { path: String, class: u8, name: String },
    /// Information about the file system.
    Fs { class: u8 },
    /// The security descriptor of a file, and the parts of it that are asked for.
    Security { path: String, additional: u32 },
}

/// A text with backslashes for slashes.
pub open spec fn backslashed(s: Seq<char>) -> Seq<char> {
    Seq::new(
        s.len(),
        |i: int| if s[i] == '/' {
            '\\'
        } else {
            s[i]
        },
    )
}

/// What stands behind the last slash.
pub open spec fn behind_slash(s: Seq<char>) -> Seq<char> {
    match last_slash(s, s.len() as int) {
        Some(i) => s.subrange(i + 1, s.len() as int),
        None => s,
    }
}

/// The name that is reported for a file.
pub open spec fn reported_name(class: u8, rel: Seq<char>) -> Seq<char> {
    if class == CLASS_NORMALIZED_NAME {
        backslashed(without_leading(rel))
    } else {
        behind_slash(rel)
    }
}

fn backslash(s: &str) -> (r: String)
    ensures
        r@ == backslashed(s@),
{
    let c = chars_of(s);
    let n: usize = c.len();
    let mut v: Vec<char> = Vec::new();
    let mut i: usize = 0;
    while i < n
        invariant
            i <= n == c@.len(),
            c@ == s@,
            v@.len() == i,
            forall|k: int| 0 <= k < i ==> v@[k] == backslashed(s@)[k],
        decreases n - i,
    {
        v.push(
            if c[i] == '/' {
                '\\'
            } else {
                c[i]
            },
        );
        i += 1;
    }
    assert(v@ =~= backslashed(s@));
    text_of(v.as_slice())
}

fn name_behind(s: &str) -> (r: String)
    ensures
        r@ == behind_slash(s@),
{
    let c = chars_of(s);
    let n: usize = c.len();
    let mut i: usize = n;
    while i > 0 && c[i - 1] != '/' && c[i - 1] != '\\'
        invariant
            i <= n == c@.len(),
            c@ == s@,
            last_slash(c@, n as int) == last_slash(c@, i as int),
        decreases i,
    {
        i -= 1;
    }
    if i == 0 {
        s.to_owned()
    } else {
        text_of_range(c.as_slice(), i, n)
    }
}

fn make_name(class: u8, rel: &str) -> (r: String)
    ensures
        r@ == reported_name(class, rel@),
{
    if class == CLASS_NORMALIZED_NAME {
        let t = trim_leading_slashes(rel);
        backslash(t.as_str())
    } else {
        name_behind(rel)
    }
}

/// Whether a query of information goes on as it should.
pub open spec fn info_planned(c: &Smb2Conn, req: QueryInfoReq, r: InfoPlan) -> bool {
    let open = c.handles@.contains_key(req.file_id);
    let h = c.handles@[req.file_id];
    if req.info_type == INFO_FILE {
        if !open {
            r == InfoPlan::Refuse(Status::INVALID_HANDLE)
        } else if req.class == CLASS_STREAM {
            r matches InfoPlan::Streams { path } && path@ == h.path@
        } else {
            r matches InfoPlan::File { path, class, name } && path@ == h.path@ && class == req.class && name@ == reported_name(
                req.class,
                h.rel@,
            )
        }
    } else if req.info_type == INFO_FS {
        r == (InfoPlan::Fs { class: req.class })
    } else if req.info_type == INFO_SECURITY {
        if !open {
            r == InfoPlan::Refuse(Status::INVALID_HANDLE)
        } else {
            r matches InfoPlan::Security { path, additional } && path@ == h.path@ && additional == if req.additional == 0 {
                DEFAULT
            } else {
                req.additional
            }
        }
    } else if req.info_type == INFO_QUOTA {
        r == InfoPlan::Refuse(Status::INVALID_DEVICE_REQUEST)
    } else {
        r is Unknown
    }
}

/// Plans a query of information.
pub fn plan_query_info(conn: &Smb2Conn, req: &QueryInfoReq) -> (r: InfoPlan)
    requires
        conn.wf(),
    ensures
        info_planned(conn, *req, r),
{
    if req.info_type == INFO_FILE {
        match conn.handles.get(&req.file_id) {
            None => InfoPlan::Refuse(Status::INVALID_HANDLE),
            Some(h) => {
                if req.class == CLASS_STREAM {
                    InfoPlan::Streams { path: h.path.clone() }
                } else {
                    InfoPlan::File {
                        path: h.path.clone(),
                        class: req.class,
                        name: make_name(req.class, h.rel.as_str()),
                    }
                }
            },
        }
    } else if req.info_type == INFO_FS {
        InfoPlan::Fs { class: req.class }
    } else if req.info_type == INFO_SECURITY {
        match conn.handles.get(&req.file_id) {
            None => InfoPlan::Refuse(Status::INVALID_HANDLE),
            Some(h) => InfoPlan::Security {
                path: h.path.clone(),
                additional: if req.additional == 0 {
                    DEFAULT
                } else {
                    req.additional
                },
            },
        }
    } else if req.info_type == INFO_QUOTA {
        InfoPlan::Refuse(Status::INVALID_DEVICE_REQUEST)
    } else {
        InfoPlan::Unknown
    }
}

/// Name and size of streams.
pub open spec fn stream_views(v: Seq<(String, u64)>) -> Seq<(Seq<char>, u64)> {
    Seq::new(v.len(), |i: int| (v[i].0@, v[i].1))
}

/// The streams of a file with these named ones.
pub open spec fn streams_of(meta: FileMeta, named: Seq<(Seq<char>, u64)>) -> Seq<(Seq<char>, u64)> {
    (if meta.is_dir {
        Seq::empty()
    } else {
        seq![("::$DATA"@, meta.eof)]
    }) + named
}

/// The streams of a file: its data, unless it is a directory, then the named ones.
pub fn list_streams(meta: &FileMeta, named: Vec<(String, u64)>) -> (r: Vec<(String, u64)>)
    ensures
        stream_views(r@) == streams_of(*meta, stream_views(named@)),
{
    let mut r: Vec<(String, u64)> = Vec::new();
    if !meta.is_dir {
        r.push(("::$DATA".to_owned(), meta.eof));
    }
    let ghost front = stream_views(r@);
    assert(front =~= if meta.is_dir {
        Seq::empty()
    } else {
        seq![("::$DATA"@, meta.eof)]
    });
    let mut named = named;
    let ghost tail = stream_views(named@);
    r.append(&mut named);
    assert(stream_views(r@) =~= front + tail);
    r
}

/// Whether a query of a security descriptor is answered as it should.
pub open spec fn security_answered(
    stored: Option<Seq<u8>>,
    additional: u32,
    output_len: u32,
    r: Result<Vec<u8>, Status>,
) -> bool {
    match descriptor_bytes(selected(source_parts(stored), additional)) {
        None => r == Err::<Vec<u8>, Status>(Status::INVALID_PARAMETER),
        Some(b) => if output_len < b.len() {
            r == Err::<Vec<u8>, Status>(Status::BUFFER_TOO_SMALL)
        } else {
            r matches Ok(v) && v@ == b
        },
    }
}

/// The answer to a query of a security descriptor: what is stored, or the default,
/// as far as it is asked for and fits.
pub fn finish_security(stored: Option<&[u8]>, additional: u32, output_len: u32) -> (r: Result<Vec<u8>, Status>)
    ensures
        ({
            let given = match stored {
                Some(b) => Some(b@),
                None => None,
            };
            security_answered(given, additional, output_len, r)
        }),
{
    match query_security(stored, additional) {
        None => Err(Status::INVALID_PARAMETER),
        Some(b) => {
            if (output_len as usize) < b.len() {
                Err(Status::BUFFER_TOO_SMALL)
            } else {
                Ok(b)
            }
        },
    }
}

/// What the data of a change to a file was read as.
#[derive(Clone, Copy, PartialEq, Eq, Structural, Debug)]
pub enum Change {
    /// It cannot be read.
    Malformed,
    /// There is nothing to do.
    Advisory,
    /// The file changes.
    Operation,
}

/// How a change of information goes on.
#[derive(Clone, Copy, PartialEq, Eq, Structural, Debug)]
pub enum SetPlan2 {
    Refuse(Status),
    Done,
    /// The change is applied to the open file.
    ApplyFile,
    /// The descriptor is stored for the open file.
    ApplySecurity,
}

/// How a change of information goes on.
pub open spec fn set_planned2(c: &Smb2Conn, req: SetInfoReq, change: Change) -> SetPlan2 {
    let open = c.handles@.contains_key(req.file_id);
    if req.info_type == INFO_FILE {
        match change {
            Change::Malformed => SetPlan2::Refuse(Status::INVALID_PARAMETER),
            Change::Advisory => SetPlan2::Done,
            Change::Operation => if open {
                SetPlan2::ApplyFile
            } else {
                SetPlan2::Refuse(Status::INVALID_HANDLE)
            },
        }
    } else if req.info_type == INFO_SECURITY {
        if open {
            SetPlan2::ApplySecurity
        } else {
            SetPlan2::Refuse(Status::INVALID_HANDLE)
        }
    } else if req.info_type == INFO_QUOTA {
        SetPlan2::Refuse(Status::INVALID_DEVICE_REQUEST)
    } else {
        SetPlan2::Refuse(Status::NOT_IMPLEMENTED)
    }
}

/// Plans a change of information.
pub fn plan_set_info(conn: &Smb2Conn, req: &SetInfoReq, change: Change) -> (r: SetPlan2)
    requires
        conn.wf(),
    ensures
        r == set_planned2(conn, *req, change),
{
    if req.info_type == INFO_FILE {
        match change {
            Change::Malformed => SetPlan2::Refuse(Status::INVALID_PARAMETER),
            Change::Advisory => SetPlan2::Done,
            Change::Operation => if conn.handles.contains(&req.file_id) {
                SetPlan2::ApplyFile
            } else {
                SetPlan2::Refuse(Status::INVALID_HANDLE)
            },
        }
    } else if req.info_type == INFO_SECURITY {
        if conn.handles.contains(&req.file_id) {
            SetPlan2::ApplySecurity
        } else {
            SetPlan2::Refuse(Status::INVALID_HANDLE)
        }
    } else if req.info_type == INFO_QUOTA {
        SetPlan2::Refuse(Status::INVALID_DEVICE_REQUEST)
    } else {
        SetPlan2::Refuse(Status::NOT_IMPLEMENTED)
    }
}

/// A change of file information is answered with success at once only where its data asks
/// for nothing; a change that was read as an operation on an open file always goes on to
/// storage, and nothing goes there without an open.
pub proof fn law_only_advice_is_answered_at_once(c: &Smb2Conn, req: SetInfoReq, change: Change, r: SetPlan2)
    requires
        r == set_planned2(c, req, change),
    ensures
        r == SetPlan2::Done <==> req.info_type == 1 && change == Change::Advisory,
        req.info_type == 1 && change == Change::Operation && c.handles@.dom().contains(req.file_id) ==> r
            == SetPlan2::ApplyFile,
        r == SetPlan2::ApplyFile ==> change == Change::Operation,
        r == SetPlan2::ApplyFile || r == SetPlan2::ApplySecurity ==> c.handles@.dom().contains(req.file_id),
        req.info_type == 1 && change == Change::Malformed ==> r == SetPlan2::Refuse(Status::INVALID_PARAMETER),
{
}

/// A new security descriptor for an open file always goes on to storage, and nothing else
/// is stored as one; other kinds of information than that of files and their security
/// cannot be changed.
pub proof fn law_security_goes_to_storage(c: &Smb2Conn, req: SetInfoReq, change: Change, r: SetPlan2)
    requires
        r == set_planned2(c, req, change),
    ensures
        r == SetPlan2::ApplySecurity <==> req.info_type == 3 && c.handles@.dom().contains(req.file_id),
        req.info_type != 1 && req.info_type != 3 ==> r is Refuse,
        !c.handles@.dom().contains(req.file_id) && (req.info_type == 3 || req.info_type == 1 && change
            == Change::Operation) ==> r == SetPlan2::Refuse(Status::INVALID_HANDLE),
{
}

/// A query is about the file that it names: metadata, streams and security come from the
/// path of that open, and the class that is asked for is the class that is returned. What
/// is asked for is told by the kind: 1 a file, 2 the file system, 3 security.
pub proof fn law_query_is_about_the_open_file(c: &Smb2Conn, req: QueryInfoReq, r: InfoPlan)
    requires
        info_planned(c, req, r),
    ensures
        ({
            let open = c.handles@.dom().contains(req.file_id);
            let h = c.handles@[req.file_id];
            &&& r matches InfoPlan::File { path, class, name } ==> open && req.info_type == 1 && path@ == h.path@ && class
                == req.class
            &&& r matches InfoPlan::Streams { path } ==> open && req.info_type == 1 && req.class == 22 && path@ == h.path@
            &&& r matches InfoPlan::Security { path, additional } ==> open && req.info_type == 3 && path@ == h.path@ && (
            req.additional != 0 ==> additional == req.additional) && (req.additional == 0 ==> additional == 7)
            &&& r matches InfoPlan::Fs { class } ==> req.info_type == 2 && class == req.class
            &&& req.info_type == 1 && open && req.class == 22 ==> r is Streams
            &&& req.info_type == 1 && open && req.class != 22 ==> r is File
            &&& req.info_type == 3 && open ==> r is Security
            &&& req.info_type == 2 ==> r is Fs
            &&& (req.info_type == 1 || req.info_type == 3) && !open ==> r == InfoPlan::Refuse(Status::INVALID_HANDLE)
        }),
{
}

/// A file is reported under its last name: what stands behind the last slash of its path
/// below the share.
pub proof fn law_reported_name_is_the_last(class: u8, front: Seq<char>, name: Seq<char>)
    requires
        class != 48,
        forall|k: int| 0 <= k < name.len() ==> #[trigger] name[k] != '\\' && name[k] != '/',
        front.len() > 0 ==> front.last() == '\\' || front.last() == '/',
    ensures
        reported_name(class, front + name) == name,
{
    let s = front + name;
    lemma_last_slash(s, s.len() as int);
    match last_slash(s, s.len() as int) {
        Some(i) => {
            if i >= front.len() {
                assert(s[i] == name[i - front.len()]);
            }
            if i < front.len() - 1 {
                assert(s[front.len() - 1] == front.last());
            }
            assert(s.subrange(i + 1, s.len() as int) =~= name);
        },
        None => {
            if front.len() > 0 {
                assert(s[front.len() - 1] == front.last());
            }
            assert(s =~= name);
        },
    }
}

/// A normalised name is the whole path below the share, with backslashes only and none in
/// front.
pub proof fn law_normalised_name_is_the_path(rel: Seq<char>, k: int)
    ensures
        ({
            let n = reported_name(48, rel);
            let skip = rel.len() - n.len();
            &&& 0 <= skip
            &&& forall|i: int| 0 <= i < skip ==> #[trigger] rel[i] == '\\' || rel[i] == '/'
            &&& 0 <= k < n.len() ==> n[k] != '/' && (n[k] == rel[skip + k] || n[k] == '\\' && rel[skip + k] == '/')
            &&& n.len() > 0 ==> n[0] != '\\'
        }),
{
    lemma_leading_are_slashes(rel);
}

/// A file has its data as first stream, as long as the file is, and a directory has none;
/// the named streams follow as they are.
pub proof fn law_streams_of_a_file(meta: FileMeta, named: Seq<(Seq<char>, u64)>)
    ensures
        ({
            let r = streams_of(meta, named);
            &&& meta.is_dir ==> r == named
            &&& !meta.is_dir ==> r.len() == named.len() + 1 && r[0].0 == "::$DATA"@ && r[0].1 == meta.eof
                && r.subrange(1, r.len() as int) == named
        }),
{
    let r = streams_of(meta, named);
    if meta.is_dir {
        assert(r =~= named);
    } else {
        assert(r.subrange(1, r.len() as int) =~= named);
    }
}

/// A query of security returns the parts that are asked for and no others: bit 0 the owner,
/// bit 1 the group, bit 2 the access list. What is stored for the file is returned where it
/// can be read. An answer never exceeds what the client has room for.
pub proof fn law_security_parts_are_the_ones_asked_for(
    stored: Option<Seq<u8>>,
    additional: u32,
    output_len: u32,
    r: Result<Vec<u8>, Status>,
)
    requires
        security_answered(stored, additional, output_len, r),
    ensures
        r matches Ok(v) ==> v@.len() <= output_len && exists|p: Parts|
            {
                &&& #[trigger] descriptor_bytes(p) == Some(v@)
                &&& (p.owner is Some ==> additional & 1 != 0) && (p.group is Some ==> additional & 2 != 0) && (p.dacl is Some
                    ==> additional & 4 != 0)
                &&& stored matches Some(b) ==> (descriptor_parts(b) matches Some(q) ==> (additional & 1 != 0 ==> p.owner
                    == q.owner) && (additional & 2 != 0 ==> p.group == q.group) && (additional & 4 != 0 ==> p.dacl == q.dacl))
            },
{
    if r is Ok {
        let p = selected(source_parts(stored), additional);
        assert(descriptor_bytes(p) == Some(r->Ok_0@));
    }
}

} // verus!
