//! Subcommands of the older dialect served from a storage backend: searches, queries and
//! changes of information.
use vstd::prelude::*;
use std::collections::HashMap;
use crate::backend1::{decode_set_op, set_op};
use crate::bytes::{get_u16, le16, lemma_little, little, put_u16, u16_at};
use crate::smb::{lemma_string_at, string_at, zstring_text, Rd, Status, TRANS2_FIND_FIRST2, TRANS2_FIND_NEXT2, TRANS2_QUERY_FILE_INFO, TRANS2_QUERY_FS_INFO, TRANS2_QUERY_PATH_INFO, TRANS2_SET_FILE_INFO, TRANS2_SET_PATH_INFO};
use crate::text::{lemma_last_piece, lowercase, pieces, split_slashes, text_has, texts, to_lowercase};
use crate::trans2::{find_first_params, find_next_params, fs_data, has_wildcards, make_fs_data};
use crate::vfs::{Entry, OpenFile, SetOp};
use crate::wildcard::{dir_cmds_split, found_by, law_pattern_is_split_behind_its_last_slash, lemma_last_slash, lemma_leading_are_slashes, pattern_split, trim_leading_slashes, wild, wildcard_match, without_leading};

verus! {

broadcast use vstd::std_specs::hash::group_hash_axioms;

/// A subcommand with its parameters and its data.
#[derive(Debug)]
pub struct SubCall<'a> {
    pub subcmd: u16,
    pub params: &'a [u8],
    pub data: &'a [u8],
    pub unicode: bool,
    /// Where the parameters stand in the message.
    pub param_base: usize,
}

/// What a subcommand asks of the backend.
#[derive(Debug)]
pub enum SubPlan {
    /// Names are looked for. `single` is the path to try first, where the pattern names
    /// one file.
    Find { level: u16, dir: String, pattern: String, single: Option<String> },
    /// A search goes on.
    FindNext { sid: u16 },
    /// Information about the file system, ready to be sent.
    Fs(Vec<u8>),
    QueryPath { level: u16, path: String, name: String },
    QueryFile { level: u16, fid: u16 },
    SetFile { fid: u16, op: SetOp },
    SetPath { path: String, op: SetOp },
}

/// The text of the string at `p` in the parameters.
pub open spec fn param_text(q: SubCall, p: int) -> Seq<char> {
    zstring_text(q.params@, p, q.unicode, q.param_base as int)
}

/// What stands behind the last slash of a path.
pub open spec fn last_piece(p: Seq<char>) -> Seq<char> {
    pieces(p).last()
}

/// The refusal of a search.
pub open spec fn find_refused(q: SubCall, connected: bool) -> Option<Status> {
    if q.params@.len() < 12 {
        Some(Status::INVALID_PARAMETER)
    } else if !connected {
        Some(Status::INVALID_HANDLE)
    } else {
        None
    }
}

/// Whether this is what a search asks of the backend.
pub open spec fn is_find(q: SubCall, p: SubPlan) -> bool {
    let pattern = param_text(q, 12);
    let parts = pattern_split(pattern);
    p matches SubPlan::Find { level, dir, pattern: name, single } && level == u16_at(q.params@, 6) && dir@ == parts.0
        && name@ == parts.1 && match single {
        Some(s) => !has_wildcards(pattern) && s@ == without_leading(pattern),
        None => has_wildcards(pattern),
    }
}

/// Whether a query by path goes on as it should.
pub open spec fn path_query(q: SubCall, r: Result<SubPlan, Status>) -> bool {
    let path = param_text(q, 2);
    if q.params@.len() < 2 || path.len() == 0 {
        r matches Err(s) && s == Status::INVALID_PARAMETER
    } else {
        r matches Ok(p) && (p matches SubPlan::QueryPath { level, path: t, name } && level == u16_at(q.params@, 0) && t@ == path
            && name@ == last_piece(path))
    }
}

/// Whether a change by path goes on as it should.
pub open spec fn path_change(q: SubCall, r: Result<SubPlan, Status>) -> bool {
    let path = param_text(q, 2);
    if q.params@.len() < 2 || path.len() == 0 {
        r matches Err(s) && s == Status::INVALID_PARAMETER
    } else {
        match set_op(u16_at(q.params@, 0), q.data@) {
            Err(e) => r matches Err(s) && s == e,
            Ok(o) => r matches Ok(p) && (p matches SubPlan::SetPath { path: t, op } && t@ == path && op == o),
        }
    }
}

/// Whether a change of an open file goes on as it should.
pub open spec fn file_change(q: SubCall, handles: Map<u16, OpenFile>, r: Result<SubPlan, Status>) -> bool {
    if q.params@.len() < 4 || q.data@.len() == 0 {
        r matches Err(s) && s == Status::INVALID_PARAMETER
    } else {
        match set_op(u16_at(q.params@, 2), q.data@) {
            Err(e) => r matches Err(s) && s == e,
            Ok(o) => if handles.contains_key(u16_at(q.params@, 0)) {
                r matches Ok(p) && p == (SubPlan::SetFile { fid: u16_at(q.params@, 0), op: o })
            } else {
                r matches Err(s) && s == Status::INVALID_HANDLE
            },
        }
    }
}

/// Whether a subcommand goes on as it should.
pub open spec fn sub_planned(
    q: SubCall,
    connected: bool,
    handles: Map<u16, OpenFile>,
    searches: Map<u16, u16>,
    now: u64,
    r: Result<SubPlan, Status>,
) -> bool {
    let n = q.params@.len();
    if q.subcmd == TRANS2_FIND_FIRST2 {
        match find_refused(q, connected) {
            Some(e) => r matches Err(s) && s == e,
            None => r matches Ok(p) && is_find(q, p),
        }
    } else if q.subcmd == TRANS2_FIND_NEXT2 {
        if n < 4 {
            r matches Err(s) && s == Status::INVALID_PARAMETER
        } else if !searches.contains_key(u16_at(q.params@, 0)) {
            r matches Err(s) && s == Status::INVALID_HANDLE
        } else {
            r matches Ok(p) && p == (SubPlan::FindNext { sid: u16_at(q.params@, 0) })
        }
    } else if q.subcmd == TRANS2_QUERY_FS_INFO {
        if n < 2 || fs_data(u16_at(q.params@, 0), now) is None {
            r matches Err(s) && s == Status::INVALID_PARAMETER
        } else {
            r matches Ok(p) && (p matches SubPlan::Fs(d) && Some(d@) == fs_data(u16_at(q.params@, 0), now))
        }
    } else if q.subcmd == TRANS2_QUERY_PATH_INFO {
        path_query(q, r)
    } else if q.subcmd == TRANS2_QUERY_FILE_INFO {
        if n < 4 {
            r matches Err(s) && s == Status::INVALID_PARAMETER
        } else if !handles.contains_key(u16_at(q.params@, 0)) {
            r matches Err(s) && s == Status::INVALID_HANDLE
        } else {
            r matches Ok(p) && p == (SubPlan::QueryFile { fid: u16_at(q.params@, 0), level: u16_at(q.params@, 2) })
        }
    } else if q.subcmd == TRANS2_SET_FILE_INFO {
        file_change(q, handles, r)
    } else if q.subcmd == TRANS2_SET_PATH_INFO {
        path_change(q, r)
    } else {
        r matches Err(s) && s == Status::INVALID_PARAMETER
    }
}

fn read_param(q: &SubCall, p: usize) -> (s: String)
    requires
        q.param_base + p <= usize::MAX,
    ensures
        s@ == param_text(*q, p as int),
{
    let mut rd = Rd::new(q.params, p);
    rd.zstring(q.unicode, q.param_base)
}

fn last_piece_of(p: &str) -> (r: String)
    ensures
        r@ == last_piece(p@),
{
    let v = split_slashes(p);
    let n: usize = v.len();
    proof {
        crate::text::lemma_pieces(p@);
        assert(texts(v@) == pieces(p@));
        assert(texts(v@)[n - 1] == v@[n - 1]@);
    }
    v[n - 1].clone()
}

fn find_first2(q: &SubCall, connected: bool) -> (r: Result<SubPlan, Status>)
    requires
        q.param_base + 12 <= usize::MAX,
    ensures
        match find_refused(*q, connected) {
            Some(e) => r matches Err(s) && s == e,
            None => r matches Ok(p) && is_find(*q, p),
        },
{
    if q.params.len() < 12 {
        return Err(Status::INVALID_PARAMETER);
    }
    let pattern = read_param(q, 12);
    if !connected {
        return Err(Status::INVALID_HANDLE);
    }
    let (dir, name) = dir_cmds_split(pattern.as_str());
    let single: Option<String> = if text_has(pattern.as_str(), '*') || text_has(pattern.as_str(), '?') {
        None
    } else {
        Some(trim_leading_slashes(pattern.as_str()))
    };
    Ok(SubPlan::Find { level: get_u16(q.params, 6), dir, pattern: name, single })
}

fn query_path(q: &SubCall) -> (r: Result<SubPlan, Status>)
    requires
        q.param_base + 12 <= usize::MAX,
    ensures
        path_query(*q, r),
{
    if q.params.len() < 2 {
        return Err(Status::INVALID_PARAMETER);
    }
    let path = read_param(q, 2);
    if path.as_str().unicode_len() == 0 {
        return Err(Status::INVALID_PARAMETER);
    }
    let name = last_piece_of(path.as_str());
    Ok(SubPlan::QueryPath { level: get_u16(q.params, 0), path, name })
}

fn set_path(q: &SubCall) -> (r: Result<SubPlan, Status>)
    requires
        q.param_base + 12 <= usize::MAX,
    ensures
        path_change(*q, r),
{
    if q.params.len() < 2 {
        return Err(Status::INVALID_PARAMETER);
    }
    let path = read_param(q, 2);
    if path.as_str().unicode_len() == 0 {
        return Err(Status::INVALID_PARAMETER);
    }
    match decode_set_op(get_u16(q.params, 0), q.data) {
        Err(e) => Err(e),
        Ok(op) => Ok(SubPlan::SetPath { path, op }),
    }
}

fn set_file(q: &SubCall, handles: &HashMap<u16, OpenFile>) -> (r: Result<SubPlan, Status>)
    ensures
        file_change(*q, handles@, r),
{
    if q.params.len() < 4 || q.data.len() == 0 {
        return Err(Status::INVALID_PARAMETER);
    }
    let fid: u16 = get_u16(q.params, 0);
    match decode_set_op(get_u16(q.params, 2), q.data) {
        Err(e) => Err(e),
        Ok(op) => if handles.contains_key(&fid) {
            Ok(SubPlan::SetFile { fid, op })
        } else {
            Err(Status::INVALID_HANDLE)
        },
    }
}

/// Plans a subcommand. `connected` tells whether its tree is connected; `searches` holds
/// the level of each search that can go on; `now` is the time as FILETIME.
pub fn dispatch_trans2(
    q: &SubCall,
    connected: bool,
    handles: &HashMap<u16, OpenFile>,
    searches: &HashMap<u16, u16>,
    now: u64,
) -> (r: Result<SubPlan, Status>)
    requires
        q.param_base + 12 <= usize::MAX,
    ensures
        sub_planned(*q, connected, handles@, searches@, now, r),
{
    if q.subcmd == TRANS2_FIND_FIRST2 {
        find_first2(q, connected)
    } else if q.subcmd == TRANS2_FIND_NEXT2 {
        if q.params.len() < 4 {
            return Err(Status::INVALID_PARAMETER);
        }
        let sid: u16 = get_u16(q.params, 0);
        if !searches.contains_key(&sid) {
            return Err(Status::INVALID_HANDLE);
        }
        Ok(SubPlan::FindNext { sid })
    } else if q.subcmd == TRANS2_QUERY_FS_INFO {
        if q.params.len() < 2 {
            return Err(Status::INVALID_PARAMETER);
        }
        match make_fs_data(get_u16(q.params, 0), now) {
            Some(d) => Ok(SubPlan::Fs(d)),
            None => Err(Status::INVALID_PARAMETER),
        }
    } else if q.subcmd == TRANS2_QUERY_PATH_INFO {
        query_path(q)
    } else if q.subcmd == TRANS2_QUERY_FILE_INFO {
        if q.params.len() < 4 {
            return Err(Status::INVALID_PARAMETER);
        }
        let fid: u16 = get_u16(q.params, 0);
        if !handles.contains_key(&fid) {
            return Err(Status::INVALID_HANDLE);
        }
        Ok(SubPlan::QueryFile { fid, level: get_u16(q.params, 2) })
    } else if q.subcmd == TRANS2_SET_FILE_INFO {
        set_file(q, handles)
    } else if q.subcmd == TRANS2_SET_PATH_INFO {
        set_path(q)
    } else {
        Err(Status::INVALID_PARAMETER)
    }
}

fn is_found(name: &str, pat: &str) -> (r: bool)
    ensures
        r == found_by(name@, pat@),
{
    let n = to_lowercase(name);
    let p = to_lowercase(pat);
    wildcard_match(n.as_str(), p.as_str())
}

/// Whether the name of an entry is found by a pattern.
pub open spec fn entry_found(pat: Seq<char>) -> spec_fn(Entry) -> bool {
    |e: Entry| found_by(e.name@, pat)
}

/// Whether these are the entries that a search returns.
pub open spec fn entries_matched(entries: Seq<Entry>, pat: Seq<char>, r: Seq<Entry>) -> bool {
    r == entries.filter(entry_found(pat))
}

/// The entries that a search returns.
pub fn matching_entries(entries: Vec<Entry>, pat: &str) -> (r: Vec<Entry>)
    ensures
        entries_matched(entries@, pat@, r@),
{
    let n: usize = entries.len();
    let mut r: Vec<Entry> = Vec::new();
    let mut left: Vec<Entry> = entries;
    let ghost all = entries@;
    proof {
        reveal(Seq::filter);
    }
    assert(all.take(0).filter(entry_found(pat@)) =~= Seq::<Entry>::empty());
    let mut i: usize = 0;
    while i < n
        invariant
            i <= n == all.len(),
            left@ == all.subrange(i as int, n as int),
            r@ == all.take(i as int).filter(entry_found(pat@)),
        decreases n - i,
    {
        proof {
            reveal(Seq::filter);
        }
        let e = left.remove(0);
        assert(e == all[i as int]);
        assert(left@ =~= all.subrange(i + 1, n as int));
        assert(all.take(i + 1).drop_last() =~= all.take(i as int));
        if is_found(e.name.as_str(), pat) {
            r.push(e);
        }
        i += 1;
    }
    assert(all.take(n as int) =~= all);
    r
}

/// The parameters of the answer to a search.
pub fn find_params(sid: u16, count: usize, end: bool, last: usize) -> (p: Vec<u8>)
    ensures
        p@ == find_first_params(sid, count as int, end, last as int),
{
    let mut p: Vec<u8> = Vec::new();
    put_u16(&mut p, sid);
    assert(p@ =~= le16(sid));
    put_u16(&mut p, (count % 0x1_0000) as u16);
    put_u16(
        &mut p,
        if end {
            1
        } else {
            0
        },
    );
    put_u16(&mut p, 0);
    put_u16(&mut p, (last % 0x1_0000) as u16);
    assert(p@ =~= le16(sid) + find_next_params(count as int, end, last as int));
    p
}

/// A search looks in the directory before the last slash of the pattern that the client
/// gives, for what the part behind it finds, at the level in bytes 6 and 7. Only a pattern
/// without wildcards names one file.
pub proof fn law_search_is_the_one_asked_for(
    q: SubCall,
    connected: bool,
    handles: Map<u16, OpenFile>,
    searches: Map<u16, u16>,
    now: u64,
    front: Seq<char>,
    name: Seq<char>,
    r: Result<SubPlan, Status>,
)
    requires
        sub_planned(q, connected, handles, searches, now, r),
        q.subcmd == 1,
        q.params@.len() >= 12,
        q.unicode,
        string_at(q.params@, 12, front + name, true, q.param_base as int),
        forall|k: int| 0 <= k < name.len() ==> #[trigger] name[k] != '\\' && name[k] != '/',
        front.len() > 0 ==> front.last() == '\\' || front.last() == '/',
    ensures
        r is Ok <==> connected,
        connected ==> {
            &&& r->Ok_0 matches SubPlan::Find { level, dir, pattern, single }
            &&& level == little(q.params@, 6, 2)
            &&& pattern@ == name
            &&& single is None <==> (front + name).contains('*') || (front + name).contains('?')
            &&& front.len() == 0 ==> dir@.len() == 0
            &&& single matches Some(s) ==> (front.len() == 0 ==> s@ == name)
        },
{
    let t = front + name;
    lemma_string_at(q.params@, 12, t, true, q.param_base as int);
    lemma_little(q.params@, 6);
    law_pattern_is_split_behind_its_last_slash(front, name);
    if front.len() == 0 {
        assert(t =~= name);
        lemma_leading_are_slashes(name);
        assert(without_leading(name) =~= name);
        lemma_last_slash(name, name.len() as int);
    }
}

/// A search goes on under the id in bytes 0 and 1, exactly where it was begun.
pub proof fn law_search_goes_on_by_its_id(
    q: SubCall,
    connected: bool,
    handles: Map<u16, OpenFile>,
    searches: Map<u16, u16>,
    now: u64,
    r: Result<SubPlan, Status>,
)
    requires
        sub_planned(q, connected, handles, searches, now, r),
        q.subcmd == 2,
        q.params@.len() >= 4,
    ensures
        ({
            let sid = little(q.params@, 0, 2) as u16;
            &&& r is Ok <==> searches.dom().contains(sid)
            &&& r matches Ok(p) ==> p == (SubPlan::FindNext { sid })
        }),
{
    lemma_little(q.params@, 0);
}

/// A query by path is about the path that the client names, reported under the name behind
/// its last slash, at the level in bytes 0 and 1.
pub proof fn law_path_query_is_about_the_path_named(
    q: SubCall,
    connected: bool,
    handles: Map<u16, OpenFile>,
    searches: Map<u16, u16>,
    now: u64,
    front: Seq<char>,
    name: Seq<char>,
    r: Result<SubPlan, Status>,
)
    requires
        sub_planned(q, connected, handles, searches, now, r),
        q.subcmd == 5,
        q.params@.len() >= 2,
        q.unicode,
        string_at(q.params@, 2, front + name, true, q.param_base as int),
        forall|k: int| 0 <= k < name.len() ==> #[trigger] name[k] != '\\' && name[k] != '/',
        front.len() > 0 ==> front.last() == '\\' || front.last() == '/',
    ensures
        r is Ok <==> (front + name).len() > 0,
        r matches Ok(p) ==> (p matches SubPlan::QueryPath { level, path, name: n } && level == little(q.params@, 0, 2)
            && path@ == front + name && n@ == name),
{
    lemma_string_at(q.params@, 2, front + name, true, q.param_base as int);
    lemma_little(q.params@, 0);
    lemma_last_piece(front, name);
}

/// A query or a change of an open file is about the file in bytes 0 and 1, which must be
/// open, at the level in bytes 2 and 3; a change is the one that its data asks for.
pub proof fn law_open_file_is_queried_and_changed(
    q: SubCall,
    connected: bool,
    handles: Map<u16, OpenFile>,
    searches: Map<u16, u16>,
    now: u64,
    r: Result<SubPlan, Status>,
)
    requires
        sub_planned(q, connected, handles, searches, now, r),
        q.params@.len() >= 4,
        q.data@.len() > 0,
    ensures
        ({
            let fid = little(q.params@, 0, 2) as u16;
            let level = little(q.params@, 2, 2) as u16;
            &&& q.subcmd == 7 ==> (r is Ok <==> handles.dom().contains(fid))
            &&& q.subcmd == 7 && r is Ok ==> r->Ok_0 == (SubPlan::QueryFile { fid, level })
            &&& q.subcmd == 8 ==> (r is Ok <==> handles.dom().contains(fid) && set_op(level, q.data@) is Ok)
            &&& q.subcmd == 8 && r is Ok ==> r->Ok_0 == (SubPlan::SetFile { fid, op: set_op(level, q.data@)->Ok_0 })
        }),
{
    lemma_little(q.params@, 0);
    lemma_little(q.params@, 2);
}

/// A change by path is about the path that the client names, and is the one that its data
/// asks for at the level in bytes 0 and 1.
pub proof fn law_path_is_changed_as_asked(
    q: SubCall,
    connected: bool,
    handles: Map<u16, OpenFile>,
    searches: Map<u16, u16>,
    now: u64,
    t: Seq<char>,
    r: Result<SubPlan, Status>,
)
    requires
        sub_planned(q, connected, handles, searches, now, r),
        q.subcmd == 6,
        q.params@.len() >= 2,
        q.unicode,
        t.len() > 0,
        string_at(q.params@, 2, t, true, q.param_base as int),
    ensures
        ({
            let level = little(q.params@, 0, 2) as u16;
            &&& r is Ok <==> set_op(level, q.data@) is Ok
            &&& r matches Ok(p) ==> (p matches SubPlan::SetPath { path, op } && path@ == t && op
                == set_op(level, q.data@)->Ok_0)
        }),
{
    lemma_string_at(q.params@, 2, t, true, q.param_base as int);
    lemma_little(q.params@, 0);
}

/// Other subcommands are refused.
pub proof fn law_unknown_subcommands_are_refused(
    q: SubCall,
    connected: bool,
    handles: Map<u16, OpenFile>,
    searches: Map<u16, u16>,
    now: u64,
    r: Result<SubPlan, Status>,
)
    requires
        sub_planned(q, connected, handles, searches, now, r),
    ensures
        q.subcmd == 0 || q.subcmd == 4 || q.subcmd > 8 ==> r is Err,
        q.subcmd == 3 && r is Ok ==> r->Ok_0 is Fs,
{
}

/// A search returns every entry that its pattern finds, and nothing else.
pub proof fn law_search_returns_what_matches(entries: Seq<Entry>, pat: Seq<char>, r: Seq<Entry>, i: int)
    requires
        entries_matched(entries, pat, r),
    ensures
        0 <= i < r.len() ==> entries.contains(r[i]) && wild(lowercase(r[i].name@), lowercase(pat)),
        0 <= i < entries.len() && wild(lowercase(entries[i].name@), lowercase(pat)) ==> r.contains(entries[i]),
{
    if 0 <= i < r.len() {
        entries.lemma_filter_pred(entry_found(pat), i);
        entries.lemma_filter_contains_rev(entry_found(pat), r[i]);
    }
    if 0 <= i < entries.len() && wild(lowercase(entries[i].name@), lowercase(pat)) {
        assert(entry_found(pat)(entries[i]));
        entries.lemma_filter_contains(entry_found(pat), i);
    }
}

} // verus!
