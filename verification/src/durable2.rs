//! Reclaiming durable handles after a connection was lost.
use vstd::prelude::*;
use crate::bytes::{little, zeros};
use crate::conn2::{Server2, Smb2Conn};
use crate::create2::ACTION_OPENED;
use crate::idmap::IdMap;
use crate::locks::{lock_elsewhere, same_id};
use crate::ops2::{holdings_released, release_holdings};
use crate::reply2::{build_create_resp, create_body, create_contexts, encode_create_contexts, law_create_response_fields, DurableGrant, OPLOCK_NONE};
use crate::sessions::{DurableEntry, HandleRecord, DHANDLE_FLAG_PERSISTENT};
use crate::share_modes::mode_elsewhere;
use crate::smb::Status;
use crate::text::{chars_of, same_text};
use crate::vfs::{vfs_err, vfs_status, FileMeta, OpenFile, VfsError};
use crate::wildcard::{trim_leading_slashes, without_leading};
use crate::wire2::{CreateReq, TAG_RECONNECT_V1, TAG_RECONNECT_V2, TAG_REQ_V1, TAG_REQ_V2};

verus! {

/// A character with ASCII capitals made small.
pub open spec fn ascii_small(c: char) -> u32 {
    if 0x41 <= c as u32 <= 0x5A {
        (c as u32 + 0x20) as u32
    } else {
        c as u32
    }
}

/// Whether two texts are equal but for the case of ASCII letters.
pub open spec fn equal_but_case(a: Seq<char>, b: Seq<char>) -> bool {
    a.len() == b.len() && forall|i: int| 0 <= i < a.len() ==> ascii_small(#[trigger] a[i]) == ascii_small(b[i])
}

fn small(c: char) -> (r: u32)
    ensures
        r == ascii_small(c),
{
    let u: u32 = c as u32;
    if 0x41 <= u && u <= 0x5A {
        u + 0x20
    } else {
        u
    }
}

/// Whether two texts are equal but for the case of ASCII letters.
pub fn eq_ignore_ascii_case(a: &str, b: &str) -> (r: bool)
    ensures
        r == equal_but_case(a@, b@),
{
    let x = chars_of(a);
    let y = chars_of(b);
    if x.len() != y.len() {
        return false;
    }
    let n: usize = x.len();
    let mut i: usize = 0;
    while i < n
        invariant
            i <= n,
            n == x@.len(),
            n == y@.len(),
            x@ == a@,
            y@ == b@,
            forall|k: int| 0 <= k < i ==> ascii_small(#[trigger] a@[k]) == ascii_small(b@[k]),
        decreases n - i,
    {
        if small(x[i]) != small(y[i]) {
            assert(ascii_small(a@[i as int]) != ascii_small(b@[i as int]));
            return false;
        }
        i += 1;
    }
    true
}

/// Whether a create combines a reconnect with a context that conflicts with it:
/// version 1 with any of version 2, version 2 with any other.
pub open spec fn context_conflict(tags: u32, v2: bool) -> bool {
    if v2 {
        tags & (TAG_REQ_V1 | TAG_RECONNECT_V1 | TAG_REQ_V2) != 0
    } else {
        tags & (TAG_REQ_V2 | TAG_RECONNECT_V2) != 0
    }
}

/// Why a handle that was held with a lease cannot be reclaimed: another name,
/// another client, no lease or another lease key.
pub open spec fn lease_refusal(c: &Smb2Conn, req: CreateReq, v2: bool, rec: HandleRecord) -> Option<Status> {
    match rec.lease_key {
        None => None,
        Some(k) => if without_leading(req.name@) != rec.path@ {
            if v2 {
                Some(Status::OBJECT_NAME_NOT_FOUND)
            } else {
                Some(Status::INVALID_PARAMETER)
            }
        } else if rec.client_guid != c.client_guid {
            Some(Status::OBJECT_NAME_NOT_FOUND)
        } else {
            match req.contexts.lease {
                Some(l) => if l.key == k {
                    None
                } else {
                    Some(Status::OBJECT_NAME_NOT_FOUND)
                },
                None => Some(Status::OBJECT_NAME_NOT_FOUND),
            }
        },
    }
}

/// Why a handle cannot be reclaimed; none where it can. `rec` is what the store
/// holds of the handle.
pub open spec fn reconnect_refusal(
    c: &Smb2Conn,
    req: CreateReq,
    guid: Option<[u8; 16]>,
    rec: Option<HandleRecord>,
) -> Option<Status> {
    if context_conflict(req.contexts.durable_ctx_tags, guid is Some) {
        if guid is Some {
            Some(Status::OBJECT_NAME_NOT_FOUND)
        } else {
            Some(Status::INVALID_PARAMETER)
        }
    } else {
        match rec {
            None => Some(Status::OBJECT_NAME_NOT_FOUND),
            Some(p) => if guid is Some && p.match_guid != guid {
                Some(Status::OBJECT_NAME_NOT_FOUND)
            } else if lease_refusal(c, req, guid is Some, p) is Some {
                lease_refusal(c, req, guid is Some, p)
            } else if !equal_but_case(p.owner_user@, c.user@) {
                Some(Status::ACCESS_DENIED)
            } else {
                None
            },
        }
    }
}

fn same_guid(a: &Option<[u8; 16]>, b: &Option<[u8; 16]>) -> (r: bool)
    ensures
        r == (*a == *b),
{
    match (a, b) {
        (Some(x), Some(y)) => same_id(x, y),
        (None, None) => true,
        _ => false,
    }
}

fn check_lease(conn: &Smb2Conn, req: &CreateReq, v2: bool, rec: &HandleRecord) -> (r: Option<Status>)
    ensures
        r == lease_refusal(conn, *req, v2, *rec),
{
    match rec.lease_key {
        None => None,
        Some(k) => {
            let name = trim_leading_slashes(req.name.as_str());
            if !same_text(name.as_str(), rec.path.as_str()) {
                return if v2 {
                    Some(Status::OBJECT_NAME_NOT_FOUND)
                } else {
                    Some(Status::INVALID_PARAMETER)
                };
            }
            if !same_id(&rec.client_guid, &conn.client_guid) {
                return Some(Status::OBJECT_NAME_NOT_FOUND);
            }
            match req.contexts.lease {
                Some(l) => if same_id(&l.key, &k) {
                    None
                } else {
                    Some(Status::OBJECT_NAME_NOT_FOUND)
                },
                None => Some(Status::OBJECT_NAME_NOT_FOUND),
            }
        },
    }
}

/// Finds out whether a handle can be reclaimed. The handle stays in the store where
/// it cannot.
pub fn check_reconnect(
    conn: &Smb2Conn,
    req: &CreateReq,
    guid: &Option<[u8; 16]>,
    rec: &Option<HandleRecord>,
) -> (r: Option<Status>)
    ensures
        r == reconnect_refusal(conn, *req, *guid, *rec),
{
    let tags: u32 = req.contexts.durable_ctx_tags;
    let v2: bool = guid.is_some();
    if v2 {
        if tags & (TAG_REQ_V1 | TAG_RECONNECT_V1 | TAG_REQ_V2) != 0 {
            return Some(Status::OBJECT_NAME_NOT_FOUND);
        }
    } else if tags & (TAG_REQ_V2 | TAG_RECONNECT_V2) != 0 {
        return Some(Status::INVALID_PARAMETER);
    }
    match rec {
        None => Some(Status::OBJECT_NAME_NOT_FOUND),
        Some(p) => {
            if v2 && !same_guid(&p.match_guid, guid) {
                return Some(Status::OBJECT_NAME_NOT_FOUND);
            }
            match check_lease(conn, req, v2, p) {
                Some(s) => return Some(s),
                None => {},
            }
            if !eq_ignore_ascii_case(p.owner_user.as_str(), conn.user.as_str()) {
                return Some(Status::ACCESS_DENIED);
            }
            None
        },
    }
}

/// Nobody but the user who opened a handle reclaims it, and a handle that was held
/// with a lease is reclaimed only by the same client under the same lease key.
pub proof fn law_reconnect_keeps_owner(c: &Smb2Conn, req: CreateReq, guid: Option<[u8; 16]>, rec: Option<HandleRecord>)
    requires
        reconnect_refusal(c, req, guid, rec) is None,
    ensures
        rec matches Some(p) && equal_but_case(p.owner_user@, c.user@) && (guid is Some ==> p.match_guid == guid) && (
        p.lease_key is Some ==> p.client_guid == c.client_guid && (req.contexts.lease matches Some(l) && Some(l.key)
            == p.lease_key)),
{
}

/// A handle that the store does not hold cannot be reclaimed.
pub proof fn law_unknown_handle_refused(c: &Smb2Conn, req: CreateReq, guid: Option<[u8; 16]>)
    ensures
        reconnect_refusal(c, req, guid, None) is Some,
        guid is Some ==> reconnect_refusal(c, req, guid, None) == Some(Status::OBJECT_NAME_NOT_FOUND),
{
}

/// What a reclaimed handle is answered with.
pub open spec fn reconnect_grant(v2: bool, rec: HandleRecord) -> DurableGrant {
    if v2 {
        DurableGrant::V2 {
            timeout: (rec.timeout_ms % 0x1_0000_0000) as u32,
            flags: if rec.flags & DHANDLE_FLAG_PERSISTENT != 0 {
                DHANDLE_FLAG_PERSISTENT
            } else {
                0
            },
        }
    } else {
        DurableGrant::V1
    }
}

/// Whether `e` is the durable handle of a record on a connection.
pub open spec fn entry_of_record(e: DurableEntry, c: &Smb2Conn, id: [u8; 16], rec: HandleRecord) -> bool {
    &&& e.persistent_id == id
    &&& e.create_guid@ == (match rec.match_guid {
        Some(g) => g@,
        None => zeros(16),
    })
    &&& e.rel@ == rec.path@
    &&& e.is_dir == rec.is_dir
    &&& e.access == rec.access
    &&& e.options == rec.create_options
    &&& e.session_id == c.session_id
    &&& e.owner_user@ == rec.owner_user@
    &&& e.client_guid == rec.client_guid
    &&& e.lease_key == rec.lease_key
    &&& e.lease_state == rec.lease_state
    &&& e.persistent == (rec.flags & DHANDLE_FLAG_PERSISTENT != 0)
    &&& e.timeout == rec.timeout_ms % 0x1_0000_0000
}

/// Whether a handle is reclaimed as it should: `rec` is what the store gave up,
/// `opened` what opening its path again gave.
pub open spec fn reconnected(
    c0: &Smb2Conn,
    c1: &Smb2Conn,
    id: [u8; 16],
    v2: bool,
    rec: Option<HandleRecord>,
    opened: Result<(OpenFile, FileMeta), VfsError>,
    r: Result<Vec<u8>, Status>,
) -> bool {
    match rec {
        None => r == Err::<Vec<u8>, Status>(Status::OBJECT_NAME_NOT_FOUND) && *c1 == *c0,
        Some(p) => match opened {
            Err(e) => r == Err::<Vec<u8>, Status>(vfs_status(e)) && *c1 == *c0,
            Ok((o, meta)) => {
                &&& r matches Ok(b) && b@ == create_body(
                    OPLOCK_NONE,
                    ACTION_OPENED,
                    meta.times,
                    meta.alloc,
                    meta.eof,
                    meta.attrs,
                    id@,
                    create_contexts(None, Some(reconnect_grant(v2, p))),
                )
                &&& *c1 == (Smb2Conn { handles: c1.handles, durable: c1.durable, ..*c0 })
                &&& c1.handles.wf()
                &&& c1.handles@ == c0.handles@.insert(id, (OpenFile { delete_on_close: false, ..o }))
                &&& c1.durable.wf()
                &&& c1.durable@.contains_key(id)
                &&& c1.durable@ == c0.durable@.insert(id, c1.durable@[id])
                &&& entry_of_record(c1.durable@[id], c0, id, p)
            },
        },
    }
}

fn make_entry(conn: &Smb2Conn, id: [u8; 16], rec: &HandleRecord) -> (e: DurableEntry)
    ensures
        entry_of_record(e, conn, id, *rec),
{
    let zero: [u8; 16] = [0; 16];
    assert(zero@ =~= zeros(16));
    DurableEntry {
        persistent_id: id,
        create_guid: match rec.match_guid {
            Some(g) => g,
            None => zero,
        },
        rel: rec.path.clone(),
        is_dir: rec.is_dir,
        access: rec.access,
        options: rec.create_options,
        session_id: conn.session_id,
        owner_user: rec.owner_user.clone(),
        client_guid: rec.client_guid,
        lease_key: rec.lease_key,
        lease_state: rec.lease_state,
        persistent: rec.flags & DHANDLE_FLAG_PERSISTENT != 0,
        timeout: (rec.timeout_ms % 0x1_0000_0000) as u32,
    }
}

/// Reinstates a reclaimed handle on the connection and answers the create.
pub fn durable_reconnect(
    conn: &mut Smb2Conn,
    id: [u8; 16],
    v2: bool,
    rec: &Option<HandleRecord>,
    opened: Result<(OpenFile, FileMeta), VfsError>,
) -> (r: Result<Vec<u8>, Status>)
    requires
        old(conn).wf(),
    ensures
        reconnected(old(conn), final(conn), id, v2, *rec, opened, r),
        final(conn).wf(),
{
    let p = match rec {
        Some(p) => p,
        None => return Err(Status::OBJECT_NAME_NOT_FOUND),
    };
    match opened {
        Err(e) => Err(vfs_err(&e)),
        Ok((o, meta)) => {
            let ghost o0 = o;
            let mut o = o;
            o.delete_on_close = false;
            assert(o == (OpenFile { delete_on_close: false, ..o0 }));
            let e = make_entry(conn, id, p);
            conn.handles.insert(id, o);
            conn.durable.insert(id, e);
            let grant = if v2 {
                DurableGrant::V2 {
                    timeout: (p.timeout_ms % 0x1_0000_0000) as u32,
                    flags: if p.flags & DHANDLE_FLAG_PERSISTENT != 0 {
                        DHANDLE_FLAG_PERSISTENT
                    } else {
                        0
                    },
                }
            } else {
                DurableGrant::V1
            };
            let contexts = encode_create_contexts(&None, Some(grant));
            Ok(
                build_create_resp(
                    OPLOCK_NONE,
                    ACTION_OPENED,
                    meta.times,
                    meta.alloc,
                    meta.eof,
                    meta.attrs,
                    &id,
                    contexts.as_slice(),
                ),
            )
        },
    }
}

/// A durable handle that is preserved and reclaimed by the same user names the same
/// file, keeps its access and options, and is found under its id.
pub proof fn law_preserved_handle_comes_back(
    e0: DurableEntry,
    now_ms: u64,
    rec: HandleRecord,
    c: &Smb2Conn,
    e1: DurableEntry,
)
    requires
        e0.recorded_as(now_ms, rec),
        entry_of_record(e1, c, e0.persistent_id, rec),
    ensures
        e1.persistent_id == e0.persistent_id,
        e1.create_guid@ == e0.create_guid@,
        e1.rel@ == e0.rel@,
        e1.is_dir == e0.is_dir,
        e1.access == e0.access,
        e1.options == e0.options,
        e1.owner_user@ == e0.owner_user@,
        e1.client_guid == e0.client_guid,
        e1.lease_key == e0.lease_key,
        e1.lease_state == e0.lease_state,
        e1.persistent == e0.persistent,
        e1.timeout == e0.timeout,
{
    assert(2u32 & 2u32 != 0u32 && 0u32 & 2u32 == 0u32) by (bit_vector);
    if rec.match_guid is None {
        assert(e1.create_guid@ =~= e0.create_guid@);
    }
}

/// Whether these are the records of durable handles.
pub open spec fn are_records(e: Seq<([u8; 16], DurableEntry)>, now_ms: u64, r: Seq<HandleRecord>) -> bool {
    r.len() == e.len() && forall|i: int| 0 <= i < e.len() ==> (#[trigger] e[i]).1.recorded_as(now_ms, r[i])
}

/// Whether a connection has ended.
pub open spec fn connection_ended(
    s0: &Server2,
    s1: &Server2,
    c0: &Smb2Conn,
    c1: &Smb2Conn,
    now_ms: u64,
    r: Seq<HandleRecord>,
) -> bool {
    &&& if c0.session_id != 0 {
        holdings_released(s0, s1, c0.session_id) && s1.sessions == s0.sessions
    } else {
        *s1 == *s0
    }
    &&& are_records(c0.durable.entries@, now_ms, r)
    &&& *c1 == (Smb2Conn { durable: c1.durable, ..*c0 })
    &&& c1.durable@ == Map::<[u8; 16], DurableEntry>::empty()
}

/// Ends a connection: what its session holds is released, and its durable handles are
/// handed out for the store.
pub fn end_connection(server: &mut Server2, conn: &mut Smb2Conn, now_ms: u64) -> (r: Vec<HandleRecord>)
    requires
        old(server).wf(),
        old(conn).wf(),
        now_ms <= u64::MAX - u32::MAX,
    ensures
        final(server).wf(),
        connection_ended(old(server), final(server), old(conn), final(conn), now_ms, r@),
{
    if conn.session_id != 0 {
        release_holdings(server, conn.session_id);
    }
    let mut held: IdMap<DurableEntry> = IdMap::new();
    std::mem::swap(&mut held, &mut conn.durable);
    let ghost e = held.entries@;
    let mut left: Vec<([u8; 16], DurableEntry)> = held.entries;
    let n: usize = left.len();
    let mut r: Vec<HandleRecord> = Vec::new();
    let mut i: usize = 0;
    while i < n
        invariant
            i <= n == e.len(),
            now_ms <= u64::MAX - u32::MAX,
            left@ == e.subrange(i as int, n as int),
            are_records(e.take(i as int), now_ms, r@),
        decreases n - i,
    {
        let ghost r0 = r@;
        let (_, x) = left.remove(0);
        assert(left@ =~= e.subrange(i + 1, n as int));
        assert(x == e[i as int].1);
        r.push(x.into_record(now_ms));
        assert forall|k: int| 0 <= k < i + 1 implies (#[trigger] e.take(i + 1)[k]).1.recorded_as(now_ms, r@[k]) by {
            if k < i {
                assert(e.take(i as int)[k].1.recorded_as(now_ms, r0[k]));
            }
        }
        i += 1;
    }
    assert(e.take(n as int) =~= e);
    r
}

/// A handle is reclaimed exactly where the store holds it, no other durable context stands
/// beside the reconnect, the create guid is the one it was opened under where one is given,
/// the user is the same, letter case aside, and, where it was held with a lease, name,
/// client and lease key are the same.
pub proof fn law_reconnect_is_let_through(c: &Smb2Conn, req: CreateReq, guid: Option<[u8; 16]>, p: HandleRecord)
    ensures
        reconnect_refusal(c, req, guid, Some(p)) is None <==> {
            &&& if guid is Some {
                req.contexts.durable_ctx_tags & 7 == 0
            } else {
                req.contexts.durable_ctx_tags & 12 == 0
            }
            &&& guid is Some ==> p.match_guid == guid
            &&& p.lease_key matches Some(k) ==> without_leading(req.name@) == p.path@ && p.client_guid == c.client_guid && (
            req.contexts.lease matches Some(l) && l.key == k)
            &&& equal_but_case(p.owner_user@, c.user@)
        },
{
    assert(1u32 | 2u32 | 4u32 == 7u32 && 4u32 | 8u32 == 12u32) by (bit_vector);
}

/// Users are told apart by their letters, but not by their case: a name equals itself and
/// its capitals, and equality goes both ways.
pub proof fn law_user_names_match_whatever_case(a: Seq<char>, b: Seq<char>)
    ensures
        equal_but_case(a, a),
        equal_but_case(a, b) == equal_but_case(b, a),
        equal_but_case(a, b) ==> a.len() == b.len(),
        equal_but_case(seq!['A', 'z'], seq!['a', 'Z']),
        !equal_but_case(seq!['a'], seq!['b']),
{
    let x = seq!['A', 'z'];
    let y = seq!['a', 'Z'];
    assert forall|i: int| 0 <= i < x.len() implies ascii_small(#[trigger] x[i]) == ascii_small(y[i]) by {
        if i == 0 {
            assert(x[i] == 'A' && y[i] == 'a');
        } else {
            assert(x[i] == 'z' && y[i] == 'Z');
        }
    }
    let p = seq!['a'];
    let q = seq!['b'];
    assert(p[0] == 'a' && q[0] == 'b');
    if equal_but_case(p, q) {
        assert(ascii_small(p[0]) == ascii_small(q[0]));
    }
}

/// A reclaimed handle is reached under the id that it had, names the file that was opened
/// again, and is not deleted on close; its durable entry is there again. Where the store
/// gave nothing up, or the path cannot be opened, there is no handle.
pub proof fn law_reclaimed_handle_is_reached(
    c0: &Smb2Conn,
    c1: &Smb2Conn,
    id: [u8; 16],
    v2: bool,
    rec: Option<HandleRecord>,
    opened: Result<(OpenFile, FileMeta), VfsError>,
    r: Result<Vec<u8>, Status>,
)
    requires
        reconnected(c0, c1, id, v2, rec, opened, r),
    ensures
        r is Ok <==> rec is Some && opened is Ok,
        r is Err ==> *c1 == *c0,
        r matches Ok(b) ==> {
            let o = opened->Ok_0.0;
            let h = c1.handles@[id];
            &&& c1.handles@.dom().contains(id)
            &&& h.path == o.path && h.rel == o.rel && h.is_dir == o.is_dir && h.can_read == o.can_read && h.can_write
                == o.can_write
            &&& !h.delete_on_close
            &&& c1.durable@.dom().contains(id)
            &&& c1.durable@[id].rel@ == rec->0.path@ && c1.durable@[id].access == rec->0.access
            &&& b@.subrange(64, 80) == id@
            &&& little(b@, 4, 4) == 1
            &&& little(b@, 48, 8) == opened->Ok_0.1.eof
            &&& forall|k: [u8; 16]| k != id ==> c1.handles@.dom().contains(k) == #[trigger] c0.handles@.dom().contains(k)
        },
{
    match (rec, opened) {
        (Some(p), Ok((o, meta))) => {
            let x = create_contexts(None, Some(reconnect_grant(v2, p)));
            assert(x.len() < 0x1000);
            law_create_response_fields(0, 1, meta.times, meta.alloc, meta.eof, meta.attrs, id@, x);
        },
        _ => {},
    }
}

/// A connection that ends gives every durable handle that it had to the store, one record
/// each under the handle's own id and path, and keeps none; nothing that its session held
/// in the server's tables is left.
pub proof fn law_lost_connection_preserves_handles(
    s0: &Server2,
    s1: &Server2,
    c0: &Smb2Conn,
    c1: &Smb2Conn,
    now_ms: u64,
    r: Seq<HandleRecord>,
    i: int,
    p: Seq<char>,
    k: int,
)
    requires
        connection_ended(s0, s1, c0, c1, now_ms, r),
    ensures
        r.len() == c0.durable.entries@.len(),
        0 <= i < r.len() ==> r[i].create_guid == c0.durable.entries@[i].1.persistent_id && r[i].path@
            == c0.durable.entries@[i].1.rel@ && r[i].owner_user@ == c0.durable.entries@[i].1.owner_user@ && r[i].access
            == c0.durable.entries@[i].1.access,
        0 <= i < r.len() && !c0.durable.entries@[i].1.persistent ==> r[i].deadline_ms == now_ms
            + c0.durable.entries@[i].1.timeout,
        c1.durable@.dom() == Set::<[u8; 16]>::empty(),
        c0.session_id != 0 && 0 <= k < s1.locks.locks(p).len() ==> s1.locks.locks(p)[k].owner.0 != c0.session_id,
        c0.session_id != 0 && 0 <= k < s1.share_modes.opens_of(p).len() ==> s1.share_modes.opens_of(p)[k].owner.0
            != c0.session_id,
{
    assert(c1.durable@.dom() =~= Set::<[u8; 16]>::empty());
    if c0.session_id != 0 {
        let sid = c0.session_id;
        assert(s1.locks.locks(p) == s0.locks.locks(p).filter(lock_elsewhere(sid)));
        assert(s1.share_modes.opens_of(p) == s0.share_modes.opens_of(p).filter(mode_elsewhere(sid)));
        if 0 <= k < s1.locks.locks(p).len() {
            s0.locks.locks(p).lemma_filter_pred(lock_elsewhere(sid), k);
        }
        if 0 <= k < s1.share_modes.opens_of(p).len() {
            s0.share_modes.opens_of(p).lemma_filter_pred(mode_elsewhere(sid), k);
        }
    }
}

} // verus!
