//! SMB2 operations on trees, files and pipes.
use vstd::prelude::*;
use std::collections::HashMap;
use vstd::slice::slice_subrange;
use crate::bytes::{get_u16, lemma_little, little, u16_at};
use crate::conn2::{counted, counter_id, next_file_id, next_tree_id, Server2, Share2, Smb2Conn};
use crate::create2::{add_notices, break_dir_lease, joined_key, lease_dropped, lease_notices, leases_broken, locks_dropped, mode_closed, Notice};
use crate::frame2::{parent_dir, parent_of};
use crate::idmap::IdMap;
use crate::leases::{after_conflict, is_broken_by, law_conflict_breaks, notices, oplock_owner, LeaseHolder, LeaseTable};
use crate::locks::{blocks_read, blocks_write, lock_elsewhere, HeldLock, LockOwner};
use crate::reply2::{build_close_resp, build_create_resp, build_read_resp, build_write_resp, close_body, create_body, law_close_response_fields, law_read_response_carries_the_data, law_write_response_carries_the_count, read_body, write_body, LEASE_RH, LEASE_RWH, OPLOCK_NONE};
use crate::share_modes::mode_elsewhere;
use crate::smb::Status;
use crate::srvsvc::{fragments_ok, replies, unfinished, Pipe, ShareInfo};
use crate::text::{chars_of, decode_utf16_bytes, law_text_round_trip, lemma_last_piece, lowercase, pieces, same_text, split_slashes, text_of_range, texts, to_lowercase, units_of, utf16_bytes, utf16_lossy};
use crate::vfs::{vfs_err, vfs_status, Entry, FileMeta, OpenFile, VfsError};
use crate::wildcard::{le_from, lemma_le_total, lemma_le_trans, text_le, texts_sorted, trim_leading_slashes, without_leading};
use crate::wire2::{CreateReq, ReadReq, WriteReq};

verus! {

broadcast use vstd::std_specs::hash::group_hash_axioms;

// ---------------- trees ----------------

/// A text without the zero characters at its end.
pub open spec fn without_nuls(s: Seq<char>) -> Seq<char>
    decreases s.len(),
{
    if s.len() > 0 && s.last() == '\0' {
        without_nuls(s.drop_last())
    } else {
        s
    }
}

/// The path that a tree connect names; empty where it is cut short.
pub open spec fn tree_path(buf: Seq<u8>) -> Seq<char> {
    let off = u16_at(buf, 68) as int;
    let len = u16_at(buf, 70) as int;
    without_nuls(
        utf16_lossy(
            units_of(
                if off + len <= buf.len() {
                    buf.subrange(off, off + len)
                } else {
                    Seq::empty()
                },
            ),
        ),
    )
}

/// The last of the first `n` pieces that is not empty.
pub open spec fn last_named(p: Seq<Seq<char>>, n: int) -> Seq<char>
    decreases n,
{
    if n <= 0 {
        Seq::empty()
    } else if p[n - 1].len() > 0 {
        p[n - 1]
    } else {
        last_named(p, n - 1)
    }
}

/// The name of the share that a path leads to.
pub open spec fn share_name(path: Seq<char>) -> Seq<char> {
    lowercase(last_named(pieces(path), pieces(path).len() as int))
}

fn read_tree_path(buf: &[u8]) -> (r: String)
    ensures
        r@ == tree_path(buf@),
{
    let off: usize = get_u16(buf, 68) as usize;
    let len: usize = get_u16(buf, 70) as usize;
    let raw = if off + len <= buf.len() {
        slice_subrange(buf, off, off + len)
    } else {
        let e = slice_subrange(buf, 0, 0);
        assert(e@ =~= Seq::<u8>::empty());
        e
    };
    let text = decode_utf16_bytes(raw);
    let c = chars_of(text.as_str());
    let n: usize = c.len();
    let mut i: usize = n;
    assert(c@.subrange(0, n as int) =~= c@);
    while i > 0 && c[i - 1] == '\0'
        invariant
            i <= n == c@.len(),
            c@ == text@,
            without_nuls(c@) == without_nuls(c@.subrange(0, i as int)),
        decreases i,
    {
        assert(c@.subrange(0, i as int).drop_last() =~= c@.subrange(0, i - 1));
        i -= 1;
    }
    text_of_range(c.as_slice(), 0, i)
}

fn find_share_name(path: &str) -> (r: String)
    ensures
        r@ == share_name(path@),
{
    let p = split_slashes(path);
    let n: usize = p.len();
    let mut i: usize = n;
    proof {
        reveal_strlit("");
    }
    assert(texts(p@) == pieces(path@));
    while i > 0 && same_text(p[i - 1].as_str(), "")
        invariant
            i <= n == p@.len(),
            texts(p@) == pieces(path@),
            ""@.len() == 0,
            last_named(pieces(path@), n as int) == last_named(pieces(path@), i as int),
        decreases i,
    {
        assert(texts(p@)[i - 1] == p@[i - 1]@);
        i -= 1;
    }
    if i == 0 {
        let e = to_lowercase("");
        assert(""@ =~= Seq::<char>::empty());
        e
    } else {
        proof {
            assert(texts(p@)[i - 1] == p@[i - 1]@);
            if p@[i - 1]@.len() == 0 {
                assert(p@[i - 1]@ =~= ""@);
            }
        }
        to_lowercase(p[i - 1].as_str())
    }
}

/// What a tree connect is answered with.
#[derive(Clone, Copy, PartialEq, Eq, Structural, Debug)]
pub struct TreeReply {
    pub tree_id: u32,
    /// The share is the virtual pipe share.
    pub is_pipe: bool,
    pub encrypt: bool,
    pub compress: bool,
    pub ca: bool,
}

/// Whether a tree is connected as it should.
pub open spec fn tree_connected2(
    s0: &Server2,
    s1: &Server2,
    c0: &Smb2Conn,
    c1: &Smb2Conn,
    buf: Seq<u8>,
    r: Result<TreeReply, Status>,
) -> bool {
    let name = share_name(tree_path(buf));
    if !s0.shares@.contains_key(name) {
        r == Err::<TreeReply, Status>(Status::BAD_NETWORK_NAME) && *s1 == *s0 && *c1 == *c0
    } else {
        let sh = s0.shares@[name];
        let tid = (s0.next_tree_id % 0x8000_0000) as u32;
        &&& r == Ok::<TreeReply, Status>(
            TreeReply { tree_id: tid, is_pipe: sh.is_ipc, encrypt: sh.encrypt, compress: sh.compress, ca: sh.ca },
        )
        &&& *s1 == (Server2 { next_tree_id: counted(s0.next_tree_id), ..*s0 })
        &&& *c1 == (Smb2Conn {
            trees: c1.trees,
            resp_tree_id: Some(tid),
            seal_current: c0.seal_current || sh.encrypt,
            ..*c0
        })
        &&& c1.trees@.contains_key(tid)
        &&& c1.trees@[tid]@ == name
        &&& c1.trees@ == c0.trees@.insert(tid, c1.trees@[tid])
    }
}

/// Connects a tree to the share that the request names. The response of an
/// encrypted share is sealed itself.
pub fn tree_connect(server: &mut Server2, conn: &mut Smb2Conn, buf: &[u8]) -> (r: Result<TreeReply, Status>)
    requires
        old(server).wf(),
    ensures
        tree_connected2(old(server), final(server), old(conn), final(conn), buf@, r),
        final(server).wf(),
{
    let path = read_tree_path(buf);
    let name = find_share_name(path.as_str());
    let reply = match server.shares.get(name.as_str()) {
        Some(sh) => TreeReply {
            tree_id: 0,
            is_pipe: sh.is_ipc,
            encrypt: sh.encrypt,
            compress: sh.compress,
            ca: sh.ca,
        },
        None => return Err(Status::BAD_NETWORK_NAME),
    };
    let tid: u32 = next_tree_id(server);
    let ghost before = conn.trees@;
    conn.trees.insert(tid, name);
    assert(conn.trees@ =~= before.insert(tid, conn.trees@[tid]));
    conn.resp_tree_id = Some(tid);
    if reply.encrypt {
        conn.seal_current = true;
    }
    Ok(TreeReply { tree_id: tid, ..reply })
}

/// Whether a tree is disconnected and nothing else changes.
pub open spec fn tree_left(c0: &Smb2Conn, c1: &Smb2Conn, tid: u32) -> bool {
    &&& *c1 == (Smb2Conn { trees: c1.trees, ..*c0 })
    &&& c1.trees@ == c0.trees@.remove(tid)
}

/// Disconnects a tree; one that is not connected is passed over.
pub fn tree_disconnect(conn: &mut Smb2Conn, tid: u32)
    ensures
        tree_left(old(conn), final(conn), tid),
{
    let ghost before = conn.trees@;
    conn.trees.remove(&tid);
    assert(conn.trees@ =~= before.remove(tid));
}

/// What a connected tree is then asked for is found under the id in its response.
pub proof fn law_connected_tree_is_found(
    s0: &Server2,
    s1: &Server2,
    c0: &Smb2Conn,
    c1: &Smb2Conn,
    buf: Seq<u8>,
    t: TreeReply,
)
    requires
        tree_connected2(s0, s1, c0, c1, buf, Ok(t)),
    ensures
        c1.tree_share(t.tree_id) == Some(share_name(tree_path(buf))),
        c1.tree_encrypts(s1, t.tree_id) == t.encrypt,
        c1.resp_tree_id == Some(t.tree_id),
        t.encrypt ==> c1.seal_current,
{
}

/// The share of a tree.
pub open spec fn share_of(server: &Server2, c: &Smb2Conn, tid: u32) -> Option<Share2> {
    match c.tree_share(tid) {
        Some(n) => if server.shares@.contains_key(n) {
            Some(server.shares@[n])
        } else {
            None
        },
        None => None,
    }
}

/// Whether a tree leads to a share.
pub fn has_share(server: &Server2, conn: &Smb2Conn, tid: u32) -> (r: bool)
    requires
        server.wf(),
    ensures
        r == share_of(server, conn, tid) is Some,
{
    match conn.trees.get(&tid) {
        Some(n) => server.shares.get(n.as_str()).is_some(),
        None => false,
    }
}

/// Whether a tree leads to the virtual pipe share.
pub fn share_is_ipc(server: &Server2, conn: &Smb2Conn, tid: u32) -> (r: bool)
    requires
        server.wf(),
    ensures
        r == (share_of(server, conn, tid) matches Some(s) && s.is_ipc),
{
    match conn.trees.get(&tid) {
        Some(n) => match server.shares.get(n.as_str()) {
            Some(s) => s.is_ipc,
            None => false,
        },
        None => false,
    }
}

/// Whether a tree leads to a continuously available share.
pub fn share_is_ca(server: &Server2, conn: &Smb2Conn, tid: u32) -> (r: bool)
    requires
        server.wf(),
    ensures
        r == (share_of(server, conn, tid) matches Some(s) && s.ca),
{
    match conn.trees.get(&tid) {
        Some(n) => match server.shares.get(n.as_str()) {
            Some(s) => s.ca,
            None => false,
        },
        None => false,
    }
}

// ---------------- logoff ----------------

/// Whether a session holds nothing any more: no lock, open, oplock or lease.
pub open spec fn holdings_released(s0: &Server2, s1: &Server2, sid: u64) -> bool {
    &&& *s1 == (Server2 {
        locks: s1.locks,
        share_modes: s1.share_modes,
        oplocks: s1.oplocks,
        leases: s1.leases,
        sessions: s1.sessions,
        ..*s0
    })
    &&& forall|p: Seq<char>| #[trigger] s1.locks.locks(p) == s0.locks.locks(p).filter(lock_elsewhere(sid))
    &&& forall|p: Seq<char>| #[trigger]
        s1.share_modes.opens_of(p) == s0.share_modes.opens_of(p).filter(mode_elsewhere(sid))
    &&& forall|p: Seq<char>| #[trigger]
        s1.oplocks.holders().contains_key(p) <==> s0.oplocks.holders().contains_key(p) && s0.oplocks.holders()[p].session_id
            != sid
    &&& forall|p: Seq<char>| #[trigger]
        s1.oplocks.holders().contains_key(p) ==> s1.oplocks.holders()[p] == s0.oplocks.holders()[p]
    &&& forall|p: Seq<char>| #[trigger]
        s1.leases.holders(p) == s0.leases.holders(p).filter(|h: LeaseHolder| h.session_id != sid)
}

/// Whether nothing of a session is left in the server's tables.
pub open spec fn session_released(s0: &Server2, s1: &Server2, sid: u64) -> bool {
    &&& holdings_released(s0, s1, sid)
    &&& s1.sessions@ == s0.sessions@.remove(sid)
}

/// Releases what a session holds.
pub fn release_holdings(server: &mut Server2, sid: u64)
    requires
        old(server).wf(),
    ensures
        holdings_released(old(server), final(server), sid),
        final(server).sessions == old(server).sessions,
        final(server).wf(),
{
    server.locks.release_session(sid);
    server.share_modes.close_session(sid);
    server.oplocks.release_session(sid);
    server.leases.release_session(sid);
}

/// Whether a connection has left its session.
pub open spec fn logged_off(c0: &Smb2Conn, c1: &Smb2Conn) -> bool {
    &&& *c1 == (Smb2Conn {
        handles: c1.handles,
        pipes: c1.pipes,
        trees: c1.trees,
        searches: c1.searches,
        authenticated: false,
        ..*c0
    })
    &&& c1.handles@ == Map::<[u8; 16], OpenFile>::empty()
    &&& c1.pipes@ == Map::<[u8; 16], Pipe>::empty()
    &&& c1.trees@ == Map::<u32, String>::empty()
    &&& c1.searches@ == Map::<[u8; 16], Vec<Entry>>::empty()
}

/// Ends the session of a connection: its opens, pipes, trees and searches are gone,
/// and so is what it holds in the server's tables. Session id and keys stay, so that
/// the response can still be protected.
pub fn logoff(server: &mut Server2, conn: &mut Smb2Conn)
    requires
        old(server).wf(),
        old(conn).wf(),
    ensures
        session_released(old(server), final(server), old(conn).session_id),
        logged_off(old(conn), final(conn)),
        final(server).wf(),
        final(conn).wf(),
{
    let sid: u64 = conn.session_id;
    close_all_handles(conn);
    release_holdings(server, sid);
    server.sessions.remove(sid);
    conn.trees = HashMap::new();
    conn.searches = IdMap::new();
    conn.authenticated = false;
}

/// Forgets every open and every pipe of a connection.
pub fn close_all_handles(conn: &mut Smb2Conn)
    ensures
        *final(conn) == (Smb2Conn { handles: final(conn).handles, pipes: final(conn).pipes, ..*old(conn) }),
        final(conn).handles.wf(),
        final(conn).pipes.wf(),
        final(conn).handles@ == Map::<[u8; 16], OpenFile>::empty(),
        final(conn).pipes@ == Map::<[u8; 16], Pipe>::empty(),
{
    conn.handles = IdMap::new();
    conn.pipes = IdMap::new();
}

// ---------------- pipes ----------------

/// Whether a pipe of this name is served.
pub open spec fn known_pipe(name: Seq<char>) -> bool {
    name == "srvsvc"@ || name == "wkssvc"@ || name == "lanman"@ || name == "netlogon"@
}

fn is_known_pipe(name: &str) -> (r: bool)
    ensures
        r == known_pipe(name@),
{
    same_text(name, "srvsvc") || same_text(name, "wkssvc") || same_text(name, "lanman") || same_text(name, "netlogon")
}

/// Whether a pipe is opened as it should.
pub open spec fn pipe_created(
    s0: &Server2,
    s1: &Server2,
    c0: &Smb2Conn,
    c1: &Smb2Conn,
    name: Seq<char>,
    r: Result<Vec<u8>, Status>,
) -> bool {
    let n = lowercase(without_leading(name));
    if !known_pipe(n) {
        r == Err::<Vec<u8>, Status>(Status::OBJECT_PATH_NOT_FOUND) && *s1 == *s0 && *c1 == *c0
    } else {
        &&& *s1 == (Server2 { next_file_id: counted(s0.next_file_id), ..*s0 })
        &&& *c1 == (Smb2Conn { pipes: c1.pipes, ..*c0 })
        &&& c1.pipes.wf()
        &&& r matches Ok(b)
        &&& b@ == create_body(
            OPLOCK_NONE,
            1,
            [0, 0, 0, 0],
            4096,
            0,
            0,
            counter_id(s0.next_file_id),
            Seq::empty(),
        )
        &&& exists|fid: [u8; 16]|
            #[trigger] fid@ == counter_id(s0.next_file_id) && c1.pipes@.contains_key(fid) && c1.pipes@ == c0.pipes@.insert(
                fid,
                c1.pipes@[fid],
            ) && c1.pipes@[fid].name@ == lowercase(n) && c1.pipes@[fid].unread() == Seq::<u8>::empty()
                && c1.pipes@[fid].queue() == Seq::<Seq<u8>>::empty()
    }
}

/// Opens a pipe.
pub fn pipe_create(server: &mut Server2, conn: &mut Smb2Conn, req: &CreateReq) -> (r: Result<Vec<u8>, Status>)
    requires
        old(conn).wf(),
    ensures
        pipe_created(old(server), final(server), old(conn), final(conn), req.name@, r),
        final(conn).wf(),
{
    let name = to_lowercase(trim_leading_slashes(req.name.as_str()).as_str());
    if !is_known_pipe(name.as_str()) {
        return Err(Status::OBJECT_PATH_NOT_FOUND);
    }
    let fid = next_file_id(server);
    conn.pipes.insert(fid, Pipe::new(name.as_str()));
    assert(fid@ == counter_id(old(server).next_file_id));
    let e: [u8; 0] = [];
    assert(e@ =~= Seq::<u8>::empty());
    Ok(build_create_resp(OPLOCK_NONE, 1, [0, 0, 0, 0], 4096, 0, 0, &fid, e.as_slice()))
}

/// Whether bytes were read from a pipe.
pub open spec fn pipe_drained(p0: Pipe, p1: Pipe, max: int, out: Seq<u8>) -> bool {
    let q = p0.queue();
    &&& p1.name == p0.name
    &&& p1.unread() == p0.unread()
    &&& if q.len() == 0 {
        out == Seq::<u8>::empty() && p1.queue() == q
    } else {
        let n = if q[0].len() <= max {
            q[0].len() as int
        } else {
            max
        };
        &&& out == q[0].subrange(0, n)
        &&& p1.queue() == if n == q[0].len() {
            q.subrange(1, q.len() as int)
        } else {
            q.update(0, q[0].subrange(n, q[0].len() as int))
        }
    }
}

/// Whether a pipe of the connection changes and nothing else does.
pub open spec fn only_pipe_changes(c0: &Smb2Conn, c1: &Smb2Conn, fid: [u8; 16]) -> bool {
    &&& *c1 == (Smb2Conn { pipes: c1.pipes, ..*c0 })
    &&& c1.pipes.wf()
    &&& c1.pipes@.contains_key(fid)
    &&& c1.pipes@ == c0.pipes@.insert(fid, c1.pipes@[fid])
}

/// Whether a read takes what a pipe has to say.
pub open spec fn pipe_was_read(c0: &Smb2Conn, c1: &Smb2Conn, req: ReadReq, r: Option<Vec<u8>>) -> bool {
    if c0.pipes@.contains_key(req.file_id) {
        &&& only_pipe_changes(c0, c1, req.file_id)
        &&& r is Some
        &&& exists|out: Seq<u8>|
            #[trigger] read_body(out) == r->0@ && pipe_drained(
                c0.pipes@[req.file_id],
                c1.pipes@[req.file_id],
                req.length as int,
                out,
            )
    } else {
        r is None && *c1 == *c0
    }
}

/// Reads from a pipe; none where the file is not a pipe.
pub fn pipe_read(conn: &mut Smb2Conn, req: &ReadReq) -> (r: Option<Vec<u8>>)
    requires
        old(conn).wf(),
    ensures
        final(conn).wf(),
        pipe_was_read(old(conn), final(conn), *req, r),
{
    if !conn.pipes.contains(&req.file_id) {
        return None;
    }
    match conn.pipes.remove(&req.file_id) {
        Some(p) => {
            let mut p = p;
            let out = p.take(req.length as usize);
            conn.pipes.insert(req.file_id, p);
            assert(conn.pipes@ =~= old(conn).pipes@.insert(req.file_id, conn.pipes@[req.file_id]));
            let b = build_read_resp(out.as_slice());
            assert(read_body(out@) == b@);
            Some(b)
        },
        None => None,
    }
}

/// Whether bytes were written to a pipe.
pub open spec fn pipe_fed(p0: Pipe, p1: Pipe, data: Seq<u8>, shares: Seq<ShareInfo>) -> bool {
    &&& p1.name == p0.name
    &&& p1.unread() == unfinished(p0.unread() + data)
    &&& p1.queue() == p0.queue() + replies(p0.unread() + data, shares)
}

/// Writes to a pipe; none where the file is not a pipe.
pub fn pipe_write(conn: &mut Smb2Conn, req: &WriteReq, shares: &Vec<ShareInfo>) -> (r: Option<Vec<u8>>)
    requires
        old(conn).wf(),
        shares@.len() < 0x1000_0000,
        req.payload@.len() <= u32::MAX,
        old(conn).pipes@.contains_key(req.file_id) ==> fragments_ok(
            old(conn).pipes@[req.file_id].unread() + req.payload@,
        ),
    ensures
        final(conn).wf(),
        if old(conn).pipes@.contains_key(req.file_id) {
            &&& only_pipe_changes(old(conn), final(conn), req.file_id)
            &&& pipe_fed(
                old(conn).pipes@[req.file_id],
                final(conn).pipes@[req.file_id],
                req.payload@,
                shares@,
            )
            &&& r matches Some(b) && b@ == write_body(req.payload@.len() as u32)
        } else {
            r is None && *final(conn) == *old(conn)
        },
{
    if !conn.pipes.contains(&req.file_id) {
        return None;
    }
    match conn.pipes.remove(&req.file_id) {
        Some(p) => {
            let mut p = p;
            p.on_write(req.payload.as_slice(), shares.as_slice());
            conn.pipes.insert(req.file_id, p);
            assert(conn.pipes@ =~= old(conn).pipes@.insert(req.file_id, conn.pipes@[req.file_id]));
            Some(build_write_resp(req.payload.len() as u32))
        },
        None => None,
    }
}

/// Whether a pipe takes what is written to it: every whole fragment announces at
/// least its own header.
pub fn pipe_accepts(conn: &Smb2Conn, req: &WriteReq) -> (r: bool)
    requires
        conn.wf(),
    ensures
        r == (conn.pipes@.contains_key(req.file_id) ==> fragments_ok(conn.pipes@[req.file_id].unread() + req.payload@)),
{
    match conn.pipes.get(&req.file_id) {
        Some(p) => p.accepts(req.payload.as_slice()),
        None => true,
    }
}

/// Closes a pipe; tells whether the file was one.
pub fn pipe_close(conn: &mut Smb2Conn, fid: &[u8; 16]) -> (r: bool)
    requires
        old(conn).wf(),
    ensures
        final(conn).wf(),
        r == old(conn).pipes@.contains_key(*fid),
        *final(conn) == (Smb2Conn { pipes: final(conn).pipes, ..*old(conn) }),
        final(conn).pipes@ == old(conn).pipes@.remove(*fid),
{
    let r: bool = conn.pipes.contains(fid);
    let _ = conn.pipes.remove(fid);
    r
}

// ---------------- the list of shares ----------------

/// The type of the virtual pipe share in the list of shares.
pub const STYPE_IPC_SPECIAL: u32 = 0x8000_0003;

/// Name and type of a share in the list.
pub open spec fn info_view(i: ShareInfo) -> (Seq<char>, u32) {
    (i.netname@, i.shi_type)
}

/// Names and types in the list of shares.
pub open spec fn info_views(v: Seq<ShareInfo>) -> Seq<(Seq<char>, u32)> {
    Seq::new(v.len(), |i: int| info_view(v[i]))
}

/// The names in the list of shares.
pub open spec fn listed_names(v: Seq<(Seq<char>, u32)>) -> Seq<Seq<char>> {
    Seq::new(v.len(), |i: int| v[i].0)
}

/// Name and type of a share.
pub open spec fn share_view(s: Share2) -> (Seq<char>, u32) {
    (
        s.name@,
        if s.is_ipc {
            STYPE_IPC_SPECIAL
        } else {
            0
        },
    )
}

/// Names and types of the shares in a table.
pub open spec fn share_views(e: Seq<(String, Share2)>) -> Seq<(Seq<char>, u32)> {
    Seq::new(e.len(), |i: int| share_view(e[i].1))
}

fn insert_info(v: &mut Vec<ShareInfo>, x: ShareInfo)
    requires
        texts_sorted(listed_names(info_views(old(v)@))),
    ensures
        texts_sorted(listed_names(info_views(final(v)@))),
        info_views(final(v)@).to_multiset() == info_views(old(v)@).to_multiset().insert(info_view(x)),
        forall|i: int| 0 <= i < final(v)@.len() ==> final(v)@[i] == x || old(v)@.contains(#[trigger] final(v)@[i]),
{
    let xc = chars_of(x.netname.as_str());
    let mut k: usize = v.len();
    let ghost before = info_views(v@);
    let ghost names = listed_names(before);
    while k > 0
        invariant_except_break
            k <= v@.len(),
            xc@ == x.netname@,
            names == listed_names(info_views(v@)),
            texts_sorted(names),
            forall|m: int| k <= m < v@.len() ==> text_le(x.netname@, #[trigger] names[m]),
        ensures
            k <= v@.len(),
            forall|m: int| k <= m < v@.len() ==> text_le(x.netname@, #[trigger] names[m]),
            forall|m: int| 0 <= m < k ==> text_le(#[trigger] names[m], x.netname@),
        decreases k,
    {
        let yc = chars_of(v[k - 1].netname.as_str());
        assert(names[k - 1] == yc@);
        if le_from(&yc, &xc) {
            assert forall|m: int| 0 <= m < k implies text_le(#[trigger] names[m], x.netname@) by {
                if m < k - 1 {
                    lemma_le_trans(names[m], names[k - 1], x.netname@);
                }
            }
            break;
        }
        proof {
            lemma_le_total(yc@, x.netname@);
        }
        k -= 1;
    }
    let ghost xv = info_view(x);
    let ghost v0 = v@;
    v.insert(k, x);
    proof {
        assert(info_views(v@) =~= before.insert(k as int, xv));
        vstd::seq_lib::to_multiset_insert(before, k as int, xv);
        let t = listed_names(info_views(v@));
        assert forall|a: int, b: int| 0 <= a < b < t.len() implies text_le(#[trigger] t[a], #[trigger] t[b]) by {
            if b < k {
                assert(text_le(names[a], names[b]));
            } else if b == k {
                assert(text_le(names[a], x.netname@));
            } else if a == k {
                assert(text_le(x.netname@, names[b - 1]));
            } else if a < k {
                assert(text_le(names[a], names[b - 1]));
            } else {
                assert(text_le(names[a - 1], names[b - 1]));
            }
        }
        assert forall|i: int| 0 <= i < v@.len() implies v@[i] == x || v0.contains(#[trigger] v@[i]) by {
            if i < k {
                assert(v0[i] == v@[i]);
            } else if i > k {
                assert(v0[i - 1] == v@[i]);
            }
        }
    }
}

/// The list of shares in the order of their names.
pub fn share_infos(server: &Server2) -> (r: Vec<ShareInfo>)
    requires
        server.wf(),
    ensures
        texts_sorted(listed_names(info_views(r@))),
        info_views(r@).to_multiset() == share_views(server.shares.entries@).to_multiset(),
        forall|i: int| 0 <= i < r@.len() ==> (#[trigger] r@[i]).remark@.len() == 0,
{
    let n: usize = server.shares.entries.len();
    let mut r: Vec<ShareInfo> = Vec::new();
    let mut i: usize = 0;
    assert(info_views(r@) =~= share_views(server.shares.entries@).take(0));
    while i < n
        invariant
            i <= n == server.shares.entries@.len(),
            texts_sorted(listed_names(info_views(r@))),
            info_views(r@).to_multiset() == share_views(server.shares.entries@).take(i as int).to_multiset(),
            forall|k: int| 0 <= k < r@.len() ==> (#[trigger] r@[k]).remark@.len() == 0,
        decreases n - i,
    {
        let s = &server.shares.entries[i].1;
        let shi_type: u32 = if s.is_ipc {
            STYPE_IPC_SPECIAL
        } else {
            0
        };
        let x = ShareInfo { netname: s.name.clone(), shi_type, remark: String::new() };
        let ghost e = share_views(server.shares.entries@);
        let ghost r0 = r@;
        assert(info_view(x) == e[i as int]);
        insert_info(&mut r, x);
        proof {
            assert(e.take(i + 1) =~= e.take(i as int).push(e[i as int]));
            vstd::seq_lib::to_multiset_build(e.take(i as int), e[i as int]);
            assert forall|k: int| 0 <= k < r@.len() implies (#[trigger] r@[k]).remark@.len() == 0 by {
                if r@[k] != x {
                    let j = choose|j: int| 0 <= j < r0.len() && r0[j] == r@[k];
                    assert(r0[j].remark@.len() == 0);
                }
            }
        }
        i += 1;
    }
    assert(share_views(server.shares.entries@).take(n as int) =~= share_views(server.shares.entries@));
    r
}

/// After a logoff no lock, open, oplock, lease or session entry of the session is
/// left.
pub proof fn law_logoff_leaves_nothing(s0: &Server2, s1: &Server2, sid: u64, p: Seq<char>)
    requires
        session_released(s0, s1, sid),
    ensures
        forall|i: int| 0 <= i < s1.locks.locks(p).len() ==> (#[trigger] s1.locks.locks(p)[i]).owner.0 != sid,
        forall|i: int| 0 <= i < s1.share_modes.opens_of(p).len() ==> (#[trigger] s1.share_modes.opens_of(p)[i]).owner.0 != sid,
        s1.oplocks.holders().contains_key(p) ==> s1.oplocks.holders()[p].session_id != sid,
        forall|i: int| 0 <= i < s1.leases.holders(p).len() ==> (#[trigger] s1.leases.holders(p)[i]).session_id != sid,
        !s1.sessions@.contains_key(sid),
{
    assert forall|i: int| 0 <= i < s1.locks.locks(p).len() implies (#[trigger] s1.locks.locks(p)[i]).owner.0 != sid by {
        s0.locks.locks(p).lemma_filter_pred(lock_elsewhere(sid), i);
    }
    assert forall|i: int| 0 <= i < s1.share_modes.opens_of(p).len() implies (#[trigger] s1.share_modes.opens_of(
        p,
    )[i]).owner.0 != sid by {
        s0.share_modes.opens_of(p).lemma_filter_pred(mode_elsewhere(sid), i);
    }
    let other = |h: LeaseHolder| h.session_id != sid;
    assert forall|i: int| 0 <= i < s1.leases.holders(p).len() implies (#[trigger] s1.leases.holders(p)[i]).session_id
        != sid by {
        s0.leases.holders(p).lemma_filter_pred(other, i);
    }
}

// ---------------- files ----------------

/// The most that one read returns.
pub const MAX_READ: usize = 0x10_0000;

/// Why a file cannot be read; none where it can.
pub open spec fn read_refusal(server: &Server2, c: &Smb2Conn, req: ReadReq) -> Option<Status> {
    if !c.handles@.contains_key(req.file_id) {
        Some(Status::INVALID_HANDLE)
    } else {
        let h = c.handles@[req.file_id];
        if h.is_dir || !h.can_read {
            Some(Status::ACCESS_DENIED)
        } else if blocks_read(
            server.locks.locks(h.path@),
            req.offset,
            read_len(req) as u64,
            (c.session_id, req.file_id),
        ) {
            Some(Status::FILE_LOCK_CONFLICT)
        } else {
            None
        }
    }
}

/// How much a read returns at most.
pub open spec fn read_len(req: ReadReq) -> int {
    if req.length <= MAX_READ {
        req.length as int
    } else {
        MAX_READ as int
    }
}

/// How a read goes on.
pub open spec fn read_planned(server: &Server2, c: &Smb2Conn, req: ReadReq) -> Result<usize, Status> {
    match read_refusal(server, c, req) {
        Some(s) => Err(s),
        None => Ok(read_len(req) as usize),
    }
}

/// Checks a read. On success it tells how many bytes to read at most.
pub fn plan_read(server: &Server2, conn: &Smb2Conn, req: &ReadReq) -> (r: Result<usize, Status>)
    requires
        server.wf(),
        conn.wf(),
    ensures
        r == read_planned(server, conn, *req),
{
    let len: usize = if req.length as usize <= MAX_READ {
        req.length as usize
    } else {
        MAX_READ
    };
    let h = match conn.handles.get(&req.file_id) {
        Some(h) => h,
        None => return Err(Status::INVALID_HANDLE),
    };
    if h.is_dir || !h.can_read {
        return Err(Status::ACCESS_DENIED);
    }
    if server.locks.read_conflict(h.path.as_str(), req.offset, len as u64, (conn.session_id, req.file_id)) {
        return Err(Status::FILE_LOCK_CONFLICT);
    }
    Ok(len)
}

/// Whether a read is answered with what was read.
pub open spec fn read_answered(data: Result<Vec<u8>, VfsError>, r: Result<Vec<u8>, Status>) -> bool {
    match data {
        Ok(d) => r matches Ok(b) && b@ == read_body(d@),
        Err(e) => r == Err::<Vec<u8>, Status>(vfs_status(e)),
    }
}

/// The response to a read.
pub fn finish_read(data: Result<Vec<u8>, VfsError>) -> (r: Result<Vec<u8>, Status>)
    ensures
        read_answered(data, r),
{
    match data {
        Ok(d) => Ok(build_read_resp(d.as_slice())),
        Err(e) => Err(vfs_err(&e)),
    }
}

/// Why a file cannot be written; none where it can.
pub open spec fn write_refusal(server: &Server2, c: &Smb2Conn, req: WriteReq) -> Option<Status> {
    if !c.handles@.contains_key(req.file_id) {
        Some(Status::INVALID_HANDLE)
    } else {
        let h = c.handles@[req.file_id];
        if h.is_dir || !h.can_write {
            Some(Status::ACCESS_DENIED)
        } else if blocks_write(
            server.locks.locks(h.path@),
            req.offset,
            req.payload@.len() as u64,
            (c.session_id, req.file_id),
        ) {
            Some(Status::FILE_LOCK_CONFLICT)
        } else {
            None
        }
    }
}

/// Checks a write.
pub fn plan_write(server: &Server2, conn: &Smb2Conn, req: &WriteReq) -> (r: Option<Status>)
    requires
        server.wf(),
        conn.wf(),
    ensures
        r == write_refusal(server, conn, *req),
{
    let h = match conn.handles.get(&req.file_id) {
        Some(h) => h,
        None => return Some(Status::INVALID_HANDLE),
    };
    if h.is_dir || !h.can_write {
        return Some(Status::ACCESS_DENIED);
    }
    if server.locks.write_conflict(
        h.path.as_str(),
        req.offset,
        req.payload.len() as u64,
        (conn.session_id, req.file_id),
    ) {
        return Some(Status::FILE_LOCK_CONFLICT);
    }
    None
}

/// Whether a write has broken the leases it makes stale: those of others on the
/// file, wholly, and those on the directory the file lies in.
pub open spec fn write_broke(
    t0: &LeaseTable,
    m: &LeaseTable,
    t1: &LeaseTable,
    c: &Smb2Conn,
    path: Seq<char>,
    fid: [u8; 16],
    told: Seq<Notice>,
) -> bool {
    let owner = (c.session_id, fid);
    let key = joined_key(c, fid);
    &&& leases_broken(t0, m, path, owner, key, LEASE_RWH)
    &&& leases_broken(m, t1, parent_of(path), owner, key, LEASE_RH)
    &&& told == lease_notices(notices(t0.holders(path), owner, key, LEASE_RWH)) + lease_notices(
        notices(m.holders(parent_of(path)), owner, key, LEASE_RH),
    )
}

/// Whether a write has broken the leases it makes stale.
pub open spec fn write_breaks(
    t0: &LeaseTable,
    t1: &LeaseTable,
    c: &Smb2Conn,
    path: Seq<char>,
    fid: [u8; 16],
    told: Seq<Notice>,
) -> bool {
    exists|m: LeaseTable| #[trigger] write_broke(t0, &m, t1, c, path, fid, told)
}

/// Whether a write ends as it should.
pub open spec fn write_finished(
    s0: &Server2,
    s1: &Server2,
    c: &Smb2Conn,
    fid: [u8; 16],
    written: Result<u64, VfsError>,
    r: Result<Vec<u8>, Status>,
    told: Seq<Notice>,
) -> bool {
    &&& *s1 == (Server2 { leases: s1.leases, ..*s0 })
    &&& match written {
        Ok(n) => {
            &&& r matches Ok(b) && b@ == write_body((n % 0x1_0000_0000) as u32)
            &&& write_breaks(&s0.leases, &s1.leases, c, c.handles@[fid].path@, fid, told)
        },
        Err(e) => r == Err::<Vec<u8>, Status>(vfs_status(e)) && told.len() == 0 && *s1 == *s0,
    }
}

/// Ends a write: `written` is how many bytes were written.
pub fn finish_write(server: &mut Server2, conn: &Smb2Conn, fid: [u8; 16], written: Result<u64, VfsError>) -> (r: (
    Result<Vec<u8>, Status>,
    Vec<Notice>,
))
    requires
        old(server).wf(),
        conn.wf(),
        conn.handles@.contains_key(fid),
    ensures
        final(server).wf(),
        write_finished(old(server), final(server), conn, fid, written, r.0, r.1@),
{
    match written {
        Err(e) => (Err(vfs_err(&e)), Vec::new()),
        Ok(n) => {
            let mut told: Vec<Notice> = Vec::new();
            let path = match conn.handles.get(&fid) {
                Some(h) => h.path.clone(),
                None => String::new(),
            };
            let b = break_dir_lease(&mut server.leases, conn, path.as_str(), fid, LEASE_RWH);
            add_notices(&mut told, &b);
            assert(told@ =~= lease_notices(b@));
            let ghost m = server.leases;
            let parent = parent_dir(path.as_str());
            let d = break_dir_lease(&mut server.leases, conn, parent.as_str(), fid, LEASE_RH);
            add_notices(&mut told, &d);
            let body = build_write_resp((n % 0x1_0000_0000) as u32);
            assert(path@ == conn.handles@[fid].path@);
            assert(write_broke(&old(server).leases, &m, &server.leases, conn, conn.handles@[fid].path@, fid, told@));
            assert(write_breaks(&old(server).leases, &server.leases, conn, conn.handles@[fid].path@, fid, told@));
            (Ok(body), told)
        },
    }
}

/// A write that is let through by the lock table is not covered by a lock of
/// another open.
pub proof fn law_write_respects_locks(server: &Server2, c: &Smb2Conn, req: WriteReq, i: int)
    requires
        write_refusal(server, c, req) is None,
        0 <= i < server.locks.locks(c.handles@[req.file_id].path@).len(),
        server.locks.locks(c.handles@[req.file_id].path@)[i].owner != (c.session_id, req.file_id),
    ensures
        ({
            let h = server.locks.locks(c.handles@[req.file_id].path@)[i];
            !crate::locks::ranges_overlap(h.offset, h.length, req.offset, req.payload@.len() as u64)
        }),
{
    let held = server.locks.locks(c.handles@[req.file_id].path@);
    assert(!blocks_write(held, req.offset, req.payload@.len() as u64, (c.session_id, req.file_id)));
    let h = held[i];
}

// ---------------- close ----------------

/// Whether an open is taken off its connection.
pub open spec fn open_taken(c0: &Smb2Conn, c1: &Smb2Conn, fid: [u8; 16], r: Option<OpenFile>) -> bool {
    if c0.handles@.contains_key(fid) {
        &&& r == Some(c0.handles@[fid])
        &&& *c1 == (Smb2Conn { handles: c1.handles, searches: c1.searches, lease_keys: c1.lease_keys, ..*c0 })
        &&& c1.handles@ == c0.handles@.remove(fid)
        &&& c1.searches@ == c0.searches@.remove(fid)
        &&& c1.lease_keys@ == c0.lease_keys@.remove(fid)
    } else {
        r is None && *c1 == *c0
    }
}

/// Takes an open off its connection before it is closed; none where there is no such
/// open.
pub fn take_open(conn: &mut Smb2Conn, fid: &[u8; 16]) -> (r: Option<OpenFile>)
    requires
        old(conn).wf(),
    ensures
        final(conn).wf(),
        open_taken(old(conn), final(conn), *fid, r),
{
    if !conn.handles.contains(fid) {
        return None;
    }
    let r = conn.handles.remove(fid);
    let _ = conn.searches.remove(fid);
    let _ = conn.lease_keys.remove(fid);
    r
}

/// Whether what an open held in the server's tables is released.
pub open spec fn open_released(s0: &Server2, s1: &Server2, path: Seq<char>, owner: LockOwner) -> bool {
    &&& *s1 == (Server2 {
        locks: s1.locks,
        share_modes: s1.share_modes,
        oplocks: s1.oplocks,
        leases: s1.leases,
        ..*s0
    })
    &&& locks_dropped(&s0.locks, &s1.locks, owner)
    &&& mode_closed(&s0.share_modes, &s1.share_modes, path, owner)
    &&& s1.oplocks.holders() == if s0.oplocks.holders().contains_key(path) && oplock_owner(s0.oplocks.holders()[path])
        == owner {
        s0.oplocks.holders().remove(path)
    } else {
        s0.oplocks.holders()
    }
    &&& lease_dropped(&s0.leases, &s1.leases, path, owner)
}

/// Whether a close ends as it should.
pub open spec fn close_finished(
    s0: &Server2,
    s1: &Server2,
    c0: &Smb2Conn,
    c1: &Smb2Conn,
    fid: [u8; 16],
    path: Seq<char>,
    meta: FileMeta,
    closed: Result<(), VfsError>,
    r: Result<Vec<u8>, Status>,
) -> bool {
    match closed {
        Ok(_) => {
            &&& r matches Ok(b) && b@ == close_body(meta.times, meta.alloc, meta.eof, meta.attrs)
            &&& open_released(s0, s1, path, (c0.session_id, fid))
            &&& *c1 == (Smb2Conn { durable: c1.durable, ..*c0 })
            &&& c1.durable@ == c0.durable@.remove(fid)
        },
        Err(e) => r == Err::<Vec<u8>, Status>(vfs_status(e)) && *s1 == *s0 && *c1 == *c0,
    }
}

/// Ends a close: releases what the open held, and answers with the metadata that was
/// read before. Where closing failed nothing is released.
pub fn finish_close(
    server: &mut Server2,
    conn: &mut Smb2Conn,
    fid: &[u8; 16],
    path: &str,
    meta: &FileMeta,
    closed: Result<(), VfsError>,
) -> (r: Result<Vec<u8>, Status>)
    requires
        old(server).wf(),
        old(conn).wf(),
    ensures
        final(server).wf(),
        final(conn).wf(),
        close_finished(old(server), final(server), old(conn), final(conn), *fid, path@, *meta, closed, r),
{
    match closed {
        Err(e) => Err(vfs_err(&e)),
        Ok(_) => {
            let owner: LockOwner = (conn.session_id, *fid);
            server.locks.release_owner(owner);
            server.share_modes.close(path, owner);
            let _ = server.oplocks.release(path, owner);
            let _ = server.leases.release(path, owner);
            let _ = conn.durable.remove(fid);
            Ok(build_close_resp(meta.times, meta.alloc, meta.eof, meta.attrs))
        },
    }
}

// ---------------- what the operations are for ----------------

/// A path leads to the share that its last named piece names, letter case aside: what
/// stands in front of the name, and slashes behind it, do not count.
pub proof fn law_path_names_the_share(front: Seq<char>, name: Seq<char>)
    requires
        name.len() > 0,
        forall|k: int| 0 <= k < name.len() ==> #[trigger] name[k] != '\\' && name[k] != '/',
        front.len() > 0 ==> front.last() == '\\' || front.last() == '/',
    ensures
        share_name(front + name) == lowercase(name),
        share_name((front + name).push('\\')) == lowercase(name),
{
    let s = front + name;
    lemma_last_piece(front, name);
    let p = pieces(s);
    let n = p.len() as int;
    assert(last_named(p, n) == name);
    let t = s.push('\\');
    assert(t.drop_last() =~= s);
    let q = pieces(t);
    assert(q == p.push(Seq::empty()));
    assert(q[n] == Seq::<char>::empty());
    assert(q[n - 1] == name);
    assert(last_named(q, n + 1) == last_named(q, n));
    assert(last_named(q, n) == name);
}

/// A tree connect whose path a client encodes connects to the share of that name and no
/// other: where there is none it is refused and nothing changes. The answer tells what
/// kind of share it is, under an id that was not given out before it.
pub proof fn law_tree_connect_leads_to_the_share(
    s0: &Server2,
    s1: &Server2,
    c0: &Smb2Conn,
    c1: &Smb2Conn,
    buf: Seq<u8>,
    r: Result<TreeReply, Status>,
    front: Seq<char>,
    name: Seq<char>,
)
    requires
        tree_connected2(s0, s1, c0, c1, buf, r),
        buf.len() >= 72,
        little(buf, 68, 2) + little(buf, 70, 2) <= buf.len(),
        buf.subrange(little(buf, 68, 2), little(buf, 68, 2) + little(buf, 70, 2)) == utf16_bytes(front + name),
        name.len() > 0,
        forall|k: int| 0 <= k < name.len() ==> #[trigger] name[k] != '\\' && name[k] != '/',
        name.last() != '\0',
        front.len() > 0 ==> front.last() == '\\' || front.last() == '/',
    ensures
        r is Ok <==> s0.shares@.dom().contains(lowercase(name)),
        r matches Err(s) ==> s == Status::BAD_NETWORK_NAME && *s1 == *s0 && *c1 == *c0,
        r matches Ok(t) ==> {
            let sh = s0.shares@[lowercase(name)];
            &&& c1.trees@.dom().contains(t.tree_id) && c1.trees@[t.tree_id]@ == lowercase(name)
            &&& t.is_pipe == sh.is_ipc && t.encrypt == sh.encrypt && t.compress == sh.compress && t.ca == sh.ca
            &&& c1.resp_tree_id == Some(t.tree_id)
            &&& forall|o: u32| o != t.tree_id ==> c1.trees@.dom().contains(o) == #[trigger] c0.trees@.dom().contains(o)
            &&& s0.next_tree_id < 0x7FFF_FFFF ==> s1.next_tree_id % 0x8000_0000 != t.tree_id
        },
{
    lemma_little(buf, 68);
    lemma_little(buf, 70);
    law_text_round_trip(front + name);
    assert((front + name).last() == name.last());
    assert(tree_path(buf) == front + name);
    law_path_names_the_share(front, name);
}

/// A tree that is disconnected is found no more, and all others are: what a connect added
/// is gone.
pub proof fn law_disconnect_undoes_connect(c0: &Smb2Conn, c1: &Smb2Conn, tid: u32, other: u32)
    requires
        tree_left(c0, c1, tid),
        other != tid,
    ensures
        c1.tree_share(tid) is None,
        c1.tree_share(other) == c0.tree_share(other),
        c1.handles == c0.handles,
        c1.session_id == c0.session_id,
{
}

/// A connection that has logged off reaches nothing any more: no open, pipe, tree or
/// listing is left, and it is not authenticated. Its session id and its keys stay.
pub proof fn law_logged_off_reaches_nothing(c0: &Smb2Conn, c1: &Smb2Conn, fid: [u8; 16], tid: u32)
    requires
        logged_off(c0, c1),
    ensures
        !c1.authenticated,
        !c1.handles@.dom().contains(fid),
        !c1.pipes@.dom().contains(fid),
        !c1.searches@.dom().contains(fid),
        c1.tree_share(tid) is None,
        c1.session_id == c0.session_id,
        c1.sign_key() == c0.sign_key(),
        c1.enc_keys == c0.enc_keys,
{
}

/// A logoff keeps what other sessions hold: their locks, opens, oplocks, leases and
/// entries.
pub proof fn law_logoff_spares_others(s0: &Server2, s1: &Server2, sid: u64, p: Seq<char>, i: int, other: u64)
    requires
        session_released(s0, s1, sid),
        other != sid,
    ensures
        0 <= i < s0.locks.locks(p).len() && s0.locks.locks(p)[i].owner.0 != sid ==> s1.locks.locks(p).contains(
            s0.locks.locks(p)[i],
        ),
        0 <= i < s0.share_modes.opens_of(p).len() && s0.share_modes.opens_of(p)[i].owner.0 != sid ==> s1.share_modes.opens_of(
            p,
        ).contains(s0.share_modes.opens_of(p)[i]),
        0 <= i < s0.leases.holders(p).len() && s0.leases.holders(p)[i].session_id != sid ==> s1.leases.holders(p).contains(
            s0.leases.holders(p)[i],
        ),
        s0.oplocks.holders().dom().contains(p) && s0.oplocks.holders()[p].session_id != sid
            ==> s1.oplocks.holders().dom().contains(p),
        s1.sessions@.dom().contains(other) == s0.sessions@.dom().contains(other),
{
    assert(s1.locks.locks(p) == s0.locks.locks(p).filter(lock_elsewhere(sid)));
    assert(s1.share_modes.opens_of(p) == s0.share_modes.opens_of(p).filter(mode_elsewhere(sid)));
    let q = |h: LeaseHolder| h.session_id != sid;
    assert(s1.leases.holders(p) == s0.leases.holders(p).filter(q));
    if 0 <= i < s0.locks.locks(p).len() && s0.locks.locks(p)[i].owner.0 != sid {
        s0.locks.locks(p).lemma_filter_contains(lock_elsewhere(sid), i);
    }
    if 0 <= i < s0.share_modes.opens_of(p).len() && s0.share_modes.opens_of(p)[i].owner.0 != sid {
        s0.share_modes.opens_of(p).lemma_filter_contains(mode_elsewhere(sid), i);
    }
    if 0 <= i < s0.leases.holders(p).len() && s0.leases.holders(p)[i].session_id != sid {
        s0.leases.holders(p).lemma_filter_contains(q, i);
    }
    assert(s1.oplocks.holders().contains_key(p) <==> s0.oplocks.holders().contains_key(p) && s0.oplocks.holders()[p].session_id
        != sid);
}

/// What a read takes from a pipe is the front of what the pipe has to say, and the rest is
/// left for the next read: no byte is lost or given twice. At most as much as is asked for
/// is taken.
pub proof fn law_pipe_is_read_in_order(c0: &Smb2Conn, c1: &Smb2Conn, req: ReadReq, r: Option<Vec<u8>>)
    requires
        pipe_was_read(c0, c1, req, r),
        c0.pipes@.dom().contains(req.file_id),
    ensures
        exists|out: Seq<u8>|
            {
                &&& #[trigger] read_body(out) == r->0@
                &&& c0.pipes@[req.file_id].queue().flatten() == out + c1.pipes@[req.file_id].queue().flatten()
                &&& out.len() <= req.length
                &&& c0.pipes@[req.file_id].queue().len() > 0 && c0.pipes@[req.file_id].queue()[0].len() > 0 && req.length > 0
                    ==> out.len() > 0
            },
{
    let p0 = c0.pipes@[req.file_id];
    let p1 = c1.pipes@[req.file_id];
    let out = choose|out: Seq<u8>|
        #[trigger] read_body(out) == r->0@ && pipe_drained(p0, p1, req.length as int, out);
    let q = p0.queue();
    if q.len() == 0 {
        assert(q.flatten() =~= Seq::<u8>::empty() + q.flatten());
    } else {
        let n = out.len() as int;
        let rest = q.drop_first();
        assert(q.flatten() == q[0] + rest.flatten());
        assert(q.subrange(1, q.len() as int) =~= rest);
        if n == q[0].len() {
            assert(out =~= q[0]);
        } else {
            let left = q[0].subrange(n, q[0].len() as int);
            let u = q.update(0, left);
            assert(u.drop_first() =~= rest);
            assert(u[0] == left);
            assert(u.flatten() == left + rest.flatten());
            assert(q[0] =~= out + left);
            assert(q[0] + rest.flatten() =~= out + (left + rest.flatten()));
        }
    }
}

/// A read is let through exactly where the file is open for reading, is no directory, and
/// no other open holds an exclusive lock that blocks it; it then returns what is asked for,
/// up to one megabyte.
pub proof fn law_read_is_let_through(server: &Server2, c: &Smb2Conn, req: ReadReq)
    ensures
        ({
            let r = read_planned(server, c, req);
            let open = c.handles@.dom().contains(req.file_id);
            let h = c.handles@[req.file_id];
            let n = if req.length <= 1048576 {
                req.length as int
            } else {
                1048576
            };
            let blocked = blocks_read(server.locks.locks(h.path@), req.offset, n as u64, (c.session_id, req.file_id));
            &&& r is Ok <==> open && h.can_read && !h.is_dir && !blocked
            &&& r matches Ok(k) ==> k == n
            &&& !open <==> r == Err::<usize, Status>(Status::INVALID_HANDLE)
            &&& open && (h.is_dir || !h.can_read) <==> r == Err::<usize, Status>(Status::ACCESS_DENIED)
            &&& open && !h.is_dir && h.can_read && blocked <==> r == Err::<usize, Status>(Status::FILE_LOCK_CONFLICT)
        }),
{
}

/// A write is let through exactly where the file is open for writing, is no directory, and
/// no lock on the bytes it writes blocks it.
pub proof fn law_write_is_let_through(server: &Server2, c: &Smb2Conn, req: WriteReq)
    ensures
        ({
            let r = write_refusal(server, c, req);
            let open = c.handles@.dom().contains(req.file_id);
            let h = c.handles@[req.file_id];
            let blocked = blocks_write(
                server.locks.locks(h.path@),
                req.offset,
                req.payload@.len() as u64,
                (c.session_id, req.file_id),
            );
            &&& r is None <==> open && h.can_write && !h.is_dir && !blocked
            &&& !open <==> r == Some(Status::INVALID_HANDLE)
            &&& open && (h.is_dir || !h.can_write) <==> r == Some(Status::ACCESS_DENIED)
        }),
{
}

/// The client gets the bytes that were read, all of them and no others, where its response
/// says that they stand; a failure of storage is not answered as data.
pub proof fn law_read_returns_what_was_read(data: Result<Vec<u8>, VfsError>, r: Result<Vec<u8>, Status>)
    requires
        read_answered(data, r),
        data matches Ok(d) ==> d@.len() < 0x1_0000_0000,
    ensures
        data is Ok <==> r is Ok,
        data matches Ok(d) ==> (r matches Ok(b) && little(b@, 4, 4) == d@.len() && b@.subrange(
            b@[2] - 64,
            b@.len() as int,
        ) == d@),
{
    match data {
        Ok(d) => {
            law_read_response_carries_the_data(d@);
        },
        Err(_) => {},
    }
}

/// A write that succeeded tells the client how many bytes were written, and takes the
/// caching of every other client on the file away, each of whom is told; a write that
/// failed changes nothing.
pub proof fn law_write_reports_and_breaks(
    s0: &Server2,
    s1: &Server2,
    c: &Smb2Conn,
    fid: [u8; 16],
    written: Result<u64, VfsError>,
    r: Result<Vec<u8>, Status>,
    told: Seq<Notice>,
    i: int,
)
    requires
        write_finished(s0, s1, c, fid, written, r, told),
        parent_of(c.handles@[fid].path@) != c.handles@[fid].path@,
    ensures
        written is Ok <==> r is Ok,
        written matches Ok(n) ==> (n < 0x1_0000_0000 ==> (r matches Ok(b) && little(b@, 4, 4) == n)),
        written is Err ==> *s1 == *s0 && told.len() == 0,
        written is Ok && 0 <= i < s0.leases.holders(c.handles@[fid].path@).len() ==> {
            let h = s0.leases.holders(c.handles@[fid].path@)[i];
            let k = s1.leases.holders(c.handles@[fid].path@)[i];
            if (h.session_id, h.file_id) != (c.session_id, fid) && joined_key(c, fid) != Some(h.key) && h.state & 7 != 0 {
                k.state == h.state & !7u32 && k.breaking && told.len() > 0
            } else {
                k == h
            }
        },
{
    match written {
        Ok(n) => {
            law_write_response_carries_the_count((n % 0x1_0000_0000) as u32);
            let path = c.handles@[fid].path@;
            let m = choose|m: LeaseTable| #[trigger] write_broke(&s0.leases, &m, &s1.leases, c, path, fid, told);
            let l = s0.leases.holders(path);
            let owner = (c.session_id, fid);
            let key = joined_key(c, fid);
            law_conflict_breaks(l, owner, key, 7);
            assert(s1.leases.holders(path) == m.holders(path));
            if 0 <= i < l.len() {
                assert(m.holders(path)[i] == after_conflict(l, owner, key, 7)[i]);
                if (l[i].session_id, l[i].file_id) != owner && key != Some(l[i].key) && l[i].state & 7 != 0 {
                    l.lemma_filter_contains(is_broken_by(owner, key, 7), i);
                    assert(notices(l, owner, key, 7).len() > 0);
                }
            }
        },
        Err(_) => {},
    }
}

/// An open that is taken off its connection is reached no more under its id, with its
/// listing and its lease key; every other open is.
pub proof fn law_closed_handle_is_gone(c0: &Smb2Conn, c1: &Smb2Conn, fid: [u8; 16], r: Option<OpenFile>, other: [u8; 16])
    requires
        open_taken(c0, c1, fid, r),
        other != fid,
    ensures
        !c1.handles@.dom().contains(fid),
        r is Some <==> c0.handles@.dom().contains(fid),
        r matches Some(o) ==> o == c0.handles@[fid] && !c1.searches@.dom().contains(fid) && !c1.lease_keys@.dom().contains(
            fid,
        ),
        c1.handles@.dom().contains(other) == c0.handles@.dom().contains(other),
        c0.handles@.dom().contains(other) ==> c1.handles@[other] == c0.handles@[other],
{
}

/// A file that is closed leaves nothing behind: no lock on any file, no share mode, no
/// oplock, no durable handle of the open. The locks of all others stay. The client is told
/// the size and attributes that the file had.
pub proof fn law_close_leaves_nothing(
    s0: &Server2,
    s1: &Server2,
    c0: &Smb2Conn,
    c1: &Smb2Conn,
    fid: [u8; 16],
    path: Seq<char>,
    meta: FileMeta,
    closed: Result<(), VfsError>,
    r: Result<Vec<u8>, Status>,
    p: Seq<char>,
    i: int,
)
    requires
        close_finished(s0, s1, c0, c1, fid, path, meta, closed, r),
    ensures
        closed is Ok <==> r is Ok,
        closed is Err ==> *s1 == *s0 && *c1 == *c0,
        closed is Ok ==> {
            let owner = (c0.session_id, fid);
            &&& 0 <= i < s1.locks.locks(p).len() ==> s1.locks.locks(p)[i].owner != owner
            &&& 0 <= i < s0.locks.locks(p).len() && s0.locks.locks(p)[i].owner != owner ==> s1.locks.locks(p).contains(
                s0.locks.locks(p)[i],
            )
            &&& s1.oplocks.holders().dom().contains(path) ==> oplock_owner(s1.oplocks.holders()[path]) != owner
            &&& !c1.durable@.dom().contains(fid)
            &&& r matches Ok(b) && little(b@, 48, 8) == meta.eof && little(b@, 40, 8) == meta.alloc && little(b@, 56, 4)
                == meta.attrs && little(b@, 24, 8) == meta.times[2]
        },
{
    if closed is Ok {
        let owner = (c0.session_id, fid);
        let q = |h: HeldLock| h.owner != owner;
        law_close_response_fields(meta.times, meta.alloc, meta.eof, meta.attrs);
        assert(s1.locks.locks(p) == s0.locks.locks(p).filter(q));
        if 0 <= i < s1.locks.locks(p).len() {
            s0.locks.locks(p).lemma_filter_pred(q, i);
        }
        if 0 <= i < s0.locks.locks(p).len() && s0.locks.locks(p)[i].owner != owner {
            s0.locks.locks(p).lemma_filter_contains(q, i);
        }
    }
}

} // verus!
