//! SMB2 operations that are answered later: blocking locks and change
//! notifications.
use vstd::prelude::*;
use crate::bytes::{get_u64, le32, lemma_little, lemma_little_written, little, put_bytes, put_u32, u64_at};
use crate::conn2::{counted, Smb2Conn};
use crate::frame2::{async_frame, build_async_frame, error_bytes, error_resp, has_header2, header2_of, law_async_frame_ids, seal_pdu, sealed_frame, sign_pdu, signed_frame, Header2, CMD_CHANGE_NOTIFY, CMD_LOCK, HEADER_LEN};
use crate::locks::{any_clash, byte_in, first_lock, law_clash_is_a_common_byte, lemma_first_lock_is_first, lemma_swap_removed, lock_clash, new_locks, released_all, released_one, same_id, HeldLock, LockManager, LockOwner};
use crate::reply2::{build_empty_resp, build_info_resp, empty_body, info_body};
use crate::sealing::MAX_SEALED;
use crate::smb::{status_code, Status};
use crate::state::{join_path, joined};
use crate::tables::swap_removed;
use crate::text::{concat, encode_utf16_bytes, utf16_bytes};
use crate::trans2::low32;
use crate::wire2::{ChangeNotifyReq, LockElement, LockReq};

verus! {

// ---------------- protection of late answers ----------------

/// The key material of a connection at the time of a request.
#[derive(Clone, Copy)]
pub struct AsyncCrypto {
    pub dialect: Option<u16>,
    pub signing_key: Option<[u8; 16]>,
    pub enc_keys: Option<([u8; 32], [u8; 32])>,
    pub cipher: Option<u16>,
    pub session_id: u64,
    pub encrypt: bool,
    pub signed: bool,
}

impl AsyncCrypto {
    /// Takes the key material of a connection.
    pub fn snapshot(conn: &Smb2Conn, request_signed: bool) -> (k: AsyncCrypto)
        ensures
            k == (AsyncCrypto {
                dialect: conn.dialect,
                signing_key: conn.sign_key(),
                enc_keys: conn.enc_keys,
                cipher: conn.cipher,
                session_id: conn.session_id,
                encrypt: conn.encrypt_data || conn.peer_encrypts,
                signed: request_signed,
            }),
    {
        AsyncCrypto {
            dialect: conn.dialect,
            signing_key: conn.key_for_signing(),
            enc_keys: conn.enc_keys,
            cipher: conn.cipher,
            session_id: conn.session_id,
            encrypt: conn.encrypt_data || conn.peer_encrypts,
            signed: request_signed,
        }
    }
}

/// A late answer before it is sealed: signed where the request was.
pub open spec fn late_signed(k: AsyncCrypto, f: Seq<u8>) -> Seq<u8> {
    match k.signing_key {
        Some(key) => if k.signed {
            signed_frame(f, key@, k.dialect)
        } else {
            f
        },
        None => f,
    }
}

/// A late answer as it is sent.
pub open spec fn late_answer(k: AsyncCrypto, random: Seq<u8>, f: Seq<u8>) -> Seq<u8> {
    let g = late_signed(k, f);
    match (k.enc_keys, k.cipher) {
        (Some(keys), Some(cipher)) => if k.encrypt {
            sealed_frame(k.session_id, keys.1@, cipher, random, g)
        } else {
            g
        },
        _ => g,
    }
}

/// Signs, then seals a late answer.
pub fn finalize_async(k: &AsyncCrypto, random: &[u8; 16], f: Vec<u8>) -> (r: Vec<u8>)
    requires
        HEADER_LEN <= f@.len() <= MAX_SEALED,
    ensures
        r@ == late_answer(*k, random@, f@),
{
    let mut f = f;
    if k.signed {
        match k.signing_key {
            Some(key) => sign_pdu(&mut f, &key, k.dialect),
            None => {},
        }
    }
    if !k.encrypt {
        return f;
    }
    match (k.enc_keys, k.cipher) {
        (Some(keys), Some(cipher)) => seal_pdu(k.session_id, &keys.1, cipher, random, f.as_slice()),
        _ => f,
    }
}

/// The answer that an operation is pending.
pub open spec fn pending_frame(c: &Smb2Conn, h: Header2, async_id: u64) -> Seq<u8> {
    let f = async_frame(c.session_id, h.message_id, async_id, h.command, Status::PENDING, error_bytes());
    match c.sign_key() {
        Some(k) => if h.signed() {
            signed_frame(f, k@, c.dialect)
        } else {
            f
        },
        None => f,
    }
}

/// Answers that an operation is pending.
pub fn interim_frame(conn: &Smb2Conn, h: &Header2, async_id: u64) -> (f: Vec<u8>)
    ensures
        f@ == pending_frame(conn, *h, async_id),
{
    let body = error_resp();
    let mut f = build_async_frame(conn.session_id, h.message_id, async_id, h.command, Status::PENDING, body.as_slice());
    proof {
        crate::frame2::law_async_frame_ids(
            conn.session_id,
            h.message_id,
            async_id,
            h.command,
            Status::PENDING,
            error_bytes(),
        );
    }
    if h.is_signed() {
        match conn.key_for_signing() {
            Some(k) => sign_pdu(&mut f, &k, conn.dialect),
            None => {},
        }
    }
    f
}

// ---------------- pending operations ----------------

/// The async id of the pending operation that a message started.
pub open spec fn async_of(m: Seq<(u64, u64)>, message_id: u64) -> Option<u64>
    decreases m.len(),
{
    if m.len() == 0 {
        None
    } else if m.last().0 == message_id {
        Some(m.last().1)
    } else {
        async_of(m.drop_last(), message_id)
    }
}

fn find_async(m: &Vec<(u64, u64)>, message_id: u64) -> (r: Option<u64>)
    ensures
        r == async_of(m@, message_id),
{
    let n: usize = m.len();
    let mut i: usize = n;
    assert(m@.subrange(0, n as int) =~= m@);
    while i > 0
        invariant
            i <= n == m@.len(),
            async_of(m@, message_id) == async_of(m@.subrange(0, i as int), message_id),
        decreases i,
    {
        assert(m@.subrange(0, i as int).last() == m@[i - 1]);
        if m[i - 1].0 == message_id {
            return Some(m[i - 1].1);
        }
        assert(m@.subrange(0, i as int).drop_last() =~= m@.subrange(0, i - 1));
        i -= 1;
    }
    None
}

/// The entries about other operations.
pub open spec fn msg_elsewhere(id: u64) -> spec_fn((u64, u64)) -> bool {
    |e: (u64, u64)| e.1 != id
}

/// The entries about other operations.
pub open spec fn file_elsewhere(id: u64) -> spec_fn(([u8; 16], u64)) -> bool {
    |e: ([u8; 16], u64)| e.1 != id
}

/// The other operations.
pub open spec fn other_op(id: u64) -> spec_fn(u64) -> bool {
    |e: u64| e != id
}

/// The entries of other messages.
pub open spec fn other_message(id: u64) -> spec_fn((u64, u64)) -> bool {
    |e: (u64, u64)| e.0 != id
}

fn drop_message(v: &Vec<(u64, u64)>, id: u64) -> (r: Vec<(u64, u64)>)
    ensures
        r@ == v@.filter(other_message(id)),
{
    let n: usize = v.len();
    let mut r: Vec<(u64, u64)> = Vec::new();
    let mut i: usize = 0;
    proof {
        reveal(Seq::filter);
        assert(v@.take(0) =~= Seq::<(u64, u64)>::empty());
    }
    while i < n
        invariant
            i <= n == v@.len(),
            r@ == v@.take(i as int).filter(other_message(id)),
        decreases n - i,
    {
        reveal(Seq::filter);
        assert(v@.take(i + 1).drop_last() =~= v@.take(i as int));
        assert(v@.take(i + 1).last() == v@[i as int]);
        if v[i].0 != id {
            r.push(v[i]);
        }
        i += 1;
    }
    assert(v@.take(n as int) =~= v@);
    r
}

fn drop_msgs(v: &Vec<(u64, u64)>, id: u64) -> (r: Vec<(u64, u64)>)
    ensures
        r@ == v@.filter(msg_elsewhere(id)),
{
    let n: usize = v.len();
    let mut r: Vec<(u64, u64)> = Vec::new();
    let mut i: usize = 0;
    proof {
        reveal(Seq::filter);
        assert(v@.take(0) =~= Seq::<(u64, u64)>::empty());
    }
    while i < n
        invariant
            i <= n == v@.len(),
            r@ == v@.take(i as int).filter(msg_elsewhere(id)),
        decreases n - i,
    {
        reveal(Seq::filter);
        assert(v@.take(i + 1).drop_last() =~= v@.take(i as int));
        assert(v@.take(i + 1).last() == v@[i as int]);
        if v[i].1 != id {
            r.push(v[i]);
        }
        i += 1;
    }
    assert(v@.take(n as int) =~= v@);
    r
}

fn drop_files(v: &Vec<([u8; 16], u64)>, id: u64) -> (r: Vec<([u8; 16], u64)>)
    ensures
        r@ == v@.filter(file_elsewhere(id)),
{
    let n: usize = v.len();
    let mut r: Vec<([u8; 16], u64)> = Vec::new();
    let mut i: usize = 0;
    proof {
        reveal(Seq::filter);
        assert(v@.take(0) =~= Seq::<([u8; 16], u64)>::empty());
    }
    while i < n
        invariant
            i <= n == v@.len(),
            r@ == v@.take(i as int).filter(file_elsewhere(id)),
        decreases n - i,
    {
        reveal(Seq::filter);
        assert(v@.take(i + 1).drop_last() =~= v@.take(i as int));
        assert(v@.take(i + 1).last() == v@[i as int]);
        if v[i].1 != id {
            r.push(v[i]);
        }
        i += 1;
    }
    assert(v@.take(n as int) =~= v@);
    r
}

fn drop_op(v: &Vec<u64>, id: u64) -> (r: (Vec<u64>, bool))
    ensures
        r.0@ == v@.filter(other_op(id)),
        r.1 == v@.contains(id),
{
    let n: usize = v.len();
    let mut r: Vec<u64> = Vec::new();
    let mut found: bool = false;
    let mut i: usize = 0;
    proof {
        reveal(Seq::filter);
        assert(v@.take(0) =~= Seq::<u64>::empty());
    }
    while i < n
        invariant
            i <= n == v@.len(),
            r@ == v@.take(i as int).filter(other_op(id)),
            found ==> v@.contains(id),
            !found ==> forall|k: int| 0 <= k < i ==> v@[k] != id,
        decreases n - i,
    {
        reveal(Seq::filter);
        assert(v@.take(i + 1).drop_last() =~= v@.take(i as int));
        assert(v@.take(i + 1).last() == v@[i as int]);
        if v[i] != id {
            r.push(v[i]);
        } else {
            assert(v@[i as int] == id);
            found = true;
        }
        i += 1;
    }
    assert(v@.take(n as int) =~= v@);
    (r, found)
}

/// Whether a connection notes a pending operation.
pub open spec fn op_noted(c0: &Smb2Conn, c1: &Smb2Conn, message_id: u64, file: Option<[u8; 16]>) -> bool {
    let id = c0.next_async_id;
    &&& *c1 == (Smb2Conn {
        next_async_id: counted(id),
        async_cancels: c1.async_cancels,
        async_msgids: c1.async_msgids,
        async_by_file: c1.async_by_file,
        ..*c0
    })
    &&& c1.async_cancels@ == c0.async_cancels@.push(id)
    &&& c1.async_msgids@ == c0.async_msgids@.filter(other_message(message_id)).push((message_id, id))
    &&& c1.async_by_file@ == (match file {
        Some(f) => c0.async_by_file@.push((f, id)),
        None => c0.async_by_file@,
    })
}

fn note_op(conn: &mut Smb2Conn, message_id: u64, file: Option<[u8; 16]>) -> (id: u64)
    ensures
        id == old(conn).next_async_id,
        op_noted(old(conn), final(conn), message_id, file),
{
    let id: u64 = conn.alloc_async_id();
    conn.async_cancels.push(id);
    let mut msgs = drop_message(&conn.async_msgids, message_id);
    msgs.push((message_id, id));
    conn.async_msgids = msgs;
    match file {
        Some(f) => conn.async_by_file.push((f, id)),
        None => {},
    }
    id
}

/// The operation that a cancel is about: that of the async id it carries, else that
/// of the message it carries.
pub open spec fn cancel_target(c: &Smb2Conn, h: Header2, buf: Seq<u8>) -> Option<u64> {
    if h.flags & crate::frame2::FLAG_ASYNC != 0 && buf.len() >= 40 {
        Some(u64_at(buf, 32))
    } else {
        async_of(c.async_msgids@, h.message_id)
    }
}

/// Whether an operation is forgotten.
pub open spec fn op_dropped(c0: &Smb2Conn, c1: &Smb2Conn, id: u64) -> bool {
    &&& *c1 == (Smb2Conn {
        async_cancels: c1.async_cancels,
        async_msgids: c1.async_msgids,
        async_by_file: c1.async_by_file,
        ..*c0
    })
    &&& c1.async_cancels@ == c0.async_cancels@.filter(other_op(id))
    &&& c1.async_msgids@ == c0.async_msgids@.filter(msg_elsewhere(id))
    &&& c1.async_by_file@ == c0.async_by_file@.filter(file_elsewhere(id))
}

/// Cancels a pending operation; nothing is answered. The operation that is returned
/// ends with CANCELLED.
pub fn cancel(conn: &mut Smb2Conn, h: &Header2, buf: &[u8]) -> (r: Option<u64>)
    ensures
        match cancel_target(old(conn), *h, buf@) {
            None => r is None && *final(conn) == *old(conn),
            Some(id) => {
                &&& op_dropped(old(conn), final(conn), id)
                &&& r == if old(conn).async_cancels@.contains(id) {
                    Some(id)
                } else {
                    None
                }
            },
        },
{
    let target: Option<u64> = if h.is_async() && buf.len() >= 40 {
        Some(get_u64(buf, 32))
    } else {
        find_async(&conn.async_msgids, h.message_id)
    };
    match target {
        None => None,
        Some(id) => {
            let msgs = drop_msgs(&conn.async_msgids, id);
            let files = drop_files(&conn.async_by_file, id);
            let (ops, found) = drop_op(&conn.async_cancels, id);
            conn.async_msgids = msgs;
            conn.async_by_file = files;
            conn.async_cancels = ops;
            if found {
                Some(id)
            } else {
                None
            }
        },
    }
}

/// An operation that was noted is found by a cancel of its message.
pub proof fn law_cancel_finds_pending(c0: &Smb2Conn, c1: &Smb2Conn, message_id: u64, file: Option<[u8; 16]>)
    requires
        op_noted(c0, c1, message_id, file),
    ensures
        async_of(c1.async_msgids@, message_id) == Some(c0.next_async_id),
        c1.async_cancels@.contains(c0.next_async_id),
{
    assert(c1.async_cancels@.last() == c0.next_async_id);
}

/// Once cancelled, an operation is pending no more: it ends once.
pub proof fn law_cancel_once(c0: &Smb2Conn, c1: &Smb2Conn, id: u64)
    requires
        op_dropped(c0, c1, id),
    ensures
        !c1.async_cancels@.contains(id),
{
    if c1.async_cancels@.contains(id) {
        let k = choose|k: int| 0 <= k < c1.async_cancels@.len() && c1.async_cancels@[k] == id;
        c0.async_cancels@.lemma_filter_pred(other_op(id), k);
    }
}

/// The pending change notifications on a file, among the first `n` entries.
pub open spec fn watches_on(v: Seq<([u8; 16], u64)>, fid: [u8; 16], n: int) -> Seq<u64>
    decreases n,
{
    if n <= 0 {
        Seq::empty()
    } else if v[n - 1].0 == fid {
        watches_on(v, fid, n - 1).push(v[n - 1].1)
    } else {
        watches_on(v, fid, n - 1)
    }
}

/// The state of a connection's tables of pending operations once the first `n` of
/// `ids` are dropped.
pub open spec fn msgs_without(m: Seq<(u64, u64)>, ids: Seq<u64>, n: int) -> Seq<(u64, u64)>
    decreases n,
{
    if n <= 0 {
        m
    } else {
        msgs_without(m, ids, n - 1).filter(msg_elsewhere(ids[n - 1]))
    }
}

/// The pending operations once the first `n` of `ids` are dropped.
pub open spec fn ops_without(m: Seq<u64>, ids: Seq<u64>, n: int) -> Seq<u64>
    decreases n,
{
    if n <= 0 {
        m
    } else {
        ops_without(m, ids, n - 1).filter(other_op(ids[n - 1]))
    }
}

/// The other files' entries.
pub open spec fn other_file(fid: [u8; 16]) -> spec_fn(([u8; 16], u64)) -> bool {
    |e: ([u8; 16], u64)| e.0 != fid
}

fn split_watches(v: &Vec<([u8; 16], u64)>, fid: &[u8; 16]) -> (r: (Vec<u64>, Vec<([u8; 16], u64)>))
    ensures
        r.0@ == watches_on(v@, *fid, v@.len() as int),
        r.1@ == v@.filter(other_file(*fid)),
{
    let n: usize = v.len();
    let mut ids: Vec<u64> = Vec::new();
    let mut rest: Vec<([u8; 16], u64)> = Vec::new();
    let mut i: usize = 0;
    proof {
        reveal(Seq::filter);
        assert(v@.take(0) =~= Seq::<([u8; 16], u64)>::empty());
    }
    assert(ids@ =~= watches_on(v@, *fid, 0));
    while i < n
        invariant
            i <= n == v@.len(),
            ids@ == watches_on(v@, *fid, i as int),
            rest@ == v@.take(i as int).filter(other_file(*fid)),
        decreases n - i,
    {
        reveal(Seq::filter);
        assert(v@.take(i + 1).drop_last() =~= v@.take(i as int));
        assert(v@.take(i + 1).last() == v@[i as int]);
        if same_id(&v[i].0, fid) {
            ids.push(v[i].1);
        } else {
            rest.push(v[i]);
        }
        i += 1;
    }
    assert(v@.take(n as int) =~= v@);
    (ids, rest)
}

/// Ends the change notifications on a file that is closed. The operations that are
/// returned end with NOTIFY_CLEANUP.
pub fn complete_pending_notifies(conn: &mut Smb2Conn, fid: &[u8; 16]) -> (ended: Vec<u64>)
    ensures
        ({
            let ids = watches_on(old(conn).async_by_file@, *fid, old(conn).async_by_file@.len() as int);
            let n = ids.len() as int;
            &&& ended@ == ids
            &&& *final(conn) == (Smb2Conn {
                async_cancels: final(conn).async_cancels,
                async_msgids: final(conn).async_msgids,
                async_by_file: final(conn).async_by_file,
                ..*old(conn)
            })
            &&& final(conn).async_by_file@ == old(conn).async_by_file@.filter(other_file(*fid))
            &&& final(conn).async_msgids@ == msgs_without(old(conn).async_msgids@, ids, n)
            &&& final(conn).async_cancels@ == ops_without(old(conn).async_cancels@, ids, n)
        }),
{
    let (ids, rest) = split_watches(&conn.async_by_file, fid);
    conn.async_by_file = rest;
    let n: usize = ids.len();
    let mut i: usize = 0;
    while i < n
        invariant
            i <= n == ids@.len(),
            *conn == (Smb2Conn {
                async_cancels: conn.async_cancels,
                async_msgids: conn.async_msgids,
                async_by_file: conn.async_by_file,
                ..*old(conn)
            }),
            conn.async_by_file@ == old(conn).async_by_file@.filter(other_file(*fid)),
            conn.async_msgids@ == msgs_without(old(conn).async_msgids@, ids@, i as int),
            conn.async_cancels@ == ops_without(old(conn).async_cancels@, ids@, i as int),
        decreases n - i,
    {
        let msgs = drop_msgs(&conn.async_msgids, ids[i]);
        let (ops, _found) = drop_op(&conn.async_cancels, ids[i]);
        conn.async_msgids = msgs;
        conn.async_cancels = ops;
        i += 1;
    }
    ids
}

// ---------------- locks ----------------

/// The ranges that the first `n` elements release.
pub open spec fn unlocked(l: Seq<LockElement>, n: int) -> Seq<(u64, u64)>
    decreases n,
{
    if n <= 0 {
        Seq::empty()
    } else if l[n - 1].unlock {
        unlocked(l, n - 1).push((l[n - 1].offset, l[n - 1].length))
    } else {
        unlocked(l, n - 1)
    }
}

/// The ranges that the first `n` elements ask for.
pub open spec fn wanted(l: Seq<LockElement>, n: int) -> Seq<(u64, u64, bool)>
    decreases n,
{
    if n <= 0 {
        Seq::empty()
    } else if l[n - 1].unlock {
        wanted(l, n - 1)
    } else {
        wanted(l, n - 1).push((l[n - 1].offset, l[n - 1].length, l[n - 1].exclusive))
    }
}

/// Whether an element asks not to wait.
pub open spec fn impatient(l: Seq<LockElement>) -> bool {
    exists|i: int| 0 <= i < l.len() && (#[trigger] l[i]).fail_immediately
}

/// How a lock request starts.
pub enum LockStart {
    Reply(Status, Vec<u8>),
    /// The ranges are waited for.
    Pending { async_id: u64, path: String, ranges: Vec<(u64, u64, bool)> },
}

/// Whether a lock request starts as it should: it releases first, then acquires all
/// or nothing; where it cannot, it fails at once or waits.
pub open spec fn lock_started(
    t0: &LockManager,
    t1: &LockManager,
    c0: &Smb2Conn,
    c1: &Smb2Conn,
    h: Header2,
    req: LockReq,
    r: LockStart,
) -> bool {
    if !c0.handles@.contains_key(req.file_id) {
        &&& r matches LockStart::Reply(s, b) && s == Status::INVALID_HANDLE && b@.len() == 0
        &&& *t1 == *t0
        &&& *c1 == *c0
    } else {
        let path = c0.handles@[req.file_id].path@;
        let owner = (c0.session_id, req.file_id);
        let n = req.locks@.len() as int;
        let held = released_all(t0.locks(path), unlocked(req.locks@, n), owner);
        let want = wanted(req.locks@, n);
        let ok = want.len() == 0 || !any_clash(held, want);
        &&& t1.wf()
        &&& forall|p: Seq<char>| p != path ==> #[trigger] t1.locks(p) == t0.locks(p)
        &&& t1.locks(path) == if ok {
            held + new_locks(want, owner)
        } else {
            held
        }
        &&& if ok {
            &&& r matches LockStart::Reply(s, b) && s == Status::SUCCESS && b@ == empty_body()
            &&& *c1 == *c0
        } else if impatient(req.locks@) {
            &&& r matches LockStart::Reply(s, b) && s == Status::LOCK_NOT_GRANTED && b@.len() == 0
            &&& *c1 == *c0
        } else {
            &&& r matches LockStart::Pending { async_id, path: p, ranges }
            &&& async_id == c0.next_async_id
            &&& p@ == path
            &&& ranges@ == want
            &&& op_noted(c0, c1, h.message_id, None)
        }
    }
}

fn split_locks(l: &Vec<LockElement>) -> (r: (Vec<(u64, u64)>, Vec<(u64, u64, bool)>, bool))
    ensures
        r.0@ == unlocked(l@, l@.len() as int),
        r.1@ == wanted(l@, l@.len() as int),
        r.2 == impatient(l@),
{
    let n: usize = l.len();
    let mut free: Vec<(u64, u64)> = Vec::new();
    let mut want: Vec<(u64, u64, bool)> = Vec::new();
    let mut hasty: bool = false;
    let mut i: usize = 0;
    assert(free@ =~= unlocked(l@, 0));
    assert(want@ =~= wanted(l@, 0));
    while i < n
        invariant
            i <= n == l@.len(),
            free@ == unlocked(l@, i as int),
            want@ == wanted(l@, i as int),
            hasty ==> impatient(l@),
            !hasty ==> forall|k: int| 0 <= k < i ==> !(#[trigger] l@[k]).fail_immediately,
        decreases n - i,
    {
        let e: LockElement = l[i];
        if e.unlock {
            free.push((e.offset, e.length));
        } else {
            want.push((e.offset, e.length, e.exclusive));
        }
        if e.fail_immediately {
            assert(l@[i as int].fail_immediately);
            hasty = true;
        }
        i += 1;
    }
    (free, want, hasty)
}

/// Starts a lock request.
pub fn begin_lock(locks: &mut LockManager, conn: &mut Smb2Conn, h: &Header2, req: &LockReq) -> (r: LockStart)
    requires
        old(locks).wf(),
        old(conn).wf(),
    ensures
        lock_started(old(locks), final(locks), old(conn), final(conn), *h, *req, r),
        final(locks).wf(),
        final(conn).wf(),
{
    let path = match conn.handles.get(&req.file_id) {
        Some(f) => f.path.clone(),
        None => return LockStart::Reply(Status::INVALID_HANDLE, Vec::new()),
    };
    let owner: LockOwner = (conn.session_id, req.file_id);
    let (free, want, hasty) = split_locks(&req.locks);
    locks.release(path.as_str(), free.as_slice(), owner);
    let ghost held = locks.locks(path@);
    if want.len() == 0 {
        assert(held + new_locks(want@, owner) =~= held);
        return LockStart::Reply(Status::SUCCESS, build_empty_resp());
    }
    if locks.try_acquire(path.as_str(), want.as_slice(), owner) {
        return LockStart::Reply(Status::SUCCESS, build_empty_resp());
    }
    if hasty {
        return LockStart::Reply(Status::LOCK_NOT_GRANTED, Vec::new());
    }
    let async_id: u64 = note_op(conn, h.message_id, None);
    LockStart::Pending { async_id, path, ranges: want }
}

/// The elements of a lock request fall apart into those that release and those that
/// acquire, each in its order: none is lost, and each keeps its range and kind.
pub proof fn law_every_lock_element_counts(l: Seq<LockElement>)
    ensures
        unlocked(l, l.len() as int) == l.filter(|e: LockElement| e.unlock).map_values(
            |e: LockElement| (e.offset, e.length),
        ),
        wanted(l, l.len() as int) == l.filter(|e: LockElement| !e.unlock).map_values(
            |e: LockElement| (e.offset, e.length, e.exclusive),
        ),
        unlocked(l, l.len() as int).len() + wanted(l, l.len() as int).len() == l.len(),
    decreases l.len(),
{
    reveal(Seq::filter);
    let n = l.len() as int;
    let p = |e: LockElement| e.unlock;
    let q = |e: LockElement| !e.unlock;
    let f = |e: LockElement| (e.offset, e.length);
    let g = |e: LockElement| (e.offset, e.length, e.exclusive);
    if n > 0 {
        let d = l.drop_last();
        law_every_lock_element_counts(d);
        lemma_elements_of_front(l, n - 1);
        if l.last().unlock {
            assert(d.filter(p).push(l.last()).map_values(f) =~= d.filter(p).map_values(f).push(f(l.last())));
        } else {
            assert(d.filter(q).push(l.last()).map_values(g) =~= d.filter(q).map_values(g).push(g(l.last())));
        }
    }
    assert(unlocked(l, n) =~= l.filter(p).map_values(f));
    assert(wanted(l, n) =~= l.filter(q).map_values(g));
}

proof fn lemma_elements_of_front(l: Seq<LockElement>, n: int)
    requires
        0 <= n < l.len(),
    ensures
        unlocked(l.drop_last(), n) == unlocked(l, n),
        wanted(l.drop_last(), n) == wanted(l, n),
    decreases n,
{
    if n > 0 {
        lemma_elements_of_front(l, n - 1);
        assert(l.drop_last()[n - 1] == l[n - 1]);
    }
}

proof fn lemma_one_element(l: Seq<LockElement>)
    requires
        l.len() == 1,
    ensures
        l[0].unlock ==> unlocked(l, 1) == seq![(l[0].offset, l[0].length)] && wanted(l, 1).len() == 0,
        !l[0].unlock ==> unlocked(l, 1).len() == 0 && wanted(l, 1) == seq![(l[0].offset, l[0].length, l[0].exclusive)],
        impatient(l) == l[0].fail_immediately,
{
    reveal_with_fuel(unlocked, 2);
    reveal_with_fuel(wanted, 2);
    if l[0].unlock {
        assert(unlocked(l, 1) =~= seq![(l[0].offset, l[0].length)]);
    } else {
        assert(wanted(l, 1) =~= seq![(l[0].offset, l[0].length, l[0].exclusive)]);
    }
}

/// An unlock of one range takes the first lock that this open held on exactly that range
/// out of the table, and no other; where the open held none there, the table stays as it
/// is. It succeeds either way, and the locks on other files stay.
pub proof fn law_unlock_gives_the_range_back(
    t0: &LockManager,
    t1: &LockManager,
    c0: &Smb2Conn,
    c1: &Smb2Conn,
    h: Header2,
    req: LockReq,
    r: LockStart,
)
    requires
        lock_started(t0, t1, c0, c1, h, req, r),
        c0.handles@.dom().contains(req.file_id),
        req.locks@.len() == 1,
        req.locks@[0].unlock,
    ensures
        ({
            let path = c0.handles@[req.file_id].path@;
            let held = t0.locks(path);
            let e = req.locks@[0];
            let mine = |k: HeldLock| k.owner == (c0.session_id, req.file_id) && k.offset == e.offset && k.length == e.length;
            &&& r matches LockStart::Reply(s, b) && s == Status::SUCCESS
            &&& forall|i: int|
                0 <= i < held.len() && mine(#[trigger] held[i]) && (forall|k: int| 0 <= k < i ==> !mine(#[trigger] held[k]))
                    ==> t1.locks(path).to_multiset() == held.to_multiset().remove(held[i])
            &&& (forall|k: int| 0 <= k < held.len() ==> !mine(#[trigger] held[k])) ==> t1.locks(path) == held
            &&& forall|p: Seq<char>| p != path ==> #[trigger] t1.locks(p) == t0.locks(p)
        }),
{
    let path = c0.handles@[req.file_id].path@;
    let held = t0.locks(path);
    let e = req.locks@[0];
    let owner = (c0.session_id, req.file_id);
    let range = (e.offset, e.length);
    lemma_one_element(req.locks@);
    lemma_release_one(held, range, owner);
    let freed = released_all(held, seq![range], owner);
    assert(freed + new_locks(wanted(req.locks@, 1), owner) =~= freed);
    lemma_first_lock_is_first(held, range, owner);
    match first_lock(held, range, owner) {
        Some(i) => {
            lemma_swap_removed(held, i);
            let mine = |k: HeldLock| k.owner == owner && k.offset == e.offset && k.length == e.length;
            assert forall|j: int|
                0 <= j < held.len() && mine(#[trigger] held[j]) && (forall|k: int| 0 <= k < j ==> !mine(#[trigger] held[k])) implies j
                == i by {
                if i < j {
                    assert(mine(held[i]));
                }
            }
        },
        None => {},
    }
}

proof fn lemma_release_one(held: Seq<HeldLock>, range: (u64, u64), owner: LockOwner)
    ensures
        released_all(held, seq![range], owner) == released_one(held, range, owner),
{
    reveal_with_fuel(released_all, 2);
    assert(seq![range].drop_last() =~= Seq::<(u64, u64)>::empty());
    assert(seq![range].last() == range);
}

/// A lock of one range is granted exactly where it clashes with no lock that is held, its
/// own open's too; it then stands in the table behind all others. Where it cannot be had
/// it fails at once if it was told to, else it waits, and the table stays as it is.
pub proof fn law_lock_is_granted_where_free(
    t0: &LockManager,
    t1: &LockManager,
    c0: &Smb2Conn,
    c1: &Smb2Conn,
    h: Header2,
    req: LockReq,
    r: LockStart,
)
    requires
        lock_started(t0, t1, c0, c1, h, req, r),
        c0.handles@.dom().contains(req.file_id),
        req.locks@.len() == 1,
        !req.locks@[0].unlock,
    ensures
        ({
            let path = c0.handles@[req.file_id].path@;
            let held = t0.locks(path);
            let e = req.locks@[0];
            let taken = exists|i: int| 0 <= i < held.len() && lock_clash(#[trigger] held[i], e.offset, e.length, e.exclusive);
            if !taken {
                &&& r matches LockStart::Reply(s, b) && s == Status::SUCCESS
                &&& t1.locks(path) == held.push(
                    HeldLock {
                        offset: e.offset,
                        length: e.length,
                        exclusive: e.exclusive,
                        owner: (c0.session_id, req.file_id),
                    },
                )
            } else {
                &&& t1.locks(path) == held
                &&& e.fail_immediately ==> (r matches LockStart::Reply(s, b) && s == Status::LOCK_NOT_GRANTED)
                &&& !e.fail_immediately ==> (r matches LockStart::Pending { async_id, path: p, ranges } && p@ == path && ranges@
                    == seq![(e.offset, e.length, e.exclusive)])
            }
        }),
{
    let path = c0.handles@[req.file_id].path@;
    let held = t0.locks(path);
    let e = req.locks@[0];
    let owner = (c0.session_id, req.file_id);
    let want = seq![(e.offset, e.length, e.exclusive)];
    lemma_one_element(req.locks@);
    assert(unlocked(req.locks@, 1) =~= Seq::<(u64, u64)>::empty());
    reveal_with_fuel(released_all, 1);
    assert(released_all(held, Seq::<(u64, u64)>::empty(), owner) == held);
    if exists|i: int| 0 <= i < held.len() && lock_clash(#[trigger] held[i], e.offset, e.length, e.exclusive) {
        let i = choose|i: int| 0 <= i < held.len() && lock_clash(#[trigger] held[i], e.offset, e.length, e.exclusive);
        assert(lock_clash(held[i], want[0].0, want[0].1, want[0].2));
        assert(any_clash(held, want));
    } else {
        assert(!any_clash(held, want));
        assert(held + new_locks(want, owner) =~= held.push(
            HeldLock { offset: e.offset, length: e.length, exclusive: e.exclusive, owner },
        ));
    }
}

/// A lock that was granted is undone by its unlock: where the open held nothing on that
/// range before, the table is again as it was.
pub proof fn law_unlock_undoes_lock(
    t0: &LockManager,
    t1: &LockManager,
    t2: &LockManager,
    c0: &Smb2Conn,
    c1: &Smb2Conn,
    c2: &Smb2Conn,
    h1: Header2,
    h2: Header2,
    lock: LockReq,
    unlock: LockReq,
    r1: LockStart,
    r2: LockStart,
)
    requires
        lock_started(t0, t1, c0, c1, h1, lock, r1),
        lock_started(t1, t2, c1, c2, h2, unlock, r2),
        c0.handles@.dom().contains(lock.file_id),
        lock.file_id == unlock.file_id,
        lock.locks@.len() == 1 && unlock.locks@.len() == 1,
        !lock.locks@[0].unlock && unlock.locks@[0].unlock,
        lock.locks@[0].offset == unlock.locks@[0].offset,
        lock.locks@[0].length == unlock.locks@[0].length,
        r1 matches LockStart::Reply(s, b) && s == Status::SUCCESS,
        ({
            let held = t0.locks(c0.handles@[lock.file_id].path@);
            forall|k: int|
                0 <= k < held.len() ==> !((#[trigger] held[k]).owner == (c0.session_id, lock.file_id) && held[k].offset
                    == lock.locks@[0].offset && held[k].length == lock.locks@[0].length)
        }),
    ensures
        r2 matches LockStart::Reply(s, b) && s == Status::SUCCESS,
        forall|p: Seq<char>| #[trigger] t2.locks(p) == t0.locks(p),
{
    let path = c0.handles@[lock.file_id].path@;
    let held = t0.locks(path);
    let owner = (c0.session_id, lock.file_id);
    let e = lock.locks@[0];
    let range = (e.offset, e.length);
    law_lock_is_granted_where_free(t0, t1, c0, c1, h1, lock, r1);
    law_unlock_gives_the_range_back(t1, t2, c1, c2, h2, unlock, r2);
    lemma_one_element(unlock.locks@);
    let all = t1.locks(path);
    lemma_release_one(all, range, owner);
    lemma_first_lock_is_first(all, range, owner);
    assert(all.len() == held.len() + 1);
    assert(all[held.len() as int].owner == owner);
    match first_lock(all, range, owner) {
        Some(i) => {
            if i < held.len() {
                assert(all[i] == held[i]);
            }
            assert(i == held.len());
            assert(swap_removed(all, i) =~= held);
            assert(held + new_locks(wanted(unlock.locks@, 1), owner) =~= held);
        },
        None => {},
    }
    assert forall|p: Seq<char>| #[trigger] t2.locks(p) == t0.locks(p) by {
        if p != path {
            assert(t1.locks(p) == t0.locks(p));
        }
    }
}

/// While an open holds an exclusive lock, no other request gets a lock that shares a byte
/// with it.
pub proof fn law_exclusive_lock_keeps_others_out(
    t0: &LockManager,
    t1: &LockManager,
    c0: &Smb2Conn,
    c1: &Smb2Conn,
    h: Header2,
    req: LockReq,
    r: LockStart,
    i: int,
    b: u64,
)
    requires
        lock_started(t0, t1, c0, c1, h, req, r),
        c0.handles@.dom().contains(req.file_id),
        req.locks@.len() == 1,
        !req.locks@[0].unlock,
        ({
            let held = t0.locks(c0.handles@[req.file_id].path@);
            0 <= i < held.len() && held[i].exclusive && held[i].offset <= b < held[i].offset + held[i].length
        }),
        b < u64::MAX,
        req.locks@[0].offset <= b < req.locks@[0].offset + req.locks@[0].length,
    ensures
        !(r matches LockStart::Reply(s, x) && s == Status::SUCCESS),
{
    law_lock_is_granted_where_free(t0, t1, c0, c1, h, req, r);
    let e = req.locks@[0];
    let held = t0.locks(c0.handles@[req.file_id].path@);
    assert(byte_in(held[i], b));
    law_clash_is_a_common_byte(held[i], e.offset, e.length, e.exclusive);
}

/// A lock request on a handle that is not open is refused and changes nothing.
pub proof fn law_lock_needs_an_open(
    t0: &LockManager,
    t1: &LockManager,
    c0: &Smb2Conn,
    c1: &Smb2Conn,
    h: Header2,
    req: LockReq,
    r: LockStart,
)
    requires
        lock_started(t0, t1, c0, c1, h, req, r),
    ensures
        !c0.handles@.dom().contains(req.file_id) <==> (r matches LockStart::Reply(s, b) && s == Status::INVALID_HANDLE),
        !c0.handles@.dom().contains(req.file_id) ==> *t1 == *t0 && *c1 == *c0,
{
}

/// The answer to a lock that was waited for.
pub open spec fn lock_answer(session_id: u64, message_id: u64, async_id: u64, granted: bool) -> Seq<u8> {
    if granted {
        async_frame(session_id, message_id, async_id, CMD_LOCK, Status::SUCCESS, empty_body())
    } else {
        async_frame(session_id, message_id, async_id, CMD_LOCK, Status::CANCELLED, Seq::empty())
    }
}

/// Answers a lock that was waited for: it is granted or it was cancelled.
pub fn lock_result(session_id: u64, message_id: u64, async_id: u64, granted: bool) -> (f: Vec<u8>)
    ensures
        f@ == lock_answer(session_id, message_id, async_id, granted),
{
    if granted {
        let b = build_empty_resp();
        build_async_frame(session_id, message_id, async_id, CMD_LOCK, Status::SUCCESS, b.as_slice())
    } else {
        let b: [u8; 0] = [];
        assert(b@ =~= Seq::<u8>::empty());
        build_async_frame(session_id, message_id, async_id, CMD_LOCK, Status::CANCELLED, b.as_slice())
    }
}

// ---------------- change notifications ----------------

/// The most that a change notification may ask for.
pub const MAX_TRANSACT_SIZE: u32 = 0x10_0000;

/// How a change notification starts.
pub enum NotifyStart {
    Refused(Status),
    /// The directory is watched.
    Pending { async_id: u64, path: String },
}

/// Why a directory cannot be watched; none where it can.
pub open spec fn notify_refusal(c: &Smb2Conn, req: ChangeNotifyReq) -> Option<Status> {
    if !c.handles@.contains_key(req.file_id) {
        Some(Status::INVALID_HANDLE)
    } else {
        let h = c.handles@[req.file_id];
        if !h.is_dir {
            Some(Status::INVALID_PARAMETER)
        } else if !h.can_read {
            Some(Status::ACCESS_DENIED)
        } else if req.output_len > MAX_TRANSACT_SIZE {
            Some(Status::INVALID_PARAMETER)
        } else {
            None
        }
    }
}

/// Whether a change notification starts as it should.
pub open spec fn notify_started(c0: &Smb2Conn, c1: &Smb2Conn, h: Header2, req: ChangeNotifyReq, r: NotifyStart) -> bool {
    match notify_refusal(c0, req) {
        Some(s) => r == NotifyStart::Refused(s) && *c1 == *c0,
        None => {
            &&& r matches NotifyStart::Pending { async_id, path }
            &&& async_id == c0.next_async_id
            &&& path@ == c0.handles@[req.file_id].path@
            &&& op_noted(c0, c1, h.message_id, Some(req.file_id))
        },
    }
}

/// Starts a change notification.
pub fn begin_change_notify(conn: &mut Smb2Conn, h: &Header2, req: &ChangeNotifyReq) -> (r: NotifyStart)
    requires
        old(conn).wf(),
    ensures
        final(conn).wf(),
        notify_started(old(conn), final(conn), *h, *req, r),
{
    let path = match conn.handles.get(&req.file_id) {
        Some(f) => {
            if !f.is_dir {
                return NotifyStart::Refused(Status::INVALID_PARAMETER);
            }
            if !f.can_read {
                return NotifyStart::Refused(Status::ACCESS_DENIED);
            }
            f.path.clone()
        },
        None => return NotifyStart::Refused(Status::INVALID_HANDLE),
    };
    if req.output_len > MAX_TRANSACT_SIZE {
        return NotifyStart::Refused(Status::INVALID_PARAMETER);
    }
    let async_id: u64 = note_op(conn, h.message_id, Some(req.file_id));
    NotifyStart::Pending { async_id, path }
}

/// The kinds of events that a directory is watched for.
#[derive(Clone, Copy, PartialEq, Eq, Structural, Debug)]
pub struct WatchSet {
    pub create: bool,
    pub delete: bool,
    pub moved_from: bool,
    pub moved_to: bool,
    pub attrib: bool,
    pub modify: bool,
    pub close_write: bool,
}

/// The events that stand for a completion filter: names for creation, deletion and
/// renames, attributes and times for attribute events, sizes and streams for
/// modifications; where none is asked for, names and modifications.
pub open spec fn watched(filter: u32) -> WatchSet {
    let names = filter & 0x003 != 0;
    let attrs = filter & 0x0F4 != 0;
    let sizes = filter & 0xE18 != 0;
    let none = !names && !attrs && !sizes;
    WatchSet {
        create: names || none,
        delete: names || none,
        moved_from: names || none,
        moved_to: names || none,
        attrib: attrs,
        modify: sizes || none,
        close_write: sizes,
    }
}

/// The events that a directory is watched for under a completion filter.
pub fn filter_to_mask(filter: u32) -> (r: WatchSet)
    ensures
        r == watched(filter),
{
    let names: bool = filter & 0x003 != 0;
    let attrs: bool = filter & 0x0F4 != 0;
    let sizes: bool = filter & 0xE18 != 0;
    let none: bool = !names && !attrs && !sizes;
    WatchSet {
        create: names || none,
        delete: names || none,
        moved_from: names || none,
        moved_to: names || none,
        attrib: attrs,
        modify: sizes || none,
        close_write: sizes,
    }
}

/// Every filter watches something.
pub proof fn law_watch_is_never_empty(filter: u32)
    ensures
        watched(filter).create || watched(filter).attrib || watched(filter).modify,
{
}

pub const NOTIFY_ADDED: u32 = 1;

pub const NOTIFY_REMOVED: u32 = 2;

pub const NOTIFY_MODIFIED: u32 = 3;

pub const NOTIFY_RENAMED_OLD: u32 = 4;

pub const NOTIFY_RENAMED_NEW: u32 = 5;

/// The action that an event is reported as; the first kind that applies counts.
pub open spec fn action_of(e: WatchSet) -> u32 {
    if e.create {
        NOTIFY_ADDED
    } else if e.delete {
        NOTIFY_REMOVED
    } else if e.moved_from {
        NOTIFY_RENAMED_OLD
    } else if e.moved_to {
        NOTIFY_RENAMED_NEW
    } else {
        NOTIFY_MODIFIED
    }
}

/// The action that an event is reported as.
pub fn mask_to_action(e: &WatchSet) -> (r: u32)
    ensures
        r == action_of(*e),
{
    if e.create {
        NOTIFY_ADDED
    } else if e.delete {
        NOTIFY_REMOVED
    } else if e.moved_from {
        NOTIFY_RENAMED_OLD
    } else if e.moved_to {
        NOTIFY_RENAMED_NEW
    } else {
        NOTIFY_MODIFIED
    }
}

/// At most this many directories below a watched one are watched with it.
pub const WATCH_CAP: usize = 4096;

/// A name below a directory, relative to the watched one.
pub open spec fn below(dir: Seq<char>, name: Seq<char>) -> Seq<char> {
    if dir.len() == 0 {
        name
    } else {
        dir + "\\"@ + name
    }
}

/// The name that is reported for something in a directory below the watched one.
pub fn name_below(dir: &str, name: &str) -> (r: String)
    ensures
        r@ == below(dir@, name@),
{
    if dir.unicode_len() == 0 {
        name.to_owned()
    } else {
        let a = concat(dir, "\\");
        concat(a.as_str(), name)
    }
}

/// Paths and the names they have below the watched directory, as sequences.
pub open spec fn pairs(v: Seq<(String, String)>) -> Seq<(Seq<char>, Seq<char>)> {
    Seq::new(v.len(), |i: int| (v[i].0@, v[i].1@))
}

/// The first `n` directories of a listing.
pub open spec fn children(dir: Seq<char>, rel: Seq<char>, names: Seq<String>, n: int) -> Seq<(Seq<char>, Seq<char>)> {
    Seq::new(n as nat, |i: int| (joined(dir, names[i]@), below(rel, names[i]@)))
}

/// A walk that collects the directories below a watched one.
pub struct DirWalk {
    /// The directories that were found, each with its name below the watched one.
    pub found: Vec<(String, String)>,
    /// Those that are still to be listed.
    pub unlisted: Vec<(String, String)>,
}

impl DirWalk {
    /// No more is collected than is watched.
    pub open spec fn wf(&self) -> bool {
        self.found@.len() <= WATCH_CAP
    }

    /// How many directories of a listing are still taken in.
    pub open spec fn room(&self, listed: nat) -> int {
        if listed <= WATCH_CAP - self.found@.len() {
            listed as int
        } else {
            WATCH_CAP - self.found@.len()
        }
    }

    /// A walk that begins at `root`.
    pub fn new(root: &str) -> (w: Self)
        ensures
            w.wf(),
            pairs(w.found@) == Seq::<(Seq<char>, Seq<char>)>::empty(),
            pairs(w.unlisted@) == seq![(root@, ""@)],
    {
        let mut unlisted: Vec<(String, String)> = Vec::new();
        unlisted.push((root.to_owned(), "".to_owned()));
        let w = DirWalk { found: Vec::new(), unlisted };
        assert(pairs(w.found@) =~= Seq::<(Seq<char>, Seq<char>)>::empty());
        assert(pairs(w.unlisted@) =~= seq![(root@, ""@)]);
        w
    }

    /// The directory to list next, the one that was found last; none once enough
    /// were found or all are listed.
    pub fn next_dir(&mut self) -> (r: Option<(String, String)>)
        requires
            old(self).wf(),
        ensures
            final(self).wf(),
            final(self).found == old(self).found,
            match r {
                Some(d) => {
                    &&& old(self).found@.len() < WATCH_CAP
                    &&& old(self).unlisted@.len() > 0
                    &&& (d.0@, d.1@) == pairs(old(self).unlisted@).last()
                    &&& pairs(final(self).unlisted@) == pairs(old(self).unlisted@).drop_last()
                },
                None => {
                    &&& old(self).found@.len() == WATCH_CAP || old(self).unlisted@.len() == 0
                    &&& *final(self) == *old(self)
                },
            },
    {
        if self.found.len() >= WATCH_CAP {
            return None;
        }
        if self.unlisted.len() == 0 {
            return None;
        }
        let r = self.unlisted.pop();
        assert(r == Some(old(self).unlisted@.last()));
        assert(pairs(self.unlisted@) =~= pairs(old(self).unlisted@).drop_last());
        r
    }

    /// Takes in the directories that a listing of `dir` names.
    pub fn add_listing(&mut self, dir: &str, rel: &str, names: &Vec<String>)
        requires
            old(self).wf(),
        ensures
            final(self).wf(),
            ({
                let new = children(dir@, rel@, names@, old(self).room(names@.len()));
                &&& pairs(final(self).found@) == pairs(old(self).found@) + new
                &&& pairs(final(self).unlisted@) == pairs(old(self).unlisted@) + new
            }),
    {
        let mut i: usize = 0;
        assert(children(dir@, rel@, names@, 0) =~= Seq::<(Seq<char>, Seq<char>)>::empty());
        while i < names.len() && self.found.len() < WATCH_CAP
            invariant
                i <= names@.len(),
                old(self).wf(),
                self.found@.len() == old(self).found@.len() + i,
                self.found@.len() <= WATCH_CAP,
                pairs(self.found@) == pairs(old(self).found@) + children(dir@, rel@, names@, i as int),
                pairs(self.unlisted@) == pairs(old(self).unlisted@) + children(dir@, rel@, names@, i as int),
            decreases names@.len() - i,
        {
            let path = join_path(dir, names[i].as_str());
            let name = name_below(rel, names[i].as_str());
            let ghost f = self.found@;
            let ghost u = self.unlisted@;
            self.found.push((path.clone(), name.clone()));
            self.unlisted.push((path, name));
            let ghost c = (joined(dir@, names@[i as int]@), below(rel@, names@[i as int]@));
            proof {
                assert(pairs(self.found@) =~= pairs(f).push(c));
                assert(pairs(self.unlisted@) =~= pairs(u).push(c));
                assert(children(dir@, rel@, names@, i + 1) =~= children(dir@, rel@, names@, i as int).push(c));
                assert((pairs(old(self).found@) + children(dir@, rel@, names@, i as int)).push(c) =~= pairs(
                    old(self).found@,
                ) + children(dir@, rel@, names@, i + 1));
                assert((pairs(old(self).unlisted@) + children(dir@, rel@, names@, i as int)).push(c) =~= pairs(
                    old(self).unlisted@,
                ) + children(dir@, rel@, names@, i + 1));
            }
            i += 1;
        }
        assert(i == old(self).room(names@.len()));
    }
}

/// One reported change.
pub open spec fn notify_entry(action: u32, name: Seq<char>) -> Seq<u8> {
    le32(0) + le32(action) + le32(low32(utf16_bytes(name).len() as int)) + utf16_bytes(name)
}

/// The answer to a change notification: the change, or how it ended. The end by a
/// closed directory is an answer without changes, any other end an error.
pub open spec fn notify_answer(
    session_id: u64,
    message_id: u64,
    async_id: u64,
    outcome: Result<(u32, String), Status>,
) -> Seq<u8> {
    match outcome {
        Ok((action, name)) => async_frame(
            session_id,
            message_id,
            async_id,
            CMD_CHANGE_NOTIFY,
            Status::SUCCESS,
            info_body(notify_entry(action, name@)),
        ),
        Err(s) => async_frame(
            session_id,
            message_id,
            async_id,
            CMD_CHANGE_NOTIFY,
            s,
            if s == Status::NOTIFY_CLEANUP {
                info_body(Seq::empty())
            } else {
                error_bytes()
            },
        ),
    }
}

fn make_entry(action: u32, name: &str) -> (b: Vec<u8>)
    ensures
        b@ == notify_entry(action, name@),
{
    let n = encode_utf16_bytes(name);
    let mut b: Vec<u8> = Vec::new();
    put_u32(&mut b, 0);
    assert(b@ =~= le32(0));
    put_u32(&mut b, action);
    put_u32(&mut b, (n.len() as u64 % 0x1_0000_0000) as u32);
    put_bytes(&mut b, n.as_slice());
    b
}

/// Answers a change notification.
pub fn notify_result(
    session_id: u64,
    message_id: u64,
    async_id: u64,
    outcome: &Result<(u32, String), Status>,
) -> (f: Vec<u8>)
    ensures
        f@ == notify_answer(session_id, message_id, async_id, *outcome),
{
    match outcome {
        Ok(e) => {
            let entry = make_entry(e.0, e.1.as_str());
            let body = build_info_resp(entry.as_slice());
            build_async_frame(session_id, message_id, async_id, CMD_CHANGE_NOTIFY, Status::SUCCESS, body.as_slice())
        },
        Err(s) => {
            let s: Status = *s;
            let body = if s == Status::NOTIFY_CLEANUP {
                let e: [u8; 0] = [];
                assert(e@ =~= Seq::<u8>::empty());
                build_info_resp(e.as_slice())
            } else {
                error_resp()
            };
            build_async_frame(session_id, message_id, async_id, CMD_CHANGE_NOTIFY, s, body.as_slice())
        },
    }
}

/// A directory is watched exactly where it is open for reading and at most a megabyte is
/// asked for; it is then the open directory that is watched, and a cancel of the request,
/// or the close of the directory, finds the watch.
pub proof fn law_watch_is_on_the_open_directory(
    c0: &Smb2Conn,
    c1: &Smb2Conn,
    h: Header2,
    req: ChangeNotifyReq,
    r: NotifyStart,
)
    requires
        notify_started(c0, c1, h, req, r),
    ensures
        r is Pending <==> c0.handles@.dom().contains(req.file_id) && c0.handles@[req.file_id].is_dir
            && c0.handles@[req.file_id].can_read && req.output_len <= 1048576,
        r matches NotifyStart::Pending { async_id, path } ==> path@ == c0.handles@[req.file_id].path@
            && c1.async_cancels@.contains(async_id) && async_of(c1.async_msgids@, h.message_id) == Some(async_id)
            && watches_on(c1.async_by_file@, req.file_id, c1.async_by_file@.len() as int).contains(async_id),
        r is Refused ==> *c1 == *c0,
{
    if r is Pending {
        law_cancel_finds_pending(c0, c1, h.message_id, Some(req.file_id));
        let v = c1.async_by_file@;
        let n = v.len() as int;
        let w = watches_on(v, req.file_id, n);
        assert(v[n - 1] == (req.file_id, c0.next_async_id));
        assert(w[w.len() - 1] == c0.next_async_id);
    }
}

/// A cancel ends the operation that it is about, by the async id that it carries in bytes
/// 32 to 39 where bit 1 of its flags says so, else by its message id.
pub proof fn law_cancel_is_about_its_operation(c: &Smb2Conn, h: Header2, buf: Seq<u8>)
    ensures
        h.flags & 2 != 0 && buf.len() >= 40 ==> (cancel_target(c, h, buf) matches Some(id) && id == little(buf, 32, 8)),
        h.flags & 2 == 0 ==> (cancel_target(c, h, buf) matches Some(id) ==> exists|k: int|
            0 <= k < c.async_msgids@.len() && (#[trigger] c.async_msgids@[k]).0 == h.message_id && c.async_msgids@[k].1
                == id),
        h.flags & 2 == 0 && cancel_target(c, h, buf) is None ==> forall|k: int|
            0 <= k < c.async_msgids@.len() ==> (#[trigger] c.async_msgids@[k]).0 != h.message_id,
{
    lemma_little(buf, 32);
    lemma_async_of(c.async_msgids@, h.message_id);
}

proof fn lemma_async_of(m: Seq<(u64, u64)>, message_id: u64)
    ensures
        match async_of(m, message_id) {
            Some(id) => exists|k: int| 0 <= k < m.len() && (#[trigger] m[k]).0 == message_id && m[k].1 == id,
            None => forall|k: int| 0 <= k < m.len() ==> (#[trigger] m[k]).0 != message_id,
        },
    decreases m.len(),
{
    if m.len() > 0 {
        let d = m.drop_last();
        lemma_async_of(d, message_id);
        if m.last().0 == message_id {
            assert(m[m.len() - 1].1 == m.last().1);
        } else {
            match async_of(d, message_id) {
                Some(id) => {
                    let k = choose|k: int| 0 <= k < d.len() && (#[trigger] d[k]).0 == message_id && d[k].1 == id;
                    assert(m[k] == d[k]);
                },
                None => {
                    assert forall|k: int| 0 <= k < m.len() implies (#[trigger] m[k]).0 != message_id by {
                        if k < d.len() {
                            assert(d[k].0 != message_id);
                        }
                    }
                },
            }
        }
    }
}

/// A cancel ends no other operation: all others stay pending.
pub proof fn law_cancel_spares_others(c0: &Smb2Conn, c1: &Smb2Conn, id: u64, other: u64)
    requires
        op_dropped(c0, c1, id),
        other != id,
        c0.async_cancels@.contains(other),
    ensures
        c1.async_cancels@.contains(other),
        c1.handles == c0.handles,
{
    let k = choose|k: int| 0 <= k < c0.async_cancels@.len() && c0.async_cancels@[k] == other;
    c0.async_cancels@.lemma_filter_contains(other_op(id), k);
}

/// What a client asks to be told of is watched: names (bits 0 and 1) bring creation,
/// deletion and renames, attributes and times (bits 2 and 4 to 7) attribute events, sizes
/// and streams (bits 3, 4 and 9 to 11) modifications.
pub proof fn law_filter_is_watched_for(filter: u32)
    ensures
        ({
            let w = watched(filter);
            &&& filter & 3 != 0 ==> w.create && w.delete && w.moved_from && w.moved_to
            &&& filter & 0xF4 != 0 ==> w.attrib
            &&& filter & 0xE18 != 0 ==> w.modify && w.close_write
            &&& w.attrib ==> filter & 0xF4 != 0
            &&& filter & 3 == 0 && filter != 0 && (filter & 0xEFC != 0) ==> !w.create
        }),
{
    assert(filter & 0xEFC != 0 ==> filter & 0xF4 != 0 || filter & 0xE18 != 0) by (bit_vector);
}

/// Different kinds of events are reported as different actions, by the numbers 1 to 5 for
/// added, removed, modified, and renamed from and to.
pub proof fn law_actions_tell_events_apart()
    ensures
        ({
            let none = WatchSet {
                create: false,
                delete: false,
                moved_from: false,
                moved_to: false,
                attrib: false,
                modify: false,
                close_write: false,
            };
            &&& action_of(WatchSet { create: true, ..none }) == 1
            &&& action_of(WatchSet { delete: true, ..none }) == 2
            &&& action_of(WatchSet { modify: true, ..none }) == 3
            &&& action_of(WatchSet { attrib: true, ..none }) == 3
            &&& action_of(WatchSet { moved_from: true, ..none }) == 4
            &&& action_of(WatchSet { moved_to: true, ..none }) == 5
        }),
{
}

/// A change is reported with its action and its name: the name stands 12 bytes behind the
/// start of the entry, for the length that is given in front of it.
pub proof fn law_change_is_reported_by_name(action: u32, name: Seq<char>)
    requires
        utf16_bytes(name).len() < 0x1_0000_0000,
    ensures
        ({
            let e = notify_entry(action, name);
            &&& little(e, 0, 4) == 0
            &&& little(e, 4, 4) == action
            &&& little(e, 8, 4) == utf16_bytes(name).len()
            &&& e.subrange(12, e.len() as int) == utf16_bytes(name)
        }),
{
    let e = notify_entry(action, name);
    let x = utf16_bytes(name);
    let n = low32(x.len() as int);
    let z = Seq::<u8>::empty();
    assert(e =~= z + le32(0) + (le32(action) + le32(n) + x));
    lemma_little_written(z, 0, 0, 0, le32(action) + le32(n) + x);
    assert(e =~= le32(0) + le32(action) + (le32(n) + x));
    lemma_little_written(le32(0), 0, action, 0, le32(n) + x);
    lemma_little_written(le32(0) + le32(action), 0, n, 0, x);
    assert(e.subrange(12, e.len() as int) =~= x);
}

/// A late answer goes to the request that it is owed to: it carries its message id, the
/// async id that it was parked under and its session. A lock that was granted is answered
/// with success, one that was given up as cancelled.
pub proof fn law_late_answers_name_their_request(
    session_id: u64,
    message_id: u64,
    async_id: u64,
    granted: bool,
    outcome: Result<(u32, String), Status>,
)
    ensures
        ({
            let f = lock_answer(session_id, message_id, async_id, granted);
            let s = if granted {
                Status::SUCCESS
            } else {
                Status::CANCELLED
            };
            &&& has_header2(f)
            &&& header2_of(f).message_id == message_id && header2_of(f).session_id == session_id && header2_of(f).command
                == 0x0A
            &&& header2_of(f).status == status_code(s)
            &&& u64_at(f.subrange(32, 40), 0) == async_id
        }),
        ({
            let f = notify_answer(session_id, message_id, async_id, outcome);
            &&& has_header2(f)
            &&& header2_of(f).message_id == message_id && header2_of(f).session_id == session_id && header2_of(f).command
                == 0x0F
            &&& outcome is Ok ==> header2_of(f).status == status_code(Status::SUCCESS)
            &&& outcome matches Err(s) ==> header2_of(f).status == status_code(s)
            &&& u64_at(f.subrange(32, 40), 0) == async_id
        }),
{
    law_async_frame_ids(session_id, message_id, async_id, 0x0A, Status::SUCCESS, empty_body());
    law_async_frame_ids(session_id, message_id, async_id, 0x0A, Status::CANCELLED, Seq::empty());
    match outcome {
        Ok((action, name)) => {
            law_async_frame_ids(
                session_id,
                message_id,
                async_id,
                0x0F,
                Status::SUCCESS,
                info_body(notify_entry(action, name@)),
            );
        },
        Err(s) => {
            law_async_frame_ids(session_id, message_id, async_id, 0x0F, s, info_body(Seq::empty()));
            law_async_frame_ids(session_id, message_id, async_id, 0x0F, s, error_bytes());
        },
    }
}

/// The close of a directory ends its own watches and no others: each is ended once, and
/// what belongs to other files stays.
pub proof fn law_closed_directory_ends_its_watches(v: Seq<([u8; 16], u64)>, fid: [u8; 16], i: int, k: int)
    requires
        0 <= i < v.len(),
    ensures
        ({
            let w = watches_on(v, fid, v.len() as int);
            &&& v[i].0 == fid ==> w.contains(v[i].1)
            &&& v[i].0 != fid ==> v.filter(other_file(fid)).contains(v[i])
            &&& 0 <= k < w.len() ==> v.contains((fid, w[k]))
        }),
{
    let n = v.len() as int;
    if v[i].0 != fid {
        v.lemma_filter_contains(other_file(fid), i);
    } else {
        lemma_watch_is_found(v, fid, n, i);
    }
    if 0 <= k < watches_on(v, fid, n).len() {
        lemma_watch_is_noted(v, fid, n, k);
    }
}

proof fn lemma_watch_is_found(v: Seq<([u8; 16], u64)>, fid: [u8; 16], n: int, i: int)
    requires
        0 <= i < n <= v.len(),
        v[i].0 == fid,
    ensures
        watches_on(v, fid, n).contains(v[i].1),
    decreases n,
{
    let w = watches_on(v, fid, n);
    let d = watches_on(v, fid, n - 1);
    if i == n - 1 {
        assert(w[w.len() - 1] == v[i].1);
    } else {
        lemma_watch_is_found(v, fid, n - 1, i);
        let k = choose|k: int| 0 <= k < d.len() && d[k] == v[i].1;
        assert(w[k] == d[k]);
    }
}

proof fn lemma_watch_is_noted(v: Seq<([u8; 16], u64)>, fid: [u8; 16], n: int, k: int)
    requires
        0 <= n <= v.len(),
        0 <= k < watches_on(v, fid, n).len(),
    ensures
        v.contains((fid, watches_on(v, fid, n)[k])),
    decreases n,
{
    let w = watches_on(v, fid, n);
    let d = watches_on(v, fid, n - 1);
    if v[n - 1].0 == fid && k == w.len() - 1 {
        assert(v[n - 1] == (fid, w[k]));
    } else {
        assert(w[k] == d[k]);
        lemma_watch_is_noted(v, fid, n - 1, k);
    }
}

} // verus!
