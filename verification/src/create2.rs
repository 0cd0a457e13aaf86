//! SMB2 create: which opens are let through, what they break, what they are
//! granted, and how durable handles are reclaimed.
use vstd::prelude::*;
use crate::bytes::{le32, little, zeros};
use crate::app_instances::{is_rival, version_keeps_out, AppInstanceMatch, AppInstanceTable, AppOpen};
use crate::conn2::{counted, counter_id, next_file_id, Server2, Smb2Conn};
use crate::frame2::{break_frame, build_break_frame, has_header2, header2_of, header_bytes, law_header_fields, parent_dir, parent_of, seal_pdu, sealed_frame, DIALECT_300, DIALECT_311};
use crate::leases::{after_conflict, break_notice, is_broken_by, law_conflict_breaks, notices, oplock_owner, BreakCrypto, LeaseBreak, LeaseHolder, LeaseTable, OplockHolder, OplockTable};
use crate::locks::{HeldLock, LockManager, LockOwner};
use crate::reply2::{build_create_resp, build_lease_break, build_oplock_break, create_body, create_contexts, encode_create_contexts, law_create_response_fields, lease_break_body, oplock_break_body, DurableGrant, LeaseResp, LEASE_ACK_REQUIRED, LEASE_HANDLE, LEASE_RH, LEASE_RWH, LEASE_WRITE, OPLOCK_BATCH, OPLOCK_EXCLUSIVE, OPLOCK_LEASE, OPLOCK_LEVEL_II, OPLOCK_NONE};
use crate::sealing::MAX_SEALED;
use crate::sessions::{DurableEntry, DHANDLE_FLAG_PERSISTENT};
use crate::share_modes::{closed_in, compatible_with_all, modes_compatible, OpenMode, ShareModeTable};
use crate::smb::{Status, DELETE_ACCESS, GENERIC_ALL, OPT_DELETE_ON_CLOSE, OPT_DIRECTORY_FILE, OPT_NON_DIRECTORY_FILE};
use crate::tables::first_where;
use crate::text::{pieces, same_text, split_slashes, texts};
use crate::vfs::{vfs_err, vfs_status, FileMeta, OpenFile, VfsError};
use crate::wildcard::{lemma_leading_are_slashes, trim_leading_slashes, without_leading};
use crate::wire2::{CreateContexts, CreateReq, DurableReq, LeaseReq};

verus! {

// ---------------- what is checked before a file is opened ----------------

/// Whether a path goes up from a real component, looking at its first `n` pieces.
pub open spec fn goes_up(p: Seq<Seq<char>>, n: int) -> bool
    decreases n,
{
    n > 0 && (goes_up(p, n - 1) || p[n - 1] == ".."@ && names_something(p, n - 1))
}

/// Whether one of the first `n` pieces of a path is a name.
pub open spec fn names_something(p: Seq<Seq<char>>, n: int) -> bool
    decreases n,
{
    n > 0 && (names_something(p, n - 1) || p[n - 1].len() > 0 && p[n - 1] != "."@ && p[n - 1] != ".."@)
}

/// Whether a path goes up from a real component.
pub open spec fn walks_up(name: Seq<char>) -> bool {
    goes_up(pieces(name), pieces(name).len() as int)
}

fn path_walks_up(name: &str) -> (r: bool)
    ensures
        r == walks_up(name@),
{
    let p = split_slashes(name);
    let n: usize = p.len();
    let mut seen: bool = false;
    let mut i: usize = 0;
    proof {
        reveal_strlit("..");
        reveal_strlit(".");
    }
    while i < n
        invariant
            i <= n == p@.len(),
            texts(p@) == pieces(name@),
            n == pieces(name@).len(),
            seen == names_something(pieces(name@), i as int),
            !goes_up(pieces(name@), i as int),
        decreases n - i,
    {
        assert(texts(p@)[i as int] == p@[i as int]@);
        let up: bool = same_text(p[i].as_str(), "..");
        if up && seen {
            proof {
                lemma_goes_up_stays(pieces(name@), i + 1, n as int);
            }
            return true;
        }
        let dot: bool = same_text(p[i].as_str(), ".");
        if !dot && !up && !same_text(p[i].as_str(), "") {
            proof {
                reveal_strlit("");
                if pieces(name@)[i as int].len() == 0 {
                    assert(pieces(name@)[i as int] =~= ""@);
                }
            }
            seen = true;
        } else {
            proof {
                reveal_strlit("");
            }
        }
        i += 1;
    }
    false
}

proof fn lemma_goes_up_stays(p: Seq<Seq<char>>, i: int, n: int)
    requires
        goes_up(p, i),
        i <= n,
    ensures
        goes_up(p, n),
    decreases n - i,
{
    if i < n {
        lemma_goes_up_stays(p, i + 1, n);
    }
}

/// The handle and the create guid that a reconnect names.
pub open spec fn reconnect_ids(d: Option<DurableReq>) -> Option<([u8; 16], Option<[u8; 16]>)> {
    match d {
        Some(DurableReq::ReconnectV2 { file_id, create_guid }) => Some((file_id, Some(create_guid))),
        Some(DurableReq::ReconnectV1 { file_id }) => Some((file_id, None)),
        _ => None,
    }
}

/// The handle and the create guid that a reconnect names.
pub fn durable_reconnect_ids(d: &Option<DurableReq>) -> (r: Option<([u8; 16], Option<[u8; 16]>)>)
    ensures
        r == reconnect_ids(*d),
{
    match d {
        Some(DurableReq::ReconnectV2 { file_id, create_guid }) => Some((*file_id, Some(*create_guid))),
        Some(DurableReq::ReconnectV1 { file_id }) => Some((*file_id, None)),
        _ => None,
    }
}

/// How a create goes on.
pub enum CreatePlan {
    /// A preserved handle is reclaimed.
    Reconnect { id: [u8; 16], guid: Option<[u8; 16]> },
    Refuse(Status),
    /// The path below the share is opened.
    Open { rel: String, want_dir: bool },
}

/// Whether a create goes on as it should.
pub open spec fn create_planned(req: CreateReq, r: CreatePlan) -> bool {
    match reconnect_ids(req.contexts.durable) {
        Some((id, guid)) => r == (CreatePlan::Reconnect { id, guid }),
        None => if walks_up(req.name@) {
            r == CreatePlan::Refuse(Status::INVALID_PARAMETER)
        } else if req.options & OPT_DELETE_ON_CLOSE != 0 && req.desired_access & (DELETE_ACCESS | GENERIC_ALL) == 0 {
            r == CreatePlan::Refuse(Status::ACCESS_DENIED)
        } else {
            r matches CreatePlan::Open { rel, want_dir } && rel@ == without_leading(req.name@) && want_dir == (req.options
                & OPT_DIRECTORY_FILE != 0)
        },
    }
}

/// Checks a create before anything is opened.
pub fn plan_create(req: &CreateReq) -> (r: CreatePlan)
    ensures
        create_planned(*req, r),
{
    match durable_reconnect_ids(&req.contexts.durable) {
        Some(p) => return CreatePlan::Reconnect { id: p.0, guid: p.1 },
        None => {},
    }
    if path_walks_up(req.name.as_str()) {
        return CreatePlan::Refuse(Status::INVALID_PARAMETER);
    }
    if req.options & OPT_DELETE_ON_CLOSE != 0 && req.desired_access & (DELETE_ACCESS | GENERIC_ALL) == 0 {
        return CreatePlan::Refuse(Status::ACCESS_DENIED);
    }
    CreatePlan::Open { rel: trim_leading_slashes(req.name.as_str()), want_dir: req.options & OPT_DIRECTORY_FILE != 0 }
}

/// No create opens a path that goes up from a real component.
pub proof fn law_no_walk_up(req: CreateReq, r: CreatePlan)
    requires
        create_planned(req, r),
        r is Open,
    ensures
        !walks_up(req.name@),
{
}

/// Nothing is deleted on close for a create that did not ask for the right to
/// delete.
pub proof fn law_delete_on_close_needs_right(req: CreateReq, r: CreatePlan)
    requires
        create_planned(req, r),
        r is Open,
        req.options & OPT_DELETE_ON_CLOSE != 0,
    ensures
        req.desired_access & (DELETE_ACCESS | GENERIC_ALL) != 0,
{
}

/// A create that is let through opens the kind of thing that its lowest option bit asks
/// for: a directory where the bit is set, a file where it is not. Whatever else the
/// request says, two creates that agree in this bit are planned for the same kind.
pub proof fn law_create_opens_the_kind_asked_for(req: CreateReq, r: CreatePlan)
    requires
        create_planned(req, r),
    ensures
        r matches CreatePlan::Open { rel, want_dir } ==> want_dir == (req.options % 2 == 1),
{
    let o = req.options;
    assert((o & 1 != 0) == (o % 2 == 1)) by (bit_vector);
}

/// A create reclaims a handle exactly where it carries a reconnect, and then the handle
/// that the reconnect names.
pub proof fn law_only_a_reconnect_reclaims(req: CreateReq, r: CreatePlan)
    requires
        create_planned(req, r),
    ensures
        match req.contexts.durable {
            Some(DurableReq::ReconnectV2 { file_id, create_guid }) => r matches CreatePlan::Reconnect { id, guid } && id
                == file_id && guid == Some(create_guid),
            Some(DurableReq::ReconnectV1 { file_id }) => r matches CreatePlan::Reconnect { id, guid } && id == file_id
                && guid is None,
            _ => !(r is Reconnect),
        },
{
}

/// A create without a reconnect is refused for two reasons only: its path goes up, or it
/// wants the file deleted on close without a right to delete. Any other is opened, under
/// its own name but for the slashes that open it.
pub proof fn law_a_harmless_create_is_opened(req: CreateReq, r: CreatePlan)
    requires
        create_planned(req, r),
        reconnect_ids(req.contexts.durable) is None,
    ensures
        r is Open <==> !walks_up(req.name@) && (req.options & 0x1000 == 0 || req.desired_access & 0x1001_0000 != 0),
        r matches CreatePlan::Refuse(s) ==> s == Status::INVALID_PARAMETER || s == Status::ACCESS_DENIED,
        r matches CreatePlan::Open { rel, want_dir } ==> {
            let n = req.name@.len() - rel@.len();
            &&& 0 <= n
            &&& rel@ == req.name@.subrange(n, req.name@.len() as int)
            &&& forall|k: int| 0 <= k < n ==> #[trigger] req.name@[k] == '\\' || req.name@[k] == '/'
            &&& rel@.len() > 0 ==> rel@[0] != '\\' && rel@[0] != '/'
        },
{
    let a = req.desired_access;
    assert(0x1_0000u32 | 0x1000_0000u32 == 0x1001_0000u32) by (bit_vector);
    lemma_leading_are_slashes(req.name@);
}

// ---------------- breaks ----------------

/// A break notification that is owed to another client.
#[derive(Clone, Copy)]
pub enum Notice {
    Lease(LeaseBreak),
    /// The oplock is broken to none.
    Oplock(OplockHolder),
}

/// The lease breaks as notifications.
pub open spec fn lease_notices(l: Seq<LeaseBreak>) -> Seq<Notice> {
    Seq::new(l.len(), |i: int| Notice::Lease(l[i]))
}

pub(crate) fn add_notices(out: &mut Vec<Notice>, l: &Vec<LeaseBreak>)
    ensures
        final(out)@ == old(out)@ + lease_notices(l@),
{
    let n: usize = l.len();
    let mut i: usize = 0;
    assert(out@ =~= old(out)@ + lease_notices(l@).subrange(0, 0));
    while i < n
        invariant
            i <= n == l@.len(),
            out@ == old(out)@ + lease_notices(l@).subrange(0, i as int),
        decreases n - i,
    {
        out.push(Notice::Lease(l[i]));
        assert(lease_notices(l@).subrange(0, i + 1) =~= lease_notices(l@).subrange(0, i as int).push(
            Notice::Lease(l@[i as int]),
        ));
        assert(out@ =~= old(out)@ + lease_notices(l@).subrange(0, i + 1));
        i += 1;
    }
    assert(lease_notices(l@).subrange(0, n as int) =~= lease_notices(l@));
}

/// The message of a notification.
pub open spec fn notice_frame(n: Notice) -> Seq<u8> {
    match n {
        Notice::Lease(b) => break_frame(
            lease_break_body(b.key@, b.old_state, b.new_state, b.epoch, LEASE_ACK_REQUIRED),
        ),
        Notice::Oplock(h) => break_frame(oplock_break_body(h.file_id@, OPLOCK_NONE)),
    }
}

/// The connection that a notification goes to.
pub open spec fn notice_conn(n: Notice) -> u64 {
    match n {
        Notice::Lease(b) => b.conn,
        Notice::Oplock(h) => h.conn,
    }
}

/// The key material of a notification.
pub open spec fn notice_crypto(n: Notice) -> BreakCrypto {
    match n {
        Notice::Lease(b) => b.crypto,
        Notice::Oplock(h) => h.crypto,
    }
}

/// The message of a notification with the connection it goes to and its key
/// material.
pub fn notice_message(n: &Notice) -> (r: (u64, BreakCrypto, Vec<u8>))
    ensures
        r.0 == notice_conn(*n),
        r.1 == notice_crypto(*n),
        r.2@ == notice_frame(*n),
{
    match n {
        Notice::Lease(b) => {
            let body = build_lease_break(&b.key, b.old_state, b.new_state, b.epoch, LEASE_ACK_REQUIRED);
            (b.conn, b.crypto, build_break_frame(body.as_slice()))
        },
        Notice::Oplock(h) => {
            let body = build_oplock_break(&h.file_id, OPLOCK_NONE);
            (h.conn, h.crypto, build_break_frame(body.as_slice()))
        },
    }
}

/// A break notification as it is sent: sealed where the session is, never signed.
pub open spec fn protected_break(k: BreakCrypto, random: Seq<u8>, f: Seq<u8>) -> Seq<u8> {
    match (k.enc_keys, k.cipher) {
        (Some(keys), Some(cipher)) => if k.encrypt {
            sealed_frame(k.session_id, keys.1@, cipher, random, f)
        } else {
            f
        },
        _ => f,
    }
}

/// Protects a break notification.
pub fn finalize_break(k: &BreakCrypto, random: &[u8; 16], f: Vec<u8>) -> (r: Vec<u8>)
    requires
        f@.len() <= MAX_SEALED,
    ensures
        r@ == protected_break(*k, random@, f@),
{
    if !k.encrypt {
        return f;
    }
    match (k.enc_keys, k.cipher) {
        (Some(keys), Some(cipher)) => seal_pdu(k.session_id, &keys.1, cipher, random, f.as_slice()),
        _ => f,
    }
}

/// The key material of a connection for later break notifications.
pub open spec fn crypto_of(c: &Smb2Conn, signed: bool) -> BreakCrypto {
    BreakCrypto {
        dialect: c.dialect,
        signing_key: c.sign_key(),
        enc_keys: c.enc_keys,
        cipher: c.cipher,
        session_id: c.session_id,
        encrypt: c.encrypt_data || c.peer_encrypts,
        signed,
    }
}

/// Takes the key material of a connection.
pub fn break_crypto(conn: &Smb2Conn, signed: bool) -> (k: BreakCrypto)
    ensures
        k == crypto_of(conn, signed),
{
    BreakCrypto {
        dialect: conn.dialect,
        signing_key: conn.key_for_signing(),
        enc_keys: conn.enc_keys,
        cipher: conn.cipher,
        session_id: conn.session_id,
        encrypt: conn.encrypt_data || conn.peer_encrypts,
        signed,
    }
}

/// Whether the leases on a path were broken by a change.
pub open spec fn leases_broken(
    t0: &LeaseTable,
    t1: &LeaseTable,
    path: Seq<char>,
    owner: LockOwner,
    key: Option<[u8; 16]>,
    clear: u32,
) -> bool {
    &&& t1.wf()
    &&& t1.holders(path) == after_conflict(t0.holders(path), owner, key, clear)
    &&& forall|p: Seq<char>| p != path ==> #[trigger] t1.holders(p) == t0.holders(p)
}

/// The lease key that an open of the connection joined.
pub open spec fn joined_key(c: &Smb2Conn, fid: [u8; 16]) -> Option<[u8; 16]> {
    if c.lease_keys@.contains_key(fid) {
        Some(c.lease_keys@[fid])
    } else {
        None
    }
}

fn find_joined_key(conn: &Smb2Conn, fid: &[u8; 16]) -> (r: Option<[u8; 16]>)
    requires
        conn.lease_keys.wf(),
    ensures
        r == joined_key(conn, *fid),
{
    match conn.lease_keys.get(fid) {
        Some(k) => Some(*k),
        None => None,
    }
}

/// Breaks the caching bits `clear` of the leases on a directory whose contents
/// change through the open `fid`. The open's own lease is spared.
pub fn break_dir_lease(leases: &mut LeaseTable, conn: &Smb2Conn, dir: &str, fid: [u8; 16], clear: u32) -> (r: Vec<
    LeaseBreak,
>)
    requires
        old(leases).wf(),
        conn.lease_keys.wf(),
    ensures
        leases_broken(old(leases), final(leases), dir@, (conn.session_id, fid), joined_key(conn, fid), clear),
        r@ == notices(old(leases).holders(dir@), (conn.session_id, fid), joined_key(conn, fid), clear),
{
    let key = find_joined_key(conn, &fid);
    leases.break_conflict(dir, (conn.session_id, fid), key, clear)
}

// ---------------- leases and oplocks ----------------

/// The caching bits of a lease that is asked for: a directory has no write
/// caching.
pub open spec fn requested_state(l: LeaseReq, is_dir: bool) -> u32 {
    l.state & if is_dir {
        LEASE_RH
    } else {
        LEASE_RWH
    }
}

/// The first holder of a path under a lease key.
pub open spec fn sharer(t: &LeaseTable, path: Seq<char>, key: [u8; 16]) -> Option<int> {
    first_where(t.holders(path), |h: LeaseHolder| h.key == key)
}

/// The holder that a granted lease is recorded as.
pub open spec fn new_holder(c: &Smb2Conn, fid: [u8; 16], l: LeaseReq, signed: bool, state: u32, epoch: u16) -> LeaseHolder {
    LeaseHolder {
        key: l.key,
        state,
        epoch,
        v2: l.v2,
        session_id: c.session_id,
        file_id: fid,
        conn: c.id,
        crypto: crypto_of(c, signed),
        client_guid: c.client_guid,
        breaking: false,
        break_to: state,
    }
}

/// Whether a holder was added to a path.
pub open spec fn lease_recorded(t0: &LeaseTable, t1: &LeaseTable, path: Seq<char>, h: LeaseHolder) -> bool {
    &&& t1.wf()
    &&& t1.holders(path) == if first_where(t0.holders(path), |x: LeaseHolder| x.key == h.key && x.file_id == h.file_id) is None {
        t0.holders(path).push(h)
    } else {
        t0.holders(path)
    }
    &&& forall|p: Seq<char>| p != path ==> #[trigger] t1.holders(p) == t0.holders(p)
}

/// Whether a lease is arbitrated as it should. An open under a key that is held
/// shares its state; the only opener gets what it asks for; any other opener
/// breaks write caching and gets read and handle caching at most.
pub open spec fn lease_arbitrated(
    t0: &LeaseTable,
    t1: &LeaseTable,
    c: &Smb2Conn,
    path: Seq<char>,
    fid: [u8; 16],
    l: LeaseReq,
    signed: bool,
    is_dir: bool,
    breaks: Seq<LeaseBreak>,
    r: LeaseResp,
) -> bool {
    let want = requested_state(l, is_dir);
    match sharer(t0, path, l.key) {
        Some(i) => {
            let h = t0.holders(path)[i];
            &&& r == (LeaseResp { key: l.key, state: h.state, flags: 0, epoch: h.epoch, v2: h.v2 })
            &&& t1 == t0
            &&& breaks.len() == 0
        },
        None => if t0.holders(path).len() > 0 {
            let got = want & LEASE_RH;
            &&& r == (LeaseResp { key: l.key, state: got, flags: 0, epoch: l.epoch, v2: l.v2 })
            &&& breaks == notices(t0.holders(path), (c.session_id, fid), Some(l.key), LEASE_WRITE)
            &&& exists|m: LeaseTable|
                #[trigger] leases_broken(t0, &m, path, (c.session_id, fid), Some(l.key), LEASE_WRITE) && lease_recorded(
                    &m,
                    t1,
                    path,
                    new_holder(c, fid, l, signed, got, l.epoch),
                )
        } else {
            let epoch = if l.v2 {
                l.epoch.wrapping_add(1)
            } else {
                0
            };
            &&& r == (LeaseResp { key: l.key, state: want, flags: 0, epoch, v2: l.v2 })
            &&& breaks.len() == 0
            &&& lease_recorded(t0, t1, path, new_holder(c, fid, l, signed, want, epoch))
        },
    }
}

fn make_holder(conn: &Smb2Conn, fid: [u8; 16], l: &LeaseReq, signed: bool, state: u32, epoch: u16) -> (h: LeaseHolder)
    ensures
        h == new_holder(conn, fid, *l, signed, state, epoch),
{
    LeaseHolder {
        key: l.key,
        state,
        epoch,
        v2: l.v2,
        session_id: conn.session_id,
        file_id: fid,
        conn: conn.id,
        crypto: break_crypto(conn, signed),
        client_guid: conn.client_guid,
        breaking: false,
        break_to: state,
    }
}

/// Arbitrates a lease that a create asks for.
pub fn arbitrate_lease(
    leases: &mut LeaseTable,
    conn: &Smb2Conn,
    path: &str,
    fid: [u8; 16],
    l: &LeaseReq,
    signed: bool,
    is_dir: bool,
) -> (r: (LeaseResp, Vec<LeaseBreak>))
    requires
        old(leases).wf(),
    ensures
        final(leases).wf(),
        lease_arbitrated(old(leases), final(leases), conn, path@, fid, *l, signed, is_dir, r.1@, r.0),
{
    let want: u32 = l.state & if is_dir {
        LEASE_RH
    } else {
        LEASE_RWH
    };
    match leases.peek_key(path, l.key) {
        Some(h) => return (LeaseResp { key: l.key, state: h.0, flags: 0, epoch: h.1, v2: h.2 }, Vec::new()),
        None => {},
    }
    if leases.has_holders(path) {
        let got: u32 = want & LEASE_RH;
        let breaks = leases.break_conflict(path, (conn.session_id, fid), Some(l.key), LEASE_WRITE);
        let ghost m = *leases;
        let h = make_holder(conn, fid, l, signed, got, l.epoch);
        let _ = leases.grant(path, h);
        assert(leases_broken(old(leases), &m, path@, (conn.session_id, fid), Some(l.key), LEASE_WRITE));
        assert(lease_recorded(&m, leases, path@, h));
        (LeaseResp { key: l.key, state: got, flags: 0, epoch: l.epoch, v2: l.v2 }, breaks)
    } else {
        let epoch: u16 = if l.v2 {
            l.epoch.wrapping_add(1)
        } else {
            0
        };
        let h = make_holder(conn, fid, l, signed, want, epoch);
        let _ = leases.grant(path, h);
        (LeaseResp { key: l.key, state: want, flags: 0, epoch, v2: l.v2 }, Vec::new())
    }
}

/// A granted lease never has more caching bits than were asked for, unless it
/// shares a state that was granted before; and a second client never gets write
/// caching.
pub proof fn law_lease_grant_bounded(
    t0: &LeaseTable,
    t1: &LeaseTable,
    c: &Smb2Conn,
    path: Seq<char>,
    fid: [u8; 16],
    l: LeaseReq,
    signed: bool,
    is_dir: bool,
    breaks: Seq<LeaseBreak>,
    r: LeaseResp,
)
    requires
        lease_arbitrated(t0, t1, c, path, fid, l, signed, is_dir, breaks, r),
        sharer(t0, path, l.key) is None,
    ensures
        r.state & !l.state == 0,
        t0.holders(path).len() > 0 ==> r.state & LEASE_WRITE == 0,
        is_dir ==> r.state & LEASE_WRITE == 0,
{
    let s = l.state;
    assert((s & 7) & !s == 0 && (s & 3) & !s == 0 && ((s & 7) & 3) & !s == 0 && ((s & 3) & 3) & !s == 0) by (bit_vector);
    assert(((s & 7) & 3) & 4 == 0 && ((s & 3) & 3) & 4 == 0 && (s & 3) & 4 == 0) by (bit_vector);
}

// ---------------- which opens are let through ----------------

/// Whether an open was dropped from the share modes of a path.
pub open spec fn mode_closed(t0: &ShareModeTable, t1: &ShareModeTable, path: Seq<char>, owner: LockOwner) -> bool {
    &&& t1.wf()
    &&& t1.opens_of(path) == closed_in(t0.opens_of(path), owner)
    &&& forall|p: Seq<char>| p != path ==> #[trigger] t1.opens_of(p) == t0.opens_of(p)
}

/// Whether every lock of an open was dropped.
pub open spec fn locks_dropped(t0: &LockManager, t1: &LockManager, owner: LockOwner) -> bool {
    &&& t1.wf()
    &&& forall|p: Seq<char>| #[trigger] t1.locks(p) == t0.locks(p).filter(|h: HeldLock| h.owner != owner)
}

/// Whether the lease of an open on a path was dropped.
pub open spec fn lease_dropped(t0: &LeaseTable, t1: &LeaseTable, path: Seq<char>, owner: LockOwner) -> bool {
    &&& t1.wf()
    &&& t1.holders(path) == (match first_where(
        t0.holders(path),
        |h: LeaseHolder| (h.session_id, h.file_id) == owner,
    ) {
        Some(i) => t0.holders(path).remove(i),
        None => t0.holders(path),
    })
    &&& forall|p: Seq<char>| p != path ==> #[trigger] t1.holders(p) == t0.holders(p)
}

/// The recorded open that an application instance takes over from.
pub open spec fn rival(t: &AppInstanceTable, id: [u8; 16], path: Seq<char>, client_guid: [u8; 16]) -> Option<int> {
    first_where(t.opens(), |o: AppOpen| is_rival(o, id, path, client_guid))
}

/// Whether an open is held against the application instances: a rival with a newer
/// version keeps it out, any other rival is closed by force and loses its share
/// mode, oplock, locks and lease.
pub open spec fn instance_resolved(
    s0: &Server2,
    s1: &Server2,
    c: &Smb2Conn,
    path: Seq<char>,
    ctx: CreateContexts,
    refused: bool,
) -> bool {
    match ctx.app_instance_id {
        None => !refused && *s1 == *s0,
        Some(id) => match rival(&s0.app_instances, id, path, c.client_guid) {
            None => {
                &&& !refused
                &&& *s1 == (Server2 { app_instances: s1.app_instances, ..*s0 })
                &&& s1.app_instances.opens() == s0.app_instances.opens()
                &&& s1.app_instances.forced() == s0.app_instances.forced()
            },
            Some(i) => {
                let o = s0.app_instances.opens()[i];
                if version_keeps_out(o.version, c.dialect == Some(DIALECT_311), ctx.app_instance_version) {
                    &&& refused
                    &&& *s1 == (Server2 { app_instances: s1.app_instances, ..*s0 })
                    &&& s1.app_instances.opens() == s0.app_instances.opens()
                    &&& s1.app_instances.forced() == s0.app_instances.forced()
                } else {
                    &&& !refused
                    &&& *s1 == (Server2 {
                        app_instances: s1.app_instances,
                        share_modes: s1.share_modes,
                        oplocks: s1.oplocks,
                        locks: s1.locks,
                        leases: s1.leases,
                        ..*s0
                    })
                    &&& s1.app_instances.opens() == s0.app_instances.opens().remove(i)
                    &&& s1.app_instances.forced() == s0.app_instances.forced().insert(o.owner)
                    &&& mode_closed(&s0.share_modes, &s1.share_modes, o.path@, o.owner)
                    &&& s1.oplocks.wf()
                    &&& s1.oplocks.holders() == s0.oplocks.holders().remove(o.path@)
                    &&& locks_dropped(&s0.locks, &s1.locks, o.owner)
                    &&& lease_dropped(&s0.leases, &s1.leases, o.path@, o.owner)
                }
            },
        },
    }
}

fn resolve_instance(server: &mut Server2, conn: &Smb2Conn, path: &str, ctx: &CreateContexts) -> (refused: bool)
    requires
        old(server).wf(),
    ensures
        instance_resolved(old(server), final(server), conn, path@, *ctx, refused),
        final(server).wf(),
{
    let id = match ctx.app_instance_id {
        Some(id) => id,
        None => return false,
    };
    let newest: bool = match conn.dialect {
        Some(d) => d == DIALECT_311,
        None => false,
    };
    match server.app_instances.resolve(id, path, conn.client_guid, newest, ctx.app_instance_version) {
        AppInstanceMatch::NoMatch => false,
        AppInstanceMatch::Reject => true,
        AppInstanceMatch::ForceClose { path: held, owner } => {
            server.share_modes.close(held.as_str(), owner);
            let _ = server.oplocks.take(held.as_str());
            server.locks.release_owner(owner);
            let _ = server.leases.release(held.as_str(), owner);
            false
        },
    }
}

/// Whether an open was recorded among the share modes of a path, or refused as it
/// conflicts with one of them.
pub open spec fn mode_opened(
    t0: &ShareModeTable,
    t1: &ShareModeTable,
    path: Seq<char>,
    access: u32,
    share: u32,
    owner: LockOwner,
    ok: bool,
) -> bool {
    &&& t1.wf()
    &&& ok == compatible_with_all(t0.opens_of(path), access, share)
    &&& t1.opens_of(path) == if ok {
        t0.opens_of(path).push((OpenMode { access, share, owner }))
    } else {
        t0.opens_of(path)
    }
    &&& forall|p: Seq<char>| p != path ==> #[trigger] t1.opens_of(p) == t0.opens_of(p)
}

// ---------------- what an open is granted ----------------

/// The oplock level, the lease and the notifications that an open leads to.
pub struct Caching {
    pub level: u8,
    pub lease: Option<LeaseResp>,
    pub notices: Vec<Notice>,
}

/// Whether a create asks for a lease.
pub open spec fn asks_lease(req: CreateReq) -> bool {
    req.oplock_level == OPLOCK_LEASE && req.contexts.lease is Some
}

/// Whether a create asks for an oplock.
pub open spec fn asks_oplock(req: CreateReq) -> bool {
    ||| req.oplock_level == OPLOCK_LEVEL_II
    ||| req.oplock_level == OPLOCK_EXCLUSIVE
    ||| req.oplock_level == OPLOCK_BATCH
    ||| req.oplock_level == OPLOCK_LEASE && req.contexts.lease is None
}

/// Whether directories can be leased.
pub open spec fn leases_directories(dialect: Option<u16>) -> bool {
    dialect matches Some(d) && d >= DIALECT_300
}

/// Whether caching is granted as it should: a lease where one is asked for and can
/// be had; else an exclusive oplock to the only opener that asks for one. An open
/// beside others breaks the oplock that is held.
pub open spec fn caching_granted(
    s0: &Server2,
    s1: &Server2,
    c0: &Smb2Conn,
    c1: &Smb2Conn,
    path: Seq<char>,
    is_dir: bool,
    fid: [u8; 16],
    req: CreateReq,
    signed: bool,
    k: Caching,
) -> bool {
    if asks_lease(req) && (!is_dir || leases_directories(c0.dialect)) {
        let l = req.contexts.lease->0;
        &&& k.level == OPLOCK_LEASE
        &&& k.lease is Some
        &&& *s1 == (Server2 { leases: s1.leases, ..*s0 })
        &&& exists|b: Seq<LeaseBreak>|
            #[trigger] lease_notices(b) == k.notices@ && lease_arbitrated(
                &s0.leases,
                &s1.leases,
                c0,
                path,
                fid,
                l,
                signed,
                is_dir,
                b,
                k.lease->0,
            )
        &&& *c1 == (Smb2Conn { lease_keys: c1.lease_keys, ..*c0 })
        &&& c1.lease_keys.wf()
        &&& c1.lease_keys@ == c0.lease_keys@.insert(fid, l.key)
    } else {
        &&& k.lease is None
        &&& *c1 == *c0
        &&& if is_dir {
            k.level == OPLOCK_NONE && k.notices@.len() == 0 && *s1 == *s0
        } else {
            &&& *s1 == (Server2 { oplocks: s1.oplocks, ..*s0 })
            &&& oplock_arbitrated(
                &s0.oplocks,
                &s1.oplocks,
                s0.share_modes.opens_of(path).len() > 1,
                c0,
                path,
                fid,
                asks_oplock(req),
                signed,
                k.level,
                k.notices@,
            )
        }
    }
}

/// Whether an oplock is arbitrated as it should.
pub open spec fn oplock_arbitrated(
    t0: &OplockTable,
    t1: &OplockTable,
    shared: bool,
    c: &Smb2Conn,
    path: Seq<char>,
    fid: [u8; 16],
    asked: bool,
    signed: bool,
    level: u8,
    told: Seq<Notice>,
) -> bool {
    let held = t0.holders();
    &&& t1.wf()
    &&& if shared {
        &&& level == OPLOCK_NONE
        &&& t1.holders() == held.remove(path)
        &&& told == if held.contains_key(path) {
            seq![Notice::Oplock(held[path])]
        } else {
            Seq::empty()
        }
    } else if asked && !held.contains_key(path) {
        &&& level == OPLOCK_EXCLUSIVE
        &&& told.len() == 0
        &&& t1.holders() == held.insert(
            path,
            (OplockHolder { session_id: c.session_id, file_id: fid, conn: c.id, crypto: crypto_of(c, signed) }),
        )
    } else {
        level == OPLOCK_NONE && told.len() == 0 && t1.holders() == held
    }
}

fn arbitrate_oplock(
    oplocks: &mut OplockTable,
    shared: bool,
    conn: &Smb2Conn,
    path: &str,
    fid: [u8; 16],
    asked: bool,
    signed: bool,
) -> (r: (u8, Vec<Notice>))
    requires
        old(oplocks).wf(),
    ensures
        oplock_arbitrated(old(oplocks), final(oplocks), shared, conn, path@, fid, asked, signed, r.0, r.1@),
{
    let mut told: Vec<Notice> = Vec::new();
    if shared {
        match oplocks.take(path) {
            Some(h) => {
                told.push(Notice::Oplock(h));
                assert(told@ =~= seq![Notice::Oplock(h)]);
            },
            None => {
                assert(told@ =~= Seq::<Notice>::empty());
            },
        }
        return (OPLOCK_NONE, told);
    }
    if asked {
        let holder = OplockHolder {
            session_id: conn.session_id,
            file_id: fid,
            conn: conn.id,
            crypto: break_crypto(conn, signed),
        };
        if oplocks.grant(path, holder) {
            return (OPLOCK_EXCLUSIVE, told);
        }
    }
    (OPLOCK_NONE, told)
}

fn oplock_is_asked(req: &CreateReq) -> (r: bool)
    ensures
        r == asks_oplock(*req),
{
    req.oplock_level == OPLOCK_LEVEL_II || req.oplock_level == OPLOCK_EXCLUSIVE || req.oplock_level == OPLOCK_BATCH
        || (req.oplock_level == OPLOCK_LEASE && req.contexts.lease.is_none())
}

#[verifier::rlimit(40)]
#[verifier::spinoff_prover]
fn grant_caching(
    server: &mut Server2,
    conn: &mut Smb2Conn,
    path: &str,
    is_dir: bool,
    fid: [u8; 16],
    req: &CreateReq,
    signed: bool,
) -> (k: Caching)
    requires
        old(server).wf(),
        old(conn).wf(),
    ensures
        caching_granted(old(server), final(server), old(conn), final(conn), path@, is_dir, fid, *req, signed, k),
        final(server).wf(),
        final(conn).wf(),
{
    let dir_leasing: bool = match conn.dialect {
        Some(d) => d >= DIALECT_300,
        None => false,
    };
    if req.oplock_level == OPLOCK_LEASE && (!is_dir || dir_leasing) {
        match req.contexts.lease {
            Some(l) => {
                let (lease, breaks) = arbitrate_lease(&mut server.leases, conn, path, fid, &l, signed, is_dir);
                let mut notices: Vec<Notice> = Vec::new();
                add_notices(&mut notices, &breaks);
                assert(notices@ =~= lease_notices(breaks@));
                conn.lease_keys.insert(fid, l.key);
                return Caching { level: OPLOCK_LEASE, lease: Some(lease), notices };
            },
            None => {},
        }
    }
    if is_dir {
        return Caching { level: OPLOCK_NONE, lease: None, notices: Vec::new() };
    }
    let shared: bool = server.share_modes.open_count(path) > 1;
    let asked: bool = oplock_is_asked(req);
    let (level, notices) = arbitrate_oplock(&mut server.oplocks, shared, conn, path, fid, asked, signed);
    Caching { level, lease: None, notices }
}

/// An exclusive oplock goes to the only opener of a file.
pub proof fn law_oplock_is_exclusive(
    s0: &Server2,
    s1: &Server2,
    c0: &Smb2Conn,
    c1: &Smb2Conn,
    path: Seq<char>,
    is_dir: bool,
    fid: [u8; 16],
    req: CreateReq,
    signed: bool,
    k: Caching,
)
    requires
        caching_granted(s0, s1, c0, c1, path, is_dir, fid, req, signed, k),
        k.level == OPLOCK_EXCLUSIVE,
    ensures
        !is_dir,
        s0.share_modes.opens_of(path).len() <= 1,
        !s0.oplocks.holders().contains_key(path),
        oplock_owner(s1.oplocks.holders()[path]) == (c0.session_id, fid),
{
}

// ---------------- durable handles ----------------

/// Timeout of a durable handle whose client asks for none, in milliseconds.
pub const DEFAULT_TIMEOUT_MS: u32 = 60_000;

/// Whether an open can be durable: a batch oplock or a lease with handle caching is
/// asked for, or the handle is persistent on a continuously available share.
pub open spec fn can_be_durable(req: CreateReq, lease_state: Option<u32>, is_ca: bool) -> bool {
    ||| is_ca && (req.contexts.durable matches Some(DurableReq::RequestV2 { timeout, flags, create_guid }) && flags
        & DHANDLE_FLAG_PERSISTENT != 0)
    ||| lease_state matches Some(st) && st & LEASE_HANDLE != 0
    ||| lease_state is None && req.oplock_level == OPLOCK_BATCH
}

/// Whether `e` is the durable handle of an open.
pub open spec fn durable_of(
    e: DurableEntry,
    c: &Smb2Conn,
    req: CreateReq,
    fid: [u8; 16],
    rel: Seq<char>,
    is_dir: bool,
    lease_state: Option<u32>,
    guid: Seq<u8>,
    persistent: bool,
    timeout: u32,
) -> bool {
    &&& e.persistent_id == fid
    &&& e.create_guid@ == guid
    &&& e.rel@ == rel
    &&& e.is_dir == is_dir
    &&& e.access == req.desired_access
    &&& e.options == req.options
    &&& e.session_id == c.session_id
    &&& e.owner_user@ == c.user@
    &&& e.client_guid == c.client_guid
    &&& e.lease_key == (match req.contexts.lease {
        Some(l) => Some(l.key),
        None => None,
    })
    &&& e.lease_state == (match lease_state {
        Some(st) => st,
        None => 0,
    })
    &&& e.persistent == persistent
    &&& e.timeout == timeout
}

/// Whether a durable handle is granted as it should.
pub open spec fn durable_granted(
    c0: &Smb2Conn,
    c1: &Smb2Conn,
    req: CreateReq,
    fid: [u8; 16],
    rel: Seq<char>,
    is_dir: bool,
    lease_state: Option<u32>,
    is_ca: bool,
    r: Option<DurableGrant>,
) -> bool {
    let added = |guid: Seq<u8>, persistent: bool, timeout: u32| {
        &&& c1.durable.wf()
        &&& *c1 == (Smb2Conn { durable: c1.durable, ..*c0 })
        &&& c1.durable@ == c0.durable@.insert(fid, c1.durable@[fid])
        &&& c1.durable@.contains_key(fid)
        &&& durable_of(c1.durable@[fid], c0, req, fid, rel, is_dir, lease_state, guid, persistent, timeout)
    };
    if !can_be_durable(req, lease_state, is_ca) {
        r is None && *c1 == *c0
    } else {
        match req.contexts.durable {
            Some(DurableReq::RequestV2 { timeout, flags, create_guid }) => {
                let persistent = is_ca && flags & DHANDLE_FLAG_PERSISTENT != 0;
                let to = if timeout == 0 {
                    DEFAULT_TIMEOUT_MS
                } else {
                    timeout
                };
                &&& r == Some(DurableGrant::V2 {
                    timeout: to,
                    flags: if persistent {
                        DHANDLE_FLAG_PERSISTENT
                    } else {
                        0
                    },
                })
                &&& added(create_guid@, persistent, to)
            },
            Some(DurableReq::RequestV1) => {
                &&& r == Some(DurableGrant::V1)
                &&& added(crate::bytes::zeros(16), false, DEFAULT_TIMEOUT_MS)
            },
            _ => r is None && *c1 == *c0,
        }
    }
}

fn make_durable(
    conn: &Smb2Conn,
    req: &CreateReq,
    fid: [u8; 16],
    rel: &str,
    is_dir: bool,
    lease_state: Option<u32>,
    guid: [u8; 16],
    persistent: bool,
    timeout: u32,
) -> (e: DurableEntry)
    ensures
        durable_of(e, conn, *req, fid, rel@, is_dir, lease_state, guid@, persistent, timeout),
{
    DurableEntry {
        persistent_id: fid,
        create_guid: guid,
        rel: rel.to_owned(),
        is_dir,
        access: req.desired_access,
        options: req.options,
        session_id: conn.session_id,
        owner_user: conn.user.clone(),
        client_guid: conn.client_guid,
        lease_key: match req.contexts.lease {
            Some(l) => Some(l.key),
            None => None,
        },
        lease_state: match lease_state {
            Some(st) => st,
            None => 0,
        },
        persistent,
        timeout,
    }
}

fn may_be_durable(req: &CreateReq, lease_state: Option<u32>, is_ca: bool) -> (r: bool)
    ensures
        r == can_be_durable(*req, lease_state, is_ca),
{
    if is_ca {
        match req.contexts.durable {
            Some(DurableReq::RequestV2 { timeout: _, flags, create_guid: _ }) => {
                if flags & DHANDLE_FLAG_PERSISTENT != 0 {
                    return true;
                }
            },
            _ => {},
        }
    }
    match lease_state {
        Some(st) => st & LEASE_HANDLE != 0,
        None => req.oplock_level == OPLOCK_BATCH,
    }
}

/// Grants a durable handle where the client asks for one and the open can be
/// durable, and records it on the connection.
pub fn grant_durable(
    conn: &mut Smb2Conn,
    req: &CreateReq,
    fid: [u8; 16],
    rel: &str,
    is_dir: bool,
    lease_state: Option<u32>,
    is_ca: bool,
) -> (r: Option<DurableGrant>)
    requires
        old(conn).durable.wf(),
    ensures
        durable_granted(old(conn), final(conn), *req, fid, rel@, is_dir, lease_state, is_ca, r),
        final(conn).durable.wf(),
{
    if !may_be_durable(req, lease_state, is_ca) {
        return None;
    }
    match req.contexts.durable {
        Some(DurableReq::RequestV2 { timeout, flags, create_guid }) => {
            let persistent: bool = is_ca && flags & DHANDLE_FLAG_PERSISTENT != 0;
            let to: u32 = if timeout == 0 {
                DEFAULT_TIMEOUT_MS
            } else {
                timeout
            };
            let e = make_durable(conn, req, fid, rel, is_dir, lease_state, create_guid, persistent, to);
            conn.durable.insert(fid, e);
            Some(
                DurableGrant::V2 {
                    timeout: to,
                    flags: if persistent {
                        DHANDLE_FLAG_PERSISTENT
                    } else {
                        0
                    },
                },
            )
        },
        Some(DurableReq::RequestV1) => {
            let zero: [u8; 16] = [0; 16];
            assert(zero@ =~= crate::bytes::zeros(16));
            let e = make_durable(conn, req, fid, rel, is_dir, lease_state, zero, false, DEFAULT_TIMEOUT_MS);
            conn.durable.insert(fid, e);
            Some(DurableGrant::V1)
        },
        _ => None,
    }
}

/// Only a continuously available share grants persistent handles.
pub proof fn law_persistent_needs_ca(
    c0: &Smb2Conn,
    c1: &Smb2Conn,
    req: CreateReq,
    fid: [u8; 16],
    rel: Seq<char>,
    is_dir: bool,
    lease_state: Option<u32>,
    is_ca: bool,
    r: Option<DurableGrant>,
)
    requires
        durable_granted(c0, c1, req, fid, rel, is_dir, lease_state, is_ca, r),
        !is_ca,
        r is Some,
    ensures
        !c1.durable@[fid].persistent,
        lease_state matches Some(st) ==> st & LEASE_HANDLE != 0,
        lease_state is None ==> req.oplock_level == OPLOCK_BATCH,
{
}

// ---------------- the whole of a create ----------------

/// What opening the path gave.
pub enum OpenResult {
    /// The open file, its metadata and what was done: 1 opened, 2 created.
    Opened(OpenFile, FileMeta, u32),
    /// The path led to a symbolic link; the body of the error that says so.
    Symlink(Vec<u8>),
    Failed(VfsError),
}

/// The file was created by the open.
pub const ACTION_CREATED: u32 = 2;

/// The file was there before.
pub const ACTION_OPENED: u32 = 1;

/// How a create ends.
pub struct CreateDone {
    /// The body of the response, or the error.
    pub result: Result<Vec<u8>, Status>,
    /// An open file that is to be closed again.
    pub close: Option<OpenFile>,
    /// Notifications that are owed to other clients.
    pub notices: Vec<Notice>,
    /// The answer waits for the holders of the broken leases.
    pub await_ack: bool,
}

/// The open with the wish to delete it on close.
pub open spec fn marked_open(o: OpenFile, req: CreateReq) -> OpenFile {
    OpenFile { delete_on_close: o.delete_on_close || req.options & OPT_DELETE_ON_CLOSE != 0, ..o }
}

/// Whether an open is installed on its connection and recorded for its application
/// instance.
pub open spec fn installed(
    s0: &Server2,
    s1: &Server2,
    c0: &Smb2Conn,
    c1: &Smb2Conn,
    path: Seq<char>,
    fid: [u8; 16],
    o: OpenFile,
    ctx: CreateContexts,
) -> bool {
    &&& c1.handles.wf()
    &&& c1.searches.wf()
    &&& c1.handles@ == c0.handles@.insert(fid, o)
    &&& c1.searches@ == c0.searches@.remove(fid)
    &&& *c1 == (Smb2Conn { handles: c1.handles, searches: c1.searches, chain_fid: Some(fid), ..*c0 })
    &&& *s1 == (Server2 { app_instances: s1.app_instances, ..*s0 })
    &&& s1.app_instances.forced() == s0.app_instances.forced()
    &&& match ctx.app_instance_id {
        None => s1.app_instances.opens() == s0.app_instances.opens(),
        Some(id) => {
            let l = s1.app_instances.opens();
            &&& l.len() == s0.app_instances.opens().len() + 1
            &&& l.drop_last() == s0.app_instances.opens()
            &&& l.last().app_instance_id == id
            &&& l.last().path@ == path
            &&& l.last().client_guid == c0.client_guid
            &&& l.last().owner == (c0.session_id, fid)
            &&& l.last().version == ctx.app_instance_version
        },
    }
}

fn install(server: &mut Server2, conn: &mut Smb2Conn, path: &str, fid: [u8; 16], o: OpenFile, ctx: &CreateContexts)
    requires
        old(server).wf(),
        old(conn).wf(),
    ensures
        installed(old(server), final(server), old(conn), final(conn), path@, fid, o, *ctx),
        final(server).wf(),
        final(conn).wf(),
{
    let _ = conn.searches.remove(&fid);
    conn.handles.insert(fid, o);
    conn.chain_fid = Some(fid);
    match ctx.app_instance_id {
        Some(id) => {
            let ghost before = server.app_instances.opens();
            server.app_instances.register(
                id,
                path.to_owned(),
                conn.client_guid,
                (conn.session_id, fid),
                ctx.app_instance_version,
            );
            assert(server.app_instances.opens().drop_last() =~= before);
        },
        None => {},
    }
}

/// Whether an open has broken the leases it conflicts with: one without a lease
/// breaks write caching on its file, and a new file breaks the leases on the
/// directory it lies in.
pub open spec fn conflicts_broken(
    t0: &LeaseTable,
    m: &LeaseTable,
    t1: &LeaseTable,
    c: &Smb2Conn,
    path: Seq<char>,
    is_dir: bool,
    fid: [u8; 16],
    req: CreateReq,
    action: u32,
    told: Seq<Notice>,
) -> bool {
    let owner = (c.session_id, fid);
    let first = req.contexts.lease is None && !is_dir;
    let second = action == ACTION_CREATED;
    &&& if first {
        leases_broken(t0, m, path, owner, None, LEASE_WRITE)
    } else {
        *m == *t0
    }
    &&& if second {
        leases_broken(m, t1, parent_of(path), owner, joined_key(c, fid), LEASE_RH)
    } else {
        *t1 == *m
    }
    &&& told == (if first {
        lease_notices(notices(t0.holders(path), owner, None, LEASE_WRITE))
    } else {
        Seq::empty()
    }) + (if second {
        lease_notices(notices(m.holders(parent_of(path)), owner, joined_key(c, fid), LEASE_RH))
    } else {
        Seq::empty()
    })
}

fn break_conflicts(
    leases: &mut LeaseTable,
    conn: &Smb2Conn,
    path: &str,
    is_dir: bool,
    fid: [u8; 16],
    req: &CreateReq,
    action: u32,
) -> (r: (Vec<Notice>, Ghost<LeaseTable>))
    requires
        old(leases).wf(),
        conn.lease_keys.wf(),
    ensures
        final(leases).wf(),
        conflicts_broken(old(leases), &r.1@, final(leases), conn, path@, is_dir, fid, *req, action, r.0@),
{
    let mut told: Vec<Notice> = Vec::new();
    assert(told@ =~= Seq::<Notice>::empty());
    if req.contexts.lease.is_none() && !is_dir {
        let b = leases.break_conflict(path, (conn.session_id, fid), None, LEASE_WRITE);
        add_notices(&mut told, &b);
        assert(told@ =~= lease_notices(b@));
    }
    let ghost m = *leases;
    let ghost first = told@;
    if action == ACTION_CREATED {
        let parent = parent_dir(path);
        let b = break_dir_lease(leases, conn, parent.as_str(), fid, LEASE_RH);
        add_notices(&mut told, &b);
    } else {
        assert(first + Seq::<Notice>::empty() =~= first);
    }
    (told, Ghost(m))
}

/// The states that a create leads through.
pub struct CreateSteps {
    pub fid: [u8; 16],
    pub refused: bool,
    pub ok: bool,
    pub s1: Server2,
    pub s2: Server2,
    pub s3: Server2,
}

/// The states that an open leads through once it is let through.
pub struct ServeSteps {
    pub s4: Server2,
    pub s5: Server2,
    pub c4: Smb2Conn,
    pub c6: Smb2Conn,
    pub m: LeaseTable,
    pub told: Seq<Notice>,
    pub caching: Caching,
    pub grant: Option<DurableGrant>,
}

/// The granted caching bits.
pub open spec fn granted_state(k: Caching) -> Option<u32> {
    match k.lease {
        Some(l) => Some(l.state),
        None => None,
    }
}

/// Whether a create goes through the states `st`.
pub open spec fn created_in_steps(
    st: CreateSteps,
    s0: &Server2,
    s9: &Server2,
    c0: &Smb2Conn,
    c9: &Smb2Conn,
    req: CreateReq,
    rel: Seq<char>,
    signed: bool,
    is_ca: bool,
    o: OpenFile,
    meta: FileMeta,
    action: u32,
    r: CreateDone,
) -> bool {
    let path = o.path@;
    let owner = (c0.session_id, st.fid);
    &&& st.fid@ == counter_id(s0.next_file_id)
    &&& st.s1 == (Server2 { next_file_id: counted(s0.next_file_id), ..*s0 })
    &&& instance_resolved(&st.s1, &st.s2, c0, path, req.contexts, st.refused)
    &&& if st.refused {
        &&& r.result == Err::<Vec<u8>, Status>(Status::FILE_FORCED_CLOSED)
        &&& r.close == Some(o)
        &&& r.notices@.len() == 0
        &&& !r.await_ack
        &&& *s9 == st.s2
        &&& *c9 == *c0
    } else {
        &&& st.s3 == (Server2 { share_modes: st.s3.share_modes, ..st.s2 })
        &&& mode_opened(
            &st.s2.share_modes,
            &st.s3.share_modes,
            path,
            req.desired_access,
            req.share_access,
            owner,
            st.ok,
        )
        &&& if !st.ok {
            &&& r.result == Err::<Vec<u8>, Status>(Status::SHARING_VIOLATION)
            &&& r.close == Some(o)
            &&& *c9 == *c0
            &&& if o.is_dir {
                let key = joined_key(c0, st.fid);
                &&& *s9 == (Server2 { leases: s9.leases, ..st.s3 })
                &&& leases_broken(&st.s3.leases, &s9.leases, path, owner, key, LEASE_HANDLE)
                &&& r.notices@ == lease_notices(notices(st.s3.leases.holders(path), owner, key, LEASE_HANDLE))
                &&& r.await_ack == (r.notices@.len() > 0)
            } else {
                *s9 == st.s3 && r.notices@.len() == 0 && !r.await_ack
            }
        } else {
            exists|t: ServeSteps|
                #[trigger] open_served(
                    t,
                    &st.s3,
                    s9,
                    c0,
                    c9,
                    req,
                    rel,
                    signed,
                    is_ca,
                    st.fid,
                    o,
                    meta,
                    action,
                    r,
                )
        }
    }
}

/// Whether an open that is let through goes through the states `t`.
pub open spec fn open_served(
    t: ServeSteps,
    s3: &Server2,
    s9: &Server2,
    c0: &Smb2Conn,
    c9: &Smb2Conn,
    req: CreateReq,
    rel: Seq<char>,
    signed: bool,
    is_ca: bool,
    fid: [u8; 16],
    o: OpenFile,
    meta: FileMeta,
    action: u32,
    r: CreateDone,
) -> bool {
    let path = o.path@;
    &&& installed(s3, &t.s4, c0, &t.c4, path, fid, o, req.contexts)
    &&& t.s5 == (Server2 { leases: t.s5.leases, ..t.s4 })
    &&& conflicts_broken(&t.s4.leases, &t.m, &t.s5.leases, &t.c4, path, o.is_dir, fid, req, action, t.told)
    &&& caching_granted(&t.s5, s9, &t.c4, &t.c6, path, o.is_dir, fid, req, signed, t.caching)
    &&& durable_granted(&t.c6, c9, req, fid, rel, o.is_dir, granted_state(t.caching), is_ca, t.grant)
    &&& open_answered(t.told, t.caching, t.grant, fid, meta, action, r)
}

/// Whether an open is answered with what it was granted.
pub open spec fn open_answered(
    told: Seq<Notice>,
    k: Caching,
    grant: Option<DurableGrant>,
    fid: [u8; 16],
    meta: FileMeta,
    action: u32,
    r: CreateDone,
) -> bool {
    &&& r.result matches Ok(b)
    &&& b@ == create_body(
        k.level,
        action,
        meta.times,
        meta.alloc,
        meta.eof,
        meta.attrs,
        fid@,
        create_contexts(k.lease, grant),
    )
    &&& r.close is None
    &&& r.notices@ == told + k.notices@
    &&& !r.await_ack
}

/// Whether a create ends as it should.
pub open spec fn created(
    s0: &Server2,
    s9: &Server2,
    c0: &Smb2Conn,
    c9: &Smb2Conn,
    req: CreateReq,
    rel: Seq<char>,
    signed: bool,
    is_ca: bool,
    opened: OpenResult,
    r: CreateDone,
) -> bool {
    match opened {
        OpenResult::Symlink(body) => {
            &&& refused_with(r, Status::STOPPED_ON_SYMLINK)
            &&& *s9 == *s0
            &&& *c9 == (Smb2Conn { symlink_error: Some(body), ..*c0 })
        },
        OpenResult::Failed(e) => refused_with(r, vfs_status(e)) && *s9 == *s0 && *c9 == *c0,
        OpenResult::Opened(o, meta, action) => if req.options & OPT_NON_DIRECTORY_FILE != 0 && o.is_dir {
            refused_with(r, Status::FILE_IS_A_DIRECTORY) && *s9 == *s0 && *c9 == *c0
        } else {
            exists|st: CreateSteps|
                #[trigger] created_in_steps(
                    st,
                    s0,
                    s9,
                    c0,
                    c9,
                    req,
                    rel,
                    signed,
                    is_ca,
                    marked_open(o, req),
                    meta,
                    action,
                    r,
                )
        },
    }
}

/// Whether a create ends with an error and nothing else.
pub open spec fn refused_with(r: CreateDone, s: Status) -> bool {
    r.result == Err::<Vec<u8>, Status>(s) && r.close is None && r.notices@.len() == 0 && !r.await_ack
}

fn refuse_create(s: Status) -> (r: CreateDone)
    ensures
        refused_with(r, s),
{
    CreateDone { result: Err(s), close: None, notices: Vec::new(), await_ack: false }
}

fn answer_open(
    told: Vec<Notice>,
    caching: Caching,
    grant: Option<DurableGrant>,
    fid: [u8; 16],
    meta: &FileMeta,
    action: u32,
) -> (r: CreateDone)
    ensures
        open_answered(told@, caching, grant, fid, *meta, action, r),
{
    let contexts = encode_create_contexts(&caching.lease, grant);
    let body = build_create_resp(
        caching.level,
        action,
        meta.times,
        meta.alloc,
        meta.eof,
        meta.attrs,
        &fid,
        contexts.as_slice(),
    );
    let mut all = told;
    let mut more = caching.notices;
    all.append(&mut more);
    CreateDone { result: Ok(body), close: None, notices: all, await_ack: false }
}

#[verifier::rlimit(60)]
#[verifier::spinoff_prover]
fn serve_open(
    server: &mut Server2,
    conn: &mut Smb2Conn,
    req: &CreateReq,
    rel: &str,
    signed: bool,
    is_ca: bool,
    fid: [u8; 16],
    o: OpenFile,
    meta: FileMeta,
    action: u32,
) -> (r: CreateDone)
    requires
        old(server).wf(),
        old(conn).wf(),
    ensures
        exists|t: ServeSteps|
            #[trigger] open_served(
                t,
                old(server),
                final(server),
                old(conn),
                final(conn),
                *req,
                rel@,
                signed,
                is_ca,
                fid,
                o,
                meta,
                action,
                r,
            ),
        final(server).wf(),
        final(conn).wf(),
{
    let path = o.path.clone();
    let is_dir: bool = o.is_dir;
    install(server, conn, path.as_str(), fid, o, &req.contexts);
    let ghost s4 = *server;
    let ghost c4 = *conn;
    let (told, Ghost(m)) = break_conflicts(&mut server.leases, conn, path.as_str(), is_dir, fid, req, action);
    let ghost s5 = *server;
    let ghost told0 = told@;
    let caching = grant_caching(server, conn, path.as_str(), is_dir, fid, req, signed);
    let ghost k = caching;
    let ghost c6 = *conn;
    let state: Option<u32> = match &caching.lease {
        Some(l) => Some(l.state),
        None => None,
    };
    let grant = grant_durable(conn, req, fid, rel, is_dir, state, is_ca);
    let r = answer_open(told, caching, grant, fid, &meta, action);
    proof {
        let t = ServeSteps { s4, s5, c4, c6, m, told: told0, caching: k, grant };
        assert(open_served(
            t,
            old(server),
            server,
            old(conn),
            conn,
            *req,
            rel@,
            signed,
            is_ca,
            fid,
            o,
            meta,
            action,
            r,
        ));
    }
    r
}

#[verifier::rlimit(60)]
#[verifier::spinoff_prover]
fn carry_out(
    server: &mut Server2,
    conn: &mut Smb2Conn,
    req: &CreateReq,
    rel: &str,
    signed: bool,
    is_ca: bool,
    o: OpenFile,
    meta: FileMeta,
    action: u32,
) -> (r: CreateDone)
    requires
        old(server).wf(),
        old(conn).wf(),
    ensures
        exists|st: CreateSteps|
            #[trigger] created_in_steps(
                st,
                old(server),
                final(server),
                old(conn),
                final(conn),
                *req,
                rel@,
                signed,
                is_ca,
                o,
                meta,
                action,
                r,
            ),
        final(server).wf(),
        final(conn).wf(),
{
    let fid = next_file_id(server);
    let ghost s1 = *server;
    let refused: bool = resolve_instance(server, conn, o.path.as_str(), &req.contexts);
    let ghost s2 = *server;
    let ok: bool = if refused {
        false
    } else {
        server.share_modes.try_open(o.path.as_str(), req.desired_access, req.share_access, (conn.session_id, fid))
    };
    let ghost st = CreateSteps { fid, refused, ok, s1, s2, s3: *server };
    let r = if refused {
        CreateDone { result: Err(Status::FILE_FORCED_CLOSED), close: Some(o), notices: Vec::new(), await_ack: false }
    } else if !ok {
        let mut told: Vec<Notice> = Vec::new();
        if o.is_dir {
            let b = break_dir_lease(&mut server.leases, conn, o.path.as_str(), fid, LEASE_HANDLE);
            add_notices(&mut told, &b);
            assert(told@ =~= lease_notices(b@));
        }
        let await_ack: bool = told.len() > 0;
        CreateDone { result: Err(Status::SHARING_VIOLATION), close: Some(o), notices: told, await_ack }
    } else {
        serve_open(server, conn, req, rel, signed, is_ca, fid, o, meta, action)
    };
    assert(created_in_steps(
        st,
        old(server),
        server,
        old(conn),
        conn,
        *req,
        rel@,
        signed,
        is_ca,
        o,
        meta,
        action,
        r,
    ));
    r
}

/// Ends a create once its path was opened, or was not. `rel` is the path below the
/// share, `is_ca` tells whether the share is continuously available.
pub fn finish_create(
    server: &mut Server2,
    conn: &mut Smb2Conn,
    req: &CreateReq,
    rel: &str,
    signed: bool,
    is_ca: bool,
    opened: OpenResult,
) -> (r: CreateDone)
    requires
        old(server).wf(),
        old(conn).wf(),
    ensures
        created(old(server), final(server), old(conn), final(conn), *req, rel@, signed, is_ca, opened, r),
        final(server).wf(),
        final(conn).wf(),
{
    match opened {
        OpenResult::Symlink(body) => {
            conn.symlink_error = Some(body);
            refuse_create(Status::STOPPED_ON_SYMLINK)
        },
        OpenResult::Failed(e) => refuse_create(vfs_err(&e)),
        OpenResult::Opened(o, meta, action) => {
            if req.options & OPT_NON_DIRECTORY_FILE != 0 && o.is_dir {
                return refuse_create(Status::FILE_IS_A_DIRECTORY);
            }
            let ghost o0 = o;
            let mut o = o;
            if req.options & OPT_DELETE_ON_CLOSE != 0 {
                o.delete_on_close = true;
            }
            assert(o == marked_open(o0, *req));
            carry_out(server, conn, req, rel, signed, is_ca, o, meta, action)
        },
    }
}

// ---------------- what a create is for ----------------

/// A create that fails gives the client no handle: storage's own failure is reported as
/// such, and a file that is not to be a directory (bit 6 of the options) is refused where
/// one stands there. Nothing changes then.
pub proof fn law_failed_create_changes_nothing(
    s0: &Server2,
    s9: &Server2,
    c0: &Smb2Conn,
    c9: &Smb2Conn,
    req: CreateReq,
    rel: Seq<char>,
    signed: bool,
    is_ca: bool,
    opened: OpenResult,
    r: CreateDone,
)
    requires
        created(s0, s9, c0, c9, req, rel, signed, is_ca, opened, r),
    ensures
        opened matches OpenResult::Failed(e) ==> r.result == Err::<Vec<u8>, Status>(vfs_status(e)) && *s9 == *s0 && *c9
            == *c0,
        opened matches OpenResult::Symlink(b) ==> r.result == Err::<Vec<u8>, Status>(Status::STOPPED_ON_SYMLINK)
            && c9.symlink_error == Some(b) && c9.handles == c0.handles && *s9 == *s0,
        opened matches OpenResult::Opened(o, meta, action) ==> (req.options & 0x40 != 0 && o.is_dir ==> r.result == Err::<
            Vec<u8>,
            Status,
        >(Status::FILE_IS_A_DIRECTORY) && *s9 == *s0 && *c9 == *c0),
{
}

/// A create that succeeds hands the client an id under which exactly the file that was
/// opened is found, to be deleted on close where bit 12 of the options asks for it; all
/// other handles stay. The open stands among the share modes of its path with the access
/// and the sharing that were asked for. What was done, and the size, are reported.
#[verifier::rlimit(60)]
#[verifier::spinoff_prover]
pub proof fn law_created_file_is_reached(
    s0: &Server2,
    s9: &Server2,
    c0: &Smb2Conn,
    c9: &Smb2Conn,
    req: CreateReq,
    rel: Seq<char>,
    signed: bool,
    is_ca: bool,
    o: OpenFile,
    meta: FileMeta,
    action: u32,
    r: CreateDone,
) -> (fid: [u8; 16])
    requires
        created(s0, s9, c0, c9, req, rel, signed, is_ca, OpenResult::Opened(o, meta, action), r),
        r.result is Ok,
    ensures
        ({
            let b = r.result->Ok_0@;
            let h = c9.handles@[fid];
            &&& b.subrange(64, 80) == fid@
            &&& little(b, 4, 4) == action
            &&& little(b, 48, 8) == meta.eof
            &&& little(b, 56, 4) == meta.attrs
            &&& c9.handles@.dom().contains(fid)
            &&& h.path == o.path && h.rel == o.rel && h.is_dir == o.is_dir && h.inner == o.inner
            &&& h.can_read == o.can_read && h.can_write == o.can_write
            &&& h.delete_on_close == (o.delete_on_close || req.options & 0x1000 != 0)
            &&& r.close is None
        }),
        forall|k: [u8; 16]| k != fid ==> c9.handles@.dom().contains(k) == #[trigger] c0.handles@.dom().contains(k),
        s9.share_modes.opens_of(o.path@).contains(
            (OpenMode { access: req.desired_access, share: req.share_access, owner: (c0.session_id, fid) }),
        ),
{
    let m = marked_open(o, req);
    let st = choose|st: CreateSteps|
        #[trigger] created_in_steps(st, s0, s9, c0, c9, req, rel, signed, is_ca, m, meta, action, r);
    assert(!st.refused && st.ok);
    let t = choose|t: ServeSteps|
        #[trigger] open_served(t, &st.s3, s9, c0, c9, req, rel, signed, is_ca, st.fid, m, meta, action, r);
    lemma_contexts_short(t.caching.lease, t.grant);
    law_create_response_fields(
        t.caching.level,
        action,
        meta.times,
        meta.alloc,
        meta.eof,
        meta.attrs,
        st.fid@,
        create_contexts(t.caching.lease, t.grant),
    );
    let mode = OpenMode { access: req.desired_access, share: req.share_access, owner: (c0.session_id, st.fid) };
    let opens = st.s3.share_modes.opens_of(o.path@);
    assert(opens == st.s2.share_modes.opens_of(o.path@).push(mode));
    assert(opens[opens.len() - 1] == mode);
    assert(s9.share_modes == st.s3.share_modes);
    assert(c9.handles == t.c4.handles);
    st.fid
}

proof fn lemma_contexts_short(l: Option<LeaseResp>, d: Option<DurableGrant>)
    ensures
        create_contexts(l, d).len() < 0x1000,
{
}

/// An open that conflicts with the sharing of another is refused and gets no handle; one
/// that conflicts with none, and that no application instance keeps out, is let in.
pub proof fn law_sharing_decides(
    s0: &Server2,
    s9: &Server2,
    c0: &Smb2Conn,
    c9: &Smb2Conn,
    req: CreateReq,
    rel: Seq<char>,
    signed: bool,
    is_ca: bool,
    o: OpenFile,
    meta: FileMeta,
    action: u32,
    r: CreateDone,
)
    requires
        created(s0, s9, c0, c9, req, rel, signed, is_ca, OpenResult::Opened(o, meta, action), r),
        !(req.options & 0x40 != 0 && o.is_dir),
        req.contexts.app_instance_id is None,
    ensures
        r.result is Ok <==> (forall|i: int|
            0 <= i < s0.share_modes.opens_of(o.path@).len() ==> modes_compatible(
                (#[trigger] s0.share_modes.opens_of(o.path@)[i]).access,
                s0.share_modes.opens_of(o.path@)[i].share,
                req.desired_access,
                req.share_access,
            )),
        r.result matches Err(e) ==> e == Status::SHARING_VIOLATION && *c9 == *c0 && r.close is Some,
        r.result is Err ==> s9.share_modes.opens_of(o.path@) == s0.share_modes.opens_of(o.path@),
{
    let m = marked_open(o, req);
    let st = choose|st: CreateSteps|
        #[trigger] created_in_steps(st, s0, s9, c0, c9, req, rel, signed, is_ca, m, meta, action, r);
    assert(!st.refused);
    assert(st.s2.share_modes == s0.share_modes);
    assert(st.ok == compatible_with_all(s0.share_modes.opens_of(o.path@), req.desired_access, req.share_access));
}

/// The only opener of a path gets the lease it asks for, in full: read, handle and write
/// caching on a file, read and handle caching on a directory. It is recorded under its key
/// for its open.
pub proof fn law_only_opener_gets_its_lease(
    t0: &LeaseTable,
    t1: &LeaseTable,
    c: &Smb2Conn,
    path: Seq<char>,
    fid: [u8; 16],
    l: LeaseReq,
    signed: bool,
    is_dir: bool,
    breaks: Seq<LeaseBreak>,
    r: LeaseResp,
)
    requires
        lease_arbitrated(t0, t1, c, path, fid, l, signed, is_dir, breaks, r),
        t0.holders(path).len() == 0,
    ensures
        r.key == l.key,
        r.state == l.state & if is_dir {
            3u32
        } else {
            7u32
        },
        r.v2 == l.v2,
        breaks.len() == 0,
        t1.holders(path).len() == 1,
        ({
            let h = t1.holders(path)[0];
            h.key == l.key && h.state == r.state && h.file_id == fid && h.session_id == c.session_id && h.conn == c.id
                && !h.breaking
        }),
{
    let p = |h: LeaseHolder| h.key == l.key;
    crate::tables::lemma_first_where(t0.holders(path), p);
    let h = new_holder(c, fid, l, signed, r.state, r.epoch);
    let q = |x: LeaseHolder| x.key == h.key && x.file_id == h.file_id;
    crate::tables::lemma_first_where(t0.holders(path), q);
    assert(t0.holders(path).push(h)[0] == h);
}

/// An open under a key that is held already shares the state of that lease: nobody is
/// told, and nothing changes.
pub proof fn law_same_key_shares_the_lease(
    t0: &LeaseTable,
    t1: &LeaseTable,
    c: &Smb2Conn,
    path: Seq<char>,
    fid: [u8; 16],
    l: LeaseReq,
    signed: bool,
    is_dir: bool,
    breaks: Seq<LeaseBreak>,
    r: LeaseResp,
    i: int,
)
    requires
        lease_arbitrated(t0, t1, c, path, fid, l, signed, is_dir, breaks, r),
        0 <= i < t0.holders(path).len(),
        t0.holders(path)[i].key == l.key,
        forall|k: int| 0 <= k < i ==> (#[trigger] t0.holders(path)[k]).key != l.key,
    ensures
        r.key == l.key,
        r.state == t0.holders(path)[i].state,
        r.epoch == t0.holders(path)[i].epoch,
        breaks.len() == 0,
        t1 == t0,
{
    let p = |h: LeaseHolder| h.key == l.key;
    crate::tables::lemma_first_where(t0.holders(path), p);
    match first_where(t0.holders(path), p) {
        Some(k) => {
            if k < i {
                assert(t0.holders(path)[k].key != l.key);
            }
        },
        None => {},
    }
}

/// A second opener under another key takes write caching away from every holder that has
/// it, and each of these is told; it gets read and handle caching at most itself.
pub proof fn law_second_opener_ends_write_caching(
    t0: &LeaseTable,
    t1: &LeaseTable,
    c: &Smb2Conn,
    path: Seq<char>,
    fid: [u8; 16],
    l: LeaseReq,
    signed: bool,
    is_dir: bool,
    breaks: Seq<LeaseBreak>,
    r: LeaseResp,
    i: int,
)
    requires
        lease_arbitrated(t0, t1, c, path, fid, l, signed, is_dir, breaks, r),
        0 <= i < t0.holders(path).len(),
        forall|k: int| 0 <= k < t0.holders(path).len() ==> (#[trigger] t0.holders(path)[k]).key != l.key,
        (t0.holders(path)[i].session_id, t0.holders(path)[i].file_id) != (c.session_id, fid),
    ensures
        r.state == l.state & 3,
        t1.holders(path)[i].key == t0.holders(path)[i].key,
        t1.holders(path)[i].state == t0.holders(path)[i].state & !4u32,
        t0.holders(path)[i].state & 4 != 0 ==> t1.holders(path)[i].breaking && exists|k: int|
            0 <= k < breaks.len() && (#[trigger] breaks[k]).key == t0.holders(path)[i].key && breaks[k].conn
                == t0.holders(path)[i].conn && breaks[k].new_state == t0.holders(path)[i].state & !4u32,
{
    let l0 = t0.holders(path);
    let owner = (c.session_id, fid);
    let key = Some(l.key);
    let p = |h: LeaseHolder| h.key == l.key;
    crate::tables::lemma_first_where(l0, p);
    match first_where(l0, p) {
        Some(k) => {
            assert(l0[k].key != l.key);
        },
        None => {},
    }
    let s = l.state;
    assert(((s & 3) & 3) == s & 3 && ((s & 7) & 3) == s & 3) by (bit_vector);
    let m = choose|m: LeaseTable|
        #[trigger] leases_broken(t0, &m, path, owner, key, LEASE_WRITE) && lease_recorded(
            &m,
            t1,
            path,
            new_holder(c, fid, l, signed, r.state, l.epoch),
        );
    law_conflict_breaks(l0, owner, key, 4);
    let a = after_conflict(l0, owner, key, 4);
    assert(m.holders(path) == a);
    assert(a[i].key == l0[i].key);
    assert(t1.holders(path)[i] == a[i]);
    let x = l0[i].state;
    assert(x & 4 == 0 ==> x & !4u32 == x) by (bit_vector);
    if x & 4 != 0 {
        let br = is_broken_by(owner, key, 4);
        l0.lemma_filter_contains(br, i);
        let f = l0.filter(br);
        let k = choose|k: int| 0 <= k < f.len() && f[k] == l0[i];
        assert(breaks[k] == break_notice(l0[i], 4));
    }
}

/// An oplock goes to the only opener that asks for one where none is held, and is then
/// held by it. An open beside others ends the oplock that is held, and its holder is told.
pub proof fn law_oplock_is_granted_and_broken(
    t0: &OplockTable,
    t1: &OplockTable,
    shared: bool,
    c: &Smb2Conn,
    path: Seq<char>,
    fid: [u8; 16],
    asked: bool,
    signed: bool,
    level: u8,
    told: Seq<Notice>,
)
    requires
        oplock_arbitrated(t0, t1, shared, c, path, fid, asked, signed, level, told),
    ensures
        level == 8 <==> !shared && asked && !t0.holders().dom().contains(path),
        level == 8 || level == 0,
        level == 8 ==> t1.holders().dom().contains(path) && t1.holders()[path].session_id == c.session_id
            && t1.holders()[path].file_id == fid && t1.holders()[path].conn == c.id,
        shared ==> !t1.holders().dom().contains(path),
        shared && t0.holders().dom().contains(path) ==> told.len() == 1 && notice_conn(told[0]) == t0.holders()[path].conn,
        !shared ==> told.len() == 0,
        forall|p: Seq<char>| p != path ==> t1.holders().dom().contains(p) == #[trigger] t0.holders().dom().contains(p),
{
}

/// A client is asked about caching only as its request says: a lease under level 255 with a
/// lease context, an oplock under levels 1, 8 and 9 and under 255 without one.
pub proof fn law_caching_that_is_asked_for(req: CreateReq)
    ensures
        asks_lease(req) <==> req.oplock_level == 255 && req.contexts.lease is Some,
        asks_oplock(req) <==> req.oplock_level == 1 || req.oplock_level == 8 || req.oplock_level == 9
            || req.oplock_level == 255 && req.contexts.lease is None,
{
}

/// A durable handle is granted where it is asked for and the open can be durable: under a
/// batch oplock, under a lease with handle caching, or persistently on a continuously
/// available share. It then stands under the open's id with what is needed to reclaim it:
/// the path, the access, the options, the owner. Its timeout is the one asked for, or a
/// minute.
pub proof fn law_durable_handle_is_recorded(
    c0: &Smb2Conn,
    c1: &Smb2Conn,
    req: CreateReq,
    fid: [u8; 16],
    rel: Seq<char>,
    is_dir: bool,
    lease_state: Option<u32>,
    is_ca: bool,
    r: Option<DurableGrant>,
)
    requires
        durable_granted(c0, c1, req, fid, rel, is_dir, lease_state, is_ca, r),
    ensures
        ({
            let batch = lease_state is None && req.oplock_level == 9;
            let handle = lease_state matches Some(st) && st & 2 != 0;
            match req.contexts.durable {
                Some(DurableReq::RequestV1) => r is Some <==> batch || handle,
                Some(DurableReq::RequestV2 { timeout, flags, create_guid }) => {
                    &&& r is Some <==> batch || handle || is_ca && flags & 2 != 0
                    &&& r matches Some(g) ==> (g matches DurableGrant::V2 { timeout: t, flags: f } && (timeout != 0 ==> t
                        == timeout) && (timeout == 0 ==> t == 60000) && (f == 2 <==> is_ca && flags & 2 != 0))
                },
                _ => r is None,
            }
        }),
        r is None ==> *c1 == *c0,
        r is Some ==> {
            let e = c1.durable@[fid];
            &&& c1.durable@.dom().contains(fid)
            &&& e.persistent_id == fid && e.rel@ == rel && e.is_dir == is_dir
            &&& e.access == req.desired_access && e.options == req.options
            &&& e.owner_user@ == c0.user@ && e.session_id == c0.session_id && e.client_guid == c0.client_guid
            &&& e.timeout > 0
            &&& c1.handles == c0.handles
        },
        r matches Some(DurableGrant::V1) ==> !c1.durable@[fid].persistent,
{
}

/// A break goes to the connection of the holder that it is about, and names the lease or
/// the file of that holder, with the state or the level that is left.
pub proof fn law_break_is_about_its_holder(b: LeaseBreak, h: OplockHolder)
    ensures
        notice_conn(Notice::Lease(b)) == b.conn && notice_conn(Notice::Oplock(h)) == h.conn,
        ({
            let f = notice_frame(Notice::Lease(b));
            &&& has_header2(f) && header2_of(f).command == 0x12 && header2_of(f).message_id == u64::MAX
            &&& f.subrange(72, 88) == b.key@
            &&& f.subrange(88, 92) == le32(b.old_state)
            &&& f.subrange(92, 96) == le32(b.new_state)
        }),
        ({
            let f = notice_frame(Notice::Oplock(h));
            &&& has_header2(f) && header2_of(f).command == 0x12 && header2_of(f).message_id == u64::MAX
            &&& f[66] == 0
            &&& f.subrange(72, 88) == h.file_id@
        }),
{
    let x = lease_break_body(b.key@, b.old_state, b.new_state, b.epoch, LEASE_ACK_REQUIRED);
    let y = oplock_break_body(h.file_id@, OPLOCK_NONE);
    law_header_fields(0, 0, 0x12, 0, 1, u64::MAX, zeros(8), 0, x);
    law_header_fields(0, 0, 0x12, 0, 1, u64::MAX, zeros(8), 0, y);
    let hd = header_bytes(0, 0, 0x12, 0, 1, u64::MAX, zeros(8), 0);
    lemma_header_len();
    assert((hd + x).subrange(72, 88) =~= b.key@);
    assert((hd + x).subrange(88, 92) =~= le32(b.old_state));
    assert((hd + x).subrange(92, 96) =~= le32(b.new_state));
    assert((hd + y)[66] == y[2]);
    assert((hd + y).subrange(72, 88) =~= h.file_id@);
}

proof fn lemma_header_len()
    ensures
        header_bytes(0, 0, 0x12, 0, 1, u64::MAX, zeros(8), 0).len() == 64,
{
    reveal(header_bytes);
}

} // verus!
