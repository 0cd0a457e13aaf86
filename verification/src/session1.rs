//! Sessions and trees of the older dialect on a storage backend: logins, tree connects
//! and echoes.
use vstd::prelude::*;
use vstd::slice::slice_subrange;
use crate::auth::{authenticate_ntlmssp, outcome, OutcomeView};
use crate::bytes::{copy_all, get_u16, le16, lemma_little, lemma_little_written, little, put_u16};
use crate::handlers::{challenge_token, echo_count, inner_or_empty, one_body, setup_ids, setup_uid, share_named, share_of_path, starts_login, starts_with, text_starts_with, tree_added};
use crate::message::{body_views, lemma_only_body, plain_body, BodyView, RespBody};
use crate::ntlm::{accept_complete, build_type2, is_spnego, is_type3_of, looks_spnego, message_type, msg_type, parse_type3, unwrap_blob, wrap_accept_complete, wrap_negtoken_targ, Type2Options, Type3, MSG_TYPE1, MSG_TYPE2, MSG_TYPE3};
use crate::smb::{Status, COM_ECHO, COM_SESSION_SETUP_ANDX, COM_TREE_CONNECT_ANDX};
use crate::state::{next_tid, next_uid, next_unreserved, ConnState, Ids, ServerShared, Session};
use crate::text::same_text;

verus! {

broadcast use vstd::std_specs::hash::group_hash_axioms;

// ---------------- logins ----------------

/// How one leg of a login is answered.
#[derive(Debug)]
pub struct SetupStep {
    pub status: Status,
    pub uid: u16,
    /// 1 for a guest.
    pub action: u16,
    pub token: Vec<u8>,
}

/// Whether a login is refused and nothing changed.
pub open spec fn login_refused(
    c0: &ConnState,
    c1: &ConnState,
    i0: &Ids,
    i1: &Ids,
    r: Result<SetupStep, Status>,
) -> bool {
    &&& r matches Err(s) && s == Status::LOGON_FAILURE
    &&& *c1 == *c0
    &&& *i1 == *i0
}

/// Whether a challenge is issued.
pub open spec fn challenge_issued(
    server: &ServerShared,
    c0: &ConnState,
    c1: &ConnState,
    i0: &Ids,
    i1: &Ids,
    blob: Seq<u8>,
    now: u64,
    opts: &Type2Options,
    r: Result<SetupStep, Status>,
) -> bool {
    let uid = setup_uid(c0, i0);
    &&& *i1 == setup_ids(c0, i0)
    &&& *c1 == (ConnState { uid, auth_pending: true, spnego: looks_spnego(blob), ..*c0 })
    &&& r matches Ok(v)
    &&& v.status == Status::MORE_PROCESSING_REQUIRED
    &&& v.uid == uid
    &&& v.action == 0
    &&& v.token@ == challenge_token(server, c0, blob, now, opts)
}

/// Whether a login ends as its credentials say.
pub open spec fn login_answered(
    c0: &ConnState,
    c1: &ConnState,
    i0: &Ids,
    i1: &Ids,
    o: OutcomeView,
    r: Result<SetupStep, Status>,
) -> bool {
    if !o.ok {
        login_refused(c0, c1, i0, i1, r)
    } else {
        let uid = setup_uid(c0, i0);
        &&& *i1 == setup_ids(c0, i0)
        &&& c1.uid == uid
        &&& !c1.auth_pending
        &&& c1.spnego == c0.spnego
        &&& c1.same_but_session(c0)
        &&& c1.session matches Some(s) && s.user@ == o.user && s.guest == o.guest && s.trees@ == Seq::<u16>::empty()
        &&& r matches Ok(v)
        &&& v.status == Status::SUCCESS
        &&& v.uid == uid
        &&& v.action == if o.guest {
            1u16
        } else {
            0
        }
        &&& v.token@ == if c0.spnego {
            accept_complete()
        } else {
            Seq::empty()
        }
    }
}

/// How the login with the AUTHENTICATE message `t` ends.
pub open spec fn login_of(server: &ServerShared, conn: &ConnState, t: Type3) -> OutcomeView {
    outcome(server.users@, server.allow_guest, conn.challenge@, t, Seq::empty())
}

/// Whether one leg of a login goes as it should.
pub open spec fn leg_taken(
    server: &ServerShared,
    c0: &ConnState,
    c1: &ConnState,
    i0: &Ids,
    i1: &Ids,
    blob: Option<Seq<u8>>,
    now: u64,
    opts: &Type2Options,
    r: Result<SetupStep, Status>,
) -> bool {
    match blob {
        None => login_refused(c0, c1, i0, i1, r),
        Some(b) => {
            let m = inner_or_empty(b);
            if starts_login(message_type(m)) {
                challenge_issued(server, c0, c1, i0, i1, b, now, opts, r)
            } else if message_type(m) == Some(MSG_TYPE3) && m.len() >= 32 {
                exists|t: Type3| #[trigger]
                    is_type3_of(t, m) && login_answered(c0, c1, i0, i1, login_of(server, c0, t), r)
            } else {
                login_refused(c0, c1, i0, i1, r)
            }
        },
    }
}

fn own_uid(conn: &ConnState, ids: &mut Ids) -> (uid: u16)
    ensures
        uid == setup_uid(conn, old(ids)),
        *final(ids) == setup_ids(conn, old(ids)),
{
    if conn.uid == 0 {
        next_uid(ids)
    } else {
        conn.uid
    }
}

/// Takes one leg of a login. `blob` is the security blob; none where the request cannot be
/// read. `now` is the time as FILETIME.
pub fn setup(
    server: &ServerShared,
    conn: &mut ConnState,
    ids: &mut Ids,
    blob: Option<&[u8]>,
    now: u64,
    opts: &Type2Options,
) -> (r: Result<SetupStep, Status>)
    requires
        server.wf(),
    ensures
        leg_taken(
            server,
            old(conn),
            final(conn),
            old(ids),
            final(ids),
            match blob {
                Some(b) => Some(b@),
                None => None,
            },
            now,
            opts,
            r,
        ),
{
    let blob = match blob {
        Some(b) => b,
        None => {
            return Err(Status::LOGON_FAILURE);
        },
    };
    let inner = match unwrap_blob(blob) {
        Some(m) => m,
        None => slice_subrange(blob, 0, 0),
    };
    assert(inner@ =~= inner_or_empty(blob@));
    let kind: u32 = match msg_type(inner) {
        Some(t) => t,
        None => MSG_TYPE1,
    };
    if kind == MSG_TYPE1 || kind == MSG_TYPE2 {
        let uid: u16 = own_uid(conn, ids);
        conn.uid = uid;
        conn.auth_pending = true;
        conn.spnego = is_spnego(blob);
        let t2 = build_type2(&conn.challenge, server.domain.as_str(), server.server_name.as_str(), now, opts);
        let token = if conn.spnego {
            wrap_negtoken_targ(t2.as_slice())
        } else {
            t2
        };
        return Ok(SetupStep { status: Status::MORE_PROCESSING_REQUIRED, uid, action: 0, token });
    }
    if kind != MSG_TYPE3 {
        return Err(Status::LOGON_FAILURE);
    }
    let t3 = match parse_type3(inner) {
        Some(t) => t,
        None => {
            return Err(Status::LOGON_FAILURE);
        },
    };
    assert(is_type3_of(t3, inner@));
    let none: Vec<u8> = Vec::new();
    let out = authenticate_ntlmssp(&server.users, server.allow_guest, &conn.challenge, &t3, none.as_slice());
    assert(none@ =~= Seq::<u8>::empty());
    assert(out@ == login_of(server, conn, t3));
    if !out.ok {
        return Err(Status::LOGON_FAILURE);
    }
    let uid: u16 = own_uid(conn, ids);
    conn.uid = uid;
    conn.auth_pending = false;
    let guest = out.guest;
    conn.session = Some(Session { user: out.user, guest, trees: Vec::new() });
    let token = if conn.spnego {
        wrap_accept_complete()
    } else {
        Vec::new()
    };
    let action: u16 = if guest {
        1
    } else {
        0
    };
    Ok(SetupStep { status: Status::SUCCESS, uid, action, token })
}

/// The bytes that answer a leg, of the encoded ones: behind the token of a login that is
/// complete nothing follows.
pub open spec fn setup_tail(status: Status, token: Seq<u8>, bytes: Seq<u8>) -> Seq<u8> {
    if status == Status::SUCCESS && 0 < token.len() <= bytes.len() {
        bytes.subrange(0, token.len() as int)
    } else {
        bytes
    }
}

/// Whether a leg is answered.
pub open spec fn setup_sent(step: SetupStep, params: Seq<u8>, bytes: Seq<u8>, b: Seq<RespBody>) -> bool {
    body_views(b) == seq![
        BodyView {
            uid_override: Some(step.uid),
            ..plain_body(COM_SESSION_SETUP_ANDX, params, setup_tail(step.status, step.token@, bytes))
        },
    ]
}

/// Answers a leg with its encoded words and bytes.
pub fn finish_setup(step: &SetupStep, params: Vec<u8>, bytes: Vec<u8>) -> (b: Vec<RespBody>)
    ensures
        setup_sent(*step, params@, bytes@, b@),
{
    let mut bytes = bytes;
    if step.status == Status::SUCCESS && step.token.len() > 0 {
        bytes.truncate(step.token.len());
    }
    let mut body = RespBody::new(COM_SESSION_SETUP_ANDX, params, bytes);
    body.uid_override = Some(step.uid);
    one_body(body)
}

// ---------------- trees ----------------

/// A tree connect that is asked for.
#[derive(Debug)]
pub struct TreeReq {
    pub path: String,
    pub service: String,
}

/// How a tree connect is answered: the pipe share has no file system.
#[derive(Clone, Copy, PartialEq, Eq, Structural, Debug)]
pub struct TreeStep {
    pub tid: u16,
    pub ipc: bool,
}

/// Whether a request leads to the pipe share.
pub open spec fn asks_pipes(q: TreeReq) -> bool {
    share_named(q.path@) == "ipc$"@ || text_starts_with(q.service@, "IPC"@)
}

/// Why a tree connect is refused.
pub open spec fn connect_refused(server: &ServerShared, req: Option<TreeReq>) -> Option<Status> {
    match req {
        None => Some(Status::INVALID_PARAMETER),
        Some(q) => if !asks_pipes(q) && !server.shares@.contains_key(share_named(q.path@)) {
            Some(Status::BAD_NETWORK_NAME)
        } else {
            None
        },
    }
}

/// Whether a tree is connected as it should, or refused.
pub open spec fn tree_connected(
    server: &ServerShared,
    c0: &ConnState,
    c1: &ConnState,
    i0: &Ids,
    i1: &Ids,
    req: Option<TreeReq>,
    r: Result<TreeStep, Status>,
) -> bool {
    match connect_refused(server, req) {
        Some(e) => (r matches Err(s) && s == e) && *c1 == *c0 && *i1 == *i0,
        None => {
            let q = req->0;
            let tid = next_unreserved(i0.tid);
            &&& r matches Ok(t) && t == (TreeStep { tid, ipc: asks_pipes(q) })
            &&& *i1 == (Ids { tid: tid.wrapping_add(1), ..*i0 })
            &&& c1.trees@ == c0.trees@.insert(tid, c1.trees@[tid])
            &&& c1.trees@[tid]@ == share_named(q.path@)
            &&& tree_added(c1, c0, tid)
        },
    }
}

/// Connects a tree; `req` is none where the request cannot be read.
pub fn tree_connect(server: &ServerShared, conn: &mut ConnState, ids: &mut Ids, req: &Option<TreeReq>) -> (r: Result<
    TreeStep,
    Status,
>)
    requires
        server.wf(),
    ensures
        tree_connected(server, old(conn), final(conn), old(ids), final(ids), *req, r),
{
    let q = match req {
        Some(q) => q,
        None => {
            return Err(Status::INVALID_PARAMETER);
        },
    };
    let share = share_of_path(q.path.as_str());
    let ipc = same_text(share.as_str(), "ipc$") || starts_with(q.service.as_str(), "IPC");
    if !ipc && !server.shares.contains(share.as_str()) {
        return Err(Status::BAD_NETWORK_NAME);
    }
    let tid: u16 = next_tid(ids);
    conn.trees.insert(tid, share);
    let sess = conn.session.take();
    conn.session = match sess {
        Some(s) => {
            let mut s = s;
            s.trees.push(tid);
            Some(s)
        },
        None => None,
    };
    Ok(TreeStep { tid, ipc })
}

/// The bytes that answer a tree connect, of the encoded ones: for the pipe share without
/// the empty name of a file system at their end.
pub open spec fn tree_tail(ipc: bool, unicode: bool, bytes: Seq<u8>) -> Seq<u8> {
    let cut: int = if unicode {
        2
    } else {
        1
    };
    if !ipc {
        bytes
    } else if bytes.len() <= cut {
        Seq::empty()
    } else {
        bytes.subrange(0, bytes.len() - cut)
    }
}

/// Whether a tree connect is answered.
pub open spec fn tree_sent(step: TreeStep, unicode: bool, params: Seq<u8>, bytes: Seq<u8>, b: Seq<RespBody>) -> bool {
    body_views(b) == seq![
        BodyView {
            tid_override: Some(step.tid),
            ..plain_body(COM_TREE_CONNECT_ANDX, params, tree_tail(step.ipc, unicode, bytes))
        },
    ]
}

/// Answers a tree connect with its encoded words and bytes.
pub fn finish_tree_connect(step: TreeStep, unicode: bool, params: Vec<u8>, bytes: Vec<u8>) -> (b: Vec<RespBody>)
    ensures
        tree_sent(step, unicode, params@, bytes@, b@),
{
    let ghost all = bytes@;
    let mut bytes = bytes;
    if step.ipc {
        let cut: usize = if unicode {
            2
        } else {
            1
        };
        let left: usize = if bytes.len() <= cut {
            0
        } else {
            bytes.len() - cut
        };
        bytes.truncate(left);
    }
    assert(bytes@ =~= tree_tail(step.ipc, unicode, all));
    let mut body = RespBody::new(COM_TREE_CONNECT_ANDX, params, bytes);
    body.tid_override = Some(step.tid);
    one_body(body)
}

// ---------------- echoes ----------------

/// One answer to an echo: its number, and the data that came.
pub open spec fn echo_body(data: Seq<u8>, seq: u16) -> BodyView {
    plain_body(COM_ECHO, le16(seq) + le16(0), data)
}

/// Whether an echo is answered.
pub open spec fn echoes(words: Seq<u8>, data: Seq<u8>, b: Seq<RespBody>) -> bool {
    body_views(b) == Seq::new(echo_count(words) as nat, |i: int| echo_body(data, i as u16))
}

/// Answers an echo: the data comes back as often as asked for, at least once.
pub fn echo(words: &[u8], data: &[u8]) -> (b: Vec<RespBody>)
    ensures
        echoes(words@, data@, b@),
{
    let mut count: u16 = 1;
    if words.len() >= 2 {
        let n: u16 = get_u16(words, 0);
        if n >= 1 {
            count = n;
        }
    }
    let mut out: Vec<RespBody> = Vec::new();
    let mut i: u16 = 0;
    while i < count
        invariant
            i <= count == echo_count(words@),
            out@.len() == i,
            forall|k: int| 0 <= k < i ==> (#[trigger] out@[k])@ == echo_body(data@, k as u16),
        decreases count - i,
    {
        let mut params: Vec<u8> = Vec::new();
        put_u16(&mut params, i);
        assert(params@ =~= le16(i));
        put_u16(&mut params, 0);
        out.push(RespBody::new(COM_ECHO, params, copy_all(data)));
        i += 1;
    }
    assert(body_views(out@) =~= Seq::new(echo_count(words@) as nat, |i: int| echo_body(data@, i as u16)));
    out
}

/// A login whose credentials fail is refused and changes nothing; one whose credentials
/// hold leaves a session of that user, under the id that the client is told, and no tree
/// connected in it.
pub proof fn law_login_ends_as_its_credentials_say(
    c0: &ConnState,
    c1: &ConnState,
    i0: &Ids,
    i1: &Ids,
    o: OutcomeView,
    r: Result<SetupStep, Status>,
)
    requires
        login_answered(c0, c1, i0, i1, o, r),
    ensures
        r is Ok <==> o.ok,
        !o.ok ==> *c1 == *c0 && *i1 == *i0 && r == Err::<SetupStep, Status>(Status::LOGON_FAILURE),
        o.ok ==> (c1.session matches Some(s) && s.user@ == o.user && s.guest == o.guest && s.trees@.len() == 0),
        r matches Ok(v) ==> v.status == Status::SUCCESS && v.uid == c1.uid && v.uid != 0 && !c1.auth_pending && (v.action
            % 2 == 1 <==> o.guest),
        c0.uid != 0 ==> c1.uid == c0.uid,
        c1.trees@ == c0.trees@ && c1.handles@ == c0.handles@ && c1.challenge == c0.challenge,
{
}

/// A leg of a login that is answered with success is one whose AUTHENTICATE message holds
/// for the server; every other leg leaves the session as it was. The first leg is answered
/// with a challenge and logs nobody in.
pub proof fn law_only_an_authenticate_logs_in(
    server: &ServerShared,
    c0: &ConnState,
    c1: &ConnState,
    i0: &Ids,
    i1: &Ids,
    blob: Option<Seq<u8>>,
    now: u64,
    opts: &Type2Options,
    r: Result<SetupStep, Status>,
)
    requires
        leg_taken(server, c0, c1, i0, i1, blob, now, opts, r),
    ensures
        blob is None ==> r is Err,
        r is Err ==> *c1 == *c0 && *i1 == *i0,
        r matches Ok(v) ==> v.uid == c1.uid && v.uid != 0,
        r matches Ok(v) ==> (v.status == Status::SUCCESS || v.status == Status::MORE_PROCESSING_REQUIRED),
        r matches Ok(v) ==> (v.status == Status::MORE_PROCESSING_REQUIRED ==> c1.session == c0.session && c1.auth_pending),
        r matches Ok(v) ==> (v.status == Status::SUCCESS ==> message_type(inner_or_empty(blob->0)) == Some(3u32)
            && !c1.auth_pending && (exists|t: Type3| #[trigger]
            is_type3_of(t, inner_or_empty(blob->0)) && login_of(server, c0, t).ok && c1.session->0.user@ == login_of(
                server,
                c0,
                t,
            ).user)),
        blob matches Some(b) ==> (message_type(inner_or_empty(b)) == Some(1u32) ==> r is Ok && r->Ok_0.status
            == Status::MORE_PROCESSING_REQUIRED),
{
}

/// A tree connect leads to the share that is asked for: the tree is reached by the id that
/// the client is told, which is neither all zeros nor all ones, and every other tree stays.
/// A share that is not served is refused, unless pipes are asked for; a refusal changes
/// nothing.
pub proof fn law_connected_tree_leads_to_its_share(
    server: &ServerShared,
    c0: &ConnState,
    c1: &ConnState,
    i0: &Ids,
    i1: &Ids,
    req: TreeReq,
    r: Result<TreeStep, Status>,
    other: u16,
)
    requires
        tree_connected(server, c0, c1, i0, i1, Some(req), r),
    ensures
        ({
            let share = share_named(req.path@);
            let pipes = share == "ipc$"@ || req.service@.len() >= 3 && req.service@.take(3) == "IPC"@;
            &&& r is Ok <==> pipes || server.shares@.dom().contains(share)
            &&& r is Err ==> *c1 == *c0 && *i1 == *i0
            &&& r matches Ok(t) ==> {
                &&& 0 < t.tid < 0xFFFF
                &&& c1.trees@.dom().contains(t.tid) && c1.trees@[t.tid]@ == share
                &&& t.ipc == pipes
                &&& other != t.tid ==> c1.trees@.dom().contains(other) == c0.trees@.dom().contains(other)
                    && c1.trees@[other] == c0.trees@[other]
                &&& c0.session is Some ==> c1.session is Some && c1.session->0.trees@.contains(t.tid)
                    && c1.session->0.user == c0.session->0.user
                &&& c1.uid == c0.uid && c1.handles@ == c0.handles@
            }
        }),
{
    reveal_strlit("IPC");
    let s = req.service@;
    if s.len() >= 3 {
        assert(s.subrange(0, 3) =~= s.take(3));
    }
    if r is Ok && c0.session is Some {
        let t = r->Ok_0.tid;
        let v = c0.session->0.trees@;
        assert(v.push(t)[v.len() as int] == t);
    }
}

/// The answer to a leg names the user id of its session, and to a tree connect the id of
/// its tree; behind the token of a complete login nothing follows.
pub proof fn law_ids_are_told(
    step: SetupStep,
    tree: TreeStep,
    unicode: bool,
    params: Seq<u8>,
    bytes: Seq<u8>,
    a: Seq<RespBody>,
    b: Seq<RespBody>,
)
    requires
        setup_sent(step, params, bytes, a),
        tree_sent(tree, unicode, params, bytes, b),
    ensures
        a.len() == 1 && a[0]@.uid_override == Some(step.uid) && a[0]@.params == params,
        b.len() == 1 && b[0]@.tid_override == Some(tree.tid) && b[0]@.params == params,
        step.status == Status::SUCCESS && 0 < step.token@.len() <= bytes.len() ==> a[0]@.bytes == bytes.take(
            step.token@.len() as int,
        ),
        step.status != Status::SUCCESS ==> a[0]@.bytes == bytes,
        !tree.ipc ==> b[0]@.bytes == bytes,
        tree.ipc && unicode && bytes.len() >= 2 ==> b[0]@.bytes == bytes.take(bytes.len() - 2),
        tree.ipc && !unicode && bytes.len() >= 1 ==> b[0]@.bytes == bytes.take(bytes.len() - 1),
{
    lemma_only_body(
        a,
        BodyView {
            uid_override: Some(step.uid),
            ..plain_body(COM_SESSION_SETUP_ANDX, params, setup_tail(step.status, step.token@, bytes))
        },
    );
    lemma_only_body(
        b,
        BodyView {
            tid_override: Some(tree.tid),
            ..plain_body(COM_TREE_CONNECT_ANDX, params, tree_tail(tree.ipc, unicode, bytes))
        },
    );
    if step.token@.len() <= bytes.len() {
        assert(bytes.subrange(0, step.token@.len() as int) =~= bytes.take(step.token@.len() as int));
    }
    if bytes.len() >= 2 {
        assert(b[0]@.bytes =~= tree_tail(tree.ipc, unicode, bytes));
        assert(bytes.subrange(0, bytes.len() - 2) =~= bytes.take(bytes.len() - 2));
    }
    if bytes.len() >= 1 {
        assert(bytes.subrange(0, bytes.len() - 1) =~= bytes.take(bytes.len() - 1));
    }
}

/// An echo comes back as often as bytes 0 and 1 ask for, and once where they ask for none:
/// each time with the data that came, numbered from zero.
pub proof fn law_echo_comes_back(words: Seq<u8>, data: Seq<u8>, b: Seq<RespBody>, i: int)
    requires
        echoes(words, data, b),
        words.len() >= 2,
    ensures
        little(words, 0, 2) > 0 ==> b.len() == little(words, 0, 2),
        little(words, 0, 2) == 0 ==> b.len() == 1,
        0 <= i < b.len() ==> b[i]@.bytes == data && little(b[i]@.params, 0, 2) == i && b[i]@.command == 0x26,
{
    lemma_little(words, 0);
    assert(body_views(b).len() == b.len());
    if 0 <= i < b.len() {
        assert(body_views(b)[i] == b[i]@);
        let n = i as u16;
        assert(i < 0x1_0000);
        assert(b[i]@ == echo_body(data, n));
        assert(le16(n) + le16(0) =~= Seq::<u8>::empty() + le16(n) + le16(0));
        lemma_little_written(Seq::empty(), n, 0, 0, le16(0));
    }
}

} // verus!
