//! NEGOTIATE, SESSION_SETUP, TREE_CONNECT, TREE_DISCONNECT, LOGOFF, ECHO and
//! QUERY_INFORMATION_DISK.
use vstd::prelude::*;
use vstd::slice::slice_subrange;
use vstd::utf8::encode_utf8;
use crate::bytes::{copy_all, get_u16, le16, le32, le64, lemma_little, lemma_little_written, little, put_bytes, put_u16, put_u32, put_u64, put_u8, same_bytes, u16_at};
use crate::crypto::{hmac_md5, hmac_md5_spec, nt_hash, nt_hash_spec};
use crate::message::{body_views, lemma_only_body, plain_body, BodyView, Request, RespBody};
use crate::ntlm::{accept_complete, build_type2, inner_message, is_spnego, looks_spnego, message_field, message_type, msg_type, negtoken_targ, parse_type3, trim_text, trimmed, type2_bytes, type2_flags, unwrap_blob, whole_u32, wrap_accept_complete, wrap_negtoken_targ, Type2Options, Type3, MSG_TYPE1, MSG_TYPE2, MSG_TYPE3, NTLMSSP_NEGOTIATE_ANONYMOUS};
use crate::smb::{lemma_string_at, string_at, zstring_bytes, zstring_end, zstring_text, Rd, Status, Wr, CAP_INFOLEVEL_PASSTHRU, CAP_LARGE_FILES, CAP_LARGE_READX, CAP_LARGE_WRITEX, CAP_LEVEL2_OPLOCKS, CAP_LOCK_AND_READ, CAP_NT_FIND, CAP_NT_SMBS, CAP_STATUS32, CAP_UNICODE, COM_ECHO, COM_LOGOFF_ANDX, COM_NEGOTIATE, COM_QUERY_INFORMATION_DISK, COM_SESSION_SETUP_ANDX, COM_TREE_CONNECT_ANDX, COM_TREE_DISCONNECT, FLAGS2_UNICODE, SEC_MODE_ENCRYPT, SEC_MODE_USER};
use crate::state::{next_tid, next_uid, next_unreserved, ConnState, Ids, ServerShared, Session};
use crate::tables::retain;
use crate::text::{chars_of, encode_utf16_bytes, from_utf8_lossy, lemma_last_piece, lowercase, pieces, same_text, split_slashes, texts, to_lowercase, to_uppercase, units_of, uppercase, utf16_bytes, utf16_lossy, utf8_lossy};

verus! {

broadcast use vstd::std_specs::hash::group_hash_axioms;

// ---------------- NEGOTIATE ----------------

/// The offset of the first zero byte at or after `i`, or the length.
pub open spec fn next_zero(d: Seq<u8>, i: int) -> int
    decreases d.len() - i,
{
    if i < 0 || i >= d.len() || d[i] == 0 {
        i
    } else {
        next_zero(d, i + 1)
    }
}

/// The dialect names of a NEGOTIATE from offset `i` on, in lower case. The list
/// ends at the first entry that does not start with the dialect mark or has no
/// terminator.
pub open spec fn dialects(d: Seq<u8>, i: int) -> Seq<Seq<char>>
    decreases d.len() - i,
{
    if i < 0 || i >= d.len() || d[i] != 0x02 {
        Seq::empty()
    } else {
        let z = next_zero(d, i + 1);
        if z <= i || z >= d.len() {
            Seq::empty()
        } else {
            seq![lowercase(utf8_lossy(d.subrange(i + 1, z)))] + dialects(d, z + 1)
        }
    }
}

/// The first index from `n` on at which `name` stands.
pub open spec fn index_of_name(names: Seq<Seq<char>>, name: Seq<char>, n: int) -> Option<int>
    decreases names.len() - n,
{
    if n < 0 || n >= names.len() {
        None
    } else if names[n] == name {
        Some(n)
    } else {
        index_of_name(names, name, n + 1)
    }
}

/// The first index at which one of the LANMAN dialects stands.
pub open spec fn index_of_lanman(names: Seq<Seq<char>>, n: int) -> Option<int>
    decreases names.len() - n,
{
    if n < 0 || n >= names.len() {
        None
    } else if names[n] == "lanman2.1"@ || names[n] == "lanman1.0"@ {
        Some(n)
    } else {
        index_of_lanman(names, n + 1)
    }
}

/// The dialect that is chosen: NT LM 0.12 if it is offered, else the first
/// LANMAN dialect, else none.
pub open spec fn chosen_dialect(names: Seq<Seq<char>>) -> u16 {
    match index_of_name(names, "nt lm 0.12"@, 0) {
        Some(i) => (i % 65536) as u16,
        None => match index_of_lanman(names, 0) {
            Some(i) => (i % 65536) as u16,
            None => 0xFFFF,
        },
    }
}

/// The capabilities that are offered.
pub open spec fn server_caps() -> u32 {
    CAP_UNICODE | CAP_LARGE_FILES | CAP_NT_SMBS | CAP_STATUS32 | CAP_LEVEL2_OPLOCKS | CAP_LOCK_AND_READ | CAP_NT_FIND
        | CAP_INFOLEVEL_PASSTHRU | CAP_LARGE_READX | CAP_LARGE_WRITEX | 0x8000_0000u32
}

/// The byte-packed words of a NEGOTIATE response.
pub open spec fn negotiate_words(dialect: u16, now: u64) -> Seq<u8> {
    le16(dialect) + seq![SEC_MODE_USER | SEC_MODE_ENCRYPT] + le16(16) + le16(1) + le32(65535) + le32(65536) + le32(
        0x1234_5678,
    ) + le32(server_caps()) + le64(now) + le16(0) + seq![0u8]
}

fn pick_dialect(d: &[u8]) -> (r: u16)
    ensures
        r == chosen_dialect(dialects(d@, 0)),
{
    let n: usize = d.len();
    let mut best: Option<usize> = None;
    let mut i: usize = 0;
    let mut idx: usize = 0;
    let ghost all = dialects(d@, 0);
    assert(all =~= all.subrange(0, all.len() as int));
    while i < n && d[i] == 0x02
        invariant
            n == d@.len(),
            idx <= i <= n,
            idx <= all.len(),
            all == dialects(d@, 0),
            dialects(d@, i as int) == all.subrange(idx as int, all.len() as int),
            index_of_name(all, "nt lm 0.12"@, 0) == index_of_name(all, "nt lm 0.12"@, idx as int),
            match best {
                Some(b) => index_of_lanman(all, 0) == Some(b as int),
                None => index_of_lanman(all, 0) == index_of_lanman(all, idx as int),
            },
        decreases n - i,
    {
        let start: usize = i + 1;
        let mut z: usize = start;
        while z < n && d[z] != 0
            invariant
                start <= z <= n,
                n == d@.len(),
                next_zero(d@, start as int) == next_zero(d@, z as int),
            decreases n - z,
        {
            z += 1;
        }
        if z >= n {
            assert(dialects(d@, i as int) =~= Seq::empty());
            assert(all.len() == idx);
            return finish_dialect(best);
        }
        let raw = from_utf8_lossy(slice_subrange(d, start, z));
        let name = to_lowercase(raw.as_str());
        proof {
            let rest = all.subrange(idx as int, all.len() as int);
            assert(rest == seq![name@] + dialects(d@, z + 1));
            assert(rest[0] == name@);
            assert(all[idx as int] == rest[0]);
            assert(dialects(d@, z + 1) =~= all.subrange(idx + 1, all.len() as int)) by {
                assert(rest.subrange(1, rest.len() as int) =~= dialects(d@, z + 1));
                assert(rest.subrange(1, rest.len() as int) =~= all.subrange(idx + 1, all.len() as int));
            }
        }
        if same_text(name.as_str(), "nt lm 0.12") {
            return (idx % 65536) as u16;
        }
        if same_text(name.as_str(), "lanman2.1") || same_text(name.as_str(), "lanman1.0") {
            if best.is_none() {
                best = Some(idx);
            }
        }
        idx += 1;
        i = z + 1;
    }
    assert(dialects(d@, i as int) =~= Seq::empty());
    assert(all.len() == idx);
    finish_dialect(best)
}

fn finish_dialect(best: Option<usize>) -> (r: u16)
    ensures
        r == match best {
            Some(i) => (i % 65536) as u16,
            None => 0xFFFF,
        },
{
    match best {
        Some(i) => (i % 65536) as u16,
        None => 0xFFFF,
    }
}

/// Whether `bodies` answers a NEGOTIATE.
pub open spec fn negotiated(req: &Request, guid: Seq<u8>, now: u64, bodies: Seq<RespBody>) -> bool {
    body_views(bodies) == seq![
            plain_body(
                COM_NEGOTIATE,
                negotiate_words(chosen_dialect(dialects(req.byte_area(), 0)), now),
                guid,
            ),
        ]
}

/// Answers a NEGOTIATE; `now` is the current FILETIME.
pub fn handle_negotiate(req: &Request, guid: &[u8; 16], now: u64) -> (bodies: Vec<RespBody>)
    ensures
        negotiated(req, guid@, now, bodies@),
{
    let dialect: u16 = pick_dialect(req.data());
    let caps: u32 = CAP_UNICODE | CAP_LARGE_FILES | CAP_NT_SMBS | CAP_STATUS32 | CAP_LEVEL2_OPLOCKS | CAP_LOCK_AND_READ
        | CAP_NT_FIND | CAP_INFOLEVEL_PASSTHRU | CAP_LARGE_READX | CAP_LARGE_WRITEX | 0x8000_0000u32;
    let mut params: Vec<u8> = Vec::new();
    put_u16(&mut params, dialect);
    assert(params@ =~= le16(dialect));
    put_u8(&mut params, SEC_MODE_USER | SEC_MODE_ENCRYPT);
    put_u16(&mut params, 16);
    put_u16(&mut params, 1);
    put_u32(&mut params, 65535);
    put_u32(&mut params, 65536);
    put_u32(&mut params, 0x1234_5678);
    put_u32(&mut params, caps);
    put_u64(&mut params, now);
    put_u16(&mut params, 0);
    put_u8(&mut params, 0);
    one_body(RespBody::new(COM_NEGOTIATE, params, copy_all(guid.as_slice())))
}

/// A response of one body.
pub fn one_body(b: RespBody) -> (v: Vec<RespBody>)
    ensures
        body_views(v@) == seq![b@],
        v@ == seq![b],
{
    let mut v: Vec<RespBody> = Vec::new();
    v.push(b);
    assert(v@ =~= seq![b]);
    assert(body_views(v@) =~= seq![b@]);
    v
}

// ---------------- authentication ----------------

/// The proof that NTLMv2 asks for: HMAC-MD5 of challenge and client blob under
/// HMAC-MD5 of upper-case user name and domain under the password's NT hash.
pub open spec fn ntlmv2_proof(
    pass: Seq<char>,
    user: Seq<char>,
    domain: Seq<char>,
    challenge: Seq<u8>,
    client_blob: Seq<u8>,
) -> Seq<u8> {
    hmac_md5_spec(
        hmac_md5_spec(nt_hash_spec(pass), utf16_bytes(uppercase(user)) + utf16_bytes(domain)),
        challenge + client_blob,
    )
}

/// Whether a response proves knowledge of the password, with the client's
/// domain or without a domain.
pub open spec fn proves_password(
    pass: Seq<char>,
    user: Seq<char>,
    domain: Seq<char>,
    challenge: Seq<u8>,
    response: Seq<u8>,
) -> bool {
    response.len() >= 24 && ({
        let blob = response.subrange(16, response.len() as int);
        let proof_given = response.subrange(0, 16);
        proof_given == ntlmv2_proof(pass, user, domain, challenge, blob) || proof_given == ntlmv2_proof(
            pass,
            user,
            Seq::empty(),
            challenge,
            blob,
        )
    })
}

/// Whether a login carries no credentials.
pub open spec fn is_anonymous(lm: Seq<u8>, nt: Seq<u8>, flags: u32) -> bool {
    nt.len() == 0 && lm.len() == 0 || flags & NTLMSSP_NEGOTIATE_ANONYMOUS != 0
}

/// How a login ends: accepted, as guest, and under which name. A login without
/// credentials is a guest's, and only where no users are configured. Without
/// users everyone is let in by name where guests are allowed. Otherwise only a known
/// user that proves the password is let in.
pub open spec fn auth_result(
    users: Map<Seq<char>, String>,
    allow_guest: bool,
    challenge: Seq<u8>,
    user: Seq<char>,
    domain: Seq<char>,
    lm: Seq<u8>,
    nt: Seq<u8>,
    flags: u32,
) -> (bool, bool, Seq<char>) {
    let no_users = users == Map::<Seq<char>, String>::empty();
    let name = trimmed(user);
    if is_anonymous(lm, nt, flags) {
        if no_users {
            (true, true, "nobody"@)
        } else {
            (false, false, Seq::empty())
        }
    } else if no_users && allow_guest {
        (true, false, name)
    } else if users.contains_key(lowercase(name)) && proves_password(
        users[lowercase(name)]@,
        name,
        domain,
        challenge,
        nt,
    ) {
        (true, false, name)
    } else {
        (false, false, Seq::empty())
    }
}

fn check_proof(pass: &str, user: &str, domain: &str, challenge: &[u8; 8], response: &[u8]) -> (r: bool)
    requires
        response@.len() >= 24,
    ensures
        r == (response@.subrange(0, 16) == ntlmv2_proof(
            pass@,
            user@,
            domain@,
            challenge@,
            response@.subrange(16, response@.len() as int),
        )),
{
    let hash = nt_hash(pass);
    let upper = to_uppercase(user);
    let mut id = encode_utf16_bytes(upper.as_str());
    let dom = encode_utf16_bytes(domain);
    put_bytes(&mut id, dom.as_slice());
    let key = hmac_md5(hash.as_slice(), id.as_slice());
    let mut msg = copy_all(challenge.as_slice());
    put_bytes(&mut msg, slice_subrange(response, 16, response.len()));
    let want = hmac_md5(key.as_slice(), msg.as_slice());
    same_bytes(slice_subrange(response, 0, 16), want.as_slice())
}

/// Verifies a login against the configured users.
pub fn authenticate_ntlmssp(server: &ServerShared, challenge: &[u8; 8], t3: &Type3) -> (r: (bool, bool, String))
    requires
        server.wf(),
    ensures
        (r.0, r.1, r.2@) == auth_result(
            server.users@,
            server.allow_guest,
            challenge@,
            t3.user@,
            t3.domain@,
            t3.lm_response@,
            t3.ntlm_response@,
            t3.flags,
        ),
{
    let user = trim_text(t3.user.as_str()).to_owned();
    let no_users: bool = server.users.is_empty();
    if t3.ntlm_response.len() == 0 && t3.lm_response.len() == 0 || t3.flags & NTLMSSP_NEGOTIATE_ANONYMOUS != 0 {
        if no_users {
            return (true, true, "nobody".to_owned());
        }
        let none = String::new();
        assert(none@ =~= Seq::<char>::empty());
        return (false, false, none);
    }
    if no_users && server.allow_guest {
        return (true, false, user);
    }
    let lower = to_lowercase(user.as_str());
    match server.users.get(lower.as_str()) {
        Some(pass) => {
            if t3.ntlm_response.len() >= 24 {
                let nt = t3.ntlm_response.as_slice();
                if check_proof(pass.as_str(), user.as_str(), t3.domain.as_str(), challenge, nt) {
                    return (true, false, user);
                }
                let empty = String::new();
                assert(empty@ =~= Seq::<char>::empty());
                if check_proof(pass.as_str(), user.as_str(), empty.as_str(), challenge, nt) {
                    return (true, false, user);
                }
            }
        },
        None => {},
    }
    (false, false, String::new())
}

/// With users configured, a login succeeds only for a configured user that proves the
/// password.
pub proof fn law_only_configured_logins(
    users: Map<Seq<char>, String>,
    allow_guest: bool,
    challenge: Seq<u8>,
    user: Seq<char>,
    domain: Seq<char>,
    lm: Seq<u8>,
    nt: Seq<u8>,
    flags: u32,
)
    requires
        users != Map::<Seq<char>, String>::empty(),
    ensures
        auth_result(users, allow_guest, challenge, user, domain, lm, nt, flags).0 ==> {
            &&& users.contains_key(lowercase(trimmed(user)))
            &&& proves_password(users[lowercase(trimmed(user))]@, trimmed(user), domain, challenge, nt)
            &&& !auth_result(users, allow_guest, challenge, user, domain, lm, nt, flags).1
        },
{
}

/// A configured user that proves the password is let in under that name.
pub proof fn law_password_logs_in(
    users: Map<Seq<char>, String>,
    allow_guest: bool,
    challenge: Seq<u8>,
    user: Seq<char>,
    domain: Seq<char>,
    lm: Seq<u8>,
    nt: Seq<u8>,
    flags: u32,
)
    requires
        users.contains_key(lowercase(trimmed(user))),
        proves_password(users[lowercase(trimmed(user))]@, trimmed(user), domain, challenge, nt),
        !is_anonymous(lm, nt, flags),
    ensures
        auth_result(users, allow_guest, challenge, user, domain, lm, nt, flags) == (true, false, trimmed(user)),
{
}

/// Without users everyone is let in where guests are allowed.
pub proof fn law_open_server(
    challenge: Seq<u8>,
    user: Seq<char>,
    domain: Seq<char>,
    lm: Seq<u8>,
    nt: Seq<u8>,
    flags: u32,
)
    ensures
        auth_result(Map::empty(), true, challenge, user, domain, lm, nt, flags).0,
{
}

// ---------------- SESSION_SETUP ----------------

/// The native name, null-terminated, in the given encoding at the given place.
pub open spec fn native_name(len: int, unicode: bool, base: int) -> Seq<u8> {
    zstring_bytes(len, "rustsmb"@, unicode, base)
}

/// The words of a SESSION_SETUP response.
pub open spec fn setup_words(action: u16, blob_len: int) -> Seq<u8> {
    seq![0xFFu8, 0u8] + le16(0) + le16(action) + le16((blob_len % 65536) as u16)
}

/// The bytes of a SESSION_SETUP response: the token and the two native names.
pub open spec fn setup_bytes(token: Seq<u8>, unicode: bool) -> Seq<u8> {
    let one = token + native_name(token.len() as int, unicode, 43);
    one + native_name(one.len() as int, unicode, 43)
}

/// The user id of a setup: the connection's, else a fresh one.
pub open spec fn setup_uid(conn: &ConnState, ids: &Ids) -> u16 {
    if conn.uid == 0 {
        next_unreserved(ids.uid)
    } else {
        conn.uid
    }
}

/// The counters after `setup_uid`.
pub open spec fn setup_ids(conn: &ConnState, ids: &Ids) -> Ids {
    if conn.uid == 0 {
        Ids { uid: next_unreserved(ids.uid).wrapping_add(1), ..*ids }
    } else {
        *ids
    }
}

/// The security blob of a SESSION_SETUP; none where the words are too short or
/// the blob does not fit.
pub open spec fn setup_blob(w: Seq<u8>, d: Seq<u8>) -> Option<Seq<u8>> {
    if w.len() < 24 || u16_at(w, 14) > d.len() {
        None
    } else {
        Some(d.subrange(0, u16_at(w, 14) as int))
    }
}

/// The message inside a blob; empty where there is none.
pub open spec fn inner_or_empty(blob: Seq<u8>) -> Seq<u8> {
    match inner_message(blob) {
        Some(m) => m,
        None => Seq::empty(),
    }
}

/// The token that answers the first leg.
pub open spec fn challenge_token(server: &ServerShared, conn: &ConnState, blob: Seq<u8>, now: u64, opts: &Type2Options) -> Seq<
    u8,
> {
    let t2 = type2_bytes(
        conn.challenge@,
        server.domain@,
        server.server_name@,
        now,
        type2_flags(*opts),
        !opts.no_version,
    );
    if looks_spnego(blob) {
        negtoken_targ(t2)
    } else {
        t2
    }
}

/// Whether a message type starts a login: anything but the final message.
pub open spec fn starts_login(t: Option<u32>) -> bool {
    t == None::<u32> || t == Some(MSG_TYPE1) || t == Some(MSG_TYPE2)
}

/// How the message `m` authenticates.
pub open spec fn login_result(server: &ServerShared, conn: &ConnState, m: Seq<u8>) -> (bool, bool, Seq<char>) {
    auth_result(
        server.users@,
        server.allow_guest,
        conn.challenge@,
        utf16_lossy(units_of(message_field(m, 36, 40))),
        utf16_lossy(units_of(message_field(m, 28, 32))),
        message_field(m, 12, 16),
        message_field(m, 20, 24),
        whole_u32(m, 60),
    )
}

/// The status that a SESSION_SETUP is refused with; none where it is answered.
pub open spec fn setup_refusal(server: &ServerShared, conn: &ConnState, w: Seq<u8>, d: Seq<u8>) -> Option<Status> {
    match setup_blob(w, d) {
        None => Some(Status::INVALID_PARAMETER),
        Some(blob) => {
            let m = inner_or_empty(blob);
            if starts_login(message_type(m)) {
                None
            } else if message_type(m) == Some(MSG_TYPE3) && m.len() >= 32 && login_result(server, conn, m).0 {
                None
            } else {
                Some(Status::LOGON_FAILURE)
            }
        },
    }
}

fn put_native(buf: &mut Wr, unicode: bool)
    requires
        unicode ==> old(buf).buf@.len() + 43 <= usize::MAX,
    ensures
        final(buf).buf@ == old(buf).buf@ + native_name(old(buf).buf@.len() as int, unicode, 43),
{
    buf.zstring("rustsmb", unicode, 43);
}

fn setup_body(action: u16, token: &[u8], unicode: bool) -> (b: RespBody)
    requires
        unicode ==> token@.len() < 0x1_0000,
    ensures
        b@ == plain_body(COM_SESSION_SETUP_ANDX, setup_words(action, token@.len() as int), setup_bytes(token@, unicode)),
{
    let mut params: Vec<u8> = Vec::new();
    params.push(0xFF);
    params.push(0);
    assert(params@ =~= seq![0xFFu8, 0u8]);
    put_u16(&mut params, 0);
    put_u16(&mut params, action);
    put_u16(&mut params, (token.len() % 65536) as u16);
    let mut bytes = Wr::new();
    bytes.raw(token);
    assert(bytes.buf@ =~= token@);
    put_native(&mut bytes, unicode);
    proof {
        if unicode {
            lemma_native_len(token@.len() as int);
        }
    }
    put_native(&mut bytes, unicode);
    RespBody::new(COM_SESSION_SETUP_ANDX, params, bytes.buf)
}

proof fn lemma_native_len(len: int)
    ensures
        native_name(len, true, 43).len() <= 0x100,
{
    reveal_strlit("rustsmb");
    lemma_utf16_len("rustsmb"@);
}

proof fn lemma_utf16_len(s: Seq<char>)
    ensures
        crate::text::utf16(s).len() <= 2 * s.len(),
    decreases s.len(),
{
    if s.len() > 0 {
        lemma_utf16_len(s.drop_last());
    }
}

/// Whether the first leg of a session setup gives `v`: a challenge.
pub open spec fn challenged(
    server: &ServerShared,
    c0: &ConnState,
    c1: &ConnState,
    blob: Seq<u8>,
    now: u64,
    opts: &Type2Options,
    v: (Vec<RespBody>, u16, bool, Status),
) -> bool {
    let token = challenge_token(server, c0, blob, now, opts);
    &&& c1.auth_pending
    &&& c1.spnego == looks_spnego(blob)
    &&& c1.session == c0.session
    &&& body_views(v.0@) == seq![
        plain_body(COM_SESSION_SETUP_ANDX, setup_words(0, token.len() as int), setup_bytes(token, false)),
    ]
    &&& !v.2
    &&& v.3 == Status::MORE_PROCESSING_REQUIRED
}

/// Whether the last leg of a session setup gives `v`: the session of `user`.
pub open spec fn logged_in(
    c0: &ConnState,
    c1: &ConnState,
    uid: u16,
    guest: bool,
    user: Seq<char>,
    unicode: bool,
    v: (Vec<RespBody>, u16, bool, Status),
) -> bool {
    let token = if c0.spnego {
        accept_complete()
    } else {
        Seq::empty()
    };
    &&& !c1.auth_pending
    &&& c1.spnego == c0.spnego
    &&& c1.session matches Some(s)
    &&& s.user@ == user
    &&& s.guest == guest
    &&& s.trees@ == Seq::<u16>::empty()
    &&& body_views(v.0@) == seq![
        BodyView {
            uid_override: Some(uid),
            ..plain_body(
                COM_SESSION_SETUP_ANDX,
                setup_words(
                    if guest {
                        1
                    } else {
                        0
                    },
                    token.len() as int,
                ),
                setup_bytes(token, unicode),
            )
        },
    ]
    &&& v.2 == guest
    &&& v.3 == Status::SUCCESS
}

/// Whether one leg of a session setup takes the connection from `c0` to `c1`, the
/// counters from `i0` to `i1`, and gives `r`.
pub open spec fn session_set_up(
    server: &ServerShared,
    c0: &ConnState,
    c1: &ConnState,
    i0: &Ids,
    i1: &Ids,
    req: &Request,
    now: u64,
    opts: &Type2Options,
    r: Result<(Vec<RespBody>, u16, bool, Status), Status>,
) -> bool {
    match setup_refusal(server, c0, req.words(), req.byte_area()) {
        Some(st) => r is Err && r->Err_0 == st && *c1 == *c0 && *i1 == *i0,
        None => {
            let blob = setup_blob(req.words(), req.byte_area())->0;
            let m = inner_or_empty(blob);
            let uid = setup_uid(c0, i0);
            &&& *i1 == setup_ids(c0, i0)
            &&& c1.uid == uid
            &&& c1.same_but_session(c0)
            &&& r matches Ok(v)
            &&& v.1 == uid
            &&& if starts_login(message_type(m)) {
                challenged(server, c0, c1, blob, now, opts, v)
            } else {
                let (_, guest, user) = login_result(server, c0, m);
                logged_in(c0, c1, uid, guest, user, req.hdr.flags2 & FLAGS2_UNICODE != 0, v)
            }
        },
    }
}

fn take_uid(conn: &mut ConnState, ids: &mut Ids) -> (uid: u16)
    ensures
        uid == setup_uid(old(conn), old(ids)),
        *final(ids) == setup_ids(old(conn), old(ids)),
        *final(conn) == (ConnState { uid, ..*old(conn) }),
{
    let uid: u16 = if conn.uid == 0 {
        next_uid(ids)
    } else {
        conn.uid
    };
    conn.uid = uid;
    uid
}

fn challenge_leg(server: &ServerShared, conn: &mut ConnState, uid: u16, blob: &[u8], now: u64, opts: &Type2Options) -> (v: (
    Vec<RespBody>,
    u16,
    bool,
    Status,
))
    ensures
        challenged(server, old(conn), final(conn), blob@, now, opts, v),
        final(conn).uid == old(conn).uid,
        final(conn).same_but_session(old(conn)),
        v.1 == uid,
{
    conn.auth_pending = true;
    conn.spnego = is_spnego(blob);
    let t2 = build_type2(&conn.challenge, server.domain.as_str(), server.server_name.as_str(), now, opts);
    let token = if conn.spnego {
        wrap_negtoken_targ(t2.as_slice())
    } else {
        t2
    };
    let b = setup_body(0, token.as_slice(), false);
    (one_body(b), uid, false, Status::MORE_PROCESSING_REQUIRED)
}

fn login_leg(conn: &mut ConnState, uid: u16, guest: bool, user: String, unicode: bool) -> (v: (
    Vec<RespBody>,
    u16,
    bool,
    Status,
))
    ensures
        logged_in(old(conn), final(conn), uid, guest, user@, unicode, v),
        final(conn).uid == old(conn).uid,
        final(conn).same_but_session(old(conn)),
        v.1 == uid,
{
    conn.auth_pending = false;
    conn.session = Some(Session { user, guest, trees: Vec::new() });
    let fin = if conn.spnego {
        wrap_accept_complete()
    } else {
        Vec::new()
    };
    let action: u16 = if guest {
        1
    } else {
        0
    };
    proof {
        lemma_accept_len();
    }
    let mut body = setup_body(action, fin.as_slice(), unicode);
    body.uid_override = Some(uid);
    (one_body(body), uid, guest, Status::SUCCESS)
}

/// One leg of a session setup. The first leg is answered with a challenge and
/// MORE_PROCESSING_REQUIRED, a final message that authenticates with success.
pub fn session_setup(
    server: &ServerShared,
    conn: &mut ConnState,
    ids: &mut Ids,
    req: &Request,
    now: u64,
    opts: &Type2Options,
) -> (r: Result<(Vec<RespBody>, u16, bool, Status), Status>)
    requires
        server.wf(),
        req.wc_off < req.buf@.len(),
    ensures
        session_set_up(server, old(conn), final(conn), old(ids), final(ids), req, now, opts, r),
{
    let w = req.word_bytes();
    if w.len() < 24 {
        return Err(Status::INVALID_PARAMETER);
    }
    let blob_len: usize = get_u16(w, 14) as usize;
    let data = req.data();
    if blob_len > data.len() {
        return Err(Status::INVALID_PARAMETER);
    }
    let blob = slice_subrange(data, 0, blob_len);
    let inner = match unwrap_blob(blob) {
        Some(m) => m,
        None => slice_subrange(blob, 0, 0),
    };
    assert(inner@ =~= inner_or_empty(blob@));
    let kind: u32 = match msg_type(inner) {
        Some(t) => t,
        None => MSG_TYPE1,
    };
    if kind == MSG_TYPE1 || kind == MSG_TYPE2 {
        let uid: u16 = take_uid(conn, ids);
        return Ok(challenge_leg(server, conn, uid, blob, now, opts));
    }
    if kind != MSG_TYPE3 {
        return Err(Status::LOGON_FAILURE);
    }
    let t3 = match parse_type3(inner) {
        Some(t) => t,
        None => {
            return Err(Status::LOGON_FAILURE);
        },
    };
    let (ok, guest, user) = authenticate_ntlmssp(server, &conn.challenge, &t3);
    if !ok {
        return Err(Status::LOGON_FAILURE);
    }
    let uid: u16 = take_uid(conn, ids);
    Ok(login_leg(conn, uid, guest, user, req.unicode()))
}

proof fn lemma_accept_len()
    ensures
        accept_complete().len() < 0x100,
{
}

// ---------------- LOGOFF ----------------

/// Whether `bodies` answers a LOGOFF.
pub open spec fn logged_off(bodies: Seq<RespBody>) -> bool {
    body_views(bodies) == seq![plain_body(COM_LOGOFF_ANDX, seq![0xFFu8, 0u8, 0u8, 0u8], Seq::empty())]
}

/// Answers a LOGOFF.
pub fn logoff(_req: &Request) -> (bodies: Vec<RespBody>)
    ensures
        logged_off(bodies@),
{
    let mut params: Vec<u8> = Vec::new();
    params.push(0xFF);
    params.push(0);
    params.push(0);
    params.push(0);
    assert(params@ =~= seq![0xFFu8, 0u8, 0u8, 0u8]);
    let bytes: Vec<u8> = Vec::new();
    assert(bytes@ =~= Seq::<u8>::empty());
    one_body(RespBody::new(COM_LOGOFF_ANDX, params, bytes))
}

// ---------------- ECHO ----------------

/// How often an ECHO is answered: as often as asked for, at least once.
pub open spec fn echo_count(w: Seq<u8>) -> int {
    if w.len() >= 2 && u16_at(w, 0) >= 1 {
        u16_at(w, 0) as int
    } else {
        1
    }
}

/// Whether `bodies` answers an ECHO.
pub open spec fn echoed(req: &Request, bodies: Seq<RespBody>) -> bool {
    body_views(bodies) == Seq::new(
            echo_count(req.words()) as nat,
            |i: int| plain_body(COM_ECHO, le16(i as u16), req.byte_area()),
        )
}

/// Answers an ECHO: the data comes back as often as asked for, numbered.
pub fn echo(req: &Request) -> (bodies: Vec<RespBody>)
    requires
        req.wc_off < req.buf@.len(),
    ensures
        echoed(req, bodies@),
{
    let w = req.word_bytes();
    let mut count: u16 = 1;
    if w.len() >= 2 {
        let n: u16 = get_u16(w, 0);
        if n >= 1 {
            count = n;
        }
    }
    let data = req.data();
    let mut out: Vec<RespBody> = Vec::new();
    let mut i: u16 = 0;
    while i < count
        invariant
            i <= count == echo_count(req.words()),
            data@ == req.byte_area(),
            out@.len() == i,
            forall|k: int|
                0 <= k < i ==> (#[trigger] out@[k])@ == plain_body(COM_ECHO, le16(k as u16), req.byte_area()),
        decreases count - i,
    {
        let mut params: Vec<u8> = Vec::new();
        put_u16(&mut params, i);
        assert(params@ =~= le16(i));
        out.push(RespBody::new(COM_ECHO, params, copy_all(data)));
        i += 1;
    }
    assert(body_views(out@) =~= Seq::new(
        echo_count(req.words()) as nat,
        |i: int| plain_body(COM_ECHO, le16(i as u16), req.byte_area()),
    ));
    out
}

// ---------------- trees ----------------

/// The share name of a tree id.
pub fn check_tree(conn: &ConnState, tid: u16) -> (r: Result<&String, Status>)
    ensures
        match r {
            Ok(n) => conn.trees@.contains_key(tid) && conn.trees@[tid] == *n,
            Err(s) => !conn.trees@.contains_key(tid) && s == Status::INVALID_HANDLE,
        },
{
    match conn.trees.get(&tid) {
        Some(n) => Ok(n),
        None => Err(Status::INVALID_HANDLE),
    }
}

/// The last piece of a path that is not empty, among the first `n`.
pub open spec fn last_nonempty(p: Seq<Seq<char>>, n: int) -> Seq<char>
    decreases n,
{
    if n <= 0 {
        Seq::empty()
    } else if p[n - 1].len() > 0 {
        p[n - 1]
    } else {
        last_nonempty(p, n - 1)
    }
}

/// The share that a tree path names, in lower case.
pub open spec fn share_named(path: Seq<char>) -> Seq<char> {
    lowercase(last_nonempty(pieces(path), pieces(path).len() as int))
}

/// The share that a tree path names, in lower case.
pub fn share_of_path(path: &str) -> (r: String)
    ensures
        r@ == share_named(path@),
{
    let p = split_slashes(path);
    let mut n: usize = p.len();
    assert(p@.len() == pieces(path@).len());
    while n > 0 && p[n - 1].as_str().is_empty()
        invariant
            n <= p@.len(),
            texts(p@) == pieces(path@),
            last_nonempty(pieces(path@), n as int) == last_nonempty(pieces(path@), p@.len() as int),
        decreases n,
    {
        assert(p@[n - 1]@ == pieces(path@)[n - 1]);
        n -= 1;
    }
    if n == 0 {
        let e = String::new();
        assert(e@ =~= Seq::<char>::empty());
        to_lowercase(e.as_str())
    } else {
        assert(p@[n - 1]@ == pieces(path@)[n - 1]);
        to_lowercase(p[n - 1].as_str())
    }
}

/// Whether `s` starts with `p`.
pub open spec fn text_starts_with(s: Seq<char>, p: Seq<char>) -> bool {
    p.len() <= s.len() && s.subrange(0, p.len() as int) == p
}

/// Whether `s` starts with `p`.
pub fn starts_with(s: &str, p: &str) -> (r: bool)
    ensures
        r == text_starts_with(s@, p@),
{
    let a = chars_of(s);
    let b = chars_of(p);
    if b.len() > a.len() {
        return false;
    }
    let mut i: usize = 0;
    while i < b.len()
        invariant
            i <= b@.len() <= a@.len(),
            a@ == s@,
            b@ == p@,
            forall|k: int| 0 <= k < i ==> a@[k] == b@[k],
        decreases b@.len() - i,
    {
        if a[i] != b[i] {
            assert(s@.subrange(0, p@.len() as int)[i as int] != p@[i as int]);
            return false;
        }
        i += 1;
    }
    assert(s@.subrange(0, p@.len() as int) =~= p@);
    true
}

/// What a TREE_CONNECT asks for: the share and whether it is the pipe share.
pub struct TreeTarget {
    pub share: Seq<char>,
    pub ipc: bool,
}

/// The target of a TREE_CONNECT, whose strings follow the password of `pw` bytes.
pub open spec fn tree_target(d: Seq<u8>, pw: int, unicode: bool, base: int) -> TreeTarget {
    let path = zstring_text(d, pw, unicode, base);
    let end = zstring_end(d, pw, unicode, base);
    let share = share_named(path);
    let service = zstring_text(d, end, false, base + end);
    TreeTarget { share, ipc: share == "ipc$"@ || text_starts_with(service, "IPC"@) }
}

/// The status a TREE_CONNECT is refused with; none where it is granted.
pub open spec fn tree_refusal(server: &ServerShared, w: Seq<u8>, d: Seq<u8>, unicode: bool, base: int) -> Option<Status> {
    if w.len() < 6 {
        Some(Status::INVALID_PARAMETER)
    } else if u16_at(w, 6) > d.len() {
        Some(Status::ACCESS_DENIED)
    } else {
        let t = tree_target(d, u16_at(w, 6) as int, unicode, base);
        if !server.shares@.contains_key(t.share) && !t.ipc {
            Some(Status::BAD_NETWORK_NAME)
        } else {
            None
        }
    }
}

/// The bytes of a TREE_CONNECT response: service and file system name.
pub open spec fn tree_bytes(ipc: bool, unicode: bool) -> Seq<u8> {
    let svc = zstring_bytes(
        0,
        if ipc {
            "IPC"@
        } else {
            "A:"@
        },
        false,
        41,
    );
    svc + zstring_bytes(
        svc.len() as int,
        if ipc {
            ""@
        } else {
            "NTFS"@
        },
        unicode,
        44,
    )
}

/// A reader of a string stops at or after where it started, and not past the end.
pub proof fn lemma_zstring_end(d: Seq<u8>, p: int, unicode: bool, base: int)
    requires
        0 <= p <= d.len(),
        0 <= base,
    ensures
        p <= zstring_end(d, p, unicode, base) <= d.len(),
{
    if unicode {
        lemma_zunits_end(d, crate::smb::even_start(d, p, base));
    } else {
        lemma_zbytes_end(d, p);
    }
}

/// A reader of code units stops at or after where it started, and at most at the
/// end.
pub proof fn lemma_zunits_end(d: Seq<u8>, p: int)
    requires
        0 <= p <= d.len(),
    ensures
        p <= crate::smb::zunits_end(d, p) <= d.len(),
    decreases d.len() - p,
{
    if p + 1 < d.len() && u16_at(d, p) != 0 {
        lemma_zunits_end(d, p + 2);
    }
}

/// A reader of bytes stops at or after where it started, and at most at the end.
pub proof fn lemma_zbytes_end(d: Seq<u8>, p: int)
    requires
        0 <= p <= d.len(),
    ensures
        p <= crate::smb::zbytes_end(d, p) <= d.len(),
    decreases d.len() - p,
{
    if p < d.len() && d[p] != 0 {
        lemma_zbytes_end(d, p + 1);
    }
}

/// Whether tree `tid` was added to the session, and nothing else but the tree
/// table changed.
pub open spec fn tree_added(new: &ConnState, old: &ConnState, tid: u16) -> bool {
    &&& new.challenge == old.challenge
    &&& new.negotiated == old.negotiated
    &&& new.uid == old.uid
    &&& new.auth_pending == old.auth_pending
    &&& new.spnego == old.spnego
    &&& new.handles == old.handles
    &&& new.searches == old.searches
    &&& match (old.session, new.session) {
        (None, None) => true,
        (Some(o), Some(n)) => n.user == o.user && n.guest == o.guest && n.trees@ == o.trees@.push(tid),
        _ => false,
    }
}

/// The tree ids but `tid`, in order.
pub open spec fn without_tree(trees: Seq<u16>, tid: u16) -> Seq<u16> {
    trees.filter(other_than(tid))
}

/// The test for a tree id other than `tid`.
pub open spec fn other_than(tid: u16) -> spec_fn(u16) -> bool {
    |t: u16| t != tid
}

/// Whether tree `tid` was taken from the session, and nothing else but the tree
/// table changed.
pub open spec fn tree_dropped(new: &ConnState, old: &ConnState, tid: u16) -> bool {
    &&& new.challenge == old.challenge
    &&& new.negotiated == old.negotiated
    &&& new.uid == old.uid
    &&& new.auth_pending == old.auth_pending
    &&& new.spnego == old.spnego
    &&& new.handles == old.handles
    &&& new.searches == old.searches
    &&& match (old.session, new.session) {
        (None, None) => true,
        (Some(o), Some(n)) => n.user == o.user && n.guest == o.guest && n.trees@ == without_tree(o.trees@, tid),
        _ => false,
    }
}

fn make_tree_bytes(ipc: bool, unicode: bool) -> (b: Vec<u8>)
    ensures
        b@ == tree_bytes(ipc, unicode),
{
    let svc = if ipc {
        "IPC"
    } else {
        "A:"
    };
    let fs = if ipc {
        ""
    } else {
        "NTFS"
    };
    let mut w = Wr::new();
    w.zstring(svc, false, 41);
    assert(w.buf@ =~= zstring_bytes(0, svc@, false, 41));
    proof {
        reveal_strlit("IPC");
        reveal_strlit("A:");
        assert(w.buf@.len() < 0x100) by {
            lemma_utf8_len(svc@);
        }
    }
    w.zstring(fs, unicode, 44);
    w.buf
}

proof fn lemma_utf8_len(s: Seq<char>)
    ensures
        encode_utf8(s).len() <= 4 * s.len(),
    decreases s.len(),
{
    if s.len() > 0 {
        lemma_utf8_len(s.drop_first());
    }
}

/// Whether a TREE_CONNECT takes the connection from `c0` to `c1`, the counters
/// from `i0` to `i1`, and gives `r`.
pub open spec fn tree_connected(
    server: &ServerShared,
    c0: &ConnState,
    c1: &ConnState,
    i0: &Ids,
    i1: &Ids,
    req: &Request,
    r: Result<Vec<RespBody>, Status>,
) -> bool {
    let unicode = req.hdr.flags2 & FLAGS2_UNICODE != 0;
    let base = req.bc_off + 2;
    match tree_refusal(server, req.words(), req.byte_area(), unicode, base) {
        Some(st) => r is Err && r->Err_0 == st && *c1 == *c0 && *i1 == *i0,
        None => {
            let t = tree_target(req.byte_area(), u16_at(req.words(), 6) as int, unicode, base);
            let tid = next_unreserved(i0.tid);
            &&& *i1 == (Ids { tid: tid.wrapping_add(1), ..*i0 })
            &&& c1.trees@ == c0.trees@.insert(tid, c1.trees@[tid])
            &&& c1.trees@[tid]@ == t.share
            &&& tree_added(c1, c0, tid)
            &&& r matches Ok(v)
            &&& body_views(v@) == seq![
                BodyView {
                    tid_override: Some(tid),
                    ..plain_body(
                        COM_TREE_CONNECT_ANDX,
                        seq![0xFFu8, 0u8] + le16(0) + le16(1),
                        tree_bytes(t.ipc, unicode),
                    )
                },
            ]
        },
    }
}

/// Connects a tree. The words hold the password length; path and service
/// follow the password.
pub fn tree_connect(server: &ServerShared, conn: &mut ConnState, ids: &mut Ids, req: &Request) -> (r: Result<
    Vec<RespBody>,
    Status,
>)
    requires
        server.wf(),
        req.wc_off < req.buf@.len(),
        req.words().len() < 6 || req.words().len() >= 8,
        req.bc_off + 2 + req.buf@.len() <= usize::MAX,
    ensures
        tree_connected(server, old(conn), final(conn), old(ids), final(ids), req, r),
{
    let w = req.word_bytes();
    if w.len() < 6 {
        return Err(Status::INVALID_PARAMETER);
    }
    let pw: usize = get_u16(w, 6) as usize;
    let data = req.data();
    if pw > data.len() {
        return Err(Status::ACCESS_DENIED);
    }
    let base: usize = req.bc_off + 2;
    let unicode: bool = req.unicode();
    let mut rd = Rd::new(data, pw);
    let path = rd.zstring(unicode, base);
    proof {
        lemma_zstring_end(data@, pw as int, unicode, base as int);
    }
    let service = rd.zstring(false, 0);
    let share = share_of_path(path.as_str());
    let ipc: bool = same_text(share.as_str(), "ipc$") || starts_with(service.as_str(), "IPC");
    if !server.shares.contains(share.as_str()) && !ipc {
        return Err(Status::BAD_NETWORK_NAME);
    }
    let tid: u16 = next_tid(ids);
    conn.trees.insert(tid, share);
    let sess = conn.session.take();
    conn.session = match sess {
        Some(s) => {
            let mut s = s;
            s.trees.push(tid);
            Some(s)
        },
        None => None,
    };
    let mut params: Vec<u8> = Vec::new();
    params.push(0xFF);
    params.push(0);
    assert(params@ =~= seq![0xFFu8, 0u8]);
    put_u16(&mut params, 0);
    put_u16(&mut params, 1);
    let bytes = make_tree_bytes(ipc, unicode);
    let mut body = RespBody::new(COM_TREE_CONNECT_ANDX, params, bytes);
    body.tid_override = Some(tid);
    Ok(one_body(body))
}

/// A body without words and bytes.
pub fn empty_body(command: u8) -> (b: RespBody)
    ensures
        b@ == plain_body(command, Seq::empty(), Seq::empty()),
{
    let p: Vec<u8> = Vec::new();
    let d: Vec<u8> = Vec::new();
    assert(p@ =~= Seq::<u8>::empty());
    assert(d@ =~= Seq::<u8>::empty());
    RespBody::new(command, p, d)
}

/// Whether a TREE_DISCONNECT takes the connection from `c0` to `c1` and gives
/// `bodies`.
pub open spec fn tree_disconnected(c0: &ConnState, c1: &ConnState, tid: u16, bodies: Seq<RespBody>) -> bool {
    &&& body_views(bodies) == seq![plain_body(COM_TREE_DISCONNECT, Seq::empty(), Seq::empty())]
    &&& c1.trees@ == c0.trees@.remove(tid)
    &&& tree_dropped(c1, c0, tid)
}

/// Disconnects a tree.
pub fn tree_disconnect(conn: &mut ConnState, tid: u16) -> (bodies: Vec<RespBody>)
    ensures
        tree_disconnected(old(conn), final(conn), tid, bodies@),
{
    conn.trees.remove(&tid);
    let sess = conn.session.take();
    conn.session = match sess {
        Some(s) => {
            let mut s = s;
            let keep = |t: &u16| -> (b: bool)
                ensures
                    b == (*t != tid),
                { *t != tid };
            retain(&mut s.trees, &keep, Ghost(other_than(tid)));
            Some(s)
        },
        None => None,
    };
    one_body(empty_body(COM_TREE_DISCONNECT))
}

/// Disconnecting the tree that a connect has just handed out leaves the trees that were
/// connected before.
pub proof fn law_disconnect_undoes_connect(
    server: &ServerShared,
    c0: &ConnState,
    c1: &ConnState,
    c2: &ConnState,
    i0: &Ids,
    i1: &Ids,
    req: &Request,
    connected: Vec<RespBody>,
    disconnected: Seq<RespBody>,
    tid: u16,
)
    requires
        tree_connected(server, c0, c1, i0, i1, req, Ok(connected)),
        body_views(connected@)[0].tid_override == Some(tid),
        tree_disconnected(c1, c2, tid, disconnected),
        !c0.trees@.contains_key(tid),
    ensures
        c2.trees@ == c0.trees@,
{
    assert(c2.trees@ =~= c0.trees@);
}

// ---------------- QUERY_INFORMATION_DISK ----------------

/// The words of a QUERY_INFORMATION_DISK response.
pub open spec fn disk_words() -> Seq<u8> {
    le32(100_000) + le32(50_000) + le16(512) + le16(64) + le16(0)
}

/// Whether `r` answers a QUERY_INFORMATION_DISK.
pub open spec fn disk_queried(req: &Request, conn: &ConnState, r: Result<Vec<RespBody>, Status>) -> bool {
    match r {
        Ok(v) => conn.trees@.contains_key(req.hdr.tid) && body_views(v@) == seq![
            plain_body(COM_QUERY_INFORMATION_DISK, disk_words(), Seq::empty()),
        ],
        Err(s) => !conn.trees@.contains_key(req.hdr.tid) && s == Status::INVALID_HANDLE,
    }
}

/// Answers a QUERY_INFORMATION_DISK.
pub fn query_disk(req: &Request, conn: &ConnState) -> (r: Result<Vec<RespBody>, Status>)
    ensures
        disk_queried(req, conn, r),
{
    match check_tree(conn, req.hdr.tid) {
        Ok(_) => {},
        Err(s) => {
            return Err(s);
        },
    }
    let mut params: Vec<u8> = Vec::new();
    put_u32(&mut params, 100_000);
    assert(params@ =~= le32(100_000));
    put_u32(&mut params, 50_000);
    put_u16(&mut params, 512);
    put_u16(&mut params, 64);
    put_u16(&mut params, 0);
    let bytes: Vec<u8> = Vec::new();
    assert(bytes@ =~= Seq::<u8>::empty());
    Ok(one_body(RespBody::new(COM_QUERY_INFORMATION_DISK, params, bytes)))
}

// ---------------- laws ----------------

proof fn lemma_index_of_name(names: Seq<Seq<char>>, name: Seq<char>, n: int)
    requires
        0 <= n,
    ensures
        match index_of_name(names, name, n) {
            Some(i) => n <= i < names.len() && names[i] == name && forall|k: int| n <= k < i ==> #[trigger] names[k] != name,
            None => forall|k: int| n <= k < names.len() ==> #[trigger] names[k] != name,
        },
    decreases names.len() - n,
{
    if n < names.len() && names[n] != name {
        lemma_index_of_name(names, name, n + 1);
    }
}

proof fn lemma_index_of_lanman(names: Seq<Seq<char>>, n: int)
    requires
        0 <= n,
    ensures
        match index_of_lanman(names, n) {
            Some(i) => n <= i < names.len() && (names[i] == "lanman2.1"@ || names[i] == "lanman1.0"@),
            None => forall|k: int| n <= k < names.len() ==> #[trigger] names[k] != "lanman2.1"@ && names[k] != "lanman1.0"@,
        },
    decreases names.len() - n,
{
    if n < names.len() && names[n] != "lanman2.1"@ && names[n] != "lanman1.0"@ {
        lemma_index_of_lanman(names, n + 1);
    }
}

/// The dialect that is chosen is one that the client offers: the newest of the older ones
/// wherever it is offered. All ones say that none was.
pub proof fn law_chosen_dialect_is_offered(names: Seq<Seq<char>>, k: int)
    requires
        names.len() < 0xFFFF,
        0 <= k < names.len(),
    ensures
        ({
            let c = chosen_dialect(names);
            &&& names[k] == "nt lm 0.12"@ ==> c < names.len() && names[c as int] == "nt lm 0.12"@
            &&& names[k] == "lanman2.1"@ || names[k] == "lanman1.0"@ ==> c < names.len()
            &&& c < names.len() ==> names[c as int] == "nt lm 0.12"@ || names[c as int] == "lanman2.1"@ || names[c as int]
                == "lanman1.0"@
            &&& c >= names.len() ==> c == 0xFFFF
        }),
{
    lemma_index_of_name(names, "nt lm 0.12"@, 0);
    lemma_index_of_lanman(names, 0);
}

/// The answer to a negotiation tells the index of the dialect, that users log in with
/// encrypted passwords, the time, and the identity of the server.
#[verifier::rlimit(40)]
#[verifier::spinoff_prover]
pub proof fn law_negotiation_answer_fields(req: &Request, guid: Seq<u8>, now: u64, bodies: Seq<RespBody>)
    requires
        negotiated(req, guid, now, bodies),
    ensures
        ({
            let w = bodies[0]@.params;
            &&& bodies.len() == 1
            &&& bodies[0]@.bytes == guid
            &&& little(w, 0, 2) == chosen_dialect(dialects(req.byte_area(), 0))
            &&& w[2] == 3
            &&& little(w, 19, 4) == 0xC000_23DC
            &&& little(w, 23, 8) == now
        }),
{
    let dialect = chosen_dialect(dialects(req.byte_area(), 0));
    let w = negotiate_words(dialect, now);
    lemma_only_body(bodies, plain_body(COM_NEGOTIATE, w, guid));
    assert(0x4u32 | 0x8 | 0x10 | 0x40 | 0x80 | 0x100 | 0x200 | 0x2000 | 0x4000_0000 | 0x8000_0000 | 0x8000_0000
        == 0xC000_23DC && 0x1u8 | 0x2u8 == 3) by (bit_vector);
    let caps = server_caps();
    assert(caps == 0xC000_23DC);
    let m = SEC_MODE_USER | SEC_MODE_ENCRYPT;
    let q0 = seq![m] + le16(16) + le16(1) + le32(65535) + le32(65536) + le32(0x1234_5678) + le32(caps) + le64(now) + le16(0)
        + seq![0u8];
    assert(w =~= Seq::<u8>::empty() + le16(dialect) + q0);
    lemma_little_written(Seq::empty(), dialect, 0, 0, q0);
    let p1 = le16(dialect) + seq![m] + le16(16) + le16(1) + le32(65535) + le32(65536) + le32(0x1234_5678);
    let q1 = le64(now) + le16(0) + seq![0u8];
    assert(w =~= p1 + le32(caps) + q1);
    lemma_little_written(p1, 0, caps, 0, q1);
    let p2 = p1 + le32(caps);
    assert(w =~= p2 + le64(now) + (le16(0) + seq![0u8]));
    lemma_little_written(p2, 0, 0, now, le16(0) + seq![0u8]);
}

proof fn lemma_logged_in(
    c0: &ConnState,
    c1: &ConnState,
    uid: u16,
    guest: bool,
    user: Seq<char>,
    unicode: bool,
    v: (Vec<RespBody>, u16, bool, Status),
)
    requires
        logged_in(c0, c1, uid, guest, user, unicode, v),
    ensures
        v.0@[0]@.uid_override == Some(uid),
        little(v.0@[0]@.params, 4, 2) == 1 <==> guest,
{
    let token = if c0.spnego {
        accept_complete()
    } else {
        Seq::empty()
    };
    let a: u16 = if guest {
        1
    } else {
        0
    };
    let n = (token.len() % 65536) as u16;
    let w = setup_words(a, token.len() as int);
    lemma_only_body(
        v.0@,
        BodyView { uid_override: Some(uid), ..plain_body(COM_SESSION_SETUP_ANDX, w, setup_bytes(token, unicode)) },
    );
    assert(w =~= (seq![0xFFu8, 0u8] + le16(0)) + le16(a) + le16(n));
    lemma_little_written(seq![0xFFu8, 0u8] + le16(0), a, 0, 0, le16(n));
}

/// A login is answered with success only where its credentials hold, and then leaves a
/// session of that user under the id that the client is told; a leg that is refused changes
/// nothing, and the first leg logs nobody in.
#[verifier::rlimit(60)]
#[verifier::spinoff_prover]
pub proof fn law_only_good_credentials_log_in(
    server: &ServerShared,
    c0: &ConnState,
    c1: &ConnState,
    i0: &Ids,
    i1: &Ids,
    req: &Request,
    now: u64,
    opts: &Type2Options,
    r: Result<(Vec<RespBody>, u16, bool, Status), Status>,
)
    requires
        session_set_up(server, c0, c1, i0, i1, req, now, opts, r),
    ensures
        ({
            let m = inner_or_empty(setup_blob(req.words(), req.byte_area())->0);
            let out = login_result(server, c0, m);
            &&& r is Err ==> *c1 == *c0 && *i1 == *i0
            &&& r matches Ok(v) ==> v.1 == c1.uid && c1.uid != 0
            &&& r matches Ok(v) ==> (v.3 == Status::SUCCESS ==> message_type(m) == Some(3u32) && out.0 && (
            c1.session matches Some(s) && s.user@ == out.2 && s.guest == out.1) && !c1.auth_pending && v.0@[0]@.uid_override
                == Some(c1.uid) && (little(v.0@[0]@.params, 4, 2) == 1 <==> out.1))
            &&& r matches Ok(v) ==> (v.3 != Status::SUCCESS ==> v.3 == Status::MORE_PROCESSING_REQUIRED && c1.session
                == c0.session && c1.auth_pending)
            &&& setup_blob(req.words(), req.byte_area()) is Some && message_type(m) == Some(3u32) && m.len() >= 32 && out.0
                ==> r is Ok && r->Ok_0.3 == Status::SUCCESS
            &&& message_type(m) == Some(3u32) && !out.0 ==> r is Err
            &&& c1.trees@ == c0.trees@ && c1.handles@ == c0.handles@
        }),
{
    if r is Ok {
        let v = r->Ok_0;
        let m = inner_or_empty(setup_blob(req.words(), req.byte_area())->0);
        if !starts_login(message_type(m)) {
            let out = login_result(server, c0, m);
            lemma_logged_in(c0, c1, c1.uid, out.1, out.2, req.hdr.flags2 & FLAGS2_UNICODE != 0, v);
        }
    }
}

/// The security blob of a login is as long as bytes 14 and 15 say, and stands at the start
/// of the bytes.
pub proof fn law_login_blob_is_the_one_sent(w: Seq<u8>, d: Seq<u8>)
    requires
        w.len() >= 24,
    ensures
        setup_blob(w, d) is Some <==> little(w, 14, 2) <= d.len(),
        setup_blob(w, d) matches Some(b) ==> b == d.take(little(w, 14, 2)),
{
    lemma_little(w, 14);
    if little(w, 14, 2) <= d.len() {
        assert(d.subrange(0, little(w, 14, 2)) =~= d.take(little(w, 14, 2)));
    }
}

/// An echo comes back as often as asked for, at least once, each time with the data that
/// came, numbered from zero.
pub proof fn law_echo_comes_back(req: &Request, b: Seq<RespBody>, i: int)
    requires
        echoed(req, b),
        req.words().len() >= 2,
    ensures
        little(req.words(), 0, 2) > 0 ==> b.len() == little(req.words(), 0, 2),
        little(req.words(), 0, 2) == 0 ==> b.len() == 1,
        0 <= i < b.len() ==> b[i]@.bytes == req.byte_area() && little(b[i]@.params, 0, 2) == i,
{
    lemma_little(req.words(), 0);
    assert(body_views(b).len() == b.len());
    if 0 <= i < b.len() {
        let n = i as u16;
        assert(i < 0x1_0000);
        assert(body_views(b)[i] == b[i]@);
        assert(b[i]@ == plain_body(COM_ECHO, le16(n), req.byte_area()));
        assert(le16(n) =~= Seq::<u8>::empty() + le16(n) + Seq::<u8>::empty());
        lemma_little_written(Seq::empty(), n, 0, 0, Seq::empty());
    }
}

proof fn lemma_last_nonempty(p: Seq<Seq<char>>, n: int)
    requires
        0 < n <= p.len(),
        p[n - 1].len() > 0,
    ensures
        last_nonempty(p, n) == p[n - 1],
{
}

/// The share that a path names is its last part, whatever host stands in front, in lower
/// case.
pub proof fn law_path_names_its_share(front: Seq<char>, name: Seq<char>)
    requires
        name.len() > 0,
        forall|k: int| 0 <= k < name.len() ==> #[trigger] name[k] != '\\' && name[k] != '/',
        front.len() > 0 ==> front.last() == '\\' || front.last() == '/',
    ensures
        share_named(front + name) == lowercase(name),
{
    lemma_last_piece(front, name);
    lemma_last_nonempty(pieces(front + name), pieces(front + name).len() as int);
}

/// A tree connect leads to the share that the client names behind the password, by the id
/// that the answer tells; every other tree stays. A share that is not served is refused,
/// unless pipes are asked for, and a refusal changes nothing.
#[verifier::rlimit(40)]
#[verifier::spinoff_prover]
pub proof fn law_connected_tree_leads_to_its_share(
    server: &ServerShared,
    c0: &ConnState,
    c1: &ConnState,
    i0: &Ids,
    i1: &Ids,
    req: &Request,
    front: Seq<char>,
    name: Seq<char>,
    r: Result<Vec<RespBody>, Status>,
    other: u16,
)
    requires
        tree_connected(server, c0, c1, i0, i1, req, r),
        req.words().len() >= 8,
        little(req.words(), 6, 2) <= req.byte_area().len(),
        req.hdr.flags2 & FLAGS2_UNICODE != 0,
        string_at(req.byte_area(), little(req.words(), 6, 2), front + name, true, req.bc_off + 2),
        name.len() > 0,
        forall|k: int| 0 <= k < name.len() ==> #[trigger] name[k] != '\\' && name[k] != '/',
        front.len() > 0 ==> front.last() == '\\' || front.last() == '/',
    ensures
        ({
            let share = lowercase(name);
            &&& server.shares@.dom().contains(share) || share == "ipc$"@ ==> r is Ok
            &&& r is Err ==> *c1 == *c0 && *i1 == *i0 && r->Err_0 == Status::BAD_NETWORK_NAME
            &&& r matches Ok(v) ==> (v@[0]@.tid_override matches Some(tid) && 0 < tid < 0xFFFF && c1.trees@.dom().contains(tid)
                && c1.trees@[tid]@ == share && (other != tid ==> c1.trees@.dom().contains(other)
                == c0.trees@.dom().contains(other) && c1.trees@[other] == c0.trees@[other]))
            &&& c1.uid == c0.uid && c1.handles@ == c0.handles@
        }),
{
    lemma_little(req.words(), 6);
    let pw = little(req.words(), 6, 2);
    lemma_string_at(req.byte_area(), pw, front + name, true, req.bc_off + 2);
    law_path_names_its_share(front, name);
    if r is Ok {
        let v = r->Ok_0@;
        assert(body_views(v).len() == v.len());
        assert(body_views(v)[0] == v[0]@);
    }
}

/// A tree that is disconnected is gone, from the table and from its session; every other
/// stays.
pub proof fn law_disconnected_tree_is_gone(c0: &ConnState, c1: &ConnState, tid: u16, bodies: Seq<RespBody>, other: u16)
    requires
        tree_disconnected(c0, c1, tid, bodies),
    ensures
        !c1.trees@.dom().contains(tid),
        other != tid ==> c1.trees@.dom().contains(other) == c0.trees@.dom().contains(other) && c1.trees@[other]
            == c0.trees@[other],
        c1.session matches Some(s) ==> !s.trees@.contains(tid),
        c0.session is Some <==> c1.session is Some,
{
    if c1.session is Some {
        let v = c0.session->0.trees@;
        let w = c1.session->0.trees@;
        if w.contains(tid) {
            let k = choose|k: int| 0 <= k < w.len() && w[k] == tid;
            v.lemma_filter_pred(other_than(tid), k);
        }
    }
}

/// A disk is described only on a tree that is connected: 100000 units, half of them free,
/// of 512 blocks.
pub proof fn law_disk_is_described(req: &Request, conn: &ConnState, r: Result<Vec<RespBody>, Status>)
    requires
        disk_queried(req, conn, r),
    ensures
        r is Ok <==> conn.trees@.dom().contains(req.hdr.tid),
        r matches Ok(v) ==> little(v@[0]@.params, 0, 4) == 100_000 && little(v@[0]@.params, 4, 4) == 50_000,
{
    if r is Ok {
        lemma_only_body(r->Ok_0@, plain_body(COM_QUERY_INFORMATION_DISK, disk_words(), Seq::empty()));
        let w = disk_words();
        let q = le16(512) + le16(64) + le16(0);
        assert(w =~= Seq::<u8>::empty() + le32(100_000) + (le32(50_000) + q));
        lemma_little_written(Seq::empty(), 0, 100_000, 0, le32(50_000) + q);
        assert(w =~= le32(100_000) + le32(50_000) + q);
        lemma_little_written(le32(100_000), 0, 50_000, 0, q);
    }
}

} // verus!
