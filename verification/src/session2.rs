//! SMB2 sessions and trees: session setup in two legs, binding of channels, tree
//! connects, logoff.
use vstd::prelude::*;
use crate::auth::{authenticate_ntlmssp, outcome, AuthOutcome, OutcomeView};
use crate::bytes::{copy_all, copy_range, get_u32, get_u64, le32, lemma_little, little, patched, put_at, put_u32, u32_at, u64_at};
use crate::conn2::{counted, next_session_id, Server2, Smb2Conn};
use crate::frame2::DIALECT_202;
use crate::ntlm::{build_type2, inner_message, is_type3_of, message_type, msg_type, negtoken_targ, parse_type3, type2_bytes, type2_flags, unwrap_blob, wrap_negtoken_targ, Type2Options, Type3, MSG_TYPE1, MSG_TYPE3};
use crate::sessions::SessionEntry;
use crate::smb::{status_code, Status};

verus! {

broadcast use vstd::std_specs::hash::group_hash_axioms;

// ---------------- the list of mechanisms in a first token ----------------

/// The content length and the header length of the DER element at `i`, where its
/// length is written in at most two bytes.
pub open spec fn der_len_at(b: Seq<u8>, i: int) -> Option<(int, int)> {
    if i + 1 >= b.len() {
        None
    } else if b[i + 1] <= 0x7F {
        Some((b[i + 1] as int, 2))
    } else if b[i + 1] == 0x81 && i + 2 < b.len() {
        Some((b[i + 2] as int, 3))
    } else {
        None
    }
}

/// The list of mechanisms in the field at `m` or one behind it, before `stop`.
pub open spec fn types_from(b: Seq<u8>, m: int, stop: int) -> Option<Seq<u8>>
    decreases stop - m,
{
    if m >= stop || m >= b.len() || b[m] != 0xA0 {
        None
    } else {
        match der_len_at(b, m) {
            None => types_from(b, m + 1, stop),
            Some((_, h)) => {
                let t = m + h;
                if t < b.len() && b[t] == 0x30 && der_len_at(b, t) is Some {
                    let (n, k) = der_len_at(b, t)->0;
                    let end = if t + k + n < b.len() {
                        t + k + n
                    } else {
                        b.len() as int
                    };
                    Some(b.subrange(t, end))
                } else {
                    types_from(b, m + 1, stop)
                }
            },
        }
    }
}

/// The list of mechanisms in the token that may start at `a`.
pub open spec fn types_in_token(b: Seq<u8>, a: int) -> Option<Seq<u8>> {
    if b[a] != 0xA0 {
        None
    } else {
        match der_len_at(b, a) {
            None => None,
            Some((_, h)) => {
                let s = a + h;
                if s < b.len() && b[s] == 0x30 {
                    match der_len_at(b, s) {
                        None => None,
                        Some((n, _)) => types_from(b, s + 2, s + n - 4),
                    }
                } else {
                    None
                }
            },
        }
    }
}

/// The list of mechanisms of a first token: that of the first place from `a` on
/// that holds one; empty where none does.
pub open spec fn mech_types(b: Seq<u8>, a: int) -> Seq<u8>
    decreases b.len() - a,
{
    if a + 4 >= b.len() {
        Seq::empty()
    } else {
        match types_in_token(b, a) {
            Some(t) => t,
            None => mech_types(b, a + 1),
        }
    }
}

fn der_len(b: &[u8], i: usize) -> (r: Option<(usize, usize)>)
    requires
        i < b@.len(),
    ensures
        match r {
            Some(p) => der_len_at(b@, i as int) == Some((p.0 as int, p.1 as int)) && p.0 <= 255 && 2 <= p.1 <= 3,
            None => der_len_at(b@, i as int) is None,
        },
{
    let n: usize = b.len();
    if n - i < 2 {
        return None;
    }
    let v: u8 = b[i + 1];
    if v <= 0x7F {
        Some((v as usize, 2))
    } else if v == 0x81 && n - i > 2 {
        Some((b[i + 2] as usize, 3))
    } else {
        None
    }
}

fn read_types(b: &[u8], from: usize, stop: usize) -> (r: Option<Vec<u8>>)
    requires
        b@.len() <= usize::MAX - 1024,
        from <= b@.len() + 2,
    ensures
        crate::sealing::bytes_of(r) == types_from(b@, from as int, stop as int),
{
    let n: usize = b.len();
    let mut m: usize = from;
    while m < stop
        invariant
            n == b@.len(),
            n <= usize::MAX - 1024,
            m <= n + 2,
            types_from(b@, from as int, stop as int) == types_from(b@, m as int, stop as int),
        decreases stop - m,
    {
        if m >= n || b[m] != 0xA0 {
            return None;
        }
        match der_len(b, m) {
            None => {},
            Some(p) => {
                let t: usize = m + p.1;
                if t < n && b[t] == 0x30 {
                    match der_len(b, t) {
                        Some(q) => {
                            let full: usize = t + q.1 + q.0;
                            let end: usize = if full < n {
                                full
                            } else {
                                n
                            };
                            return Some(copy_range(b, t, end));
                        },
                        None => {},
                    }
                }
            },
        }
        m += 1;
    }
    None
}

fn read_token(b: &[u8], a: usize) -> (r: Option<Vec<u8>>)
    requires
        b@.len() <= usize::MAX - 1024,
        a + 4 < b@.len(),
    ensures
        crate::sealing::bytes_of(r) == types_in_token(b@, a as int),
{
    if b[a] != 0xA0 {
        return None;
    }
    let n: usize = b.len();
    match der_len(b, a) {
        None => None,
        Some(p) => {
            let s: usize = a + p.1;
            if s < n && b[s] == 0x30 {
                match der_len(b, s) {
                    None => None,
                    Some(q) => {
                        let end: usize = s + q.0;
                        if end < 4 {
                            return None;
                        }
                        read_types(b, s + 2, end - 4)
                    },
                }
            } else {
                None
            }
        },
    }
}

/// The list of mechanisms of a first token.
pub fn find_mech_types(b: &[u8]) -> (r: Vec<u8>)
    requires
        b@.len() <= usize::MAX - 1024,
    ensures
        r@ == mech_types(b@, 0),
{
    let n: usize = b.len();
    let mut a: usize = 0;
    while n >= 4 && a < n - 4
        invariant
            n == b@.len(),
            n <= usize::MAX - 1024,
            a <= n,
            mech_types(b@, 0) == mech_types(b@, a as int),
        decreases n - a,
    {
        match read_token(b, a) {
            Some(t) => return t,
            None => {},
        }
        a += 1;
    }
    let e: Vec<u8> = Vec::new();
    assert(e@ =~= Seq::<u8>::empty());
    e
}

// ---------------- session setup ----------------

/// The request binds a channel to an existing session.
pub const FLAG_BINDING: u8 = 0x01;

/// The NTLM flags for signing, sealing and key exchange.
pub const NTLM_PROTECTION: u32 = 0x4000_0030;

/// The body of a session setup request.
pub struct SetupReq {
    pub flags: u8,
    pub blob: Vec<u8>,
    /// The encrypted session key of an AUTHENTICATE message; empty where it has
    /// none.
    pub encrypted_key: Vec<u8>,
}

/// What the signature over the list of mechanisms is made of.
pub struct MicInput {
    pub key: [u8; 16],
    /// The client sent an encrypted session key.
    pub key_exchange: bool,
    pub mech_types: Vec<u8>,
}

/// How a session setup goes on.
pub enum SetupReply {
    /// More is needed: the challenge token.
    Challenge(Vec<u8>),
    /// The session is established.
    Established { flags: u16, mic: Option<MicInput> },
}

/// The status that a reply is sent with.
pub open spec fn reply_status(r: SetupReply) -> Status {
    match r {
        SetupReply::Challenge(_) => Status::MORE_PROCESSING_REQUIRED,
        SetupReply::Established { .. } => Status::SUCCESS,
    }
}

impl SetupReply {
    /// The status that a reply is sent with.
    pub fn status(&self) -> (s: Status)
        ensures
            s == reply_status(*self),
    {
        match self {
            SetupReply::Challenge(_) => Status::MORE_PROCESSING_REQUIRED,
            SetupReply::Established { .. } => Status::SUCCESS,
        }
    }
}

/// The session id in the header of a request.
pub open spec fn header_session(buf: Seq<u8>) -> u64 {
    if buf.len() >= 48 {
        u64_at(buf, 40)
    } else {
        0
    }
}

/// Whether a session setup binds a channel to an existing session.
pub open spec fn binds(server: &Server2, req: SetupReq, buf: Seq<u8>) -> bool {
    req.flags & FLAG_BINDING != 0 && header_session(buf) != 0 && server.sessions@.contains_key(header_session(buf))
}

/// The NTLM message in a token; empty where there is none.
pub open spec fn token_message(blob: Seq<u8>) -> Seq<u8> {
    match inner_message(blob) {
        Some(m) => m,
        None => Seq::empty(),
    }
}

/// The challenge token: it also grants signing, sealing and key exchange.
pub open spec fn challenge_token(c: &Smb2Conn, server: &Server2, now: u64, opts: Type2Options) -> Seq<u8> {
    let t = type2_bytes(c.challenge@, server.domain@, server.server_name@, now, type2_flags(opts), !opts.no_version);
    negtoken_targ(patched(t, 20, le32(u32_at(t, 20) | NTLM_PROTECTION)))
}

/// Whether the first leg is carried out.
pub open spec fn challenged2(
    s0: &Server2,
    s1: &Server2,
    c0: &Smb2Conn,
    c1: &Smb2Conn,
    req: SetupReq,
    buf: Seq<u8>,
    now: u64,
    opts: Type2Options,
    r: Result<SetupReply, Status>,
) -> bool {
    let token = challenge_token(c0, s0, now, opts);
    &&& r matches Ok(SetupReply::Challenge(t)) && t@ == token
    &&& *s1 == (Server2 {
        next_session_id: if binds(s0, req, buf) {
            s0.next_session_id
        } else {
            counted(s0.next_session_id)
        },
        ..*s0
    })
    &&& *c1 == (Smb2Conn {
        session_id: if binds(s0, req, buf) {
            header_session(buf)
        } else {
            s0.next_session_id
        },
        ntlm_targ: c1.ntlm_targ,
        ntlm_blobs: c1.ntlm_blobs,
        ..*c0
    })
    &&& c1.ntlm_targ matches Some(t) && t@ == token
    &&& c1.ntlm_blobs matches Some(b) && b.0@ == req.blob@ && b.1@.len() == 0
}

/// What becomes of the stored tokens in the second leg.
pub open spec fn blobs_kept(c0: &Smb2Conn, c1: &Smb2Conn, req: SetupReq) -> bool {
    match c0.ntlm_blobs {
        Some(b) => c1.ntlm_blobs matches Some(d) && d.0 == b.0 && d.1@ == req.blob@,
        None => c1.ntlm_blobs is None,
    }
}

/// Whether a client authenticated before with another dialect. Dialect 2.0.2 has no
/// client table, and guests are not held to theirs.
pub open spec fn dialect_clash(server: &Server2, c: &Smb2Conn, guest: bool) -> bool {
    &&& !guest
    &&& c.dialect matches Some(d)
    &&& d != DIALECT_202
    &&& server.client_dialects@.contains_key(c.client_guid)
    &&& server.client_dialects@[c.client_guid] != d
}

/// What the table of client dialects is after a login; a guest leaves it as it is.
pub open spec fn dialects_after(server: &Server2, c: &Smb2Conn, guest: bool) -> Map<[u8; 16], u16> {
    match c.dialect {
        Some(d) => if !guest && d != DIALECT_202 && !server.client_dialects@.contains_key(c.client_guid) {
            server.client_dialects@.insert(c.client_guid, d)
        } else {
            server.client_dialects@
        },
        None => server.client_dialects@,
    }
}

/// Whether the client's token carries a signature that is not zero.
pub open spec fn has_mic(blob: Seq<u8>) -> bool {
    blob.len() > 76 && exists|i: int| 60 <= i < 76 && #[trigger] blob[i] != 0
}

/// The first token that was kept.
pub open spec fn first_token(c: &Smb2Conn) -> Seq<u8> {
    match c.ntlm_blobs {
        Some(b) => b.0@,
        None => Seq::empty(),
    }
}

/// Whether an entry's key material is on the connection.
pub open spec fn holds_entry(c: &Smb2Conn, e: SessionEntry, dialect: Option<u16>) -> bool {
    &&& c.session_key == e.session_key
    &&& c.signing_key == e.signing_key
    &&& c.cipher == e.cipher
    &&& c.enc_keys == e.enc_keys
    &&& c.encrypt_data == e.encrypt_data
    &&& c.dialect == if e.dialect is Some {
        e.dialect
    } else {
        dialect
    }
}

/// Whether the second leg is carried out for an AUTHENTICATE message `t`.
pub open spec fn logged_in2(
    s0: &Server2,
    s1: &Server2,
    c0: &Smb2Conn,
    c1: &Smb2Conn,
    req: SetupReq,
    buf: Seq<u8>,
    t: Type3,
    r: Result<SetupReply, Status>,
) -> bool {
    login_ended(s0, s1, c0, c1, req, buf, outcome(s0.users@, s0.allow_guest, c0.challenge@, t, req.encrypted_key@), r)
}

/// Whether the second leg ends as the outcome of the login asks.
pub open spec fn login_ended(
    s0: &Server2,
    s1: &Server2,
    c0: &Smb2Conn,
    c1: &Smb2Conn,
    req: SetupReq,
    buf: Seq<u8>,
    o: OutcomeView,
    r: Result<SetupReply, Status>,
) -> bool {
    let bound = binds(s0, req, buf) && s0.sessions@.contains_key(c0.session_id);
    &&& blobs_kept(c0, c1, req)
    &&& s1.client_dialects.wf()
    &&& *s1 == (Server2 { client_dialects: s1.client_dialects, ..*s0 })
    &&& if !o.ok {
        &&& r == Err::<SetupReply, Status>(Status::LOGON_FAILURE)
        &&& s1.client_dialects@ == s0.client_dialects@
        &&& *c1 == (Smb2Conn { ntlm_blobs: c1.ntlm_blobs, ..*c0 })
    } else {
        &&& c1.authenticated
        &&& c1.user@ == o.user
        &&& c1.guest == o.guest
        &&& *c1 == (Smb2Conn {
            ntlm_blobs: c1.ntlm_blobs,
            authenticated: true,
            user: c1.user,
            guest: c1.guest,
            session_key: c1.session_key,
            signing_key: c1.signing_key,
            cipher: c1.cipher,
            enc_keys: c1.enc_keys,
            encrypt_data: c1.encrypt_data,
            dialect: c1.dialect,
            ..*c0
        })
        &&& if dialect_clash(s0, c0, o.guest) {
            &&& r == Err::<SetupReply, Status>(Status::USER_SESSION_DELETED)
            &&& s1.client_dialects@ == s0.client_dialects@
            &&& crate::exchange2::key_bytes(c1.session_key) == o.session_key
            &&& keys_untouched(c0, c1)
        } else {
            &&& s1.client_dialects@ == dialects_after(s0, c0, o.guest)
            &&& if bound {
                holds_entry(c1, s0.sessions@[c0.session_id], c0.dialect)
            } else {
                &&& crate::exchange2::key_bytes(c1.session_key) == o.session_key
                &&& keys_untouched(c0, c1)
            }
            &&& r matches Ok(SetupReply::Established { flags, mic })
            &&& flags == if o.guest {
                1u16
            } else {
                0u16
            }
            &&& match c1.session_key {
                Some(k) => if has_mic(req.blob@) {
                    mic matches Some(m) && m.key == k && m.key_exchange == (req.encrypted_key@.len() == 16)
                        && m.mech_types@ == mech_types(first_token(c0), 0)
                } else {
                    mic is None
                },
                None => mic is None,
            }
        }
    }
}

/// Whether all keys but the session key are as they were.
pub open spec fn keys_untouched(c0: &Smb2Conn, c1: &Smb2Conn) -> bool {
    &&& c1.signing_key == c0.signing_key
    &&& c1.cipher == c0.cipher
    &&& c1.enc_keys == c0.enc_keys
    &&& c1.encrypt_data == c0.encrypt_data
    &&& c1.dialect == c0.dialect
}

/// Whether a session setup is carried out: a NEGOTIATE message or none asks for a
/// challenge, an AUTHENTICATE message logs in, anything else fails.
pub open spec fn session_set_up2(
    s0: &Server2,
    s1: &Server2,
    c0: &Smb2Conn,
    c1: &Smb2Conn,
    req: Option<SetupReq>,
    buf: Seq<u8>,
    now: u64,
    opts: Type2Options,
    r: Result<SetupReply, Status>,
) -> bool {
    match req {
        None => r == Err::<SetupReply, Status>(Status::INVALID_PARAMETER) && *s1 == *s0 && *c1 == *c0,
        Some(q) => {
            let m = token_message(q.blob@);
            let kind = message_type(m);
            if kind is None || kind == Some(MSG_TYPE1) {
                challenged2(s0, s1, c0, c1, q, buf, now, opts, r)
            } else if kind == Some(MSG_TYPE3) {
                if m.len() < 32 {
                    &&& r == Err::<SetupReply, Status>(Status::INVALID_PARAMETER)
                    &&& *s1 == *s0
                    &&& blobs_kept(c0, c1, q)
                    &&& *c1 == (Smb2Conn { ntlm_blobs: c1.ntlm_blobs, ..*c0 })
                } else {
                    exists|t: Type3| #[trigger] is_type3_of(t, m) && logged_in2(s0, s1, c0, c1, q, buf, t, r)
                }
            } else {
                r == Err::<SetupReply, Status>(Status::LOGON_FAILURE) && *s1 == *s0 && *c1 == *c0
            }
        },
    }
}

fn mic_is_there(blob: &[u8]) -> (r: bool)
    ensures
        r == has_mic(blob@),
{
    if blob.len() <= 76 {
        return false;
    }
    let mut i: usize = 60;
    while i < 76
        invariant
            60 <= i <= 76,
            blob@.len() > 76,
            forall|k: int| 60 <= k < i ==> blob@[k] == 0,
        decreases 76 - i,
    {
        if blob[i] != 0 {
            assert(blob@[i as int] != 0);
            return true;
        }
        i += 1;
    }
    false
}

fn make_challenge(conn: &Smb2Conn, server: &Server2, now: u64, opts: &Type2Options) -> (t: Vec<u8>)
    ensures
        t@ == challenge_token(conn, server, now, *opts),
{
    let mut t = build_type2(&conn.challenge, server.domain.as_str(), server.server_name.as_str(), now, opts);
    proof {
        lemma_type2_len(conn.challenge@, server.domain@, server.server_name@, now, type2_flags(*opts), !opts.no_version);
    }
    let cur: u32 = get_u32(t.as_slice(), 20);
    let mut v: Vec<u8> = Vec::new();
    put_u32(&mut v, cur | NTLM_PROTECTION);
    assert(v@ =~= le32(cur | NTLM_PROTECTION));
    put_at(&mut t, 20, v.as_slice());
    wrap_negtoken_targ(t.as_slice())
}

proof fn lemma_type2_len(challenge: Seq<u8>, domain: Seq<char>, host: Seq<char>, now: u64, flags: u32, with_version: bool)
    ensures
        type2_bytes(challenge, domain, host, now, flags, with_version).len() >= 24,
{
    reveal(type2_bytes);
    assert(crate::ntlm::type2_head(
        challenge,
        crate::text::utf16_bytes(domain).len() as int,
        crate::ntlm::payload_base(with_version),
        flags,
    ).len() >= 24);
}

fn keep_second_token(conn: &mut Smb2Conn, blob: &[u8])
    ensures
        *final(conn) == (Smb2Conn { ntlm_blobs: final(conn).ntlm_blobs, ..*old(conn) }),
        match old(conn).ntlm_blobs {
            Some(b) => final(conn).ntlm_blobs matches Some(d) && d.0 == b.0 && d.1@ == blob@,
            None => final(conn).ntlm_blobs is None,
        },
{
    let mut held: Option<(Vec<u8>, Vec<u8>)> = None;
    std::mem::swap(&mut held, &mut conn.ntlm_blobs);
    match held {
        Some(b) => {
            conn.ntlm_blobs = Some((b.0, copy_all(blob)));
        },
        None => {},
    }
}

fn note_dialect(server: &mut Server2, conn: &Smb2Conn) -> (clash: bool)
    requires
        old(server).client_dialects.wf(),
    ensures
        clash == dialect_clash(old(server), conn, conn.guest),
        final(server).client_dialects.wf(),
        *final(server) == (Server2 { client_dialects: final(server).client_dialects, ..*old(server) }),
        final(server).client_dialects@ == if clash {
            old(server).client_dialects@
        } else {
            dialects_after(old(server), conn, conn.guest)
        },
{
    let d: u16 = match conn.dialect {
        Some(d) => d,
        None => return false,
    };
    if conn.guest || d == DIALECT_202 {
        return false;
    }
    match server.client_dialects.get(&conn.client_guid) {
        Some(seen) => *seen != d,
        None => {
            server.client_dialects.insert(conn.client_guid, d);
            false
        },
    }
}

fn make_mic(conn: &Smb2Conn, blob: &[u8], key_exchange: bool) -> (r: Option<MicInput>)
    requires
        first_token(conn).len() <= usize::MAX - 1024,
    ensures
        match conn.session_key {
            Some(k) => if has_mic(blob@) {
                r matches Some(m) && m.key == k && m.key_exchange == key_exchange && m.mech_types@ == mech_types(
                    first_token(conn),
                    0,
                )
            } else {
                r is None
            },
            None => r is None,
        },
{
    match conn.session_key {
        Some(key) => {
            if !mic_is_there(blob) {
                return None;
            }
            let types = match &conn.ntlm_blobs {
                Some(b) => find_mech_types(b.0.as_slice()),
                None => {
                    let e: Vec<u8> = Vec::new();
                    assert(e@ =~= mech_types(Seq::empty(), 0));
                    e
                },
            };
            Some(MicInput { key, key_exchange, mech_types: types })
        },
        None => None,
    }
}

fn take_entry(conn: &mut Smb2Conn, e: &SessionEntry)
    ensures
        holds_entry(final(conn), *e, old(conn).dialect),
        *final(conn) == (Smb2Conn {
            session_key: final(conn).session_key,
            signing_key: final(conn).signing_key,
            cipher: final(conn).cipher,
            enc_keys: final(conn).enc_keys,
            encrypt_data: final(conn).encrypt_data,
            dialect: final(conn).dialect,
            ..*old(conn)
        }),
{
    conn.session_key = e.session_key;
    conn.signing_key = e.signing_key;
    conn.cipher = e.cipher;
    conn.enc_keys = e.enc_keys;
    conn.encrypt_data = e.encrypt_data;
    if e.dialect.is_some() {
        conn.dialect = e.dialect;
    }
}

fn is_binding(server: &Server2, req: &SetupReq, buf: &[u8]) -> (r: bool)
    ensures
        r == binds(server, *req, buf@),
{
    let sid: u64 = if buf.len() >= 48 {
        get_u64(buf, 40)
    } else {
        0
    };
    req.flags & FLAG_BINDING != 0 && sid != 0 && server.sessions.get(sid).is_some()
}

#[verifier::rlimit(60)]
#[verifier::spinoff_prover]
fn end_login(server: &mut Server2, conn: &mut Smb2Conn, req: &SetupReq, buf: &[u8], out: AuthOutcome) -> (r: Result<
    SetupReply,
    Status,
>)
    requires
        old(server).client_dialects.wf(),
        first_token(old(conn)).len() <= usize::MAX - 1024,
    ensures
        login_ended(old(server), final(server), old(conn), final(conn), *req, buf@, out@, r),
{
    let binding: bool = is_binding(server, req, buf);
    keep_second_token(conn, req.blob.as_slice());
    if !out.ok {
        return Err(Status::LOGON_FAILURE);
    }
    conn.user = out.user;
    conn.guest = out.guest;
    conn.session_key = out.session_key;
    conn.authenticated = true;
    if note_dialect(server, conn) {
        return Err(Status::USER_SESSION_DELETED);
    }
    if binding {
        match server.sessions.get(conn.session_id) {
            Some(e) => take_entry(conn, &e),
            None => {},
        }
    }
    let flags: u16 = if out.guest {
        1
    } else {
        0
    };
    let mic = make_mic(conn, req.blob.as_slice(), req.encrypted_key.len() == 16);
    Ok(SetupReply::Established { flags, mic })
}

fn log_in(server: &mut Server2, conn: &mut Smb2Conn, req: &SetupReq, buf: &[u8], t: &Type3) -> (r: Result<
    SetupReply,
    Status,
>)
    requires
        old(server).wf(),
        first_token(old(conn)).len() <= usize::MAX - 1024,
    ensures
        logged_in2(old(server), final(server), old(conn), final(conn), *req, buf@, *t, r),
{
    let out = authenticate_ntlmssp(
        &server.users,
        server.allow_guest,
        &conn.challenge,
        t,
        req.encrypted_key.as_slice(),
    );
    end_login(server, conn, req, buf, out)
}

fn challenge(server: &mut Server2, conn: &mut Smb2Conn, req: &SetupReq, buf: &[u8], now: u64, opts: &Type2Options) -> (r:
    Result<SetupReply, Status>)
    ensures
        challenged2(old(server), final(server), old(conn), final(conn), *req, buf@, now, *opts, r),
{
    let token = make_challenge(conn, server, now, opts);
    let binding: bool = is_binding(server, req, buf);
    conn.session_id = if binding {
        get_u64(buf, 40)
    } else {
        next_session_id(server)
    };
    conn.ntlm_targ = Some(copy_all(token.as_slice()));
    conn.ntlm_blobs = Some((copy_all(req.blob.as_slice()), Vec::new()));
    Ok(SetupReply::Challenge(token))
}

/// Carries out one leg of a session setup. `req` is what the body was read as,
/// `now` the current FILETIME.
pub fn session_setup(
    server: &mut Server2,
    conn: &mut Smb2Conn,
    req: &Option<SetupReq>,
    buf: &[u8],
    now: u64,
    opts: &Type2Options,
) -> (r: Result<SetupReply, Status>)
    requires
        old(server).wf(),
        first_token(old(conn)).len() <= usize::MAX - 1024,
    ensures
        session_set_up2(old(server), final(server), old(conn), final(conn), *req, buf@, now, *opts, r),
{
    let q = match req {
        Some(q) => q,
        None => return Err(Status::INVALID_PARAMETER),
    };
    let empty: [u8; 0] = [];
    assert(empty@ =~= Seq::<u8>::empty());
    let m: &[u8] = match unwrap_blob(q.blob.as_slice()) {
        Some(m) => m,
        None => empty.as_slice(),
    };
    match msg_type(m) {
        None => challenge(server, conn, q, buf, now, opts),
        Some(kind) => {
            if kind == MSG_TYPE1 {
                challenge(server, conn, q, buf, now, opts)
            } else if kind == MSG_TYPE3 {
                match parse_type3(m) {
                    None => {
                        keep_second_token(conn, q.blob.as_slice());
                        Err(Status::INVALID_PARAMETER)
                    },
                    Some(t) => {
                        assert(is_type3_of(t, m@));
                        log_in(server, conn, q, buf, &t)
                    },
                }
            } else {
                Err(Status::LOGON_FAILURE)
            }
        },
    }
}

// ---------------- what a session setup is for ----------------

/// A first leg is answered with a challenge and a call for more, never with success; it
/// gives the connection a session id of its own, or that of the session it binds to, and
/// authenticates nobody.
pub proof fn law_first_leg_authenticates_nobody(
    s0: &Server2,
    s1: &Server2,
    c0: &Smb2Conn,
    c1: &Smb2Conn,
    req: SetupReq,
    buf: Seq<u8>,
    now: u64,
    opts: Type2Options,
    r: Result<SetupReply, Status>,
)
    requires
        challenged2(s0, s1, c0, c1, req, buf, now, opts, r),
        buf.len() >= 48,
    ensures
        r matches Ok(a) && status_code(reply_status(a)) == 0xC000_0016,
        c1.authenticated == c0.authenticated && c1.user == c0.user && c1.session_key == c0.session_key,
        c1.challenge == c0.challenge,
        !(req.flags % 2 == 1 && s0.sessions@.dom().contains(little(buf, 40, 8) as u64)) ==> c1.session_id
            == s0.next_session_id && s1.next_session_id != s0.next_session_id,
        req.flags % 2 == 1 && little(buf, 40, 8) != 0 && s0.sessions@.dom().contains(little(buf, 40, 8) as u64)
            ==> c1.session_id == little(buf, 40, 8) && s1.next_session_id == s0.next_session_id,
{
    lemma_little(buf, 40);
    let f = req.flags;
    assert((f & 1 != 0) == (f % 2 == 1)) by (bit_vector);
}

/// A second leg succeeds only where the login does: a login that fails is refused and
/// leaves the connection as unauthenticated as it was; one that succeeds authenticates it
/// as the user of the login, and as a guest exactly where the login is a guest's.
pub proof fn law_second_leg_follows_the_login(
    s0: &Server2,
    s1: &Server2,
    c0: &Smb2Conn,
    c1: &Smb2Conn,
    req: SetupReq,
    buf: Seq<u8>,
    o: OutcomeView,
    r: Result<SetupReply, Status>,
)
    requires
        login_ended(s0, s1, c0, c1, req, buf, o, r),
    ensures
        !o.ok ==> (r matches Err(e) && status_code(e) == 0xC000_006D) && c1.authenticated == c0.authenticated && c1.user
            == c0.user && c1.session_key == c0.session_key,
        r is Ok ==> o.ok && c1.authenticated && c1.user@ == o.user && c1.guest == o.guest,
        r matches Ok(a) ==> status_code(reply_status(a)) == 0 && (a matches SetupReply::Established { flags, mic } && (flags
            == 1 <==> o.guest) && flags <= 1),
        o.ok && !(c0.dialect matches Some(d) && d != 0x0202 && s0.client_dialects@.dom().contains(c0.client_guid)
            && s0.client_dialects@[c0.client_guid] != d) ==> r is Ok,
        o.ok && o.guest ==> r is Ok,
        r is Ok && req.flags % 2 == 0 ==> crate::exchange2::key_bytes(c1.session_key) == o.session_key,
        c1.session_id == c0.session_id && c1.handles == c0.handles && c1.trees == c0.trees,
        s1.users == s0.users && s1.sessions == s0.sessions,
{
    let f = req.flags;
    assert((f & 1 != 0) == (f % 2 == 1)) by (bit_vector);
}

/// A client that authenticated with one dialect cannot authenticate with another: the
/// second login is closed, unless it is a guest's or of dialect 2.0.2, which has no such
/// memory. The dialect of a first login is remembered.
pub proof fn law_client_keeps_its_dialect(
    s0: &Server2,
    s1: &Server2,
    c0: &Smb2Conn,
    c1: &Smb2Conn,
    req: SetupReq,
    buf: Seq<u8>,
    o: OutcomeView,
    r: Result<SetupReply, Status>,
    d: u16,
)
    requires
        login_ended(s0, s1, c0, c1, req, buf, o, r),
        o.ok,
        !o.guest,
        c0.dialect == Some(d),
        d != 0x0202,
    ensures
        s1.client_dialects@.dom().contains(c0.client_guid),
        s0.client_dialects@.dom().contains(c0.client_guid) ==> s1.client_dialects@[c0.client_guid]
            == s0.client_dialects@[c0.client_guid],
        s0.client_dialects@.dom().contains(c0.client_guid) && s0.client_dialects@[c0.client_guid] != d ==> (r matches Err(e)
            && status_code(e) == 0xC000_0203),
        r is Ok ==> s1.client_dialects@[c0.client_guid] == d,
{
}

/// A channel that is bound to a session has the keys of that session, whoever opened it.
pub proof fn law_bound_channel_has_the_keys(
    s0: &Server2,
    s1: &Server2,
    c0: &Smb2Conn,
    c1: &Smb2Conn,
    req: SetupReq,
    buf: Seq<u8>,
    o: OutcomeView,
    r: Result<SetupReply, Status>,
)
    requires
        login_ended(s0, s1, c0, c1, req, buf, o, r),
        r is Ok,
        req.flags % 2 == 1,
        buf.len() >= 48,
        little(buf, 40, 8) == c0.session_id,
        c0.session_id != 0,
        s0.sessions@.dom().contains(c0.session_id),
    ensures
        ({
            let e = s0.sessions@[c0.session_id];
            c1.session_key == e.session_key && c1.signing_key == e.signing_key && c1.enc_keys == e.enc_keys && c1.cipher
                == e.cipher && c1.encrypt_data == e.encrypt_data
        }),
{
    lemma_little(buf, 40);
    let f = req.flags;
    assert((f & 1 != 0) == (f % 2 == 1)) by (bit_vector);
}

} // verus!
