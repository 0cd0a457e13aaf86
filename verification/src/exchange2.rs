//! One SMB2 request from its header to its signed response: which requests are
//! let through, and how a response is finished.
use vstd::prelude::*;
use vstd::slice::slice_subrange;
use crate::bytes::{copy_all, get_u8, le32, lemma_little, little, patched, put_at, put_bytes, put_u32};
use crate::app_instances::AppInstanceTable;
use crate::conn2::{Server2, Smb2Conn};
use crate::crypto::array16;
use crate::frame2::{credit_grant, file_id_body_offset, file_id_offset, has_header2, header2_of, header_bytes, law_response_echoes, law_signed_verifies, response, response_frame, sent_body, sign_pdu, signature_verifies, signed_frame, verify_pdu_signature, Header2, CMD_CHANGE_NOTIFY, CMD_CLOSE, CMD_CREATE, CMD_ECHO, CMD_FLUSH, CMD_IOCTL, CMD_LOCK, CMD_NEGOTIATE, CMD_QUERY_DIRECTORY, CMD_QUERY_INFO, CMD_READ, CMD_SESSION_SETUP, CMD_SET_INFO, CMD_TREE_CONNECT, CMD_WRITE, DIALECT_300, DIALECT_302, DIALECT_311, FLAG_RELATED, HEADER_LEN};
use crate::idmap::IdMap;
use crate::locks::LockOwner;
use crate::sealing::{cipher_key_len, derived_key, kdf_counter_mode_hmac_sha256, key_len, sha512, sha512_of};
use crate::sessions::SessionEntry;
use crate::smb::{status_code, Status};
use crate::vfs::OpenFile;

verus! {

broadcast use vstd::std_specs::hash::group_hash_axioms;

// ---------------- which requests are let through ----------------

/// Whether a request needs no authenticated session.
pub open spec fn before_session(command: u16) -> bool {
    command == CMD_NEGOTIATE || command == CMD_SESSION_SETUP || command == CMD_ECHO
}

/// Whether a request is about a tree.
pub open spec fn about_tree(command: u16) -> bool {
    ||| command == CMD_CREATE
    ||| command == CMD_CLOSE
    ||| command == CMD_FLUSH
    ||| command == CMD_READ
    ||| command == CMD_WRITE
    ||| command == CMD_LOCK
    ||| command == CMD_IOCTL
    ||| command == CMD_QUERY_DIRECTORY
    ||| command == CMD_CHANGE_NOTIFY
    ||| command == CMD_QUERY_INFO
    ||| command == CMD_SET_INFO
}

/// The file id that a request carries.
pub open spec fn file_of(command: u16, buf: Seq<u8>) -> Option<Seq<u8>> {
    match file_id_offset(command) {
        Some(o) => if HEADER_LEN + o + 16 <= buf.len() {
            Some(buf.subrange(HEADER_LEN + o, HEADER_LEN + o + 16))
        } else {
            None
        },
        None => None,
    }
}

/// Whether a request names a file of the session that was closed by force.
pub open spec fn file_was_forced(server: &Server2, session_id: u64, command: u16, buf: Seq<u8>) -> bool {
    match file_of(command, buf) {
        Some(f) => exists|id: [u8; 16]| #[trigger] id@ == f && server.app_instances.forced().contains((session_id, id)),
        None => false,
    }
}

/// Whether the signature rules refuse a request: one that is signed has to
/// verify, and one that is not is refused where signing is required. Guests and
/// encrypted requests are not asked.
pub open spec fn signature_refused(server: &Server2, c: &Smb2Conn, h: Header2, buf: Seq<u8>) -> bool {
    &&& h.command != CMD_NEGOTIATE
    &&& h.command != CMD_SESSION_SETUP
    &&& !c.guest
    &&& !c.encrypt_data
    &&& !c.req_encrypted
    &&& match c.signing_key {
        Some(k) => if h.signed() {
            !signature_verifies(buf, k@, c.dialect)
        } else {
            server.require_signing
        },
        None => false,
    }
}

/// Whether a plain request meets a tree whose messages are encrypted.
pub open spec fn encryption_missing(server: &Server2, c: &Smb2Conn, h: Header2) -> bool {
    &&& !c.req_encrypted
    &&& h.command != CMD_NEGOTIATE
    &&& h.command != CMD_SESSION_SETUP
    &&& h.command != CMD_TREE_CONNECT
    &&& c.tree_encrypts(server, h.tree_id)
}

/// Why a request is not let through.
#[derive(Clone, Copy, PartialEq, Eq, Structural, Debug)]
pub enum Refusal {
    /// There is no session, or another one.
    Session,
    /// The tree id names no tree.
    Tree,
    /// The file was closed by force.
    Forced,
    /// The signature rules refuse it.
    Signature,
    /// The tree asks for encryption.
    Encryption,
}

/// Why a request is not let through; the first reason counts.
pub open spec fn refusal(server: &Server2, c: &Smb2Conn, h: Header2, buf: Seq<u8>) -> Option<Refusal> {
    if !before_session(h.command) && (!c.authenticated || h.session_id != c.session_id) {
        Some(Refusal::Session)
    } else if about_tree(h.command) && h.flags & FLAG_RELATED == 0 && !c.trees@.contains_key(h.tree_id) {
        Some(Refusal::Tree)
    } else if file_was_forced(server, c.session_id, h.command, buf) {
        Some(Refusal::Forced)
    } else if signature_refused(server, c, h, buf) {
        Some(Refusal::Signature)
    } else if encryption_missing(server, c, h) {
        Some(Refusal::Encryption)
    } else {
        None
    }
}

/// The status of a refusal.
pub open spec fn refusal_status(r: Refusal) -> Status {
    match r {
        Refusal::Tree => Status::NETWORK_NAME_DELETED,
        Refusal::Forced => Status::FILE_CLOSED,
        _ => Status::ACCESS_DENIED,
    }
}

/// The response to a refused request. Without a session it carries no session id.
pub open spec fn refusal_frame(r: Refusal, c: &Smb2Conn, h: Header2) -> Seq<u8> {
    response_frame(
        h,
        refusal_status(r),
        Seq::empty(),
        if r == Refusal::Session {
            0
        } else {
            c.session_id
        },
    )
}

/// Whether a message takes part in the pre-authentication hash.
pub open spec fn is_preauth(command: u16) -> bool {
    command == CMD_NEGOTIATE || command == CMD_SESSION_SETUP
}

/// The hash after a message.
pub open spec fn hashed(hash: Seq<u8>, msg: Seq<u8>) -> Seq<u8> {
    sha512_of(hash + msg)
}

/// Whether a read asks for a compressed response.
pub open spec fn asks_compression(command: u16, buf: Seq<u8>) -> bool {
    command == CMD_READ && buf.len() > 67 && buf[67] & 2 != 0
}

/// The client's credits once a request has spent its charge. A first negotiate
/// comes with one credit; an overspend is tolerated.
pub open spec fn credits_after(credits: u32, h: Header2) -> u32 {
    let have = if h.command == CMD_NEGOTIATE && credits < 1 {
        1
    } else {
        credits
    };
    if h.credit_charge <= have {
        (have - h.credit_charge) as u32
    } else {
        0
    }
}

/// How one request is taken in.
pub enum Intake {
    /// The message has no header.
    NoHeader,
    /// The request is refused with this response. The flag tells whether the
    /// response may be encrypted.
    Refused(Vec<u8>, bool),
    /// The request is let through.
    Accepted(Header2),
}

/// Whether a request is taken in: what is answered, and what changes in the
/// server and the connection.
pub open spec fn taken_in(s0: &Server2, s1: &Server2, c0: &Smb2Conn, c1: &Smb2Conn, buf: Seq<u8>, r: Intake) -> bool {
    if !has_header2(buf) {
        r is NoHeader && *s1 == *s0 && *c1 == *c0
    } else {
        let h = header2_of(buf);
        let why = refusal(s0, c0, h, buf);
        let past_forced = !(why == Some(Refusal::Session) || why == Some(Refusal::Tree) || why == Some(Refusal::Forced));
        &&& match why {
            Some(w) => r matches Intake::Refused(f, wrap) && f@ == refusal_frame(w, c0, h) && wrap == (w != Refusal::Session),
            None => r == Intake::Accepted(h),
        }
        &&& *s1 == (Server2 { app_instances: s1.app_instances, ..*s0 })
        &&& *c1 == (Smb2Conn {
            compress_response: asks_compression(h.command, buf),
            preauth_hash: c1.preauth_hash,
            handles: c1.handles,
            client_credits: if past_forced {
                credits_after(c0.client_credits, h)
            } else {
                c0.client_credits
            },
            ..*c0
        })
        &&& c1.preauth_hash@ == if is_preauth(h.command) {
            hashed(c0.preauth_hash@, buf)
        } else {
            c0.preauth_hash@
        }
        &&& if why == Some(Refusal::Forced) {
            forced_dropped(
                &s0.app_instances,
                &s1.app_instances,
                c0.handles,
                c1.handles,
                c0.session_id,
                file_of(h.command, buf)->0,
            )
        } else {
            s1.app_instances == s0.app_instances && c1.handles == c0.handles
        }
    }
}

/// Whether a file that was closed by force is forgotten: its owner is told once.
pub open spec fn forced_dropped(
    a0: &AppInstanceTable,
    a1: &AppInstanceTable,
    h0: IdMap<OpenFile>,
    h1: IdMap<OpenFile>,
    session_id: u64,
    file: Seq<u8>,
) -> bool {
    &&& a1.opens() == a0.opens()
    &&& forall|o: LockOwner|
        #![trigger a1.forced().contains(o)]
        a1.forced().contains(o) <==> a0.forced().contains(o) && !(o.0 == session_id && o.1@ == file)
    &&& h1.wf()
    &&& forall|id: [u8; 16]|
        #![trigger h1@.contains_key(id)]
        h1@.contains_key(id) <==> h0@.contains_key(id) && id@ != file
    &&& forall|id: [u8; 16]| #![trigger h1@[id]] h1@.contains_key(id) ==> h1@[id] == h0@[id]
}

fn is_about_tree(command: u16) -> (r: bool)
    ensures
        r == about_tree(command),
{
    command == CMD_CREATE || command == CMD_CLOSE || command == CMD_FLUSH || command == CMD_READ || command == CMD_WRITE
        || command == CMD_LOCK || command == CMD_IOCTL || command == CMD_QUERY_DIRECTORY || command == CMD_CHANGE_NOTIFY
        || command == CMD_QUERY_INFO || command == CMD_SET_INFO
}

/// The file id that a request carries.
pub fn request_file(command: u16, buf: &[u8]) -> (r: Option<[u8; 16]>)
    ensures
        match r {
            Some(id) => file_of(command, buf@) == Some(id@),
            None => file_of(command, buf@) is None,
        },
{
    match file_id_body_offset(command) {
        Some(o) => {
            if buf.len() < 16 || HEADER_LEN + o > buf.len() - 16 {
                return None;
            }
            Some(array16(slice_subrange(buf, HEADER_LEN + o, HEADER_LEN + o + 16)))
        },
        None => None,
    }
}

fn is_signature_refused(server: &Server2, c: &Smb2Conn, h: &Header2, buf: &[u8]) -> (r: bool)
    ensures
        r == signature_refused(server, c, *h, buf@),
{
    if h.command == CMD_NEGOTIATE || h.command == CMD_SESSION_SETUP || c.guest || c.encrypt_data || c.req_encrypted {
        return false;
    }
    match c.signing_key {
        Some(k) => if h.is_signed() {
            !verify_pdu_signature(buf, &k, c.dialect)
        } else {
            server.require_signing
        },
        None => false,
    }
}

fn is_encryption_missing(server: &Server2, c: &Smb2Conn, h: &Header2) -> (r: bool)
    requires
        server.wf(),
    ensures
        r == encryption_missing(server, c, *h),
{
    if c.req_encrypted || h.command == CMD_NEGOTIATE || h.command == CMD_SESSION_SETUP || h.command == CMD_TREE_CONNECT {
        return false;
    }
    c.encrypts_tree(server, h.tree_id)
}

fn hash_message(hash: &[u8; 64], msg: &[u8]) -> (h: [u8; 64])
    ensures
        h@ == hashed(hash@, msg@),
{
    let mut joined = copy_all(hash.as_slice());
    put_bytes(&mut joined, msg);
    sha512(joined.as_slice())
}

fn refuse(w: Refusal, c: &Smb2Conn, h: &Header2) -> (r: Intake)
    ensures
        r matches Intake::Refused(f, wrap) && f@ == refusal_frame(w, c, *h) && wrap == (w != Refusal::Session),
{
    let status = match w {
        Refusal::Tree => Status::NETWORK_NAME_DELETED,
        Refusal::Forced => Status::FILE_CLOSED,
        _ => Status::ACCESS_DENIED,
    };
    let sid: u64 = match w {
        Refusal::Session => 0,
        _ => c.session_id,
    };
    let body: Vec<u8> = Vec::new();
    assert(body@ =~= Seq::<u8>::empty());
    let wrap: bool = match w {
        Refusal::Session => false,
        _ => true,
    };
    Intake::Refused(response(h, status, body, sid), wrap)
}

proof fn lemma_forced_id(server: &Server2, session_id: u64, command: u16, buf: Seq<u8>, id: [u8; 16])
    requires
        file_of(command, buf) == Some(id@),
    ensures
        file_was_forced(server, session_id, command, buf) == server.app_instances.forced().contains((session_id, id)),
        forall|o: [u8; 16]| o@ == id@ ==> o == id,
{
    assert forall|o: [u8; 16]| o@ == id@ implies o == id by {
        assert(o =~= id);
    }
    if server.app_instances.forced().contains((session_id, id)) {
        assert(id@ == file_of(command, buf)->0);
    }
}

/// Finds out whether a request is let through.
pub fn find_refusal(server: &Server2, conn: &Smb2Conn, h: &Header2, buf: &[u8]) -> (r: Option<Refusal>)
    requires
        server.wf(),
    ensures
        r == refusal(server, conn, *h, buf@),
{
    if !(h.command == CMD_NEGOTIATE || h.command == CMD_SESSION_SETUP || h.command == CMD_ECHO) && (!conn.authenticated
        || h.session_id != conn.session_id) {
        return Some(Refusal::Session);
    }
    if is_about_tree(h.command) && h.flags & FLAG_RELATED == 0 && !conn.trees.contains_key(&h.tree_id) {
        return Some(Refusal::Tree);
    }
    match request_file(h.command, buf) {
        Some(id) => {
            proof {
                lemma_forced_id(server, conn.session_id, h.command, buf@, id);
            }
            if server.app_instances.was_forced((conn.session_id, id)) {
                return Some(Refusal::Forced);
            }
        },
        None => {},
    }
    if is_signature_refused(server, conn, h, buf) {
        return Some(Refusal::Signature);
    }
    if is_encryption_missing(server, conn, h) {
        return Some(Refusal::Encryption);
    }
    None
}

fn spend(credits: u32, h: &Header2) -> (r: u32)
    ensures
        r == credits_after(credits, *h),
{
    let have: u32 = if h.command == CMD_NEGOTIATE && credits < 1 {
        1
    } else {
        credits
    };
    let charge: u32 = h.credit_charge as u32;
    if charge <= have {
        have - charge
    } else {
        0
    }
}

fn drop_forced(apps: &mut AppInstanceTable, handles: &mut IdMap<OpenFile>, session_id: u64, id: [u8; 16])
    requires
        old(handles).wf(),
    ensures
        forced_dropped(old(apps), final(apps), *old(handles), *final(handles), session_id, id@),
{
    let ghost forced0 = apps.forced();
    let _ = apps.take_forced((session_id, id));
    let _ = handles.remove(&id);
    assert forall|o: [u8; 16]| o@ == id@ implies o == id by {
        assert(o =~= id);
    }
}

/// Takes a request in: checks its session, tree, file, signature and encryption,
/// and keeps account of its credits.
#[verifier::rlimit(40)]
#[verifier::spinoff_prover]
pub fn take_in(server: &mut Server2, conn: &mut Smb2Conn, buf: &[u8]) -> (r: Intake)
    requires
        old(server).wf(),
        old(conn).wf(),
    ensures
        taken_in(old(server), final(server), old(conn), final(conn), buf@, r),
        final(server).wf(),
        final(conn).wf(),
{
    let h = match Header2::parse(buf) {
        Some(h) => h,
        None => return Intake::NoHeader,
    };
    let why = find_refusal(server, conn, &h, buf);
    let r = match why {
        Some(w) => refuse(w, conn, &h),
        None => Intake::Accepted(h),
    };
    conn.compress_response = h.command == CMD_READ && buf.len() > 67 && get_u8(buf, 67) & 2 != 0;
    if h.command == CMD_NEGOTIATE || h.command == CMD_SESSION_SETUP {
        conn.preauth_hash = hash_message(&conn.preauth_hash, buf);
    }
    match why {
        Some(Refusal::Session) | Some(Refusal::Tree) => {},
        Some(Refusal::Forced) => {
            match request_file(h.command, buf) {
                Some(id) => drop_forced(&mut server.app_instances, &mut conn.handles, conn.session_id, id),
                None => {},
            }
        },
        _ => {
            conn.client_credits = spend(conn.client_credits, &h);
        },
    }
    r
}

/// Without an authenticated session nothing but negotiate, session setup and echo
/// is let through.
pub proof fn law_no_session_no_service(server: &Server2, c: &Smb2Conn, h: Header2, buf: Seq<u8>)
    requires
        !c.authenticated,
        refusal(server, c, h, buf) is None,
    ensures
        before_session(h.command),
{
}

/// A request that carries another session's id is not let through.
pub proof fn law_foreign_session_refused(server: &Server2, c: &Smb2Conn, h: Header2, buf: Seq<u8>)
    requires
        h.session_id != c.session_id,
        !before_session(h.command),
    ensures
        refusal(server, c, h, buf) == Some(Refusal::Session),
{
}

/// Where signing is required, what an authenticated account sends in the clear
/// is let through only with a signature that verifies.
pub proof fn law_required_signing(server: &Server2, c: &Smb2Conn, h: Header2, buf: Seq<u8>)
    requires
        server.require_signing,
        c.signing_key is Some,
        !c.guest,
        !c.encrypt_data,
        !c.req_encrypted,
        h.command != CMD_NEGOTIATE,
        h.command != CMD_SESSION_SETUP,
        refusal(server, c, h, buf) is None,
    ensures
        h.signed() && signature_verifies(buf, c.signing_key->0@, c.dialect),
{
}

/// On a tree whose messages are encrypted no plain request is let through but a
/// tree connect, negotiate or session setup.
pub proof fn law_encrypted_share(server: &Server2, c: &Smb2Conn, h: Header2, buf: Seq<u8>)
    requires
        c.tree_encrypts(server, h.tree_id),
        !c.req_encrypted,
        refusal(server, c, h, buf) is None,
    ensures
        h.command == CMD_NEGOTIATE || h.command == CMD_SESSION_SETUP || h.command == CMD_TREE_CONNECT,
{
}

// ---------------- keys ----------------

/// `SMB2AESCMAC` and a zero: the label of signing keys of dialects 3.0.
pub const LABEL_SIGN_30: [u8; 12] = [0x53, 0x4D, 0x42, 0x32, 0x41, 0x45, 0x53, 0x43, 0x4D, 0x41, 0x43, 0x00];

/// `SmbSign` and a zero: the context of signing keys of dialects 3.0.
pub const CONTEXT_SIGN_30: [u8; 8] = [0x53, 0x6D, 0x62, 0x53, 0x69, 0x67, 0x6E, 0x00];

/// `SMBSigningKey` and a zero: the label of signing keys of dialect 3.1.1.
pub const LABEL_SIGN_311: [u8; 14] = [0x53, 0x4D, 0x42, 0x53, 0x69, 0x67, 0x6E, 0x69, 0x6E, 0x67, 0x4B, 0x65, 0x79, 0x00];

/// `SMBC2SCipherKey` and a zero: the label of the client's cipher key of dialect 3.1.1.
pub const LABEL_C2S_311: [u8; 16] = [0x53, 0x4D, 0x42, 0x43, 0x32, 0x53, 0x43, 0x69, 0x70, 0x68, 0x65, 0x72, 0x4B, 0x65, 0x79, 0x00];

/// `SMBS2CCipherKey` and a zero: the label of the server's cipher key of dialect 3.1.1.
pub const LABEL_S2C_311: [u8; 16] = [0x53, 0x4D, 0x42, 0x53, 0x32, 0x43, 0x43, 0x69, 0x70, 0x68, 0x65, 0x72, 0x4B, 0x65, 0x79, 0x00];

/// `SMB2AESCCM` and a zero: the label of cipher keys of dialects 3.0.
pub const LABEL_CCM_30: [u8; 11] = [0x53, 0x4D, 0x42, 0x32, 0x41, 0x45, 0x53, 0x43, 0x43, 0x4D, 0x00];

/// `ServerIn`, a blank and a zero: the context of the client's cipher key of dialects 3.0.
pub const CONTEXT_IN_30: [u8; 10] = [0x53, 0x65, 0x72, 0x76, 0x65, 0x72, 0x49, 0x6E, 0x20, 0x00];

/// `ServerOut` and a zero: the context of the server's cipher key of dialects 3.0.
pub const CONTEXT_OUT_30: [u8; 10] = [0x53, 0x65, 0x72, 0x76, 0x65, 0x72, 0x4F, 0x75, 0x74, 0x00];

/// The bytes of a key that may be there.
pub open spec fn key_bytes(k: Option<[u8; 16]>) -> Option<Seq<u8>> {
    match k {
        Some(a) => Some(a@),
        None => None,
    }
}

/// The bytes of a pair of cipher keys that may be there.
pub open spec fn pair_bytes(k: Option<([u8; 32], [u8; 32])>) -> Option<(Seq<u8>, Seq<u8>)> {
    match k {
        Some(a) => Some((a.0@, a.1@)),
        None => None,
    }
}

/// The signing key of a session key under a dialect.
pub open spec fn signing_key_of(key: Seq<u8>, dialect: Option<u16>, hash: Seq<u8>) -> Seq<u8> {
    if dialect == Some(DIALECT_300) || dialect == Some(DIALECT_302) {
        derived_key(key, LABEL_SIGN_30@, CONTEXT_SIGN_30@, 16)
    } else if dialect == Some(DIALECT_311) {
        derived_key(key, LABEL_SIGN_311@, hash, 16)
    } else {
        key
    }
}

/// The cipher keys of a session key under a dialect: the client's, then the
/// server's.
pub open spec fn cipher_keys_of(key: Seq<u8>, cipher: u16, dialect: Option<u16>, hash: Seq<u8>) -> (Seq<u8>, Seq<u8>) {
    if dialect == Some(DIALECT_311) {
        (cipher_key(key, cipher, LABEL_C2S_311@, hash), cipher_key(key, cipher, LABEL_S2C_311@, hash))
    } else {
        (
            cipher_key(key, cipher, LABEL_CCM_30@, CONTEXT_IN_30@),
            cipher_key(key, cipher, LABEL_CCM_30@, CONTEXT_OUT_30@),
        )
    }
}

/// One cipher key.
pub open spec fn cipher_key(key: Seq<u8>, cipher: u16, label: Seq<u8>, context: Seq<u8>) -> Seq<u8> {
    Seq::new(
        32,
        |i: int| if i < key_len(cipher) {
            derived_key(key, label, context, key_len(cipher))[i]
        } else {
            0u8
        },
    )
}

fn make_cipher_key(key: &[u8; 16], cipher: u16, label: &[u8], context: &[u8]) -> (k: [u8; 32])
    ensures
        k@ == cipher_key(key@, cipher, label@, context@),
{
    let n: usize = cipher_key_len(cipher);
    let k = kdf_counter_mode_hmac_sha256(key.as_slice(), label, context, n);
    proof {
        let d = derived_key(key@, label@, context@, n as int);
        assert forall|i: int| 0 <= i < 32 implies k@[i] == cipher_key(key@, cipher, label@, context@)[i] by {
            if i < n {
                assert(k@.subrange(0, n as int)[i] == d[i]);
            }
        }
        assert(k@ =~= cipher_key(key@, cipher, label@, context@));
    }
    k
}

/// Derives the cipher keys of a session key.
pub fn derive_cipher_keys(key: &[u8; 16], cipher: u16, dialect: Option<u16>, hash: &[u8; 64]) -> (k: ([u8; 32], [u8; 32]))
    ensures
        (k.0@, k.1@) == cipher_keys_of(key@, cipher, dialect, hash@),
{
    let newest: bool = match dialect {
        Some(d) => d == DIALECT_311,
        None => false,
    };
    if newest {
        let a: [u8; 16] = LABEL_C2S_311;
        let b: [u8; 16] = LABEL_S2C_311;
        (
            make_cipher_key(key, cipher, a.as_slice(), hash.as_slice()),
            make_cipher_key(key, cipher, b.as_slice(), hash.as_slice()),
        )
    } else {
        let l: [u8; 11] = LABEL_CCM_30;
        let a: [u8; 10] = CONTEXT_IN_30;
        let b: [u8; 10] = CONTEXT_OUT_30;
        (
            make_cipher_key(key, cipher, l.as_slice(), a.as_slice()),
            make_cipher_key(key, cipher, l.as_slice(), b.as_slice()),
        )
    }
}

fn front16(k: &[u8; 32]) -> (r: [u8; 16])
    ensures
        r@ == k@.subrange(0, 16),
{
    array16(slice_subrange(k.as_slice(), 0, 16))
}

/// Derives the signing key of a session key.
pub fn derive_signing_key(key: &[u8; 16], dialect: Option<u16>, hash: &[u8; 64]) -> (k: [u8; 16])
    ensures
        k@ == signing_key_of(key@, dialect, hash@),
{
    match dialect {
        Some(d) => {
            if d == DIALECT_300 || d == DIALECT_302 {
                let l: [u8; 12] = LABEL_SIGN_30;
                let c: [u8; 8] = CONTEXT_SIGN_30;
                let k = kdf_counter_mode_hmac_sha256(key.as_slice(), l.as_slice(), c.as_slice(), 16);
                front16(&k)
            } else if d == DIALECT_311 {
                let l: [u8; 14] = LABEL_SIGN_311;
                let k = kdf_counter_mode_hmac_sha256(key.as_slice(), l.as_slice(), hash.as_slice(), 16);
                front16(&k)
            } else {
                *key
            }
        },
        None => *key,
    }
}

// ---------------- how a response is finished ----------------

/// The signing key once a request is done: the first session setup that leaves an
/// authenticated session with a key derives it.
pub open spec fn signing_after(c: &Smb2Conn, command: u16) -> Option<Seq<u8>> {
    if command == CMD_SESSION_SETUP && c.authenticated && c.session_key is Some && c.signing_key is None {
        Some(signing_key_of(c.session_key->0@, c.dialect, c.preauth_hash@))
    } else {
        key_bytes(c.signing_key)
    }
}

/// Whether a request derives the cipher keys.
pub open spec fn derives_cipher_keys(c: &Smb2Conn, command: u16, status: Status) -> bool {
    command == CMD_SESSION_SETUP && status == Status::SUCCESS && c.authenticated && !c.guest && c.cipher is Some
        && c.enc_keys is None && c.session_key is Some
}

/// The cipher keys once a request is done.
pub open spec fn enc_after(c: &Smb2Conn, command: u16, status: Status) -> Option<(Seq<u8>, Seq<u8>)> {
    if derives_cipher_keys(c, command, status) {
        Some(cipher_keys_of(c.session_key->0@, c.cipher->0, c.dialect, c.preauth_hash@))
    } else {
        pair_bytes(c.enc_keys)
    }
}

/// Whether a request is the one that establishes the session.
pub open spec fn ends_setup(c: &Smb2Conn, command: u16, status: Status) -> bool {
    command == CMD_SESSION_SETUP && status == Status::SUCCESS && c.authenticated
}

/// The response before it is signed; a tree connect puts its tree id in.
pub open spec fn plain_response(c: &Smb2Conn, h: Header2, status: Status, body: Seq<u8>) -> Seq<u8> {
    let f = response_frame(h, status, body, c.session_id);
    match c.resp_tree_id {
        Some(t) => patched(f, 36, le32(t)),
        None => f,
    }
}

/// The key that the response is signed with, if it is: the client's flag is
/// mirrored, and the response that establishes the session is signed too.
pub open spec fn response_key(c: &Smb2Conn, h: Header2, status: Status) -> Option<Seq<u8>> {
    if !h.signed() && !ends_setup(c, h.command, status) {
        None
    } else {
        match signing_after(c, h.command) {
            Some(k) => Some(k),
            None => key_bytes(c.session_key),
        }
    }
}

/// The finished response.
pub open spec fn finished_response(c: &Smb2Conn, h: Header2, status: Status, body: Seq<u8>) -> Seq<u8> {
    match response_key(c, h, status) {
        Some(k) => signed_frame(plain_response(c, h, status, body), k, c.dialect),
        None => plain_response(c, h, status, body),
    }
}

/// What a connection's session is registered as.
pub open spec fn entry_of(c: &Smb2Conn, e: SessionEntry) -> bool {
    &&& e.session_key == c.session_key
    &&& e.signing_key == c.signing_key
    &&& e.dialect == c.dialect
    &&& e.user@ == c.user@
    &&& e.guest == c.guest
    &&& e.cipher == c.cipher
    &&& e.enc_keys == c.enc_keys
    &&& e.encrypt_data == c.encrypt_data
}

/// Whether a response is finished: keys are derived, the session is registered,
/// the hash goes on.
pub open spec fn finished(
    s0: &Server2,
    s1: &Server2,
    c0: &Smb2Conn,
    c1: &Smb2Conn,
    h: Header2,
    status: Status,
    body: Seq<u8>,
    r: (Vec<u8>, bool),
) -> bool {
    let sealing = derives_cipher_keys(c0, h.command, status) && s0.encrypt;
    &&& r.0@ == finished_response(c0, h, status, body)
    &&& r.1 == !sealing
    &&& *c1 == (Smb2Conn {
        signing_key: c1.signing_key,
        enc_keys: c1.enc_keys,
        encrypt_data: c0.encrypt_data || sealing,
        resp_tree_id: None,
        preauth_hash: c1.preauth_hash,
        ..*c0
    })
    &&& key_bytes(c1.signing_key) == signing_after(c0, h.command)
    &&& pair_bytes(c1.enc_keys) == enc_after(c0, h.command, status)
    &&& c1.preauth_hash@ == if is_preauth(h.command) && c0.dialect == Some(DIALECT_311) {
        hashed(c0.preauth_hash@, plain_response(c0, h, status, body))
    } else {
        c0.preauth_hash@
    }
    &&& *s1 == (Server2 { sessions: s1.sessions, ..*s0 })
    &&& if ends_setup(c0, h.command, status) && c0.session_id != 0 {
        &&& s1.sessions@.contains_key(c0.session_id)
        &&& entry_of(c1, s1.sessions@[c0.session_id])
        &&& s1.sessions@ == s0.sessions@.insert(c0.session_id, s1.sessions@[c0.session_id])
    } else {
        s1.sessions@ == s0.sessions@
    }
}

fn update_signing_key(conn: &Smb2Conn, command: u16) -> (k: Option<[u8; 16]>)
    ensures
        key_bytes(k) == signing_after(conn, command),
{
    if command == CMD_SESSION_SETUP && conn.authenticated && conn.signing_key.is_none() {
        match conn.session_key {
            Some(key) => Some(derive_signing_key(&key, conn.dialect, &conn.preauth_hash)),
            None => conn.signing_key,
        }
    } else {
        conn.signing_key
    }
}

fn new_cipher_keys(conn: &Smb2Conn, command: u16, status: Status) -> (k: Option<([u8; 32], [u8; 32])>)
    ensures
        k is Some <==> derives_cipher_keys(conn, command, status),
        k is Some ==> pair_bytes(k) == enc_after(conn, command, status),
{
    if command == CMD_SESSION_SETUP && status == Status::SUCCESS && conn.authenticated && !conn.guest
        && conn.enc_keys.is_none() {
        match (conn.session_key, conn.cipher) {
            (Some(key), Some(cipher)) => Some(derive_cipher_keys(&key, cipher, conn.dialect, &conn.preauth_hash)),
            _ => None,
        }
    } else {
        None
    }
}

fn make_response(conn: &Smb2Conn, h: &Header2, status: Status, body: Vec<u8>) -> (f: Vec<u8>)
    ensures
        f@ == plain_response(conn, *h, status, body@),
        f@.len() >= HEADER_LEN,
{
    let mut f = response(h, status, body, conn.session_id);
    match conn.resp_tree_id {
        Some(t) => {
            let mut v: Vec<u8> = Vec::new();
            put_u32(&mut v, t);
            assert(v@ =~= le32(t));
            put_at(&mut f, 36, v.as_slice());
        },
        None => {},
    }
    f
}

fn make_entry(conn: &Smb2Conn) -> (e: SessionEntry)
    ensures
        entry_of(conn, e),
{
    SessionEntry {
        session_key: conn.session_key,
        signing_key: conn.signing_key,
        dialect: conn.dialect,
        user: conn.user.clone(),
        guest: conn.guest,
        cipher: conn.cipher,
        enc_keys: conn.enc_keys,
        encrypt_data: conn.encrypt_data,
    }
}

/// Finishes the response to a request: derives the keys of a session that has just
/// been established, registers it, and signs.
pub fn finish_single(server: &mut Server2, conn: &mut Smb2Conn, h: &Header2, status: Status, body: Vec<u8>) -> (r: (
    Vec<u8>,
    bool,
))
    requires
        old(server).wf(),
        old(conn).wf(),
    ensures
        finished(old(server), final(server), old(conn), final(conn), *h, status, body@, r),
        r.0@.len() >= HEADER_LEN,
        final(server).wf(),
        final(conn).wf(),
{
    let mut f = make_response(conn, h, status, body);
    let hash: [u8; 64] = conn.preauth_hash;
    let next_hash: [u8; 64] = if (h.command == CMD_NEGOTIATE || h.command == CMD_SESSION_SETUP) && conn.dialect == Some(
        DIALECT_311,
    ) {
        hash_message(&hash, f.as_slice())
    } else {
        hash
    };
    let signing = update_signing_key(conn, h.command);
    let cipher_keys = new_cipher_keys(conn, h.command, status);
    let sealing: bool = cipher_keys.is_some() && server.encrypt;
    let last_leg: bool = h.command == CMD_SESSION_SETUP && status == Status::SUCCESS && conn.authenticated;
    if h.is_signed() || last_leg {
        let key = match signing {
            Some(k) => Some(k),
            None => conn.session_key,
        };
        match key {
            Some(k) => sign_pdu(&mut f, &k, conn.dialect),
            None => {},
        }
    }
    conn.signing_key = signing;
    match cipher_keys {
        Some(k) => {
            conn.enc_keys = Some(k);
        },
        None => {},
    }
    if sealing {
        conn.encrypt_data = true;
    }
    conn.resp_tree_id = None;
    conn.preauth_hash = next_hash;
    if last_leg && conn.session_id != 0 {
        let e = make_entry(conn);
        server.sessions.insert(conn.session_id, e);
    }
    (f, !sealing)
}

/// The response that turns encryption on travels in the clear, and from then on
/// the session is encrypted.
pub proof fn law_enabling_response_is_plain(
    s0: &Server2,
    s1: &Server2,
    c0: &Smb2Conn,
    c1: &Smb2Conn,
    h: Header2,
    status: Status,
    body: Seq<u8>,
    r: (Vec<u8>, bool),
)
    requires
        finished(s0, s1, c0, c1, h, status, body, r),
        !c0.encrypt_data,
    ensures
        c1.encrypt_data <==> !r.1,
        c1.encrypt_data ==> c1.enc_keys is Some && c1.cipher is Some,
{
}

/// The response that establishes a session with a key verifies under the key that
/// the connection then holds.
pub proof fn law_last_leg_verifies(
    s0: &Server2,
    s1: &Server2,
    c0: &Smb2Conn,
    c1: &Smb2Conn,
    h: Header2,
    status: Status,
    body: Seq<u8>,
    r: (Vec<u8>, bool),
)
    requires
        finished(s0, s1, c0, c1, h, status, body, r),
        ends_setup(c0, h.command, status),
        c0.session_key is Some,
    ensures
        c1.signing_key is Some,
        signature_verifies(r.0@, c1.signing_key->0@, c1.dialect),
{
    let p = plain_response(c0, h, status, body);
    lemma_response_frame_len(h, status, body, c0.session_id);
    law_signed_verifies(p, c1.signing_key->0@, c0.dialect);
}

proof fn lemma_response_frame_len(h: Header2, status: Status, body: Seq<u8>, session_id: u64)
    ensures
        response_frame(h, status, body, session_id).len() >= HEADER_LEN,
{
    law_response_echoes(h, status, body, session_id);
}

// ---------------- what the rules are for ----------------

/// Which commands need no session, and which are about a tree, by their numbers: negotiate,
/// session setup and echo need none; from create to ioctl and from listings to changes of
/// information a tree is needed.
pub proof fn law_commands_by_number(command: u16)
    ensures
        before_session(command) <==> command == 0 || command == 1 || command == 13,
        about_tree(command) <==> 5 <= command <= 11 || 14 <= command <= 17,
        is_preauth(command) <==> command <= 1,
{
}

/// A request is let through exactly where nothing speaks against it: it needs no session or
/// carries that of an authenticated connection; its tree is connected, where it is about
/// one and does not go on from the request before; its file was not closed by force; its
/// signature verifies, or none is needed; and it is sealed where its tree asks for that.
pub proof fn law_good_request_is_let_through(server: &Server2, c: &Smb2Conn, h: Header2, buf: Seq<u8>)
    ensures
        refusal(server, c, h, buf) is None <==> {
            &&& h.command == 0 || h.command == 1 || h.command == 13 || c.authenticated && h.session_id == c.session_id
            &&& (5 <= h.command <= 11 || 14 <= h.command <= 17) && h.flags & 4 == 0 ==> c.trees@.dom().contains(h.tree_id)
            &&& !file_was_forced(server, c.session_id, h.command, buf)
            &&& h.command >= 2 && !c.guest && !c.encrypt_data && !c.req_encrypted ==> (c.signing_key matches Some(k) ==> if h.flags
                & 8 != 0 {
                signature_verifies(buf, k@, c.dialect)
            } else {
                !server.require_signing
            })
            &&& h.command >= 2 && h.command != 3 && c.tree_encrypts(server, h.tree_id) ==> c.req_encrypted
        },
{
}

/// A request that is refused is answered: the response carries its message id and the
/// status of the reason, and the connection keeps its session, trees and keys.
pub proof fn law_refused_request_is_answered(
    s0: &Server2,
    s1: &Server2,
    c0: &Smb2Conn,
    c1: &Smb2Conn,
    buf: Seq<u8>,
    r: Intake,
)
    requires
        taken_in(s0, s1, c0, c1, buf, r),
        has_header2(buf),
    ensures
        r is Refused <==> refusal(s0, c0, header2_of(buf), buf) is Some,
        r matches Intake::Accepted(h) ==> h == header2_of(buf),
        r matches Intake::Refused(f, wrap) ==> {
            let got = header2_of(f@);
            let why = refusal(s0, c0, header2_of(buf), buf)->0;
            &&& has_header2(f@)
            &&& got.message_id == little(buf, 24, 8)
            &&& got.status != 0
            &&& why is Session ==> got.status == 0xC000_0022 && got.session_id == 0
            &&& why is Tree ==> got.status == 0xC000_00C9
            &&& why is Forced ==> got.status == 0xC000_0128
            &&& why is Signature || why is Encryption ==> got.status == 0xC000_0022
        },
        c1.session_id == c0.session_id && c1.authenticated == c0.authenticated && c1.trees == c0.trees && c1.sign_key()
            == c0.sign_key(),
{
    let h = header2_of(buf);
    lemma_little(buf, 24);
    match refusal(s0, c0, h, buf) {
        Some(w) => {
            law_response_echoes(h, refusal_status(w), Seq::empty(), 0);
            law_response_echoes(h, refusal_status(w), Seq::empty(), c0.session_id);
        },
        None => {},
    }
}

/// The file that a request is about is the one whose id its body carries, where its handler
/// reads it too.
pub proof fn law_file_of_a_request(buf: Seq<u8>)
    requires
        buf.len() >= 112,
    ensures
        file_of(6, buf) == Some(buf.subrange(72, 88)),
        file_of(7, buf) == Some(buf.subrange(72, 88)),
        file_of(8, buf) == Some(buf.subrange(80, 96)),
        file_of(9, buf) == Some(buf.subrange(80, 96)),
        file_of(10, buf) == Some(buf.subrange(72, 88)),
        file_of(11, buf) == Some(buf.subrange(72, 88)),
        file_of(14, buf) == Some(buf.subrange(72, 88)),
        file_of(15, buf) == Some(buf.subrange(72, 88)),
        file_of(16, buf) == Some(buf.subrange(88, 104)),
        file_of(17, buf) == Some(buf.subrange(80, 96)),
        file_of(5, buf) is None,
{
}

/// A client spends the credits that its request is charged, as far as it has them; it is
/// granted at least one and at most 512, and as many as it asks for in between.
pub proof fn law_credits_are_spent_and_granted(credits: u32, h: Header2)
    ensures
        h.command != 0 && h.credit_charge <= credits ==> credits_after(credits, h) + h.credit_charge == credits,
        h.credit_charge > credits && h.credit_charge > 1 ==> credits_after(credits, h) == 0,
        1 <= credit_grant(h) <= 512,
        1 <= h.credits <= 512 && h.credit_charge <= h.credits ==> credit_grant(h) == h.credits,
{
}

/// A response goes to the request that it answers: it carries the status, the message id
/// and the session, and after a tree connect the id of the new tree; its body is what the
/// handler gave.
pub proof fn law_response_goes_to_its_request(c: &Smb2Conn, h: Header2, status: Status, body: Seq<u8>)
    ensures
        ({
            let f = plain_response(c, h, status, body);
            let got = header2_of(f);
            &&& has_header2(f)
            &&& got.status == status_code(status) && got.command == h.command && got.message_id == h.message_id
            &&& got.session_id == c.session_id
            &&& got.tree_id == match c.resp_tree_id {
                Some(t) => t,
                None => h.tree_id,
            }
            &&& status == Status::SUCCESS || body.len() > 0 ==> f.subrange(64, f.len() as int) == body
        }),
{
    let f = response_frame(h, status, body, c.session_id);
    law_response_echoes(h, status, body, c.session_id);
    lemma_response_body(h, status, body, c.session_id);
    match c.resp_tree_id {
        Some(t) => {
            let g = patched(f, 36, le32(t));
            assert forall|i: int| 0 <= i < g.len() && !(36 <= i < 40) implies #[trigger] g[i] == f[i] by {}
            assert(g.subrange(0, 4) =~= f.subrange(0, 4));
            assert(g[36] == le32(t)[0] && g[37] == le32(t)[1] && g[38] == le32(t)[2] && g[39] == le32(t)[3]);
            assert(header2_of(g) == (Header2 { tree_id: t, ..header2_of(f) }));
            assert(g.subrange(64, g.len() as int) =~= f.subrange(64, f.len() as int));
        },
        None => {},
    }
}

proof fn lemma_response_body(h: Header2, status: Status, body: Seq<u8>, session_id: u64)
    ensures
        response_frame(h, status, body, session_id).subrange(
            64,
            response_frame(h, status, body, session_id).len() as int,
        ) == sent_body(status, body),
{
    reveal(header_bytes);
    let f = response_frame(h, status, body, session_id);
    assert(f.subrange(64, f.len() as int) =~= sent_body(status, body));
}

/// A session that is established is found under its id from then on, with the user and the
/// keys of its connection, so that further channels can be bound to it; no other session
/// is touched.
pub proof fn law_established_session_is_registered(
    s0: &Server2,
    s1: &Server2,
    c0: &Smb2Conn,
    c1: &Smb2Conn,
    h: Header2,
    status: Status,
    body: Seq<u8>,
    r: (Vec<u8>, bool),
    other: u64,
)
    requires
        finished(s0, s1, c0, c1, h, status, body, r),
    ensures
        h.command == 1 && status == Status::SUCCESS && c0.authenticated && c0.session_id != 0 ==> {
            let e = s1.sessions@[c0.session_id];
            &&& s1.sessions@.dom().contains(c0.session_id)
            &&& e.user@ == c0.user@ && e.guest == c0.guest && e.session_key == c0.session_key && e.signing_key
                == c1.signing_key && e.enc_keys == c1.enc_keys && e.dialect == c0.dialect && e.cipher == c0.cipher
        },
        !(h.command == 1 && status == Status::SUCCESS && c0.authenticated) ==> s1.sessions@ == s0.sessions@,
        other != c0.session_id ==> s1.sessions@.dom().contains(other) == s0.sessions@.dom().contains(other),
        c1.session_key == c0.session_key && c1.handles == c0.handles && c1.trees == c0.trees,
        c0.signing_key is Some ==> c1.signing_key == c0.signing_key || key_bytes(c1.signing_key) == key_bytes(
            c0.signing_key,
        ),
{
}

/// The keys of a session are made apart: of dialect 3.1.1 from the hash of the negotiation,
/// and the two directions under labels of their own. Dialects before 3 sign with the
/// session key itself.
pub proof fn law_keys_follow_the_dialect(key: Seq<u8>, hash: Seq<u8>, cipher: u16)
    ensures
        signing_key_of(key, Some(0x0202), hash) == key,
        signing_key_of(key, Some(0x0210), hash) == key,
        signing_key_of(key, Some(0x0300), hash) == signing_key_of(key, Some(0x0302), hash),
        signing_key_of(key, Some(0x0311), hash) == derived_key(key, LABEL_SIGN_311@, hash, 16),
        LABEL_C2S_311@ != LABEL_S2C_311@,
        CONTEXT_IN_30@ != CONTEXT_OUT_30@,
        cipher_keys_of(key, cipher, Some(0x0311), hash).0 == cipher_key(key, cipher, LABEL_C2S_311@, hash),
        cipher_keys_of(key, cipher, Some(0x0311), hash).1 == cipher_key(key, cipher, LABEL_S2C_311@, hash),
{
    assert(LABEL_C2S_311@[3] == 0x43 && LABEL_S2C_311@[3] == 0x53);
    assert(CONTEXT_IN_30@[6] == 0x49);
    assert(CONTEXT_OUT_30@[6] == 0x4F);
}

} // verus!
