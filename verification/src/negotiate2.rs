//! SMB2 negotiation: dialect, integrity hash, cipher and compression.
use vstd::prelude::*;
use crate::bytes::{get_u16, get_u32, lemma_little, little, u16_at, u32_at};
use crate::conn2::{Server2, Smb2Conn};
use crate::frame2::{probe_bytes, probe_negotiate_resp, response, response_frame, Header2, DIALECT_202, DIALECT_210, DIALECT_300, DIALECT_311, DIALECT_WILDCARD};
use crate::sealing::{AES128_CCM, AES128_GCM, AES256_CCM, AES256_GCM};
use crate::smb::{status_code, Status};
use crate::text::{lowercase, same_text, to_lowercase};

verus! {

/// Kind of the context that offers integrity hashes.
pub const CTX_PREAUTH: u16 = 1;

/// Kind of the context that offers ciphers.
pub const CTX_ENCRYPTION: u16 = 2;

/// Kind of the context that offers compression.
pub const CTX_COMPRESSION: u16 = 3;

/// Kind of the context that offers signing algorithms.
pub const CTX_SIGNING: u16 = 8;

/// The hash algorithm SHA-512.
pub const HASH_SHA512: u16 = 1;

/// The compression algorithm LZNT1.
pub const ALGO_LZNT1: u16 = 1;

pub const CAP2_LEASING: u32 = 0x02;

pub const CAP2_LARGE_MTU: u32 = 0x04;

pub const CAP2_MULTI_CHANNEL: u32 = 0x08;

/// A negotiate context.
pub struct NegContext {
    pub kind: u16,
    pub data: Vec<u8>,
}

/// The body of a negotiate request.
pub struct NegotiateReq {
    pub client_guid: [u8; 16],
    pub dialects: Vec<u16>,
    /// The dialect that both sides speak, if there is one.
    pub picked: Option<u16>,
    pub contexts: Vec<NegContext>,
    /// The compression algorithms that both sides have.
    pub common_algos: Vec<u16>,
}

/// The body of a successful negotiate response.
pub struct NegotiateBody {
    pub dialect: u16,
    /// The cipher that is echoed; zero where none is common.
    pub cipher: Option<u16>,
    /// The client offered signing algorithms.
    pub signing: bool,
    pub comp_algos: Vec<u16>,
    pub require_signing: bool,
}

/// How a negotiate request is answered.
pub enum NegotiateReply {
    /// Nothing is sent, and the connection ends.
    Silent,
    /// The answer to a probe.
    Probe(Status, Vec<u8>),
    /// An error.
    Refused(Status),
    Agreed(NegotiateBody),
}

/// The words of `data` from place `from` on, at most `max`.
pub open spec fn words_from(data: Seq<u8>, from: int, max: int) -> Seq<u16> {
    let n = if data.len() >= from {
        (data.len() - from) / 2
    } else {
        0
    };
    Seq::new(
        (if n < max {
            n
        } else {
            max
        }) as nat,
        |i: int| u16_at(data, from + 2 * i),
    )
}

fn read_words(data: &[u8], from: usize, max: usize) -> (r: Vec<u16>)
    requires
        from <= 16,
    ensures
        r@ == words_from(data@, from as int, max as int),
{
    let len: usize = data.len();
    let n: usize = if len >= from {
        (len - from) / 2
    } else {
        0
    };
    let count: usize = if n < max {
        n
    } else {
        max
    };
    let mut r: Vec<u16> = Vec::new();
    let mut i: usize = 0;
    while i < count
        invariant
            i <= count <= n,
            len == data@.len(),
            from <= 16,
            n > 0 ==> from + 2 * n <= len,
            r@.len() == i,
            forall|k: int| 0 <= k < i ==> r@[k] == u16_at(data@, from + 2 * k),
        decreases count - i,
    {
        r.push(get_u16(data, from + 2 * i));
        i += 1;
    }
    assert(r@ =~= words_from(data@, from as int, max as int));
    r
}

/// The first context of a kind.
pub open spec fn context_of(c: Seq<NegContext>, kind: u16, n: int) -> Option<Seq<u8>>
    decreases n,
{
    if n <= 0 {
        None
    } else {
        match context_of(c, kind, n - 1) {
            Some(d) => Some(d),
            None => if c[n - 1].kind == kind {
                Some(c[n - 1].data@)
            } else {
                None
            },
        }
    }
}

/// How many contexts have a kind.
pub open spec fn contexts_of(c: Seq<NegContext>, kind: u16, n: int) -> int
    decreases n,
{
    if n <= 0 {
        0
    } else {
        contexts_of(c, kind, n - 1) + if c[n - 1].kind == kind {
            1int
        } else {
            0int
        }
    }
}

fn find_context(c: &Vec<NegContext>, kind: u16) -> (r: Option<usize>)
    ensures
        match r {
            Some(i) => i < c@.len() && context_of(c@, kind, c@.len() as int) == Some(c@[i as int].data@),
            None => context_of(c@, kind, c@.len() as int) is None,
        },
{
    let n: usize = c.len();
    let mut r: Option<usize> = None;
    let mut i: usize = 0;
    while i < n
        invariant
            i <= n == c@.len(),
            match r {
                Some(j) => j < i && context_of(c@, kind, i as int) == Some(c@[j as int].data@),
                None => context_of(c@, kind, i as int) is None,
            },
        decreases n - i,
    {
        if r.is_none() && c[i].kind == kind {
            r = Some(i);
        }
        i += 1;
    }
    r
}

fn count_contexts(c: &Vec<NegContext>, kind: u16) -> (r: usize)
    ensures
        r == contexts_of(c@, kind, c@.len() as int),
{
    let n: usize = c.len();
    let mut r: usize = 0;
    let mut i: usize = 0;
    while i < n
        invariant
            i <= n == c@.len(),
            r <= i,
            r == contexts_of(c@, kind, i as int),
        decreases n - i,
    {
        if c[i].kind == kind {
            r += 1;
        }
        i += 1;
    }
    r
}

fn has_word(v: &Vec<u16>, w: u16) -> (r: bool)
    ensures
        r == v@.contains(w),
{
    let n: usize = v.len();
    let mut i: usize = 0;
    while i < n
        invariant
            i <= n == v@.len(),
            forall|k: int| 0 <= k < i ==> v@[k] != w,
        decreases n - i,
    {
        if v[i] == w {
            assert(v@[i as int] == w);
            return true;
        }
        i += 1;
    }
    false
}

/// The hash algorithms that an integrity context offers.
pub open spec fn offered_hashes(data: Seq<u8>) -> Seq<u16> {
    words_from(
        data,
        4,
        if data.len() >= 2 {
            u16_at(data, 0) as int
        } else {
            0
        },
    )
}

/// The ciphers that a client offers.
pub open spec fn offered_ciphers(c: Seq<NegContext>) -> Seq<u16> {
    match context_of(c, CTX_ENCRYPTION, c.len() as int) {
        Some(d) => if d.len() >= 2 {
            words_from(d, 2, u16_at(d, 0) as int)
        } else {
            Seq::empty()
        },
        None => Seq::empty(),
    }
}

fn client_ciphers(c: &Vec<NegContext>) -> (r: Vec<u16>)
    ensures
        r@ == offered_ciphers(c@),
{
    match find_context(c, CTX_ENCRYPTION) {
        Some(i) => {
            let d = c[i].data.as_slice();
            if d.len() >= 2 {
                let n: usize = get_u16(d, 0) as usize;
                return read_words(d, 2, n);
            }
        },
        None => {},
    }
    let e: Vec<u16> = Vec::new();
    assert(e@ =~= Seq::<u16>::empty());
    e
}

/// The ciphers in the order in which they are preferred.
pub open spec fn cipher_order(pref: Seq<char>) -> Seq<u16> {
    if pref == "ccm"@ || pref == "128ccm"@ {
        seq![AES128_CCM, AES256_CCM, AES128_GCM, AES256_GCM]
    } else if pref == "256"@ || pref == "256gcm"@ {
        seq![AES256_GCM, AES128_GCM, AES256_CCM, AES128_CCM]
    } else if pref == "256ccm"@ {
        seq![AES256_CCM, AES128_CCM, AES256_GCM, AES128_GCM]
    } else {
        seq![AES128_GCM, AES256_GCM, AES128_CCM, AES256_CCM]
    }
}

/// The first of the ciphers in `order` that is offered.
pub open spec fn chosen_cipher(order: Seq<u16>, offered: Seq<u16>) -> Option<u16> {
    if offered.contains(order[0]) {
        Some(order[0])
    } else if offered.contains(order[1]) {
        Some(order[1])
    } else if offered.contains(order[2]) {
        Some(order[2])
    } else if offered.contains(order[3]) {
        Some(order[3])
    } else {
        None
    }
}

fn choose_cipher(pref: &str, offered: &Vec<u16>) -> (r: Option<u16>)
    ensures
        r == chosen_cipher(cipher_order(lowercase(pref@)), offered@),
{
    let p = to_lowercase(pref);
    let p = p.as_str();
    let order: [u16; 4] = if same_text(p, "ccm") || same_text(p, "128ccm") {
        [AES128_CCM, AES256_CCM, AES128_GCM, AES256_GCM]
    } else if same_text(p, "256") || same_text(p, "256gcm") {
        [AES256_GCM, AES128_GCM, AES256_CCM, AES128_CCM]
    } else if same_text(p, "256ccm") {
        [AES256_CCM, AES128_CCM, AES256_GCM, AES128_GCM]
    } else {
        [AES128_GCM, AES256_GCM, AES128_CCM, AES256_CCM]
    };
    assert(order@ =~= cipher_order(lowercase(pref@)));
    if has_word(offered, order[0]) {
        Some(order[0])
    } else if has_word(offered, order[1]) {
        Some(order[1])
    } else if has_word(offered, order[2]) {
        Some(order[2])
    } else if has_word(offered, order[3]) {
        Some(order[3])
    } else {
        None
    }
}

/// The capabilities that go with a dialect.
pub open spec fn caps_of(dialect: u16) -> u32 {
    if dialect >= DIALECT_300 {
        14
    } else if dialect >= DIALECT_210 {
        6
    } else {
        0
    }
}

/// Why a request with a common dialect is refused: for dialect 3.1.1 it carries
/// exactly one integrity context, which offers SHA-512, and a compression context
/// is whole and offers something.
pub open spec fn context_refusal(dialect: u16, c: Seq<NegContext>) -> Option<Status> {
    let n = c.len() as int;
    if dialect != DIALECT_311 {
        None
    } else if contexts_of(c, CTX_PREAUTH, n) != 1 {
        Some(Status::INVALID_PARAMETER)
    } else if !offered_hashes(context_of(c, CTX_PREAUTH, n)->0).contains(HASH_SHA512) {
        Some(Status::SMB_NO_PREAUTH_INTEGRITY_HASH_OVERLAP)
    } else {
        match context_of(c, CTX_COMPRESSION, n) {
            Some(d) => if d.len() < 8 || u16_at(d, 0) == 0 {
                Some(Status::INVALID_PARAMETER)
            } else {
                None
            },
            None => None,
        }
    }
}

proof fn lemma_context_counted(c: Seq<NegContext>, kind: u16, n: int)
    requires
        0 <= n <= c.len(),
    ensures
        contexts_of(c, kind, n) >= 0,
        contexts_of(c, kind, n) > 0 <==> context_of(c, kind, n) is Some,
    decreases n,
{
    if n > 0 {
        lemma_context_counted(c, kind, n - 1);
    }
}

fn check_contexts(dialect: u16, c: &Vec<NegContext>) -> (r: Option<Status>)
    ensures
        r == context_refusal(dialect, c@),
{
    if dialect != DIALECT_311 {
        return None;
    }
    if count_contexts(c, CTX_PREAUTH) != 1 {
        return Some(Status::INVALID_PARAMETER);
    }
    proof {
        lemma_context_counted(c@, CTX_PREAUTH, c@.len() as int);
    }
    match find_context(c, CTX_PREAUTH) {
        Some(i) => {
            let d = c[i].data.as_slice();
            let n: usize = if d.len() >= 2 {
                get_u16(d, 0) as usize
            } else {
                0
            };
            let algos = read_words(d, 4, n);
            if !has_word(&algos, HASH_SHA512) {
                return Some(Status::SMB_NO_PREAUTH_INTEGRITY_HASH_OVERLAP);
            }
        },
        None => {},
    }
    match find_context(c, CTX_COMPRESSION) {
        Some(i) => {
            let d = c[i].data.as_slice();
            if d.len() < 8 || get_u16(d, 0) == 0 {
                return Some(Status::INVALID_PARAMETER);
            }
        },
        None => {},
    }
    None
}

/// The compression algorithms that are echoed.
pub open spec fn echoed_algos(req: NegotiateReq) -> Seq<u16> {
    if context_of(req.contexts@, CTX_COMPRESSION, req.contexts@.len() as int) is Some {
        req.common_algos@
    } else {
        Seq::empty()
    }
}

/// What the connection keeps of a request with a common dialect.
pub open spec fn keeps_request(c0: &Smb2Conn, c1: &Smb2Conn, req: NegotiateReq, buf: Seq<u8>, dialect: u16) -> bool {
    &&& c1.dialect == Some(dialect)
    &&& c1.client_guid == req.client_guid
    &&& c1.client_dialects@ == req.dialects@
    &&& c1.client_security_mode == u16_at(buf, 68)
    &&& c1.client_capabilities == if buf.len() >= 76 {
        u32_at(buf, 72)
    } else {
        0
    }
    &&& *c1 == (Smb2Conn {
        dialect: c1.dialect,
        client_guid: c1.client_guid,
        client_dialects: c1.client_dialects,
        client_security_mode: c1.client_security_mode,
        client_capabilities: c1.client_capabilities,
        advertised_caps: c1.advertised_caps,
        cipher: c1.cipher,
        compress_algo: c1.compress_algo,
        ..*c0
    })
}

/// Whether a negotiate request is answered as it should. A second one ends the
/// connection; a probe is answered with the wildcard dialect.
pub open spec fn negotiated2(
    server: &Server2,
    c0: &Smb2Conn,
    c1: &Smb2Conn,
    h: Header2,
    buf: Seq<u8>,
    req: Option<NegotiateReq>,
    pref: Seq<char>,
    r: NegotiateReply,
) -> bool {
    if c0.dialect is Some {
        r is Silent && *c1 == (Smb2Conn { disconnect: true, ..*c0 })
    } else if h.status == status_code(Status::INVALID_PARAMETER) || req is None {
        r matches NegotiateReply::Probe(s, b) && s == Status::INVALID_PARAMETER && b@ == probe_bytes() && *c1 == *c0
    } else {
        let q = req->0;
        match q.picked {
            None => r == NegotiateReply::Refused(Status::INVALID_PARAMETER) && *c1 == *c0,
            Some(d) => {
                &&& keeps_request(c0, c1, q, buf, d)
                &&& match context_refusal(d, q.contexts@) {
                    Some(s) => {
                        &&& r == NegotiateReply::Refused(s)
                        &&& c1.advertised_caps == c0.advertised_caps
                        &&& c1.cipher == c0.cipher
                        &&& c1.compress_algo == c0.compress_algo
                    },
                    None => {
                        let offered = offered_ciphers(q.contexts@);
                        let chosen = chosen_cipher(cipher_order(lowercase(pref)), offered);
                        let algos = echoed_algos(q);
                        &&& c1.advertised_caps == caps_of(d)
                        &&& c1.cipher == if d == DIALECT_311 && offered.len() > 0 {
                            chosen
                        } else {
                            c0.cipher
                        }
                        &&& c1.compress_algo == if d == DIALECT_311 && algos.contains(ALGO_LZNT1) {
                            Some(ALGO_LZNT1)
                        } else {
                            c0.compress_algo
                        }
                        &&& r matches NegotiateReply::Agreed(b)
                        &&& b.dialect == d
                        &&& b.cipher == if offered.len() == 0 {
                            None
                        } else if chosen is Some {
                            chosen
                        } else {
                            Some(0)
                        }
                        &&& b.signing == (contexts_of(q.contexts@, CTX_SIGNING, q.contexts@.len() as int) > 0)
                        &&& b.comp_algos@ == algos
                        &&& b.require_signing == server.require_signing
                    },
                }
            },
        }
    }
}

fn keep_request(conn: &mut Smb2Conn, req: &NegotiateReq, buf: &[u8], dialect: u16)
    ensures
        keeps_request(old(conn), final(conn), *req, buf@, dialect),
        final(conn).advertised_caps == old(conn).advertised_caps,
        final(conn).cipher == old(conn).cipher,
        final(conn).compress_algo == old(conn).compress_algo,
{
    conn.dialect = Some(dialect);
    conn.client_guid = req.client_guid;
    conn.client_dialects = copy_words(&req.dialects);
    conn.client_security_mode = get_u16(buf, 68);
    conn.client_capabilities = if buf.len() >= 76 {
        get_u32(buf, 72)
    } else {
        0
    };
}

fn copy_words(v: &Vec<u16>) -> (r: Vec<u16>)
    ensures
        r@ == v@,
{
    let n: usize = v.len();
    let mut r: Vec<u16> = Vec::new();
    let mut i: usize = 0;
    while i < n
        invariant
            i <= n == v@.len(),
            r@ == v@.subrange(0, i as int),
        decreases n - i,
    {
        r.push(v[i]);
        assert(v@.subrange(0, i + 1) =~= v@.subrange(0, i as int).push(v@[i as int]));
        i += 1;
    }
    assert(v@.subrange(0, n as int) =~= v@);
    r
}

fn common_compression(req: &NegotiateReq) -> (r: Vec<u16>)
    ensures
        r@ == echoed_algos(*req),
{
    match find_context(&req.contexts, CTX_COMPRESSION) {
        Some(_) => copy_words(&req.common_algos),
        None => {
            let e: Vec<u16> = Vec::new();
            assert(e@ =~= Seq::<u16>::empty());
            e
        },
    }
}

/// Answers a negotiate request. `req` is what its body was read as, `pref` the
/// configured preference among ciphers.
pub fn negotiate(
    conn: &mut Smb2Conn,
    server: &Server2,
    h: &Header2,
    buf: &[u8],
    req: &Option<NegotiateReq>,
    pref: &str,
) -> (r: NegotiateReply)
    ensures
        negotiated2(server, old(conn), final(conn), *h, buf@, *req, pref@, r),
{
    if conn.dialect.is_some() {
        conn.disconnect = true;
        return NegotiateReply::Silent;
    }
    let q = match req {
        Some(q) => q,
        None => return NegotiateReply::Probe(Status::INVALID_PARAMETER, probe_negotiate_resp()),
    };
    if h.status == 0xC000_000D {
        return NegotiateReply::Probe(Status::INVALID_PARAMETER, probe_negotiate_resp());
    }
    let dialect: u16 = match q.picked {
        Some(d) => d,
        None => return NegotiateReply::Refused(Status::INVALID_PARAMETER),
    };
    keep_request(conn, q, buf, dialect);
    match check_contexts(dialect, &q.contexts) {
        Some(s) => return NegotiateReply::Refused(s),
        None => {},
    }
    conn.advertised_caps = if dialect >= DIALECT_300 {
        CAP2_LARGE_MTU + CAP2_MULTI_CHANNEL + CAP2_LEASING
    } else if dialect >= DIALECT_210 {
        CAP2_LARGE_MTU + CAP2_LEASING
    } else {
        0
    };
    let offered = client_ciphers(&q.contexts);
    let chosen = choose_cipher(pref, &offered);
    if dialect == DIALECT_311 && offered.len() > 0 {
        conn.cipher = chosen;
    }
    let algos = common_compression(q);
    if dialect == DIALECT_311 && has_word(&algos, ALGO_LZNT1) {
        conn.compress_algo = Some(ALGO_LZNT1);
    }
    let cipher: Option<u16> = if offered.len() == 0 {
        None
    } else {
        match chosen {
            Some(c) => Some(c),
            None => Some(0),
        }
    };
    let signing: bool = count_contexts(&q.contexts, CTX_SIGNING) > 0;
    NegotiateReply::Agreed(
        NegotiateBody { dialect, cipher, signing, comp_algos: algos, require_signing: server.require_signing },
    )
}

/// A cipher is chosen exactly where one of those that both sides know is offered,
/// and it is one that was offered.
pub proof fn law_cipher_was_offered(pref: Seq<char>, offered: Seq<u16>)
    ensures
        match chosen_cipher(cipher_order(pref), offered) {
            Some(c) => offered.contains(c),
            None => !offered.contains(AES128_GCM) && !offered.contains(AES256_GCM) && !offered.contains(AES128_CCM)
                && !offered.contains(AES256_CCM),
        },
{
}

// ---------------- clients that start with SMB1 ----------------

/// Whether `pat` stands anywhere in `b`.
pub open spec fn holds_bytes(b: Seq<u8>, pat: Seq<u8>) -> bool {
    exists|i: int| crate::bytes::stands_at(b, pat, i)
}

/// The text `2.???`.
pub const ANY_DIALECT: [u8; 5] = [0x32, 0x2E, 0x3F, 0x3F, 0x3F];

/// The dialect that answers an SMB1 negotiate with an SMB2 marker: the wildcard
/// where the client lists it, else 2.0.2.
pub open spec fn upgrade_dialect(b: Seq<u8>) -> u16 {
    if holds_bytes(b, ANY_DIALECT@) {
        DIALECT_WILDCARD
    } else {
        DIALECT_202
    }
}

/// The header that the answer to an SMB1 negotiate is made for.
pub open spec fn upgrade_header() -> Header2 {
    Header2 {
        credit_charge: 0,
        status: 0,
        command: 0,
        credits: 1,
        flags: 1,
        next_command: 0,
        message_id: 0,
        tree_id: 0,
        session_id: 0,
    }
}

/// The dialect that an SMB1 multi-protocol negotiate is answered with; none where
/// the message has no header.
pub fn multiprotocol_dialect(b: &[u8]) -> (r: Option<u16>)
    ensures
        r == if crate::message::has_header(b@) {
            Some(upgrade_dialect(b@))
        } else {
            None
        },
{
    if crate::message::parse_header(b).is_none() {
        return None;
    }
    let any: [u8; 5] = ANY_DIALECT;
    match crate::bytes::find_bytes(b, any.as_slice()) {
        Some(i) => {
            assert(crate::bytes::stands_at(b@, ANY_DIALECT@, i as int));
            Some(DIALECT_WILDCARD)
        },
        None => Some(DIALECT_202),
    }
}

/// Frames the answer to an SMB1 multi-protocol negotiate; `body` is the negotiate
/// response for the dialect.
pub fn handle_multiprotocol_negotiate(b: &[u8], body: Vec<u8>) -> (r: Option<Vec<u8>>)
    ensures
        crate::sealing::bytes_of(r) == if crate::message::has_header(b@) {
            Some(response_frame(upgrade_header(), Status::SUCCESS, body@, 0))
        } else {
            None
        },
{
    if crate::message::parse_header(b).is_none() {
        return None;
    }
    let h = Header2 {
        credit_charge: 0,
        status: 0,
        command: 0,
        credits: 1,
        flags: 1,
        next_command: 0,
        message_id: 0,
        tree_id: 0,
        session_id: 0,
    };
    Some(response(&h, Status::SUCCESS, body, 0))
}

/// The dialect that is agreed on is the one that both sides have, and it is the
/// connection's from then on; without one the request is refused and nothing is agreed on.
/// A second negotiation ends the connection.
pub proof fn law_common_dialect_is_agreed_on(
    server: &Server2,
    c0: &Smb2Conn,
    c1: &Smb2Conn,
    h: Header2,
    buf: Seq<u8>,
    req: Option<NegotiateReq>,
    pref: Seq<char>,
    r: NegotiateReply,
)
    requires
        negotiated2(server, c0, c1, h, buf, req, pref, r),
    ensures
        c0.dialect is Some ==> r is Silent && c1.disconnect && c1.dialect == c0.dialect,
        r matches NegotiateReply::Agreed(b) ==> (req matches Some(q) && q.picked == Some(b.dialect) && c1.dialect == Some(
            b.dialect,
        ) && c1.client_guid == q.client_guid && b.require_signing == server.require_signing),
        c0.dialect is None && h.status != 0xC000_000D && (req matches Some(q) && q.picked is None) ==> (
        r matches NegotiateReply::Refused(s) && status_code(s) == 0xC000_000D && c1.dialect is None),
        c0.dialect is None && h.status != 0xC000_000D && (req matches Some(q) && (q.picked matches Some(d) && d != 0x0311))
            ==> r is Agreed,
        r is Silent ==> c0.dialect is Some,
        r is Probe ==> *c1 == *c0,
{
}

/// What a client says about itself is remembered, so that it can be validated later: its
/// security mode and its capabilities stand in bytes 68 and 72 of its request.
pub proof fn law_client_is_remembered(c0: &Smb2Conn, c1: &Smb2Conn, req: NegotiateReq, buf: Seq<u8>, dialect: u16)
    requires
        keeps_request(c0, c1, req, buf, dialect),
        buf.len() >= 76,
    ensures
        c1.client_security_mode == little(buf, 68, 2),
        c1.client_capabilities == little(buf, 72, 4),
        c1.client_dialects@ == req.dialects@,
        c1.session_id == c0.session_id && c1.authenticated == c0.authenticated,
{
    lemma_little(buf, 68);
    lemma_little(buf, 72);
}

/// The capabilities that are advertised grow with the dialect: none before 2.1, leases and
/// large messages from there on, several channels from 3.0 on.
pub proof fn law_capabilities_grow(a: u16, b: u16)
    requires
        a <= b,
    ensures
        caps_of(a) <= caps_of(b),
        caps_of(0x0202) == 0,
        caps_of(0x0210) == 6,
        caps_of(0x0300) == 14,
        caps_of(0x0311) == 14,
{
}

/// A cipher that is offered is preferred as configured: AES-128-GCM where nothing is asked
/// for, and the first of the configured order that the client has. What is echoed is what
/// the connection then uses.
pub proof fn law_preferred_cipher_is_used(pref: Seq<char>, offered: Seq<u16>, i: int)
    requires
        0 <= i < 4,
        offered.contains(cipher_order(pref)[i]),
    ensures
        cipher_order(pref).len() == 4,
        chosen_cipher(cipher_order(pref), offered) matches Some(c) && exists|k: int|
            0 <= k <= i && #[trigger] cipher_order(pref)[k] == c,
        pref.len() == 0 && offered.contains(2u16) ==> chosen_cipher(cipher_order(pref), offered) == Some(2u16),
{
    reveal_strlit("ccm");
    reveal_strlit("128ccm");
    reveal_strlit("256");
    reveal_strlit("256gcm");
    reveal_strlit("256ccm");
    let o = cipher_order(pref);
    assert(o[0] == o[0] && o[1] == o[1] && o[2] == o[2] && o[3] == o[3]);
}

/// For dialect 3.1.1 exactly one integrity context is needed, and it has to offer SHA-512
/// (number 1); older dialects need none.
pub proof fn law_integrity_is_needed(dialect: u16, c: Seq<NegContext>)
    ensures
        dialect != 0x0311 ==> context_refusal(dialect, c) is None,
        contexts_of(c, 1, c.len() as int) != 1 ==> context_refusal(0x0311, c) == Some(Status::INVALID_PARAMETER),
        context_refusal(0x0311, c) is None ==> (context_of(c, 1, c.len() as int) matches Some(d) ==> offered_hashes(
            d,
        ).contains(1)),
{
}

/// A client that starts with the older protocol is answered in 2.0.2, or with the wildcard
/// where it lists `2.???`.
pub proof fn law_upgrade_dialect(b: Seq<u8>, i: int)
    ensures
        upgrade_dialect(b) == 0x02FF || upgrade_dialect(b) == 0x0202,
        0 <= i && i + 5 <= b.len() && b.subrange(i, i + 5) == seq![0x32u8, 0x2Eu8, 0x3Fu8, 0x3Fu8, 0x3Fu8]
            ==> upgrade_dialect(b) == 0x02FF,
{
    assert(ANY_DIALECT@ =~= seq![0x32u8, 0x2Eu8, 0x3Fu8, 0x3Fu8, 0x3Fu8]);
    if 0 <= i && i + 5 <= b.len() && b.subrange(i, i + 5) == seq![0x32u8, 0x2Eu8, 0x3Fu8, 0x3Fu8, 0x3Fu8] {
        assert(crate::bytes::stands_at(b, ANY_DIALECT@, i));
    }
}

} // verus!
