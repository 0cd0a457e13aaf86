//! Credential verification against the configured user database, with the session
//! key that it yields.
use vstd::prelude::*;
use vstd::slice::slice_subrange;
use crate::bytes::{copy_all, put_bytes, same_bytes, zeros};
use crate::crypto::{array16, hmac_md5, hmac_md5_spec, nt_hash, nt_hash_spec, ntlmv1_response, ntlmv1_spec};
use crate::handlers::is_anonymous;
use crate::ntlm::{trim_text, trimmed, Type3, NTLMSSP_NEGOTIATE_ANONYMOUS};
use crate::rc4::{rc4, rc4_spec};
use crate::tables::TextMap;
use crate::text::{encode_utf16_bytes, lowercase, to_lowercase, to_uppercase, uppercase, utf16_bytes};

verus! {

/// Outcome of credential verification.
#[derive(Debug)]
pub struct AuthOutcome {
    /// Credentials accepted.
    pub ok: bool,
    /// Principal was mapped to guest rather than a real account.
    pub guest: bool,
    /// Effective username.
    pub user: String,
    /// Exported session key, where the secret was verified; without one nothing is
    /// signed.
    pub session_key: Option<[u8; 16]>,
}

/// What an outcome says.
pub struct OutcomeView {
    pub ok: bool,
    pub guest: bool,
    pub user: Seq<char>,
    pub session_key: Option<Seq<u8>>,
}

impl View for AuthOutcome {
    type V = OutcomeView;

    open spec fn view(&self) -> OutcomeView {
        OutcomeView {
            ok: self.ok,
            guest: self.guest,
            user: self.user@,
            session_key: match self.session_key {
                Some(k) => Some(k@),
                None => None,
            },
        }
    }
}

/// The key that NTLMv2 makes of password and identity: upper-case user name and
/// domain.
pub open spec fn ntlmv2_hash(pass: Seq<char>, user: Seq<char>, domain: Seq<char>) -> Seq<u8> {
    hmac_md5_spec(nt_hash_spec(pass), utf16_bytes(uppercase(user)) + utf16_bytes(domain))
}

/// The proof under that key: over the challenge and the client's blob.
pub open spec fn v2_proof(key: Seq<u8>, challenge: Seq<u8>, response: Seq<u8>) -> Seq<u8> {
    hmac_md5_spec(key, challenge + response.subrange(16, response.len() as int))
}

/// Whether a response proves the password under this identity.
pub open spec fn v2_verifies(key: Seq<u8>, challenge: Seq<u8>, response: Seq<u8>) -> bool {
    response.len() >= 24 && v2_proof(key, challenge, response) == response.subrange(0, 16)
}

/// The exported session key: the key-exchange key, or what it decrypts where the
/// client sent an encrypted key.
pub open spec fn exported_key(key: Seq<u8>, proof_given: Seq<u8>, encrypted: Seq<u8>) -> Seq<u8> {
    let kek = hmac_md5_spec(key, proof_given);
    if encrypted.len() == 16 {
        rc4_spec(kek, encrypted)
    } else {
        kek
    }
}

/// Whether an NTLMv1 response proves the password.
pub open spec fn v1_verifies(pass: Seq<char>, challenge: Seq<u8>, response: Seq<u8>) -> bool {
    response.len() == 24 && ntlmv1_spec(nt_hash_spec(pass) + zeros(5), challenge) == response
}

/// How the login of a known user ends: with the client's domain, then without a
/// domain, then by NTLMv1.
pub open spec fn known_user(
    pass: Seq<char>,
    name: Seq<char>,
    domain: Seq<char>,
    challenge: Seq<u8>,
    response: Seq<u8>,
    encrypted: Seq<u8>,
) -> OutcomeView {
    let k1 = ntlmv2_hash(pass, name, domain);
    let k2 = ntlmv2_hash(pass, name, Seq::empty());
    if v2_verifies(k1, challenge, response) {
        OutcomeView {
            ok: true,
            guest: false,
            user: name,
            session_key: Some(exported_key(k1, response.subrange(0, 16), encrypted)),
        }
    } else if v2_verifies(k2, challenge, response) {
        OutcomeView {
            ok: true,
            guest: false,
            user: name,
            session_key: Some(exported_key(k2, response.subrange(0, 16), encrypted)),
        }
    } else {
        OutcomeView { ok: v1_verifies(pass, challenge, response), guest: false, user: name, session_key: None }
    }
}

/// How a login ends. Without credentials it is a guest's. Without users everyone
/// is let in by name where guests are allowed. Otherwise an unknown user is rejected,
/// and a known one must prove the password.
pub open spec fn outcome(
    users: Map<Seq<char>, String>,
    allow_guest: bool,
    challenge: Seq<u8>,
    t3: Type3,
    encrypted: Seq<u8>,
) -> OutcomeView {
    let name = trimmed(t3.user@);
    if is_anonymous(t3.lm_response@, t3.ntlm_response@, t3.flags) {
        OutcomeView { ok: true, guest: true, user: "nobody"@, session_key: None }
    } else if users == Map::<Seq<char>, String>::empty() && allow_guest {
        OutcomeView { ok: true, guest: false, user: name, session_key: None }
    } else if !users.contains_key(lowercase(name)) {
        OutcomeView { ok: false, guest: false, user: name, session_key: None }
    } else {
        known_user(users[lowercase(name)]@, name, t3.domain@, challenge, t3.ntlm_response@, encrypted)
    }
}

fn make_ntlmv2_hash(hash: &[u8; 16], user: &str, domain: &str) -> (key: [u8; 16])
    ensures
        key@ == hmac_md5_spec(hash@, utf16_bytes(uppercase(user@)) + utf16_bytes(domain@)),
{
    let upper = to_uppercase(user);
    let mut id = encode_utf16_bytes(upper.as_str());
    let dom = encode_utf16_bytes(domain);
    put_bytes(&mut id, dom.as_slice());
    hmac_md5(hash.as_slice(), id.as_slice())
}

/// The exported session key of a verified response.
fn derive_session_key(key: &[u8; 16], proof_given: &[u8], encrypted: &[u8]) -> (k: [u8; 16])
    ensures
        k@ == exported_key(key@, proof_given@, encrypted@),
{
    let kek = hmac_md5(key.as_slice(), proof_given);
    if encrypted.len() == 16 {
        let out = rc4(kek.as_slice(), encrypted);
        array16(out.as_slice())
    } else {
        kek
    }
}

fn check_v2(key: &[u8; 16], challenge: &[u8; 8], response: &[u8]) -> (r: bool)
    ensures
        r == v2_verifies(key@, challenge@, response@),
{
    if response.len() < 24 {
        return false;
    }
    let mut msg = copy_all(challenge.as_slice());
    put_bytes(&mut msg, slice_subrange(response, 16, response.len()));
    let want = hmac_md5(key.as_slice(), msg.as_slice());
    same_bytes(want.as_slice(), slice_subrange(response, 0, 16))
}

fn check_v1(hash: &[u8; 16], challenge: &[u8; 8], response: &[u8]) -> (r: bool)
    ensures
        r == (response@.len() == 24 && ntlmv1_spec(hash@ + zeros(5), challenge@) == response@),
{
    if response.len() != 24 {
        return false;
    }
    let mut h: [u8; 21] = [0; 21];
    let mut i: usize = 0;
    while i < 16
        invariant
            i <= 16,
            h@.len() == 21,
            forall|k: int| 0 <= k < i ==> h@[k] == hash@[k],
            forall|k: int| i <= k < 21 ==> h@[k] == 0,
        decreases 16 - i,
    {
        h[i] = hash[i];
        i += 1;
    }
    assert(h@ =~= hash@ + zeros(5));
    let want = ntlmv1_response(&h, challenge);
    same_bytes(want.as_slice(), response)
}

fn login_known(pass: &str, user: String, domain: &str, challenge: &[u8; 8], response: &[u8], encrypted: &[u8]) -> (o:
    AuthOutcome)
    ensures
        o@ == known_user(pass@, user@, domain@, challenge@, response@, encrypted@),
{
    let hash = nt_hash(pass);
    let k1 = make_ntlmv2_hash(&hash, user.as_str(), domain);
    if check_v2(&k1, challenge, response) {
        let key = derive_session_key(&k1, slice_subrange(response, 0, 16), encrypted);
        return AuthOutcome { ok: true, guest: false, user, session_key: Some(key) };
    }
    let empty = String::new();
    assert(empty@ =~= Seq::<char>::empty());
    let k2 = make_ntlmv2_hash(&hash, user.as_str(), empty.as_str());
    if check_v2(&k2, challenge, response) {
        let key = derive_session_key(&k2, slice_subrange(response, 0, 16), encrypted);
        return AuthOutcome { ok: true, guest: false, user, session_key: Some(key) };
    }
    let ok: bool = check_v1(&hash, challenge, response);
    AuthOutcome { ok, guest: false, user, session_key: None }
}

/// Verifies NTLMv2 (preferred) or NTLMv1 responses; `encrypted` is the encrypted
/// session key that came with them.
pub fn authenticate_ntlmssp(
    users: &TextMap<String>,
    allow_guest: bool,
    challenge: &[u8; 8],
    t3: &Type3,
    encrypted: &[u8],
) -> (o: AuthOutcome)
    requires
        users.wf(),
    ensures
        o@ == outcome(users@, allow_guest, challenge@, *t3, encrypted@),
{
    let user = trim_text(t3.user.as_str()).to_owned();
    if t3.ntlm_response.len() == 0 && t3.lm_response.len() == 0 || t3.flags & NTLMSSP_NEGOTIATE_ANONYMOUS != 0 {
        return AuthOutcome { ok: true, guest: true, user: "nobody".to_owned(), session_key: None };
    }
    if users.is_empty() && allow_guest {
        return AuthOutcome { ok: true, guest: false, user, session_key: None };
    }
    let lower = to_lowercase(user.as_str());
    match users.get(lower.as_str()) {
        Some(pass) => login_known(
            pass.as_str(),
            user,
            t3.domain.as_str(),
            challenge,
            t3.ntlm_response.as_slice(),
            encrypted,
        ),
        None => AuthOutcome { ok: false, guest: false, user, session_key: None },
    }
}

/// Nobody gets a session key without proving a configured user's password.
pub proof fn law_key_needs_password(
    users: Map<Seq<char>, String>,
    allow_guest: bool,
    challenge: Seq<u8>,
    t3: Type3,
    encrypted: Seq<u8>,
)
    ensures
        ({
            let o = outcome(users, allow_guest, challenge, t3, encrypted);
            let name = trimmed(t3.user@);
            o.session_key is Some ==> {
                &&& o.ok && !o.guest
                &&& users.contains_key(lowercase(name))
                &&& ({
                    let pass = users[lowercase(name)]@;
                    v2_verifies(ntlmv2_hash(pass, name, t3.domain@), challenge, t3.ntlm_response@) || v2_verifies(
                        ntlmv2_hash(pass, name, Seq::empty()),
                        challenge,
                        t3.ntlm_response@,
                    )
                })
            }
        }),
{
}

/// A configured user that proves the password, with the client's domain, is let in
/// under that name and holds the session key.
pub proof fn law_password_gives_key(
    users: Map<Seq<char>, String>,
    allow_guest: bool,
    challenge: Seq<u8>,
    t3: Type3,
    encrypted: Seq<u8>,
)
    requires
        !is_anonymous(t3.lm_response@, t3.ntlm_response@, t3.flags),
        users.contains_key(lowercase(trimmed(t3.user@))),
        v2_verifies(
            ntlmv2_hash(users[lowercase(trimmed(t3.user@))]@, trimmed(t3.user@), t3.domain@),
            challenge,
            t3.ntlm_response@,
        ),
    ensures
        outcome(users, allow_guest, challenge, t3, encrypted) == (OutcomeView {
            ok: true,
            guest: false,
            user: trimmed(t3.user@),
            session_key: Some(
                exported_key(
                    ntlmv2_hash(users[lowercase(trimmed(t3.user@))]@, trimmed(t3.user@), t3.domain@),
                    t3.ntlm_response@.subrange(0, 16),
                    encrypted,
                ),
            ),
        }),
{
}

/// Where users are configured or guests are not allowed, only a configured user that
/// proves the password, or a login without credentials, is accepted.
pub proof fn law_strict_server(
    users: Map<Seq<char>, String>,
    allow_guest: bool,
    challenge: Seq<u8>,
    t3: Type3,
    encrypted: Seq<u8>,
)
    requires
        !is_anonymous(t3.lm_response@, t3.ntlm_response@, t3.flags),
        users != Map::<Seq<char>, String>::empty() || !allow_guest,
        outcome(users, allow_guest, challenge, t3, encrypted).ok,
    ensures
        ({
            let name = trimmed(t3.user@);
            let pass = users[lowercase(name)]@;
            let nt = t3.ntlm_response@;
            &&& users.contains_key(lowercase(name))
            &&& v2_verifies(ntlmv2_hash(pass, name, t3.domain@), challenge, nt) || v2_verifies(
                ntlmv2_hash(pass, name, Seq::empty()),
                challenge,
                nt,
            ) || v1_verifies(pass, challenge, nt)
        }),
{
}

} // verus!
