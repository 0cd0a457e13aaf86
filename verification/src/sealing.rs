//! Cryptographic primitives of SMB 2 and 3: message digests, signatures, key
//! derivation and authenticated encryption.
use aes::{Aes128, Aes256};
use aes_gcm::aead::{Aead, Payload};
use aes_gcm::{Aes128Gcm, Aes256Gcm};
use ccm::consts::{U11, U16};
use ccm::Ccm;
use cmac::Cmac;
use hmac::{Hmac, Mac};
use sha2::{Digest, Sha256, Sha512};
use vstd::prelude::*;
use vstd::slice::slice_subrange;
use crate::bytes::{put_bytes, put_u8};

verus! {

// ---------------- digests and signatures ----------------

/// What `sha2::Sha512::digest` makes of a message.
pub uninterp spec fn sha512_of(data: Seq<u8>) -> Seq<u8>;

/// `sha2::Sha512::digest`. Trusted: the digest depends on the message alone.
#[verifier::external_body]
pub(crate) fn sha512(data: &[u8]) -> (d: [u8; 64])
    ensures
        d@ == sha512_of(data@),
{
    Sha512::digest(data).into()
}

/// What `hmac::Hmac<sha2::Sha256>` makes of a message under a key.
pub uninterp spec fn hmac_sha256_of(key: Seq<u8>, data: Seq<u8>) -> Seq<u8>;

/// `hmac::Hmac<sha2::Sha256>` over one message. Trusted: the result depends on key
/// and message alone. Keys of every length are accepted.
#[verifier::external_body]
pub(crate) fn hmac_sha256(key: &[u8], data: &[u8]) -> (d: [u8; 32])
    ensures
        d@ == hmac_sha256_of(key@, data@),
{
    match <Hmac<Sha256> as Mac>::new_from_slice(key) {
        Ok(mut m) => {
            m.update(data);
            m.finalize().into_bytes().into()
        },
        Err(_) => [0u8; 32],
    }
}

/// What `cmac::Cmac<aes::Aes128>` makes of a message under a key.
pub uninterp spec fn aes128_cmac_of(key: Seq<u8>, data: Seq<u8>) -> Seq<u8>;

/// `cmac::Cmac<aes::Aes128>` over one message. Trusted: the result depends on key
/// and message alone.
#[verifier::external_body]
pub(crate) fn aes128_cmac(key: &[u8; 16], data: &[u8]) -> (d: [u8; 16])
    ensures
        d@ == aes128_cmac_of(key@, data@),
{
    let mut m = <Cmac<Aes128> as cmac::digest::KeyInit>::new(key.into());
    m.update(data);
    m.finalize().into_bytes().into()
}

// ---------------- key derivation ----------------

/// The input of the one round of key derivation: counter, label, separator,
/// context and the length wanted, in bits; numbers most significant byte first.
pub open spec fn kdf_input(label: Seq<u8>, context: Seq<u8>, len: int) -> Seq<u8> {
    seq![0u8, 0u8, 0u8, 1u8] + label + seq![0u8] + context + seq![0u8, 0u8, (len * 8 / 256) as u8, (len * 8
        % 256) as u8]
}

/// The key of `len` bytes derived from `key` for a label and a context: counter
/// mode over HMAC-SHA-256.
pub open spec fn derived_key(key: Seq<u8>, label: Seq<u8>, context: Seq<u8>, len: int) -> Seq<u8> {
    hmac_sha256_of(key, kdf_input(label, context, len)).subrange(0, len)
}

/// Derives a key of at most 32 bytes; the rest of the result is zero.
pub fn kdf_counter_mode_hmac_sha256(key: &[u8], label: &[u8], context: &[u8], len: usize) -> (k: [u8; 32])
    requires
        len <= 32,
    ensures
        k@.subrange(0, len as int) == derived_key(key@, label@, context@, len as int),
        forall|i: int| len <= i < 32 ==> k@[i] == 0,
{
    let mut m: Vec<u8> = Vec::new();
    m.push(0);
    m.push(0);
    m.push(0);
    m.push(1);
    assert(m@ =~= seq![0u8, 0u8, 0u8, 1u8]);
    put_bytes(&mut m, label);
    put_u8(&mut m, 0);
    put_bytes(&mut m, context);
    let ghost front = m@;
    put_u8(&mut m, 0);
    put_u8(&mut m, 0);
    put_u8(&mut m, (len * 8 / 256) as u8);
    put_u8(&mut m, (len * 8 % 256) as u8);
    assert(m@ =~= kdf_input(label@, context@, len as int));
    let d = hmac_sha256(key, m.as_slice());
    let mut k: [u8; 32] = [0; 32];
    let mut i: usize = 0;
    while i < len
        invariant
            i <= len <= 32,
            forall|j: int| 0 <= j < i ==> k@[j] == d@[j],
            forall|j: int| i <= j < 32 ==> k@[j] == 0,
        decreases len - i,
    {
        k[i] = d[i];
        i += 1;
    }
    assert(k@.subrange(0, len as int) =~= d@.subrange(0, len as int));
    k
}

// ---------------- authenticated encryption ----------------

/// The longest message that is sealed or opened.
pub const MAX_SEALED: usize = 0x7FFF_FF00;

/// Length of an authentication tag.
pub const TAG_LEN: usize = 16;

/// What `aes_gcm::Aes128Gcm` makes of a message: ciphertext and tag.
pub uninterp spec fn gcm128_sealed(key: Seq<u8>, nonce: Seq<u8>, aad: Seq<u8>, msg: Seq<u8>) -> Seq<u8>;

/// What `aes_gcm::Aes128Gcm` finds in ciphertext and tag; none where the tag does
/// not fit.
pub uninterp spec fn gcm128_opened(key: Seq<u8>, nonce: Seq<u8>, aad: Seq<u8>, sealed: Seq<u8>) -> Option<Seq<u8>>;

/// What `aes_gcm::Aes256Gcm` makes of a message.
pub uninterp spec fn gcm256_sealed(key: Seq<u8>, nonce: Seq<u8>, aad: Seq<u8>, msg: Seq<u8>) -> Seq<u8>;

/// What `aes_gcm::Aes256Gcm` finds in ciphertext and tag.
pub uninterp spec fn gcm256_opened(key: Seq<u8>, nonce: Seq<u8>, aad: Seq<u8>, sealed: Seq<u8>) -> Option<Seq<u8>>;

/// What `ccm::Ccm<aes::Aes128>`, with tags of 16 and nonces of 11 bytes, makes of a
/// message.
pub uninterp spec fn ccm128_sealed(key: Seq<u8>, nonce: Seq<u8>, aad: Seq<u8>, msg: Seq<u8>) -> Seq<u8>;

/// What `ccm::Ccm<aes::Aes128>` finds in ciphertext and tag.
pub uninterp spec fn ccm128_opened(key: Seq<u8>, nonce: Seq<u8>, aad: Seq<u8>, sealed: Seq<u8>) -> Option<Seq<u8>>;

/// What `ccm::Ccm<aes::Aes256>`, with tags of 16 and nonces of 11 bytes, makes of a
/// message.
pub uninterp spec fn ccm256_sealed(key: Seq<u8>, nonce: Seq<u8>, aad: Seq<u8>, msg: Seq<u8>) -> Seq<u8>;

/// What `ccm::Ccm<aes::Aes256>` finds in ciphertext and tag.
pub uninterp spec fn ccm256_opened(key: Seq<u8>, nonce: Seq<u8>, aad: Seq<u8>, sealed: Seq<u8>) -> Option<Seq<u8>>;

/// The value of an optional byte string.
pub open spec fn bytes_of(r: Option<Vec<u8>>) -> Option<Seq<u8>> {
    match r {
        Some(v) => Some(v@),
        None => None,
    }
}

/// `Aead::encrypt` of `aes_gcm::Aes128Gcm`. Trusted: the result depends on the
/// arguments alone, is the message's length and a tag long, and opens to the
/// message again.
#[verifier::external_body]
fn gcm128_seal(key: &[u8; 16], nonce: &[u8; 12], aad: &[u8], msg: &[u8]) -> (r: Vec<u8>)
    requires
        msg@.len() <= MAX_SEALED,
        aad@.len() <= 65535,
    ensures
        r@ == gcm128_sealed(key@, nonce@, aad@, msg@),
        r@.len() == msg@.len() + TAG_LEN,
        gcm128_opened(key@, nonce@, aad@, r@) == Some(msg@),
{
    let c = <Aes128Gcm as aes_gcm::KeyInit>::new(key.into());
    c.encrypt(nonce.into(), Payload { msg, aad }).unwrap_or_default()
}

/// `Aead::decrypt` of `aes_gcm::Aes128Gcm`. Trusted: the result depends on the
/// arguments alone.
#[verifier::external_body]
fn gcm128_open(key: &[u8; 16], nonce: &[u8; 12], aad: &[u8], msg: &[u8]) -> (r: Option<Vec<u8>>)
    requires
        msg@.len() <= MAX_SEALED + TAG_LEN,
        aad@.len() <= 65535,
    ensures
        bytes_of(r) == gcm128_opened(key@, nonce@, aad@, msg@),
{
    let c = <Aes128Gcm as aes_gcm::KeyInit>::new(key.into());
    c.decrypt(nonce.into(), Payload { msg, aad }).ok()
}

/// `Aead::encrypt` of `aes_gcm::Aes256Gcm`. Trusted: as for the 128-bit key.
#[verifier::external_body]
fn gcm256_seal(key: &[u8; 32], nonce: &[u8; 12], aad: &[u8], msg: &[u8]) -> (r: Vec<u8>)
    requires
        msg@.len() <= MAX_SEALED,
        aad@.len() <= 65535,
    ensures
        r@ == gcm256_sealed(key@, nonce@, aad@, msg@),
        r@.len() == msg@.len() + TAG_LEN,
        gcm256_opened(key@, nonce@, aad@, r@) == Some(msg@),
{
    let c = <Aes256Gcm as aes_gcm::KeyInit>::new(key.into());
    c.encrypt(nonce.into(), Payload { msg, aad }).unwrap_or_default()
}

/// `Aead::decrypt` of `aes_gcm::Aes256Gcm`. Trusted: the result depends on the
/// arguments alone.
#[verifier::external_body]
fn gcm256_open(key: &[u8; 32], nonce: &[u8; 12], aad: &[u8], msg: &[u8]) -> (r: Option<Vec<u8>>)
    requires
        msg@.len() <= MAX_SEALED + TAG_LEN,
        aad@.len() <= 65535,
    ensures
        bytes_of(r) == gcm256_opened(key@, nonce@, aad@, msg@),
{
    let c = <Aes256Gcm as aes_gcm::KeyInit>::new(key.into());
    c.decrypt(nonce.into(), Payload { msg, aad }).ok()
}

/// `Aead::encrypt` of `ccm::Ccm<aes::Aes128, U16, U11>`. Trusted: the result depends
/// on the arguments alone, is the message's length and a tag long, and opens to the
/// message again.
#[verifier::external_body]
fn ccm128_seal(key: &[u8; 16], nonce: &[u8; 11], aad: &[u8], msg: &[u8]) -> (r: Vec<u8>)
    requires
        msg@.len() <= MAX_SEALED,
        aad@.len() <= 65535,
    ensures
        r@ == ccm128_sealed(key@, nonce@, aad@, msg@),
        r@.len() == msg@.len() + TAG_LEN,
        ccm128_opened(key@, nonce@, aad@, r@) == Some(msg@),
{
    let c = <Ccm<Aes128, U16, U11> as ccm::KeyInit>::new(key.into());
    c.encrypt(nonce.into(), Payload { msg, aad }).unwrap_or_default()
}

/// `Aead::decrypt` of `ccm::Ccm<aes::Aes128, U16, U11>`. Trusted: the result depends
/// on the arguments alone.
#[verifier::external_body]
fn ccm128_open(key: &[u8; 16], nonce: &[u8; 11], aad: &[u8], msg: &[u8]) -> (r: Option<Vec<u8>>)
    requires
        msg@.len() <= MAX_SEALED + TAG_LEN,
        aad@.len() <= 65535,
    ensures
        bytes_of(r) == ccm128_opened(key@, nonce@, aad@, msg@),
{
    let c = <Ccm<Aes128, U16, U11> as ccm::KeyInit>::new(key.into());
    c.decrypt(nonce.into(), Payload { msg, aad }).ok()
}

/// `Aead::encrypt` of `ccm::Ccm<aes::Aes256, U16, U11>`. Trusted: as for the 128-bit
/// key.
#[verifier::external_body]
fn ccm256_seal(key: &[u8; 32], nonce: &[u8; 11], aad: &[u8], msg: &[u8]) -> (r: Vec<u8>)
    requires
        msg@.len() <= MAX_SEALED,
        aad@.len() <= 65535,
    ensures
        r@ == ccm256_sealed(key@, nonce@, aad@, msg@),
        r@.len() == msg@.len() + TAG_LEN,
        ccm256_opened(key@, nonce@, aad@, r@) == Some(msg@),
{
    let c = <Ccm<Aes256, U16, U11> as ccm::KeyInit>::new(key.into());
    c.encrypt(nonce.into(), Payload { msg, aad }).unwrap_or_default()
}

/// `Aead::decrypt` of `ccm::Ccm<aes::Aes256, U16, U11>`. Trusted: the result depends
/// on the arguments alone.
#[verifier::external_body]
fn ccm256_open(key: &[u8; 32], nonce: &[u8; 11], aad: &[u8], msg: &[u8]) -> (r: Option<Vec<u8>>)
    requires
        msg@.len() <= MAX_SEALED + TAG_LEN,
        aad@.len() <= 65535,
    ensures
        bytes_of(r) == ccm256_opened(key@, nonce@, aad@, msg@),
{
    let c = <Ccm<Aes256, U16, U11> as ccm::KeyInit>::new(key.into());
    c.decrypt(nonce.into(), Payload { msg, aad }).ok()
}

/// AES-128-CCM.
pub const AES128_CCM: u16 = 0x0001;

/// AES-128-GCM.
pub const AES128_GCM: u16 = 0x0002;

/// AES-256-CCM.
pub const AES256_CCM: u16 = 0x0003;

/// AES-256-GCM.
pub const AES256_GCM: u16 = 0x0004;

/// Whether a cipher is one of the GCM variants.
pub open spec fn is_gcm(cipher: u16) -> bool {
    cipher == AES128_GCM || cipher == AES256_GCM
}

/// Whether a cipher has keys of 256 bits.
pub open spec fn is_256(cipher: u16) -> bool {
    cipher == AES256_GCM || cipher == AES256_CCM
}

/// Whether a cipher is one of the GCM variants.
pub fn cipher_is_gcm(cipher: u16) -> (r: bool)
    ensures
        r == is_gcm(cipher),
{
    cipher == AES128_GCM || cipher == AES256_GCM
}

/// Whether a cipher has keys of 256 bits.
pub fn cipher_is_256(cipher: u16) -> (r: bool)
    ensures
        r == is_256(cipher),
{
    cipher == AES256_GCM || cipher == AES256_CCM
}

/// The length of a cipher's keys in bytes.
pub open spec fn key_len(cipher: u16) -> int {
    if is_256(cipher) {
        32
    } else {
        16
    }
}

/// The length of a cipher's keys in bytes.
pub fn cipher_key_len(cipher: u16) -> (n: usize)
    ensures
        n == key_len(cipher),
{
    if cipher_is_256(cipher) {
        32
    } else {
        16
    }
}

/// The length of a cipher's nonces in bytes.
pub open spec fn nonce_len(cipher: u16) -> int {
    if is_gcm(cipher) {
        12
    } else {
        11
    }
}

/// Ciphertext and tag of a message under a cipher; a 128-bit cipher uses the first
/// half of the key.
pub open spec fn sealed_of(cipher: u16, key: Seq<u8>, nonce: Seq<u8>, aad: Seq<u8>, msg: Seq<u8>) -> Seq<u8> {
    let half = key.subrange(0, 16);
    if is_gcm(cipher) {
        if is_256(cipher) {
            gcm256_sealed(key, nonce, aad, msg)
        } else {
            gcm128_sealed(half, nonce, aad, msg)
        }
    } else if is_256(cipher) {
        ccm256_sealed(key, nonce, aad, msg)
    } else {
        ccm128_sealed(half, nonce, aad, msg)
    }
}

/// The message in ciphertext and tag under a cipher.
pub open spec fn opened_of(cipher: u16, key: Seq<u8>, nonce: Seq<u8>, aad: Seq<u8>, msg: Seq<u8>) -> Option<Seq<u8>> {
    let half = key.subrange(0, 16);
    if is_gcm(cipher) {
        if is_256(cipher) {
            gcm256_opened(key, nonce, aad, msg)
        } else {
            gcm128_opened(half, nonce, aad, msg)
        }
    } else if is_256(cipher) {
        ccm256_opened(key, nonce, aad, msg)
    } else {
        ccm128_opened(half, nonce, aad, msg)
    }
}

fn first16(s: &[u8]) -> (a: [u8; 16])
    requires
        s@.len() >= 16,
    ensures
        a@ == s@.subrange(0, 16),
{
    crate::crypto::array16(slice_subrange(s, 0, 16))
}

fn nonce12(s: &[u8]) -> (a: [u8; 12])
    requires
        s@.len() >= 12,
    ensures
        a@ == s@.subrange(0, 12),
{
    let a: [u8; 12] = [s[0], s[1], s[2], s[3], s[4], s[5], s[6], s[7], s[8], s[9], s[10], s[11]];
    assert(a@ =~= s@.subrange(0, 12));
    a
}

fn nonce11(s: &[u8]) -> (a: [u8; 11])
    requires
        s@.len() >= 11,
    ensures
        a@ == s@.subrange(0, 11),
{
    let a: [u8; 11] = [s[0], s[1], s[2], s[3], s[4], s[5], s[6], s[7], s[8], s[9], s[10]];
    assert(a@ =~= s@.subrange(0, 11));
    a
}

/// Seals a message; the nonce is the front of `nonce`.
pub fn seal(cipher: u16, key: &[u8; 32], nonce: &[u8; 16], aad: &[u8], msg: &[u8]) -> (r: Vec<u8>)
    requires
        msg@.len() <= MAX_SEALED,
        aad@.len() <= 65535,
    ensures
        r@ == sealed_of(cipher, key@, nonce@.subrange(0, nonce_len(cipher)), aad@, msg@),
        r@.len() == msg@.len() + TAG_LEN,
        opened_of(cipher, key@, nonce@.subrange(0, nonce_len(cipher)), aad@, r@) == Some(msg@),
{
    let wide: bool = cipher_is_256(cipher);
    if cipher_is_gcm(cipher) {
        let n = nonce12(nonce.as_slice());
        if wide {
            gcm256_seal(key, &n, aad, msg)
        } else {
            gcm128_seal(&first16(key.as_slice()), &n, aad, msg)
        }
    } else {
        let n = nonce11(nonce.as_slice());
        if wide {
            ccm256_seal(key, &n, aad, msg)
        } else {
            ccm128_seal(&first16(key.as_slice()), &n, aad, msg)
        }
    }
}

/// Opens a sealed message; the nonce is the front of `nonce`.
pub fn open(cipher: u16, key: &[u8; 32], nonce: &[u8], aad: &[u8], sealed: &[u8]) -> (r: Option<Vec<u8>>)
    requires
        nonce@.len() >= 12,
        sealed@.len() <= MAX_SEALED + TAG_LEN,
        aad@.len() <= 65535,
    ensures
        bytes_of(r) == opened_of(cipher, key@, nonce@.subrange(0, nonce_len(cipher)), aad@, sealed@),
{
    let wide: bool = cipher_is_256(cipher);
    if cipher_is_gcm(cipher) {
        let n = nonce12(nonce);
        if wide {
            gcm256_open(key, &n, aad, sealed)
        } else {
            gcm128_open(&first16(key.as_slice()), &n, aad, sealed)
        }
    } else {
        let n = nonce11(nonce);
        if wide {
            ccm256_open(key, &n, aad, sealed)
        } else {
            ccm128_open(&first16(key.as_slice()), &n, aad, sealed)
        }
    }
}

// ---------------- laws ----------------

/// Each cipher is the one that its number stands for: 1 and 3 are CCM, 2 and 4 are GCM, 3
/// and 4 have keys of 256 bits; a cipher with shorter keys uses the first half of the key.
pub proof fn law_ciphers_by_number(key: Seq<u8>, nonce: Seq<u8>, aad: Seq<u8>, msg: Seq<u8>)
    requires
        key.len() == 32,
    ensures
        sealed_of(1, key, nonce, aad, msg) == ccm128_sealed(key.take(16), nonce, aad, msg),
        sealed_of(2, key, nonce, aad, msg) == gcm128_sealed(key.take(16), nonce, aad, msg),
        sealed_of(3, key, nonce, aad, msg) == ccm256_sealed(key, nonce, aad, msg),
        sealed_of(4, key, nonce, aad, msg) == gcm256_sealed(key, nonce, aad, msg),
        opened_of(1, key, nonce, aad, msg) == ccm128_opened(key.take(16), nonce, aad, msg),
        opened_of(2, key, nonce, aad, msg) == gcm128_opened(key.take(16), nonce, aad, msg),
        opened_of(3, key, nonce, aad, msg) == ccm256_opened(key, nonce, aad, msg),
        opened_of(4, key, nonce, aad, msg) == gcm256_opened(key, nonce, aad, msg),
        key_len(1) == 16 && key_len(2) == 16 && key_len(3) == 32 && key_len(4) == 32,
        nonce_len(1) == 11 && nonce_len(2) == 12 && nonce_len(3) == 11 && nonce_len(4) == 12,
{
    assert(key.subrange(0, 16) =~= key.take(16));
}

/// What is derived for a label and a context depends on both: the input of the derivation
/// holds them whole, one behind the other, and the length in bits at its end.
pub proof fn law_derivation_input(label: Seq<u8>, context: Seq<u8>, len: int)
    requires
        0 <= len <= 32,
    ensures
        ({
            let b = kdf_input(label, context, len);
            let n = label.len() as int;
            let m = context.len() as int;
            &&& b.len() == n + m + 9
            &&& b[3] == 1
            &&& b.subrange(4, 4 + n) == label
            &&& b[4 + n] == 0
            &&& b.subrange(5 + n, 5 + n + m) == context
            &&& b[b.len() - 2] * 256 + b[b.len() - 1] == 8 * len
        }),
{
    let b = kdf_input(label, context, len);
    let n = label.len() as int;
    let m = context.len() as int;
    assert(b.subrange(4, 4 + n) =~= label);
    assert(b.subrange(5 + n, 5 + n + m) =~= context);
}

} // verus!
