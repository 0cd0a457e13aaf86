use aes::Aes128;
use aes_gcm::aead::{Aead, KeyInit, Payload};
use aes_gcm::{Aes128Gcm, Aes256Gcm, Nonce};
use cmac::Cmac;
use hmac::{Hmac, Mac};
use rustsmb::auth::authenticate_ntlmssp;
use rustsmb::crypto::{hmac_md5, md4, md5, nt_hash, ntlmv1_response};
use rustsmb::frame2::{sign_pdu, DIALECT_210, DIALECT_300};
use rustsmb::ntlm::{build_type2, is_spnego, msg_type, parse_type3, unwrap_blob, wrap_accept_complete, wrap_negtoken_targ, Type2Options, Type3, MSG_TYPE2};
use rustsmb::random::{rand_bytes, rand_challenge_pub};
use rustsmb::rc4::rc4;
use rustsmb::sealing::{kdf_counter_mode_hmac_sha256, open, seal};
use rustsmb::tables::TextMap;
use sha2::Sha256;

fn hex(d: &[u8]) -> String {
    d.iter().map(|b| format!("{:02x}", b)).collect()
}

fn unhex(s: &str) -> Vec<u8> {
    (0..s.len() / 2).map(|i| u8::from_str_radix(&s[2 * i..2 * i + 2], 16).unwrap()).collect()
}

#[test]
fn md4_of_known_messages() {
    assert_eq!(hex(&md4(b"")), "31d6cfe0d16ae931b73c59d7e0c089c0");
    assert_eq!(hex(&md4(b"abc")), "a448017aaf21d8525fc10ae87aa6729d");
    assert_eq!(
        hex(&md4(b"12345678901234567890123456789012345678901234567890123456789012345678901234567890")),
        "e33b4ddc9c38f2199c3e7b164fcc0536"
    );
}

#[test]
fn md5_of_known_messages() {
    assert_eq!(hex(&md5(b"")), "d41d8cd98f00b204e9800998ecf8427e");
    assert_eq!(hex(&md5(b"abc")), "900150983cd24fb0d6963f7d28e17f72");
    assert_eq!(
        hex(&md5(b"12345678901234567890123456789012345678901234567890123456789012345678901234567890")),
        "57edf4a22be3c955ac49da2e2107b67a"
    );
}

#[test]
fn hmac_md5_of_known_messages() {
    assert_eq!(hex(&hmac_md5(b"Jefe", b"what do ya want for nothing?")), "750c783e6ab0b503eaa86e310a5db738");
    assert_eq!(
        hex(&hmac_md5(&[0xaa; 80], b"Test Using Larger Than Block-Size Key - Hash Key First")),
        "6b1ab7fe4bd7bf8f0b62e6ce61b9d0cd"
    );
}

#[test]
fn password_hashes() {
    assert_eq!(hex(&nt_hash("Password")), "a4f49c406510bdcab6824ee7c30fd852");
    assert_eq!(hex(&nt_hash("password")), "8846f7eaee8fb117ad06bdd830b7586c");
}

#[test]
fn rc4_of_a_known_message() {
    assert_eq!(hex(&rc4(b"Key", b"Plaintext")), "bbf316e8d940af0ad3");
    assert_eq!(rc4(b"Key", &rc4(b"Key", b"Plaintext")), b"Plaintext");
}

#[test]
fn an_older_response_depends_on_every_part_of_the_hash() {
    let challenge = [0x01, 0x23, 0x45, 0x67, 0x89, 0xab, 0xcd, 0xef];
    let mut hash = [0u8; 21];
    hash[..16].copy_from_slice(&nt_hash("Password"));
    let r = ntlmv1_response(&hash, &challenge);
    assert_eq!(hex(&r), "67c43011f30298a2ad35ece64f16331c44bdbed927841f94");
    let mut other = hash;
    other[20] ^= 0x80;
    let s = ntlmv1_response(&other, &challenge);
    assert_eq!(r[..16], s[..16]);
    assert_ne!(r[16..], s[16..]);
    let mut moved = [0u8; 21];
    moved[14..].copy_from_slice(&hash[..7]);
    assert_eq!(ntlmv1_response(&moved, &challenge)[16..], r[..8]);
}

fn known_type3() -> Type3 {
    let temp = unhex(
        "01010000000000000000000000000000aaaaaaaaaaaaaaaa0000000002000c0044006f006d00610069006e0001000c005300650072007600650072000000000000000000",
    );
    let mut nt = unhex("68cd0ab851e51c96aabc927bebef6a1c");
    nt.extend_from_slice(&temp);
    Type3 {
        user: "User".into(),
        domain: "Domain".into(),
        workstation: "COMPUTER".into(),
        lm_response: vec![0; 24],
        ntlm_response: nt,
        flags: 0,
    }
}

const CHALLENGE: [u8; 8] = [0x01, 0x23, 0x45, 0x67, 0x89, 0xab, 0xcd, 0xef];

#[test]
fn a_known_proof_is_accepted() {
    let mut users = TextMap::new();
    users.insert("user".to_string(), "Password".to_string());
    let o = authenticate_ntlmssp(&users, false, &CHALLENGE, &known_type3(), &[]);
    assert!(o.ok);
    assert!(!o.guest);
    assert_eq!(o.user, "User");
    assert_eq!(hex(&o.session_key.unwrap()), "8de40ccadbc14a82f15cb0ad0de95ca3");
}

#[test]
fn a_wrong_password_is_refused() {
    let mut users = TextMap::new();
    users.insert("user".to_string(), "password".to_string());
    assert!(!authenticate_ntlmssp(&users, false, &CHALLENGE, &known_type3(), &[]).ok);
    let mut t3 = known_type3();
    t3.ntlm_response[0] ^= 1;
    users.insert("user".to_string(), "Password".to_string());
    assert!(!authenticate_ntlmssp(&users, false, &CHALLENGE, &t3, &[]).ok);
}

#[test]
fn unknown_users_are_rejected_where_some_are_configured() {
    let mut users = TextMap::new();
    users.insert("other".to_string(), "Password".to_string());
    for allow_guest in [false, true] {
        let o = authenticate_ntlmssp(&users, allow_guest, &CHALLENGE, &known_type3(), &[]);
        assert!(!o.ok && !o.guest);
        assert_eq!(o.session_key, None);
    }
}

#[test]
fn long_tokens_come_back_from_their_wrapping() {
    for n in [8usize, 100, 200, 300, 0x4E54, 60_000] {
        let mut t = b"NTLMSSP\0".to_vec();
        t.resize(n, 0x4E);
        let w = wrap_negtoken_targ(&t);
        assert_eq!(unwrap_blob(&w), Some(&t[..]));
        assert!(is_spnego(&w));
    }
}

#[test]
fn without_users_everyone_is_let_in() {
    let users: TextMap<String> = TextMap::new();
    let o = authenticate_ntlmssp(&users, true, &CHALLENGE, &known_type3(), &[]);
    assert!(o.ok);
    assert_eq!(o.session_key, None);
}

#[test]
fn challenges_are_found_inside_their_wrapping() {
    let opts = Type2Options { extra_flags: None, no_version_flag: false, no_version: false };
    let t2 = build_type2(&CHALLENGE, "WORKGROUP", "RUSTSMB", 5, &opts);
    assert_eq!(msg_type(&t2), Some(MSG_TYPE2));
    assert_eq!(&t2[24..32], &CHALLENGE);
    let w = wrap_negtoken_targ(&t2);
    assert!(is_spnego(&w));
    assert!(!is_spnego(&t2));
    assert_eq!(unwrap_blob(&w), Some(&t2[..]));
    assert_eq!(unwrap_blob(&wrap_accept_complete()), None);
    assert!(parse_type3(&t2).is_none());
}

#[test]
fn derived_keys_are_one_round_of_hmac() {
    let mut m = vec![0, 0, 0, 1];
    m.extend_from_slice(b"SMBSigningKey\0");
    m.push(0);
    m.extend_from_slice(b"context");
    m.extend_from_slice(&[0, 0, 0, 128]);
    let mut h = <Hmac<Sha256> as Mac>::new_from_slice(&[5u8; 16]).unwrap();
    h.update(&m);
    let want = h.finalize().into_bytes();
    let k = kdf_counter_mode_hmac_sha256(&[5u8; 16], b"SMBSigningKey\0", b"context", 16);
    assert_eq!(&k[..16], &want[..16]);
    assert_eq!(&k[16..], &[0u8; 16]);
}

#[test]
fn signatures_are_those_of_the_algorithms() {
    let key = [0x42u8; 16];
    let mut pdu = vec![7u8; 100];
    let mut bare = pdu.clone();
    bare[16..20].copy_from_slice(&(0x0707_0707u32 | 8).to_le_bytes());
    for b in &mut bare[48..64] {
        *b = 0;
    }
    sign_pdu(&mut pdu, &key, Some(DIALECT_300));
    let mut m = <Cmac<Aes128> as cmac::Mac>::new_from_slice(&key).unwrap();
    cmac::Mac::update(&mut m, &bare);
    assert_eq!(&pdu[48..64], &cmac::Mac::finalize(m).into_bytes()[..]);

    let mut old = vec![7u8; 100];
    sign_pdu(&mut old, &key, Some(DIALECT_210));
    let mut h = <Hmac<Sha256> as Mac>::new_from_slice(&key).unwrap();
    h.update(&bare);
    assert_eq!(&old[48..64], &h.finalize().into_bytes()[..16]);
}

#[test]
fn sealing_is_that_of_the_ciphers() {
    let key = [3u8; 32];
    let nonce = [4u8; 16];
    let aad = [1u8, 2, 3];
    let sealed = seal(2, &key, &nonce, &aad, b"message");
    let want = Aes128Gcm::new_from_slice(&key[..16])
        .unwrap()
        .encrypt(Nonce::from_slice(&nonce[..12]), Payload { msg: b"message", aad: &aad })
        .unwrap();
    assert_eq!(sealed, want);
    let wide = seal(4, &key, &nonce, &aad, b"message");
    let want = Aes256Gcm::new_from_slice(&key)
        .unwrap()
        .encrypt(Nonce::from_slice(&nonce[..12]), Payload { msg: b"message", aad: &aad })
        .unwrap();
    assert_eq!(wide, want);
    for cipher in [1u16, 2, 3, 4] {
        let s = seal(cipher, &key, &nonce, &aad, b"message");
        assert_eq!(s.len(), 7 + 16);
        assert_eq!(open(cipher, &key, &nonce, &aad, &s), Some(b"message".to_vec()));
        assert_eq!(open(cipher, &key, &nonce, &[], &s), None, "other associated data");
        assert_eq!(open(cipher, &key, &nonce, &aad, &s[1..]), None);
    }
}

#[test]
fn the_clock_stands_in_for_random_bytes() {
    assert_eq!(rand_bytes(Some(vec![1, 2, 3]), 3, 0x0807_0605_0403_0201), vec![1, 2, 3]);
    let b = rand_bytes(None, 18, 0x0807_0605_0403_0201);
    assert_eq!(b, vec![1, 2, 3, 4, 5, 6, 7, 8, 0, 0, 0, 0, 0, 0, 0, 0, 1, 2]);
    assert_eq!(rand_challenge_pub(None, 0x0807_0605_0403_0201), [1, 2, 3, 4, 5, 6, 7, 8]);
    assert_eq!(rand_challenge_pub(Some([9; 8]), 1), [9; 8]);
}
