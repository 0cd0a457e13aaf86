use rustsmb::app_instances::{AppInstanceMatch, AppInstanceTable};
use rustsmb::async2::{begin_change_notify, begin_lock, cancel, complete_pending_notifies, filter_to_mask, lock_result, mask_to_action, name_below, notify_result, DirWalk, LockStart, NotifyStart, WatchSet};
use rustsmb::chain2::{begin_frame, encrypt_response, finish_frame, open_message, Chain, FrameReply, Opening};
use rustsmb::conn2::{next_file_id, next_session_id, Server2, Share2, Smb2Conn};
use rustsmb::exchange2::{derive_signing_key, finish_single, take_in, Intake};
use rustsmb::frame2::{decrypt_transform, response, seal_pdu, sign_pdu, verify_pdu_signature, Header2, CMD_CHANGE_NOTIFY, CMD_CLOSE, CMD_CREATE, CMD_ECHO, CMD_NEGOTIATE, CMD_READ, CMD_SESSION_SETUP, CMD_TREE_CONNECT, DIALECT_300, DIALECT_311, SMB2_MAGIC};
use rustsmb::idmap::IdMap;
use rustsmb::leases::{BreakCrypto, LeaseAckError, LeaseHolder, LeaseTable, OplockTable};
use rustsmb::locks::LockManager;
use rustsmb::negotiate2::{negotiate, NegContext, NegotiateReply, NegotiateReq};
use rustsmb::ops2::{logoff, plan_read, plan_write, tree_connect, tree_disconnect};
use rustsmb::query2::{keep_listing, take_batch};
use rustsmb::reply2::{build_copychunk_resp, copychunk_total, encode_create_contexts, DurableGrant, LeaseResp};
use rustsmb::sealing::kdf_counter_mode_hmac_sha256;
use rustsmb::session2::{session_setup, SetupReply, SetupReq};
use rustsmb::sessions::SessionTable;
use rustsmb::share_modes::ShareModeTable;
use rustsmb::smb::Status;
use rustsmb::tables::TextMap;
use rustsmb::text::encode_utf16_bytes;
use rustsmb::vfs::{Entry, FileMeta, OpenFile};
use rustsmb::wire2::{ChangeNotifyReq, LockElement, LockReq, QueryDirReq, ReadReq, WriteReq};
use sha2::{Digest, Sha512};

fn server() -> Server2 {
    let mut shares = TextMap::new();
    for (name, encrypt) in [("public", false), ("vault", true)] {
        shares.insert(
            name.to_string(),
            Share2 {
                name: name.into(),
                root: "/srv".into(),
                is_ipc: false,
                encrypt,
                compress: false,
                ca: false,
            },
        );
    }
    let mut users = TextMap::new();
    users.insert("user".to_string(), "Password".to_string());
    Server2 {
        shares,
        guid: [0; 16],
        domain: "W".into(),
        server_name: "R".into(),
        users,
        allow_guest: false,
        require_signing: false,
        encrypt: false,
        locks: LockManager::new(),
        share_modes: ShareModeTable::new(),
        oplocks: OplockTable::new(),
        leases: LeaseTable::new(),
        sessions: SessionTable::new(),
        app_instances: AppInstanceTable::new(),
        client_dialects: IdMap::new(),
        next_session_id: 1,
        next_file_id: 1,
        next_tree_id: 1,
        next_resume_nonce: 1,
    }
}

fn frame(command: u16, message_id: u64, tree_id: u32, session_id: u64, flags: u32, body: &[u8]) -> Vec<u8> {
    let mut f = vec![0u8; 64];
    f[0..4].copy_from_slice(&SMB2_MAGIC);
    f[4] = 64;
    f[12..14].copy_from_slice(&command.to_le_bytes());
    f[16..20].copy_from_slice(&flags.to_le_bytes());
    f[24..32].copy_from_slice(&message_id.to_le_bytes());
    f[36..40].copy_from_slice(&tree_id.to_le_bytes());
    f[40..48].copy_from_slice(&session_id.to_le_bytes());
    f.extend_from_slice(body);
    f
}

fn logged_in() -> Smb2Conn {
    let mut c = Smb2Conn::new(1, [0; 8]);
    c.authenticated = true;
    c.session_id = 5;
    c.dialect = Some(DIALECT_311);
    c.trees.insert(1, "public".into());
    c.trees.insert(2, "vault".into());
    c
}

fn status_of(f: &[u8]) -> Status {
    Status::from_raw(u32::from_le_bytes(f[8..12].try_into().unwrap()))
}

fn refused(i: Intake) -> (Status, bool) {
    match i {
        Intake::Refused(f, wrap) => (status_of(&f), wrap),
        _ => panic!("a refusal"),
    }
}

fn file(path: &str, is_dir: bool) -> OpenFile {
    OpenFile {
        path: path.into(),
        rel: path.trim_start_matches("/srv/").into(),
        is_dir,
        can_read: true,
        can_write: true,
        delete_on_close: false,
        delete_pending: false,
        inner: 0,
    }
}

#[test]
fn strangers_are_served_nothing() {
    let (mut s, mut c) = (server(), Smb2Conn::new(1, [0; 8]));
    let r = take_in(&mut s, &mut c, &frame(CMD_READ, 1, 1, 0, 0, &[0; 48]));
    assert_eq!(refused(r), (Status::ACCESS_DENIED, false));
    assert!(matches!(take_in(&mut s, &mut c, &frame(CMD_ECHO, 2, 0, 0, 0, &[4, 0, 0, 0])), Intake::Accepted(_)));
    assert!(matches!(take_in(&mut s, &mut c, b"short"), Intake::NoHeader));
}

#[test]
fn sessions_and_trees_have_to_fit() {
    let (mut s, mut c) = (server(), logged_in());
    let r = take_in(&mut s, &mut c, &frame(CMD_READ, 1, 1, 6, 0, &[0; 48]));
    assert_eq!(refused(r), (Status::ACCESS_DENIED, false));
    let r = take_in(&mut s, &mut c, &frame(CMD_READ, 1, 9, 5, 0, &[0; 48]));
    assert_eq!(refused(r), (Status::NETWORK_NAME_DELETED, true));
    assert!(matches!(take_in(&mut s, &mut c, &frame(CMD_READ, 1, 1, 5, 0, &[0; 48])), Intake::Accepted(_)));
    let related = take_in(&mut s, &mut c, &frame(CMD_READ, 1, 9, 5, 4, &[0; 48]));
    assert!(matches!(related, Intake::Accepted(_)), "a related request has the tree of its chain");
}

#[test]
fn required_signatures_have_to_verify() {
    let (mut s, mut c) = (server(), logged_in());
    s.require_signing = true;
    c.signing_key = Some([3; 16]);
    let mut f = frame(CMD_READ, 1, 1, 5, 0, &[0; 48]);
    assert_eq!(refused(take_in(&mut s, &mut c, &f)), (Status::ACCESS_DENIED, true));
    sign_pdu(&mut f, &[3; 16], Some(DIALECT_311));
    assert!(matches!(take_in(&mut s, &mut c, &f), Intake::Accepted(_)));
    f[70] ^= 1;
    assert_eq!(refused(take_in(&mut s, &mut c, &f)), (Status::ACCESS_DENIED, true));
}

#[test]
fn encrypted_shares_take_no_plain_requests() {
    let (mut s, mut c) = (server(), logged_in());
    let f = frame(CMD_READ, 1, 2, 5, 0, &[0; 48]);
    assert_eq!(refused(take_in(&mut s, &mut c, &f)), (Status::ACCESS_DENIED, true));
    begin_frame(&mut c, true);
    assert!(matches!(take_in(&mut s, &mut c, &f), Intake::Accepted(_)));
    assert!(c.peer_encrypts);
}

#[test]
fn a_file_closed_by_force_is_told_once() {
    let (mut s, mut c) = (server(), logged_in());
    let id = [7u8; 16];
    c.handles.insert(id, file("/srv/a", false));
    s.app_instances.register([1; 16], "/srv/a".into(), [2; 16], (5, id), None);
    assert!(matches!(
        s.app_instances.resolve([1; 16], "/srv/a", [3; 16], true, None),
        AppInstanceMatch::ForceClose { owner, .. } if owner == (5, id)
    ));
    let mut body = vec![0u8; 24];
    body[8..24].copy_from_slice(&id);
    let f = frame(CMD_CLOSE, 1, 1, 5, 0, &body);
    assert_eq!(refused(take_in(&mut s, &mut c, &f)), (Status::FILE_CLOSED, true));
    assert!(!c.handles.contains(&id));
    assert!(matches!(take_in(&mut s, &mut c, &f), Intake::Accepted(_)));
}

#[test]
fn instances_give_way_to_newer_versions() {
    let mut t = AppInstanceTable::new();
    t.register([1; 16], "/a".into(), [2; 16], (5, [7; 16]), Some((2, 0)));
    assert!(matches!(t.resolve([1; 16], "/a", [2; 16], true, Some((9, 0))), AppInstanceMatch::NoMatch));
    assert!(matches!(t.resolve([1; 16], "/a", [3; 16], true, Some((1, 9))), AppInstanceMatch::Reject));
    assert!(matches!(t.resolve([1; 16], "/a", [3; 16], true, Some((2, 1))), AppInstanceMatch::ForceClose { .. }));
    assert!(t.was_forced((5, [7; 16])));
    assert!(t.take_forced((5, [7; 16])));
    assert!(!t.take_forced((5, [7; 16])));
}

#[test]
fn the_first_messages_are_hashed() {
    let (mut s, mut c) = (server(), Smb2Conn::new(1, [0; 8]));
    let f = frame(CMD_NEGOTIATE, 0, 0, 0, 0, &[36, 0]);
    take_in(&mut s, &mut c, &f);
    let mut all = vec![0u8; 64];
    all.extend_from_slice(&f);
    assert_eq!(&c.preauth_hash[..], &Sha512::digest(&all)[..]);
}

#[test]
fn the_last_leg_is_signed_with_the_new_key() {
    let (mut s, mut c) = (server(), logged_in());
    c.session_key = Some([1; 16]);
    let h = Header2::parse(&frame(CMD_SESSION_SETUP, 2, 0, 5, 0, &[])).unwrap();
    let hash = c.preauth_hash;
    let (f, wrap) = finish_single(&mut s, &mut c, &h, Status::SUCCESS, vec![9, 0, 0, 0]);
    assert!(wrap);
    let key = c.signing_key.unwrap();
    assert_eq!(key, derive_signing_key(&[1; 16], Some(DIALECT_311), &hash));
    assert!(verify_pdu_signature(&f, &key, Some(DIALECT_311)));
    assert!(s.sessions.get(5).is_some());
    let k = kdf_counter_mode_hmac_sha256(&[1; 16], b"SMB2AESCMAC\0", b"SmbSign\0", 16);
    assert_eq!(&derive_signing_key(&[1; 16], Some(DIALECT_300), &hash)[..], &k[..16]);
    assert_eq!(derive_signing_key(&[1; 16], Some(0x0210), &hash), [1; 16]);
}

#[test]
fn the_response_that_enables_encryption_is_plain() {
    let (mut s, mut c) = (server(), logged_in());
    s.encrypt = true;
    c.session_key = Some([1; 16]);
    c.cipher = Some(2);
    let h = Header2::parse(&frame(CMD_SESSION_SETUP, 2, 0, 5, 0, &[])).unwrap();
    let (_, wrap) = finish_single(&mut s, &mut c, &h, Status::SUCCESS, vec![9, 0, 0, 0]);
    assert!(!wrap);
    assert!(c.encrypt_data);
    assert!(c.enc_keys.is_some());
}

#[test]
fn a_chain_is_followed_and_answered() {
    let (s, mut c) = (server(), logged_in());
    let mut work = frame(CMD_CREATE, 1, 1, 5, 0, &[0; 8]);
    work[20..24].copy_from_slice(&72u32.to_le_bytes());
    let mut body = vec![0u8; 24];
    body[8..24].copy_from_slice(&[0xFF; 16]);
    work.extend_from_slice(&frame(CMD_CLOSE, 2, 1, 5, 4, &body));
    let mut chain = Chain::new(work);
    let first = chain.next_request(c.chain_fid).unwrap();
    let h = Header2::parse(&first).unwrap();
    assert_eq!(h.command, CMD_CREATE);
    chain.record(&mut c, response(&h, Status::SUCCESS, vec![1; 3], 5), true);
    let second = chain.next_request(Some([9; 16])).unwrap();
    assert_eq!(&second[72..88], &[9; 16]);
    let h = Header2::parse(&second).unwrap();
    chain.record(&mut c, response(&h, Status::SUCCESS, vec![2; 5], 5), true);
    assert!(chain.next_request(None).is_none());
    match finish_frame(&s, &c, &chain) {
        FrameReply::Plain(out) => {
            assert_eq!(out.len(), 72 + 64 + 5);
            assert_eq!(u32::from_le_bytes(out[20..24].try_into().unwrap()), 72);
            assert_eq!(u32::from_le_bytes(out[92..96].try_into().unwrap()), 0);
            assert_eq!(&out[64..67], &[1; 3]);
            assert_eq!(&out[136..], &[2; 5]);
            assert_eq!(out[72 + 16] & 4, 4);
        }
        _ => panic!("a plain reply"),
    }
    c.encrypt_data = true;
    assert!(matches!(finish_frame(&s, &c, &chain), FrameReply::Seal(_, None)));
}

#[test]
fn sealed_messages_are_opened_with_the_clients_key() {
    let mut c = logged_in();
    c.cipher = Some(2);
    c.enc_keys = Some(([1; 32], [2; 32]));
    let m = frame(CMD_ECHO, 1, 0, 5, 0, &[4, 0, 0, 0]);
    let f = seal_pdu(5, &[1; 32], 2, &[8; 16], &m);
    assert!(matches!(open_message(&c, &f), Opening::Unsealed(p) if p == m));
    assert!(matches!(open_message(&c, &m), Opening::Plain(p) if p == m));
    let other = seal_pdu(5, &[2; 32], 2, &[8; 16], &m);
    assert!(matches!(open_message(&c, &other), Opening::Dropped));
    let out = encrypt_response(&c, &[9; 16], &m).unwrap();
    assert_eq!(decrypt_transform(5, &[2; 32], 2, &out), Some(m.clone()));
    c.enc_keys = None;
    assert!(encrypt_response(&c, &[9; 16], &m).is_none());
}

fn offer(ciphers: &[u16]) -> Option<NegotiateReq> {
    let mut data = (ciphers.len() as u16).to_le_bytes().to_vec();
    for c in ciphers {
        data.extend_from_slice(&c.to_le_bytes());
    }
    Some(NegotiateReq {
        client_guid: [4; 16],
        dialects: vec![DIALECT_311],
        picked: Some(DIALECT_311),
        contexts: vec![
            NegContext { kind: 1, data: vec![1, 0, 0, 0, 1, 0] },
            NegContext { kind: 2, data },
        ],
        common_algos: Vec::new(),
    })
}

#[test]
fn ciphers_are_agreed_on() {
    let s = server();
    let f = frame(CMD_NEGOTIATE, 0, 0, 0, 0, &[0; 100]);
    let h = Header2::parse(&f).unwrap();
    for (pref, offered, chosen) in [("", vec![1, 2], Some(2)), ("CCM", vec![1, 2], Some(1)), ("", vec![9], Some(0))] {
        let mut c = Smb2Conn::new(1, [0; 8]);
        match negotiate(&mut c, &s, &h, &f, &offer(&offered), pref) {
            NegotiateReply::Agreed(b) => {
                assert_eq!(b.dialect, DIALECT_311);
                assert_eq!(b.cipher, chosen);
                assert_eq!(c.cipher, chosen.filter(|c| *c != 0));
                assert_eq!(c.client_guid, [4; 16]);
            }
            _ => panic!("an agreement"),
        }
    }
    let mut c = Smb2Conn::new(1, [0; 8]);
    let none = offer(&[1]).map(|r| NegotiateReq { contexts: Vec::new(), ..r });
    assert!(matches!(negotiate(&mut c, &s, &h, &f, &none, ""), NegotiateReply::Refused(_)));
}

fn unhex(s: &str) -> Vec<u8> {
    (0..s.len() / 2).map(|i| u8::from_str_radix(&s[2 * i..2 * i + 2], 16).unwrap()).collect()
}

fn type3() -> Vec<u8> {
    let nt = unhex("68cd0ab851e51c96aabc927bebef6a1c01010000000000000000000000000000aaaaaaaaaaaaaaaa0000000002000c0044006f006d00610069006e0001000c005300650072007600650072000000000000000000");
    let lm = vec![0u8; 24];
    let domain = encode_utf16_bytes("Domain");
    let user = encode_utf16_bytes("User");
    let mut b = b"NTLMSSP\0\x03\0\0\0".to_vec();
    let mut at = 64u32;
    for part in [&lm, &nt, &domain, &user] {
        let n = part.len() as u16;
        b.extend_from_slice(&n.to_le_bytes());
        b.extend_from_slice(&n.to_le_bytes());
        b.extend_from_slice(&at.to_le_bytes());
        at += n as u32;
    }
    b.extend_from_slice(&[0; 16]);
    b.extend_from_slice(&1u32.to_le_bytes());
    for part in [&lm, &nt, &domain, &user] {
        b.extend_from_slice(part);
    }
    b
}

#[test]
fn a_login_takes_two_legs() {
    let mut s = server();
    let mut c = Smb2Conn::new(1, [0x01, 0x23, 0x45, 0x67, 0x89, 0xab, 0xcd, 0xef]);
    c.dialect = Some(DIALECT_311);
    let opts = rustsmb::ntlm::Type2Options { extra_flags: None, no_version_flag: false, no_version: false };
    let leg = |blob: &[u8]| Some(SetupReq { flags: 0, blob: blob.to_vec(), encrypted_key: Vec::new() });
    let f = frame(CMD_SESSION_SETUP, 1, 0, 0, 0, &[0; 40]);
    match session_setup(&mut s, &mut c, &leg(b"NTLMSSP\0\x01\0\0\0\0\0\0\0"), &f, 0, &opts) {
        Ok(SetupReply::Challenge(t)) => {
            let at = t.windows(8).position(|w| w == b"NTLMSSP\0").unwrap();
            assert_eq!(&t[at + 24..at + 32], &c.challenge);
        }
        _ => panic!("a challenge"),
    }
    assert!(!c.authenticated);
    assert_ne!(c.session_id, 0);
    let r = session_setup(&mut s, &mut c, &leg(&type3()), &f, 0, &opts);
    assert_eq!(r.as_ref().ok().map(|s| s.status()), Some(Status::SUCCESS));
    assert!(matches!(r, Ok(SetupReply::Established { flags: 0, .. })));
    assert!(c.authenticated && !c.guest);
    assert_eq!(c.user, "User");
    assert_eq!(c.session_key.unwrap().to_vec(), unhex("8de40ccadbc14a82f15cb0ad0de95ca3"));

    let mut c = Smb2Conn::new(1, [0; 8]);
    c.dialect = Some(DIALECT_311);
    let r = session_setup(&mut s, &mut c, &leg(&type3()), &f, 0, &opts);
    assert!(matches!(r, Err(Status::LOGON_FAILURE)), "another challenge");
    assert!(!c.authenticated);
}

fn anonymous_type3() -> Vec<u8> {
    let mut b = b"NTLMSSP\0\x03\0\0\0".to_vec();
    for _ in 0..6 {
        b.extend_from_slice(&[0, 0, 0, 0, 64, 0, 0, 0]);
    }
    b.extend_from_slice(&0x0801u32.to_le_bytes());
    b
}

#[test]
fn a_client_keeps_its_dialect_unless_it_is_a_guest() {
    let mut s = server();
    let opts = rustsmb::ntlm::Type2Options { extra_flags: None, no_version_flag: false, no_version: false };
    let leg = |blob: &[u8]| Some(SetupReq { flags: 0, blob: blob.to_vec(), encrypted_key: Vec::new() });
    let f = frame(CMD_SESSION_SETUP, 1, 0, 0, 0, &[0; 40]);
    let client = |dialect: u16| {
        let mut c = Smb2Conn::new(1, [0x01, 0x23, 0x45, 0x67, 0x89, 0xab, 0xcd, 0xef]);
        c.dialect = Some(dialect);
        c.client_guid = [4; 16];
        c
    };
    let mut c = client(0x0302);
    assert!(session_setup(&mut s, &mut c, &leg(&anonymous_type3()), &f, 0, &opts).is_ok());
    assert!(c.guest && c.authenticated);
    assert!(s.client_dialects.get(&[4; 16]).is_none(), "a guest is not noted");
    let mut c = client(DIALECT_311);
    assert!(session_setup(&mut s, &mut c, &leg(&type3()), &f, 0, &opts).is_ok());
    assert_eq!(s.client_dialects.get(&[4; 16]), Some(&DIALECT_311));
    let mut c = client(0x0302);
    let r = session_setup(&mut s, &mut c, &leg(&type3()), &f, 0, &opts);
    assert!(matches!(r, Err(Status::USER_SESSION_DELETED)));
    let mut c = client(0x0302);
    let r = session_setup(&mut s, &mut c, &leg(&anonymous_type3()), &f, 0, &opts);
    assert!(matches!(r, Ok(SetupReply::Established { flags: 1, .. })), "a guest is not held to it");
    let mut c = client(0x0202);
    assert!(session_setup(&mut s, &mut c, &leg(&type3()), &f, 0, &opts).is_ok());
}

fn tree_frame(path: &str) -> Vec<u8> {
    let p = encode_utf16_bytes(path);
    let mut body = vec![0u8; 8];
    body[0] = 9;
    body[4..6].copy_from_slice(&72u16.to_le_bytes());
    body[6..8].copy_from_slice(&(p.len() as u16).to_le_bytes());
    body.extend_from_slice(&p);
    frame(CMD_TREE_CONNECT, 3, 0, 5, 0, &body)
}

#[test]
fn trees_are_connected_by_share_name() {
    let (mut s, mut c) = (server(), logged_in());
    let t = tree_connect(&mut s, &mut c, &tree_frame("\\\\host\\Public")).unwrap();
    assert_eq!(c.trees.get(&t.tree_id).unwrap(), "public");
    assert!(!t.encrypt && !t.is_pipe);
    assert_eq!(c.resp_tree_id, Some(t.tree_id));
    assert!(!c.seal_current);
    let v = tree_connect(&mut s, &mut c, &tree_frame("\\\\host\\vault")).unwrap();
    assert!(v.encrypt);
    assert_ne!(v.tree_id, t.tree_id);
    assert!(matches!(tree_connect(&mut s, &mut c, &tree_frame("\\\\host\\none")), Err(Status::BAD_NETWORK_NAME)));
    tree_disconnect(&mut c, t.tree_id);
    assert!(!c.trees.contains_key(&t.tree_id));
}

#[test]
fn a_logoff_leaves_nothing() {
    let (mut s, mut c) = (server(), logged_in());
    let id = [7u8; 16];
    c.handles.insert(id, file("/srv/a", false));
    assert!(s.locks.try_acquire("/srv/a", &[(0, 10, true)], (5, id)));
    assert!(s.share_modes.try_open("/srv/a", 1, 0, (5, id)));
    logoff(&mut s, &mut c);
    assert!(!c.authenticated);
    assert!(s.locks.try_acquire("/srv/a", &[(0, 10, true)], (6, id)));
    assert_eq!(s.share_modes.open_count("/srv/a"), 0);
    let r = take_in(&mut s, &mut c, &frame(CMD_READ, 1, 1, 5, 0, &[0; 48]));
    assert_eq!(refused(r).0, Status::ACCESS_DENIED);
}

#[test]
fn locks_of_others_stop_reads_and_writes() {
    let (mut s, mut c) = (server(), logged_in());
    let id = [7u8; 16];
    c.handles.insert(id, file("/srv/a", false));
    assert!(s.locks.try_acquire("/srv/a", &[(0, 10, true)], (9, [9; 16])));
    let w = |offset| WriteReq { offset, file_id: id, payload: vec![0; 4] };
    assert_eq!(plan_write(&s, &c, &w(8)), Some(Status::FILE_LOCK_CONFLICT));
    assert_eq!(plan_write(&s, &c, &w(10)), None);
    let r = |offset| ReadReq { length: 4, offset, file_id: id };
    assert_eq!(plan_read(&s, &c, &r(8)), Err(Status::FILE_LOCK_CONFLICT));
    assert_eq!(plan_read(&s, &c, &r(10)), Ok(4));
    assert_eq!(plan_read(&s, &c, &ReadReq { length: 4, offset: 0, file_id: [1; 16] }), Err(Status::INVALID_HANDLE));
}

#[test]
fn blocking_locks_wait() {
    let (mut s, mut c) = (server(), logged_in());
    let id = [7u8; 16];
    c.handles.insert(id, file("/srv/a", false));
    let h = Header2::parse(&frame(10, 40, 1, 5, 0, &[])).unwrap();
    assert!(s.locks.try_acquire("/srv/a", &[(0, 10, true)], (9, [9; 16])));
    let want = |fail_immediately| LockReq {
        file_id: id,
        locks: vec![LockElement { offset: 5, length: 1, exclusive: true, unlock: false, fail_immediately }],
    };
    assert!(matches!(
        begin_lock(&mut s.locks, &mut c, &h, &want(true)),
        LockStart::Reply(Status::LOCK_NOT_GRANTED, _)
    ));
    let id1 = match begin_lock(&mut s.locks, &mut c, &h, &want(false)) {
        LockStart::Pending { async_id, path, ranges } => {
            assert_eq!((path.as_str(), ranges), ("/srv/a", vec![(5, 1, true)]));
            async_id
        }
        _ => panic!("a wait"),
    };
    let f = lock_result(5, 40, id1, true);
    assert_eq!(status_of(&f), Status::SUCCESS);
    assert_eq!(u64::from_le_bytes(f[32..40].try_into().unwrap()), id1);
    assert_eq!(status_of(&lock_result(5, 40, id1, false)), Status::CANCELLED);
}

#[test]
fn watches_are_cancelled_once() {
    let mut c = logged_in();
    let id = [7u8; 16];
    c.handles.insert(id, file("/srv/d", true));
    let h = Header2::parse(&frame(CMD_CHANGE_NOTIFY, 42, 1, 5, 0, &[])).unwrap();
    let req = ChangeNotifyReq { watch_tree: true, output_len: 1000, file_id: id, filter: 1 };
    let a = match begin_change_notify(&mut c, &h, &req) {
        NotifyStart::Pending { async_id, path } => {
            assert_eq!(path, "/srv/d");
            async_id
        }
        _ => panic!("a watch"),
    };
    let f = frame(12, 42, 0, 5, 0, &[4, 0, 0, 0]);
    let h = Header2::parse(&f).unwrap();
    assert_eq!(cancel(&mut c, &h, &f), Some(a));
    assert_eq!(cancel(&mut c, &h, &f), None);
    let h = Header2::parse(&frame(CMD_CHANGE_NOTIFY, 43, 1, 5, 0, &[])).unwrap();
    assert!(matches!(begin_change_notify(&mut c, &h, &req), NotifyStart::Pending { .. }));
    assert_eq!(complete_pending_notifies(&mut c, &id).len(), 1);
    assert!(complete_pending_notifies(&mut c, &id).is_empty());
    let missing = ChangeNotifyReq { watch_tree: true, output_len: 1000, file_id: [1; 16], filter: 1 };
    assert!(matches!(begin_change_notify(&mut c, &h, &missing), NotifyStart::Refused(_)));
}

#[test]
fn changes_are_reported_below_the_watched_directory() {
    for filter in [0u32, 1, 4, 8, 0x10, 0xFFFF_FFFF] {
        let w = filter_to_mask(filter);
        assert!(w.create || w.attrib || w.modify);
    }
    let nothing = WatchSet {
        create: false,
        delete: false,
        moved_from: false,
        moved_to: false,
        attrib: false,
        modify: false,
        close_write: false,
    };
    assert_eq!(mask_to_action(&WatchSet { create: true, ..nothing }), 1);
    assert_eq!(mask_to_action(&WatchSet { delete: true, ..nothing }), 2);
    assert_eq!(mask_to_action(&WatchSet { modify: true, ..nothing }), 3);
    assert_eq!(mask_to_action(&WatchSet { moved_from: true, ..nothing }), 4);
    assert_eq!(mask_to_action(&WatchSet { moved_to: true, ..nothing }), 5);
    assert_eq!(name_below("", "a"), "a");
    assert_eq!(name_below("x\\y", "a"), "x\\y\\a");
    let f = notify_result(5, 42, 7, &Ok((1, "a".to_string())));
    assert_eq!(status_of(&f), Status::SUCCESS);
    let at = 64 + 8;
    assert_eq!(&f[at..at + 14], &[0, 0, 0, 0, 1, 0, 0, 0, 2, 0, 0, 0, b'a', 0]);
    assert_eq!(status_of(&notify_result(5, 42, 7, &Err(Status::NOTIFY_CLEANUP))), Status::NOTIFY_CLEANUP);
}

#[test]
fn subdirectories_are_collected() {
    let mut w = DirWalk::new("/d");
    let (dir, rel) = w.next_dir().unwrap();
    assert_eq!((dir.as_str(), rel.as_str()), ("/d", ""));
    w.add_listing(&dir, &rel, &vec!["a".to_string(), "b".to_string()]);
    let (dir, rel) = w.next_dir().unwrap();
    assert_eq!((dir.as_str(), rel.as_str()), ("/d/b", "b"));
    w.add_listing(&dir, &rel, &(0..5000).map(|i| format!("{i}")).collect());
    assert_eq!(w.found.len(), 4096);
    assert_eq!(w.found[2], ("/d/b/0".to_string(), "b\\0".to_string()));
    assert!(w.next_dir().is_none());
}

#[test]
fn a_listing_goes_on_where_it_stopped() {
    let mut c = logged_in();
    let id = [7u8; 16];
    let meta = FileMeta { times: [0; 4], attrs: 0x20, alloc: 0, eof: 0, is_dir: false };
    let entry = |n: &str| Entry { name: n.into(), meta };
    let req = |flags| QueryDirReq { class: 1, flags, file_index: 0, file_id: id, pattern: "*".into() };
    assert!(matches!(take_batch(&mut c, &req(2)), Err(Status::INVALID_PARAMETER)));
    keep_listing(&mut c, &req(0), "*", meta, vec![entry("a"), entry("B")]);
    let mut names = Vec::new();
    while let Ok(Some(v)) = take_batch(&mut c, &req(2)) {
        assert_eq!(v.len(), 1);
        names.push(v[0].name.clone());
    }
    assert_eq!(names, vec![".", "..", "a", "B"]);
    keep_listing(&mut c, &req(0), "b*", meta, vec![entry("a"), entry("B")]);
    let v = take_batch(&mut c, &req(0)).unwrap().unwrap();
    assert_eq!(v.len(), 1);
    assert_eq!(v[0].name, "B");
    assert!(matches!(take_batch(&mut c, &req(0)), Ok(None)));
}

fn holder(key: u8, state: u32) -> LeaseHolder {
    let crypto = BreakCrypto {
        dialect: None,
        signing_key: None,
        enc_keys: None,
        cipher: None,
        session_id: 5,
        encrypt: false,
        signed: false,
    };
    LeaseHolder {
        key: [key; 16],
        state,
        epoch: 1,
        v2: true,
        session_id: 5,
        file_id: [key; 16],
        conn: 1,
        crypto,
        client_guid: [4; 16],
        breaking: false,
        break_to: 0,
    }
}

#[test]
fn leases_are_broken_and_acknowledged() {
    let mut t = LeaseTable::new();
    assert!(t.grant("/a", holder(1, 7)));
    assert_eq!(t.acknowledge([4; 16], [9; 16], 0), Err(LeaseAckError::NotFound));
    assert_eq!(t.acknowledge([4; 16], [1; 16], 0), Err(LeaseAckError::NotBreaking));
    assert!(t.break_conflict("/a", (5, [1; 16]), None, 4).is_empty(), "the holder's own change");
    assert!(t.break_conflict("/a", (6, [2; 16]), Some([1; 16]), 4).is_empty(), "the same key");
    let b = t.break_conflict("/a", (6, [2; 16]), None, 4);
    assert_eq!(b.len(), 1);
    assert_eq!((b[0].old_state, b[0].new_state), (7, 3));
    assert_eq!(t.acknowledge([4; 16], [1; 16], 7), Err(LeaseAckError::StateNotAccepted));
    assert_eq!(t.acknowledge([4; 16], [1; 16], 3), Ok(3));
    assert_eq!(t.peek_key("/a", [1; 16]).unwrap().0, 3);
    t.release_session(5);
    assert!(!t.has_holders("/a"));
}

#[test]
fn a_conflict_breaks_the_holders_that_cache_too_much() {
    let mut t = LeaseTable::new();
    for (key, state) in [(1, 7), (2, 1), (3, 5)] {
        assert!(t.grant("/a", holder(key, state)));
    }
    let b = t.break_conflict("/a", (6, [9; 16]), None, 4);
    let seen: Vec<(u32, u32)> = b.iter().map(|n| (n.old_state, n.new_state)).collect();
    assert_eq!(seen, [(7, 3), (5, 1)]);
    assert_eq!(t.peek_key("/a", [2; 16]).unwrap().0, 1);
    assert_eq!(t.peek_key("/a", [3; 16]).unwrap().0, 1);
    assert!(t.break_conflict("/a", (6, [9; 16]), None, 4).is_empty());
}

#[test]
fn two_contexts_are_linked() {
    let l = LeaseResp { key: [1; 16], state: 7, flags: 0, epoch: 1, v2: true };
    let b = encode_create_contexts(&Some(l), Some(DurableGrant::V1));
    let next = u32::from_le_bytes(b[0..4].try_into().unwrap()) as usize;
    assert_eq!(next % 8, 0);
    assert_eq!(&b[next + 16..next + 20], b"DHnQ");
    assert_eq!(&b[next..next + 4], &[0; 4]);
    let out = build_copychunk_resp(3, 0, 99);
    assert_eq!(copychunk_total(&out), 99);
}

#[test]
fn ids_are_handed_out_once() {
    let mut s = server();
    let a = next_file_id(&mut s);
    let b = next_file_id(&mut s);
    assert_ne!(a, b);
    assert_ne!(next_session_id(&mut s), next_session_id(&mut s));
}
