use rustsmb::frame2::{build_async_frame, build_interface_list, decrypt_transform, parent_dir, response, seal_pdu, sign_pdu, verify_pdu_signature, Header2, HostAddr, CMD_CHANGE_NOTIFY, CMD_READ, DIALECT_210, DIALECT_311, SMB2_MAGIC};
use rustsmb::smb::Status;

#[test]
fn async_frame_sets_async_flag_and_ids() {
    let f = build_async_frame(0xABCD, 42, 7, CMD_CHANGE_NOTIFY, Status::PENDING, &[0u8; 8]);
    assert_eq!(&f[0..4], &SMB2_MAGIC);
    let flags = u32::from_le_bytes(f[16..20].try_into().unwrap());
    assert_eq!(flags & 0x2, 0x2, "ASYNC_COMMAND set");
    assert_eq!(flags & 0x1, 0x1, "SERVER_TO_REDIR set");
    assert_eq!(u64::from_le_bytes(f[24..32].try_into().unwrap()), 42, "MessageId");
    assert_eq!(u64::from_le_bytes(f[32..40].try_into().unwrap()), 7, "AsyncId");
    assert_eq!(u64::from_le_bytes(f[40..48].try_into().unwrap()), 0xABCD, "SessionId");
    assert_eq!(u32::from_le_bytes(f[8..12].try_into().unwrap()), Status::PENDING.raw());
}

#[test]
fn interface_list_chains_and_encodes_sockaddr() {
    let entries = [(1u32, HostAddr::V4(10, 0, 0, 5)), (2u32, HostAddr::V6(1))];
    let buf = build_interface_list(&entries);
    assert_eq!(buf.len(), 152 * 2, "two fixed-size entries");
    assert_eq!(u32::from_le_bytes(buf[0..4].try_into().unwrap()), 152);
    assert_eq!(u32::from_le_bytes(buf[4..8].try_into().unwrap()), 1);
    assert_eq!(u16::from_le_bytes(buf[24..26].try_into().unwrap()), 2, "AF_INET");
    assert_eq!(&buf[28..32], &[10, 0, 0, 5], "sin_addr");
    assert_eq!(u32::from_le_bytes(buf[152..156].try_into().unwrap()), 0);
    assert_eq!(u16::from_le_bytes(buf[152 + 24..152 + 26].try_into().unwrap()), 23, "AF_INET6");
}

fn pdu_to_sign() -> Vec<u8> {
    let mut pdu = vec![0u8; 96];
    pdu[0..4].copy_from_slice(&SMB2_MAGIC);
    for (i, b) in pdu[64..].iter_mut().enumerate() {
        *b = i as u8;
    }
    pdu
}

#[test]
fn sign_then_verify_round_trips_and_detects_tamper() {
    let key = [0x42u8; 16];
    let dialect = Some(DIALECT_311);
    let mut pdu = pdu_to_sign();
    sign_pdu(&mut pdu, &key, dialect);
    assert!(verify_pdu_signature(&pdu, &key, dialect), "valid signature verifies");
    pdu[70] ^= 0xFF;
    assert!(!verify_pdu_signature(&pdu, &key, dialect), "tampered body rejected");
    pdu[70] ^= 0xFF;
    assert!(!verify_pdu_signature(&pdu, &[0u8; 16], dialect), "wrong key rejected");
}

#[test]
fn older_dialects_sign_with_another_algorithm() {
    let key = [0x42u8; 16];
    let mut a = pdu_to_sign();
    let mut b = pdu_to_sign();
    sign_pdu(&mut a, &key, Some(DIALECT_210));
    sign_pdu(&mut b, &key, Some(DIALECT_311));
    assert_ne!(a[48..64], b[48..64]);
    assert!(verify_pdu_signature(&a, &key, Some(DIALECT_210)));
    assert!(!verify_pdu_signature(&a, &key, Some(DIALECT_311)));
}

#[test]
fn sealed_messages_open_again() {
    let key = [7u8; 32];
    let random = [9u8; 16];
    let msg = pdu_to_sign();
    for cipher in [1u16, 2, 3, 4] {
        let f = seal_pdu(0x1234, &key, cipher, &random, &msg);
        assert_eq!(&f[0..4], &[0xFD, 0x53, 0x4D, 0x42]);
        assert_eq!(u64::from_le_bytes(f[44..52].try_into().unwrap()), 0x1234);
        assert_ne!(&f[52..], &msg[..]);
        assert_eq!(decrypt_transform(0x1234, &key, cipher, &f), Some(msg.clone()));
        let mut bad = f.clone();
        let last = bad.len() - 1;
        bad[last] ^= 1;
        assert_eq!(decrypt_transform(0x1234, &key, cipher, &bad), None, "tampered message");
        assert_eq!(decrypt_transform(0x1234, &[8u8; 32], cipher, &f), None, "wrong key");
    }
}

#[test]
fn responses_echo_their_request() {
    let mut b = vec![0u8; 64];
    b[0..4].copy_from_slice(&SMB2_MAGIC);
    b[12..14].copy_from_slice(&CMD_READ.to_le_bytes());
    b[24..32].copy_from_slice(&77u64.to_le_bytes());
    b[36..40].copy_from_slice(&5u32.to_le_bytes());
    let h = Header2::parse(&b).unwrap();
    assert_eq!(h.command, CMD_READ);
    let f = response(&h, Status::ACCESS_DENIED, Vec::new(), 9);
    let back = Header2::parse(&f).unwrap();
    assert_eq!(back.command, CMD_READ);
    assert_eq!(back.message_id, 77);
    assert_eq!(back.tree_id, 5);
    assert_eq!(back.session_id, 9);
    assert_eq!(back.status, Status::ACCESS_DENIED.raw());
    assert_eq!(&f[64..], &[9, 0, 0, 0, 0, 0, 0, 0], "an error body stands for none");
}

#[test]
fn the_parent_of_a_path_ends_before_the_last_slash() {
    assert_eq!(parent_dir("/srv/a/b.txt"), "/srv/a");
}
