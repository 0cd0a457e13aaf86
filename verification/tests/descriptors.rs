use rustsmb::query2::finish_security;
use rustsmb::security::{query_security, DACL, DEFAULT, GROUP, OWNER};
use rustsmb::smb::Status;
use win_sd::{AccessMask, SecurityDescriptor, SecurityDescriptorBuilder, Sid};

#[test]
fn default_query_is_parseable_and_has_dacl() {
    let bytes = query_security(None, DEFAULT).expect("encode");
    let sd = SecurityDescriptor::from_bytes(&bytes).expect("round-trip parse");
    assert!(sd.owner().is_some(), "owner present");
    assert!(sd.dacl().is_some(), "DACL present");
}

#[test]
fn dacl_only_omits_owner() {
    let bytes = query_security(None, DACL).expect("encode");
    let sd = SecurityDescriptor::from_bytes(&bytes).expect("parse");
    assert!(sd.owner().is_none(), "owner omitted when not requested");
    assert!(sd.dacl().is_some(), "DACL still present");
}

#[test]
fn stored_descriptor_round_trips() {
    let stored = SecurityDescriptorBuilder::new()
        .owner(Sid::local_system())
        .allow(Sid::everyone(), AccessMask::FILE_GENERIC_READ)
        .build()
        .to_bytes()
        .unwrap();
    let out = query_security(Some(&stored), OWNER).expect("encode");
    let sd = SecurityDescriptor::from_bytes(&out).expect("parse");
    assert_eq!(sd.owner(), Some(&Sid::local_system()), "stored owner preserved");
}

#[test]
fn default_descriptor_belongs_to_administrators() {
    let bytes = query_security(None, OWNER | GROUP).expect("encode");
    let sd = SecurityDescriptor::from_bytes(&bytes).expect("parse");
    assert_eq!(sd.owner(), Some(&Sid::administrators()));
    assert!(sd.dacl().is_none());
}

#[test]
fn broken_stored_descriptor_falls_back_to_the_default() {
    let given = query_security(Some(&[1, 2, 3]), DEFAULT);
    assert_eq!(given, query_security(None, DEFAULT));
}

#[test]
fn security_query_rejects_small_buffer() {
    assert_eq!(finish_security(None, DEFAULT, 8), Err(Status::BUFFER_TOO_SMALL));
}

#[test]
fn security_query_set_round_trip() {
    let out = finish_security(None, DEFAULT, 4096).unwrap();
    let sd = SecurityDescriptor::from_bytes(&out).expect("default parse");
    assert!(sd.dacl().is_some(), "default DACL present");

    let custom = SecurityDescriptorBuilder::new()
        .owner(Sid::local_system())
        .allow(Sid::everyone(), AccessMask::FILE_GENERIC_READ)
        .build()
        .to_bytes()
        .unwrap();
    let out2 = finish_security(Some(&custom), OWNER, 4096).unwrap();
    let sd2 = SecurityDescriptor::from_bytes(&out2).expect("stored parse");
    assert_eq!(sd2.owner(), Some(&Sid::local_system()), "stored owner round-trips");
}
