use rustsmb::dirops::{finish_check_directory, finish_create_directory, finish_delete, finish_delete_directory, finish_query_information, finish_rename_paths, may_delete};
use rustsmb::dispatch::{can_dispatch, cancel_answer, commands, dispatch_one, sendable, Answer, Step};
use rustsmb::files::{attrs_of, finish_open_file, finish_read, finish_seek, finish_write, map_io_err, nt_create, prepare_failure, times_of, FileStat, NtCreate, Prepare, SeekFrom, UnixTime};
use rustsmb::message::{build_response, parse_header, RespBody};
use rustsmb::nbss;
use rustsmb::ntlm::Type2Options;
use rustsmb::session1::{self, finish_setup, finish_tree_connect, TreeReq, TreeStep};
use rustsmb::smb::{filetime_to_unix, to_dos, unix_to_filetime, Rd, Status, Wr, ATTR_ARCHIVE, ATTR_DIRECTORY, ATTR_READONLY, COM_CLOSE, COM_ECHO, COM_LOGOFF_ANDX, COM_NEGOTIATE, COM_NT_CANCEL, COM_NT_CREATE_ANDX, COM_OPEN, COM_READ_ANDX, COM_RENAME, COM_SEEK, COM_SESSION_SETUP_ANDX, COM_TRANSACTION2, COM_TREE_CONNECT_ANDX, COM_TREE_DISCONNECT, COM_WRITE_ANDX, DISP_CREATE, DISP_OPEN, DISP_OPEN_IF, DISP_OVERWRITE, DISP_OVERWRITE_IF, DISP_SUPERSEDE, FIND_INFO_NAMES, FS_SIZE_INFO, GENERIC_READ, GENERIC_WRITE, OPT_DELETE_ON_CLOSE, OPT_DIRECTORY_FILE, OPT_NON_DIRECTORY_FILE, QL_PT_INTERNAL, QL_PT_STANDARD, TRANS2_FIND_FIRST2, TRANS2_QUERY_FS_INFO};
use rustsmb::state::{build_shares, delete_when_closed, fix_component, join_path, next_fid, next_tid, next_uid, path_components, resolve_path, ConnState, FileHandle, Ids, Lookup, ServerShared};
use rustsmb::tables::TextMap;
use rustsmb::text::{decode_utf16_bytes, encode_utf16_bytes, from_utf16_lossy, split_slashes};
use rustsmb::trans2::{encode_entries, encode_query_info, finish_find_first, find_step, select_names, Found};
use rustsmb::transport;
use rustsmb::vfs::IoKind;
use rustsmb::wildcard::{matching_names, split_pattern, wildcard_match};

const CHALLENGE: [u8; 8] = [0x01, 0x23, 0x45, 0x67, 0x89, 0xab, 0xcd, 0xef];

fn server(guest: bool) -> ServerShared {
    let mut users = TextMap::new();
    if !guest {
        users.insert("user".to_string(), "Password".to_string());
    }
    ServerShared {
        shares: build_shares(&vec![("Docs".to_string(), "/srv".to_string())]),
        guid: [7; 16],
        users,
        allow_guest: guest,
        server_name: "RUSTSMB".to_string(),
        domain: "WORKGROUP".to_string(),
    }
}

fn opts() -> Type2Options {
    Type2Options { extra_flags: None, no_version_flag: false, no_version: false }
}

fn header(command: u8, flags2: u16, tid: u16) -> Vec<u8> {
    let mut b = vec![0xFF, b'S', b'M', b'B', command];
    b.extend_from_slice(&[0; 4]);
    b.push(0x08);
    b.extend_from_slice(&flags2.to_le_bytes());
    b.extend_from_slice(&[0; 12]);
    b.extend_from_slice(&tid.to_le_bytes());
    b.extend_from_slice(&[1, 0, 2, 0, 3, 0]);
    b
}

fn body(words: &[u8], data: &[u8]) -> Vec<u8> {
    let mut b = vec![(words.len() / 2) as u8];
    b.extend_from_slice(words);
    b.extend_from_slice(&(data.len() as u16).to_le_bytes());
    b.extend_from_slice(data);
    b
}

fn message(command: u8, tid: u16, words: &[u8], data: &[u8]) -> Vec<u8> {
    let mut b = header(command, 0x4001, tid);
    b.extend_from_slice(&body(words, data));
    b
}

fn step(s: &ServerShared, c: &mut ConnState, ids: &mut Ids, frame: &[u8]) -> Step {
    let cmds = commands(frame).unwrap();
    assert_eq!(cmds.len(), 1);
    assert!(can_dispatch(&cmds[0]));
    dispatch_one(s, c, ids, &cmds[0], 0, &opts())
}

fn reply(step: Step) -> (Status, Vec<RespBody>) {
    match step {
        Step::Reply(s, b) => (s, b),
        _ => panic!("a reply"),
    }
}

fn refusal(step: Step) -> Status {
    match step {
        Step::Refuse(s) => s,
        _ => panic!("a refusal"),
    }
}

fn tree_connect(path: &str) -> Vec<u8> {
    let mut data = vec![0];
    data.extend_from_slice(path.as_bytes());
    data.push(0);
    data.extend_from_slice(b"?????\0");
    message(COM_TREE_CONNECT_ANDX, 0, &[0xFF, 0, 0, 0, 0, 0, 1, 0], &data)
}

fn connected() -> (ServerShared, ConnState, Ids) {
    let s = server(true);
    let mut c = ConnState::new(CHALLENGE);
    let mut ids = Ids::new();
    let (st, b) = reply(step(&s, &mut c, &mut ids, &tree_connect("\\\\RUSTSMB\\DOCS")));
    assert_eq!(st, Status::SUCCESS);
    assert_eq!(b[0].tid_override, Some(0x1000));
    (s, c, ids)
}

fn file(path: &str) -> FileHandle {
    FileHandle {
        path: path.into(),
        is_dir: false,
        has_file: true,
        pos: 0,
        access_read: true,
        access_write: true,
        delete_on_close: false,
        delete_pending: false,
    }
}

fn stat(is_dir: bool, mode: u32, len: u64) -> FileStat {
    let t = |secs| UnixTime { secs, nanos: 0 };
    FileStat { is_dir, mode, len, ino: 77, ctime: t(1), atime: t(2), mtime: t(3) }
}

#[test]
fn a_header_is_read() {
    let f = message(COM_ECHO, 9, &[1, 0], b"hi");
    let (h, wc) = parse_header(&f).unwrap();
    assert_eq!((h.command, h.flags, h.tid, h.pid, h.uid, h.mid), (COM_ECHO, 0x08, 9, 1, 2, 3));
    assert_eq!(wc, 32);
    assert!(parse_header(&f[..32]).is_none());
    let mut other = f.clone();
    other[0] = 0xFE;
    assert!(parse_header(&other).is_none());
}

#[test]
fn echo_answers_once_for_every_count() {
    let s = server(false);
    let mut c = ConnState::new(CHALLENGE);
    let mut ids = Ids::new();
    let f = message(COM_ECHO, 0, &[2, 0], b"hi");
    let (st, b) = reply(step(&s, &mut c, &mut ids, &f));
    assert_eq!((st, b.len()), (Status::SUCCESS, 2));
    assert_eq!((b[0].params.as_slice(), b[1].params.as_slice()), (&[0, 0][..], &[1, 0][..]));
    assert!(sendable(&b));
    let mut a = Answer::new(commands(&f).unwrap()[0].hdr);
    a.carried_out(st, b);
    let out = a.message();
    assert_eq!(&out[..5], &[0xFF, b'S', b'M', b'B', COM_ECHO]);
    assert_eq!(out[9], 0x88);
    assert_eq!(&out[10..12], &0x4001u16.to_le_bytes());
    assert_eq!(&out[32..], &[1, 0, 0, 2, 0, b'h', b'i', 1, 1, 0, 2, 0, b'h', b'i']);
}

#[test]
fn without_a_session_nothing_is_served() {
    let s = server(false);
    let mut c = ConnState::new(CHALLENGE);
    let mut ids = Ids::new();
    assert_eq!(refusal(step(&s, &mut c, &mut ids, &tree_connect("\\\\S\\docs"))), Status::ACCESS_DENIED);
    assert!(c.session.is_none());
}

#[test]
fn guests_are_mapped_and_need_a_tree() {
    let s = server(true);
    let mut c = ConnState::new(CHALLENGE);
    let mut ids = Ids::new();
    let f = message(COM_CLOSE, 5, &[0; 6], b"");
    assert_eq!(refusal(step(&s, &mut c, &mut ids, &f)), Status::INVALID_HANDLE);
    assert_eq!(c.uid, 0x0400);
    let session = c.session.unwrap();
    assert!(session.guest);
    assert_eq!(session.user, "nobody");
}

#[test]
fn configured_users_shut_guests_out() {
    let mut s = server(false);
    s.allow_guest = true;
    let mut c = ConnState::new(CHALLENGE);
    let mut ids = Ids::new();
    assert_eq!(refusal(step(&s, &mut c, &mut ids, &tree_connect("\\\\S\\docs"))), Status::ACCESS_DENIED);
    s.users = TextMap::new();
    s.users.insert("other".to_string(), "Password".to_string());
    assert_eq!(refusal(step(&s, &mut c, &mut ids, &setup(&type3(PROOF, 1)))), Status::LOGON_FAILURE);
    assert!(c.session.is_none());
}

#[test]
fn user_ids_return_after_all_others() {
    let mut ids = Ids::new();
    let first = next_uid(&mut ids);
    for _ in 1..65_534 {
        let v = next_uid(&mut ids);
        assert!(v != first && v != 0 && v != 0xFFFF);
    }
    assert_eq!(next_uid(&mut ids), first);
}

#[test]
fn a_written_string_is_read_back_to_its_end() {
    for text in ["", "a", "na\u{ef}ve \u{1F600}"] {
        for (unicode, base) in [(false, 0), (false, 1), (true, 0), (true, 1)] {
            let mut w = Wr::new();
            w.zstring(text, unicode, base);
            let mut r = Rd::new(&w.buf, 0);
            assert_eq!(r.zstring(unicode, base), text);
            assert_eq!(r.pos, w.buf.len());
        }
    }
}

#[test]
fn single_byte_strings_are_read_back() {
    let mut w = Wr::new();
    w.zstring("na\u{ef}ve \u{1F600}", false, 3);
    w.zstring("next", false, 3);
    let mut r = Rd::new(&w.buf, 0);
    assert_eq!(r.zstring(false, 3), "na\u{ef}ve \u{1F600}");
    assert_eq!(r.zstring(false, 3), "next");
    assert!(r.at_end());
    assert_eq!(Rd::new(&[0xFF, b'a', 0], 0).zstring(false, 0), "\u{FFFD}a");
}

#[test]
fn file_times_keep_their_order() {
    assert_eq!(unix_to_filetime(0, 0), 116_444_736_000_000_000);
    assert_eq!(unix_to_filetime(-11_644_473_600, 99), 0);
    assert_eq!(unix_to_filetime(-11_644_473_600, 100), 1);
    assert_eq!(unix_to_filetime(-20_000_000_000, 5), 0);
    assert!(unix_to_filetime(5, 999_999_999) < unix_to_filetime(6, 0));
}

#[test]
fn trees_connect_by_their_last_component() {
    let (s, mut c, mut ids) = connected();
    assert_eq!(c.trees.get(&0x1000).unwrap(), "docs");
    assert_eq!(c.session.as_ref().unwrap().trees, vec![0x1000]);
    assert_eq!(refusal(step(&s, &mut c, &mut ids, &tree_connect("\\\\S\\other"))), Status::BAD_NETWORK_NAME);
    let (_, b) = reply(step(&s, &mut c, &mut ids, &tree_connect("//S/ipc$")));
    assert_eq!(b[0].tid_override, Some(0x1001));
    assert_eq!(b[0].bytes, b"IPC\0\0");
    let (_, b) = reply(step(&s, &mut c, &mut ids, &message(COM_TREE_DISCONNECT, 0x1000, &[], b"")));
    assert_eq!(b.len(), 1);
    assert!(!c.trees.contains_key(&0x1000));
    assert_eq!(c.session.unwrap().trees, vec![0x1001]);
}

#[test]
fn unserved_commands_are_refused() {
    let (s, mut c, mut ids) = connected();
    assert_eq!(refusal(step(&s, &mut c, &mut ids, &message(COM_OPEN, 0x1000, &[], b""))), Status::NOT_IMPLEMENTED);
    assert_eq!(refusal(step(&s, &mut c, &mut ids, &message(0x99, 0x1000, &[], b""))), Status::INVALID_DEVICE_REQUEST);
}

#[test]
fn a_cancellation_is_answered_at_once() {
    let f = message(COM_NT_CANCEL, 0, &[], b"");
    let out = cancel_answer(&parse_header(&f).unwrap().0).unwrap();
    assert_eq!(&out[5..9], &0xC000_0120u32.to_le_bytes());
    assert_eq!(&out[32..], &[0, 0, 0]);
    let f = message(COM_ECHO, 0, &[], b"");
    assert!(cancel_answer(&parse_header(&f).unwrap().0).is_none());
}

#[test]
fn older_clients_get_older_codes() {
    let mut f = header(COM_CLOSE, 0x0001, 0);
    f.extend_from_slice(&body(&[], b""));
    let h = parse_header(&f).unwrap().0;
    let out = build_response(&h, Status::ACCESS_DENIED, Vec::new());
    let (class, code) = to_dos(Status::ACCESS_DENIED);
    assert_eq!(&out[5..9], &[code, 0, class, 0]);
    assert_eq!((class, code), (1, 5));
}

#[test]
fn chained_commands_are_answered_in_one_message() {
    let mut f = header(COM_TREE_CONNECT_ANDX, 0x4001, 0);
    let mut data = vec![0];
    data.extend_from_slice(b"\\\\S\\docs\0A:\0");
    let first = body(&[COM_LOGOFF_ANDX, 0, 0, 0, 0, 0, 1, 0], &data);
    f.extend_from_slice(&first);
    let second = f.len();
    f[35..37].copy_from_slice(&(second as u16).to_le_bytes());
    f.extend_from_slice(&body(&[0xFF, 0, 0, 0], b""));
    f.extend_from_slice(&[0; 8]);

    let s = server(true);
    let mut c = ConnState::new(CHALLENGE);
    let mut ids = Ids::new();
    let cmds = commands(&f).unwrap();
    assert_eq!(cmds.len(), 2);
    let mut a = Answer::new(cmds[0].hdr);
    let (st, b) = reply(dispatch_one(&s, &mut c, &mut ids, &cmds[0], 0, &opts()));
    a.carried_out(st, b);
    assert_eq!(cmds[1].hdr.command, COM_LOGOFF_ANDX);
    assert!(can_dispatch(&cmds[1]));
    match dispatch_one(&s, &mut c, &mut ids, &cmds[1], 0, &opts()) {
        Step::CloseAll(h, b) => {
            assert!(h.is_empty());
            a.carried_out(Status::SUCCESS, b);
        }
        _ => panic!("a logoff"),
    }
    assert!(c.session.is_none());
    let out = a.message();
    assert_eq!(out[33], COM_LOGOFF_ANDX);
    let at = u16::from_le_bytes([out[35], out[36]]) as usize;
    assert_eq!(&out[at..], &[2, 0xFF, 0, 0, 0, 0, 0]);

    let mut a = Answer::new(cmds[0].hdr);
    a.refuse(cmds[1].hdr, Status::LOGON_FAILURE);
    let out = a.message();
    assert_eq!(out[4], COM_LOGOFF_ANDX);
    assert_eq!(&out[32..], &[0, 0, 0]);
}

#[test]
fn the_newest_dialect_wins() {
    let s = server(true);
    let mut c = ConnState::new(CHALLENGE);
    let mut ids = Ids::new();
    let offer = b"\x02PC NETWORK PROGRAM 1.0\0\x02LANMAN2.1\0\x02NT LM 0.12\0";
    let (_, b) = reply(step(&s, &mut c, &mut ids, &message(COM_NEGOTIATE, 0, &[], offer)));
    assert_eq!(&b[0].params[..3], &[2, 0, 3]);
    assert_eq!(b[0].params.len(), 34);
    assert_eq!(b[0].bytes, vec![7; 16]);
    assert!(c.negotiated);
    let (_, b) = reply(step(&s, &mut c, &mut ids, &message(COM_NEGOTIATE, 0, &[], b"\x02PC\0\x02LANMAN1.0\0")));
    assert_eq!(&b[0].params[..2], &[1, 0]);
    let (_, b) = reply(step(&s, &mut c, &mut ids, &message(COM_NEGOTIATE, 0, &[], b"\x02PC\0")));
    assert_eq!(&b[0].params[..2], &[0xFF, 0xFF]);
}

fn setup(blob: &[u8]) -> Vec<u8> {
    let mut w = [0u8; 24];
    w[0] = 0xFF;
    w[14..16].copy_from_slice(&(blob.len() as u16).to_le_bytes());
    message(COM_SESSION_SETUP_ANDX, 0, &w, blob)
}

fn type3(proof: &str, flags: u32) -> Vec<u8> {
    let nt: Vec<u8> = (0..proof.len() / 2).map(|i| u8::from_str_radix(&proof[2 * i..2 * i + 2], 16).unwrap()).collect();
    let lm = vec![0u8; 24];
    let domain = encode_utf16_bytes("Domain");
    let user = encode_utf16_bytes("User");
    let mut b = b"NTLMSSP\0\x03\0\0\0".to_vec();
    let mut at = 64u32;
    for part in [&lm, &nt, &domain, &user] {
        let n = part.len() as u16;
        b.extend_from_slice(&n.to_le_bytes());
        b.extend_from_slice(&n.to_le_bytes());
        b.extend_from_slice(&at.to_le_bytes());
        at += n as u32;
    }
    b.extend_from_slice(&[0; 16]);
    b.extend_from_slice(&flags.to_le_bytes());
    for part in [&lm, &nt, &domain, &user] {
        b.extend_from_slice(part);
    }
    b
}

const PROOF: &str = "68cd0ab851e51c96aabc927bebef6a1c01010000000000000000000000000000aaaaaaaaaaaaaaaa0000000002000c0044006f006d00610069006e0001000c005300650072007600650072000000000000000000";

#[test]
fn a_session_is_set_up_in_two_legs() {
    let s = server(false);
    let mut c = ConnState::new(CHALLENGE);
    let mut ids = Ids::new();
    let (st, b) = reply(step(&s, &mut c, &mut ids, &setup(b"NTLMSSP\0\x01\0\0\0\0\0\0\0")));
    assert_eq!(st, Status::MORE_PROCESSING_REQUIRED);
    assert!(c.auth_pending);
    assert_eq!(&b[0].bytes[24..32], &CHALLENGE);
    let (st, b) = reply(step(&s, &mut c, &mut ids, &setup(&type3(PROOF, 1))));
    assert_eq!(st, Status::SUCCESS);
    assert_eq!(b[0].uid_override, Some(0x0400));
    assert_eq!(b[0].bytes, b"rustsmb\0rustsmb\0");
    assert!(!c.auth_pending);
    let session = c.session.unwrap();
    assert_eq!(session.user, "User");
    assert!(!session.guest);
}

#[test]
fn a_wrong_proof_is_no_session() {
    let s = server(false);
    let mut c = ConnState::new(CHALLENGE);
    let mut ids = Ids::new();
    let wrong = PROOF.replacen("68", "69", 1);
    assert_eq!(refusal(step(&s, &mut c, &mut ids, &setup(&type3(&wrong, 1)))), Status::LOGON_FAILURE);
    assert!(c.session.is_none());
    let short = message(COM_SESSION_SETUP_ANDX, 0, &[0xFF, 0], b"");
    assert_eq!(refusal(step(&s, &mut c, &mut ids, &short)), Status::INVALID_PARAMETER);
}

#[test]
fn backend_logins_take_two_legs() {
    let s = server(false);
    let mut c = ConnState::new(CHALLENGE);
    let mut ids = Ids::new();
    let none = session1::setup(&s, &mut c, &mut ids, None, 5, &opts());
    assert_eq!(none.err(), Some(Status::LOGON_FAILURE));
    let first = session1::setup(&s, &mut c, &mut ids, Some(b"NTLMSSP\0\x01\0\0\0\0\0\0\0"), 5, &opts()).unwrap();
    assert_eq!((first.status, first.uid, first.action), (Status::MORE_PROCESSING_REQUIRED, 0x0400, 0));
    assert_eq!(&first.token[24..32], &CHALLENGE);
    assert!(c.auth_pending);
    let b = finish_setup(&first, vec![1], vec![2, 3]);
    assert_eq!((b[0].uid_override, b[0].bytes.clone()), (Some(0x0400), vec![2, 3]));
    let wrong = type3(&PROOF.replacen("68", "69", 1), 1);
    assert_eq!(session1::setup(&s, &mut c, &mut ids, Some(&wrong), 5, &opts()).err(), Some(Status::LOGON_FAILURE));
    assert!(c.session.is_none() && c.auth_pending);
    c.spnego = true;
    let last = session1::setup(&s, &mut c, &mut ids, Some(&type3(PROOF, 1)), 5, &opts()).unwrap();
    assert_eq!((last.status, last.uid, last.action), (Status::SUCCESS, 0x0400, 0));
    let n = last.token.len();
    assert!(n > 0);
    let mut encoded = last.token.clone();
    encoded.extend_from_slice(b"rustsmb\0");
    let b = finish_setup(&last, Vec::new(), encoded);
    assert_eq!(b[0].bytes.len(), n);
    assert_eq!(c.session.unwrap().user, "User");
}

#[test]
fn backend_trees_are_connected_by_name() {
    let s = server(true);
    let mut c = ConnState::new(CHALLENGE);
    let mut ids = Ids::new();
    let ask = |path: &str, service: &str| Some(TreeReq { path: path.into(), service: service.into() });
    let none = session1::tree_connect(&s, &mut c, &mut ids, &None);
    assert_eq!(none, Err(Status::INVALID_PARAMETER));
    let lost = session1::tree_connect(&s, &mut c, &mut ids, &ask("\\\\h\\nowhere", "A:"));
    assert_eq!(lost, Err(Status::BAD_NETWORK_NAME));
    let t = session1::tree_connect(&s, &mut c, &mut ids, &ask("\\\\h\\DOCS\\", "?????")).unwrap();
    assert_eq!(t, TreeStep { tid: 0x1000, ipc: false });
    assert_eq!(c.trees[&0x1000], "docs");
    let p = session1::tree_connect(&s, &mut c, &mut ids, &ask("\\\\h\\nowhere", "IPC")).unwrap();
    assert_eq!(p, TreeStep { tid: 0x1001, ipc: true });
    let b = finish_tree_connect(t, true, Vec::new(), vec![1, 2, 3]);
    assert_eq!((b[0].tid_override, b[0].bytes.clone()), (Some(0x1000), vec![1, 2, 3]));
    assert_eq!(finish_tree_connect(p, true, Vec::new(), vec![1, 2, 3])[0].bytes, vec![1]);
    assert_eq!(finish_tree_connect(p, false, Vec::new(), vec![1, 2, 3])[0].bytes, vec![1, 2]);
    assert!(finish_tree_connect(p, true, Vec::new(), vec![1])[0].bytes.is_empty());
}

#[test]
fn backend_echoes_are_numbered() {
    let b = session1::echo(&[2, 0], b"hi");
    assert_eq!(b.len(), 2);
    assert_eq!((b[1].params.clone(), b[1].bytes.clone()), (vec![1, 0, 0, 0], b"hi".to_vec()));
    assert_eq!(session1::echo(&[], b"").len(), 1);
    assert_eq!(session1::echo(&[0, 0], b"").len(), 1);
}

fn create(name: &str, access: u32, disposition: u32, options: u32) -> Vec<u8> {
    let mut w = [0u8; 48];
    w[0] = 0xFF;
    w[5..7].copy_from_slice(&(name.len() as u16).to_le_bytes());
    w[15..19].copy_from_slice(&access.to_le_bytes());
    w[35..39].copy_from_slice(&disposition.to_le_bytes());
    w[39..43].copy_from_slice(&options.to_le_bytes());
    let mut data = vec![0];
    data.extend_from_slice(name.as_bytes());
    data.push(0);
    message(COM_NT_CREATE_ANDX, 0x1000, &w, &data)
}

#[test]
fn files_are_created_read_written_and_closed() {
    let (s, mut c, mut ids) = connected();
    let f = create("a\\b.txt", GENERIC_READ | GENERIC_WRITE, DISP_CREATE, OPT_DELETE_ON_CLOSE);
    let (n, base) = match step(&s, &mut c, &mut ids, &f) {
        Step::Create(n, base) => (n, base),
        _ => panic!("a create"),
    };
    assert_eq!((n.name.as_str(), base.as_str()), ("a\\b.txt", "/srv"));
    let plan = nt_create(&n, false, false).unwrap();
    assert!(matches!(plan.prepare, Prepare::MakeFile));
    assert_eq!((plan.action, plan.as_dir, plan.read, plan.write), (2, false, true, true));
    let b = finish_open_file(&mut c, &mut ids, "/srv/a/b.txt".into(), &plan, &stat(false, 0o644, 513));
    assert_eq!(b[0].params.len(), 68);
    assert_eq!(&b[0].params[5..11], &[0x00, 0x20, 2, 0, 0, 0]);
    assert_eq!(&b[0].params[47..55], &1024u64.to_le_bytes());
    assert_eq!(&b[0].params[55..63], &513u64.to_le_bytes());

    let mut w = [0u8; 24];
    w[4..6].copy_from_slice(&0x2000u16.to_le_bytes());
    w[6] = 10;
    w[10..12].copy_from_slice(&0xFFFFu16.to_le_bytes());
    w[20] = 1;
    match step(&s, &mut c, &mut ids, &message(COM_READ_ANDX, 0x1000, &w, b"")) {
        Step::Read(p) => assert_eq!((p.fid, p.offset, p.count), (0x2000, 0x1_0000_000A, 65_000)),
        _ => panic!("a read"),
    }
    let b = finish_read(b"hello");
    assert_eq!(&b[0].params[10..14], &[5, 0, 60, 0]);
    assert_eq!(b[0].bytes, b"\0hello");

    let mut w = [0u8; 28];
    w[4..6].copy_from_slice(&0x2000u16.to_le_bytes());
    w[14] = 1;
    w[22] = 5;
    w[24] = 63;
    match step(&s, &mut c, &mut ids, &message(COM_WRITE_ANDX, 0x1000, &w, b"hello")) {
        Step::Write(p) => assert_eq!((p.fid, p.offset, p.start, p.len, p.flush), (0x2000, 0, 63, 5, true)),
        _ => panic!("a write"),
    }
    let b = finish_write(5);
    assert_eq!(&b[0].params[4..6], &[5, 0]);

    let mut w = [0u8; 8];
    w[0..2].copy_from_slice(&0x2000u16.to_le_bytes());
    w[2] = 2;
    w[4..8].copy_from_slice(&(-4i32).to_le_bytes());
    match step(&s, &mut c, &mut ids, &message(COM_SEEK, 0x1000, &w, b"")) {
        Step::Seek(fid, from) => {
            assert_eq!(fid, 0x2000);
            assert!(matches!(from, SeekFrom::End(-4)));
        }
        _ => panic!("a seek"),
    }
    assert_eq!(finish_seek(9)[0].params, vec![9, 0, 0, 0]);

    match step(&s, &mut c, &mut ids, &message(COM_CLOSE, 0x1000, &[0x00, 0x20, 0, 0, 0, 0], b"")) {
        Step::Close(p, _) => {
            let h = p.handle.unwrap();
            assert_eq!(h.path, "/srv/a/b.txt");
            assert!(delete_when_closed(&h));
            assert_eq!(p.write_time, None);
        }
        _ => panic!("a close"),
    }
    assert!(c.handles.is_empty());
}

fn create_of(disposition: u32, options: u32) -> NtCreate {
    NtCreate { name: "x".into(), root_fid: 0, access: GENERIC_READ, disposition, options }
}

#[test]
fn dispositions_decide_what_is_done() {
    assert_eq!(nt_create(&create_of(DISP_OPEN, 0), false, false).err(), Some(Status::OBJECT_NAME_NOT_FOUND));
    let p = nt_create(&create_of(DISP_OVERWRITE, 0), true, false).unwrap();
    assert!(matches!(p.prepare, Prepare::Truncate));
    assert_eq!(p.action, 3);
    assert_eq!(
        nt_create(&create_of(DISP_OPEN, OPT_NON_DIRECTORY_FILE), true, true).err(),
        Some(Status::FILE_IS_A_DIRECTORY)
    );
    assert_eq!(
        nt_create(&create_of(DISP_OPEN, OPT_DIRECTORY_FILE), true, false).err(),
        Some(Status::FILE_IS_A_DIRECTORY)
    );
    assert_eq!(nt_create(&create_of(DISP_CREATE, 0), true, false).err(), Some(Status::OBJECT_NAME_COLLISION));
    assert_eq!(
        nt_create(&create_of(DISP_CREATE, OPT_DIRECTORY_FILE), true, true).err(),
        Some(Status::OBJECT_NAME_COLLISION)
    );
    let p = nt_create(&create_of(DISP_CREATE, 0), false, false).unwrap();
    assert!(matches!(p.prepare, Prepare::MakeFile));
    assert_eq!(p.action, 2);
    let p = nt_create(&create_of(DISP_OPEN_IF, 0), true, false).unwrap();
    assert!(matches!(p.prepare, Prepare::Nothing));
    assert_eq!(p.action, 1);
    let p = nt_create(&create_of(DISP_SUPERSEDE, 0), true, false).unwrap();
    assert!(matches!(p.prepare, Prepare::Truncate));
    assert_eq!(p.action, 0);
    let p = nt_create(&create_of(DISP_OVERWRITE_IF, 0), false, false).unwrap();
    assert!(matches!(p.prepare, Prepare::MakeFile));
    let p = nt_create(&create_of(DISP_CREATE, OPT_DIRECTORY_FILE), false, false).unwrap();
    assert!(matches!(p.prepare, Prepare::MakeDir));
    assert!(p.as_dir);
    assert_eq!(prepare_failure(Prepare::Truncate), Status::ACCESS_DENIED);
    assert_eq!(prepare_failure(Prepare::MakeFile), Status::OBJECT_PATH_NOT_FOUND);
}

#[test]
fn handles_guard_their_access() {
    let (s, mut c, mut ids) = connected();
    let mut w = [0u8; 24];
    w[4] = 9;
    let read = message(COM_READ_ANDX, 0x1000, &w, b"");
    assert_eq!(refusal(step(&s, &mut c, &mut ids, &read)), Status::INVALID_HANDLE);
    c.handles.insert(9, FileHandle { access_read: false, ..file("/srv/a") });
    assert_eq!(refusal(step(&s, &mut c, &mut ids, &read)), Status::ACCESS_DENIED);
    c.handles.insert(9, FileHandle { is_dir: true, ..file("/srv/a") });
    assert_eq!(refusal(step(&s, &mut c, &mut ids, &read)), Status::ACCESS_DENIED);
    c.handles.insert(9, FileHandle { has_file: false, ..file("/srv/a") });
    assert_eq!(refusal(step(&s, &mut c, &mut ids, &read)), Status::INVALID_HANDLE);
}

#[test]
fn renames_name_two_paths() {
    let (s, mut c, mut ids) = connected();
    let mut f = header(COM_RENAME, 0xC001, 0x1000);
    let mut data = vec![4];
    data.extend_from_slice(&encode_utf16_bytes("old\0"));
    data.push(4);
    data.extend_from_slice(&encode_utf16_bytes("\0"));
    f.extend_from_slice(&body(&[0, 0], &data));
    assert_eq!(refusal(step(&s, &mut c, &mut ids, &f)), Status::INVALID_PARAMETER);
    let plain = header(COM_RENAME, 0x4001, 0x1000);
    for data in [&b"\x04old\0\x04new\0"[..], b"old\0new\0"] {
        let mut f = plain.clone();
        f.extend_from_slice(&body(&[0, 0], data));
        match step(&s, &mut c, &mut ids, &f) {
            Step::Rename(p) => assert_eq!((p.from.as_str(), p.to.as_str()), ("old", "new")),
            _ => panic!("a rename"),
        }
    }
    assert_eq!(finish_rename_paths(false, None).err(), Some(Status::OBJECT_NAME_NOT_FOUND));
    assert_eq!(finish_rename_paths(true, Some(IoKind::AlreadyExists)).err(), Some(Status::OBJECT_NAME_COLLISION));
    assert!(finish_rename_paths(true, None).is_ok());
}

#[test]
fn failures_on_paths_have_their_codes() {
    assert_eq!(finish_create_directory(Some(IoKind::AlreadyExists)).err(), Some(Status::OBJECT_NAME_COLLISION));
    assert_eq!(finish_create_directory(Some(IoKind::Other(Some(5)))).err(), Some(Status::OBJECT_PATH_NOT_FOUND));
    assert_eq!(finish_delete_directory(Some(IoKind::DirectoryNotEmpty)).err(), Some(Status::DIRECTORY_NOT_EMPTY));
    assert_eq!(finish_delete_directory(Some(IoKind::NotFound)).err(), Some(Status::OBJECT_PATH_NOT_FOUND));
    assert_eq!(finish_delete_directory(Some(IoKind::Other(Some(5)))).err(), Some(Status::ACCESS_DENIED));
    assert_eq!(finish_check_directory(false).err(), Some(Status::OBJECT_PATH_NOT_FOUND));
    assert!(finish_check_directory(true).is_ok());
    assert_eq!(may_delete(None), Err(Status::OBJECT_NAME_NOT_FOUND));
    assert_eq!(may_delete(Some(true)), Err(Status::FILE_IS_A_DIRECTORY));
    assert_eq!(may_delete(Some(false)), Ok(()));
    assert_eq!(finish_delete(0, None).err(), Some(Status::NO_SUCH_FILE));
    assert_eq!(finish_delete(1, Some(IoKind::PermissionDenied)).err(), Some(Status::ACCESS_DENIED));
    assert_eq!(map_io_err(IoKind::Other(Some(5))), Status::UNSUCCESSFUL);
    assert_eq!(finish_query_information(None).err(), Some(Status::OBJECT_NAME_NOT_FOUND));
    let b = finish_query_information(Some(stat(false, 0o444, 9))).unwrap();
    assert_eq!(&b[0].params[..10], &[0x21, 0, 3, 0, 0, 0, 9, 0, 0, 0]);
    assert_eq!(b[0].params.len(), 30);
}

#[test]
fn attributes_and_times_of_a_file() {
    assert_eq!(attrs_of(&stat(true, 0o755, 0)), ATTR_DIRECTORY);
    assert_eq!(attrs_of(&stat(false, 0o444, 0)), ATTR_ARCHIVE | ATTR_READONLY);
    assert_eq!(attrs_of(&stat(false, 0o644, 0)), ATTR_ARCHIVE);
    let epoch = 116_444_736_000_000_000u64;
    assert_eq!(times_of(&stat(false, 0, 0)), [epoch + 10_000_000, epoch + 20_000_000, epoch + 30_000_000, epoch + 10_000_000]);
}

fn trans2(sub: u16, params: &[u8]) -> Vec<u8> {
    let mut w = [0u8; 30];
    w[18..20].copy_from_slice(&(params.len() as u16).to_le_bytes());
    w[20] = 65;
    w[26] = 1;
    w[28] = sub as u8;
    message(COM_TRANSACTION2, 0x1000, &w, params)
}

#[test]
fn file_system_sizes_are_reported() {
    let (s, mut c, mut ids) = connected();
    let (_, b) = reply(step(&s, &mut c, &mut ids, &trans2(TRANS2_QUERY_FS_INFO, &FS_SIZE_INFO.to_le_bytes())));
    assert_eq!(&b[0].params[2..4], &[24, 0]);
    assert_eq!(&b[0].params[12..16], &[24, 0, 56, 0]);
    assert_eq!(&b[0].bytes[1..9], &1_048_576u64.to_le_bytes());
    assert_eq!(refusal(step(&s, &mut c, &mut ids, &trans2(TRANS2_QUERY_FS_INFO, &[9, 9]))), Status::INVALID_PARAMETER);
    assert_eq!(refusal(step(&s, &mut c, &mut ids, &trans2(0x55, &[9, 9]))), Status::INVALID_PARAMETER);
}

#[test]
fn a_search_is_begun_and_continued() {
    let (s, mut c, mut ids) = connected();
    let mut p = vec![0x16, 0, 1, 0, 0, 0];
    p.extend_from_slice(&FIND_INFO_NAMES.to_le_bytes());
    p.extend_from_slice(&[0; 4]);
    p.extend_from_slice(b"\\sub\\*.TXT\0");
    let plan = match step(&s, &mut c, &mut ids, &trans2(TRANS2_FIND_FIRST2, &p)) {
        Step::FindFirst(p) => p,
        _ => panic!("a search"),
    };
    assert_eq!((plan.dir.as_str(), plan.name_pat.as_str(), plan.wild, plan.count), ("sub", "*.TXT", true, 1));
    assert!(find_step(&plan, false, true).is_ok());
    assert_eq!(find_step(&plan, false, false).err(), Some(Status::OBJECT_PATH_NOT_FOUND));
    let names = vec!["b.txt".to_string(), "c.doc".to_string(), "A.txt".to_string()];
    let sel = select_names(&names, &plan.name_pat, plan.count);
    assert_eq!(sel.now, vec!["A.txt".to_string()]);
    assert_eq!(sel.later, vec!["b.txt".to_string()]);
    let found = vec![Found { name: "A.txt".into(), stat: Some(stat(false, 0o644, 3)) }];
    let b = finish_find_first(&mut c, &mut ids, &plan, "/srv/sub".into(), sel.later, &found, false);
    assert_eq!(&b.bytes[1..7], &[1, 0, 1, 0, 0, 0]);
    assert_eq!(c.searches.get(&1).unwrap().queue, vec!["b.txt".to_string()]);
}

#[test]
fn entries_that_vanished_are_left_out() {
    let found = vec![
        Found { name: "gone".into(), stat: None },
        Found { name: "a".into(), stat: Some(stat(false, 0o644, 3)) },
    ];
    let (b, last) = encode_entries(&found, FIND_INFO_NAMES, true);
    assert_eq!(last, 0);
    assert_eq!(&b[..8], &[16, 0, 0, 0, 0, 0, 0, 0]);
    assert_eq!(&b[40..46], &[2, 0, 0, 0, b'a', 0]);
}

#[test]
fn information_levels() {
    let st = stat(false, 0o644, 5000);
    let b = encode_query_info(QL_PT_STANDARD, &st, "n").unwrap();
    assert_eq!(&b.bytes[1..9], &8192u64.to_le_bytes());
    assert_eq!(&b.bytes[9..17], &5000u64.to_le_bytes());
    assert_eq!(&b.bytes[17..25], &[1, 0, 0, 0, 0, 0, 0, 0]);
    let b = encode_query_info(QL_PT_INTERNAL, &st, "n").unwrap();
    assert_eq!(&b.bytes[1..], &77u64.to_le_bytes());
    assert_eq!(encode_query_info(0x9999, &st, "n").err(), Some(Status::INVALID_PARAMETER));
}

#[test]
fn paths_stay_below_their_root() {
    assert_eq!(path_components("..\\a//./C:\\b/.."), vec!["a".to_string(), "b".to_string()]);
    let looks = vec![
        Lookup { exists_as_is: true, names: vec![] },
        Lookup { exists_as_is: false, names: vec!["x".to_string(), "B".to_string()] },
    ];
    assert_eq!(resolve_path("/srv", "..\\a/b", &looks), "/srv/a/B");
    assert_eq!(fix_component("q", false, &vec!["r".to_string()]), "q");
    assert_eq!(join_path("/srv", "a"), "/srv/a");
    assert_eq!(split_slashes("a/b\\"), vec!["a".to_string(), "b".to_string(), String::new()]);
}

#[test]
fn patterns_match_as_in_dos() {
    assert!(wildcard_match("report.txt", "*.txt"));
    assert!(wildcard_match("abc", "a?c"));
    assert!(wildcard_match("", "*"));
    assert!(!wildcard_match("abc", "a?"));
    assert!(!wildcard_match("", "?"));
    assert_eq!(split_pattern("\\a\\b\\*.c"), ("a\\b".to_string(), "*.c".to_string()));
    assert_eq!(split_pattern("/x"), (String::new(), "x".to_string()));
    let names = vec!["B.TXT".to_string(), "a.txt".to_string(), "c".to_string()];
    assert_eq!(matching_names(&names, "*.Txt"), vec!["B.TXT".to_string(), "a.txt".to_string()]);
}

#[test]
fn text_survives_its_encoding() {
    let s = "a\u{e9}\u{1F600}";
    assert_eq!(decode_utf16_bytes(&encode_utf16_bytes(s)), s);
    assert_eq!(encode_utf16_bytes("a\u{1F600}"), vec![b'a', 0, 0x3D, 0xD8, 0x00, 0xDE]);
    assert_eq!(from_utf16_lossy(&[0x61, 0xD800, 0x62]), "a\u{FFFD}b");
}

#[test]
fn codes_and_times_round_trip() {
    for code in [0u32, 0xC000_0022, 0xC000_0034, 0x1234_5678] {
        assert_eq!(Status::from_raw(code).raw(), code);
    }
    assert_eq!(Status::from_raw(0xC000_0022), Status::ACCESS_DENIED);
    let ft = unix_to_filetime(1_700_000_000, 123_456_700);
    assert_eq!(ft, 133_444_736_001_234_567);
    assert_eq!(filetime_to_unix(ft), (1_700_000_000, 123_456_700));
}

#[test]
fn ids_skip_what_is_reserved() {
    let mut ids = Ids { uid: 0xFFFF, tid: 0, fid: 0xFFFF, sid: 0 };
    assert_eq!(next_uid(&mut ids), 1);
    assert_eq!(next_tid(&mut ids), 1);
    assert_eq!(next_fid(&mut ids), 0);
    assert_eq!(next_fid(&mut ids), 1);
}

#[test]
fn long_session_frames_round_trip() {
    for n in [65_535usize, 65_536, 0x1_FFFE] {
        let s = nbss::write_frame(&vec![7; n]).unwrap();
        assert_eq!(s[..4], [0, (n >> 16) as u8, (n >> 8) as u8, n as u8]);
        let mut pos = 0;
        match nbss::read_frame(&s, &mut pos) {
            Ok(Some(nbss::Frame::Message(m))) => assert_eq!(m.len(), n),
            _ => panic!("a message"),
        }
        assert_eq!(pos, s.len());
    }
}

#[test]
fn session_frames_round_trip() {
    let mut s = nbss::positive_response().to_vec();
    s.extend_from_slice(&[0x81, 0, 0, 2, 1, 1]);
    s.extend_from_slice(&nbss::write_frame(b"message").unwrap());
    s.extend_from_slice(&[0, 0, 0, 9, 1]);
    let mut pos = 0;
    assert!(matches!(nbss::read_frame(&s, &mut pos), Ok(Some(nbss::Frame::Keepalive))));
    assert!(matches!(nbss::read_frame(&s, &mut pos), Ok(Some(nbss::Frame::SessionRequest))));
    match nbss::read_frame(&s, &mut pos) {
        Ok(Some(nbss::Frame::Message(m))) => assert_eq!(m, b"message"),
        _ => panic!("a message"),
    }
    assert!(matches!(nbss::read_frame(&s, &mut pos), Ok(None)));
    let mut pos = 0;
    assert!(matches!(nbss::read_frame(&[0x81, 0, 0, 2, 1], &mut pos), Err(nbss::FrameError::UnexpectedEof)));
    assert_eq!(nbss::write_frame(&vec![0; 0x1_FFFF]).err(), Some(nbss::FrameError::TooLarge));
}

#[test]
fn wire_frames_round_trip() {
    let mut s = vec![0x85, 0, 0, 0];
    s.extend_from_slice(&transport::write_nbss_frame(&vec![5; 70_000]));
    s.extend_from_slice(&transport::write_nbss_frame(b"next"));
    assert_eq!(&s[4..8], &[0, 1, 0x11, 0x70]);
    let mut pos = 0;
    assert_eq!(transport::read_nbss_frame(&s, &mut pos).unwrap().0, vec![5; 70_000]);
    assert_eq!(transport::read_nbss_frame(&s, &mut pos).unwrap().0, b"next");
    assert!(transport::read_nbss_frame(&s, &mut pos).is_none());
    assert_eq!(transport::plan_recv(&[0x81, 1, 0, 2]), transport::RecvPlan::Answer(0x1_0002));
    assert_eq!(transport::plan_recv(&[0x85, 0, 0, 2]), transport::RecvPlan::Ignore);
    assert_eq!(transport::plan_source(&[0, 0, 1, 2]), (true, 0x102));
}
