use std::collections::HashMap;

use rustsmb::backend1::{classify, decode_set_op, delete, finish_delete, finish_path, is_upgrade, join_rel, query_info_legacy, read_path, rename, request_views, wants_compression, DeleteStep, FrameKind, IpcVfs, Operation};
use rustsmb::opens1::{accept_open, close, finish_close, finish_create, finish_flush, finish_read_andx, finish_seek_at, finish_write_andx, flush, nt_create, read_andx, seek, write_andx, CloseReq, CreateReq, FlushStep, ReadReq, SeekReq, WriteReq};
use rustsmb::options::{parse_runner_args, resolve_driver, resolve_endpoint, Driver, Endpoint, RunnerCommand, RunnerOptions};
use rustsmb::report::{badge, summary_line, CaseStatus, RunReport};
use rustsmb::smb::{Status, COM_CLOSE, COM_CREATE_DIRECTORY, COM_DELETE, COM_FLUSH, COM_NT_CREATE_ANDX, COM_RENAME, OPT_DELETE_ON_CLOSE, OPT_DIRECTORY_FILE, OPT_NON_DIRECTORY_FILE, SL_DISPOSITION, SL_EOF};
use rustsmb::state::Ids;
use rustsmb::subcalls1::{dispatch_trans2, find_params, matching_entries, SubCall, SubPlan};
use rustsmb::vfs::{map_io, vfs_err, Entry, FileMeta, IoKind, OpenFile, SetOp, VfsError};

fn frame(command: u8, words: &[u8], data: &[u8]) -> Vec<u8> {
    let mut b = vec![0xFF, b'S', b'M', b'B', command];
    b.extend_from_slice(&[0; 5]);
    b.extend_from_slice(&0x4001u16.to_le_bytes());
    b.extend_from_slice(&[0; 20]);
    b.push((words.len() / 2) as u8);
    b.extend_from_slice(words);
    b.extend_from_slice(&(data.len() as u16).to_le_bytes());
    b.extend_from_slice(data);
    b
}

fn open(is_dir: bool) -> OpenFile {
    OpenFile {
        path: "/srv/a".into(),
        rel: "a".into(),
        is_dir,
        can_read: true,
        can_write: false,
        delete_on_close: false,
        delete_pending: false,
        inner: 0,
    }
}

fn meta() -> FileMeta {
    FileMeta { times: [0; 4], attrs: 0x20, alloc: 512, eof: 9, is_dir: false }
}

#[test]
fn frames_are_told_apart() {
    assert!(matches!(classify(b"abc", false), FrameKind::Ignored));
    assert!(matches!(classify(b"\xFFSMB", false), FrameKind::Plain1));
    assert!(matches!(classify(b"\xFFSMB", true), FrameKind::Message2));
    assert!(matches!(classify(b"\xFESMB", false), FrameKind::Message2));
    assert!(matches!(classify(b"\xFDSMB", false), FrameKind::Message2));
    assert!(matches!(classify(b"\xFCSMB", false), FrameKind::Compressed2));
    assert!(wants_compression(true, &[0xFE; 1025]));
    assert!(!wants_compression(true, &[0xFE; 1024]));
    assert!(!wants_compression(true, &[0xFD; 1025]));
    assert!(!wants_compression(false, &[0xFE; 1025]));
}

#[test]
fn a_dialect_offer_can_ask_for_the_newer_protocol() {
    assert!(is_upgrade(&frame(0x72, &[], b"\x02NT LM 0.12\0\x02SMB 2.???\0")));
    assert!(!is_upgrade(&frame(0x72, &[], b"\x02NT LM 0.12\0")));
}

#[test]
fn paths_are_read_from_requests() {
    let f = frame(COM_CREATE_DIRECTORY, &[], b"\x04\\a\\b\0");
    let v = request_views(&f).unwrap();
    assert_eq!(v.len(), 1);
    assert!(!v[0].unicode());
    assert_eq!(read_path(&v[0]), "\\a\\b");
    let f = frame(COM_DELETE, &[0, 0], b"\x04\\a\\*.txt\0");
    let v = request_views(&f).unwrap();
    assert!(matches!(
        delete(&v[0]),
        DeleteStep::Pattern { dir, pattern } if dir == "a" && pattern == "*.txt"
    ));
    let f = frame(COM_RENAME, &[0, 0], b"\x04old\0\x04\0");
    let v = request_views(&f).unwrap();
    assert_eq!(rename(&v[0]), Err(Status::INVALID_PARAMETER));
    assert_eq!(join_rel("a", "b"), "a\\b");
    assert_eq!(join_rel("", "b"), "b");
}

#[test]
fn failures_of_the_backend_have_their_codes() {
    assert_eq!(vfs_err(&map_io(IoKind::NotFound)), Status::OBJECT_PATH_NOT_FOUND);
    assert_eq!(vfs_err(&VfsError::AlreadyExists), Status::OBJECT_NAME_COLLISION);
    assert_eq!(vfs_err(&VfsError::AccessDenied), Status::ACCESS_DENIED);
    assert_eq!(vfs_err(&VfsError::InvalidArgument), Status::INVALID_PARAMETER);
    assert_eq!(vfs_err(&VfsError::Io(IoKind::Other(None))), Status::UNSUCCESSFUL);
    assert!(matches!(map_io(IoKind::Other(Some(28))), VfsError::Io(IoKind::Other(Some(28)))));
    assert!(matches!(map_io(IoKind::DirectoryNotEmpty), VfsError::DirectoryNotEmpty));
    assert_eq!(finish_path(COM_CREATE_DIRECTORY, Some(VfsError::NotFound)).err(), Some(Status::OBJECT_PATH_NOT_FOUND));
    assert_eq!(finish_path(COM_CREATE_DIRECTORY, None).unwrap()[0].command, COM_CREATE_DIRECTORY);
    assert_eq!(finish_delete(Ok(false)).err(), Some(Status::NO_SUCH_FILE));
    assert!(finish_delete(Ok(true)).is_ok());
    assert_eq!(query_info_legacy(Err(VfsError::NotFound)).err(), Some(Status::OBJECT_PATH_NOT_FOUND));
    assert!(query_info_legacy(Ok(meta())).is_ok());
}

fn create_req(root_fid: u32, options: u32) -> Option<CreateReq> {
    Some(CreateReq { root_fid, name: "\\x".into(), access: 0, disposition: 1, options, attrs: 0 })
}

#[test]
fn opens_carry_their_access() {
    let mut handles = HashMap::new();
    let q = ReadReq { fid: 3, offset: 8, max_count: 16 };
    assert_eq!(read_andx(None, &handles), Err(Status::INVALID_PARAMETER));
    assert_eq!(read_andx(Some(q), &handles), Err(Status::INVALID_HANDLE));
    handles.insert(3, open(false));
    handles.insert(4, open(true));
    assert_eq!(read_andx(Some(q), &handles), Ok(q));
    assert_eq!(read_andx(Some(ReadReq { fid: 4, ..q }), &handles), Err(Status::ACCESS_DENIED));
    let w = WriteReq { fid: 3, offset: 0, payload: vec![1], write_through: false };
    assert_eq!(write_andx(Ok(w), &handles).err(), Some(Status::ACCESS_DENIED));
    assert_eq!(write_andx(Err(Status::INVALID_PARAMETER), &handles).err(), Some(Status::INVALID_PARAMETER));
    let mut o = open(false);
    o.can_write = true;
    handles.insert(5, o);
    let w = WriteReq { fid: 5, offset: 2, payload: vec![1, 2], write_through: true };
    let w = write_andx(Ok(w), &handles).unwrap();
    assert_eq!((w.offset, w.payload, w.write_through), (2, vec![1, 2], true));
}

#[test]
fn opens_are_planned_below_their_root() {
    let mut trees = HashMap::new();
    trees.insert(1u16, "ipc$".to_string());
    trees.insert(2u16, "public".to_string());
    let mut handles = HashMap::new();
    handles.insert(7u16, open(true));
    assert_eq!(nt_create(&trees, &handles, 1, &create_req(0, 0)).err(), Some(Status::OBJECT_NAME_NOT_FOUND));
    assert_eq!(nt_create(&trees, &handles, 2, &None).err(), Some(Status::INVALID_PARAMETER));
    assert_eq!(nt_create(&trees, &handles, 2, &create_req(8, 0)).err(), Some(Status::INVALID_HANDLE));
    let s = nt_create(&trees, &handles, 2, &create_req(0, OPT_DIRECTORY_FILE)).unwrap();
    assert_eq!((s.rel.as_str(), s.want_dir), ("x", true));
    let s = nt_create(&trees, &handles, 2, &create_req(7, 0)).unwrap();
    assert_eq!((s.rel.as_str(), s.want_dir), ("/srv/a\\x", false));
    let s = nt_create(&trees, &handles, 2, &create_req(0x1_0007, 0)).unwrap();
    assert_eq!(s.rel, "x");
}

#[test]
fn an_open_lives_until_its_close() {
    let mut handles = HashMap::new();
    let mut ids = Ids::new();
    let refused = finish_create(&mut handles, &mut ids, OPT_NON_DIRECTORY_FILE, Ok((open(true), meta(), 1)));
    assert_eq!(refused.err(), Some(Status::FILE_IS_A_DIRECTORY));
    let failed = finish_create(&mut handles, &mut ids, 0, Err(VfsError::AlreadyExists));
    assert_eq!(failed.err(), Some(Status::OBJECT_NAME_COLLISION));
    assert!(handles.is_empty());
    let b = finish_create(&mut handles, &mut ids, OPT_DELETE_ON_CLOSE, Ok((open(false), meta(), 2))).unwrap();
    assert_eq!(b[0].command, COM_NT_CREATE_ANDX);
    let fid = u16::from_le_bytes([b[0].params[5], b[0].params[6]]);
    assert_eq!(b[0].params[7..11], 2u32.to_le_bytes());
    assert!(handles[&fid].delete_on_close);
    assert_eq!(seek(Some(SeekReq { fid, mode: 0, offset: 4 }), &handles).unwrap().offset, 4);
    assert_eq!(flush(Some(fid), &handles), Ok(FlushStep::One(fid)));
    assert_eq!(flush(Some(0xFFFF), &handles), Ok(FlushStep::All));
    let c = close(Some(CloseReq { fid, mtime: 1 }), &mut handles).unwrap();
    assert_eq!(c.write_time, Some(116_444_736_010_000_000));
    assert!(handles.is_empty());
    assert_eq!(close(Some(CloseReq { fid, mtime: 0 }), &mut handles).err(), Some(Status::INVALID_HANDLE));
    assert_eq!(close(None, &mut handles).err(), Some(Status::INVALID_PARAMETER));
    assert_eq!(flush(Some(fid), &handles), Ok(FlushStep::Nothing));
    assert_eq!(flush(None, &handles), Err(Status::INVALID_PARAMETER));
    assert_eq!(seek(Some(SeekReq { fid, mode: 0, offset: 4 }), &handles), Err(Status::INVALID_HANDLE));
    assert_eq!(seek(None, &handles), Err(Status::INVALID_PARAMETER));
    assert!(accept_open(open(false), OPT_NON_DIRECTORY_FILE).is_ok());
}

#[test]
fn backend_results_are_answered() {
    assert_eq!(finish_close(None).unwrap()[0].command, COM_CLOSE);
    assert_eq!(finish_close(Some(VfsError::DirectoryNotEmpty)).err(), Some(Status::DIRECTORY_NOT_EMPTY));
    assert_eq!(finish_flush(None).unwrap()[0].command, COM_FLUSH);
    let b = finish_read_andx(Ok(vec![7, 8])).unwrap();
    assert_eq!(b[0].bytes, vec![0, 7, 8]);
    assert_eq!(finish_read_andx(Err(VfsError::AccessDenied)).err(), Some(Status::ACCESS_DENIED));
    let b = finish_write_andx(Ok(0x1_0005)).unwrap();
    assert_eq!(b[0].params[4..6], [5, 0]);
    assert_eq!(finish_write_andx(Err(VfsError::NotFound)).err(), Some(Status::OBJECT_PATH_NOT_FOUND));
    let b = finish_seek_at(Ok(0x1_0000_0009)).unwrap();
    assert_eq!(b[0].params, vec![9, 0, 0, 0]);
    assert_eq!(finish_seek_at(Err(VfsError::NotSupported)).err(), Some(Status::NOT_IMPLEMENTED));
}

#[test]
fn changes_are_read_from_their_data() {
    assert!(matches!(decode_set_op(SL_EOF, &9u64.to_le_bytes()), Ok(SetOp::EndOfFile(9))));
    assert!(matches!(decode_set_op(SL_DISPOSITION, &[1]), Ok(SetOp::Disposition { delete: true })));
    assert_eq!(decode_set_op(0x7777, &[1]).err(), Some(Status::INVALID_PARAMETER));
}

#[test]
fn the_pipe_share_stores_nothing() {
    assert!(matches!(IpcVfs.answer(Operation::Create), Err(VfsError::AccessDenied)));
    assert!(matches!(IpcVfs.answer(Operation::Close), Ok(())));
    assert!(matches!(IpcVfs.answer(Operation::Stat), Err(VfsError::NotFound)));
    assert!(matches!(IpcVfs.answer(Operation::Seek), Err(VfsError::NotSupported)));
}

fn call(subcmd: u16, params: &[u8], connected: bool) -> Result<SubPlan, Status> {
    let q = SubCall { subcmd, params, data: &[], unicode: false, param_base: 0 };
    dispatch_trans2(&q, connected, &HashMap::new(), &HashMap::new(), 77)
}

#[test]
fn subcalls_are_planned() {
    match call(3, &0x103u16.to_le_bytes(), true) {
        Ok(SubPlan::Fs(d)) => {
            assert_eq!(&d[..8], &1_048_576u64.to_le_bytes());
            assert_eq!(d.len(), 24);
        }
        _ => panic!("information"),
    }
    assert!(matches!(call(3, &[1], true), Err(Status::INVALID_PARAMETER)));
    assert!(matches!(call(2, &[0; 12], true), Err(_)));
    let entries = vec![
        Entry { name: "b.TXT".into(), meta: meta() },
        Entry { name: "c".into(), meta: meta() },
        Entry { name: "a.txt".into(), meta: meta() },
    ];
    let v = matching_entries(entries, "*.txt");
    assert!(v.iter().any(|e| e.name == "b.TXT") && v.iter().any(|e| e.name == "a.txt"));
    assert_eq!(v.len(), 2);
    assert_eq!(find_params(1, 2, true, 3), vec![1, 0, 2, 0, 1, 0, 0, 0, 3, 0]);
}

fn options(a: &[&str]) -> RunnerOptions {
    match parse_runner_args(&a.iter().map(|s| s.to_string()).collect()) {
        RunnerCommand::Run(o) => o,
        _ => panic!("a run"),
    }
}

#[test]
fn arguments_go_before_the_environment() {
    let e = resolve_endpoint(&options(&[]), None);
    assert_eq!((e.host.as_str(), e.port, e.user.as_str(), e.share.as_str()), ("127.0.0.1", 445, "faraz", "public"));
    let env = || Endpoint {
        host: "h".into(),
        port: 7,
        user: "u".into(),
        pass: "p".into(),
        share: "s".into(),
    };
    let e = resolve_endpoint(&options(&["--host", "x", "--share", "y"]), Some(env()));
    assert_eq!((e.host.as_str(), e.port, e.pass.as_str(), e.share.as_str()), ("x", 7, "p", "y"));
    let e = resolve_endpoint(&options(&["--host", "x", "--start-server"]), Some(env()));
    assert_eq!(e.host, "127.0.0.1");
    let d = resolve_driver(&options(&["--driver", "d.py"]), Driver { python: "py".into(), script: "s.py".into() });
    assert_eq!((d.python.as_str(), d.script.as_str()), ("py", "d.py"));
}

#[test]
fn a_run_is_summed_up_in_a_line() {
    let r = RunReport::build(Vec::new(), "abcdefabcdefabc".into(), "0.1".into(), "h".into(), 5);
    assert_eq!(summary_line(&r, "0.0000"), "5-abcdefabcdef,5,abcdefabcdef,0.1,0,0,0,0,0,0,0.0000\n");
    assert_eq!(badge(CaseStatus::Error), "ERR ");
}
