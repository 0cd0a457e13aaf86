use rustsmb::app_instances::AppInstanceTable;
use rustsmb::conn2::{Server2, Share2, Smb2Conn};
use rustsmb::create2::{finish_create, notice_message, plan_create, CreateDone, CreatePlan, OpenResult};
use rustsmb::durable2::{check_reconnect, durable_reconnect, end_connection};
use rustsmb::frame2::CMD_OPLOCK_BREAK;
use rustsmb::idmap::IdMap;
use rustsmb::ioctl2::{plan_copychunk, FSCTL_SRV_COPYCHUNK, MAX_CHUNK_SIZE};
use rustsmb::leases::{LeaseTable, OplockTable};
use rustsmb::locks::LockManager;
use rustsmb::reply2::{LEASE_RH, LEASE_RWH, OPLOCK_BATCH, OPLOCK_EXCLUSIVE, OPLOCK_LEASE, OPLOCK_NONE};
use rustsmb::sessions::SessionTable;
use rustsmb::share_modes::ShareModeTable;
use rustsmb::smb::Status;
use rustsmb::tables::TextMap;
use rustsmb::vfs::{FileMeta, OpenFile};
use rustsmb::wire2::{CreateReq, IoctlReq, CTX_DURABLE_V2, CTX_LEASE, CTX_RECONNECT_V2};

const ACCESS: u32 = 0x8000_0000 | 0x4000_0000;
const SHARE_ALL: u32 = 0x7;

fn server_with_share() -> Server2 {
    let mut shares = TextMap::new();
    shares.insert(
        "public".to_string(),
        Share2 {
            name: "public".into(),
            root: "/srv".into(),
            is_ipc: false,
            encrypt: false,
            compress: false,
            ca: false,
        },
    );
    Server2 {
        shares,
        guid: [0; 16],
        domain: "W".into(),
        server_name: "R".into(),
        users: TextMap::new(),
        allow_guest: true,
        require_signing: false,
        encrypt: false,
        locks: LockManager::new(),
        share_modes: ShareModeTable::new(),
        oplocks: OplockTable::new(),
        leases: LeaseTable::new(),
        sessions: SessionTable::new(),
        app_instances: AppInstanceTable::new(),
        client_dialects: IdMap::new(),
        next_session_id: 1,
        next_file_id: 1,
        next_tree_id: 1,
        next_resume_nonce: 1,
    }
}

fn conn(id: u64, session_id: u64) -> Smb2Conn {
    let mut c = Smb2Conn::new(id, [0u8; 8]);
    c.session_id = session_id;
    c
}

fn opened(name: &str) -> OpenResult {
    let path = "/srv/".to_string() + name;
    OpenResult::Opened(
        OpenFile {
            path,
            rel: name.to_string(),
            is_dir: false,
            can_read: true,
            can_write: true,
            delete_on_close: false,
            delete_pending: false,
            inner: 0,
        },
        FileMeta { times: [0; 4], attrs: 0x20, alloc: 4096, eof: 4, is_dir: false },
        1,
    )
}

fn create(server: &mut Server2, c: &mut Smb2Conn, frame: &[u8]) -> CreateDone {
    let req = CreateReq::parse(frame).expect("whole create");
    match plan_create(&req) {
        CreatePlan::Open { rel, want_dir } => {
            assert!(!want_dir);
            finish_create(server, c, &req, &rel, false, false, opened(&rel))
        }
        _ => panic!("the create opens a file"),
    }
}

fn create_request(name: &str, oplock: u8, access: u32, share: u32) -> Vec<u8> {
    let name16: Vec<u8> = name.encode_utf16().flat_map(|u| u.to_le_bytes()).collect();
    let name_off = 64 + 56;
    let mut body = vec![0u8; 56];
    body[0..2].copy_from_slice(&57u16.to_le_bytes());
    body[3] = oplock;
    body[24..28].copy_from_slice(&access.to_le_bytes());
    body[32..36].copy_from_slice(&share.to_le_bytes());
    body[36..40].copy_from_slice(&1u32.to_le_bytes());
    body[44..46].copy_from_slice(&(name_off as u16).to_le_bytes());
    body[46..48].copy_from_slice(&(name16.len() as u16).to_le_bytes());
    let mut f = vec![0u8; 64];
    f.extend_from_slice(&body);
    f.extend_from_slice(&name16);
    f
}

fn create_req_ctx(name: &str, access: u32, disp: u32, ctx_name: &[u8], ctx_data: &[u8]) -> Vec<u8> {
    let name16: Vec<u8> = name.encode_utf16().flat_map(|u| u.to_le_bytes()).collect();
    let name_off = 64 + 56;
    let name_end = name_off + name16.len();
    let pad = (8 - name_end % 8) % 8;
    let ctx_off = name_end + pad;

    let data_off = (16 + ctx_name.len()).next_multiple_of(8);
    let mut ctx = Vec::new();
    ctx.extend_from_slice(&0u32.to_le_bytes());
    ctx.extend_from_slice(&16u16.to_le_bytes());
    ctx.extend_from_slice(&(ctx_name.len() as u16).to_le_bytes());
    ctx.extend_from_slice(&0u16.to_le_bytes());
    ctx.extend_from_slice(&(data_off as u16).to_le_bytes());
    ctx.extend_from_slice(&(ctx_data.len() as u32).to_le_bytes());
    ctx.extend_from_slice(ctx_name);
    while ctx.len() < data_off {
        ctx.push(0);
    }
    ctx.extend_from_slice(ctx_data);

    let mut body = vec![0u8; 56];
    body[0..2].copy_from_slice(&57u16.to_le_bytes());
    body[24..28].copy_from_slice(&access.to_le_bytes());
    body[32..36].copy_from_slice(&0x7u32.to_le_bytes());
    body[36..40].copy_from_slice(&disp.to_le_bytes());
    body[44..46].copy_from_slice(&(name_off as u16).to_le_bytes());
    body[46..48].copy_from_slice(&(name16.len() as u16).to_le_bytes());
    body[48..52].copy_from_slice(&(ctx_off as u32).to_le_bytes());
    body[52..56].copy_from_slice(&(ctx.len() as u32).to_le_bytes());
    let mut f = vec![0u8; 64];
    f.extend_from_slice(&body);
    f.extend_from_slice(&name16);
    f.extend(std::iter::repeat(0u8).take(pad));
    f.extend_from_slice(&ctx);
    f
}

fn create_request_lease(name: &str, key: [u8; 16], state: u32, access: u32, share: u32) -> Vec<u8> {
    let mut data = Vec::new();
    data.extend_from_slice(&key);
    data.extend_from_slice(&state.to_le_bytes());
    data.extend_from_slice(&0u32.to_le_bytes());
    data.extend_from_slice(&0u64.to_le_bytes());
    let mut f = create_req_ctx(name, access, 1, &CTX_LEASE, &data);
    f[67] = OPLOCK_LEASE;
    f[96..100].copy_from_slice(&share.to_le_bytes());
    f
}

fn granted_state(resp: &[u8]) -> u32 {
    u32::from_le_bytes(resp[128..132].try_into().unwrap())
}

#[test]
fn oplock_granted_then_broken_on_second_open() {
    let mut server = server_with_share();
    let mut a = conn(10, 1);
    let done_a = create(&mut server, &mut a, &create_request("shared.bin", OPLOCK_BATCH, ACCESS, SHARE_ALL));
    assert!(done_a.notices.is_empty());
    let resp_a = done_a.result.unwrap();
    assert_eq!(resp_a[2], OPLOCK_EXCLUSIVE, "sole opener granted exclusive");

    let mut b = conn(20, 2);
    let done_b = create(&mut server, &mut b, &create_request("shared.bin", OPLOCK_NONE, ACCESS, SHARE_ALL));
    let resp_b = done_b.result.unwrap();
    assert_eq!(resp_b[2], OPLOCK_NONE, "contending open gets no oplock");

    assert_eq!(done_b.notices.len(), 1);
    let (to, _crypto, brk) = notice_message(&done_b.notices[0]);
    assert_eq!(to, 10, "break notification delivered to A");
    assert_eq!(u16::from_le_bytes([brk[12], brk[13]]), CMD_OPLOCK_BREAK, "frame is an OPLOCK_BREAK");
    assert_eq!(brk[64 + 2], OPLOCK_NONE, "broken down to NONE");
}

#[test]
fn lease_granted_then_broken_on_second_key() {
    let mut server = server_with_share();
    let k1 = [0x11u8; 16];
    let k2 = [0x22u8; 16];

    let mut a = conn(10, 1);
    let done_a = create(
        &mut server,
        &mut a,
        &create_request_lease("leased.bin", k1, LEASE_RWH, ACCESS, SHARE_ALL),
    );
    let resp_a = done_a.result.unwrap();
    assert_eq!(resp_a[2], OPLOCK_LEASE, "response is a lease grant");
    assert_eq!(granted_state(&resp_a), LEASE_RWH, "sole opener gets RWH");

    let mut b = conn(20, 2);
    let done_b = create(
        &mut server,
        &mut b,
        &create_request_lease("leased.bin", k2, LEASE_RWH, ACCESS, SHARE_ALL),
    );
    let resp_b = done_b.result.unwrap();
    assert_eq!(granted_state(&resp_b), LEASE_RH, "contender gets read+handle");

    assert_eq!(done_b.notices.len(), 1);
    let (to, _crypto, brk) = notice_message(&done_b.notices[0]);
    assert_eq!(to, 10, "lease break delivered to A");
    assert_eq!(u16::from_le_bytes([brk[12], brk[13]]), CMD_OPLOCK_BREAK, "break rides the OPLOCK_BREAK command");
    assert_eq!(u16::from_le_bytes([brk[64], brk[65]]), 44, "lease-break StructureSize");
    assert_eq!(&brk[72..88], &k1, "names holder A's lease key");
    assert_eq!(u32::from_le_bytes(brk[88..92].try_into().unwrap()), LEASE_RWH, "current");
    assert_eq!(u32::from_le_bytes(brk[92..96].try_into().unwrap()), LEASE_RH, "new");
}

#[test]
fn same_lease_key_reopen_does_not_break() {
    let mut server = server_with_share();
    let key = [0x55u8; 16];
    let mut a = conn(10, 1);
    let frame = create_request_lease("f.bin", key, LEASE_RWH, ACCESS, SHARE_ALL);
    let _ = create(&mut server, &mut a, &frame).result.unwrap();

    let mut b = conn(20, 2);
    let done_b = create(&mut server, &mut b, &frame);
    let resp_b = done_b.result.unwrap();
    assert_eq!(granted_state(&resp_b), LEASE_RWH, "same key keeps RWH");
    assert!(done_b.notices.is_empty(), "no break for same lease key");
}

#[test]
fn durable_grant_then_reconnect() {
    let mut server = server_with_share();
    let guid = [0x5Au8; 16];

    let mut dq = Vec::new();
    dq.extend_from_slice(&10_000u32.to_le_bytes());
    dq.extend_from_slice(&0u32.to_le_bytes());
    dq.extend_from_slice(&[0u8; 8]);
    dq.extend_from_slice(&guid);
    let mut frame = create_req_ctx("dur.bin", ACCESS, 1, &CTX_DURABLE_V2, &dq);
    frame[67] = OPLOCK_BATCH;

    let mut c1 = conn(10, 1);
    let resp = create(&mut server, &mut c1, &frame).result.unwrap();
    assert_ne!(u32::from_le_bytes(resp[80..84].try_into().unwrap()), 0, "durable resp ctx");
    assert_eq!(c1.durable.entries.len(), 1, "durable handle recorded");
    let pid: [u8; 16] = resp[64..80].try_into().unwrap();

    let mut kept = end_connection(&mut server, &mut c1, 1_000);
    assert_eq!(kept.len(), 1);
    let rec = Some(kept.remove(0));
    assert_eq!(rec.as_ref().unwrap().deadline_ms, 11_000);

    let mut dc = Vec::new();
    dc.extend_from_slice(&pid);
    dc.extend_from_slice(&guid);
    dc.extend_from_slice(&0u32.to_le_bytes());
    let rframe = create_req_ctx("dur.bin", 0x8000_0000, 1, &CTX_RECONNECT_V2, &dc);
    let mut c2 = conn(20, 2);
    let req = CreateReq::parse(&rframe).expect("whole create");
    let (id, g) = match plan_create(&req) {
        CreatePlan::Reconnect { id, guid } => (id, guid),
        _ => panic!("the create reclaims a handle"),
    };
    assert_eq!(id, pid);
    assert_eq!(g, Some(guid));
    assert_eq!(check_reconnect(&c2, &req, &g, &rec), None);
    let again = match opened("dur.bin") {
        OpenResult::Opened(o, m, _) => (o, m),
        _ => panic!("opened"),
    };
    let resp2 = durable_reconnect(&mut c2, id, true, &rec, Ok(again)).expect("reconnect");
    let rid: [u8; 16] = resp2[64..80].try_into().unwrap();
    assert_eq!(rid, pid, "reconnect returns the persistent id");
    assert!(c2.handles.contains(&pid), "handle reinstated on new connection");
}

#[test]
fn durable_reconnect_unknown_id_fails() {
    let mut dc = Vec::new();
    dc.extend_from_slice(&[0xEE; 16]);
    dc.extend_from_slice(&[0xEE; 16]);
    dc.extend_from_slice(&0u32.to_le_bytes());
    let rframe = create_req_ctx("x.bin", 0x8000_0000, 1, &CTX_RECONNECT_V2, &dc);
    let req = CreateReq::parse(&rframe).expect("whole create");
    let c = conn(10, 0);
    let guid = match plan_create(&req) {
        CreatePlan::Reconnect { id, guid } => {
            assert_eq!(id, [0xEE; 16]);
            guid
        }
        _ => panic!("the create reclaims a handle"),
    };
    assert_eq!(check_reconnect(&c, &req, &guid, &None), Some(Status::OBJECT_NAME_NOT_FOUND));
}

#[test]
fn another_user_does_not_reclaim_a_handle() {
    let mut server = server_with_share();
    let mut dq = vec![0u8; 16];
    dq[0] = 100;
    dq.extend_from_slice(&[0x5A; 16]);
    let mut frame = create_req_ctx("dur.bin", ACCESS, 1, &CTX_DURABLE_V2, &dq);
    frame[67] = OPLOCK_BATCH;
    let mut c1 = conn(10, 1);
    c1.user = "alice".into();
    let resp = create(&mut server, &mut c1, &frame).result.unwrap();
    let rec = Some(end_connection(&mut server, &mut c1, 0).remove(0));
    let mut dc = resp[64..80].to_vec();
    dc.extend_from_slice(&[0x5A; 16]);
    dc.extend_from_slice(&[0; 4]);
    let req = CreateReq::parse(&create_req_ctx("dur.bin", 0x8000_0000, 1, &CTX_RECONNECT_V2, &dc)).unwrap();
    let mut c2 = conn(20, 2);
    c2.user = "bob".into();
    assert_eq!(check_reconnect(&c2, &req, &Some([0x5A; 16]), &rec), Some(Status::ACCESS_DENIED));
    c2.user = "ALICE".into();
    assert_eq!(check_reconnect(&c2, &req, &Some([0x5A; 16]), &rec), None);
    assert_eq!(check_reconnect(&c2, &req, &Some([0x5B; 16]), &rec), Some(Status::OBJECT_NAME_NOT_FOUND));
}

fn chunk(source: u64, target: u64, length: u32) -> Vec<u8> {
    let mut v = Vec::new();
    v.extend_from_slice(&source.to_le_bytes());
    v.extend_from_slice(&target.to_le_bytes());
    v.extend_from_slice(&length.to_le_bytes());
    v.extend_from_slice(&0u32.to_le_bytes());
    v
}

fn copy_request(key: &[u8; 24], target: [u8; 16], chunks: &[Vec<u8>]) -> IoctlReq {
    let mut input = key.to_vec();
    input.extend_from_slice(&(chunks.len() as u32).to_le_bytes());
    input.extend_from_slice(&0u32.to_le_bytes());
    for c in chunks {
        input.extend_from_slice(c);
    }
    IoctlReq { ctl_code: FSCTL_SRV_COPYCHUNK, file_id: target, input, max_output: 4096 }
}

#[test]
fn copychunk_rejects_oversized_request() {
    let fid = [3u8; 16];
    let mut c = conn(10, 1);
    let mut key = [0u8; 24];
    key[..16].copy_from_slice(&fid);
    c.resume_keys.push((key, fid));
    let req = copy_request(&key, fid, &[chunk(0, 0, MAX_CHUNK_SIZE + 1)]);
    match plan_copychunk(&c, &req) {
        Err(err) => {
            assert_eq!(err.0, Status::INVALID_PARAMETER);
            assert_eq!(&err.1[4..8], &MAX_CHUNK_SIZE.to_le_bytes(), "limits echoed");
        }
        Ok(_) => panic!("too much is asked for"),
    }
}

#[test]
fn copychunk_copies_between_handles() {
    let (src_fid, dst_fid) = ([1u8; 16], [2u8; 16]);
    let mut c = conn(10, 1);
    for (fid, name) in [(src_fid, "src.txt"), (dst_fid, "dst.txt")] {
        if let OpenResult::Opened(o, _, _) = opened(name) {
            c.handles.insert(fid, o);
        }
    }
    let mut key = [0u8; 24];
    key[..16].copy_from_slice(&src_fid);
    c.resume_keys.push((key, src_fid));
    let source = b"hello copychunk world";
    let req = copy_request(&key, dst_fid, &[chunk(0, 0, 21)]);
    let mut run = match plan_copychunk(&c, &req) {
        Ok(run) => run,
        Err(_) => panic!("the copy starts"),
    };
    assert_eq!(run.source, src_fid);
    assert_eq!(run.target, dst_fid);
    let mut target: Vec<u8> = Vec::new();
    while let Some(k) = run.next_chunk(&c).unwrap() {
        let from = k.source_offset as usize;
        target.extend_from_slice(&source[from..from + k.length as usize]);
        run.record(k.length);
    }
    let out = run.output();
    assert_eq!(&out[0..4], &1u32.to_le_bytes(), "ChunksWritten");
    assert_eq!(&out[8..12], &21u32.to_le_bytes(), "TotalBytesWritten");
    assert_eq!(target, source);
}

#[test]
fn a_copy_with_an_unknown_key_is_refused() {
    let c = conn(10, 1);
    match plan_copychunk(&c, &copy_request(&[9; 24], [2; 16], &[chunk(0, 0, 1)])) {
        Err(err) => assert_eq!(err.0, Status::OBJECT_NAME_NOT_FOUND),
        Ok(_) => panic!("no such key"),
    }
}

#[test]
fn a_create_that_walks_up_is_refused() {
    let req = CreateReq::parse(&create_request("a\\..\\..\\etc", 0, ACCESS, SHARE_ALL)).unwrap();
    match plan_create(&req) {
        CreatePlan::Refuse(s) => assert_eq!(s, Status::INVALID_PARAMETER),
        _ => panic!("refused"),
    }
}

#[test]
fn delete_on_close_needs_the_right_to_delete() {
    let mut f = create_request("a", 0, 0x8000_0000, SHARE_ALL);
    f[104..108].copy_from_slice(&0x1000u32.to_le_bytes());
    let req = CreateReq::parse(&f).unwrap();
    match plan_create(&req) {
        CreatePlan::Refuse(s) => assert_eq!(s, Status::ACCESS_DENIED),
        _ => panic!("refused"),
    }
}

#[test]
fn a_sharing_violation_closes_the_file_again() {
    let mut server = server_with_share();
    let mut a = conn(10, 1);
    assert!(create(&mut server, &mut a, &create_request("f", 0, ACCESS, 0)).result.is_ok());
    let mut b = conn(20, 2);
    let done = create(&mut server, &mut b, &create_request("f", 0, ACCESS, SHARE_ALL));
    assert_eq!(done.result.unwrap_err(), Status::SHARING_VIOLATION);
    assert_eq!(done.close.unwrap().rel, "f");
}
