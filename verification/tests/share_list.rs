use ms_ndr::NdrDecoder;
use rustsmb::srvsvc::{netshareenum_stub, Pipe, ShareInfo};

fn reference_shares() -> Vec<ShareInfo> {
    vec![
        ShareInfo { netname: "public".into(), shi_type: 0, remark: String::new() },
        ShareInfo { netname: "IPC$".into(), shi_type: 0x8000_0003, remark: "IPC Service (ref)".into() },
    ]
}

fn decode_and_check(shares: &[ShareInfo]) {
    let stub = netshareenum_stub(shares);
    assert_eq!(stub.len() % 4, 0, "stub stays 4-byte aligned");

    let n = shares.len() as u32;
    let mut d = NdrDecoder::new(&stub);
    assert_eq!(d.u32().unwrap(), 1, "Level");
    assert_eq!(d.u32().unwrap(), 1, "union switch");
    assert_ne!(d.u32().unwrap(), 0, "container pointer non-null");
    assert_eq!(d.u32().unwrap(), n, "EntriesRead");
    assert_ne!(d.u32().unwrap(), 0, "buffer pointer non-null");
    assert_eq!(d.u32().unwrap(), n, "array MaxCount");

    let mut types = Vec::new();
    for _ in 0..n {
        assert_ne!(d.u32().unwrap(), 0, "netname pointer non-null");
        types.push(d.u32().unwrap());
        assert_ne!(d.u32().unwrap(), 0, "remark pointer non-null");
    }

    let mut decoded = Vec::new();
    for _ in 0..n {
        let netname = d.conformant_varying_wstr().unwrap();
        let remark = d.conformant_varying_wstr().unwrap();
        decoded.push((netname, remark));
    }

    assert_eq!(d.u32().unwrap(), n, "TotalEntries");
    assert_ne!(d.u32().unwrap(), 0, "resume-handle pointer non-null");
    assert_eq!(d.u32().unwrap(), 0, "resume-handle value");
    assert_eq!(d.u32().unwrap(), 0, "return WERROR = ERROR_SUCCESS");
    assert_eq!(d.remaining(), 0, "no trailing bytes");

    for (i, sh) in shares.iter().enumerate() {
        assert_eq!(types[i], sh.shi_type, "share {i} type");
        assert_eq!(decoded[i].0, sh.netname, "share {i} netname");
        assert_eq!(decoded[i].1, sh.remark, "share {i} remark");
    }
}

#[test]
fn netshareenum_round_trips_reference_shares() {
    decode_and_check(&reference_shares());
}

#[test]
fn netshareenum_scales_to_more_shares() {
    let shares = vec![
        ShareInfo { netname: "alpha".into(), shi_type: 0, remark: "one".into() },
        ShareInfo { netname: "beta".into(), shi_type: 0, remark: "two".into() },
        ShareInfo { netname: "IPC$".into(), shi_type: 0x8000_0003, remark: String::new() },
    ];
    decode_and_check(&shares);

    let stub = netshareenum_stub(&shares);
    let mut refs = vec![
        u32::from_le_bytes([stub[8], stub[9], stub[10], stub[11]]),
        u32::from_le_bytes([stub[16], stub[17], stub[18], stub[19]]),
    ];
    for i in 0..shares.len() {
        let base = 24 + i * 12;
        refs.push(u32::from_le_bytes([stub[base], stub[base + 1], stub[base + 2], stub[base + 3]]));
        refs.push(u32::from_le_bytes([stub[base + 8], stub[base + 9], stub[base + 10], stub[base + 11]]));
    }
    let mut unique = refs.clone();
    unique.sort_unstable();
    unique.dedup();
    assert_eq!(unique.len(), refs.len(), "referent ids must be unique");
}

fn fragment(kind: u8, call_id: u32, opnum: u16) -> Vec<u8> {
    let mut f = vec![5, 0, kind, 3, 0x10, 0, 0, 0, 24, 0, 0, 0];
    f.extend_from_slice(&call_id.to_le_bytes());
    f.extend_from_slice(&[0, 0, 0, 0, 0, 0]);
    f.extend_from_slice(&opnum.to_le_bytes());
    f
}

#[test]
fn a_pipe_answers_a_bind_and_a_share_enumeration() {
    let shares = reference_shares();
    let mut p = Pipe::new("SRVSVC");
    assert_eq!(p.name, "srvsvc");
    assert_eq!(p.pending(), 0);
    let bind = fragment(11, 7, 0);
    assert!(p.accepts(&bind));
    p.on_write(&bind, &shares);
    let ack = p.take(4096);
    assert_eq!(ack[2], 12, "bind ack");
    assert_eq!(&ack[12..16], &7u32.to_le_bytes());
    let request = fragment(0, 8, 15);
    p.on_write(&request[..10], &shares);
    assert_eq!(p.pending(), 0, "half a fragment is not answered");
    p.on_write(&request[10..], &shares);
    let reply = p.take(4096);
    assert_eq!(reply[2], 2, "response");
    assert_eq!(&reply[24..], &netshareenum_stub(&shares)[..]);
}

#[test]
fn a_pipe_is_read_piece_by_piece() {
    let shares = reference_shares();
    let mut p = Pipe::new("srvsvc");
    p.on_write(&fragment(11, 1, 0), &shares);
    let whole = p.pending();
    let first = p.take(10);
    assert_eq!(first.len(), 10);
    assert_eq!(p.pending(), whole - 10);
    let rest = p.take(4096);
    assert_eq!(rest.len(), whole - 10);
    assert!(p.take(10).is_empty());
}

#[test]
fn a_fragment_shorter_than_its_header_is_not_accepted() {
    let p = Pipe::new("srvsvc");
    let mut f = fragment(11, 1, 0);
    f[8] = 3;
    assert!(!p.accepts(&f));
}
