//! The bodies of SMB2 requests.
use vstd::prelude::*;
use vstd::slice::slice_subrange;
use crate::bytes::{copy_range, get_u16, get_u32, get_u64, lemma_little, little, same_bytes, u16_at, u32_at, u64_at};
use crate::crypto::array16;
use crate::text::{decode_utf16_bytes, law_text_round_trip, units_of, utf16_bytes, utf16_lossy};

verus! {

/// Whether a frame holds a header and a body of `n` bytes.
pub open spec fn holds(b: Seq<u8>, n: int) -> bool {
    b.len() >= 64 + n
}

/// The 16-byte id at `at`.
pub open spec fn id_at(b: Seq<u8>, at: int) -> Seq<u8> {
    b.subrange(at, at + 16)
}

fn get_id(b: &[u8], at: usize) -> (id: [u8; 16])
    requires
        at + 16 <= b@.len(),
    ensures
        id@ == id_at(b@, at as int),
{
    let n: usize = b.len();
    assert(at + 16 <= n);
    array16(slice_subrange(b, at, at + 16))
}

fn get_part(b: &[u8], off: usize, len: usize) -> (r: Option<Vec<u8>>)
    ensures
        match r {
            Some(v) => off + len <= b@.len() && v@ == b@.subrange(off as int, off + len),
            None => off + len > b@.len(),
        },
{
    let n: usize = b.len();
    if len > n || off > n - len {
        None
    } else {
        Some(copy_range(b, off, off + len))
    }
}

// ---------------- files ----------------

/// CLOSE.
#[derive(Debug)]
pub struct CloseReq {
    pub file_id: [u8; 16],
}

impl CloseReq {
    /// Whether this is what a message holds.
    pub open spec fn read_from(&self, b: Seq<u8>) -> bool {
        self.file_id@ == id_at(b, 72)
    }

    /// Reads the body; none where it is cut short.
    pub fn parse(b: &[u8]) -> (r: Option<CloseReq>)
        ensures
            r is Some <==> holds(b@, 24),
            r matches Some(q) ==> q.read_from(b@),
    {
        if b.len() < 88 {
            return None;
        }
        Some(CloseReq { file_id: get_id(b, 72) })
    }
}

/// FLUSH.
#[derive(Debug)]
pub struct FlushReq {
    pub file_id: [u8; 16],
}

impl FlushReq {
    /// Whether this is what a message holds.
    pub open spec fn read_from(&self, b: Seq<u8>) -> bool {
        self.file_id@ == id_at(b, 72)
    }

    /// Reads the body; none where it is cut short.
    pub fn parse(b: &[u8]) -> (r: Option<FlushReq>)
        ensures
            r is Some <==> holds(b@, 24),
            r matches Some(q) ==> q.read_from(b@),
    {
        if b.len() < 88 {
            return None;
        }
        Some(FlushReq { file_id: get_id(b, 72) })
    }
}

/// READ.
#[derive(Debug)]
pub struct ReadReq {
    pub length: u32,
    pub offset: u64,
    pub file_id: [u8; 16],
}

impl ReadReq {
    /// Whether this is what a message holds.
    pub open spec fn read_from(&self, b: Seq<u8>) -> bool {
        self.length == u32_at(b, 68) && self.offset == u64_at(b, 72) && self.file_id@ == id_at(b, 80)
    }

    /// Reads the body; none where it is cut short.
    pub fn parse(b: &[u8]) -> (r: Option<ReadReq>)
        ensures
            r is Some <==> holds(b@, 48),
            r matches Some(q) ==> q.read_from(b@),
    {
        if b.len() < 112 {
            return None;
        }
        Some(ReadReq { length: get_u32(b, 68), offset: get_u64(b, 72), file_id: get_id(b, 80) })
    }
}

/// WRITE.
#[derive(Debug)]
pub struct WriteReq {
    pub offset: u64,
    pub file_id: [u8; 16],
    pub payload: Vec<u8>,
}

impl WriteReq {
    /// Whether this is what a message holds.
    pub open spec fn read_from(&self, b: Seq<u8>) -> bool {
        let off = u16_at(b, 66) as int;
        &&& self.offset == u64_at(b, 72)
        &&& self.file_id@ == id_at(b, 80)
        &&& self.payload@ == b.subrange(off, off + u32_at(b, 68))
    }

    /// Reads the body; none where it or the data is cut short.
    pub fn parse(b: &[u8]) -> (r: Option<WriteReq>)
        ensures
            r is Some <==> holds(b@, 48) && u16_at(b@, 66) + u32_at(b@, 68) <= b@.len(),
            r matches Some(q) ==> q.read_from(b@),
    {
        if b.len() < 112 {
            return None;
        }
        match get_part(b, get_u16(b, 66) as usize, get_u32(b, 68) as usize) {
            Some(payload) => Some(WriteReq { offset: get_u64(b, 72), file_id: get_id(b, 80), payload }),
            None => None,
        }
    }
}

/// One range of a LOCK.
#[derive(Clone, Copy, PartialEq, Eq, Structural, Debug)]
pub struct LockElement {
    pub offset: u64,
    pub length: u64,
    pub exclusive: bool,
    pub unlock: bool,
    pub fail_immediately: bool,
}

/// The range at `at`.
pub open spec fn lock_at(b: Seq<u8>, at: int) -> LockElement {
    let f = u32_at(b, at + 16);
    LockElement {
        offset: u64_at(b, at),
        length: u64_at(b, at + 8),
        exclusive: f & 2 != 0,
        unlock: f & 4 != 0,
        fail_immediately: f & 0x10 != 0,
    }
}

/// LOCK.
#[derive(Debug)]
pub struct LockReq {
    pub file_id: [u8; 16],
    pub locks: Vec<LockElement>,
}

impl LockReq {
    /// Whether this is what a message holds.
    pub open spec fn read_from(&self, b: Seq<u8>) -> bool {
        self.file_id@ == id_at(b, 72) && self.locks@ == Seq::new(
        u16_at(b, 66) as nat,
        |i: int| lock_at(b, 88 + 24 * i),
            )
    }

    /// Reads the body; none where it or a range is cut short.
    pub fn parse(b: &[u8]) -> (r: Option<LockReq>)
        ensures
            r is Some <==> holds(b@, 24) && 88 + 24 * u16_at(b@, 66) <= b@.len(),
            r matches Some(q) ==> q.read_from(b@),
    {
        if b.len() < 88 {
            return None;
        }
        let n: usize = get_u16(b, 66) as usize;
        if 88 + 24 * n > b.len() {
            return None;
        }
        let mut locks: Vec<LockElement> = Vec::new();
        let mut i: usize = 0;
        while i < n
            invariant
                i <= n <= 0xFFFF,
                88 + 24 * n <= b@.len(),
                locks@.len() == i,
                forall|k: int| 0 <= k < i ==> locks@[k] == lock_at(b@, 88 + 24 * k),
            decreases n - i,
        {
            let at: usize = 88 + 24 * i;
            let f: u32 = get_u32(b, at + 16);
            locks.push(
                LockElement {
                    offset: get_u64(b, at),
                    length: get_u64(b, at + 8),
                    exclusive: f & 2 != 0,
                    unlock: f & 4 != 0,
                    fail_immediately: f & 0x10 != 0,
                },
            );
            i += 1;
        }
        assert(locks@ =~= Seq::new(u16_at(b@, 66) as nat, |i: int| lock_at(b@, 88 + 24 * i)));
        Some(LockReq { file_id: get_id(b, 72), locks })
    }
}

/// IOCTL.
#[derive(Debug)]
pub struct IoctlReq {
    pub ctl_code: u32,
    pub file_id: [u8; 16],
    pub input: Vec<u8>,
    pub max_output: u32,
}

impl IoctlReq {
    /// Whether this is what a message holds.
    pub open spec fn read_from(&self, b: Seq<u8>) -> bool {
        let off = u32_at(b, 88) as int;
        &&& self.ctl_code == u32_at(b, 68)
        &&& self.file_id@ == id_at(b, 72)
        &&& self.input@ == b.subrange(off, off + u32_at(b, 92))
        &&& self.max_output == u32_at(b, 108)
    }

    /// Reads the body; none where it or the input is cut short.
    pub fn parse(b: &[u8]) -> (r: Option<IoctlReq>)
        ensures
            r is Some <==> holds(b@, 56) && u32_at(b@, 88) + u32_at(b@, 92) <= b@.len(),
            r matches Some(q) ==> q.read_from(b@),
    {
        if b.len() < 120 {
            return None;
        }
        match get_part(b, get_u32(b, 88) as usize, get_u32(b, 92) as usize) {
            Some(input) => Some(
                IoctlReq { ctl_code: get_u32(b, 68), file_id: get_id(b, 72), input, max_output: get_u32(b, 108) },
            ),
            None => None,
        }
    }
}

/// QUERY_DIRECTORY.
#[derive(Debug)]
pub struct QueryDirReq {
    pub class: u8,
    pub flags: u8,
    pub file_index: u32,
    pub file_id: [u8; 16],
    pub pattern: String,
}

impl QueryDirReq {
    /// Whether this is what a message holds.
    pub open spec fn read_from(&self, b: Seq<u8>) -> bool {
        let off = u16_at(b, 88) as int;
        &&& self.class == b[66]
        &&& self.flags == b[67]
        &&& self.file_index == u32_at(b, 68)
        &&& self.file_id@ == id_at(b, 72)
        &&& self.pattern@ == utf16_lossy(units_of(b.subrange(off, off + u16_at(b, 90))))
    }

    /// Reads the body; none where it or the pattern is cut short.
    pub fn parse(b: &[u8]) -> (r: Option<QueryDirReq>)
        ensures
            r is Some <==> holds(b@, 32) && u16_at(b@, 88) + u16_at(b@, 90) <= b@.len(),
            r matches Some(q) ==> q.read_from(b@),
    {
        if b.len() < 96 {
            return None;
        }
        match get_part(b, get_u16(b, 88) as usize, get_u16(b, 90) as usize) {
            Some(p) => Some(
                QueryDirReq {
                    class: b[66],
                    flags: b[67],
                    file_index: get_u32(b, 68),
                    file_id: get_id(b, 72),
                    pattern: decode_utf16_bytes(p.as_slice()),
                },
            ),
            None => None,
        }
    }
}

/// CHANGE_NOTIFY.
#[derive(Debug)]
pub struct ChangeNotifyReq {
    pub watch_tree: bool,
    pub output_len: u32,
    pub file_id: [u8; 16],
    pub filter: u32,
}

impl ChangeNotifyReq {
    /// Whether this is what a message holds.
    pub open spec fn read_from(&self, b: Seq<u8>) -> bool {
        self.watch_tree == (u16_at(b, 66) & 1 != 0) && self.output_len == u32_at(b, 68)
        && self.file_id@ == id_at(b, 72) && self.filter == u32_at(b, 88)
    }

    /// Reads the body; none where it is cut short.
    pub fn parse(b: &[u8]) -> (r: Option<ChangeNotifyReq>)
        ensures
            r is Some <==> holds(b@, 32),
            r matches Some(q) ==> q.read_from(b@),
    {
        if b.len() < 96 {
            return None;
        }
        Some(
            ChangeNotifyReq {
                watch_tree: get_u16(b, 66) & 1 != 0,
                output_len: get_u32(b, 68),
                file_id: get_id(b, 72),
                filter: get_u32(b, 88),
            },
        )
    }
}

/// QUERY_INFO.
#[derive(Debug)]
pub struct QueryInfoReq {
    pub info_type: u8,
    pub class: u8,
    pub output_len: u32,
    pub additional: u32,
    pub file_id: [u8; 16],
}

impl QueryInfoReq {
    /// Whether this is what a message holds.
    pub open spec fn read_from(&self, b: Seq<u8>) -> bool {
        self.info_type == b[66] && self.class == b[67] && self.output_len == u32_at(b, 68)
        && self.additional == u32_at(b, 80) && self.file_id@ == id_at(b, 88)
    }

    /// Reads the body; none where it is cut short.
    pub fn parse(b: &[u8]) -> (r: Option<QueryInfoReq>)
        ensures
            r is Some <==> holds(b@, 40),
            r matches Some(q) ==> q.read_from(b@),
    {
        if b.len() < 104 {
            return None;
        }
        Some(
            QueryInfoReq {
                info_type: b[66],
                class: b[67],
                output_len: get_u32(b, 68),
                additional: get_u32(b, 80),
                file_id: get_id(b, 88),
            },
        )
    }
}

/// SET_INFO.
#[derive(Debug)]
pub struct SetInfoReq {
    pub info_type: u8,
    pub class: u8,
    pub file_id: [u8; 16],
    pub buffer: Vec<u8>,
}

impl SetInfoReq {
    /// Whether this is what a message holds.
    pub open spec fn read_from(&self, b: Seq<u8>) -> bool {
        let off = u16_at(b, 72) as int;
        &&& self.info_type == b[66]
        &&& self.class == b[67]
        &&& self.file_id@ == id_at(b, 80)
        &&& self.buffer@ == b.subrange(off, off + u32_at(b, 68))
    }

    /// Reads the body; none where it or the data is cut short.
    pub fn parse(b: &[u8]) -> (r: Option<SetInfoReq>)
        ensures
            r is Some <==> holds(b@, 32) && u16_at(b@, 72) + u32_at(b@, 68) <= b@.len(),
            r matches Some(q) ==> q.read_from(b@),
    {
        if b.len() < 96 {
            return None;
        }
        match get_part(b, get_u16(b, 72) as usize, get_u32(b, 68) as usize) {
            Some(buffer) => Some(SetInfoReq { info_type: b[66], class: b[67], file_id: get_id(b, 80), buffer }),
            None => None,
        }
    }
}

// ---------------- acknowledged breaks ----------------

/// The acknowledgement of a lease break.
#[derive(Debug)]
pub struct LeaseBreakAck {
    pub key: [u8; 16],
    pub state: u32,
}

impl LeaseBreakAck {
    /// Whether this is what a message holds.
    pub open spec fn read_from(&self, b: Seq<u8>) -> bool {
        self.key@ == id_at(b, 72) && self.state == u32_at(b, 88)
    }

    /// Reads the body; none where it is cut short.
    pub fn parse(b: &[u8]) -> (r: Option<LeaseBreakAck>)
        ensures
            r is Some <==> holds(b@, 36),
            r matches Some(q) ==> q.read_from(b@),
    {
        if b.len() < 100 {
            return None;
        }
        Some(LeaseBreakAck { key: get_id(b, 72), state: get_u32(b, 88) })
    }
}

/// The acknowledgement of an oplock break.
#[derive(Debug)]
pub struct OplockBreakAck {
    pub level: u8,
    pub file_id: [u8; 16],
}

impl OplockBreakAck {
    /// Whether this is what a message holds.
    pub open spec fn read_from(&self, b: Seq<u8>) -> bool {
        self.level == b[66] && self.file_id@ == id_at(b, 72)
    }

    /// Reads the body; none where it is cut short.
    pub fn parse(b: &[u8]) -> (r: Option<OplockBreakAck>)
        ensures
            r is Some <==> holds(b@, 24),
            r matches Some(q) ==> q.read_from(b@),
    {
        if b.len() < 88 {
            return None;
        }
        Some(OplockBreakAck { level: b[66], file_id: get_id(b, 72) })
    }
}

// ---------------- creates ----------------

/// Name of the lease context, `RqLs`.
pub const CTX_LEASE: [u8; 4] = [0x52, 0x71, 0x4C, 0x73];

/// Name of the durable handle request of version 1, `DHnQ`.
pub const CTX_DURABLE_V1: [u8; 4] = [0x44, 0x48, 0x6E, 0x51];

/// Name of the reconnect of version 1, `DHnC`.
pub const CTX_RECONNECT_V1: [u8; 4] = [0x44, 0x48, 0x6E, 0x43];

/// Name of the durable handle request of version 2, `DH2Q`.
pub const CTX_DURABLE_V2: [u8; 4] = [0x44, 0x48, 0x32, 0x51];

/// Name of the reconnect of version 2, `DH2C`.
pub const CTX_RECONNECT_V2: [u8; 4] = [0x44, 0x48, 0x32, 0x43];

/// Name of the application instance id.
pub const CTX_APP_INSTANCE: [u8; 16] = [
    0x45,
    0xBC,
    0xA6,
    0x6A,
    0xEF,
    0xA7,
    0xF7,
    0x4A,
    0x90,
    0x08,
    0xFA,
    0x46,
    0x2E,
    0x14,
    0x4D,
    0x74,
];

/// Name of the application instance version.
pub const CTX_APP_VERSION: [u8; 16] = [
    0xB9,
    0x82,
    0xD0,
    0xB7,
    0x3B,
    0x56,
    0x07,
    0x4F,
    0xA0,
    0x7B,
    0x52,
    0x4A,
    0x81,
    0x16,
    0xA0,
    0x10,
];

pub const TAG_REQ_V1: u32 = 1;

pub const TAG_RECONNECT_V1: u32 = 2;

pub const TAG_REQ_V2: u32 = 4;

pub const TAG_RECONNECT_V2: u32 = 8;

/// A lease that is asked for.
#[derive(Clone, Copy, Debug)]
pub struct LeaseReq {
    pub key: [u8; 16],
    pub state: u32,
    pub epoch: u16,
    pub v2: bool,
}

/// What is asked about durable handles.
#[derive(Clone, Copy, Debug)]
pub enum DurableReq {
    RequestV1,
    RequestV2 { timeout: u32, flags: u32, create_guid: [u8; 16] },
    ReconnectV1 { file_id: [u8; 16] },
    ReconnectV2 { file_id: [u8; 16], create_guid: [u8; 16] },
}

/// The contexts of a create.
#[derive(Clone, Copy, Debug)]
pub struct CreateContexts {
    pub lease: Option<LeaseReq>,
    pub durable: Option<DurableReq>,
    /// Which contexts about durable handles are there.
    pub durable_ctx_tags: u32,
    pub app_instance_id: Option<[u8; 16]>,
    pub app_instance_version: Option<(u64, u64)>,
}

/// Whether `c1` is `c0` with a context taken in. Later contexts of a kind replace
/// earlier ones; one that is unknown or cut short is passed over.
pub open spec fn context_taken(c0: CreateContexts, c1: CreateContexts, name: Seq<u8>, data: Seq<u8>) -> bool {
    if name == CTX_LEASE@ && data.len() >= 32 {
        &&& c1 == (CreateContexts { lease: c1.lease, ..c0 })
        &&& c1.lease matches Some(l)
        &&& l.key@ == data.subrange(0, 16)
        &&& l.state == u32_at(data, 16)
        &&& l.v2 == (data.len() >= 52)
        &&& l.epoch == if data.len() >= 52 {
            u16_at(data, 48)
        } else {
            0
        }
    } else if name == CTX_DURABLE_V1@ {
        c1 == (CreateContexts {
            durable: Some(DurableReq::RequestV1),
            durable_ctx_tags: c0.durable_ctx_tags | TAG_REQ_V1,
            ..c0
        })
    } else if name == CTX_RECONNECT_V1@ && data.len() >= 16 {
        &&& c1 == (CreateContexts {
            durable: c1.durable,
            durable_ctx_tags: c0.durable_ctx_tags | TAG_RECONNECT_V1,
            ..c0
        })
        &&& c1.durable matches Some(DurableReq::ReconnectV1 { file_id })
        &&& file_id@ == data.subrange(0, 16)
    } else if name == CTX_DURABLE_V2@ && data.len() >= 32 {
        &&& c1 == (CreateContexts {
            durable: c1.durable,
            durable_ctx_tags: c0.durable_ctx_tags | TAG_REQ_V2,
            ..c0
        })
        &&& c1.durable matches Some(DurableReq::RequestV2 { timeout, flags, create_guid })
        &&& timeout == u32_at(data, 0)
        &&& flags == u32_at(data, 4)
        &&& create_guid@ == data.subrange(16, 32)
    } else if name == CTX_RECONNECT_V2@ && data.len() >= 32 {
        &&& c1 == (CreateContexts {
            durable: c1.durable,
            durable_ctx_tags: c0.durable_ctx_tags | TAG_RECONNECT_V2,
            ..c0
        })
        &&& c1.durable matches Some(DurableReq::ReconnectV2 { file_id, create_guid })
        &&& file_id@ == data.subrange(0, 16)
        &&& create_guid@ == data.subrange(16, 32)
    } else if name == CTX_APP_INSTANCE@ && data.len() >= 20 {
        &&& c1 == (CreateContexts { app_instance_id: c1.app_instance_id, ..c0 })
        &&& c1.app_instance_id matches Some(id)
        &&& id@ == data.subrange(4, 20)
    } else if name == CTX_APP_VERSION@ && data.len() >= 24 {
        c1 == (CreateContexts { app_instance_version: Some((u64_at(data, 8), u64_at(data, 16))), ..c0 })
    } else {
        c1 == c0
    }
}

fn take_context(c: CreateContexts, name: &[u8], data: &[u8]) -> (r: CreateContexts)
    ensures
        context_taken(c, r, name@, data@),
{
    let lease: [u8; 4] = CTX_LEASE;
    let v1: [u8; 4] = CTX_DURABLE_V1;
    let r1: [u8; 4] = CTX_RECONNECT_V1;
    let v2: [u8; 4] = CTX_DURABLE_V2;
    let r2: [u8; 4] = CTX_RECONNECT_V2;
    let app: [u8; 16] = CTX_APP_INSTANCE;
    let ver: [u8; 16] = CTX_APP_VERSION;
    let n: usize = data.len();
    let mut r = c;
    if same_bytes(name, lease.as_slice()) && n >= 32 {
        let second: bool = n >= 52;
        r.lease = Some(
            LeaseReq {
                key: get_id(data, 0),
                state: get_u32(data, 16),
                epoch: if second {
                    get_u16(data, 48)
                } else {
                    0
                },
                v2: second,
            },
        );
    } else if same_bytes(name, v1.as_slice()) {
        r.durable = Some(DurableReq::RequestV1);
        r.durable_ctx_tags = c.durable_ctx_tags | TAG_REQ_V1;
    } else if same_bytes(name, r1.as_slice()) && n >= 16 {
        r.durable = Some(DurableReq::ReconnectV1 { file_id: get_id(data, 0) });
        r.durable_ctx_tags = c.durable_ctx_tags | TAG_RECONNECT_V1;
    } else if same_bytes(name, v2.as_slice()) && n >= 32 {
        r.durable = Some(
            DurableReq::RequestV2 { timeout: get_u32(data, 0), flags: get_u32(data, 4), create_guid: get_id(data, 16) },
        );
        r.durable_ctx_tags = c.durable_ctx_tags | TAG_REQ_V2;
    } else if same_bytes(name, r2.as_slice()) && n >= 32 {
        r.durable = Some(DurableReq::ReconnectV2 { file_id: get_id(data, 0), create_guid: get_id(data, 16) });
        r.durable_ctx_tags = c.durable_ctx_tags | TAG_RECONNECT_V2;
    } else if same_bytes(name, app.as_slice()) && n >= 20 {
        r.app_instance_id = Some(get_id(data, 4));
    } else if same_bytes(name, ver.as_slice()) && n >= 24 {
        r.app_instance_version = Some((get_u64(data, 8), get_u64(data, 16)));
    }
    r
}

/// A part of a context area; empty where it does not lie within.
pub open spec fn part_at(b: Seq<u8>, off: int, len: int) -> Seq<u8> {
    if off + len <= b.len() {
        b.subrange(off, off + len)
    } else {
        Seq::empty()
    }
}

/// No contexts.
pub open spec fn no_contexts() -> CreateContexts {
    CreateContexts {
        lease: None,
        durable: None,
        durable_ctx_tags: 0,
        app_instance_id: None,
        app_instance_version: None,
    }
}

/// Whether `steps` are the states that the contexts of the area `b` lead through,
/// from place `at` on.
pub open spec fn contexts_walked(b: Seq<u8>, at: int, steps: Seq<CreateContexts>) -> bool
    decreases steps.len(),
{
    if at < 0 || at + 16 > b.len() {
        steps.len() == 1
    } else {
        let name = part_at(b, at + u16_at(b, at + 4), u16_at(b, at + 6) as int);
        let data = part_at(b, at + u16_at(b, at + 10), u32_at(b, at + 12) as int);
        let next = u32_at(b, at) as int;
        &&& steps.len() >= 2
        &&& context_taken(steps[0], steps[1], name, data)
        &&& if next == 0 {
            steps.len() == 2
        } else {
            contexts_walked(b, at + next, steps.subrange(1, steps.len() as int))
        }
    }
}

/// Whether `c` is what the contexts of the area `b` ask for.
pub open spec fn contexts_read(b: Seq<u8>, c: CreateContexts) -> bool {
    exists|steps: Seq<CreateContexts>|
        #[trigger] contexts_walked(b, 0, steps) && steps[0] == no_contexts() && steps.last() == c
}

fn part_of(b: &[u8], off: usize, len: usize) -> (r: &[u8])
    ensures
        r@ == part_at(b@, off as int, len as int),
{
    let n: usize = b.len();
    if len > n || off > n - len {
        let e = slice_subrange(b, 0, 0);
        assert(e@ =~= Seq::<u8>::empty());
        e
    } else {
        slice_subrange(b, off, off + len)
    }
}

proof fn lemma_walk_extends(b: Seq<u8>, at: int, front: Seq<CreateContexts>, to: int, rest: Seq<CreateContexts>)
    requires
        walks_to(b, at, front, to),
        contexts_walked(b, to, rest),
        front.last() == rest[0],
        rest.len() >= 1,
    ensures
        contexts_walked(b, at, front + rest.subrange(1, rest.len() as int)),
    decreases front.len(),
{
    let tail = rest.subrange(1, rest.len() as int);
    let all = front + tail;
    if front.len() == 1 {
        assert(all =~= rest);
    } else {
        let next = u32_at(b, at) as int;
        let f = front.subrange(1, front.len() as int);
        lemma_walk_extends(b, at + next, f, to, rest);
        assert(all.subrange(1, all.len() as int) =~= f + tail);
        assert(f.last() == front.last());
    }
}

/// Whether `front` are the states on the way from context `at` to context `to`.
pub open spec fn walks_to(b: Seq<u8>, at: int, front: Seq<CreateContexts>, to: int) -> bool
    decreases front.len(),
{
    if front.len() <= 1 {
        front.len() == 1 && at == to
    } else {
        let name = part_at(b, at + u16_at(b, at + 4), u16_at(b, at + 6) as int);
        let data = part_at(b, at + u16_at(b, at + 10), u32_at(b, at + 12) as int);
        let next = u32_at(b, at) as int;
        &&& 0 <= at
        &&& at + 16 <= b.len()
        &&& next != 0
        &&& context_taken(front[0], front[1], name, data)
        &&& walks_to(b, at + next, front.subrange(1, front.len() as int), to)
    }
}

proof fn lemma_walk_step(b: Seq<u8>, at: int, front: Seq<CreateContexts>, to: int, c: CreateContexts)
    requires
        walks_to(b, at, front, to),
        0 <= to,
        to + 16 <= b.len(),
        u32_at(b, to) != 0,
        context_taken(
            front.last(),
            c,
            part_at(b, to + u16_at(b, to + 4), u16_at(b, to + 6) as int),
            part_at(b, to + u16_at(b, to + 10), u32_at(b, to + 12) as int),
        ),
    ensures
        walks_to(b, at, front.push(c), to + u32_at(b, to)),
    decreases front.len(),
{
    let all = front.push(c);
    if front.len() == 1 {
        assert(all.subrange(1, 2) =~= seq![c]);
        assert(walks_to(b, to + u32_at(b, to), seq![c], to + u32_at(b, to)));
    } else {
        let f = front.subrange(1, front.len() as int);
        lemma_walk_step(b, at + u32_at(b, at), f, to, c);
        assert(all.subrange(1, all.len() as int) =~= f.push(c));
    }
}

/// Reads the contexts of a create.
pub fn read_contexts(b: &[u8]) -> (c: CreateContexts)
    requires
        b@.len() < 0x8000_0000,
    ensures
        contexts_read(b@, c),
{
    let mut c = CreateContexts {
        lease: None,
        durable: None,
        durable_ctx_tags: 0,
        app_instance_id: None,
        app_instance_version: None,
    };
    let ghost mut front: Seq<CreateContexts> = seq![c];
    let n: usize = b.len();
    let mut at: usize = 0;
    proof {
        assert(walks_to(b@, 0, front, 0));
    }
    while n >= 16 && at <= n - 16
        invariant
            n == b@.len(),
            n < 0x8000_0000,
            walks_to(b@, 0, front, at as int),
            front.len() >= 1,
            front[0] == no_contexts(),
            front.last() == c,
        decreases n - at,
    {
        let name = part_of(b, at + get_u16(b, at + 4) as usize, get_u16(b, at + 6) as usize);
        let data = part_of(b, at + get_u16(b, at + 10) as usize, get_u32(b, at + 12) as usize);
        let next: u32 = get_u32(b, at);
        let ghost before = c;
        c = take_context(c, name, data);
        if next == 0 {
            proof {
                let last = seq![before, c];
                assert(contexts_walked(b@, at as int, last));
                lemma_walk_extends(b@, 0, front, at as int, last);
                let steps = front + last.subrange(1, 2);
                assert(steps.last() == c);
                assert(steps[0] == no_contexts());
            }
            return c;
        }
        proof {
            lemma_walk_step(b@, 0, front, at as int, c);
            front = front.push(c);
        }
        if next as usize > n - at {
            proof {
                let last = seq![c];
                assert(contexts_walked(b@, at + next, last));
                lemma_walk_extends(b@, 0, front, at + next, last);
                assert(front + last.subrange(1, 1) =~= front);
            }
            return c;
        }
        at = at + next as usize;
    }
    proof {
        let last = seq![c];
        assert(contexts_walked(b@, at as int, last));
        lemma_walk_extends(b@, 0, front, at as int, last);
        assert(front + last.subrange(1, 1) =~= front);
    }
    c
}

/// CREATE.
#[derive(Debug)]
pub struct CreateReq {
    pub oplock_level: u8,
    pub desired_access: u32,
    pub attrs: u32,
    pub share_access: u32,
    pub disposition: u32,
    pub options: u32,
    pub name: String,
    pub contexts: CreateContexts,
}

/// Whether a frame holds a whole create with name and contexts.
pub open spec fn holds_create(b: Seq<u8>) -> bool {
    &&& holds(b, 56)
    &&& u16_at(b, 108) + u16_at(b, 110) <= b.len()
    &&& u32_at(b, 112) + u32_at(b, 116) <= b.len()
}

impl CreateReq {
    /// Whether this is what a message holds.
    pub open spec fn read_from(&self, b: Seq<u8>) -> bool {
        let name = u16_at(b, 108) as int;
        let ctx = u32_at(b, 112) as int;
        &&& self.oplock_level == b[67]
        &&& self.desired_access == u32_at(b, 88)
        &&& self.attrs == u32_at(b, 92)
        &&& self.share_access == u32_at(b, 96)
        &&& self.disposition == u32_at(b, 100)
        &&& self.options == u32_at(b, 104)
        &&& self.name@ == utf16_lossy(units_of(b.subrange(name, name + u16_at(b, 110))))
        &&& contexts_read(b.subrange(ctx, ctx + u32_at(b, 116)), self.contexts)
    }

    /// Reads the body; none where it, the name or the contexts are cut short.
    pub fn parse(b: &[u8]) -> (r: Option<CreateReq>)
        requires
            b@.len() < 0x8000_0000,
        ensures
            r is Some <==> holds_create(b@),
            r matches Some(q) ==> q.read_from(b@),
    {
        if b.len() < 120 {
            return None;
        }
        let name = match get_part(b, get_u16(b, 108) as usize, get_u16(b, 110) as usize) {
            Some(p) => p,
            None => return None,
        };
        let area = match get_part(b, get_u32(b, 112) as usize, get_u32(b, 116) as usize) {
            Some(p) => p,
            None => return None,
        };
        Some(
            CreateReq {
                oplock_level: b[67],
                desired_access: get_u32(b, 88),
                attrs: get_u32(b, 92),
                share_access: get_u32(b, 96),
                disposition: get_u32(b, 100),
                options: get_u32(b, 104),
                name: decode_utf16_bytes(name.as_slice()),
                contexts: read_contexts(area.as_slice()),
            },
        )
    }
}

// ---------------- where the fields of a request stand ----------------

/// A READ is read as the length, the offset and the file that its bytes say.
pub proof fn law_read_request_fields(q: ReadReq, b: Seq<u8>)
    requires
        holds(b, 48),
        q.read_from(b),
    ensures
        q.length == little(b, 68, 4),
        q.offset == little(b, 72, 8),
        forall|i: int| 0 <= i < 16 ==> #[trigger] q.file_id@[i] == b[80 + i],
{
    lemma_little(b, 68);
    lemma_little(b, 72);
}

/// A WRITE is read as the offset and the file that its bytes say, and its data is what
/// stands in the message at the place and for the length it names.
pub proof fn law_write_request_fields(q: WriteReq, b: Seq<u8>)
    requires
        holds(b, 48),
        u16_at(b, 66) + u32_at(b, 68) <= b.len(),
        q.read_from(b),
    ensures
        q.offset == little(b, 72, 8),
        forall|i: int| 0 <= i < 16 ==> #[trigger] q.file_id@[i] == b[80 + i],
        q.payload@.len() == little(b, 68, 4),
        forall|i: int| 0 <= i < q.payload@.len() ==> #[trigger] q.payload@[i] == b[little(b, 66, 2) + i],
{
    lemma_little(b, 66);
    lemma_little(b, 68);
    lemma_little(b, 72);
}

/// CLOSE and FLUSH are about the file whose id stands 72 bytes behind the start of the
/// message.
pub proof fn law_close_request_fields(q: CloseReq, f: FlushReq, b: Seq<u8>)
    requires
        holds(b, 24),
        q.read_from(b),
        f.read_from(b),
    ensures
        forall|i: int| 0 <= i < 16 ==> #[trigger] q.file_id@[i] == b[72 + i],
        forall|i: int| 0 <= i < 16 ==> #[trigger] f.file_id@[i] == b[72 + i],
{
}

/// Each element of a LOCK has the range and the kind that its 24 bytes say: bit 1 of its
/// flags locks exclusively, bit 2 unlocks, bit 4 does not wait.
pub proof fn law_lock_request_fields(q: LockReq, b: Seq<u8>, i: int)
    requires
        holds(b, 24),
        88 + 24 * u16_at(b, 66) <= b.len(),
        q.read_from(b),
        0 <= i < q.locks@.len(),
    ensures
        q.locks@.len() == little(b, 66, 2),
        q.locks@[i].offset == little(b, 88 + 24 * i, 8),
        q.locks@[i].length == little(b, 96 + 24 * i, 8),
        q.locks@[i].exclusive == (b[104 + 24 * i] & 0x02 != 0),
        q.locks@[i].unlock == (b[104 + 24 * i] & 0x04 != 0),
        q.locks@[i].fail_immediately == (b[104 + 24 * i] & 0x10 != 0),
        forall|k: int| 0 <= k < 16 ==> #[trigger] q.file_id@[k] == b[72 + k],
{
    lemma_little(b, 66);
    lemma_little(b, 88 + 24 * i);
    lemma_little(b, 96 + 24 * i);
    let f = u32_at(b, 104 + 24 * i);
    let x = b[104 + 24 * i];
    assert(f % 256 == x);
    lemma_low_bits(f, x);
}

proof fn lemma_low_bits(f: u32, x: u8)
    requires
        f % 256 == x,
    ensures
        forall|m: u8| (f & m as u32 != 0) == (#[trigger] (x & m) != 0),
{
    assert forall|m: u8| (f & m as u32 != 0) == (#[trigger] (x & m) != 0) by {
        assert((f & m as u32 != 0) == (x & m != 0)) by (bit_vector)
            requires
                f % 256 == x,
        ;
    }
}

/// An IOCTL is read as the code, the file, the input and the limit that its bytes say.
pub proof fn law_ioctl_request_fields(q: IoctlReq, b: Seq<u8>)
    requires
        holds(b, 56),
        u32_at(b, 88) + u32_at(b, 92) <= b.len(),
        q.read_from(b),
    ensures
        q.ctl_code == little(b, 68, 4),
        forall|i: int| 0 <= i < 16 ==> #[trigger] q.file_id@[i] == b[72 + i],
        q.input@.len() == little(b, 92, 4),
        forall|i: int| 0 <= i < q.input@.len() ==> #[trigger] q.input@[i] == b[little(b, 88, 4) + i],
        q.max_output == little(b, 108, 4),
{
    lemma_little(b, 68);
    lemma_little(b, 88);
    lemma_little(b, 92);
    lemma_little(b, 108);
}

/// A QUERY_DIRECTORY is read as the class, the flags, the file and the pattern that its
/// bytes say: a pattern that a client encodes is the pattern that is searched for.
pub proof fn law_listing_request_fields(q: QueryDirReq, b: Seq<u8>, pattern: Seq<char>)
    requires
        holds(b, 32),
        u16_at(b, 88) + u16_at(b, 90) <= b.len(),
        q.read_from(b),
    ensures
        q.class == b[66] && q.flags == b[67],
        q.file_index == little(b, 68, 4),
        forall|i: int| 0 <= i < 16 ==> #[trigger] q.file_id@[i] == b[72 + i],
        b.subrange(little(b, 88, 2), little(b, 88, 2) + little(b, 90, 2)) == utf16_bytes(pattern) ==> q.pattern@
            == pattern,
{
    lemma_little(b, 68);
    lemma_little(b, 88);
    lemma_little(b, 90);
    law_text_round_trip(pattern);
}

/// A CHANGE_NOTIFY is read as the file, the filter and the depth that its bytes say.
pub proof fn law_notify_request_fields(q: ChangeNotifyReq, b: Seq<u8>)
    requires
        holds(b, 32),
        q.read_from(b),
    ensures
        q.watch_tree == (b[66] & 0x01 != 0),
        q.output_len == little(b, 68, 4),
        forall|i: int| 0 <= i < 16 ==> #[trigger] q.file_id@[i] == b[72 + i],
        q.filter == little(b, 88, 4),
{
    lemma_little(b, 68);
    lemma_little(b, 88);
    let f = u16_at(b, 66);
    let x = b[66];
    assert(f % 256 == x);
    assert((f & 1 != 0) == (x & 1 != 0)) by (bit_vector)
        requires
            f % 256 == x,
    ;
}

/// QUERY_INFO and SET_INFO are read as the kind of information and the file that their
/// bytes say; what is set is the data at the place and for the length that is named.
pub proof fn law_info_request_fields(q: QueryInfoReq, s: SetInfoReq, b: Seq<u8>)
    requires
        holds(b, 40),
        u16_at(b, 72) + u32_at(b, 68) <= b.len(),
        q.read_from(b),
        s.read_from(b),
    ensures
        q.info_type == b[66] && q.class == b[67],
        q.output_len == little(b, 68, 4),
        q.additional == little(b, 80, 4),
        forall|i: int| 0 <= i < 16 ==> #[trigger] q.file_id@[i] == b[88 + i],
        s.info_type == b[66] && s.class == b[67],
        forall|i: int| 0 <= i < 16 ==> #[trigger] s.file_id@[i] == b[80 + i],
        s.buffer@.len() == little(b, 68, 4),
        forall|i: int| 0 <= i < s.buffer@.len() ==> #[trigger] s.buffer@[i] == b[little(b, 72, 2) + i],
{
    lemma_little(b, 68);
    lemma_little(b, 72);
    lemma_little(b, 80);
}

/// The acknowledgement of a break is read as the lease or the file, and the state or the
/// level, that its bytes say.
pub proof fn law_acknowledgement_fields(l: LeaseBreakAck, o: OplockBreakAck, b: Seq<u8>)
    requires
        holds(b, 36),
        l.read_from(b),
        o.read_from(b),
    ensures
        forall|i: int| 0 <= i < 16 ==> #[trigger] l.key@[i] == b[72 + i],
        l.state == little(b, 88, 4),
        o.level == b[66],
        forall|i: int| 0 <= i < 16 ==> #[trigger] o.file_id@[i] == b[72 + i],
{
    lemma_little(b, 88);
}

/// A CREATE is read as the access, the sharing, the disposition, the options and the name
/// that its bytes say: a name that a client encodes is the name that is opened.
pub proof fn law_create_request_fields(q: CreateReq, b: Seq<u8>, name: Seq<char>)
    requires
        holds_create(b),
        q.read_from(b),
    ensures
        q.oplock_level == b[67],
        q.desired_access == little(b, 88, 4),
        q.attrs == little(b, 92, 4),
        q.share_access == little(b, 96, 4),
        q.disposition == little(b, 100, 4),
        q.options == little(b, 104, 4),
        b.subrange(little(b, 108, 2), little(b, 108, 2) + little(b, 110, 2)) == utf16_bytes(name) ==> q.name@ == name,
        little(b, 116, 4) < 16 ==> q.contexts == (CreateContexts {
            lease: None,
            durable: None,
            durable_ctx_tags: 0,
            app_instance_id: None,
            app_instance_version: None,
        }),
{
    lemma_little(b, 88);
    lemma_little(b, 92);
    lemma_little(b, 96);
    lemma_little(b, 100);
    lemma_little(b, 104);
    lemma_little(b, 108);
    lemma_little(b, 110);
    lemma_little(b, 116);
    law_text_round_trip(name);
    if u32_at(b, 116) < 16 {
        let ctx = u32_at(b, 112) as int;
        let area = b.subrange(ctx, ctx + u32_at(b, 116));
        let steps = choose|steps: Seq<CreateContexts>|
            #[trigger] contexts_walked(area, 0, steps) && steps[0] == no_contexts() && steps.last() == q.contexts;
        assert(steps.len() == 1);
    }
}

/// A lone context of a create is taken as its name says: `RqLs` asks for a lease, `DHnQ`
/// and `DH2Q` for a durable handle, `DHnC` and `DH2C` reclaim one. Its fields are what its
/// data says.
pub proof fn law_contexts_are_told_by_name(b: Seq<u8>, name: Seq<u8>, data: Seq<u8>, c: CreateContexts)
    requires
        contexts_read(b, c),
        b.len() >= 16,
        little(b, 0, 4) == 0,
        little(b, 4, 2) + little(b, 6, 2) <= b.len(),
        little(b, 10, 2) + little(b, 12, 4) <= b.len(),
        name == b.subrange(little(b, 4, 2), little(b, 4, 2) + little(b, 6, 2)),
        data == b.subrange(little(b, 10, 2), little(b, 10, 2) + little(b, 12, 4)),
        data.len() >= 52,
    ensures
        name == seq![0x52u8, 0x71u8, 0x4Cu8, 0x73u8] ==> (c.lease matches Some(l) && l.key@ == data.subrange(0, 16)
            && l.state == little(data, 16, 4) && l.epoch == little(data, 48, 2) && l.v2) && c.durable is None,
        name == seq![0x44u8, 0x48u8, 0x6Eu8, 0x51u8] ==> c.durable == Some(DurableReq::RequestV1) && c.lease is None,
        name == seq![0x44u8, 0x48u8, 0x32u8, 0x51u8] ==> (c.durable matches Some(
            DurableReq::RequestV2 { timeout, flags, create_guid },
        ) && timeout == little(data, 0, 4) && flags == little(data, 4, 4) && create_guid@ == data.subrange(16, 32)),
        name == seq![0x44u8, 0x48u8, 0x6Eu8, 0x43u8] ==> (c.durable matches Some(DurableReq::ReconnectV1 { file_id })
            && file_id@ == data.subrange(0, 16)),
        name == seq![0x44u8, 0x48u8, 0x32u8, 0x43u8] ==> (c.durable matches Some(
            DurableReq::ReconnectV2 { file_id, create_guid },
        ) && file_id@ == data.subrange(0, 16) && create_guid@ == data.subrange(16, 32)),
{
    lemma_little(b, 0);
    lemma_little(b, 4);
    lemma_little(b, 6);
    lemma_little(b, 10);
    lemma_little(b, 12);
    lemma_little(data, 0);
    lemma_little(data, 4);
    lemma_little(data, 16);
    lemma_little(data, 48);
    let steps = choose|steps: Seq<CreateContexts>|
        #[trigger] contexts_walked(b, 0, steps) && steps[0] == no_contexts() && steps.last() == c;
    assert(steps.len() == 2);
    assert(context_taken(no_contexts(), c, name, data));
    assert(CTX_LEASE@ =~= seq![0x52u8, 0x71u8, 0x4Cu8, 0x73u8]);
    assert(CTX_DURABLE_V1@ =~= seq![0x44u8, 0x48u8, 0x6Eu8, 0x51u8]);
    assert(CTX_RECONNECT_V1@ =~= seq![0x44u8, 0x48u8, 0x6Eu8, 0x43u8]);
    assert(CTX_DURABLE_V2@ =~= seq![0x44u8, 0x48u8, 0x32u8, 0x51u8]);
    assert(CTX_RECONNECT_V2@ =~= seq![0x44u8, 0x48u8, 0x32u8, 0x43u8]);
    lemma_names_differ(name);
}

proof fn lemma_names_differ(name: Seq<u8>)
    ensures
        name == seq![0x52u8, 0x71u8, 0x4Cu8, 0x73u8] ==> name[0] == 0x52,
        name == seq![0x44u8, 0x48u8, 0x6Eu8, 0x51u8] ==> name[0] == 0x44 && name[2] == 0x6E && name[3] == 0x51,
        name == seq![0x44u8, 0x48u8, 0x6Eu8, 0x43u8] ==> name[0] == 0x44 && name[2] == 0x6E && name[3] == 0x43,
        name == seq![0x44u8, 0x48u8, 0x32u8, 0x51u8] ==> name[0] == 0x44 && name[2] == 0x32 && name[3] == 0x51,
        name == seq![0x44u8, 0x48u8, 0x32u8, 0x43u8] ==> name[0] == 0x44 && name[2] == 0x32 && name[3] == 0x43,
{
}

} // verus!
