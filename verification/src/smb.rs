//! Core SMB1 wire helpers: constants, status codes, FILETIME conversion and the
//! byte reader and writer.
use vstd::prelude::*;
use vstd::slice::slice_subrange;
use vstd::utf8::{decode_utf8, decode_utf8_encode_utf8, encode_utf8, encode_utf8_decode_utf8, encode_utf8_valid_utf8, valid_utf8};
use crate::bytes::{byte_at, get_u8, le16, le32, le64, put_bytes, put_u16, put_u32, put_u64, u16_at, u32_at, u64_at};
use crate::text::{decode_utf16_bytes, encode_utf16_bytes, from_utf16_lossy, from_utf8_lossy, lemma_utf16_nonzero, lemma_utf16_round_trip, lemma_utf8_nonzero, unit_bytes, units_of, utf16, utf16_bytes, utf16_lossy, utf8_lossy};

verus! {

/// The four bytes that open every SMB1 message.
pub const SMB_MAGIC: [u8; 4] = [0xFF, 0x53, 0x4D, 0x42];


// ---- Commands ----
pub const COM_CREATE_DIRECTORY: u8 = 0x00;
pub const COM_DELETE_DIRECTORY: u8 = 0x01;
pub const COM_OPEN: u8 = 0x02;
pub const COM_CREATE: u8 = 0x03;
pub const COM_CLOSE: u8 = 0x04;
pub const COM_FLUSH: u8 = 0x05;
pub const COM_DELETE: u8 = 0x06;
pub const COM_RENAME: u8 = 0x07;
pub const COM_QUERY_INFORMATION: u8 = 0x08;
pub const COM_SET_INFORMATION: u8 = 0x09;
pub const COM_READ: u8 = 0x0A;
pub const COM_WRITE: u8 = 0x0B;
pub const COM_LOCK_BYTE_RANGE: u8 = 0x0C;
pub const COM_UNLOCK_BYTE_RANGE: u8 = 0x0D;
pub const COM_CHECK_DIRECTORY: u8 = 0x10;
pub const COM_PROCESS_EXIT: u8 = 0x11;
pub const COM_SEEK: u8 = 0x12;
pub const COM_LOCKING_ANDX: u8 = 0x24;
pub const COM_TRANSACTION: u8 = 0x25;
pub const COM_ECHO: u8 = 0x26;
pub const COM_OPEN_ANDX: u8 = 0x2D;
pub const COM_READ_ANDX: u8 = 0x2E;
pub const COM_WRITE_ANDX: u8 = 0x2F;
pub const COM_TRANSACTION2: u8 = 0x32;
pub const COM_NEGOTIATE: u8 = 0x72;
pub const COM_TREE_DISCONNECT: u8 = 0x71;
pub const COM_SESSION_SETUP_ANDX: u8 = 0x73;
pub const COM_LOGOFF_ANDX: u8 = 0x74;
pub const COM_TREE_CONNECT_ANDX: u8 = 0x75;
pub const COM_QUERY_INFORMATION_DISK: u8 = 0x80;
pub const COM_SEARCH: u8 = 0x81;
pub const COM_NT_TRANSACT: u8 = 0xA0;
pub const COM_NT_CREATE_ANDX: u8 = 0xA2;
pub const COM_NT_CANCEL: u8 = 0xA4;
pub const COM_NT_RENAME: u8 = 0xA5;

// ---- Header flags ----
pub const FLAGS_RESPONSE: u8 = 0x80;
pub const FLAGS_CASE_SENSITIVE: u8 = 0x08;

// ---- Header flags2 ----
pub const FLAGS2_LONG_NAMES: u16 = 0x0001;
pub const FLAGS2_UNICODE: u16 = 0x8000;
pub const FLAGS2_NT_STATUS: u16 = 0x4000;

// ---- Negotiate capabilities ----
pub const CAP_UNICODE: u32 = 0x0004;
pub const CAP_LARGE_FILES: u32 = 0x0008;
pub const CAP_NT_SMBS: u32 = 0x0010;
pub const CAP_STATUS32: u32 = 0x0040;
pub const CAP_LEVEL2_OPLOCKS: u32 = 0x0080;
pub const CAP_LOCK_AND_READ: u32 = 0x0100;
pub const CAP_NT_FIND: u32 = 0x0200;
pub const CAP_INFOLEVEL_PASSTHRU: u32 = 0x2000;
pub const CAP_LARGE_READX: u32 = 0x4000_0000;
pub const CAP_LARGE_WRITEX: u32 = 0x8000_0000;
pub const SEC_MODE_USER: u8 = 0x01;
pub const SEC_MODE_ENCRYPT: u8 = 0x02;

// ---- File attributes ----
pub const ATTR_READONLY: u32 = 0x001;
pub const ATTR_HIDDEN: u32 = 0x002;
pub const ATTR_SYSTEM: u32 = 0x004;
pub const ATTR_DIRECTORY: u32 = 0x010;
pub const ATTR_ARCHIVE: u32 = 0x020;
pub const ATTR_NORMAL: u32 = 0x080;

// ---- Create dispositions ----
pub const DISP_SUPERSEDE: u32 = 0;
pub const DISP_OPEN: u32 = 1;
pub const DISP_CREATE: u32 = 2;
pub const DISP_OPEN_IF: u32 = 3;
pub const DISP_OVERWRITE: u32 = 4;
pub const DISP_OVERWRITE_IF: u32 = 5;

// ---- Create options ----
pub const OPT_DIRECTORY_FILE: u32 = 0x1;
pub const OPT_NON_DIRECTORY_FILE: u32 = 0x40;
pub const OPT_DELETE_ON_CLOSE: u32 = 0x1000;

// ---- Access rights ----
pub const GENERIC_READ: u32 = 0x8000_0000;
pub const GENERIC_WRITE: u32 = 0x4000_0000;
pub const GENERIC_ALL: u32 = 0x1000_0000;
pub const GENERIC_EXECUTE: u32 = 0x2000_0000;
pub const DELETE_ACCESS: u32 = 0x0001_0000;
pub const FILE_READ_DATA: u32 = 0x0001;
pub const FILE_WRITE_DATA: u32 = 0x0002;
pub const FILE_APPEND_DATA: u32 = 0x0004;
pub const FILE_READ_ATTRS: u32 = 0x0080;
pub const FILE_WRITE_ATTRS: u32 = 0x0100;

// ---- TRANS2 subcommands ----
pub const TRANS2_FIND_FIRST2: u16 = 0x0001;
pub const TRANS2_FIND_NEXT2: u16 = 0x0002;
pub const TRANS2_QUERY_FS_INFO: u16 = 0x0003;
pub const TRANS2_SET_FS_INFO: u16 = 0x0004;
pub const TRANS2_QUERY_PATH_INFO: u16 = 0x0005;
pub const TRANS2_SET_PATH_INFO: u16 = 0x0006;
pub const TRANS2_QUERY_FILE_INFO: u16 = 0x0007;
pub const TRANS2_SET_FILE_INFO: u16 = 0x0008;

// Find information levels
pub const FIND_INFO_STANDARD: u16 = 0x001;
pub const FIND_INFO_DIRECTORY: u16 = 0x102;
pub const FIND_INFO_FULL: u16 = 0x103;
pub const FIND_INFO_BOTH: u16 = 0x104;
pub const FIND_INFO_NAMES: u16 = 0x105;

// Query/Set info levels (non pass-through)
pub const QL_BASIC: u16 = 0x004;
pub const QL_STANDARD: u16 = 0x005;
pub const QL_EA_SIZE: u16 = 0x006;
pub const QL_ALL_EAS: u16 = 0x007;
pub const QL_STREAMS: u16 = 0x010;

// Pass-through
pub const QL_PT_BASIC: u16 = 0x1004;
pub const QL_PT_STANDARD: u16 = 0x1005;
pub const QL_PT_INTERNAL: u16 = 0x1006;
pub const QL_PT_EA: u16 = 0x1007;
pub const QL_PT_ACCESS: u16 = 0x1008;
pub const QL_PT_NAME: u16 = 0x1009;
pub const QL_PT_ALLOC: u16 = 0x100B;
pub const QL_PT_EOF: u16 = 0x100C;
pub const QL_PT_DISPOSITION: u16 = 0x100D;
pub const QL_PT_ALL: u16 = 0x1012;
pub const QL_PT_ALT_NAME: u16 = 0x1015;
pub const QL_PT_STREAMS: u16 = 0x1016;
pub const SL_BASIC: u16 = 0x101;
pub const SL_DISPOSITION: u16 = 0x102;
pub const SL_ALLOC: u16 = 0x103;
pub const SL_EOF: u16 = 0x104;

// Query FS info levels
pub const FS_VOLUME_INFO: u16 = 0x102;
pub const FS_SIZE_INFO: u16 = 0x103;
pub const FS_DEVICE_INFO: u16 = 0x201;
pub const FS_ATTRIBUTE_INFO: u16 = 0x202;

/// An NT status. `CODE` holds a code that has no name here.
#[allow(non_camel_case_types)]
#[derive(Clone, Copy, PartialEq, Eq, Structural, Debug)]
pub enum Status {
    SUCCESS,
    UNSUCCESSFUL,
    NOT_IMPLEMENTED,
    END_OF_FILE,
    INVALID_HANDLE,
    INVALID_PARAMETER,
    NO_SUCH_FILE,
    LOGON_FAILURE,
    OBJECT_NAME_NOT_FOUND,
    OBJECT_NAME_COLLISION,
    OBJECT_PATH_NOT_FOUND,
    ACCESS_DENIED,
    SHARING_VIOLATION,
    DELETE_PENDING,
    MORE_PROCESSING_REQUIRED,
    DIRECTORY_NOT_EMPTY,
    NOT_A_DIRECTORY,
    FILE_IS_A_DIRECTORY,
    BAD_NETWORK_NAME,
    CANCELLED,
    NO_MORE_FILES,
    INVALID_DEVICE_REQUEST,
    PENDING,
    NOTIFY_CLEANUP,
    STOPPED_ON_SYMLINK,
    FILE_LOCK_CONFLICT,
    LOCK_NOT_GRANTED,
    BUFFER_TOO_SMALL,
    USER_SESSION_DELETED,
    SMB_NO_PREAUTH_INTEGRITY_HASH_OVERLAP,
    NOT_FOUND,
    NETWORK_NAME_DELETED,
    FILE_FORCED_CLOSED,
    FILE_CLOSED,
    CODE(u32),
}

/// The 32-bit code of a status.
pub open spec fn status_code(s: Status) -> u32 {
    match s {
        Status::SUCCESS => 0x0000_0000,
        Status::UNSUCCESSFUL => 0xC000_0001,
        Status::NOT_IMPLEMENTED => 0xC000_0002,
        Status::END_OF_FILE => 0xC000_0011,
        Status::INVALID_HANDLE => 0xC000_0008,
        Status::INVALID_PARAMETER => 0xC000_000D,
        Status::NO_SUCH_FILE => 0xC000_000F,
        Status::LOGON_FAILURE => 0xC000_006D,
        Status::OBJECT_NAME_NOT_FOUND => 0xC000_0034,
        Status::OBJECT_NAME_COLLISION => 0xC000_0035,
        Status::OBJECT_PATH_NOT_FOUND => 0xC000_003A,
        Status::ACCESS_DENIED => 0xC000_0022,
        Status::SHARING_VIOLATION => 0xC000_0043,
        Status::DELETE_PENDING => 0xC000_0056,
        Status::MORE_PROCESSING_REQUIRED => 0xC000_0016,
        Status::DIRECTORY_NOT_EMPTY => 0xC000_0101,
        Status::NOT_A_DIRECTORY => 0xC000_0103,
        Status::FILE_IS_A_DIRECTORY => 0xC000_00BA,
        Status::BAD_NETWORK_NAME => 0xC000_00CC,
        Status::CANCELLED => 0xC000_0120,
        Status::NO_MORE_FILES => 0x8000_0006,
        Status::INVALID_DEVICE_REQUEST => 0xC000_0010,
        Status::PENDING => 0x0000_0103,
        Status::NOTIFY_CLEANUP => 0x0000_010B,
        Status::STOPPED_ON_SYMLINK => 0x8000_002D,
        Status::FILE_LOCK_CONFLICT => 0xC000_0054,
        Status::LOCK_NOT_GRANTED => 0xC000_0055,
        Status::BUFFER_TOO_SMALL => 0xC000_0023,
        Status::USER_SESSION_DELETED => 0xC000_0203,
        Status::SMB_NO_PREAUTH_INTEGRITY_HASH_OVERLAP => 0xC05D_0000,
        Status::NOT_FOUND => 0xC000_0225,
        Status::NETWORK_NAME_DELETED => 0xC000_00C9,
        Status::FILE_FORCED_CLOSED => 0xC000_00B6,
        Status::FILE_CLOSED => 0xC000_0128,
        Status::CODE(c) => c,
    }
}

/// The status with the given code.
pub open spec fn status_of(code: u32) -> Status {
    if code == 0x0000_0000 {
        Status::SUCCESS
    } else if code == 0xC000_0001 {
        Status::UNSUCCESSFUL
    } else if code == 0xC000_0002 {
        Status::NOT_IMPLEMENTED
    } else if code == 0xC000_0011 {
        Status::END_OF_FILE
    } else if code == 0xC000_0008 {
        Status::INVALID_HANDLE
    } else if code == 0xC000_000D {
        Status::INVALID_PARAMETER
    } else if code == 0xC000_000F {
        Status::NO_SUCH_FILE
    } else if code == 0xC000_006D {
        Status::LOGON_FAILURE
    } else if code == 0xC000_0034 {
        Status::OBJECT_NAME_NOT_FOUND
    } else if code == 0xC000_0035 {
        Status::OBJECT_NAME_COLLISION
    } else if code == 0xC000_003A {
        Status::OBJECT_PATH_NOT_FOUND
    } else if code == 0xC000_0022 {
        Status::ACCESS_DENIED
    } else if code == 0xC000_0043 {
        Status::SHARING_VIOLATION
    } else if code == 0xC000_0056 {
        Status::DELETE_PENDING
    } else if code == 0xC000_0016 {
        Status::MORE_PROCESSING_REQUIRED
    } else if code == 0xC000_0101 {
        Status::DIRECTORY_NOT_EMPTY
    } else if code == 0xC000_0103 {
        Status::NOT_A_DIRECTORY
    } else if code == 0xC000_00BA {
        Status::FILE_IS_A_DIRECTORY
    } else if code == 0xC000_00CC {
        Status::BAD_NETWORK_NAME
    } else if code == 0xC000_0120 {
        Status::CANCELLED
    } else if code == 0x8000_0006 {
        Status::NO_MORE_FILES
    } else if code == 0xC000_0010 {
        Status::INVALID_DEVICE_REQUEST
    } else if code == 0x0000_0103 {
        Status::PENDING
    } else if code == 0x0000_010B {
        Status::NOTIFY_CLEANUP
    } else if code == 0x8000_002D {
        Status::STOPPED_ON_SYMLINK
    } else if code == 0xC000_0054 {
        Status::FILE_LOCK_CONFLICT
    } else if code == 0xC000_0055 {
        Status::LOCK_NOT_GRANTED
    } else if code == 0xC000_0023 {
        Status::BUFFER_TOO_SMALL
    } else if code == 0xC000_0203 {
        Status::USER_SESSION_DELETED
    } else if code == 0xC05D_0000 {
        Status::SMB_NO_PREAUTH_INTEGRITY_HASH_OVERLAP
    } else if code == 0xC000_0225 {
        Status::NOT_FOUND
    } else if code == 0xC000_00C9 {
        Status::NETWORK_NAME_DELETED
    } else if code == 0xC000_00B6 {
        Status::FILE_FORCED_CLOSED
    } else if code == 0xC000_0128 {
        Status::FILE_CLOSED
    } else {
        Status::CODE(code)
    }
}

/// Naming a code and taking the code of the name are inverse.
pub proof fn law_status_round_trip(code: u32)
    ensures
        status_code(status_of(code)) == code,
{
}

impl Status {
    /// The 32-bit code.
    pub fn raw(self) -> (code: u32)
        ensures
            code == status_code(self),
    {
        match self {
            Status::SUCCESS => 0x0000_0000,
            Status::UNSUCCESSFUL => 0xC000_0001,
            Status::NOT_IMPLEMENTED => 0xC000_0002,
            Status::END_OF_FILE => 0xC000_0011,
            Status::INVALID_HANDLE => 0xC000_0008,
            Status::INVALID_PARAMETER => 0xC000_000D,
            Status::NO_SUCH_FILE => 0xC000_000F,
            Status::LOGON_FAILURE => 0xC000_006D,
            Status::OBJECT_NAME_NOT_FOUND => 0xC000_0034,
            Status::OBJECT_NAME_COLLISION => 0xC000_0035,
            Status::OBJECT_PATH_NOT_FOUND => 0xC000_003A,
            Status::ACCESS_DENIED => 0xC000_0022,
            Status::SHARING_VIOLATION => 0xC000_0043,
            Status::DELETE_PENDING => 0xC000_0056,
            Status::MORE_PROCESSING_REQUIRED => 0xC000_0016,
            Status::DIRECTORY_NOT_EMPTY => 0xC000_0101,
            Status::NOT_A_DIRECTORY => 0xC000_0103,
            Status::FILE_IS_A_DIRECTORY => 0xC000_00BA,
            Status::BAD_NETWORK_NAME => 0xC000_00CC,
            Status::CANCELLED => 0xC000_0120,
            Status::NO_MORE_FILES => 0x8000_0006,
            Status::INVALID_DEVICE_REQUEST => 0xC000_0010,
            Status::PENDING => 0x0000_0103,
            Status::NOTIFY_CLEANUP => 0x0000_010B,
            Status::STOPPED_ON_SYMLINK => 0x8000_002D,
            Status::FILE_LOCK_CONFLICT => 0xC000_0054,
            Status::LOCK_NOT_GRANTED => 0xC000_0055,
            Status::BUFFER_TOO_SMALL => 0xC000_0023,
            Status::USER_SESSION_DELETED => 0xC000_0203,
            Status::SMB_NO_PREAUTH_INTEGRITY_HASH_OVERLAP => 0xC05D_0000,
            Status::NOT_FOUND => 0xC000_0225,
            Status::NETWORK_NAME_DELETED => 0xC000_00C9,
            Status::FILE_FORCED_CLOSED => 0xC000_00B6,
            Status::FILE_CLOSED => 0xC000_0128,
            Status::CODE(c) => c,
        }
    }

    /// The status with the given code.
    pub fn from_raw(code: u32) -> (s: Status)
        ensures
            s == status_of(code),
    {
        if code == 0x0000_0000 {
            Status::SUCCESS
        } else if code == 0xC000_0001 {
            Status::UNSUCCESSFUL
        } else if code == 0xC000_0002 {
            Status::NOT_IMPLEMENTED
        } else if code == 0xC000_0011 {
            Status::END_OF_FILE
        } else if code == 0xC000_0008 {
            Status::INVALID_HANDLE
        } else if code == 0xC000_000D {
            Status::INVALID_PARAMETER
        } else if code == 0xC000_000F {
            Status::NO_SUCH_FILE
        } else if code == 0xC000_006D {
            Status::LOGON_FAILURE
        } else if code == 0xC000_0034 {
            Status::OBJECT_NAME_NOT_FOUND
        } else if code == 0xC000_0035 {
            Status::OBJECT_NAME_COLLISION
        } else if code == 0xC000_003A {
            Status::OBJECT_PATH_NOT_FOUND
        } else if code == 0xC000_0022 {
            Status::ACCESS_DENIED
        } else if code == 0xC000_0043 {
            Status::SHARING_VIOLATION
        } else if code == 0xC000_0056 {
            Status::DELETE_PENDING
        } else if code == 0xC000_0016 {
            Status::MORE_PROCESSING_REQUIRED
        } else if code == 0xC000_0101 {
            Status::DIRECTORY_NOT_EMPTY
        } else if code == 0xC000_0103 {
            Status::NOT_A_DIRECTORY
        } else if code == 0xC000_00BA {
            Status::FILE_IS_A_DIRECTORY
        } else if code == 0xC000_00CC {
            Status::BAD_NETWORK_NAME
        } else if code == 0xC000_0120 {
            Status::CANCELLED
        } else if code == 0x8000_0006 {
            Status::NO_MORE_FILES
        } else if code == 0xC000_0010 {
            Status::INVALID_DEVICE_REQUEST
        } else if code == 0x0000_0103 {
            Status::PENDING
        } else if code == 0x0000_010B {
            Status::NOTIFY_CLEANUP
        } else if code == 0x8000_002D {
            Status::STOPPED_ON_SYMLINK
        } else if code == 0xC000_0054 {
            Status::FILE_LOCK_CONFLICT
        } else if code == 0xC000_0055 {
            Status::LOCK_NOT_GRANTED
        } else if code == 0xC000_0023 {
            Status::BUFFER_TOO_SMALL
        } else if code == 0xC000_0203 {
            Status::USER_SESSION_DELETED
        } else if code == 0xC05D_0000 {
            Status::SMB_NO_PREAUTH_INTEGRITY_HASH_OVERLAP
        } else if code == 0xC000_0225 {
            Status::NOT_FOUND
        } else if code == 0xC000_00C9 {
            Status::NETWORK_NAME_DELETED
        } else if code == 0xC000_00B6 {
            Status::FILE_FORCED_CLOSED
        } else if code == 0xC000_0128 {
            Status::FILE_CLOSED
        } else {
            Status::CODE(code)
        }
    }
}

/// The DOS error class and code of a status.
pub open spec fn dos_code(s: Status) -> (u8, u8) {
    if s == Status::SUCCESS {
        (0, 0)
    } else if s == Status::OBJECT_NAME_NOT_FOUND || s == Status::NO_SUCH_FILE || s
        == Status::OBJECT_PATH_NOT_FOUND {
        (0x01, 0x52)
    } else if s == Status::OBJECT_NAME_COLLISION {
        (0x01, 0x50)
    } else if s == Status::ACCESS_DENIED || s == Status::DIRECTORY_NOT_EMPTY {
        (0x01, 0x05)
    } else if s == Status::SHARING_VIOLATION {
        (0x01, 0x20)
    } else if s == Status::INVALID_HANDLE || s == Status::BAD_NETWORK_NAME {
        (0x01, 0x51)
    } else if s == Status::END_OF_FILE || s == Status::NO_MORE_FILES {
        (0x01, 0x12)
    } else {
        (0x02, 0x01)
    }
}

/// DOS error class and code for clients that do not speak NT status.
pub fn to_dos(s: Status) -> (r: (u8, u8))
    ensures
        r == dos_code(s),
{
    if s == Status::SUCCESS {
        (0, 0)
    } else if s == Status::OBJECT_NAME_NOT_FOUND || s == Status::NO_SUCH_FILE || s
        == Status::OBJECT_PATH_NOT_FOUND {
        (0x01, 0x52)
    } else if s == Status::OBJECT_NAME_COLLISION {
        (0x01, 0x50)
    } else if s == Status::ACCESS_DENIED || s == Status::DIRECTORY_NOT_EMPTY {
        (0x01, 0x05)
    } else if s == Status::SHARING_VIOLATION {
        (0x01, 0x20)
    } else if s == Status::INVALID_HANDLE || s == Status::BAD_NETWORK_NAME {
        (0x01, 0x51)
    } else if s == Status::END_OF_FILE || s == Status::NO_MORE_FILES {
        (0x01, 0x12)
    } else {
        (0x02, 0x01)
    }
}

/// Seconds from the Windows epoch (1601) to the Unix epoch.
pub const WIN_EPOCH_SECS: i64 = 11_644_473_600;

/// FILETIME ticks (100 ns) of a Unix time, before it is fitted into 64 bits.
pub open spec fn ticks(secs: int, nanos: int) -> int {
    (secs + WIN_EPOCH_SECS) * 10_000_000 + nanos / 100
}

/// FILETIME of a Unix time: zero before 1601, the low 64 bits of the tick count after.
pub open spec fn filetime_of(secs: int, nanos: int) -> u64 {
    if ticks(secs, nanos) <= 0 {
        0
    } else {
        (ticks(secs, nanos) % 0x1_0000_0000_0000_0000) as u64
    }
}

/// Unix seconds and nanoseconds of a FILETIME; times before 1970 give zero.
pub open spec fn unix_of(ft: u64) -> (i64, u32) {
    let total = ft as int - WIN_EPOCH_SECS * 10_000_000;
    if ft == 0 || total < 0 {
        (0, 0)
    } else {
        ((total / 10_000_000) as i64, ((total % 10_000_000) * 100) as u32)
    }
}

/// Converts a Unix time to a FILETIME.
pub fn unix_to_filetime(secs: i64, nanos: u32) -> (ft: u64)
    requires
        secs + WIN_EPOCH_SECS <= i64::MAX,
    ensures
        ft == filetime_of(secs as int, nanos as int),
{
    let t: i128 = (secs + WIN_EPOCH_SECS) as i128 * 10_000_000i128 + (nanos / 100) as i128;
    if t <= 0 {
        0
    } else {
        ((t as u128) % 0x1_0000_0000_0000_0000u128) as u64
    }
}

/// Converts a FILETIME to Unix seconds and nanoseconds.
pub fn filetime_to_unix(ft: u64) -> (r: (i64, u32))
    ensures
        r == unix_of(ft),
{
    let epoch: u64 = 116_444_736_000_000_000;
    if ft == 0 || ft < epoch {
        return (0, 0);
    }
    let total: u64 = ft - epoch;
    let secs: u64 = total / 10_000_000;
    let nanos: u64 = (total % 10_000_000) * 100;
    (secs as i64, nanos as u32)
}

/// A Unix time from 1970 on whose tick count fits 64 bits comes back from its
/// FILETIME with its nanoseconds rounded down to whole ticks.
pub proof fn law_unix_round_trip(secs: int, nanos: int)
    requires
        0 <= secs,
        0 <= nanos < 1_000_000_000,
        ticks(secs, nanos) <= u64::MAX,
    ensures
        unix_of(filetime_of(secs, nanos)) == (secs as i64, (nanos / 100 * 100) as u32),
{
    let t = ticks(secs, nanos);
    assert(t % 0x1_0000_0000_0000_0000 == t);
    let total = t - WIN_EPOCH_SECS * 10_000_000;
    assert(total == secs * 10_000_000 + nanos / 100);
    assert(total / 10_000_000 == secs);
    assert(total % 10_000_000 == nanos / 100);
}

/// A FILETIME from 1970 on comes back from its Unix time.
pub proof fn law_filetime_round_trip(ft: u64)
    requires
        ft >= WIN_EPOCH_SECS * 10_000_000,
    ensures
        filetime_of(unix_of(ft).0 as int, unix_of(ft).1 as int) == ft,
{
    let total = ft as int - WIN_EPOCH_SECS * 10_000_000;
    assert(total == (total / 10_000_000) * 10_000_000 + total % 10_000_000);
    assert(((total % 10_000_000) * 100) / 100 == total % 10_000_000);
    assert(ft as int % 0x1_0000_0000_0000_0000 == ft as int);
}

/// A later Unix time has no earlier FILETIME, as long as 64 bits hold its ticks; what lies
/// at or before the start of 1601 gives zero.
pub proof fn law_filetime_monotone(s1: int, n1: int, s2: int, n2: int)
    requires
        0 <= n1 < 1_000_000_000,
        0 <= n2 < 1_000_000_000,
        s1 < s2 || s1 == s2 && n1 <= n2,
        ticks(s2, n2) <= u64::MAX,
    ensures
        filetime_of(s1, n1) <= filetime_of(s2, n2),
        filetime_of(0, 0) == 116_444_736_000_000_000,
        s1 < -WIN_EPOCH_SECS || s1 == -WIN_EPOCH_SECS && n1 < 100 ==> filetime_of(s1, n1) == 0,
{
    assert(ticks(s1, n1) <= ticks(s2, n2));
    assert(ticks(0, 0) == 116_444_736_000_000_000);
}

/// The code units up to the first zero unit at or after `p`, or to the last whole unit.
pub open spec fn zunits(s: Seq<u8>, p: int) -> Seq<u16>
    decreases s.len() - p,
{
    if p < 0 || p + 1 >= s.len() || u16_at(s, p) == 0 {
        seq![]
    } else {
        seq![u16_at(s, p)] + zunits(s, p + 2)
    }
}

/// Where a reader of `zunits` stops: behind the zero unit, or where no whole unit is left.
pub open spec fn zunits_end(s: Seq<u8>, p: int) -> int
    decreases s.len() - p,
{
    if p < 0 || p + 1 >= s.len() {
        p
    } else if u16_at(s, p) == 0 {
        p + 2
    } else {
        zunits_end(s, p + 2)
    }
}

/// The bytes up to the first zero byte at or after `p`, or to the end.
pub open spec fn zbytes(s: Seq<u8>, p: int) -> Seq<u8>
    decreases s.len() - p,
{
    if p < 0 || p >= s.len() || s[p] == 0 {
        seq![]
    } else {
        seq![s[p]] + zbytes(s, p + 1)
    }
}

/// Where a reader of `zbytes` stops: behind the zero byte, or at the end.
pub open spec fn zbytes_end(s: Seq<u8>, p: int) -> int
    decreases s.len() - p,
{
    if p < 0 || p >= s.len() {
        p
    } else if s[p] == 0 {
        p + 1
    } else {
        zbytes_end(s, p + 1)
    }
}

/// Where a Unicode string starts whose reader stands at `p`: at an even offset
/// from `base`, except that a reader at the end stays there.
pub open spec fn even_start(s: Seq<u8>, p: int, base: int) -> int {
    if (base + p) % 2 != 0 && p < s.len() {
        p + 1
    } else {
        p
    }
}

/// The text of the null-terminated string at `p`.
pub open spec fn zstring_text(s: Seq<u8>, p: int, unicode: bool, base: int) -> Seq<char> {
    if unicode {
        utf16_lossy(zunits(s, even_start(s, p, base)))
    } else {
        utf8_lossy(zbytes(s, p))
    }
}

/// Where the reader of that string stops.
pub open spec fn zstring_end(s: Seq<u8>, p: int, unicode: bool, base: int) -> int {
    if unicode {
        zunits_end(s, even_start(s, p, base))
    } else {
        zbytes_end(s, p)
    }
}

/// The text of a string of fixed length.
pub open spec fn fixed_text(raw: Seq<u8>, unicode: bool) -> Seq<char> {
    if unicode {
        utf16_lossy(units_of(raw))
    } else {
        utf8_lossy(raw)
    }
}

/// A byte reader; bytes past the end read as zero.
pub struct Rd<'a> {
    pub buf: &'a [u8],
    pub pos: usize,
}

impl<'a> Rd<'a> {
    /// A reader of `buf` that stands at `pos`.
    pub fn new(buf: &'a [u8], pos: usize) -> (r: Self)
        ensures
            r.buf@ == buf@,
            r.pos == pos,
    {
        Rd { buf, pos }
    }

    /// How many bytes are left.
    pub fn remaining(&self) -> (n: usize)
        ensures
            n == if self.pos <= self.buf@.len() {
                self.buf@.len() - self.pos
            } else {
                0
            },
    {
        if self.pos <= self.buf.len() {
            self.buf.len() - self.pos
        } else {
            0
        }
    }

    /// Whether no byte is left.
    pub fn at_end(&self) -> (end: bool)
        ensures
            end == (self.pos >= self.buf@.len()),
    {
        self.pos >= self.buf.len()
    }

    /// Reads one byte.
    pub fn u8(&mut self) -> (v: u8)
        requires
            old(self).pos < usize::MAX,
        ensures
            v == byte_at(old(self).buf@, old(self).pos as int),
            final(self).pos == old(self).pos + 1,
            final(self).buf == old(self).buf,
    {
        let v: u8 = get_u8(self.buf, self.pos);
        self.pos = self.pos + 1;
        v
    }

    /// Reads a 16-bit integer.
    pub fn u16le(&mut self) -> (v: u16)
        requires
            old(self).pos + 2 <= usize::MAX,
        ensures
            v == u16_at(old(self).buf@, old(self).pos as int),
            final(self).pos == old(self).pos + 2,
            final(self).buf == old(self).buf,
    {
        let a: u8 = self.u8();
        let b: u8 = self.u8();
        a as u16 + 256 * (b as u16)
    }

    /// Reads a 32-bit integer.
    pub fn u32le(&mut self) -> (v: u32)
        requires
            old(self).pos + 4 <= usize::MAX,
        ensures
            v == u32_at(old(self).buf@, old(self).pos as int),
            final(self).pos == old(self).pos + 4,
            final(self).buf == old(self).buf,
    {
        let a: u16 = self.u16le();
        let b: u16 = self.u16le();
        a as u32 + 65536 * (b as u32)
    }

    /// Reads a 64-bit integer.
    pub fn u64le(&mut self) -> (v: u64)
        requires
            old(self).pos + 8 <= usize::MAX,
        ensures
            v == u64_at(old(self).buf@, old(self).pos as int),
            final(self).pos == old(self).pos + 8,
            final(self).buf == old(self).buf,
    {
        let a: u32 = self.u32le();
        let b: u32 = self.u32le();
        a as u64 + 4294967296 * (b as u64)
    }

    /// Skips `n` bytes.
    pub fn skip(&mut self, n: usize)
        requires
            old(self).pos + n <= usize::MAX,
        ensures
            final(self).pos == old(self).pos + n,
            final(self).buf == old(self).buf,
    {
        self.pos = self.pos + n;
    }

    /// Reads a null-terminated string. A Unicode string starts at an even offset,
    /// where `base` is the offset of the buffer within the message. A string that was
    /// written there is read back, and the reader stops behind it.
    pub fn zstring(&mut self, unicode: bool, base: usize) -> (text: String)
        requires
            unicode ==> base + old(self).pos <= usize::MAX,
        ensures
            text@ == zstring_text(old(self).buf@, old(self).pos as int, unicode, base as int),
            !unicode && valid_utf8(zbytes(old(self).buf@, old(self).pos as int)) ==> text@ == decode_utf8(
                zbytes(old(self).buf@, old(self).pos as int),
            ),
            final(self).pos == zstring_end(old(self).buf@, old(self).pos as int, unicode, base as int),
            final(self).buf == old(self).buf,
            forall|t: Seq<char>| #[trigger]
                string_at(old(self).buf@, old(self).pos as int, t, unicode, base as int) ==> text@ == t
                    && final(self).pos == old(self).pos + zstring_bytes(
                    old(self).pos as int,
                    t,
                    unicode,
                    base as int,
                ).len(),
    {
        let ghost b = self.buf@;
        let ghost p = self.pos as int;
        let text = self.read_zstring(unicode, base);
        assert forall|t: Seq<char>| #[trigger] string_at(b, p, t, unicode, base as int) implies text@ == t && self.pos
            == p + zstring_bytes(p, t, unicode, base as int).len() by {
            lemma_string_at(b, p, t, unicode, base as int);
        }
        text
    }

    fn read_zstring(&mut self, unicode: bool, base: usize) -> (text: String)
        requires
            unicode ==> base + old(self).pos <= usize::MAX,
        ensures
            text@ == zstring_text(old(self).buf@, old(self).pos as int, unicode, base as int),
            !unicode && valid_utf8(zbytes(old(self).buf@, old(self).pos as int)) ==> text@ == decode_utf8(
                zbytes(old(self).buf@, old(self).pos as int),
            ),
            final(self).pos == zstring_end(old(self).buf@, old(self).pos as int, unicode, base as int),
            final(self).buf == old(self).buf,
    {
        let n: usize = self.buf.len();
        if unicode {
            if (base + self.pos) % 2 != 0 && !self.at_end() {
                self.pos = self.pos + 1;
            }
            let ghost start = self.pos as int;
            let ghost s = self.buf@;
            let mut units: Vec<u16> = Vec::new();
            assert(units@ + zunits(s, start) =~= zunits(s, start));
            while self.pos < n && self.pos + 1 < n
                invariant
                    self.buf == old(self).buf,
                    self.buf@ == s,
                    s.len() == n,
                    unicode,
                    start == even_start(s, old(self).pos as int, base as int),
                    units@ + zunits(s, self.pos as int) == zunits(s, start),
                    zunits_end(s, self.pos as int) == zunits_end(s, start),
                decreases n - self.pos,
            {
                let ghost p = self.pos as int;
                let ghost before = units@;
                let u: u16 = self.u16le();
                if u == 0 {
                    assert(units@ =~= zunits(s, start));
                    return from_utf16_lossy(units.as_slice());
                }
                units.push(u);
                assert(units@ + zunits(s, p + 2) =~= before + zunits(s, p));
            }
            assert(units@ =~= zunits(s, start));
            from_utf16_lossy(units.as_slice())
        } else {
            let ghost start = self.pos as int;
            let ghost s = self.buf@;
            let mut bytes: Vec<u8> = Vec::new();
            assert(bytes@ + zbytes(s, start) =~= zbytes(s, start));
            while self.pos < n
                invariant
                    self.buf == old(self).buf,
                    self.buf@ == s,
                    s.len() == n,
                    !unicode,
                    start == old(self).pos,
                    bytes@ + zbytes(s, self.pos as int) == zbytes(s, start),
                    zbytes_end(s, self.pos as int) == zbytes_end(s, start),
                decreases n - self.pos,
            {
                let ghost p = self.pos as int;
                let ghost before = bytes@;
                let b: u8 = self.u8();
                if b == 0 {
                    assert(bytes@ =~= zbytes(s, start));
                    return from_utf8_lossy(bytes.as_slice());
                }
                bytes.push(b);
                assert(bytes@ + zbytes(s, p + 1) =~= before + zbytes(s, p));
            }
            assert(bytes@ =~= zbytes(s, start));
            from_utf8_lossy(bytes.as_slice())
        }
    }

    /// Reads a string of at most `len` bytes.
    pub fn fixed_string(&mut self, len: usize, unicode: bool) -> (text: String)
        requires
            old(self).pos <= old(self).buf@.len(),
            old(self).pos + len <= usize::MAX,
        ensures
            final(self).pos == if old(self).pos + len <= old(self).buf@.len() {
                old(self).pos + len
            } else {
                old(self).buf@.len() as int
            },
            text@ == fixed_text(
                old(self).buf@.subrange(old(self).pos as int, final(self).pos as int),
                unicode,
            ),
            final(self).buf == old(self).buf,
    {
        let end: usize = if self.pos + len <= self.buf.len() {
            self.pos + len
        } else {
            self.buf.len()
        };
        let raw = slice_subrange(self.buf, self.pos, end);
        self.pos = end;
        if unicode {
            decode_utf16_bytes(raw)
        } else {
            from_utf8_lossy(raw)
        }
    }
}

/// The bytes that a null-terminated string adds to a message of length `len`.
pub open spec fn zstring_bytes(len: int, s: Seq<char>, unicode: bool, base: int) -> Seq<u8> {
    if unicode {
        parity_pad(base + len) + utf16_bytes(s) + seq![0u8, 0u8]
    } else {
        encode_utf8(s) + seq![0u8]
    }
}

/// Whether the null-terminated string `t`, which holds no null, stands in a message from
/// `p` on.
pub open spec fn string_at(b: Seq<u8>, p: int, t: Seq<char>, unicode: bool, base: int) -> bool {
    let w = zstring_bytes(p, t, unicode, base);
    &&& forall|i: int| 0 <= i < t.len() ==> t[i] != '\0'
    &&& 0 <= p
    &&& p + w.len() <= b.len()
    &&& b.subrange(p, p + w.len()) == w
}

/// The pad byte in front of an even offset.
pub open spec fn parity_pad(off: int) -> Seq<u8> {
    if off % 2 != 0 {
        seq![0u8]
    } else {
        seq![]
    }
}

/// A byte writer.
pub struct Wr {
    pub buf: Vec<u8>,
}

impl Wr {
    /// An empty writer.
    pub fn new() -> (w: Self)
        ensures
            w.buf@ == Seq::<u8>::empty(),
    {
        Wr { buf: Vec::new() }
    }

    /// Writes one byte.
    pub fn u8v(&mut self, v: u8)
        ensures
            final(self).buf@ == old(self).buf@ + seq![v],
    {
        self.buf.push(v);
        assert(self.buf@ =~= old(self).buf@ + seq![v]);
    }

    /// Writes a 16-bit integer.
    pub fn u16v(&mut self, v: u16)
        ensures
            final(self).buf@ == old(self).buf@ + le16(v),
    {
        put_u16(&mut self.buf, v);
    }

    /// Writes a 32-bit integer.
    pub fn u32v(&mut self, v: u32)
        ensures
            final(self).buf@ == old(self).buf@ + le32(v),
    {
        put_u32(&mut self.buf, v);
    }

    /// Writes a 64-bit integer.
    pub fn u64v(&mut self, v: u64)
        ensures
            final(self).buf@ == old(self).buf@ + le64(v),
    {
        put_u64(&mut self.buf, v);
    }

    /// Writes raw bytes.
    pub fn raw(&mut self, data: &[u8])
        ensures
            final(self).buf@ == old(self).buf@ + data@,
    {
        put_bytes(&mut self.buf, data);
    }

    /// Writes one zero byte if the next offset from `base` is odd.
    pub fn pad_to_parity(&mut self, base: usize)
        requires
            base + old(self).buf@.len() <= usize::MAX,
        ensures
            final(self).buf@ == old(self).buf@ + parity_pad(base + old(self).buf@.len()),
    {
        if (base + self.buf.len()) % 2 != 0 {
            self.buf.push(0);
        }
        assert(self.buf@ =~= old(self).buf@ + parity_pad(base + old(self).buf@.len()));
    }

    /// Writes a null-terminated string, Unicode at an even offset from `base`.
    pub fn zstring(&mut self, s: &str, unicode: bool, base: usize)
        requires
            unicode ==> base + old(self).buf@.len() <= usize::MAX,
        ensures
            final(self).buf@ == old(self).buf@ + zstring_bytes(
                old(self).buf@.len() as int,
                s@,
                unicode,
                base as int,
            ),
    {
        let ghost before = self.buf@;
        if unicode {
            self.pad_to_parity(base);
            let b = encode_utf16_bytes(s);
            put_bytes(&mut self.buf, b.as_slice());
            self.buf.push(0);
            self.buf.push(0);
        } else {
            put_bytes(&mut self.buf, s.as_bytes());
            self.buf.push(0);
        }
        assert(self.buf@ =~= before + zstring_bytes(before.len() as int, s@, unicode, base as int));
    }
}

/// Whether code units stand in a message from `p` on, and a zero unit behind them.
spec fn units_stand(b: Seq<u8>, p: int, u: Seq<u16>) -> bool {
    &&& 0 <= p
    &&& p + 2 * u.len() + 2 <= b.len()
    &&& forall|i: int| 0 <= i < u.len() ==> u16_at(b, p + 2 * i) == #[trigger] u[i] && u[i] != 0
    &&& u16_at(b, p + 2 * u.len()) == 0
}

proof fn lemma_units_read(b: Seq<u8>, p: int, u: Seq<u16>)
    requires
        units_stand(b, p, u),
    ensures
        zunits(b, p) == u,
        zunits_end(b, p) == p + 2 * u.len() + 2,
    decreases u.len(),
{
    if u.len() == 0 {
        assert(zunits(b, p) =~= u);
    } else {
        let rest = u.subrange(1, u.len() as int);
        assert(u16_at(b, p + 2 * 0) == u[0]);
        assert forall|i: int| 0 <= i < rest.len() implies u16_at(b, p + 2 + 2 * i) == #[trigger] rest[i] && rest[i] != 0 by {
            assert(u16_at(b, p + 2 * (i + 1)) == u[i + 1]);
        }
        lemma_units_read(b, p + 2, rest);
        assert(zunits(b, p) =~= seq![u[0]] + rest);
        assert(seq![u[0]] + rest =~= u);
    }
}

/// A Unicode string that was written is read back, and its reader stops behind it.
pub proof fn law_unicode_string_round_trip(pre: Seq<u8>, s: Seq<char>, base: int, post: Seq<u8>)
    requires
        0 <= base,
        forall|i: int| 0 <= i < s.len() ==> s[i] != '\0',
    ensures
        ({
            let w = zstring_bytes(pre.len() as int, s, true, base);
            let m = pre + w + post;
            zstring_text(m, pre.len() as int, true, base) == s && zstring_end(m, pre.len() as int, true, base)
                == pre.len() + w.len()
        }),
{
    let n = pre.len() as int;
    let w = zstring_bytes(n, s, true, base);
    let m = pre + w + post;
    let u = utf16(s);
    let start = even_start(m, n, base);
    let pad = parity_pad(base + n);
    assert(start == n + pad.len());
    lemma_utf16_nonzero(s);
    assert forall|i: int| 0 <= i < u.len() implies u16_at(m, start + 2 * i) == #[trigger] u[i] && u[i] != 0 by {
        let b = unit_bytes(u);
        assert(m[start + 2 * i] == b[2 * i]);
        assert(m[start + 2 * i + 1] == b[2 * i + 1]);
        assert((2 * i) / 2 == i && (2 * i + 1) / 2 == i);
        assert((2 * i) % 2 == 0 && (2 * i + 1) % 2 == 1);
    }
    assert(m[start + 2 * u.len()] == 0);
    assert(m[start + 2 * u.len() + 1] == 0);
    assert(units_stand(m, start, u));
    lemma_units_read(m, start, u);
    lemma_utf16_round_trip(s);
}

proof fn lemma_bytes_read(b: Seq<u8>, p: int, u: Seq<u8>)
    requires
        0 <= p,
        p + u.len() < b.len(),
        forall|i: int| 0 <= i < u.len() ==> b[p + i] == #[trigger] u[i] && u[i] != 0,
        b[p + u.len()] == 0,
    ensures
        zbytes(b, p) == u,
        zbytes_end(b, p) == p + u.len() + 1,
    decreases u.len(),
{
    if u.len() > 0 {
        assert(b[p] == u[0]);
        let rest = u.drop_first();
        assert forall|i: int| 0 <= i < rest.len() implies b[p + 1 + i] == #[trigger] rest[i] && rest[i] != 0 by {
            assert(rest[i] == u[i + 1]);
            assert(b[p + (i + 1)] == u[i + 1]);
        }
        lemma_bytes_read(b, p + 1, rest);
        assert(seq![u[0]] + rest =~= u);
    } else {
        assert(b[p] == 0);
        assert(zbytes(b, p) =~= u);
    }
}

/// A string of single bytes that was written is read back, and its reader stops behind it:
/// its bytes are valid UTF-8, which the reader decodes, and decode to the text.
pub proof fn law_oem_string_round_trip(pre: Seq<u8>, s: Seq<char>, base: int, post: Seq<u8>)
    requires
        forall|i: int| 0 <= i < s.len() ==> s[i] != '\0',
    ensures
        ({
            let w = zstring_bytes(pre.len() as int, s, false, base);
            let m = pre + w + post;
            let n = pre.len() as int;
            &&& valid_utf8(zbytes(m, n))
            &&& decode_utf8(zbytes(m, n)) == s
            &&& zstring_end(m, n, false, base) == n + w.len()
        }),
{
    let n = pre.len() as int;
    let u = encode_utf8(s);
    let w = zstring_bytes(n, s, false, base);
    let m = pre + w + post;
    lemma_utf8_nonzero(s);
    assert forall|i: int| 0 <= i < u.len() implies m[n + i] == #[trigger] u[i] && u[i] != 0 by {
        assert(m[n + i] == w[i]);
    }
    assert(m[n + u.len()] == w[u.len() as int]);
    lemma_bytes_read(m, n, u);
    encode_utf8_valid_utf8(s);
    encode_utf8_decode_utf8(s);
}

/// What is read of the null-terminated string `t` that was written in either encoding.
pub open spec fn read_back(t: Seq<char>, unicode: bool) -> Seq<char> {
    if unicode {
        t
    } else {
        utf8_lossy(encode_utf8(t))
    }
}

/// A string that stands in a message is read from there.
pub proof fn lemma_string_at(b: Seq<u8>, p: int, t: Seq<char>, unicode: bool, base: int)
    requires
        0 <= base,
        string_at(b, p, t, unicode, base),
    ensures
        zstring_end(b, p, unicode, base) == p + zstring_bytes(p, t, unicode, base).len(),
        unicode ==> zstring_text(b, p, unicode, base) == t,
        !unicode ==> valid_utf8(zbytes(b, p)) && decode_utf8(zbytes(b, p)) == t,
        zstring_text(b, p, unicode, base) == read_back(t, unicode),
        unicode ==> (base + p + zstring_bytes(p, t, unicode, base).len()) % 2 == 0,
{
    let w = zstring_bytes(p, t, unicode, base);
    let pre = b.subrange(0, p);
    let post = b.subrange(p + w.len(), b.len() as int);
    assert(pre + w + post =~= b);
    if unicode {
        law_unicode_string_round_trip(pre, t, base, post);
    } else {
        law_oem_string_round_trip(pre, t, base, post);
        decode_utf8_encode_utf8(zbytes(b, p));
    }
}

/// A string that was written stands where it was written, in either encoding, whatever
/// is written in front of it and behind it: a reader that starts there reads it back.
pub proof fn law_written_string_stands(pre: Seq<u8>, s: Seq<char>, unicode: bool, base: int, post: Seq<u8>)
    requires
        forall|i: int| 0 <= i < s.len() ==> s[i] != '\0',
    ensures
        string_at(
            pre + zstring_bytes(pre.len() as int, s, unicode, base) + post,
            pre.len() as int,
            s,
            unicode,
            base,
        ),
{
    let w = zstring_bytes(pre.len() as int, s, unicode, base);
    assert((pre + w + post).subrange(pre.len() as int, pre.len() as int + w.len()) =~= w);
}

} // verus!
