//! What the protocol layers and a storage backend exchange.
use vstd::prelude::*;
use crate::smb::{status_code, Status};

verus! {

/// An open file or directory. `inner` names the backend's own state of it.
#[derive(Debug)]
pub struct OpenFile {
    /// Path on disk, kept in step across a rename by handle.
    pub path: String,
    /// Path relative to the share.
    pub rel: String,
    pub is_dir: bool,
    /// Read access was granted.
    pub can_read: bool,
    /// Write, append or delete access was granted.
    pub can_write: bool,
    /// Deletion on close was asked for when the file was opened.
    pub delete_on_close: bool,
    /// Deletion was asked for later and happens on close.
    pub delete_pending: bool,
    pub inner: u64,
}

/// A snapshot of a file's metadata. Times are creation, last access, last write
/// and change, as FILETIME.
#[derive(Debug, Clone, Copy)]
pub struct FileMeta {
    pub times: [u64; 4],
    pub attrs: u32,
    /// Allocated bytes.
    pub alloc: u64,
    /// End of file in bytes.
    pub eof: u64,
    pub is_dir: bool,
}

/// One entry of a directory.
#[derive(Debug)]
pub struct Entry {
    pub name: String,
    pub meta: FileMeta,
}

/// A change to a file's information.
#[derive(Debug)]
pub enum SetOp {
    /// Delete when the last handle closes, or no longer.
    Disposition { delete: bool },
    Allocation(u64),
    EndOfFile(u64),
    /// Update the last-write time, where one is given.
    Basic { write: Option<u64> },
    /// Rename to a path relative to the share root.
    Rename { replace_if_exists: bool, name: String },
}

/// How an operation of the operating system failed.
#[derive(Debug, Clone, Copy, PartialEq, Eq, Structural)]
pub enum IoKind {
    NotFound,
    PermissionDenied,
    AlreadyExists,
    DirectoryNotEmpty,
    /// Any other failure, with the system's number for it where it has one.
    Other(Option<i32>),
}

/// How a backend operation failed.
#[derive(Debug)]
pub enum VfsError {
    Io(IoKind),
    NotFound,
    AlreadyExists,
    AccessDenied,
    DirectoryNotEmpty,
    InvalidArgument,
    NotSupported,
    /// The path led to a symbolic link.
    StoppedOnSymlink { target: String, unparsed_len: u16, relative: bool },
}

/// The backend error closest to a failure of the operating system. One that has no closer
/// error is carried as it is.
pub open spec fn vfs_error_of(k: IoKind) -> VfsError {
    match k {
        IoKind::NotFound => VfsError::NotFound,
        IoKind::PermissionDenied => VfsError::AccessDenied,
        IoKind::AlreadyExists => VfsError::AlreadyExists,
        IoKind::DirectoryNotEmpty => VfsError::DirectoryNotEmpty,
        IoKind::Other(code) => VfsError::Io(IoKind::Other(code)),
    }
}

/// Maps a failure of the operating system to the closest backend error.
pub fn map_io(k: IoKind) -> (e: VfsError)
    ensures
        e == vfs_error_of(k),
{
    match k {
        IoKind::NotFound => VfsError::NotFound,
        IoKind::PermissionDenied => VfsError::AccessDenied,
        IoKind::AlreadyExists => VfsError::AlreadyExists,
        IoKind::DirectoryNotEmpty => VfsError::DirectoryNotEmpty,
        IoKind::Other(code) => VfsError::Io(IoKind::Other(code)),
    }
}

/// The status of a failed backend operation.
pub open spec fn vfs_status(e: VfsError) -> Status {
    match e {
        VfsError::NotFound => Status::OBJECT_PATH_NOT_FOUND,
        VfsError::AlreadyExists => Status::OBJECT_NAME_COLLISION,
        VfsError::AccessDenied => Status::ACCESS_DENIED,
        VfsError::DirectoryNotEmpty => Status::DIRECTORY_NOT_EMPTY,
        VfsError::InvalidArgument => Status::INVALID_PARAMETER,
        VfsError::NotSupported => Status::NOT_IMPLEMENTED,
        VfsError::StoppedOnSymlink { .. } => Status::STOPPED_ON_SYMLINK,
        VfsError::Io(_) => Status::UNSUCCESSFUL,
    }
}

/// Maps a backend error to a status.
pub fn vfs_err(e: &VfsError) -> (s: Status)
    ensures
        s == vfs_status(*e),
{
    match e {
        VfsError::NotFound => Status::OBJECT_PATH_NOT_FOUND,
        VfsError::AlreadyExists => Status::OBJECT_NAME_COLLISION,
        VfsError::AccessDenied => Status::ACCESS_DENIED,
        VfsError::DirectoryNotEmpty => Status::DIRECTORY_NOT_EMPTY,
        VfsError::InvalidArgument => Status::INVALID_PARAMETER,
        VfsError::NotSupported => Status::NOT_IMPLEMENTED,
        VfsError::StoppedOnSymlink { .. } => Status::STOPPED_ON_SYMLINK,
        VfsError::Io(_) => Status::UNSUCCESSFUL,
    }
}

/// No failure of storage is answered as success, and failures that a client acts upon
/// differently are told apart: what is missing, what is there already, what is not allowed,
/// and a directory that is not empty.
pub proof fn law_failures_are_told_apart(e: VfsError, k: IoKind)
    ensures
        vfs_status(e) != Status::SUCCESS,
        status_code(vfs_status(VfsError::NotFound)) == 0xC000_003A,
        status_code(vfs_status(VfsError::AlreadyExists)) == 0xC000_0035,
        status_code(vfs_status(VfsError::AccessDenied)) == 0xC000_0022,
        status_code(vfs_status(VfsError::DirectoryNotEmpty)) == 0xC000_0101,
        status_code(vfs_status(VfsError::InvalidArgument)) == 0xC000_000D,
        vfs_error_of(IoKind::NotFound) is NotFound,
        vfs_error_of(IoKind::PermissionDenied) is AccessDenied,
        vfs_error_of(IoKind::AlreadyExists) is AlreadyExists,
        vfs_error_of(IoKind::DirectoryNotEmpty) is DirectoryNotEmpty,
        k is Other ==> vfs_error_of(k) == VfsError::Io(k),
{
}

} // verus!
