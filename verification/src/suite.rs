//! The conformance suite: what each case does on a share, and when it is passed.
//!
//! A case is a list of steps that a driver carries out against a server, and a check on
//! what the driver reports. A case leaves nothing behind on the share.
use vstd::prelude::*;
use crate::text::{chars_of, lowercase, same_text, to_lowercase};

verus! {

/// How an open treats a file that is there, or is not.
#[derive(Clone, Copy, PartialEq, Eq, Structural, Debug)]
pub enum Disposition {
    /// The file must not be there.
    Create,
    /// The file must be there.
    Open,
    /// The file is created or emptied.
    OverwriteIf,
}

/// What is written.
#[derive(Clone, Copy, Debug)]
pub enum Fill {
    /// So many bytes of a pattern.
    Pattern { size: u64, seed: Option<u64> },
    Text(&'static str),
}

/// What information is about.
#[derive(Clone, Copy, PartialEq, Eq, Structural, Debug)]
pub enum InfoKind {
    File,
    Security,
}

/// What is done to a range.
#[derive(Clone, Copy, PartialEq, Eq, Structural, Debug)]
pub enum LockKind {
    Exclusive,
    Unlock,
}

/// One step of a case. Open files are named by a handle of the case's own.
#[derive(Clone, Copy, Debug)]
pub enum Step {
    Open {
        handle: &'static str,
        path: &'static str,
        stream: Option<&'static str>,
        disposition: Disposition,
        directory: bool,
        delete_on_close: bool,
        expect_fail: bool,
    },
    /// Closes a file, and deletes it where asked.
    Close { handle: &'static str, delete: bool },
    Write { handle: &'static str, offset: u64, data: Fill },
    Read { handle: &'static str, offset: u64, length: u64 },
    List { path: &'static str, pattern: &'static str },
    Ioctl { ctl_code: u32, input: Option<&'static str> },
    QueryInfo { handle: &'static str, kind: InfoKind, class: u8, additional: Option<u32> },
    SetEof { handle: &'static str, size: u64 },
    Rename { handle: &'static str, new_name: &'static str, replace: bool },
    /// Marks a file for deletion.
    Delete { handle: &'static str },
    Lock { handle: &'static str, action: LockKind, offset: u64, length: u64, expect_fail: bool },
}

/// How the driver connects.
#[derive(Clone, Copy, Debug)]
pub struct Opts {
    /// The one dialect that is offered.
    pub dialect: Option<&'static str>,
    pub signed: bool,
    pub encrypted: bool,
}

/// When a case is passed.
#[derive(Clone, Copy, Debug)]
pub enum Check {
    /// Every step went as expected.
    Completes,
    /// The steps did not succeed.
    Refused,
    /// A dialect was agreed on.
    Dialect(&'static str),
    /// What was read is what was written.
    SameCrc { write: usize, read: usize },
    /// The same; so many bytes were moved.
    Throughput { write: usize, read: usize, bytes: u64 },
    /// A listing has names, and does not have another.
    Lists {
        step: usize,
        without: Option<&'static str>,
        first: &'static str,
        second: Option<&'static str>,
    },
    /// The server ends the connection.
    Disconnects,
    /// The output has so many bytes at least.
    Output { step: usize, least: u64 },
    EndOfFile { step: usize, is: u64 },
    /// The information has so many bytes at least.
    Length { step: usize, least: u64 },
    /// A stream has this in its name.
    Stream { step: usize, part: &'static str },
}

/// One case of the suite.
#[derive(Debug)]
pub struct TestCase {
    pub id: &'static str,
    pub category: &'static str,
    /// Section of the protocol that the case is about.
    pub section: &'static str,
    /// What the case shows.
    pub about: &'static str,
    pub opts: Opts,
    pub steps: Vec<Step>,
    pub check: Check,
}

/// A case with its steps as a sequence.
pub struct CaseView {
    pub id: &'static str,
    pub category: &'static str,
    pub section: &'static str,
    pub about: &'static str,
    pub opts: Opts,
    pub steps: Seq<Step>,
    pub check: Check,
}

impl View for TestCase {
    type V = CaseView;

    open spec fn view(&self) -> CaseView {
        CaseView {
            id: self.id,
            category: self.category,
            section: self.section,
            about: self.about,
            opts: self.opts,
            steps: self.steps@,
            check: self.check,
        }
    }
}

/// Cases with their steps as sequences.
pub open spec fn case_views(v: Seq<TestCase>) -> Seq<CaseView> {
    Seq::new(v.len(), |i: int| v[i]@)
}

// ---------------- the catalogue ----------------

fn one(s: Step) -> (v: Vec<Step>)
    ensures
        v@ == seq![s],
{
    let mut v: Vec<Step> = Vec::new();
    v.push(s);
    assert(v@ =~= seq![s]);
    v
}

fn push_case(
    v: &mut Vec<TestCase>,
    id: &'static str,
    category: &'static str,
    section: &'static str,
    about: &'static str,
    opts: Opts,
    steps: Vec<Step>,
    check: Check,
)
    ensures
        case_views(final(v)@) == case_views(old(v)@).push(
            (CaseView { id, category, section, about, opts, steps: steps@, check }),
        ),
{
    v.push(TestCase { id, category, section, about, opts, steps, check });
    assert(case_views(v@) =~= case_views(old(v)@).push(
        (CaseView { id, category, section, about, opts, steps: steps@, check }),
    ));
}

/// Negotiating a dialect.
pub open spec fn negotiate_views() -> Seq<CaseView> {
    seq![
        CaseView {
            id: "negotiate.default",
            category: "Negotiate",
            section: "MS-SMB2 3.1.1 §2.2.3",
            about: "Connects with the highest common dialect and reaches the share",
            opts: Opts { dialect: None, signed: false, encrypted: false },
            steps: seq![
                Step::Open { handle: "d", path: "", stream: None, disposition: Disposition::Open, directory: true, delete_on_close: false, expect_fail: false },
                Step::Close { handle: "d", delete: false },
            ],
            check: Check::Completes,
        },
        CaseView {
            id: "negotiate.smb_3_1_1",
            category: "Negotiate",
            section: "MS-SMB2 §2.2.3.1.1",
            about: "Pins dialect 3.1.1 and verifies it is negotiated",
            opts: Opts { dialect: Some("3.1.1"), signed: false, encrypted: false },
            steps: seq![
                Step::Open { handle: "d", path: "", stream: None, disposition: Disposition::Open, directory: true, delete_on_close: false, expect_fail: false },
                Step::Close { handle: "d", delete: false },
            ],
            check: Check::Dialect("3.1.1"),
        },
        CaseView {
            id: "negotiate.smb_2_1_0",
            category: "Negotiate",
            section: "MS-SMB2 §2.2.3",
            about: "Pins dialect 2.1.0 and verifies it is negotiated",
            opts: Opts { dialect: Some("2.1.0"), signed: false, encrypted: false },
            steps: seq![
                Step::Open { handle: "d", path: "", stream: None, disposition: Disposition::Open, directory: true, delete_on_close: false, expect_fail: false },
                Step::Close { handle: "d", delete: false },
            ],
            check: Check::Dialect("2.1.0"),
        },
        CaseView {
            id: "negotiate.smb_2_0_2",
            category: "Negotiate",
            section: "MS-SMB2 §2.2.3",
            about: "Pins dialect 2.0.2 and verifies it is negotiated",
            opts: Opts { dialect: Some("2.0.2"), signed: false, encrypted: false },
            steps: seq![
                Step::Open { handle: "d", path: "", stream: None, disposition: Disposition::Open, directory: true, delete_on_close: false, expect_fail: false },
                Step::Close { handle: "d", delete: false },
            ],
            check: Check::Dialect("2.0.2"),
        },
    ]
}

fn negotiate_cases(v: &mut Vec<TestCase>)
    ensures
        case_views(final(v)@) == case_views(old(v)@) + negotiate_views(),
{
    push_case(
        v,
        "negotiate.default",
        "Negotiate",
        "MS-SMB2 3.1.1 §2.2.3",
        "Connects with the highest common dialect and reaches the share",
        Opts { dialect: None, signed: false, encrypted: false },
        vec![
            Step::Open { handle: "d", path: "", stream: None, disposition: Disposition::Open, directory: true, delete_on_close: false, expect_fail: false },
            Step::Close { handle: "d", delete: false },
        ],
        Check::Completes,
    );
    push_case(
        v,
        "negotiate.smb_3_1_1",
        "Negotiate",
        "MS-SMB2 §2.2.3.1.1",
        "Pins dialect 3.1.1 and verifies it is negotiated",
        Opts { dialect: Some("3.1.1"), signed: false, encrypted: false },
        vec![
            Step::Open { handle: "d", path: "", stream: None, disposition: Disposition::Open, directory: true, delete_on_close: false, expect_fail: false },
            Step::Close { handle: "d", delete: false },
        ],
        Check::Dialect("3.1.1"),
    );
    push_case(
        v,
        "negotiate.smb_2_1_0",
        "Negotiate",
        "MS-SMB2 §2.2.3",
        "Pins dialect 2.1.0 and verifies it is negotiated",
        Opts { dialect: Some("2.1.0"), signed: false, encrypted: false },
        vec![
            Step::Open { handle: "d", path: "", stream: None, disposition: Disposition::Open, directory: true, delete_on_close: false, expect_fail: false },
            Step::Close { handle: "d", delete: false },
        ],
        Check::Dialect("2.1.0"),
    );
    push_case(
        v,
        "negotiate.smb_2_0_2",
        "Negotiate",
        "MS-SMB2 §2.2.3",
        "Pins dialect 2.0.2 and verifies it is negotiated",
        Opts { dialect: Some("2.0.2"), signed: false, encrypted: false },
        vec![
            Step::Open { handle: "d", path: "", stream: None, disposition: Disposition::Open, directory: true, delete_on_close: false, expect_fail: false },
            Step::Close { handle: "d", delete: false },
        ],
        Check::Dialect("2.0.2"),
    );
    assert(case_views(v@) =~= case_views(old(v)@) + negotiate_views());
}

/// Sessions, encryption and trees.
pub open spec fn session_views() -> Seq<CaseView> {
    seq![
        CaseView {
            id: "session.ntlm_auth",
            category: "Session",
            section: "MS-SMB2 §2.2.5 / MS-NLMP",
            about: "SPNEGO/NTLMSSP session setup reaches the share",
            opts: Opts { dialect: None, signed: false, encrypted: false },
            steps: seq![
                Step::Open { handle: "d", path: "", stream: None, disposition: Disposition::Open, directory: true, delete_on_close: false, expect_fail: false },
                Step::Close { handle: "d", delete: false },
            ],
            check: Check::Completes,
        },
        CaseView {
            id: "session.signed",
            category: "Session",
            section: "MS-SMB2 §3.2.5.3",
            about: "Signed session (require_signing) completes an op",
            opts: Opts { dialect: None, signed: true, encrypted: false },
            steps: seq![
                Step::Open { handle: "d", path: "", stream: None, disposition: Disposition::Open, directory: true, delete_on_close: false, expect_fail: false },
                Step::Close { handle: "d", delete: false },
            ],
            check: Check::Completes,
        },
        CaseView {
            id: "encryption.aes_roundtrip",
            category: "Encryption",
            section: "MS-SMB2 §2.2.41",
            about: "Encrypted session write+read roundtrip preserves data",
            opts: Opts { dialect: None, signed: false, encrypted: true },
            steps: seq![
                Step::Open { handle: "f", path: "enc_probe.bin", stream: None, disposition: Disposition::OverwriteIf, directory: false, delete_on_close: true, expect_fail: false },
                Step::Write { handle: "f", offset: 0, data: Fill::Pattern { size: 4096, seed: Some(7) } },
                Step::Read { handle: "f", offset: 0, length: 4096 },
                Step::Close { handle: "f", delete: false },
            ],
            check: Check::SameCrc { write: 1, read: 2 },
        },
        CaseView {
            id: "tree.connect_share",
            category: "TreeConnect",
            section: "MS-SMB2 §2.2.9/10",
            about: "TREE_CONNECT to the configured share succeeds",
            opts: Opts { dialect: None, signed: false, encrypted: false },
            steps: seq![
                Step::Open { handle: "d", path: "", stream: None, disposition: Disposition::Open, directory: true, delete_on_close: false, expect_fail: false },
                Step::Close { handle: "d", delete: false },
            ],
            check: Check::Completes,
        },
    ]
}

fn session_cases(v: &mut Vec<TestCase>)
    ensures
        case_views(final(v)@) == case_views(old(v)@) + session_views(),
{
    push_case(
        v,
        "session.ntlm_auth",
        "Session",
        "MS-SMB2 §2.2.5 / MS-NLMP",
        "SPNEGO/NTLMSSP session setup reaches the share",
        Opts { dialect: None, signed: false, encrypted: false },
        vec![
            Step::Open { handle: "d", path: "", stream: None, disposition: Disposition::Open, directory: true, delete_on_close: false, expect_fail: false },
            Step::Close { handle: "d", delete: false },
        ],
        Check::Completes,
    );
    push_case(
        v,
        "session.signed",
        "Session",
        "MS-SMB2 §3.2.5.3",
        "Signed session (require_signing) completes an op",
        Opts { dialect: None, signed: true, encrypted: false },
        vec![
            Step::Open { handle: "d", path: "", stream: None, disposition: Disposition::Open, directory: true, delete_on_close: false, expect_fail: false },
            Step::Close { handle: "d", delete: false },
        ],
        Check::Completes,
    );
    push_case(
        v,
        "encryption.aes_roundtrip",
        "Encryption",
        "MS-SMB2 §2.2.41",
        "Encrypted session write+read roundtrip preserves data",
        Opts { dialect: None, signed: false, encrypted: true },
        vec![
            Step::Open { handle: "f", path: "enc_probe.bin", stream: None, disposition: Disposition::OverwriteIf, directory: false, delete_on_close: true, expect_fail: false },
            Step::Write { handle: "f", offset: 0, data: Fill::Pattern { size: 4096, seed: Some(7) } },
            Step::Read { handle: "f", offset: 0, length: 4096 },
            Step::Close { handle: "f", delete: false },
        ],
        Check::SameCrc { write: 1, read: 2 },
    );
    push_case(
        v,
        "tree.connect_share",
        "TreeConnect",
        "MS-SMB2 §2.2.9/10",
        "TREE_CONNECT to the configured share succeeds",
        Opts { dialect: None, signed: false, encrypted: false },
        vec![
            Step::Open { handle: "d", path: "", stream: None, disposition: Disposition::Open, directory: true, delete_on_close: false, expect_fail: false },
            Step::Close { handle: "d", delete: false },
        ],
        Check::Completes,
    );
    assert(case_views(v@) =~= case_views(old(v)@) + session_views());
}

/// Opening files and directories.
pub open spec fn create_views() -> Seq<CaseView> {
    seq![
        CaseView {
            id: "create.create_new",
            category: "Create",
            section: "MS-SMB2 §2.2.13",
            about: "FILE_CREATE makes a new file (delete-on-close cleans up)",
            opts: Opts { dialect: None, signed: false, encrypted: false },
            steps: seq![
                Step::Open { handle: "f", path: "ct_create_new.bin", stream: None, disposition: Disposition::Create, directory: false, delete_on_close: true, expect_fail: false },
                Step::Close { handle: "f", delete: false },
            ],
            check: Check::Completes,
        },
        CaseView {
            id: "create.overwrite_if",
            category: "Create",
            section: "MS-SMB2 §2.2.13",
            about: "FILE_OVERWRITE_IF opens-or-truncates and writes",
            opts: Opts { dialect: None, signed: false, encrypted: false },
            steps: seq![
                Step::Open { handle: "f", path: "ct_overwrite_if.bin", stream: None, disposition: Disposition::OverwriteIf, directory: false, delete_on_close: true, expect_fail: false },
                Step::Write { handle: "f", offset: 0, data: Fill::Pattern { size: 1024, seed: Some(7) } },
                Step::Read { handle: "f", offset: 0, length: 1024 },
                Step::Close { handle: "f", delete: false },
            ],
            check: Check::SameCrc { write: 1, read: 2 },
        },
        CaseView {
            id: "create.open_missing_fails",
            category: "Create",
            section: "MS-SMB2 §3.3.5.9",
            about: "FILE_OPEN of a missing file is refused",
            opts: Opts { dialect: None, signed: false, encrypted: false },
            steps: seq![
                Step::Open { handle: "f", path: "ct_definitely_absent_9271.bin", stream: None, disposition: Disposition::Open, directory: false, delete_on_close: false, expect_fail: false },
            ],
            check: Check::Refused,
        },
        CaseView {
            id: "create.directory_open",
            category: "Create",
            section: "MS-SMB2 §2.2.13",
            about: "Opens the share root as a directory handle",
            opts: Opts { dialect: None, signed: false, encrypted: false },
            steps: seq![
                Step::Open { handle: "d", path: "", stream: None, disposition: Disposition::Open, directory: true, delete_on_close: false, expect_fail: false },
                Step::Close { handle: "d", delete: false },
            ],
            check: Check::Completes,
        },
    ]
}

fn create_cases(v: &mut Vec<TestCase>)
    ensures
        case_views(final(v)@) == case_views(old(v)@) + create_views(),
{
    push_case(
        v,
        "create.create_new",
        "Create",
        "MS-SMB2 §2.2.13",
        "FILE_CREATE makes a new file (delete-on-close cleans up)",
        Opts { dialect: None, signed: false, encrypted: false },
        vec![
            Step::Open { handle: "f", path: "ct_create_new.bin", stream: None, disposition: Disposition::Create, directory: false, delete_on_close: true, expect_fail: false },
            Step::Close { handle: "f", delete: false },
        ],
        Check::Completes,
    );
    push_case(
        v,
        "create.overwrite_if",
        "Create",
        "MS-SMB2 §2.2.13",
        "FILE_OVERWRITE_IF opens-or-truncates and writes",
        Opts { dialect: None, signed: false, encrypted: false },
        vec![
            Step::Open { handle: "f", path: "ct_overwrite_if.bin", stream: None, disposition: Disposition::OverwriteIf, directory: false, delete_on_close: true, expect_fail: false },
            Step::Write { handle: "f", offset: 0, data: Fill::Pattern { size: 1024, seed: Some(7) } },
            Step::Read { handle: "f", offset: 0, length: 1024 },
            Step::Close { handle: "f", delete: false },
        ],
        Check::SameCrc { write: 1, read: 2 },
    );
    push_case(
        v,
        "create.open_missing_fails",
        "Create",
        "MS-SMB2 §3.3.5.9",
        "FILE_OPEN of a missing file is refused",
        Opts { dialect: None, signed: false, encrypted: false },
        one(Step::Open { handle: "f", path: "ct_definitely_absent_9271.bin", stream: None, disposition: Disposition::Open, directory: false, delete_on_close: false, expect_fail: false }),
        Check::Refused,
    );
    push_case(
        v,
        "create.directory_open",
        "Create",
        "MS-SMB2 §2.2.13",
        "Opens the share root as a directory handle",
        Opts { dialect: None, signed: false, encrypted: false },
        vec![
            Step::Open { handle: "d", path: "", stream: None, disposition: Disposition::Open, directory: true, delete_on_close: false, expect_fail: false },
            Step::Close { handle: "d", delete: false },
        ],
        Check::Completes,
    );
    assert(case_views(v@) =~= case_views(old(v)@) + create_views());
}

/// Reading and writing.
pub open spec fn readwrite_views() -> Seq<CaseView> {
    seq![
        CaseView {
            id: "readwrite.roundtrip_small",
            category: "ReadWrite",
            section: "MS-SMB2 §2.2.19/21",
            about: "Small write then read returns identical bytes",
            opts: Opts { dialect: None, signed: false, encrypted: false },
            steps: seq![
                Step::Open { handle: "f", path: "rw_small.bin", stream: None, disposition: Disposition::OverwriteIf, directory: false, delete_on_close: true, expect_fail: false },
                Step::Write { handle: "f", offset: 0, data: Fill::Pattern { size: 512, seed: Some(7) } },
                Step::Read { handle: "f", offset: 0, length: 512 },
                Step::Close { handle: "f", delete: false },
            ],
            check: Check::SameCrc { write: 1, read: 2 },
        },
        CaseView {
            id: "readwrite.offset",
            category: "ReadWrite",
            section: "MS-SMB2 §2.2.19",
            about: "Write at a non-zero offset reads back at that offset",
            opts: Opts { dialect: None, signed: false, encrypted: false },
            steps: seq![
                Step::Open { handle: "f", path: "rw_offset.bin", stream: None, disposition: Disposition::OverwriteIf, directory: false, delete_on_close: true, expect_fail: false },
                Step::Write { handle: "f", offset: 4096, data: Fill::Pattern { size: 256, seed: Some(11) } },
                Step::Read { handle: "f", offset: 4096, length: 256 },
                Step::Close { handle: "f", delete: false },
            ],
            check: Check::SameCrc { write: 1, read: 2 },
        },
        CaseView {
            id: "readwrite.large_mtu_256k",
            category: "ReadWrite",
            section: "MS-SMB2 §2.2.3.1.1 CAP_LARGE_MTU",
            about: "256 KiB single-op write+read (multi-credit) preserves data",
            opts: Opts { dialect: None, signed: false, encrypted: false },
            steps: seq![
                Step::Open { handle: "f", path: "rw_large.bin", stream: None, disposition: Disposition::OverwriteIf, directory: false, delete_on_close: true, expect_fail: false },
                Step::Write { handle: "f", offset: 0, data: Fill::Pattern { size: 262144, seed: Some(7) } },
                Step::Read { handle: "f", offset: 0, length: 262144 },
                Step::Close { handle: "f", delete: false },
            ],
            check: Check::Throughput { write: 1, read: 2, bytes: 524288 },
        },
    ]
}

fn readwrite_cases(v: &mut Vec<TestCase>)
    ensures
        case_views(final(v)@) == case_views(old(v)@) + readwrite_views(),
{
    push_case(
        v,
        "readwrite.roundtrip_small",
        "ReadWrite",
        "MS-SMB2 §2.2.19/21",
        "Small write then read returns identical bytes",
        Opts { dialect: None, signed: false, encrypted: false },
        vec![
            Step::Open { handle: "f", path: "rw_small.bin", stream: None, disposition: Disposition::OverwriteIf, directory: false, delete_on_close: true, expect_fail: false },
            Step::Write { handle: "f", offset: 0, data: Fill::Pattern { size: 512, seed: Some(7) } },
            Step::Read { handle: "f", offset: 0, length: 512 },
            Step::Close { handle: "f", delete: false },
        ],
        Check::SameCrc { write: 1, read: 2 },
    );
    push_case(
        v,
        "readwrite.offset",
        "ReadWrite",
        "MS-SMB2 §2.2.19",
        "Write at a non-zero offset reads back at that offset",
        Opts { dialect: None, signed: false, encrypted: false },
        vec![
            Step::Open { handle: "f", path: "rw_offset.bin", stream: None, disposition: Disposition::OverwriteIf, directory: false, delete_on_close: true, expect_fail: false },
            Step::Write { handle: "f", offset: 4096, data: Fill::Pattern { size: 256, seed: Some(11) } },
            Step::Read { handle: "f", offset: 4096, length: 256 },
            Step::Close { handle: "f", delete: false },
        ],
        Check::SameCrc { write: 1, read: 2 },
    );
    push_case(
        v,
        "readwrite.large_mtu_256k",
        "ReadWrite",
        "MS-SMB2 §2.2.3.1.1 CAP_LARGE_MTU",
        "256 KiB single-op write+read (multi-credit) preserves data",
        Opts { dialect: None, signed: false, encrypted: false },
        vec![
            Step::Open { handle: "f", path: "rw_large.bin", stream: None, disposition: Disposition::OverwriteIf, directory: false, delete_on_close: true, expect_fail: false },
            Step::Write { handle: "f", offset: 0, data: Fill::Pattern { size: 262144, seed: Some(7) } },
            Step::Read { handle: "f", offset: 0, length: 262144 },
            Step::Close { handle: "f", delete: false },
        ],
        Check::Throughput { write: 1, read: 2, bytes: 524288 },
    );
    assert(case_views(v@) =~= case_views(old(v)@) + readwrite_views());
}

/// Listing directories.
pub open spec fn directory_views() -> Seq<CaseView> {
    seq![
        CaseView {
            id: "directory.enumerate",
            category: "Directory",
            section: "MS-SMB2 §2.2.33/34",
            about: "Created files appear in a directory enumeration",
            opts: Opts { dialect: None, signed: false, encrypted: false },
            steps: seq![
                Step::Open { handle: "a", path: "dir_enum_a.bin", stream: None, disposition: Disposition::OverwriteIf, directory: false, delete_on_close: false, expect_fail: false },
                Step::Close { handle: "a", delete: false },
                Step::Open { handle: "b", path: "dir_enum_b.bin", stream: None, disposition: Disposition::OverwriteIf, directory: false, delete_on_close: false, expect_fail: false },
                Step::Close { handle: "b", delete: false },
                Step::List { path: "", pattern: "dir_enum_*" },
                Step::Open { handle: "a", path: "dir_enum_a.bin", stream: None, disposition: Disposition::Open, directory: false, delete_on_close: true, expect_fail: false },
                Step::Close { handle: "a", delete: false },
                Step::Open { handle: "b", path: "dir_enum_b.bin", stream: None, disposition: Disposition::Open, directory: false, delete_on_close: true, expect_fail: false },
                Step::Close { handle: "b", delete: false },
            ],
            check: Check::Lists { step: 4, without: None, first: "dir_enum_a.bin", second: Some("dir_enum_b.bin") },
        },
        CaseView {
            id: "directory.pattern_filter",
            category: "Directory",
            section: "MS-SMB2 §2.2.33.1 / MS-CIFS wildcard",
            about: "A wildcard pattern only returns matching names",
            opts: Opts { dialect: None, signed: false, encrypted: false },
            steps: seq![
                Step::Open { handle: "m", path: "pat_match.bin", stream: None, disposition: Disposition::OverwriteIf, directory: false, delete_on_close: false, expect_fail: false },
                Step::Close { handle: "m", delete: false },
                Step::Open { handle: "o", path: "pat_other.bin", stream: None, disposition: Disposition::OverwriteIf, directory: false, delete_on_close: false, expect_fail: false },
                Step::Close { handle: "o", delete: false },
                Step::List { path: "", pattern: "pat_match*" },
                Step::Open { handle: "m", path: "pat_match.bin", stream: None, disposition: Disposition::Open, directory: false, delete_on_close: true, expect_fail: false },
                Step::Close { handle: "m", delete: false },
                Step::Open { handle: "o", path: "pat_other.bin", stream: None, disposition: Disposition::Open, directory: false, delete_on_close: true, expect_fail: false },
                Step::Close { handle: "o", delete: false },
            ],
            check: Check::Lists { step: 4, without: Some("pat_other.bin"), first: "pat_match.bin", second: None },
        },
    ]
}

fn directory_cases(v: &mut Vec<TestCase>)
    ensures
        case_views(final(v)@) == case_views(old(v)@) + directory_views(),
{
    push_case(
        v,
        "directory.enumerate",
        "Directory",
        "MS-SMB2 §2.2.33/34",
        "Created files appear in a directory enumeration",
        Opts { dialect: None, signed: false, encrypted: false },
        vec![
            Step::Open { handle: "a", path: "dir_enum_a.bin", stream: None, disposition: Disposition::OverwriteIf, directory: false, delete_on_close: false, expect_fail: false },
            Step::Close { handle: "a", delete: false },
            Step::Open { handle: "b", path: "dir_enum_b.bin", stream: None, disposition: Disposition::OverwriteIf, directory: false, delete_on_close: false, expect_fail: false },
            Step::Close { handle: "b", delete: false },
            Step::List { path: "", pattern: "dir_enum_*" },
            Step::Open { handle: "a", path: "dir_enum_a.bin", stream: None, disposition: Disposition::Open, directory: false, delete_on_close: true, expect_fail: false },
            Step::Close { handle: "a", delete: false },
            Step::Open { handle: "b", path: "dir_enum_b.bin", stream: None, disposition: Disposition::Open, directory: false, delete_on_close: true, expect_fail: false },
            Step::Close { handle: "b", delete: false },
        ],
        Check::Lists { step: 4, without: None, first: "dir_enum_a.bin", second: Some("dir_enum_b.bin") },
    );
    push_case(
        v,
        "directory.pattern_filter",
        "Directory",
        "MS-SMB2 §2.2.33.1 / MS-CIFS wildcard",
        "A wildcard pattern only returns matching names",
        Opts { dialect: None, signed: false, encrypted: false },
        vec![
            Step::Open { handle: "m", path: "pat_match.bin", stream: None, disposition: Disposition::OverwriteIf, directory: false, delete_on_close: false, expect_fail: false },
            Step::Close { handle: "m", delete: false },
            Step::Open { handle: "o", path: "pat_other.bin", stream: None, disposition: Disposition::OverwriteIf, directory: false, delete_on_close: false, expect_fail: false },
            Step::Close { handle: "o", delete: false },
            Step::List { path: "", pattern: "pat_match*" },
            Step::Open { handle: "m", path: "pat_match.bin", stream: None, disposition: Disposition::Open, directory: false, delete_on_close: true, expect_fail: false },
            Step::Close { handle: "m", delete: false },
            Step::Open { handle: "o", path: "pat_other.bin", stream: None, disposition: Disposition::Open, directory: false, delete_on_close: true, expect_fail: false },
            Step::Close { handle: "o", delete: false },
        ],
        Check::Lists { step: 4, without: Some("pat_other.bin"), first: "pat_match.bin", second: None },
    );
    assert(case_views(v@) =~= case_views(old(v)@) + directory_views());
}

/// Device control.
pub open spec fn ioctl_views() -> Seq<CaseView> {
    seq![
        CaseView {
            id: "ioctl.validate_negotiate_info",
            category: "Ioctl",
            section: "MS-SMB2 §3.3.5.15.12",
            about: "FSCTL_VALIDATE_NEGOTIATE_INFO on 3.1.1 terminates the connection",
            opts: Opts { dialect: Some("3.1.1"), signed: false, encrypted: false },
            steps: seq![
                Step::Ioctl { ctl_code: 0x0014_0204, input: Some("AAAAAAAAAAAAAAAAAAAAAAAAAAAAAAAA") },
            ],
            check: Check::Disconnects,
        },
        CaseView {
            id: "ioctl.query_network_interface_info",
            category: "Ioctl",
            section: "MS-SMB2 §3.3.5.15.4",
            about: "FSCTL_QUERY_NETWORK_INTERFACE_INFO returns interface data",
            opts: Opts { dialect: Some("3.1.1"), signed: false, encrypted: false },
            steps: seq![
                Step::Ioctl { ctl_code: 0x0014_01FC, input: None },
            ],
            check: Check::Output { step: 0, least: 152 },
        },
    ]
}

fn ioctl_cases(v: &mut Vec<TestCase>)
    ensures
        case_views(final(v)@) == case_views(old(v)@) + ioctl_views(),
{
    push_case(
        v,
        "ioctl.validate_negotiate_info",
        "Ioctl",
        "MS-SMB2 §3.3.5.15.12",
        "FSCTL_VALIDATE_NEGOTIATE_INFO on 3.1.1 terminates the connection",
        Opts { dialect: Some("3.1.1"), signed: false, encrypted: false },
        one(Step::Ioctl { ctl_code: 0x0014_0204, input: Some("AAAAAAAAAAAAAAAAAAAAAAAAAAAAAAAA") }),
        Check::Disconnects,
    );
    push_case(
        v,
        "ioctl.query_network_interface_info",
        "Ioctl",
        "MS-SMB2 §3.3.5.15.4",
        "FSCTL_QUERY_NETWORK_INTERFACE_INFO returns interface data",
        Opts { dialect: Some("3.1.1"), signed: false, encrypted: false },
        one(Step::Ioctl { ctl_code: 0x0014_01FC, input: None }),
        Check::Output { step: 0, least: 152 },
    );
    assert(case_views(v@) =~= case_views(old(v)@) + ioctl_views());
}

/// Reading information.
pub open spec fn queryinfo_views() -> Seq<CaseView> {
    seq![
        CaseView {
            id: "queryinfo.standard",
            category: "QueryInfo",
            section: "MS-FSCC §2.4.41 FileStandardInformation",
            about: "FileStandardInformation reports the written EOF",
            opts: Opts { dialect: None, signed: false, encrypted: false },
            steps: seq![
                Step::Open { handle: "f", path: "qi_std.bin", stream: None, disposition: Disposition::OverwriteIf, directory: false, delete_on_close: true, expect_fail: false },
                Step::Write { handle: "f", offset: 0, data: Fill::Pattern { size: 1000, seed: None } },
                Step::QueryInfo { handle: "f", kind: InfoKind::File, class: 5, additional: None },
                Step::Close { handle: "f", delete: false },
            ],
            check: Check::EndOfFile { step: 2, is: 1000 },
        },
        CaseView {
            id: "queryinfo.all_information",
            category: "QueryInfo",
            section: "MS-FSCC §2.4.2 FileAllInformation",
            about: "FileAllInformation returns a populated buffer",
            opts: Opts { dialect: None, signed: false, encrypted: false },
            steps: seq![
                Step::Open { handle: "f", path: "qi_all.bin", stream: None, disposition: Disposition::OverwriteIf, directory: false, delete_on_close: true, expect_fail: false },
                Step::QueryInfo { handle: "f", kind: InfoKind::File, class: 18, additional: None },
                Step::Close { handle: "f", delete: false },
            ],
            check: Check::Length { step: 1, least: 1 },
        },
        CaseView {
            id: "queryinfo.network_open",
            category: "QueryInfo",
            section: "MS-FSCC §2.4.34 FileNetworkOpenInformation",
            about: "FileNetworkOpenInformation returns a populated buffer",
            opts: Opts { dialect: None, signed: false, encrypted: false },
            steps: seq![
                Step::Open { handle: "f", path: "qi_netopen.bin", stream: None, disposition: Disposition::OverwriteIf, directory: false, delete_on_close: true, expect_fail: false },
                Step::QueryInfo { handle: "f", kind: InfoKind::File, class: 34, additional: None },
                Step::Close { handle: "f", delete: false },
            ],
            check: Check::Length { step: 1, least: 1 },
        },
    ]
}

fn queryinfo_cases(v: &mut Vec<TestCase>)
    ensures
        case_views(final(v)@) == case_views(old(v)@) + queryinfo_views(),
{
    push_case(
        v,
        "queryinfo.standard",
        "QueryInfo",
        "MS-FSCC §2.4.41 FileStandardInformation",
        "FileStandardInformation reports the written EOF",
        Opts { dialect: None, signed: false, encrypted: false },
        vec![
            Step::Open { handle: "f", path: "qi_std.bin", stream: None, disposition: Disposition::OverwriteIf, directory: false, delete_on_close: true, expect_fail: false },
            Step::Write { handle: "f", offset: 0, data: Fill::Pattern { size: 1000, seed: None } },
            Step::QueryInfo { handle: "f", kind: InfoKind::File, class: 5, additional: None },
            Step::Close { handle: "f", delete: false },
        ],
        Check::EndOfFile { step: 2, is: 1000 },
    );
    push_case(
        v,
        "queryinfo.all_information",
        "QueryInfo",
        "MS-FSCC §2.4.2 FileAllInformation",
        "FileAllInformation returns a populated buffer",
        Opts { dialect: None, signed: false, encrypted: false },
        vec![
            Step::Open { handle: "f", path: "qi_all.bin", stream: None, disposition: Disposition::OverwriteIf, directory: false, delete_on_close: true, expect_fail: false },
            Step::QueryInfo { handle: "f", kind: InfoKind::File, class: 18, additional: None },
            Step::Close { handle: "f", delete: false },
        ],
        Check::Length { step: 1, least: 1 },
    );
    push_case(
        v,
        "queryinfo.network_open",
        "QueryInfo",
        "MS-FSCC §2.4.34 FileNetworkOpenInformation",
        "FileNetworkOpenInformation returns a populated buffer",
        Opts { dialect: None, signed: false, encrypted: false },
        vec![
            Step::Open { handle: "f", path: "qi_netopen.bin", stream: None, disposition: Disposition::OverwriteIf, directory: false, delete_on_close: true, expect_fail: false },
            Step::QueryInfo { handle: "f", kind: InfoKind::File, class: 34, additional: None },
            Step::Close { handle: "f", delete: false },
        ],
        Check::Length { step: 1, least: 1 },
    );
    assert(case_views(v@) =~= case_views(old(v)@) + queryinfo_views());
}

/// Changing information.
pub open spec fn setinfo_views() -> Seq<CaseView> {
    seq![
        CaseView {
            id: "setinfo.end_of_file",
            category: "SetInfo",
            section: "MS-FSCC §2.4.13 FileEndOfFileInformation",
            about: "Setting EOF resizes the file (verified via query)",
            opts: Opts { dialect: None, signed: false, encrypted: false },
            steps: seq![
                Step::Open { handle: "f", path: "si_eof.bin", stream: None, disposition: Disposition::OverwriteIf, directory: false, delete_on_close: true, expect_fail: false },
                Step::SetEof { handle: "f", size: 4096 },
                Step::QueryInfo { handle: "f", kind: InfoKind::File, class: 5, additional: None },
                Step::Close { handle: "f", delete: false },
            ],
            check: Check::EndOfFile { step: 2, is: 4096 },
        },
        CaseView {
            id: "setinfo.rename",
            category: "SetInfo",
            section: "MS-FSCC §2.4.37 FileRenameInformation",
            about: "Rename moves the file to the new name",
            opts: Opts { dialect: None, signed: false, encrypted: false },
            steps: seq![
                Step::Open { handle: "f", path: "si_rename_a.bin", stream: None, disposition: Disposition::OverwriteIf, directory: false, delete_on_close: false, expect_fail: false },
                Step::Rename { handle: "f", new_name: "si_rename_b.bin", replace: true },
                Step::Close { handle: "f", delete: false },
                Step::List { path: "", pattern: "si_rename_*" },
                Step::Open { handle: "b", path: "si_rename_b.bin", stream: None, disposition: Disposition::Open, directory: false, delete_on_close: true, expect_fail: false },
                Step::Close { handle: "b", delete: false },
            ],
            check: Check::Lists { step: 3, without: Some("si_rename_a.bin"), first: "si_rename_b.bin", second: None },
        },
        CaseView {
            id: "setinfo.delete_disposition",
            category: "SetInfo",
            section: "MS-FSCC §2.4.11 FileDispositionInformation",
            about: "Delete-on-close disposition removes the file",
            opts: Opts { dialect: None, signed: false, encrypted: false },
            steps: seq![
                Step::Open { handle: "f", path: "si_del.bin", stream: None, disposition: Disposition::OverwriteIf, directory: false, delete_on_close: false, expect_fail: false },
                Step::Delete { handle: "f" },
                Step::Close { handle: "f", delete: false },
                Step::Open { handle: "g", path: "si_del.bin", stream: None, disposition: Disposition::Open, directory: false, delete_on_close: false, expect_fail: true },
            ],
            check: Check::Completes,
        },
    ]
}

fn setinfo_cases(v: &mut Vec<TestCase>)
    ensures
        case_views(final(v)@) == case_views(old(v)@) + setinfo_views(),
{
    push_case(
        v,
        "setinfo.end_of_file",
        "SetInfo",
        "MS-FSCC §2.4.13 FileEndOfFileInformation",
        "Setting EOF resizes the file (verified via query)",
        Opts { dialect: None, signed: false, encrypted: false },
        vec![
            Step::Open { handle: "f", path: "si_eof.bin", stream: None, disposition: Disposition::OverwriteIf, directory: false, delete_on_close: true, expect_fail: false },
            Step::SetEof { handle: "f", size: 4096 },
            Step::QueryInfo { handle: "f", kind: InfoKind::File, class: 5, additional: None },
            Step::Close { handle: "f", delete: false },
        ],
        Check::EndOfFile { step: 2, is: 4096 },
    );
    push_case(
        v,
        "setinfo.rename",
        "SetInfo",
        "MS-FSCC §2.4.37 FileRenameInformation",
        "Rename moves the file to the new name",
        Opts { dialect: None, signed: false, encrypted: false },
        vec![
            Step::Open { handle: "f", path: "si_rename_a.bin", stream: None, disposition: Disposition::OverwriteIf, directory: false, delete_on_close: false, expect_fail: false },
            Step::Rename { handle: "f", new_name: "si_rename_b.bin", replace: true },
            Step::Close { handle: "f", delete: false },
            Step::List { path: "", pattern: "si_rename_*" },
            Step::Open { handle: "b", path: "si_rename_b.bin", stream: None, disposition: Disposition::Open, directory: false, delete_on_close: true, expect_fail: false },
            Step::Close { handle: "b", delete: false },
        ],
        Check::Lists { step: 3, without: Some("si_rename_a.bin"), first: "si_rename_b.bin", second: None },
    );
    push_case(
        v,
        "setinfo.delete_disposition",
        "SetInfo",
        "MS-FSCC §2.4.11 FileDispositionInformation",
        "Delete-on-close disposition removes the file",
        Opts { dialect: None, signed: false, encrypted: false },
        vec![
            Step::Open { handle: "f", path: "si_del.bin", stream: None, disposition: Disposition::OverwriteIf, directory: false, delete_on_close: false, expect_fail: false },
            Step::Delete { handle: "f" },
            Step::Close { handle: "f", delete: false },
            Step::Open { handle: "g", path: "si_del.bin", stream: None, disposition: Disposition::Open, directory: false, delete_on_close: false, expect_fail: true },
        ],
        Check::Completes,
    );
    assert(case_views(v@) =~= case_views(old(v)@) + setinfo_views());
}

/// Locking ranges.
pub open spec fn locking_views() -> Seq<CaseView> {
    seq![
        CaseView {
            id: "locking.exclusive_conflict",
            category: "Locking",
            section: "MS-SMB2 §2.2.26 / §3.3.5.14",
            about: "An exclusive lock blocks a conflicting lock until released",
            opts: Opts { dialect: None, signed: false, encrypted: false },
            steps: seq![
                Step::Open { handle: "a", path: "lk_conf.bin", stream: None, disposition: Disposition::OverwriteIf, directory: false, delete_on_close: false, expect_fail: false },
                Step::Write { handle: "a", offset: 0, data: Fill::Pattern { size: 100, seed: None } },
                Step::Open { handle: "b", path: "lk_conf.bin", stream: None, disposition: Disposition::Open, directory: false, delete_on_close: false, expect_fail: false },
                Step::Lock { handle: "a", action: LockKind::Exclusive, offset: 0, length: 50, expect_fail: false },
                Step::Lock { handle: "b", action: LockKind::Exclusive, offset: 0, length: 50, expect_fail: true },
                Step::Lock { handle: "a", action: LockKind::Unlock, offset: 0, length: 50, expect_fail: false },
                Step::Lock { handle: "b", action: LockKind::Exclusive, offset: 0, length: 50, expect_fail: false },
                Step::Lock { handle: "b", action: LockKind::Unlock, offset: 0, length: 50, expect_fail: false },
                Step::Close { handle: "b", delete: false },
                Step::Close { handle: "a", delete: true },
            ],
            check: Check::Completes,
        },
        CaseView {
            id: "locking.unlock_roundtrip",
            category: "Locking",
            section: "MS-SMB2 §2.2.26",
            about: "Lock then unlock a range on one handle",
            opts: Opts { dialect: None, signed: false, encrypted: false },
            steps: seq![
                Step::Open { handle: "f", path: "lk_rt.bin", stream: None, disposition: Disposition::OverwriteIf, directory: false, delete_on_close: true, expect_fail: false },
                Step::Write { handle: "f", offset: 0, data: Fill::Pattern { size: 64, seed: None } },
                Step::Lock { handle: "f", action: LockKind::Exclusive, offset: 0, length: 32, expect_fail: false },
                Step::Lock { handle: "f", action: LockKind::Unlock, offset: 0, length: 32, expect_fail: false },
                Step::Close { handle: "f", delete: false },
            ],
            check: Check::Completes,
        },
    ]
}

fn locking_cases(v: &mut Vec<TestCase>)
    ensures
        case_views(final(v)@) == case_views(old(v)@) + locking_views(),
{
    push_case(
        v,
        "locking.exclusive_conflict",
        "Locking",
        "MS-SMB2 §2.2.26 / §3.3.5.14",
        "An exclusive lock blocks a conflicting lock until released",
        Opts { dialect: None, signed: false, encrypted: false },
        vec![
            Step::Open { handle: "a", path: "lk_conf.bin", stream: None, disposition: Disposition::OverwriteIf, directory: false, delete_on_close: false, expect_fail: false },
            Step::Write { handle: "a", offset: 0, data: Fill::Pattern { size: 100, seed: None } },
            Step::Open { handle: "b", path: "lk_conf.bin", stream: None, disposition: Disposition::Open, directory: false, delete_on_close: false, expect_fail: false },
            Step::Lock { handle: "a", action: LockKind::Exclusive, offset: 0, length: 50, expect_fail: false },
            Step::Lock { handle: "b", action: LockKind::Exclusive, offset: 0, length: 50, expect_fail: true },
            Step::Lock { handle: "a", action: LockKind::Unlock, offset: 0, length: 50, expect_fail: false },
            Step::Lock { handle: "b", action: LockKind::Exclusive, offset: 0, length: 50, expect_fail: false },
            Step::Lock { handle: "b", action: LockKind::Unlock, offset: 0, length: 50, expect_fail: false },
            Step::Close { handle: "b", delete: false },
            Step::Close { handle: "a", delete: true },
        ],
        Check::Completes,
    );
    push_case(
        v,
        "locking.unlock_roundtrip",
        "Locking",
        "MS-SMB2 §2.2.26",
        "Lock then unlock a range on one handle",
        Opts { dialect: None, signed: false, encrypted: false },
        vec![
            Step::Open { handle: "f", path: "lk_rt.bin", stream: None, disposition: Disposition::OverwriteIf, directory: false, delete_on_close: true, expect_fail: false },
            Step::Write { handle: "f", offset: 0, data: Fill::Pattern { size: 64, seed: None } },
            Step::Lock { handle: "f", action: LockKind::Exclusive, offset: 0, length: 32, expect_fail: false },
            Step::Lock { handle: "f", action: LockKind::Unlock, offset: 0, length: 32, expect_fail: false },
            Step::Close { handle: "f", delete: false },
        ],
        Check::Completes,
    );
    assert(case_views(v@) =~= case_views(old(v)@) + locking_views());
}

/// Named streams and descriptors.
pub open spec fn streams_views() -> Seq<CaseView> {
    seq![
        CaseView {
            id: "streams.roundtrip",
            category: "Streams",
            section: "MS-FSCC §2.6 named streams",
            about: "Write and read back a named alternate data stream",
            opts: Opts { dialect: None, signed: false, encrypted: false },
            steps: seq![
                Step::Open { handle: "base", path: "ads_rt.bin", stream: None, disposition: Disposition::OverwriteIf, directory: false, delete_on_close: false, expect_fail: false },
                Step::Write { handle: "base", offset: 0, data: Fill::Text("base") },
                Step::Close { handle: "base", delete: false },
                Step::Open { handle: "s", path: "ads_rt.bin", stream: Some("alt"), disposition: Disposition::OverwriteIf, directory: false, delete_on_close: false, expect_fail: false },
                Step::Write { handle: "s", offset: 0, data: Fill::Pattern { size: 256, seed: Some(13) } },
                Step::Read { handle: "s", offset: 0, length: 256 },
                Step::Close { handle: "s", delete: false },
                Step::Open { handle: "base2", path: "ads_rt.bin", stream: None, disposition: Disposition::Open, directory: false, delete_on_close: true, expect_fail: false },
                Step::Close { handle: "base2", delete: false },
            ],
            check: Check::SameCrc { write: 4, read: 5 },
        },
        CaseView {
            id: "streams.enumerate",
            category: "Streams",
            section: "MS-FSCC §2.4.40 FileStreamInformation",
            about: "Stream enumeration lists the named stream",
            opts: Opts { dialect: None, signed: false, encrypted: false },
            steps: seq![
                Step::Open { handle: "base", path: "ads_enum.bin", stream: None, disposition: Disposition::OverwriteIf, directory: false, delete_on_close: false, expect_fail: false },
                Step::Write { handle: "base", offset: 0, data: Fill::Text("base") },
                Step::Close { handle: "base", delete: false },
                Step::Open { handle: "s", path: "ads_enum.bin", stream: Some("alt"), disposition: Disposition::OverwriteIf, directory: false, delete_on_close: false, expect_fail: false },
                Step::Write { handle: "s", offset: 0, data: Fill::Text("streamdata") },
                Step::Close { handle: "s", delete: false },
                Step::Open { handle: "b2", path: "ads_enum.bin", stream: None, disposition: Disposition::Open, directory: false, delete_on_close: false, expect_fail: false },
                Step::QueryInfo { handle: "b2", kind: InfoKind::File, class: 22, additional: None },
                Step::Close { handle: "b2", delete: true },
            ],
            check: Check::Stream { step: 7, part: ":alt:" },
        },
        CaseView {
            id: "security.query_descriptor",
            category: "Security",
            section: "MS-FSCC §2.4.6 / MS-DTYP §2.4.6",
            about: "Query owner/group/DACL returns a security descriptor",
            opts: Opts { dialect: None, signed: false, encrypted: false },
            steps: seq![
                Step::Open { handle: "f", path: "sd_q.bin", stream: None, disposition: Disposition::OverwriteIf, directory: false, delete_on_close: true, expect_fail: false },
                Step::QueryInfo { handle: "f", kind: InfoKind::Security, class: 0, additional: Some(7) },
                Step::Close { handle: "f", delete: false },
            ],
            check: Check::Length { step: 1, least: 20 },
        },
    ]
}

fn streams_cases(v: &mut Vec<TestCase>)
    ensures
        case_views(final(v)@) == case_views(old(v)@) + streams_views(),
{
    push_case(
        v,
        "streams.roundtrip",
        "Streams",
        "MS-FSCC §2.6 named streams",
        "Write and read back a named alternate data stream",
        Opts { dialect: None, signed: false, encrypted: false },
        vec![
            Step::Open { handle: "base", path: "ads_rt.bin", stream: None, disposition: Disposition::OverwriteIf, directory: false, delete_on_close: false, expect_fail: false },
            Step::Write { handle: "base", offset: 0, data: Fill::Text("base") },
            Step::Close { handle: "base", delete: false },
            Step::Open { handle: "s", path: "ads_rt.bin", stream: Some("alt"), disposition: Disposition::OverwriteIf, directory: false, delete_on_close: false, expect_fail: false },
            Step::Write { handle: "s", offset: 0, data: Fill::Pattern { size: 256, seed: Some(13) } },
            Step::Read { handle: "s", offset: 0, length: 256 },
            Step::Close { handle: "s", delete: false },
            Step::Open { handle: "base2", path: "ads_rt.bin", stream: None, disposition: Disposition::Open, directory: false, delete_on_close: true, expect_fail: false },
            Step::Close { handle: "base2", delete: false },
        ],
        Check::SameCrc { write: 4, read: 5 },
    );
    push_case(
        v,
        "streams.enumerate",
        "Streams",
        "MS-FSCC §2.4.40 FileStreamInformation",
        "Stream enumeration lists the named stream",
        Opts { dialect: None, signed: false, encrypted: false },
        vec![
            Step::Open { handle: "base", path: "ads_enum.bin", stream: None, disposition: Disposition::OverwriteIf, directory: false, delete_on_close: false, expect_fail: false },
            Step::Write { handle: "base", offset: 0, data: Fill::Text("base") },
            Step::Close { handle: "base", delete: false },
            Step::Open { handle: "s", path: "ads_enum.bin", stream: Some("alt"), disposition: Disposition::OverwriteIf, directory: false, delete_on_close: false, expect_fail: false },
            Step::Write { handle: "s", offset: 0, data: Fill::Text("streamdata") },
            Step::Close { handle: "s", delete: false },
            Step::Open { handle: "b2", path: "ads_enum.bin", stream: None, disposition: Disposition::Open, directory: false, delete_on_close: false, expect_fail: false },
            Step::QueryInfo { handle: "b2", kind: InfoKind::File, class: 22, additional: None },
            Step::Close { handle: "b2", delete: true },
        ],
        Check::Stream { step: 7, part: ":alt:" },
    );
    push_case(
        v,
        "security.query_descriptor",
        "Security",
        "MS-FSCC §2.4.6 / MS-DTYP §2.4.6",
        "Query owner/group/DACL returns a security descriptor",
        Opts { dialect: None, signed: false, encrypted: false },
        vec![
            Step::Open { handle: "f", path: "sd_q.bin", stream: None, disposition: Disposition::OverwriteIf, directory: false, delete_on_close: true, expect_fail: false },
            Step::QueryInfo { handle: "f", kind: InfoKind::Security, class: 0, additional: Some(7) },
            Step::Close { handle: "f", delete: false },
        ],
        Check::Length { step: 1, least: 20 },
    );
    assert(case_views(v@) =~= case_views(old(v)@) + streams_views());
}

/// The whole catalogue, in a fixed order.
pub open spec fn catalogue() -> Seq<CaseView> {
    negotiate_views() + session_views() + create_views() + readwrite_views() + directory_views() + ioctl_views() + queryinfo_views() + setinfo_views() + locking_views() + streams_views()
}

/// The whole catalogue, in a fixed order.
pub fn all() -> (v: Vec<TestCase>)
    ensures
        case_views(v@) == catalogue(),
{
    let mut v: Vec<TestCase> = Vec::new();
    assert(case_views(v@) =~= Seq::<CaseView>::empty());
    negotiate_cases(&mut v);
    session_cases(&mut v);
    create_cases(&mut v);
    readwrite_cases(&mut v);
    directory_cases(&mut v);
    ioctl_cases(&mut v);
    queryinfo_cases(&mut v);
    setinfo_cases(&mut v);
    locking_cases(&mut v);
    streams_cases(&mut v);
    assert(case_views(v@) =~= catalogue());
    v
}

// ---------------- no residue ----------------

/// What a case does to a share: the files that are there, and for each handle the file
/// it is open on and whether that goes when the handle is closed.
pub struct ShareState {
    pub files: Set<Seq<char>>,
    pub open: Map<Seq<char>, (Seq<char>, bool)>,
}

/// The share after a step that went as expected.
pub open spec fn after_step(s: ShareState, step: Step) -> ShareState {
    match step {
        Step::Open { handle, path, stream, disposition, directory, delete_on_close, expect_fail } => if expect_fail {
            s
        } else {
            ShareState {
                files: if directory || disposition == Disposition::Open {
                    s.files
                } else {
                    s.files.insert(path@)
                },
                open: s.open.insert(handle@, (path@, delete_on_close)),
            }
        },
        Step::Close { handle, delete } => ShareState {
            files: if s.open.contains_key(handle@) && (delete || s.open[handle@].1) {
                s.files.remove(s.open[handle@].0)
            } else {
                s.files
            },
            open: s.open.remove(handle@),
        },
        Step::Rename { handle, new_name, replace } => ShareState {
            files: s.files.remove(s.open[handle@].0).insert(new_name@),
            open: s.open.insert(handle@, (new_name@, s.open[handle@].1)),
        },
        Step::Delete { handle } => ShareState {
            files: s.files,
            open: s.open.insert(handle@, (s.open[handle@].0, true)),
        },
        _ => s,
    }
}

/// The share after the first `n` steps on an empty share.
pub open spec fn after_steps(steps: Seq<Step>, n: int) -> ShareState
    decreases n,
{
    if n <= 0 {
        ShareState { files: Set::empty(), open: Map::empty() }
    } else {
        after_step(after_steps(steps, n - 1), steps[n - 1])
    }
}

/// Whether a case leaves no file behind on an empty share.
pub open spec fn leaves_nothing(c: CaseView) -> bool {
    after_steps(c.steps, c.steps.len() as int).files == Set::<Seq<char>>::empty()
}

/// Whether each of several cases leaves no file behind.
pub open spec fn all_leave_nothing(v: Seq<CaseView>) -> bool {
    forall|i: int| 0 <= i < v.len() ==> leaves_nothing(#[trigger] v[i])
}

proof fn lemma_negotiate_clean()
    ensures
        all_leave_nothing(negotiate_views()),
{
    let v = negotiate_views();
    assert(leaves_nothing(v[0])) by {
        reveal_with_fuel(after_steps, 3);
        assert(after_steps(v[0].steps, 2).files =~= Set::<Seq<char>>::empty());
    }
    assert(leaves_nothing(v[1])) by {
        reveal_with_fuel(after_steps, 3);
        assert(after_steps(v[1].steps, 2).files =~= Set::<Seq<char>>::empty());
    }
    assert(leaves_nothing(v[2])) by {
        reveal_with_fuel(after_steps, 3);
        assert(after_steps(v[2].steps, 2).files =~= Set::<Seq<char>>::empty());
    }
    assert(leaves_nothing(v[3])) by {
        reveal_with_fuel(after_steps, 3);
        assert(after_steps(v[3].steps, 2).files =~= Set::<Seq<char>>::empty());
    }
}

proof fn lemma_session_clean()
    ensures
        all_leave_nothing(session_views()),
{
    let v = session_views();
    assert(leaves_nothing(v[0])) by {
        reveal_with_fuel(after_steps, 3);
        assert(after_steps(v[0].steps, 2).files =~= Set::<Seq<char>>::empty());
    }
    assert(leaves_nothing(v[1])) by {
        reveal_with_fuel(after_steps, 3);
        assert(after_steps(v[1].steps, 2).files =~= Set::<Seq<char>>::empty());
    }
    assert(leaves_nothing(v[2])) by {
        reveal_with_fuel(after_steps, 5);
        assert(after_steps(v[2].steps, 4).files =~= Set::<Seq<char>>::empty());
    }
    assert(leaves_nothing(v[3])) by {
        reveal_with_fuel(after_steps, 3);
        assert(after_steps(v[3].steps, 2).files =~= Set::<Seq<char>>::empty());
    }
}

proof fn lemma_create_clean()
    ensures
        all_leave_nothing(create_views()),
{
    let v = create_views();
    assert(leaves_nothing(v[0])) by {
        reveal_with_fuel(after_steps, 3);
        assert(after_steps(v[0].steps, 2).files =~= Set::<Seq<char>>::empty());
    }
    assert(leaves_nothing(v[1])) by {
        reveal_with_fuel(after_steps, 5);
        assert(after_steps(v[1].steps, 4).files =~= Set::<Seq<char>>::empty());
    }
    assert(leaves_nothing(v[2])) by {
        reveal_with_fuel(after_steps, 2);
        assert(after_steps(v[2].steps, 1).files =~= Set::<Seq<char>>::empty());
    }
    assert(leaves_nothing(v[3])) by {
        reveal_with_fuel(after_steps, 3);
        assert(after_steps(v[3].steps, 2).files =~= Set::<Seq<char>>::empty());
    }
}

proof fn lemma_readwrite_clean()
    ensures
        all_leave_nothing(readwrite_views()),
{
    let v = readwrite_views();
    assert(leaves_nothing(v[0])) by {
        reveal_with_fuel(after_steps, 5);
        assert(after_steps(v[0].steps, 4).files =~= Set::<Seq<char>>::empty());
    }
    assert(leaves_nothing(v[1])) by {
        reveal_with_fuel(after_steps, 5);
        assert(after_steps(v[1].steps, 4).files =~= Set::<Seq<char>>::empty());
    }
    assert(leaves_nothing(v[2])) by {
        reveal_with_fuel(after_steps, 5);
        assert(after_steps(v[2].steps, 4).files =~= Set::<Seq<char>>::empty());
    }
}

proof fn lemma_directory_clean()
    ensures
        all_leave_nothing(directory_views()),
{
    let v = directory_views();
    assert(leaves_nothing(v[0])) by {
        reveal_with_fuel(after_steps, 10);
        assert(after_steps(v[0].steps, 9).files =~= Set::<Seq<char>>::empty());
    }
    assert(leaves_nothing(v[1])) by {
        reveal_with_fuel(after_steps, 10);
        assert(after_steps(v[1].steps, 9).files =~= Set::<Seq<char>>::empty());
    }
}

proof fn lemma_ioctl_clean()
    ensures
        all_leave_nothing(ioctl_views()),
{
    let v = ioctl_views();
    assert(leaves_nothing(v[0])) by {
        reveal_with_fuel(after_steps, 2);
        assert(after_steps(v[0].steps, 1).files =~= Set::<Seq<char>>::empty());
    }
    assert(leaves_nothing(v[1])) by {
        reveal_with_fuel(after_steps, 2);
        assert(after_steps(v[1].steps, 1).files =~= Set::<Seq<char>>::empty());
    }
}

proof fn lemma_queryinfo_clean()
    ensures
        all_leave_nothing(queryinfo_views()),
{
    let v = queryinfo_views();
    assert(leaves_nothing(v[0])) by {
        reveal_with_fuel(after_steps, 5);
        assert(after_steps(v[0].steps, 4).files =~= Set::<Seq<char>>::empty());
    }
    assert(leaves_nothing(v[1])) by {
        reveal_with_fuel(after_steps, 4);
        assert(after_steps(v[1].steps, 3).files =~= Set::<Seq<char>>::empty());
    }
    assert(leaves_nothing(v[2])) by {
        reveal_with_fuel(after_steps, 4);
        assert(after_steps(v[2].steps, 3).files =~= Set::<Seq<char>>::empty());
    }
}

proof fn lemma_setinfo_clean()
    ensures
        all_leave_nothing(setinfo_views()),
{
    let v = setinfo_views();
    assert(leaves_nothing(v[0])) by {
        reveal_with_fuel(after_steps, 5);
        assert(after_steps(v[0].steps, 4).files =~= Set::<Seq<char>>::empty());
    }
    assert(leaves_nothing(v[1])) by {
        reveal_with_fuel(after_steps, 7);
        assert(after_steps(v[1].steps, 6).files =~= Set::<Seq<char>>::empty());
    }
    assert(leaves_nothing(v[2])) by {
        reveal_with_fuel(after_steps, 5);
        assert(after_steps(v[2].steps, 4).files =~= Set::<Seq<char>>::empty());
    }
}

proof fn lemma_locking_clean()
    ensures
        all_leave_nothing(locking_views()),
{
    let v = locking_views();
    assert(leaves_nothing(v[0])) by {
        reveal_with_fuel(after_steps, 11);
            reveal_strlit("a");
            reveal_strlit("b");
            assert("a"@[0] != "b"@[0]);
        assert(after_steps(v[0].steps, 10).files =~= Set::<Seq<char>>::empty());
    }
    assert(leaves_nothing(v[1])) by {
        reveal_with_fuel(after_steps, 6);
        assert(after_steps(v[1].steps, 5).files =~= Set::<Seq<char>>::empty());
    }
}

proof fn lemma_streams_clean()
    ensures
        all_leave_nothing(streams_views()),
{
    let v = streams_views();
    assert(leaves_nothing(v[0])) by {
        reveal_with_fuel(after_steps, 10);
        assert(after_steps(v[0].steps, 9).files =~= Set::<Seq<char>>::empty());
    }
    assert(leaves_nothing(v[1])) by {
        reveal_with_fuel(after_steps, 10);
        assert(after_steps(v[1].steps, 9).files =~= Set::<Seq<char>>::empty());
    }
    assert(leaves_nothing(v[2])) by {
        reveal_with_fuel(after_steps, 4);
        assert(after_steps(v[2].steps, 3).files =~= Set::<Seq<char>>::empty());
    }
}

/// No case of the catalogue leaves a file behind.
pub proof fn law_no_residue(i: int)
    requires
        0 <= i < catalogue().len(),
    ensures
        leaves_nothing(catalogue()[i]),
{
    lemma_negotiate_clean();
    lemma_session_clean();
    lemma_create_clean();
    lemma_readwrite_clean();
    lemma_directory_clean();
    lemma_ioctl_clean();
    lemma_queryinfo_clean();
    lemma_setinfo_clean();
    lemma_locking_clean();
    lemma_streams_clean();
    if 0 <= i < 4 {
        assert(catalogue()[i] == negotiate_views()[i]);
    }
    if 4 <= i < 8 {
        assert(catalogue()[i] == session_views()[i - 4]);
    }
    if 8 <= i < 12 {
        assert(catalogue()[i] == create_views()[i - 8]);
    }
    if 12 <= i < 15 {
        assert(catalogue()[i] == readwrite_views()[i - 12]);
    }
    if 15 <= i < 17 {
        assert(catalogue()[i] == directory_views()[i - 15]);
    }
    if 17 <= i < 19 {
        assert(catalogue()[i] == ioctl_views()[i - 17]);
    }
    if 19 <= i < 22 {
        assert(catalogue()[i] == queryinfo_views()[i - 19]);
    }
    if 22 <= i < 25 {
        assert(catalogue()[i] == setinfo_views()[i - 22]);
    }
    if 25 <= i < 27 {
        assert(catalogue()[i] == locking_views()[i - 25]);
    }
    if 27 <= i < 30 {
        assert(catalogue()[i] == streams_views()[i - 27]);
    }
}

// ---------------- verdicts ----------------

/// What the driver reports of one step, as far as the step has it.
#[derive(Debug)]
pub struct StepReply {
    /// The checksum of what was read or written.
    pub crc32: Option<u64>,
    pub length: Option<u64>,
    pub end_of_file: Option<u64>,
    /// The names in a listing.
    pub names: Option<Vec<String>>,
    /// How long the output is in base64.
    pub output: Option<u64>,
    /// The names of the streams.
    pub streams: Option<Vec<String>>,
}

/// What the driver reports of a case.
#[derive(Debug)]
pub struct DriverResp {
    /// Every step went as expected.
    pub ok: bool,
    /// The dialect that was agreed on.
    pub dialect: String,
    /// What went wrong.
    pub error: Option<String>,
    pub steps: Vec<StepReply>,
}

/// A number in the report of a step.
#[derive(Clone, Copy, PartialEq, Eq, Structural, Debug)]
pub enum Key {
    Crc32,
    Length,
    EndOfFile,
}

/// Why a case is not passed.
#[derive(Clone, Copy, PartialEq, Eq, Structural, Debug)]
pub enum Failure {
    /// The driver says why.
    Driver,
    /// What should have been refused succeeded.
    Succeeded,
    WrongDialect,
    /// A step does not report a number.
    Missing { step: usize, key: Key },
    /// What was read is not what was written.
    Mismatch { write: u64, read: u64 },
    /// A step does not report names.
    NoNames { step: usize },
    /// A name is listed that should not be.
    Leaked,
    /// A name is not listed that should be.
    Absent { second: bool },
    /// The connection went on.
    NotClosed,
    /// A step does not report output.
    NoOutput { step: usize },
    /// The output is too short.
    Short { len: u64 },
    WrongEnd { is: u64 },
    TooSmall { len: u64 },
    /// A step does not report streams.
    NoStreams { step: usize },
    /// No stream has the name.
    NoStream,
}

/// The number that a step reports.
pub open spec fn reported(r: DriverResp, step: usize, key: Key) -> Option<u64> {
    if step < r.steps@.len() {
        match key {
            Key::Crc32 => r.steps@[step as int].crc32,
            Key::Length => r.steps@[step as int].length,
            Key::EndOfFile => r.steps@[step as int].end_of_file,
        }
    } else {
        None
    }
}

/// Whether a name is in a list.
pub open spec fn has_name(names: Seq<String>, n: Seq<char>) -> bool {
    exists|i: int| 0 <= i < names.len() && (#[trigger] names[i])@ == n
}

/// Whether a text has a part at a place.
pub open spec fn part_at(s: Seq<char>, part: Seq<char>, i: int) -> bool {
    0 <= i && i + part.len() <= s.len() && s.subrange(i, i + part.len()) == part
}

/// Whether a text has a part.
pub open spec fn has_part(s: Seq<char>, part: Seq<char>) -> bool {
    exists|i: int| #[trigger] part_at(s, part, i)
}

/// Whether a name in a list has a part.
pub open spec fn has_named_part(names: Seq<String>, part: Seq<char>) -> bool {
    exists|i: int| 0 <= i < names.len() && has_part((#[trigger] names[i])@, part)
}

/// Whether what was read is what was written.
pub open spec fn crc_verdict(r: DriverResp, write: usize, read: usize) -> Result<(), Failure> {
    match reported(r, write, Key::Crc32) {
        None => Err(Failure::Missing { step: write, key: Key::Crc32 }),
        Some(w) => match reported(r, read, Key::Crc32) {
            None => Err(Failure::Missing { step: read, key: Key::Crc32 }),
            Some(d) => if w == d {
                Ok(())
            } else {
                Err(Failure::Mismatch { write: w, read: d })
            },
        },
    }
}

/// Whether a listing has the names it should have.
pub open spec fn list_verdict(
    r: DriverResp,
    step: usize,
    without: Option<&str>,
    first: &str,
    second: Option<&str>,
) -> Result<(), Failure> {
    if step >= r.steps@.len() || r.steps@[step as int].names is None {
        Err(Failure::NoNames { step })
    } else {
        let names = r.steps@[step as int].names->0@;
        if without matches Some(n) && has_name(names, n@) {
            Err(Failure::Leaked)
        } else if !has_name(names, first@) {
            Err(Failure::Absent { second: false })
        } else if second matches Some(n) && !has_name(names, n@) {
            Err(Failure::Absent { second: true })
        } else {
            Ok(())
        }
    }
}

/// How many bytes a base64 text stands for, rounded down.
pub open spec fn decoded_len(n: u64) -> int {
    n * 3 / 4
}

/// The verdict on a case.
pub open spec fn verdict_of(c: Check, r: DriverResp) -> Result<(), Failure> {
    match c {
        Check::Refused => if r.ok {
            Err(Failure::Succeeded)
        } else {
            Ok(())
        },
        Check::Disconnects => if r.ok {
            Err(Failure::Succeeded)
        } else if r.error matches Some(e) && has_part(lowercase(e@), "clos"@) {
            Ok(())
        } else {
            Err(Failure::NotClosed)
        },
        _ => if !r.ok {
            Err(Failure::Driver)
        } else {
            match c {
                Check::Dialect(d) => if r.dialect@ == d@ {
                    Ok(())
                } else {
                    Err(Failure::WrongDialect)
                },
                Check::SameCrc { write, read } => crc_verdict(r, write, read),
                Check::Throughput { write, read, bytes } => crc_verdict(r, write, read),
                Check::Lists { step, without, first, second } => list_verdict(r, step, without, first, second),
                Check::Output { step, least } => if step >= r.steps@.len() || r.steps@[step as int].output is None {
                    Err(Failure::NoOutput { step })
                } else {
                    let n = decoded_len(r.steps@[step as int].output->0);
                    if n < least {
                        Err(Failure::Short { len: n as u64 })
                    } else {
                        Ok(())
                    }
                },
                Check::EndOfFile { step, is } => match reported(r, step, Key::EndOfFile) {
                    None => Err(Failure::Missing { step, key: Key::EndOfFile }),
                    Some(n) => if n == is {
                        Ok(())
                    } else {
                        Err(Failure::WrongEnd { is: n })
                    },
                },
                Check::Length { step, least } => match reported(r, step, Key::Length) {
                    None => Err(Failure::Missing { step, key: Key::Length }),
                    Some(n) => if n < least {
                        Err(Failure::TooSmall { len: n })
                    } else {
                        Ok(())
                    },
                },
                Check::Stream { step, part } => if step >= r.steps@.len() || r.steps@[step as int].streams is None {
                    Err(Failure::NoStreams { step })
                } else if has_named_part(r.steps@[step as int].streams->0@, part@) {
                    Ok(())
                } else {
                    Err(Failure::NoStream)
                },
                _ => Ok(()),
            }
        },
    }
}

/// The bytes that a passed case moved, where that is measured.
pub open spec fn measured(c: Check) -> Option<u64> {
    match c {
        Check::Throughput { write, read, bytes } => Some(bytes),
        _ => None,
    }
}

fn report_of(r: &DriverResp, step: usize, key: Key) -> (n: Option<u64>)
    ensures
        n == reported(*r, step, key),
{
    if step < r.steps.len() {
        match key {
            Key::Crc32 => r.steps[step].crc32,
            Key::Length => r.steps[step].length,
            Key::EndOfFile => r.steps[step].end_of_file,
        }
    } else {
        None
    }
}

fn contains_name(names: &Vec<String>, n: &str) -> (r: bool)
    ensures
        r == has_name(names@, n@),
{
    let len: usize = names.len();
    let mut i: usize = 0;
    while i < len
        invariant
            i <= len == names@.len(),
            forall|k: int| 0 <= k < i ==> (#[trigger] names@[k])@ != n@,
        decreases len - i,
    {
        if same_text(names[i].as_str(), n) {
            assert(names@[i as int]@ == n@);
            return true;
        }
        i += 1;
    }
    false
}

/// Whether a text has a part.
pub fn contains_part(s: &str, part: &str) -> (r: bool)
    ensures
        r == has_part(s@, part@),
{
    let a = chars_of(s);
    let b = chars_of(part);
    let n: usize = a.len();
    let m: usize = b.len();
    if m > n {
        return false;
    }
    let last: usize = n - m;
    let mut i: usize = 0;
    loop
        invariant
            i <= last == n - m,
            m <= n,
            n == a@.len(),
            m == b@.len(),
            a@ == s@,
            b@ == part@,
            forall|k: int| 0 <= k < i ==> !#[trigger] part_at(s@, part@, k),
        decreases last - i,
    {
        let mut j: usize = 0;
        while j < m && a[i + j] == b[j]
            invariant
                j <= m <= n - i,
                i <= n,
                n == a@.len(),
                m == b@.len(),
                forall|k: int| 0 <= k < j ==> a@[i + k] == #[trigger] b@[k],
            decreases m - j,
        {
            j += 1;
        }
        if j == m {
            assert(s@.subrange(i as int, i + m) =~= part@);
            assert(part_at(s@, part@, i as int));
            return true;
        }
        assert(!part_at(s@, part@, i as int)) by {
            if part_at(s@, part@, i as int) {
                assert(s@.subrange(i as int, i + m)[j as int] == a@[i + j]);
            }
        }
        if i == last {
            return false;
        }
        i += 1;
    }
}

fn contains_named_part(names: &Vec<String>, part: &str) -> (r: bool)
    ensures
        r == has_named_part(names@, part@),
{
    let len: usize = names.len();
    let mut i: usize = 0;
    while i < len
        invariant
            i <= len == names@.len(),
            forall|k: int| 0 <= k < i ==> !has_part((#[trigger] names@[k])@, part@),
        decreases len - i,
    {
        if contains_part(names[i].as_str(), part) {
            assert(has_part(names@[i as int]@, part@));
            return true;
        }
        i += 1;
    }
    false
}

/// Compares the checksum of a write with that of a read.
pub fn compare_crc(r: &DriverResp, write: usize, read: usize) -> (v: Result<(), Failure>)
    ensures
        v == crc_verdict(*r, write, read),
{
    let w: u64 = match report_of(r, write, Key::Crc32) {
        Some(w) => w,
        None => return Err(Failure::Missing { step: write, key: Key::Crc32 }),
    };
    let d: u64 = match report_of(r, read, Key::Crc32) {
        Some(d) => d,
        None => return Err(Failure::Missing { step: read, key: Key::Crc32 }),
    };
    if w == d {
        Ok(())
    } else {
        Err(Failure::Mismatch { write: w, read: d })
    }
}

fn check_names(r: &DriverResp, step: usize, without: Option<&str>, first: &str, second: Option<&str>) -> (v: Result<
    (),
    Failure,
>)
    ensures
        v == list_verdict(*r, step, without, first, second),
{
    if step >= r.steps.len() {
        return Err(Failure::NoNames { step });
    }
    match &r.steps[step].names {
        None => Err(Failure::NoNames { step }),
        Some(names) => {
            if let Some(n) = without {
                if contains_name(names, n) {
                    return Err(Failure::Leaked);
                }
            }
            if !contains_name(names, first) {
                return Err(Failure::Absent { second: false });
            }
            if let Some(n) = second {
                if !contains_name(names, n) {
                    return Err(Failure::Absent { second: true });
                }
            }
            Ok(())
        },
    }
}

fn check_error(r: &DriverResp) -> (v: Result<(), Failure>)
    ensures
        v == if r.error matches Some(e) && has_part(lowercase(e@), "clos"@) {
            Ok::<(), Failure>(())
        } else {
            Err(Failure::NotClosed)
        },
{
    match &r.error {
        Some(e) => {
            let low = to_lowercase(e.as_str());
            if contains_part(low.as_str(), "clos") {
                Ok(())
            } else {
                Err(Failure::NotClosed)
            }
        },
        None => Err(Failure::NotClosed),
    }
}

fn check_output(r: &DriverResp, step: usize, least: u64) -> (v: Result<(), Failure>)
    ensures
        v == verdict_of(Check::Output { step, least }, (DriverResp { ok: true, ..*r })),
{
    if step >= r.steps.len() {
        return Err(Failure::NoOutput { step });
    }
    match r.steps[step].output {
        None => Err(Failure::NoOutput { step }),
        Some(n) => {
            let len: u64 = n / 4 * 3 + n % 4 * 3 / 4;
            assert(len == decoded_len(n)) by {
                assert(n == n / 4 * 4 + n % 4);
            }
            if len < least {
                Err(Failure::Short { len })
            } else {
                Ok(())
            }
        },
    }
}

/// Judges what the driver reports of a case.
pub fn verdict(c: &Check, r: &DriverResp) -> (v: Result<Option<u64>, Failure>)
    ensures
        match verdict_of(*c, *r) {
            Ok(_) => v == Ok::<Option<u64>, Failure>(measured(*c)),
            Err(f) => v == Err::<Option<u64>, Failure>(f),
        },
{
    let judged = match c {
        Check::Refused => if r.ok {
            Err(Failure::Succeeded)
        } else {
            Ok(())
        },
        Check::Disconnects => if r.ok {
            Err(Failure::Succeeded)
        } else {
            check_error(r)
        },
        _ => if !r.ok {
            Err(Failure::Driver)
        } else {
            match c {
                Check::Dialect(d) => if same_text(r.dialect.as_str(), d) {
                    Ok(())
                } else {
                    Err(Failure::WrongDialect)
                },
                Check::SameCrc { write, read } => compare_crc(r, *write, *read),
                Check::Throughput { write, read, bytes: _ } => compare_crc(r, *write, *read),
                Check::Lists { step, without, first, second } => check_names(r, *step, *without, first, *second),
                Check::Output { step, least } => check_output(r, *step, *least),
                Check::EndOfFile { step, is } => match report_of(r, *step, Key::EndOfFile) {
                    None => Err(Failure::Missing { step: *step, key: Key::EndOfFile }),
                    Some(n) => if n == *is {
                        Ok(())
                    } else {
                        Err(Failure::WrongEnd { is: n })
                    },
                },
                Check::Length { step, least } => match report_of(r, *step, Key::Length) {
                    None => Err(Failure::Missing { step: *step, key: Key::Length }),
                    Some(n) => if n < *least {
                        Err(Failure::TooSmall { len: n })
                    } else {
                        Ok(())
                    },
                },
                Check::Stream { step, part } => if *step >= r.steps.len() {
                    Err(Failure::NoStreams { step: *step })
                } else {
                    match &r.steps[*step].streams {
                        None => Err(Failure::NoStreams { step: *step }),
                        Some(names) => if contains_named_part(names, part) {
                            Ok(())
                        } else {
                            Err(Failure::NoStream)
                        },
                    }
                },
                _ => Ok(()),
            }
        },
    };
    match judged {
        Err(f) => Err(f),
        Ok(_) => match c {
            Check::Throughput { write: _, read: _, bytes } => Ok(Some(*bytes)),
            _ => Ok(None),
        },
    }
}

/// Whether a case is selected by a filter: its id or its category has the filter in it,
/// whatever the case of letters.
pub fn is_selected(c: &TestCase, filter: Option<&str>) -> (r: bool)
    ensures
        r == match filter {
            None => true,
            Some(f) => has_part(lowercase(c.id@), lowercase(f@)) || has_part(lowercase(c.category@), lowercase(f@)),
        },
{
    match filter {
        None => true,
        Some(f) => {
            let f = to_lowercase(f);
            let id = to_lowercase(c.id);
            let category = to_lowercase(c.category);
            contains_part(id.as_str(), f.as_str()) || contains_part(category.as_str(), f.as_str())
        },
    }
}

/// A case that must complete is passed exactly where the driver says that every step went
/// as expected; one that must be refused, exactly where it does not.
pub proof fn law_driver_decides(r: DriverResp)
    ensures
        verdict_of(Check::Completes, r) is Ok <==> r.ok,
        verdict_of(Check::Refused, r) is Ok <==> !r.ok,
        verdict_of(Check::Disconnects, r) is Ok ==> !r.ok && r.error is Some,
{
}

/// A case that writes and reads is passed only where the checksums are reported and agree;
/// one that pins a dialect, only where that dialect was agreed on; one that looks at the end
/// of a file, only where it is where it should be.
pub proof fn law_verdicts_follow_the_report(r: DriverResp, write: usize, read: usize, is: u64)
    requires
        r.ok,
    ensures
        verdict_of(Check::SameCrc { write, read }, r) is Ok <==> reported(r, write, Key::Crc32) is Some && reported(
            r,
            write,
            Key::Crc32,
        ) == reported(r, read, Key::Crc32),
        verdict_of(Check::EndOfFile { step: read, is }, r) is Ok <==> reported(r, read, Key::EndOfFile) == Some(is),
        verdict_of(Check::Dialect("3.1.1"), r) is Ok <==> r.dialect@ == "3.1.1"@,
{
}

/// A listing is right only where it has the names that it should have, and not the one that
/// it should not.
pub proof fn law_listing_verdict(r: DriverResp, step: usize, without: Option<&'static str>, first: &'static str)
    requires
        r.ok,
    ensures
        verdict_of(Check::Lists { step, without, first, second: None }, r) is Ok ==> step < r.steps@.len() && (
        r.steps@[step as int].names matches Some(v) && (exists|i: int|
            0 <= i < v@.len() && (#[trigger] v@[i])@ == first@) && (without matches Some(w) ==> !has_name(v@, w@))),
{
}

} // verus!
