//! SMB file-server protocol logic.
use vstd::prelude::*;

pub mod app_instances;
pub mod async2;
pub mod auth;
pub mod backend1;
pub mod bytes;
pub mod calendar;
pub mod chain2;
pub mod conn2;
pub mod create2;
pub mod crypto;
pub mod dirops;
pub mod dispatch;
pub mod durable2;
pub mod exchange2;
pub mod files;
pub mod frame2;
pub mod handlers;
pub mod idmap;
pub mod io2;
pub mod ioctl2;
pub mod json;
pub mod jsonread;
pub mod leases;
pub mod lint;
pub mod locks;
pub mod message;
pub mod nbss;
pub mod negotiate2;
pub mod ntlm;
pub mod opens1;
pub mod ops2;
pub mod options;
pub mod query2;
pub mod random;
pub mod rc4;
pub mod reply2;
pub mod report;
pub mod sealing;
pub mod security;
pub mod serve2;
pub mod session1;
pub mod session2;
pub mod sessions;
pub mod share_modes;
pub mod smb;
pub mod srvsvc;
pub mod state;
pub mod subcalls1;
pub mod suite;
pub mod tables;
pub mod text;
pub mod trans2;
pub mod transport;
pub mod vfs;
pub mod wildcard;
pub mod wire2;

verus! {

} // verus!
