//! The state of an SMB2 connection and of the server it talks to.
use vstd::prelude::*;
use std::collections::HashMap;
use crate::app_instances::AppInstanceTable;
use crate::idmap::IdMap;
use crate::leases::{LeaseTable, OplockTable};
use crate::locks::LockManager;
use crate::sessions::{DurableEntry, SessionTable};
use crate::share_modes::ShareModeTable;
use crate::srvsvc::Pipe;
use crate::tables::TextMap;
use crate::vfs::{Entry, OpenFile};

verus! {

broadcast use vstd::std_specs::hash::group_hash_axioms;

/// A share with its SMB3 properties.
pub struct Share2 {
    pub name: String,
    pub root: String,
    /// The virtual pipe share.
    pub is_ipc: bool,
    /// Every message on a tree of this share is encrypted.
    pub encrypt: bool,
    /// Compression is advertised.
    pub compress: bool,
    /// The share is continuously available: it may grant persistent handles.
    pub ca: bool,
}

/// What all connections of a server share.
pub struct Server2 {
    /// Shares by lower-case name.
    pub shares: TextMap<Share2>,
    pub guid: [u8; 16],
    pub domain: String,
    pub server_name: String,
    /// Password by lower-case user name.
    pub users: TextMap<String>,
    /// Without configured users everyone is let in.
    pub allow_guest: bool,
    /// Requests of authenticated sessions have to be signed.
    pub require_signing: bool,
    /// Sessions are encrypted where the client can.
    pub encrypt: bool,
    pub locks: LockManager,
    pub share_modes: ShareModeTable,
    pub oplocks: OplockTable,
    pub leases: LeaseTable,
    pub sessions: SessionTable,
    pub app_instances: AppInstanceTable,
    /// The dialect that each client authenticated with first.
    pub client_dialects: IdMap<u16>,
    pub next_session_id: u64,
    pub next_file_id: u64,
    pub next_tree_id: u64,
    /// Keeps the resume keys of one open apart.
    pub next_resume_nonce: u64,
}

impl Server2 {
    /// The tables are well formed.
    pub open spec fn wf(&self) -> bool {
        &&& self.shares.wf()
        &&& self.users.wf()
        &&& self.locks.wf()
        &&& self.share_modes.wf()
        &&& self.oplocks.wf()
        &&& self.leases.wf()
        &&& self.client_dialects.wf()
    }

    /// A server that starts: nothing is open, and the counters stand at their first ids.
    pub fn new(
        shares: TextMap<Share2>,
        guid: [u8; 16],
        users: TextMap<String>,
        require_signing: bool,
        encrypt: bool,
    ) -> (s: Self)
        requires
            shares.wf(),
            users.wf(),
        ensures
            s.wf(),
            s.shares == shares,
            s.guid == guid,
            s.users == users,
            s.allow_guest,
            s.require_signing == require_signing,
            s.encrypt == encrypt,
            s.domain@ == "WORKGROUP"@,
            s.server_name@ == "RUSTSMB"@,
            forall|p: Seq<char>| #[trigger] s.locks.locks(p) == Seq::<crate::locks::HeldLock>::empty(),
            forall|p: Seq<char>| #[trigger] s.share_modes.opens_of(p) == Seq::<crate::share_modes::OpenMode>::empty(),
            forall|p: Seq<char>| #[trigger] s.leases.holders(p) == Seq::<crate::leases::LeaseHolder>::empty(),
            s.oplocks.holders() == Map::<Seq<char>, crate::leases::OplockHolder>::empty(),
            s.sessions@ == Map::<u64, crate::sessions::SessionEntry>::empty(),
            s.app_instances.opens() == Seq::<crate::app_instances::AppOpen>::empty(),
            s.app_instances.forced() == Set::<crate::locks::LockOwner>::empty(),
            s.client_dialects@ == Map::<[u8; 16], u16>::empty(),
            s.next_session_id == 1,
            s.next_file_id == 0x2000,
            s.next_tree_id == 1,
            s.next_resume_nonce == 0x5253_554D_4B45_5900,
    {
        Server2 {
            shares,
            guid,
            domain: "WORKGROUP".to_owned(),
            server_name: "RUSTSMB".to_owned(),
            users,
            allow_guest: true,
            require_signing,
            encrypt,
            locks: LockManager::new(),
            share_modes: ShareModeTable::new(),
            oplocks: OplockTable::new(),
            leases: LeaseTable::new(),
            sessions: SessionTable::new(),
            app_instances: AppInstanceTable::new(),
            client_dialects: IdMap::new(),
            next_session_id: 1,
            next_file_id: 0x2000,
            next_tree_id: 1,
            next_resume_nonce: 0x5253_554D_4B45_5900,
        }
    }

    /// Whether requests on a tree of the share with this name are encrypted.
    pub open spec fn share_encrypts(&self, name: Seq<char>) -> bool {
        self.shares@.contains_key(name) && self.shares@[name].encrypt
    }

    /// Tells whether requests on a tree of a share are encrypted.
    pub fn encrypts_share(&self, name: &str) -> (r: bool)
        requires
            self.wf(),
        ensures
            r == self.share_encrypts(name@),
    {
        match self.shares.get(name) {
            Some(s) => s.encrypt,
            None => false,
        }
    }
}

/// The 16-byte id made of a counter value.
pub open spec fn counter_id(n: u64) -> Seq<u8> {
    crate::bytes::le64(n) + crate::bytes::zeros(8)
}

fn make_counter_id(n: u64) -> (id: [u8; 16])
    ensures
        id@ == counter_id(n),
{
    let mut v: Vec<u8> = Vec::new();
    crate::bytes::put_u64(&mut v, n);
    assert(v@ =~= crate::bytes::le64(n));
    crate::bytes::put_zeros(&mut v, 8);
    crate::crypto::array16(v.as_slice())
}

/// A counter after one use.
pub open spec fn counted(n: u64) -> u64 {
    if n == u64::MAX {
        0
    } else {
        (n + 1) as u64
    }
}

fn count(n: u64) -> (r: u64)
    ensures
        r == counted(n),
{
    if n == u64::MAX {
        0
    } else {
        n + 1
    }
}

/// A fresh session id.
pub fn next_session_id(server: &mut Server2) -> (id: u64)
    ensures
        id == old(server).next_session_id,
        *final(server) == (Server2 { next_session_id: counted(old(server).next_session_id), ..*old(server) }),
{
    let id: u64 = server.next_session_id;
    server.next_session_id = count(id);
    id
}

/// A fresh file id: a counter in its first half.
pub fn next_file_id(server: &mut Server2) -> (id: [u8; 16])
    ensures
        id@ == counter_id(old(server).next_file_id),
        *final(server) == (Server2 { next_file_id: counted(old(server).next_file_id), ..*old(server) }),
{
    let n: u64 = server.next_file_id;
    server.next_file_id = count(n);
    make_counter_id(n)
}

/// A fresh tree id: the low 31 bits of a counter.
pub fn next_tree_id(server: &mut Server2) -> (id: u32)
    ensures
        id == old(server).next_tree_id % 0x8000_0000,
        *final(server) == (Server2 { next_tree_id: counted(old(server).next_tree_id), ..*old(server) }),
{
    let n: u64 = server.next_tree_id;
    server.next_tree_id = count(n);
    (n % 0x8000_0000) as u32
}

/// A fresh number for a resume key.
pub fn next_resume_nonce(server: &mut Server2) -> (n: u64)
    ensures
        n == old(server).next_resume_nonce,
        *final(server) == (Server2 { next_resume_nonce: counted(old(server).next_resume_nonce), ..*old(server) }),
{
    let n: u64 = server.next_resume_nonce;
    server.next_resume_nonce = count(n);
    n
}

/// Counter values that differ give different file ids.
pub proof fn law_file_ids_differ(a: u64, b: u64)
    requires
        counter_id(a) == counter_id(b),
    ensures
        a == b,
{
    crate::bytes::lemma_u64_round_trip(Seq::empty(), a, crate::bytes::zeros(8));
    crate::bytes::lemma_u64_round_trip(Seq::empty(), b, crate::bytes::zeros(8));
    assert(Seq::<u8>::empty() + crate::bytes::le64(a) + crate::bytes::zeros(8) =~= counter_id(a));
    assert(Seq::<u8>::empty() + crate::bytes::le64(b) + crate::bytes::zeros(8) =~= counter_id(b));
}

/// The state of one connection.
pub struct Smb2Conn {
    /// Names the connection: messages for its client are queued under it.
    pub id: u64,
    /// The negotiated dialect.
    pub dialect: Option<u16>,
    /// The session; zero where there is none.
    pub session_id: u64,
    /// The credentials were accepted.
    pub authenticated: bool,
    /// The NTLM challenge.
    pub challenge: [u8; 8],
    pub user: String,
    /// The user was mapped to guest.
    pub guest: bool,
    /// The exported NTLM session key.
    pub session_key: Option<[u8; 16]>,
    /// The signing key of the dialect.
    pub signing_key: Option<[u8; 16]>,
    /// The capabilities that the negotiate response advertised.
    pub advertised_caps: u32,
    /// Credits that the client holds.
    pub client_credits: u32,
    /// The pre-authentication integrity hash.
    pub preauth_hash: [u8; 64],
    pub cipher: Option<u16>,
    /// Client-to-server and server-to-client cipher keys.
    pub enc_keys: Option<([u8; 32], [u8; 32])>,
    /// Every later message of the session is encrypted.
    pub encrypt_data: bool,
    /// The client has sent an encrypted message.
    pub peer_encrypts: bool,
    /// The tokens of the first and the second leg.
    pub ntlm_blobs: Option<(Vec<u8>, Vec<u8>)>,
    /// The challenge token that was sent.
    pub ntlm_targ: Option<Vec<u8>>,
    /// Share name by tree id.
    pub trees: HashMap<u32, String>,
    /// Open files by file id.
    pub handles: IdMap<OpenFile>,
    /// The lease key that each open file joined.
    pub lease_keys: IdMap<[u8; 16]>,
    /// Open pipes by file id.
    pub pipes: IdMap<Pipe>,
    /// What is left of directory listings, by file id.
    pub searches: IdMap<Vec<Entry>>,
    pub next_async_id: u64,
    /// The async ids of pending operations.
    pub async_cancels: Vec<u64>,
    /// Message ids of pending operations with their async ids.
    pub async_msgids: Vec<(u64, u64)>,
    /// Watched files with the async ids of their pending change notifications.
    pub async_by_file: Vec<([u8; 16], u64)>,
    /// Resume keys for copies with the file each stands for.
    pub resume_keys: Vec<([u8; 24], [u8; 16])>,
    /// Durable handles by file id.
    pub durable: IdMap<DurableEntry>,
    pub compress_algo: Option<u16>,
    /// The request asked for a compressed response.
    pub compress_response: bool,
    pub client_guid: [u8; 16],
    pub client_security_mode: u16,
    pub client_capabilities: u32,
    pub client_dialects: Vec<u16>,
    /// The connection ends after the current message.
    pub disconnect: bool,
    /// The file that the last create of the chain opened.
    pub chain_fid: Option<[u8; 16]>,
    /// The body of the error that a symbolic link gave.
    pub symlink_error: Option<Vec<u8>>,
    /// The tree id that the response carries.
    pub resp_tree_id: Option<u32>,
    /// The response is encrypted in any case.
    pub seal_current: bool,
    /// The request was encrypted.
    pub req_encrypted: bool,
}

impl Smb2Conn {
    /// The tables are well formed.
    pub open spec fn wf(&self) -> bool {
        &&& self.handles.wf()
        &&& self.lease_keys.wf()
        &&& self.pipes.wf()
        &&& self.searches.wf()
        &&& self.durable.wf()
    }

    /// Whether a connection is as it is before its first message.
    pub open spec fn is_fresh(&self) -> bool {
        &&& self.wf()
        &&& self.dialect is None
        &&& self.session_id == 0
        &&& !self.authenticated
        &&& self.user@ == Seq::<char>::empty()
        &&& !self.guest
        &&& self.session_key is None
        &&& self.signing_key is None
        &&& self.advertised_caps == 0
        &&& self.client_credits == 0
        &&& self.preauth_hash@ == crate::bytes::zeros(64)
        &&& self.cipher is None
        &&& self.enc_keys is None
        &&& !self.encrypt_data
        &&& !self.peer_encrypts
        &&& self.ntlm_blobs is None
        &&& self.ntlm_targ is None
        &&& self.trees@ == Map::<u32, String>::empty()
        &&& self.handles@ == Map::<[u8; 16], OpenFile>::empty()
        &&& self.lease_keys@ == Map::<[u8; 16], [u8; 16]>::empty()
        &&& self.pipes@ == Map::<[u8; 16], Pipe>::empty()
        &&& self.searches@ == Map::<[u8; 16], Vec<Entry>>::empty()
        &&& self.next_async_id == 1
        &&& self.async_cancels@.len() == 0
        &&& self.async_msgids@.len() == 0
        &&& self.async_by_file@.len() == 0
        &&& self.resume_keys@.len() == 0
        &&& self.durable@ == Map::<[u8; 16], DurableEntry>::empty()
        &&& self.compress_algo is None
        &&& !self.compress_response
        &&& self.client_guid@ == crate::bytes::zeros(16)
        &&& self.client_security_mode == 0
        &&& self.client_capabilities == 0
        &&& self.client_dialects@.len() == 0
        &&& !self.disconnect
        &&& self.chain_fid is None
        &&& self.symlink_error is None
        &&& self.resp_tree_id is None
        &&& !self.seal_current
        &&& !self.req_encrypted
    }

    /// A connection with the given challenge.
    pub fn new(id: u64, challenge: [u8; 8]) -> (c: Self)
        ensures
            c.is_fresh(),
            c.id == id,
            c.challenge == challenge,
    {
        let preauth: [u8; 64] = [0; 64];
        let guid: [u8; 16] = [0; 16];
        assert(preauth@ =~= crate::bytes::zeros(64));
        assert(guid@ =~= crate::bytes::zeros(16));
        let user = String::new();
        assert(user@ =~= Seq::<char>::empty());
        Smb2Conn {
            id,
            dialect: None,
            session_id: 0,
            authenticated: false,
            challenge,
            user,
            guest: false,
            session_key: None,
            signing_key: None,
            advertised_caps: 0,
            client_credits: 0,
            preauth_hash: preauth,
            cipher: None,
            enc_keys: None,
            encrypt_data: false,
            peer_encrypts: false,
            ntlm_blobs: None,
            ntlm_targ: None,
            trees: HashMap::new(),
            handles: IdMap::new(),
            lease_keys: IdMap::new(),
            pipes: IdMap::new(),
            searches: IdMap::new(),
            next_async_id: 1,
            async_cancels: Vec::new(),
            async_msgids: Vec::new(),
            async_by_file: Vec::new(),
            resume_keys: Vec::new(),
            durable: IdMap::new(),
            compress_algo: None,
            compress_response: false,
            client_guid: guid,
            client_security_mode: 0,
            client_capabilities: 0,
            client_dialects: Vec::new(),
            disconnect: false,
            chain_fid: None,
            symlink_error: None,
            resp_tree_id: None,
            seal_current: false,
            req_encrypted: false,
        }
    }

    /// The connection under which messages for its client are queued.
    pub fn outbound(&self) -> (id: u64)
        ensures
            id == self.id,
    {
        self.id
    }

    /// A fresh async id.
    pub fn alloc_async_id(&mut self) -> (id: u64)
        ensures
            id == old(self).next_async_id,
            *final(self) == (Smb2Conn { next_async_id: counted(old(self).next_async_id), ..*old(self) }),
    {
        let id: u64 = self.next_async_id;
        self.next_async_id = count(id);
        id
    }

    /// The share that a tree is connected to.
    pub open spec fn tree_share(&self, tid: u32) -> Option<Seq<char>> {
        if self.trees@.contains_key(tid) {
            Some(self.trees@[tid]@)
        } else {
            None
        }
    }

    /// Whether messages on a tree are encrypted.
    pub open spec fn tree_encrypts(&self, server: &Server2, tid: u32) -> bool {
        match self.tree_share(tid) {
            Some(name) => server.share_encrypts(name),
            None => false,
        }
    }

    /// Tells whether messages on a tree are encrypted.
    pub fn encrypts_tree(&self, server: &Server2, tid: u32) -> (r: bool)
        requires
            server.wf(),
        ensures
            r == self.tree_encrypts(server, tid),
    {
        match self.trees.get(&tid) {
            Some(name) => server.encrypts_share(name.as_str()),
            None => false,
        }
    }

    /// The key that messages of the session are signed with.
    pub open spec fn sign_key(&self) -> Option<[u8; 16]> {
        if self.signing_key is Some {
            self.signing_key
        } else {
            self.session_key
        }
    }

    /// The key that messages of the session are signed with.
    pub fn key_for_signing(&self) -> (k: Option<[u8; 16]>)
        ensures
            k == self.sign_key(),
    {
        match self.signing_key {
            Some(k) => Some(k),
            None => self.session_key,
        }
    }
}

/// Counters give a new value each time, until they have gone through all of them.
pub proof fn law_counters_move_on(n: u64)
    ensures
        counted(n) != n,
        n < u64::MAX ==> counted(n) == n + 1,
        counter_id(n) != counter_id(counted(n)),
{
    if counter_id(n) == counter_id(counted(n)) {
        law_file_ids_differ(n, counted(n));
    }
}

/// Messages on a tree are encrypted exactly where its share asks for it; the key of the
/// dialect signs before the key of the session.
pub proof fn law_shares_decide_on_encryption(c: &Smb2Conn, server: &Server2, tid: u32)
    ensures
        c.tree_encrypts(server, tid) <==> c.trees@.dom().contains(tid) && server.shares@.dom().contains(c.trees@[tid]@)
            && server.shares@[c.trees@[tid]@].encrypt,
        c.signing_key is Some ==> c.sign_key() == c.signing_key,
        c.signing_key is None ==> c.sign_key() == c.session_key,
{
}

} // verus!
