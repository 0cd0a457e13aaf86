//! Established sessions, the state their channels share, and durable handles.
use vstd::prelude::*;
use std::collections::HashMap;
use crate::idmap::IdMap;
use crate::locks::same_id;
use crate::vfs::OpenFile;

verus! {

broadcast use vstd::std_specs::hash::group_hash_axioms;

/// The key material of a session, shared so that another connection can bind to it.
pub struct SessionEntry {
    /// Exported NTLM session key.
    pub session_key: Option<[u8; 16]>,
    /// Signing key of the dialect.
    pub signing_key: Option<[u8; 16]>,
    pub dialect: Option<u16>,
    pub user: String,
    /// The user was mapped to guest.
    pub guest: bool,
    pub cipher: Option<u16>,
    /// Client-to-server and server-to-client cipher keys.
    pub enc_keys: Option<([u8; 32], [u8; 32])>,
    /// The session forces encryption.
    pub encrypt_data: bool,
}

impl SessionEntry {
    /// Whether two entries hold the same.
    pub open spec fn same(&self, o: SessionEntry) -> bool {
        &&& self.session_key == o.session_key
        &&& self.signing_key == o.signing_key
        &&& self.dialect == o.dialect
        &&& self.user@ == o.user@
        &&& self.guest == o.guest
        &&& self.cipher == o.cipher
        &&& self.enc_keys == o.enc_keys
        &&& self.encrypt_data == o.encrypt_data
    }

    /// A copy of the entry.
    pub fn duplicate(&self) -> (e: SessionEntry)
        ensures
            self.same(e),
    {
        SessionEntry {
            session_key: self.session_key,
            signing_key: self.signing_key,
            dialect: self.dialect,
            user: self.user.clone(),
            guest: self.guest,
            cipher: self.cipher,
            enc_keys: self.enc_keys,
            encrypt_data: self.encrypt_data,
        }
    }
}

/// The established sessions by id.
pub struct SessionTable {
    sessions: HashMap<u64, SessionEntry>,
}

impl View for SessionTable {
    type V = Map<u64, SessionEntry>;

    closed spec fn view(&self) -> Map<u64, SessionEntry> {
        self.sessions@
    }
}

impl SessionTable {
    /// No sessions.
    pub fn new() -> (t: Self)
        ensures
            t@ == Map::<u64, SessionEntry>::empty(),
    {
        SessionTable { sessions: HashMap::new() }
    }

    /// Registers or refreshes a session.
    pub fn insert(&mut self, id: u64, entry: SessionEntry)
        ensures
            final(self)@ == old(self)@.insert(id, entry),
    {
        self.sessions.insert(id, entry);
    }

    /// The key material of a session.
    pub fn get(&self, id: u64) -> (r: Option<SessionEntry>)
        ensures
            match r {
                Some(e) => self@.contains_key(id) && self@[id].same(e),
                None => !self@.contains_key(id),
            },
    {
        match self.sessions.get(&id) {
            Some(e) => Some(e.duplicate()),
            None => None,
        }
    }

    /// Forgets a session.
    pub fn remove(&mut self, id: u64)
        ensures
            final(self)@ == old(self)@.remove(id),
    {
        self.sessions.remove(&id);
    }
}

/// What the channels of one session share: its tree connects and its opens.
pub struct SessionScope {
    /// Share name by tree id.
    pub trees: HashMap<u32, String>,
    /// Open files by file id.
    pub handles: IdMap<OpenFile>,
}

impl SessionScope {
    /// No trees and no opens.
    pub open spec fn is_fresh(&self) -> bool {
        &&& self.trees@ == Map::<u32, String>::empty()
        &&& self.handles.wf()
        &&& self.handles@ == Map::<[u8; 16], OpenFile>::empty()
    }
}

/// Names a scope that channels share. Whoever holds the name reads and changes the same
/// scope, registered or not.
#[derive(Clone, Copy, PartialEq, Eq, Structural, Debug)]
pub struct ScopeRef {
    pub index: usize,
}

/// The scopes that were handed out, and which of them the sessions have.
pub struct ScopeRegistry {
    scopes: Vec<SessionScope>,
    sessions: HashMap<u64, ScopeRef>,
}

/// The scope of a session where `count` scopes were handed out: the registered one, else
/// the next.
pub open spec fn scope_ref(registered: Map<u64, ScopeRef>, count: nat, session_id: u64) -> ScopeRef {
    if registered.contains_key(session_id) {
        registered[session_id]
    } else {
        ScopeRef { index: count as usize }
    }
}

/// Whether every registered scope was handed out, and no two sessions have the same.
pub open spec fn scopes_apart(registered: Map<u64, ScopeRef>, count: nat) -> bool {
    &&& forall|i: u64| #[trigger] registered.contains_key(i) ==> registered[i].index < count
    &&& forall|i: u64, j: u64| #![trigger registered[i], registered[j]]
        registered.contains_key(i) && registered.contains_key(j) && i != j ==> registered[i] != registered[j]
}

impl ScopeRegistry {
    /// The scopes that were handed out, by their names.
    pub closed spec fn scopes(&self) -> Seq<SessionScope> {
        self.scopes@
    }

    /// The scopes of the sessions.
    pub closed spec fn registered(&self) -> Map<u64, ScopeRef> {
        self.sessions@
    }

    /// Every session has a scope of its own.
    pub open spec fn wf(&self) -> bool {
        scopes_apart(self.registered(), self.scopes().len()) && self.scopes().len() <= usize::MAX
    }

    /// Whether a scope was handed out.
    pub open spec fn holds(&self, r: ScopeRef) -> bool {
        r.index < self.scopes().len()
    }

    /// No scopes.
    pub fn new() -> (r: Self)
        ensures
            r.wf(),
            r.scopes() == Seq::<SessionScope>::empty(),
            r.registered() == Map::<u64, ScopeRef>::empty(),
    {
        ScopeRegistry { scopes: Vec::new(), sessions: HashMap::new() }
    }

    /// Whether a scope was handed out.
    pub fn is_held(&self, r: ScopeRef) -> (b: bool)
        ensures
            b == self.holds(r),
    {
        r.index < self.scopes.len()
    }

    /// Reads a scope.
    pub fn scope(&self, r: ScopeRef) -> (s: &SessionScope)
        requires
            self.holds(r),
        ensures
            *s == self.scopes()[r.index as int],
    {
        &self.scopes[r.index]
    }

    /// Changes a scope; all who hold its name see the change.
    pub fn scope_mut(&mut self, r: ScopeRef) -> (s: &mut SessionScope)
        requires
            old(self).holds(r),
        ensures
            *s == old(self).scopes()[r.index as int],
            final(self).scopes() == old(self).scopes().update(r.index as int, *final(s)),
            final(self).registered() == old(self).registered(),
    {
        &mut self.scopes[r.index]
    }
}

/// What asking for the scope of a session does: it gives the registered scope and changes
/// nothing, or gives a fresh one and registers it.
pub open spec fn scope_given(before: ScopeRegistry, after: ScopeRegistry, session_id: u64, r: ScopeRef) -> bool {
    &&& r == scope_ref(before.registered(), before.scopes().len(), session_id)
    &&& after.registered() == before.registered().insert(session_id, r)
    &&& if before.registered().contains_key(session_id) {
        after.scopes() == before.scopes()
    } else {
        scope_added(before.scopes(), after.scopes())
    }
}

/// What dropping the scope of a session does: the registration goes, the scope stays.
pub open spec fn scope_dropped(before: ScopeRegistry, after: ScopeRegistry, session_id: u64) -> bool {
    &&& after.registered() == before.registered().remove(session_id)
    &&& after.scopes() == before.scopes()
}

/// Whether one fresh scope was added behind all others.
pub open spec fn scope_added(before: Seq<SessionScope>, after: Seq<SessionScope>) -> bool {
    &&& after.len() == before.len() + 1
    &&& after.drop_last() == before
    &&& after.last().is_fresh()
}

/// The scope of `session_id`; a fresh one is registered where there is none. The first
/// channel of a session creates it, a binding channel finds it.
pub fn get_or_create(reg: &mut ScopeRegistry, session_id: u64) -> (r: ScopeRef)
    requires
        old(reg).wf(),
    ensures
        final(reg).wf(),
        final(reg).holds(r),
        scope_given(*old(reg), *final(reg), session_id, r),
{
    let known: Option<ScopeRef> = match reg.sessions.get(&session_id) {
        Some(r) => Some(*r),
        None => None,
    };
    match known {
        Some(r) => {
            assert(reg.registered() =~= reg.registered().insert(session_id, r));
            r
        },
        None => {
            let r = detached(reg);
            reg.sessions.insert(session_id, r);
            r
        },
    }
}

/// Drops the scope of a session: the next one is fresh. The scope itself stays with those
/// who hold its name.
pub fn remove(reg: &mut ScopeRegistry, session_id: u64)
    requires
        old(reg).wf(),
    ensures
        final(reg).wf(),
        scope_dropped(*old(reg), *final(reg), session_id),
{
    reg.sessions.remove(&session_id);
}

/// A fresh scope that no session has. A new connection starts with one.
pub fn detached(reg: &mut ScopeRegistry) -> (r: ScopeRef)
    requires
        old(reg).wf(),
    ensures
        final(reg).wf(),
        final(reg).holds(r),
        r.index == old(reg).scopes().len(),
        final(reg).registered() == old(reg).registered(),
        scope_added(old(reg).scopes(), final(reg).scopes()),
{
    let index: usize = reg.scopes.len();
    reg.scopes.push(SessionScope { trees: HashMap::new(), handles: IdMap::new() });
    assert(reg.scopes@.drop_last() =~= old(reg).scopes@);
    assert(reg.scopes.len() == index + 1);
    ScopeRef { index }
}

/// Two channels that ask for the scope of one session get the same scope, and a channel of
/// another session gets another.
pub proof fn law_channels_share_a_scope(
    r0: ScopeRegistry,
    r1: ScopeRegistry,
    r2: ScopeRegistry,
    i: u64,
    j: u64,
    a: ScopeRef,
    b: ScopeRef,
)
    requires
        r0.wf(),
        r1.wf(),
        scope_given(r0, r1, i, a),
        scope_given(r1, r2, j, b),
    ensures
        i == j <==> a == b,
        i == j ==> r2.scopes() == r1.scopes(),
        r2.scopes()[a.index as int] == r1.scopes()[a.index as int],
{
    assert(r1.registered().contains_key(i) && r1.registered()[i] == a);
    if !r1.registered().contains_key(j) {
        assert(r2.scopes()[a.index as int] == r2.scopes().drop_last()[a.index as int]);
    }
}

/// Once its session has dropped it, a scope `a` is still there, unchanged, for those who
/// hold it. The session's next scope is another, without trees and handles, and every
/// other session keeps its own.
pub proof fn law_removed_scope_stays(
    r0: ScopeRegistry,
    r1: ScopeRegistry,
    r2: ScopeRegistry,
    r3: ScopeRegistry,
    i: u64,
    j: u64,
    a: ScopeRef,
    b: ScopeRef,
    c: ScopeRef,
    d: ScopeRef,
)
    requires
        r0.wf(),
        i != j,
        r0.registered().contains_pair(i, a),
        r0.registered().contains_pair(j, b),
        scope_dropped(r0, r1, i),
        scope_given(r1, r2, i, c),
        scope_given(r2, r3, j, d),
    ensures
        c != a,
        r3.scopes()[c.index as int].is_fresh(),
        r3.holds(a),
        r3.scopes()[a.index as int] == r0.scopes()[a.index as int],
        d == b,
        r3.scopes()[b.index as int] == r0.scopes()[b.index as int],
{
    assert(r0.registered().contains_key(i) && r0.registered().contains_key(j));
    assert(r2.scopes().drop_last()[a.index as int] == r0.scopes()[a.index as int]);
    assert(r2.scopes().drop_last()[b.index as int] == r0.scopes()[b.index as int]);
}

/// Flag of a persistent handle.
pub const DHANDLE_FLAG_PERSISTENT: u32 = 0x0000_0002;

/// A file handle that outlives its connection, so that the client can claim it
/// again. The file is opened anew on reconnect.
pub struct DurableEntry {
    /// The file id it was opened under.
    pub persistent_id: [u8; 16],
    /// The client's create guid; zero for version 1 handles.
    pub create_guid: [u8; 16],
    /// Path relative to the share.
    pub rel: String,
    pub is_dir: bool,
    pub access: u32,
    pub options: u32,
    pub session_id: u64,
    /// The user that owns the handle.
    pub owner_user: String,
    pub client_guid: [u8; 16],
    pub lease_key: Option<[u8; 16]>,
    pub lease_state: u32,
    /// The handle survives a restart of the server.
    pub persistent: bool,
    /// Timeout in milliseconds.
    pub timeout: u32,
}

/// What a handle store keeps of a durable handle.
pub struct HandleRecord {
    pub create_guid: [u8; 16],
    pub path: String,
    pub share: String,
    pub session_id: u64,
    pub owner_user: String,
    pub access: u32,
    pub share_access: u32,
    pub create_options: u32,
    pub is_dir: bool,
    pub flags: u32,
    pub match_guid: Option<[u8; 16]>,
    pub owner_node: String,
    pub lease_key: Option<[u8; 16]>,
    pub lease_state: u32,
    pub client_guid: [u8; 16],
    pub timeout_ms: u64,
    pub deadline_ms: u64,
    pub delete_on_close: bool,
}

/// The zero guid.
pub open spec fn zero_guid(g: [u8; 16]) -> bool {
    forall|i: int| 0 <= i < 16 ==> g@[i] == 0
}

impl DurableEntry {
    /// Whether `r` is the record of `self` made at `now_ms`. Persistent handles
    /// never expire.
    pub open spec fn recorded_as(&self, now_ms: u64, r: HandleRecord) -> bool {
        &&& r.create_guid == self.persistent_id
        &&& r.path@ == self.rel@
        &&& r.share@ == Seq::<char>::empty()
        &&& r.session_id == self.session_id
        &&& r.owner_user@ == self.owner_user@
        &&& r.access == self.access
        &&& r.share_access == 0
        &&& r.create_options == self.options
        &&& r.is_dir == self.is_dir
        &&& r.flags == if self.persistent {
            DHANDLE_FLAG_PERSISTENT
        } else {
            0
        }
        &&& r.match_guid == if zero_guid(self.create_guid) {
            None
        } else {
            Some(self.create_guid)
        }
        &&& r.owner_node@ == Seq::<char>::empty()
        &&& r.lease_key == self.lease_key
        &&& r.lease_state == self.lease_state
        &&& r.client_guid == self.client_guid
        &&& r.timeout_ms == self.timeout
        &&& r.deadline_ms == if self.persistent {
            0
        } else {
            now_ms + self.timeout
        }
        &&& !r.delete_on_close
    }

    /// The store record of the handle, its deadline counted from `now_ms`.
    pub fn into_record(self, now_ms: u64) -> (r: HandleRecord)
        requires
            !self.persistent ==> now_ms + self.timeout <= u64::MAX,
        ensures
            self.recorded_as(now_ms, r),
    {
        let zero: [u8; 16] = [0u8; 16];
        let no_guid: bool = same_id(&self.create_guid, &zero);
        proof {
            if zero_guid(self.create_guid) {
                assert(self.create_guid@ =~= zero@);
                assert(self.create_guid =~= zero);
            }
        }
        HandleRecord {
            create_guid: self.persistent_id,
            path: self.rel,
            share: String::new(),
            session_id: self.session_id,
            owner_user: self.owner_user,
            access: self.access,
            share_access: 0,
            create_options: self.options,
            is_dir: self.is_dir,
            flags: if self.persistent {
                DHANDLE_FLAG_PERSISTENT
            } else {
                0
            },
            match_guid: if no_guid {
                None
            } else {
                Some(self.create_guid)
            },
            owner_node: String::new(),
            lease_key: self.lease_key,
            lease_state: self.lease_state,
            client_guid: self.client_guid,
            timeout_ms: self.timeout as u64,
            deadline_ms: if self.persistent {
                0
            } else {
                now_ms + self.timeout as u64
            },
            delete_on_close: false,
        }
    }
}

} // verus!
