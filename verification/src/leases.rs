//! Oplocks and caching leases: who may cache a file, and what is broken when
//! another open contends.
use vstd::prelude::*;
use crate::locks::{same_id, same_owner, LockOwner};
use crate::tables::{entry_map, first_where, key_is, keys_distinct, lemma_entry, lemma_first_where, list_at, position_where, retain_lists, retain_values, TextMap};

verus! {

/// Key material for a break notification, taken when the cache was granted.
#[derive(Clone, Copy)]
pub struct BreakCrypto {
    pub dialect: Option<u16>,
    pub signing_key: Option<[u8; 16]>,
    /// Client-to-server and server-to-client cipher keys.
    pub enc_keys: Option<([u8; 32], [u8; 32])>,
    pub cipher: Option<u16>,
    pub session_id: u64,
    pub encrypt: bool,
    pub signed: bool,
}

/// A granted exclusive oplock. `conn` names the connection that is told of a break.
#[derive(Clone, Copy)]
pub struct OplockHolder {
    pub session_id: u64,
    pub file_id: [u8; 16],
    pub conn: u64,
    pub crypto: BreakCrypto,
}

/// The open that holds an oplock.
pub open spec fn oplock_owner(h: OplockHolder) -> LockOwner {
    (h.session_id, h.file_id)
}

/// At most one exclusive oplock per file.
pub struct OplockTable {
    held: TextMap<OplockHolder>,
}

impl OplockTable {
    /// The table's entries have distinct paths.
    pub closed spec fn wf(&self) -> bool {
        self.held.wf()
    }

    /// The holders by path.
    pub closed spec fn holders(&self) -> Map<Seq<char>, OplockHolder> {
        self.held@
    }

    /// No oplocks.
    pub fn new() -> (t: Self)
        ensures
            t.wf(),
            t.holders() == Map::<Seq<char>, OplockHolder>::empty(),
    {
        OplockTable { held: TextMap::new() }
    }

    /// Grants an oplock on `path` if none is held.
    pub fn grant(&mut self, path: &str, holder: OplockHolder) -> (ok: bool)
        requires
            old(self).wf(),
        ensures
            final(self).wf(),
            ok == !old(self).holders().contains_key(path@),
            final(self).holders() == if ok {
                old(self).holders().insert(path@, holder)
            } else {
                old(self).holders()
            },
    {
        if self.held.contains(path) {
            return false;
        }
        self.held.insert(path.to_owned(), holder);
        true
    }

    /// Takes out the holder of `path`.
    pub fn take(&mut self, path: &str) -> (r: Option<OplockHolder>)
        requires
            old(self).wf(),
        ensures
            final(self).wf(),
            final(self).holders() == old(self).holders().remove(path@),
            r == if old(self).holders().contains_key(path@) {
                Some(old(self).holders()[path@])
            } else {
                None
            },
    {
        self.held.remove(path)
    }

    /// Drops the oplock that `owner` holds on `path`.
    pub fn release(&mut self, path: &str, owner: LockOwner) -> (r: Option<OplockHolder>)
        requires
            old(self).wf(),
        ensures
            final(self).wf(),
            ({
                let m = old(self).holders();
                if m.contains_key(path@) && oplock_owner(m[path@]) == owner {
                    final(self).holders() == m.remove(path@) && r == Some(m[path@])
                } else {
                    final(self).holders() == m && r is None
                }
            }),
    {
        let mine: bool = match self.held.get(path) {
            Some(h) => same_owner(&(h.session_id, h.file_id), &owner),
            None => false,
        };
        if mine {
            self.held.remove(path)
        } else {
            None
        }
    }

    /// Drops every oplock of a session.
    pub fn release_session(&mut self, session_id: u64)
        requires
            old(self).wf(),
        ensures
            final(self).wf(),
            forall|p: Seq<char>| #[trigger]
                final(self).holders().contains_key(p) <==> old(self).holders().contains_key(p)
                    && old(self).holders()[p].session_id != session_id,
            forall|p: Seq<char>| #[trigger]
                final(self).holders().contains_key(p) ==> final(self).holders()[p] == old(self).holders()[p],
    {
        let keep = |h: &OplockHolder| -> (b: bool)
            ensures
                b == (h.session_id != session_id),
            { h.session_id != session_id };
        retain_values(&mut self.held, &keep, Ghost(|h: OplockHolder| h.session_id != session_id));
    }
}

/// A granted caching lease. `conn` names the connection that is told of a break.
#[derive(Clone, Copy)]
pub struct LeaseHolder {
    pub key: [u8; 16],
    /// The caching bits granted now.
    pub state: u32,
    pub epoch: u16,
    pub v2: bool,
    pub session_id: u64,
    pub file_id: [u8; 16],
    pub conn: u64,
    pub crypto: BreakCrypto,
    pub client_guid: [u8; 16],
    /// A break is outstanding and awaits acknowledgment.
    pub breaking: bool,
    /// The state the holder is being broken to.
    pub break_to: u32,
}

/// One break notification that is owed.
#[derive(Clone, Copy)]
pub struct LeaseBreak {
    pub key: [u8; 16],
    pub old_state: u32,
    pub new_state: u32,
    pub epoch: u16,
    pub conn: u64,
    pub crypto: BreakCrypto,
}

/// Why an acknowledgment was rejected.
#[derive(Clone, Copy, PartialEq, Eq, Structural, Debug)]
pub enum LeaseAckError {
    /// No lease has this key under this client.
    NotFound,
    /// The lease is not breaking.
    NotBreaking,
    /// The acknowledged state is not within the break-to state.
    StateNotAccepted,
}

/// Whether a change by `owner` under lease key `req_key` breaks `h` when it
/// clears the caching bits `clear`.
pub open spec fn must_break(h: LeaseHolder, owner: LockOwner, req_key: Option<[u8; 16]>, clear: u32) -> bool {
    (h.session_id, h.file_id) != owner && req_key != Some(h.key) && h.state & !clear != h.state
}

/// A holder after the caching bits `clear` were broken.
pub open spec fn broken(h: LeaseHolder, clear: u32) -> LeaseHolder {
    LeaseHolder {
        state: h.state & !clear,
        epoch: h.epoch.wrapping_add(1),
        breaking: true,
        break_to: h.state & !clear,
        ..h
    }
}

/// The notification of a break.
pub open spec fn break_notice(h: LeaseHolder, clear: u32) -> LeaseBreak {
    LeaseBreak {
        key: h.key,
        old_state: h.state,
        new_state: h.state & !clear,
        epoch: h.epoch.wrapping_add(1),
        conn: h.conn,
        crypto: h.crypto,
    }
}

/// The holders after a conflicting change.
pub open spec fn after_conflict(l: Seq<LeaseHolder>, owner: LockOwner, req_key: Option<[u8; 16]>, clear: u32) -> Seq<
    LeaseHolder,
> {
    Seq::new(
        l.len(),
        |i: int| if must_break(l[i], owner, req_key, clear) {
            broken(l[i], clear)
        } else {
            l[i]
        },
    )
}

/// The notifications that a conflicting change owes, in table order.
pub open spec fn notices(l: Seq<LeaseHolder>, owner: LockOwner, req_key: Option<[u8; 16]>, clear: u32) -> Seq<LeaseBreak>
    decreases l.len(),
{
    if l.len() == 0 {
        Seq::empty()
    } else {
        let front = notices(l.drop_last(), owner, req_key, clear);
        if must_break(l.last(), owner, req_key, clear) {
            front.push(break_notice(l.last(), clear))
        } else {
            front
        }
    }
}

/// The test for a holder that a conflicting change breaks.
pub open spec fn is_broken_by(owner: LockOwner, req_key: Option<[u8; 16]>, clear: u32) -> spec_fn(LeaseHolder) -> bool {
    |h: LeaseHolder| must_break(h, owner, req_key, clear)
}

/// A conflicting change breaks exactly the leases of other opens under other keys that
/// cache what it clears: each loses these bits, counts its epoch up, is breaking and is
/// told once, in table order; every other lease stays as it is.
pub proof fn law_conflict_breaks(l: Seq<LeaseHolder>, owner: LockOwner, req_key: Option<[u8; 16]>, clear: u32)
    ensures
        notices(l, owner, req_key, clear) == l.filter(is_broken_by(owner, req_key, clear)).map_values(
            |h: LeaseHolder| break_notice(h, clear),
        ),
        after_conflict(l, owner, req_key, clear).len() == l.len(),
        forall|i: int|
            #![trigger after_conflict(l, owner, req_key, clear)[i]]
            0 <= i < l.len() ==> {
                let h = l[i];
                let n = after_conflict(l, owner, req_key, clear)[i];
                if (h.session_id, h.file_id) != owner && req_key != Some(h.key) && h.state & clear != 0 {
                    &&& n.state == h.state & !clear
                    &&& n.break_to == h.state & !clear
                    &&& n.epoch == h.epoch.wrapping_add(1)
                    &&& n.breaking
                    &&& n == LeaseHolder {
                        state: n.state,
                        break_to: n.break_to,
                        epoch: n.epoch,
                        breaking: true,
                        ..h
                    }
                } else {
                    n == h
                }
            },
    decreases l.len(),
{
    reveal(Seq::filter);
    assert forall|i: int| #![trigger after_conflict(l, owner, req_key, clear)[i]] 0 <= i < l.len() implies (l[i].state
        & clear != 0) == (l[i].state & !clear != l[i].state) by {
        let st = l[i].state;
        assert((st & clear != 0) == (st & !clear != st)) by (bit_vector);
    }
    let p = is_broken_by(owner, req_key, clear);
    let f = |h: LeaseHolder| break_notice(h, clear);
    if l.len() > 0 {
        law_conflict_breaks(l.drop_last(), owner, req_key, clear);
        let front = l.drop_last().filter(p);
        if p(l.last()) {
            assert(front.push(l.last()).map_values(f) =~= front.map_values(f).push(f(l.last())));
        }
    }
    assert(notices(l, owner, req_key, clear) =~= l.filter(p).map_values(f));
}

/// How a holder answers an acknowledgment of `acked`.
pub open spec fn ack_result(h: LeaseHolder, acked: u32) -> Result<u32, LeaseAckError> {
    if !h.breaking {
        Err(LeaseAckError::NotBreaking)
    } else if acked & !h.break_to != 0 {
        Err(LeaseAckError::StateNotAccepted)
    } else {
        Ok(acked)
    }
}

/// A holder after an acknowledgment of `acked`.
pub open spec fn after_ack(h: LeaseHolder, acked: u32) -> LeaseHolder {
    if ack_result(h, acked) is Ok {
        LeaseHolder { state: acked, breaking: false, ..h }
    } else {
        h
    }
}

/// The lease holders of all files. Several clients may hold shareable caching
/// on one path under keys of their own.
pub struct LeaseTable {
    held: TextMap<Vec<LeaseHolder>>,
}

impl LeaseTable {
    /// The table's lists have distinct paths.
    pub closed spec fn wf(&self) -> bool {
        self.held.wf()
    }

    /// The holders on `path`, oldest first.
    pub closed spec fn holders(&self, path: Seq<char>) -> Seq<LeaseHolder> {
        list_at(self.held@, path)
    }

    /// Whether holder `i` on `path` satisfies `p`.
    pub open spec fn holder_is(&self, path: Seq<char>, i: int, p: spec_fn(LeaseHolder) -> bool) -> bool {
        0 <= i < self.holders(path).len() && p(self.holders(path)[i])
    }

    /// Whether `self` is `before` with holder `i` on `path` replaced by `h`.
    pub open spec fn one_changed(&self, before: &Self, path: Seq<char>, i: int, h: LeaseHolder) -> bool {
        &&& self.holders(path) == before.holders(path).update(i, h)
        &&& forall|p: Seq<char>| p != path ==> #[trigger] self.holders(p) == before.holders(p)
    }

    /// No leases.
    pub fn new() -> (t: Self)
        ensures
            t.wf(),
            forall|p: Seq<char>| #[trigger] t.holders(p) == Seq::<LeaseHolder>::empty(),
    {
        LeaseTable { held: TextMap::new() }
    }

    fn list(&self, path: &str) -> (l: Vec<LeaseHolder>)
        requires
            self.wf(),
        ensures
            l@ == self.holders(path@),
    {
        let mut l: Vec<LeaseHolder> = Vec::new();
        match self.held.get(path) {
            Some(h) => {
                let mut i: usize = 0;
                while i < h.len()
                    invariant
                        i <= h@.len(),
                        h@ == self.holders(path@),
                        l@ == h@.take(i as int),
                    decreases h@.len() - i,
                {
                    l.push(h[i]);
                    i += 1;
                    assert(l@ =~= h@.take(i as int));
                }
                assert(l@ =~= h@);
            },
            None => {},
        }
        assert(l@ =~= self.holders(path@));
        l
    }

    /// Records a holder on `path`; a second record of the same key and open is
    /// ignored.
    pub fn grant(&mut self, path: &str, holder: LeaseHolder) -> (ok: bool)
        requires
            old(self).wf(),
        ensures
            final(self).wf(),
            lease_recorded(*old(self), *final(self), path@, holder, ok),
    {
        let test = |h: &LeaseHolder| -> (b: bool)
            ensures
                b == (h.key == holder.key && h.file_id == holder.file_id),
            { same_id(&h.key, &holder.key) && same_id(&h.file_id, &holder.file_id) };
        let mut l = self.list(path);
        match position_where(
            &l,
            &test,
            Ghost(|h: LeaseHolder| h.key == holder.key && h.file_id == holder.file_id),
        ) {
            Some(_) => false,
            None => {
                l.push(holder);
                self.held.insert(path.to_owned(), l);
                true
            },
        }
    }

    /// State, epoch and form of the first holder on `path` under `key`.
    pub fn peek_key(&self, path: &str, key: [u8; 16]) -> (r: Option<(u32, u16, bool)>)
        requires
            self.wf(),
        ensures
            r == (match first_where(self.holders(path@), |h: LeaseHolder| h.key == key) {
                Some(i) => {
                    let h = self.holders(path@)[i];
                    Some((h.state, h.epoch, h.v2))
                },
                None => None,
            }),
    {
        let test = |h: &LeaseHolder| -> (b: bool)
            ensures
                b == (h.key == key),
            { same_id(&h.key, &key) };
        let l = self.list(path);
        match position_where(&l, &test, Ghost(|h: LeaseHolder| h.key == key)) {
            Some(i) => Some((l[i].state, l[i].epoch, l[i].v2)),
            None => None,
        }
    }

    /// Whether any lease is held on `path`.
    pub fn has_holders(&self, path: &str) -> (r: bool)
        requires
            self.wf(),
        ensures
            r == (self.holders(path@).len() > 0),
    {
        match self.held.get(path) {
            Some(l) => l.len() > 0,
            None => false,
        }
    }

    /// Breaks every conflicting holder on `path` by clearing the caching bits
    /// `clear`. The caller's own open and holders under `req_key` are spared.
    pub fn break_conflict(&mut self, path: &str, owner: LockOwner, req_key: Option<[u8; 16]>, clear: u32) -> (r: Vec<
        LeaseBreak,
    >)
        requires
            old(self).wf(),
        ensures
            final(self).wf(),
            final(self).holders(path@) == after_conflict(old(self).holders(path@), owner, req_key, clear),
            r@ == notices(old(self).holders(path@), owner, req_key, clear),
            forall|p: Seq<char>| p != path@ ==> #[trigger] final(self).holders(p) == old(self).holders(p),
    {
        let l = self.list(path);
        let mut out: Vec<LeaseHolder> = Vec::new();
        let mut r: Vec<LeaseBreak> = Vec::new();
        let mut i: usize = 0;
        assert(l@.take(0) =~= Seq::<LeaseHolder>::empty());
        while i < l.len()
            invariant
                i <= l@.len(),
                out@.len() == i,
                forall|k: int| 0 <= k < i ==> out@[k] == after_conflict(l@, owner, req_key, clear)[k],
                r@ == notices(l@.take(i as int), owner, req_key, clear),
            decreases l@.len() - i,
        {
            let h: LeaseHolder = l[i];
            let spared: bool = same_owner(&(h.session_id, h.file_id), &owner) || match req_key {
                Some(k) => same_id(&k, &h.key),
                None => false,
            };
            let new_state: u32 = h.state & !clear;
            proof {
                assert(l@.take(i + 1).drop_last() =~= l@.take(i as int));
                assert(l@.take(i + 1).last() == h);
            }
            if !spared && new_state != h.state {
                let epoch: u16 = h.epoch.wrapping_add(1);
                r.push(
                    LeaseBreak {
                        key: h.key,
                        old_state: h.state,
                        new_state,
                        epoch,
                        conn: h.conn,
                        crypto: h.crypto,
                    },
                );
                out.push(LeaseHolder { state: new_state, epoch, breaking: true, break_to: new_state, ..h });
            } else {
                out.push(h);
            }
            i += 1;
        }
        assert(l@.take(i as int) =~= l@);
        assert(out@ =~= after_conflict(l@, owner, req_key, clear));
        if out.len() > 0 {
            self.held.insert(path.to_owned(), out);
        }
        r
    }

    fn find_any<F: Fn(&LeaseHolder) -> bool>(&self, test: &F, pred: Ghost<spec_fn(LeaseHolder) -> bool>) -> (r: Option<
        (usize, usize),
    >)
        requires
            self.wf(),
            forall|t: LeaseHolder| call_requires(*test, (&t,)),
            forall|t: LeaseHolder, b: bool| call_ensures(*test, (&t,), b) ==> b == pred@(t),
        ensures
            match r {
                Some((e, i)) => e < self.held.entries@.len() && i < self.held.entries@[e as int].1@.len() && pred@(
                    self.held.entries@[e as int].1@[i as int],
                ),
                None => forall|p: Seq<char>, i: int| !#[trigger] self.holder_is(p, i, pred@),
            },
    {
        let mut e: usize = 0;
        while e < self.held.entries.len()
            invariant
                e <= self.held.entries@.len(),
                self.wf(),
                forall|t: LeaseHolder| call_requires(*test, (&t,)),
                forall|t: LeaseHolder, b: bool| call_ensures(*test, (&t,), b) ==> b == pred@(t),
                forall|a: int, i: int| #![trigger self.held.entries@[a].1@[i]]
                    0 <= a < e && 0 <= i < self.held.entries@[a].1@.len() ==> !pred@(self.held.entries@[a].1@[i]),
            decreases self.held.entries@.len() - e,
        {
            let l = &self.held.entries[e].1;
            match position_where(l, test, pred) {
                Some(i) => {
                    return Some((e, i));
                },
                None => {
                    proof {
                        crate::tables::lemma_first_where(l@, pred@);
                    }
                },
            }
            e += 1;
        }
        proof {
            let en = self.held.entries@;
            assert forall|p: Seq<char>, i: int| !#[trigger] self.holder_is(p, i, pred@) by {
                if self.holder_is(p, i, pred@) {
                    let a = choose|a: int| key_is(en, p, a);
                    assert(key_is(en, p, a));
                    lemma_entry(en, a);
                    assert(!pred@(en[a].1@[i]));
                }
            }
        }
        None
    }

    fn replace(&mut self, e: usize, i: usize, h: LeaseHolder)
        requires
            old(self).wf(),
            e < old(self).held.entries@.len(),
            i < old(self).held.entries@[e as int].1@.len(),
        ensures
            final(self).wf(),
            final(self).one_changed(old(self), old(self).held.entries@[e as int].0@, i as int, h),
            0 <= i < old(self).holders(old(self).held.entries@[e as int].0@).len(),
            old(self).holders(old(self).held.entries@[e as int].0@)[i as int]
                == old(self).held.entries@[e as int].1@[i as int],
    {
        let ghost before = self.held.entries@;
        self.held.entries[e].1.set(i, h);
        proof {
            let after = self.held.entries@;
            assert(forall|a: int| 0 <= a < before.len() ==> (#[trigger] after[a]).0 == before[a].0);
            assert(keys_distinct(after)) by {
                assert forall|a: int, b: int| 0 <= a < b < after.len() implies (#[trigger] after[a]).0@ != (
                #[trigger] after[b]).0@ by {
                    assert(before[a].0@ != before[b].0@);
                }
            }
            lemma_entry(before, e as int);
            lemma_entry(after, e as int);
            let path = before[e as int].0@;
            assert forall|p: Seq<char>| p != path implies #[trigger] self.holders(p) == old(self).holders(p) by {
                if entry_map(before).contains_key(p) {
                    let a = choose|a: int| key_is(before, p, a);
                    assert(key_is(before, p, a));
                    lemma_entry(before, a);
                    lemma_entry(after, a);
                }
                if entry_map(after).contains_key(p) {
                    let a = choose|a: int| key_is(after, p, a);
                    assert(key_is(after, p, a));
                    lemma_entry(before, a);
                    lemma_entry(after, a);
                }
            }
        }
    }

    /// Records the state a holder settled on. Where several paths hold the key,
    /// one of the holders takes it.
    pub fn set_state(&mut self, key: [u8; 16], state: u32)
        requires
            old(self).wf(),
        ensures
            final(self).wf(),
            ({
                let p = |h: LeaseHolder| h.key == key;
                if exists|path: Seq<char>, i: int| #[trigger] old(self).holder_is(path, i, p) {
                    exists|path: Seq<char>, i: int| #[trigger]
                        old(self).holder_is(path, i, p) && final(self).one_changed(
                            old(self),
                            path,
                            i,
                            (LeaseHolder { state, ..old(self).holders(path)[i] }),
                        )
                } else {
                    forall|path: Seq<char>| #[trigger] final(self).holders(path) == old(self).holders(path)
                }
            }),
    {
        let test = |h: &LeaseHolder| -> (b: bool)
            ensures
                b == (h.key == key),
            { same_id(&h.key, &key) };
        let ghost p = |h: LeaseHolder| h.key == key;
        match self.find_any(&test, Ghost(p)) {
            Some((e, i)) => {
                let h: LeaseHolder = self.held.entries[e].1[i];
                let ghost path = self.held.entries@[e as int].0@;
                self.replace(e, i, LeaseHolder { state, ..h });
                assert(old(self).holder_is(path, i as int, p));
            },
            None => {},
        }
    }

    /// Checks and applies an acknowledgment: the lease must exist under this
    /// client, be breaking, and `acked` must lie within the break-to state.
    /// Where several paths hold the key, one of the holders answers.
    pub fn acknowledge(&mut self, client_guid: [u8; 16], key: [u8; 16], acked: u32) -> (r: Result<u32, LeaseAckError>)
        requires
            old(self).wf(),
        ensures
            final(self).wf(),
            acknowledged(*old(self), *final(self), client_guid, key, acked, r),
    {
        let test = |h: &LeaseHolder| -> (b: bool)
            ensures
                b == (h.key == key && h.client_guid == client_guid),
            { same_id(&h.key, &key) && same_id(&h.client_guid, &client_guid) };
        let ghost p = |h: LeaseHolder| h.key == key && h.client_guid == client_guid;
        match self.find_any(&test, Ghost(p)) {
            Some((e, i)) => {
                let h: LeaseHolder = self.held.entries[e].1[i];
                let ghost path = self.held.entries@[e as int].0@;
                let r: Result<u32, LeaseAckError> = if !h.breaking {
                    Err(LeaseAckError::NotBreaking)
                } else if acked & !h.break_to != 0 {
                    Err(LeaseAckError::StateNotAccepted)
                } else {
                    Ok(acked)
                };
                let new: LeaseHolder = if r.is_ok() {
                    LeaseHolder { state: acked, breaking: false, ..h }
                } else {
                    h
                };
                self.replace(e, i, new);
                assert(old(self).holder_is(path, i as int, p));
                r
            },
            None => Err(LeaseAckError::NotFound),
        }
    }

    /// Drops the lease that `owner` holds on `path`.
    pub fn release(&mut self, path: &str, owner: LockOwner) -> (r: Option<LeaseHolder>)
        requires
            old(self).wf(),
        ensures
            final(self).wf(),
            lease_dropped(*old(self), *final(self), path@, owner, r),
    {
        let test = |h: &LeaseHolder| -> (b: bool)
            ensures
                b == ((h.session_id, h.file_id) == owner),
            { same_owner(&(h.session_id, h.file_id), &owner) };
        let mut l = self.list(path);
        match position_where(&l, &test, Ghost(|h: LeaseHolder| (h.session_id, h.file_id) == owner)) {
            Some(i) => {
                let h = l.remove(i);
                if l.len() > 0 {
                    self.held.insert(path.to_owned(), l);
                } else {
                    assert(l@ =~= Seq::<LeaseHolder>::empty());
                    let _gone = self.held.remove(path);
                }
                Some(h)
            },
            None => None,
        }
    }

    /// Drops every lease of a session.
    pub fn release_session(&mut self, session_id: u64)
        requires
            old(self).wf(),
        ensures
            final(self).wf(),
            forall|p: Seq<char>| #[trigger]
                final(self).holders(p) == old(self).holders(p).filter(|h: LeaseHolder| h.session_id != session_id),
    {
        let keep = |h: &LeaseHolder| -> (b: bool)
            ensures
                b == (h.session_id != session_id),
            { h.session_id != session_id };
        let ghost pred = |h: LeaseHolder| h.session_id != session_id;
        retain_lists(&mut self.held, &keep, Ghost(pred));
        assert forall|p: Seq<char>| #[trigger] self.holders(p) == old(self).holders(p).filter(pred) by {
            assert(list_at(self.held@, p) == list_at(old(self).held@, p).filter(pred));
        }
    }
}

/// Whether a holder is recorded: a second record of the same key and open is ignored.
pub open spec fn lease_recorded(t0: LeaseTable, t1: LeaseTable, path: Seq<char>, holder: LeaseHolder, ok: bool) -> bool {
    &&& ok == (first_where(t0.holders(path), |h: LeaseHolder| h.key == holder.key && h.file_id == holder.file_id) is None)
    &&& t1.holders(path) == if ok {
        t0.holders(path).push(holder)
    } else {
        t0.holders(path)
    }
    &&& forall|p: Seq<char>| p != path ==> #[trigger] t1.holders(p) == t0.holders(p)
}

/// Whether the lease that an open holds is dropped.
pub open spec fn lease_dropped(
    t0: LeaseTable,
    t1: LeaseTable,
    path: Seq<char>,
    owner: LockOwner,
    r: Option<LeaseHolder>,
) -> bool {
    &&& match first_where(t0.holders(path), |h: LeaseHolder| (h.session_id, h.file_id) == owner) {
        Some(i) => r == Some(t0.holders(path)[i]) && t1.holders(path) == t0.holders(path).remove(i),
        None => r is None && t1.holders(path) == t0.holders(path),
    }
    &&& forall|p: Seq<char>| p != path ==> #[trigger] t1.holders(p) == t0.holders(p)
}

/// Whether an acknowledgment is checked and applied.
pub open spec fn acknowledged(
    t0: LeaseTable,
    t1: LeaseTable,
    client_guid: [u8; 16],
    key: [u8; 16],
    acked: u32,
    r: Result<u32, LeaseAckError>,
) -> bool {
    let p = |h: LeaseHolder| h.key == key && h.client_guid == client_guid;
    if exists|path: Seq<char>, i: int| #[trigger] t0.holder_is(path, i, p) {
        exists|path: Seq<char>, i: int| #[trigger]
            t0.holder_is(path, i, p) && r == ack_result(t0.holders(path)[i], acked) && t1.one_changed(
                &t0,
                path,
                i,
                after_ack(t0.holders(path)[i], acked),
            )
    } else {
        r == Err::<u32, LeaseAckError>(LeaseAckError::NotFound) && forall|path: Seq<char>| #[trigger]
            t1.holders(path) == t0.holders(path)
    }
}

/// A lease that is granted is held until it is released: a new key is recorded behind those
/// that are there, the lease of an open is dropped by its owner, and no other file changes.
#[verifier::rlimit(40)]
#[verifier::spinoff_prover]
pub proof fn law_granted_lease_is_held(
    t0: LeaseTable,
    t1: LeaseTable,
    t2: LeaseTable,
    path: Seq<char>,
    other: Seq<char>,
    holder: LeaseHolder,
    ok: bool,
    r: Option<LeaseHolder>,
)
    requires
        lease_recorded(t0, t1, path, holder, ok),
        lease_dropped(t1, t2, path, (holder.session_id, holder.file_id), r),
        other != path,
    ensures
        t0.holders(path).len() == 0 ==> ok && t1.holders(path) == seq![holder] && r == Some(holder) && t2.holders(path).len()
            == 0,
        ok ==> t1.holders(path).contains(holder) && r is Some,
        r matches Some(h) ==> (h.session_id, h.file_id) == (holder.session_id, holder.file_id),
        r is Some ==> t2.holders(path).len() == t1.holders(path).len() - 1,
        t2.holders(other) == t0.holders(other),
        !ok ==> t1.holders(path) == t0.holders(path),
{
    let same = |h: LeaseHolder| h.key == holder.key && h.file_id == holder.file_id;
    let own = |h: LeaseHolder| (h.session_id, h.file_id) == (holder.session_id, holder.file_id);
    lemma_first_where(t0.holders(path), same);
    lemma_first_where(t1.holders(path), own);
    if ok {
        let n = t0.holders(path).len() as int;
        assert(t1.holders(path)[n] == holder);
        assert(own(t1.holders(path)[n]));
    }
    if t0.holders(path).len() == 0 {
        assert(t1.holders(path) =~= seq![holder]);
    }
}

/// An acknowledgment is accepted only for a lease of that key and client that is breaking,
/// and only for caching that the break leaves; it then ends the break. No other lease
/// changes.
#[verifier::rlimit(40)]
#[verifier::spinoff_prover]
pub proof fn law_acknowledgment_ends_the_break(
    t0: LeaseTable,
    t1: LeaseTable,
    client_guid: [u8; 16],
    key: [u8; 16],
    acked: u32,
    r: Result<u32, LeaseAckError>,
    path: Seq<char>,
    i: int,
)
    requires
        acknowledged(t0, t1, client_guid, key, acked, r),
        0 <= i < t0.holders(path).len(),
    ensures
        ({
            let h = t0.holders(path)[i];
            let n = t1.holders(path)[i];
            &&& t1.holders(path).len() == t0.holders(path).len()
            &&& h.key != key || h.client_guid != client_guid ==> n == h
            &&& n == h || n.state == acked && !n.breaking && h.breaking && acked & !h.break_to == 0
            &&& r is Err ==> n == h
            &&& h.key == key && h.client_guid == client_guid ==> r != Err::<u32, LeaseAckError>(LeaseAckError::NotFound)
            &&& r matches Ok(s) ==> s == acked
        }),
{
    let p = |h: LeaseHolder| h.key == key && h.client_guid == client_guid;
    if t0.holders(path)[i].key == key && t0.holders(path)[i].client_guid == client_guid {
        assert(t0.holder_is(path, i, p));
    }
    if exists|q: Seq<char>, k: int| #[trigger] t0.holder_is(q, k, p) {
        let (q, k) = choose|q: Seq<char>, k: int| #[trigger]
            t0.holder_is(q, k, p) && r == ack_result(t0.holders(q)[k], acked) && t1.one_changed(
                &t0,
                q,
                k,
                after_ack(t0.holders(q)[k], acked),
            );
        if q != path {
            assert(t1.holders(path) == t0.holders(path));
        }
    }
}

/// A break leaves none of the cleared caching bits, and acknowledging the state
/// that a break asked for succeeds and ends the break.
pub proof fn law_break_then_ack(h: LeaseHolder, clear: u32)
    ensures
        broken(h, clear).state & clear == 0,
        ack_result(broken(h, clear), broken(h, clear).break_to) == Ok::<u32, LeaseAckError>(h.state & !clear),
        !after_ack(broken(h, clear), broken(h, clear).break_to).breaking,
{
    let s = h.state;
    assert((s & !clear) & clear == 0) by (bit_vector);
    let t = s & !clear;
    assert(t & !t == 0) by (bit_vector);
}

/// An acknowledgment can only give caching up: it never leaves a bit that the
/// break took.
pub proof fn law_ack_is_subset(h: LeaseHolder, acked: u32)
    requires
        ack_result(h, acked) is Ok,
    ensures
        after_ack(h, acked).state & !h.break_to == 0,
{
}

/// A holder's own change, or a change under its own key, never breaks it.
pub proof fn law_own_change_spares(h: LeaseHolder, req_key: Option<[u8; 16]>, clear: u32, other: LockOwner)
    ensures
        !must_break(h, (h.session_id, h.file_id), req_key, clear),
        !must_break(h, other, Some(h.key), clear),
{
}

} // verus!
