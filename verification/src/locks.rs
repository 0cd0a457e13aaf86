//! Byte-range locks, keyed by the file's path so that opens from different
//! connections contend.
use vstd::prelude::*;
use crate::tables::{list_at, retain_lists, swap_removed, TextMap};

verus! {

/// The open that owns a lock: session id and file id.
pub type LockOwner = (u64, [u8; 16]);

/// One lock that is held.
#[derive(Clone, Copy)]
pub struct HeldLock {
    pub offset: u64,
    pub length: u64,
    pub exclusive: bool,
    pub owner: LockOwner,
}

/// The end of a range, at most the highest offset.
pub open spec fn range_end(off: u64, len: u64) -> int {
    if off + len <= u64::MAX {
        off + len
    } else {
        u64::MAX as int
    }
}

/// Whether two byte ranges overlap.
pub open spec fn ranges_overlap(off1: u64, len1: u64, off2: u64, len2: u64) -> bool {
    off1 < range_end(off2, len2) && off2 < range_end(off1, len1)
}

/// Whether a new lock clashes with one that is held: the ranges overlap and
/// one of the two is exclusive, whoever owns them.
pub open spec fn lock_clash(h: HeldLock, off: u64, len: u64, excl: bool) -> bool {
    ranges_overlap(off, len, h.offset, h.length) && (excl || h.exclusive)
}

/// Whether one of the requested ranges clashes with a lock of `held`.
pub open spec fn any_clash(held: Seq<HeldLock>, ranges: Seq<(u64, u64, bool)>) -> bool {
    exists|i: int, j: int| #![trigger held[i], ranges[j]]
        0 <= i < held.len() && 0 <= j < ranges.len() && lock_clash(held[i], ranges[j].0, ranges[j].1, ranges[j].2)
}

/// The locks that a request for `ranges` adds.
pub open spec fn new_locks(ranges: Seq<(u64, u64, bool)>, owner: LockOwner) -> Seq<HeldLock> {
    Seq::new(
        ranges.len(),
        |i: int| HeldLock { offset: ranges[i].0, length: ranges[i].1, exclusive: ranges[i].2, owner },
    )
}

/// Whether a lock of `held` blocks a write.
pub open spec fn blocks_write(held: Seq<HeldLock>, off: u64, len: u64, owner: LockOwner) -> bool {
    exists|i: int|
        0 <= i < held.len() && ranges_overlap(off, len, (#[trigger] held[i]).offset, held[i].length) && (!held[i].exclusive
            || held[i].owner != owner)
}

/// Whether a lock of `held` blocks a read.
pub open spec fn blocks_read(held: Seq<HeldLock>, off: u64, len: u64, owner: LockOwner) -> bool {
    exists|i: int|
        0 <= i < held.len() && ranges_overlap(off, len, (#[trigger] held[i]).offset, held[i].length) && held[i].exclusive
            && held[i].owner != owner
}

/// Whether `h` is the lock that `owner` holds on exactly this range.
pub open spec fn is_lock_on(h: HeldLock, range: (u64, u64), owner: LockOwner) -> bool {
    h.owner == owner && h.offset == range.0 && h.length == range.1
}

/// The first lock that `owner` holds on exactly this range.
pub open spec fn first_lock(held: Seq<HeldLock>, range: (u64, u64), owner: LockOwner) -> Option<int>
    decreases held.len(),
{
    if held.len() == 0 {
        None
    } else {
        match first_lock(held.drop_last(), range, owner) {
            Some(i) => Some(i),
            None => if is_lock_on(held.last(), range, owner) {
                Some(held.len() - 1)
            } else {
                None
            },
        }
    }
}

/// What is held after one range was released.
pub open spec fn released_one(held: Seq<HeldLock>, range: (u64, u64), owner: LockOwner) -> Seq<HeldLock> {
    match first_lock(held, range, owner) {
        Some(i) => swap_removed(held, i),
        None => held,
    }
}

/// What is held after the given ranges were released, in order.
pub open spec fn released_all(held: Seq<HeldLock>, ranges: Seq<(u64, u64)>, owner: LockOwner) -> Seq<HeldLock>
    decreases ranges.len(),
{
    if ranges.len() == 0 {
        held
    } else {
        released_one(released_all(held, ranges.drop_last(), owner), ranges.last(), owner)
    }
}

fn end_of(off: u64, len: u64) -> (e: u64)
    ensures
        e == range_end(off, len),
{
    off.saturating_add(len)
}

/// Whether the range overlaps the range of a held lock.
fn overlaps(h: &HeldLock, off: u64, len: u64) -> (r: bool)
    ensures
        r == ranges_overlap(off, len, h.offset, h.length),
{
    off < end_of(h.offset, h.length) && h.offset < end_of(off, len)
}

/// Whether two lock owners are the same open.
pub fn same_owner(a: &LockOwner, b: &LockOwner) -> (r: bool)
    ensures
        r == (*a == *b),
{
    a.0 == b.0 && same_id(&a.1, &b.1)
}

/// Whether two 16-byte ids are the same.
pub fn same_id(a: &[u8; 16], b: &[u8; 16]) -> (r: bool)
    ensures
        r == (*a == *b),
{
    let mut i: usize = 0;
    while i < 16
        invariant
            i <= 16,
            forall|k: int| 0 <= k < i ==> a@[k] == b@[k],
        decreases 16 - i,
    {
        if a[i] != b[i] {
            return false;
        }
        i += 1;
    }
    assert(a@ =~= b@);
    assert(*a =~= *b);
    true
}

/// The locks of other sessions.
pub open spec fn lock_elsewhere(session_id: u64) -> spec_fn(HeldLock) -> bool {
    |h: HeldLock| h.owner.0 != session_id
}

/// The locks of all files.
pub struct LockManager {
    held: TextMap<Vec<HeldLock>>,
}

impl LockManager {
    /// The table's lists have distinct paths.
    pub closed spec fn wf(&self) -> bool {
        self.held.wf()
    }

    /// The locks held on `path`, in table order.
    pub closed spec fn locks(&self, path: Seq<char>) -> Seq<HeldLock> {
        list_at(self.held@, path)
    }

    /// No locks.
    pub fn new() -> (m: Self)
        ensures
            m.wf(),
            forall|p: Seq<char>| #[trigger] m.locks(p) == Seq::<HeldLock>::empty(),
    {
        LockManager { held: TextMap::new() }
    }

    /// Whether a new lock clashes with a held one.
    fn conflicts(existing: &HeldLock, off: u64, len: u64, excl: bool) -> (r: bool)
        ensures
            r == lock_clash(*existing, off, len, excl),
    {
        overlaps(existing, off, len) && (excl || existing.exclusive)
    }

    fn clash_in(list: &Vec<HeldLock>, ranges: &[(u64, u64, bool)]) -> (r: bool)
        ensures
            r == any_clash(list@, ranges@),
    {
        let mut j: usize = 0;
        while j < ranges.len()
            invariant
                j <= ranges@.len(),
                forall|a: int, b: int| #![trigger list@[a], ranges@[b]]
                    0 <= a < list@.len() && 0 <= b < j ==> !lock_clash(list@[a], ranges@[b].0, ranges@[b].1, ranges@[b].2),
            decreases ranges@.len() - j,
        {
            let (off, len, excl) = ranges[j];
            let mut i: usize = 0;
            while i < list.len()
                invariant
                    i <= list@.len(),
                    j < ranges@.len(),
                    ranges@[j as int] == (off, len, excl),
                    forall|a: int| 0 <= a < i ==> !lock_clash(#[trigger] list@[a], off, len, excl),
                decreases list@.len() - i,
            {
                if Self::conflicts(&list[i], off, len, excl) {
                    assert(lock_clash(list@[i as int], ranges@[j as int].0, ranges@[j as int].1, ranges@[j as int].2));
                    return true;
                }
                i += 1;
            }
            j += 1;
        }
        false
    }

    /// Acquires every range, or none. Ranges are offset, length and whether the
    /// lock is exclusive.
    pub fn try_acquire(&mut self, path: &str, ranges: &[(u64, u64, bool)], owner: LockOwner) -> (ok: bool)
        requires
            old(self).wf(),
        ensures
            final(self).wf(),
            ok == !any_clash(old(self).locks(path@), ranges@),
            final(self).locks(path@) == if ok {
                old(self).locks(path@) + new_locks(ranges@, owner)
            } else {
                old(self).locks(path@)
            },
            forall|p: Seq<char>| p != path@ ==> #[trigger] final(self).locks(p) == old(self).locks(p),
    {
        let mut list: Vec<HeldLock> = match self.held.get(path) {
            Some(l) => {
                if Self::clash_in(l, ranges) {
                    return false;
                }
                copy_locks(l)
            },
            None => Vec::new(),
        };
        let ghost before = list@;
        assert(list@ =~= old(self).locks(path@));
        let mut i: usize = 0;
        assert(list@ =~= before + new_locks(ranges@, owner).take(0));
        while i < ranges.len()
            invariant
                i <= ranges@.len(),
                list@ == before + new_locks(ranges@, owner).take(i as int),
            decreases ranges@.len() - i,
        {
            let (off, len, excl) = ranges[i];
            list.push(HeldLock { offset: off, length: len, exclusive: excl, owner });
            i += 1;
            assert(list@ =~= before + new_locks(ranges@, owner).take(i as int));
        }
        assert(new_locks(ranges@, owner).take(i as int) =~= new_locks(ranges@, owner));
        self.held.insert(path.to_owned(), list);
        true
    }

    /// Whether a lock blocks a write: any shared lock on the range, or an
    /// exclusive lock of another open.
    pub fn write_conflict(&self, path: &str, off: u64, len: u64, owner: LockOwner) -> (r: bool)
        requires
            self.wf(),
        ensures
            r == blocks_write(self.locks(path@), off, len, owner),
    {
        match self.held.get(path) {
            Some(l) => {
                let mut i: usize = 0;
                while i < l.len()
                    invariant
                        i <= l@.len(),
                        l@ == self.locks(path@),
                        forall|a: int|
                            0 <= a < i ==> !(ranges_overlap(off, len, (#[trigger] l@[a]).offset, l@[a].length) && (
                            !l@[a].exclusive || l@[a].owner != owner)),
                    decreases l@.len() - i,
                {
                    if overlaps(&l[i], off, len) && (!l[i].exclusive || !same_owner(&l[i].owner, &owner)) {
                        assert(l@[i as int] == self.locks(path@)[i as int]);
                        return true;
                    }
                    i += 1;
                }
                false
            },
            None => false,
        }
    }

    /// Whether a lock blocks a read: an exclusive lock of another open.
    pub fn read_conflict(&self, path: &str, off: u64, len: u64, owner: LockOwner) -> (r: bool)
        requires
            self.wf(),
        ensures
            r == blocks_read(self.locks(path@), off, len, owner),
    {
        match self.held.get(path) {
            Some(l) => {
                let mut i: usize = 0;
                while i < l.len()
                    invariant
                        i <= l@.len(),
                        l@ == self.locks(path@),
                        forall|a: int|
                            0 <= a < i ==> !(ranges_overlap(off, len, (#[trigger] l@[a]).offset, l@[a].length)
                                && l@[a].exclusive && l@[a].owner != owner),
                    decreases l@.len() - i,
                {
                    if overlaps(&l[i], off, len) && l[i].exclusive && !same_owner(&l[i].owner, &owner) {
                        assert(l@[i as int] == self.locks(path@)[i as int]);
                        return true;
                    }
                    i += 1;
                }
                false
            },
            None => false,
        }
    }

    /// Releases ranges (offset, length) that `owner` holds.
    pub fn release(&mut self, path: &str, ranges: &[(u64, u64)], owner: LockOwner)
        requires
            old(self).wf(),
        ensures
            final(self).wf(),
            final(self).locks(path@) == released_all(old(self).locks(path@), ranges@, owner),
            forall|p: Seq<char>| p != path@ ==> #[trigger] final(self).locks(p) == old(self).locks(p),
    {
        let taken = self.held.remove(path);
        match taken {
            Some(mut list) => {
                let ghost before = list@;
                let mut i: usize = 0;
                assert(ranges@.take(0) =~= Seq::<(u64, u64)>::empty());
                while i < ranges.len()
                    invariant
                        i <= ranges@.len(),
                        list@ == released_all(before, ranges@.take(i as int), owner),
                    decreases ranges@.len() - i,
                {
                    let ghost cur = list@;
                    match find_lock(&list, ranges[i], owner) {
                        Some(pos) => {
                            let _gone = list.swap_remove(pos);
                        },
                        None => {},
                    }
                    proof {
                        assert(ranges@.take(i + 1).drop_last() =~= ranges@.take(i as int));
                        assert(list@ == released_one(cur, ranges@[i as int], owner));
                    }
                    i += 1;
                }
                assert(ranges@.take(i as int) =~= ranges@);
                if list.len() > 0 {
                    self.held.insert(path.to_owned(), list);
                } else {
                    assert(list@ =~= Seq::<HeldLock>::empty());
                }
            },
            None => {
                proof {
                    lemma_release_nothing(ranges@, owner);
                }
            },
        }
    }

    /// Drops every lock of one open.
    pub fn release_owner(&mut self, owner: LockOwner)
        requires
            old(self).wf(),
        ensures
            final(self).wf(),
            forall|p: Seq<char>| #[trigger] final(self).locks(p) == old(self).locks(p).filter(|h: HeldLock| h.owner != owner),
    {
        let keep = |h: &HeldLock| -> (b: bool)
            ensures
                b == (h.owner != owner),
            { !same_owner(&h.owner, &owner) };
        let ghost pred = |h: HeldLock| h.owner != owner;
        retain_lists(&mut self.held, &keep, Ghost(pred));
        assert forall|p: Seq<char>| #[trigger] self.locks(p) == old(self).locks(p).filter(pred) by {
            assert(list_at(self.held@, p) == list_at(old(self).held@, p).filter(pred));
        }
    }

    /// Drops every lock of any open of a session.
    pub fn release_session(&mut self, session_id: u64)
        requires
            old(self).wf(),
        ensures
            final(self).wf(),
            forall|p: Seq<char>| #[trigger]
                final(self).locks(p) == old(self).locks(p).filter(lock_elsewhere(session_id)),
    {
        let keep = |h: &HeldLock| -> (b: bool)
            ensures
                b == (h.owner.0 != session_id),
            { h.owner.0 != session_id };
        let ghost pred = lock_elsewhere(session_id);
        retain_lists(&mut self.held, &keep, Ghost(pred));
        assert forall|p: Seq<char>| #[trigger] self.locks(p) == old(self).locks(p).filter(pred) by {
            assert(list_at(self.held@, p) == list_at(old(self).held@, p).filter(pred));
        }
    }
}

fn copy_locks(l: &Vec<HeldLock>) -> (r: Vec<HeldLock>)
    ensures
        r@ == l@,
{
    let mut r: Vec<HeldLock> = Vec::new();
    let mut i: usize = 0;
    while i < l.len()
        invariant
            i <= l@.len(),
            r@ == l@.take(i as int),
        decreases l@.len() - i,
    {
        r.push(l[i]);
        i += 1;
        assert(r@ =~= l@.take(i as int));
    }
    assert(r@ =~= l@);
    r
}

fn find_lock(list: &Vec<HeldLock>, range: (u64, u64), owner: LockOwner) -> (r: Option<usize>)
    ensures
        match r {
            Some(i) => i < list@.len() && first_lock(list@, range, owner) == Some(i as int),
            None => first_lock(list@, range, owner) is None,
        },
{
    let mut i: usize = 0;
    while i < list.len()
        invariant
            i <= list@.len(),
            first_lock(list@.take(i as int), range, owner) is None,
        decreases list@.len() - i,
    {
        let h: HeldLock = list[i];
        proof {
            assert(list@.take(i + 1).drop_last() =~= list@.take(i as int));
        }
        if same_owner(&h.owner, &owner) && h.offset == range.0 && h.length == range.1 {
            proof {
                lemma_first_stays(list@, i + 1, range, owner);
            }
            return Some(i);
        }
        i += 1;
    }
    assert(list@.take(i as int) =~= list@);
    None
}

proof fn lemma_first_stays(held: Seq<HeldLock>, n: int, range: (u64, u64), owner: LockOwner)
    requires
        0 <= n <= held.len(),
        first_lock(held.take(n), range, owner) is Some,
    ensures
        first_lock(held, range, owner) == first_lock(held.take(n), range, owner),
    decreases held.len(),
{
    if n == held.len() {
        assert(held.take(n) =~= held);
    } else {
        assert(held.drop_last().take(n) =~= held.take(n));
        lemma_first_stays(held.drop_last(), n, range, owner);
    }
}

proof fn lemma_release_nothing(ranges: Seq<(u64, u64)>, owner: LockOwner)
    ensures
        released_all(Seq::empty(), ranges, owner) == Seq::<HeldLock>::empty(),
    decreases ranges.len(),
{
    if ranges.len() > 0 {
        lemma_release_nothing(ranges.drop_last(), owner);
    }
}

/// Two shared locks never conflict.
pub proof fn law_shared_locks_coexist(h: HeldLock, off: u64, len: u64)
    requires
        !h.exclusive,
    ensures
        !lock_clash(h, off, len, false),
{
}

/// An exclusive lock on a range of at least one byte shuts out every lock on
/// the same range, its own owner's too.
pub proof fn law_exclusive_excludes(h: HeldLock, excl: bool)
    requires
        h.exclusive,
        h.length > 0,
        h.offset < u64::MAX,
    ensures
        lock_clash(h, h.offset, h.length, excl),
{
}

/// Conflict does not depend on which of two locks came first.
pub proof fn law_conflict_symmetric(a: HeldLock, b: HeldLock)
    ensures
        lock_clash(a, b.offset, b.length, b.exclusive) == lock_clash(b, a.offset, a.length, a.exclusive),
{
}

/// A range that was granted alone is free again once it is released.
pub proof fn law_release_frees(range: (u64, u64), excl: bool, owner: LockOwner)
    ensures
        released_all(new_locks(seq![(range.0, range.1, excl)], owner), seq![range], owner) == Seq::<HeldLock>::empty(),
{
    let held = new_locks(seq![(range.0, range.1, excl)], owner);
    reveal_with_fuel(released_all, 2);
    reveal_with_fuel(first_lock, 2);
    assert(seq![range].drop_last() =~= Seq::<(u64, u64)>::empty());
    assert(held.drop_last() =~= Seq::<HeldLock>::empty());
    assert(first_lock(held, range, owner) == Some(0int));
    assert(swap_removed(held, 0) =~= Seq::<HeldLock>::empty());
}

/// Whether no two locks of different opens clash.
pub open spec fn kept_apart(held: Seq<HeldLock>) -> bool {
    forall|i: int, j: int| #![trigger held[i], held[j]]
        0 <= i < held.len() && 0 <= j < held.len() && held[i].owner != held[j].owner ==> !lock_clash(
            held[i],
            held[j].offset,
            held[j].length,
            held[j].exclusive,
        )
}

proof fn lemma_first_lock(held: Seq<HeldLock>, range: (u64, u64), owner: LockOwner)
    ensures
        first_lock(held, range, owner) matches Some(i) ==> 0 <= i < held.len(),
    decreases held.len(),
{
    if held.len() > 0 {
        lemma_first_lock(held.drop_last(), range, owner);
    }
}

proof fn lemma_fewer_kept_apart(held: Seq<HeldLock>, fewer: Seq<HeldLock>)
    requires
        kept_apart(held),
        forall|i: int| 0 <= i < fewer.len() ==> held.contains(#[trigger] fewer[i]),
    ensures
        kept_apart(fewer),
{
    assert forall|i: int, j: int| #![trigger fewer[i], fewer[j]]
        0 <= i < fewer.len() && 0 <= j < fewer.len() && fewer[i].owner != fewer[j].owner implies !lock_clash(
        fewer[i],
        fewer[j].offset,
        fewer[j].length,
        fewer[j].exclusive,
    ) by {
        let a = choose|a: int| 0 <= a < held.len() && held[a] == fewer[i];
        let b = choose|b: int| 0 <= b < held.len() && held[b] == fewer[j];
        assert(held[a].owner != held[b].owner);
    }
}

/// Mutual exclusion: locks of different opens never clash. What is granted keeps
/// apart from what is held.
pub proof fn law_granted_locks_keep_apart(held: Seq<HeldLock>, ranges: Seq<(u64, u64, bool)>, owner: LockOwner)
    requires
        kept_apart(held),
        !any_clash(held, ranges),
    ensures
        kept_apart(held + new_locks(ranges, owner)),
{
    let new = new_locks(ranges, owner);
    let all = held + new;
    let n = held.len() as int;
    assert forall|i: int, j: int| #![trigger all[i], all[j]]
        0 <= i < all.len() && 0 <= j < all.len() && all[i].owner != all[j].owner implies !lock_clash(
        all[i],
        all[j].offset,
        all[j].length,
        all[j].exclusive,
    ) by {
        if i < n && j < n {
            assert(all[i] == held[i] && all[j] == held[j]);
        } else if i < n {
            assert(all[i] == held[i] && all[j] == new[j - n]);
            assert(!lock_clash(held[i], ranges[j - n].0, ranges[j - n].1, ranges[j - n].2));
        } else if j < n {
            assert(all[j] == held[j] && all[i] == new[i - n]);
            assert(!lock_clash(held[j], ranges[i - n].0, ranges[i - n].1, ranges[i - n].2));
            law_conflict_symmetric(all[i], all[j]);
        } else {
            assert(all[i] == new[i - n] && all[j] == new[j - n]);
        }
    }
}

/// Mutual exclusion: giving ranges back, or ending a session, keeps the other locks
/// apart.
pub proof fn law_releases_keep_apart(held: Seq<HeldLock>, ranges: Seq<(u64, u64)>, owner: LockOwner, session_id: u64)
    requires
        kept_apart(held),
    ensures
        kept_apart(released_all(held, ranges, owner)),
        kept_apart(held.filter(lock_elsewhere(session_id))),
    decreases ranges.len(),
{
    let rest = held.filter(lock_elsewhere(session_id));
    assert forall|i: int| 0 <= i < rest.len() implies held.contains(#[trigger] rest[i]) by {
        assert(rest.contains(rest[i]));
        held.lemma_filter_contains_rev(lock_elsewhere(session_id), rest[i]);
    }
    lemma_fewer_kept_apart(held, rest);
    if ranges.len() > 0 {
        law_releases_keep_apart(held, ranges.drop_last(), owner, session_id);
        let before = released_all(held, ranges.drop_last(), owner);
        let after = released_one(before, ranges.last(), owner);
        lemma_first_lock(before, ranges.last(), owner);
        assert forall|i: int| 0 <= i < after.len() implies before.contains(#[trigger] after[i]) by {
            match first_lock(before, ranges.last(), owner) {
                Some(k) => {
                    if i == k {
                        assert(after[i] == before[before.len() - 1]);
                    } else {
                        assert(after[i] == before[i]);
                    }
                },
                None => {
                    assert(after[i] == before[i]);
                },
            }
        }
        lemma_fewer_kept_apart(before, after);
    }
}

/// No lock of a session outlives the session.
pub proof fn law_session_leaves_nothing(held: Seq<HeldLock>, session_id: u64, i: int)
    requires
        0 <= i < held.filter(lock_elsewhere(session_id)).len(),
    ensures
        held.filter(lock_elsewhere(session_id))[i].owner.0 != session_id,
{
    held.lemma_filter_pred(lock_elsewhere(session_id), i);
}

/// The lock that a release takes is the first that the owner holds on exactly the range.
pub proof fn lemma_first_lock_is_first(held: Seq<HeldLock>, range: (u64, u64), owner: LockOwner)
    ensures
        match first_lock(held, range, owner) {
            Some(i) => {
                &&& 0 <= i < held.len()
                &&& held[i].owner == owner && held[i].offset == range.0 && held[i].length == range.1
                &&& forall|k: int|
                    0 <= k < i ==> !((#[trigger] held[k]).owner == owner && held[k].offset == range.0 && held[k].length
                        == range.1)
            },
            None => forall|k: int|
                0 <= k < held.len() ==> !((#[trigger] held[k]).owner == owner && held[k].offset == range.0
                    && held[k].length == range.1),
        },
    decreases held.len(),
{
    if held.len() > 0 {
        let d = held.drop_last();
        lemma_first_lock_is_first(d, range, owner);
        assert forall|k: int| 0 <= k < d.len() implies d[k] == #[trigger] held[k] by {}
    }
}

/// Taking an element out of a list and putting the last in its place loses that element
/// and no other.
pub proof fn lemma_swap_removed(s: Seq<HeldLock>, i: int)
    requires
        0 <= i < s.len(),
    ensures
        swap_removed(s, i).len() == s.len() - 1,
        swap_removed(s, i).to_multiset() == s.to_multiset().remove(s[i]),
{
    broadcast use vstd::seq_lib::group_to_multiset_ensures;

    let u = s.update(i, s.last());
    vstd::seq_lib::to_multiset_update(s, i, s.last());
    assert(u.drop_last() =~= u.remove(u.len() - 1));
    vstd::seq_lib::to_multiset_remove(u, u.len() - 1);
    assert(u[u.len() - 1] == s.last());
    assert(swap_removed(s, i).to_multiset() =~= s.to_multiset().remove(s[i])) by {
        assert(s.contains(s[i]));
        assert(s.to_multiset().count(s[i]) > 0);
    }
}

/// A lock that is granted is held: each range that was asked for stands in the table, of
/// its kind and for its owner, and everything that was held before is held still.
pub proof fn law_granted_locks_are_held(held: Seq<HeldLock>, ranges: Seq<(u64, u64, bool)>, owner: LockOwner, j: int)
    requires
        0 <= j < ranges.len(),
    ensures
        (held + new_locks(ranges, owner)).contains(
            HeldLock { offset: ranges[j].0, length: ranges[j].1, exclusive: ranges[j].2, owner },
        ),
        forall|k: int| 0 <= k < held.len() ==> (held + new_locks(ranges, owner))[k] == held[k],
        (held + new_locks(ranges, owner)).len() == held.len() + ranges.len(),
{
    let all = held + new_locks(ranges, owner);
    assert(all[held.len() + j] == (HeldLock {
        offset: ranges[j].0,
        length: ranges[j].1,
        exclusive: ranges[j].2,
        owner,
    }));
}

/// Two locks on ranges of at least one byte clash exactly where one of the two is
/// exclusive and a byte below the highest offset lies in both ranges.
pub proof fn law_clash_is_a_common_byte(h: HeldLock, off: u64, len: u64, excl: bool)
    requires
        len > 0,
        h.length > 0,
    ensures
        lock_clash(h, off, len, excl) <==> (excl || h.exclusive) && exists|b: u64|
            b < u64::MAX && off <= b < off + len && #[trigger] byte_in(h, b),
{
    if lock_clash(h, off, len, excl) {
        let b = if off >= h.offset {
            off
        } else {
            h.offset
        };
        assert(byte_in(h, b));
    }
}

/// Whether a byte lies in the range of a lock.
pub open spec fn byte_in(h: HeldLock, b: u64) -> bool {
    h.offset <= b < h.offset + h.length
}

/// A write is kept from bytes that another open has locked exclusively and from bytes
/// under any shared lock, and from no others: its own exclusive lock lets it through.
pub proof fn law_write_is_kept_from_locked_bytes(held: Seq<HeldLock>, off: u64, len: u64, owner: LockOwner)
    requires
        len > 0,
        forall|i: int| 0 <= i < held.len() ==> (#[trigger] held[i]).length > 0,
    ensures
        blocks_write(held, off, len, owner) <==> exists|i: int, b: u64|
            0 <= i < held.len() && b < u64::MAX && off <= b < off + len && #[trigger] byte_in(held[i], b) && !(
            held[i].exclusive && held[i].owner == owner),
        blocks_read(held, off, len, owner) <==> exists|i: int, b: u64|
            0 <= i < held.len() && b < u64::MAX && off <= b < off + len && #[trigger] byte_in(held[i], b)
                && held[i].exclusive && held[i].owner != owner,
{
    if blocks_write(held, off, len, owner) {
        let i = choose|i: int|
            0 <= i < held.len() && ranges_overlap(off, len, (#[trigger] held[i]).offset, held[i].length) && (
            !held[i].exclusive || held[i].owner != owner);
        law_clash_is_a_common_byte(held[i], off, len, true);
        let b = choose|b: u64| b < u64::MAX && off <= b < off + len && #[trigger] byte_in(held[i], b);
        assert(byte_in(held[i], b));
    }
    if blocks_read(held, off, len, owner) {
        let i = choose|i: int|
            0 <= i < held.len() && ranges_overlap(off, len, (#[trigger] held[i]).offset, held[i].length)
                && held[i].exclusive && held[i].owner != owner;
        law_clash_is_a_common_byte(held[i], off, len, true);
        let b = choose|b: u64| b < u64::MAX && off <= b < off + len && #[trigger] byte_in(held[i], b);
        assert(byte_in(held[i], b));
    }
    assert forall|i: int, b: u64|
        0 <= i < held.len() && b < u64::MAX && off <= b < off + len && #[trigger] byte_in(held[i], b) implies ranges_overlap(
        off,
        len,
        held[i].offset,
        held[i].length,
    ) by {
        assert(held[i].length > 0);
        law_clash_is_a_common_byte(held[i], off, len, true);
    }
}

} // verus!
