//! Share modes of open files, for the detection of sharing violations.
use vstd::prelude::*;
use crate::locks::{same_owner, LockOwner};
use crate::tables::{first_where, list_at, position_where, retain_lists, swap_removed, TextMap};

verus! {

pub const ACCESS_READ_DATA: u32 = 0x0000_0001;

pub const ACCESS_WRITE_DATA: u32 = 0x0000_0002;

pub const ACCESS_APPEND_DATA: u32 = 0x0000_0004;

pub const ACCESS_EXECUTE: u32 = 0x0000_0020;

pub const ACCESS_DELETE: u32 = 0x0001_0000;

pub const ACCESS_GENERIC_ALL: u32 = 0x1000_0000;

pub const ACCESS_GENERIC_WRITE: u32 = 0x4000_0000;

pub const ACCESS_GENERIC_READ: u32 = 0x8000_0000;

pub const SHARE_READ: u32 = 0x0000_0001;

pub const SHARE_WRITE: u32 = 0x0000_0002;

pub const SHARE_DELETE: u32 = 0x0000_0004;

/// One open of a file: its access and the sharing it permits.
#[derive(Clone, Copy)]
pub struct OpenMode {
    pub access: u32,
    pub share: u32,
    pub owner: LockOwner,
}

/// Whether an access mask reads.
pub open spec fn reads(access: u32) -> bool {
    access & (ACCESS_READ_DATA | ACCESS_EXECUTE | ACCESS_GENERIC_READ | ACCESS_GENERIC_ALL) != 0
}

/// Whether an access mask writes.
pub open spec fn writes(access: u32) -> bool {
    access & (ACCESS_WRITE_DATA | ACCESS_APPEND_DATA | ACCESS_GENERIC_WRITE | ACCESS_GENERIC_ALL) != 0
}

/// Whether an access mask deletes.
pub open spec fn deletes(access: u32) -> bool {
    access & (ACCESS_DELETE | ACCESS_GENERIC_ALL) != 0
}

/// Whether share flags permit an access.
pub open spec fn permits(share: u32, access: u32) -> bool {
    &&& reads(access) ==> share & SHARE_READ != 0
    &&& writes(access) ==> share & SHARE_WRITE != 0
    &&& deletes(access) ==> share & SHARE_DELETE != 0
}

/// Whether two opens can stand side by side: each permits the other's access.
pub open spec fn modes_compatible(access1: u32, share1: u32, access2: u32, share2: u32) -> bool {
    permits(share1, access2) && permits(share2, access1)
}

/// Whether a new open is compatible with all opens of a list.
pub open spec fn compatible_with_all(list: Seq<OpenMode>, access: u32, share: u32) -> bool {
    forall|i: int|
        0 <= i < list.len() ==> modes_compatible((#[trigger] list[i]).access, list[i].share, access, share)
}

/// A list after the first open of `owner` left it.
pub open spec fn closed_in(list: Seq<OpenMode>, owner: LockOwner) -> Seq<OpenMode> {
    match first_where(list, |e: OpenMode| e.owner == owner) {
        Some(i) => swap_removed(list, i),
        None => list,
    }
}

fn wants_read(access: u32) -> (r: bool)
    ensures
        r == reads(access),
{
    access & (ACCESS_READ_DATA | ACCESS_EXECUTE | ACCESS_GENERIC_READ | ACCESS_GENERIC_ALL) != 0
}

fn wants_write(access: u32) -> (r: bool)
    ensures
        r == writes(access),
{
    access & (ACCESS_WRITE_DATA | ACCESS_APPEND_DATA | ACCESS_GENERIC_WRITE | ACCESS_GENERIC_ALL) != 0
}

fn wants_delete(access: u32) -> (r: bool)
    ensures
        r == deletes(access),
{
    access & (ACCESS_DELETE | ACCESS_GENERIC_ALL) != 0
}

/// Whether a new open is compatible with an existing one.
fn compatible(existing: &OpenMode, access: u32, share: u32) -> (r: bool)
    ensures
        r == modes_compatible(existing.access, existing.share, access, share),
{
    (!wants_read(access) || existing.share & SHARE_READ != 0) && (!wants_read(existing.access) || share & SHARE_READ
        != 0) && (!wants_write(access) || existing.share & SHARE_WRITE != 0) && (!wants_write(existing.access) || share
        & SHARE_WRITE != 0) && (!wants_delete(access) || existing.share & SHARE_DELETE != 0) && (!wants_delete(
        existing.access,
    ) || share & SHARE_DELETE != 0)
}

/// The opens of other sessions.
pub open spec fn mode_elsewhere(session_id: u64) -> spec_fn(OpenMode) -> bool {
    |e: OpenMode| e.owner.0 != session_id
}

/// The open share modes of all files.
pub struct ShareModeTable {
    opens: TextMap<Vec<OpenMode>>,
}

impl ShareModeTable {
    /// The table's lists have distinct paths.
    pub closed spec fn wf(&self) -> bool {
        self.opens.wf()
    }

    /// The opens recorded for `path`, in table order.
    pub closed spec fn opens_of(&self, path: Seq<char>) -> Seq<OpenMode> {
        list_at(self.opens@, path)
    }

    /// No opens.
    pub fn new() -> (t: Self)
        ensures
            t.wf(),
            forall|p: Seq<char>| #[trigger] t.opens_of(p) == Seq::<OpenMode>::empty(),
    {
        ShareModeTable { opens: TextMap::new() }
    }

    /// Records a new open if it is compatible with every open of the file; on a
    /// sharing violation records nothing.
    pub fn try_open(&mut self, path: &str, access: u32, share: u32, owner: LockOwner) -> (ok: bool)
        requires
            old(self).wf(),
        ensures
            final(self).wf(),
            ok == compatible_with_all(old(self).opens_of(path@), access, share),
            final(self).opens_of(path@) == if ok {
                old(self).opens_of(path@).push(OpenMode { access, share, owner })
            } else {
                old(self).opens_of(path@)
            },
            forall|p: Seq<char>| p != path@ ==> #[trigger] final(self).opens_of(p) == old(self).opens_of(p),
    {
        let mut list: Vec<OpenMode> = Vec::new();
        match self.opens.get(path) {
            Some(l) => {
                let mut i: usize = 0;
                while i < l.len()
                    invariant
                        i <= l@.len(),
                        l@ == old(self).opens_of(path@),
                        *self == *old(self),
                        self.wf(),
                        list@ == l@.take(i as int),
                        forall|k: int|
                            0 <= k < i ==> modes_compatible((#[trigger] l@[k]).access, l@[k].share, access, share),
                    decreases l@.len() - i,
                {
                    if !compatible(&l[i], access, share) {
                        return false;
                    }
                    list.push(l[i]);
                    i += 1;
                    assert(list@ =~= l@.take(i as int));
                }
                assert(list@ =~= l@);
            },
            None => {},
        }
        assert(list@ =~= old(self).opens_of(path@));
        list.push(OpenMode { access, share, owner });
        self.opens.insert(path.to_owned(), list);
        true
    }

    /// Drops the open recorded for `owner` on `path`.
    pub fn close(&mut self, path: &str, owner: LockOwner)
        requires
            old(self).wf(),
        ensures
            final(self).wf(),
            final(self).opens_of(path@) == closed_in(old(self).opens_of(path@), owner),
            forall|p: Seq<char>| p != path@ ==> #[trigger] final(self).opens_of(p) == old(self).opens_of(p),
    {
        let test = |e: &OpenMode| -> (b: bool)
            ensures
                b == (e.owner == owner),
            { same_owner(&e.owner, &owner) };
        let ghost pred = |e: OpenMode| e.owner == owner;
        match self.opens.remove(path) {
            Some(mut list) => {
                match position_where(&list, &test, Ghost(pred)) {
                    Some(pos) => {
                        let _gone = list.swap_remove(pos);
                    },
                    None => {},
                }
                if list.len() > 0 {
                    self.opens.insert(path.to_owned(), list);
                } else {
                    assert(list@ =~= Seq::<OpenMode>::empty());
                }
            },
            None => {},
        }
    }

    /// Drops every open of a session.
    pub fn close_session(&mut self, session_id: u64)
        requires
            old(self).wf(),
        ensures
            final(self).wf(),
            forall|p: Seq<char>| #[trigger]
                final(self).opens_of(p) == old(self).opens_of(p).filter(mode_elsewhere(session_id)),
    {
        let keep = |e: &OpenMode| -> (b: bool)
            ensures
                b == (e.owner.0 != session_id),
            { e.owner.0 != session_id };
        let ghost pred = mode_elsewhere(session_id);
        retain_lists(&mut self.opens, &keep, Ghost(pred));
        assert forall|p: Seq<char>| #[trigger] self.opens_of(p) == old(self).opens_of(p).filter(pred) by {
            assert(list_at(self.opens@, p) == list_at(old(self).opens@, p).filter(pred));
        }
    }

    /// How many opens are recorded for `path`.
    pub fn open_count(&self, path: &str) -> (n: usize)
        requires
            self.wf(),
        ensures
            n == self.opens_of(path@).len(),
    {
        match self.opens.get(path) {
            Some(l) => l.len(),
            None => 0,
        }
    }
}

/// Whether two opens are compatible does not depend on which came first.
pub proof fn law_compatibility_symmetric(access1: u32, share1: u32, access2: u32, share2: u32)
    ensures
        modes_compatible(access1, share1, access2, share2) == modes_compatible(access2, share2, access1, share1),
{
}

/// An open that was recorded last, under an owner of its own, leaves the file
/// as it was once it is closed.
pub proof fn law_close_undoes_open(list: Seq<OpenMode>, access: u32, share: u32, owner: LockOwner)
    requires
        forall|i: int| 0 <= i < list.len() ==> (#[trigger] list[i]).owner != owner,
    ensures
        closed_in(list.push(OpenMode { access, share, owner }), owner) == list,
{
    let m = OpenMode { access, share, owner };
    let l = list.push(m);
    let p = |e: OpenMode| e.owner == owner;
    assert forall|k: int| 0 <= k < list.len() implies !p(#[trigger] l[k]) by {
        assert(l[k] == list[k]);
    }
    crate::tables::lemma_is_first(l, p, list.len() as int);
    assert(swap_removed(l, list.len() as int) =~= list);
}

/// Whether any two opens of a list can stand side by side.
pub open spec fn all_compatible(list: Seq<OpenMode>) -> bool {
    forall|i: int, j: int| #![trigger list[i], list[j]]
        0 <= i < list.len() && 0 <= j < list.len() && i != j ==> modes_compatible(
            list[i].access,
            list[i].share,
            list[j].access,
            list[j].share,
        )
}

/// An open that is let in leaves every two opens of the file compatible.
pub proof fn law_opens_stay_compatible(list: Seq<OpenMode>, access: u32, share: u32, owner: LockOwner)
    requires
        all_compatible(list),
        compatible_with_all(list, access, share),
    ensures
        all_compatible(list.push(OpenMode { access, share, owner })),
{
    let m = OpenMode { access, share, owner };
    let l = list.push(m);
    assert forall|i: int, j: int| #![trigger l[i], l[j]]
        0 <= i < l.len() && 0 <= j < l.len() && i != j implies modes_compatible(
        l[i].access,
        l[i].share,
        l[j].access,
        l[j].share,
    ) by {
        if i < list.len() && j < list.len() {
            assert(l[i] == list[i] && l[j] == list[j]);
        } else if i < list.len() {
            assert(l[i] == list[i] && l[j] == m);
        } else {
            assert(l[j] == list[j] && l[i] == m);
        }
    }
}

/// Closing an open, or ending a session, leaves the others compatible.
pub proof fn law_closes_stay_compatible(list: Seq<OpenMode>, owner: LockOwner, session_id: u64)
    requires
        all_compatible(list),
    ensures
        all_compatible(closed_in(list, owner)),
        all_compatible(list.filter(mode_elsewhere(session_id))),
{
    let p = |e: OpenMode| e.owner == owner;
    crate::tables::lemma_first_where(list, p);
    let c = closed_in(list, owner);
    assert forall|i: int, j: int| #![trigger c[i], c[j]]
        0 <= i < c.len() && 0 <= j < c.len() && i != j implies modes_compatible(
        c[i].access,
        c[i].share,
        c[j].access,
        c[j].share,
    ) by {
        match first_where(list, p) {
            Some(k) => {
                let a = if i == k {
                    list.len() - 1
                } else {
                    i
                };
                let b = if j == k {
                    list.len() - 1
                } else {
                    j
                };
                assert(c[i] == list[a] && c[j] == list[b] && a != b);
            },
            None => {
                assert(c[i] == list[i] && c[j] == list[j]);
            },
        }
    }
    lemma_filter_stays_compatible(list, mode_elsewhere(session_id));
}

proof fn lemma_filter_stays_compatible(list: Seq<OpenMode>, p: spec_fn(OpenMode) -> bool)
    requires
        all_compatible(list),
    ensures
        all_compatible(list.filter(p)),
    decreases list.len(),
{
    reveal(Seq::filter);
    if list.len() > 0 {
        let short = list.drop_last();
        assert forall|i: int, j: int| #![trigger short[i], short[j]]
            0 <= i < short.len() && 0 <= j < short.len() && i != j implies modes_compatible(
            short[i].access,
            short[i].share,
            short[j].access,
            short[j].share,
        ) by {
            assert(short[i] == list[i] && short[j] == list[j]);
        }
        lemma_filter_stays_compatible(short, p);
        let f = short.filter(p);
        let m = list.last();
        if p(m) {
            assert forall|i: int| 0 <= i < f.len() implies modes_compatible(
                (#[trigger] f[i]).access,
                f[i].share,
                m.access,
                m.share,
            ) by {
                assert(f.contains(f[i]));
                short.lemma_filter_contains_rev(p, f[i]);
                let k = choose|k: int| 0 <= k < short.len() && short[k] == f[i];
                assert(list[k] == f[i] && list[list.len() - 1] == m);
            }
            law_opens_stay_compatible(f, m.access, m.share, m.owner);
            assert(f.push(m) =~= f.push(OpenMode { access: m.access, share: m.share, owner: m.owner }));
        }
    }
}

/// How many opens of a list are a session's.
pub open spec fn opens_of_session(list: Seq<OpenMode>, session_id: u64) -> int
    decreases list.len(),
{
    if list.len() == 0 {
        0
    } else {
        opens_of_session(list.drop_last(), session_id) + if list.last().owner.0 == session_id {
            1int
        } else {
            0
        }
    }
}

/// Ending a session leaves none of its opens and drops nobody else's; ending it again
/// changes nothing.
pub proof fn law_session_ends_once(list: Seq<OpenMode>, session_id: u64)
    ensures
        ({
            let left = list.filter(mode_elsewhere(session_id));
            &&& forall|i: int| 0 <= i < left.len() ==> (#[trigger] left[i]).owner.0 != session_id
            &&& forall|i: int|
                0 <= i < list.len() && (#[trigger] list[i]).owner.0 != session_id ==> left.contains(list[i])
            &&& left.len() == list.len() - opens_of_session(list, session_id)
            &&& left.filter(mode_elsewhere(session_id)) == left
        }),
    decreases list.len(),
{
    reveal(Seq::filter);
    let p = mode_elsewhere(session_id);
    let left = list.filter(p);
    if list.len() > 0 {
        let short = list.drop_last();
        law_session_ends_once(short, session_id);
        let f = short.filter(p);
        if p(list.last()) {
            assert(left == f.push(list.last()));
            assert(left.drop_last() =~= f);
        }
        assert forall|i: int| 0 <= i < list.len() && (#[trigger] list[i]).owner.0 != session_id implies left.contains(
            list[i],
        ) by {
            if i < list.len() - 1 {
                assert(short[i] == list[i]);
                let k = choose|k: int| 0 <= k < f.len() && f[k] == list[i];
                assert(left[k] == list[i]);
            } else {
                assert(left[left.len() - 1] == list[i]);
            }
        }
    }
}

/// While an open that permits no sharing is recorded, no other open that reads
/// is let in.
pub proof fn law_exclusive_open(list: Seq<OpenMode>, i: int, access: u32, share: u32)
    requires
        0 <= i < list.len(),
        list[i].share == 0,
        reads(access),
    ensures
        !compatible_with_all(list, access, share),
{
    assert(0u32 & SHARE_READ == 0) by (bit_vector);
    assert(!modes_compatible(list[i].access, list[i].share, access, share));
}

/// Two opens stand side by side exactly where each shares (bits 0, 1 and 2) what the other
/// does: reads, writes or appends, deletes, or everything under a generic right.
pub proof fn law_each_shares_what_the_other_does(access1: u32, share1: u32, access2: u32, share2: u32)
    ensures
        modes_compatible(access1, share1, access2, share2) <==> {
            &&& access2 & 0x9000_0021 != 0 ==> share1 & 1 != 0
            &&& access2 & 0x5000_0006 != 0 ==> share1 & 2 != 0
            &&& access2 & 0x1001_0000 != 0 ==> share1 & 4 != 0
            &&& access1 & 0x9000_0021 != 0 ==> share2 & 1 != 0
            &&& access1 & 0x5000_0006 != 0 ==> share2 & 2 != 0
            &&& access1 & 0x1001_0000 != 0 ==> share2 & 4 != 0
        },
{
    assert(1u32 | 0x20u32 | 0x8000_0000u32 | 0x1000_0000u32 == 0x9000_0021u32 && 2u32 | 4u32 | 0x4000_0000u32
        | 0x1000_0000u32 == 0x5000_0006u32 && 0x1_0000u32 | 0x1000_0000u32 == 0x1001_0000u32) by (bit_vector);
}

} // verus!
