//! Application-instance opens: a later open with the same instance id from
//! another client takes over from the earlier one.
use vstd::prelude::*;
use crate::locks::{same_id, same_owner, LockOwner};
use crate::tables::{first_where, position_where, retain};
use crate::text::same_text;

verus! {

/// A recorded application-instance open.
pub struct AppOpen {
    pub app_instance_id: [u8; 16],
    pub path: String,
    pub client_guid: [u8; 16],
    pub owner: LockOwner,
    pub version: Option<(u64, u64)>,
}

/// How an open with an instance id fares against the recorded ones.
pub enum AppInstanceMatch {
    /// No matching open; proceed normally.
    NoMatch,
    /// An earlier open was closed by force.
    ForceClose { path: String, owner: LockOwner },
    /// The earlier open is newer or equal; the new one must be rejected.
    Reject,
}

/// Whether `o` is an open of the same instance and path by another client.
pub open spec fn is_rival(o: AppOpen, id: [u8; 16], path: Seq<char>, client_guid: [u8; 16]) -> bool {
    o.app_instance_id == id && o.path@ == path && o.client_guid != client_guid
}

/// Whether an open of version `held` keeps out a request. A versioned open keeps
/// out every request without a version, and on a 3.1.1 connection every request
/// whose version is not higher.
pub open spec fn version_keeps_out(held: Option<(u64, u64)>, is_311: bool, req: Option<(u64, u64)>) -> bool {
    match held {
        None => false,
        Some((eh, el)) => match req {
            None => true,
            Some((rh, rl)) => is_311 && (eh > rh || (eh == rh && el >= rl)),
        },
    }
}

/// The recorded opens and the opens that were closed by force.
pub struct AppInstanceTable {
    opens: Vec<AppOpen>,
    forced: Vec<LockOwner>,
}

/// How a new open fares against the recorded ones: the first rival is closed by force unless
/// its version keeps the request out.
pub open spec fn rival_resolved(
    t0: AppInstanceTable,
    t1: AppInstanceTable,
    id: [u8; 16],
    path: Seq<char>,
    client_guid: [u8; 16],
    is_311: bool,
    req_version: Option<(u64, u64)>,
    r: AppInstanceMatch,
) -> bool {
    match first_where(t0.opens(), |o: AppOpen| is_rival(o, id, path, client_guid)) {
        None => r is NoMatch && t1.opens() == t0.opens() && t1.forced() == t0.forced(),
        Some(i) => if version_keeps_out(t0.opens()[i].version, is_311, req_version) {
            r is Reject && t1.opens() == t0.opens() && t1.forced() == t0.forced()
        } else {
            &&& t1.opens() == t0.opens().remove(i)
            &&& t1.forced() == t0.forced().insert(t0.opens()[i].owner)
            &&& r matches AppInstanceMatch::ForceClose { path: p, owner: w } && p@ == t0.opens()[i].path@ && w
                == t0.opens()[i].owner
        },
    }
}

impl AppInstanceTable {
    /// The recorded opens, oldest first.
    pub closed spec fn opens(&self) -> Seq<AppOpen> {
        self.opens@
    }

    /// The opens that were closed by force and have not been told yet.
    pub closed spec fn forced(&self) -> Set<LockOwner> {
        Set::new(|o: LockOwner| self.forced@.contains(o))
    }

    /// No opens.
    pub fn new() -> (t: Self)
        ensures
            t.opens() == Seq::<AppOpen>::empty(),
            t.forced() == Set::<LockOwner>::empty(),
    {
        let t = AppInstanceTable { opens: Vec::new(), forced: Vec::new() };
        assert(t.forced() =~= Set::<LockOwner>::empty());
        t
    }

    /// Holds a new open against the recorded ones. The first rival is closed by
    /// force unless its version keeps the request out.
    pub fn resolve(
        &mut self,
        id: [u8; 16],
        path: &str,
        client_guid: [u8; 16],
        is_311: bool,
        req_version: Option<(u64, u64)>,
    ) -> (r: AppInstanceMatch)
        ensures
            rival_resolved(*old(self), *final(self), id, path@, client_guid, is_311, req_version, r),
    {
        let test = |o: &AppOpen| -> (b: bool)
            ensures
                b == is_rival(*o, id, path@, client_guid),
            { same_id(&o.app_instance_id, &id) && same_text(o.path.as_str(), path) && !same_id(&o.client_guid, &client_guid)
            };
        let ghost pred = |o: AppOpen| is_rival(o, id, path@, client_guid);
        match position_where(&self.opens, &test, Ghost(pred)) {
            None => AppInstanceMatch::NoMatch,
            Some(pos) => {
                if let Some((eh, el)) = self.opens[pos].version {
                    match req_version {
                        Some((rh, rl)) => {
                            if is_311 && (eh > rh || (eh == rh && el >= rl)) {
                                return AppInstanceMatch::Reject;
                            }
                        },
                        None => {
                            return AppInstanceMatch::Reject;
                        },
                    }
                }
                let victim = self.opens.remove(pos);
                self.forced.push(victim.owner);
                proof {
                    let was = old(self).forced@;
                    let now = self.forced@;
                    assert forall|o: LockOwner| now.contains(o) == (was.contains(o) || o == victim.owner) by {
                        if was.contains(o) {
                            let k = choose|k: int| 0 <= k < was.len() && was[k] == o;
                            assert(now[k] == o);
                        }
                        assert(now[was.len() as int] == victim.owner);
                    }
                    assert(self.forced() =~= old(self).forced().insert(victim.owner));
                }
                AppInstanceMatch::ForceClose { path: victim.path, owner: victim.owner }
            },
        }
    }

    /// Records a new open.
    pub fn register(
        &mut self,
        id: [u8; 16],
        path: String,
        client_guid: [u8; 16],
        owner: LockOwner,
        version: Option<(u64, u64)>,
    )
        ensures
            final(self).opens() == old(self).opens().push(
                (AppOpen { app_instance_id: id, path, client_guid, owner, version }),
            ),
            final(self).forced() == old(self).forced(),
    {
        self.opens.push(AppOpen { app_instance_id: id, path, client_guid, owner, version });
    }

    /// Tells whether the open of `owner` was closed by force.
    pub fn was_forced(&self, owner: LockOwner) -> (r: bool)
        ensures
            r == self.forced().contains(owner),
    {
        let n: usize = self.forced.len();
        let mut i: usize = 0;
        while i < n
            invariant
                i <= n == self.forced@.len(),
                forall|k: int| 0 <= k < i ==> self.forced@[k] != owner,
            decreases n - i,
        {
            if same_owner(&self.forced[i], &owner) {
                assert(self.forced@[i as int] == owner);
                return true;
            }
            i += 1;
        }
        false
    }

    /// Tells, once, whether the open of `owner` was closed by force.
    pub fn take_forced(&mut self, owner: LockOwner) -> (r: bool)
        ensures
            r == old(self).forced().contains(owner),
            final(self).forced() == old(self).forced().remove(owner),
            final(self).opens() == old(self).opens(),
    {
        let n: usize = self.forced.len();
        self.drop_forced(owner);
        self.forced.len() < n
    }

    fn drop_forced(&mut self, owner: LockOwner)
        ensures
            final(self).forced() == old(self).forced().remove(owner),
            final(self).opens() == old(self).opens(),
            final(self).forced@.len() <= old(self).forced@.len(),
            final(self).forced@.len() < old(self).forced@.len() <==> old(self).forced().contains(owner),
    {
        let keep = |o: &LockOwner| -> (b: bool)
            ensures
                b == (*o != owner),
            { !same_owner(o, &owner) };
        let ghost pred = |o: LockOwner| o != owner;
        let ghost was = self.forced@;
        retain(&mut self.forced, &keep, Ghost(pred));
        proof {
            lemma_filtered(was, pred);
            lemma_filter_shrinks(was, pred);
            assert(self.forced() =~= old(self).forced().remove(owner));
            if was.contains(owner) {
                let k = choose|k: int| 0 <= k < was.len() && was[k] == owner;
                assert(!pred(was[k]));
            }
        }
    }

    /// Drops the entry of a closed open.
    pub fn close(&mut self, owner: LockOwner)
        ensures
            final(self).opens() == old(self).opens().filter(|o: AppOpen| o.owner != owner),
            final(self).forced() == old(self).forced().remove(owner),
    {
        let keep = |o: &AppOpen| -> (b: bool)
            ensures
                b == (o.owner != owner),
            { !same_owner(&o.owner, &owner) };
        retain(&mut self.opens, &keep, Ghost(|o: AppOpen| o.owner != owner));
        self.drop_forced(owner);
    }

    /// Drops every entry of a session.
    pub fn close_session(&mut self, session_id: u64)
        ensures
            final(self).opens() == old(self).opens().filter(|o: AppOpen| o.owner.0 != session_id),
            final(self).forced() == old(self).forced().filter(|o: LockOwner| o.0 != session_id),
    {
        let keep = |o: &AppOpen| -> (b: bool)
            ensures
                b == (o.owner.0 != session_id),
            { o.owner.0 != session_id };
        retain(&mut self.opens, &keep, Ghost(|o: AppOpen| o.owner.0 != session_id));
        let keep2 = |o: &LockOwner| -> (b: bool)
            ensures
                b == (o.0 != session_id),
            { o.0 != session_id };
        let ghost pred = |o: LockOwner| o.0 != session_id;
        let ghost was = self.forced@;
        retain(&mut self.forced, &keep2, Ghost(pred));
        proof {
            lemma_filtered(was, pred);
            assert(self.forced() =~= old(self).forced().filter(pred));
        }
    }
}

proof fn lemma_filtered<T>(s: Seq<T>, p: spec_fn(T) -> bool)
    ensures
        forall|x: T| #[trigger] s.filter(p).contains(x) <==> s.contains(x) && p(x),
    decreases s.len(),
{
    reveal(Seq::filter);
    if s.len() > 0 {
        lemma_filtered(s.drop_last(), p);
        let f = s.drop_last().filter(p);
        assert forall|x: T| #[trigger] s.filter(p).contains(x) <==> s.contains(x) && p(x) by {
            if s.contains(x) {
                let k = choose|k: int| 0 <= k < s.len() && s[k] == x;
                if k < s.len() - 1 {
                    assert(s.drop_last()[k] == x);
                    assert(s.drop_last().contains(x));
                }
            }
            if s.drop_last().contains(x) {
                let k = choose|k: int| 0 <= k < s.drop_last().len() && s.drop_last()[k] == x;
                assert(s[k] == x);
            }
            if p(s.last()) {
                assert(s.filter(p) == f.push(s.last()));
                assert(f.push(s.last())[f.len() as int] == s.last());
                if f.contains(x) {
                    let k = choose|k: int| 0 <= k < f.len() && f[k] == x;
                    assert(f.push(s.last())[k] == x);
                }
            }
            assert(s[s.len() - 1] == s.last());
        }
    }
}

proof fn lemma_filter_shrinks<T>(s: Seq<T>, p: spec_fn(T) -> bool)
    ensures
        s.filter(p).len() <= s.len(),
        s.filter(p).len() < s.len() <==> exists|k: int| 0 <= k < s.len() && !p(#[trigger] s[k]),
    decreases s.len(),
{
    reveal(Seq::filter);
    if s.len() > 0 {
        lemma_filter_shrinks(s.drop_last(), p);
        assert forall|k: int| 0 <= k < s.len() - 1 implies s.drop_last()[k] == s[k] by {}
        if exists|k: int| 0 <= k < s.drop_last().len() && !p(#[trigger] s.drop_last()[k]) {
            let k = choose|k: int| 0 <= k < s.drop_last().len() && !p(#[trigger] s.drop_last()[k]);
            assert(!p(s[k]));
        }
        if exists|k: int| 0 <= k < s.len() && !p(#[trigger] s[k]) {
            let k = choose|k: int| 0 <= k < s.len() && !p(#[trigger] s[k]);
            if k < s.len() - 1 {
                assert(!p(s.drop_last()[k]));
            }
        }
        assert(s[s.len() - 1] == s.last());
    }
}

/// A client's own earlier open is never closed by force.
pub proof fn law_no_takeover_from_self(o: AppOpen, id: [u8; 16], path: Seq<char>)
    ensures
        !is_rival(o, id, path, o.client_guid),
{
}

/// On a 3.1.1 connection, of two opens with versions exactly one gives way: the
/// request is kept out or, with the roles exchanged and the versions different,
/// the other is.
pub proof fn law_versions_are_ordered(a: (u64, u64), b: (u64, u64))
    requires
        a != b,
    ensures
        version_keeps_out(Some(a), true, Some(b)) != version_keeps_out(Some(b), true, Some(a)),
{
}

/// An open of an instance takes over from the open that another client has of it on the
/// same path, unless a version keeps it out: that open is closed by force and told so.
/// Without such an open nothing changes, and a refused open changes nothing.
pub proof fn law_later_open_takes_over(
    t0: AppInstanceTable,
    t1: AppInstanceTable,
    id: [u8; 16],
    path: Seq<char>,
    client_guid: [u8; 16],
    is_311: bool,
    req_version: Option<(u64, u64)>,
    r: AppInstanceMatch,
    k: int,
)
    requires
        rival_resolved(t0, t1, id, path, client_guid, is_311, req_version, r),
        0 <= k < t0.opens().len(),
    ensures
        ({
            let o = t0.opens()[k];
            let rival = o.app_instance_id == id && o.path@ == path && o.client_guid != client_guid;
            &&& rival ==> !(r is NoMatch)
            &&& rival && o.version is None && req_version is None && (forall|j: int|
                0 <= j < t0.opens().len() ==> (#[trigger] t0.opens()[j]).version is None) ==> r is ForceClose
            &&& r matches AppInstanceMatch::ForceClose { path: p, owner } ==> p@ == path && t1.forced().contains(owner)
                && t1.opens().len() == t0.opens().len() - 1
            &&& r is NoMatch || r is Reject ==> t1.opens() == t0.opens() && t1.forced() == t0.forced()
        }),
{
    crate::tables::lemma_first_where(t0.opens(), |o: AppOpen| is_rival(o, id, path, client_guid));
}

} // verus!
