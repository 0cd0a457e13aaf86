//! Server and connection state: shares, sessions, tree connects, open handles,
//! searches, id allocation and path resolution.
use vstd::prelude::*;
use std::collections::HashMap;
use crate::tables::{first_where, lemma_first_where, lemma_is_first, TextMap};
use crate::text::{chars_of, concat, is_slash, lemma_pieces, lowercase, pieces, push_char, same_text, split_slashes, text_has, texts, to_lowercase};

verus! {

broadcast use vstd::std_specs::hash::group_hash_axioms;

// ---------------- ids ----------------

/// Counters from which ids are handed out.
pub struct Ids {
    pub uid: u16,
    pub tid: u16,
    pub fid: u16,
    pub sid: u16,
}

/// The first id at or after `c` that is neither zero nor all ones.
pub open spec fn next_unreserved(c: u16) -> u16 {
    if c == 0 || c == 0xFFFF {
        1
    } else {
        c
    }
}

/// The first id at or after `c` that is not all ones.
pub open spec fn next_not_all_ones(c: u16) -> u16 {
    if c == 0xFFFF {
        0
    } else {
        c
    }
}

impl Ids {
    /// The counters of a server that starts.
    pub fn new() -> (i: Self)
        ensures
            i.uid == 0x0400,
            i.tid == 0x1000,
            i.fid == 0x2000,
            i.sid == 1,
    {
        Ids { uid: 0x0400, tid: 0x1000, fid: 0x2000, sid: 1 }
    }
}

/// Hands out a user id.
pub fn next_uid(ids: &mut Ids) -> (v: u16)
    ensures
        v == next_unreserved(old(ids).uid),
        *final(ids) == (Ids { uid: v.wrapping_add(1), ..*old(ids) }),
{
    let v: u16 = if ids.uid == 0 || ids.uid == 0xFFFF {
        1
    } else {
        ids.uid
    };
    ids.uid = v.wrapping_add(1);
    v
}

/// Hands out a tree id.
pub fn next_tid(ids: &mut Ids) -> (v: u16)
    ensures
        v == next_unreserved(old(ids).tid),
        *final(ids) == (Ids { tid: v.wrapping_add(1), ..*old(ids) }),
{
    let v: u16 = if ids.tid == 0 || ids.tid == 0xFFFF {
        1
    } else {
        ids.tid
    };
    ids.tid = v.wrapping_add(1);
    v
}

/// Hands out a file id.
pub fn next_fid(ids: &mut Ids) -> (v: u16)
    ensures
        v == next_not_all_ones(old(ids).fid),
        *final(ids) == (Ids { fid: v.wrapping_add(1), ..*old(ids) }),
{
    let v: u16 = if ids.fid == 0xFFFF {
        0
    } else {
        ids.fid
    };
    ids.fid = v.wrapping_add(1);
    v
}

/// Hands out a search id.
pub fn next_sid(ids: &mut Ids) -> (v: u16)
    ensures
        v == old(ids).sid,
        *final(ids) == (Ids { sid: v.wrapping_add(1), ..*old(ids) }),
{
    let v: u16 = ids.sid;
    ids.sid = v.wrapping_add(1);
    v
}

/// The user or tree id that is handed out `k` calls after the one at counter `c`.
pub open spec fn unreserved_after(c: u16, k: nat) -> u16
    decreases k,
{
    if k == 0 {
        next_unreserved(c)
    } else {
        next_unreserved(unreserved_after(c, (k - 1) as nat).wrapping_add(1))
    }
}

/// The file id that is handed out `k` calls after the one at counter `c`.
pub open spec fn not_all_ones_after(c: u16, k: nat) -> u16
    decreases k,
{
    if k == 0 {
        next_not_all_ones(c)
    } else {
        next_not_all_ones(not_all_ones_after(c, (k - 1) as nat).wrapping_add(1))
    }
}

proof fn lemma_unreserved_after(c: u16, k: nat)
    ensures
        unreserved_after(c, k) == (next_unreserved(c) - 1 + k) % 65534 + 1,
    decreases k,
{
    if k > 0 {
        lemma_unreserved_after(c, (k - 1) as nat);
    }
}

proof fn lemma_not_all_ones_after(c: u16, k: nat)
    ensures
        not_all_ones_after(c, k) == (next_not_all_ones(c) + k) % 65535,
    decreases k,
{
    if k > 0 {
        lemma_not_all_ones_after(c, (k - 1) as nat);
    }
}

/// User and tree ids are never zero nor all ones, file ids never all ones, and ids that
/// are handed out fewer than 65534 calls apart differ.
pub proof fn law_ids(c: u16, j: nat, k: nat)
    requires
        j < k < j + 65534,
    ensures
        unreserved_after(c, k) != 0,
        unreserved_after(c, k) != 0xFFFF,
        not_all_ones_after(c, k) != 0xFFFF,
        unreserved_after(c, j) != unreserved_after(c, k),
        not_all_ones_after(c, j) != not_all_ones_after(c, k),
{
    lemma_unreserved_after(c, j);
    lemma_unreserved_after(c, k);
    lemma_not_all_ones_after(c, j);
    lemma_not_all_ones_after(c, k);
}

// ---------------- shares ----------------

/// A share: a name and the directory behind it.
pub struct Share {
    pub name: String,
    pub root: String,
    pub is_ipc: bool,
}

/// What a share holds.
pub struct ShareView {
    pub name: Seq<char>,
    pub root: Seq<char>,
    pub is_ipc: bool,
}

impl View for Share {
    type V = ShareView;

    open spec fn view(&self) -> ShareView {
        ShareView { name: self.name@, root: self.root@, is_ipc: self.is_ipc }
    }
}

/// Whether the table `m` holds the shares `s` under their keys.
pub open spec fn holds_shares(m: Map<Seq<char>, Share>, s: Map<Seq<char>, ShareView>) -> bool {
    &&& forall|k: Seq<char>| #[trigger] m.contains_key(k) <==> s.contains_key(k)
    &&& forall|k: Seq<char>| #[trigger] m.contains_key(k) ==> m[k]@ == s[k]
}

/// The shares that the first `n` specifications publish, by lower-case name;
/// a later one replaces an earlier one of the same name.
pub open spec fn published(specs: Seq<(String, String)>, n: int) -> Map<Seq<char>, ShareView>
    decreases n,
{
    if n <= 0 {
        Map::empty()
    } else {
        let (name, root) = (specs[n - 1].0@, specs[n - 1].1@);
        published(specs, n - 1).insert(
            lowercase(name),
            ShareView { name, root, is_ipc: lowercase(name) == "ipc$"@ },
        )
    }
}

/// The shares with the pipe share that every server has.
pub open spec fn with_ipc(m: Map<Seq<char>, ShareView>) -> Map<Seq<char>, ShareView> {
    if m.contains_key("ipc$"@) {
        m
    } else {
        m.insert("ipc$"@, ShareView { name: "IPC$"@, root: "/"@, is_ipc: true })
    }
}

/// The share table of the given specifications (name, path).
pub fn build_shares(specs: &Vec<(String, String)>) -> (m: TextMap<Share>)
    ensures
        m.wf(),
        holds_shares(m@, with_ipc(published(specs@, specs@.len() as int))),
{
    let mut m: TextMap<Share> = TextMap::new();
    let mut i: usize = 0;
    while i < specs.len()
        invariant
            i <= specs@.len(),
            m.wf(),
            holds_shares(m@, published(specs@, i as int)),
        decreases specs@.len() - i,
    {
        let name = specs[i].0.clone();
        let root = specs[i].1.clone();
        let lname = to_lowercase(name.as_str());
        let is_ipc: bool = same_text(lname.as_str(), "ipc$");
        m.insert(lname, Share { name, root, is_ipc });
        i += 1;
    }
    if !m.contains("ipc$") {
        m.insert("ipc$".to_owned(), Share { name: "IPC$".to_owned(), root: "/".to_owned(), is_ipc: true });
    }
    m
}

// ---------------- connection state ----------------

/// An open file or directory. `has_file` says that the server keeps a file
/// object for it.
pub struct FileHandle {
    pub path: String,
    pub is_dir: bool,
    pub has_file: bool,
    pub pos: u64,
    pub access_read: bool,
    pub access_write: bool,
    pub delete_on_close: bool,
    pub delete_pending: bool,
}

/// A directory search that can be continued.
pub struct SearchCtx {
    /// Names still to be returned.
    pub queue: Vec<String>,
    pub info_level: u16,
    pub pattern: String,
    pub base_dir: String,
}

/// An authenticated session.
pub struct Session {
    pub user: String,
    pub guest: bool,
    /// Trees connected under this session.
    pub trees: Vec<u16>,
}

/// The state of one connection.
pub struct ConnState {
    /// The challenge issued on this connection.
    pub challenge: [u8; 8],
    pub negotiated: bool,
    pub uid: u16,
    /// Authentication is under way.
    pub auth_pending: bool,
    /// The client wraps its tokens in SPNEGO.
    pub spnego: bool,
    pub session: Option<Session>,
    /// Share name by tree id.
    pub trees: HashMap<u16, String>,
    pub handles: HashMap<u16, FileHandle>,
    pub searches: HashMap<u16, SearchCtx>,
}

impl ConnState {
    /// A connection that has done nothing yet.
    pub fn new(challenge: [u8; 8]) -> (c: Self)
        ensures
            c.challenge == challenge,
            !c.negotiated,
            c.uid == 0,
            !c.auth_pending,
            !c.spnego,
            c.session is None,
            c.trees@ == Map::<u16, String>::empty(),
            c.handles@ == Map::<u16, FileHandle>::empty(),
            c.searches@ == Map::<u16, SearchCtx>::empty(),
    {
        ConnState {
            challenge,
            negotiated: false,
            uid: 0,
            auth_pending: false,
            spnego: false,
            session: None,
            trees: HashMap::new(),
            handles: HashMap::new(),
            searches: HashMap::new(),
        }
    }

    /// Takes out a handle. What is left to do with it: write back its file
    /// object, and delete the path if `deletes_on_close` says so.
    pub fn close_fid(&mut self, fid: u16) -> (h: Option<FileHandle>)
        ensures
            final(self).handles@ == old(self).handles@.remove(fid),
            h == if old(self).handles@.contains_key(fid) {
                Some(old(self).handles@[fid])
            } else {
                None
            },
            final(self).same_but_handles(old(self)),
    {
        self.handles.remove(&fid)
    }

    /// Whether everything but the handles is as in `o`.
    pub open spec fn same_but_handles(&self, o: &ConnState) -> bool {
        &&& self.challenge == o.challenge
        &&& self.negotiated == o.negotiated
        &&& self.uid == o.uid
        &&& self.auth_pending == o.auth_pending
        &&& self.spnego == o.spnego
        &&& self.session == o.session
        &&& self.trees == o.trees
        &&& self.searches == o.searches
    }

    /// Whether challenge, trees, handles and searches are as in `o`.
    pub open spec fn same_but_session(&self, o: &ConnState) -> bool {
        &&& self.challenge == o.challenge
        &&& self.negotiated == o.negotiated
        &&& self.trees == o.trees
        &&& self.handles == o.handles
        &&& self.searches == o.searches
    }

    /// Whether everything but the searches is as in `o`.
    pub open spec fn same_but_searches(&self, o: &ConnState) -> bool {
        &&& self.challenge == o.challenge
        &&& self.negotiated == o.negotiated
        &&& self.uid == o.uid
        &&& self.auth_pending == o.auth_pending
        &&& self.spnego == o.spnego
        &&& self.session == o.session
        &&& self.trees == o.trees
        &&& self.handles == o.handles
    }
}

/// Whether closing a handle deletes what it names.
pub open spec fn deletes_on_close(h: FileHandle) -> bool {
    h.delete_on_close || h.delete_pending
}

/// Whether closing a handle deletes what it names.
pub fn delete_when_closed(h: &FileHandle) -> (r: bool)
    ensures
        r == deletes_on_close(*h),
{
    h.delete_on_close || h.delete_pending
}

/// The configuration of a server.
pub struct ServerShared {
    pub shares: TextMap<Share>,
    pub guid: [u8; 16],
    /// Password by lower-case user name.
    pub users: TextMap<String>,
    /// Without configured users everyone is let in.
    pub allow_guest: bool,
    pub server_name: String,
    pub domain: String,
}

impl ServerShared {
    /// The tables are well formed.
    pub open spec fn wf(&self) -> bool {
        self.shares.wf() && self.users.wf()
    }

    /// Whether a client that never authenticated is mapped to guest: only where no users
    /// are configured.
    pub open spec fn takes_guests(&self) -> bool {
        self.allow_guest && self.users@ == Map::<Seq<char>, String>::empty()
    }
}

// ---------------- paths ----------------

/// Whether a path component is followed: it names something below the
/// directory it stands in, and no drive.
pub open spec fn is_followed(p: Seq<char>) -> bool {
    p.len() > 0 && p != "."@ && p != ".."@ && !p.contains(':')
}

/// The components of a client path that are followed, in order.
pub open spec fn components(rel: Seq<char>) -> Seq<Seq<char>> {
    pieces(rel).filter(|p: Seq<char>| is_followed(p))
}

/// The components of a client path that are followed. Empty components, `.`,
/// `..` and drive letters are left out.
pub fn path_components(rel: &str) -> (r: Vec<String>)
    ensures
        texts(r@) == components(rel@),
{
    let all = split_slashes(rel);
    let mut r: Vec<String> = Vec::new();
    let mut i: usize = 0;
    let ghost p = |p: Seq<char>| is_followed(p);
    proof {
        reveal(Seq::filter);
        assert(texts(all@).take(0).filter(p) =~= Seq::<Seq<char>>::empty());
        assert(texts(r@) =~= Seq::<Seq<char>>::empty());
    }
    while i < all.len()
        invariant
            i <= all@.len(),
            p == (|p: Seq<char>| is_followed(p)),
            texts(r@) == texts(all@).take(i as int).filter(p),
        decreases all@.len() - i,
    {
        let c = all[i].clone();
        let ghost before = texts(r@);
        proof {
            reveal(Seq::filter);
            assert(texts(all@).take(i + 1).drop_last() =~= texts(all@).take(i as int));
            assert(texts(all@).take(i + 1).last() == c@);
        }
        let empty: bool = c.as_str().is_empty();
        if !empty && !same_text(c.as_str(), ".") && !same_text(c.as_str(), "..") && !text_has(c.as_str(), ':') {
            r.push(c);
            assert(texts(r@) =~= before.push(c@));
        }
        i += 1;
    }
    assert(texts(all@).take(i as int) =~= texts(all@));
    r
}

/// The spelling under which a component is looked up: its own where that is
/// there, else the first name in the directory that differs only in case.
pub open spec fn spelled(comp: Seq<char>, exists_as_is: bool, names: Seq<Seq<char>>) -> Seq<char> {
    if exists_as_is {
        comp
    } else {
        match first_where(names, |n: Seq<char>| lowercase(n) == lowercase(comp)) {
            Some(i) => names[i],
            None => comp,
        }
    }
}

/// Picks the spelling of a component; `names` are the names in its directory.
pub fn fix_component(comp: &str, exists_as_is: bool, names: &Vec<String>) -> (r: String)
    ensures
        r@ == spelled(comp@, exists_as_is, texts(names@)),
{
    if exists_as_is {
        return comp.to_owned();
    }
    let lower = to_lowercase(comp);
    let ghost p = |n: Seq<char>| lowercase(n) == lowercase(comp@);
    let mut i: usize = 0;
    while i < names.len()
        invariant
            i <= names@.len(),
            lower@ == lowercase(comp@),
            p == (|n: Seq<char>| lowercase(n) == lowercase(comp@)),
            !exists_as_is,
            forall|k: int| 0 <= k < i ==> !p(#[trigger] texts(names@)[k]),
        decreases names@.len() - i,
    {
        let l = to_lowercase(names[i].as_str());
        if same_text(l.as_str(), lower.as_str()) {
            proof {
                assert(p(texts(names@)[i as int]));
                lemma_is_first(texts(names@), p, i as int);
            }
            return names[i].clone();
        }
        assert(!p(texts(names@)[i as int]));
        i += 1;
    }
    proof {
        lemma_first_where(texts(names@), p);
    }
    comp.to_owned()
}

/// A directory and a name in it.
pub open spec fn joined(dir: Seq<char>, name: Seq<char>) -> Seq<char> {
    if dir.len() == 0 || dir.last() == '/' {
        dir + name
    } else {
        dir.push('/') + name
    }
}

/// Puts a name behind a directory.
pub fn join_path(dir: &str, name: &str) -> (r: String)
    ensures
        r@ == joined(dir@, name@),
{
    let c = chars_of(dir);
    if c.len() == 0 || c[c.len() - 1] == '/' {
        concat(dir, name)
    } else {
        let mut d = dir.to_owned();
        push_char(&mut d, '/');
        concat(d.as_str(), name)
    }
}

/// What the file system says of one component: whether it is there in its own
/// spelling, and the names in its directory.
pub struct Lookup {
    pub exists_as_is: bool,
    pub names: Vec<String>,
}

/// The path that the first `n` components lead to from `root`.
pub open spec fn resolved(root: Seq<char>, comps: Seq<Seq<char>>, looks: Seq<Lookup>, n: int) -> Seq<char>
    decreases n,
{
    if n <= 0 {
        root
    } else {
        joined(
            resolved(root, comps, looks, n - 1),
            spelled(comps[n - 1], looks[n - 1].exists_as_is, texts(looks[n - 1].names@)),
        )
    }
}

/// Resolves a client path below `root`; `looks` holds what the file system said
/// of each component that is followed.
pub fn resolve_path(root: &str, rel: &str, looks: &Vec<Lookup>) -> (r: String)
    requires
        looks@.len() == components(rel@).len(),
    ensures
        r@ == resolved(root@, components(rel@), looks@, looks@.len() as int),
{
    let comps = path_components(rel);
    let mut r = root.to_owned();
    let mut i: usize = 0;
    assert(comps@.len() == components(rel@).len());
    while i < comps.len()
        invariant
            i <= comps@.len() == looks@.len(),
            texts(comps@) == components(rel@),
            r@ == resolved(root@, components(rel@), looks@, i as int),
        decreases comps@.len() - i,
    {
        assert(comps@[i as int]@ == components(rel@)[i as int]);
        let s = fix_component(comps[i].as_str(), looks[i].exists_as_is, &looks[i].names);
        r = join_path(r.as_str(), s.as_str());
        i += 1;
    }
    r
}

/// Path safety: no component that is followed is empty, `.` or `..`, and none
/// holds a slash of either kind or a drive colon.
pub proof fn law_path_components_safe(rel: Seq<char>, i: int)
    requires
        0 <= i < components(rel).len(),
    ensures
        is_followed(components(rel)[i]),
        forall|k: int| 0 <= k < components(rel)[i].len() ==> !is_slash(#[trigger] components(rel)[i][k]),
{
    let p = |p: Seq<char>| is_followed(p);
    let all = pieces(rel);
    all.lemma_filter_pred(p, i);
    let c = all.filter(p)[i];
    lemma_pieces(rel);
    assert(all.filter(p).contains(c));
    all.lemma_filter_contains_rev(p, c);
    assert(all.contains(c));
    let j = choose|j: int| 0 <= j < all.len() && all[j] == c;
    assert forall|k: int| 0 <= k < c.len() implies !is_slash(#[trigger] c[k]) by {
        assert(!is_slash(all[j][k]));
    }
}

/// Path safety: whatever a client sends, the resolved path starts with the
/// share root.
pub proof fn law_resolved_under_root(root: Seq<char>, comps: Seq<Seq<char>>, looks: Seq<Lookup>, n: int)
    requires
        0 <= n,
    ensures
        root.len() <= resolved(root, comps, looks, n).len(),
        resolved(root, comps, looks, n).subrange(0, root.len() as int) == root,
    decreases n,
{
    let r = resolved(root, comps, looks, n);
    if n > 0 {
        law_resolved_under_root(root, comps, looks, n - 1);
        let b = resolved(root, comps, looks, n - 1);
        assert(r.subrange(0, root.len() as int) =~= b.subrange(0, root.len() as int));
    } else {
        assert(r.subrange(0, root.len() as int) =~= root);
    }
}

/// Whether a name is one that a directory can hold.
pub open spec fn is_entry_name(n: Seq<char>) -> bool {
    n.len() > 0 && n != "."@ && n != ".."@ && !n.contains('/')
}

/// Path safety: each step of a resolved path goes down. It is the client's component or
/// a name of the directory, is not empty, `.` or `..`, and holds no slash.
pub proof fn law_steps_go_down(rel: Seq<char>, look: Lookup, i: int)
    requires
        0 <= i < components(rel).len(),
        forall|k: int| 0 <= k < look.names@.len() ==> is_entry_name((#[trigger] look.names@[k])@),
    ensures
        is_entry_name(spelled(components(rel)[i], look.exists_as_is, texts(look.names@))),
{
    law_path_components_safe(rel, i);
    let c = components(rel)[i];
    let names = texts(look.names@);
    let p = |n: Seq<char>| lowercase(n) == lowercase(c);
    lemma_first_where(names, p);
    assert(!c.contains('/')) by {
        assert forall|k: int| 0 <= k < c.len() implies c[k] != '/' by {
            assert(!is_slash(c[k]));
        }
    }
    match first_where(names, p) {
        Some(k) => {
            assert(names[k] == look.names@[k]@);
        },
        None => {},
    }
}

/// Every share that is published is served under its name in lower case, from the directory
/// that was given for it last; the pipe share is always served.
pub proof fn law_published_shares_are_served(specs: Seq<(String, String)>, n: int, k: int)
    requires
        0 <= k < n <= specs.len(),
        forall|j: int| k < j < n ==> lowercase(#[trigger] specs[j].0@) != lowercase(specs[k].0@),
    ensures
        ({
            let m = with_ipc(published(specs, n));
            let name = lowercase(specs[k].0@);
            &&& m.dom().contains(name)
            &&& m[name].root == specs[k].1@ && m[name].name == specs[k].0@
            &&& m.dom().contains("ipc$"@)
            &&& m[name].is_ipc <==> name == "ipc$"@
        }),
    decreases n,
{
    lemma_published(specs, n, k);
}

proof fn lemma_published(specs: Seq<(String, String)>, n: int, k: int)
    requires
        0 <= k < n <= specs.len(),
        forall|j: int| k < j < n ==> lowercase(#[trigger] specs[j].0@) != lowercase(specs[k].0@),
    ensures
        ({
            let m = published(specs, n);
            let name = lowercase(specs[k].0@);
            m.contains_key(name) && m[name] == (ShareView { name: specs[k].0@, root: specs[k].1@, is_ipc: name == "ipc$"@ })
        }),
    decreases n,
{
    if k < n - 1 {
        lemma_published(specs, n - 1, k);
    }
}

/// What is marked for deletion in either way is deleted when it is closed, and nothing else.
pub proof fn law_only_marked_files_are_deleted(h: FileHandle)
    ensures
        h.delete_on_close ==> deletes_on_close(h),
        h.delete_pending ==> deletes_on_close(h),
        !h.delete_on_close && !h.delete_pending ==> !deletes_on_close(h),
{
}

/// A component is looked up in its own spelling where it is there, and else in a spelling
/// of the directory that differs only in case; only where there is none it stays as it is.
pub proof fn law_components_are_found_whatever_case(comp: Seq<char>, exists_as_is: bool, names: Seq<Seq<char>>, k: int)
    requires
        0 <= k < names.len(),
    ensures
        ({
            let s = spelled(comp, exists_as_is, names);
            &&& exists_as_is ==> s == comp
            &&& lowercase(s) == lowercase(comp)
            &&& s == comp || names.contains(s)
            &&& !exists_as_is && lowercase(names[k]) == lowercase(comp) ==> names.contains(s)
        }),
{
    let p = |n: Seq<char>| lowercase(n) == lowercase(comp);
    crate::tables::lemma_first_where(names, p);
}

/// A name in a directory is joined with one slash.
pub proof fn law_names_are_joined(dir: Seq<char>, name: Seq<char>)
    requires
        dir.len() > 0,
    ensures
        dir.last() != '/' ==> joined(dir, name) == dir + seq!['/'] + name,
        dir.last() == '/' ==> joined(dir, name) == dir + name,
{
    assert(dir.push('/') =~= dir + seq!['/']);
}

proof fn lemma_pieces_extended(front: Seq<char>, name: Seq<char>)
    requires
        forall|k: int| 0 <= k < name.len() ==> #[trigger] name[k] != '\\' && name[k] != '/',
        front.len() > 0 ==> front.last() == '\\' || front.last() == '/',
    ensures
        pieces(front).len() > 0,
        pieces(front).last().len() == 0,
        pieces(front + name) == pieces(front).drop_last().push(name),
    decreases name.len(),
{
    let s = front + name;
    crate::text::lemma_pieces(front);
    if front.len() > 0 {
        crate::text::lemma_pieces(front.drop_last());
    }
    if name.len() == 0 {
        assert(s =~= front);
        assert(pieces(front).last() =~= name);
        assert(pieces(front).drop_last().push(name) =~= pieces(front));
    } else {
        let d = name.drop_last();
        assert forall|k: int| 0 <= k < d.len() implies #[trigger] d[k] != '\\' && d[k] != '/' by {
            assert(d[k] == name[k]);
        }
        lemma_pieces_extended(front, d);
        assert(s.drop_last() =~= front + d);
        assert(s.last() == name.last());
        assert(d.push(name.last()) =~= name);
        assert(pieces(s) =~= pieces(front).drop_last().push(name));
    }
}

/// A path is followed in the order of its components: a name behind a slash is the last
/// step, and what leads nowhere is left out.
pub proof fn law_paths_are_followed_in_order(front: Seq<char>, name: Seq<char>)
    requires
        forall|k: int| 0 <= k < name.len() ==> #[trigger] name[k] != '\\' && name[k] != '/',
        front.len() > 0 ==> front.last() == '\\' || front.last() == '/',
    ensures
        is_followed(name) ==> components(front + name) == components(front).push(name),
        name.len() == 0 || name == "."@ || name == ".."@ || name.contains(':') ==> components(front + name) == components(
            front,
        ),
{
    let p = |p: Seq<char>| is_followed(p);
    lemma_pieces_extended(front, name);
    let head = pieces(front).drop_last();
    let last = pieces(front).last();
    assert(pieces(front) =~= head.push(last));
    reveal(Seq::filter);
    assert(head.push(name).drop_last() =~= head);
    assert(head.push(last).drop_last() =~= head);
    assert(!is_followed(last));
}

} // verus!
