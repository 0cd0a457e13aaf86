//! Command lines: of the server and of the conformance runner.
use vstd::prelude::*;
use crate::conn2::Share2;
use crate::tables::TextMap;
use crate::text::{chars_of, lowercase, same_text, text_of_range, texts, to_lowercase};

verus! {

// ---------------- numbers and pairs ----------------

/// Whether a character is a decimal digit.
pub open spec fn is_digit(c: char) -> bool {
    48 <= c as int <= 57
}

/// The number that the first `n` characters spell in decimal.
pub open spec fn number_of(s: Seq<char>, n: int) -> nat
    decreases n,
{
    if n <= 0 {
        0
    } else {
        (number_of(s, n - 1) * 10 + (s[n - 1] as int - 48)) as nat
    }
}

/// Where the digits of a number start: behind a plus sign.
pub open spec fn digits_start(s: Seq<char>) -> int {
    if s.len() > 0 && s[0] == '+' {
        1
    } else {
        0
    }
}

/// The port number that a text spells; none where it does not.
pub open spec fn port_of(s: Seq<char>) -> Option<u16> {
    let d = s.subrange(digits_start(s), s.len() as int);
    if d.len() > 0 && (forall|i: int| 0 <= i < d.len() ==> is_digit(#[trigger] d[i])) && number_of(d, d.len() as int)
        <= 0xFFFF {
        Some(number_of(d, d.len() as int) as u16)
    } else {
        None
    }
}

proof fn lemma_number_grows(s: Seq<char>, n: int, m: int)
    requires
        0 <= n <= m <= s.len(),
        forall|i: int| 0 <= i < s.len() ==> is_digit(#[trigger] s[i]),
    ensures
        number_of(s, n) <= number_of(s, m),
    decreases m,
{
    if n < m {
        lemma_number_grows(s, n, m - 1);
        assert(is_digit(s[m - 1]));
    }
}

/// Reads a port number.
pub fn parse_port(s: &str) -> (r: Option<u16>)
    ensures
        r == port_of(s@),
{
    let c = chars_of(s);
    let n: usize = c.len();
    let start: usize = if n > 0 && c[0] == '+' {
        1
    } else {
        0
    };
    if start == n {
        return None;
    }
    let ghost d = s@.subrange(start as int, n as int);
    let mut v: u32 = 0;
    let mut i: usize = start;
    while i < n
        invariant
            start <= i <= n == c@.len(),
            start == digits_start(s@),
            c@ == s@,
            d == s@.subrange(start as int, n as int),
            v <= 0xFFFF,
            v == number_of(d, i - start),
            forall|k: int| 0 <= k < i - start ==> is_digit(#[trigger] d[k]),
        decreases n - i,
    {
        let x: char = c[i];
        proof {
            crate::text::lemma_char_is_scalar(x);
            assert(d[i - start] == x);
        }
        let u: u32 = x as u32;
        if u < 48 || u > 57 {
            assert(!is_digit(d[i - start]));
            return None;
        }
        v = v * 10 + (u - 48);
        assert(v == number_of(d, i + 1 - start));
        if v > 0xFFFF {
            proof {
                if forall|k: int| 0 <= k < d.len() ==> is_digit(#[trigger] d[k]) {
                    lemma_number_grows(d, i + 1 - start, d.len() as int);
                }
            }
            return None;
        }
        i += 1;
    }
    Some(v as u16)
}

/// Where a character first stands at or behind a place.
pub open spec fn first_at(s: Seq<char>, x: char, i: int) -> Option<int>
    decreases s.len() - i,
{
    if i < 0 || i >= s.len() {
        None
    } else if s[i] == x {
        Some(i)
    } else {
        first_at(s, x, i + 1)
    }
}

/// What stands before and behind the first of a character; none where it does not
/// occur.
pub open spec fn split_at_first(s: Seq<char>, x: char) -> Option<(Seq<char>, Seq<char>)> {
    match first_at(s, x, 0) {
        Some(i) => Some((s.subrange(0, i), s.subrange(i + 1, s.len() as int))),
        None => None,
    }
}

/// Splits a text at the first of a character.
pub fn split_once(s: &str, x: char) -> (r: Option<(String, String)>)
    ensures
        match split_at_first(s@, x) {
            Some(p) => r matches Some(q) && q.0@ == p.0 && q.1@ == p.1,
            None => r is None,
        },
{
    let c = chars_of(s);
    let n: usize = c.len();
    let mut i: usize = 0;
    while i < n
        invariant
            i <= n == c@.len(),
            c@ == s@,
            first_at(s@, x, 0) == first_at(s@, x, i as int),
        decreases n - i,
    {
        if c[i] == x {
            return Some((text_of_range(c.as_slice(), 0, i), text_of_range(c.as_slice(), i + 1, n)));
        }
        i += 1;
    }
    None
}

// ---------------- shares and users ----------------

/// The name and the path that a share is published by: `NAME=PATH`, or a path alone.
pub open spec fn share_spec(s: Seq<char>) -> (Seq<char>, Seq<char>) {
    match split_at_first(s, '=') {
        Some(p) => p,
        None => ("public"@, s),
    }
}

/// The shares of the first `n` specifications.
pub open spec fn share_specs(specs: Seq<Seq<char>>, n: int) -> Seq<(Seq<char>, Seq<char>)> {
    Seq::new(n as nat, |i: int| share_spec(specs[i]))
}

/// The shares to publish: those asked for, or else the working directory.
pub open spec fn shares_asked(specs: Seq<Seq<char>>, cwd: Seq<char>) -> Seq<(Seq<char>, Seq<char>)> {
    if specs.len() == 0 {
        seq![("public"@, cwd)]
    } else {
        share_specs(specs, specs.len() as int)
    }
}

/// Names and paths.
pub open spec fn pair_views(v: Seq<(String, String)>) -> Seq<(Seq<char>, Seq<char>)> {
    Seq::new(v.len(), |i: int| (v[i].0@, v[i].1@))
}

/// Lists the shares to publish.
pub fn share_list(specs: &Vec<String>, cwd: &str) -> (r: Vec<(String, String)>)
    ensures
        pair_views(r@) == shares_asked(texts(specs@), cwd@),
{
    let n: usize = specs.len();
    let mut r: Vec<(String, String)> = Vec::new();
    if n == 0 {
        r.push(("public".to_owned(), cwd.to_owned()));
        assert(pair_views(r@) =~= seq![("public"@, cwd@)]);
        return r;
    }
    let mut i: usize = 0;
    while i < n
        invariant
            i <= n == specs@.len(),
            r@.len() == i,
            forall|k: int| 0 <= k < i ==> ((#[trigger] r@[k]).0@, r@[k].1@) == share_spec(specs@[k]@),
        decreases n - i,
    {
        let p = match split_once(specs[i].as_str(), '=') {
            Some(p) => p,
            None => ("public".to_owned(), specs[i].clone()),
        };
        r.push(p);
        i += 1;
    }
    assert(pair_views(r@) =~= share_specs(texts(specs@), n as int));
    r
}

/// A share as it is published.
pub struct PublishedView {
    pub name: Seq<char>,
    pub root: Seq<char>,
    pub is_ipc: bool,
    pub encrypt: bool,
    pub compress: bool,
}

/// A share of the table.
pub open spec fn published_view(s: Share2) -> PublishedView {
    PublishedView { name: s.name@, root: s.root@, is_ipc: s.is_ipc, encrypt: s.encrypt, compress: s.compress }
}

/// Whether a name is among those given, whatever the case of letters.
pub open spec fn is_named(names: Seq<Seq<char>>, low: Seq<char>) -> bool {
    exists|i: int| 0 <= i < names.len() && lowercase(#[trigger] names[i]) == low
}

/// The table of the first `n` shares; a later one of a name replaces an earlier one.
pub open spec fn share_table(
    shares: Seq<(Seq<char>, Seq<char>)>,
    encrypt: Seq<Seq<char>>,
    compress: Seq<Seq<char>>,
    n: int,
) -> Map<Seq<char>, PublishedView>
    decreases n,
{
    if n <= 0 {
        Map::empty()
    } else {
        let low = lowercase(shares[n - 1].0);
        share_table(shares, encrypt, compress, n - 1).insert(
            low,
            PublishedView {
                name: shares[n - 1].0,
                root: shares[n - 1].1,
                is_ipc: false,
                encrypt: is_named(encrypt, low),
                compress: is_named(compress, low),
            },
        )
    }
}

/// The table with the virtual pipe share.
pub open spec fn with_pipes(m: Map<Seq<char>, PublishedView>) -> Map<Seq<char>, PublishedView> {
    m.insert(
        "ipc$"@,
        PublishedView { name: "IPC$"@, root: "/"@, is_ipc: true, encrypt: false, compress: false },
    )
}

/// Whether a table holds these shares.
pub open spec fn holds_published(m: Map<Seq<char>, Share2>, v: Map<Seq<char>, PublishedView>) -> bool {
    &&& m.dom() == v.dom()
    &&& forall|k: Seq<char>| #[trigger] m.contains_key(k) ==> published_view(m[k]) == v[k] && !m[k].ca
}

fn has_lower(names: &Vec<String>, low: &str) -> (r: bool)
    ensures
        r == is_named(texts(names@), low@),
{
    let n: usize = names.len();
    let mut i: usize = 0;
    while i < n
        invariant
            i <= n == names@.len(),
            forall|k: int| 0 <= k < i ==> lowercase(#[trigger] texts(names@)[k]) != low@,
        decreases n - i,
    {
        let x = to_lowercase(names[i].as_str());
        assert(texts(names@)[i as int] == names@[i as int]@);
        if same_text(x.as_str(), low) {
            return true;
        }
        i += 1;
    }
    false
}

/// Builds the table of published shares with the virtual pipe share. Shares named in
/// `encrypt` are encrypted, those named in `compress` advertise compression.
pub fn build_shares(
    shares: &Vec<(String, String)>,
    encrypt: &Vec<String>,
    compress: &Vec<String>,
) -> (m: TextMap<Share2>)
    ensures
        m.wf(),
        holds_published(
            m@,
            with_pipes(
                share_table(pair_views(shares@), texts(encrypt@), texts(compress@), shares@.len() as int),
            ),
        ),
{
    let n: usize = shares.len();
    let mut m: TextMap<Share2> = TextMap::new();
    let mut i: usize = 0;
    while i < n
        invariant
            i <= n == shares@.len(),
            m.wf(),
            holds_published(m@, share_table(pair_views(shares@), texts(encrypt@), texts(compress@), i as int)),
        decreases n - i,
    {
        let low = to_lowercase(shares[i].0.as_str());
        let s = Share2 {
            name: shares[i].0.clone(),
            root: shares[i].1.clone(),
            is_ipc: false,
            encrypt: has_lower(encrypt, low.as_str()),
            compress: has_lower(compress, low.as_str()),
            ca: false,
        };
        let ghost before = m@;
        m.insert(low, s);
        proof {
            let v = share_table(pair_views(shares@), texts(encrypt@), texts(compress@), i + 1);
            assert(pair_views(shares@)[i as int] == (shares@[i as int].0@, shares@[i as int].1@));
            assert(m@.dom() =~= v.dom());
        }
        i += 1;
    }
    let ghost before = m@;
    m.insert(
        "ipc$".to_owned(),
        Share2 {
            name: "IPC$".to_owned(),
            root: "/".to_owned(),
            is_ipc: true,
            encrypt: false,
            compress: false,
            ca: false,
        },
    );
    proof {
        let v = with_pipes(share_table(pair_views(shares@), texts(encrypt@), texts(compress@), n as int));
        assert(m@.dom() =~= v.dom());
    }
    m
}

/// The accounts of the first `n` specifications `USER:PASSWORD`: the password under the
/// name in lower case. What has no colon is no account.
pub open spec fn user_table(specs: Seq<Seq<char>>, n: int) -> Map<Seq<char>, Seq<char>>
    decreases n,
{
    if n <= 0 {
        Map::empty()
    } else {
        match split_at_first(specs[n - 1], ':') {
            Some(p) => user_table(specs, n - 1).insert(lowercase(p.0), p.1),
            None => user_table(specs, n - 1),
        }
    }
}

/// Whether a table holds these texts.
pub open spec fn holds_texts(m: Map<Seq<char>, String>, v: Map<Seq<char>, Seq<char>>) -> bool {
    &&& m.dom() == v.dom()
    &&& forall|k: Seq<char>| #[trigger] m.contains_key(k) ==> m[k]@ == v[k]
}

/// Builds the table of accounts.
pub fn build_users(specs: &Vec<String>) -> (m: TextMap<String>)
    ensures
        m.wf(),
        holds_texts(m@, user_table(texts(specs@), specs@.len() as int)),
{
    let n: usize = specs.len();
    let mut m: TextMap<String> = TextMap::new();
    let mut i: usize = 0;
    while i < n
        invariant
            i <= n == specs@.len(),
            m.wf(),
            holds_texts(m@, user_table(texts(specs@), i as int)),
        decreases n - i,
    {
        assert(texts(specs@)[i as int] == specs@[i as int]@);
        match split_once(specs[i].as_str(), ':') {
            Some((name, pass)) => {
                let low = to_lowercase(name.as_str());
                m.insert(low, pass);
                assert(m@.dom() =~= user_table(texts(specs@), i + 1).dom());
            },
            None => {},
        }
        i += 1;
    }
    m
}

/// A published share is found under its name in lower case, with the flags asked for.
pub proof fn law_share_is_published(
    shares: Seq<(Seq<char>, Seq<char>)>,
    encrypt: Seq<Seq<char>>,
    compress: Seq<Seq<char>>,
    i: int,
)
    requires
        0 <= i < shares.len(),
        forall|k: int| i < k < shares.len() ==> lowercase((#[trigger] shares[k]).0) != lowercase(shares[i].0),
        lowercase(shares[i].0) != "ipc$"@,
    ensures
        ({
            let low = lowercase(shares[i].0);
            let m = with_pipes(share_table(shares, encrypt, compress, shares.len() as int));
            m.contains_key(low) && m[low] == (PublishedView {
                name: shares[i].0,
                root: shares[i].1,
                is_ipc: false,
                encrypt: is_named(encrypt, low),
                compress: is_named(compress, low),
            })
        }),
{
    lemma_share_kept(shares, encrypt, compress, i, shares.len() as int);
}

proof fn lemma_share_kept(
    shares: Seq<(Seq<char>, Seq<char>)>,
    encrypt: Seq<Seq<char>>,
    compress: Seq<Seq<char>>,
    i: int,
    n: int,
)
    requires
        0 <= i < n <= shares.len(),
        forall|k: int| i < k < shares.len() ==> lowercase((#[trigger] shares[k]).0) != lowercase(shares[i].0),
    ensures
        ({
            let low = lowercase(shares[i].0);
            let m = share_table(shares, encrypt, compress, n);
            m.contains_key(low) && m[low] == (PublishedView {
                name: shares[i].0,
                root: shares[i].1,
                is_ipc: false,
                encrypt: is_named(encrypt, low),
                compress: is_named(compress, low),
            })
        }),
    decreases n,
{
    if i < n - 1 {
        lemma_share_kept(shares, encrypt, compress, i, n - 1);
        assert(lowercase(shares[n - 1].0) != lowercase(shares[i].0));
    }
}

// ---------------- the server ----------------

/// The port where none is given.
pub const DEFAULT_PORT: u16 = 4450;

/// The options of the plain server.
#[derive(Debug)]
pub struct ServerOptions {
    pub port: u16,
    /// Shares as they were asked for.
    pub shares: Vec<String>,
    /// Accounts as they were asked for.
    pub users: Vec<String>,
}

/// Options as sequences.
pub struct ServerOptionsView {
    pub port: u16,
    pub shares: Seq<Seq<char>>,
    pub users: Seq<Seq<char>>,
}

impl View for ServerOptions {
    type V = ServerOptionsView;

    open spec fn view(&self) -> ServerOptionsView {
        ServerOptionsView { port: self.port, shares: texts(self.shares@), users: texts(self.users@) }
    }
}

/// Whether an argument is one of two spellings.
pub open spec fn spelled_as(a: Seq<char>, long: Seq<char>, short: Seq<char>) -> bool {
    a == long || a == short
}

/// The options from an argument on; none where help is asked for. An argument that is
/// not known is passed over.
pub open spec fn server_options(args: Seq<Seq<char>>, i: int, o: ServerOptionsView) -> Option<ServerOptionsView>
    decreases args.len() - i,
{
    if i < 0 || i >= args.len() {
        Some(o)
    } else {
        let a = args[i];
        let has_next = i + 1 < args.len();
        if spelled_as(a, "--port"@, "-p"@) {
            if has_next {
                let port = match port_of(args[i + 1]) {
                    Some(p) => p,
                    None => DEFAULT_PORT,
                };
                server_options(args, i + 2, ServerOptionsView { port, ..o })
            } else {
                Some(ServerOptionsView { port: DEFAULT_PORT, ..o })
            }
        } else if spelled_as(a, "--share"@, "-s"@) {
            if has_next {
                server_options(args, i + 2, ServerOptionsView { shares: o.shares.push(args[i + 1]), ..o })
            } else {
                Some(o)
            }
        } else if spelled_as(a, "--user"@, "-u"@) {
            if has_next {
                server_options(args, i + 2, ServerOptionsView { users: o.users.push(args[i + 1]), ..o })
            } else {
                Some(o)
            }
        } else if spelled_as(a, "--help"@, "-h"@) {
            None
        } else {
            server_options(args, i + 1, o)
        }
    }
}

/// The options before any argument.
pub open spec fn no_options() -> ServerOptionsView {
    ServerOptionsView { port: DEFAULT_PORT, shares: Seq::empty(), users: Seq::empty() }
}

fn is_spelled(a: &str, long: &str, short: &str) -> (r: bool)
    ensures
        r == spelled_as(a@, long@, short@),
{
    same_text(a, long) || same_text(a, short)
}

/// Reads the arguments of the plain server; none where help is asked for.
pub fn parse_server_args(args: &Vec<String>) -> (r: Option<ServerOptions>)
    ensures
        match server_options(texts(args@), 0, no_options()) {
            Some(o) => r matches Some(p) && p@ == o,
            None => r is None,
        },
{
    let n: usize = args.len();
    let mut o = ServerOptions { port: DEFAULT_PORT, shares: Vec::new(), users: Vec::new() };
    assert(texts(o.shares@) =~= Seq::<Seq<char>>::empty());
    assert(texts(o.users@) =~= Seq::<Seq<char>>::empty());
    let mut i: usize = 0;
    while i < n
        invariant
            i <= n == args@.len(),
            server_options(texts(args@), 0, no_options()) == server_options(texts(args@), i as int, o@),
        decreases n - i,
    {
        let a = args[i].as_str();
        let ghost t = texts(args@);
        let ghost before = o@;
        assert(t[i as int] == args@[i as int]@);
        let has_next: bool = n - i > 1;
        if has_next {
            assert(t[i + 1] == args@[i + 1]@);
        }
        if is_spelled(a, "--port", "-p") {
            o.port = if has_next {
                match parse_port(args[i + 1].as_str()) {
                    Some(p) => p,
                    None => DEFAULT_PORT,
                }
            } else {
                DEFAULT_PORT
            };
            if !has_next {
                return Some(o);
            }
            i += 2;
        } else if is_spelled(a, "--share", "-s") {
            if !has_next {
                return Some(o);
            }
            o.shares.push(args[i + 1].clone());
            assert(texts(o.shares@) =~= before.shares.push(t[i + 1]));
            i += 2;
        } else if is_spelled(a, "--user", "-u") {
            if !has_next {
                return Some(o);
            }
            o.users.push(args[i + 1].clone());
            assert(texts(o.users@) =~= before.users.push(t[i + 1]));
            i += 2;
        } else if is_spelled(a, "--help", "-h") {
            return None;
        } else {
            i += 1;
        }
    }
    Some(o)
}

// ---------------- the conformance runner ----------------

/// The options of the conformance runner.
#[derive(Debug)]
pub struct RunnerOptions {
    /// The cases are listed and not run.
    pub list: bool,
    /// Results are recorded.
    pub record: bool,
    /// A server is started first.
    pub start_server: bool,
    /// Failed cases do not fail the run.
    pub no_fail: bool,
    pub port: Option<u16>,
    /// Where results are recorded.
    pub data_dir: String,
    /// The server that is started.
    pub server_bin: String,
    pub filter: Option<String>,
    pub host: Option<String>,
    pub user: Option<String>,
    pub pass: Option<String>,
    pub share: Option<String>,
    pub python: Option<String>,
    pub driver: Option<String>,
    pub share_dir: Option<String>,
}

/// Options as sequences.
pub struct RunnerView {
    pub list: bool,
    pub record: bool,
    pub start_server: bool,
    pub no_fail: bool,
    pub port: Option<u16>,
    pub data_dir: Seq<char>,
    pub server_bin: Seq<char>,
    pub filter: Option<Seq<char>>,
    pub host: Option<Seq<char>>,
    pub user: Option<Seq<char>>,
    pub pass: Option<Seq<char>>,
    pub share: Option<Seq<char>>,
    pub python: Option<Seq<char>>,
    pub driver: Option<Seq<char>>,
    pub share_dir: Option<Seq<char>>,
}

/// A text that may be missing.
pub open spec fn opt_text(o: Option<String>) -> Option<Seq<char>> {
    match o {
        Some(s) => Some(s@),
        None => None,
    }
}

impl View for RunnerOptions {
    type V = RunnerView;

    open spec fn view(&self) -> RunnerView {
        RunnerView {
            list: self.list,
            record: self.record,
            start_server: self.start_server,
            no_fail: self.no_fail,
            port: self.port,
            data_dir: self.data_dir@,
            server_bin: self.server_bin@,
            filter: opt_text(self.filter),
            host: opt_text(self.host),
            user: opt_text(self.user),
            pass: opt_text(self.pass),
            share: opt_text(self.share),
            python: opt_text(self.python),
            driver: opt_text(self.driver),
            share_dir: opt_text(self.share_dir),
        }
    }
}

/// The options before any argument.
pub open spec fn runner_defaults() -> RunnerView {
    RunnerView {
        list: false,
        record: false,
        start_server: false,
        no_fail: false,
        port: None,
        data_dir: "test/data"@,
        server_bin: "target/debug/rustsmb"@,
        filter: None,
        host: None,
        user: None,
        pass: None,
        share: None,
        python: None,
        driver: None,
        share_dir: None,
    }
}

/// A flag with a text behind it that may be missing.
#[derive(Clone, Copy, PartialEq, Eq, Structural, Debug)]
pub enum TextFlag {
    Filter,
    Host,
    User,
    Pass,
    Share,
    Python,
    Driver,
    ShareDir,
}

/// The flag that an argument is.
pub open spec fn text_flag(a: Seq<char>) -> Option<TextFlag> {
    if a == "--filter"@ {
        Some(TextFlag::Filter)
    } else if a == "--host"@ {
        Some(TextFlag::Host)
    } else if a == "--user"@ {
        Some(TextFlag::User)
    } else if a == "--pass"@ {
        Some(TextFlag::Pass)
    } else if a == "--share"@ {
        Some(TextFlag::Share)
    } else if a == "--python"@ {
        Some(TextFlag::Python)
    } else if a == "--driver"@ {
        Some(TextFlag::Driver)
    } else if a == "--share-dir"@ {
        Some(TextFlag::ShareDir)
    } else {
        None
    }
}

/// The options with the text of a flag.
pub open spec fn with_text(o: RunnerView, f: TextFlag, v: Option<Seq<char>>) -> RunnerView {
    match f {
        TextFlag::Filter => RunnerView { filter: v, ..o },
        TextFlag::Host => RunnerView { host: v, ..o },
        TextFlag::User => RunnerView { user: v, ..o },
        TextFlag::Pass => RunnerView { pass: v, ..o },
        TextFlag::Share => RunnerView { share: v, ..o },
        TextFlag::Python => RunnerView { python: v, ..o },
        TextFlag::Driver => RunnerView { driver: v, ..o },
        TextFlag::ShareDir => RunnerView { share_dir: v, ..o },
    }
}

/// What a command line asks for.
#[derive(Debug)]
pub enum RunnerCommand {
    Run(RunnerOptions),
    Help,
    /// An argument is not known.
    Unknown(String),
    /// A value is missing behind a flag.
    Missing(String),
}

/// What a command line asks for.
pub enum RunnerOutcome {
    Run(RunnerView),
    Help,
    Unknown(Seq<char>),
    Missing(Seq<char>),
}

impl View for RunnerCommand {
    type V = RunnerOutcome;

    open spec fn view(&self) -> RunnerOutcome {
        match *self {
            RunnerCommand::Run(o) => RunnerOutcome::Run(o@),
            RunnerCommand::Help => RunnerOutcome::Help,
            RunnerCommand::Unknown(a) => RunnerOutcome::Unknown(a@),
            RunnerCommand::Missing(a) => RunnerOutcome::Missing(a@),
        }
    }
}

/// The options with a flag that has no value.
pub open spec fn with_switch(o: RunnerView, a: Seq<char>) -> Option<RunnerView> {
    if a == "--list"@ {
        Some(RunnerView { list: true, ..o })
    } else if a == "--record"@ {
        Some(RunnerView { record: true, ..o })
    } else if a == "--start-server"@ {
        Some(RunnerView { start_server: true, ..o })
    } else if a == "--no-fail"@ {
        Some(RunnerView { no_fail: true, ..o })
    } else {
        None
    }
}

/// The port that is given behind a flag.
pub open spec fn port_given(v: Option<Seq<char>>) -> Option<u16> {
    match v {
        Some(s) => port_of(s),
        None => None,
    }
}

/// What the command line asks for from an argument on.
pub open spec fn runner_outcome(args: Seq<Seq<char>>, i: int, o: RunnerView) -> RunnerOutcome
    decreases args.len() - i,
{
    if i < 0 || i >= args.len() {
        RunnerOutcome::Run(o)
    } else {
        let a = args[i];
        let has_next = i + 1 < args.len();
        let v = if has_next {
            Some(args[i + 1])
        } else {
            None
        };
        if with_switch(o, a) is Some {
            runner_outcome(args, i + 1, with_switch(o, a)->0)
        } else if text_flag(a) is Some {
            let p = with_text(o, text_flag(a)->0, v);
            if has_next {
                runner_outcome(args, i + 2, p)
            } else {
                RunnerOutcome::Run(p)
            }
        } else if a == "--port"@ {
            let p = RunnerView { port: port_given(v), ..o };
            if has_next {
                runner_outcome(args, i + 2, p)
            } else {
                RunnerOutcome::Run(p)
            }
        } else if a == "--data-dir"@ {
            if has_next {
                runner_outcome(args, i + 2, RunnerView { data_dir: args[i + 1], ..o })
            } else {
                RunnerOutcome::Missing(a)
            }
        } else if a == "--server-bin"@ {
            if has_next {
                runner_outcome(args, i + 2, RunnerView { server_bin: args[i + 1], ..o })
            } else {
                RunnerOutcome::Missing(a)
            }
        } else if spelled_as(a, "--help"@, "-h"@) {
            RunnerOutcome::Help
        } else {
            RunnerOutcome::Unknown(a)
        }
    }
}

fn find_flag(a: &str) -> (f: Option<TextFlag>)
    ensures
        f == text_flag(a@),
{
    if same_text(a, "--filter") {
        Some(TextFlag::Filter)
    } else if same_text(a, "--host") {
        Some(TextFlag::Host)
    } else if same_text(a, "--user") {
        Some(TextFlag::User)
    } else if same_text(a, "--pass") {
        Some(TextFlag::Pass)
    } else if same_text(a, "--share") {
        Some(TextFlag::Share)
    } else if same_text(a, "--python") {
        Some(TextFlag::Python)
    } else if same_text(a, "--driver") {
        Some(TextFlag::Driver)
    } else if same_text(a, "--share-dir") {
        Some(TextFlag::ShareDir)
    } else {
        None
    }
}

fn set_text(o: &mut RunnerOptions, f: TextFlag, v: Option<String>)
    ensures
        final(o)@ == with_text(old(o)@, f, opt_text(v)),
{
    match f {
        TextFlag::Filter => {
            o.filter = v;
        },
        TextFlag::Host => {
            o.host = v;
        },
        TextFlag::User => {
            o.user = v;
        },
        TextFlag::Pass => {
            o.pass = v;
        },
        TextFlag::Share => {
            o.share = v;
        },
        TextFlag::Python => {
            o.python = v;
        },
        TextFlag::Driver => {
            o.driver = v;
        },
        TextFlag::ShareDir => {
            o.share_dir = v;
        },
    }
}

fn set_switch(o: &mut RunnerOptions, a: &str) -> (r: bool)
    ensures
        r == with_switch(old(o)@, a@) is Some,
        final(o)@ == (match with_switch(old(o)@, a@) {
            Some(v) => v,
            None => old(o)@,
        }),
{
    if same_text(a, "--list") {
        o.list = true;
        true
    } else if same_text(a, "--record") {
        o.record = true;
        true
    } else if same_text(a, "--start-server") {
        o.start_server = true;
        true
    } else if same_text(a, "--no-fail") {
        o.no_fail = true;
        true
    } else {
        false
    }
}

fn default_options() -> (o: RunnerOptions)
    ensures
        o@ == runner_defaults(),
{
    RunnerOptions {
        list: false,
        record: false,
        start_server: false,
        no_fail: false,
        port: None,
        data_dir: "test/data".to_owned(),
        server_bin: "target/debug/rustsmb".to_owned(),
        filter: None,
        host: None,
        user: None,
        pass: None,
        share: None,
        python: None,
        driver: None,
        share_dir: None,
    }
}

/// Reads the arguments of the conformance runner.
pub fn parse_runner_args(args: &Vec<String>) -> (r: RunnerCommand)
    ensures
        r@ == runner_outcome(texts(args@), 0, runner_defaults()),
{
    let n: usize = args.len();
    let mut o = default_options();
    let mut i: usize = 0;
    while i < n
        invariant
            i <= n == args@.len(),
            runner_outcome(texts(args@), 0, runner_defaults()) == runner_outcome(texts(args@), i as int, o@),
        decreases n - i,
    {
        let a = args[i].as_str();
        let ghost t = texts(args@);
        assert(t[i as int] == args@[i as int]@);
        let has_next: bool = n - i > 1;
        if has_next {
            assert(t[i + 1] == args@[i + 1]@);
        }
        if set_switch(&mut o, a) {
            i += 1;
            continue;
        }
        if let Some(f) = find_flag(a) {
            let v: Option<String> = if has_next {
                Some(args[i + 1].clone())
            } else {
                None
            };
            set_text(&mut o, f, v);
            if !has_next {
                return RunnerCommand::Run(o);
            }
            i += 2;
            continue;
        }
        if same_text(a, "--port") {
            o.port = if has_next {
                parse_port(args[i + 1].as_str())
            } else {
                None
            };
            if !has_next {
                return RunnerCommand::Run(o);
            }
            i += 2;
        } else if same_text(a, "--data-dir") {
            if !has_next {
                return RunnerCommand::Missing(args[i].clone());
            }
            o.data_dir = args[i + 1].clone();
            i += 2;
        } else if same_text(a, "--server-bin") {
            if !has_next {
                return RunnerCommand::Missing(args[i].clone());
            }
            o.server_bin = args[i + 1].clone();
            i += 2;
        } else if is_spelled(a, "--help", "-h") {
            return RunnerCommand::Help;
        } else {
            return RunnerCommand::Unknown(args[i].clone());
        }
    }
    RunnerCommand::Run(o)
}

// ---------------- the server under test ----------------

/// Where the server under test is found, and as whom.
pub struct Endpoint {
    pub host: String,
    pub port: u16,
    pub user: String,
    pub pass: String,
    pub share: String,
}

/// An endpoint as sequences.
pub struct EndpointView {
    pub host: Seq<char>,
    pub port: u16,
    pub user: Seq<char>,
    pub pass: Seq<char>,
    pub share: Seq<char>,
}

impl View for Endpoint {
    type V = EndpointView;

    open spec fn view(&self) -> EndpointView {
        EndpointView { host: self.host@, port: self.port, user: self.user@, pass: self.pass@, share: self.share@ }
    }
}

/// The endpoint that nothing else was said of.
pub open spec fn default_endpoint() -> EndpointView {
    EndpointView { host: "127.0.0.1"@, port: 445, user: "faraz"@, pass: "pass"@, share: "public"@ }
}

/// What was asked for, or else what stands there already.
pub open spec fn or_else(asked: Option<Seq<char>>, found: Seq<char>) -> Seq<char> {
    match asked {
        Some(s) => s,
        None => found,
    }
}

/// The endpoint of a run: the arguments go before the environment, and a server
/// that the run starts is on this host.
pub open spec fn endpoint_of(o: RunnerView, found: Option<EndpointView>) -> EndpointView {
    let e = match found {
        Some(e) => e,
        None => default_endpoint(),
    };
    EndpointView {
        host: if o.start_server {
            "127.0.0.1"@
        } else {
            or_else(o.host, e.host)
        },
        port: match o.port {
            Some(p) => p,
            None => e.port,
        },
        user: or_else(o.user, e.user),
        pass: or_else(o.pass, e.pass),
        share: or_else(o.share, e.share),
    }
}

fn asked_or(asked: &Option<String>, found: String) -> (r: String)
    ensures
        r@ == or_else(opt_text(*asked), found@),
{
    match asked {
        Some(s) => s.clone(),
        None => found,
    }
}

/// Finds out which server a run is against; `found` is what the environment says.
pub fn resolve_endpoint(o: &RunnerOptions, found: Option<Endpoint>) -> (e: Endpoint)
    ensures
        e@ == endpoint_of(
            o@,
            match found {
                Some(f) => Some(f@),
                None => None,
            },
        ),
{
    let e = match found {
        Some(e) => e,
        None => Endpoint {
            host: "127.0.0.1".to_owned(),
            port: 445,
            user: "faraz".to_owned(),
            pass: "pass".to_owned(),
            share: "public".to_owned(),
        },
    };
    let host = if o.start_server {
        "127.0.0.1".to_owned()
    } else {
        asked_or(&o.host, e.host)
    };
    let port: u16 = match o.port {
        Some(p) => p,
        None => e.port,
    };
    Endpoint {
        host,
        port,
        user: asked_or(&o.user, e.user),
        pass: asked_or(&o.pass, e.pass),
        share: asked_or(&o.share, e.share),
    }
}

/// How the driver of a run is started.
pub struct Driver {
    pub python: String,
    pub script: String,
}

/// Finds out how the driver is started; `found` is what the environment says.
pub fn resolve_driver(o: &RunnerOptions, found: Driver) -> (d: Driver)
    ensures
        d.python@ == or_else(o@.python, found.python@),
        d.script@ == or_else(o@.driver, found.script@),
{
    Driver { python: asked_or(&o.python, found.python), script: asked_or(&o.driver, found.script) }
}

proof fn lemma_first_at(s: Seq<char>, x: char, i: int)
    requires
        0 <= i,
    ensures
        match first_at(s, x, i) {
            Some(k) => i <= k < s.len() && s[k] == x && forall|j: int| i <= j < k ==> #[trigger] s[j] != x,
            None => forall|j: int| i <= j < s.len() ==> #[trigger] s[j] != x,
        },
    decreases s.len() - i,
{
    if i < s.len() && s[i] != x {
        lemma_first_at(s, x, i + 1);
    }
}

/// A pair is split at the first of the mark: what stands in front of it holds none, and
/// both parts with the mark between them are the whole.
pub proof fn law_pairs_are_split_at_the_first_mark(a: Seq<char>, x: char, b: Seq<char>)
    requires
        !a.contains(x),
    ensures
        split_at_first(a.push(x) + b, x) == Some((a, b)),
        split_at_first(a, x) is None,
{
    let s = a.push(x) + b;
    lemma_first_at(s, x, 0);
    assert(s[a.len() as int] == x);
    let i = first_at(s, x, 0)->0;
    if i < a.len() {
        assert(s[i] == a[i]);
        assert(a.contains(x));
    }
    assert(i == a.len());
    assert(s.subrange(0, i) =~= a);
    assert(s.subrange(i + 1, s.len() as int) =~= b);
    lemma_first_at(a, x, 0);
}

/// A share is published under the name in front of the first equals sign, from the path
/// behind it; a path alone is published as the public share, and so is the working
/// directory where nothing is asked for.
pub proof fn law_shares_asked_for(name: Seq<char>, path: Seq<char>, alone: Seq<char>, cwd: Seq<char>)
    requires
        !name.contains('='),
        !alone.contains('='),
    ensures
        share_spec(name.push('=') + path) == (name, path),
        share_spec(alone) == ("public"@, alone),
        shares_asked(Seq::empty(), cwd) == seq![("public"@, cwd)],
{
    law_pairs_are_split_at_the_first_mark(name, '=', path);
    law_pairs_are_split_at_the_first_mark(alone, '=', path);
}

/// An account that is asked for is known under its name in lower case, with the password
/// behind the first colon, unless a later one of that name replaces it.
pub proof fn law_accounts_asked_for(specs: Seq<Seq<char>>, user: Seq<char>, password: Seq<char>)
    requires
        specs.len() > 0,
        !user.contains(':'),
        specs.last() == user.push(':') + password,
    ensures
        ({
            let m = user_table(specs, specs.len() as int);
            m.dom().contains(lowercase(user)) && m[lowercase(user)] == password
        }),
{
    law_pairs_are_split_at_the_first_mark(user, ':', password);
}

/// An option takes the value behind it, and what stands behind that is read with it: the
/// port, a share, an account. Help ends it all.
#[verifier::rlimit(40)]
#[verifier::spinoff_prover]
pub proof fn law_options_take_their_values(args: Seq<Seq<char>>, i: int, o: ServerOptionsView)
    requires
        0 <= i,
        i + 1 < args.len(),
    ensures
        args[i] == "--share"@ ==> server_options(args, i, o) == server_options(
            args,
            i + 2,
            ServerOptionsView { shares: o.shares.push(args[i + 1]), ..o },
        ),
        args[i] == "--user"@ ==> server_options(args, i, o) == server_options(
            args,
            i + 2,
            ServerOptionsView { users: o.users.push(args[i + 1]), ..o },
        ),
        args[i] == "--port"@ && port_of(args[i + 1]) is Some ==> server_options(args, i, o) == server_options(
            args,
            i + 2,
            ServerOptionsView { port: port_of(args[i + 1])->0, ..o },
        ),
        args[i] == "--help"@ ==> server_options(args, i, o) is None,
        server_options(args, args.len() as int, o) == Some(o),
        no_options().port == 4450,
{
    reveal_strlit("--share");
    reveal_strlit("-s");
    reveal_strlit("--user");
    reveal_strlit("-u");
    reveal_strlit("--port");
    reveal_strlit("-p");
    reveal_strlit("--help");
    reveal_strlit("-h");
    assert("--share"@.len() == 7 && "--user"@.len() == 6 && "--port"@.len() == 6 && "--help"@.len() == 6);
    assert("--user"@[2] == 'u' && "--port"@[2] == 'p' && "--help"@[2] == 'h');
    assert("-s"@.len() == 2 && "-u"@.len() == 2 && "-p"@.len() == 2);
}

/// A run is against the server that the arguments name, before what the environment says;
/// one that the run starts is on this host.
pub proof fn law_arguments_go_first(o: RunnerView, found: Option<EndpointView>)
    ensures
        ({
            let e = endpoint_of(o, found);
            &&& o.start_server ==> e.host == "127.0.0.1"@
            &&& !o.start_server && o.host is Some ==> e.host == o.host->0
            &&& o.port is Some ==> e.port == o.port->0
            &&& o.user is Some ==> e.user == o.user->0
            &&& o.pass is Some ==> e.pass == o.pass->0
            &&& o.share is Some ==> e.share == o.share->0
            &&& found matches Some(f) ==> {
                &&& o.port is None ==> e.port == f.port
                &&& o.user is None ==> e.user == f.user
                &&& o.pass is None ==> e.pass == f.pass
                &&& o.share is None ==> e.share == f.share
                &&& !o.start_server && o.host is None ==> e.host == f.host
            }
        }),
{
}

} // verus!
