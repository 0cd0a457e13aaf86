//! Reports in JSON: the answers of the results dashboard.
use vstd::prelude::*;
use crate::text::{chars_of, same_text, text_of, texts};
use crate::wildcard::{sort_texts, texts_sorted};

verus! {

// ---------------- numbers ----------------

/// The character of a digit.
pub open spec fn digit(d: nat) -> char {
    (48 + d) as char
}

/// A number in decimal.
pub open spec fn decimal(n: nat) -> Seq<char>
    decreases n,
{
    if n < 10 {
        seq![digit(n)]
    } else {
        decimal(n / 10).push(digit(n % 10))
    }
}

fn digit_char(d: u128) -> (c: char)
    requires
        d < 10,
    ensures
        c == digit(d as nat),
{
    if d == 0 {
        '0'
    } else if d == 1 {
        '1'
    } else if d == 2 {
        '2'
    } else if d == 3 {
        '3'
    } else if d == 4 {
        '4'
    } else if d == 5 {
        '5'
    } else if d == 6 {
        '6'
    } else if d == 7 {
        '7'
    } else if d == 8 {
        '8'
    } else {
        '9'
    }
}

/// Appends a number in decimal.
pub fn put_number(out: &mut Vec<char>, n: u128)
    ensures
        final(out)@ == old(out)@ + decimal(n as nat),
    decreases n,
{
    if n < 10 {
        out.push(digit_char(n));
        assert(out@ =~= old(out)@ + decimal(n as nat));
    } else {
        put_number(out, n / 10);
        out.push(digit_char(n % 10));
        assert(out@ =~= old(out)@ + decimal(n as nat));
    }
}

/// Appends a text.
pub fn put_text(out: &mut Vec<char>, s: &str)
    ensures
        final(out)@ == old(out)@ + s@,
{
    let mut c = chars_of(s);
    out.append(&mut c);
}

// ---------------- strings ----------------

/// The character of a hexadecimal digit.
pub open spec fn hex_digit(d: nat) -> char {
    if d < 10 {
        digit(d)
    } else {
        (87 + d) as char
    }
}

/// A character inside a string.
pub open spec fn escaped(c: char) -> Seq<char> {
    if c == '"' {
        seq!['\\', '"']
    } else if c == '\\' {
        seq!['\\', '\\']
    } else if c == '\n' {
        seq!['\\', 'n']
    } else if c == '\r' {
        seq!['\\', 'r']
    } else if c == '\t' {
        seq!['\\', 't']
    } else if (c as int) < 0x20 {
        seq!['\\', 'u', '0', '0', hex_digit((c as int / 16) as nat), hex_digit((c as int % 16) as nat)]
    } else {
        seq![c]
    }
}

/// The first `n` characters of a text inside a string.
pub open spec fn escaped_text(s: Seq<char>, n: int) -> Seq<char>
    decreases n,
{
    if n <= 0 {
        Seq::empty()
    } else {
        escaped_text(s, n - 1) + escaped(s[n - 1])
    }
}

/// A text as a string.
pub open spec fn quoted(s: Seq<char>) -> Seq<char> {
    seq!['"'] + escaped_text(s, s.len() as int) + seq!['"']
}

fn hex_char(d: u32) -> (c: char)
    requires
        d < 16,
    ensures
        c == hex_digit(d as nat),
{
    if d < 10 {
        digit_char(d as u128)
    } else if d == 10 {
        'a'
    } else if d == 11 {
        'b'
    } else if d == 12 {
        'c'
    } else if d == 13 {
        'd'
    } else if d == 14 {
        'e'
    } else {
        'f'
    }
}

fn put_escaped(out: &mut Vec<char>, c: char)
    ensures
        final(out)@ == old(out)@ + escaped(c),
{
    if c == '"' {
        out.push('\\');
        out.push('"');
    } else if c == '\\' {
        out.push('\\');
        out.push('\\');
    } else if c == '\n' {
        out.push('\\');
        out.push('n');
    } else if c == '\r' {
        out.push('\\');
        out.push('r');
    } else if c == '\t' {
        out.push('\\');
        out.push('t');
    } else {
        proof {
            crate::text::lemma_char_is_scalar(c);
        }
        let u: u32 = c as u32;
        if u < 0x20 {
            out.push('\\');
            out.push('u');
            out.push('0');
            out.push('0');
            out.push(hex_char(u / 16));
            out.push(hex_char(u % 16));
        } else {
            out.push(c);
        }
    }
    assert(out@ =~= old(out)@ + escaped(c));
}

fn put_quoted(out: &mut Vec<char>, s: &str)
    ensures
        final(out)@ == old(out)@ + quoted(s@),
{
    let c = chars_of(s);
    let n: usize = c.len();
    out.push('"');
    let ghost start = out@;
    let mut i: usize = 0;
    assert(out@ =~= start + escaped_text(s@, 0));
    while i < n
        invariant
            i <= n == c@.len(),
            c@ == s@,
            out@ == start + escaped_text(s@, i as int),
        decreases n - i,
    {
        put_escaped(out, c[i]);
        assert(out@ =~= start + escaped_text(s@, i + 1));
        i += 1;
    }
    out.push('"');
    assert(out@ =~= old(out)@ + quoted(s@));
}

/// A text as a string.
pub fn quote(s: &str) -> (r: String)
    ensures
        r@ == quoted(s@),
{
    let mut out: Vec<char> = Vec::new();
    put_quoted(&mut out, s);
    assert(out@ =~= quoted(s@));
    text_of(out.as_slice())
}

/// Whether a character is a control character.
pub open spec fn is_control(c: char) -> bool {
    (c as int) < 0x20
}

/// No control character stands in a string.
pub proof fn law_quoted_is_printable(s: Seq<char>, k: int)
    requires
        0 <= k < quoted(s).len(),
    ensures
        !is_control(quoted(s)[k]),
{
    lemma_escaped_printable(s, s.len() as int);
    let e = escaped_text(s, s.len() as int);
    if 0 < k <= e.len() {
        assert(quoted(s)[k] == e[k - 1]);
    }
}

proof fn lemma_escape_printable(c: char)
    ensures
        forall|k: int| 0 <= k < escaped(c).len() ==> !is_control(#[trigger] escaped(c)[k]),
{
    crate::text::lemma_char_is_scalar(c);
    let e = escaped(c);
    if is_control(c) && e.len() == 6 {
        let hi = (c as int / 16) as nat;
        let lo = (c as int % 16) as nat;
        assert(hi < 2 && lo < 16);
        assert(hex_digit(hi) as int == 48 + hi);
        assert(hex_digit(lo) as int == 48 + lo || hex_digit(lo) as int == 87 + lo);
        assert(e[4] == hex_digit(hi) && e[5] == hex_digit(lo));
        assert(e[0] == '\\' && e[1] == 'u' && e[2] == '0' && e[3] == '0');
        assert forall|k: int| 0 <= k < e.len() implies !is_control(#[trigger] e[k]) by {
            assert(k == 0 || k == 1 || k == 2 || k == 3 || k == 4 || k == 5);
        }
    }
}

proof fn lemma_escaped_printable(s: Seq<char>, n: int)
    requires
        n <= s.len(),
    ensures
        forall|k: int| 0 <= k < escaped_text(s, n).len() ==> !is_control(#[trigger] escaped_text(s, n)[k]),
    decreases n,
{
    if n > 0 {
        lemma_escaped_printable(s, n - 1);
        lemma_escape_printable(s[n - 1]);
        let a = escaped_text(s, n - 1);
        let b = escaped(s[n - 1]);
        assert forall|k: int| 0 <= k < escaped_text(s, n).len() implies !is_control(#[trigger] escaped_text(s, n)[k]) by {
            if k < a.len() {
                assert(escaped_text(s, n)[k] == a[k]);
            } else {
                assert(escaped_text(s, n)[k] == b[k - a.len()]);
            }
        }
    }
}

// ---------------- rows ----------------

/// One test result.
#[derive(Debug)]
pub struct TestRow {
    pub suite: String,
    pub name: String,
    pub category: String,
    /// "pass", "fail", "skip", or anything else.
    pub status: String,
    pub duration_ms: u64,
    pub timestamp: String,
    pub commit: String,
}

/// Counts over all results.
#[derive(Clone, Copy, Debug)]
pub struct Summary {
    pub total: usize,
    pub passed: usize,
    pub failed: usize,
    pub skipped: usize,
    pub unknown: usize,
}

/// A result as an object.
pub open spec fn row_text(r: TestRow) -> Seq<char> {
    "{\"suite\":"@ + quoted(r.suite@) + ",\"name\":"@ + quoted(r.name@) + ",\"category\":"@ + quoted(r.category@)
        + ",\"status\":"@ + quoted(r.status@) + ",\"duration_ms\":"@ + decimal(r.duration_ms as nat) + ",\"timestamp\":"@
        + quoted(r.timestamp@) + ",\"commit\":"@ + quoted(r.commit@) + "}"@
}

fn put_row(out: &mut Vec<char>, r: &TestRow)
    ensures
        final(out)@ == old(out)@ + row_text(*r),
{
    let mut v: Vec<char> = Vec::new();
    put_text(&mut v, "{\"suite\":");
    assert(v@ =~= "{\"suite\":"@);
    put_quoted(&mut v, r.suite.as_str());
    put_text(&mut v, ",\"name\":");
    put_quoted(&mut v, r.name.as_str());
    put_text(&mut v, ",\"category\":");
    put_quoted(&mut v, r.category.as_str());
    put_text(&mut v, ",\"status\":");
    put_quoted(&mut v, r.status.as_str());
    put_text(&mut v, ",\"duration_ms\":");
    put_number(&mut v, r.duration_ms as u128);
    put_text(&mut v, ",\"timestamp\":");
    put_quoted(&mut v, r.timestamp.as_str());
    put_text(&mut v, ",\"commit\":");
    put_quoted(&mut v, r.commit.as_str());
    put_text(&mut v, "}");
    out.append(&mut v);
}

/// The first `n` results, with commas between them.
pub open spec fn rows_text(rows: Seq<TestRow>, n: int) -> Seq<char>
    decreases n,
{
    if n <= 0 {
        Seq::empty()
    } else if n == 1 {
        row_text(rows[0])
    } else {
        rows_text(rows, n - 1) + ","@ + row_text(rows[n - 1])
    }
}

/// The answer with all results.
pub fn tests_body(rows: &[TestRow]) -> (r: String)
    ensures
        r@ == "["@ + rows_text(rows@, rows@.len() as int) + "]"@,
{
    let n: usize = rows.len();
    let mut out: Vec<char> = Vec::new();
    put_text(&mut out, "[");
    assert(out@ =~= "["@ + rows_text(rows@, 0));
    let mut i: usize = 0;
    while i < n
        invariant
            i <= n == rows@.len(),
            out@ == "["@ + rows_text(rows@, i as int),
        decreases n - i,
    {
        if i > 0 {
            put_text(&mut out, ",");
        }
        put_row(&mut out, &rows[i]);
        assert(out@ =~= "["@ + rows_text(rows@, i + 1));
        i += 1;
    }
    put_text(&mut out, "]");
    text_of(out.as_slice())
}

// ---------------- breakdown ----------------

/// What results are grouped by.
#[derive(Clone, Copy, PartialEq, Eq, Structural, Debug)]
pub enum Field {
    Suite,
    Category,
}

/// The group of a result.
pub open spec fn group_of(r: TestRow, f: Field) -> Seq<char> {
    match f {
        Field::Suite => r.suite@,
        Field::Category => r.category@,
    }
}

/// How a result counts.
#[derive(Clone, Copy, PartialEq, Eq, Structural, Debug)]
pub enum Class {
    Passed,
    Failed,
    Skipped,
    Unknown,
}

/// How a status counts.
pub open spec fn class_of(status: Seq<char>) -> Class {
    if status == "pass"@ {
        Class::Passed
    } else if status == "fail"@ {
        Class::Failed
    } else if status == "skip"@ {
        Class::Skipped
    } else {
        Class::Unknown
    }
}

/// How many of the first `n` results are of a group and count in a way.
pub open spec fn tally(rows: Seq<TestRow>, n: int, f: Field, name: Seq<char>, c: Class) -> nat
    decreases n,
{
    if n <= 0 {
        0
    } else {
        tally(rows, n - 1, f, name, c) + (if group_of(rows[n - 1], f) == name && class_of(rows[n - 1].status@) == c {
            1nat
        } else {
            0nat
        })
    }
}

/// A group as an object.
pub open spec fn group_text(rows: Seq<TestRow>, f: Field, label: Seq<char>, name: Seq<char>) -> Seq<char> {
    let n = rows.len() as int;
    let p = tally(rows, n, f, name, Class::Passed);
    let d = tally(rows, n, f, name, Class::Failed);
    let s = tally(rows, n, f, name, Class::Skipped);
    let u = tally(rows, n, f, name, Class::Unknown);
    "{\""@ + label + "\":"@ + quoted(name) + ",\"passed\":"@ + decimal(p) + ",\"failed\":"@ + decimal(d) + ",\"skipped\":"@
        + decimal(s) + ",\"unknown\":"@ + decimal(u) + ",\"total\":"@ + decimal(p + d + s + u) + "}"@
}

/// The first `k` groups, with commas between them.
pub open spec fn groups_text(rows: Seq<TestRow>, f: Field, label: Seq<char>, names: Seq<Seq<char>>, k: int) -> Seq<char>
    decreases k,
{
    if k <= 0 {
        Seq::empty()
    } else if k == 1 {
        group_text(rows, f, label, names[0])
    } else {
        groups_text(rows, f, label, names, k - 1) + ","@ + group_text(rows, f, label, names[k - 1])
    }
}

/// Whether these are the groups of the results: each once, in order.
pub open spec fn are_groups(rows: Seq<TestRow>, f: Field, names: Seq<Seq<char>>) -> bool {
    &&& texts_sorted(names)
    &&& names.no_duplicates()
    &&& forall|x: Seq<char>| #[trigger] names.contains(x) <==> in_group(rows, rows.len() as int, f, x)
}

/// Whether one of the first `n` results is of a group.
pub open spec fn in_group(rows: Seq<TestRow>, n: int, f: Field, x: Seq<char>) -> bool {
    exists|i: int| 0 <= i < n && group_of(#[trigger] rows[i], f) == x
}

/// Whether a text is the breakdown of results.
pub open spec fn is_breakdown(rows: Seq<TestRow>, f: Field, label: Seq<char>, t: Seq<char>) -> bool {
    exists|names: Seq<Seq<char>>|
        #[trigger] are_groups(rows, f, names) && t == groups_text(rows, f, label, names, names.len() as int)
}

fn group_name(r: &TestRow, f: Field) -> (n: String)
    ensures
        n@ == group_of(*r, f),
{
    match f {
        Field::Suite => r.suite.clone(),
        Field::Category => r.category.clone(),
    }
}

fn class_name(status: &str) -> (c: Class)
    ensures
        c == class_of(status@),
{
    if same_text(status, "pass") {
        Class::Passed
    } else if same_text(status, "fail") {
        Class::Failed
    } else if same_text(status, "skip") {
        Class::Skipped
    } else {
        Class::Unknown
    }
}

fn holds_name(names: &Vec<String>, n: &str) -> (r: bool)
    ensures
        r == texts(names@).contains(n@),
{
    let len: usize = names.len();
    let mut i: usize = 0;
    while i < len
        invariant
            i <= len == names@.len(),
            forall|k: int| 0 <= k < i ==> (#[trigger] names@[k])@ != n@,
        decreases len - i,
    {
        if same_text(names[i].as_str(), n) {
            assert(texts(names@)[i as int] == n@);
            return true;
        }
        i += 1;
    }
    assert forall|k: int| 0 <= k < texts(names@).len() implies texts(names@)[k] != n@ by {
        assert(names@[k]@ != n@);
    }
    false
}

fn distinct_names(rows: &[TestRow], f: Field) -> (names: Vec<String>)
    ensures
        texts(names@).no_duplicates(),
        forall|x: Seq<char>| #[trigger] texts(names@).contains(x) <==> in_group(rows@, rows@.len() as int, f, x),
{
    let n: usize = rows.len();
    let mut names: Vec<String> = Vec::new();
    let mut i: usize = 0;
    while i < n
        invariant
            i <= n == rows@.len(),
            texts(names@).no_duplicates(),
            forall|x: Seq<char>| #[trigger] texts(names@).contains(x) <==> in_group(rows@, i as int, f, x),
        decreases n - i,
    {
        let name = group_name(&rows[i], f);
        let ghost before = texts(names@);
        if !holds_name(&names, name.as_str()) {
            names.push(name);
            proof {
                assert(texts(names@) =~= before.push(name@));
                assert forall|x: Seq<char>| #[trigger] texts(names@).contains(x) implies in_group(
                    rows@,
                    i + 1,
                    f,
                    x,
                ) by {
                    let k = choose|k: int| 0 <= k < texts(names@).len() && texts(names@)[k] == x;
                    if k < before.len() {
                        assert(before[k] == x);
                        assert(before.contains(x));
                        assert(in_group(rows@, i as int, f, x));
                    } else {
                        assert(group_of(rows@[i as int], f) == x);
                    }
                }
                assert forall|x: Seq<char>| in_group(rows@, i + 1, f, x) implies #[trigger] texts(names@).contains(x) by {
                    if x == name@ {
                        assert(texts(names@)[before.len() as int] == x);
                    } else {
                        assert(in_group(rows@, i as int, f, x));
                        assert(before.contains(x));
                        let k = choose|k: int| 0 <= k < before.len() && before[k] == x;
                        assert(texts(names@)[k] == x);
                    }
                }
            }
        } else {
            proof {
                assert forall|x: Seq<char>| in_group(rows@, i + 1, f, x) implies #[trigger] texts(names@).contains(x) by {
                    if x != name@ {
                        assert(in_group(rows@, i as int, f, x));
                    }
                }
            }
        }
        i += 1;
    }
    names
}

proof fn lemma_sorted_names(a: Seq<Seq<char>>, b: Seq<Seq<char>>)
    requires
        a.to_multiset() == b.to_multiset(),
        a.no_duplicates(),
    ensures
        b.no_duplicates(),
        forall|x: Seq<char>| #[trigger] b.contains(x) <==> a.contains(x),
{
    broadcast use vstd::seq_lib::group_to_multiset_ensures;

    a.lemma_multiset_has_no_duplicates();
    b.lemma_multiset_has_no_duplicates_conv();
    assert forall|x: Seq<char>| #[trigger] b.contains(x) <==> a.contains(x) by {
        assert(a.contains(x) <==> a.to_multiset().count(x) > 0);
        assert(b.contains(x) <==> b.to_multiset().count(x) > 0);
    }
}

proof fn lemma_tally_bound(rows: Seq<TestRow>, n: int, f: Field, x: Seq<char>)
    requires
        0 <= n,
    ensures
        tally(rows, n, f, x, Class::Passed) + tally(rows, n, f, x, Class::Failed) + tally(rows, n, f, x, Class::Skipped)
            + tally(rows, n, f, x, Class::Unknown) <= n,
    decreases n,
{
    if n > 0 {
        lemma_tally_bound(rows, n - 1, f, x);
    }
}

fn count_class(rows: &[TestRow], f: Field, name: &str, c: Class) -> (k: usize)
    ensures
        k == tally(rows@, rows@.len() as int, f, name@, c),
{
    let n: usize = rows.len();
    let mut k: usize = 0;
    let mut i: usize = 0;
    while i < n
        invariant
            i <= n == rows@.len(),
            k == tally(rows@, i as int, f, name@, c),
            k <= i,
        decreases n - i,
    {
        let g = group_name(&rows[i], f);
        if same_text(g.as_str(), name) && class_name(rows[i].status.as_str()) == c {
            k += 1;
        }
        i += 1;
    }
    k
}

fn put_group(out: &mut Vec<char>, rows: &[TestRow], f: Field, label: &str, name: &str)
    ensures
        final(out)@ == old(out)@ + group_text(rows@, f, label@, name@),
{
    let p: usize = count_class(rows, f, name, Class::Passed);
    let d: usize = count_class(rows, f, name, Class::Failed);
    let s: usize = count_class(rows, f, name, Class::Skipped);
    let u: usize = count_class(rows, f, name, Class::Unknown);
    proof {
        lemma_tally_bound(rows@, rows@.len() as int, f, name@);
    }
    let mut v: Vec<char> = Vec::new();
    put_text(&mut v, "{\"");
    assert(v@ =~= "{\""@);
    put_text(&mut v, label);
    put_text(&mut v, "\":");
    put_quoted(&mut v, name);
    put_text(&mut v, ",\"passed\":");
    put_number(&mut v, p as u128);
    put_text(&mut v, ",\"failed\":");
    put_number(&mut v, d as u128);
    put_text(&mut v, ",\"skipped\":");
    put_number(&mut v, s as u128);
    put_text(&mut v, ",\"unknown\":");
    put_number(&mut v, u as u128);
    put_text(&mut v, ",\"total\":");
    put_number(&mut v, p as u128 + d as u128 + s as u128 + u as u128);
    put_text(&mut v, "}");
    out.append(&mut v);
}

/// Counts results by suite or by category: one object for each group, in order of the
/// groups' names.
pub fn breakdown(rows: &[TestRow], f: Field, label: &str) -> (t: Vec<char>)
    ensures
        is_breakdown(rows@, f, label@, t@),
{
    let found = distinct_names(rows, f);
    let names = sort_texts(&found);
    proof {
        lemma_sorted_names(texts(found@), texts(names@));
    }
    assert(are_groups(rows@, f, texts(names@)));
    let n: usize = names.len();
    let mut out: Vec<char> = Vec::new();
    assert(out@ =~= groups_text(rows@, f, label@, texts(names@), 0));
    let mut i: usize = 0;
    while i < n
        invariant
            i <= n == names@.len(),
            out@ == groups_text(rows@, f, label@, texts(names@), i as int),
        decreases n - i,
    {
        if i > 0 {
            put_text(&mut out, ",");
        }
        put_group(&mut out, rows, f, label, names[i].as_str());
        assert(texts(names@)[i as int] == names@[i as int]@);
        assert(out@ =~= groups_text(rows@, f, label@, texts(names@), i + 1));
        i += 1;
    }
    assert(texts(names@).len() == n);
    out
}

/// The answer with the counts over all results, `suites` and `categories` being the
/// breakdowns.
pub open spec fn status_text(s: Summary, suites: Seq<char>, categories: Seq<char>) -> Seq<char> {
    "{\"total\":"@ + decimal(s.total as nat) + ",\"passed\":"@ + decimal(s.passed as nat) + ",\"failed\":"@ + decimal(
        s.failed as nat,
    ) + ",\"skipped\":"@ + decimal(s.skipped as nat) + ",\"unknown\":"@ + decimal(s.unknown as nat) + ",\"suites\":["@
        + suites + "],\"categories\":["@ + categories + "]}"@
}

/// The answer with the counts over all results and the breakdowns by suite and by
/// category.
pub fn status_body(rows: &[TestRow], summary: &Summary) -> (r: String)
    ensures
        exists|a: Seq<char>, b: Seq<char>|
            #![trigger status_text(*summary, a, b)]
            is_breakdown(rows@, Field::Suite, "suite"@, a) && is_breakdown(rows@, Field::Category, "category"@, b) && r@
                == status_text(*summary, a, b),
{
    let mut suites = breakdown(rows, Field::Suite, "suite");
    let mut categories = breakdown(rows, Field::Category, "category");
    let ghost a = suites@;
    let ghost b = categories@;
    let mut v: Vec<char> = Vec::new();
    put_text(&mut v, "{\"total\":");
    assert(v@ =~= "{\"total\":"@);
    put_number(&mut v, summary.total as u128);
    put_text(&mut v, ",\"passed\":");
    put_number(&mut v, summary.passed as u128);
    put_text(&mut v, ",\"failed\":");
    put_number(&mut v, summary.failed as u128);
    put_text(&mut v, ",\"skipped\":");
    put_number(&mut v, summary.skipped as u128);
    put_text(&mut v, ",\"unknown\":");
    put_number(&mut v, summary.unknown as u128);
    put_text(&mut v, ",\"suites\":[");
    v.append(&mut suites);
    put_text(&mut v, "],\"categories\":[");
    v.append(&mut categories);
    put_text(&mut v, "]}");
    assert(v@ == status_text(*summary, a, b));
    text_of(v.as_slice())
}

} // verus!
