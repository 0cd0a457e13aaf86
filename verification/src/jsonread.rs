//! What the dashboard's reports say when they are read as JSON.
use vstd::prelude::*;
use crate::json::{decimal, digit, escaped, escaped_text, hex_digit, is_control, quoted, row_text, rows_text, TestRow};
use crate::text::{is_scalar, lemma_char_is_scalar};

verus! {

/// A value inside an object.
pub enum Scalar {
    Text(Seq<char>),
    Number(nat),
}

/// The value of a hexadecimal digit.
pub open spec fn hex_value(c: char) -> Option<int> {
    let u = c as int;
    if 48 <= u <= 57 {
        Some(u - 48)
    } else if 97 <= u <= 102 {
        Some(u - 87)
    } else if 65 <= u <= 70 {
        Some(u - 55)
    } else {
        None
    }
}

/// The character that four hexadecimal digits at `i` number.
pub open spec fn numbered(s: Seq<char>, i: int) -> Option<char> {
    if i + 4 > s.len() {
        None
    } else {
        match (hex_value(s[i]), hex_value(s[i + 1]), hex_value(s[i + 2]), hex_value(s[i + 3])) {
            (Some(a), Some(b), Some(c), Some(d)) => {
                let u = ((a * 16 + b) * 16 + c) * 16 + d;
                if is_scalar(u) {
                    Some(u as char)
                } else {
                    None
                }
            },
            _ => None,
        }
    }
}

/// The character at `i` inside a string, and where the next one stands.
pub open spec fn read_char(s: Seq<char>, i: int) -> Option<(char, int)> {
    if i < 0 || i >= s.len() || is_control(s[i]) {
        None
    } else if s[i] != '\\' {
        Some((s[i], i + 1))
    } else if i + 1 >= s.len() {
        None
    } else {
        let e = s[i + 1];
        if e == '"' || e == '\\' || e == '/' {
            Some((e, i + 2))
        } else if e == 'n' {
            Some(('\n', i + 2))
        } else if e == 'r' {
            Some(('\r', i + 2))
        } else if e == 't' {
            Some(('\t', i + 2))
        } else if e == 'b' {
            Some(('\x08', i + 2))
        } else if e == 'f' {
            Some(('\x0C', i + 2))
        } else if e == 'u' {
            match numbered(s, i + 2) {
                Some(c) => Some((c, i + 6)),
                None => None,
            }
        } else {
            None
        }
    }
}

/// The rest of a string from `i` on, and where its reader stops: behind the quote.
pub open spec fn read_chars(s: Seq<char>, i: int) -> Option<(Seq<char>, int)>
    decreases s.len() - i,
{
    if i < 0 || i >= s.len() {
        None
    } else if s[i] == '"' {
        Some((Seq::empty(), i + 1))
    } else {
        match read_char(s, i) {
            Some((c, j)) => match read_chars(s, j) {
                Some((t, k)) => Some((seq![c] + t, k)),
                None => None,
            },
            None => None,
        }
    }
}

/// The string at `i`.
pub open spec fn read_text(s: Seq<char>, i: int) -> Option<(Seq<char>, int)> {
    if 0 <= i < s.len() && s[i] == '"' {
        read_chars(s, i + 1)
    } else {
        None
    }
}

/// Whether a character is a decimal digit.
pub open spec fn is_digit(c: char) -> bool {
    48 <= c as int <= 57
}

/// The number whose digits before `i` make `n`, and where its reader stops.
pub open spec fn read_digits(s: Seq<char>, i: int, n: nat) -> (nat, int)
    decreases s.len() - i,
{
    if 0 <= i < s.len() && is_digit(s[i]) {
        read_digits(s, i + 1, (n * 10 + (s[i] as int - 48)) as nat)
    } else {
        (n, i)
    }
}

/// The value at `i`.
pub open spec fn read_scalar(s: Seq<char>, i: int) -> Option<(Scalar, int)> {
    if 0 <= i < s.len() && is_digit(s[i]) {
        let (n, j) = read_digits(s, i, 0);
        Some((Scalar::Number(n), j))
    } else {
        match read_text(s, i) {
            Some((t, j)) => Some((Scalar::Text(t), j)),
            None => None,
        }
    }
}

/// The member at `i`: name, colon and value.
pub open spec fn read_member(s: Seq<char>, i: int) -> Option<((Seq<char>, Scalar), int)> {
    match read_text(s, i) {
        Some((name, j)) => if 0 <= j < s.len() && s[j] == ':' {
            match read_scalar(s, j + 1) {
                Some((v, k)) => Some(((name, v), k)),
                None => None,
            }
        } else {
            None
        },
        None => None,
    }
}

/// The members from `i` on up to the closing brace.
pub open spec fn read_members(s: Seq<char>, i: int) -> Option<(Seq<(Seq<char>, Scalar)>, int)>
    decreases s.len() - i,
{
    match read_member(s, i) {
        Some((m, j)) => if i <= j < s.len() && s[j] == '}' {
            Some((seq![m], j + 1))
        } else if i <= j < s.len() && s[j] == ',' {
            match read_members(s, j + 1) {
                Some((rest, k)) => Some((seq![m] + rest, k)),
                None => None,
            }
        } else {
            None
        },
        None => None,
    }
}

/// The object at `i`, which has a member.
pub open spec fn read_object(s: Seq<char>, i: int) -> Option<(Seq<(Seq<char>, Scalar)>, int)> {
    if 0 <= i < s.len() && s[i] == '{' {
        read_members(s, i + 1)
    } else {
        None
    }
}

/// The objects from `i` on up to the closing bracket.
pub open spec fn read_objects(s: Seq<char>, i: int) -> Option<(Seq<Seq<(Seq<char>, Scalar)>>, int)>
    decreases s.len() - i,
{
    match read_object(s, i) {
        Some((o, j)) => if i <= j < s.len() && s[j] == ']' {
            Some((seq![o], j + 1))
        } else if i <= j < s.len() && s[j] == ',' {
            match read_objects(s, j + 1) {
                Some((rest, k)) => Some((seq![o] + rest, k)),
                None => None,
            }
        } else {
            None
        },
        None => None,
    }
}

/// The list of objects that a text is.
pub open spec fn read_list(s: Seq<char>) -> Option<Seq<Seq<(Seq<char>, Scalar)>>> {
    if s.len() < 2 || s[0] != '[' {
        None
    } else if s[1] == ']' {
        if s.len() == 2 {
            Some(Seq::empty())
        } else {
            None
        }
    } else {
        match read_objects(s, 1) {
            Some((v, k)) => if k == s.len() {
                Some(v)
            } else {
                None
            },
            None => None,
        }
    }
}

/// The members of the object that stands for a result.
pub open spec fn row_members(r: TestRow) -> Seq<(Seq<char>, Scalar)> {
    seq![
        ("suite"@, Scalar::Text(r.suite@)),
        ("name"@, Scalar::Text(r.name@)),
        ("category"@, Scalar::Text(r.category@)),
        ("status"@, Scalar::Text(r.status@)),
        ("duration_ms"@, Scalar::Number(r.duration_ms as nat)),
        ("timestamp"@, Scalar::Text(r.timestamp@)),
        ("commit"@, Scalar::Text(r.commit@)),
    ]
}

// ---------------- proofs ----------------

/// Whether `p` stands at `i` in `s`.
spec fn text_at(s: Seq<char>, p: Seq<char>, i: int) -> bool {
    0 <= i && i + p.len() <= s.len() && s.subrange(i, i + p.len()) == p
}

proof fn lemma_at_split(s: Seq<char>, a: Seq<char>, b: Seq<char>, i: int)
    requires
        text_at(s, a + b, i),
    ensures
        text_at(s, a, i),
        text_at(s, b, i + a.len()),
{
    let p = a + b;
    assert forall|k: int| 0 <= k < p.len() implies s[i + k] == p[k] by {
        assert(s.subrange(i, i + p.len())[k] == s[i + k]);
    }
    assert(s.subrange(i, i + a.len()) =~= a) by {
        assert forall|k: int| 0 <= k < a.len() implies s[i + k] == a[k] by {
            assert(p[k] == a[k]);
        }
    }
    assert(s.subrange(i + a.len(), i + a.len() + b.len()) =~= b) by {
        assert forall|k: int| 0 <= k < b.len() implies s[i + a.len() + k] == b[k] by {
            assert(p[a.len() + k] == b[k]);
            assert(s[i + (a.len() + k)] == p[a.len() + k]);
        }
    }
}

proof fn lemma_at_char(s: Seq<char>, p: Seq<char>, i: int, k: int)
    requires
        text_at(s, p, i),
        0 <= k < p.len(),
    ensures
        i + k < s.len(),
        s[i + k] == p[k],
{
    assert(s.subrange(i, i + p.len())[k] == s[i + k]);
}

proof fn lemma_read_escaped(s: Seq<char>, c: char, i: int)
    requires
        text_at(s, escaped(c), i),
    ensures
        read_char(s, i) == Some((c, i + escaped(c).len())),
        s[i] != '"',
{
    let e = escaped(c);
    lemma_char_is_scalar(c);
    lemma_at_char(s, e, i, 0);
    if e.len() > 1 {
        lemma_at_char(s, e, i, 1);
    }
    if e.len() == 6 {
        lemma_at_char(s, e, i, 2);
        lemma_at_char(s, e, i, 3);
        lemma_at_char(s, e, i, 4);
        lemma_at_char(s, e, i, 5);
        let hi = (c as int / 16) as nat;
        let lo = (c as int % 16) as nat;
        assert(hi < 2 && lo < 16);
        assert(hex_digit(hi) as int == 48 + hi);
        assert(hex_digit(lo) as int == 48 + lo || hex_digit(lo) as int == 87 + lo);
        assert(hex_value('0') == Some(0int));
        assert(hex_value(hex_digit(hi)) == Some(hi as int));
        assert(hex_value(hex_digit(lo)) == Some(lo as int));
        assert(hi * 16 + lo == c as int);
        assert((c as int) as char == c);
        assert(numbered(s, i + 2) == Some(c));
    }
}

/// The characters of `t` from `k` on inside a string.
spec fn escaped_from(t: Seq<char>, k: int) -> Seq<char>
    decreases t.len() - k,
{
    if k < 0 || k >= t.len() {
        Seq::empty()
    } else {
        escaped(t[k]) + escaped_from(t, k + 1)
    }
}

proof fn lemma_escaped_from(t: Seq<char>, k: int)
    requires
        0 <= k <= t.len(),
    ensures
        escaped_text(t, t.len() as int) == escaped_text(t, k) + escaped_from(t, k),
    decreases t.len() - k,
{
    if k < t.len() {
        lemma_escaped_from(t, k + 1);
        assert(escaped_text(t, k) + escaped(t[k]) + escaped_from(t, k + 1) =~= escaped_text(t, k) + (escaped(t[k])
            + escaped_from(t, k + 1)));
    } else {
        assert(escaped_text(t, k) + escaped_from(t, k) =~= escaped_text(t, k));
    }
}

proof fn lemma_read_chars(s: Seq<char>, t: Seq<char>, k: int, i: int)
    requires
        0 <= k <= t.len(),
        text_at(s, escaped_from(t, k) + seq!['"'], i),
    ensures
        read_chars(s, i) == Some((t.subrange(k, t.len() as int), i + escaped_from(t, k).len() + 1)),
    decreases t.len() - k,
{
    let q = seq!['"'];
    if k < t.len() {
        let a = escaped(t[k]);
        let b = escaped_from(t, k + 1);
        assert(escaped_from(t, k) + q =~= a + (b + q));
        lemma_at_split(s, a, b + q, i);
        lemma_read_escaped(s, t[k], i);
        lemma_read_chars(s, t, k + 1, i + a.len());
        assert(seq![t[k]] + t.subrange(k + 1, t.len() as int) =~= t.subrange(k, t.len() as int));
    } else {
        assert(escaped_from(t, k) + q =~= q);
        lemma_at_char(s, q, i, 0);
        assert(t.subrange(k, t.len() as int) =~= Seq::<char>::empty());
    }
}

/// A quoted text is read back.
proof fn lemma_read_text(s: Seq<char>, t: Seq<char>, i: int)
    requires
        text_at(s, quoted(t), i),
    ensures
        read_text(s, i) == Some((t, i + quoted(t).len())),
{
    let q = seq!['"'];
    let e = escaped_from(t, 0);
    lemma_escaped_from(t, 0);
    assert(escaped_text(t, 0) + e =~= e);
    assert(quoted(t) =~= q + (e + q));
    lemma_at_char(s, quoted(t), i, 0);
    lemma_at_split(s, q, e + q, i);
    lemma_read_chars(s, t, 0, i + 1);
    assert(t.subrange(0, t.len() as int) =~= t);
}

proof fn lemma_decimal(n: nat)
    ensures
        decimal(n).len() > 0,
        forall|k: int| 0 <= k < decimal(n).len() ==> is_digit(#[trigger] decimal(n)[k]),
    decreases n,
{
    assert(is_digit(digit(n % 10)));
    if n >= 10 {
        lemma_decimal(n / 10);
    }
}

proof fn lemma_read_digits(s: Seq<char>, n: nat, i: int)
    requires
        text_at(s, decimal(n), i),
    ensures
        read_digits(s, i, 0) == read_digits(s, i + decimal(n).len(), n),
    decreases n,
{
    if n < 10 {
        lemma_at_char(s, decimal(n), i, 0);
        assert(digit(n) as int == 48 + n);
        assert(decimal(n).len() == 1);
    } else {
        let a = decimal(n / 10);
        let d = digit(n % 10);
        assert(decimal(n) =~= a + seq![d]);
        lemma_at_split(s, a, seq![d], i);
        lemma_read_digits(s, n / 10, i);
        lemma_at_char(s, seq![d], (i + a.len()) as int, 0);
        assert(d as int == 48 + n % 10);
        assert((n / 10) * 10 + n % 10 == n);
    }
}

/// A value as it is written.
spec fn scalar_text(v: Scalar) -> Seq<char> {
    match v {
        Scalar::Text(t) => quoted(t),
        Scalar::Number(n) => decimal(n),
    }
}

/// A member as it is written.
spec fn member_text(m: (Seq<char>, Scalar)) -> Seq<char> {
    quoted(m.0) + seq![':'] + scalar_text(m.1)
}

/// The members from `k` on as they are written.
spec fn members_text(ms: Seq<(Seq<char>, Scalar)>, k: int) -> Seq<char>
    decreases ms.len() - k,
{
    if k < 0 || k >= ms.len() {
        Seq::empty()
    } else if k == ms.len() - 1 {
        member_text(ms[k])
    } else {
        member_text(ms[k]) + seq![','] + members_text(ms, k + 1)
    }
}

proof fn lemma_read_member(s: Seq<char>, m: (Seq<char>, Scalar), i: int)
    requires
        text_at(s, member_text(m), i),
        i + member_text(m).len() < s.len(),
        !is_digit(s[i + member_text(m).len()]),
    ensures
        read_member(s, i) == Some((m, i + member_text(m).len())),
{
    let q = quoted(m.0);
    let v = scalar_text(m.1);
    assert(member_text(m) =~= q + (seq![':'] + v));
    lemma_at_split(s, q, seq![':'] + v, i);
    lemma_read_text(s, m.0, i);
    let j = i + q.len();
    lemma_at_split(s, seq![':'], v, j);
    lemma_at_char(s, seq![':'], j, 0);
    match m.1 {
        Scalar::Text(t) => {
            lemma_read_text(s, t, j + 1);
            lemma_at_char(s, v, j + 1, 0);
            assert(v[0] == '"');
        },
        Scalar::Number(n) => {
            lemma_decimal(n);
            lemma_at_char(s, v, j + 1, 0);
            lemma_read_digits(s, n, j + 1);
        },
    }
}

proof fn lemma_read_members(s: Seq<char>, ms: Seq<(Seq<char>, Scalar)>, k: int, i: int)
    requires
        0 <= k < ms.len(),
        text_at(s, members_text(ms, k) + seq!['}'], i),
    ensures
        read_members(s, i) == Some((ms.subrange(k, ms.len() as int), i + members_text(ms, k).len() + 1)),
    decreases ms.len() - k,
{
    let m = member_text(ms[k]);
    if k == ms.len() - 1 {
        lemma_at_split(s, m, seq!['}'], i);
        lemma_at_char(s, seq!['}'], i + m.len(), 0);
        lemma_read_member(s, ms[k], i);
        assert(seq![ms[k]] =~= ms.subrange(k, ms.len() as int));
    } else {
        let rest = members_text(ms, k + 1) + seq!['}'];
        assert(members_text(ms, k) + seq!['}'] =~= m + (seq![','] + rest));
        lemma_at_split(s, m, seq![','] + rest, i);
        let j = i + m.len();
        lemma_at_split(s, seq![','], rest, j);
        lemma_at_char(s, seq![','], j, 0);
        lemma_read_member(s, ms[k], i);
        lemma_read_members(s, ms, k + 1, j + 1);
        assert(seq![ms[k]] + ms.subrange(k + 1, ms.len() as int) =~= ms.subrange(k, ms.len() as int));
    }
}

/// Whether every character of a text stands for itself inside a string.
spec fn is_plain(t: Seq<char>) -> bool {
    forall|k: int| 0 <= k < t.len() ==> escaped(#[trigger] t[k]) == seq![t[k]]
}

proof fn lemma_plain(t: Seq<char>, n: int)
    requires
        is_plain(t),
        0 <= n <= t.len(),
    ensures
        escaped_text(t, n) == t.subrange(0, n),
    decreases n,
{
    if n > 0 {
        lemma_plain(t, n - 1);
        assert(escaped(t[n - 1]) == seq![t[n - 1]]);
        assert(t.subrange(0, n - 1) + seq![t[n - 1]] =~= t.subrange(0, n));
    } else {
        assert(t.subrange(0, n) =~= Seq::<char>::empty());
    }
}

proof fn lemma_key(t: Seq<char>)
    requires
        is_plain(t),
    ensures
        quoted(t) == seq!['"'] + t + seq!['"'],
{
    lemma_plain(t, t.len() as int);
    assert(t.subrange(0, t.len() as int) =~= t);
}

#[verifier::rlimit(40)]
#[verifier::spinoff_prover]
proof fn lemma_keys()
    ensures
        "{\"suite\":"@ == seq!['{'] + quoted("suite"@) + seq![':'],
        ",\"name\":"@ == seq![','] + quoted("name"@) + seq![':'],
        ",\"category\":"@ == seq![','] + quoted("category"@) + seq![':'],
        ",\"status\":"@ == seq![','] + quoted("status"@) + seq![':'],
        ",\"duration_ms\":"@ == seq![','] + quoted("duration_ms"@) + seq![':'],
        ",\"timestamp\":"@ == seq![','] + quoted("timestamp"@) + seq![':'],
        ",\"commit\":"@ == seq![','] + quoted("commit"@) + seq![':'],
        "}"@ == seq!['}'],
        ","@ == seq![','],
        "["@ == seq!['['],
        "]"@ == seq![']'],
{
    reveal_strlit("{\"suite\":");
    reveal_strlit(",\"name\":");
    reveal_strlit(",\"category\":");
    reveal_strlit(",\"status\":");
    reveal_strlit(",\"duration_ms\":");
    reveal_strlit(",\"timestamp\":");
    reveal_strlit(",\"commit\":");
    reveal_strlit("suite");
    reveal_strlit("name");
    reveal_strlit("category");
    reveal_strlit("status");
    reveal_strlit("duration_ms");
    reveal_strlit("timestamp");
    reveal_strlit("commit");
    reveal_strlit("}");
    reveal_strlit(",");
    reveal_strlit("[");
    reveal_strlit("]");
    lemma_key("suite"@);
    lemma_key("name"@);
    lemma_key("category"@);
    lemma_key("status"@);
    lemma_key("duration_ms"@);
    lemma_key("timestamp"@);
    lemma_key("commit"@);
    assert("{\"suite\":"@ =~= seq!['{'] + quoted("suite"@) + seq![':']);
    assert(",\"name\":"@ =~= seq![','] + quoted("name"@) + seq![':']);
    assert(",\"category\":"@ =~= seq![','] + quoted("category"@) + seq![':']);
    assert(",\"status\":"@ =~= seq![','] + quoted("status"@) + seq![':']);
    assert(",\"duration_ms\":"@ =~= seq![','] + quoted("duration_ms"@) + seq![':']);
    assert(",\"timestamp\":"@ =~= seq![','] + quoted("timestamp"@) + seq![':']);
    assert(",\"commit\":"@ =~= seq![','] + quoted("commit"@) + seq![':']);
    assert("}"@ =~= seq!['}']);
    assert(","@ =~= seq![',']);
    assert("["@ =~= seq!['[']);
    assert("]"@ =~= seq![']']);
}

#[verifier::rlimit(60)]
#[verifier::spinoff_prover]
proof fn lemma_row_text(r: TestRow)
    ensures
        row_text(r) == seq!['{'] + members_text(row_members(r), 0) + seq!['}'],
{
    lemma_keys();
    let ms = row_members(r);
    let m6 = member_text(ms[6]);
    let m5 = member_text(ms[5]) + seq![','] + m6;
    let m4 = member_text(ms[4]) + seq![','] + m5;
    let m3 = member_text(ms[3]) + seq![','] + m4;
    let m2 = member_text(ms[2]) + seq![','] + m3;
    let m1 = member_text(ms[1]) + seq![','] + m2;
    let m0 = member_text(ms[0]) + seq![','] + m1;
    assert(members_text(ms, 6) == m6);
    assert(members_text(ms, 5) == m5);
    assert(members_text(ms, 4) == m4);
    assert(members_text(ms, 3) == m3);
    assert(members_text(ms, 2) == m2);
    assert(members_text(ms, 1) == m1);
    assert(members_text(ms, 0) == m0);
    assert(row_text(r) =~= seq!['{'] + m0 + seq!['}']);
}

proof fn lemma_read_row(s: Seq<char>, r: TestRow, i: int)
    requires
        text_at(s, row_text(r), i),
    ensures
        read_object(s, i) == Some((row_members(r), i + row_text(r).len())),
        row_text(r).len() > 0,
{
    lemma_row_text(r);
    let ms = row_members(r);
    let t = members_text(ms, 0) + seq!['}'];
    assert(row_text(r) =~= seq!['{'] + t);
    lemma_at_split(s, seq!['{'], t, i);
    lemma_at_char(s, seq!['{'], i, 0);
    lemma_read_members(s, ms, 0, i + 1);
    assert(ms.subrange(0, ms.len() as int) =~= ms);
}

/// The rows from `k` up to `n`, with commas between them.
spec fn rows_from(rows: Seq<TestRow>, k: int, n: int) -> Seq<char>
    decreases n - k,
{
    if k >= n {
        Seq::empty()
    } else if k == n - 1 {
        row_text(rows[k])
    } else {
        row_text(rows[k]) + seq![','] + rows_from(rows, k + 1, n)
    }
}

proof fn lemma_one_more(rows: Seq<TestRow>, k: int, n: int)
    requires
        0 <= k < n < rows.len(),
    ensures
        rows_from(rows, k, n + 1) == rows_from(rows, k, n) + seq![','] + row_text(rows[n]),
    decreases n - k,
{
    if k < n - 1 {
        lemma_one_more(rows, k + 1, n);
        assert(rows_from(rows, k, n + 1) =~= rows_from(rows, k, n) + seq![','] + row_text(rows[n]));
    } else {
        assert(rows_from(rows, n, n + 1) == row_text(rows[n]));
    }
}

proof fn lemma_rows_text(rows: Seq<TestRow>, n: int)
    requires
        0 <= n <= rows.len(),
    ensures
        rows_text(rows, n) == rows_from(rows, 0, n),
    decreases n,
{
    if n >= 2 {
        lemma_keys();
        lemma_rows_text(rows, n - 1);
        lemma_one_more(rows, 0, n - 1);
    }
}

/// What the rows from `k` on are read as.
spec fn objects_from(rows: Seq<TestRow>, k: int) -> Seq<Seq<(Seq<char>, Scalar)>> {
    Seq::new((rows.len() - k) as nat, |i: int| row_members(rows[k + i]))
}

proof fn lemma_read_objects(s: Seq<char>, rows: Seq<TestRow>, k: int, i: int)
    requires
        0 <= k < rows.len(),
        text_at(s, rows_from(rows, k, rows.len() as int) + seq![']'], i),
    ensures
        read_objects(s, i) == Some(
            (objects_from(rows, k), i + rows_from(rows, k, rows.len() as int).len() + 1),
        ),
    decreases rows.len() - k,
{
    let n = rows.len() as int;
    let r = row_text(rows[k]);
    if k == n - 1 {
        lemma_at_split(s, r, seq![']'], i);
        lemma_at_char(s, seq![']'], i + r.len(), 0);
        lemma_read_row(s, rows[k], i);
        assert(seq![row_members(rows[k])] =~= objects_from(rows, k));
    } else {
        let rest = rows_from(rows, k + 1, n) + seq![']'];
        assert(rows_from(rows, k, n) + seq![']'] =~= r + (seq![','] + rest));
        lemma_at_split(s, r, seq![','] + rest, i);
        let j = i + r.len();
        lemma_at_split(s, seq![','], rest, j);
        lemma_at_char(s, seq![','], j, 0);
        lemma_read_row(s, rows[k], i);
        lemma_read_objects(s, rows, k + 1, j + 1);
        assert(seq![row_members(rows[k])] + objects_from(rows, k + 1) =~= objects_from(rows, k));
    }
}

/// Whatever characters the results hold, the answer with all of them is a list of objects
/// in their order, and each object says what its result holds.
pub proof fn law_rows_are_read_back(rows: Seq<TestRow>)
    ensures
        read_list("["@ + rows_text(rows, rows.len() as int) + "]"@) == Some(
            Seq::new(rows.len(), |i: int| row_members(rows[i])),
        ),
{
    let n = rows.len() as int;
    let t = rows_from(rows, 0, n);
    let s = "["@ + rows_text(rows, n) + "]"@;
    lemma_keys();
    lemma_rows_text(rows, n);
    if n > 0 {
        assert(s =~= seq!['['] + (t + seq![']']));
        assert(s.subrange(1, s.len() as int) =~= t + seq![']']);
        assert(text_at(s, t + seq![']'], 1));
        lemma_read_objects(s, rows, 0, 1);
        assert(s[1] != ']') by {
            let r = row_text(rows[0]);
            lemma_row_text(rows[0]);
            assert(r[0] == '{');
            assert(t[0] == r[0]);
        }
        assert(objects_from(rows, 0) =~= Seq::new(rows.len(), |i: int| row_members(rows[i])));
    } else {
        assert(s =~= seq!['[', ']']);
        assert(Seq::new(rows.len(), |i: int| row_members(rows[i])) =~= Seq::<Seq<(Seq<char>, Scalar)>>::empty());
    }
}

/// A quoted text is a single string that reads as the text.
pub proof fn law_quoted_is_read_back(t: Seq<char>)
    ensures
        read_text(quoted(t), 0) == Some((t, quoted(t).len() as int)),
{
    assert(quoted(t).subrange(0, quoted(t).len() as int) =~= quoted(t));
    lemma_read_text(quoted(t), t, 0);
}

} // verus!
