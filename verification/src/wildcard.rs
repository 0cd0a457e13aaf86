//! DOS wildcards and search patterns.
use vstd::prelude::*;
use crate::text::{chars_of, is_slash, lemma_char_is_scalar, lowercase, text_of_range, texts, to_lowercase};

verus! {

/// Whether `s` matches the pattern `p`: `*` stands for any run of characters,
/// `?` for exactly one, every other character for itself.
pub open spec fn wild(s: Seq<char>, p: Seq<char>) -> bool
    decreases s.len() + p.len(),
{
    if p.len() == 0 {
        s.len() == 0
    } else if p[0] == '*' {
        wild(s, p.subrange(1, p.len() as int)) || (s.len() > 0 && wild(s.subrange(1, s.len() as int), p))
    } else if p[0] == '?' {
        s.len() > 0 && wild(s.subrange(1, s.len() as int), p.subrange(1, p.len() as int))
    } else {
        s.len() > 0 && s[0] == p[0] && wild(s.subrange(1, s.len() as int), p.subrange(1, p.len() as int))
    }
}

fn wild_from(s: &Vec<char>, i: usize, p: &Vec<char>, j: usize) -> (r: bool)
    requires
        i <= s@.len(),
        j <= p@.len(),
    ensures
        r == wild(s@.subrange(i as int, s@.len() as int), p@.subrange(j as int, p@.len() as int)),
    decreases (s@.len() - i) + (p@.len() - j),
{
    let ghost ss = s@.subrange(i as int, s@.len() as int);
    let ghost pp = p@.subrange(j as int, p@.len() as int);
    if j == p.len() {
        return i == s.len();
    }
    proof {
        assert(pp[0] == p@[j as int]);
        assert(pp.subrange(1, pp.len() as int) =~= p@.subrange(j + 1, p@.len() as int));
        if i < s@.len() {
            assert(ss[0] == s@[i as int]);
            assert(ss.subrange(1, ss.len() as int) =~= s@.subrange(i + 1, s@.len() as int));
        }
    }
    let c: char = p[j];
    if c == '*' {
        wild_from(s, i, p, j + 1) || (i < s.len() && wild_from(s, i + 1, p, j))
    } else if i < s.len() && (c == '?' || s[i] == c) {
        wild_from(s, i + 1, p, j + 1)
    } else {
        false
    }
}

/// A star stands for any run of characters, the empty one too.
pub proof fn law_star_is_any_run(s: Seq<char>, q: Seq<char>)
    ensures
        wild(s, seq!['*'] + q) <==> exists|i: int| 0 <= i <= s.len() && #[trigger] wild(s.subrange(i, s.len() as int), q),
    decreases s.len(),
{
    let p = seq!['*'] + q;
    assert(p.subrange(1, p.len() as int) =~= q);
    assert(s.subrange(0, s.len() as int) =~= s);
    assert(wild(s.subrange(0, s.len() as int), q) == wild(s, q));
    if s.len() > 0 {
        let t = s.subrange(1, s.len() as int);
        law_star_is_any_run(t, q);
        if wild(t, p) {
            let i = choose|i: int| 0 <= i <= t.len() && #[trigger] wild(t.subrange(i, t.len() as int), q);
            assert(t.subrange(i, t.len() as int) =~= s.subrange(i + 1, s.len() as int));
        }
        if exists|i: int| 0 <= i <= s.len() && #[trigger] wild(s.subrange(i, s.len() as int), q) {
            let i = choose|i: int| 0 <= i <= s.len() && #[trigger] wild(s.subrange(i, s.len() as int), q);
            if i > 0 {
                assert(t.subrange(i - 1, t.len() as int) =~= s.subrange(i, s.len() as int));
                assert(wild(t.subrange(i - 1, t.len() as int), q));
            }
        }
    }
}

/// Whether `name` matches the pattern `pat`.
pub fn wildcard_match(name: &str, pat: &str) -> (r: bool)
    ensures
        r == wild(name@, pat@),
{
    let s = chars_of(name);
    let p = chars_of(pat);
    assert(s@.subrange(0, s@.len() as int) =~= name@);
    assert(p@.subrange(0, p@.len() as int) =~= pat@);
    wild_from(&s, 0, &p, 0)
}

/// A lone star matches every name.
pub proof fn law_star_matches_all(s: Seq<char>)
    ensures
        wild(s, seq!['*']),
{
    let n = s.len() as int;
    let e = Seq::<char>::empty();
    law_star_is_any_run(s, e);
    assert(seq!['*'] + e =~= seq!['*']);
    assert(s.subrange(n, n) =~= e);
    assert(wild(s.subrange(n, n), e));
}

/// A pattern without wildcards matches exactly the name that it spells.
pub proof fn law_plain_pattern_is_exact(s: Seq<char>, p: Seq<char>)
    requires
        forall|i: int| 0 <= i < p.len() ==> p[i] != '*' && p[i] != '?',
    ensures
        wild(s, p) <==> s == p,
    decreases p.len(),
{
    if p.len() == 0 {
        if s.len() == 0 {
            assert(s =~= p);
        }
    } else if s.len() > 0 {
        let p1 = p.subrange(1, p.len() as int);
        let s1 = s.subrange(1, s.len() as int);
        law_plain_pattern_is_exact(s1, p1);
        if s[0] == p[0] && s1 == p1 {
            assert(s =~= seq![s[0]] + s1);
            assert(p =~= seq![p[0]] + p1);
        }
    }
}

/// A pattern of question marks matches exactly the names of its length.
pub proof fn law_question_marks_count(s: Seq<char>, p: Seq<char>)
    requires
        forall|i: int| 0 <= i < p.len() ==> p[i] == '?',
    ensures
        wild(s, p) <==> s.len() == p.len(),
    decreases p.len(),
{
    if p.len() > 0 && s.len() > 0 {
        law_question_marks_count(s.subrange(1, s.len() as int), p.subrange(1, p.len() as int));
    }
}

/// How many slashes open `s`.
pub open spec fn leading_slashes(s: Seq<char>) -> int
    decreases s.len(),
{
    if s.len() > 0 && is_slash(s[0]) {
        1 + leading_slashes(s.subrange(1, s.len() as int))
    } else {
        0
    }
}

/// The last slash among the first `n` characters.
pub open spec fn last_slash(s: Seq<char>, n: int) -> Option<int>
    decreases n,
{
    if n <= 0 {
        None
    } else if is_slash(s[n - 1]) {
        Some(n - 1)
    } else {
        last_slash(s, n - 1)
    }
}

/// `s` without the slashes that open it.
pub open spec fn without_leading(s: Seq<char>) -> Seq<char> {
    s.subrange(leading_slashes(s), s.len() as int)
}

/// Directory and name of a search pattern: what stands before and behind the
/// last slash.
pub open spec fn pattern_split(s: Seq<char>) -> (Seq<char>, Seq<char>) {
    let p = without_leading(s);
    match last_slash(p, p.len() as int) {
        Some(i) => (p.subrange(0, i), p.subrange(i + 1, p.len() as int)),
        None => (Seq::empty(), p),
    }
}

proof fn lemma_leading(s: Seq<char>, n: int)
    requires
        0 <= n <= s.len(),
        forall|k: int| 0 <= k < n ==> is_slash(s[k]),
        n < s.len() ==> !is_slash(s[n]),
    ensures
        leading_slashes(s) == n,
    decreases s.len(),
{
    if n > 0 {
        let t = s.subrange(1, s.len() as int);
        assert forall|k: int| 0 <= k < n - 1 implies is_slash(t[k]) by {
            assert(t[k] == s[k + 1]);
        }
        lemma_leading(t, n - 1);
    }
}

/// The opening slashes are some of the characters.
pub proof fn lemma_leading_bound(s: Seq<char>)
    ensures
        0 <= leading_slashes(s) <= s.len(),
    decreases s.len(),
{
    if s.len() > 0 && is_slash(s[0]) {
        lemma_leading_bound(s.subrange(1, s.len() as int));
    }
}

/// Leaves out the slashes that open `s`.
pub fn trim_leading_slashes(s: &str) -> (r: String)
    ensures
        r@ == without_leading(s@),
{
    let c = chars_of(s);
    let mut i: usize = 0;
    while i < c.len() && (c[i] == '\\' || c[i] == '/')
        invariant
            i <= c@.len(),
            forall|k: int| 0 <= k < i ==> is_slash(c@[k]),
        decreases c@.len() - i,
    {
        i += 1;
    }
    proof {
        lemma_leading(c@, i as int);
    }
    text_of_range(c.as_slice(), i, c.len())
}

/// Splits a search pattern into directory and name.
pub fn split_pattern(pattern: &str) -> (r: (String, String))
    ensures
        (r.0@, r.1@) == pattern_split(pattern@),
{
    let p = trim_leading_slashes(pattern);
    let c = chars_of(p.as_str());
    let n: usize = c.len();
    let mut i: usize = n;
    while i > 0 && c[i - 1] != '\\' && c[i - 1] != '/'
        invariant
            i <= n == c@.len(),
            last_slash(c@, n as int) == last_slash(c@, i as int),
        decreases i,
    {
        i -= 1;
    }
    if i == 0 {
        let e = String::new();
        assert(e@ =~= Seq::<char>::empty());
        (e, p)
    } else {
        (text_of_range(c.as_slice(), 0, i - 1), text_of_range(c.as_slice(), i, n))
    }
}

/// The pattern split under the name that other command modules use.
pub fn split_pattern_pub(pattern: &str) -> (r: (String, String))
    ensures
        (r.0@, r.1@) == pattern_split(pattern@),
{
    split_pattern(pattern)
}

/// The pattern split for directory commands.
pub fn dir_cmds_split(pattern: &str) -> (r: (String, String))
    ensures
        (r.0@, r.1@) == pattern_split(pattern@),
{
    split_pattern(pattern)
}

/// The name part of a pattern holds no slash.
pub proof fn law_pattern_name_has_no_slash(s: Seq<char>, k: int)
    requires
        0 <= k < pattern_split(s).1.len(),
    ensures
        !is_slash(pattern_split(s).1[k]),
{
    let p = without_leading(s);
    lemma_last_slash(p, p.len() as int);
}

/// The last slash is a slash, and none stands behind it.
pub proof fn lemma_last_slash(s: Seq<char>, n: int)
    requires
        0 <= n <= s.len(),
    ensures
        match last_slash(s, n) {
            Some(i) => 0 <= i < n && is_slash(s[i]) && forall|k: int| i < k < n ==> !is_slash(#[trigger] s[k]),
            None => forall|k: int| 0 <= k < n ==> !is_slash(#[trigger] s[k]),
        },
    decreases n,
{
    if n > 0 && !is_slash(s[n - 1]) {
        lemma_last_slash(s, n - 1);
    }
}

/// Whether a name is found by a search pattern, letter case aside.
pub open spec fn found_by(name: Seq<char>, pat: Seq<char>) -> bool {
    wild(lowercase(name), lowercase(pat))
}

/// The test of a search pattern.
pub open spec fn finds(pat: Seq<char>) -> spec_fn(Seq<char>) -> bool {
    |n: Seq<char>| found_by(n, pat)
}

/// The names that a search pattern finds, in order.
pub fn matching_names(names: &Vec<String>, pat: &str) -> (r: Vec<String>)
    ensures
        texts(r@) == texts(names@).filter(finds(pat@)),
{
    let lower = to_lowercase(pat);
    let ghost p = finds(pat@);
    let mut r: Vec<String> = Vec::new();
    let mut i: usize = 0;
    proof {
        reveal(Seq::filter);
        assert(texts(names@).take(0).filter(p) =~= Seq::<Seq<char>>::empty());
        assert(texts(r@) =~= Seq::<Seq<char>>::empty());
    }
    while i < names.len()
        invariant
            i <= names@.len(),
            lower@ == lowercase(pat@),
            p == finds(pat@),
            texts(r@) == texts(names@).take(i as int).filter(p),
        decreases names@.len() - i,
    {
        let n = names[i].clone();
        let l = to_lowercase(n.as_str());
        let ghost before = texts(r@);
        proof {
            reveal(Seq::filter);
            assert(texts(names@).take(i + 1).drop_last() =~= texts(names@).take(i as int));
            assert(texts(names@).take(i + 1).last() == n@);
        }
        if wildcard_match(l.as_str(), lower.as_str()) {
            r.push(n);
            assert(texts(r@) =~= before.push(n@));
        }
        i += 1;
    }
    assert(texts(names@).take(i as int) =~= texts(names@));
    r
}

/// Whether `a` sorts before or equals `b`, character by character.
pub open spec fn text_le(a: Seq<char>, b: Seq<char>) -> bool
    decreases a.len(),
{
    if a.len() == 0 {
        true
    } else if b.len() == 0 {
        false
    } else if a[0] != b[0] {
        (a[0] as int) < (b[0] as int)
    } else {
        text_le(a.subrange(1, a.len() as int), b.subrange(1, b.len() as int))
    }
}

pub(crate) fn le_from(a: &Vec<char>, b: &Vec<char>) -> (r: bool)
    ensures
        r == text_le(a@, b@),
{
    let mut i: usize = 0;
    assert(a@.subrange(0, a@.len() as int) =~= a@);
    assert(b@.subrange(0, b@.len() as int) =~= b@);
    while i < a.len() && i < b.len() && a[i] == b[i]
        invariant
            i <= a@.len(),
            i <= b@.len(),
            text_le(a@, b@) == text_le(
                a@.subrange(i as int, a@.len() as int),
                b@.subrange(i as int, b@.len() as int),
            ),
        decreases a@.len() - i,
    {
        proof {
            let x = a@.subrange(i as int, a@.len() as int);
            let y = b@.subrange(i as int, b@.len() as int);
            assert(x.subrange(1, x.len() as int) =~= a@.subrange(i + 1, a@.len() as int));
            assert(y.subrange(1, y.len() as int) =~= b@.subrange(i + 1, b@.len() as int));
            assert(x[0] == a@[i as int] && y[0] == b@[i as int]);
        }
        i += 1;
    }
    if i == a.len() {
        true
    } else if i == b.len() {
        false
    } else {
        assert(a@.subrange(i as int, a@.len() as int)[0] == a@[i as int]);
        assert(b@.subrange(i as int, b@.len() as int)[0] == b@[i as int]);
        let x: char = a[i];
        let y: char = b[i];
        proof {
            lemma_char_is_scalar(x);
            lemma_char_is_scalar(y);
        }
        (x as u32) < (y as u32)
    }
}

/// Whether the texts stand in order.
pub open spec fn texts_sorted(v: Seq<Seq<char>>) -> bool {
    forall|i: int, j: int| 0 <= i < j < v.len() ==> text_le(#[trigger] v[i], #[trigger] v[j])
}

/// Of two texts one sorts before or equals the other.
pub proof fn lemma_le_total(a: Seq<char>, b: Seq<char>)
    ensures
        text_le(a, b) || text_le(b, a),
    decreases a.len(),
{
    if a.len() > 0 && b.len() > 0 && a[0] == b[0] {
        lemma_le_total(a.subrange(1, a.len() as int), b.subrange(1, b.len() as int));
    }
}

/// The order of texts is transitive.
pub proof fn lemma_le_trans(a: Seq<char>, b: Seq<char>, c: Seq<char>)
    requires
        text_le(a, b),
        text_le(b, c),
    ensures
        text_le(a, c),
    decreases a.len(),
{
    if a.len() > 0 && b.len() > 0 && c.len() > 0 && a[0] == b[0] && b[0] == c[0] {
        lemma_le_trans(
            a.subrange(1, a.len() as int),
            b.subrange(1, b.len() as int),
            c.subrange(1, c.len() as int),
        );
    }
}

/// Puts the texts in order.
pub fn sort_texts(v: &Vec<String>) -> (r: Vec<String>)
    ensures
        texts_sorted(texts(r@)),
        texts(r@).to_multiset() == texts(v@).to_multiset(),
        r@.len() == v@.len(),
{
    let mut r: Vec<String> = Vec::new();
    let mut i: usize = 0;
    assert(texts(r@) =~= texts(v@).take(0));
    while i < v.len()
        invariant
            i <= v@.len(),
            r@.len() == i,
            texts_sorted(texts(r@)),
            texts(r@).to_multiset() == texts(v@).take(i as int).to_multiset(),
        decreases v@.len() - i,
    {
        let x = v[i].clone();
        let xc = chars_of(x.as_str());
        let mut k: usize = r.len();
        while k > 0
            invariant_except_break
                k <= r@.len(),
                xc@ == x@,
                texts_sorted(texts(r@)),
                forall|m: int| k <= m < r@.len() ==> text_le(x@, #[trigger] texts(r@)[m]),
            ensures
                k <= r@.len(),
                forall|m: int| k <= m < r@.len() ==> text_le(x@, #[trigger] texts(r@)[m]),
                forall|m: int| 0 <= m < k ==> text_le(#[trigger] texts(r@)[m], x@),
            decreases k,
        {
            let yc = chars_of(r[k - 1].as_str());
            if le_from(&yc, &xc) {
                proof {
                    let t = texts(r@);
                    assert forall|m: int| 0 <= m < k implies text_le(#[trigger] t[m], x@) by {
                        if m < k - 1 {
                            lemma_le_trans(t[m], t[k - 1], x@);
                        }
                    }
                }
                break;
            }
            proof {
                lemma_le_total(yc@, x@);
            }
            k -= 1;
        }
        let ghost before = texts(r@);
        r.insert(k, x);
        proof {
            assert(texts(r@) =~= before.insert(k as int, x@));
            vstd::seq_lib::to_multiset_insert(before, k as int, x@);
            assert(texts(v@).take(i + 1) =~= texts(v@).take(i as int).push(x@));
            vstd::seq_lib::to_multiset_build(texts(v@).take(i as int), x@);
            let t = texts(r@);
            assert forall|a: int, b: int| 0 <= a < b < t.len() implies text_le(#[trigger] t[a], #[trigger] t[b]) by {
                if b < k {
                    assert(text_le(before[a], before[b]));
                } else if b == k {
                    assert(text_le(before[a], x@));
                } else if a == k {
                    assert(text_le(x@, before[b - 1]));
                } else if a < k {
                    assert(text_le(before[a], before[b - 1]));
                } else {
                    assert(text_le(before[a - 1], before[b - 1]));
                }
            }
        }
        i += 1;
    }
    assert(texts(v@).take(i as int) =~= texts(v@));
    r
}

/// What opens a text are slashes, and what follows them is not.
pub proof fn lemma_leading_are_slashes(s: Seq<char>)
    ensures
        0 <= leading_slashes(s) <= s.len(),
        forall|k: int| 0 <= k < leading_slashes(s) ==> #[trigger] s[k] == '\\' || s[k] == '/',
        leading_slashes(s) < s.len() ==> s[leading_slashes(s)] != '\\' && s[leading_slashes(s)] != '/',
    decreases s.len(),
{
    if s.len() > 0 && is_slash(s[0]) {
        let t = s.subrange(1, s.len() as int);
        lemma_leading_are_slashes(t);
        assert forall|k: int| 0 <= k < leading_slashes(s) implies #[trigger] s[k] == '\\' || s[k] == '/' by {
            if k > 0 {
                assert(t[k - 1] == s[k]);
            }
        }
        if leading_slashes(s) < s.len() {
            assert(t[leading_slashes(t)] == s[leading_slashes(s)]);
        }
    }
}

/// A search pattern is split behind its last slash: whatever stands in front, the name is
/// the part without slashes at the end.
pub proof fn law_pattern_is_split_behind_its_last_slash(front: Seq<char>, name: Seq<char>)
    requires
        forall|k: int| 0 <= k < name.len() ==> #[trigger] name[k] != '\\' && name[k] != '/',
        front.len() > 0 ==> front.last() == '\\' || front.last() == '/',
    ensures
        pattern_split(front + name).1 == name,
{
    let s = front + name;
    let p = without_leading(s);
    let n = leading_slashes(s);
    lemma_leading_are_slashes(s);
    if n > front.len() {
        assert(s[n - 1] == name[n - 1 - front.len()]);
    }
    lemma_last_slash(p, p.len() as int);
    if n == front.len() {
        assert(p =~= name);
        match last_slash(p, p.len() as int) {
            Some(i) => {
                assert(p[i] == name[i]);
            },
            None => {},
        }
    } else {
        let at = front.len() - 1 - n;
        assert(p[at] == front.last());
        match last_slash(p, p.len() as int) {
            Some(i) => {
                if i > at {
                    assert(p[i] == name[i - at - 1]);
                }
                assert(i == at);
                assert(p.subrange(i + 1, p.len() as int) =~= name);
            },
            None => {},
        }
    }
}

} // verus!
