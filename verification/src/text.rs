//! Character strings and their UTF-16 wire form.
use vstd::prelude::*;
use vstd::slice::slice_subrange;
use vstd::utf8::{decode_utf8, encode_scalar, encode_utf8, valid_utf8};

verus! {

/// What `String::from_utf8_lossy` reads from the bytes `s`.
pub uninterp spec fn utf8_lossy(s: Seq<u8>) -> Seq<char>;

/// What `str::to_lowercase` gives for the text `s`.
pub uninterp spec fn lowercase(s: Seq<char>) -> Seq<char>;

/// What `str::to_uppercase` gives for the text `s`.
pub uninterp spec fn uppercase(s: Seq<char>) -> Seq<char>;

/// `String::from_utf8_lossy`: the text that `bytes` spell in UTF-8, a
/// replacement character standing for every malformed stretch; bytes that are valid
/// UTF-8 give the text they encode.
#[verifier::external_body]
pub(crate) fn from_utf8_lossy(bytes: &[u8]) -> (text: String)
    ensures
        text@ == utf8_lossy(bytes@),
        valid_utf8(bytes@) ==> text@ == decode_utf8(bytes@),
{
    String::from_utf8_lossy(bytes).into_owned()
}

/// `str::to_lowercase`: the Unicode lower-case form of `s`.
#[verifier::external_body]
pub(crate) fn to_lowercase(s: &str) -> (text: String)
    ensures
        text@ == lowercase(s@),
{
    s.to_lowercase()
}

/// `str::to_uppercase`: the Unicode upper-case form of `s`.
#[verifier::external_body]
pub(crate) fn to_uppercase(s: &str) -> (text: String)
    ensures
        text@ == uppercase(s@),
{
    s.to_uppercase()
}

/// `String::push`: appends one character.
#[verifier::external_body]
pub(crate) fn push_char(s: &mut String, c: char)
    ensures
        final(s)@ == old(s)@.push(c),
{
    s.push(c)
}

/// Whether `u` is the number of a character: at most U+10FFFF and no surrogate.
pub open spec fn is_scalar(u: int) -> bool {
    0 <= u <= 0xD7FF || 0xE000 <= u <= 0x10FFFF
}

/// `char::from_u32`: the character numbered `u`, where there is one.
#[verifier::external_body]
fn char_from_u32(u: u32) -> (c: Option<char>)
    ensures
        is_scalar(u as int) ==> c == Some(u as char),
        !is_scalar(u as int) ==> c is None,
{
    char::from_u32(u)
}

/// The UTF-16 code units of one character.
pub open spec fn char_units(c: char) -> Seq<u16> {
    if (c as int) < 0x10000 {
        seq![c as u16]
    } else {
        seq![
            (0xD800 + (c as int - 0x10000) / 0x400) as u16,
            (0xDC00 + (c as int - 0x10000) % 0x400) as u16,
        ]
    }
}

/// The UTF-16 code units of a text.
pub open spec fn utf16(s: Seq<char>) -> Seq<u16>
    decreases s.len(),
{
    if s.len() == 0 {
        seq![]
    } else {
        utf16(s.drop_last()) + char_units(s.last())
    }
}

/// Whether `u` opens a surrogate pair.
pub open spec fn is_high(u: u16) -> bool {
    0xD800 <= u < 0xDC00
}

/// Whether `u` closes a surrogate pair.
pub open spec fn is_low(u: u16) -> bool {
    0xDC00 <= u < 0xE000
}

/// The character of a surrogate pair.
pub open spec fn pair_char(hi: u16, lo: u16) -> char {
    (0x10000 + (hi - 0xD800) * 0x400 + (lo - 0xDC00)) as char
}

/// The text that UTF-16 code units spell; U+FFFD stands for a lone surrogate.
pub open spec fn utf16_lossy(u: Seq<u16>) -> Seq<char>
    decreases u.len(),
{
    if u.len() == 0 {
        seq![]
    } else if is_high(u[0]) && u.len() >= 2 && is_low(u[1]) {
        seq![pair_char(u[0], u[1])] + utf16_lossy(u.subrange(2, u.len() as int))
    } else if is_high(u[0]) || is_low(u[0]) {
        seq!['\u{FFFD}'] + utf16_lossy(u.subrange(1, u.len() as int))
    } else {
        seq![u[0] as char] + utf16_lossy(u.subrange(1, u.len() as int))
    }
}

/// The code units that a run of bytes holds, two bytes to a unit, low byte first;
/// an odd byte at the end is left out.
pub open spec fn units_of(b: Seq<u8>) -> Seq<u16> {
    Seq::new(b.len() / 2, |i: int| (b[2 * i] + 256 * b[2 * i + 1]) as u16)
}

/// The bytes of code units, low byte first.
pub open spec fn unit_bytes(u: Seq<u16>) -> Seq<u8> {
    Seq::new(2 * u.len(), |i: int| if i % 2 == 0 { (u[i / 2] % 256) as u8 } else { (u[i / 2] / 256) as u8 })
}

/// The bytes of a text in UTF-16, low byte first.
pub open spec fn utf16_bytes(s: Seq<char>) -> Seq<u8> {
    unit_bytes(utf16(s))
}

/// Every character has a number that is no surrogate.
pub proof fn lemma_char_is_scalar(c: char)
    ensures
        is_scalar(c as int),
{
}

proof fn lemma_utf16_front(c: char, s: Seq<char>)
    ensures
        utf16(seq![c] + s) == char_units(c) + utf16(s),
    decreases s.len(),
{
    let t = seq![c] + s;
    if s.len() == 0 {
        assert(t =~= seq![c]);
        assert(t.drop_last() =~= Seq::<char>::empty());
        assert(utf16(Seq::<char>::empty()) =~= seq![]);
        assert(utf16(t) =~= char_units(c));
        assert(utf16(s) =~= seq![]);
    } else {
        assert(t.drop_last() =~= seq![c] + s.drop_last());
        assert(t.last() == s.last());
        lemma_utf16_front(c, s.drop_last());
        assert(utf16(t) =~= char_units(c) + utf16(s));
    }
}

/// Text survives the way into UTF-16 and back.
pub proof fn lemma_utf16_round_trip(s: Seq<char>)
    ensures
        utf16_lossy(utf16(s)) == s,
    decreases s.len(),
{
    if s.len() == 0 {
        assert(utf16_lossy(utf16(s)) =~= s);
    } else {
        let c = s[0];
        let rest = s.subrange(1, s.len() as int);
        assert(s =~= seq![c] + rest);
        lemma_utf16_front(c, rest);
        lemma_utf16_round_trip(rest);
        let u = utf16(s);
        assert(u == char_units(c) + utf16(rest));
        lemma_char_is_scalar(c);
        if (c as int) < 0x10000 {
            assert(u[0] == c as u16);
            assert(u.subrange(1, u.len() as int) =~= utf16(rest));
            assert(u[0] as char == c);
        } else {
            assert(u.subrange(2, u.len() as int) =~= utf16(rest));
            assert(u[0] == char_units(c)[0]);
            assert(u[1] == char_units(c)[1]);
            let d = c as int - 0x10000;
            assert(0 <= d < 0x100000);
            assert(d == (d / 0x400) * 0x400 + d % 0x400);
            assert(is_high(u[0]) && is_low(u[1]));
            assert(pair_char(u[0], u[1]) == c);
        }
        assert(utf16_lossy(u) =~= seq![c] + rest);
    }
}

/// Code units survive the way into bytes and back.
pub proof fn lemma_units_round_trip(u: Seq<u16>)
    ensures
        units_of(unit_bytes(u)) == u,
{
    let b = unit_bytes(u);
    assert forall|i: int| 0 <= i < u.len() implies units_of(b)[i] == u[i] by {
        assert((2 * i) / 2 == i && (2 * i + 1) / 2 == i);
        assert((2 * i) % 2 == 0 && (2 * i + 1) % 2 == 1);
    }
    assert(units_of(b) =~= u);
}

/// Text survives the way into its wire form and back.
pub proof fn law_text_round_trip(s: Seq<char>)
    ensures
        utf16_lossy(units_of(utf16_bytes(s))) == s,
{
    lemma_units_round_trip(utf16(s));
    lemma_utf16_round_trip(s);
}

/// No character of a text without NUL has a zero code unit.
pub proof fn lemma_utf16_nonzero(s: Seq<char>)
    requires
        forall|i: int| 0 <= i < s.len() ==> s[i] != '\0',
    ensures
        forall|i: int| 0 <= i < utf16(s).len() ==> utf16(s)[i] != 0,
    decreases s.len(),
{
    if s.len() > 0 {
        lemma_utf16_nonzero(s.drop_last());
        let c = s.last();
        let front = utf16(s.drop_last());
        lemma_char_is_scalar(c);
        assert(c as int != 0);
        assert forall|i: int| 0 <= i < utf16(s).len() implies utf16(s)[i] != 0 by {
            if i >= front.len() {
                assert(utf16(s)[i] == char_units(c)[i - front.len()]);
            } else {
                assert(utf16(s)[i] == front[i]);
            }
        }
    }
}

proof fn lemma_scalar_nonzero(v: u32)
    requires
        v != 0,
    ensures
        forall|i: int| 0 <= i < encode_scalar(v).len() ==> encode_scalar(v)[i] != 0,
{
    assert(v <= 0x7F && v != 0 ==> (v & 0x7F) as u8 != 0) by (bit_vector);
    assert(forall|b: u8| #[trigger] (0x80u8 | b) != 0) by (bit_vector);
    assert(forall|b: u8| #[trigger] (0xC0u8 | b) != 0) by (bit_vector);
    assert(forall|b: u8| #[trigger] (0xE0u8 | b) != 0) by (bit_vector);
    assert(forall|b: u8| #[trigger] (0xF0u8 | b) != 0) by (bit_vector);
}

/// No byte of a text without NUL is zero in UTF-8.
pub proof fn lemma_utf8_nonzero(s: Seq<char>)
    requires
        forall|i: int| 0 <= i < s.len() ==> s[i] != '\0',
    ensures
        forall|i: int| 0 <= i < encode_utf8(s).len() ==> encode_utf8(s)[i] != 0,
    decreases s.len(),
{
    if s.len() > 0 {
        let rest = s.drop_first();
        assert forall|i: int| 0 <= i < rest.len() implies rest[i] != '\0' by {
            assert(rest[i] == s[i + 1]);
        }
        lemma_utf8_nonzero(rest);
        lemma_char_is_scalar(s[0]);
        let head = encode_scalar(s[0] as u32);
        lemma_scalar_nonzero(s[0] as u32);
        assert forall|i: int| 0 <= i < encode_utf8(s).len() implies encode_utf8(s)[i] != 0 by {
            if i < head.len() {
                assert(encode_utf8(s)[i] == head[i]);
            } else {
                assert(encode_utf8(s)[i] == encode_utf8(rest)[i - head.len()]);
            }
        }
    }
}

/// Encodes a text as UTF-16 code units.
pub fn encode_utf16(s: &str) -> (u: Vec<u16>)
    ensures
        u@ == utf16(s@),
{
    let mut u: Vec<u16> = Vec::new();
    for c in it: s.chars()
        invariant
            it.seq() == s@,
            u@ == utf16(s@.take(it.index() as int)),
    {
        proof {
            assert(s@.take(it.index() + 1).drop_last() =~= s@.take(it.index() as int));
            lemma_char_is_scalar(c);
        }
        let n: u32 = c as u32;
        if n < 0x10000 {
            u.push(n as u16);
        } else {
            let d: u32 = n - 0x10000;
            u.push((0xD800 + d / 0x400) as u16);
            u.push((0xDC00 + d % 0x400) as u16);
        }
        assert(u@ =~= utf16(s@.take(it.index() + 1)));
    }
    assert(s@.take(s@.len() as int) =~= s@);
    u
}

/// Encodes a text as UTF-16 bytes, low byte first.
pub fn encode_utf16_bytes(s: &str) -> (b: Vec<u8>)
    ensures
        b@ == utf16_bytes(s@),
{
    let u = encode_utf16(s);
    let mut b: Vec<u8> = Vec::new();
    let mut i: usize = 0;
    while i < u.len()
        invariant
            i <= u@.len(),
            b@ == unit_bytes(u@.take(i as int)),
        decreases u@.len() - i,
    {
        b.push((u[i] % 256) as u8);
        b.push((u[i] / 256) as u8);
        i += 1;
        assert(b@ =~= unit_bytes(u@.take(i as int)));
    }
    assert(u@.take(i as int) =~= u@);
    b
}

/// Decodes UTF-16 code units, U+FFFD standing for a lone surrogate.
pub fn from_utf16_lossy(u: &[u16]) -> (s: String)
    ensures
        s@ == utf16_lossy(u@),
{
    let mut s = String::new();
    let mut i: usize = 0;
    let n: usize = u.len();
    assert(u@.subrange(0, n as int) =~= u@);
    assert(s@ + utf16_lossy(u@) =~= utf16_lossy(u@));
    while i < n
        invariant
            i <= n == u@.len(),
            s@ + utf16_lossy(u@.subrange(i as int, n as int)) == utf16_lossy(u@),
        decreases n - i,
    {
        let ghost rest = u@.subrange(i as int, n as int);
        let ghost before = s@;
        let a: u16 = u[i];
        if 0xD800 <= a && a < 0xDC00 && i + 1 < n && 0xDC00 <= u[i + 1] && u[i + 1] < 0xE000 {
            let lo: u16 = u[i + 1];
            let x: u32 = 0x10000 + (a as u32 - 0xD800) * 0x400 + (lo as u32 - 0xDC00);
            let c: char = match char_from_u32(x) {
                Some(c) => c,
                None => '\u{FFFD}',
            };
            push_char(&mut s, c);
            proof {
                assert(is_scalar(x as int));
                assert(c == pair_char(a, lo));
                assert(rest[0] == a && rest[1] == lo);
                assert(rest.subrange(2, rest.len() as int) =~= u@.subrange(i + 2, n as int));
                assert(s@ + utf16_lossy(u@.subrange(i + 2, n as int)) =~= before + utf16_lossy(rest));
            }
            i += 2;
        } else {
            let c: char = if 0xD800 <= a && a < 0xE000 {
                '\u{FFFD}'
            } else {
                match char_from_u32(a as u32) {
                    Some(c) => c,
                    None => '\u{FFFD}',
                }
            };
            push_char(&mut s, c);
            proof {
                assert(rest[0] == a);
                assert(rest.len() >= 2 ==> rest[1] == u@[i + 1]);
                assert(rest.subrange(1, rest.len() as int) =~= u@.subrange(i + 1, n as int));
                assert(s@ + utf16_lossy(u@.subrange(i + 1, n as int)) =~= before + utf16_lossy(rest));
            }
            i += 1;
        }
    }
    assert(u@.subrange(i as int, n as int) =~= Seq::<u16>::empty());
    assert(s@ =~= utf16_lossy(u@));
    s
}

/// Reads the code units in a run of bytes.
pub fn read_units(b: &[u8]) -> (u: Vec<u16>)
    ensures
        u@ == units_of(b@),
{
    let mut u: Vec<u16> = Vec::new();
    let mut i: usize = 0;
    let len: usize = b.len();
    let n: usize = len / 2;
    while i < n
        invariant
            len == b@.len(),
            n == len / 2,
            u@.len() == i <= n,
            forall|k: int| 0 <= k < i ==> u@[k] == units_of(b@)[k],
        decreases n - i,
    {
        let lo: u8 = b[i + i];
        let hi: u8 = b[i + i + 1];
        u.push(lo as u16 + 256 * (hi as u16));
        i += 1;
    }
    assert(u@ =~= units_of(b@));
    u
}

/// Decodes UTF-16 bytes.
pub fn decode_utf16_bytes(b: &[u8]) -> (s: String)
    ensures
        s@ == utf16_lossy(units_of(b@)),
{
    let u = read_units(b);
    from_utf16_lossy(u.as_slice())
}

/// The characters of a text.
pub fn chars_of(s: &str) -> (v: Vec<char>)
    ensures
        v@ == s@,
{
    let mut v: Vec<char> = Vec::new();
    for c in it: s.chars()
        invariant
            it.seq() == s@,
            v@ == s@.take(it.index() as int),
    {
        v.push(c);
        assert(v@ =~= s@.take(it.index() + 1));
    }
    assert(v@ =~= s@);
    v
}

/// The text made of `c`.
pub fn text_of(c: &[char]) -> (s: String)
    ensures
        s@ == c@,
{
    let mut s = String::new();
    let mut i: usize = 0;
    while i < c.len()
        invariant
            i <= c@.len(),
            s@ == c@.take(i as int),
        decreases c@.len() - i,
    {
        push_char(&mut s, c[i]);
        i += 1;
        assert(s@ =~= c@.take(i as int));
    }
    assert(s@ =~= c@);
    s
}

/// The text made of the characters of `c` from `lo` up to `hi`.
pub fn text_of_range(c: &[char], lo: usize, hi: usize) -> (s: String)
    requires
        lo <= hi <= c@.len(),
    ensures
        s@ == c@.subrange(lo as int, hi as int),
{
    text_of(slice_subrange(c, lo, hi))
}

/// Whether two texts are the same.
pub fn same_text(a: &str, b: &str) -> (same: bool)
    ensures
        same == (a@ == b@),
{
    let x = chars_of(a);
    let y = chars_of(b);
    if x.len() != y.len() {
        return false;
    }
    let mut i: usize = 0;
    while i < x.len()
        invariant
            i <= x@.len(),
            x@.len() == y@.len(),
            x@ == a@,
            y@ == b@,
            forall|k: int| 0 <= k < i ==> x@[k] == y@[k],
        decreases x@.len() - i,
    {
        if x[i] != y[i] {
            return false;
        }
        i += 1;
    }
    assert(a@ =~= b@);
    true
}

/// The contents of a list of texts.
pub open spec fn texts(v: Seq<String>) -> Seq<Seq<char>> {
    v.map_values(|s: String| s@)
}

/// Whether `c` separates the components of a path.
pub open spec fn is_slash(c: char) -> bool {
    c == '\\' || c == '/'
}

/// The pieces of `s` between slashes; one more than there are slashes.
pub open spec fn pieces(s: Seq<char>) -> Seq<Seq<char>>
    decreases s.len(),
{
    if s.len() == 0 {
        seq![Seq::empty()]
    } else {
        let p = pieces(s.drop_last());
        if is_slash(s.last()) {
            p.push(Seq::empty())
        } else {
            p.update(p.len() - 1, p.last().push(s.last()))
        }
    }
}

/// No piece holds a slash.
pub proof fn lemma_pieces(s: Seq<char>)
    ensures
        pieces(s).len() > 0,
        forall|i: int, k: int| #![trigger pieces(s)[i][k]]
            0 <= i < pieces(s).len() && 0 <= k < pieces(s)[i].len() ==> !is_slash(pieces(s)[i][k]),
    decreases s.len(),
{
    if s.len() > 0 {
        lemma_pieces(s.drop_last());
    }
}

/// Splits a text at slashes.
pub fn split_slashes(s: &str) -> (r: Vec<String>)
    ensures
        texts(r@) == pieces(s@),
{
    let c = chars_of(s);
    let mut r: Vec<String> = Vec::new();
    let mut cur: Vec<char> = Vec::new();
    let mut i: usize = 0;
    assert(texts(r@).push(cur@) =~= pieces(c@.take(0)));
    while i < c.len()
        invariant
            i <= c@.len(),
            texts(r@).push(cur@) == pieces(c@.take(i as int)),
        decreases c@.len() - i,
    {
        let ghost before = texts(r@).push(cur@);
        assert(c@.take(i + 1).drop_last() =~= c@.take(i as int));
        let x: char = c[i];
        if x == '\\' || x == '/' {
            r.push(text_of(cur.as_slice()));
            cur = Vec::new();
            assert(texts(r@) =~= before);
            assert(texts(r@).push(cur@) =~= pieces(c@.take(i + 1)));
        } else {
            cur.push(x);
            assert(texts(r@).push(cur@) =~= pieces(c@.take(i + 1)));
        }
        i += 1;
    }
    assert(c@.take(i as int) =~= s@);
    let ghost before = texts(r@).push(cur@);
    r.push(text_of(cur.as_slice()));
    assert(texts(r@) =~= before);
    r
}

/// Whether `s` holds the character `x`.
pub fn text_has(s: &str, x: char) -> (r: bool)
    ensures
        r == s@.contains(x),
{
    let c = chars_of(s);
    let mut i: usize = 0;
    while i < c.len()
        invariant
            i <= c@.len(),
            c@ == s@,
            forall|k: int| 0 <= k < i ==> c@[k] != x,
        decreases c@.len() - i,
    {
        if c[i] == x {
            assert(s@[i as int] == x);
            return true;
        }
        i += 1;
    }
    false
}

/// The texts `a` and `b` in one.
pub fn concat(a: &str, b: &str) -> (s: String)
    ensures
        s@ == a@ + b@,
{
    let mut s = a.to_owned();
    s.append(b);
    s
}

/// A copy of a list of texts.
pub fn copy_texts(v: &Vec<String>) -> (r: Vec<String>)
    ensures
        texts(r@) == texts(v@),
{
    let mut r: Vec<String> = Vec::new();
    let mut i: usize = 0;
    while i < v.len()
        invariant
            i <= v@.len(),
            texts(r@) == texts(v@).take(i as int),
        decreases v@.len() - i,
    {
        let ghost done = texts(r@);
        let t = v[i].clone();
        assert(t@ == texts(v@)[i as int]);
        r.push(t);
        assert(texts(r@) =~= done.push(t@));
        i += 1;
        assert(texts(r@) =~= texts(v@).take(i as int));
    }
    assert(texts(v@).take(i as int) =~= texts(v@));
    r
}

/// The last piece of a text is what stands behind its last slash.
pub proof fn lemma_last_piece(front: Seq<char>, name: Seq<char>)
    requires
        forall|k: int| 0 <= k < name.len() ==> #[trigger] name[k] != '\\' && name[k] != '/',
        front.len() > 0 ==> front.last() == '\\' || front.last() == '/',
    ensures
        pieces(front + name).len() > 0,
        pieces(front + name).last() == name,
    decreases name.len(),
{
    let s = front + name;
    lemma_pieces(s);
    if name.len() == 0 {
        assert(s =~= front);
        if front.len() > 0 {
            lemma_pieces(front.drop_last());
        }
        assert(pieces(s).last() =~= name);
    } else {
        let short = name.drop_last();
        assert forall|k: int| 0 <= k < short.len() implies #[trigger] short[k] != '\\' && short[k] != '/' by {
            assert(short[k] == name[k]);
        }
        lemma_last_piece(front, short);
        assert(s.drop_last() =~= front + short);
        assert(s.last() == name[name.len() - 1]);
        assert(short.push(name.last()) =~= name);
    }
}

} // verus!
