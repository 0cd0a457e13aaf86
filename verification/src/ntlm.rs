//! NTLMSSP messages and the SPNEGO tokens around them.
use vstd::prelude::*;
use vstd::slice::slice_subrange;
use crate::bytes::{copy_range, find_bytes, get_u16, get_u32, le16, le32, le64, lemma_little, lemma_little_front, lemma_little_written, little, matches_at, put_bytes, put_u16, put_u32, put_u64, put_zeros, stands_at, u16_at, u32_at, zeros};
use crate::text::{chars_of, decode_utf16_bytes, encode_utf16_bytes, text_of_range, units_of, utf16_bytes, utf16_lossy};

verus! {

/// The eight bytes that open every NTLMSSP message.
pub const NTLMSSP_SIG: [u8; 8] = [0x4E, 0x54, 0x4C, 0x4D, 0x53, 0x53, 0x50, 0x00];

pub const MSG_TYPE1: u32 = 1;

pub const MSG_TYPE2: u32 = 2;

pub const MSG_TYPE3: u32 = 3;

pub const NTLMSSP_NEGOTIATE_UNICODE: u32 = 0x0000_0001;

pub const NTLMSSP_REQUEST_TARGET: u32 = 0x0000_0004;

pub const NTLMSSP_NEGOTIATE_NTLM: u32 = 0x0000_0200;

pub const NTLMSSP_NEGOTIATE_ANONYMOUS: u32 = 0x0000_0800;

pub const NTLMSSP_NEGOTIATE_DOMAIN_SUPPLIED: u32 = 0x0000_1000;

pub const NTLMSSP_NEGOTIATE_TARGET_INFO: u32 = 0x0080_0000;

pub const NTLMSSP_NEGOTIATE_128: u32 = 0x2000_0000;

pub const NTLMSSP_NEGOTIATE_KEY_EXCHANGE: u32 = 0x4000_0000;

pub const NTLMSSP_TARGET_TYPE_DOMAIN: u32 = 0x0001_0000;

/// EXTENDED_SESSIONSECURITY.
pub const NTLMSSP_EXTENDED_SECURITY: u32 = 0x0008_0000;

/// NEGOTIATE_VERSION: the message carries a Version structure.
pub const NTLMSSP_NEGOTIATE_VERSION: u32 = 0x0200_0000;

/// The fields of an AUTHENTICATE message.
#[derive(Debug)]
pub struct Type3 {
    pub user: String,
    pub domain: String,
    pub workstation: String,
    pub lm_response: Vec<u8>,
    pub ntlm_response: Vec<u8>,
    pub flags: u32,
}

/// The 32-bit integer at `off`; zero unless all four bytes are there.
pub open spec fn whole_u32(b: Seq<u8>, off: int) -> u32 {
    if off + 4 <= b.len() {
        u32_at(b, off)
    } else {
        0
    }
}

/// The 16-bit integer at `off`; zero unless both bytes are there.
pub open spec fn whole_u16(b: Seq<u8>, off: int) -> u16 {
    if off + 2 <= b.len() {
        u16_at(b, off)
    } else {
        0
    }
}

fn rd_u32(b: &[u8], off: usize) -> (v: u32)
    requires
        off < 0x10000,
    ensures
        v == whole_u32(b@, off as int),
{
    if off + 4 > b.len() {
        return 0;
    }
    get_u32(b, off)
}

fn rd_u16(b: &[u8], off: usize) -> (v: u16)
    requires
        off < 0x10000,
    ensures
        v == whole_u16(b@, off as int),
{
    if off + 2 > b.len() {
        return 0;
    }
    get_u16(b, off)
}

/// Whether `i` is the first place at which `pat` stands in `s`.
pub open spec fn first_stands_at(s: Seq<u8>, pat: Seq<u8>, i: int) -> bool {
    stands_at(s, pat, i) && forall|k: int| 0 <= k < i ==> !stands_at(s, pat, k)
}

/// The rest of `blob` from the first NTLMSSP signature on.
pub open spec fn inner_message(blob: Seq<u8>) -> Option<Seq<u8>> {
    if exists|i: int| #[trigger] first_stands_at(blob, NTLMSSP_SIG@, i) {
        let i = choose|i: int| #[trigger] first_stands_at(blob, NTLMSSP_SIG@, i);
        Some(blob.subrange(i, blob.len() as int))
    } else {
        None
    }
}

/// Where the signature first stands is where the inner message starts.
pub proof fn lemma_inner_message(blob: Seq<u8>, i: int)
    requires
        first_stands_at(blob, NTLMSSP_SIG@, i),
    ensures
        inner_message(blob) == Some(blob.subrange(i, blob.len() as int)),
{
    let j = choose|j: int| #[trigger] first_stands_at(blob, NTLMSSP_SIG@, j);
    assert(first_stands_at(blob, NTLMSSP_SIG@, j));
    if i < j {
        assert(!stands_at(blob, NTLMSSP_SIG@, i));
    } else if j < i {
        assert(!stands_at(blob, NTLMSSP_SIG@, j));
    }
}

/// Extracts the NTLMSSP message from a blob that may be wrapped in SPNEGO.
pub fn unwrap_blob(blob: &[u8]) -> (r: Option<&[u8]>)
    ensures
        match r {
            Some(m) => inner_message(blob@) == Some(m@),
            None => inner_message(blob@) is None,
        },
{
    let sig: [u8; 8] = NTLMSSP_SIG;
    match find_bytes(blob, sig.as_slice()) {
        Some(pos) => {
            proof {
                lemma_inner_message(blob@, pos as int);
            }
            Some(slice_subrange(blob, pos, blob.len()))
        },
        None => {
            assert forall|i: int| !#[trigger] first_stands_at(blob@, NTLMSSP_SIG@, i) by {
                assert(!stands_at(blob@, NTLMSSP_SIG@, i));
            }
            None
        },
    }
}

/// The type of an NTLMSSP message.
pub open spec fn message_type(b: Seq<u8>) -> Option<u32> {
    if b.len() < 12 || !stands_at(b, NTLMSSP_SIG@, 0) {
        None
    } else {
        Some(u32_at(b, 8))
    }
}

/// The type of an NTLMSSP message.
pub fn msg_type(blob: &[u8]) -> (r: Option<u32>)
    ensures
        r == message_type(blob@),
{
    let sig: [u8; 8] = NTLMSSP_SIG;
    if blob.len() < 12 || !matches_at(blob, sig.as_slice(), 0) {
        return None;
    }
    Some(rd_u32(blob, 8))
}

/// One AV_PAIR with a text value.
pub open spec fn av_pair(typ: u16, value: Seq<u8>) -> Seq<u8> {
    le16(typ) + le16((value.len() % 65536) as u16) + value
}

/// The TargetInfo of a challenge.
pub open spec fn target_info(domain: Seq<u8>, host: Seq<u8>, now: u64) -> Seq<u8> {
    av_pair(1, domain) + av_pair(2, host) + av_pair(3, domain) + av_pair(4, host) + le16(7) + le16(8) + le64(now)
        + le16(0) + le16(0)
}

/// The Version structure of a challenge.
pub open spec fn version_bytes(with_version: bool) -> Seq<u8> {
    if with_version {
        seq![0x0au8, 0x00u8, 0xf9u8, 0x38u8, 0x00u8, 0x00u8, 0x00u8, 0x0fu8]
    } else {
        seq![]
    }
}

/// Where the payload of a challenge starts.
pub open spec fn payload_base(with_version: bool) -> int {
    if with_version {
        56
    } else {
        48
    }
}

/// The first 32 bytes of a CHALLENGE message.
pub open spec fn type2_head(challenge: Seq<u8>, dom_len: int, base: int, flags: u32) -> Seq<u8> {
    NTLMSSP_SIG@ + le32(MSG_TYPE2) + le16((dom_len % 65536) as u16) + le16((dom_len % 65536) as u16) + le32(
        base as u32,
    ) + le32(flags) + challenge
}

/// A CHALLENGE message with the given flags.
pub open spec fn type2_bytes(
    challenge: Seq<u8>,
    domain: Seq<char>,
    host: Seq<char>,
    now: u64,
    flags: u32,
    with_version: bool,
) -> Seq<u8> {
    let dom = utf16_bytes(domain);
    let ti = target_info(dom, utf16_bytes(host), now);
    let base = payload_base(with_version);
    type2_head(challenge, dom.len() as int, base, flags) + zeros(8) + le16((ti.len() % 65536) as u16) + le16((ti.len() % 65536) as u16) + le32(
        ((base + dom.len()) % 0x1_0000_0000) as u32,
    ) + version_bytes(with_version) + dom + ti
}

/// The flags that every challenge offers.
pub open spec fn base_flags() -> u32 {
    NTLMSSP_NEGOTIATE_UNICODE | NTLMSSP_REQUEST_TARGET | NTLMSSP_NEGOTIATE_NTLM | NTLMSSP_EXTENDED_SECURITY
        | NTLMSSP_NEGOTIATE_TARGET_INFO | NTLMSSP_TARGET_TYPE_DOMAIN | NTLMSSP_NEGOTIATE_128
}

/// Settings that adjust a challenge for interoperability tests.
pub struct Type2Options {
    /// Comma-separated hexadecimal flags to grant, or to clear where a `-` stands in front.
    pub extra_flags: Option<String>,
    /// Clear the version flag before the Version structure is decided on.
    pub no_version_flag: bool,
    /// Leave out the Version structure.
    pub no_version: bool,
}

/// The flags of a challenge under the given settings.
pub open spec fn type2_flags(opts: Type2Options) -> u32 {
    let a = match opts.extra_flags {
        Some(s) => adjust_flags(base_flags(), flag_parts(s@)),
        None => base_flags(),
    };
    let b = if opts.no_version_flag {
        a & !NTLMSSP_NEGOTIATE_VERSION
    } else {
        a
    };
    if opts.no_version {
        b
    } else {
        b | NTLMSSP_NEGOTIATE_VERSION
    }
}

/// What `str::trim` leaves of the text `s`.
pub uninterp spec fn trimmed(s: Seq<char>) -> Seq<char>;

/// `str::trim`: `s` without the white space at its ends.
#[verifier::external_body]
pub(crate) fn trim_text(s: &str) -> (t: &str)
    ensures
        t@ == trimmed(s@),
{
    s.trim()
}

/// The pieces of `s` between commas.
pub open spec fn flag_parts(s: Seq<char>) -> Seq<Seq<char>>
    decreases s.len(),
{
    match last_comma(s, s.len() as int) {
        Some(i) => if 0 <= i < s.len() {
            flag_parts(s.subrange(0, i)).push(s.subrange(i + 1, s.len() as int))
        } else {
            seq![s]
        },
        None => seq![s],
    }
}

/// The last comma among the first `n` characters.
pub open spec fn last_comma(s: Seq<char>, n: int) -> Option<int>
    decreases n,
{
    if n <= 0 {
        None
    } else if s[n - 1] == ',' {
        Some(n - 1)
    } else {
        last_comma(s, n - 1)
    }
}

/// `s` without any number of `0x` in front.
pub open spec fn strip_0x(s: Seq<char>) -> Seq<char>
    decreases s.len(),
{
    if s.len() >= 2 && s[0] == '0' && s[1] == 'x' {
        strip_0x(s.subrange(2, s.len() as int))
    } else {
        s
    }
}

/// The value of a hexadecimal digit.
pub open spec fn hex_digit(c: char) -> Option<int> {
    if '0' <= c <= '9' {
        Some(c as int - '0' as int)
    } else if 'a' <= c <= 'f' {
        Some(c as int - 'a' as int + 10)
    } else if 'A' <= c <= 'F' {
        Some(c as int - 'A' as int + 10)
    } else {
        None
    }
}

/// The number that hexadecimal digits spell, if all of them are digits.
pub open spec fn hex_number(s: Seq<char>) -> Option<int>
    decreases s.len(),
{
    if s.len() == 0 {
        Some(0)
    } else {
        match (hex_number(s.drop_last()), hex_digit(s.last())) {
            (Some(n), Some(d)) => Some(16 * n + d),
            _ => None,
        }
    }
}

/// A 32-bit hexadecimal number with an optional plus sign.
pub open spec fn hex_u32(s: Seq<char>) -> Option<u32> {
    let d = if s.len() > 0 && s[0] == '+' {
        s.subrange(1, s.len() as int)
    } else {
        s
    };
    if d.len() == 0 {
        None
    } else {
        match hex_number(d) {
            Some(n) => if n <= u32::MAX {
                Some(n as u32)
            } else {
                None
            },
            None => None,
        }
    }
}

/// The flags after one piece of a flag list was applied.
pub open spec fn adjust_one(flags: u32, part: Seq<char>) -> u32 {
    let p = trimmed(part);
    if p.len() > 0 && p[0] == '-' {
        match hex_u32(strip_0x(p.subrange(1, p.len() as int))) {
            Some(v) => flags & !v,
            None => flags,
        }
    } else {
        match hex_u32(strip_0x(p)) {
            Some(v) => flags | v,
            None => flags,
        }
    }
}

/// The flags after all pieces of a flag list were applied, in order.
pub open spec fn adjust_flags(flags: u32, parts: Seq<Seq<char>>) -> u32
    decreases parts.len(),
{
    if parts.len() == 0 {
        flags
    } else {
        adjust_one(adjust_flags(flags, parts.drop_last()), parts.last())
    }
}

fn digit_of(c: char) -> (d: Option<u32>)
    ensures
        match d {
            Some(v) => hex_digit(c) == Some(v as int) && v < 16,
            None => hex_digit(c) is None,
        },
{
    if '0' <= c && c <= '9' {
        Some(c as u32 - '0' as u32)
    } else if 'a' <= c && c <= 'f' {
        Some(c as u32 - 'a' as u32 + 10)
    } else if 'A' <= c && c <= 'F' {
        Some(c as u32 - 'A' as u32 + 10)
    } else {
        None
    }
}

proof fn lemma_hex_prefix(s: Seq<char>, n: int)
    requires
        0 <= n <= s.len(),
        hex_number(s) is Some,
    ensures
        hex_number(s.take(n)) is Some,
        0 <= hex_number(s.take(n))->0 <= hex_number(s)->0,
    decreases s.len() - n,
{
    if n == s.len() {
        assert(s.take(n) =~= s);
        lemma_hex_nonneg(s);
    } else {
        lemma_hex_prefix(s, n + 1);
        assert(s.take(n + 1).drop_last() =~= s.take(n));
        lemma_hex_nonneg(s.take(n));
    }
}

proof fn lemma_hex_nonneg(s: Seq<char>)
    requires
        hex_number(s) is Some,
    ensures
        hex_number(s)->0 >= 0,
    decreases s.len(),
{
    if s.len() > 0 {
        lemma_hex_nonneg(s.drop_last());
    }
}

/// Reads a 32-bit hexadecimal number with an optional plus sign.
pub fn parse_hex_u32(s: &[char]) -> (r: Option<u32>)
    ensures
        r == hex_u32(s@),
{
    let d = if s.len() > 0 && s[0] == '+' {
        slice_subrange(s, 1, s.len())
    } else {
        s
    };
    if d.len() == 0 {
        return None;
    }
    let mut n: u64 = 0;
    let mut i: usize = 0;
    assert(d@.take(0) =~= Seq::<char>::empty());
    while i < d.len()
        invariant
            i <= d@.len(),
            d@.len() > 0,
            hex_u32(s@) == (match hex_number(d@) {
                Some(v) => if v <= u32::MAX {
                    Some(v as u32)
                } else {
                    None
                },
                None => None,
            }),
            n <= u32::MAX,
            hex_number(d@.take(i as int)) == Some(n as int),
        decreases d@.len() - i,
    {
        proof {
            assert(d@.take(i + 1).drop_last() =~= d@.take(i as int));
            if hex_number(d@) is Some {
                lemma_hex_prefix(d@, i + 1);
            }
        }
        match digit_of(d[i]) {
            Some(v) => {
                n = 16 * n + v as u64;
                if n > 0xFFFF_FFFF {
                    return None;
                }
            },
            None => {
                return None;
            },
        }
        i += 1;
    }
    assert(d@.take(i as int) =~= d@);
    Some(n as u32)
}

fn apply_part(flags: u32, part: &str) -> (r: u32)
    ensures
        r == adjust_one(flags, part@),
{
    let t = trim_text(part);
    let p = chars_of(t);
    let n: usize = p.len();
    let neg: bool = n > 0 && p[0] == '-';
    let mut at: usize = if neg {
        1
    } else {
        0
    };
    let ghost rest = p@.subrange(at as int, n as int);
    assert(!neg ==> rest =~= p@);
    while at < n && n - at >= 2 && p[at] == '0' && p[at + 1] == 'x'
        invariant
            at <= n == p@.len(),
            strip_0x(p@.subrange(at as int, n as int)) == strip_0x(rest),
        decreases n - at,
    {
        assert(p@.subrange(at as int, n as int).subrange(2, n - at) =~= p@.subrange(at + 2, n as int));
        at += 2;
    }
    let digits = slice_subrange(p.as_slice(), at, n);
    match parse_hex_u32(digits) {
        Some(v) => if neg {
            flags & !v
        } else {
            flags | v
        },
        None => flags,
    }
}

/// Applies a comma-separated flag list to `flags`.
pub fn apply_flag_list(flags: u32, list: &str) -> (r: u32)
    ensures
        r == adjust_flags(flags, flag_parts(list@)),
{
    let c = chars_of(list);
    assert(c@.take(c@.len() as int) =~= list@);
    apply_flag_range(flags, c.as_slice(), c.len())
}

fn apply_flag_range(flags: u32, c: &[char], n: usize) -> (r: u32)
    requires
        n <= c@.len(),
    ensures
        r == adjust_flags(flags, flag_parts(c@.take(n as int))),
    decreases n,
{
    let ghost s = c@.take(n as int);
    let mut i: usize = n;
    while i > 0 && c[i - 1] != ','
        invariant
            i <= n <= c@.len(),
            s == c@.take(n as int),
            last_comma(s, n as int) == last_comma(s, i as int),
        decreases i,
    {
        i -= 1;
    }
    let part = text_of_range(c, i, n);
    assert(part@ =~= s.subrange(i as int, n as int));
    if i == 0 {
        assert(s.subrange(0, n as int) =~= s);
        proof {
            let parts = flag_parts(s);
            assert(parts == seq![s]);
            reveal_with_fuel(adjust_flags, 2);
            assert(parts.drop_last() =~= Seq::<Seq<char>>::empty());
        }
        apply_part(flags, part.as_str())
    } else {
        let before = apply_flag_range(flags, c, i - 1);
        proof {
            assert(c@.take(i - 1) =~= s.subrange(0, i - 1));
            let parts = flag_parts(s);
            assert(parts == flag_parts(s.subrange(0, i - 1)).push(s.subrange(i as int, n as int)));
            assert(parts.drop_last() =~= flag_parts(s.subrange(0, i - 1)));
        }
        apply_part(before, part.as_str())
    }
}

fn put_av(ti: &mut Vec<u8>, typ: u16, value: &[u8])
    ensures
        final(ti)@ == old(ti)@ + av_pair(typ, value@),
{
    put_u16(ti, typ);
    put_u16(ti, (value.len() % 65536) as u16);
    put_bytes(ti, value);
    assert(ti@ =~= old(ti)@ + av_pair(typ, value@));
}

fn make_target_info(dom: &[u8], host: &[u8], now: u64) -> (ti: Vec<u8>)
    ensures
        ti@ == target_info(dom@, host@, now),
{
    let mut ti: Vec<u8> = Vec::new();
    put_av(&mut ti, 1, dom);
    assert(ti@ =~= av_pair(1, dom@));
    put_av(&mut ti, 2, host);
    put_av(&mut ti, 3, dom);
    put_av(&mut ti, 4, host);
    put_u16(&mut ti, 7);
    put_u16(&mut ti, 8);
    put_u64(&mut ti, now);
    put_u16(&mut ti, 0);
    put_u16(&mut ti, 0);
    ti
}

/// Builds a CHALLENGE message; `now` is the current FILETIME.
pub fn build_type2(challenge: &[u8; 8], domain: &str, hostname: &str, now: u64, opts: &Type2Options) -> (m: Vec<u8>)
    ensures
        m@ == type2_bytes(challenge@, domain@, hostname@, now, type2_flags(*opts), !opts.no_version),
{
    let dom = encode_utf16_bytes(domain);
    let host = encode_utf16_bytes(hostname);
    let ti = make_target_info(dom.as_slice(), host.as_slice(), now);
    let mut flags: u32 = NTLMSSP_NEGOTIATE_UNICODE | NTLMSSP_REQUEST_TARGET | NTLMSSP_NEGOTIATE_NTLM
        | NTLMSSP_EXTENDED_SECURITY | NTLMSSP_NEGOTIATE_TARGET_INFO | NTLMSSP_TARGET_TYPE_DOMAIN
        | NTLMSSP_NEGOTIATE_128;
    if let Some(list) = &opts.extra_flags {
        flags = apply_flag_list(flags, list.as_str());
    }
    if opts.no_version_flag {
        flags = flags & !NTLMSSP_NEGOTIATE_VERSION;
    }
    if !opts.no_version {
        flags = flags | NTLMSSP_NEGOTIATE_VERSION;
    }
    let base: usize = if opts.no_version {
        48
    } else {
        56
    };
    let sig: [u8; 8] = NTLMSSP_SIG;
    let dlen: u16 = (dom.len() % 65536) as u16;
    let tlen: u16 = (ti.len() % 65536) as u16;
    let toff: u128 = (base as u128 + dom.len() as u128) % 0x1_0000_0000;
    let mut m: Vec<u8> = copy_range(sig.as_slice(), 0, 8);
    assert(m@ =~= NTLMSSP_SIG@);
    put_u32(&mut m, MSG_TYPE2);
    put_u16(&mut m, dlen);
    put_u16(&mut m, dlen);
    put_u32(&mut m, base as u32);
    put_u32(&mut m, flags);
    put_bytes(&mut m, challenge.as_slice());
    put_zeros(&mut m, 8);
    put_u16(&mut m, tlen);
    put_u16(&mut m, tlen);
    put_u32(&mut m, toff as u32);
    let version = make_version(!opts.no_version);
    put_bytes(&mut m, version.as_slice());
    put_bytes(&mut m, dom.as_slice());
    put_bytes(&mut m, ti.as_slice());
    m
}

fn make_version(with_version: bool) -> (v: Vec<u8>)
    ensures
        v@ == version_bytes(with_version),
{
    let mut v: Vec<u8> = Vec::new();
    if with_version {
        v.push(0x0a);
        v.push(0x00);
        v.push(0xf9);
        v.push(0x38);
        v.push(0x00);
        v.push(0x00);
        v.push(0x00);
        v.push(0x0f);
    }
    assert(v@ =~= version_bytes(with_version));
    v
}

/// The payload that a length field and an offset field of a message name; empty
/// where it does not lie within the message.
pub open spec fn message_field(b: Seq<u8>, len_off: int, off_off: int) -> Seq<u8> {
    let len = whole_u16(b, len_off) as int;
    let off = whole_u32(b, off_off) as int;
    if len == 0 || off + len > b.len() {
        Seq::empty()
    } else {
        b.subrange(off, off + len)
    }
}

/// Whether `t` holds the fields of the AUTHENTICATE message `b`.
pub open spec fn is_type3_of(t: Type3, b: Seq<u8>) -> bool {
    &&& t.lm_response@ == message_field(b, 12, 16)
    &&& t.ntlm_response@ == message_field(b, 20, 24)
    &&& t.domain@ == utf16_lossy(units_of(message_field(b, 28, 32)))
    &&& t.user@ == utf16_lossy(units_of(message_field(b, 36, 40)))
    &&& t.workstation@ == utf16_lossy(units_of(message_field(b, 44, 48)))
    &&& t.flags == whole_u32(b, 60)
}

fn field(b: &[u8], len_off: usize, off_off: usize) -> (v: Vec<u8>)
    requires
        len_off < 0x10000,
        off_off < 0x10000,
    ensures
        v@ == message_field(b@, len_off as int, off_off as int),
{
    let len: usize = rd_u16(b, len_off) as usize;
    let off: u64 = rd_u32(b, off_off) as u64;
    if len == 0 || off + len as u64 > b.len() as u64 {
        return Vec::new();
    }
    copy_range(b, off as usize, off as usize + len)
}

/// Parses an AUTHENTICATE message.
pub fn parse_type3(blob: &[u8]) -> (r: Option<Type3>)
    ensures
        r is Some <==> blob@.len() >= 32 && message_type(blob@) == Some(MSG_TYPE3),
        r matches Some(t) ==> is_type3_of(t, blob@),
{
    if blob.len() < 32 {
        return None;
    }
    match msg_type(blob) {
        Some(t) => {
            if t != MSG_TYPE3 {
                return None;
            }
        },
        None => {
            return None;
        },
    }
    let domain = field(blob, 28, 32);
    let user = field(blob, 36, 40);
    let workstation = field(blob, 44, 48);
    Some(
        Type3 {
            lm_response: field(blob, 12, 16),
            ntlm_response: field(blob, 20, 24),
            domain: decode_utf16_bytes(domain.as_slice()),
            user: decode_utf16_bytes(user.as_slice()),
            workstation: decode_utf16_bytes(workstation.as_slice()),
            flags: rd_u32(blob, 60),
        },
    )
}

// ---------------- DER and SPNEGO ----------------

/// A DER length in at most three bytes.
pub open spec fn der_length(len: int) -> Seq<u8> {
    if len < 0x80 {
        seq![len as u8]
    } else if len < 0x100 {
        seq![0x81u8, len as u8]
    } else {
        seq![0x82u8, ((len / 256) % 256) as u8, (len % 256) as u8]
    }
}

/// A DER element.
pub open spec fn der(tag: u8, content: Seq<u8>) -> Seq<u8> {
    seq![tag] + der_length(content.len() as int) + content
}

fn der_len(len: usize) -> (v: Vec<u8>)
    ensures
        v@ == der_length(len as int),
{
    let mut v: Vec<u8> = Vec::new();
    if len < 0x80 {
        v.push(len as u8);
    } else if len < 0x100 {
        v.push(0x81);
        v.push(len as u8);
    } else {
        v.push(0x82);
        v.push(((len / 256) % 256) as u8);
        v.push((len % 256) as u8);
    }
    assert(v@ =~= der_length(len as int));
    v
}

fn der_tlv(tag: u8, content: &[u8]) -> (out: Vec<u8>)
    ensures
        out@ == der(tag, content@),
{
    let mut out: Vec<u8> = Vec::new();
    out.push(tag);
    assert(out@ =~= seq![tag]);
    let l = der_len(content.len());
    put_bytes(&mut out, l.as_slice());
    put_bytes(&mut out, content);
    out
}

/// The object identifier of NTLMSSP, 1.3.6.1.4.1.311.2.2.10.
pub const NTLMSSP_OID: [u8; 10] = [0x2b, 0x06, 0x01, 0x04, 0x01, 0x82, 0x37, 0x02, 0x02, 0x0a];

/// The negResult element of a NegTokenTarg.
pub open spec fn neg_result(code: u8) -> Seq<u8> {
    der(0xA0, der(0x0A, seq![code]))
}

/// A NegTokenTarg that accepts so far and carries `token`.
pub open spec fn negtoken_targ(token: Seq<u8>) -> Seq<u8> {
    der(
        0xA1,
        der(0x30, neg_result(0x01) + der(0xA1, der(0x06, NTLMSSP_OID@)) + der(0xA2, der(0x04, token))),
    )
}

/// A NegTokenTarg that accepts for good.
pub open spec fn accept_complete() -> Seq<u8> {
    der(0xA1, der(0x30, neg_result(0x00)))
}

fn make_neg_result(code: u8) -> (v: Vec<u8>)
    ensures
        v@ == neg_result(code),
{
    let mut c: Vec<u8> = Vec::new();
    c.push(code);
    assert(c@ =~= seq![code]);
    let inner = der_tlv(0x0A, c.as_slice());
    der_tlv(0xA0, inner.as_slice())
}

/// Wraps an NTLMSSP token in a NegTokenTarg that accepts so far and names NTLMSSP.
pub fn wrap_negtoken_targ(token: &[u8]) -> (v: Vec<u8>)
    ensures
        v@ == negtoken_targ(token@),
{
    let oid: [u8; 10] = NTLMSSP_OID;
    let mut seq_content = make_neg_result(0x01);
    let m = der_tlv(0x06, oid.as_slice());
    let mech = der_tlv(0xA1, m.as_slice());
    let t = der_tlv(0x04, token);
    let resp = der_tlv(0xA2, t.as_slice());
    put_bytes(&mut seq_content, mech.as_slice());
    put_bytes(&mut seq_content, resp.as_slice());
    let inner = der_tlv(0x30, seq_content.as_slice());
    der_tlv(0xA1, inner.as_slice())
}

/// Whether a blob looks wrapped in SPNEGO.
pub open spec fn looks_spnego(b: Seq<u8>) -> bool {
    b.len() > 0 && (b[0] == 0x60 || b[0] == 0xA1) || b.len() > 1 && b[0] == 0x06
}

/// Whether a blob looks wrapped in SPNEGO.
pub fn is_spnego(blob: &[u8]) -> (r: bool)
    ensures
        r == looks_spnego(blob@),
{
    blob.len() > 0 && (blob[0] == 0x60 || blob[0] == 0xA1) || blob.len() > 1 && blob[0] == 0x06
}

/// A NegTokenTarg that accepts for good and carries no token.
pub fn wrap_accept_complete() -> (v: Vec<u8>)
    ensures
        v@ == accept_complete(),
{
    let r = make_neg_result(0x00);
    let inner = der_tlv(0x30, r.as_slice());
    der_tlv(0xA1, inner.as_slice())
}

/// The length that a DER element announces behind its tag.
pub open spec fn der_announced(b: Seq<u8>) -> int {
    if b[1] < 0x80 {
        b[1] as int
    } else if b[1] == 0x81 {
        b[2] as int
    } else {
        b[2] * 256 + b[3]
    }
}

/// How many bytes tag and length of a DER element take.
pub open spec fn der_head(b: Seq<u8>) -> int {
    if b[1] < 0x80 {
        2
    } else if b[1] == 0x81 {
        3
    } else {
        4
    }
}

/// The signature in the contents of an element is the first in the element.
proof fn lemma_sig_in_der(tag: u8, c: Seq<u8>, i: int)
    requires
        first_stands_at(c, NTLMSSP_SIG@, i),
        tag != 0x4E,
        c[0] != 0x54,
        c[0] != 0x4C,
    ensures
        ({
            let b = der(tag, c);
            let h = 1 + der_length(c.len() as int).len();
            &&& first_stands_at(b, NTLMSSP_SIG@, h + i)
            &&& b.subrange(h + i, b.len() as int) == c.subrange(i, c.len() as int)
        }),
{
    let b = der(tag, c);
    let h = 1 + der_length(c.len() as int).len() as int;
    let sig = NTLMSSP_SIG@;
    assert(sig[0] == 0x4E && sig[1] == 0x54 && sig[2] == 0x4C && sig.len() == 8);
    assert forall|k: int| 0 <= k < c.len() implies b[h + k] == c[k] by {}
    assert(b.subrange(h + i, h + i + 8) =~= c.subrange(i, i + 8));
    assert(b.subrange(h + i, b.len() as int) =~= c.subrange(i, c.len() as int));
    assert forall|k: int| 0 <= k < h + i implies !stands_at(b, sig, k) by {
        if stands_at(b, sig, k) {
            assert(b.subrange(k, k + 8)[0] == b[k]);
            assert(b.subrange(k, k + 8)[1] == b[k + 1]);
            assert(b.subrange(k, k + 8)[2] == b[k + 2]);
            if k >= h {
                assert(c.subrange(k - h, k - h + 8) =~= b.subrange(k, k + 8));
                assert(!stands_at(c, sig, k - h));
            } else {
                assert(b[h] == c[0]);
                assert(b[0] == tag);
            }
        }
    }
}

/// The signature behind a stretch without its first letter is the first.
proof fn lemma_sig_behind(f: Seq<u8>, c: Seq<u8>, i: int)
    requires
        first_stands_at(c, NTLMSSP_SIG@, i),
        forall|k: int| 0 <= k < f.len() ==> f[k] != 0x4E,
    ensures
        first_stands_at(f + c, NTLMSSP_SIG@, f.len() + i),
        (f + c).subrange(f.len() + i, (f + c).len() as int) == c.subrange(i, c.len() as int),
{
    let b = f + c;
    let h = f.len() as int;
    let sig = NTLMSSP_SIG@;
    assert(sig[0] == 0x4E && sig.len() == 8);
    assert(b.subrange(h + i, h + i + 8) =~= c.subrange(i, i + 8));
    assert(b.subrange(h + i, b.len() as int) =~= c.subrange(i, c.len() as int));
    assert forall|k: int| 0 <= k < h + i implies !stands_at(b, sig, k) by {
        if stands_at(b, sig, k) {
            assert(b.subrange(k, k + 8)[0] == b[k]);
            if k >= h {
                assert(c.subrange(k - h, k - h + 8) =~= b.subrange(k, k + 8));
                assert(!stands_at(c, sig, k - h));
            } else {
                assert(b[k] == f[k]);
            }
        }
    }
}

/// A token that starts with the signature comes back from its wrapping, which is a single
/// DER element that ends with the token.
pub proof fn law_wrapped_token_comes_back(token: Seq<u8>)
    requires
        stands_at(token, NTLMSSP_SIG@, 0),
        token.len() <= 60000,
    ensures
        ({
            let b = negtoken_targ(token);
            &&& inner_message(b) == Some(token)
            &&& looks_spnego(b)
            &&& b[0] == 0xA1
            &&& der_head(b) + der_announced(b) == b.len()
            &&& b.subrange(b.len() - token.len(), b.len() as int) == token
        }),
{
    let f = mech_choice();
    let w = der(0x04, token);
    let v = der(0xA2, w);
    let z = f + v;
    let y = der(0x30, z);
    let b = negtoken_targ(token);
    lemma_mech_choice();
    assert(token.subrange(0, 8)[0] == token[0]);
    assert(token.subrange(0, token.len() as int) =~= token);
    lemma_wrapped(0x04, token, token);
    lemma_wrapped(0xA2, w, token);
    let i = choose|i: int| carries(v, token, i);
    lemma_sig_behind(f, v, i);
    assert(carries(z, token, f.len() + i));
    lemma_wrapped(0x30, z, token);
    lemma_wrapped(0xA1, y, token);
    assert(b == der(0xA1, y));
    let k = choose|k: int| carries(b, token, k);
    lemma_inner_message(b, k);
    lemma_der_len(0xA1, y);
    assert(z.len() <= 60100) by {
        lemma_der_size(0x04, token);
        lemma_der_size(0xA2, w);
    }
    lemma_der_size(0x30, z);
}

/// The first two parts of a NegTokenTarg that carries a token.
spec fn mech_choice() -> Seq<u8> {
    neg_result(0x01) + der(0xA1, der(0x06, NTLMSSP_OID@))
}

proof fn lemma_mech_choice()
    ensures
        mech_choice().len() == 19,
        mech_choice()[0] == 0xA0,
        forall|k: int| 0 <= k < mech_choice().len() ==> mech_choice()[k] != 0x4E,
{
    assert(mech_choice() =~= seq![
        0xA0u8, 3u8, 0x0Au8, 1u8, 1u8, 0xA1u8, 12u8, 6u8, 10u8, 0x2bu8, 0x06u8, 0x01u8, 0x04u8, 0x01u8, 0x82u8, 0x37u8,
        0x02u8, 0x02u8, 0x0au8,
    ]);
}

/// Whether the first signature in `b` stands at `i`, and `token` from there to the end.
spec fn carries(b: Seq<u8>, token: Seq<u8>, i: int) -> bool {
    &&& first_stands_at(b, NTLMSSP_SIG@, i)
    &&& 0 <= i
    &&& b.subrange(i, b.len() as int) == token
}

proof fn lemma_wrapped(tag: u8, c: Seq<u8>, token: Seq<u8>)
    requires
        c == token && stands_at(token, NTLMSSP_SIG@, 0) || exists|i: int| carries(c, token, i),
        tag != 0x4E,
        c[0] != 0x54,
        c[0] != 0x4C,
    ensures
        exists|i: int| carries(der(tag, c), token, i),
        der(tag, c)[0] == tag,
{
    let i: int = if c == token && stands_at(token, NTLMSSP_SIG@, 0) {
        0
    } else {
        choose|i: int| carries(c, token, i)
    };
    assert(c.subrange(0, c.len() as int) =~= c);
    assert(first_stands_at(c, NTLMSSP_SIG@, i) && c.subrange(i, c.len() as int) == token);
    lemma_sig_in_der(tag, c, i);
    assert(carries(der(tag, c), token, 1 + der_length(c.len() as int).len() + i));
}

proof fn lemma_der_size(tag: u8, c: Seq<u8>)
    ensures
        der(tag, c).len() <= c.len() + 4,
{
}

proof fn lemma_der_len(tag: u8, c: Seq<u8>)
    ensures
        c.len() < 65536 ==> der_head(der(tag, c)) + der_announced(der(tag, c)) == der(tag, c).len(),
{
    let n = c.len() as int;
    let b = der(tag, c);
    assert(b[1] == der_length(n)[0]);
    if n >= 0x80 {
        assert(b[2] == der_length(n)[1]);
    }
    if n >= 0x100 {
        assert(b[3] == der_length(n)[2]);
    }
}

/// A challenge names its type and its own challenge bytes where a client looks
/// for them.
pub proof fn law_type2_readable(
    challenge: Seq<u8>,
    domain: Seq<char>,
    host: Seq<char>,
    now: u64,
    flags: u32,
    with_version: bool,
)
    requires
        challenge.len() == 8,
    ensures
        ({
            let m = type2_bytes(challenge, domain, host, now, flags, with_version);
            &&& message_type(m) == Some(MSG_TYPE2)
            &&& whole_u32(m, 20) == flags
            &&& m.subrange(24, 32) == challenge
        }),
{
    let m = type2_bytes(challenge, domain, host, now, flags, with_version);
    let dom = utf16_bytes(domain);
    let h = type2_head(challenge, dom.len() as int, payload_base(with_version), flags);
    lemma_type2_head(challenge, dom.len() as int, payload_base(with_version), flags);
    assert forall|i: int| 0 <= i < 32 implies m[i] == h[i] by {}
    assert(m.subrange(0, 8) =~= h.subrange(0, 8));
    assert(m.subrange(24, 32) =~= h.subrange(24, 32));
}

proof fn lemma_type2_head(challenge: Seq<u8>, dom_len: int, base: int, flags: u32)
    requires
        challenge.len() == 8,
    ensures
        ({
            let h = type2_head(challenge, dom_len, base, flags);
            &&& h.len() == 32
            &&& h.subrange(0, 8) == NTLMSSP_SIG@
            &&& u32_at(h, 8) == MSG_TYPE2
            &&& u32_at(h, 20) == flags
            &&& h.subrange(24, 32) == challenge
        }),
{
    let h = type2_head(challenge, dom_len, base, flags);
    assert(h.subrange(0, 8) =~= NTLMSSP_SIG@);
    assert(h.subrange(24, 32) =~= challenge);
    assert(h[8] == le32(MSG_TYPE2)[0] && h[9] == le32(MSG_TYPE2)[1] && h[10] == le32(MSG_TYPE2)[2] && h[11] == le32(
        MSG_TYPE2,
    )[3]);
    assert(h[20] == le32(flags)[0] && h[21] == le32(flags)[1] && h[22] == le32(flags)[2] && h[23] == le32(flags)[3]);
}

/// A challenge says that it is one, carries the challenge of the connection, and names the
/// domain at the place and for the length it gives.
#[verifier::rlimit(40)]
#[verifier::spinoff_prover]
pub proof fn law_challenge_fields(challenge: Seq<u8>, domain: Seq<char>, host: Seq<char>, now: u64, flags: u32, version: bool)
    requires
        challenge.len() == 8,
        utf16_bytes(domain).len() < 0x1_0000,
    ensures
        ({
            let b = type2_bytes(challenge, domain, host, now, flags, version);
            let n = utf16_bytes(domain).len() as int;
            let at: int = if version {
                56
            } else {
                48
            };
            &&& b.subrange(0, 8) == NTLMSSP_SIG@
            &&& little(b, 8, 4) == 2
            &&& little(b, 12, 2) == n
            &&& little(b, 16, 4) == at
            &&& little(b, 20, 4) == flags
            &&& b.subrange(24, 32) == challenge
            &&& b.subrange(at, at + n) == utf16_bytes(domain)
        }),
{
    let dom = utf16_bytes(domain);
    let n = dom.len() as int;
    let at = payload_base(version);
    let h = type2_head(challenge, n, at, flags);
    let ti = target_info(dom, utf16_bytes(host), now);
    let t = (ti.len() % 65536) as u16;
    let mid = zeros(8) + le16(t) + le16(t) + le32(((at + n) % 0x1_0000_0000) as u32) + version_bytes(version);
    let b = type2_bytes(challenge, domain, host, now, flags, version);
    lemma_head_fields(challenge, n, at, flags);
    lemma_behind_head(h, mid, dom, ti);
    assert(b =~= h + mid + dom + ti);
}

#[verifier::rlimit(40)]
#[verifier::spinoff_prover]
proof fn lemma_behind_head(h: Seq<u8>, mid: Seq<u8>, dom: Seq<u8>, ti: Seq<u8>)
    requires
        h.len() == 32,
    ensures
        ({
            let b = h + mid + dom + ti;
            let at = 32 + mid.len() as int;
            &&& b.subrange(0, 8) == h.subrange(0, 8)
            &&& little(b, 8, 4) == little(h, 8, 4)
            &&& little(b, 12, 2) == little(h, 12, 2)
            &&& little(b, 16, 4) == little(h, 16, 4)
            &&& little(b, 20, 4) == little(h, 20, 4)
            &&& b.subrange(24, 32) == h.subrange(24, 32)
            &&& b.subrange(at, at + dom.len()) == dom
        }),
{
    let b = h + mid + dom + ti;
    let rest = mid + dom + ti;
    assert(b =~= h + rest);
    lemma_little_front(h, rest, 8, 4);
    lemma_little_front(h, rest, 12, 2);
    lemma_little_front(h, rest, 16, 4);
    lemma_little_front(h, rest, 20, 4);
    assert(b.subrange(0, 8) =~= h.subrange(0, 8));
    assert(b.subrange(24, 32) =~= h.subrange(24, 32));
    assert(b.subrange(32 + mid.len() as int, 32 + mid.len() as int + dom.len()) =~= dom);
}

#[verifier::rlimit(40)]
#[verifier::spinoff_prover]
proof fn lemma_head_fields(challenge: Seq<u8>, n: int, at: int, flags: u32)
    requires
        challenge.len() == 8,
        0 <= n < 0x1_0000,
        at == 48 || at == 56,
    ensures
        ({
            let h = type2_head(challenge, n, at, flags);
            &&& h.len() == 32
            &&& h.subrange(0, 8) == NTLMSSP_SIG@
            &&& little(h, 8, 4) == 2
            &&& little(h, 12, 2) == n
            &&& little(h, 16, 4) == at
            &&& little(h, 20, 4) == flags
            &&& h.subrange(24, 32) == challenge
        }),
{
    let sig = NTLMSSP_SIG@;
    let d = (n % 65536) as u16;
    let h = type2_head(challenge, n, at, flags);
    let q0 = le16(d) + le16(d) + le32(at as u32) + le32(flags) + challenge;
    assert(h =~= sig + le32(2) + q0);
    lemma_little_written(sig, 0, 2, 0, q0);
    let p1 = sig + le32(2);
    let q1 = le16(d) + le32(at as u32) + le32(flags) + challenge;
    assert(h =~= p1 + le16(d) + q1);
    lemma_little_written(p1, d, 0, 0, q1);
    let p2 = p1 + le16(d) + le16(d);
    assert(h =~= p2 + le32(at as u32) + (le32(flags) + challenge));
    lemma_little_written(p2, 0, at as u32, 0, le32(flags) + challenge);
    let p3 = p2 + le32(at as u32);
    assert(h =~= p3 + le32(flags) + challenge);
    lemma_little_written(p3, 0, flags, 0, challenge);
    assert(h.subrange(0, 8) =~= sig);
    assert(h.subrange(24, 32) =~= challenge);
}

/// A field of a message is what stands at the offset and for the length that it gives, as
/// far as that lies within the message.
pub proof fn law_message_fields(b: Seq<u8>, len_off: int, off_off: int)
    requires
        0 <= len_off,
        0 <= off_off,
        len_off + 2 <= b.len(),
        off_off + 4 <= b.len(),
    ensures
        ({
            let n = little(b, len_off, 2);
            let at = little(b, off_off, 4);
            &&& at + n <= b.len() ==> message_field(b, len_off, off_off) == b.subrange(at, at + n)
            &&& at + n > b.len() ==> message_field(b, len_off, off_off).len() == 0
        }),
{
    lemma_little(b, len_off);
    lemma_little(b, off_off);
    let n = little(b, len_off, 2);
    let at = little(b, off_off, 4);
    if n == 0 && at <= b.len() {
        assert(b.subrange(at, at) =~= Seq::<u8>::empty());
    }
}

/// The name, the domain and the answers of a login are the fields that its message gives
/// them in: each at its place.
pub proof fn law_login_fields(t: Type3, b: Seq<u8>)
    requires
        is_type3_of(t, b),
    ensures
        t.user@ == utf16_lossy(units_of(message_field(b, 36, 40))),
        t.domain@ == utf16_lossy(units_of(message_field(b, 28, 32))),
        t.ntlm_response@ == message_field(b, 20, 24),
        t.lm_response@ == message_field(b, 12, 16),
{
}

/// A flag list sets the flags that it names, and clears those behind a minus sign.
pub proof fn law_flag_lists_set_and_clear(flags: u32, part: Seq<char>)
    ensures
        ({
            let p = trimmed(part);
            let set = hex_u32(strip_0x(p));
            let clear = hex_u32(strip_0x(p.subrange(1, p.len() as int)));
            let r = adjust_one(flags, part);
            &&& p.len() > 0 && p[0] == '-' && clear is Some ==> r & clear->0 == 0 && r & !clear->0 == flags & !clear->0
            &&& (p.len() == 0 || p[0] != '-') && set is Some ==> r & set->0 == set->0 && r & !set->0 == flags & !set->0
        }),
{
    let p = trimmed(part);
    let v = match hex_u32(strip_0x(p)) {
        Some(v) => v,
        None => 0,
    };
    let w = match hex_u32(strip_0x(p.subrange(1, p.len() as int))) {
        Some(w) => w,
        None => 0,
    };
    assert((flags | v) & v == v && (flags | v) & !v == flags & !v && (flags & !w) & w == 0 && (flags & !w) & !w == flags & !w)
        by (bit_vector);
}

} // verus!
