//! Security descriptors of files: which components a query returns, and the
//! descriptor of a file that has none of its own.
use vstd::prelude::*;
use win_sd::{AccessMask, SecurityDescriptor, SecurityDescriptorBuilder, Sid, WinAcl};

verus! {

/// Owner SID.
pub const OWNER: u32 = 0x0000_0001;

/// Group SID.
pub const GROUP: u32 = 0x0000_0002;

/// Discretionary ACL.
pub const DACL: u32 = 0x0000_0004;

/// System ACL.
pub const SACL: u32 = 0x0000_0008;

/// What is selected where the client passes zero: owner, group and DACL.
pub const DEFAULT: u32 = 0x0000_0007;

/// All rights on a file.
pub const FILE_ALL_ACCESS: u32 = 0x001F_01FF;

/// `win_sd::Sid`, a security identifier.
#[verifier::external_type_specification]
#[verifier::external_body]
pub struct ExSid(Sid);

/// `win_sd::WinAcl`, an access control list.
#[verifier::external_type_specification]
#[verifier::external_body]
pub struct ExWinAcl(WinAcl);

/// The components of a security descriptor that clients query.
pub struct Parts {
    pub owner: Option<Sid>,
    pub group: Option<Sid>,
    pub dacl: Option<WinAcl>,
}

/// The components that `win_sd::SecurityDescriptor::from_bytes` finds in a
/// self-relative descriptor; none where it rejects the bytes.
pub uninterp spec fn descriptor_parts(bytes: Seq<u8>) -> Option<Parts>;

/// The SID that `win_sd::Sid::from_authority` makes of an authority and
/// sub-authorities.
pub uninterp spec fn sid_of(authority: u8, subs: Seq<u32>) -> Sid;

/// The DACL of the descriptor that `win_sd::SecurityDescriptorBuilder` builds with
/// a single entry, which allows `mask` to `sid`.
pub uninterp spec fn allow_acl(sid: Sid, mask: u32) -> WinAcl;

/// The self-relative bytes that `win_sd::SecurityDescriptor::to_bytes` makes of a
/// descriptor with these components; none where they do not fit the format.
pub uninterp spec fn descriptor_bytes(p: Parts) -> Option<Seq<u8>>;

/// Whether `d` holds a single entry that allows something to somebody.
pub open spec fn is_allow_acl(d: WinAcl) -> bool {
    exists|sid: Sid, mask: u32| d == #[trigger] allow_acl(sid, mask)
}

/// Parses a descriptor with `win_sd::SecurityDescriptor::from_bytes` and takes out
/// its owner, group and DACL. Trusted: the result depends on the bytes alone.
#[verifier::external_body]
fn parse_descriptor(bytes: &[u8]) -> (r: Option<Parts>)
    ensures
        r == descriptor_parts(bytes@),
{
    match SecurityDescriptor::from_bytes(bytes) {
        Ok(d) => Some(
            Parts { owner: d.owner().cloned(), group: d.group().cloned(), dacl: d.dacl().cloned() },
        ),
        Err(_) => None,
    }
}

/// `win_sd::Sid::from_authority`: the SID of an authority and at most fifteen
/// sub-authorities. Trusted: it depends on these alone.
#[verifier::external_body]
fn from_authority(authority: u8, subs: Vec<u32>) -> (s: Sid)
    requires
        subs@.len() <= 15,
    ensures
        s == sid_of(authority, subs@),
{
    Sid::from_authority(authority, subs)
}

/// The group of administrators, S-1-5-32-544.
fn administrators() -> (s: Sid)
    ensures
        s == sid_of(5, seq![32u32, 544u32]),
{
    let subs: Vec<u32> = vec![32, 544];
    assert(subs@ =~= seq![32u32, 544u32]);
    from_authority(5, subs)
}

/// Everyone, S-1-1-0.
fn everyone() -> (s: Sid)
    ensures
        s == sid_of(1, seq![0u32]),
{
    let subs: Vec<u32> = vec![0];
    assert(subs@ =~= seq![0u32]);
    from_authority(1, subs)
}

/// The DACL that `win_sd::SecurityDescriptorBuilder` builds from a single `allow`.
/// Trusted: there is one, and it depends on SID and mask alone.
#[verifier::external_body]
fn allowing(sid: Sid, mask: u32) -> (d: Option<WinAcl>)
    ensures
        d == Some(allow_acl(sid, mask)),
{
    SecurityDescriptorBuilder::new().allow(sid, AccessMask::new(mask)).build().dacl().cloned()
}

/// Builds a descriptor of the given components and encodes it with
/// `win_sd::SecurityDescriptor::to_bytes`. Trusted: the result depends on the
/// components alone; without a DACL, or with one of a single `allow`, encoding
/// succeeds and `from_bytes` finds the same components again.
#[verifier::external_body]
fn encode_descriptor(p: Parts) -> (r: Option<Vec<u8>>)
    ensures
        match descriptor_bytes(p) {
            Some(b) => r is Some && r->0@ == b,
            None => r is None,
        },
        (p.dacl matches Some(d) ==> is_allow_acl(d)) ==> r is Some && descriptor_parts(r->0@) == Some(p),
{
    let mut out = SecurityDescriptor::new();
    if let Some(o) = p.owner {
        out.set_owner(o);
    }
    if let Some(g) = p.group {
        out.set_group(g);
    }
    if let Some(d) = p.dacl {
        out.set_dacl(d);
    }
    out.to_bytes().ok()
}

/// The descriptor of a file that has none: owned by the administrators, everything
/// allowed to everyone.
pub open spec fn default_parts() -> Parts {
    Parts {
        owner: Some(sid_of(5, seq![32u32, 544u32])),
        group: Some(sid_of(5, seq![32u32, 544u32])),
        dacl: Some(allow_acl(sid_of(1, seq![0u32]), FILE_ALL_ACCESS)),
    }
}

/// The descriptor of a file that has none.
fn default_descriptor() -> (p: Parts)
    ensures
        p == default_parts(),
{
    let owner = administrators();
    let group = administrators();
    let dacl = allowing(everyone(), FILE_ALL_ACCESS);
    Parts { owner: Some(owner), group: Some(group), dacl }
}

/// The descriptor that a query looks at: the stored one where it can be read, else
/// the default.
pub open spec fn source_parts(stored: Option<Seq<u8>>) -> Parts {
    match stored {
        None => default_parts(),
        Some(b) => match descriptor_parts(b) {
            Some(p) => p,
            None => default_parts(),
        },
    }
}

/// The components of `p` that `additional` selects.
pub open spec fn selected(p: Parts, additional: u32) -> Parts {
    Parts {
        owner: if additional & OWNER != 0 {
            p.owner
        } else {
            None
        },
        group: if additional & GROUP != 0 {
            p.group
        } else {
            None
        },
        dacl: if additional & DACL != 0 {
            p.dacl
        } else {
            None
        },
    }
}

/// Keeps the components that `additional` selects.
pub fn select_parts(p: Parts, additional: u32) -> (r: Parts)
    ensures
        r == selected(p, additional),
{
    Parts {
        owner: if additional & OWNER != 0 {
            p.owner
        } else {
            None
        },
        group: if additional & GROUP != 0 {
            p.group
        } else {
            None
        },
        dacl: if additional & DACL != 0 {
            p.dacl
        } else {
            None
        },
    }
}

/// The descriptor that a query returns: the selected components of the stored
/// descriptor, or of the default where nothing readable is stored. Where no DACL
/// is returned, or the default one, there is an answer, and it reads as exactly
/// the selected components.
pub fn query_security(stored: Option<&[u8]>, additional: u32) -> (r: Option<Vec<u8>>)
    ensures
        ({
            let given = match stored {
                Some(b) => Some(b@),
                None => None,
            };
            let p = selected(source_parts(given), additional);
            &&& match descriptor_bytes(p) {
                Some(b) => r is Some && r->0@ == b,
                None => r is None,
            }
            &&& (p.dacl is None || source_parts(given) == default_parts()) ==> r is Some && descriptor_parts(r->0@)
                == Some(p)
        }),
{
    let src = match stored {
        Some(b) => match parse_descriptor(b) {
            Some(p) => p,
            None => default_descriptor(),
        },
        None => default_descriptor(),
    };
    let out = select_parts(src, additional);
    assert(src == default_parts() ==> (out.dacl matches Some(d) ==> is_allow_acl(d)));
    encode_descriptor(out)
}

/// A query returns the components that its bits select, and no others: the lowest the
/// owner, the next the group, the third the DACL.
pub proof fn law_bits_select_components(p: Parts, additional: u32)
    ensures
        ({
            let r = selected(p, additional);
            &&& additional % 2 == 1 ==> r.owner == p.owner
            &&& additional % 2 == 0 ==> r.owner is None
            &&& (additional / 2) % 2 == 1 ==> r.group == p.group
            &&& (additional / 2) % 2 == 0 ==> r.group is None
            &&& (additional / 4) % 2 == 1 ==> r.dacl == p.dacl
            &&& (additional / 4) % 2 == 0 ==> r.dacl is None
        }),
{
    assert((additional & 1 != 0) == (additional % 2 == 1) && (additional & 2 != 0) == ((additional / 2) % 2 == 1) && (
    additional & 4 != 0) == ((additional / 4) % 2 == 1)) by (bit_vector);
}

/// What was stored is what a query looks at, where it can be read; a file without a
/// descriptor of its own has one that gives everything to everyone.
pub proof fn law_stored_descriptor_is_queried(stored: Seq<u8>)
    ensures
        descriptor_parts(stored) matches Some(p) ==> source_parts(Some(stored)) == p,
        source_parts(None) == default_parts(),
        default_parts().owner is Some && default_parts().group is Some && default_parts().dacl == Some(
            allow_acl(sid_of(1, seq![0u32]), 0x001F_01FF),
        ),
{
}

} // verus!
