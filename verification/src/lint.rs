//! The rule against numbers without a name.
use vstd::prelude::*;
use crate::handlers::{starts_with, text_starts_with};

verus! {

/// An integer literal and where it stands.
#[derive(Clone, Copy, Debug)]
pub struct LiteralUse {
    pub value: u128,
    /// A macro wrote it.
    pub from_expansion: bool,
    /// It defines a constant, an array length or a discriminant.
    pub in_const: bool,
    pub in_test: bool,
}

/// Whether a literal needs a name: it is neither 0 nor 1, its author wrote it in ordinary
/// code, and the crate is not one that defines the values of the wire.
pub open spec fn needs_name(u: LiteralUse, crate_name: Seq<char>) -> bool {
    u.value > 1 && !u.from_expansion && !u.in_const && !u.in_test && !text_starts_with(crate_name, "smb_proto"@)
}

/// Tells whether a literal needs a name.
pub fn is_magic(u: &LiteralUse, crate_name: &str) -> (r: bool)
    ensures
        r == needs_name(*u, crate_name@),
{
    u.value > 1 && !u.from_expansion && !u.in_const && !u.in_test && !starts_with(crate_name, "smb_proto")
}

/// Zero and one never need a name; any other number that its author wrote in ordinary code
/// does, outside the crates of the wire.
pub proof fn law_numbers_need_names(u: LiteralUse, crate_name: Seq<char>)
    ensures
        u.value == 0 || u.value == 1 ==> !needs_name(u, crate_name),
        u.in_test || u.in_const || u.from_expansion ==> !needs_name(u, crate_name),
        u.value >= 2 && !u.in_test && !u.in_const && !u.from_expansion && crate_name.len() < 9 ==> needs_name(u, crate_name),
{
    reveal_strlit("smb_proto");
}

} // verus!
