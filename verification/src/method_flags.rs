//! The access flags of a method.

use vstd::prelude::*;
use crate::flag_names::{flags_string, flags_text, table_view};

verus! {

/// The modifiers of a method, one bit each. Bits without a name are kept as
/// they are. The view is the sixteen bits.
#[derive(Debug, PartialEq, Eq, Structural, Clone, Copy)]
pub struct MethodFlags {
    bits: u16,
}

impl View for MethodFlags {
    type V = u16;

    closed spec fn view(&self) -> u16 {
        self.bits
    }
}

/// The names of the bits of a method, lowest bit first.
pub open spec fn method_flag_names() -> Seq<(u16, Seq<char>)> {
    seq![
        (0x0001u16, "PUBLIC"@),
        (0x0002u16, "PRIVATE"@),
        (0x0004u16, "PROTECTED"@),
        (0x0008u16, "STATIC"@),
        (0x0010u16, "FINAL"@),
        (0x0020u16, "SYNCHRONIZED"@),
        (0x0040u16, "BRIDGE"@),
        (0x0080u16, "VARARGS"@),
        (0x0100u16, "NATIVE"@),
        (0x0400u16, "ABSTRACT"@),
        (0x0800u16, "STRICT"@),
        (0x1000u16, "SYNTHETIC"@),
    ]
}

/// The names of the bits of a method, lowest bit first.
fn name_table() -> (table: Vec<(u16, &'static str)>)
    ensures
        table_view(table@) == method_flag_names(),
{
    let table = vec![
        (0x0001u16, "PUBLIC"),
        (0x0002u16, "PRIVATE"),
        (0x0004u16, "PROTECTED"),
        (0x0008u16, "STATIC"),
        (0x0010u16, "FINAL"),
        (0x0020u16, "SYNCHRONIZED"),
        (0x0040u16, "BRIDGE"),
        (0x0080u16, "VARARGS"),
        (0x0100u16, "NATIVE"),
        (0x0400u16, "ABSTRACT"),
        (0x0800u16, "STRICT"),
        (0x1000u16, "SYNTHETIC"),
    ];
    assert(table_view(table@) =~= method_flag_names());
    table
}

impl MethodFlags {
    pub const PUBLIC: u16 = 0x0001;

    pub const PRIVATE: u16 = 0x0002;

    pub const PROTECTED: u16 = 0x0004;

    pub const STATIC: u16 = 0x0008;

    pub const FINAL: u16 = 0x0010;

    pub const SYNCHRONIZED: u16 = 0x0020;

    pub const BRIDGE: u16 = 0x0040;

    pub const VARARGS: u16 = 0x0080;

    pub const NATIVE: u16 = 0x0100;

    pub const ABSTRACT: u16 = 0x0400;

    pub const STRICT: u16 = 0x0800;

    pub const SYNTHETIC: u16 = 0x1000;

    /// The set with exactly the bits of `bits`.
    pub fn from_bits_retain(bits: u16) -> (flags: MethodFlags)
        ensures
            flags@ == bits,
    {
        MethodFlags { bits }
    }

    /// The set without any bit.
    pub fn empty() -> (flags: MethodFlags)
        ensures
            flags@ == 0,
    {
        MethodFlags { bits: 0 }
    }

    /// The bits of this set.
    pub fn bits(&self) -> (bits: u16)
        ensures
            bits == self@,
    {
        self.bits
    }

    /// Whether every bit of `mask` is set.
    pub fn contains(&self, mask: u16) -> (all: bool)
        ensures
            all == (self@ & mask == mask),
    {
        self.bits & mask == mask
    }

    /// The names of the bits that are set, with ` | ` between them.
    pub fn to_string(&self) -> (text: String)
        ensures
            text@ == flags_text(self@, method_flag_names()),
    {
        let table = name_table();
        flags_string(self.bits, &table)
    }
}

impl Default for MethodFlags {
    fn default() -> (flags: MethodFlags)
        ensures
            flags@ == 0,
    {
        MethodFlags { bits: 0 }
    }
}

} // verus!
