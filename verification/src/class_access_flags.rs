//! The access flags of a class.

use vstd::prelude::*;
use crate::flag_names::{flags_string, flags_text, table_view};

verus! {

/// The modifiers of a class, one bit each. Bits without a name are kept as
/// they are. The view is the sixteen bits.
#[derive(Debug, PartialEq, Eq, Structural, Clone, Copy)]
pub struct ClassAccessFlags {
    bits: u16,
}

impl View for ClassAccessFlags {
    type V = u16;

    closed spec fn view(&self) -> u16 {
        self.bits
    }
}

/// The names of the bits of a class, lowest bit first.
pub open spec fn class_flag_names() -> Seq<(u16, Seq<char>)> {
    seq![
        (0x0001u16, "PUBLIC"@),
        (0x0010u16, "FINAL"@),
        (0x0020u16, "SUPER"@),
        (0x0200u16, "INTERFACE"@),
        (0x0400u16, "ABSTRACT"@),
        (0x1000u16, "SYNTHETIC"@),
        (0x2000u16, "ANNOTATION"@),
        (0x4000u16, "ENUM"@),
    ]
}

/// The names of the bits of a class, lowest bit first.
fn name_table() -> (table: Vec<(u16, &'static str)>)
    ensures
        table_view(table@) == class_flag_names(),
{
    let table = vec![
        (0x0001u16, "PUBLIC"),
        (0x0010u16, "FINAL"),
        (0x0020u16, "SUPER"),
        (0x0200u16, "INTERFACE"),
        (0x0400u16, "ABSTRACT"),
        (0x1000u16, "SYNTHETIC"),
        (0x2000u16, "ANNOTATION"),
        (0x4000u16, "ENUM"),
    ];
    assert(table_view(table@) =~= class_flag_names());
    table
}

impl ClassAccessFlags {
    pub const PUBLIC: u16 = 0x0001;

    pub const FINAL: u16 = 0x0010;

    pub const SUPER: u16 = 0x0020;

    pub const INTERFACE: u16 = 0x0200;

    pub const ABSTRACT: u16 = 0x0400;

    pub const SYNTHETIC: u16 = 0x1000;

    pub const ANNOTATION: u16 = 0x2000;

    pub const ENUM: u16 = 0x4000;

    /// The set with exactly the bits of `bits`.
    pub fn from_bits_retain(bits: u16) -> (flags: ClassAccessFlags)
        ensures
            flags@ == bits,
    {
        ClassAccessFlags { bits }
    }

    /// The set without any bit.
    pub fn empty() -> (flags: ClassAccessFlags)
        ensures
            flags@ == 0,
    {
        ClassAccessFlags { bits: 0 }
    }

    /// The bits of this set.
    pub fn bits(&self) -> (bits: u16)
        ensures
            bits == self@,
    {
        self.bits
    }

    /// Whether every bit of `mask` is set.
    pub fn contains(&self, mask: u16) -> (all: bool)
        ensures
            all == (self@ & mask == mask),
    {
        self.bits & mask == mask
    }

    /// The names of the bits that are set, with ` | ` between them.
    pub fn to_string(&self) -> (text: String)
        ensures
            text@ == flags_text(self@, class_flag_names()),
    {
        let table = name_table();
        flags_string(self.bits, &table)
    }
}

impl Default for ClassAccessFlags {
    fn default() -> (flags: ClassAccessFlags)
        ensures
            flags@ == 0,
    {
        ClassAccessFlags { bits: 0 }
    }
}

} // verus!
