//! The access flags of a field.

use vstd::prelude::*;
use crate::flag_names::{flags_string, flags_text, table_view};

verus! {

/// The modifiers of a field, one bit each. Bits without a name are kept as
/// they are. The view is the sixteen bits.
#[derive(Debug, PartialEq, Eq, Structural, Clone, Copy)]
pub struct FieldFlags {
    bits: u16,
}

impl View for FieldFlags {
    type V = u16;

    closed spec fn view(&self) -> u16 {
        self.bits
    }
}

/// The names of the bits of a field, lowest bit first.
pub open spec fn field_flag_names() -> Seq<(u16, Seq<char>)> {
    seq![
        (0x0001u16, "PUBLIC"@),
        (0x0002u16, "PRIVATE"@),
        (0x0004u16, "PROTECTED"@),
        (0x0008u16, "STATIC"@),
        (0x0010u16, "FINAL"@),
        (0x0040u16, "VOLATILE"@),
        (0x0080u16, "TRANSIENT"@),
        (0x1000u16, "SYNTHETIC"@),
        (0x4000u16, "ENUM"@),
    ]
}

/// The names of the bits of a field, lowest bit first.
fn name_table() -> (table: Vec<(u16, &'static str)>)
    ensures
        table_view(table@) == field_flag_names(),
{
    let table = vec![
        (0x0001u16, "PUBLIC"),
        (0x0002u16, "PRIVATE"),
        (0x0004u16, "PROTECTED"),
        (0x0008u16, "STATIC"),
        (0x0010u16, "FINAL"),
        (0x0040u16, "VOLATILE"),
        (0x0080u16, "TRANSIENT"),
        (0x1000u16, "SYNTHETIC"),
        (0x4000u16, "ENUM"),
    ];
    assert(table_view(table@) =~= field_flag_names());
    table
}

impl FieldFlags {
    pub const PUBLIC: u16 = 0x0001;

    pub const PRIVATE: u16 = 0x0002;

    pub const PROTECTED: u16 = 0x0004;

    pub const STATIC: u16 = 0x0008;

    pub const FINAL: u16 = 0x0010;

    pub const VOLATILE: u16 = 0x0040;

    pub const TRANSIENT: u16 = 0x0080;

    pub const SYNTHETIC: u16 = 0x1000;

    pub const ENUM: u16 = 0x4000;

    /// The set with exactly the bits of `bits`.
    pub fn from_bits_retain(bits: u16) -> (flags: FieldFlags)
        ensures
            flags@ == bits,
    {
        FieldFlags { bits }
    }

    /// The set without any bit.
    pub fn empty() -> (flags: FieldFlags)
        ensures
            flags@ == 0,
    {
        FieldFlags { bits: 0 }
    }

    /// The bits of this set.
    pub fn bits(&self) -> (bits: u16)
        ensures
            bits == self@,
    {
        self.bits
    }

    /// Whether every bit of `mask` is set.
    pub fn contains(&self, mask: u16) -> (all: bool)
        ensures
            all == (self@ & mask == mask),
    {
        self.bits & mask == mask
    }

    /// The names of the bits that are set, with ` | ` between them.
    pub fn to_string(&self) -> (text: String)
        ensures
            text@ == flags_text(self@, field_flag_names()),
    {
        let table = name_table();
        flags_string(self.bits, &table)
    }
}

impl Default for FieldFlags {
    fn default() -> (flags: FieldFlags)
        ensures
            flags@ == 0,
    {
        FieldFlags { bits: 0 }
    }
}

} // verus!
