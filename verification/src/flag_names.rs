//! Writing a set of flags as the names of its bits.

use vstd::prelude::*;
use vstd::string::*;
use crate::text::{hex, hex_text, joined};

verus! {

/// The names that `table` gives to the bits set in `bits`, in the order of
/// the table.
pub open spec fn set_names(bits: u16, table: Seq<(u16, Seq<char>)>) -> Seq<Seq<char>>
    decreases table.len(),
{
    if table.len() == 0 {
        Seq::empty()
    } else {
        let before = set_names(bits, table.drop_last());
        if bits & table.last().0 != 0 {
            before.push(table.last().1)
        } else {
            before
        }
    }
}

/// The bits that have a name in `table`.
pub open spec fn named_bits(table: Seq<(u16, Seq<char>)>) -> u16
    decreases table.len(),
{
    if table.len() == 0 {
        0
    } else {
        named_bits(table.drop_last()) | table.last().0
    }
}

/// The parts of the text of a set of flags: the names of its bits, and, where
/// bits without a name are set, those bits as `0x` and four hexadecimal
/// digits.
pub open spec fn flag_parts(bits: u16, table: Seq<(u16, Seq<char>)>) -> Seq<Seq<char>> {
    let unnamed = bits & !named_bits(table);
    if unnamed != 0 {
        set_names(bits, table).push("0x"@ + hex(unnamed as nat, 4))
    } else {
        set_names(bits, table)
    }
}

/// The text of a set of flags: its parts with ` | ` between them, or
/// `(empty)` where no bit is set.
pub open spec fn flags_text(bits: u16, table: Seq<(u16, Seq<char>)>) -> Seq<char> {
    if flag_parts(bits, table).len() == 0 {
        "(empty)"@
    } else {
        joined(flag_parts(bits, table), " | "@)
    }
}

/// A table of names as contracts speak of it.
pub open spec fn table_view(table: Seq<(u16, &'static str)>) -> Seq<(u16, Seq<char>)> {
    Seq::new(table.len(), |i: int| (table[i].0, table[i].1@))
}

/// Writes a set of flags with the names of `table`.
pub fn flags_string(bits: u16, table: &Vec<(u16, &'static str)>) -> (text: String)
    ensures
        text@ == flags_text(bits, table_view(table@)),
{
    let ghost names = table_view(table@);
    let mut text = String::new();
    let mut parts: usize = 0;
    let mut named: u16 = 0;
    let mut k: usize = 0;
    assert(names.take(0) =~= Seq::empty());
    while k < table.len()
        invariant
            k <= table.len(),
            names == table_view(table@),
            parts == set_names(bits, names.take(k as int)).len(),
            parts <= k,
            named == named_bits(names.take(k as int)),
            text@ == joined(set_names(bits, names.take(k as int)), " | "@),
        decreases table.len() - k,
    {
        let (mask, name) = table[k];
        assert(names.take(k + 1).drop_last() =~= names.take(k as int));
        assert(names.take(k + 1).last() == (mask, name@));
        if bits & mask != 0 {
            if parts > 0 {
                text.append(" | ");
            }
            text.append(name);
            parts += 1;
            let ghost before = set_names(bits, names.take(k as int));
            assert(before.push(name@).drop_last() =~= before);
            assert(Seq::<char>::empty() + name@ =~= name@);
        }
        named = named | mask;
        k += 1;
    }
    assert(names.take(k as int) =~= names);
    let unnamed = bits & !named;
    if unnamed != 0 {
        if parts > 0 {
            text.append(" | ");
        }
        text.append("0x");
        text.append(hex_text(unnamed as u64, 4).as_str());
        let ghost before = set_names(bits, names);
        let ghost last = "0x"@ + hex(unnamed as nat, 4);
        assert(before.push(last).drop_last() =~= before);
        assert(text@ =~= joined(before.push(last), " | "@));
        text
    } else if parts == 0 {
        String::from_str("(empty)")
    } else {
        text
    }
}

} // verus!
