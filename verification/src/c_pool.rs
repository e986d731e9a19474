//! The constant pool of a class: entries addressed from 1, where an
//! eight-byte constant also takes the slot after its own.

use vstd::prelude::*;
use vstd::set_lib::*;
use vstd::string::*;
use crate::ieee::{double_string, double_text, single_string, single_text};
use crate::text::{decimal, decimal_text, signed_decimal, signed_decimal_text};

verus! {

/// One constant of the pool. `Float` and `Double` hold the IEEE 754 bit
/// pattern of their value.
#[derive(Debug, PartialEq)]
pub enum ConstantPoolEntry {
    String(String),
    Integer(i32),
    Float(u32),
    Long(i64),
    Double(u64),
    ClassReference(u16),
    StringReference(u16),
    FieldReference(u16, u16),
    MethodReference(u16, u16),
    InterfaceMethodReference(u16, u16),
    NameAndTypeDescriptor(u16, u16),
}

/// What a `ConstantPoolEntry` stands for in contracts.
pub enum EntryView {
    String(Seq<char>),
    Integer(i32),
    Float(u32),
    Long(i64),
    Double(u64),
    ClassReference(u16),
    StringReference(u16),
    FieldReference(u16, u16),
    MethodReference(u16, u16),
    InterfaceMethodReference(u16, u16),
    NameAndTypeDescriptor(u16, u16),
}

impl View for ConstantPoolEntry {
    type V = EntryView;

    open spec fn view(&self) -> EntryView {
        match self {
            ConstantPoolEntry::String(s) => EntryView::String(s@),
            ConstantPoolEntry::Integer(n) => EntryView::Integer(*n),
            ConstantPoolEntry::Float(bits) => EntryView::Float(*bits),
            ConstantPoolEntry::Long(n) => EntryView::Long(*n),
            ConstantPoolEntry::Double(bits) => EntryView::Double(*bits),
            ConstantPoolEntry::ClassReference(n) => EntryView::ClassReference(*n),
            ConstantPoolEntry::StringReference(n) => EntryView::StringReference(*n),
            ConstantPoolEntry::FieldReference(i, j) => EntryView::FieldReference(*i, *j),
            ConstantPoolEntry::MethodReference(i, j) => EntryView::MethodReference(*i, *j),
            ConstantPoolEntry::InterfaceMethodReference(i, j) => {
                EntryView::InterfaceMethodReference(*i, *j)
            },
            ConstantPoolEntry::NameAndTypeDescriptor(i, j) => {
                EntryView::NameAndTypeDescriptor(*i, *j)
            },
        }
    }
}

/// A slot of the pool: an entry, or the unaddressable slot behind an
/// eight-byte entry.
#[derive(Debug)]
enum ConstantPoolPhyEntry {
    Entry(ConstantPoolEntry),
    MultiByteEntryTombstone(),
}

impl View for ConstantPoolPhyEntry {
    type V = Option<EntryView>;

    closed spec fn view(&self) -> Option<EntryView> {
        match self {
            ConstantPoolPhyEntry::Entry(entry) => Some(entry@),
            ConstantPoolPhyEntry::MultiByteEntryTombstone() => None,
        }
    }
}

/// The constant pool of a class. Its view is the sequence of its slots, in
/// which `None` is a tombstone; slot `i` of the view has index `i + 1`.
#[derive(Debug)]
pub struct ConstantPool {
    entries: Vec<ConstantPoolPhyEntry>,
}

/// Signals an access to an index that holds no entry.
#[derive(Debug, PartialEq, Eq, Structural, Clone, Copy)]
pub struct InvalidConstantPoolIndexError {
    pub index: u16,
}

impl InvalidConstantPoolIndexError {
    /// The error for `index`.
    pub fn new(index: u16) -> (error: Self)
        ensures
            error.index == index,
    {
        InvalidConstantPoolIndexError { index }
    }
}

/// Whether an entry takes two slots.
pub open spec fn is_wide(entry: EntryView) -> bool {
    entry is Long || entry is Double
}

/// The number of slots an entry takes.
pub open spec fn width(entry: EntryView) -> nat {
    if is_wide(entry) {
        2
    } else {
        1
    }
}

/// The slots an entry takes: itself, and a tombstone if it is wide.
pub open spec fn slots_of(entry: EntryView) -> Seq<Option<EntryView>> {
    if is_wide(entry) {
        seq![Some(entry), None]
    } else {
        seq![Some(entry)]
    }
}

/// The entry at the 1-based `index`, or the index itself where there is
/// none: at 0, beyond the last slot, and on a tombstone.
pub open spec fn lookup(slots: Seq<Option<EntryView>>, index: u16) -> Result<EntryView, u16> {
    if index == 0 || index > slots.len() {
        Err(index)
    } else {
        match slots[index - 1] {
            Some(entry) => Ok(entry),
            None => Err(index),
        }
    }
}

impl View for ConstantPool {
    type V = Seq<Option<EntryView>>;

    closed spec fn view(&self) -> Seq<Option<EntryView>> {
        self.entries@.map_values(|slot: ConstantPoolPhyEntry| slot@)
    }
}

impl Default for ConstantPool {
    fn default() -> (pool: ConstantPool)
        ensures
            pool@ == Seq::<Option<EntryView>>::empty(),
    {
        ConstantPool::new()
    }
}

impl ConstantPool {
    /// An empty pool.
    pub fn new() -> (pool: ConstantPool)
        ensures
            pool@ == Seq::<Option<EntryView>>::empty(),
    {
        let pool = ConstantPool { entries: Vec::new() };
        assert(pool@ =~= Seq::<Option<EntryView>>::empty());
        pool
    }

    /// Appends an entry, and a tombstone behind it if it is wide.
    pub fn add(&mut self, entry: ConstantPoolEntry)
        ensures
            final(self)@ == old(self)@ + slots_of(entry@),
            final(self)@.len() == old(self)@.len() + width(entry@),
    {
        let add_tombstone = match &entry {
            ConstantPoolEntry::Long(_) => true,
            ConstantPoolEntry::Double(_) => true,
            _ => false,
        };
        self.entries.push(ConstantPoolPhyEntry::Entry(entry));
        if add_tombstone {
            self.entries.push(ConstantPoolPhyEntry::MultiByteEntryTombstone());
        }
        assert(self@ =~= old(self)@ + slots_of(entry@));
    }

    /// The entry at the 1-based `input_index`.
    pub fn get(&self, input_index: u16) -> (result: Result<
        &ConstantPoolEntry,
        InvalidConstantPoolIndexError,
    >)
        ensures
            match result {
                Ok(entry) => lookup(self@, input_index) == Ok::<EntryView, u16>(entry@),
                Err(error) => lookup(self@, input_index) == Err::<EntryView, u16>(input_index)
                    && error.index == input_index,
            },
    {
        if input_index == 0 || input_index as usize > self.entries.len() {
            Err(InvalidConstantPoolIndexError::new(input_index))
        } else {
            let i = (input_index - 1) as usize;
            match &self.entries[i] {
                ConstantPoolPhyEntry::Entry(entry) => Ok(entry),
                ConstantPoolPhyEntry::MultiByteEntryTombstone() => Err(
                    InvalidConstantPoolIndexError::new(input_index),
                ),
            }
        }
    }
}

/// The two ways an entry is written out: as its bare text, or with its kind
/// and its indices before the text they lead to.
#[derive(Debug, PartialEq, Eq, Structural, Clone, Copy)]
pub enum Style {
    Plain,
    Annotated,
}

/// The indices an entry refers to.
pub enum Targets {
    Nothing,
    One(u16),
    Two(u16, u16),
}

/// The indices `entry` refers to: none for a literal, one for a class or
/// string reference, two for the others.
pub open spec fn targets(entry: EntryView) -> Targets {
    match entry {
        EntryView::ClassReference(n) => Targets::One(n),
        EntryView::StringReference(n) => Targets::One(n),
        EntryView::FieldReference(i, j) => Targets::Two(i, j),
        EntryView::MethodReference(i, j) => Targets::Two(i, j),
        EntryView::InterfaceMethodReference(i, j) => Targets::Two(i, j),
        EntryView::NameAndTypeDescriptor(i, j) => Targets::Two(i, j),
        _ => Targets::Nothing,
    }
}

/// The name of an entry's kind.
pub open spec fn kind_name(entry: EntryView) -> Seq<char> {
    match entry {
        EntryView::String(_) => "String"@,
        EntryView::Integer(_) => "Integer"@,
        EntryView::Float(_) => "Float"@,
        EntryView::Long(_) => "Long"@,
        EntryView::Double(_) => "Double"@,
        EntryView::ClassReference(_) => "ClassReference"@,
        EntryView::StringReference(_) => "StringReference"@,
        EntryView::FieldReference(_, _) => "FieldReference"@,
        EntryView::MethodReference(_, _) => "MethodReference"@,
        EntryView::InterfaceMethodReference(_, _) => "InterfaceMethodReference"@,
        EntryView::NameAndTypeDescriptor(_, _) => "NameAndTypeDescriptor"@,
    }
}

/// The value of a literal entry as text; empty for a reference.
pub open spec fn literal(entry: EntryView) -> Seq<char> {
    match entry {
        EntryView::String(s) => s,
        EntryView::Integer(n) => signed_decimal(n as int),
        EntryView::Float(bits) => single_text(bits),
        EntryView::Long(n) => signed_decimal(n as int),
        EntryView::Double(bits) => double_text(bits),
        _ => Seq::empty(),
    }
}

/// What stands between the two texts of an entry with two targets: a colon
/// and a space in a name-and-type descriptor, a dot in the others.
pub open spec fn separator(entry: EntryView) -> Seq<char> {
    if entry is NameAndTypeDescriptor {
        ": "@
    } else {
        "."@
    }
}

/// How a literal entry is written.
pub open spec fn leaf(style: Style, entry: EntryView) -> Seq<char> {
    match style {
        Style::Plain => literal(entry),
        Style::Annotated => if entry is String {
            "String: \""@ + literal(entry) + "\""@
        } else {
            kind_name(entry) + ": "@ + literal(entry)
        },
    }
}

/// How an entry with one target `n` is written, given the text of `n`.
pub open spec fn unary(style: Style, entry: EntryView, n: u16, inner: Seq<char>) -> Seq<char> {
    match style {
        Style::Plain => inner,
        Style::Annotated => kind_name(entry) + ": "@ + decimal(n as nat) + " => ("@ + inner + ")"@,
    }
}

/// How an entry with two targets `i` and `j` is written, given their texts.
pub open spec fn binary(
    style: Style,
    entry: EntryView,
    i: u16,
    j: u16,
    first: Seq<char>,
    second: Seq<char>,
) -> Seq<char> {
    match style {
        Style::Plain => first + separator(entry) + second,
        Style::Annotated => kind_name(entry) + ": "@ + decimal(i as nat) + ", "@ + decimal(
            j as nat,
        ) + " => ("@ + first + "), ("@ + second + ")"@,
    }
}

/// The indices that hold a slot and are not in `visited`.
pub open spec fn unvisited(slots: Seq<Option<EntryView>>, visited: Set<u16>) -> Set<int> {
    Set::new(|i: int| 1 <= i <= slots.len() && i <= u16::MAX && !visited.contains(i as u16))
}

/// Stepping through an entry that was not visited before leaves fewer
/// indices unvisited.
pub proof fn lemma_unvisited_shrinks(slots: Seq<Option<EntryView>>, visited: Set<u16>, index: u16)
    requires
        lookup(slots, index) is Ok,
        !visited.contains(index),
    ensures
        unvisited(slots, visited).finite(),
        unvisited(slots, visited.insert(index)).len() < unvisited(slots, visited).len(),
{
    let all = set_int_range(1, slots.len() as int + 1);
    lemma_int_range(1, slots.len() as int + 1);
    let before = unvisited(slots, visited);
    let after = unvisited(slots, visited.insert(index));
    assert(before.subset_of(all));
    lemma_len_subset(before, all);
    assert(before.contains(index as int));
    assert(after =~= before.remove(index as int));
}

/// The text of the entry at `index`, written in `style`, where `visited`
/// holds the indices on the way to it. The first index without an entry is
/// the error; so is an index that comes up again on its own way, since the
/// references through it form a cycle.
pub open spec fn render(
    slots: Seq<Option<EntryView>>,
    index: u16,
    visited: Set<u16>,
    style: Style,
) -> Result<Seq<char>, u16>
    decreases unvisited(slots, visited).len(),
{
    match lookup(slots, index) {
        Err(at) => Err(at),
        Ok(entry) => if visited.contains(index) {
            Err(index)
        } else {
            proof {
                lemma_unvisited_shrinks(slots, visited, index);
            }
            let seen = visited.insert(index);
            match targets(entry) {
                Targets::Nothing => Ok(leaf(style, entry)),
                Targets::One(n) => match render(slots, n, seen, style) {
                    Err(at) => Err(at),
                    Ok(inner) => Ok(unary(style, entry, n, inner)),
                },
                Targets::Two(i, j) => match render(slots, i, seen, style) {
                    Err(at) => Err(at),
                    Ok(first) => match render(slots, j, seen, style) {
                        Err(at) => Err(at),
                        Ok(second) => Ok(binary(style, entry, i, j, first, second)),
                    },
                },
            }
        },
    }
}

/// The bare text of the entry at `index`.
pub open spec fn text_at(slots: Seq<Option<EntryView>>, index: u16) -> Result<Seq<char>, u16> {
    render(slots, index, Set::empty(), Style::Plain)
}

/// The annotated text of the entry at `index`.
pub open spec fn description_at(slots: Seq<Option<EntryView>>, index: u16) -> Result<
    Seq<char>,
    u16,
> {
    render(slots, index, Set::empty(), Style::Annotated)
}

/// A text or the invalid index, as contracts speak of them.
pub open spec fn resolved(result: Result<String, InvalidConstantPoolIndexError>) -> Result<
    Seq<char>,
    u16,
> {
    match result {
        Ok(text) => Ok(text@),
        Err(error) => Err(error.index),
    }
}

/// The name of an entry's kind.
fn kind_label(entry: &ConstantPoolEntry) -> (label: &'static str)
    ensures
        label@ == kind_name(entry@),
{
    match entry {
        ConstantPoolEntry::String(_) => "String",
        ConstantPoolEntry::Integer(_) => "Integer",
        ConstantPoolEntry::Float(_) => "Float",
        ConstantPoolEntry::Long(_) => "Long",
        ConstantPoolEntry::Double(_) => "Double",
        ConstantPoolEntry::ClassReference(_) => "ClassReference",
        ConstantPoolEntry::StringReference(_) => "StringReference",
        ConstantPoolEntry::FieldReference(_, _) => "FieldReference",
        ConstantPoolEntry::MethodReference(_, _) => "MethodReference",
        ConstantPoolEntry::InterfaceMethodReference(_, _) => "InterfaceMethodReference",
        ConstantPoolEntry::NameAndTypeDescriptor(_, _) => "NameAndTypeDescriptor",
    }
}

/// Writes the value of a literal entry.
fn literal_string(entry: &ConstantPoolEntry) -> (text: String)
    ensures
        text@ == literal(entry@),
{
    match entry {
        ConstantPoolEntry::String(s) => s.clone(),
        ConstantPoolEntry::Integer(n) => signed_decimal_text(*n as i64),
        ConstantPoolEntry::Float(bits) => single_string(*bits),
        ConstantPoolEntry::Long(n) => signed_decimal_text(*n),
        ConstantPoolEntry::Double(bits) => double_string(*bits),
        _ => String::new(),
    }
}

/// Writes a literal entry.
fn leaf_string(style: Style, entry: &ConstantPoolEntry) -> (text: String)
    ensures
        text@ == leaf(style, entry@),
{
    let value = literal_string(entry);
    match style {
        Style::Plain => value,
        Style::Annotated => match entry {
            ConstantPoolEntry::String(_) => {
                let mut text = String::from_str("String: \"");
                text.append(value.as_str());
                text.append("\"");
                text
            },
            _ => {
                let mut text = String::from_str(kind_label(entry));
                text.append(": ");
                text.append(value.as_str());
                text
            },
        },
    }
}

/// Writes an entry with one target.
fn unary_string(style: Style, entry: &ConstantPoolEntry, n: u16, inner: String) -> (text: String)
    ensures
        text@ == unary(style, entry@, n, inner@),
{
    match style {
        Style::Plain => inner,
        Style::Annotated => {
            let mut text = String::from_str(kind_label(entry));
            text.append(": ");
            text.append(decimal_text(n as u64).as_str());
            text.append(" => (");
            text.append(inner.as_str());
            text.append(")");
            text
        },
    }
}

/// Writes an entry with two targets.
fn binary_string(
    style: Style,
    entry: &ConstantPoolEntry,
    i: u16,
    j: u16,
    first: String,
    second: String,
) -> (text: String)
    ensures
        text@ == binary(style, entry@, i, j, first@, second@),
{
    match style {
        Style::Plain => {
            let mut text = first;
            match entry {
                ConstantPoolEntry::NameAndTypeDescriptor(_, _) => text.append(": "),
                _ => text.append("."),
            }
            text.append(second.as_str());
            text
        },
        Style::Annotated => {
            let mut text = String::from_str(kind_label(entry));
            text.append(": ");
            text.append(decimal_text(i as u64).as_str());
            text.append(", ");
            text.append(decimal_text(j as u64).as_str());
            text.append(" => (");
            text.append(first.as_str());
            text.append("), (");
            text.append(second.as_str());
            text.append(")");
            text
        },
    }
}

/// Whether `index` is on `path`.
fn on_path(path: &Vec<u16>, index: u16) -> (found: bool)
    ensures
        found == path@.to_set().contains(index),
{
    let mut k: usize = 0;
    while k < path.len()
        invariant
            k <= path.len(),
            forall|m: int| 0 <= m < k ==> path@[m] != index,
        decreases path.len() - k,
    {
        if path[k] == index {
            return true;
        }
        k += 1;
    }
    false
}

impl ConstantPool {
    /// Writes the entry at `idx` in `style`; `path` holds the indices on the
    /// way to it, and is the same afterwards.
    fn render_entry(&self, idx: u16, style: Style, path: &mut Vec<u16>) -> (result: Result<
        String,
        InvalidConstantPoolIndexError,
    >)
        ensures
            final(path)@ == old(path)@,
            resolved(result) == render(self@, idx, old(path)@.to_set(), style),
        decreases unvisited(self@, old(path)@.to_set()).len(),
    {
        let entry = match self.get(idx) {
            Ok(entry) => entry,
            Err(error) => {
                return Err(error);
            },
        };
        if on_path(path, idx) {
            return Err(InvalidConstantPoolIndexError::new(idx));
        }
        proof {
            lemma_unvisited_shrinks(self@, path@.to_set(), idx);
            path@.lemma_push_to_set_commute(idx);
        }
        match entry {
            ConstantPoolEntry::ClassReference(n) | ConstantPoolEntry::StringReference(n) => {
                path.push(idx);
                let inner = self.render_entry(*n, style, path);
                path.pop();
                assert(path@ =~= old(path)@);
                match inner {
                    Ok(inner) => Ok(unary_string(style, entry, *n, inner)),
                    Err(error) => Err(error),
                }
            },
            ConstantPoolEntry::FieldReference(i, j)
            | ConstantPoolEntry::MethodReference(i, j)
            | ConstantPoolEntry::InterfaceMethodReference(i, j)
            | ConstantPoolEntry::NameAndTypeDescriptor(i, j) => {
                path.push(idx);
                let first = self.render_entry(*i, style, path);
                let second = match first {
                    Ok(_) => self.render_entry(*j, style, path),
                    Err(error) => Err(error),
                };
                path.pop();
                assert(path@ =~= old(path)@);
                match (first, second) {
                    (Ok(first), Ok(second)) => Ok(
                        binary_string(style, entry, *i, *j, first, second),
                    ),
                    (Err(error), _) => Err(error),
                    (_, Err(error)) => Err(error),
                }
            },
            _ => Ok(leaf_string(style, entry)),
        }
    }

    /// The annotated text of the entry at `idx`: the kind of the entry, its
    /// value or its indices, and in brackets the annotated text of each entry
    /// it refers to.
    pub fn fmt_entry(&self, idx: u16) -> (result: Result<String, InvalidConstantPoolIndexError>)
        ensures
            resolved(result) == description_at(self@, idx),
    {
        let mut path: Vec<u16> = Vec::new();
        assert(path@.to_set() =~= Set::<u16>::empty());
        self.render_entry(idx, Style::Annotated, &mut path)
    }

    /// The text of the entry at `idx`: the value of a literal, the text
    /// behind a class or string reference, and for an entry with two targets
    /// their two texts with its separator between them.
    pub fn text_of(&self, idx: u16) -> (result: Result<String, InvalidConstantPoolIndexError>)
        ensures
            resolved(result) == text_at(self@, idx),
    {
        let mut path: Vec<u16> = Vec::new();
        assert(path@.to_set() =~= Set::<u16>::empty());
        self.render_entry(idx, Style::Plain, &mut path)
    }

    /// The number of slots, tombstones included.
    pub fn size(&self) -> (n: usize)
        ensures
            n == self@.len(),
    {
        self.entries.len()
    }

    /// The dump of the whole pool: every slot has its line, a tombstone
    /// too. It fails only where an entry cannot be written.
    pub fn fmt(&self) -> (result: Result<String, InvalidConstantPoolIndexError>)
        ensures
            resolved(result) == dump(self@),
    {
        let size = self.entries.len();
        let mut out = String::from_str("Constant pool: (size: ");
        out.append(decimal_text(size as u64).as_str());
        out.append(")\n");
        let ghost heading = out@;
        let ghost mut lines = Seq::<char>::empty();
        let mut raw_idx: usize = 0;
        while raw_idx < size
            invariant
                size == self@.len(),
                size == self.entries@.len(),
                raw_idx <= size,
                out@ == heading + lines,
                match dump_lines(self@, raw_idx as int) {
                    Err(at) => dump_lines(self@, 0) == Err::<Seq<char>, u16>(at),
                    Ok(rest) => dump_lines(self@, 0) == Ok::<Seq<char>, u16>(lines + rest),
                },
            decreases size - raw_idx,
        {
            let text = match &self.entries[raw_idx] {
                ConstantPoolPhyEntry::MultiByteEntryTombstone() => String::from_str("(tombstone)"),
                ConstantPoolPhyEntry::Entry(_) => {
                    let index: u16 = if raw_idx < 0xFFFF {
                        (raw_idx + 1) as u16
                    } else {
                        0
                    };
                    match self.fmt_entry(index) {
                        Ok(text) => text,
                        Err(error) => {
                            return Err(error);
                        },
                    }
                },
            };
            let mut line = String::from_str("    ");
            line.append(decimal_text(raw_idx as u64 + 1).as_str());
            line.append(", ");
            line.append(text.as_str());
            line.append("\n");
            out.append(line.as_str());
            proof {
                let rest = dump_lines(self@, raw_idx + 1);
                if rest is Ok {
                    assert((lines + line@) + rest->Ok_0 =~= lines + (line@ + rest->Ok_0));
                }
                assert(heading + (lines + line@) =~= (heading + lines) + line@);
                lines = lines + line@;
            }
            raw_idx += 1;
        }
        assert(lines + Seq::<char>::empty() =~= lines);
        Ok(out)
    }
}

/// The index of the slot at position `at`, counted from 0, or 0 where the
/// position is beyond the indices that sixteen bits can hold.
pub open spec fn index_of_slot(at: int) -> u16 {
    if 0 <= at < u16::MAX {
        (at + 1) as u16
    } else {
        0
    }
}

/// What the dump writes in place of an entry for a tombstone.
pub open spec fn tombstone_mark() -> Seq<char> {
    "(tombstone)"@
}

/// What the dump writes for the slot at position `at`, counted from 0: the
/// mark of a tombstone, or the annotated text of the entry there, which
/// may fail.
pub open spec fn slot_text(slots: Seq<Option<EntryView>>, at: int) -> Result<Seq<char>, u16> {
    match slots[at] {
        None => Ok(tombstone_mark()),
        Some(_) => description_at(slots, index_of_slot(at)),
    }
}

/// The line of the dump for one slot: four spaces, the index, a comma and
/// a space, and the text of the slot.
pub open spec fn dump_line(index: nat, text: Seq<char>) -> Seq<char> {
    "    "@ + decimal(index) + ", "@ + text + "\n"@
}

/// The lines of the dump for the slots from position `from` on, one line
/// for each slot in the order of the indices, or the index at which the
/// first entry among them fails that cannot be written.
pub open spec fn dump_lines(slots: Seq<Option<EntryView>>, from: int) -> Result<Seq<char>, u16>
    decreases slots.len() - from,
{
    if from < 0 || from >= slots.len() {
        Ok(Seq::empty())
    } else {
        match slot_text(slots, from) {
            Err(at) => Err(at),
            Ok(text) => match dump_lines(slots, from + 1) {
                Err(at) => Err(at),
                Ok(rest) => Ok(dump_line((from + 1) as nat, text) + rest),
            },
        }
    }
}

/// The dump of a pool: a heading with the number of slots, then one line
/// for each slot in the order of the indices, none left out. A tombstone
/// has a line with its mark. The dump fails only where an entry cannot be
/// written, because a reference in it leads to no entry or back to itself,
/// or because the entry lies beyond the indices that sixteen bits can hold;
/// it fails with the index that the writing of that entry fails with.
pub open spec fn dump(slots: Seq<Option<EntryView>>) -> Result<Seq<char>, u16> {
    match dump_lines(slots, 0) {
        Err(at) => Err(at),
        Ok(lines) => Ok("Constant pool: (size: "@ + decimal(slots.len()) + ")\n"@ + lines),
    }
}

/// Whether every entry from position `from` on can be written.
pub open spec fn entries_can_be_written(slots: Seq<Option<EntryView>>, from: int) -> bool {
    forall|at: int|
        from <= at < slots.len() && 0 <= at && slots[at] is Some ==> (#[trigger] description_at(
            slots,
            index_of_slot(at),
        )) is Ok
}

/// The lines from a position on are written exactly when every entry from
/// there on can be written; tombstones never stand in the way.
proof fn lemma_dump_lines_succeed(slots: Seq<Option<EntryView>>, from: int)
    requires
        0 <= from,
    ensures
        dump_lines(slots, from) is Ok <==> entries_can_be_written(slots, from),
    decreases slots.len() - from,
{
    if from < slots.len() {
        lemma_dump_lines_succeed(slots, from + 1);
        if entries_can_be_written(slots, from) {
            assert(entries_can_be_written(slots, from + 1));
            if slots[from] is Some {
                assert(description_at(slots, index_of_slot(from)) is Ok);
            }
        }
        if dump_lines(slots, from) is Ok {
            assert forall|at: int|
                from <= at < slots.len() && 0 <= at && slots[at] is Some implies (
            #[trigger] description_at(slots, index_of_slot(at))) is Ok by {
                if at > from {
                    assert(entries_can_be_written(slots, from + 1));
                }
            }
        }
    }
}

/// A pool is dumped exactly when each of its entries can be written: a
/// tombstone never makes the dump fail.
pub proof fn lemma_dump_succeeds(slots: Seq<Option<EntryView>>)
    ensures
        dump(slots) is Ok <==> entries_can_be_written(slots, 0),
{
    lemma_dump_lines_succeed(slots, 0);
}

/// The slots of a pool to which `entries` were added in order.
pub open spec fn layout(entries: Seq<EntryView>) -> Seq<Option<EntryView>>
    decreases entries.len(),
{
    if entries.len() == 0 {
        Seq::empty()
    } else {
        layout(entries.drop_last()) + slots_of(entries.last())
    }
}

/// The number of slots that the first `k` of `entries` take.
pub open spec fn slots_before(entries: Seq<EntryView>, k: int) -> nat
    decreases k,
{
    if k <= 0 {
        0
    } else {
        slots_before(entries, k - 1) + width(entries[k - 1])
    }
}

/// Whether `entry` refers to `index`.
pub open spec fn refers_to(entry: EntryView, index: u16) -> bool {
    match targets(entry) {
        Targets::Nothing => false,
        Targets::One(n) => n == index,
        Targets::Two(i, j) => i == index || j == index,
    }
}

/// Adding one more entry to a pool appends the slots of that entry.
pub proof fn lemma_layout_push(entries: Seq<EntryView>, entry: EntryView)
    ensures
        layout(entries.push(entry)) == layout(entries) + slots_of(entry),
        layout(entries.push(entry)).len() == layout(entries).len() + width(entry),
{
    assert(entries.push(entry).drop_last() =~= entries);
}

/// The first `k` entries take the same slots alone as with more entries
/// behind them.
proof fn lemma_layout_prefix(entries: Seq<EntryView>, k: int)
    requires
        0 <= k <= entries.len(),
    ensures
        layout(entries.take(k)).is_prefix_of(layout(entries)),
    decreases entries.len() - k,
{
    if k == entries.len() {
        assert(entries.take(k) =~= entries);
    } else {
        lemma_layout_prefix(entries, k + 1);
        assert(entries.take(k + 1).drop_last() =~= entries.take(k));
    }
}

/// The first `k` entries take as many slots as their widths add up to.
proof fn lemma_layout_length(entries: Seq<EntryView>, k: int)
    requires
        0 <= k <= entries.len(),
    ensures
        layout(entries.take(k)).len() == slots_before(entries, k),
    decreases k,
{
    if k > 0 {
        lemma_layout_length(entries, k - 1);
        assert(entries.take(k).drop_last() =~= entries.take(k - 1));
    }
}

/// In a pool built by adding `entries` in order, the `k`-th of them (from 0)
/// has the index one more than the number of slots of those before it, where
/// an eight-byte entry counts two slots and every other entry one; the slot
/// behind an eight-byte entry holds no entry.
pub proof fn lemma_assigned_index(entries: Seq<EntryView>, k: int)
    requires
        0 <= k < entries.len(),
    ensures
        slots_before(entries, k) + width(entries[k]) <= layout(entries).len(),
        layout(entries)[slots_before(entries, k) as int] == Some(entries[k]),
        is_wide(entries[k]) ==> layout(entries)[slots_before(entries, k) as int + 1] is None,
        1 + slots_before(entries, k) <= u16::MAX ==> lookup(
            layout(entries),
            (1 + slots_before(entries, k)) as u16,
        ) == Ok::<EntryView, u16>(entries[k]),
        is_wide(entries[k]) && 2 + slots_before(entries, k) <= u16::MAX ==> lookup(
            layout(entries),
            (2 + slots_before(entries, k)) as u16,
        ) == Err::<EntryView, u16>((2 + slots_before(entries, k)) as u16),
{
    lemma_layout_length(entries, k);
    lemma_layout_length(entries, k + 1);
    lemma_layout_prefix(entries, k + 1);
    assert(entries.take(k + 1).drop_last() =~= entries.take(k));
    let upto = layout(entries.take(k + 1));
    assert(upto == layout(entries.take(k)) + slots_of(entries[k]));
    let at = slots_before(entries, k) as int;
    assert(upto[at] == slots_of(entries[k])[0]);
    assert(layout(entries)[at] == upto[at]);
    if is_wide(entries[k]) {
        assert(upto[at + 1] == slots_of(entries[k])[1]);
        assert(layout(entries)[at + 1] == upto[at + 1]);
    }
}

/// The text of an entry does not depend on an index `other` on the way to it
/// being marked as visited, where `other` cannot be written out on that way:
/// it refers to `index` itself or to an index visited already.
pub proof fn lemma_render_ignores(
    slots: Seq<Option<EntryView>>,
    index: u16,
    visited: Set<u16>,
    style: Style,
    other: u16,
    target: u16,
)
    requires
        render(slots, index, visited, style) is Ok,
        lookup(slots, other) is Ok,
        refers_to(lookup(slots, other)->Ok_0, target),
        target == index || visited.contains(target),
    ensures
        render(slots, index, visited.insert(other), style) == render(slots, index, visited, style),
    decreases unvisited(slots, visited).len(),
{
    let entry = lookup(slots, index)->Ok_0;
    let seen = visited.insert(index);
    lemma_unvisited_shrinks(slots, visited, index);
    assert(render(slots, target, seen, style) is Err);
    assert(index != other);
    assert(visited.insert(other).insert(index) =~= seen.insert(other));
    match targets(entry) {
        Targets::Nothing => {},
        Targets::One(n) => {
            lemma_render_ignores(slots, n, seen, style, other, target);
        },
        Targets::Two(i, j) => {
            lemma_render_ignores(slots, i, seen, style, other, target);
            lemma_render_ignores(slots, j, seen, style, other, target);
        },
    }
}

/// An entry that has a text with some index marked as visited has the same
/// text without that mark.
pub proof fn lemma_render_with_less(
    slots: Seq<Option<EntryView>>,
    index: u16,
    visited: Set<u16>,
    style: Style,
    other: u16,
)
    requires
        render(slots, index, visited.insert(other), style) is Ok,
    ensures
        render(slots, index, visited, style) == render(slots, index, visited.insert(other), style),
    decreases unvisited(slots, visited).len(),
{
    let entry = lookup(slots, index)->Ok_0;
    let seen = visited.insert(index);
    lemma_unvisited_shrinks(slots, visited, index);
    lemma_unvisited_shrinks(slots, visited.insert(other), index);
    assert(visited.insert(other).insert(index) =~= seen.insert(other));
    match targets(entry) {
        Targets::Nothing => {},
        Targets::One(n) => {
            lemma_render_with_less(slots, n, seen, style, other);
        },
        Targets::Two(i, j) => {
            lemma_render_with_less(slots, i, seen, style, other);
            lemma_render_with_less(slots, j, seen, style, other);
        },
    }
}

/// The text of a literal entry is its value. The text of an entry with one
/// target is the text of that target. The text of an entry with two targets
/// is the text of the first, the entry's separator and the text of the
/// second. An entry with targets has a text exactly when each target has
/// one.
pub proof fn lemma_text_of_reference(slots: Seq<Option<EntryView>>, index: u16)
    requires
        lookup(slots, index) is Ok,
    ensures
        match targets(lookup(slots, index)->Ok_0) {
            Targets::Nothing => text_at(slots, index) == Ok::<Seq<char>, u16>(
                literal(lookup(slots, index)->Ok_0),
            ),
            Targets::One(n) => {
                &&& text_at(slots, index) is Ok <==> text_at(slots, n) is Ok
                &&& text_at(slots, n) is Ok ==> text_at(slots, index) == text_at(slots, n)
            },
            Targets::Two(i, j) => {
                &&& text_at(slots, index) is Ok <==> text_at(slots, i) is Ok && text_at(
                    slots,
                    j,
                ) is Ok
                &&& text_at(slots, i) is Ok && text_at(slots, j) is Ok ==> text_at(slots, index)
                    == Ok::<Seq<char>, u16>(
                    text_at(slots, i)->Ok_0 + separator(lookup(slots, index)->Ok_0) + text_at(
                        slots,
                        j,
                    )->Ok_0,
                )
            },
        },
{
    let none = Set::<u16>::empty();
    lemma_unvisited_shrinks(slots, none, index);
    match targets(lookup(slots, index)->Ok_0) {
        Targets::Nothing => {},
        Targets::One(n) => {
            if text_at(slots, n) is Ok {
                lemma_render_ignores(slots, n, none, Style::Plain, index, n);
            }
            if text_at(slots, index) is Ok {
                lemma_render_with_less(slots, n, none, Style::Plain, index);
            }
        },
        Targets::Two(i, j) => {
            if text_at(slots, i) is Ok && text_at(slots, j) is Ok {
                lemma_render_ignores(slots, i, none, Style::Plain, index, i);
                lemma_render_ignores(slots, j, none, Style::Plain, index, j);
            }
            if text_at(slots, index) is Ok {
                lemma_render_with_less(slots, i, none, Style::Plain, index);
                lemma_render_with_less(slots, j, none, Style::Plain, index);
            }
        },
    }
}

/// Two pools with the same slots give every index the same text.
pub proof fn lemma_text_depends_on_slots(first: ConstantPool, second: ConstantPool, index: u16)
    requires
        first@ == second@,
    ensures
        text_at(first@, index) == text_at(second@, index),
        description_at(first@, index) == description_at(second@, index),
{
}

} // verus!
