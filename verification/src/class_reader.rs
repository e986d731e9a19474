//! The reader of class files: the layout of a class in bytes, as functions
//! from a position in the bytes to what stands there, and the code that
//! reads it.

use vstd::prelude::*;
use vstd::slice::*;
use vstd::string::*;
use crate::attribute::{Attribute, AttributeView};
use crate::buffer::{
    big_endian, i32_at, i64_at, take, u16_at, u32_at, u64_at, u8_at, utf8_at, BufferReader, Read,
};
use crate::c_pool::{
    lookup, slots_of, width, ConstantPool, ConstantPoolEntry, EntryView,
    InvalidConstantPoolIndexError,
};
use crate::class_access_flags::ClassAccessFlags;
use crate::class_file::{ClassFile, ClassView};
use crate::class_file_field::{ClassFileField, ConstantValueView, FieldConstantValue, FieldView};
use crate::class_file_method::{ClassFileMethod, MethodView};
use crate::class_file_version::{version_of, ClassFileVersion};
use crate::class_reader_error::{
    invalid_index, plain, truncated, viewed, viewed_all, ClassReaderError, ErrorView, Result,
};
use crate::field_flags::FieldFlags;
use crate::method_flags::MethodFlags;
use crate::text::{decimal, decimal_text, lemma_views_push, views};

verus! {

/// The number that every class file starts with.
pub const MAGIC: u32 = 0xCAFEBABE;

/// The error for malformed bytes, with `message` saying what is wrong.
pub open spec fn malformed(message: Seq<char>) -> ErrorView {
    ErrorView::InvalidClassData(message)
}

/// The error for a constant with a tag that no kind of entry has.
pub open spec fn unknown_constant(tag: u8) -> ErrorView {
    malformed("unknown constant type: "@ + decimal(tag as nat))
}

/// What `read` gives, with its value turned into `f` of it.
pub open spec fn mapped<A, B>(read: Read<A>, f: spec_fn(A) -> B) -> Read<B> {
    match read {
        Ok((value, end)) => Ok((f(value), end)),
        Err(error) => Err(error),
    }
}

/// The two unsigned 16-bit numbers at position `at`.
pub open spec fn pair_at(data: Seq<u8>, at: int) -> Read<(u16, u16)> {
    match u16_at(data, at) {
        Err(error) => Err(error),
        Ok((first, middle)) => match u16_at(data, middle) {
            Err(error) => Err(error),
            Ok((second, end)) => Ok(((first, second), end)),
        },
    }
}

/// The text at position `at`: its length in bytes as an unsigned 16-bit
/// number, then that many bytes of modified UTF-8.
pub open spec fn length_prefixed_text_at(data: Seq<u8>, at: int) -> Read<Seq<char>> {
    match u16_at(data, at) {
        Err(error) => Err(error),
        Ok((length, start)) => utf8_at(data, start, length as int),
    }
}

/// The constant at position `at`: a tag byte, then what the tag asks for.
#[verifier::opaque]
pub open spec fn constant_at(data: Seq<u8>, at: int) -> Read<EntryView> {
    match u8_at(data, at) {
        Err(error) => Err(error),
        Ok((tag, next)) => if tag == 1 {
            mapped(length_prefixed_text_at(data, next), |text: Seq<char>| EntryView::String(text))
        } else if tag == 3 {
            mapped(i32_at(data, next), |n: i32| EntryView::Integer(n))
        } else if tag == 4 {
            mapped(u32_at(data, next), |bits: u32| EntryView::Float(bits))
        } else if tag == 5 {
            mapped(i64_at(data, next), |n: i64| EntryView::Long(n))
        } else if tag == 6 {
            mapped(u64_at(data, next), |bits: u64| EntryView::Double(bits))
        } else if tag == 7 {
            mapped(u16_at(data, next), |n: u16| EntryView::ClassReference(n))
        } else if tag == 8 {
            mapped(u16_at(data, next), |n: u16| EntryView::StringReference(n))
        } else if tag == 9 {
            mapped(pair_at(data, next), |p: (u16, u16)| EntryView::FieldReference(p.0, p.1))
        } else if tag == 10 {
            mapped(pair_at(data, next), |p: (u16, u16)| EntryView::MethodReference(p.0, p.1))
        } else if tag == 11 {
            mapped(
                pair_at(data, next),
                |p: (u16, u16)| EntryView::InterfaceMethodReference(p.0, p.1),
            )
        } else if tag == 12 {
            mapped(pair_at(data, next), |p: (u16, u16)| EntryView::NameAndTypeDescriptor(p.0, p.1))
        } else {
            Err(unknown_constant(tag))
        },
    }
}

/// The constants at position `at` that fill `slots` slots. A wide constant
/// that has only one slot left is malformed.
pub open spec fn constants_from(data: Seq<u8>, at: int, slots: nat) -> Read<
    Seq<Option<EntryView>>,
>
    decreases slots,
{
    if slots == 0 {
        Ok((Seq::empty(), at))
    } else {
        match constant_at(data, at) {
            Err(error) => Err(error),
            Ok((entry, next)) => if width(entry) > slots {
                Err(malformed("constant pool ends inside a wide constant"@))
            } else {
                match constants_from(data, next, (slots - width(entry)) as nat) {
                    Err(error) => Err(error),
                    Ok((rest, end)) => Ok((slots_of(entry) + rest, end)),
                }
            },
        }
    }
}

/// While the constants are read: `filled` holds the slots read so far,
/// and what is still to read from position `at` for `left` slots decides
/// the whole as it did at the start.
pub open spec fn filling(
    data: Seq<u8>,
    start: int,
    total: nat,
    filled: Seq<Option<EntryView>>,
    at: int,
    left: nat,
) -> bool {
    match constants_from(data, at, left) {
        Err(error) => constants_from(data, start, total) == Err::<
            (Seq<Option<EntryView>>, int),
            ErrorView,
        >(error),
        Ok((rest, end)) => constants_from(data, start, total) == Ok::<
            (Seq<Option<EntryView>>, int),
            ErrorView,
        >((filled + rest, end)),
    }
}

/// Reading one more constant keeps the reading of the constants on its
/// way, or ends it with the error that the whole has.
proof fn lemma_filling_step(
    data: Seq<u8>,
    start: int,
    total: nat,
    filled: Seq<Option<EntryView>>,
    at: int,
    left: nat,
)
    requires
        left > 0,
        filling(data, start, total, filled, at, left),
    ensures
        match constant_at(data, at) {
            Err(error) => constants_from(data, start, total) == Err::<
                (Seq<Option<EntryView>>, int),
                ErrorView,
            >(error),
            Ok((entry, next)) => if width(entry) > left {
                constants_from(data, start, total) == Err::<
                    (Seq<Option<EntryView>>, int),
                    ErrorView,
                >(malformed("constant pool ends inside a wide constant"@))
            } else {
                filling(
                    data,
                    start,
                    total,
                    filled + slots_of(entry),
                    next,
                    (left - width(entry)) as nat,
                )
            },
        },
{
    match constant_at(data, at) {
        Err(_) => {},
        Ok((entry, next)) => {
            if width(entry) <= left {
                let rest = constants_from(data, next, (left - width(entry)) as nat);
                if rest is Ok {
                    assert(filled + (slots_of(entry) + rest->Ok_0.0) =~= (filled + slots_of(entry))
                        + rest->Ok_0.0);
                }
            }
        },
    }
}

/// The constant pool at position `at`: an unsigned 16-bit count, which is
/// one more than the number of slots, then the constants.
pub open spec fn pool_at(data: Seq<u8>, at: int) -> Read<Seq<Option<EntryView>>> {
    match u16_at(data, at) {
        Err(error) => Err(error),
        Ok((count, next)) => if count == 0 {
            Err(malformed("constant pool count is zero"@))
        } else {
            constants_from(data, next, (count - 1) as nat)
        },
    }
}

/// The text of the UTF-8 entry at `index`; any other index is invalid.
pub open spec fn utf8_entry(pool: Seq<Option<EntryView>>, index: u16) -> std::result::Result<
    Seq<char>,
    ErrorView,
> {
    match lookup(pool, index) {
        Ok(EntryView::String(text)) => Ok(text),
        _ => Err(invalid_index(index)),
    }
}

/// The name of the class at `index`: the text of the UTF-8 entry that the
/// class reference at `index` refers to; any other index is invalid.
pub open spec fn class_name(pool: Seq<Option<EntryView>>, index: u16) -> std::result::Result<
    Seq<char>,
    ErrorView,
> {
    match lookup(pool, index) {
        Ok(EntryView::ClassReference(name)) => utf8_entry(pool, name),
        _ => Err(invalid_index(index)),
    }
}

/// The name of the superclass at `index`: empty for index 0, which the
/// root of all classes has, and the name of the class at `index` otherwise.
pub open spec fn superclass_name(pool: Seq<Option<EntryView>>, index: u16) -> std::result::Result<
    Seq<char>,
    ErrorView,
> {
    if index == 0 {
        Ok(Seq::empty())
    } else {
        class_name(pool, index)
    }
}

/// What stands at position `at` as an index into the pool, resolved by
/// `resolve`.
pub open spec fn reference_at(
    data: Seq<u8>,
    at: int,
    resolve: spec_fn(u16) -> std::result::Result<Seq<char>, ErrorView>,
) -> Read<Seq<char>> {
    match u16_at(data, at) {
        Err(error) => Err(error),
        Ok((index, end)) => match resolve(index) {
            Ok(text) => Ok((text, end)),
            Err(error) => Err(error),
        },
    }
}

/// The text behind the index of a UTF-8 entry at position `at`.
pub open spec fn utf8_reference_at(data: Seq<u8>, at: int, pool: Seq<Option<EntryView>>) -> Read<
    Seq<char>,
> {
    reference_at(data, at, |index: u16| utf8_entry(pool, index))
}

/// The name behind the index of a class reference at position `at`.
pub open spec fn class_reference_at(data: Seq<u8>, at: int, pool: Seq<Option<EntryView>>) -> Read<
    Seq<char>,
> {
    reference_at(data, at, |index: u16| class_name(pool, index))
}

/// The name behind the index of the superclass at position `at`.
pub open spec fn superclass_at(data: Seq<u8>, at: int, pool: Seq<Option<EntryView>>) -> Read<
    Seq<char>,
> {
    reference_at(data, at, |index: u16| superclass_name(pool, index))
}

/// `count` items one behind the other from position `at`, each as `item`
/// reads it; the first error ends the reading.
pub open spec fn repeat<V>(item: spec_fn(int) -> Read<V>, at: int, count: nat) -> Read<Seq<V>>
    decreases count,
{
    if count == 0 {
        Ok((Seq::empty(), at))
    } else {
        match item(at) {
            Err(error) => Err(error),
            Ok((first, next)) => match repeat(item, next, (count - 1) as nat) {
                Err(error) => Err(error),
                Ok((rest, end)) => Ok((seq![first] + rest, end)),
            },
        }
    }
}

/// While a list is read: `done` holds the items read so far, and what is
/// still to read from position `at`, `left` items, decides the whole as it
/// did at the start.
pub open spec fn repeating<V>(
    item: spec_fn(int) -> Read<V>,
    start: int,
    count: nat,
    done: Seq<V>,
    at: int,
    left: nat,
) -> bool {
    match repeat(item, at, left) {
        Err(error) => repeat(item, start, count) == Err::<(Seq<V>, int), ErrorView>(error),
        Ok((rest, end)) => repeat(item, start, count) == Ok::<(Seq<V>, int), ErrorView>(
            (done + rest, end),
        ),
    }
}

/// At its start the reading of a list has nothing done and all to do.
proof fn lemma_repeating_start<V>(item: spec_fn(int) -> Read<V>, start: int, count: nat)
    ensures
        repeating(item, start, count, Seq::empty(), start, count),
{
    let all = repeat(item, start, count);
    if all is Ok {
        assert(Seq::<V>::empty() + all->Ok_0.0 =~= all->Ok_0.0);
    }
}

/// Reading one more item keeps the reading of a list on its way, or ends
/// it with the error that the whole has.
proof fn lemma_repeating_step<V>(
    item: spec_fn(int) -> Read<V>,
    start: int,
    count: nat,
    done: Seq<V>,
    at: int,
    left: nat,
)
    requires
        left > 0,
        repeating(item, start, count, done, at, left),
    ensures
        match item(at) {
            Err(error) => repeat(item, start, count) == Err::<(Seq<V>, int), ErrorView>(error),
            Ok((value, next)) => repeating(
                item,
                start,
                count,
                done.push(value),
                next,
                (left - 1) as nat,
            ),
        },
{
    match item(at) {
        Err(_) => {},
        Ok((value, next)) => {
            let rest = repeat(item, next, (left - 1) as nat);
            if rest is Ok {
                assert(done + (seq![value] + rest->Ok_0.0) =~= done.push(value) + rest->Ok_0.0);
            }
        },
    }
}

/// With nothing left to read, the list is what was read.
proof fn lemma_repeating_end<V>(
    item: spec_fn(int) -> Read<V>,
    start: int,
    count: nat,
    done: Seq<V>,
    at: int,
)
    requires
        repeating(item, start, count, done, at, 0),
    ensures
        repeat(item, start, count) == Ok::<(Seq<V>, int), ErrorView>((done, at)),
{
    assert(done + Seq::<V>::empty() =~= done);
}

/// A list at position `at`: an unsigned 16-bit count, then that many items.
pub open spec fn counted<V>(data: Seq<u8>, at: int, item: spec_fn(int) -> Read<V>) -> Read<Seq<V>> {
    match u16_at(data, at) {
        Err(error) => Err(error),
        Ok((count, next)) => repeat(item, next, count as nat),
    }
}

/// The attribute at position `at`: the index of its name, the length of
/// its payload as an unsigned 32-bit number, and the payload.
pub open spec fn attribute_at(data: Seq<u8>, at: int, pool: Seq<Option<EntryView>>) -> Read<
    AttributeView,
> {
    match utf8_reference_at(data, at, pool) {
        Err(error) => Err(error),
        Ok((name, next)) => match u32_at(data, next) {
            Err(error) => Err(error),
            Ok((length, start)) => match take(data, start, length as int) {
                Err(error) => Err(error),
                Ok((bytes, end)) => Ok((AttributeView { name, bytes }, end)),
            },
        },
    }
}

/// The reader of one attribute.
pub open spec fn attribute_reader(data: Seq<u8>, pool: Seq<Option<EntryView>>) -> spec_fn(
    int,
) -> Read<AttributeView> {
    |at: int| attribute_at(data, at, pool)
}

/// The list of attributes at position `at`.
pub open spec fn attributes_at(data: Seq<u8>, at: int, pool: Seq<Option<EntryView>>) -> Read<
    Seq<AttributeView>,
> {
    counted(data, at, attribute_reader(data, pool))
}

/// The kinds of constant that a field can start with, by its type.
pub enum Category {
    IntLike,
    Float,
    Long,
    Double,
    Text,
}

/// The kind of constant that a field of type `descriptor` can start with:
/// an integer for `I`, `S`, `C`, `B` and `Z`, a single for `F`, a long for
/// `J`, a double for `D`, a string for `Ljava/lang/String;`, and none for
/// any other type.
pub open spec fn category(descriptor: Seq<char>) -> Option<Category> {
    if descriptor == "I"@ || descriptor == "S"@ || descriptor == "C"@ || descriptor == "B"@
        || descriptor == "Z"@ {
        Some(Category::IntLike)
    } else if descriptor == "F"@ {
        Some(Category::Float)
    } else if descriptor == "J"@ {
        Some(Category::Long)
    } else if descriptor == "D"@ {
        Some(Category::Double)
    } else if descriptor == "Ljava/lang/String;"@ {
        Some(Category::Text)
    } else {
        None
    }
}

/// The constant that `entry` gives to a field of kind `kind`, where it is
/// of that kind.
pub open spec fn typed_constant(
    kind: Option<Category>,
    entry: EntryView,
    pool: Seq<Option<EntryView>>,
) -> std::result::Result<ConstantValueView, ErrorView> {
    match (kind, entry) {
        (Some(Category::IntLike), EntryView::Integer(n)) => Ok(ConstantValueView::Int(n)),
        (Some(Category::Float), EntryView::Float(bits)) => Ok(ConstantValueView::Float(bits)),
        (Some(Category::Long), EntryView::Long(n)) => Ok(ConstantValueView::Long(n)),
        (Some(Category::Double), EntryView::Double(bits)) => Ok(ConstantValueView::Double(bits)),
        (Some(Category::Text), EntryView::StringReference(index)) => match utf8_entry(
            pool,
            index,
        ) {
            Ok(text) => Ok(ConstantValueView::String(text)),
            Err(error) => Err(error),
        },
        _ => Err(malformed("constant value does not match the type of the field"@)),
    }
}

/// The constant that the payload `bytes` of a `ConstantValue` attribute
/// gives to a field of type `descriptor`: the payload is one index into the
/// pool, and the entry there is of the kind that the type asks for.
pub open spec fn constant_value(
    bytes: Seq<u8>,
    descriptor: Seq<char>,
    pool: Seq<Option<EntryView>>,
) -> std::result::Result<ConstantValueView, ErrorView> {
    if bytes.len() != 2 {
        Err(malformed("constant value attribute is not two bytes long"@))
    } else {
        match lookup(pool, big_endian(bytes) as u16) {
            Err(index) => Err(invalid_index(index)),
            Ok(entry) => typed_constant(category(descriptor), entry, pool),
        }
    }
}

/// The constant of a field with these attributes: that of the first
/// attribute named `ConstantValue`, or none where there is no such
/// attribute.
pub open spec fn constant_of(
    attributes: Seq<AttributeView>,
    descriptor: Seq<char>,
    pool: Seq<Option<EntryView>>,
) -> std::result::Result<Option<ConstantValueView>, ErrorView>
    decreases attributes.len(),
{
    if attributes.len() == 0 {
        Ok(None)
    } else if attributes[0].name == "ConstantValue"@ {
        match constant_value(attributes[0].bytes, descriptor, pool) {
            Ok(value) => Ok(Some(value)),
            Err(error) => Err(error),
        }
    } else {
        constant_of(attributes.drop_first(), descriptor, pool)
    }
}

/// The field at position `at`: its flags, the indices of its name and of
/// its type, and its attributes.
pub open spec fn field_at(data: Seq<u8>, at: int, pool: Seq<Option<EntryView>>) -> Read<FieldView> {
    match u16_at(data, at) {
        Err(error) => Err(error),
        Ok((flags, a)) => match utf8_reference_at(data, a, pool) {
            Err(error) => Err(error),
            Ok((name, b)) => match utf8_reference_at(data, b, pool) {
                Err(error) => Err(error),
                Ok((type_descriptor, c)) => match attributes_at(data, c, pool) {
                    Err(error) => Err(error),
                    Ok((attributes, end)) => match constant_of(
                        attributes,
                        type_descriptor,
                        pool,
                    ) {
                        Err(error) => Err(error),
                        Ok(constant_value) => Ok(
                            (
                                FieldView {
                                    flags,
                                    name,
                                    type_descriptor,
                                    constant_value,
                                    attributes,
                                },
                                end,
                            ),
                        ),
                    },
                },
            },
        },
    }
}

/// The method at position `at`: its flags, the indices of its name and of
/// its type, and its attributes.
pub open spec fn method_at(data: Seq<u8>, at: int, pool: Seq<Option<EntryView>>) -> Read<
    MethodView,
> {
    match u16_at(data, at) {
        Err(error) => Err(error),
        Ok((flags, a)) => match utf8_reference_at(data, a, pool) {
            Err(error) => Err(error),
            Ok((name, b)) => match utf8_reference_at(data, b, pool) {
                Err(error) => Err(error),
                Ok((type_descriptor, c)) => match attributes_at(data, c, pool) {
                    Err(error) => Err(error),
                    Ok((attributes, end)) => Ok(
                        (MethodView { flags, name, type_descriptor, attributes }, end),
                    ),
                },
            },
        },
    }
}

/// The reader of one interface name.
pub open spec fn interface_reader(data: Seq<u8>, pool: Seq<Option<EntryView>>) -> spec_fn(
    int,
) -> Read<Seq<char>> {
    |at: int| class_reference_at(data, at, pool)
}

/// The reader of one field.
pub open spec fn field_reader(data: Seq<u8>, pool: Seq<Option<EntryView>>) -> spec_fn(int) -> Read<
    FieldView,
> {
    |at: int| field_at(data, at, pool)
}

/// The reader of one method.
pub open spec fn method_reader(data: Seq<u8>, pool: Seq<Option<EntryView>>) -> spec_fn(
    int,
) -> Read<MethodView> {
    |at: int| method_at(data, at, pool)
}

/// The magic number at position `at`.
pub open spec fn magic_at(data: Seq<u8>, at: int) -> Read<()> {
    match u32_at(data, at) {
        Err(error) => Err(error),
        Ok((magic, end)) => if magic == MAGIC {
            Ok(((), end))
        } else {
            Err(malformed("invalid magic number"@))
        },
    }
}

/// The version at position `at`: the minor number, then the major one.
pub open spec fn version_at(data: Seq<u8>, at: int) -> Read<ClassFileVersion> {
    match pair_at(data, at) {
        Err(error) => Err(error),
        Ok(((minor, major), end)) => match version_of(major, minor) {
            Ok(version) => Ok((version, end)),
            Err(error) => Err(error),
        },
    }
}

/// What stands at position `at` behind the constant pool `constants` of a
/// class of version `version`: the flags, the indices of the class and of
/// its superclass, and the lists of the interfaces, the fields, the methods
/// and the attributes of the class. The attributes of the class are read
/// and left out.
pub open spec fn members_at(
    data: Seq<u8>,
    at: int,
    version: ClassFileVersion,
    constants: Seq<Option<EntryView>>,
) -> Read<ClassView> {
    match u16_at(data, at) {
        Err(error) => Err(error),
        Ok((flags, a)) => match class_reference_at(data, a, constants) {
            Err(error) => Err(error),
            Ok((name, b)) => match superclass_at(data, b, constants) {
                Err(error) => Err(error),
                Ok((superclass, c)) => match counted(data, c, interface_reader(data, constants)) {
                    Err(error) => Err(error),
                    Ok((interfaces, d)) => match counted(data, d, field_reader(data, constants)) {
                        Err(error) => Err(error),
                        Ok((fields, e)) => match counted(
                            data,
                            e,
                            method_reader(data, constants),
                        ) {
                            Err(error) => Err(error),
                            Ok((methods, f)) => match attributes_at(data, f, constants) {
                                Err(error) => Err(error),
                                Ok((_, end)) => Ok(
                                    (
                                        ClassView {
                                            version,
                                            constants,
                                            flags,
                                            name,
                                            superclass,
                                            interfaces,
                                            fields,
                                            methods,
                                        },
                                        end,
                                    ),
                                ),
                            },
                        },
                    },
                },
            },
        },
    }
}

/// The class that `data` holds: the magic number, the version, the
/// constant pool and the members, each behind the one before. Bytes behind
/// the class are not looked at.
pub open spec fn class_of(data: Seq<u8>) -> std::result::Result<ClassView, ErrorView> {
    match magic_at(data, 0) {
        Err(error) => Err(error),
        Ok((_, a)) => match version_at(data, a) {
            Err(error) => Err(error),
            Ok((version, b)) => match pool_at(data, b) {
                Err(error) => Err(error),
                Ok((constants, c)) => match members_at(data, c, version, constants) {
                    Err(error) => Err(error),
                    Ok((class, _)) => Ok(class),
                },
            },
        },
    }
}

/// Reads two unsigned 16-bit numbers.
fn read_pair(reader: &mut BufferReader) -> (result: Result<(u16, u16)>)
    ensures
        old(reader).parses(
            *final(reader),
            plain(result),
            pair_at(old(reader).data(), old(reader).position()),
        ),
{
    let first = match reader.read_u16() {
        Ok(first) => first,
        Err(error) => {
            return Err(error);
        },
    };
    let second = match reader.read_u16() {
        Ok(second) => second,
        Err(error) => {
            return Err(error);
        },
    };
    Ok((first, second))
}

/// Reads one constant.
fn read_constant(reader: &mut BufferReader) -> (result: Result<ConstantPoolEntry>)
    ensures
        old(reader).parses(
            *final(reader),
            viewed(result),
            constant_at(old(reader).data(), old(reader).position()),
        ),
{
    reveal(constant_at);
    let tag = match reader.read_u8() {
        Ok(tag) => tag,
        Err(error) => {
            return Err(error);
        },
    };
    match tag {
        1 => {
            let length = match reader.read_u16() {
                Ok(length) => length,
                Err(error) => {
                    return Err(error);
                },
            };
            match reader.read_utf8(length as usize) {
                Ok(text) => Ok(ConstantPoolEntry::String(text)),
                Err(error) => Err(error),
            }
        },
        3 => match reader.read_i32() {
            Ok(n) => Ok(ConstantPoolEntry::Integer(n)),
            Err(error) => Err(error),
        },
        4 => match reader.read_f32() {
            Ok(bits) => Ok(ConstantPoolEntry::Float(bits)),
            Err(error) => Err(error),
        },
        5 => match reader.read_i64() {
            Ok(n) => Ok(ConstantPoolEntry::Long(n)),
            Err(error) => Err(error),
        },
        6 => match reader.read_f64() {
            Ok(bits) => Ok(ConstantPoolEntry::Double(bits)),
            Err(error) => Err(error),
        },
        7 => match reader.read_u16() {
            Ok(n) => Ok(ConstantPoolEntry::ClassReference(n)),
            Err(error) => Err(error),
        },
        8 => match reader.read_u16() {
            Ok(n) => Ok(ConstantPoolEntry::StringReference(n)),
            Err(error) => Err(error),
        },
        9 => match read_pair(reader) {
            Ok((i, j)) => Ok(ConstantPoolEntry::FieldReference(i, j)),
            Err(error) => Err(error),
        },
        10 => match read_pair(reader) {
            Ok((i, j)) => Ok(ConstantPoolEntry::MethodReference(i, j)),
            Err(error) => Err(error),
        },
        11 => match read_pair(reader) {
            Ok((i, j)) => Ok(ConstantPoolEntry::InterfaceMethodReference(i, j)),
            Err(error) => Err(error),
        },
        12 => match read_pair(reader) {
            Ok((i, j)) => Ok(ConstantPoolEntry::NameAndTypeDescriptor(i, j)),
            Err(error) => Err(error),
        },
        _ => {
            let mut message = String::from_str("unknown constant type: ");
            message.append(decimal_text(tag as u64).as_str());
            Err(ClassReaderError::InvalidClassData(message))
        },
    }
}

/// Whether an entry takes two slots.
fn takes_two_slots(entry: &ConstantPoolEntry) -> (wide: bool)
    ensures
        wide == (width(entry@) == 2),
        !wide == (width(entry@) == 1),
{
    match entry {
        ConstantPoolEntry::Long(_) => true,
        ConstantPoolEntry::Double(_) => true,
        _ => false,
    }
}

/// Reads the constant pool.
fn read_constants(reader: &mut BufferReader) -> (result: Result<ConstantPool>)
    ensures
        old(reader).parses(
            *final(reader),
            viewed(result),
            pool_at(old(reader).data(), old(reader).position()),
        ),
{
    let count = match reader.read_u16() {
        Ok(count) => count,
        Err(error) => {
            return Err(error);
        },
    };
    if count == 0 {
        return Err(ClassReaderError::invalid("constant pool count is zero"));
    }
    let ghost data = reader.data();
    let ghost start = reader.position();
    let ghost total = (count - 1) as nat;
    let ghost goal = pool_at(old(reader).data(), old(reader).position());
    let mut pool = ConstantPool::new();
    let mut left: u16 = count - 1;
    proof {
        let all = constants_from(data, start, total);
        if all is Ok {
            assert(Seq::<Option<EntryView>>::empty() + all->Ok_0.0 =~= all->Ok_0.0);
        }
    }
    while left > 0
        invariant
            data == old(reader).data(),
            reader.data() == data,
            0 <= reader.position() <= reader.data().len(),
            goal == pool_at(old(reader).data(), old(reader).position()),
            goal == constants_from(data, start, total),
            filling(data, start, total, pool@, reader.position(), left as nat),
        decreases left,
    {
        proof {
            lemma_filling_step(data, start, total, pool@, reader.position(), left as nat);
        }
        let entry = match read_constant(reader) {
            Ok(entry) => entry,
            Err(error) => {
                return Err(error);
            },
        };
        let slots: u16 = if takes_two_slots(&entry) {
            2
        } else {
            1
        };
        if slots > left {
            return Err(ClassReaderError::invalid("constant pool ends inside a wide constant"));
        }
        pool.add(entry);
        left -= slots;
    }
    assert(pool@ + Seq::<Option<EntryView>>::empty() =~= pool@);
    Ok(pool)
}

/// The error for an index that does not lead to the entry that is asked
/// for.
fn invalid_reference(index: u16) -> (error: ClassReaderError)
    ensures
        error@ == invalid_index(index),
{
    ClassReaderError::from(InvalidConstantPoolIndexError::new(index))
}

/// The text of the UTF-8 entry at `index`.
fn utf8_entry_of(pool: &ConstantPool, index: u16) -> (result: Result<String>)
    ensures
        viewed(result) == utf8_entry(pool@, index),
{
    match pool.get(index) {
        Ok(ConstantPoolEntry::String(text)) => Ok(text.clone()),
        _ => Err(invalid_reference(index)),
    }
}

/// The name of the class at `index`.
fn class_name_of(pool: &ConstantPool, index: u16) -> (result: Result<String>)
    ensures
        viewed(result) == class_name(pool@, index),
{
    match pool.get(index) {
        Ok(ConstantPoolEntry::ClassReference(name)) => utf8_entry_of(pool, *name),
        _ => Err(invalid_reference(index)),
    }
}

/// Reads the index of a UTF-8 entry and resolves it.
fn read_utf8_reference(reader: &mut BufferReader, pool: &ConstantPool) -> (result: Result<String>)
    ensures
        old(reader).parses(
            *final(reader),
            viewed(result),
            utf8_reference_at(old(reader).data(), old(reader).position(), pool@),
        ),
{
    match reader.read_u16() {
        Ok(index) => utf8_entry_of(pool, index),
        Err(error) => Err(error),
    }
}

/// Reads the index of a class reference and resolves it.
fn read_class_reference(reader: &mut BufferReader, pool: &ConstantPool) -> (result: Result<String>)
    ensures
        old(reader).parses(
            *final(reader),
            viewed(result),
            class_reference_at(old(reader).data(), old(reader).position(), pool@),
        ),
{
    match reader.read_u16() {
        Ok(index) => class_name_of(pool, index),
        Err(error) => Err(error),
    }
}

/// Reads the index of the superclass and resolves it.
fn read_superclass(reader: &mut BufferReader, pool: &ConstantPool) -> (result: Result<String>)
    ensures
        old(reader).parses(
            *final(reader),
            viewed(result),
            superclass_at(old(reader).data(), old(reader).position(), pool@),
        ),
{
    match reader.read_u16() {
        Ok(index) => if index == 0 {
            Ok(String::new())
        } else {
            class_name_of(pool, index)
        },
        Err(error) => Err(error),
    }
}

/// Reads one attribute.
fn read_attribute(reader: &mut BufferReader, pool: &ConstantPool) -> (result: Result<Attribute>)
    ensures
        old(reader).parses(
            *final(reader),
            viewed(result),
            attribute_at(old(reader).data(), old(reader).position(), pool@),
        ),
{
    let name = match read_utf8_reference(reader, pool) {
        Ok(name) => name,
        Err(error) => {
            return Err(error);
        },
    };
    let length = match reader.read_u32() {
        Ok(length) => length,
        Err(error) => {
            return Err(error);
        },
    };
    let bytes = match reader.advance(length as usize) {
        Ok(bytes) => slice_to_vec(bytes),
        Err(error) => {
            return Err(error);
        },
    };
    Ok(Attribute { name, bytes })
}

/// Reads a list of attributes.
fn read_attributes(reader: &mut BufferReader, pool: &ConstantPool) -> (result: Result<
    Vec<Attribute>,
>)
    ensures
        old(reader).parses(
            *final(reader),
            viewed_all(result),
            attributes_at(old(reader).data(), old(reader).position(), pool@),
        ),
{
    let count = match reader.read_u16() {
        Ok(count) => count,
        Err(error) => {
            return Err(error);
        },
    };
    let ghost data = reader.data();
    let ghost start = reader.position();
    let ghost item = attribute_reader(data, pool@);
    let ghost goal = attributes_at(old(reader).data(), old(reader).position(), pool@);
    let mut attributes: Vec<Attribute> = Vec::new();
    let mut k: u16 = 0;
    proof {
        lemma_repeating_start(item, start, count as nat);
        assert(views(attributes@) =~= Seq::empty());
    }
    while k < count
        invariant
            k <= count,
            data == old(reader).data(),
            reader.data() == data,
            0 <= reader.position() <= reader.data().len(),
            item == attribute_reader(data, pool@),
            goal == attributes_at(old(reader).data(), old(reader).position(), pool@),
            goal == repeat(item, start, count as nat),
            repeating(
                item,
                start,
                count as nat,
                views(attributes@),
                reader.position(),
                (count - k) as nat,
            ),
        decreases count - k,
    {
        proof {
            lemma_repeating_step(
                item,
                start,
                count as nat,
                views(attributes@),
                reader.position(),
                (count - k) as nat,
            );
        }
        let attribute = match read_attribute(reader, pool) {
            Ok(attribute) => attribute,
            Err(error) => {
                return Err(error);
            },
        };
        proof {
            lemma_views_push(attributes@, attribute);
        }
        attributes.push(attribute);
        k += 1;
    }
    proof {
        lemma_repeating_end(item, start, count as nat, views(attributes@), reader.position());
    }
    Ok(attributes)
}

/// Whether `text` is the text of `literal`.
fn text_is(text: &String, literal: &str) -> (same: bool)
    ensures
        same == (text@ == literal@),
{
    let other = String::from_str(literal);
    *text == other
}

/// The constant that `entry` gives to a field of type `descriptor`.
fn typed_constant_of(descriptor: &String, entry: &ConstantPoolEntry, pool: &ConstantPool) -> (result:
    Result<FieldConstantValue>)
    ensures
        viewed(result) == typed_constant(category(descriptor@), entry@, pool@),
{
    let int_like = text_is(descriptor, "I") || text_is(descriptor, "S") || text_is(descriptor, "C")
        || text_is(descriptor, "B") || text_is(descriptor, "Z");
    let single = !int_like && text_is(descriptor, "F");
    let long = !int_like && !single && text_is(descriptor, "J");
    let double = !int_like && !single && !long && text_is(descriptor, "D");
    let text = !int_like && !single && !long && !double && text_is(
        descriptor,
        "Ljava/lang/String;",
    );
    match entry {
        ConstantPoolEntry::Integer(n) if int_like => Ok(FieldConstantValue::Int(*n)),
        ConstantPoolEntry::Float(bits) if single => Ok(FieldConstantValue::Float(*bits)),
        ConstantPoolEntry::Long(n) if long => Ok(FieldConstantValue::Long(*n)),
        ConstantPoolEntry::Double(bits) if double => Ok(FieldConstantValue::Double(*bits)),
        ConstantPoolEntry::StringReference(index) if text => match utf8_entry_of(pool, *index) {
            Ok(text) => Ok(FieldConstantValue::String(text)),
            Err(error) => Err(error),
        },
        _ => Err(ClassReaderError::invalid("constant value does not match the type of the field")),
    }
}

/// The constant that the payload of a `ConstantValue` attribute gives to a
/// field of type `descriptor`.
fn constant_value_of(bytes: &Vec<u8>, descriptor: &String, pool: &ConstantPool) -> (result: Result<
    FieldConstantValue,
>)
    ensures
        viewed(result) == constant_value(bytes@, descriptor@, pool@),
{
    if bytes.len() != 2 {
        return Err(ClassReaderError::invalid("constant value attribute is not two bytes long"));
    }
    proof {
        reveal_with_fuel(big_endian, 3);
        assert(bytes@.drop_last().last() == bytes@[0]);
    }
    let index: u16 = bytes[0] as u16 * 256 + bytes[1] as u16;
    match pool.get(index) {
        Ok(entry) => typed_constant_of(descriptor, entry, pool),
        Err(error) => Err(ClassReaderError::from(error)),
    }
}

/// The constant of a field with these attributes.
fn field_constant(attributes: &Vec<Attribute>, descriptor: &String, pool: &ConstantPool) -> (result:
    Result<Option<FieldConstantValue>>)
    ensures
        match result {
            Ok(Some(value)) => constant_of(views(attributes@), descriptor@, pool@) == Ok::<
                Option<ConstantValueView>,
                ErrorView,
            >(Some(value@)),
            Ok(None) => constant_of(views(attributes@), descriptor@, pool@) == Ok::<
                Option<ConstantValueView>,
                ErrorView,
            >(None),
            Err(error) => constant_of(views(attributes@), descriptor@, pool@) == Err::<
                Option<ConstantValueView>,
                ErrorView,
            >(error@),
        },
{
    let ghost all = views(attributes@);
    let mut k: usize = 0;
    assert(all.skip(0) =~= all);
    while k < attributes.len()
        invariant
            k <= attributes.len(),
            all == views(attributes@),
            constant_of(all, descriptor@, pool@) == constant_of(
                all.skip(k as int),
                descriptor@,
                pool@,
            ),
        decreases attributes.len() - k,
    {
        assert(all.skip(k as int)[0] == attributes@[k as int]@);
        assert(all.skip(k as int).drop_first() =~= all.skip(k + 1));
        if text_is(&attributes[k].name, "ConstantValue") {
            return match constant_value_of(&attributes[k].bytes, descriptor, pool) {
                Ok(value) => Ok(Some(value)),
                Err(error) => Err(error),
            };
        }
        k += 1;
    }
    Ok(None)
}

/// Reads one field.
fn read_field(reader: &mut BufferReader, pool: &ConstantPool) -> (result: Result<ClassFileField>)
    ensures
        old(reader).parses(
            *final(reader),
            viewed(result),
            field_at(old(reader).data(), old(reader).position(), pool@),
        ),
{
    let flags = match reader.read_u16() {
        Ok(bits) => FieldFlags::from_bits_retain(bits),
        Err(error) => {
            return Err(error);
        },
    };
    let name = match read_utf8_reference(reader, pool) {
        Ok(name) => name,
        Err(error) => {
            return Err(error);
        },
    };
    let type_descriptor = match read_utf8_reference(reader, pool) {
        Ok(type_descriptor) => type_descriptor,
        Err(error) => {
            return Err(error);
        },
    };
    let attributes = match read_attributes(reader, pool) {
        Ok(attributes) => attributes,
        Err(error) => {
            return Err(error);
        },
    };
    let constant_value = match field_constant(&attributes, &type_descriptor, pool) {
        Ok(constant_value) => constant_value,
        Err(error) => {
            return Err(error);
        },
    };
    Ok(ClassFileField { flags, name, type_descriptor, constant_value, attributes })
}

/// Reads one method.
fn read_method(reader: &mut BufferReader, pool: &ConstantPool) -> (result: Result<ClassFileMethod>)
    ensures
        old(reader).parses(
            *final(reader),
            viewed(result),
            method_at(old(reader).data(), old(reader).position(), pool@),
        ),
{
    let flags = match reader.read_u16() {
        Ok(bits) => MethodFlags::from_bits_retain(bits),
        Err(error) => {
            return Err(error);
        },
    };
    let name = match read_utf8_reference(reader, pool) {
        Ok(name) => name,
        Err(error) => {
            return Err(error);
        },
    };
    let type_descriptor = match read_utf8_reference(reader, pool) {
        Ok(type_descriptor) => type_descriptor,
        Err(error) => {
            return Err(error);
        },
    };
    let attributes = match read_attributes(reader, pool) {
        Ok(attributes) => attributes,
        Err(error) => {
            return Err(error);
        },
    };
    Ok(ClassFileMethod { flags, name, type_descriptor, attributes })
}

/// Reads the list of the interfaces.
fn read_interfaces(reader: &mut BufferReader, pool: &ConstantPool) -> (result: Result<Vec<String>>)
    ensures
        old(reader).parses(
            *final(reader),
            viewed_all(result),
            counted(
                old(reader).data(),
                old(reader).position(),
                interface_reader(old(reader).data(), pool@),
            ),
        ),
{
    let count = match reader.read_u16() {
        Ok(count) => count,
        Err(error) => {
            return Err(error);
        },
    };
    let ghost data = reader.data();
    let ghost start = reader.position();
    let ghost item = interface_reader(data, pool@);
    let ghost goal = counted(old(reader).data(), old(reader).position(), item);
    let mut interfaces: Vec<String> = Vec::new();
    let mut k: u16 = 0;
    proof {
        lemma_repeating_start(item, start, count as nat);
        assert(views(interfaces@) =~= Seq::empty());
    }
    while k < count
        invariant
            k <= count,
            data == old(reader).data(),
            reader.data() == data,
            0 <= reader.position() <= reader.data().len(),
            item == interface_reader(data, pool@),
            goal == counted(old(reader).data(), old(reader).position(), item),
            goal == repeat(item, start, count as nat),
            repeating(
                item,
                start,
                count as nat,
                views(interfaces@),
                reader.position(),
                (count - k) as nat,
            ),
        decreases count - k,
    {
        proof {
            lemma_repeating_step(
                item,
                start,
                count as nat,
                views(interfaces@),
                reader.position(),
                (count - k) as nat,
            );
        }
        let next = match read_class_reference(reader, pool) {
            Ok(next) => next,
            Err(error) => {
                return Err(error);
            },
        };
        proof {
            lemma_views_push(interfaces@, next);
        }
        interfaces.push(next);
        k += 1;
    }
    proof {
        lemma_repeating_end(item, start, count as nat, views(interfaces@), reader.position());
    }
    Ok(interfaces)
}

/// Reads the list of the fields.
fn read_fields(reader: &mut BufferReader, pool: &ConstantPool) -> (result: Result<Vec<ClassFileField>>)
    ensures
        old(reader).parses(
            *final(reader),
            viewed_all(result),
            counted(
                old(reader).data(),
                old(reader).position(),
                field_reader(old(reader).data(), pool@),
            ),
        ),
{
    let count = match reader.read_u16() {
        Ok(count) => count,
        Err(error) => {
            return Err(error);
        },
    };
    let ghost data = reader.data();
    let ghost start = reader.position();
    let ghost item = field_reader(data, pool@);
    let ghost goal = counted(old(reader).data(), old(reader).position(), item);
    let mut fields: Vec<ClassFileField> = Vec::new();
    let mut k: u16 = 0;
    proof {
        lemma_repeating_start(item, start, count as nat);
        assert(views(fields@) =~= Seq::empty());
    }
    while k < count
        invariant
            k <= count,
            data == old(reader).data(),
            reader.data() == data,
            0 <= reader.position() <= reader.data().len(),
            item == field_reader(data, pool@),
            goal == counted(old(reader).data(), old(reader).position(), item),
            goal == repeat(item, start, count as nat),
            repeating(
                item,
                start,
                count as nat,
                views(fields@),
                reader.position(),
                (count - k) as nat,
            ),
        decreases count - k,
    {
        proof {
            lemma_repeating_step(
                item,
                start,
                count as nat,
                views(fields@),
                reader.position(),
                (count - k) as nat,
            );
        }
        let next = match read_field(reader, pool) {
            Ok(next) => next,
            Err(error) => {
                return Err(error);
            },
        };
        proof {
            lemma_views_push(fields@, next);
        }
        fields.push(next);
        k += 1;
    }
    proof {
        lemma_repeating_end(item, start, count as nat, views(fields@), reader.position());
    }
    Ok(fields)
}

/// Reads the list of the methods.
fn read_methods(reader: &mut BufferReader, pool: &ConstantPool) -> (result: Result<Vec<ClassFileMethod>>)
    ensures
        old(reader).parses(
            *final(reader),
            viewed_all(result),
            counted(
                old(reader).data(),
                old(reader).position(),
                method_reader(old(reader).data(), pool@),
            ),
        ),
{
    let count = match reader.read_u16() {
        Ok(count) => count,
        Err(error) => {
            return Err(error);
        },
    };
    let ghost data = reader.data();
    let ghost start = reader.position();
    let ghost item = method_reader(data, pool@);
    let ghost goal = counted(old(reader).data(), old(reader).position(), item);
    let mut methods: Vec<ClassFileMethod> = Vec::new();
    let mut k: u16 = 0;
    proof {
        lemma_repeating_start(item, start, count as nat);
        assert(views(methods@) =~= Seq::empty());
    }
    while k < count
        invariant
            k <= count,
            data == old(reader).data(),
            reader.data() == data,
            0 <= reader.position() <= reader.data().len(),
            item == method_reader(data, pool@),
            goal == counted(old(reader).data(), old(reader).position(), item),
            goal == repeat(item, start, count as nat),
            repeating(
                item,
                start,
                count as nat,
                views(methods@),
                reader.position(),
                (count - k) as nat,
            ),
        decreases count - k,
    {
        proof {
            lemma_repeating_step(
                item,
                start,
                count as nat,
                views(methods@),
                reader.position(),
                (count - k) as nat,
            );
        }
        let next = match read_method(reader, pool) {
            Ok(next) => next,
            Err(error) => {
                return Err(error);
            },
        };
        proof {
            lemma_views_push(methods@, next);
        }
        methods.push(next);
        k += 1;
    }
    proof {
        lemma_repeating_end(item, start, count as nat, views(methods@), reader.position());
    }
    Ok(methods)
}

/// Reads and checks the magic number.
fn check_magic_number(reader: &mut BufferReader) -> (result: Result<()>)
    ensures
        old(reader).parses(
            *final(reader),
            plain(result),
            magic_at(old(reader).data(), old(reader).position()),
        ),
{
    match reader.read_u32() {
        Ok(magic) => if magic == MAGIC {
            Ok(())
        } else {
            Err(ClassReaderError::invalid("invalid magic number"))
        },
        Err(error) => Err(error),
    }
}

/// Reads the version.
fn read_version(reader: &mut BufferReader) -> (result: Result<ClassFileVersion>)
    ensures
        old(reader).parses(
            *final(reader),
            plain(result),
            version_at(old(reader).data(), old(reader).position()),
        ),
{
    match read_pair(reader) {
        Ok((minor, major)) => ClassFileVersion::from(major, minor),
        Err(error) => Err(error),
    }
}

/// Reads what stands behind the constant pool of a class.
fn read_members(reader: &mut BufferReader, version: ClassFileVersion, constants: ConstantPool) -> (result:
    Result<ClassFile>)
    ensures
        old(reader).parses(
            *final(reader),
            viewed(result),
            members_at(old(reader).data(), old(reader).position(), version, constants@),
        ),
{
    let flags = match reader.read_u16() {
        Ok(bits) => ClassAccessFlags::from_bits_retain(bits),
        Err(error) => {
            return Err(error);
        },
    };
    let name = match read_class_reference(reader, &constants) {
        Ok(name) => name,
        Err(error) => {
            return Err(error);
        },
    };
    let superclass = match read_superclass(reader, &constants) {
        Ok(superclass) => superclass,
        Err(error) => {
            return Err(error);
        },
    };
    let interfaces = match read_interfaces(reader, &constants) {
        Ok(interfaces) => interfaces,
        Err(error) => {
            return Err(error);
        },
    };
    let fields = match read_fields(reader, &constants) {
        Ok(fields) => fields,
        Err(error) => {
            return Err(error);
        },
    };
    let methods = match read_methods(reader, &constants) {
        Ok(methods) => methods,
        Err(error) => {
            return Err(error);
        },
    };
    match read_attributes(reader, &constants) {
        Ok(_) => {},
        Err(error) => {
            return Err(error);
        },
    }
    Ok(ClassFile { version, constants, flags, name, superclass, interfaces, fields, methods })
}

/// Reads a class from the bytes of a class file. Any flaw in the bytes ends
/// the reading with its error; no part of a class is handed out then. In
/// the class that is handed out, every text comes from its constant pool.
pub fn read_buffer(buf: &[u8]) -> (result: Result<ClassFile>)
    ensures
        viewed(result) == class_of(buf@),
        result matches Ok(class) ==> class_resolved(class@),
{
    let mut reader = BufferReader::new(buf);
    match check_magic_number(&mut reader) {
        Ok(_) => {},
        Err(error) => {
            return Err(error);
        },
    }
    let version = match read_version(&mut reader) {
        Ok(version) => version,
        Err(error) => {
            return Err(error);
        },
    };
    let constants = match read_constants(&mut reader) {
        Ok(constants) => constants,
        Err(error) => {
            return Err(error);
        },
    };
    let result = read_members(&mut reader, version, constants);
    proof {
        if result is Ok {
            lemma_read_class_is_resolved(buf@);
        }
    }
    result
}

/// Whether `text` is the name of a class in `pool`: the text of a UTF-8
/// entry that a class reference refers to.
pub open spec fn names_class(pool: Seq<Option<EntryView>>, text: Seq<char>) -> bool {
    exists|index: u16| #[trigger] class_name(pool, index) == Ok::<Seq<char>, ErrorView>(text)
}

/// Whether `text` is the text of a UTF-8 entry of `pool`.
pub open spec fn names_utf8(pool: Seq<Option<EntryView>>, text: Seq<char>) -> bool {
    exists|index: u16| #[trigger] utf8_entry(pool, index) == Ok::<Seq<char>, ErrorView>(text)
}

/// Whether the names of all of `attributes` are texts of `pool`.
pub open spec fn attributes_resolved(
    pool: Seq<Option<EntryView>>,
    attributes: Seq<AttributeView>,
) -> bool {
    forall|i: int| 0 <= i < attributes.len() ==> names_utf8(pool, #[trigger] attributes[i].name)
}

/// Whether every text of `field` is a text of `pool`: its name, its type,
/// its constant where that is a string, and the names of its attributes.
pub open spec fn field_resolved(pool: Seq<Option<EntryView>>, field: FieldView) -> bool {
    &&& names_utf8(pool, field.name)
    &&& names_utf8(pool, field.type_descriptor)
    &&& field.constant_value matches Some(ConstantValueView::String(text)) ==> names_utf8(
        pool,
        text,
    )
    &&& attributes_resolved(pool, field.attributes)
}

/// Whether every text of `method` is a text of `pool`.
pub open spec fn method_resolved(pool: Seq<Option<EntryView>>, method: MethodView) -> bool {
    &&& names_utf8(pool, method.name)
    &&& names_utf8(pool, method.type_descriptor)
    &&& attributes_resolved(pool, method.attributes)
}

/// Whether every text of `class` comes from its own constant pool: its
/// name and the names of its interfaces are names of classes there, its
/// superclass is one too or empty, and its fields and methods are resolved.
pub open spec fn class_resolved(class: ClassView) -> bool {
    &&& names_class(class.constants, class.name)
    &&& class.superclass.len() == 0 || names_class(class.constants, class.superclass)
    &&& forall|i: int|
        0 <= i < class.interfaces.len() ==> names_class(
            class.constants,
            #[trigger] class.interfaces[i],
        )
    &&& forall|i: int|
        0 <= i < class.fields.len() ==> field_resolved(class.constants, #[trigger] class.fields[i])
    &&& forall|i: int|
        0 <= i < class.methods.len() ==> method_resolved(
            class.constants,
            #[trigger] class.methods[i],
        )
}

/// What holds of every item that `item` can read holds of every item of a
/// list that was read with it.
proof fn lemma_repeat_all<V>(
    item: spec_fn(int) -> Read<V>,
    at: int,
    count: nat,
    holds: spec_fn(V) -> bool,
)
    requires
        repeat(item, at, count) is Ok,
        forall|p: int| (#[trigger] item(p)) is Ok ==> holds(item(p)->Ok_0.0),
    ensures
        forall|i: int|
            0 <= i < repeat(item, at, count)->Ok_0.0.len() ==> holds(
                #[trigger] repeat(item, at, count)->Ok_0.0[i],
            ),
    decreases count,
{
    if count > 0 {
        let next = item(at)->Ok_0.1;
        lemma_repeat_all(item, next, (count - 1) as nat, holds);
    }
}

/// The name of every attribute that was read is a text of the pool.
proof fn lemma_attributes_resolved(data: Seq<u8>, at: int, pool: Seq<Option<EntryView>>)
    requires
        attributes_at(data, at, pool) is Ok,
    ensures
        attributes_resolved(pool, attributes_at(data, at, pool)->Ok_0.0),
{
    let item = attribute_reader(data, pool);
    let holds = |a: AttributeView| names_utf8(pool, a.name);
    let (count, next) = u16_at(data, at)->Ok_0;
    assert forall|p: int| (#[trigger] item(p)) is Ok implies holds(item(p)->Ok_0.0) by {
        let index = u16_at(data, p)->Ok_0.0;
        assert(utf8_entry(pool, index) == Ok::<Seq<char>, ErrorView>(item(p)->Ok_0.0.name));
    }
    lemma_repeat_all(item, next, count as nat, holds);
}

/// Every text of a field that was read is a text of the pool.
proof fn lemma_field_resolved(data: Seq<u8>, at: int, pool: Seq<Option<EntryView>>)
    requires
        field_at(data, at, pool) is Ok,
    ensures
        field_resolved(pool, field_at(data, at, pool)->Ok_0.0),
{
    let field = field_at(data, at, pool)->Ok_0.0;
    let (_, a) = u16_at(data, at)->Ok_0;
    let name_index = u16_at(data, a)->Ok_0.0;
    let (_, b) = utf8_reference_at(data, a, pool)->Ok_0;
    let type_index = u16_at(data, b)->Ok_0.0;
    let (_, c) = utf8_reference_at(data, b, pool)->Ok_0;
    assert(utf8_entry(pool, name_index) == Ok::<Seq<char>, ErrorView>(field.name));
    assert(utf8_entry(pool, type_index) == Ok::<Seq<char>, ErrorView>(field.type_descriptor));
    lemma_attributes_resolved(data, c, pool);
    lemma_constant_resolved(field.attributes, field.type_descriptor, pool);
}

/// A string that a field starts with is a text of the pool.
proof fn lemma_constant_resolved(
    attributes: Seq<AttributeView>,
    descriptor: Seq<char>,
    pool: Seq<Option<EntryView>>,
)
    requires
        constant_of(attributes, descriptor, pool) is Ok,
    ensures
        constant_of(attributes, descriptor, pool)->Ok_0 matches Some(
            ConstantValueView::String(text),
        ) ==> names_utf8(pool, text),
    decreases attributes.len(),
{
    if attributes.len() > 0 {
        if attributes[0].name == "ConstantValue"@ {
            let entry = lookup(pool, big_endian(attributes[0].bytes) as u16)->Ok_0;
            if let EntryView::StringReference(index) = entry {
                if let Some(ConstantValueView::String(text)) = constant_of(
                    attributes,
                    descriptor,
                    pool,
                )->Ok_0 {
                    assert(utf8_entry(pool, index) == Ok::<Seq<char>, ErrorView>(text));
                }
            }
        } else {
            lemma_constant_resolved(attributes.drop_first(), descriptor, pool);
        }
    }
}

/// Every text of a method that was read is a text of the pool.
proof fn lemma_method_resolved(data: Seq<u8>, at: int, pool: Seq<Option<EntryView>>)
    requires
        method_at(data, at, pool) is Ok,
    ensures
        method_resolved(pool, method_at(data, at, pool)->Ok_0.0),
{
    let method = method_at(data, at, pool)->Ok_0.0;
    let (_, a) = u16_at(data, at)->Ok_0;
    let name_index = u16_at(data, a)->Ok_0.0;
    let (_, b) = utf8_reference_at(data, a, pool)->Ok_0;
    let type_index = u16_at(data, b)->Ok_0.0;
    let (_, c) = utf8_reference_at(data, b, pool)->Ok_0;
    assert(utf8_entry(pool, name_index) == Ok::<Seq<char>, ErrorView>(method.name));
    assert(utf8_entry(pool, type_index) == Ok::<Seq<char>, ErrorView>(method.type_descriptor));
    lemma_attributes_resolved(data, c, pool);
}

/// A class that was read holds no index that is left to resolve: each of
/// its texts is a text of its own constant pool, found where the bytes
/// pointed.
pub proof fn lemma_read_class_is_resolved(data: Seq<u8>)
    requires
        class_of(data) is Ok,
    ensures
        class_resolved(class_of(data)->Ok_0),
{
    let class = class_of(data)->Ok_0;
    let (_, a0) = magic_at(data, 0)->Ok_0;
    let (version, b0) = version_at(data, a0)->Ok_0;
    let (pool, at) = pool_at(data, b0)->Ok_0;
    assert(members_at(data, at, version, pool) is Ok);
    let (_, a) = u16_at(data, at)->Ok_0;
    let name_index = u16_at(data, a)->Ok_0.0;
    let (_, b) = class_reference_at(data, a, pool)->Ok_0;
    assert(class_name(pool, name_index) == Ok::<Seq<char>, ErrorView>(class.name));
    let super_index = u16_at(data, b)->Ok_0.0;
    let (_, c) = superclass_at(data, b, pool)->Ok_0;
    if super_index != 0 {
        assert(class_name(pool, super_index) == Ok::<Seq<char>, ErrorView>(class.superclass));
    }
    let (interface_count, c1) = u16_at(data, c)->Ok_0;
    let interface = interface_reader(data, pool);
    assert forall|p: int| (#[trigger] interface(p)) is Ok implies names_class(
        pool,
        interface(p)->Ok_0.0,
    ) by {
        let index = u16_at(data, p)->Ok_0.0;
        assert(class_name(pool, index) == Ok::<Seq<char>, ErrorView>(interface(p)->Ok_0.0));
    }
    lemma_repeat_all(
        interface,
        c1,
        interface_count as nat,
        |name: Seq<char>| names_class(pool, name),
    );
    let (_, d) = counted(data, c, interface)->Ok_0;
    let (field_count, d1) = u16_at(data, d)->Ok_0;
    let field = field_reader(data, pool);
    assert forall|p: int| (#[trigger] field(p)) is Ok implies field_resolved(
        pool,
        field(p)->Ok_0.0,
    ) by {
        lemma_field_resolved(data, p, pool);
    }
    lemma_repeat_all(field, d1, field_count as nat, |f: FieldView| field_resolved(pool, f));
    let (_, e) = counted(data, d, field)->Ok_0;
    let (method_count, e1) = u16_at(data, e)->Ok_0;
    let method = method_reader(data, pool);
    assert forall|p: int| (#[trigger] method(p)) is Ok implies method_resolved(
        pool,
        method(p)->Ok_0.0,
    ) by {
        lemma_method_resolved(data, p, pool);
    }
    lemma_repeat_all(method, e1, method_count as nat, |m: MethodView| method_resolved(pool, m));
}

/// The name of a class is the text that the pool gives for its index, and
/// so is the text of a UTF-8 entry.
pub proof fn lemma_names_are_texts(pool: Seq<Option<EntryView>>, index: u16)
    ensures
        utf8_entry(pool, index) matches Ok(text) ==> crate::c_pool::text_at(pool, index) == Ok::<
            Seq<char>,
            u16,
        >(text),
        class_name(pool, index) matches Ok(text) ==> crate::c_pool::text_at(pool, index) == Ok::<
            Seq<char>,
            u16,
        >(text),
{
    reveal_with_fuel(crate::c_pool::render, 3);
}

/// A constant pool that was read has one slot less than its count says.
pub proof fn lemma_pool_size(data: Seq<u8>, at: int)
    requires
        pool_at(data, at) is Ok,
    ensures
        pool_at(data, at)->Ok_0.0.len() == u16_at(data, at)->Ok_0.0 - 1,
{
    let (count, next) = u16_at(data, at)->Ok_0;
    lemma_constants_fill(data, next, (count - 1) as nat);
}

/// The constants that were read fill the slots they were read for.
proof fn lemma_constants_fill(data: Seq<u8>, at: int, slots: nat)
    requires
        constants_from(data, at, slots) is Ok,
    ensures
        constants_from(data, at, slots)->Ok_0.0.len() == slots,
    decreases slots,
{
    if slots > 0 {
        let (entry, next) = constant_at(data, at)->Ok_0;
        lemma_constants_fill(data, next, (slots - width(entry)) as nat);
    }
}

/// Bytes that end within the magic number are a truncated class.
pub proof fn lemma_short_bytes_are_truncated(data: Seq<u8>)
    requires
        data.len() < 4,
    ensures
        class_of(data) == Err::<ClassView, ErrorView>(truncated()),
{
}

/// A version that is not supported ends the reading with its error,
/// whatever stands behind it: the constant pool is not looked at.
pub proof fn lemma_version_comes_first(data: Seq<u8>, rest: Seq<u8>)
    requires
        data.len() >= 8,
        magic_at(data, 0) is Ok,
        version_at(data, 4) is Err,
    ensures
        class_of(data.take(8) + rest) == Err::<ClassView, ErrorView>(version_at(data, 4)->Err_0),
{
    let other = data.take(8) + rest;
    assert(other.subrange(0, 4) =~= data.subrange(0, 4));
    assert(other.subrange(4, 6) =~= data.subrange(4, 6));
    assert(other.subrange(6, 8) =~= data.subrange(6, 8));
}

/// Reading the same bytes twice gives two classes whose pools have the
/// same text, and the same annotated text, at every index.
pub proof fn lemma_same_bytes_same_texts(
    data: Seq<u8>,
    first: ClassFile,
    second: ClassFile,
    index: u16,
)
    requires
        class_of(data) == Ok::<ClassView, ErrorView>(first@),
        class_of(data) == Ok::<ClassView, ErrorView>(second@),
    ensures
        first@ == second@,
        crate::c_pool::text_at(first.constants@, index) == crate::c_pool::text_at(
            second.constants@,
            index,
        ),
        crate::c_pool::description_at(first.constants@, index) == crate::c_pool::description_at(
            second.constants@,
            index,
        ),
{
}

} // verus!
