use fejvm::attribute::Attribute;
use fejvm::c_pool::ConstantPoolEntry;
use fejvm::class_access_flags::ClassAccessFlags;
use fejvm::class_file_field::{ClassFileField, FieldConstantValue};
use fejvm::class_file_method::ClassFileMethod;
use fejvm::class_file_version::ClassFileVersion;
use fejvm::class_reader::read_buffer;
use fejvm::class_reader_error::ClassReaderError;
use fejvm::field_flags::FieldFlags;
use fejvm::method_flags::MethodFlags;

fn utf8(text: &str) -> Vec<u8> {
    let mut out = vec![1u8];
    out.extend_from_slice(&(text.len() as u16).to_be_bytes());
    out.extend_from_slice(text.as_bytes());
    out
}

fn tagged_u16(tag: u8, index: u16) -> Vec<u8> {
    let mut out = vec![tag];
    out.extend_from_slice(&index.to_be_bytes());
    out
}

fn attribute(name_index: u16, payload: &[u8]) -> Vec<u8> {
    let mut out = Vec::new();
    out.extend_from_slice(&name_index.to_be_bytes());
    out.extend_from_slice(&(payload.len() as u32).to_be_bytes());
    out.extend_from_slice(payload);
    out
}

fn member(flags: u16, name: u16, descriptor: u16, attributes: &[Vec<u8>]) -> Vec<u8> {
    let mut out = Vec::new();
    out.extend_from_slice(&flags.to_be_bytes());
    out.extend_from_slice(&name.to_be_bytes());
    out.extend_from_slice(&descriptor.to_be_bytes());
    out.extend_from_slice(&(attributes.len() as u16).to_be_bytes());
    for a in attributes {
        out.extend_from_slice(a);
    }
    out
}

struct Layout {
    minor: u16,
    major: u16,
    pool_count: u16,
    constants: Vec<Vec<u8>>,
    flags: u16,
    this_class: u16,
    super_class: u16,
    interfaces: Vec<u16>,
    fields: Vec<Vec<u8>>,
    methods: Vec<Vec<u8>>,
    attributes: Vec<Vec<u8>>,
}

fn assemble(layout: &Layout) -> Vec<u8> {
    let mut out = vec![0xCA, 0xFE, 0xBA, 0xBE];
    out.extend_from_slice(&layout.minor.to_be_bytes());
    out.extend_from_slice(&layout.major.to_be_bytes());
    out.extend_from_slice(&layout.pool_count.to_be_bytes());
    for c in &layout.constants {
        out.extend_from_slice(c);
    }
    out.extend_from_slice(&layout.flags.to_be_bytes());
    out.extend_from_slice(&layout.this_class.to_be_bytes());
    out.extend_from_slice(&layout.super_class.to_be_bytes());
    out.extend_from_slice(&(layout.interfaces.len() as u16).to_be_bytes());
    for i in &layout.interfaces {
        out.extend_from_slice(&i.to_be_bytes());
    }
    out.extend_from_slice(&(layout.fields.len() as u16).to_be_bytes());
    for f in &layout.fields {
        out.extend_from_slice(f);
    }
    out.extend_from_slice(&(layout.methods.len() as u16).to_be_bytes());
    for m in &layout.methods {
        out.extend_from_slice(m);
    }
    out.extend_from_slice(&(layout.attributes.len() as u16).to_be_bytes());
    for a in &layout.attributes {
        out.extend_from_slice(a);
    }
    out
}

/// A public class `pkg/Hi` that extends `java/lang/Object` and has nothing
/// else.
fn minimal() -> Layout {
    Layout {
        minor: 0,
        major: 51,
        pool_count: 5,
        constants: vec![
            tagged_u16(7, 2),
            utf8("pkg/Hi"),
            tagged_u16(7, 4),
            utf8("java/lang/Object"),
        ],
        flags: 0x0021,
        this_class: 1,
        super_class: 3,
        interfaces: vec![],
        fields: vec![],
        methods: vec![],
        attributes: vec![],
    }
}

/// The class `Fejvm/hi`: a complex number with two private final double
/// fields, two interfaces, a constructor and a source file attribute. Every
/// entry of its pool resolves, and one of them is a double.
fn complex() -> Layout {
    Layout {
        minor: 0,
        major: 50,
        pool_count: 21,
        constants: vec![
            tagged_u16(7, 2),                  // 1
            utf8("Fejvm/hi"),                  // 2
            tagged_u16(7, 4),                  // 3
            utf8("java/lang/Object"),          // 4
            tagged_u16(7, 6),                  // 5
            utf8("java/lang/Cloneable"),       // 6
            tagged_u16(7, 8),                  // 7
            utf8("java/io/Serializable"),      // 8
            utf8("real"),                      // 9
            utf8("D"),                         // 10
            utf8("imag"),                      // 11
            utf8("<init>"),                    // 12
            utf8("(DD)V"),                     // 13
            utf8("Code"),                      // 14
            utf8("SourceFile"),                // 15
            utf8("hi.java"),                   // 16
            vec![10, 0, 3, 0, 18],             // 17
            vec![12, 0, 12, 0, 13],            // 18
            vec![6, 0x40, 0x0C, 0x7A, 0xE1, 0x47, 0xAE, 0x14, 0x7B], // 19 and 20
        ],
        flags: 0x0021,
        this_class: 1,
        super_class: 3,
        interfaces: vec![5, 7],
        fields: vec![member(0x0012, 9, 10, &[]), member(0x0012, 11, 10, &[])],
        methods: vec![member(0x0001, 12, 13, &[attribute(14, &[0x2A, 0xB1])])],
        attributes: vec![attribute(15, &[0, 16])],
    }
}

fn invalid(message: &str) -> ClassReaderError {
    ClassReaderError::InvalidClassData(message.to_string())
}

#[test]
fn can_read_class_file() {
    let class = read_buffer(&assemble(&complex())).unwrap();
    println!("Read class file: {}", class.fmt().unwrap());
    assert_eq!(ClassFileVersion::Jdk6, class.version);
    assert_eq!(
        ClassAccessFlags::PUBLIC | ClassAccessFlags::SUPER,
        class.flags.bits()
    );
    assert_eq!("Fejvm/hi", class.name);
    assert_eq!("java/lang/Object", class.superclass);
    assert_eq!(
        vec!("java/lang/Cloneable", "java/io/Serializable"),
        class.interfaces
    );
    assert_eq!(
        vec!(
            ClassFileField {
                flags: FieldFlags::from_bits_retain(FieldFlags::PRIVATE | FieldFlags::FINAL),
                name: "real".to_string(),
                type_descriptor: "D".to_string(),
                constant_value: None,
                attributes: vec![],
            },
            ClassFileField {
                flags: FieldFlags::from_bits_retain(FieldFlags::PRIVATE | FieldFlags::FINAL),
                name: "imag".to_string(),
                type_descriptor: "D".to_string(),
                constant_value: None,
                attributes: vec![],
            }
        ),
        class.fields
    );
}

#[test]
fn methods_keep_their_attributes_as_bytes() {
    let class = read_buffer(&assemble(&complex())).unwrap();
    assert_eq!(
        vec![ClassFileMethod {
            flags: MethodFlags::from_bits_retain(MethodFlags::PUBLIC),
            name: "<init>".to_string(),
            type_descriptor: "(DD)V".to_string(),
            attributes: vec![Attribute {
                name: "Code".to_string(),
                bytes: vec![0x2A, 0xB1],
            }],
        }],
        class.methods
    );
}

#[test]
fn reads_a_minimal_class() {
    let class = read_buffer(&assemble(&minimal())).unwrap();
    assert_eq!("pkg/Hi", class.name);
    assert_eq!("java/lang/Object", class.superclass);
    assert!(class.interfaces.is_empty());
    assert!(class.fields.is_empty());
    assert!(class.methods.is_empty());
    assert_eq!(ClassFileVersion::from(51, 0).unwrap(), class.version);
    assert_eq!(ClassFileVersion::Jdk7, class.version);
    assert_eq!(0x0021, class.flags.bits());
    assert_eq!(4, class.constants.size());
}

#[test]
fn three_bytes_are_a_truncated_class() {
    let bytes = assemble(&minimal());
    assert_eq!(
        Err(invalid("class does not have expected length")),
        read_buffer(&bytes[..3]).map(|class| class.name)
    );
}

#[test]
fn every_proper_prefix_of_a_class_is_rejected() {
    let bytes = assemble(&complex());
    for end in 0..bytes.len() {
        assert!(read_buffer(&bytes[..end]).is_err(), "prefix of {} bytes", end);
    }
    assert!(read_buffer(&bytes).is_ok());
}

#[test]
fn bytes_behind_the_class_are_not_looked_at() {
    let mut bytes = assemble(&minimal());
    bytes.extend_from_slice(&[1, 2, 3]);
    assert_eq!("pkg/Hi", read_buffer(&bytes).unwrap().name);
}

#[test]
fn an_unknown_major_version_is_unsupported() {
    let mut layout = minimal();
    layout.major = 9999;
    layout.minor = 3;
    assert_eq!(
        Err(ClassReaderError::UnsupportedVersion(9999, 3)),
        read_buffer(&assemble(&layout)).map(|class| class.name)
    );
}

#[test]
fn the_version_is_checked_before_the_constant_pool() {
    let mut bytes = vec![0xCA, 0xFE, 0xBA, 0xBE, 0, 0, 0x27, 0x0F];
    bytes.extend_from_slice(&[0, 2, 99, 99, 99]);
    assert_eq!(
        Err(ClassReaderError::UnsupportedVersion(9999, 0)),
        read_buffer(&bytes).map(|class| class.name)
    );
}

#[test]
fn a_wrong_magic_number_is_rejected() {
    let mut bytes = assemble(&minimal());
    bytes[3] = 0xBF;
    assert_eq!(
        Err(invalid("invalid magic number")),
        read_buffer(&bytes).map(|class| class.name)
    );
}

#[test]
fn a_constant_pool_count_of_zero_is_rejected() {
    let mut layout = minimal();
    layout.pool_count = 0;
    layout.constants = vec![];
    assert_eq!(
        Err(invalid("constant pool count is zero")),
        read_buffer(&assemble(&layout)).map(|class| class.name)
    );
}

#[test]
fn an_unknown_constant_tag_is_rejected() {
    let mut layout = minimal();
    layout.constants[0] = vec![15, 1, 0];
    assert_eq!(
        Err(invalid("unknown constant type: 15")),
        read_buffer(&assemble(&layout)).map(|class| class.name)
    );
}

#[test]
fn wide_constants_take_two_slots() {
    let mut layout = minimal();
    layout.pool_count = 9;
    layout.constants.push(vec![5, 0, 0, 0, 0, 0, 0, 0, 123]);
    layout.constants.push(vec![6, 0x40, 0x0C, 0x7A, 0xE1, 0x47, 0xAE, 0x14, 0x7B]);
    let class = read_buffer(&assemble(&layout)).unwrap();
    assert_eq!(8, class.constants.size());
    assert_eq!(&ConstantPoolEntry::Long(123), class.constants.get(5).unwrap());
    assert!(class.constants.get(6).is_err());
    assert_eq!(
        &ConstantPoolEntry::Double(3.56f64.to_bits()),
        class.constants.get(7).unwrap()
    );
    assert!(class.constants.get(8).is_err());
}

#[test]
fn a_wide_constant_in_the_last_slot_is_rejected() {
    let mut layout = minimal();
    layout.pool_count = 6;
    layout.constants.push(vec![5, 0, 0, 0, 0, 0, 0, 0, 123]);
    assert_eq!(
        Err(invalid("constant pool ends inside a wide constant")),
        read_buffer(&assemble(&layout)).map(|class| class.name)
    );
}

#[test]
fn every_kind_of_constant_is_read() {
    let mut layout = minimal();
    layout.pool_count = 5 + 9;
    layout.constants.push(vec![3, 0xFF, 0xFF, 0xFF, 0xFE]); // 5
    layout.constants.push(vec![4, 0x40, 0x06, 0x66, 0x66]); // 6
    layout.constants.push(vec![5, 0x80, 0, 0, 0, 0, 0, 0, 0]); // 7, 8
    layout.constants.push(tagged_u16(8, 2)); // 9
    layout.constants.push(vec![9, 0, 1, 0, 13]); // 10
    layout.constants.push(vec![10, 0, 1, 0, 13]); // 11
    layout.constants.push(vec![11, 0, 1, 0, 13]); // 12
    layout.constants.push(vec![12, 0, 2, 0, 4]); // 13
    let class = read_buffer(&assemble(&layout)).unwrap();
    let pool = &class.constants;
    assert_eq!(&ConstantPoolEntry::ClassReference(2), pool.get(1).unwrap());
    assert_eq!(
        &ConstantPoolEntry::String("pkg/Hi".to_string()),
        pool.get(2).unwrap()
    );
    assert_eq!(&ConstantPoolEntry::Integer(-2), pool.get(5).unwrap());
    assert_eq!(
        &ConstantPoolEntry::Float(2.1f32.to_bits()),
        pool.get(6).unwrap()
    );
    assert_eq!(&ConstantPoolEntry::Long(i64::MIN), pool.get(7).unwrap());
    assert_eq!(&ConstantPoolEntry::StringReference(2), pool.get(9).unwrap());
    assert_eq!(&ConstantPoolEntry::FieldReference(1, 13), pool.get(10).unwrap());
    assert_eq!(&ConstantPoolEntry::MethodReference(1, 13), pool.get(11).unwrap());
    assert_eq!(
        &ConstantPoolEntry::InterfaceMethodReference(1, 13),
        pool.get(12).unwrap()
    );
    assert_eq!(
        &ConstantPoolEntry::NameAndTypeDescriptor(2, 4),
        pool.get(13).unwrap()
    );
    assert_eq!("pkg/Hi.pkg/Hi: java/lang/Object", pool.text_of(10).unwrap());
}

#[test]
fn modified_utf8_is_decoded() {
    let mut layout = minimal();
    // "A", the null character in two bytes, and U+10401 as a surrogate pair.
    layout.constants[1] = vec![
        1, 0, 9, 0x41, 0xC0, 0x80, 0xED, 0xA0, 0x81, 0xED, 0xB0, 0x81,
    ];
    let class = read_buffer(&assemble(&layout)).unwrap();
    assert_eq!("A\0\u{10401}", class.name);
}

#[test]
fn invalid_modified_utf8_is_rejected() {
    let mut layout = minimal();
    layout.constants[1] = vec![1, 0, 2, 0xC0, 0x41];
    assert_eq!(
        Err(invalid("invalid utf8 data")),
        read_buffer(&assemble(&layout)).map(|class| class.name)
    );
}

#[test]
fn the_class_index_must_lead_to_a_class_reference() {
    let mut layout = minimal();
    layout.this_class = 2;
    assert_eq!(
        Err(invalid("invalid constant pool index: 2")),
        read_buffer(&assemble(&layout)).map(|class| class.name)
    );
    let mut layout = minimal();
    layout.this_class = 0;
    assert_eq!(
        Err(invalid("invalid constant pool index: 0")),
        read_buffer(&assemble(&layout)).map(|class| class.name)
    );
    let mut layout = minimal();
    layout.this_class = 5;
    assert_eq!(
        Err(invalid("invalid constant pool index: 5")),
        read_buffer(&assemble(&layout)).map(|class| class.name)
    );
}

#[test]
fn a_class_reference_must_lead_to_text() {
    let mut layout = minimal();
    layout.constants[0] = tagged_u16(7, 3);
    assert_eq!(
        Err(invalid("invalid constant pool index: 3")),
        read_buffer(&assemble(&layout)).map(|class| class.name)
    );
}

#[test]
fn a_superclass_index_of_zero_gives_an_empty_name() {
    let mut layout = minimal();
    layout.super_class = 0;
    let class = read_buffer(&assemble(&layout)).unwrap();
    assert_eq!("", class.superclass);
}

#[test]
fn the_order_of_the_interfaces_is_kept() {
    let mut layout = complex();
    layout.interfaces = vec![7, 5, 7];
    let class = read_buffer(&assemble(&layout)).unwrap();
    assert_eq!(
        vec!["java/io/Serializable", "java/lang/Cloneable", "java/io/Serializable"],
        class.interfaces
    );
}

#[test]
fn an_interface_index_must_lead_to_a_class() {
    let mut layout = complex();
    layout.interfaces = vec![5, 9];
    assert_eq!(
        Err(invalid("invalid constant pool index: 9")),
        read_buffer(&assemble(&layout)).map(|class| class.name)
    );
}

/// A class with one field of the given type whose `ConstantValue`
/// attribute has the given payload; the constant under test is entry 8.
fn with_constant(descriptor: &str, constant: Vec<u8>, payload: &[u8]) -> Layout {
    let mut layout = minimal();
    let wide = constant[0] == 5 || constant[0] == 6;
    layout.constants.push(utf8("X")); // 5
    layout.constants.push(utf8(descriptor)); // 6
    layout.constants.push(utf8("ConstantValue")); // 7
    layout.constants.push(constant); // 8
    layout.pool_count = if wide { 10 } else { 9 };
    layout.fields = vec![member(0x0019, 5, 6, &[attribute(7, payload)])];
    layout
}

fn constant_of(layout: &Layout) -> Result<Option<FieldConstantValue>, ClassReaderError> {
    read_buffer(&assemble(layout)).map(|mut class| class.fields.remove(0).constant_value)
}

#[test]
fn a_field_gets_its_constant() {
    let int = vec![3, 0, 0, 0, 42];
    for descriptor in ["I", "S", "C", "B", "Z"] {
        assert_eq!(
            Ok(Some(FieldConstantValue::Int(42))),
            constant_of(&with_constant(descriptor, int.clone(), &[0, 8]))
        );
    }
    assert_eq!(
        Ok(Some(FieldConstantValue::Float(2.1f32.to_bits()))),
        constant_of(&with_constant("F", vec![4, 0x40, 0x06, 0x66, 0x66], &[0, 8]))
    );
    assert_eq!(
        Ok(Some(FieldConstantValue::Long(-1))),
        constant_of(&with_constant("J", vec![5, 255, 255, 255, 255, 255, 255, 255, 255], &[0, 8]))
    );
    assert_eq!(
        Ok(Some(FieldConstantValue::Double(3.56f64.to_bits()))),
        constant_of(&with_constant(
            "D",
            vec![6, 0x40, 0x0C, 0x7A, 0xE1, 0x47, 0xAE, 0x14, 0x7B],
            &[0, 8]
        ))
    );
    assert_eq!(
        Ok(Some(FieldConstantValue::String("pkg/Hi".to_string()))),
        constant_of(&with_constant("Ljava/lang/String;", tagged_u16(8, 2), &[0, 8]))
    );
}

#[test]
fn a_field_keeps_the_attribute_of_its_constant() {
    let layout = with_constant("I", vec![3, 0, 0, 0, 42], &[0, 8]);
    let class = read_buffer(&assemble(&layout)).unwrap();
    assert_eq!(
        vec![ClassFileField {
            flags: FieldFlags::from_bits_retain(
                FieldFlags::PUBLIC | FieldFlags::STATIC | FieldFlags::FINAL
            ),
            name: "X".to_string(),
            type_descriptor: "I".to_string(),
            constant_value: Some(FieldConstantValue::Int(42)),
            attributes: vec![Attribute {
                name: "ConstantValue".to_string(),
                bytes: vec![0, 8],
            }],
        }],
        class.fields
    );
}

#[test]
fn a_constant_of_another_kind_than_the_field_is_rejected() {
    let mismatch = Err(invalid("constant value does not match the type of the field"));
    assert_eq!(
        mismatch,
        constant_of(&with_constant("J", vec![3, 0, 0, 0, 42], &[0, 8]))
    );
    assert_eq!(
        mismatch,
        constant_of(&with_constant("I", vec![4, 0, 0, 0, 42], &[0, 8]))
    );
    assert_eq!(
        mismatch,
        constant_of(&with_constant("Ljava/lang/Object;", tagged_u16(8, 2), &[0, 8]))
    );
    assert_eq!(
        mismatch,
        constant_of(&with_constant("[I", vec![3, 0, 0, 0, 42], &[0, 8]))
    );
    assert_eq!(
        mismatch,
        constant_of(&with_constant("I", vec![3, 0, 0, 0, 42], &[0, 7]))
    );
}

#[test]
fn a_constant_value_attribute_must_be_two_bytes_long() {
    let length = Err(invalid("constant value attribute is not two bytes long"));
    assert_eq!(
        length,
        constant_of(&with_constant("I", vec![3, 0, 0, 0, 42], &[0, 8, 0]))
    );
    assert_eq!(
        length,
        constant_of(&with_constant("I", vec![3, 0, 0, 0, 42], &[8]))
    );
}

#[test]
fn a_constant_value_attribute_must_hold_a_valid_index() {
    assert_eq!(
        Err(invalid("invalid constant pool index: 0")),
        constant_of(&with_constant("I", vec![3, 0, 0, 0, 42], &[0, 0]))
    );
    assert_eq!(
        Err(invalid("invalid constant pool index: 9")),
        constant_of(&with_constant("I", vec![3, 0, 0, 0, 42], &[0, 9]))
    );
    // the tombstone behind a long
    assert_eq!(
        Err(invalid("invalid constant pool index: 9")),
        constant_of(&with_constant("J", vec![5, 0, 0, 0, 0, 0, 0, 0, 1], &[0, 9]))
    );
    // a string reference that does not lead to text
    assert_eq!(
        Err(invalid("invalid constant pool index: 1")),
        constant_of(&with_constant("Ljava/lang/String;", tagged_u16(8, 1), &[0, 8]))
    );
}

#[test]
fn the_first_constant_value_attribute_decides() {
    let mut layout = with_constant("I", vec![3, 0, 0, 0, 42], &[0, 8]);
    layout.fields = vec![member(
        0x0019,
        5,
        6,
        &[
            attribute(5, &[1, 2, 3]),
            attribute(7, &[0, 8]),
            attribute(7, &[0, 8, 9]),
        ],
    )];
    assert_eq!(Ok(Some(FieldConstantValue::Int(42))), constant_of(&layout));
}

#[test]
fn an_attribute_name_must_be_text() {
    let mut layout = complex();
    layout.attributes = vec![attribute(1, &[])];
    assert_eq!(
        Err(invalid("invalid constant pool index: 1")),
        read_buffer(&assemble(&layout)).map(|class| class.name)
    );
}

#[test]
fn an_attribute_shorter_than_its_length_is_truncated() {
    let mut bytes = assemble(&complex());
    let end = bytes.len();
    bytes[end - 3] = 3;
    assert_eq!(
        Err(invalid("class does not have expected length")),
        read_buffer(&bytes).map(|class| class.name)
    );
}

#[test]
fn unknown_flag_bits_are_kept() {
    let mut layout = minimal();
    layout.flags = 0x8021;
    let class = read_buffer(&assemble(&layout)).unwrap();
    assert_eq!(0x8021, class.flags.bits());
    assert!(class.flags.contains(ClassAccessFlags::PUBLIC | ClassAccessFlags::SUPER));
    assert!(!class.flags.contains(ClassAccessFlags::FINAL));
    assert_eq!("PUBLIC | SUPER | 0x8000", class.flags.to_string());
}

#[test]
fn every_name_of_a_class_is_a_text_of_its_pool() {
    let layout = complex();
    let class = read_buffer(&assemble(&layout)).unwrap();
    let pool = &class.constants;
    assert_eq!(class.name, pool.text_of(layout.this_class).unwrap());
    assert_eq!(class.superclass, pool.text_of(layout.super_class).unwrap());
    for (k, index) in layout.interfaces.iter().enumerate() {
        assert_eq!(class.interfaces[k], pool.text_of(*index).unwrap());
    }
    assert_eq!(class.fields[0].name, pool.text_of(9).unwrap());
    assert_eq!(class.fields[0].type_descriptor, pool.text_of(10).unwrap());
    assert_eq!(class.fields[1].name, pool.text_of(11).unwrap());
    assert_eq!(class.methods[0].name, pool.text_of(12).unwrap());
    assert_eq!(class.methods[0].type_descriptor, pool.text_of(13).unwrap());
    assert_eq!(class.methods[0].attributes[0].name, pool.text_of(14).unwrap());
}

#[test]
fn the_same_bytes_give_the_same_texts() {
    let bytes = assemble(&complex());
    let first = read_buffer(&bytes).unwrap();
    let second = read_buffer(&bytes).unwrap();
    for index in 0..=21u16 {
        assert_eq!(first.constants.text_of(index), second.constants.text_of(index));
        assert_eq!(
            first.constants.fmt_entry(index),
            second.constants.fmt_entry(index)
        );
    }
}

#[test]
fn a_class_is_dumped() {
    let class = read_buffer(&assemble(&minimal())).unwrap();
    let expected = "Class pkg/Hi (extends java/lang/Object), version: Jdk7\n\
                    Constant pool: (size: 4)\n\
                    \x20   1, ClassReference: 2 => (String: \"pkg/Hi\")\n\
                    \x20   2, String: \"pkg/Hi\"\n\
                    \x20   3, ClassReference: 4 => (String: \"java/lang/Object\")\n\
                    \x20   4, String: \"java/lang/Object\"\n\
                    flags: PUBLIC | SUPER\n\
                    interfaces: []\n\
                    fields:\n\
                    methods:\n";
    assert_eq!(expected, class.fmt().unwrap());
}

#[test]
fn the_dump_of_a_class_lists_its_members() {
    let mut layout = with_constant("I", vec![3, 0, 0, 0, 42], &[0, 8]);
    layout.interfaces = vec![3, 1];
    layout.methods = vec![member(0x0009, 5, 6, &[])];
    let text = read_buffer(&assemble(&layout)).unwrap().fmt().unwrap();
    let members = "flags: PUBLIC | SUPER\n\
                   interfaces: [\"java/lang/Object\", \"pkg/Hi\"]\n\
                   fields:\n\
                   \x20 - PUBLIC | STATIC | FINAL X: I constants (Some(Int(42)))\n\
                   methods:\n\
                   \x20 - PUBLIC | STATIC X: I\n";
    assert!(text.ends_with(members), "{}", text);
}

#[test]
fn the_dump_of_a_class_fails_where_the_dump_of_its_pool_fails() {
    let mut layout = complex();
    // entry 17 refers to itself
    layout.constants[16] = vec![10, 0, 3, 0, 17];
    let class = read_buffer(&assemble(&layout)).unwrap();
    assert_eq!(17, class.fmt().unwrap_err().index);
}

#[test]
fn the_dump_of_a_class_has_a_line_for_every_slot_of_its_pool() {
    let class = read_buffer(&assemble(&complex())).unwrap();
    let text = class.fmt().unwrap();
    assert!(text.starts_with(
        "Class Fejvm/hi (extends java/lang/Object), version: Jdk6\nConstant pool: (size: 20)\n"
    ));
    let lines: Vec<&str> = text.lines().collect();
    for index in 1..=20usize {
        assert!(
            lines[1 + index].starts_with(&format!("    {}, ", index)),
            "{}",
            lines[1 + index]
        );
    }
    assert_eq!(
        "    17, MethodReference: 3, 18 => (ClassReference: 4 => (String: \"java/lang/Object\")), \
         (NameAndTypeDescriptor: 12, 13 => (String: \"<init>\"), (String: \"(DD)V\"))",
        lines[18]
    );
    assert_eq!("    19, Double: 3.56", lines[20]);
    assert_eq!("    20, (tombstone)", lines[21]);
    assert_eq!("flags: PUBLIC | SUPER", lines[22]);
    assert_eq!(
        "interfaces: [\"java/lang/Cloneable\", \"java/io/Serializable\"]",
        lines[23]
    );
    assert_eq!("  - PRIVATE | FINAL real: D constants (None)", lines[25]);
    assert_eq!("  - PRIVATE | FINAL imag: D constants (None)", lines[26]);
    assert_eq!("  - PUBLIC <init>: (DD)V", lines[28]);
}

#[test]
fn a_plain_null_byte_in_a_constant_is_rejected() {
    let mut layout = minimal();
    layout.constants[1] = vec![1, 0, 3, 0x41, 0x00, 0x42];
    assert_eq!(
        Err(invalid("invalid utf8 data")),
        read_buffer(&assemble(&layout)).map(|class| class.name)
    );
}

#[test]
fn a_sequence_of_four_bytes_in_a_constant_is_rejected() {
    let mut layout = minimal();
    // U+10401 as standard UTF-8 writes it
    layout.constants[1] = vec![1, 0, 4, 0xF0, 0x90, 0x90, 0x81];
    assert_eq!(
        Err(invalid("invalid utf8 data")),
        read_buffer(&assemble(&layout)).map(|class| class.name)
    );
}
