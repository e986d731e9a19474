use fejvm::c_pool::{ConstantPool, ConstantPoolEntry, InvalidConstantPoolIndexError};

#[test]
fn constant_pool_works() {
    let mut cp = ConstantPool::new();

    cp.add(ConstantPoolEntry::String("hey".to_string()));
    cp.add(ConstantPoolEntry::Integer(1));
    cp.add(ConstantPoolEntry::Float(2.1f32.to_bits()));
    cp.add(ConstantPoolEntry::Long(123));
    cp.add(ConstantPoolEntry::Double(3.56f64.to_bits()));
    cp.add(ConstantPoolEntry::ClassReference(1));
    cp.add(ConstantPoolEntry::StringReference(1));
    cp.add(ConstantPoolEntry::String("joe".to_string()));
    cp.add(ConstantPoolEntry::FieldReference(1, 10));
    cp.add(ConstantPoolEntry::MethodReference(1, 10));
    cp.add(ConstantPoolEntry::InterfaceMethodReference(1, 10));
    cp.add(ConstantPoolEntry::NameAndTypeDescriptor(1, 10));

    assert_eq!(
        ConstantPoolEntry::String("hey".to_string()),
        *cp.get(1).unwrap()
    );
    assert_eq!(ConstantPoolEntry::Integer(1), *cp.get(2).unwrap());
    assert_eq!(
        ConstantPoolEntry::Float(2.1f32.to_bits()),
        *cp.get(3).unwrap()
    );
    assert_eq!(ConstantPoolEntry::Long(123i64), *cp.get(4).unwrap());
    assert_eq!(Err(InvalidConstantPoolIndexError::new(5)), cp.get(5));
    assert_eq!(
        ConstantPoolEntry::Double(3.56f64.to_bits()),
        *cp.get(6).unwrap()
    );
    assert_eq!(Err(InvalidConstantPoolIndexError::new(7)), cp.get(7));
    assert_eq!(ConstantPoolEntry::ClassReference(1), *cp.get(8).unwrap());
    assert_eq!(ConstantPoolEntry::StringReference(1), *cp.get(9).unwrap());
    assert_eq!(
        ConstantPoolEntry::String("joe".to_string()),
        *cp.get(10).unwrap()
    );
    assert_eq!(
        ConstantPoolEntry::FieldReference(1, 10),
        *cp.get(11).unwrap()
    );
    assert_eq!(
        ConstantPoolEntry::MethodReference(1, 10),
        *cp.get(12).unwrap()
    );
    assert_eq!(
        ConstantPoolEntry::InterfaceMethodReference(1, 10),
        *cp.get(13).unwrap()
    );
    assert_eq!(
        ConstantPoolEntry::NameAndTypeDescriptor(1, 10),
        *cp.get(14).unwrap()
    );

    assert_eq!("hey", cp.text_of(1).unwrap());
    assert_eq!("1", cp.text_of(2).unwrap());
    assert_eq!("2.1", cp.text_of(3).unwrap());
    assert_eq!("123", cp.text_of(4).unwrap());
    assert_eq!(Err(InvalidConstantPoolIndexError::new(5)), cp.text_of(5));
    assert_eq!("3.56", cp.text_of(6).unwrap());
    assert_eq!(Err(InvalidConstantPoolIndexError::new(7)), cp.text_of(7));
    assert_eq!("hey", cp.text_of(8).unwrap());
    assert_eq!("hey", cp.text_of(9).unwrap());
    assert_eq!("joe", cp.text_of(10).unwrap());
    assert_eq!("hey.joe", cp.text_of(11).unwrap());
    assert_eq!("hey.joe", cp.text_of(12).unwrap());
    assert_eq!("hey.joe", cp.text_of(13).unwrap());
    assert_eq!("hey: joe", cp.text_of(14).unwrap());
}

fn sample() -> ConstantPool {
    let mut cp = ConstantPool::new();
    cp.add(ConstantPoolEntry::String("hey".to_string())); // 1
    cp.add(ConstantPoolEntry::Integer(-7)); // 2
    cp.add(ConstantPoolEntry::ClassReference(1)); // 3
    cp.add(ConstantPoolEntry::StringReference(1)); // 4
    cp.add(ConstantPoolEntry::String("joe".to_string())); // 5
    cp.add(ConstantPoolEntry::NameAndTypeDescriptor(1, 5)); // 6
    cp.add(ConstantPoolEntry::FieldReference(3, 6)); // 7
    cp.add(ConstantPoolEntry::MethodReference(3, 6)); // 8
    cp.add(ConstantPoolEntry::InterfaceMethodReference(3, 6)); // 9
    cp
}

#[test]
fn an_empty_pool_has_no_valid_index() {
    let cp = ConstantPool::new();
    assert_eq!(0, cp.size());
    assert_eq!(Err(InvalidConstantPoolIndexError::new(0)), cp.get(0));
    assert_eq!(Err(InvalidConstantPoolIndexError::new(1)), cp.get(1));
    assert_eq!(Err(InvalidConstantPoolIndexError::new(65535)), cp.get(65535));
}

#[test]
fn indices_without_an_entry_fail_with_that_index() {
    let mut cp = ConstantPool::new();
    cp.add(ConstantPoolEntry::Long(1));
    cp.add(ConstantPoolEntry::Integer(2));
    cp.add(ConstantPoolEntry::Double(0));
    assert_eq!(5, cp.size());
    for index in [0u16, 2, 5, 6, 7, 1000, 65535] {
        assert_eq!(Err(InvalidConstantPoolIndexError::new(index)), cp.get(index));
        assert_eq!(Err(InvalidConstantPoolIndexError::new(index)), cp.text_of(index));
        assert_eq!(Err(InvalidConstantPoolIndexError::new(index)), cp.fmt_entry(index));
    }
    for index in [1u16, 3, 4] {
        assert!(cp.get(index).is_ok());
    }
}

#[test]
fn an_entry_gets_the_index_behind_the_slots_before_it() {
    let entries = vec![
        (ConstantPoolEntry::Integer(10), 1u16),
        (ConstantPoolEntry::Long(11), 2),
        (ConstantPoolEntry::Integer(12), 4),
        (ConstantPoolEntry::Double(13), 5),
        (ConstantPoolEntry::Double(14), 7),
        (ConstantPoolEntry::Float(15), 9),
        (ConstantPoolEntry::String("16".to_string()), 10),
    ];
    let mut cp = ConstantPool::new();
    let mut slots = 0;
    for (entry, index) in entries {
        let wide = matches!(entry, ConstantPoolEntry::Long(_) | ConstantPoolEntry::Double(_));
        let copy = match &entry {
            ConstantPoolEntry::Integer(n) => ConstantPoolEntry::Integer(*n),
            ConstantPoolEntry::Long(n) => ConstantPoolEntry::Long(*n),
            ConstantPoolEntry::Double(n) => ConstantPoolEntry::Double(*n),
            ConstantPoolEntry::Float(n) => ConstantPoolEntry::Float(*n),
            ConstantPoolEntry::String(s) => ConstantPoolEntry::String(s.clone()),
            _ => unreachable!(),
        };
        assert_eq!(1 + slots, index as usize);
        cp.add(entry);
        slots += if wide { 2 } else { 1 };
        assert_eq!(slots, cp.size());
        assert_eq!(&copy, cp.get(index).unwrap());
        if wide {
            assert_eq!(Err(InvalidConstantPoolIndexError::new(index + 1)), cp.get(index + 1));
        }
    }
}

#[test]
fn references_are_written_with_their_separator() {
    let cp = sample();
    assert_eq!("-7", cp.text_of(2).unwrap());
    assert_eq!("hey", cp.text_of(3).unwrap());
    assert_eq!("hey", cp.text_of(4).unwrap());
    assert_eq!("hey: joe", cp.text_of(6).unwrap());
    assert_eq!("hey.hey: joe", cp.text_of(7).unwrap());
    assert_eq!("hey.hey: joe", cp.text_of(8).unwrap());
    assert_eq!("hey.hey: joe", cp.text_of(9).unwrap());
    assert_eq!(
        format!("{}.{}", cp.text_of(3).unwrap(), cp.text_of(6).unwrap()),
        cp.text_of(7).unwrap()
    );
}

#[test]
fn entries_are_written_with_their_kind() {
    let cp = sample();
    assert_eq!("String: \"hey\"", cp.fmt_entry(1).unwrap());
    assert_eq!("Integer: -7", cp.fmt_entry(2).unwrap());
    assert_eq!(
        "ClassReference: 1 => (String: \"hey\")",
        cp.fmt_entry(3).unwrap()
    );
    assert_eq!(
        "StringReference: 1 => (String: \"hey\")",
        cp.fmt_entry(4).unwrap()
    );
    assert_eq!(
        "NameAndTypeDescriptor: 1, 5 => (String: \"hey\"), (String: \"joe\")",
        cp.fmt_entry(6).unwrap()
    );
    assert_eq!(
        "FieldReference: 3, 6 => (ClassReference: 1 => (String: \"hey\")), \
         (NameAndTypeDescriptor: 1, 5 => (String: \"hey\"), (String: \"joe\"))",
        cp.fmt_entry(7).unwrap()
    );
    assert!(cp.fmt_entry(8).unwrap().starts_with("MethodReference: 3, 6 => ("));
    assert!(cp
        .fmt_entry(9)
        .unwrap()
        .starts_with("InterfaceMethodReference: 3, 6 => ("));
    let mut wide = ConstantPool::new();
    wide.add(ConstantPoolEntry::Long(i64::MIN));
    assert_eq!("Long: -9223372036854775808", wide.fmt_entry(1).unwrap());
    assert_eq!("-9223372036854775808", wide.text_of(1).unwrap());
}

#[test]
fn a_reference_without_a_target_fails_with_the_target() {
    let mut cp = ConstantPool::new();
    cp.add(ConstantPoolEntry::ClassReference(9)); // 1
    cp.add(ConstantPoolEntry::Long(5)); // 2, 3
    cp.add(ConstantPoolEntry::FieldReference(2, 3)); // 4
    cp.add(ConstantPoolEntry::FieldReference(0, 3)); // 5
    assert_eq!(Err(InvalidConstantPoolIndexError::new(9)), cp.text_of(1));
    assert_eq!(Err(InvalidConstantPoolIndexError::new(3)), cp.text_of(4));
    assert_eq!(Err(InvalidConstantPoolIndexError::new(0)), cp.text_of(5));
    assert_eq!(Err(InvalidConstantPoolIndexError::new(9)), cp.fmt_entry(1));
}

#[test]
fn a_cycle_of_references_fails_where_it_closes() {
    let mut cp = ConstantPool::new();
    cp.add(ConstantPoolEntry::ClassReference(2)); // 1
    cp.add(ConstantPoolEntry::ClassReference(3)); // 2
    cp.add(ConstantPoolEntry::NameAndTypeDescriptor(4, 1)); // 3
    cp.add(ConstantPoolEntry::String("x".to_string())); // 4
    cp.add(ConstantPoolEntry::StringReference(5)); // 5
    cp.add(ConstantPoolEntry::FieldReference(4, 4)); // 6
    assert_eq!(Err(InvalidConstantPoolIndexError::new(1)), cp.text_of(1));
    assert_eq!(Err(InvalidConstantPoolIndexError::new(2)), cp.text_of(2));
    assert_eq!(Err(InvalidConstantPoolIndexError::new(3)), cp.text_of(3));
    assert_eq!(Err(InvalidConstantPoolIndexError::new(5)), cp.text_of(5));
    assert_eq!(Err(InvalidConstantPoolIndexError::new(5)), cp.fmt_entry(5));
    // the same entry twice is no cycle
    assert_eq!("x.x", cp.text_of(6).unwrap());
}

#[test]
fn a_long_chain_of_references_is_followed_to_its_end() {
    let mut cp = ConstantPool::new();
    cp.add(ConstantPoolEntry::String("end".to_string()));
    for index in 1..200u16 {
        cp.add(ConstantPoolEntry::ClassReference(index));
    }
    assert_eq!("end", cp.text_of(200).unwrap());
}

#[test]
fn a_pool_is_dumped_slot_by_slot() {
    let mut cp = ConstantPool::new();
    cp.add(ConstantPoolEntry::String("hey".to_string()));
    cp.add(ConstantPoolEntry::ClassReference(1));
    cp.add(ConstantPoolEntry::Integer(12));
    assert_eq!(
        "Constant pool: (size: 3)\n    1, String: \"hey\"\n    2, ClassReference: 1 => (String: \"hey\")\n    3, Integer: 12\n",
        cp.fmt().unwrap()
    );
    assert_eq!("Constant pool: (size: 0)\n", ConstantPool::new().fmt().unwrap());
}

#[test]
fn the_dump_has_a_line_for_a_tombstone() {
    let mut cp = ConstantPool::new();
    cp.add(ConstantPoolEntry::Long(123));
    cp.add(ConstantPoolEntry::Integer(1));
    assert_eq!(
        "Constant pool: (size: 3)\n    1, Long: 123\n    2, (tombstone)\n    3, Integer: 1\n",
        cp.fmt().unwrap()
    );
    let mut wide = ConstantPool::new();
    wide.add(ConstantPoolEntry::Double(3.56f64.to_bits()));
    wide.add(ConstantPoolEntry::Float(2.1f32.to_bits()));
    wide.add(ConstantPoolEntry::Long(-1));
    assert_eq!(
        "Constant pool: (size: 5)\n    1, Double: 3.56\n    2, (tombstone)\n    3, Float: 2.1\n\
         \x20   4, Long: -1\n    5, (tombstone)\n",
        wide.fmt().unwrap()
    );
}

#[test]
fn the_dump_of_the_sample_pool_of_twelve_entries_is_written() {
    let mut cp = ConstantPool::new();
    cp.add(ConstantPoolEntry::String("hey".to_string()));
    cp.add(ConstantPoolEntry::Integer(1));
    cp.add(ConstantPoolEntry::Float(2.1f32.to_bits()));
    cp.add(ConstantPoolEntry::Long(123));
    cp.add(ConstantPoolEntry::Double(3.56f64.to_bits()));
    cp.add(ConstantPoolEntry::ClassReference(1));
    let text = cp.fmt().unwrap();
    assert_eq!(
        vec![
            "Constant pool: (size: 8)",
            "    1, String: \"hey\"",
            "    2, Integer: 1",
            "    3, Float: 2.1",
            "    4, Long: 123",
            "    5, (tombstone)",
            "    6, Double: 3.56",
            "    7, (tombstone)",
            "    8, ClassReference: 1 => (String: \"hey\")",
        ],
        text.lines().collect::<Vec<&str>>()
    );
}

#[test]
fn the_dump_fails_at_the_first_entry_that_cannot_be_written() {
    let mut cp = ConstantPool::new();
    cp.add(ConstantPoolEntry::Integer(1));
    cp.add(ConstantPoolEntry::Long(2));
    cp.add(ConstantPoolEntry::ClassReference(77));
    cp.add(ConstantPoolEntry::ClassReference(88));
    assert_eq!(Err(InvalidConstantPoolIndexError::new(77)), cp.fmt());
    let mut dangling = ConstantPool::new();
    dangling.add(ConstantPoolEntry::Integer(1));
    dangling.add(ConstantPoolEntry::ClassReference(77));
    assert_eq!(Err(InvalidConstantPoolIndexError::new(77)), dangling.fmt());
    let mut cyclic = ConstantPool::new();
    cyclic.add(ConstantPoolEntry::Long(2));
    cyclic.add(ConstantPoolEntry::ClassReference(3));
    assert_eq!(Err(InvalidConstantPoolIndexError::new(3)), cyclic.fmt());
    let mut onto_tombstone = ConstantPool::new();
    onto_tombstone.add(ConstantPoolEntry::Long(2));
    onto_tombstone.add(ConstantPoolEntry::ClassReference(2));
    assert_eq!(Err(InvalidConstantPoolIndexError::new(2)), onto_tombstone.fmt());
}
