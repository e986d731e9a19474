//! A class as it was read.

use vstd::prelude::*;
use vstd::string::*;
use crate::c_pool::{dump, resolved, ConstantPool, EntryView, InvalidConstantPoolIndexError};
use crate::class_access_flags::{class_flag_names, ClassAccessFlags};
use crate::class_file_field::{field_text, ClassFileField, FieldView};
use crate::class_file_method::{method_text, ClassFileMethod, MethodView};
use crate::class_file_version::{version_name, ClassFileVersion};
use crate::flag_names::flags_text;
use crate::text::{bulleted, bullets, join, joined, quote_all, quoted, views};

verus! {

/// The content of a class file. Every name in it is text; the constant pool
/// that the names came from is kept beside them.
#[derive(Debug)]
pub struct ClassFile {
    pub version: ClassFileVersion,
    pub constants: ConstantPool,
    pub flags: ClassAccessFlags,
    pub name: String,
    pub superclass: String,
    pub interfaces: Vec<String>,
    pub fields: Vec<ClassFileField>,
    pub methods: Vec<ClassFileMethod>,
}

/// What a `ClassFile` stands for in contracts.
pub struct ClassView {
    pub version: ClassFileVersion,
    pub constants: Seq<Option<EntryView>>,
    pub flags: u16,
    pub name: Seq<char>,
    pub superclass: Seq<char>,
    pub interfaces: Seq<Seq<char>>,
    pub fields: Seq<FieldView>,
    pub methods: Seq<MethodView>,
}

impl View for ClassFile {
    type V = ClassView;

    open spec fn view(&self) -> ClassView {
        ClassView {
            version: self.version,
            constants: self.constants@,
            flags: self.flags@,
            name: self.name@,
            superclass: self.superclass@,
            interfaces: views(self.interfaces@),
            fields: views(self.fields@),
            methods: views(self.methods@),
        }
    }
}

/// The first line of the dump of a class.
pub open spec fn class_heading(class: ClassView) -> Seq<char> {
    "Class "@ + class.name + " (extends "@ + class.superclass + "), version: "@ + version_name(
        class.version,
    ) + "\n"@
}

/// What the dump of a class says behind its constant pool: the flags, the
/// interfaces between double quotes, and a bulleted list each of the fields
/// and of the methods.
pub open spec fn class_members(class: ClassView) -> Seq<char> {
    "flags: "@ + flags_text(class.flags, class_flag_names()) + "\n"@ + "interfaces: ["@ + joined(
        quoted(class.interfaces),
        ", "@,
    ) + "]\n"@ + "fields:\n"@ + bulleted(class.fields.map_values(|f: FieldView| field_text(f)))
        + "methods:\n"@ + bulleted(class.methods.map_values(|m: MethodView| method_text(m)))
}

/// The dump of a class: its heading, the dump of its constant pool and its
/// members; or the index at which the dump of the pool fails.
pub open spec fn class_text(class: ClassView) -> Result<Seq<char>, u16> {
    match dump(class.constants) {
        Err(at) => Err(at),
        Ok(pool) => Ok(class_heading(class) + pool + class_members(class)),
    }
}

impl Default for ClassFile {
    /// A class without a name or a member.
    fn default() -> (class: ClassFile)
        ensures
            class@ == (ClassView {
                version: ClassFileVersion::Jdk7,
                constants: Seq::empty(),
                flags: 0,
                name: Seq::empty(),
                superclass: Seq::empty(),
                interfaces: Seq::empty(),
                fields: Seq::empty(),
                methods: Seq::empty(),
            }),
    {
        let class = ClassFile {
            version: ClassFileVersion::Jdk7,
            constants: ConstantPool::new(),
            flags: ClassAccessFlags::empty(),
            name: String::new(),
            superclass: String::new(),
            interfaces: Vec::new(),
            fields: Vec::new(),
            methods: Vec::new(),
        };
        assert(class@.interfaces =~= Seq::empty());
        assert(class@.fields =~= Seq::empty());
        assert(class@.methods =~= Seq::empty());
        class
    }
}

impl ClassFile {
    /// The texts of the fields, in order.
    fn field_lines(&self) -> (lines: Vec<String>)
        ensures
            views(lines@) == self@.fields.map_values(|f: FieldView| field_text(f)),
    {
        let mut lines: Vec<String> = Vec::new();
        let mut k: usize = 0;
        while k < self.fields.len()
            invariant
                k <= self.fields.len(),
                lines@.len() == k,
                forall|i: int| 0 <= i < k ==> (#[trigger] lines@[i])@ == field_text(self.fields@[i]@),
            decreases self.fields.len() - k,
        {
            lines.push(self.fields[k].to_string());
            k += 1;
        }
        assert(views(lines@) =~= self@.fields.map_values(|f: FieldView| field_text(f)));
        lines
    }

    /// The texts of the methods, in order.
    fn method_lines(&self) -> (lines: Vec<String>)
        ensures
            views(lines@) == self@.methods.map_values(|m: MethodView| method_text(m)),
    {
        let mut lines: Vec<String> = Vec::new();
        let mut k: usize = 0;
        while k < self.methods.len()
            invariant
                k <= self.methods.len(),
                lines@.len() == k,
                forall|i: int|
                    0 <= i < k ==> (#[trigger] lines@[i])@ == method_text(self.methods@[i]@),
            decreases self.methods.len() - k,
        {
            lines.push(self.methods[k].to_string());
            k += 1;
        }
        assert(views(lines@) =~= self@.methods.map_values(|m: MethodView| method_text(m)));
        lines
    }

    /// The dump of this class, for a reader to inspect.
    pub fn fmt(&self) -> (result: Result<String, InvalidConstantPoolIndexError>)
        ensures
            resolved(result) == class_text(self@),
    {
        let pool = match self.constants.fmt() {
            Ok(pool) => pool,
            Err(error) => {
                return Err(error);
            },
        };
        let mut heading = String::from_str("Class ");
        heading.append(self.name.as_str());
        heading.append(" (extends ");
        heading.append(self.superclass.as_str());
        heading.append("), version: ");
        heading.append(self.version.to_string().as_str());
        heading.append("\n");
        let mut members = String::from_str("flags: ");
        members.append(self.flags.to_string().as_str());
        members.append("\n");
        members.append("interfaces: [");
        members.append(join(&quote_all(&self.interfaces), ", ").as_str());
        members.append("]\n");
        members.append("fields:\n");
        members.append(bullets(&self.field_lines()).as_str());
        members.append("methods:\n");
        members.append(bullets(&self.method_lines()).as_str());
        let mut text = heading;
        text.append(pool.as_str());
        text.append(members.as_str());
        Ok(text)
    }
}

} // verus!
