//! The methods of a class.

use vstd::prelude::*;
use vstd::string::*;
use crate::attribute::{Attribute, AttributeView};
use crate::text::views;
use crate::flag_names::flags_text;
use crate::method_flags::{method_flag_names, MethodFlags};

verus! {

/// A method of a class, with its name and type resolved. Its attributes,
/// the code among them, are kept as they stand in the class file.
#[derive(Debug, PartialEq)]
pub struct ClassFileMethod {
    pub flags: MethodFlags,
    pub name: String,
    pub type_descriptor: String,
    pub attributes: Vec<Attribute>,
}

/// What a `ClassFileMethod` stands for in contracts.
pub struct MethodView {
    pub flags: u16,
    pub name: Seq<char>,
    pub type_descriptor: Seq<char>,
    pub attributes: Seq<AttributeView>,
}

impl View for ClassFileMethod {
    type V = MethodView;

    open spec fn view(&self) -> MethodView {
        MethodView {
            flags: self.flags@,
            name: self.name@,
            type_descriptor: self.type_descriptor@,
            attributes: views(self.attributes@),
        }
    }
}

/// A method as text: its flags, its name, a colon and its type.
pub open spec fn method_text(method: MethodView) -> Seq<char> {
    flags_text(method.flags, method_flag_names()) + " "@ + method.name + ": "@
        + method.type_descriptor
}

impl ClassFileMethod {
    /// This method as text.
    pub fn to_string(&self) -> (text: String)
        ensures
            text@ == method_text(self@),
    {
        let mut text = self.flags.to_string();
        text.append(" ");
        text.append(self.name.as_str());
        text.append(": ");
        text.append(self.type_descriptor.as_str());
        text
    }
}

} // verus!
