//! The fields of a class.

use vstd::prelude::*;
use vstd::string::*;
use crate::attribute::{Attribute, AttributeView};
use crate::field_flags::{field_flag_names, FieldFlags};
use crate::flag_names::flags_text;
use crate::ieee::{double_string, double_text, single_string, single_text};
use crate::text::{signed_decimal, signed_decimal_text, views};

verus! {

/// The constant that a field starts with. `Float` and `Double` hold the
/// IEEE 754 bit pattern of their value.
#[derive(Debug, PartialEq)]
pub enum FieldConstantValue {
    Int(i32),
    Float(u32),
    Long(i64),
    Double(u64),
    String(String),
}

/// What a `FieldConstantValue` stands for in contracts.
pub enum ConstantValueView {
    Int(i32),
    Float(u32),
    Long(i64),
    Double(u64),
    String(Seq<char>),
}

impl View for FieldConstantValue {
    type V = ConstantValueView;

    open spec fn view(&self) -> ConstantValueView {
        match self {
            FieldConstantValue::Int(n) => ConstantValueView::Int(*n),
            FieldConstantValue::Float(bits) => ConstantValueView::Float(*bits),
            FieldConstantValue::Long(n) => ConstantValueView::Long(*n),
            FieldConstantValue::Double(bits) => ConstantValueView::Double(*bits),
            FieldConstantValue::String(s) => ConstantValueView::String(s@),
        }
    }
}

/// A field of a class, with its name and type resolved.
#[derive(Debug, PartialEq)]
pub struct ClassFileField {
    pub flags: FieldFlags,
    pub name: String,
    pub type_descriptor: String,
    pub constant_value: Option<FieldConstantValue>,
    pub attributes: Vec<Attribute>,
}

/// What a `ClassFileField` stands for in contracts.
pub struct FieldView {
    pub flags: u16,
    pub name: Seq<char>,
    pub type_descriptor: Seq<char>,
    pub constant_value: Option<ConstantValueView>,
    pub attributes: Seq<AttributeView>,
}

impl View for ClassFileField {
    type V = FieldView;

    open spec fn view(&self) -> FieldView {
        FieldView {
            flags: self.flags@,
            name: self.name@,
            type_descriptor: self.type_descriptor@,
            constant_value: match self.constant_value {
                Some(value) => Some(value@),
                None => None,
            },
            attributes: views(self.attributes@),
        }
    }
}

/// The name of the kind of a constant.
pub open spec fn constant_kind(value: ConstantValueView) -> Seq<char> {
    match value {
        ConstantValueView::Int(_) => "Int"@,
        ConstantValueView::Float(_) => "Float"@,
        ConstantValueView::Long(_) => "Long"@,
        ConstantValueView::Double(_) => "Double"@,
        ConstantValueView::String(_) => "String"@,
    }
}

/// A constant as text: a number in decimal, a bit pattern as the pool
/// writes it, a string between double quotes.
pub open spec fn constant_literal(value: ConstantValueView) -> Seq<char> {
    match value {
        ConstantValueView::Int(n) => signed_decimal(n as int),
        ConstantValueView::Float(bits) => single_text(bits),
        ConstantValueView::Long(n) => signed_decimal(n as int),
        ConstantValueView::Double(bits) => double_text(bits),
        ConstantValueView::String(s) => "\""@ + s + "\""@,
    }
}

/// The constant of a field as text: `None`, or `Some` with the kind and, in
/// brackets, the value.
pub open spec fn constant_text(value: Option<ConstantValueView>) -> Seq<char> {
    match value {
        None => "None"@,
        Some(value) => "Some("@ + constant_kind(value) + "("@ + constant_literal(value) + "))"@,
    }
}

/// A field as text: its flags, its name, a colon, its type, and its
/// constant.
pub open spec fn field_text(field: FieldView) -> Seq<char> {
    flags_text(field.flags, field_flag_names()) + " "@ + field.name + ": "@
        + field.type_descriptor + " constants ("@ + constant_text(field.constant_value) + ")"@
}

impl FieldConstantValue {
    /// The name of the kind of this constant.
    pub fn to_string(&self) -> (name: String)
        ensures
            name@ == constant_kind(self@),
    {
        match self {
            FieldConstantValue::Int(_) => String::from_str("Int"),
            FieldConstantValue::Float(_) => String::from_str("Float"),
            FieldConstantValue::Long(_) => String::from_str("Long"),
            FieldConstantValue::Double(_) => String::from_str("Double"),
            FieldConstantValue::String(_) => String::from_str("String"),
        }
    }

    /// The value of this constant as text.
    fn literal(&self) -> (text: String)
        ensures
            text@ == constant_literal(self@),
    {
        match self {
            FieldConstantValue::Int(n) => signed_decimal_text(*n as i64),
            FieldConstantValue::Float(bits) => single_string(*bits),
            FieldConstantValue::Long(n) => signed_decimal_text(*n),
            FieldConstantValue::Double(bits) => double_string(*bits),
            FieldConstantValue::String(s) => {
                let mut text = String::from_str("\"");
                text.append(s.as_str());
                text.append("\"");
                text
            },
        }
    }
}

impl ClassFileField {
    /// This field as text.
    pub fn to_string(&self) -> (text: String)
        ensures
            text@ == field_text(self@),
    {
        let mut text = self.flags.to_string();
        text.append(" ");
        text.append(self.name.as_str());
        text.append(": ");
        text.append(self.type_descriptor.as_str());
        text.append(" constants (");
        match &self.constant_value {
            None => {
                text.append("None");
            },
            Some(value) => {
                let mut constant = String::from_str("Some(");
                constant.append(value.to_string().as_str());
                constant.append("(");
                constant.append(value.literal().as_str());
                constant.append("))");
                text.append(constant.as_str());
            },
        }
        text.append(")");
        text
    }
}

} // verus!
