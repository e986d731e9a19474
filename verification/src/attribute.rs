//! Attributes: named records with an opaque payload.

use vstd::prelude::*;

verus! {

/// An attribute of a class, a field or a method: its name and its payload
/// as it stands in the class file.
#[derive(Debug, PartialEq)]
pub struct Attribute {
    pub name: String,
    pub bytes: Vec<u8>,
}

/// What an `Attribute` stands for in contracts.
pub struct AttributeView {
    pub name: Seq<char>,
    pub bytes: Seq<u8>,
}

impl View for Attribute {
    type V = AttributeView;

    open spec fn view(&self) -> AttributeView {
        AttributeView { name: self.name@, bytes: self.bytes@ }
    }
}

} // verus!
