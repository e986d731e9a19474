//! The one error type of the reader.

use vstd::prelude::*;
use vstd::string::*;
use crate::c_pool::InvalidConstantPoolIndexError;
use crate::text::{decimal, decimal_text, views};

verus! {

/// Why a class could not be read.
#[derive(Debug, PartialEq)]
pub enum ClassReaderError {
    /// The bytes could not be obtained; holds the message of the I/O error.
    IoError(String),
    /// The bytes are not a well-formed class; holds what is wrong.
    InvalidClassData(String),
    /// The class has a major version that is not known; holds the major and
    /// the minor version.
    UnsupportedVersion(u16, u16),
}

/// What the reader hands out: a value, or why there is none.
pub type Result<T> = std::result::Result<T, ClassReaderError>;

/// What a `ClassReaderError` stands for in contracts.
pub enum ErrorView {
    IoError(Seq<char>),
    InvalidClassData(Seq<char>),
    UnsupportedVersion(u16, u16),
}

impl View for ClassReaderError {
    type V = ErrorView;

    open spec fn view(&self) -> ErrorView {
        match self {
            ClassReaderError::IoError(message) => ErrorView::IoError(message@),
            ClassReaderError::InvalidClassData(message) => ErrorView::InvalidClassData(message@),
            ClassReaderError::UnsupportedVersion(major, minor) => ErrorView::UnsupportedVersion(
                *major,
                *minor,
            ),
        }
    }
}

/// The message of an invalid constant pool index.
pub open spec fn invalid_index_message(index: u16) -> Seq<char> {
    "invalid constant pool index: "@ + decimal(index as nat)
}

/// The error that an invalid constant pool index becomes in the reader.
pub open spec fn invalid_index(index: u16) -> ErrorView {
    ErrorView::InvalidClassData(invalid_index_message(index))
}

/// The error for bytes that end before the class does.
pub open spec fn truncated() -> ErrorView {
    ErrorView::InvalidClassData("class does not have expected length"@)
}

/// The message of an error, as it is shown to a user.
pub open spec fn error_message(error: ErrorView) -> Seq<char> {
    match error {
        ErrorView::IoError(message) => "generic I/O error: "@ + message,
        ErrorView::InvalidClassData(message) => "invalid class file: "@ + message,
        ErrorView::UnsupportedVersion(major, minor) => "unsupported class file version "@
            + decimal(major as nat) + "."@ + decimal(minor as nat),
    }
}

/// A result with its value as it is and its error as contracts speak of
/// it.
pub open spec fn plain<T>(result: Result<T>) -> std::result::Result<T, ErrorView> {
    match result {
        Ok(value) => Ok(value),
        Err(error) => Err(error@),
    }
}

/// A result as contracts speak of it.
pub open spec fn viewed<T: View>(result: Result<T>) -> std::result::Result<T::V, ErrorView> {
    match result {
        Ok(value) => Ok(value@),
        Err(error) => Err(error@),
    }
}

/// A result that holds a list as contracts speak of it.
pub open spec fn viewed_all<T: View>(result: Result<Vec<T>>) -> std::result::Result<
    Seq<T::V>,
    ErrorView,
> {
    match result {
        Ok(values) => Ok(views(values@)),
        Err(error) => Err(error@),
    }
}

impl InvalidConstantPoolIndexError {
    /// The message of this error.
    pub fn to_string(&self) -> (message: String)
        ensures
            message@ == invalid_index_message(self.index),
    {
        let mut message = String::from_str("invalid constant pool index: ");
        message.append(decimal_text(self.index as u64).as_str());
        message
    }
}

impl ClassReaderError {
    /// The error for malformed bytes, with `message` saying what is wrong.
    pub fn invalid(message: &str) -> (error: ClassReaderError)
        ensures
            error@ == ErrorView::InvalidClassData(message@),
    {
        ClassReaderError::InvalidClassData(String::from_str(message))
    }

    /// The message of this error.
    pub fn to_string(&self) -> (message: String)
        ensures
            message@ == error_message(self@),
    {
        match self {
            ClassReaderError::IoError(detail) => {
                let mut message = String::from_str("generic I/O error: ");
                message.append(detail.as_str());
                message
            },
            ClassReaderError::InvalidClassData(detail) => {
                let mut message = String::from_str("invalid class file: ");
                message.append(detail.as_str());
                message
            },
            ClassReaderError::UnsupportedVersion(major, minor) => {
                let mut message = String::from_str("unsupported class file version ");
                message.append(decimal_text(*major as u64).as_str());
                message.append(".");
                message.append(decimal_text(*minor as u64).as_str());
                message
            },
        }
    }
}

impl vstd::std_specs::convert::FromSpecImpl<InvalidConstantPoolIndexError> for ClassReaderError {
    open spec fn obeys_from_spec() -> bool {
        false
    }

    open spec fn from_spec(value: InvalidConstantPoolIndexError) -> ClassReaderError {
        choose|error: ClassReaderError| error@ == invalid_index(value.index)
    }
}

impl From<InvalidConstantPoolIndexError> for ClassReaderError {
    /// An invalid index is malformed class data, with the index in the
    /// message.
    fn from(value: InvalidConstantPoolIndexError) -> (error: ClassReaderError)
        ensures
            error@ == invalid_index(value.index),
    {
        ClassReaderError::InvalidClassData(value.to_string())
    }
}

} // verus!
