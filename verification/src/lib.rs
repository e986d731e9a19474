//! A decoder for Java class files: a bounds-checked big-endian cursor, the
//! constant pool with its 1-based indices and two-slot entries, and the
//! reader that assembles a class from its bytes.

pub mod attribute;
pub mod buffer;
pub mod c_pool;
pub mod class_access_flags;
pub mod class_file;
pub mod class_file_field;
pub mod class_file_method;
pub mod class_file_version;
pub mod class_reader;
pub mod class_reader_error;
pub mod digits;
pub mod field_flags;
pub mod flag_names;
pub mod ieee;
pub mod method_flags;
pub mod text;
