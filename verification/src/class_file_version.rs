//! The releases of the platform that a class can be compiled for.

use vstd::prelude::*;
use vstd::string::*;
use crate::class_reader_error::ClassReaderError;
use crate::class_reader_error::ErrorView;
use crate::class_reader_error::Result;

verus! {

/// The release that a class was compiled for.
#[derive(Debug, PartialEq, Eq, Structural, Clone, Copy)]
#[allow(dead_code)]
pub enum ClassFileVersion {
    Jdk1_1,
    Jdk1_2,
    Jdk1_3,
    Jdk1_4,
    Jdk1_5,
    Jdk6,
    Jdk7,
}

/// The release with the given major version, or the error that carries both
/// numbers where no known release has it. The minor version decides nothing.
pub open spec fn version_of(major: u16, minor: u16) -> std::result::Result<
    ClassFileVersion,
    ErrorView,
> {
    if major == 45 {
        Ok(ClassFileVersion::Jdk1_1)
    } else if major == 46 {
        Ok(ClassFileVersion::Jdk1_2)
    } else if major == 47 {
        Ok(ClassFileVersion::Jdk1_3)
    } else if major == 48 {
        Ok(ClassFileVersion::Jdk1_4)
    } else if major == 49 {
        Ok(ClassFileVersion::Jdk1_5)
    } else if major == 50 {
        Ok(ClassFileVersion::Jdk6)
    } else if major == 51 {
        Ok(ClassFileVersion::Jdk7)
    } else {
        Err(ErrorView::UnsupportedVersion(major, minor))
    }
}

/// The name of a release.
pub open spec fn version_name(version: ClassFileVersion) -> Seq<char> {
    match version {
        ClassFileVersion::Jdk1_1 => "Jdk1_1"@,
        ClassFileVersion::Jdk1_2 => "Jdk1_2"@,
        ClassFileVersion::Jdk1_3 => "Jdk1_3"@,
        ClassFileVersion::Jdk1_4 => "Jdk1_4"@,
        ClassFileVersion::Jdk1_5 => "Jdk1_5"@,
        ClassFileVersion::Jdk6 => "Jdk6"@,
        ClassFileVersion::Jdk7 => "Jdk7"@,
    }
}

impl Default for ClassFileVersion {
    fn default() -> (version: ClassFileVersion)
        ensures
            version == ClassFileVersion::Jdk7,
    {
        ClassFileVersion::Jdk7
    }
}

impl ClassFileVersion {
    /// Decodes the version numbers of a class.
    pub fn from(major: u16, minor: u16) -> (result: Result<ClassFileVersion>)
        ensures
            match result {
                Ok(version) => version_of(major, minor) == Ok::<ClassFileVersion, ErrorView>(
                    version,
                ),
                Err(error) => version_of(major, minor) == Err::<ClassFileVersion, ErrorView>(
                    error@,
                ),
            },
    {
        match major {
            45 => Ok(ClassFileVersion::Jdk1_1),
            46 => Ok(ClassFileVersion::Jdk1_2),
            47 => Ok(ClassFileVersion::Jdk1_3),
            48 => Ok(ClassFileVersion::Jdk1_4),
            49 => Ok(ClassFileVersion::Jdk1_5),
            50 => Ok(ClassFileVersion::Jdk6),
            51 => Ok(ClassFileVersion::Jdk7),
            _ => Err(ClassReaderError::UnsupportedVersion(major, minor)),
        }
    }

    /// The name of this release.
    pub fn to_string(&self) -> (name: String)
        ensures
            name@ == version_name(*self),
    {
        match self {
            ClassFileVersion::Jdk1_1 => String::from_str("Jdk1_1"),
            ClassFileVersion::Jdk1_2 => String::from_str("Jdk1_2"),
            ClassFileVersion::Jdk1_3 => String::from_str("Jdk1_3"),
            ClassFileVersion::Jdk1_4 => String::from_str("Jdk1_4"),
            ClassFileVersion::Jdk1_5 => String::from_str("Jdk1_5"),
            ClassFileVersion::Jdk6 => String::from_str("Jdk6"),
            ClassFileVersion::Jdk7 => String::from_str("Jdk7"),
        }
    }
}

} // verus!
