use vstd::prelude::*;

verus! {

/// Word size of a Java runtime.
#[derive(Debug, Clone, Copy, PartialEq, Eq, Hash, Structural)]
pub enum Bitness {
    Unknown,
    Bit32,
    Bit64,
}

/// The label under which a bitness is shown.
pub open spec fn bitness_label(b: Bitness) -> Seq<char> {
    match b {
        Bitness::Unknown => "Unknown"@,
        Bitness::Bit32 => "32-bit"@,
        Bitness::Bit64 => "64-bit"@,
    }
}

impl Bitness {
    /// The label under which this bitness is shown.
    pub fn to_string(&self) -> (r: String)
        ensures
            r@ == bitness_label(*self),
    {
        match self {
            Bitness::Unknown => String::from_str("Unknown"),
            Bitness::Bit32 => String::from_str("32-bit"),
            Bitness::Bit64 => String::from_str("64-bit"),
        }
    }
}

/// One Java installation.
#[derive(Debug, PartialEq, Eq, Hash)]
pub struct JavaInfo {
    /// Installation root (`JAVA_HOME`).
    pub home_path: String,
    /// Major version, such as 8, 11, 17 or 21.
    pub major_version: u16,
    /// Whether the runtime is a 64-bit one.
    pub is_64bit: bool,
    /// Word size of the runtime.
    pub bitness: Bitness,
    /// Full version text, such as `1.8.0_391` or `17.0.9`.
    pub full_version: String,
}

impl Clone for JavaInfo {
    fn clone(&self) -> (r: Self)
        ensures
            r == *self,
    {
        JavaInfo {
            home_path: self.home_path.clone(),
            major_version: self.major_version,
            is_64bit: self.is_64bit,
            bitness: self.bitness,
            full_version: self.full_version.clone(),
        }
    }
}

impl JavaInfo {
    /// A description that a successful validation produces: a known major version,
    /// and a 64-bit flag that agrees with the bitness.
    pub open spec fn is_consistent(&self) -> bool {
        &&& self.major_version != 0
        &&& self.is_64bit == (self.bitness == Bitness::Bit64)
    }

    /// Whether this description is one that a successful validation produces.
    pub fn check_consistency(&self) -> (r: bool)
        ensures
            r == self.is_consistent(),
    {
        self.major_version != 0 && self.is_64bit == (self.bitness == Bitness::Bit64)
    }
}

/// Why a path could not be validated as a Java installation.
#[derive(Debug, PartialEq, Eq)]
pub enum JavaError {
    /// The path is empty once white space is trimmed.
    EmptyPath,
    /// The path names a file that is not a Java executable.
    NotJavaExecutable,
    /// No Java executable was found under the given directory.
    ExecutableNotFound(String),
    /// The command failed; its standard error.
    CommandFailed(String),
    /// No major version could be read from the `java -version` output.
    VersionUnreadable,
}

} // verus!
