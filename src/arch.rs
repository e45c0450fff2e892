use vstd::prelude::*;

use crate::text::str_eq;

verus! {

/// The two machine architectures for which images are published.
#[allow(non_camel_case_types)]
#[derive(Debug, Clone, Copy, PartialEq, Eq, Structural)]
pub enum Architecture {
    x86_64,
    aarch64,
}

/// The textual name of an architecture, as the platform reports it.
pub open spec fn arch_name(a: Architecture) -> Seq<char> {
    match a {
        Architecture::x86_64 => "x86_64"@,
        Architecture::aarch64 => "aarch64"@,
    }
}

/// The architecture that a platform name denotes, if it is supported.
pub open spec fn arch_from_name(name: Seq<char>) -> Option<Architecture> {
    if name == "x86_64"@ {
        Some(Architecture::x86_64)
    } else if name == "aarch64"@ {
        Some(Architecture::aarch64)
    } else {
        None
    }
}

impl Architecture {
    /// The platform name of this architecture (`x86_64` or `aarch64`).
    pub fn to_string(&self) -> (r: String)
        ensures
            r@ == arch_name(*self),
    {
        match self {
            Architecture::x86_64 => String::from_str("x86_64"),
            Architecture::aarch64 => String::from_str("aarch64"),
        }
    }

    /// Recognises a platform architecture name; any other name is unsupported.
    pub fn from_name(name: &str) -> (r: Option<Architecture>)
        ensures
            r == arch_from_name(name@),
    {
        if str_eq(name, "x86_64") {
            Some(Architecture::x86_64)
        } else if str_eq(name, "aarch64") {
            Some(Architecture::aarch64)
        } else {
            None
        }
    }
}

} // verus!
