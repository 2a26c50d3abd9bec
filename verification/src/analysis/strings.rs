//! Strings extracted from a binary.

use vstd::prelude::*;

verus! {

/// How a string is encoded in the binary.
#[derive(Debug, Clone, Copy, PartialEq, Eq, Structural)]
pub enum StringEncoding {
    Ascii,
    Utf16Le,
}

/// A string found in the binary, at its virtual address.
#[derive(Debug, Clone)]
pub struct StringInfo {
    pub address: u64,
    pub value: String,
    pub encoding: StringEncoding,
    pub length: usize,
}

/// The encoding's name as the report prints it.
pub open spec fn encoding_name(e: StringEncoding) -> Seq<char> {
    match e {
        StringEncoding::Ascii => "Ascii"@,
        StringEncoding::Utf16Le => "Utf16Le"@,
    }
}

impl StringEncoding {
    /// The encoding's name.
    pub fn name(&self) -> (r: &'static str)
        ensures
            r@ == encoding_name(*self),
    {
        match self {
            StringEncoding::Ascii => "Ascii",
            StringEncoding::Utf16Le => "Utf16Le",
        }
    }
}

/// A runtime (packer, language runtime) recognized in the binary.
#[derive(Debug, Clone)]
pub struct RuntimeMatch {
    pub name: String,
    pub confidence: u8,
    pub evidence: Vec<String>,
    pub guidance: String,
}

} // verus!
