//! Error types for the decompiler

use crate::text::{chars_of, extend_chars, extend_slice, string_of};
use vstd::prelude::*;

verus! {

/// Result type alias for the decompiler
pub type Result<T> = std::result::Result<T, Error>;

/// Main error type for the decompiler
#[derive(Debug)]
pub enum Error {
    /// An input/output failure.
    Io(std::io::Error),
    BinaryParse(String),
    Disassembly(String),
    Analysis(String),
    CodeGeneration(String),
    UnsupportedFormat(String),
    UnsupportedArchitecture(String),
    InvalidInput(String),
}

/// The fixed prefix of an error's human-readable message.
pub open spec fn error_prefix(e: &Error) -> Seq<char> {
    match e {
        Error::Io(_) => "IO error: "@,
        Error::BinaryParse(_) => "Binary parsing error: "@,
        Error::Disassembly(_) => "Disassembly error: "@,
        Error::Analysis(_) => "Analysis error: "@,
        Error::CodeGeneration(_) => "Code generation error: "@,
        Error::UnsupportedFormat(_) => "Unsupported format: "@,
        Error::UnsupportedArchitecture(_) => "Unsupported architecture: "@,
        Error::InvalidInput(_) => "Invalid input: "@,
    }
}

/// The detail that follows the prefix, for the errors that carry it as text;
/// an I/O error's detail is that error's own message.
pub open spec fn error_detail(e: &Error) -> Option<Seq<char>> {
    match e {
        Error::Io(_) => None,
        Error::BinaryParse(s) => Some(s@),
        Error::Disassembly(s) => Some(s@),
        Error::Analysis(s) => Some(s@),
        Error::CodeGeneration(s) => Some(s@),
        Error::UnsupportedFormat(s) => Some(s@),
        Error::UnsupportedArchitecture(s) => Some(s@),
        Error::InvalidInput(s) => Some(s@),
    }
}

/// `std::io::Error`, carried opaque: the library reads only its message.
#[verifier::external_type_specification]
#[verifier::external_body]
pub struct ExIoError(std::io::Error);

/// The message of an I/O error, as its `Display` (`ToString::to_string`)
/// writes it; nothing is claimed of the text, which the operating system
/// may supply.
#[verifier::external_body]
fn io_error_text(e: &std::io::Error) -> (r: String) {
    e.to_string()
}

impl Error {
    /// The human-readable message of this error: its prefix, then its
    /// detail (for an I/O error, that error's own message).
    pub fn to_string(&self) -> (r: String)
        ensures
            error_prefix(self).len() <= r@.len(),
            r@.subrange(0, error_prefix(self).len() as int) == error_prefix(self),
            match error_detail(self) {
                Some(d) => r@ == error_prefix(self) + d,
                None => true,
            },
    {
        let mut out: Vec<char> = Vec::new();
        let detail: String = match self {
            Error::Io(e) => {
                extend_chars(&mut out, "IO error: ");
                io_error_text(e)
            },
            Error::BinaryParse(s) => {
                extend_chars(&mut out, "Binary parsing error: ");
                s.clone()
            },
            Error::Disassembly(s) => {
                extend_chars(&mut out, "Disassembly error: ");
                s.clone()
            },
            Error::Analysis(s) => {
                extend_chars(&mut out, "Analysis error: ");
                s.clone()
            },
            Error::CodeGeneration(s) => {
                extend_chars(&mut out, "Code generation error: ");
                s.clone()
            },
            Error::UnsupportedFormat(s) => {
                extend_chars(&mut out, "Unsupported format: ");
                s.clone()
            },
            Error::UnsupportedArchitecture(s) => {
                extend_chars(&mut out, "Unsupported architecture: ");
                s.clone()
            },
            Error::InvalidInput(s) => {
                extend_chars(&mut out, "Invalid input: ");
                s.clone()
            },
        };
        let ghost pre = out@;
        let d = chars_of(detail.as_str());
        extend_slice(&mut out, &d);
        proof {
            assert(out@.subrange(0, pre.len() as int) =~= pre);
        }
        string_of(&out)
    }
}

impl From<std::io::Error> for Error {
    /// An I/O error becomes `Error::Io`, carrying it.
    fn from(e: std::io::Error) -> (r: Error)
        ensures
            r == Error::Io(e),
    {
        Error::Io(e)
    }
}

impl vstd::std_specs::convert::FromSpecImpl<std::io::Error> for Error {
    open spec fn obeys_from_spec() -> bool {
        true
    }

    open spec fn from_spec(v: std::io::Error) -> Error {
        Error::Io(v)
    }
}

} // verus!
