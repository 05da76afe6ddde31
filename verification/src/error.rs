use vstd::prelude::*;
use vstd::string::*;

verus! {

/// Errors reported while linking.
///
/// `Io` carries the message of a failed read or write; a read past the end of an
/// input buffer is reported as `Io` too.
#[derive(Debug)]
pub enum LinkerError {
    Io(String),
    InvalidFormat(String),
    UndefinedSymbol(String),
    DuplicateSymbol(String),
    EntryPointNotFound(String),
    InvalidAlignment(String),
    InvalidArgument(String),
}

pub type Result<T> = core::result::Result<T, LinkerError>;

/// The message of a read that ran past the end of its input.
pub fn unexpected_eof() -> (e: LinkerError)
    ensures
        e matches LinkerError::Io(s) && s@ == "failed to fill whole buffer"@,
{
    LinkerError::Io(String::from_str("failed to fill whole buffer"))
}

/// The human readable text of an error.
pub open spec fn error_text(e: LinkerError) -> Seq<char> {
    match e {
        LinkerError::Io(s) => "IO error: "@ + s@,
        LinkerError::InvalidFormat(s) => "Invalid format: "@ + s@,
        LinkerError::UndefinedSymbol(s) => "Undefined symbol: "@ + s@,
        LinkerError::DuplicateSymbol(s) => "Duplicate symbol: "@ + s@,
        LinkerError::EntryPointNotFound(s) => "Entry point not found: "@ + s@,
        LinkerError::InvalidAlignment(s) => "Invalid alignment: "@ + s@,
        LinkerError::InvalidArgument(s) => "Invalid argument: "@ + s@,
    }
}

impl LinkerError {
    /// Renders the error as text: a fixed prefix naming the kind, then the detail.
    pub fn message(&self) -> (r: String)
        ensures
            r@ == error_text(*self),
    {
        let (prefix, detail) = match self {
            LinkerError::Io(s) => ("IO error: ", s),
            LinkerError::InvalidFormat(s) => ("Invalid format: ", s),
            LinkerError::UndefinedSymbol(s) => ("Undefined symbol: ", s),
            LinkerError::DuplicateSymbol(s) => ("Duplicate symbol: ", s),
            LinkerError::EntryPointNotFound(s) => ("Entry point not found: ", s),
            LinkerError::InvalidAlignment(s) => ("Invalid alignment: ", s),
            LinkerError::InvalidArgument(s) => ("Invalid argument: ", s),
        };
        let mut r = String::from_str(prefix);
        r.append(detail.as_str());
        r
    }
}

} // verus!
