//! The crate's error type.

use vstd::prelude::*;

use crate::text::{chars_of, concat_chars, string_of};

verus! {

/// The crate-wide error.
#[derive(Debug, Clone, PartialEq, Eq)]
pub enum Error {
    /// Plugin manifest parse / validation failure.
    Manifest(String),
    /// The manifest is missing a required field.
    MissingField { field: String },
    /// File / directory I/O failure, with the offending path.
    Io { path: String, detail: String },
    /// Network download failure.
    Network(String),
    /// Archive extraction failure.
    Archive(String),
    /// The current platform has no matching asset.
    UnsupportedPlatform { target: String },
    /// The current platform lacks the requested asset source.
    SourceNotFound { target: String, name: String },
    /// A capability that is not yet supported.
    Unsupported(String),
    /// A compensation step failed during a rollback.
    Rollback(String),
    /// A name is not usable as a directory segment.
    InvalidName { name: String, detail: String },
    /// An external process failed to start or exited unsuccessfully.
    Process(String),
    /// The operation was cancelled by the user.
    Cancelled,
    /// Any other error.
    Other(String),
}

/// The crate-wide result type.
pub type Result<T> = core::result::Result<T, Error>;

/// The rendered message of an error.
pub open spec fn message_text(e: Error) -> Seq<char> {
    match e {
        Error::Manifest(s) => "manifest: "@ + s@,
        Error::MissingField { field } => "manifest missing field: "@ + field@,
        Error::Io { path, detail } => "i/o at "@ + path@ + ": "@ + detail@,
        Error::Network(s) => "network: "@ + s@,
        Error::Archive(s) => "archive: "@ + s@,
        Error::UnsupportedPlatform { target } => "unsupported platform: "@ + target@,
        Error::SourceNotFound { target, name } => "no asset source "@ + name@ + " for platform "@
            + target@,
        Error::Unsupported(s) => "unsupported on this platform yet: "@ + s@,
        Error::Rollback(s) => "rollback failed: "@ + s@,
        Error::InvalidName { name, detail } => "invalid name "@ + name@ + ": "@ + detail@,
        Error::Process(s) => "process: "@ + s@,
        Error::Cancelled => "cancelled"@,
        Error::Other(s) => s@,
    }
}

fn cat(a: &str, b: &str) -> (r: Vec<char>)
    ensures
        r@ == a@ + b@,
{
    let x = chars_of(a);
    let y = chars_of(b);
    concat_chars(x.as_slice(), y.as_slice())
}

fn cat4(a: &str, b: &str, c: &str, d: &str) -> (r: Vec<char>)
    ensures
        r@ == a@ + b@ + c@ + d@,
{
    let x = cat(a, b);
    let y = cat(c, d);
    let r = concat_chars(x.as_slice(), y.as_slice());
    assert(r@ =~= a@ + b@ + c@ + d@);
    r
}

impl Error {
    /// The human-readable message of this error.
    pub fn message(&self) -> (r: String)
        ensures
            r@ == message_text(*self),
    {
        let cs = match self {
            Error::Manifest(s) => cat("manifest: ", s.as_str()),
            Error::MissingField { field } => cat("manifest missing field: ", field.as_str()),
            Error::Io { path, detail } => cat4("i/o at ", path.as_str(), ": ", detail.as_str()),
            Error::Network(s) => cat("network: ", s.as_str()),
            Error::Archive(s) => cat("archive: ", s.as_str()),
            Error::UnsupportedPlatform { target } => cat(
                "unsupported platform: ",
                target.as_str(),
            ),
            Error::SourceNotFound { target, name } => cat4(
                "no asset source ",
                name.as_str(),
                " for platform ",
                target.as_str(),
            ),
            Error::Unsupported(s) => cat("unsupported on this platform yet: ", s.as_str()),
            Error::Rollback(s) => cat("rollback failed: ", s.as_str()),
            Error::InvalidName { name, detail } => cat4(
                "invalid name ",
                name.as_str(),
                ": ",
                detail.as_str(),
            ),
            Error::Process(s) => cat("process: ", s.as_str()),
            Error::Cancelled => chars_of("cancelled"),
            Error::Other(s) => chars_of(s.as_str()),
        };
        string_of(cs.as_slice())
    }
}

/// Bind a failure detail to the path where it occurred.
pub fn io_err(path: String, detail: String) -> (r: Error)
    ensures
        r == (Error::Io { path, detail }),
{
    Error::Io { path, detail }
}

} // verus!
