//! Error taxonomy shared by the FBX reader/writer family of operations.
//!
//! Every failure carries the byte offset at which it was detected (meaningful
//! for binary contexts, `0` elsewhere) together with a kind describing what
//! went wrong.

use vstd::prelude::*;

verus! {

/// `std::io::Error`, carried opaquely as the payload of [`ErrorKind::Io`].
#[verifier::external_type_specification]
#[verifier::external_body]
pub struct ExIoError(std::io::Error);

/// `std::string::FromUtf8Error`, carried opaquely as the payload of
/// [`ErrorKind::FromUtf8Error`].
#[verifier::external_type_specification]
#[verifier::external_body]
pub struct ExFromUtf8Error(std::string::FromUtf8Error);

/// What went wrong, independent of where.
#[derive(Debug)]
pub enum ErrorKind {
    /// Invalid UTF-8 in a context that requires text.
    FromUtf8Error(std::string::FromUtf8Error),
    /// The input did not match the expected format signature.
    InvalidMagic,
    /// The underlying sink or source failed.
    Io(std::io::Error),
    /// A caller-contract violation or malformed data, with a description.
    DataError(String),
    /// The input ended before a complete item could be read.
    UnexpectedEof,
    /// The requested FBX version lies outside the supported window.
    UnsupportedFbxVersion(u32),
    /// The operation is recognized but not supported by this backend.
    Unimplemented(String),
}

/// An error at a known byte offset.
#[derive(Debug)]
pub struct Error {
    pos: u64,
    kind: ErrorKind,
}

impl Error {
    /// The byte offset at which the error was detected.
    pub closed spec fn spec_pos(self) -> u64 {
        self.pos
    }

    /// The kind of the error.
    pub closed spec fn spec_kind(self) -> ErrorKind {
        self.kind
    }

    /// Constructs an error from an offset and a kind.
    pub fn new(pos: u64, kind: ErrorKind) -> (r: Self)
        ensures
            r.spec_pos() == pos,
            r.spec_kind() == kind,
    {
        Error { pos, kind }
    }

    /// The byte offset at which the error was detected.
    pub fn position(&self) -> (p: u64)
        ensures
            p == self.spec_pos(),
    {
        self.pos
    }

    /// The kind of the error.
    pub fn kind(&self) -> (k: &ErrorKind)
        ensures
            k == self.spec_kind(),
    {
        &self.kind
    }
}

impl From<std::io::Error> for ErrorKind {
    fn from(err: std::io::Error) -> (r: ErrorKind) {
        ErrorKind::Io(err)
    }
}

impl vstd::std_specs::convert::FromSpecImpl<std::io::Error> for ErrorKind {
    open spec fn obeys_from_spec() -> bool {
        true
    }

    open spec fn from_spec(err: std::io::Error) -> ErrorKind {
        ErrorKind::Io(err)
    }
}

impl From<std::string::FromUtf8Error> for ErrorKind {
    fn from(err: std::string::FromUtf8Error) -> (r: ErrorKind) {
        ErrorKind::FromUtf8Error(err)
    }
}

impl vstd::std_specs::convert::FromSpecImpl<std::string::FromUtf8Error> for ErrorKind {
    open spec fn obeys_from_spec() -> bool {
        true
    }

    open spec fn from_spec(err: std::string::FromUtf8Error) -> ErrorKind {
        ErrorKind::FromUtf8Error(err)
    }
}

} // verus!
