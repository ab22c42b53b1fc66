//! The error type every fallible operation of the library returns.

use vstd::prelude::*;

verus! {

/// The category of a [`SourceError`], mirroring the `std::io::ErrorKind`
/// variants the browser reports.
#[derive(Clone, Copy, Debug, PartialEq, Eq, Structural)]
pub enum ErrorKind {
    InvalidInput,
    InvalidData,
    NotFound,
    Unsupported,
    Interrupted,
    Other,
}

/// An error from a node source or from parsing a command-line path: what
/// kind of failure it is, and the message shown to the user.
#[derive(Clone, Debug)]
pub struct SourceError {
    pub kind: ErrorKind,
    pub message: String,
}

impl SourceError {
    pub fn new(kind: ErrorKind, message: String) -> (e: SourceError)
        ensures
            e.kind == kind,
            e.message@ == message@,
    {
        SourceError { kind, message }
    }
}

/// What `format!("{:?}", s)` renders a string slice as: `s` in double
/// quotes, with quotes, backslashes and non-printable characters escaped.
pub uninterp spec fn spec_debug_str(s: Seq<char>) -> Seq<char>;

/// `format!("{:?}", s)`: the `Debug` rendering of a string slice.
#[verifier::external_body]
pub fn debug_str(s: &str) -> (r: String)
    ensures
        r@ == spec_debug_str(s@),
{
    format!("{:?}", s)
}

} // verus!
