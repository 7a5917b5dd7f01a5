//! The opaque "already reported" failure signal.
//!
//! Errors are rendered where they are detected; what travels upward is only
//! the fact that something failed and was shown to the user. Callers branch
//! on success or failure and never rebuild the message.

use vstd::prelude::*;

verus! {

/// Marker carried by a `Result` whose error was already rendered at the
/// point of detection.
#[derive(Clone, Copy, PartialEq, Eq, Structural, Debug)]
pub struct AlreadyReported;

impl AlreadyReported {
    /// Wraps the marker as the error of a unit `Result`, so that `?` can
    /// propagate it.
    pub fn to_result(self) -> (r: Result<(), AlreadyReported>)
        ensures
            r is Err,
    {
        Err(self)
    }
}

/// An error line naming a path: the message, then the path in backticks.
pub open spec fn path_report_line(message: Seq<u8>, path: Seq<u8>) -> Seq<u8> {
    message + seq![0x20u8, 0x60u8] + path + seq![0x60u8]
}

/// An error line with an underlying cause indented below it.
pub open spec fn cause_report_line(message: Seq<u8>, cause: Seq<u8>) -> Seq<u8> {
    message + seq![0x0au8, 0x20u8, 0x20u8] + cause
}

/// Renders an error about a path and returns the already-reported marker
/// for the caller to propagate.
pub fn report(message: &[u8], path: &[u8]) -> (r: (Vec<u8>, AlreadyReported))
    ensures
        r.0@ == path_report_line(message@, path@),
{
    let mut line = vstd::slice::slice_to_vec(message);
    line.push(0x20);
    line.push(0x60);
    crate::bytes::append_bytes(&mut line, path);
    line.push(0x60);
    proof {
        assert(line@ =~= path_report_line(message@, path@));
    }
    (line, AlreadyReported)
}

/// Renders an error with its underlying cause and returns the marker.
pub fn report_custom(message: &[u8], cause: &[u8]) -> (r: (Vec<u8>, AlreadyReported))
    ensures
        r.0@ == cause_report_line(message@, cause@),
{
    let mut line = vstd::slice::slice_to_vec(message);
    line.push(0x0a);
    line.push(0x20);
    line.push(0x20);
    crate::bytes::append_bytes(&mut line, cause);
    proof {
        assert(line@ =~= cause_report_line(message@, cause@));
    }
    (line, AlreadyReported)
}

/// Renders an error about a path with its underlying cause and returns
/// the marker.
pub fn report_io_error(message: &[u8], path: &[u8], cause: &[u8]) -> (r: (
    Vec<u8>,
    AlreadyReported,
))
    ensures
        r.0@ == cause_report_line(path_report_line(message@, path@), cause@),
{
    let (line, _) = report(message, path);
    report_custom(line.as_slice(), cause)
}

} // verus!
