//! The error taxonomy for the pipeline: every failure a caller can see is
//! one of these kinds.

use vstd::prelude::*;

verus! {

/// What went wrong.
///
/// - `DecodeError`: a source image could not be read or decoded.
/// - `EncodeError`: an output image could not be written.
/// - `FilterError`: a filter's codec round trip failed; the rest of the
///   pipeline for that render is abandoned.
/// - `IndexError`: a queue operation was given an out-of-range position;
///   the queue is left unchanged.
/// - `FormatError`: a serialized queue was malformed; the existing queue is
///   left untouched.
#[derive(Clone, Copy, PartialEq, Eq, Structural, Debug)]
pub enum ErrorKind {
    DecodeError,
    EncodeError,
    FilterError,
    IndexError,
    FormatError,
}

} // verus!
