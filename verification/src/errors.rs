use vstd::prelude::*;

verus! {

/// The failures of the pipeline. Every one is fatal: no output document is
/// produced once any stage fails.
#[derive(Debug, Clone, PartialEq, Eq)]
pub enum PlanError {
    /// The input is not valid data for the text encoding scheme.
    DecodeError,
    /// The decoded bytes are not valid UTF-8 text.
    EncodingError,
    /// A workout title has no leading day number before its first `.`;
    /// the offending title text is carried for diagnosis.
    MalformedWorkoutTitle(String),
    /// A scheduled event date fell outside the range the calendar date
    /// library supports.
    DateOutOfRange,
}

} // verus!
