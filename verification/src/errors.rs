//! Error taxonomy of the pipeline. Every failure aborts the run; nothing is
//! retried or swallowed. Configuration and sink-write failures arise only in
//! the unverified glue around the library, which reports them itself.

use vstd::prelude::*;

verus! {

/// A failure while reading citation records: either the transport failed, or
/// a row held a citation count that is not a non-negative 32-bit integer.
#[derive(PartialEq, Eq, Structural, Debug, Clone, Copy)]
pub enum SourceError {
    Connection,
    MalformedRow { row_index: usize },
}

/// A year reached the percentile computer with zero records. Unreachable when
/// populations come from the aggregator, which never creates an empty one;
/// reported loudly rather than indexing out of bounds.
#[derive(PartialEq, Eq, Structural, Debug, Clone, Copy)]
pub struct EmptyPopulationError {
    pub year: i32,
}

} // verus!
