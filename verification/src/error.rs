use vstd::prelude::*;

verus! {

/// The failure conditions of the timeline pipeline.
///
/// `SourceUnavailable` and `MalformedSource` arise while loading entries from
/// a file; `EmptyInput` and `ZeroInterval` arise while bucketing.  All are
/// terminal: no partial output is produced once one of them is reported.
#[derive(Clone, Copy, Debug, PartialEq, Eq, Structural)]
pub enum TimelineError {
    /// The entry source could not be opened.
    SourceUnavailable,
    /// The entry source could not be decoded into entries.
    MalformedSource,
    /// Bucketing was attempted on zero entries.
    EmptyInput,
    /// The span of the entries is too small for their count, so the bucket
    /// width would collapse to zero.
    ZeroInterval,
}

} // verus!
