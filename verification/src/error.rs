//! The ways in which a run over a set of route files can fail.

use vstd::prelude::*;

verus! {

/// Why a run produced no report. Every failure is fatal to the whole run.
#[derive(Clone, Copy, Debug, PartialEq, Eq, Structural)]
pub enum RunError {
    /// An input could not be obtained from its supplier.
    IoUnavailable,
    /// An input is not well-formed markup.
    MalformedDocument,
    /// An input is well-formed markup that does not fit the route schema.
    SchemaViolation,
    /// The first point's timestamp of a track is not an RFC 3339 instant.
    TimestampFormat,
    /// A track holds no points, so it has neither a start nor an average.
    EmptyTrack,
}

} // verus!
