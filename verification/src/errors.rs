//! The error taxonomy of the metrics core.

use vstd::prelude::*;

verus! {

/// Everything that can go wrong between a producer and the registry.
///
/// `DuplicateMetric`: a second registration of a name with different label keys.
/// `UnknownMetric`: an observation for a name that was never registered.
/// `LabelArityMismatch`: an observation whose label values do not match the
/// registered label-key count.
/// `ParseError`: raw producer text that is not a decimal number; rejected at
/// the update channel, before the registry is touched.
#[derive(Clone, Copy, Debug, PartialEq, Eq, Structural)]
pub enum MetricsError {
    DuplicateMetric,
    UnknownMetric,
    LabelArityMismatch,
    ParseError,
}

} // verus!
