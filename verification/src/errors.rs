//! Error kinds surfaced by the Naive Bayes core.

use vstd::prelude::*;

verus! {

/// A recoverable failure of a fit or predict call.
#[derive(Clone, Copy, Debug, PartialEq, Eq, Structural)]
pub enum NaiveBayesError {
    /// Row-count mismatches between features and targets, empty
    /// batches, or feature dimensionality drift across incremental
    /// fit calls.
    InvalidInput,
    /// A score comparison encountered a value that cannot be ordered
    /// during prediction; the whole predict call fails rather than
    /// producing partial output.
    NumericFailure,
}

} // verus!
