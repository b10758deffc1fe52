//! Core prediction and estimation machinery shared by Naive Bayes
//! classifier variants: selection of the most probable class from
//! per-class joint log-likelihood scores, the fit / fit-with contract
//! for incremental estimation, and a class-based dataset filter.

mod base_nb;
mod dataset;
mod errors;
mod filter;
mod matrix;

pub use base_nb::JointLogLikelihood;
pub use base_nb::NaiveBayes;
pub use base_nb::NaiveBayesValidParams;
pub use base_nb::Score;
pub use base_nb::all_ordered;
pub use base_nb::best_class;
pub use base_nb::lemma_best_class_props;
pub use base_nb::lemma_predictions_deterministic;
pub use base_nb::lemma_predictions_in_classes;
pub use base_nb::lemma_unique_max_selected;
pub use base_nb::predict_from_scores;
pub use base_nb::score_key;
pub use base_nb::spec_predictions;
pub use dataset::Dataset;
pub use dataset::strictly_sorted;
pub use dataset::unique_labels;
pub use errors::NaiveBayesError;
pub use filter::concat_filtered;
pub use filter::count_matches;
pub use filter::filter;
pub use filter::filtered_rows;
pub use filter::lemma_filter_count;
pub use filter::lemma_filter_partition;
pub use matrix::Matrix;
pub use matrix::cols_of;
pub use matrix::rows_of;
