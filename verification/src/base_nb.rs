//! Prediction machinery shared by Naive Bayes variants: turning
//! per-class joint log-likelihood scores into hard class predictions.

use vstd::prelude::*;

use crate::dataset::Dataset;
use crate::dataset::unique_labels;
use crate::errors::NaiveBayesError;
use crate::matrix::Matrix;
use crate::matrix::cols_of;

verus! {

/// A per-class log-likelihood score. Real-valued scores are carried
/// as order-preserving integer keys, so comparing keys compares the
/// underlying scores; a value with no place in the order (such as the
/// representation of an undefined result) is carried as `Unordered`
/// and makes the whole predict call fail.
#[derive(Clone, Copy, Debug, PartialEq, Eq, Structural)]
pub enum Score {
    /// An orderable score, as an order-preserving integer key.
    Ordered(i64),
    /// A score that cannot be placed in the order.
    Unordered,
}

/// The integer key of an ordered score (arbitrary on `Unordered`,
/// which prediction rejects before any comparison).
pub open spec fn score_key(s: Score) -> int {
    match s {
        Score::Ordered(v) => v as int,
        Score::Unordered => 0,
    }
}

/// The per-class joint log-likelihoods of a batch of samples: an
/// explicit ordered list of (class label, score row) pairs, so that
/// iteration order is stable and caller-visible. Entry `scores[j][i]`
/// is the score of sample `i` under class `classes[j]`.
pub struct JointLogLikelihood {
    /// The distinct class labels the model has learned, in the order
    /// the model lists them.
    pub classes: Vec<u64>,
    /// One score row per class, each of length `n_samples`.
    pub scores: Vec<Vec<Score>>,
}

impl JointLogLikelihood {
    /// The score rows as a sequence of sequences.
    pub open spec fn score_rows(self) -> Seq<Seq<Score>> {
        Seq::new(self.scores@.len() as nat, |j: int| self.scores@[j]@)
    }

    /// The number of samples being scored.
    pub open spec fn n_samples(self) -> nat {
        if self.scores@.len() == 0 {
            0
        } else {
            self.scores@[0]@.len()
        }
    }

    /// One score row per class, all rows of equal length, a non-empty
    /// set of distinct class labels.
    pub open spec fn wf(self) -> bool {
        &&& self.classes@.len() == self.scores@.len()
        &&& self.classes@.len() > 0
        &&& forall|j: int|
            0 <= j < self.scores@.len() ==> (#[trigger] self.scores@[j])@.len()
                == self.n_samples()
        &&& forall|j1: int, j2: int|
            0 <= j1 < j2 < self.classes@.len() ==> self.classes@[j1] != self.classes@[j2]
    }
}

/// Every score of every class is orderable.
pub open spec fn all_ordered(jll: JointLogLikelihood) -> bool {
    forall|j: int, i: int|
        0 <= j < jll.score_rows().len() && 0 <= i < jll.score_rows()[j].len()
            ==> (#[trigger] jll.score_rows()[j][i]) is Ordered
}

/// The class index selected for sample `i` among the first `k`
/// classes: the one with the maximal score, and among equal maxima
/// the first in class-list order (the deterministic tie-break rule).
pub open spec fn best_class(scores: Seq<Seq<Score>>, i: int, k: int) -> int
    decreases k,
{
    if k <= 1 {
        0
    } else {
        let b = best_class(scores, i, k - 1);
        if score_key(scores[k - 1][i]) > score_key(scores[b][i]) {
            k - 1
        } else {
            b
        }
    }
}

/// The label predicted for each sample: a pure function of the score
/// table and the class list.
pub open spec fn spec_predictions(jll: JointLogLikelihood) -> Seq<u64> {
    Seq::new(
        jll.n_samples(),
        |i: int| jll.classes@[best_class(jll.score_rows(), i, jll.classes@.len() as int)],
    )
}

/// The selected class index is in range, attains the maximal score
/// among the first `k` classes, and is the first index to attain it.
pub proof fn lemma_best_class_props(scores: Seq<Seq<Score>>, i: int, k: int)
    requires
        1 <= k,
    ensures
        0 <= best_class(scores, i, k) < k,
        forall|l: int|
            0 <= l < k ==> score_key(#[trigger] scores[l][i])
                <= score_key(scores[best_class(scores, i, k)][i]),
        forall|l: int|
            0 <= l < best_class(scores, i, k) ==> score_key(#[trigger] scores[l][i])
                < score_key(scores[best_class(scores, i, k)][i]),
    decreases k,
{
    if k > 1 {
        lemma_best_class_props(scores, i, k - 1);
    }
}

/// If exactly one class attains the strictly maximal score for a
/// sample, the selection picks exactly that class.
pub proof fn lemma_unique_max_selected(scores: Seq<Seq<Score>>, i: int, k: int, j: int)
    requires
        0 <= j < k,
        forall|l: int|
            0 <= l < k && l != j ==> score_key(#[trigger] scores[l][i])
                < score_key(scores[j][i]),
    ensures
        best_class(scores, i, k) == j,
    decreases k,
{
    if k > 1 {
        lemma_best_class_props(scores, i, k - 1);
        if j < k - 1 {
            lemma_unique_max_selected(scores, i, k - 1, j);
        }
    }
}

/// Every predicted label is one of the model's learned class labels.
pub proof fn lemma_predictions_in_classes(jll: JointLogLikelihood)
    requires
        jll.wf(),
    ensures
        forall|i: int|
            0 <= i < spec_predictions(jll).len()
                ==> jll.classes@.contains(#[trigger] spec_predictions(jll)[i]),
{
    assert forall|i: int|
        0 <= i < spec_predictions(jll).len() implies jll.classes@.contains(
        #[trigger] spec_predictions(jll)[i],
    ) by {
        lemma_best_class_props(jll.score_rows(), i, jll.classes@.len() as int);
        let b = best_class(jll.score_rows(), i, jll.classes@.len() as int);
        assert(jll.classes@[b] == spec_predictions(jll)[i]);
    }
}

/// Tie-break determinism: the prediction sequence is a function of
/// the model's score table and class list alone, so repeated calls on
/// identical model state and identical input agree, ties included.
pub proof fn lemma_predictions_deterministic(
    jll: JointLogLikelihood,
    y1: Seq<u64>,
    y2: Seq<u64>,
)
    requires
        y1 == spec_predictions(jll),
        y2 == spec_predictions(jll),
    ensures
        y1 == y2,
{
}

/// Writes into `y` the label of the class with the maximal score for
/// each sample, ties broken deterministically toward the first class
/// in list order. Fails with `NumericFailure`, leaving `y` unchanged,
/// exactly when some score cannot be ordered.
pub fn predict_from_scores(jll: &JointLogLikelihood, y: &mut Vec<u64>) -> (r: Result<
    (),
    NaiveBayesError,
>)
    requires
        jll.wf(),
        old(y)@.len() == jll.n_samples(),
    ensures
        final(y)@.len() == old(y)@.len(),
        r is Ok <==> all_ordered(*jll),
        r is Ok ==> final(y)@ == spec_predictions(*jll),
        r is Err ==> r == Err::<(), NaiveBayesError>(NaiveBayesError::NumericFailure)
            && final(y)@ == old(y)@,
        r is Ok ==> forall|i: int|
            0 <= i < final(y)@.len() ==> jll.classes@.contains(#[trigger] final(y)@[i]),
{
    let nclasses = jll.classes.len();
    let n = y.len();
    let ghost rows = jll.score_rows();
    let mut out: Vec<u64> = Vec::new();
    let mut i: usize = 0;
    while i < n
        invariant
            jll.wf(),
            n == jll.n_samples(),
            nclasses == jll.classes@.len(),
            rows == jll.score_rows(),
            i <= n,
            out@.len() == i,
            forall|s: int| 0 <= s < i ==> out@[s] == spec_predictions(*jll)[s],
            forall|s: int, j: int|
                0 <= s < i && 0 <= j < nclasses ==> (#[trigger] rows[j][s]) is Ordered,
        decreases n - i,
    {
        let mut best: usize = 0;
        let mut best_key: i64;
        match jll.scores[0][i] {
            Score::Ordered(v) => {
                best_key = v;
            },
            Score::Unordered => {
                assert(!(rows[0][i as int] is Ordered));
                assert(!all_ordered(*jll));
                return Err(NaiveBayesError::NumericFailure);
            },
        }
        let mut j: usize = 1;
        while j < nclasses
            invariant
                jll.wf(),
                n == jll.n_samples(),
                nclasses == jll.classes@.len(),
                rows == jll.score_rows(),
                i < n,
                1 <= j <= nclasses,
                best < j,
                best == best_class(rows, i as int, j as int),
                rows[best as int][i as int] is Ordered,
                best_key == score_key(rows[best as int][i as int]),
                forall|l: int| 0 <= l < j ==> (#[trigger] rows[l][i as int]) is Ordered,
            decreases nclasses - j,
        {
            match jll.scores[j][i] {
                Score::Ordered(v) => {
                    if v > best_key {
                        best = j;
                        best_key = v;
                    }
                },
                Score::Unordered => {
                    assert(!(rows[j as int][i as int] is Ordered));
                    assert(!all_ordered(*jll));
                    return Err(NaiveBayesError::NumericFailure);
                },
            }
            j = j + 1;
        }
        out.push(jll.classes[best]);
        i = i + 1;
    }
    assert(all_ordered(*jll));
    assert(out@ =~= spec_predictions(*jll));
    proof {
        lemma_predictions_in_classes(*jll);
    }
    *y = out;
    Ok(())
}

/// The prediction contract of a fitted Naive Bayes model: any model
/// able to score each sample under each of its learned classes gets
/// hard-label prediction from those scores.
pub trait NaiveBayes {
    /// The score table the model assigns to a batch of samples: the
    /// model's scoring is a function of the model state and the
    /// features alone.
    spec fn spec_joint_log_likelihood(&self, x: Matrix) -> JointLogLikelihood;

    /// Scores every sample of `x` under every learned class: one
    /// score row per class, all of length `x`'s row count, keyed by a
    /// non-empty list of distinct class labels.
    fn joint_log_likelihood(&self, x: &Matrix) -> (jll: JointLogLikelihood)
        requires
            x.wf(),
        ensures
            jll == self.spec_joint_log_likelihood(*x),
            jll.wf(),
            jll.n_samples() == x@.len(),
    ;

    /// Predicts the most probable class of each row of `x`, writing
    /// one label per row into `y`: for each row, the label of the
    /// maximally scoring class, ties broken toward the first class in
    /// the model's list order. The output buffer must already have
    /// exactly one slot per row; a mismatch is a caller error, ruled
    /// out before the call rather than reported through the error
    /// value. Fails with `NumericFailure`, leaving `y` unchanged,
    /// exactly when some score cannot be ordered.
    fn predict_inplace(&self, x: &Matrix, y: &mut Vec<u64>) -> (r: Result<(), NaiveBayesError>)
        requires
            x.wf(),
            old(y)@.len() == x@.len(),
        ensures
            final(y)@.len() == old(y)@.len(),
            r is Ok <==> all_ordered(self.spec_joint_log_likelihood(*x)),
            r is Ok ==> final(y)@ == spec_predictions(self.spec_joint_log_likelihood(*x)),
            r is Ok ==> forall|i: int|
                0 <= i < final(y)@.len() ==> self.spec_joint_log_likelihood(
                    *x,
                ).classes@.contains(#[trigger] final(y)@[i]),
            r is Err ==> r == Err::<(), NaiveBayesError>(NaiveBayesError::NumericFailure)
                && final(y)@ == old(y)@,
    {
        let jll = self.joint_log_likelihood(x);
        predict_from_scores(&jll, y)
    }
}

/// The estimation contract of a trainable Naive Bayes variant:
/// single-shot fitting on top of the variant's incremental update
/// step, so a model can also be built across successive batches.
pub trait NaiveBayesValidParams {
    /// The prior-model input of an incremental fit: an explicit
    /// "no prior model yet" marker, or the model learned from the
    /// batches seen so far.
    type ObjectIn;

    /// The fitted model produced.
    type ObjectOut;

    /// What the variant's incremental update yields for a prior model
    /// and a batch: the update is a function of those two alone.
    spec fn fit_with_spec(&self, model_in: Self::ObjectIn, dataset: Dataset) -> Result<
        Self::ObjectOut,
        NaiveBayesError,
    >;

    /// The feature dimensionality the prior-model input has
    /// established: the column count fixed by the batches already
    /// folded in, or nothing for the "no prior model yet" marker.
    spec fn established_n_features(&self, model_in: Self::ObjectIn) -> Option<usize>;

    /// Variant-specific incremental update: folds the batch's
    /// statistics into the prior model state and returns the updated
    /// model. Fails with `InvalidInput`, producing no fitted model,
    /// when the batch's feature dimensionality disagrees with the one
    /// the prior model established.
    fn fit_with(&self, model_in: Self::ObjectIn, dataset: &Dataset) -> (r: Result<
        Self::ObjectOut,
        NaiveBayesError,
    >)
        requires
            dataset.wf(),
            dataset.spec_n_samples() > 0,
        ensures
            r == self.fit_with_spec(model_in, *dataset),
            (self.established_n_features(model_in) matches Some(d) && d != cols_of(
                dataset.records,
            )) ==> r == Err::<Self::ObjectOut, NaiveBayesError>(NaiveBayesError::InvalidInput),
    ;

    /// Fits on one batch: rejects an empty batch, computes the
    /// canonical (ascending) ordering of the observed class labels —
    /// witnessing that the label set is non-empty — and delegates the
    /// parameter update to the variant's incremental step, handing it
    /// the prior model (or the "none" marker on a first call). A
    /// batch whose feature dimensionality disagrees with the one the
    /// prior model established fails with `InvalidInput`, producing
    /// no fitted model.
    fn fit(&self, dataset: &Dataset, model_none: Self::ObjectIn) -> (r: Result<
        Self::ObjectOut,
        NaiveBayesError,
    >)
        requires
            dataset.wf(),
        ensures
            dataset.spec_n_samples() == 0 ==> r == Err::<Self::ObjectOut, NaiveBayesError>(
                NaiveBayesError::InvalidInput,
            ),
            dataset.spec_n_samples() > 0 ==> r == self.fit_with_spec(model_none, *dataset),
            (self.established_n_features(model_none) matches Some(d) && d != cols_of(
                dataset.records,
            )) ==> r == Err::<Self::ObjectOut, NaiveBayesError>(NaiveBayesError::InvalidInput),
    {
        if dataset.n_samples() == 0 {
            return Err(NaiveBayesError::InvalidInput);
        }
        let unique_classes = unique_labels(&dataset.targets);
        proof {
            assert(dataset.targets@.contains(dataset.targets@[0]));
            assert(unique_classes@.len() > 0);
        }
        self.fit_with(model_none, dataset)
    }
}

} // verus!
