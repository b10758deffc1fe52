use linfa_bayes::JointLogLikelihood;
use linfa_bayes::Matrix;
use linfa_bayes::NaiveBayes;
use linfa_bayes::NaiveBayesError;
use linfa_bayes::Score;
use linfa_bayes::predict_from_scores;

/// Order-preserving integer key of a finite float (the key used by
/// callers that score with real-valued log-likelihoods).
fn key_of(x: f64) -> i64 {
    let bits = x.to_bits() as i64;
    bits ^ ((((bits >> 63) as u64) >> 1) as i64)
}

fn score_of(x: f64) -> Score {
    if x.is_nan() {
        Score::Unordered
    } else {
        Score::Ordered(key_of(x))
    }
}

fn scores_of(xs: &[f64]) -> Vec<Score> {
    xs.iter().map(|&x| score_of(x)).collect()
}

#[test]
fn float_keys_preserve_order() {
    let vals = [-5.0, -1.0, -0.2, 0.0, 0.1, 2.5, 1e300];
    for i in 0..vals.len() {
        for j in 0..vals.len() {
            assert_eq!(vals[i] < vals[j], key_of(vals[i]) < key_of(vals[j]));
        }
    }
}

// Joint log-likelihood map {"a": [0.1, -5.0], "b": [-0.2, -1.0]} over
// two samples gives predictions ["a", "b"]; labels "a" and "b" are
// carried as 0 and 1.
#[test]
fn two_classes_two_samples() {
    let jll = JointLogLikelihood {
        classes: vec![0, 1],
        scores: vec![scores_of(&[0.1, -5.0]), scores_of(&[-0.2, -1.0])],
    };
    let mut y = vec![99, 99];
    let r = predict_from_scores(&jll, &mut y);
    assert_eq!(r, Ok(()));
    assert_eq!(y, vec![0, 1]);
}

#[test]
fn unique_strict_maximum_is_selected() {
    let jll = JointLogLikelihood {
        classes: vec![7, 8, 9],
        scores: vec![
            scores_of(&[-3.0, 5.0]),
            scores_of(&[-1.0, 4.0]),
            scores_of(&[-2.0, 6.0]),
        ],
    };
    let mut y = vec![0, 0];
    assert_eq!(predict_from_scores(&jll, &mut y), Ok(()));
    assert_eq!(y, vec![8, 9]);
}

#[test]
fn predicted_labels_come_from_the_class_list() {
    let jll = JointLogLikelihood {
        classes: vec![42, 17],
        scores: vec![scores_of(&[1.0, 2.0, 3.0]), scores_of(&[3.0, 2.0, 1.0])],
    };
    let mut y = vec![0, 0, 0];
    assert_eq!(predict_from_scores(&jll, &mut y), Ok(()));
    for label in &y {
        assert!(jll.classes.contains(label));
    }
}

#[test]
fn ties_break_to_the_first_class_and_repeat_identically() {
    let jll = JointLogLikelihood {
        classes: vec![5, 3, 4],
        scores: vec![
            scores_of(&[2.0, -1.0]),
            scores_of(&[2.0, -1.0]),
            scores_of(&[2.0, -2.0]),
        ],
    };
    let mut y1 = vec![0, 0];
    let mut y2 = vec![0, 0];
    assert_eq!(predict_from_scores(&jll, &mut y1), Ok(()));
    assert_eq!(predict_from_scores(&jll, &mut y2), Ok(()));
    // All three classes tie on sample 0: the first in list order wins.
    assert_eq!(y1, vec![5, 5]);
    assert_eq!(y1, y2);
}

#[test]
fn unorderable_score_fails_whole_call_and_leaves_buffer_unchanged() {
    let jll = JointLogLikelihood {
        classes: vec![1, 2],
        scores: vec![scores_of(&[0.5, f64::NAN]), scores_of(&[0.25, 0.75])],
    };
    let mut y = vec![11, 12];
    let r = predict_from_scores(&jll, &mut y);
    assert_eq!(r, Err(NaiveBayesError::NumericFailure));
    assert_eq!(y, vec![11, 12]);
}

#[test]
fn single_class_always_wins() {
    let jll = JointLogLikelihood {
        classes: vec![6],
        scores: vec![scores_of(&[-8.0, 1.0, 0.0])],
    };
    let mut y = vec![0, 0, 0];
    assert_eq!(predict_from_scores(&jll, &mut y), Ok(()));
    assert_eq!(y, vec![6, 6, 6]);
}

/// A fitted model that simply stores its score table.
struct TableModel {
    classes: Vec<u64>,
    table: Vec<Vec<f64>>,
}

impl NaiveBayes for TableModel {
    // Ghost member of the trait: erased from every call site, never
    // run; only its exec shadow below has runtime behaviour.
    fn spec_joint_log_likelihood(&self, _x: Matrix) -> JointLogLikelihood {
        unreachable!()
    }

    fn joint_log_likelihood(&self, _x: &Matrix) -> JointLogLikelihood {
        JointLogLikelihood {
            classes: self.classes.clone(),
            scores: self.table.iter().map(|row| scores_of(row)).collect(),
        }
    }
}

#[test]
fn predict_inplace_through_the_trait() {
    let model = TableModel {
        classes: vec![0, 1],
        table: vec![vec![0.1, -5.0], vec![-0.2, -1.0]],
    };
    let x = Matrix::from_rows(&vec![vec![10, 20], vec![30, 40]], 2);
    let mut y = vec![9, 9];
    assert_eq!(model.predict_inplace(&x, &mut y), Ok(()));
    assert_eq!(y, vec![0, 1]);
}

#[test]
fn predict_inplace_propagates_numeric_failure() {
    let model = TableModel {
        classes: vec![0, 1],
        table: vec![vec![f64::NAN, -5.0], vec![-0.2, -1.0]],
    };
    let x = Matrix::from_rows(&vec![vec![1, 2], vec![3, 4]], 2);
    let mut y = vec![7, 7];
    assert_eq!(
        model.predict_inplace(&x, &mut y),
        Err(NaiveBayesError::NumericFailure)
    );
    assert_eq!(y, vec![7, 7]);
}
