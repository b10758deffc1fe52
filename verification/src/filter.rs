//! Extraction of the rows of a feature matrix that belong to one
//! target class, used by concrete estimators when computing per-class
//! statistics.

use vstd::prelude::*;
use vstd::multiset::Multiset;
use vstd::seq_lib::lemma_multiset_commutative;

use crate::matrix::Matrix;
use crate::matrix::cols_of;

verus! {

/// The rows of `x` whose parallel target equals `c`, in their
/// original order.
pub open spec fn filtered_rows(x: Seq<Seq<i64>>, y: Seq<u64>, c: u64) -> Seq<Seq<i64>>
    decreases y.len(),
{
    if y.len() == 0 {
        Seq::empty()
    } else {
        let rest = filtered_rows(x.drop_last(), y.drop_last(), c);
        if y.last() == c {
            rest.push(x.last())
        } else {
            rest
        }
    }
}

/// How many targets equal `c`.
pub open spec fn count_matches(y: Seq<u64>, c: u64) -> nat
    decreases y.len(),
{
    if y.len() == 0 {
        0
    } else {
        count_matches(y.drop_last(), c) + if y.last() == c {
            1nat
        } else {
            0nat
        }
    }
}

/// The returned subset's row count equals the number of positions
/// whose target equals the label.
pub proof fn lemma_filter_count(x: Seq<Seq<i64>>, y: Seq<u64>, c: u64)
    requires
        x.len() == y.len(),
    ensures
        filtered_rows(x, y, c).len() == count_matches(y, c),
    decreases y.len(),
{
    if y.len() > 0 {
        lemma_filter_count(x.drop_last(), y.drop_last(), c);
    }
}

/// Returns a newly allocated matrix holding exactly the rows of `x`
/// whose target equals `ycondition`, in their original order, with
/// all columns kept. Zero matching rows give a valid zero-row matrix
/// with the original column count.
pub fn filter(x: &Matrix, y: &Vec<u64>, ycondition: u64) -> (r: Matrix)
    requires
        x.wf(),
        y@.len() == x@.len(),
    ensures
        r.wf(),
        cols_of(r) == cols_of(*x),
        r@ == filtered_rows(x@, y@, ycondition),
{
    let n = y.len();
    let mut subset: Vec<Vec<i64>> = Vec::new();
    let mut i: usize = 0;
    while i < n
        invariant
            x.wf(),
            n == y@.len(),
            y@.len() == x@.len(),
            i <= n,
            forall|k: int| 0 <= k < subset@.len() ==> (#[trigger] subset@[k])@.len() == cols_of(*x),
            subset@.len() <= i,
            Seq::new(subset@.len() as nat, |k: int| subset@[k]@) == filtered_rows(
                x@.take(i as int),
                y@.take(i as int),
                ycondition,
            ),
        decreases n - i,
    {
        let ghost prev = Seq::new(subset@.len() as nat, |k: int| subset@[k]@);
        proof {
            assert(x@.take(i + 1 as int).drop_last() == x@.take(i as int));
            assert(y@.take(i + 1 as int).drop_last() == y@.take(i as int));
            assert(x@.take(i + 1 as int).last() == x@[i as int]);
            assert(y@.take(i + 1 as int).last() == y@[i as int]);
        }
        if y[i] == ycondition {
            let row = x.row(i);
            subset.push(row);
            proof {
                assert(Seq::new(subset@.len() as nat, |k: int| subset@[k]@) =~= prev.push(
                    x@[i as int],
                ));
            }
        }
        i = i + 1;
    }
    proof {
        assert(x@.take(n as int) == x@);
        assert(y@.take(n as int) == y@);
        lemma_filter_count(x@, y@, ycondition);
        assert(subset@.len() * cols_of(*x) <= x@.len() * cols_of(*x))
            by (nonlinear_arith)
            requires
                subset@.len() <= x@.len(),
                cols_of(*x) >= 0,
        ;
    }
    let m = Matrix::from_rows(&subset, x.ncols());
    proof {
        assert(m@ =~= filtered_rows(x@, y@, ycondition));
    }
    m
}

/// The concatenation of the filtered subsets for each label in
/// `labels`, in that order.
pub open spec fn concat_filtered(x: Seq<Seq<i64>>, y: Seq<u64>, labels: Seq<u64>) -> Seq<
    Seq<i64>,
>
    decreases labels.len(),
{
    if labels.len() == 0 {
        Seq::empty()
    } else {
        concat_filtered(x, y, labels.drop_last()) + filtered_rows(x, y, labels.last())
    }
}

proof fn lemma_filtered_rows_empty(x: Seq<Seq<i64>>, y: Seq<u64>, labels: Seq<u64>)
    requires
        y.len() == 0,
    ensures
        concat_filtered(x, y, labels).to_multiset() == Multiset::<Seq<i64>>::empty(),
    decreases labels.len(),
{
    broadcast use vstd::seq_lib::group_to_multiset_ensures;

    if labels.len() == 0 {
        assert(concat_filtered(x, y, labels).to_multiset() =~= Multiset::<Seq<i64>>::empty());
    } else {
        lemma_filtered_rows_empty(x, y, labels.drop_last());
        lemma_multiset_commutative(
            concat_filtered(x, y, labels.drop_last()),
            filtered_rows(x, y, labels.last()),
        );
        assert(filtered_rows(x, y, labels.last()).to_multiset() =~= Multiset::<Seq<i64>>::empty());
        assert(concat_filtered(x, y, labels).to_multiset() =~= Multiset::<Seq<i64>>::empty());
    }
}

/// Appending one observation adds its row to exactly the subsets of
/// the labels that match its target: one copy when its target occurs
/// in distinct `labels`, none otherwise.
proof fn lemma_concat_filtered_step(x: Seq<Seq<i64>>, y: Seq<u64>, labels: Seq<u64>)
    requires
        x.len() == y.len(),
        x.len() > 0,
        forall|a: int, b: int| 0 <= a < b < labels.len() ==> labels[a] != labels[b],
    ensures
        labels.contains(y.last()) ==> concat_filtered(x, y, labels).to_multiset()
            == concat_filtered(x.drop_last(), y.drop_last(), labels).to_multiset().insert(
            x.last(),
        ),
        !labels.contains(y.last()) ==> concat_filtered(x, y, labels).to_multiset()
            == concat_filtered(x.drop_last(), y.drop_last(), labels).to_multiset(),
    decreases labels.len(),
{
    broadcast use vstd::seq_lib::group_to_multiset_ensures;
    broadcast use vstd::multiset::group_multiset_axioms;

    let x0 = x.drop_last();
    let y0 = y.drop_last();
    if labels.len() == 0 {
        assert(!labels.contains(y.last()));
    } else {
        let l0 = labels.drop_last();
        let c = labels.last();
        assert(forall|a: int, b: int| 0 <= a < b < l0.len() ==> l0[a] != l0[b]);
        lemma_concat_filtered_step(x, y, l0);
        lemma_multiset_commutative(concat_filtered(x, y, l0), filtered_rows(x, y, c));
        lemma_multiset_commutative(concat_filtered(x0, y0, l0), filtered_rows(x0, y0, c));
        if c == y.last() {
            assert(!l0.contains(y.last())) by {
                if l0.contains(y.last()) {
                    let a = choose|a: int| 0 <= a < l0.len() && l0[a] == y.last();
                    assert(labels[a] == labels[labels.len() - 1]);
                }
            }
            assert(filtered_rows(x, y, c) == filtered_rows(x0, y0, c).push(x.last()));
            assert(filtered_rows(x, y, c).to_multiset() =~= filtered_rows(
                x0,
                y0,
                c,
            ).to_multiset().insert(x.last()));
            assert(concat_filtered(x, y, labels).to_multiset() =~= concat_filtered(
                x0,
                y0,
                labels,
            ).to_multiset().insert(x.last()));
        } else {
            assert(filtered_rows(x, y, c) == filtered_rows(x0, y0, c));
            if labels.contains(y.last()) {
                assert(l0.contains(y.last())) by {
                    let a = choose|a: int| 0 <= a < labels.len() && labels[a] == y.last();
                    assert(a < labels.len() - 1);
                    assert(l0[a] == y.last());
                }
                assert(concat_filtered(x, y, labels).to_multiset() =~= concat_filtered(
                    x0,
                    y0,
                    labels,
                ).to_multiset().insert(x.last()));
            } else {
                assert(!l0.contains(y.last())) by {
                    if l0.contains(y.last()) {
                        let a = choose|a: int| 0 <= a < l0.len() && l0[a] == y.last();
                        assert(labels[a] == y.last());
                    }
                }
                assert(concat_filtered(x, y, labels).to_multiset() =~= concat_filtered(
                    x0,
                    y0,
                    labels,
                ).to_multiset());
            }
        }
    }
}

/// Concatenating the filtered subsets over any duplicate-free list of
/// labels that covers every target reconstructs a row-permutation of
/// the original matrix: both sides hold the same rows with the same
/// multiplicities.
pub proof fn lemma_filter_partition(x: Seq<Seq<i64>>, y: Seq<u64>, labels: Seq<u64>)
    requires
        x.len() == y.len(),
        forall|a: int, b: int| 0 <= a < b < labels.len() ==> labels[a] != labels[b],
        forall|i: int| 0 <= i < y.len() ==> labels.contains(#[trigger] y[i]),
    ensures
        concat_filtered(x, y, labels).to_multiset() == x.to_multiset(),
    decreases y.len(),
{
    broadcast use vstd::seq_lib::group_to_multiset_ensures;
    broadcast use vstd::multiset::group_multiset_axioms;

    if y.len() == 0 {
        lemma_filtered_rows_empty(x, y, labels);
        assert(x.to_multiset() =~= Multiset::<Seq<i64>>::empty());
    } else {
        let x0 = x.drop_last();
        let y0 = y.drop_last();
        assert(forall|i: int| 0 <= i < y0.len() ==> labels.contains(#[trigger] y0[i])) by {
            assert(forall|i: int| 0 <= i < y0.len() ==> y0[i] == y[i]);
        }
        lemma_filter_partition(x0, y0, labels);
        assert(labels.contains(y.last())) by {
            assert(y[y.len() - 1] == y.last());
        }
        lemma_concat_filtered_step(x, y, labels);
        assert(x == x0.push(x.last()));
        assert(x.to_multiset() =~= x0.to_multiset().insert(x.last()));
    }
}

} // verus!
