//! A batch of observations: feature rows paired with class targets,
//! and the canonical ordering of the observed class labels.

use vstd::prelude::*;

use crate::matrix::Matrix;

verus! {

/// A feature matrix paired with one class label per row. The
/// features are borrowed read-only by fit and predict calls; nothing
/// here is retained beyond a call.
pub struct Dataset {
    /// One observation per row.
    pub records: Matrix,
    /// The class label of each observation.
    pub targets: Vec<u64>,
}

impl Dataset {
    /// The target vector is as long as the feature matrix has rows.
    pub open spec fn wf(self) -> bool {
        &&& self.records.wf()
        &&& self.targets@.len() == self.records@.len()
    }

    /// Number of observations in the batch.
    pub open spec fn spec_n_samples(self) -> nat {
        self.targets@.len()
    }

    /// Number of observations in the batch.
    pub fn n_samples(&self) -> (r: usize)
        ensures
            r == self.spec_n_samples(),
    {
        self.targets.len()
    }
}

/// Each label is strictly smaller than every later one: sorted, with
/// no duplicates.
pub open spec fn strictly_sorted(s: Seq<u64>) -> bool {
    forall|a: int, b: int| 0 <= a < b < s.len() ==> s[a] < s[b]
}

/// The distinct class labels occurring in `targets`, in a canonical
/// (ascending) order: sorted, duplicate-free, and holding exactly the
/// labels the target vector holds.
pub fn unique_labels(targets: &Vec<u64>) -> (r: Vec<u64>)
    ensures
        strictly_sorted(r@),
        forall|l: u64| r@.contains(l) <==> targets@.contains(l),
{
    let n = targets.len();
    let mut r: Vec<u64> = Vec::new();
    let mut i: usize = 0;
    while i < n
        invariant
            n == targets@.len(),
            i <= n,
            strictly_sorted(r@),
            forall|l: u64| r@.contains(l) <==> targets@.take(i as int).contains(l),
        decreases n - i,
    {
        let ghost prev = r@;
        let t = targets[i];
        let mut pos: usize = 0;
        while pos < r.len() && r[pos] < t
            invariant
                strictly_sorted(r@),
                pos <= r@.len(),
                forall|k: int| 0 <= k < pos ==> r@[k] < t,
            decreases r@.len() - pos,
        {
            pos = pos + 1;
        }
        let already = pos < r.len() && r[pos] == t;
        if !already {
            r.insert(pos, t);
            proof {
                prev.insert_ensures(pos as int, t);
                assert forall|a: int, b: int| 0 <= a < b < r@.len() implies r@[a] < r@[b] by {
                    if b < pos {
                        assert(r@[a] == prev[a] && r@[b] == prev[b]);
                    } else if a > pos {
                        assert(r@[a] == prev[a - 1] && r@[b] == prev[b - 1]);
                    } else if a < pos && b == pos {
                        assert(r@[a] == prev[a] && r@[b] == t);
                    } else if a == pos {
                        assert(r@[a] == t && r@[b] == prev[b - 1]);
                        assert(!(prev[b - 1] < t));
                        assert(prev[b - 1] != t) by {
                            if prev[b - 1] == t {
                                assert(prev.contains(t)) by {
                                    assert(prev[b - 1] == t && 0 <= b - 1 < prev.len());
                                }
                                assert(targets@.take(i as int).contains(t));
                                let w = choose|w: int|
                                    0 <= w < prev.len() && prev[w] == t;
                                if w < pos {
                                    assert(prev[w] < t);
                                } else if w > pos {
                                    assert(prev[pos as int] > t || prev[pos as int] == t);
                                    assert(prev[pos as int] < prev[w]);
                                }
                            }
                        }
                    } else {
                        assert(a < pos && b > pos);
                        assert(r@[a] == prev[a] && r@[b] == prev[b - 1]);
                        assert(prev[a] < t);
                        assert(!(prev[b - 1] < t));
                    }
                }
                assert forall|l: u64| r@.contains(l) <==> prev.contains(l) || l == t by {
                    if r@.contains(l) {
                        let w = choose|w: int| 0 <= w < r@.len() && r@[w] == l;
                        if w < pos {
                            assert(prev[w] == l);
                            assert(prev.contains(l));
                        } else if w > pos {
                            assert(prev[w - 1] == l);
                            assert(prev.contains(l));
                        }
                    }
                    if prev.contains(l) {
                        let w = choose|w: int| 0 <= w < prev.len() && prev[w] == l;
                        if w < pos {
                            assert(r@[w] == l);
                        } else {
                            assert(r@[w + 1] == l);
                        }
                        assert(r@.contains(l));
                    }
                    if l == t {
                        assert(r@[pos as int] == t);
                        assert(r@.contains(l));
                    }
                }
            }
        } else {
            proof {
                assert forall|l: u64| r@.contains(l) <==> prev.contains(l) || l == t by {
                    assert(r@ == prev);
                    if l == t {
                        assert(prev[pos as int] == t);
                        assert(prev.contains(l));
                    }
                }
            }
        }
        proof {
            assert(targets@.take(i + 1 as int) == targets@.take(i as int).push(t));
            assert forall|l: u64| targets@.take(i + 1 as int).contains(l) implies targets@.take(
                i as int,
            ).contains(l) || l == t by {
                let w = choose|w: int|
                    0 <= w < targets@.take(i + 1 as int).len() && #[trigger] targets@.take(
                        i + 1 as int,
                    )[w] == l;
                if w < i {
                    assert(targets@.take(i as int)[w] == l);
                }
            }
            assert forall|l: u64| targets@.take(i as int).contains(l) implies targets@.take(
                i + 1 as int,
            ).contains(l) by {
                let w = choose|w: int|
                    0 <= w < targets@.take(i as int).len() && targets@.take(i as int)[w] == l;
                assert(targets@.take(i + 1 as int)[w] == l);
            }
            assert(targets@.take(i + 1 as int).contains(t)) by {
                assert(targets@.take(i + 1 as int)[i as int] == t);
            }
            assert forall|l: u64|
                r@.contains(l) <==> targets@.take(i + 1 as int).contains(l) by {
                assert(r@.contains(l) <==> prev.contains(l) || l == t);
                assert(prev.contains(l) <==> targets@.take(i as int).contains(l));
            }
        }
        i = i + 1;
    }
    proof {
        assert(targets@.take(n as int) == targets@);
    }
    r
}

} // verus!
