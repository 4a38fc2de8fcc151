//! A read-only, non-owning view over externally owned matrices of one
//! shared width, with cross-matrix aggregate reductions.

use vstd::prelude::*;
use vstd::slice::slice_index_get;

use crate::fold::{
    lemma_total_all_empty, lemma_total_take_step, prod_of, sum_of, total_prod, total_sum,
};
use crate::matrix::Matrix;

verus! {

/// A sequence of references to externally owned matrices that share
/// the width `N`. The collection owns none of them: it never copies or
/// mutates a matrix, and it must not outlive one.
pub struct MatrixCol<'c, 'm, const N: usize> {
    matrixes: &'c [&'m Matrix<N>],
}

impl<'c, 'm, const N: usize> View for MatrixCol<'c, 'm, N> {
    type V = Seq<Seq<i64>>;

    closed spec fn view(&self) -> Seq<Seq<i64>> {
        self.matrixes@.map_values(|m: &Matrix<N>| m@)
    }
}

impl<'c, 'm, const N: usize> MatrixCol<'c, 'm, N> {
    /// Wraps the given references without copying any matrix data.
    pub fn new(matrixes: &'c [&'m Matrix<N>]) -> (r: Self)
        ensures
            r@.len() == matrixes@.len(),
            forall|j: int| 0 <= j < matrixes@.len() ==> r@[j] == #[trigger] matrixes@[j]@,
    {
        Self { matrixes }
    }

    /// The reference at `index`, or `None` past the end. Never panics,
    /// never copies the referenced matrix.
    pub fn get_matrix(&self, index: usize) -> (r: Option<&'m Matrix<N>>)
        ensures
            index < self@.len() ==> (r matches Some(m) && m@ == self@[index as int]),
            index >= self@.len() ==> r is None,
    {
        if index < self.matrixes.len() {
            Some(*slice_index_get(self.matrixes, index))
        } else {
            None
        }
    }

    /// Combines the per-matrix sums left to right with `+`, skipping
    /// every empty matrix; `None` iff every referenced matrix is empty.
    pub fn sum(&self) -> (r: Option<i64>)
        requires
            forall|j: int, k: int|
                0 <= j < self@.len() && 0 < k <= self@[j].len() ==> i64::MIN <= sum_of(
                    #[trigger] self@[j].take(k),
                ) <= i64::MAX,
            forall|k: int|
                0 < k <= self@.len() ==> i64::MIN <= total_sum(#[trigger] self@.take(k))
                    <= i64::MAX,
        ensures
            (forall|j: int| 0 <= j < self@.len() ==> #[trigger] self@[j].len() == 0) ==> r is None,
            (exists|j: int| 0 <= j < self@.len() && #[trigger] self@[j].len() > 0) ==> (r matches
            Some(v) && v == total_sum(self@)),
    {
        let n: usize = self.matrixes.len();
        let mut acc: Option<i64> = None;
        let mut j: usize = 0;
        while j < n
            invariant
                j <= n,
                n == self.matrixes@.len(),
                self@ == self.matrixes@.map_values(|m: &Matrix<N>| m@),
                forall|jj: int, k: int|
                    0 <= jj < self@.len() && 0 < k <= self@[jj].len() ==> i64::MIN <= sum_of(
                        #[trigger] self@[jj].take(k),
                    ) <= i64::MAX,
                forall|k: int|
                    0 < k <= self@.len() ==> i64::MIN <= total_sum(#[trigger] self@.take(k))
                        <= i64::MAX,
                acc is None <==> (forall|jj: int|
                    0 <= jj < j ==> #[trigger] self@[jj].len() == 0),
                acc matches Some(v) ==> v == total_sum(self@.take(j as int)),
            decreases n - j,
        {
            let m: &Matrix<N> = *slice_index_get(self.matrixes, j);
            proof {
                assert(m@ == self@[j as int]);
                assert forall|k: int| 0 < k <= m@.len() implies i64::MIN <= sum_of(
                    #[trigger] m@.take(k),
                ) <= i64::MAX by {
                    assert(m@.take(k) == self@[j as int].take(k));
                }
                lemma_total_take_step(self@, j as int);
            }
            match m.sum() {
                None => {
                    proof {
                        assert(sum_of(self@[j as int]) == 0);
                    }
                },
                Some(v) => {
                    match acc {
                        None => {
                            proof {
                                lemma_total_all_empty(self@.take(j as int));
                            }
                            acc = Some(v);
                        },
                        Some(s) => {
                            proof {
                                assert(i64::MIN <= total_sum(self@.take(j as int + 1))
                                    <= i64::MAX);
                            }
                            acc = Some(s + v);
                        },
                    }
                },
            }
            j = j + 1;
        }
        proof {
            assert(self@.take(n as int) =~= self@);
        }
        acc
    }

    /// Combines the per-matrix products left to right with `*`,
    /// skipping every empty matrix; `None` iff every matrix is empty.
    pub fn prod(&self) -> (r: Option<i64>)
        requires
            forall|j: int, k: int|
                0 <= j < self@.len() && 0 < k <= self@[j].len() ==> i64::MIN <= prod_of(
                    #[trigger] self@[j].take(k),
                ) <= i64::MAX,
            forall|k: int|
                0 < k <= self@.len() ==> i64::MIN <= total_prod(#[trigger] self@.take(k))
                    <= i64::MAX,
        ensures
            (forall|j: int| 0 <= j < self@.len() ==> #[trigger] self@[j].len() == 0) ==> r is None,
            (exists|j: int| 0 <= j < self@.len() && #[trigger] self@[j].len() > 0) ==> (r matches
            Some(v) && v == total_prod(self@)),
    {
        let n: usize = self.matrixes.len();
        let mut acc: Option<i64> = None;
        let mut j: usize = 0;
        while j < n
            invariant
                j <= n,
                n == self.matrixes@.len(),
                self@ == self.matrixes@.map_values(|m: &Matrix<N>| m@),
                forall|jj: int, k: int|
                    0 <= jj < self@.len() && 0 < k <= self@[jj].len() ==> i64::MIN <= prod_of(
                        #[trigger] self@[jj].take(k),
                    ) <= i64::MAX,
                forall|k: int|
                    0 < k <= self@.len() ==> i64::MIN <= total_prod(#[trigger] self@.take(k))
                        <= i64::MAX,
                acc is None <==> (forall|jj: int|
                    0 <= jj < j ==> #[trigger] self@[jj].len() == 0),
                acc matches Some(v) ==> v == total_prod(self@.take(j as int)),
            decreases n - j,
        {
            let m: &Matrix<N> = *slice_index_get(self.matrixes, j);
            proof {
                assert(m@ == self@[j as int]);
                assert forall|k: int| 0 < k <= m@.len() implies i64::MIN <= prod_of(
                    #[trigger] m@.take(k),
                ) <= i64::MAX by {
                    assert(m@.take(k) == self@[j as int].take(k));
                }
                lemma_total_take_step(self@, j as int);
            }
            match m.prod() {
                None => {
                    proof {
                        assert(prod_of(self@[j as int]) == 1);
                    }
                },
                Some(v) => {
                    match acc {
                        None => {
                            proof {
                                lemma_total_all_empty(self@.take(j as int));
                            }
                            acc = Some(v);
                        },
                        Some(p) => {
                            proof {
                                assert(i64::MIN <= total_prod(self@.take(j as int + 1))
                                    <= i64::MAX);
                            }
                            acc = Some(p * v);
                        },
                    }
                },
            }
            j = j + 1;
        }
        proof {
            assert(self@.take(n as int) =~= self@);
        }
        acc
    }
}

} // verus!
