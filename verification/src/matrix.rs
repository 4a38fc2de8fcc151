//! A flat, fixed-row-width numeric container with validated
//! construction, element-wise scalar operations, and full-element
//! reductions.

use vstd::prelude::*;

use crate::fold::{lemma_fold_take_step, prod_of, sum_of};

verus! {

/// The one recoverable failure of the library: a sequence whose length
/// is not a multiple of the fixed width was handed to `from_vec`.
#[derive(Debug)]
pub enum Error {
    InvalidLen,
}

/// A homogeneous container of `i64` elements, conceptually segmented
/// into rows of width `N`: the element count is always a multiple of
/// `N`. The buffer stays flat; no row boundary is ever materialized.
#[derive(Debug)]
pub struct Matrix<const N: usize> {
    elements: Vec<i64>,
}

impl<const N: usize> View for Matrix<N> {
    type V = Seq<i64>;

    closed spec fn view(&self) -> Seq<i64> {
        self.elements@
    }
}

impl<const N: usize> Matrix<N> {
    /// The width invariant: the element count is a multiple of `N`.
    pub open spec fn well_formed(&self) -> bool {
        self@.len() % (N as nat) == 0
    }

    /// A matrix with no elements at all; trivially well formed.
    pub fn new() -> (m: Self)
        ensures
            m@ == Seq::<i64>::empty(),
            m@.len() == 0,
            N > 0 ==> m.well_formed(),
    {
        Self { elements: Vec::new() }
    }

    /// Takes ownership of `vec` verbatim when its length is a multiple
    /// of `N`; rejects it with `InvalidLen` otherwise.
    pub fn from_vec(vec: Vec<i64>) -> (r: Result<Self, Error>)
        requires
            N > 0,
        ensures
            vec@.len() % (N as nat) == 0 ==> (r matches Ok(m) && m@ == vec@ && m.well_formed()),
            vec@.len() % (N as nat) != 0 ==> (r matches Err(e) && e is InvalidLen),
    {
        if vec.len() % N != 0 {
            Err(Error::InvalidLen)
        } else {
            Ok(Self { elements: vec })
        }
    }

    /// The elements in order, as handed to the constructor.
    pub fn elements(&self) -> (r: &Vec<i64>)
        ensures
            r@ == self@,
    {
        &self.elements
    }

    /// Folds all elements left to right with `+`; `None` iff the matrix
    /// is empty, since no zero is fabricated for an empty reduction.
    pub fn sum(&self) -> (r: Option<i64>)
        requires
            forall|k: int|
                0 < k <= self@.len() ==> i64::MIN <= sum_of(#[trigger] self@.take(k))
                    <= i64::MAX,
        ensures
            self@.len() == 0 ==> r is None,
            self@.len() > 0 ==> (r matches Some(v) && v == sum_of(self@)),
    {
        let mut acc: Option<i64> = None;
        let mut i: usize = 0;
        while i < self.elements.len()
            invariant
                i <= self.elements@.len(),
                self.elements@ == self@,
                forall|k: int|
                    0 < k <= self@.len() ==> i64::MIN <= sum_of(#[trigger] self@.take(k))
                        <= i64::MAX,
                i == 0 ==> acc is None,
                i > 0 ==> (acc matches Some(v) && v == sum_of(self@.take(i as int))),
            decreases self.elements@.len() - i,
        {
            let el: i64 = self.elements[i];
            proof {
                lemma_fold_take_step(self@, i as int);
                assert(i64::MIN <= sum_of(self@.take(i as int + 1)) <= i64::MAX);
                assert(sum_of(self@.take(0)) == 0);
            }
            acc = match acc {
                None => Some(el),
                Some(s) => Some(s + el),
            };
            i = i + 1;
        }
        proof {
            assert(self@.take(self@.len() as int) =~= self@);
        }
        acc
    }

    /// Folds all elements left to right with `*`; `None` iff empty.
    pub fn prod(&self) -> (r: Option<i64>)
        requires
            forall|k: int|
                0 < k <= self@.len() ==> i64::MIN <= prod_of(#[trigger] self@.take(k))
                    <= i64::MAX,
        ensures
            self@.len() == 0 ==> r is None,
            self@.len() > 0 ==> (r matches Some(v) && v == prod_of(self@)),
    {
        let mut acc: Option<i64> = None;
        let mut i: usize = 0;
        while i < self.elements.len()
            invariant
                i <= self.elements@.len(),
                self.elements@ == self@,
                forall|k: int|
                    0 < k <= self@.len() ==> i64::MIN <= prod_of(#[trigger] self@.take(k))
                        <= i64::MAX,
                i == 0 ==> acc is None,
                i > 0 ==> (acc matches Some(v) && v == prod_of(self@.take(i as int))),
            decreases self.elements@.len() - i,
        {
            let el: i64 = self.elements[i];
            proof {
                lemma_fold_take_step(self@, i as int);
                assert(i64::MIN <= prod_of(self@.take(i as int + 1)) <= i64::MAX);
                assert(prod_of(self@.take(0)) == 1);
            }
            acc = match acc {
                None => Some(el),
                Some(p) => Some(p * el),
            };
            i = i + 1;
        }
        proof {
            assert(self@.take(self@.len() as int) =~= self@);
        }
        acc
    }

    /// Consumes the matrix and returns a new one with `scalar` added to
    /// every element, in the original order.
    pub fn add_scalar(self, scalar: i64) -> (r: Self)
        requires
            forall|k: int|
                #![trigger self@[k]]
                0 <= k < self@.len() ==> i64::MIN <= self@[k] + scalar <= i64::MAX,
        ensures
            r@.len() == self@.len(),
            forall|k: int| #![trigger r@[k]] 0 <= k < self@.len() ==> r@[k] == self@[k] + scalar,
            self.well_formed() ==> r.well_formed(),
    {
        let mut out: Vec<i64> = Vec::new();
        let mut i: usize = 0;
        while i < self.elements.len()
            invariant
                i <= self.elements@.len(),
                self.elements@ == self@,
                forall|k: int|
                    #![trigger self@[k]]
                    0 <= k < self@.len() ==> i64::MIN <= self@[k] + scalar <= i64::MAX,
                out@.len() == i,
                forall|k: int| #![trigger out@[k]] 0 <= k < i ==> out@[k] == self@[k] + scalar,
            decreases self.elements@.len() - i,
        {
            out.push(self.elements[i] + scalar);
            i = i + 1;
        }
        Self { elements: out }
    }

    /// Consumes the matrix and returns a new one with every element
    /// multiplied by `scalar`, in the original order.
    pub fn mul_scalar(self, scalar: i64) -> (r: Self)
        requires
            forall|k: int|
                #![trigger self@[k]]
                0 <= k < self@.len() ==> i64::MIN <= self@[k] * scalar <= i64::MAX,
        ensures
            r@.len() == self@.len(),
            forall|k: int| #![trigger r@[k]] 0 <= k < self@.len() ==> r@[k] == self@[k] * scalar,
            self.well_formed() ==> r.well_formed(),
    {
        let mut out: Vec<i64> = Vec::new();
        let mut i: usize = 0;
        while i < self.elements.len()
            invariant
                i <= self.elements@.len(),
                self.elements@ == self@,
                forall|k: int|
                    #![trigger self@[k]]
                    0 <= k < self@.len() ==> i64::MIN <= self@[k] * scalar <= i64::MAX,
                out@.len() == i,
                forall|k: int| #![trigger out@[k]] 0 <= k < i ==> out@[k] == self@[k] * scalar,
            decreases self.elements@.len() - i,
        {
            out.push(self.elements[i] * scalar);
            i = i + 1;
        }
        Self { elements: out }
    }
}

impl<const N: usize> PartialEq for Matrix<N> {
    /// Two matrices are equal when they hold the same elements in the
    /// same order.
    fn eq(&self, other: &Self) -> (r: bool) {
        if self.elements.len() != other.elements.len() {
            return false;
        }
        let mut i: usize = 0;
        while i < self.elements.len()
            invariant
                i <= self.elements@.len(),
                self.elements@.len() == other.elements@.len(),
                forall|k: int| 0 <= k < i ==> self.elements@[k] == #[trigger] other.elements@[k],
            decreases self.elements@.len() - i,
        {
            if self.elements[i] != other.elements[i] {
                return false;
            }
            i = i + 1;
        }
        proof {
            assert(self.elements@ =~= other.elements@);
        }
        true
    }
}

impl<const N: usize> vstd::std_specs::cmp::PartialEqSpecImpl for Matrix<N> {
    open spec fn obeys_eq_spec() -> bool {
        true
    }

    open spec fn eq_spec(&self, other: &Self) -> bool {
        self@ == other@
    }
}

} // verus!
