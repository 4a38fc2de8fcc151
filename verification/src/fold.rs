//! Mathematical models of the left-to-right reductions: the sum and
//! product of one element sequence, and the sum and product of every
//! element of every matrix in a batch.

use vstd::prelude::*;

verus! {

/// Left-to-right sum of the elements of `s`, over mathematical integers.
/// The empty sum is 0, the additive identity, so that the value agrees
/// with the executable fold on every non-empty sequence.
pub open spec fn sum_of(s: Seq<i64>) -> int
    decreases s.len(),
{
    if s.len() == 0 {
        0
    } else {
        sum_of(s.drop_last()) + s.last()
    }
}

/// Left-to-right product of the elements of `s`; the empty product is 1.
pub open spec fn prod_of(s: Seq<i64>) -> int
    decreases s.len(),
{
    if s.len() == 0 {
        1
    } else {
        prod_of(s.drop_last()) * s.last()
    }
}

/// Sum of every element of every matrix of `ms`, in batch order.
/// An empty matrix contributes the identity, hence nothing.
pub open spec fn total_sum(ms: Seq<Seq<i64>>) -> int
    decreases ms.len(),
{
    if ms.len() == 0 {
        0
    } else {
        total_sum(ms.drop_last()) + sum_of(ms.last())
    }
}

/// Product of every element of every matrix of `ms`, in batch order.
pub open spec fn total_prod(ms: Seq<Seq<i64>>) -> int
    decreases ms.len(),
{
    if ms.len() == 0 {
        1
    } else {
        total_prod(ms.drop_last()) * prod_of(ms.last())
    }
}

/// Extending a prefix of `s` by one element extends its sum and product
/// by that element.
pub proof fn lemma_fold_take_step(s: Seq<i64>, i: int)
    requires
        0 <= i < s.len(),
    ensures
        sum_of(s.take(i + 1)) == sum_of(s.take(i)) + s[i],
        prod_of(s.take(i + 1)) == prod_of(s.take(i)) * s[i],
{
    assert(s.take(i + 1).drop_last() =~= s.take(i));
    assert(s.take(i + 1).last() == s[i]);
}

/// Extending a prefix of a batch by one matrix extends the totals by
/// that matrix's own sum and product.
pub proof fn lemma_total_take_step(ms: Seq<Seq<i64>>, j: int)
    requires
        0 <= j < ms.len(),
    ensures
        total_sum(ms.take(j + 1)) == total_sum(ms.take(j)) + sum_of(ms[j]),
        total_prod(ms.take(j + 1)) == total_prod(ms.take(j)) * prod_of(ms[j]),
{
    assert(ms.take(j + 1).drop_last() =~= ms.take(j));
    assert(ms.take(j + 1).last() == ms[j]);
}

/// A batch of empty matrices reduces to the identities alone.
pub proof fn lemma_total_all_empty(ms: Seq<Seq<i64>>)
    requires
        forall|j: int| 0 <= j < ms.len() ==> #[trigger] ms[j].len() == 0,
    ensures
        total_sum(ms) == 0,
        total_prod(ms) == 1,
    decreases ms.len(),
{
    if ms.len() > 0 {
        assert(forall|j: int|
            0 <= j < ms.drop_last().len() ==> #[trigger] ms.drop_last()[j].len() == 0);
        lemma_total_all_empty(ms.drop_last());
        assert(ms.last().len() == 0);
    }
}

/// An empty matrix anywhere in a batch leaves the batch's sum and
/// product unchanged: removing it removes nothing from the totals.
pub proof fn lemma_skip_empty_matrix(ms: Seq<Seq<i64>>, i: int)
    requires
        0 <= i < ms.len(),
        ms[i].len() == 0,
    ensures
        total_sum(ms) == total_sum(ms.remove(i)),
        total_prod(ms) == total_prod(ms.remove(i)),
    decreases ms.len(),
{
    if i == ms.len() - 1 {
        assert(ms.remove(i) =~= ms.drop_last());
        assert(ms.last().len() == 0);
    } else {
        lemma_skip_empty_matrix(ms.drop_last(), i);
        assert(ms.remove(i).drop_last() =~= ms.drop_last().remove(i));
        assert(ms.remove(i).last() == ms.last());
    }
}

} // verus!
