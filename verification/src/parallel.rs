//! Work that is handed out to several threads, and put together in the order of
//! the input.

use vstd::prelude::*;
use rayon::iter::IntoParallelIterator;
use rayon::iter::ParallelIterator;
use crate::error::{Error, ErrorView};

verus! {

/// The results of `f` on the indices below `n`, in the order of the indices.
///
/// The calls are made by rayon, on its thread pool: `into_par_iter` on the range,
/// `map` with `f`, and `collect` into a vector, which keeps the order of the range.
/// Each item of the result is what one call of `f` on its index returned.
#[verifier::external_body]
pub(crate) fn par_map_index<R: Send, F: Fn(usize) -> R + Sync + Send>(n: usize, f: F) -> (r: Vec<R>)
    requires
        forall|i: usize| i < n ==> call_requires(f, (i,)),
    ensures
        r@.len() == n,
        forall|i: usize| i < n ==> call_ensures(f, (i,), #[trigger] r@[i as int]),
{
    (0..n).into_par_iter().map(f).collect()
}

/// The first error among the outcomes, in their order.
pub open spec fn first_error<T>(items: Seq<Result<T, ErrorView>>) -> Option<ErrorView>
    decreases items.len(),
{
    if items.len() == 0 {
        None
    } else {
        match first_error(items.drop_last()) {
            Some(e) => Some(e),
            None => match items.last() {
                Err(e) => Some(e),
                Ok(_) => None,
            },
        }
    }
}

/// The values of the outcomes, where all of them are values.
pub open spec fn values<T>(items: Seq<Result<T, ErrorView>>) -> Seq<T> {
    Seq::new(items.len(), |i: int| items[i]->Ok_0)
}

/// The outcomes as one: their values if all are values, else the first error.
pub open spec fn all_or_first_error<T>(items: Seq<Result<T, ErrorView>>) -> Result<
    Seq<T>,
    ErrorView,
> {
    match first_error(items) {
        Some(e) => Err(e),
        None => Ok(values(items)),
    }
}

/// Where no outcome is an error, every outcome is a value.
pub proof fn lemma_no_error_all_values<T>(items: Seq<Result<T, ErrorView>>)
    requires
        first_error(items) is None,
    ensures
        forall|i: int| 0 <= i < items.len() ==> (#[trigger] items[i]) is Ok,
    decreases items.len(),
{
    if items.len() > 0 {
        lemma_no_error_all_values(items.drop_last());
        assert forall|i: int| 0 <= i < items.len() implies (#[trigger] items[i]) is Ok by {
            if i < items.len() - 1 {
                assert(items.drop_last()[i] == items[i]);
            }
        }
    }
}

/// The first error of a longer sequence is the first error of its beginning, if
/// the beginning has one.
pub proof fn lemma_first_error_prefix<T>(items: Seq<Result<T, ErrorView>>, n: int)
    requires
        0 <= n <= items.len(),
        first_error(items.take(n)) is Some,
    ensures
        first_error(items) == first_error(items.take(n)),
    decreases items.len(),
{
    if n < items.len() {
        assert(items.drop_last().take(n) =~= items.take(n));
        lemma_first_error_prefix(items.drop_last(), n);
    } else {
        assert(items.take(n) =~= items);
    }
}

/// The first error is the first outcome that is an error.
pub proof fn lemma_first_error_at<T>(items: Seq<Result<T, ErrorView>>, k: int)
    requires
        0 <= k < items.len(),
        items[k] is Err,
        forall|i: int| 0 <= i < k ==> (#[trigger] items[i]) is Ok,
    ensures
        first_error(items) == Some(items[k]->Err_0),
    decreases items.len(),
{
    if k < items.len() - 1 {
        let front = items.drop_last();
        assert(front[k] == items[k]);
        assert forall|i: int| 0 <= i < k implies (#[trigger] front[i]) is Ok by {
            assert(front[i] == items[i]);
        }
        lemma_first_error_at(front, k);
    } else {
        let front = items.drop_last();
        assert forall|i: int| 0 <= i < front.len() implies (#[trigger] front[i]) is Ok by {
            assert(front[i] == items[i]);
        }
        lemma_all_values_no_error(front);
    }
}

/// Where every outcome is a value, there is no first error.
pub proof fn lemma_all_values_no_error<T>(items: Seq<Result<T, ErrorView>>)
    requires
        forall|i: int| 0 <= i < items.len() ==> (#[trigger] items[i]) is Ok,
    ensures
        first_error(items) is None,
    decreases items.len(),
{
    if items.len() > 0 {
        let front = items.drop_last();
        assert forall|i: int| 0 <= i < front.len() implies (#[trigger] front[i]) is Ok by {
            assert(front[i] == items[i]);
        }
        lemma_all_values_no_error(front);
        assert(items.last() == items[items.len() - 1]);
    }
}

/// The view of a result of the library, its value seen through `view`.
pub open spec fn outcome_with<T, V>(r: Result<T, Error>, view: spec_fn(T) -> V) -> Result<
    V,
    ErrorView,
> {
    match r {
        Ok(v) => Ok(view(v)),
        Err(e) => Err(e@),
    }
}

/// Puts the results together: all the values in their order, or the first error.
pub fn collect_results<T>(results: Vec<Result<T, Error>>) -> (r: Result<Vec<T>, Error>)
    ensures
        match r {
            Ok(items) => {
                &&& items@.len() == results@.len()
                &&& forall|i: int|
                    0 <= i < results@.len() ==> (#[trigger] results@[i]) == Ok::<T, Error>(
                        items@[i],
                    )
            },
            Err(e) => exists|k: int|
                {
                    &&& 0 <= k < results@.len()
                    &&& (#[trigger] results@[k]) == Err::<T, Error>(e)
                    &&& forall|i: int| 0 <= i < k ==> (#[trigger] results@[i]) is Ok
                },
        },
{
    let mut items: Vec<T> = Vec::new();
    let ghost all = results@;
    for item in it: results
        invariant
            it.seq() == all,
            items@.len() == it.index(),
            forall|j: int| 0 <= j < it.index() ==> (#[trigger] all[j]) == Ok::<T, Error>(items@[j]),
    {
        match item {
            Ok(v) => {
                items.push(v);
            },
            Err(e) => {
                assert(all[it.index() as int] == Err::<T, Error>(e));
                return Err(e);
            },
        }
    }
    Ok(items)
}

} // verus!
