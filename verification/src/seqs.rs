//! First failures in a sequence of checks.
use vstd::prelude::*;

verus! {

/// The first failure among `checks`, read from the left.
pub open spec fn first_some<E>(checks: Seq<Option<E>>) -> Option<E>
    decreases checks.len(),
{
    if checks.len() == 0 {
        None
    } else {
        match first_some(checks.drop_last()) {
            Some(e) => Some(e),
            None => checks.last(),
        }
    }
}

/// A sequence without failures has no first failure.
pub proof fn lemma_first_some_none<E>(checks: Seq<Option<E>>)
    requires
        forall|j: int| 0 <= j < checks.len() ==> checks[j] is None,
    ensures
        first_some(checks) is None,
    decreases checks.len(),
{
    if checks.len() > 0 {
        lemma_first_some_none(checks.drop_last());
    }
}

/// The failure at `i` is the first one when nothing before it fails.
pub proof fn lemma_first_some_at<E>(checks: Seq<Option<E>>, i: int)
    requires
        0 <= i < checks.len(),
        forall|j: int| 0 <= j < i ==> checks[j] is None,
        checks[i] is Some,
    ensures
        first_some(checks) == checks[i],
    decreases checks.len(),
{
    if i == checks.len() - 1 {
        lemma_first_some_none(checks.drop_last());
    } else {
        lemma_first_some_at(checks.drop_last(), i);
    }
}

/// Where there is no first failure, no check fails.
pub proof fn lemma_first_some_all<E>(checks: Seq<Option<E>>)
    requires
        first_some(checks) is None,
    ensures
        forall|j: int| 0 <= j < checks.len() ==> checks[j] is None,
    decreases checks.len(),
{
    if checks.len() > 0 {
        lemma_first_some_all(checks.drop_last());
        assert forall|j: int| 0 <= j < checks.len() implies checks[j] is None by {
            if j < checks.len() - 1 {
                assert(checks.drop_last()[j] is None);
            }
        }
    }
}

/// All results in order, or the first error.
pub open spec fn collect<T, E>(results: Seq<Result<T, E>>) -> Result<Seq<T>, E>
    decreases results.len(),
{
    if results.len() == 0 {
        Ok(Seq::empty())
    } else {
        match collect(results.drop_last()) {
            Err(e) => Err(e),
            Ok(items) => match results.last() {
                Err(e) => Err(e),
                Ok(item) => Ok(items.push(item)),
            },
        }
    }
}

/// An error within a prefix is the error of the whole.
pub proof fn lemma_collect_error<T, E>(results: Seq<Result<T, E>>, n: int)
    requires
        0 <= n <= results.len(),
        collect(results.take(n)) is Err,
    ensures
        collect(results) == collect(results.take(n)),
    decreases results.len() - n,
{
    if n < results.len() {
        assert(results.take(n + 1).drop_last() =~= results.take(n));
        lemma_collect_error(results, n + 1);
    } else {
        assert(results.take(n) =~= results);
    }
}

/// One more result.
pub proof fn lemma_collect_step<T, E>(results: Seq<Result<T, E>>, n: int)
    requires
        0 <= n < results.len(),
    ensures
        collect(results.take(n + 1)) == match collect(results.take(n)) {
            Err(e) => Err::<Seq<T>, E>(e),
            Ok(items) => match results[n] {
                Err(e) => Err(e),
                Ok(item) => Ok(items.push(item)),
            },
        },
{
    assert(results.take(n + 1).drop_last() =~= results.take(n));
}

/// Results that are all there are collected one by one.
pub proof fn lemma_collect_ok<T, E>(results: Seq<Result<T, E>>)
    ensures
        collect(results) is Ok <==> (forall|i: int|
            0 <= i < results.len() ==> (#[trigger] results[i]) is Ok),
        collect(results) is Ok ==> collect(results)->Ok_0.len() == results.len() && (forall|i: int|
            0 <= i < results.len() ==> #[trigger] results[i] == Ok::<T, E>(
                collect(results)->Ok_0[i],
            )),
    decreases results.len(),
{
    if results.len() > 0 {
        let rest = results.drop_last();
        lemma_collect_ok(rest);
        if collect(results) is Ok {
            assert forall|i: int| 0 <= i < results.len() implies #[trigger] results[i] == Ok::<
                T,
                E,
            >(collect(results)->Ok_0[i]) by {
                if i < rest.len() {
                    assert(rest[i] == results[i]);
                }
            }
        } else if forall|i: int| 0 <= i < results.len() ==> (#[trigger] results[i]) is Ok {
            assert forall|i: int| 0 <= i < rest.len() implies (#[trigger] rest[i]) is Ok by {
                assert(results[i] is Ok);
            }
            assert(results[results.len() - 1] is Ok);
        }
    }
}

/// Results that hold the given items collect to those items.
pub proof fn lemma_collect_all<T, E>(results: Seq<Result<T, E>>, items: Seq<T>)
    requires
        results.len() == items.len(),
        forall|i: int| 0 <= i < results.len() ==> #[trigger] results[i] == Ok::<T, E>(items[i]),
    ensures
        collect(results) == Ok::<Seq<T>, E>(items),
    decreases results.len(),
{
    if results.len() > 0 {
        let rest = results.drop_last();
        assert forall|i: int| 0 <= i < rest.len() implies #[trigger] rest[i] == Ok::<T, E>(
            items.drop_last()[i],
        ) by {
            assert(results[i] == Ok::<T, E>(items[i]));
        }
        lemma_collect_all(rest, items.drop_last());
        assert(results[results.len() - 1] == Ok::<T, E>(items[items.len() - 1]));
        assert(items.drop_last().push(items.last()) =~= items);
    } else {
        assert(items =~= Seq::empty());
    }
}

} // verus!
