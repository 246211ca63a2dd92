//! Facts about runs that hold for every producer, every set of filters and
//! every set of consumers.
//!
//! Each is stated over the model of a run in [`crate::flow`], which is what
//! the contract of [`crate::flow::drive`] ties the executable loop to.

use crate::filter::{always_drops, always_keeps, survives, survivors, Filter};
use crate::flow::{aborted, advanced, completed, may_abort, ran, Flow};
use crate::sink::{accepted, items_of, Delivery};
use vstd::prelude::*;

verus! {

/// Filtering by a whole sequence of filters is filtering by each item's
/// verdict under [`survives`]; an item survives `filters + more` exactly when
/// it survives both parts.
pub proof fn lemma_survives_both<T, F: Filter<T>>(filters: Seq<F>, more: Seq<F>, item: T)
    ensures
        survives(filters + more, item) == (survives(filters, item) && survives(more, item)),
{
    let all = filters + more;
    if survives(all, item) {
        assert forall|i: int| 0 <= i < filters.len() implies (#[trigger] filters[i]).keeps(
            &item,
        ) by {
            assert(all[i] == filters[i]);
        }
        assert forall|i: int| 0 <= i < more.len() implies (#[trigger] more[i]).keeps(&item) by {
            assert(all[filters.len() + i] == more[i]);
        }
    }
    if survives(filters, item) && survives(more, item) {
        assert forall|i: int| 0 <= i < all.len() implies (#[trigger] all[i]).keeps(&item) by {
            if i < filters.len() {
                assert(all[i] == filters[i]);
            } else {
                assert(all[i] == more[i - filters.len()]);
            }
        }
    }
}

/// When every filter keeps every item, every pending item survives.
pub proof fn lemma_all_keep_survivors<T, F: Filter<T>>(filters: Seq<F>, items: Seq<T>)
    requires
        forall|i: int| 0 <= i < filters.len() ==> always_keeps::<T, F>(#[trigger] filters[i]),
    ensures
        survivors(filters, items) == items,
    decreases items.len(),
{
    let keep = |item: T| survives(filters, item);
    if items.len() == 0 {
        reveal(Seq::filter);
        assert(items.filter(keep) =~= items);
    } else {
        let init = items.drop_last();
        lemma_all_keep_survivors(filters, init);
        assert(items =~= init.push(items.last()));
        init.lemma_filter_push(items.last(), keep);
        assert(keep(items.last()));
    }
}

/// When one filter drops every item, no pending item survives.
pub proof fn lemma_one_drop_no_survivors<T, F: Filter<T>>(filters: Seq<F>, items: Seq<T>)
    requires
        exists|i: int| 0 <= i < filters.len() && always_drops::<T, F>(#[trigger] filters[i]),
    ensures
        survivors(filters, items) == Seq::<T>::empty(),
    decreases items.len(),
{
    let keep = |item: T| survives(filters, item);
    if items.len() == 0 {
        reveal(Seq::filter);
        assert(items.filter(keep) =~= Seq::<T>::empty());
    } else {
        let init = items.drop_last();
        lemma_one_drop_no_survivors(filters, init);
        assert(items =~= init.push(items.last()));
        init.lemma_filter_push(items.last(), keep);
        let dropping = choose|i: int|
            0 <= i < filters.len() && always_drops::<T, F>(#[trigger] filters[i]);
        assert(!filters[dropping].keeps(&items.last()));
        assert(!keep(items.last()));
    }
}

/// Two sets of filters that agree on every item leave the same survivors.
pub proof fn lemma_same_verdicts_same_survivors<T, F: Filter<T>, G: Filter<T>>(
    one: Seq<F>,
    other: Seq<G>,
    items: Seq<T>,
)
    requires
        forall|item: T| survives(one, item) == survives(other, item),
    ensures
        survivors(one, items) == survivors(other, items),
{
    let keep_one = |item: T| survives(one, item);
    let keep_other = |item: T| survives(other, item);
    assert(keep_one =~= keep_other);
}

/// Keep-all delivers all. When every filter keeps every item, a run that
/// succeeds has handed each consumer every item of the producer: in the
/// order in which the producer yields them, each exactly once, behind
/// whatever the consumer had been handed before, and each was accepted.
pub proof fn law_keep_all_delivers_all<T, E, F: Filter<T>>(
    filters: Seq<F>,
    start: Flow<T, E>,
    end: Flow<T, E>,
)
    requires
        forall|i: int| 0 <= i < filters.len() ==> always_keeps::<T, F>(#[trigger] filters[i]),
        ran(filters, start, end, Ok(())),
    ensures
        survivors(filters, start.pending) == start.pending,
        end.pending == Seq::<T>::empty(),
        end.delivered.len() == start.delivered.len(),
        forall|j: int|
            0 <= j < start.delivered.len() ==> {
                &&& (#[trigger] end.delivered[j]) == start.delivered[j] + accepted(start.pending)
                &&& items_of(end.delivered[j]) == items_of(start.delivered[j]) + start.pending
            },
{
    lemma_all_keep_survivors(filters, start.pending);
    assert(start.pending.take(start.pending.len() as int) =~= start.pending);
    assert(end.pending =~= Seq::<T>::empty());
    assert forall|j: int| 0 <= j < start.delivered.len() implies items_of(
        #[trigger] end.delivered[j],
    ) == items_of(start.delivered[j]) + start.pending by {
        assert(items_of(start.delivered[j] + accepted::<T, E>(start.pending)) =~= items_of(
            start.delivered[j],
        ) + start.pending);
    }
}

/// One drop-all delivers nothing. When one of the filters drops every item,
/// no item reaches any consumer, and the run cannot fail: it ends with the
/// producer exhausted and every consumer's history as it was.
pub proof fn law_drop_all_delivers_nothing<T, E, F: Filter<T>>(filters: Seq<F>, start: Flow<T, E>)
    requires
        exists|i: int| 0 <= i < filters.len() && always_drops::<T, F>(#[trigger] filters[i]),
    ensures
        survivors(filters, start.pending) == Seq::<T>::empty(),
        forall|pulled: int, failing: int| !may_abort(filters, start, pulled, failing),
        forall|end: Flow<T, E>, outcome: Result<(), E>| #[trigger]
            ran(filters, start, end, outcome) ==> {
                &&& outcome is Ok
                &&& end.pending == Seq::<T>::empty()
                &&& end.delivered == start.delivered
            },
{
    lemma_one_drop_no_survivors(filters, start.pending);
    assert(start.pending.take(start.pending.len() as int) =~= start.pending);
    assert(completed(filters, start).pending =~= Seq::<T>::empty());
    assert(completed(filters, start).delivered =~~= start.delivered);
    let dropping = choose|i: int|
        0 <= i < filters.len() && always_drops::<T, F>(#[trigger] filters[i]);
    assert forall|pulled: int, failing: int| !may_abort(filters, start, pulled, failing) by {
        if 1 <= pulled <= start.pending.len() {
            assert(!filters[dropping].keeps(&start.pending[pulled - 1]));
        }
    }
}

/// A run depends on its filters only through their joint verdict. Two sets
/// of filters that agree on every item give the same run from the same
/// start: the same end when no consumer fails, the same possible failures,
/// and the same end after each of them.
pub proof fn law_same_verdicts_same_run<T, E, F: Filter<T>, G: Filter<T>>(
    one: Seq<F>,
    other: Seq<G>,
    start: Flow<T, E>,
)
    requires
        forall|item: T| survives(one, item) == survives(other, item),
    ensures
        completed(one, start) == completed(other, start),
        forall|pulled: int, failing: int|
            may_abort(one, start, pulled, failing) == may_abort(other, start, pulled, failing),
        forall|pulled: int, failing: int, failure: E|
            #[trigger] aborted(one, start, pulled, failing, failure) == aborted(
                other,
                start,
                pulled,
                failing,
                failure,
            ),
        forall|end: Flow<T, E>, outcome: Result<(), E>|
            #[trigger] ran(one, start, end, outcome) == ran(other, start, end, outcome),
{
    assert forall|pulled: int| #[trigger]
        advanced(one, start, pulled) == advanced(other, start, pulled) by {
        lemma_same_verdicts_same_survivors(one, other, start.pending.take(pulled));
        assert(advanced(one, start, pulled) =~~= advanced(other, start, pulled));
    }
    assert forall|pulled: int, failing: int, failure: E| #[trigger]
        aborted(one, start, pulled, failing, failure) == aborted(
            other,
            start,
            pulled,
            failing,
            failure,
        ) by {
        assert(advanced(one, start, pulled - 1) == advanced(other, start, pulled - 1));
    }
    assert forall|end: Flow<T, E>, outcome: Result<(), E>| #[trigger]
        ran(one, start, end, outcome) == ran(other, start, end, outcome) by {
        if let Err(failure) = outcome {
            if ran(one, start, end, outcome) {
                let (pulled, failing) = choose|pulled: int, failing: int|
                    may_abort(one, start, pulled, failing) && end == #[trigger] aborted(
                        one,
                        start,
                        pulled,
                        failing,
                        failure,
                    );
                assert(may_abort(other, start, pulled, failing));
                assert(end == aborted(other, start, pulled, failing, failure));
            }
            if ran(other, start, end, outcome) {
                let (pulled, failing) = choose|pulled: int, failing: int|
                    may_abort(other, start, pulled, failing) && end == #[trigger] aborted(
                        other,
                        start,
                        pulled,
                        failing,
                        failure,
                    );
                assert(may_abort(one, start, pulled, failing));
                assert(end == aborted(one, start, pulled, failing, failure));
            }
        }
    }
}

/// No filter is keep-all. A pipeline without filters runs exactly as one
/// whose only filter keeps every item.
pub proof fn law_no_filter_is_keep_all<T, E, F: Filter<T>, G: Filter<T>>(
    keeper: G,
    start: Flow<T, E>,
)
    requires
        always_keeps::<T, G>(keeper),
    ensures
        forall|item: T| survives(Seq::<F>::empty(), item) && survives(seq![keeper], item),
        survivors(Seq::<F>::empty(), start.pending) == survivors(seq![keeper], start.pending),
        completed(Seq::<F>::empty(), start) == completed(seq![keeper], start),
        forall|pulled: int, failing: int|
            may_abort(Seq::<F>::empty(), start, pulled, failing) == may_abort(
                seq![keeper],
                start,
                pulled,
                failing,
            ),
        forall|pulled: int, failing: int, failure: E|
            #[trigger] aborted(Seq::<F>::empty(), start, pulled, failing, failure) == aborted(
                seq![keeper],
                start,
                pulled,
                failing,
                failure,
            ),
        forall|end: Flow<T, E>, outcome: Result<(), E>|
            #[trigger] ran(Seq::<F>::empty(), start, end, outcome) == ran(
                seq![keeper],
                start,
                end,
                outcome,
            ),
{
    assert forall|item: T| survives(Seq::<F>::empty(), item) && survives(seq![keeper], item) by {
        assert forall|i: int| 0 <= i < seq![keeper].len() implies (#[trigger] seq![keeper][i]).keeps(
            &item,
        ) by {
            assert(keeper.keeps(&item));
        }
    }
    lemma_same_verdicts_same_survivors(Seq::<F>::empty(), seq![keeper], start.pending);
    law_same_verdicts_same_run(Seq::<F>::empty(), seq![keeper], start);
}

/// More filters narrow. Adding filters behind those already there never lets
/// an item through that was dropped before: the survivors of the longer
/// sequence are the survivors of the added filters among the survivors of the
/// shorter one, so they are at most as many and all of them survived before.
pub proof fn law_more_filters_narrow<T, F: Filter<T>>(filters: Seq<F>, more: Seq<F>, items: Seq<T>)
    ensures
        forall|item: T| survives(filters + more, item) ==> survives(filters, item),
        survivors(filters + more, items) == survivors(more, survivors(filters, items)),
        survivors(filters + more, items).len() <= survivors(filters, items).len(),
        forall|k: int|
            0 <= k < survivors(filters + more, items).len() ==> survivors(filters, items).contains(
                #[trigger] survivors(filters + more, items)[k],
            ),
    decreases items.len(),
{
    let keep_all = |item: T| survives(filters + more, item);
    let keep_first = |item: T| survives(filters, item);
    let keep_more = |item: T| survives(more, item);
    assert forall|item: T| survives(filters + more, item) implies survives(filters, item) by {
        lemma_survives_both(filters, more, item);
    }
    if items.len() == 0 {
        reveal(Seq::filter);
        assert(items.filter(keep_all) =~= Seq::<T>::empty());
        assert(items.filter(keep_first) =~= Seq::<T>::empty());
        assert(Seq::<T>::empty().filter(keep_more) =~= Seq::<T>::empty());
    } else {
        let init = items.drop_last();
        let last = items.last();
        law_more_filters_narrow(filters, more, init);
        assert(items =~= init.push(last));
        init.lemma_filter_push(last, keep_all);
        init.lemma_filter_push(last, keep_first);
        lemma_survives_both(filters, more, last);
        if survives(filters, last) {
            survivors(filters, init).lemma_filter_push(last, keep_more);
        }
    }
    survivors(filters, items).lemma_filter_len(keep_more);
    assert forall|k: int|
        0 <= k < survivors(filters + more, items).len() implies survivors(filters, items).contains(
        #[trigger] survivors(filters + more, items)[k],
    ) by {
        let narrowed = survivors(filters + more, items);
        items.lemma_filter_pred(keep_all, k);
        assert(items.filter(keep_all).contains(narrowed[k]));
        assert(items.contains(narrowed[k])) by {
            items.lemma_filter_contains_rev(keep_all, narrowed[k]);
        }
        let at = choose|at: int| 0 <= at < items.len() && items[at] == narrowed[k];
        assert(keep_first(items[at]));
        items.lemma_filter_contains(keep_first, at);
    }
}

/// What it means that a run from `start` stopped in `end` when the consumer
/// with index `failing` reported `failure` on the `pulled`-th item.
pub open spec fn stopped_at<T, E, F: Filter<T>>(
    filters: Seq<F>,
    start: Flow<T, E>,
    end: Flow<T, E>,
    failure: E,
    pulled: int,
    failing: int,
) -> bool {
    let item = start.pending[pulled - 1];
    let before = advanced(filters, start, pulled - 1);
    &&& 1 <= pulled <= start.pending.len()
    &&& 0 <= failing < start.delivered.len()
    &&& end.delivered.len() == start.delivered.len()
    // Up to the failing item the run went as a run without failures.
    &&& forall|j: int|
        0 <= j <= failing ==> (#[trigger] end.delivered[j]).drop_last() == before.delivered[j]
    // The consumers before the failing one accepted the item.
    &&& forall|j: int|
        0 <= j < failing ==> (#[trigger] end.delivered[j]).last() == (Delivery::<T, E> {
            item,
            outcome: Ok(()),
        })
    // The failing consumer was handed the item and reported the failure.
    &&& end.delivered[failing].last() == (Delivery { item, outcome: Err(failure) })
    // The consumers behind it were not called for the item, nor since.
    &&& forall|j: int|
        failing < j < start.delivered.len() ==> {
            &&& (#[trigger] end.delivered[j]) == before.delivered[j]
            &&& end.delivered[j].is_prefix_of(completed(filters, start).delivered[j])
        }
    // Every item behind the failing one is still with the producer.
    &&& end.pending == start.pending.subrange(pulled, start.pending.len() as int)
}

/// A failure stops the run. A run that ends in a failure ended at the call
/// that reported it: the consumers before the failing one have accepted the
/// item, the failing one has been handed it and has reported this failure,
/// the consumers behind the failing one have not been called for the item,
/// and every item behind it is still with the producer.
pub proof fn law_failure_stops_the_run<T, E, F: Filter<T>>(
    filters: Seq<F>,
    start: Flow<T, E>,
    end: Flow<T, E>,
    failure: E,
)
    requires
        ran(filters, start, end, Err(failure)),
    ensures
        exists|pulled: int, failing: int| #[trigger]
            stopped_at(filters, start, end, failure, pulled, failing),
{
    let (pulled, failing) = choose|pulled: int, failing: int|
        may_abort(filters, start, pulled, failing) && end == #[trigger] aborted(
            filters,
            start,
            pulled,
            failing,
            failure,
        );
    let keep = |item: T| survives(filters, item);
    let item = start.pending[pulled - 1];
    let before = advanced(filters, start, pulled - 1);
    let earlier = start.pending.take(pulled - 1);
    let later = start.pending.skip(pulled - 1);
    assert forall|j: int| 0 <= j <= failing implies (#[trigger] end.delivered[j]).drop_last()
        == before.delivered[j] by {
        if j < failing {
            assert(before.delivered[j].push(Delivery { item, outcome: Ok(()) }).drop_last()
                =~= before.delivered[j]);
        } else {
            assert(before.delivered[j].push(Delivery { item, outcome: Err(failure) }).drop_last()
                =~= before.delivered[j]);
        }
    }
    assert(start.pending.take(start.pending.len() as int) =~= start.pending);
    assert(start.pending =~= earlier + later);
    Seq::filter_distributes_over_add(earlier, later, keep);
    assert forall|j: int| failing < j < start.delivered.len() implies (#[trigger] end.delivered[j])
        == before.delivered[j] && end.delivered[j].is_prefix_of(
        completed(filters, start).delivered[j],
    ) by {
        let whole = completed(filters, start).delivered[j];
        let part = end.delivered[j];
        assert(accepted::<T, E>(earlier.filter(keep) + later.filter(keep)) =~= accepted::<T, E>(
            earlier.filter(keep),
        ) + accepted::<T, E>(later.filter(keep)));
        assert(whole =~= part + accepted::<T, E>(later.filter(keep)));
        assert(part =~= whole.subrange(0, part.len() as int));
    }
    assert(stopped_at(filters, start, end, failure, pulled, failing));
}

} // verus!
