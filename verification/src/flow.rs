//! The run loop, and the model of what a run does.
//!
//! A run pulls items from the producer one at a time. Each item passes the
//! filters in order; an item that every filter keeps is handed to every
//! consumer in order. The run ends when the producer is exhausted, or at the
//! first consumer that fails.

use crate::filter::{survives, survivors, Filter};
use crate::sink::{accepted, records, Delivery, Sink};
use crate::source::Source;
use vstd::prelude::*;

verus! {

/// How far a run has come: what the producer still holds, and what each
/// consumer has been handed.
#[verifier::ext_equal]
pub struct Flow<T, E> {
    /// The items not yet pulled from the producer, in yield order.
    pub pending: Seq<T>,
    /// For each consumer, in consumer order, the calls made on it so far.
    pub delivered: Seq<Seq<Delivery<T, E>>>,
}

/// The state of a run over `source` and `sinks`: what the producer still
/// holds and what the consumers have been handed.
pub open spec fn state<T, S: Source<T>, K: Sink<T>>(source: S, sinks: Seq<K>) -> Flow<
    T,
    K::Error,
> {
    Flow { pending: source.pending(), delivered: records(sinks) }
}

/// The histories `delivered` after the first `count` consumers have each been
/// handed `item` and have accepted it, the others not having been called.
pub open spec fn handed<T, E>(delivered: Seq<Seq<Delivery<T, E>>>, item: T, count: int) -> Seq<
    Seq<Delivery<T, E>>,
> {
    Seq::new(
        delivered.len(),
        |j: int|
            if j < count {
                delivered[j].push(Delivery { item, outcome: Ok(()) })
            } else {
                delivered[j]
            },
    )
}

/// The histories `delivered` after the consumers before `failing` have
/// accepted `item`, the consumer `failing` has been handed it and has
/// reported `failure`, and the consumers behind it have not been called.
pub open spec fn refused<T, E>(
    delivered: Seq<Seq<Delivery<T, E>>>,
    item: T,
    failing: int,
    failure: E,
) -> Seq<Seq<Delivery<T, E>>> {
    Seq::new(
        delivered.len(),
        |j: int|
            if j < failing {
                delivered[j].push(Delivery { item, outcome: Ok(()) })
            } else if j == failing {
                delivered[j].push(Delivery { item, outcome: Err(failure) })
            } else {
                delivered[j]
            },
    )
}

/// The state reached from `start` once the first `pulled` pending items have
/// gone through the pipeline and no consumer has failed: they have left the
/// producer, and every consumer has accepted those among them that pass the
/// filters, in yield order.
pub open spec fn advanced<T, E, F: Filter<T>>(
    filters: Seq<F>,
    start: Flow<T, E>,
    pulled: int,
) -> Flow<T, E> {
    Flow {
        pending: start.pending.skip(pulled),
        delivered: Seq::new(
            start.delivered.len(),
            |j: int| start.delivered[j] + accepted(survivors(filters, start.pending.take(pulled))),
        ),
    }
}

/// The state in which a run from `start` ends when no consumer fails: the
/// producer is exhausted and every consumer has accepted every surviving
/// item.
pub open spec fn completed<T, E, F: Filter<T>>(filters: Seq<F>, start: Flow<T, E>) -> Flow<T, E> {
    advanced(filters, start, start.pending.len() as int)
}

/// Whether a run from `start` can end in a failure on the `pulled`-th item
/// it pulls (counting from one) at the consumer with index `failing`: there
/// is such an item, it passes the filters, and there is such a consumer.
pub open spec fn may_abort<T, E, F: Filter<T>>(
    filters: Seq<F>,
    start: Flow<T, E>,
    pulled: int,
    failing: int,
) -> bool {
    &&& 1 <= pulled <= start.pending.len()
    &&& survives(filters, start.pending[pulled - 1])
    &&& 0 <= failing < start.delivered.len()
}

/// The state in which a run from `start` ends when the consumer with index
/// `failing` reports `failure` on the `pulled`-th item: the items before it
/// went through as in a run without failures, the item itself was accepted
/// by the consumers before the failing one and handed to no consumer behind
/// it, and nothing behind the item was pulled.
pub open spec fn aborted<T, E, F: Filter<T>>(
    filters: Seq<F>,
    start: Flow<T, E>,
    pulled: int,
    failing: int,
    failure: E,
) -> Flow<T, E> {
    Flow {
        pending: start.pending.skip(pulled),
        delivered: refused(
            advanced(filters, start, pulled - 1).delivered,
            start.pending[pulled - 1],
            failing,
            failure,
        ),
    }
}

/// Whether a run from `start` can end in the state `end` with `outcome`:
/// on success `end` is the state of a completed run; a failure is the one
/// that some consumer reported on some surviving item, and `end` is the
/// state in which that call left the run.
pub open spec fn ran<T, E, F: Filter<T>>(
    filters: Seq<F>,
    start: Flow<T, E>,
    end: Flow<T, E>,
    outcome: Result<(), E>,
) -> bool {
    match outcome {
        Ok(_) => end == completed(filters, start),
        Err(failure) => exists|pulled: int, failing: int|
            may_abort(filters, start, pulled, failing) && end == #[trigger] aborted(
                filters,
                start,
                pulled,
                failing,
                failure,
            ),
    }
}

/// The filter stage: asks each filter in order and stops at the first that
/// drops the item.
pub fn admits<T, F: Filter<T>>(filters: &Vec<F>, item: &T) -> (kept: bool)
    ensures
        kept == survives(filters@, *item),
{
    let mut i: usize = 0;
    while i < filters.len()
        invariant
            i <= filters@.len(),
            forall|k: int| 0 <= k < i ==> (#[trigger] filters@[k]).keeps(item),
        decreases filters@.len() - i,
    {
        if !filters[i].filter(item) {
            return false;
        }
        i = i + 1;
    }
    true
}

/// The persist stage: hands `item` to each consumer in order and stops at the
/// first that fails, whose failure it returns unchanged. The consumers
/// behind the failing one are not called.
pub fn persist<T, K: Sink<T>>(sinks: &mut Vec<K>, item: &T) -> (outcome: Result<(), K::Error>)
    ensures
        final(sinks)@.len() == old(sinks)@.len(),
        match outcome {
            Ok(_) => records(final(sinks)@) == handed(
                records(old(sinks)@),
                *item,
                old(sinks)@.len() as int,
            ),
            Err(failure) => exists|failing: int|
                0 <= failing < old(sinks)@.len() && records(final(sinks)@) == #[trigger] refused(
                    records(old(sinks)@),
                    *item,
                    failing,
                    failure,
                ),
        },
{
    let mut j: usize = 0;
    while j < sinks.len()
        invariant
            j <= sinks@.len(),
            sinks@.len() == old(sinks)@.len(),
            records(sinks@) == handed(records(old(sinks)@), *item, j as int),
        decreases sinks@.len() - j,
    {
        let ghost before = sinks@;
        match sinks[j].save(item) {
            Ok(done) => {
                proof {
                    assert(done == ());
                    assert forall|k: int| 0 <= k < sinks@.len() implies #[trigger] records(
                        sinks@,
                    )[k] == handed(records(old(sinks)@), *item, j + 1)[k] by {
                        assert(records(before)[k] == handed(
                            records(old(sinks)@),
                            *item,
                            j as int,
                        )[k]);
                    }
                    assert(records(sinks@) =~= handed(records(old(sinks)@), *item, j + 1));
                }
            },
            Err(failure) => {
                proof {
                    assert forall|k: int| 0 <= k < sinks@.len() implies #[trigger] records(
                        sinks@,
                    )[k] == refused(records(old(sinks)@), *item, j as int, failure)[k] by {
                        assert(records(before)[k] == handed(
                            records(old(sinks)@),
                            *item,
                            j as int,
                        )[k]);
                    }
                    assert(records(sinks@) =~= refused(
                        records(old(sinks)@),
                        *item,
                        j as int,
                        failure,
                    ));
                }
                return Err(failure);
            },
        }
        j = j + 1;
    }
    Ok(())
}

/// Runs the pipeline over borrowed parts: pulls every item from `source`,
/// passes it through `filters` and hands the survivors to `sinks`, until the
/// producer is exhausted or a consumer fails.
///
/// On success the producer is exhausted and every consumer has accepted
/// every surviving item, in yield order. On failure the run has stopped at
/// the failing call: the failure returned is the one that consumer reported,
/// the consumers behind it were not called for that item, and no further
/// item was pulled. The run succeeds whenever there is nothing to hand to a
/// consumer.
pub fn drive<T, S: Source<T>, F: Filter<T>, K: Sink<T>>(
    source: &mut S,
    filters: &Vec<F>,
    sinks: &mut Vec<K>,
) -> (outcome: Result<(), K::Error>)
    ensures
        final(sinks)@.len() == old(sinks)@.len(),
        ran(
            filters@,
            state(*old(source), old(sinks)@),
            state(*final(source), final(sinks)@),
            outcome,
        ),
        survivors(filters@, old(source).pending()).len() == 0 || old(sinks)@.len() == 0
            ==> outcome is Ok,
{
    let ghost start = state(*source, sinks@);
    let ghost mut pulled: int = 0;
    proof {
        lemma_advanced_none(filters@, start);
    }
    loop
        invariant
            start == state(*old(source), old(sinks)@),
            sinks@.len() == old(sinks)@.len(),
            0 <= pulled <= start.pending.len(),
            state(*source, sinks@) == advanced(filters@, start, pulled),
        decreases source.pending().len(),
    {
        match source.next() {
            None => {
                proof {
                    assert(start.pending.skip(pulled).len() == 0);
                    assert(state(*source, sinks@) =~~= completed(filters@, start));
                }
                return Ok(());
            },
            Some(item) => {
                proof {
                    assert(item == start.pending[pulled]);
                    lemma_advanced_one(filters@, start, pulled);
                }
                if admits(filters, &item) {
                    match persist(sinks, &item) {
                        Ok(_) => {},
                        Err(failure) => {
                            proof {
                                let failing = choose|failing: int|
                                    0 <= failing < start.delivered.len() && records(sinks@)
                                        == #[trigger] refused(
                                        advanced(filters@, start, pulled).delivered,
                                        item,
                                        failing,
                                        failure,
                                    );
                                assert(may_abort(filters@, start, pulled + 1, failing));
                                assert(state(*source, sinks@) =~~= aborted(
                                    filters@,
                                    start,
                                    pulled + 1,
                                    failing,
                                    failure,
                                ));
                                lemma_abort_needs_survivor(filters@, start, pulled + 1, failing);
                            }
                            return Err(failure);
                        },
                    }
                }
                proof {
                    assert(state(*source, sinks@) =~~= advanced(filters@, start, pulled + 1));
                    pulled = pulled + 1;
                }
            },
        }
    }
}

/// Before anything is pulled, nothing has changed.
proof fn lemma_advanced_none<T, E, F: Filter<T>>(filters: Seq<F>, start: Flow<T, E>)
    ensures
        advanced(filters, start, 0) == start,
{
    reveal(Seq::filter);
    assert(start.pending.take(0) =~= Seq::<T>::empty());
    assert(survivors(filters, start.pending.take(0)) =~= Seq::<T>::empty());
    assert(advanced(filters, start, 0) =~~= start);
}

/// Pulling one more item hands it to every consumer if it passes the
/// filters, and to none if it does not.
proof fn lemma_advanced_one<T, E, F: Filter<T>>(filters: Seq<F>, start: Flow<T, E>, pulled: int)
    requires
        0 <= pulled < start.pending.len(),
    ensures
        advanced(filters, start, pulled + 1).pending == advanced(
            filters,
            start,
            pulled,
        ).pending.drop_first(),
        advanced(filters, start, pulled + 1).delivered == if survives(
            filters,
            start.pending[pulled],
        ) {
            handed(
                advanced(filters, start, pulled).delivered,
                start.pending[pulled],
                start.delivered.len() as int,
            )
        } else {
            advanced(filters, start, pulled).delivered
        },
{
    let item = start.pending[pulled];
    let keep = |item: T| survives(filters, item);
    let earlier = survivors(filters, start.pending.take(pulled));
    assert(start.pending.take(pulled + 1) =~= start.pending.take(pulled).push(item));
    start.pending.take(pulled).lemma_filter_push(item, keep);
    assert(start.pending.skip(pulled + 1) =~= start.pending.skip(pulled).drop_first());
    if survives(filters, item) {
        assert(accepted::<T, E>(earlier.push(item)) =~= accepted::<T, E>(earlier).push(
            Delivery { item, outcome: Ok(()) },
        ));
        assert(advanced(filters, start, pulled + 1).delivered =~~= handed(
            advanced(filters, start, pulled).delivered,
            item,
            start.delivered.len() as int,
        ));
    } else {
        assert(advanced(filters, start, pulled + 1).delivered =~~= advanced(
            filters,
            start,
            pulled,
        ).delivered);
    }
}

/// A run can only fail on an item that passes the filters, at a consumer
/// that exists.
pub proof fn lemma_abort_needs_survivor<T, E, F: Filter<T>>(
    filters: Seq<F>,
    start: Flow<T, E>,
    pulled: int,
    failing: int,
)
    requires
        may_abort(filters, start, pulled, failing),
    ensures
        survivors(filters, start.pending).len() > 0,
        start.delivered.len() > 0,
{
    let keep = |item: T| survives(filters, item);
    start.pending.lemma_filter_contains(keep, pulled - 1);
}

} // verus!
