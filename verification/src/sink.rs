//! The consumer capability.

use vstd::prelude::*;

verus! {

/// One call of [`Sink::save`]: the item that was handed over, and what the
/// consumer reported.
pub struct Delivery<T, E> {
    /// The item handed to the consumer.
    pub item: T,
    /// What the consumer reported for it.
    pub outcome: Result<(), E>,
}

/// A consumer that records the items handed to it, and may fail to.
///
/// What a consumer does with an item (where it writes it, whether a failed
/// call left anything behind) is its own business. The model only keeps the
/// history of calls: [`Sink::deliveries`] lists every call of `save` made on
/// this consumer so far, oldest first, each with the item and the outcome.
/// Recording changes the consumer, so `save` takes it by exclusive
/// reference; the item is only read.
pub trait Sink<T> {
    /// The failure that `save` reports. The pipeline hands it on unchanged.
    type Error;

    /// The calls of `save` made on this consumer so far, oldest first.
    spec fn deliveries(&self) -> Seq<Delivery<T, Self::Error>>;

    /// Records `item`. Nothing is promised about the outcome: a consumer may
    /// fail on any call. Whatever the outcome, the call enters the history.
    fn save(&mut self, item: &T) -> (outcome: Result<(), Self::Error>)
        ensures
            final(self).deliveries() == old(self).deliveries().push(
                Delivery { item: *item, outcome },
            ),
    ;
}

/// A boxed consumer records as the consumer inside the box does. With
/// `Box<dyn Sink<T, Error = E>>` this gives dynamic dispatch.
impl<T, K: Sink<T> + ?Sized> Sink<T> for Box<K> {
    type Error = K::Error;

    open spec fn deliveries(&self) -> Seq<Delivery<T, Self::Error>> {
        (**self).deliveries()
    }

    fn save(&mut self, item: &T) -> (outcome: Result<(), Self::Error>) {
        (**self).save(item)
    }
}

/// The histories of a sequence of consumers, one per consumer, in the order
/// of the consumers.
pub open spec fn records<T, K: Sink<T>>(sinks: Seq<K>) -> Seq<Seq<Delivery<T, K::Error>>> {
    Seq::new(sinks.len(), |j: int| sinks[j].deliveries())
}

/// The history that hands over each of `items` in order, every call
/// succeeding.
pub open spec fn accepted<T, E>(items: Seq<T>) -> Seq<Delivery<T, E>> {
    Seq::new(items.len(), |k: int| Delivery { item: items[k], outcome: Ok(()) })
}

/// The items of a history, in the order in which they were handed over.
pub open spec fn items_of<T, E>(history: Seq<Delivery<T, E>>) -> Seq<T> {
    Seq::new(history.len(), |k: int| history[k].item)
}

} // verus!
