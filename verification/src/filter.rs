//! The filter capability.

use vstd::prelude::*;

verus! {

/// A rule that decides, for one item, whether the pipeline keeps or drops it.
///
/// A filter is a total predicate over items: it cannot fail, and it only
/// reads the item. The predicate is [`Filter::keeps`]; [`Filter::filter`]
/// computes it. A filter may keep state of its own as long as its verdict on
/// an item does not depend on it; one that has to give up on an item drops
/// it.
pub trait Filter<T> {
    /// Whether this filter keeps `item`.
    spec fn keeps(&self, item: &T) -> bool;

    /// Returns `true` to keep `item`, `false` to drop it.
    fn filter(&self, item: &T) -> (kept: bool)
        ensures
            kept == self.keeps(item),
    ;
}

/// A boxed filter decides as the filter inside the box does. With
/// `Box<dyn Filter<T>>` this gives dynamic dispatch.
impl<T, F: Filter<T> + ?Sized> Filter<T> for Box<F> {
    open spec fn keeps(&self, item: &T) -> bool {
        (**self).keeps(item)
    }

    fn filter(&self, item: &T) -> (kept: bool) {
        (**self).filter(item)
    }
}

/// Whether `filter` keeps every item there is.
pub open spec fn always_keeps<T, F: Filter<T>>(filter: F) -> bool {
    forall|item: T| #[trigger] filter.keeps(&item)
}

/// Whether `filter` drops every item there is.
pub open spec fn always_drops<T, F: Filter<T>>(filter: F) -> bool {
    forall|item: T| !#[trigger] filter.keeps(&item)
}

/// Whether `item` passes all of `filters`: an item survives only if every
/// filter keeps it, so a single drop decides.
pub open spec fn survives<T, F: Filter<T>>(filters: Seq<F>, item: T) -> bool {
    forall|i: int| 0 <= i < filters.len() ==> (#[trigger] filters[i]).keeps(&item)
}

/// The items of `items` that pass all of `filters`, in the order they have in
/// `items`.
pub open spec fn survivors<T, F: Filter<T>>(filters: Seq<F>, items: Seq<T>) -> Seq<T> {
    items.filter(|item: T| survives(filters, item))
}

} // verus!
