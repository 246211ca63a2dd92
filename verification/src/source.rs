//! The producer capability.

use vstd::prelude::*;

verus! {

/// A producer of items.
///
/// A producer is modelled by the finite sequence of items it has yet to
/// yield, the next one first. Each call of [`Source::next`] takes the head of
/// that sequence; once the sequence is empty the producer is exhausted, and
/// stays so. A producer has no failure of its own: one that cannot go on
/// reports exhaustion.
pub trait Source<T> {
    /// The items this producer will still yield, in the order in which it
    /// will yield them.
    spec fn pending(&self) -> Seq<T>;

    /// Yields the next item, or `None` once the producer is exhausted.
    fn next(&mut self) -> (item: Option<T>)
        ensures
            match item {
                Some(first) => {
                    &&& old(self).pending().len() > 0
                    &&& first == old(self).pending().first()
                    &&& final(self).pending() == old(self).pending().drop_first()
                },
                None => {
                    &&& old(self).pending().len() == 0
                    &&& final(self).pending().len() == 0
                },
            },
    ;
}

/// An in-memory producer. Items are removed from the back of the vector, so
/// the item added last is yielded first.
impl<T> Source<T> for Vec<T> {
    open spec fn pending(&self) -> Seq<T> {
        self@.reverse()
    }

    fn next(&mut self) -> (item: Option<T>) {
        let item = self.pop();
        proof {
            if old(self)@.len() > 0 {
                assert(self@.reverse() =~= old(self)@.reverse().drop_first());
            }
        }
        item
    }
}

/// A boxed producer yields what the producer inside the box yields. With
/// `Box<dyn Source<T>>` this gives dynamic dispatch.
impl<T, S: Source<T> + ?Sized> Source<T> for Box<S> {
    open spec fn pending(&self) -> Seq<T> {
        (**self).pending()
    }

    fn next(&mut self) -> (item: Option<T>) {
        (**self).next()
    }
}

} // verus!
