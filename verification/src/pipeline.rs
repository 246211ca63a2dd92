//! The assembly of one producer, filters and consumers, and its builder.

use crate::filter::{survivors, Filter};
use crate::flow::{drive, ran, state};
use crate::sink::Sink;
use crate::source::Source;
use core::marker::PhantomData;
use vstd::prelude::*;

verus! {

/// Why a builder could not assemble a pipeline.
#[derive(Debug, Clone, Copy, PartialEq, Eq, Structural)]
pub enum BuilderError {
    /// No producer was given to the builder.
    NoSource,
}

impl BuilderError {
    /// The message that describes this error to a reader.
    pub fn message(&self) -> (text: String)
        ensures
            text@ == "all pipelines need a source"@,
    {
        "all pipelines need a source".to_owned()
    }
}

/// A pipeline ready to run: exactly one producer, the filters in the order in
/// which they are asked, and the consumers in the order in which they are
/// called. Each item is handled in sequence; an item that any filter drops
/// reaches no consumer.
///
/// The kinds of producer, filter and consumer are type parameters. Parts
/// that are only known at run time, or filters of several kinds in one
/// pipeline, go in as `Box<dyn Source<T>>`, `Box<dyn Filter<T>>` and
/// `Box<dyn Sink<T, Error = E>>`: a box has each capability that its content
/// has.
pub struct Pipeline<T, S, F, K> {
    source: S,
    sinks: Vec<K>,
    filters: Vec<F>,
    item: PhantomData<T>,
}

/// Collects the parts of a pipeline. The producer is required; filters and
/// consumers are optional and keep the order in which they were added.
pub struct PipelineBuilder<T, S, F, K> {
    source: Option<S>,
    sinks: Vec<K>,
    filters: Vec<F>,
    item: PhantomData<T>,
}

impl<T, S: Source<T>, F: Filter<T>, K: Sink<T>> PipelineBuilder<T, S, F, K> {
    /// The producer set so far, if any.
    pub closed spec fn source(&self) -> Option<S> {
        self.source
    }

    /// The filters added so far, in the order in which they were added.
    pub closed spec fn filters(&self) -> Seq<F> {
        self.filters@
    }

    /// The consumers added so far, in the order in which they were added.
    pub closed spec fn sinks(&self) -> Seq<K> {
        self.sinks@
    }

    /// A builder with no producer, no filters and no consumers.
    pub fn new() -> (builder: Self)
        ensures
            builder.source() is None,
            builder.filters() == Seq::<F>::empty(),
            builder.sinks() == Seq::<K>::empty(),
    {
        Self { source: None, sinks: Vec::new(), filters: Vec::new(), item: PhantomData }
    }

    /// Sets the producer. A producer set earlier is replaced without notice.
    pub fn add_source(self, source: S) -> (builder: Self)
        ensures
            builder.source() == Some(source),
            builder.filters() == self.filters(),
            builder.sinks() == self.sinks(),
    {
        Self { source: Some(source), sinks: self.sinks, filters: self.filters, item: PhantomData }
    }

    /// Appends a consumer behind those added before.
    pub fn add_sink(self, sink: K) -> (builder: Self)
        ensures
            builder.source() == self.source(),
            builder.filters() == self.filters(),
            builder.sinks() == self.sinks().push(sink),
    {
        let mut builder = self;
        builder.sinks.push(sink);
        builder
    }

    /// Appends a filter behind those added before.
    pub fn add_filter(self, filter: F) -> (builder: Self)
        ensures
            builder.source() == self.source(),
            builder.filters() == self.filters().push(filter),
            builder.sinks() == self.sinks(),
    {
        let mut builder = self;
        builder.filters.push(filter);
        builder
    }

    /// Assembles the pipeline. Fails with [`BuilderError::NoSource`] exactly
    /// when no producer was set, whatever filters and consumers were added;
    /// otherwise the pipeline holds the producer set last and every filter
    /// and consumer, in order.
    pub fn build(self) -> (built: Result<Pipeline<T, S, F, K>, BuilderError>)
        ensures
            match built {
                Ok(pipeline) => {
                    &&& self.source() == Some(pipeline.source())
                    &&& pipeline.filters() == self.filters()
                    &&& pipeline.sinks() == self.sinks()
                },
                Err(error) => self.source() is None && error == BuilderError::NoSource,
            },
    {
        match self.source {
            Some(source) => Ok(
                Pipeline { source, sinks: self.sinks, filters: self.filters, item: PhantomData },
            ),
            None => Err(BuilderError::NoSource),
        }
    }
}

impl<T, S: Source<T>, F: Filter<T>, K: Sink<T>> Pipeline<T, S, F, K> {
    /// The producer.
    pub closed spec fn source(&self) -> S {
        self.source
    }

    /// The filters, in the order in which they are asked.
    pub closed spec fn filters(&self) -> Seq<F> {
        self.filters@
    }

    /// The consumers, in the order in which they are called.
    pub closed spec fn sinks(&self) -> Seq<K> {
        self.sinks@
    }

    /// Runs the pipeline to the end of the producer or to the first failure
    /// of a consumer, which it returns unchanged. The run is [`drive`] over
    /// the parts of this pipeline, which are given up with it.
    ///
    /// The producer and the consumers are gone afterwards, so the contract
    /// cannot show them. It says that they have reached a state in which a
    /// run from the start can end with this outcome, and that the run
    /// succeeds whenever no item survives the filters or there is no
    /// consumer. Whether it succeeds otherwise lies with the consumers.
    pub fn run(self) -> (outcome: Result<(), K::Error>)
        ensures
            exists|source: S, sinks: Seq<K>|
                ran(
                    self.filters(),
                    state(self.source(), self.sinks()),
                    #[trigger] state(source, sinks),
                    outcome,
                ),
            survivors(self.filters(), self.source().pending()).len() == 0 || self.sinks().len()
                == 0 ==> outcome is Ok,
    {
        let mut source = self.source;
        let mut sinks = self.sinks;
        let outcome = drive(&mut source, &self.filters, &mut sinks);
        proof {
            assert(ran(
                self.filters(),
                state(self.source(), self.sinks()),
                state(source, sinks@),
                outcome,
            ));
        }
        outcome
    }
}

} // verus!
