//! A small sequential data pipeline: one producer, any number of filters and
//! any number of consumers, run item by item until the producer is exhausted
//! or a consumer fails.
//!
//! The three capabilities are traits ([`source::Source`], [`filter::Filter`],
//! [`sink::Sink`]); each carries a mathematical model of the implementation
//! next to its one operation. [`flow`] holds the run loop and the model of
//! what a run does, [`pipeline`] the builder and the one-shot assembly, and
//! [`laws`] the algebraic facts that follow from the model.

pub mod filter;
pub mod flow;
pub mod laws;
pub mod pipeline;
pub mod sink;
pub mod source;
