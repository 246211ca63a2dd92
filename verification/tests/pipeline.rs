use pipeflow::filter::Filter;
use pipeflow::pipeline::PipelineBuilder;
use pipeflow::sink::{Delivery, Sink};
use std::sync::Arc;
use vstd::seq::Seq;

struct MockFilter {
    should_pass: bool,
}

impl MockFilter {
    fn new(should_pass: bool) -> Self {
        Self { should_pass }
    }
}

impl<T> Filter<T> for MockFilter {
    fn keeps(&self, _: &T) -> bool {
        self.should_pass
    }

    fn filter(&self, _: &T) -> bool {
        self.should_pass
    }
}

struct MockSink<T> {
    saved_items: std::cell::RefCell<Vec<T>>,
}

impl<T: Clone> MockSink<T> {
    fn new() -> Self {
        Self {
            saved_items: std::cell::RefCell::new(vec![]),
        }
    }

    fn get_saved(&self) -> Vec<T> {
        self.saved_items.borrow().clone()
    }
}

/// The consumer end of a shared `MockSink`.
struct Shared<T>(Arc<MockSink<T>>);

impl<T: Clone> Sink<T> for Shared<T> {
    type Error = Box<dyn std::error::Error>;

    // The history is a model; compiled code never evaluates it.
    fn deliveries(&self) -> Seq<Delivery<T, Self::Error>> {
        unreachable!()
    }

    fn save(&mut self, item: &T) -> Result<(), Box<dyn std::error::Error>> {
        self.0.saved_items.borrow_mut().push(item.clone());
        Ok(())
    }
}

#[test]
fn test_pipeline_filters_out_items() {
    let source = vec![1, 2, 3, 4, 5];
    let filter = MockFilter::new(false); // Filters out all items
    let sink = Arc::new(MockSink::new());

    let pipeline = PipelineBuilder::new()
        .add_source(Box::new(source))
        .add_filter(Box::new(filter))
        .add_sink(Box::new(Shared(sink.clone())))
        .build()
        .ok()
        .unwrap();

    let result = pipeline.run();

    assert!(result.is_ok());
    assert!(sink.get_saved().is_empty());
}

#[test]
fn test_pipeline_saves_filtered_items() {
    let mut source = vec![1, 2, 3, 4, 5];
    let filter = MockFilter::new(true); // Allows all items
    let sink = Arc::new(MockSink::new());

    let pipeline = PipelineBuilder::new()
        .add_source(Box::new(source.clone()))
        .add_filter(Box::new(filter))
        .add_sink(Box::new(Shared(sink.clone())))
        .build()
        .ok()
        .unwrap();

    let result = pipeline.run();
    source.reverse();

    assert!(result.is_ok());
    assert_eq!(sink.get_saved(), source);
}

#[test]
fn test_pipeline_handles_multiple_filters() {
    let mut source = vec![1, 2, 3, 4, 5];
    let filter1 = MockFilter::new(true);
    let filter2 = MockFilter::new(false); // One filter rejects everything
    let sink = Arc::new(MockSink::new());

    let pipeline = PipelineBuilder::new()
        .add_source(Box::new(source.clone()))
        .add_filter(Box::new(filter1))
        .add_filter(Box::new(filter2))
        .add_sink(Box::new(Shared(sink.clone())))
        .build()
        .ok()
        .unwrap();

    let result = pipeline.run();
    source.reverse();

    assert!(result.is_ok());
    assert!(sink.get_saved().is_empty());
}

#[test]
fn test_pipeline_handles_multiple_sinks() {
    let mut source = vec![1, 2, 3];
    let filter = MockFilter::new(true);
    let sink1 = Arc::new(MockSink::new());
    let sink2 = Arc::new(MockSink::new());

    let pipeline = PipelineBuilder::new()
        .add_source(Box::new(source.clone()))
        .add_filter(Box::new(filter))
        .add_sink(Box::new(Shared(sink1.clone())))
        .add_sink(Box::new(Shared(sink2.clone())))
        .build()
        .ok()
        .unwrap();

    let result = pipeline.run();
    source.reverse();

    assert!(result.is_ok());
    assert_eq!(sink1.get_saved(), source);
    assert_eq!(sink2.get_saved(), source);
}
