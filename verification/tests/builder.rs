use pipeflow::filter::Filter;
use pipeflow::pipeline::{BuilderError, Pipeline, PipelineBuilder};
use pipeflow::sink::{Delivery, Sink};
use pipeflow::source::Source;
use std::cell::{Cell, RefCell};
use std::rc::Rc;
use vstd::seq::Seq;

/// Gives one verdict for every item.
struct Always(bool);

impl Filter<i32> for Always {
    fn keeps(&self, _: &i32) -> bool {
        self.0
    }

    fn filter(&self, _: &i32) -> bool {
        self.0
    }
}

/// Keeps the odd items.
struct Odd;

impl Filter<i32> for Odd {
    fn keeps(&self, item: &i32) -> bool {
        *item % 2 != 0
    }

    fn filter(&self, item: &i32) -> bool {
        *item % 2 != 0
    }
}

/// Why a `Journal` refused an item.
#[derive(Debug, PartialEq)]
struct Refused {
    item: i32,
}

impl std::fmt::Display for Refused {
    fn fmt(&self, f: &mut std::fmt::Formatter<'_>) -> std::fmt::Result {
        f.write_str(&format!("refused {}", self.item))
    }
}

impl std::error::Error for Refused {}

/// Writes every item handed to it into a shared journal, and refuses one item
/// if told to.
struct Journal {
    entries: Rc<RefCell<Vec<i32>>>,
    refuses: Option<i32>,
}

impl Journal {
    fn on(entries: &Rc<RefCell<Vec<i32>>>) -> Self {
        Journal { entries: entries.clone(), refuses: None }
    }

    fn refusing(entries: &Rc<RefCell<Vec<i32>>>, item: i32) -> Self {
        Journal { entries: entries.clone(), refuses: Some(item) }
    }
}

impl Sink<i32> for Journal {
    type Error = Box<dyn std::error::Error>;

    // The history is a model; compiled code never evaluates it.
    fn deliveries(&self) -> Seq<Delivery<i32, Self::Error>> {
        unreachable!()
    }

    fn save(&mut self, item: &i32) -> Result<(), Box<dyn std::error::Error>> {
        self.entries.borrow_mut().push(*item);
        if self.refuses == Some(*item) {
            Err(Box::new(Refused { item: *item }))
        } else {
            Ok(())
        }
    }
}

/// Yields its items front first, and counts how often it is asked.
struct Counted {
    items: std::collections::VecDeque<i32>,
    pulls: Rc<Cell<usize>>,
}

impl Source<i32> for Counted {
    // What is left to yield is a model; compiled code never evaluates it.
    fn pending(&self) -> Seq<i32> {
        unreachable!()
    }

    fn next(&mut self) -> Option<i32> {
        self.pulls.set(self.pulls.get() + 1);
        self.items.pop_front()
    }
}

fn journal() -> Rc<RefCell<Vec<i32>>> {
    Rc::new(RefCell::new(vec![]))
}

#[test]
fn build_without_source_fails() {
    let builder: PipelineBuilder<i32, Vec<i32>, Always, Journal> = PipelineBuilder::new();
    assert_eq!(builder.build().err(), Some(BuilderError::NoSource));
}

#[test]
fn build_without_source_fails_whatever_else_is_configured() {
    let entries = journal();
    let builder: PipelineBuilder<i32, Vec<i32>, Always, Journal> = PipelineBuilder::new()
        .add_filter(Always(true))
        .add_sink(Journal::on(&entries))
        .add_filter(Always(false))
        .add_sink(Journal::on(&entries));
    assert_eq!(builder.build().err(), Some(BuilderError::NoSource));
    assert!(entries.borrow().is_empty());
}

#[test]
fn builder_error_message() {
    assert_eq!(BuilderError::NoSource.message(), "all pipelines need a source");
}

#[test]
fn build_with_only_a_source_succeeds() {
    let pipeline: Pipeline<i32, Vec<i32>, Always, Journal> =
        PipelineBuilder::new().add_source(vec![1, 2, 3]).build().ok().unwrap();
    assert!(pipeline.run().is_ok());
}

#[test]
fn add_source_replaces_the_source_set_before() {
    let entries = journal();
    let pipeline = PipelineBuilder::new()
        .add_source(vec![1, 2, 3])
        .add_filter(Always(true))
        .add_source(vec![7, 8])
        .add_sink(Journal::on(&entries))
        .build()
        .ok()
        .unwrap();
    assert!(pipeline.run().is_ok());
    assert_eq!(*entries.borrow(), vec![8, 7]);
}

#[test]
fn filters_and_sinks_keep_the_order_in_which_they_were_added() {
    let entries = journal();
    let pipeline = PipelineBuilder::new()
        .add_sink(Journal::on(&entries))
        .add_filter(Odd)
        .add_sink(Journal::refusing(&entries, 3))
        .add_source(vec![1, 2, 3, 4, 5])
        .add_sink(Journal::on(&entries))
        .build()
        .ok()
        .unwrap();
    let outcome = pipeline.run();
    assert!(outcome.is_err());
    // 5 went to all three consumers; 4 was dropped; 3 went to the first two.
    assert_eq!(*entries.borrow(), vec![5, 5, 5, 3, 3]);
}

#[test]
fn run_returns_the_failure_of_the_consumer_unchanged() {
    let entries = journal();
    let pipeline = PipelineBuilder::new()
        .add_source(vec![1, 2, 3])
        .add_filter(Always(true))
        .add_sink(Journal::refusing(&entries, 2))
        .build()
        .ok()
        .unwrap();
    let failure = pipeline.run().err().unwrap();
    assert_eq!(failure.to_string(), "refused 2");
    assert_eq!(failure.downcast_ref::<Refused>(), Some(&Refused { item: 2 }));
}

#[test]
fn run_pulls_nothing_after_a_failure() {
    let entries = journal();
    let pulls = Rc::new(Cell::new(0));
    let source = Counted { items: vec![10, 20, 30, 40].into(), pulls: pulls.clone() };
    let pipeline = PipelineBuilder::new()
        .add_source(source)
        .add_filter(Always(true))
        .add_sink(Journal::refusing(&entries, 20))
        .build()
        .ok()
        .unwrap();
    assert!(pipeline.run().is_err());
    assert_eq!(pulls.get(), 2);
    assert_eq!(*entries.borrow(), vec![10, 20]);
}

#[test]
fn run_pulls_until_the_source_reports_exhaustion() {
    let entries = journal();
    let pulls = Rc::new(Cell::new(0));
    let source = Counted { items: vec![10, 20, 30].into(), pulls: pulls.clone() };
    let pipeline = PipelineBuilder::new()
        .add_source(source)
        .add_filter(Odd)
        .add_sink(Journal::on(&entries))
        .build()
        .ok()
        .unwrap();
    assert!(pipeline.run().is_ok());
    assert_eq!(pulls.get(), 4);
    assert!(entries.borrow().is_empty());
}

#[test]
fn run_without_filters_keeps_every_item() {
    let entries = journal();
    let pipeline: Pipeline<i32, Vec<i32>, Always, Journal> = PipelineBuilder::new()
        .add_source(vec![4, 5, 6])
        .add_sink(Journal::on(&entries))
        .build()
        .ok()
        .unwrap();
    assert!(pipeline.run().is_ok());
    assert_eq!(*entries.borrow(), vec![6, 5, 4]);
}

#[test]
fn run_dispatches_through_trait_objects() {
    let entries = journal();
    let source: Box<dyn Source<i32>> = Box::new(vec![1, 2, 3, 4, 5, 6]);
    let odd: Box<dyn Filter<i32>> = Box::new(Odd);
    let all: Box<dyn Filter<i32>> = Box::new(Always(true));
    let sink: Box<dyn Sink<i32, Error = Box<dyn std::error::Error>>> =
        Box::new(Journal::on(&entries));
    let pipeline = PipelineBuilder::new()
        .add_source(source)
        .add_filter(odd)
        .add_filter(all)
        .add_sink(sink)
        .build()
        .ok()
        .unwrap();
    assert!(pipeline.run().is_ok());
    assert_eq!(*entries.borrow(), vec![5, 3, 1]);
}
