use databend_query::datablock::DataBlock;
use databend_query::exception::ErrorCode;
use databend_query::executor::Executor;
use databend_query::executor::Progress;
use databend_query::pipeline::Pipe;
use databend_query::pipeline::Pipeline;
use databend_query::processor::Event;
use databend_query::processor::Processor;
use databend_query::sink::Sink;
use databend_query::source::Source;
use databend_query::transform::Transform;

struct FixedSource {
    blocks: Vec<DataBlock>,
    next: usize,
}

impl FixedSource {
    fn of(contents: &[&[u8]]) -> FixedSource {
        FixedSource {
            blocks: contents.iter().map(|c| DataBlock::create(c.to_vec())).collect(),
            next: 0,
        }
    }
}

impl Source for FixedSource {
    const NAME: &'static str = "FixedSource";

    fn generate(&mut self) -> Result<Option<DataBlock>, ErrorCode> {
        if self.next < self.blocks.len() {
            self.next += 1;
            Ok(Some(self.blocks[self.next - 1].clone()))
        } else {
            Ok(None)
        }
    }
}

struct Reverse;

impl Transform for Reverse {
    const NAME: &'static str = "Reverse";

    fn transform(&mut self, data_block: DataBlock) -> Result<DataBlock, ErrorCode> {
        let mut bytes = data_block.into_bytes();
        bytes.reverse();
        Ok(DataBlock::create(bytes))
    }
}

struct Collect {
    seen: Vec<Vec<u8>>,
    calls: usize,
    fail_on: Option<usize>,
}

impl Collect {
    fn new() -> Collect {
        Collect { seen: Vec::new(), calls: 0, fail_on: None }
    }

    fn failing_on(call: usize) -> Collect {
        Collect { seen: Vec::new(), calls: 0, fail_on: Some(call) }
    }
}

impl Sink for Collect {
    const NAME: &'static str = "Collect";

    fn consume(&mut self, data_block: DataBlock) -> Result<(), ErrorCode> {
        self.calls += 1;
        if self.fail_on == Some(self.calls) {
            return Err(ErrorCode::ProcessorError("injected".to_string()));
        }
        self.seen.push(data_block.into_bytes());
        Ok(())
    }
}

type TestPipeline = Pipeline<FixedSource, Reverse, Collect>;

fn drive(executor: &mut Executor<FixedSource, Reverse, Collect>) -> Progress {
    for _ in 0..10_000 {
        match executor.step() {
            Progress::Polled(_) | Progress::Processed(_) => {}
            other => return other,
        }
    }
    panic!("the pipeline did not come to rest");
}

fn sink_of(pipeline: &TestPipeline, pid: usize) -> &Collect {
    match pipeline.processor(pid) {
        Processor::Sink(sinker) => sinker.inner(),
        _ => panic!("processor {} is not a sink", pid),
    }
}

#[test]
fn three_blocks_reach_the_sink_in_order() {
    let mut pipeline = TestPipeline::create();
    pipeline.add_pipe(Pipe::Sources(vec![FixedSource::of(&[b"one", b"two", b"three"])])).unwrap();
    pipeline.add_pipe(Pipe::Sinks(vec![Collect::new()])).unwrap();
    let mut executor = Executor::create(pipeline).unwrap();

    assert!(matches!(drive(&mut executor), Progress::Completed));
    assert!(executor.is_finished());
    assert!(executor.error().is_none());
    assert_eq!(executor.event_of(0), Event::Finished);
    assert_eq!(executor.event_of(1), Event::Finished);

    let pipeline = executor.into_pipeline();
    let sink = sink_of(&pipeline, 1);
    assert_eq!(sink.calls, 3);
    assert_eq!(sink.seen, vec![b"one".to_vec(), b"two".to_vec(), b"three".to_vec()]);
}

#[test]
fn a_failing_sink_stops_the_run_with_its_error() {
    let mut pipeline = TestPipeline::create();
    pipeline.add_pipe(Pipe::Sources(vec![FixedSource::of(&[b"one", b"two", b"three"])])).unwrap();
    pipeline.add_pipe(Pipe::Sinks(vec![Collect::failing_on(2)])).unwrap();
    let mut executor = Executor::create(pipeline).unwrap();

    assert!(matches!(drive(&mut executor), Progress::Failed));
    assert_eq!(executor.error(), Some(&ErrorCode::ProcessorError("injected".to_string())));
    assert!(matches!(executor.step(), Progress::Failed));
    assert!(matches!(executor.step(), Progress::Failed));
    assert_eq!(executor.error(), Some(&ErrorCode::ProcessorError("injected".to_string())));
    assert!(executor.is_finished());

    let pipeline = executor.into_pipeline();
    let sink = sink_of(&pipeline, 1);
    assert_eq!(sink.calls, 2);
    assert_eq!(sink.seen, vec![b"one".to_vec()]);
}

#[test]
fn transforms_sit_between_source_and_sink() {
    let mut pipeline = TestPipeline::create();
    pipeline
        .add_pipe(Pipe::Sources(vec![FixedSource::of(&[b"ab", b"cd"]), FixedSource::of(&[b"xyz"])]))
        .unwrap();
    pipeline.add_pipe(Pipe::Transforms(vec![Reverse, Reverse])).unwrap();
    pipeline.add_pipe(Pipe::Sinks(vec![Collect::new(), Collect::new()])).unwrap();
    assert_eq!(pipeline.len(), 6);
    assert_eq!(pipeline.num_pipes(), 3);
    let mut executor = Executor::create(pipeline).unwrap();

    assert!(matches!(drive(&mut executor), Progress::Completed));
    let pipeline = executor.into_pipeline();
    assert_eq!(sink_of(&pipeline, 4).seen, vec![b"ba".to_vec(), b"dc".to_vec()]);
    assert_eq!(sink_of(&pipeline, 5).seen, vec![b"zyx".to_vec()]);
}

#[test]
fn a_source_whose_sink_never_asks_keeps_waiting() {
    let mut pipeline = TestPipeline::create();
    pipeline.add_pipe(Pipe::Sources(vec![FixedSource::of(&[b"one", b"two"])])).unwrap();
    pipeline.add_pipe(Pipe::Sinks(vec![Collect::new()])).unwrap();
    let flags = pipeline.output_flags(0);
    for _ in 0..50 {
        let polled = pipeline.event(0);
        assert_eq!(polled.event, Event::NeedData);
        assert!(!polled.input_changed);
        assert!(!polled.output_changed);
    }
    assert_eq!(pipeline.output_flags(0), flags);
    assert_eq!(pipeline.input_flags(1), flags);
    assert_eq!(pipeline.input_flags(0), None);
    match pipeline.processor(0) {
        Processor::Source(sourcer) => assert_eq!(sourcer.inner().next, 0),
        _ => panic!("processor 0 is not a source"),
    }
}

#[test]
fn a_pipeline_can_be_driven_by_hand() {
    let mut pipeline = TestPipeline::create();
    pipeline.add_pipe(Pipe::Sources(vec![FixedSource::of(&[b"one"])])).unwrap();
    pipeline.add_pipe(Pipe::AsyncSinks(vec!["Remote"])).unwrap();

    let asked = pipeline.event(1);
    assert_eq!(asked.event, Event::NeedData);
    assert!(asked.input_changed);
    assert_eq!(pipeline.event(0).event, Event::Sync);
    assert_eq!(pipeline.process(0), Ok(()));
    let pushed = pipeline.event(0);
    assert_eq!(pushed.event, Event::NeedData);
    assert!(pushed.output_changed);
    assert_eq!(pipeline.take_block(1), None);
    assert_eq!(pipeline.event(1).event, Event::Async);
    assert_eq!(pipeline.take_block(0), None);
    assert_eq!(pipeline.take_block(1), Some(DataBlock::create(b"one".to_vec())));
    assert_eq!(pipeline.take_block(1), None);

    pipeline.finish();
    assert_eq!(pipeline.event(0).event, Event::Finished);
    assert_eq!(pipeline.event(1).event, Event::Finished);
    assert!(pipeline.output_flags(0).unwrap().finished);
}
