use databend_query::datablock::DataBlock;
use databend_query::exception::ErrorCode;
use databend_query::executor::Executor;
use databend_query::executor::Outcome;
use databend_query::executor::Progress;
use databend_query::pipeline::Pipe;
use databend_query::pipeline::Pipeline;
use databend_query::processor::Event;
use databend_query::processor::Processor;
use databend_query::sink::Sink;
use databend_query::source::Source;
use databend_query::transform::Transform;

struct Numbers {
    next: u8,
    end: u8,
    fail_at: Option<u8>,
}

impl Numbers {
    fn upto(end: u8) -> Numbers {
        Numbers { next: 0, end, fail_at: None }
    }
}

impl Source for Numbers {
    const NAME: &'static str = "Numbers";

    fn generate(&mut self) -> Result<Option<DataBlock>, ErrorCode> {
        if self.fail_at == Some(self.next) {
            return Err(ErrorCode::ProcessorError("source broke".to_string()));
        }
        if self.next >= self.end {
            return Ok(None);
        }
        self.next += 1;
        Ok(Some(DataBlock::create(vec![self.next - 1])))
    }
}

struct AddOne {
    calls: usize,
    fail_on: Option<usize>,
}

impl AddOne {
    fn new() -> AddOne {
        AddOne { calls: 0, fail_on: None }
    }
}

impl Transform for AddOne {
    const NAME: &'static str = "AddOne";

    fn transform(&mut self, data_block: DataBlock) -> Result<DataBlock, ErrorCode> {
        self.calls += 1;
        if self.fail_on == Some(self.calls) {
            return Err(ErrorCode::ProcessorError("transform broke".to_string()));
        }
        Ok(DataBlock::create(data_block.into_bytes().iter().map(|b| b + 1).collect()))
    }
}

struct Keep {
    seen: Vec<u8>,
}

impl Sink for Keep {
    const NAME: &'static str = "Keep";

    fn consume(&mut self, data_block: DataBlock) -> Result<(), ErrorCode> {
        self.seen.extend(data_block.into_bytes());
        Ok(())
    }
}

type P = Pipeline<Numbers, AddOne, Keep>;
type E = Executor<Numbers, AddOne, Keep>;

fn keep() -> Keep {
    Keep { seen: Vec::new() }
}

fn seen(pipeline: &P, pid: usize) -> Vec<u8> {
    match pipeline.processor(pid) {
        Processor::Sink(sinker) => sinker.inner().seen.clone(),
        _ => panic!("processor {} is not a sink", pid),
    }
}

fn all_ports_finished(pipeline: &P) -> bool {
    (0..pipeline.len()).all(|pid| {
        pipeline.input_flags(pid).map_or(true, |f| f.finished)
            && pipeline.output_flags(pid).map_or(true, |f| f.finished)
    })
}

#[test]
fn a_pipe_must_fit_the_open_ports() {
    let mut pipeline = P::create();
    assert!(!pipeline.is_complete());
    assert_eq!(pipeline.width(), 0);

    let refused = pipeline.add_pipe(Pipe::Sinks(vec![keep()])).unwrap_err();
    assert!(refused.is_contract_violation());
    assert!(pipeline.add_pipe(Pipe::Transforms(vec![AddOne::new()])).is_err());
    assert!(pipeline.add_pipe(Pipe::Sources(vec![])).is_err());
    assert_eq!(pipeline.len(), 0);
    assert_eq!(pipeline.num_pipes(), 0);

    pipeline.add_pipe(Pipe::Sources(vec![Numbers::upto(1), Numbers::upto(2)])).unwrap();
    assert_eq!(pipeline.width(), 2);
    assert_eq!(pipeline.len(), 2);
    assert!(!pipeline.is_complete());

    assert!(pipeline.add_pipe(Pipe::Sources(vec![Numbers::upto(1)])).is_err());
    assert!(pipeline.add_pipe(Pipe::Transforms(vec![AddOne::new()])).is_err());
    assert!(pipeline.add_pipe(Pipe::Sinks(vec![keep(), keep(), keep()])).is_err());
    assert!(pipeline.add_pipe(Pipe::AsyncSinks(vec!["a"])).is_err());
    assert_eq!(pipeline.len(), 2);

    pipeline.add_pipe(Pipe::Transforms(vec![AddOne::new(), AddOne::new()])).unwrap();
    pipeline.add_pipe(Pipe::Sinks(vec![keep(), keep()])).unwrap();
    assert!(pipeline.is_complete());
    assert_eq!(pipeline.width(), 0);
    assert_eq!(pipeline.len(), 6);
    assert_eq!(pipeline.num_pipes(), 3);
    assert_eq!(pipeline.pipe_len(0), 2);
    assert_eq!(pipeline.pipe_len(2), 2);
    assert!(pipeline.add_pipe(Pipe::Sinks(vec![keep(), keep()])).is_err());

    assert_eq!(pipeline.name(0), "Numbers");
    assert_eq!(pipeline.name(3), "AddOne");
    assert_eq!(pipeline.name(5), "Keep");
    assert_eq!(pipeline.processor(5).name(), "Keep");
    assert_eq!(pipeline.upstream(0), None);
    assert_eq!(pipeline.downstream(0), Some(2));
    assert_eq!(pipeline.upstream(3), Some(1));
    assert_eq!(pipeline.downstream(3), Some(5));
    assert_eq!(pipeline.downstream(5), None);
    assert_eq!(pipeline.processor(3).input_id(), Some(1));
    assert_eq!(pipeline.processor(3).output_id(), Some(3));
    assert_eq!(pipeline.lane_of(0), Some(0));
    assert_eq!(pipeline.lane_of(1), Some(1));
    assert_eq!(pipeline.lane_of(2), Some(0));
    assert_eq!(pipeline.lane_of(3), Some(1));
    assert_eq!(pipeline.lane_of(4), Some(0));
    assert_eq!(pipeline.lane_of(5), Some(1));
    assert_eq!(pipeline.lane_of(6), None);
}

#[test]
fn an_incomplete_pipeline_cannot_be_run() {
    let mut pipeline = P::create();
    assert!(matches!(E::create(P::create()), Err(ErrorCode::LogicalError(_))));
    pipeline.add_pipe(Pipe::Sources(vec![Numbers::upto(1)])).unwrap();
    assert!(matches!(E::create(pipeline), Err(ErrorCode::LogicalError(_))));
}

#[test]
fn run_drives_every_lane_to_the_end() {
    let mut pipeline = P::create();
    pipeline.add_pipe(Pipe::Sources(vec![Numbers::upto(3), Numbers::upto(0), Numbers::upto(5)])).unwrap();
    pipeline.add_pipe(Pipe::Transforms(vec![AddOne::new(), AddOne::new(), AddOne::new()])).unwrap();
    pipeline.add_pipe(Pipe::Transforms(vec![AddOne::new(), AddOne::new(), AddOne::new()])).unwrap();
    pipeline.add_pipe(Pipe::Sinks(vec![keep(), keep(), keep()])).unwrap();
    let mut executor = E::create(pipeline).unwrap();
    assert_eq!(executor.len(), 12);
    assert!(!executor.is_finished());

    assert!(matches!(executor.run(100_000), Ok(Outcome::Completed)));
    assert!(executor.is_finished());
    assert!(!executor.has_in_flight());
    assert!(matches!(executor.run(10), Ok(Outcome::Completed)));
    assert!(matches!(executor.step(), Progress::Completed));
    for pid in 0..12 {
        assert_eq!(executor.event_of(pid), Event::Finished);
    }
    assert!(all_ports_finished(executor.pipeline()));

    let pipeline = executor.into_pipeline();
    assert_eq!(seen(&pipeline, 9), vec![2, 3, 4]);
    assert_eq!(seen(&pipeline, 10), Vec::<u8>::new());
    assert_eq!(seen(&pipeline, 11), vec![2, 3, 4, 5, 6]);
}

#[test]
fn run_stops_when_its_steps_are_used_up() {
    let mut pipeline = P::create();
    pipeline.add_pipe(Pipe::Sources(vec![Numbers::upto(200)])).unwrap();
    pipeline.add_pipe(Pipe::Sinks(vec![keep()])).unwrap();
    let mut executor = E::create(pipeline).unwrap();
    assert!(matches!(executor.run(0), Ok(Outcome::OutOfSteps)));
    assert!(matches!(executor.run(7), Ok(Outcome::OutOfSteps)));
    assert!(!executor.is_finished());
    assert!(matches!(executor.run(100_000), Ok(Outcome::Completed)));
    let expected: Vec<u8> = (0..200).collect();
    assert_eq!(seen(executor.pipeline(), 1), expected);
}

#[test]
fn the_first_steps_ask_every_processor_in_order() {
    let mut pipeline = P::create();
    pipeline.add_pipe(Pipe::Sources(vec![Numbers::upto(1)])).unwrap();
    pipeline.add_pipe(Pipe::Sinks(vec![keep()])).unwrap();
    let mut executor = E::create(pipeline).unwrap();
    assert_eq!(executor.event_of(0), Event::NeedData);
    assert!(matches!(executor.step(), Progress::Polled(0)));
    assert_eq!(executor.event_of(0), Event::NeedData);
    assert!(matches!(executor.step(), Progress::Polled(1)));
    assert_eq!(executor.event_of(1), Event::NeedData);
    assert!(matches!(executor.step(), Progress::Polled(0)));
    assert_eq!(executor.event_of(0), Event::Sync);
    assert!(matches!(executor.step(), Progress::Processed(0)));
    assert!(matches!(executor.step(), Progress::Polled(0)));
    assert_eq!(executor.event_of(0), Event::NeedData);
    assert!(matches!(executor.step(), Progress::Polled(1)));
    assert_eq!(executor.event_of(1), Event::Sync);
    assert!(seen(executor.pipeline(), 1).is_empty());
    assert!(matches!(executor.step(), Progress::Processed(1)));
    assert_eq!(seen(executor.pipeline(), 1), vec![0]);
    assert!(matches!(executor.step(), Progress::Polled(0)));
    assert_eq!(executor.event_of(0), Event::Sync);
}

#[test]
fn a_failing_transform_stops_everything_behind_it() {
    let mut pipeline = P::create();
    pipeline.add_pipe(Pipe::Sources(vec![Numbers::upto(5)])).unwrap();
    pipeline.add_pipe(Pipe::Transforms(vec![AddOne { calls: 0, fail_on: Some(3) }])).unwrap();
    pipeline.add_pipe(Pipe::Sinks(vec![keep()])).unwrap();
    let mut executor = E::create(pipeline).unwrap();

    let expected = ErrorCode::ProcessorError("transform broke".to_string());
    assert_eq!(executor.run(100_000).err(), Some(expected.clone()));
    assert_eq!(executor.error(), Some(&expected));
    assert_eq!(executor.run(100_000).err(), Some(expected.clone()));
    assert_eq!(executor.run(0).err(), Some(expected.clone()));
    assert!(matches!(executor.step(), Progress::Failed));
    assert!(executor.is_finished());
    assert!(all_ports_finished(executor.pipeline()));

    let delivered = seen(executor.pipeline(), 2);
    assert!(delivered.len() <= 2);
    assert_eq!(delivered, vec![1, 2][..delivered.len()].to_vec());
    match executor.pipeline().processor(1) {
        Processor::Transform(transformer) => assert_eq!(transformer.inner().calls, 3),
        _ => panic!("processor 1 is not a transform"),
    }
    executor.finish();
    assert_eq!(executor.error(), Some(&expected));
    assert_eq!(seen(executor.pipeline(), 2), delivered);
}

#[test]
fn a_failing_source_fails_the_run() {
    let mut pipeline = P::create();
    pipeline.add_pipe(Pipe::Sources(vec![Numbers { next: 0, end: 9, fail_at: Some(2) }])).unwrap();
    pipeline.add_pipe(Pipe::Sinks(vec![keep()])).unwrap();
    let mut executor = E::create(pipeline).unwrap();
    assert_eq!(
        executor.run(100_000).err(),
        Some(ErrorCode::ProcessorError("source broke".to_string()))
    );
    let delivered = seen(executor.pipeline(), 1);
    assert_eq!(delivered, vec![0, 1][..delivered.len()].to_vec());
}

#[test]
fn a_suspending_sink_is_run_by_the_caller() {
    let mut pipeline = P::create();
    pipeline.add_pipe(Pipe::Sources(vec![Numbers::upto(3)])).unwrap();
    pipeline.add_pipe(Pipe::AsyncSinks(vec!["Remote"])).unwrap();
    assert_eq!(pipeline.name(1), "Remote");
    let mut executor = E::create(pipeline).unwrap();

    let mut sent = Vec::new();
    loop {
        match executor.run(100_000).unwrap() {
            Outcome::Suspended(task) => {
                assert_eq!(task.pid(), 1);
                assert_eq!(executor.event_of(1), Event::Async);
                assert!(executor.has_in_flight());
                assert!(!executor.is_finished());
                assert_eq!(task.block().len(), 1);
                let (pid, block) = task.into_parts();
                assert!(matches!(executor.run(100_000), Ok(Outcome::Waiting)));
                assert!(matches!(executor.step(), Progress::Waiting));
                sent.extend(block.into_bytes());
                assert_eq!(executor.complete(pid, Ok(())), Ok(()));
                assert!(!executor.has_in_flight());
            }
            Outcome::Completed => break,
            _ => panic!("the run came to rest for no reason"),
        }
    }
    assert_eq!(sent, vec![0, 1, 2]);
    assert!(executor.is_finished());
}

#[test]
fn a_failing_suspended_step_fails_the_run_with_its_error() {
    let mut pipeline = P::create();
    pipeline.add_pipe(Pipe::Sources(vec![Numbers::upto(3), Numbers::upto(3)])).unwrap();
    pipeline.add_pipe(Pipe::AsyncSinks(vec!["First", "Second"])).unwrap();
    let mut executor = E::create(pipeline).unwrap();

    let first = match executor.run(100_000).unwrap() {
        Outcome::Suspended(task) => task,
        _ => panic!("no task was started"),
    };
    let second = match executor.run(100_000).unwrap() {
        Outcome::Suspended(task) => task,
        _ => panic!("no second task was started"),
    };
    assert_ne!(first.pid(), second.pid());

    let cause = ErrorCode::ProcessorError("connection lost".to_string());
    assert_eq!(executor.complete(first.pid(), Err(cause.clone())), Ok(()));
    assert_eq!(executor.error(), Some(&cause));
    assert!(all_ports_finished(executor.pipeline()));
    assert!(executor.has_in_flight());
    assert!(!executor.is_finished());
    assert_eq!(executor.run(100).err(), Some(cause.clone()));

    let later = ErrorCode::ProcessorError("too late".to_string());
    assert_eq!(executor.complete(second.pid(), Err(later)), Ok(()));
    assert_eq!(executor.error(), Some(&cause));
    assert!(!executor.has_in_flight());
    assert!(executor.is_finished());
    assert_eq!(executor.run(100).err(), Some(cause));
}

#[test]
fn an_answer_without_a_step_in_flight_is_refused() {
    let mut pipeline = P::create();
    pipeline.add_pipe(Pipe::Sources(vec![Numbers::upto(1)])).unwrap();
    pipeline.add_pipe(Pipe::AsyncSinks(vec!["Remote"])).unwrap();
    let mut executor = E::create(pipeline).unwrap();
    assert!(matches!(executor.complete(1, Ok(())), Err(ErrorCode::LogicalError(_))));
    assert!(matches!(executor.complete(7, Ok(())), Err(ErrorCode::LogicalError(_))));
    let task = match executor.run(100_000).unwrap() {
        Outcome::Suspended(task) => task,
        _ => panic!("no task was started"),
    };
    assert!(matches!(executor.complete(0, Ok(())), Err(ErrorCode::LogicalError(_))));
    assert_eq!(executor.complete(task.pid(), Ok(())), Ok(()));
    assert!(matches!(executor.complete(task.pid(), Ok(())), Err(ErrorCode::LogicalError(_))));
    assert!(executor.error().is_none());
}

#[test]
fn a_cancelled_run_ends_without_an_error() {
    let mut pipeline = P::create();
    pipeline.add_pipe(Pipe::Sources(vec![Numbers::upto(200)])).unwrap();
    pipeline.add_pipe(Pipe::Transforms(vec![AddOne::new()])).unwrap();
    pipeline.add_pipe(Pipe::Sinks(vec![keep()])).unwrap();
    let mut executor = E::create(pipeline).unwrap();
    assert!(matches!(executor.run(40), Ok(Outcome::OutOfSteps)));
    let before = seen(executor.pipeline(), 2);

    executor.finish();
    assert!(all_ports_finished(executor.pipeline()));
    assert!(matches!(executor.run(100_000), Ok(Outcome::Completed)));
    assert!(executor.error().is_none());
    assert!(executor.is_finished());
    executor.finish();
    assert!(matches!(executor.run(100_000), Ok(Outcome::Completed)));

    let after = seen(executor.pipeline(), 2);
    assert!(after.len() < 200);
    assert_eq!(after[..before.len()].to_vec(), before);
    let expected: Vec<u8> = (1..=after.len() as u8).collect();
    assert_eq!(after, expected);
}

#[test]
fn an_error_can_be_copied() {
    let e = ErrorCode::UnImplement("later".to_string());
    assert_eq!(e.duplicate(), e);
    assert_eq!(e.message(), "later");
    assert!(!e.is_contract_violation());
    assert!(ErrorCode::LogicalError("no".to_string()).is_contract_violation());
    assert_eq!(ErrorCode::SemanticError("s".to_string()).duplicate().message(), "s");
    assert_eq!(ErrorCode::ProcessorError("p".to_string()).duplicate().message(), "p");
}
