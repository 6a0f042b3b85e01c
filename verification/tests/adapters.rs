use databend_query::datablock::DataBlock;
use databend_query::exception::ErrorCode;
use databend_query::port::Ports;
use databend_query::processor::Event;
use databend_query::sink::AsyncSinker;
use databend_query::sink::Sink;
use databend_query::sink::Sinker;
use databend_query::source::Source;
use databend_query::source::Sourcer;
use databend_query::transform::Transform;
use databend_query::transform::Transformer;

fn block(bytes: &[u8]) -> DataBlock {
    DataBlock::create(bytes.to_vec())
}

struct Counter {
    left: u8,
    calls: usize,
}

impl Source for Counter {
    const NAME: &'static str = "Counter";

    fn generate(&mut self) -> Result<Option<DataBlock>, ErrorCode> {
        self.calls += 1;
        if self.left == 0 {
            return Ok(None);
        }
        self.left -= 1;
        Ok(Some(block(&[self.left])))
    }
}

struct Broken;

impl Source for Broken {
    const NAME: &'static str = "Broken";

    fn generate(&mut self) -> Result<Option<DataBlock>, ErrorCode> {
        Err(ErrorCode::ProcessorError("no data today".to_string()))
    }
}

struct Double {
    fail: bool,
}

impl Transform for Double {
    const NAME: &'static str = "Double";

    fn transform(&mut self, data_block: DataBlock) -> Result<DataBlock, ErrorCode> {
        if self.fail {
            return Err(ErrorCode::ProcessorError("cannot double".to_string()));
        }
        let mut bytes = data_block.into_bytes();
        let copy = bytes.clone();
        bytes.extend(copy);
        Ok(DataBlock::create(bytes))
    }
}

struct Keep {
    seen: Vec<Vec<u8>>,
    fail: bool,
}

impl Sink for Keep {
    const NAME: &'static str = "Keep";

    fn consume(&mut self, data_block: DataBlock) -> Result<(), ErrorCode> {
        if self.fail {
            return Err(ErrorCode::ProcessorError("full".to_string()));
        }
        self.seen.push(data_block.into_bytes());
        Ok(())
    }
}

fn keep() -> Keep {
    Keep { seen: Vec::new(), fail: false }
}

#[test]
fn sinker_asks_for_data_when_the_port_is_empty() {
    let mut ports = Ports::new();
    let (output, input) = ports.connect();
    let mut sinker = Sinker::create(input, keep());
    assert_eq!(sinker.name(), "Keep");
    assert_eq!(sinker.input().id(), 0);
    assert!(!output.can_push(&ports));
    assert_eq!(sinker.event(&mut ports), Ok(Event::NeedData));
    assert!(output.can_push(&ports));
    assert!(sinker.inner().seen.is_empty());
}

#[test]
fn sinker_pulls_one_block_and_consumes_it_once() {
    let mut ports = Ports::new();
    let (output, input) = ports.connect();
    let mut sinker = Sinker::create(input, keep());
    output.push_data(&mut ports, block(b"a")).unwrap();

    assert_eq!(sinker.event(&mut ports), Ok(Event::Sync));
    assert!(!input.has_data(&ports));
    assert!(sinker.inner().seen.is_empty());

    output.push_data(&mut ports, block(b"b")).unwrap();
    assert_eq!(sinker.event(&mut ports), Ok(Event::Sync));
    assert!(input.has_data(&ports));

    assert_eq!(sinker.process(), Ok(()));
    assert_eq!(sinker.inner().seen, vec![b"a".to_vec()]);

    assert_eq!(sinker.event(&mut ports), Ok(Event::Sync));
    assert!(!input.has_data(&ports));
    assert_eq!(sinker.process(), Ok(()));
    assert_eq!(sinker.into_inner().seen, vec![b"a".to_vec(), b"b".to_vec()]);
}

#[test]
fn sinker_finishes_with_its_input_and_stays_finished() {
    let mut ports = Ports::new();
    let (output, input) = ports.connect();
    let mut sinker = Sinker::create(input, keep());
    output.push_data(&mut ports, block(b"never seen")).unwrap();
    output.finish(&mut ports);
    for _ in 0..3 {
        assert_eq!(sinker.event(&mut ports), Ok(Event::Finished));
    }
    assert!(input.has_data(&ports));
    assert!(sinker.inner().seen.is_empty());
}

#[test]
fn sinker_works_off_its_buffer_before_it_looks_at_the_port() {
    let mut ports = Ports::new();
    let (output, input) = ports.connect();
    let mut sinker = Sinker::create(input, keep());
    output.push_data(&mut ports, block(b"a")).unwrap();
    assert_eq!(sinker.event(&mut ports), Ok(Event::Sync));
    output.finish(&mut ports);
    assert_eq!(sinker.event(&mut ports), Ok(Event::Sync));
    assert_eq!(sinker.process(), Ok(()));
    assert_eq!(sinker.event(&mut ports), Ok(Event::Finished));
    assert_eq!(sinker.inner().seen, vec![b"a".to_vec()]);
}

#[test]
fn sinker_hands_on_the_error_of_its_sink() {
    let mut ports = Ports::new();
    let (output, input) = ports.connect();
    let mut sinker = Sinker::create(input, Keep { seen: Vec::new(), fail: true });
    output.push_data(&mut ports, block(b"a")).unwrap();
    assert_eq!(sinker.event(&mut ports), Ok(Event::Sync));
    assert_eq!(sinker.process(), Err(ErrorCode::ProcessorError("full".to_string())));
    assert_eq!(sinker.event(&mut ports), Ok(Event::NeedData));
}

#[test]
fn a_source_waits_as_long_as_its_consumer_does_not_ask() {
    let mut ports = Ports::new();
    let (output, input) = ports.connect();
    let mut sourcer = Sourcer::create(output, Counter { left: 3, calls: 0 });
    assert_eq!(sourcer.name(), "Counter");
    assert_eq!(sourcer.output().id(), 0);
    let before = ports.flags(0);
    for _ in 0..100 {
        assert_eq!(sourcer.event(&mut ports), Ok(Event::NeedData));
    }
    assert_eq!(ports.flags(0), before);
    assert_eq!(sourcer.inner().calls, 0);
    assert!(!input.has_data(&ports));
}

#[test]
fn a_source_generates_then_pushes_then_waits() {
    let mut ports = Ports::new();
    let (output, input) = ports.connect();
    let mut sourcer = Sourcer::create(output, Counter { left: 2, calls: 0 });
    input.set_need_data(&mut ports);

    assert_eq!(sourcer.event(&mut ports), Ok(Event::Sync));
    assert_eq!(sourcer.process(), Ok(()));
    assert_eq!(sourcer.inner().calls, 1);
    assert!(!input.has_data(&ports));

    assert_eq!(sourcer.event(&mut ports), Ok(Event::NeedData));
    assert!(input.has_data(&ports));
    for _ in 0..10 {
        assert_eq!(sourcer.event(&mut ports), Ok(Event::NeedData));
    }
    assert_eq!(sourcer.inner().calls, 1);

    assert_eq!(input.pull_data(&mut ports), Some(block(&[1])));
    assert_eq!(sourcer.event(&mut ports), Ok(Event::Sync));
    assert_eq!(sourcer.process(), Ok(()));
    assert_eq!(sourcer.event(&mut ports), Ok(Event::NeedData));
    assert_eq!(input.pull_data(&mut ports), Some(block(&[0])));

    assert_eq!(sourcer.event(&mut ports), Ok(Event::Sync));
    assert_eq!(sourcer.process(), Ok(()));
    assert!(!input.is_finished(&ports));
    assert_eq!(sourcer.event(&mut ports), Ok(Event::Finished));
    assert!(input.is_finished(&ports));
    assert_eq!(sourcer.event(&mut ports), Ok(Event::Finished));
    assert_eq!(sourcer.into_inner().calls, 3);
}

#[test]
fn a_source_ends_when_its_consumer_has_gone() {
    let mut ports = Ports::new();
    let (output, input) = ports.connect();
    let mut sourcer = Sourcer::create(output, Counter { left: 2, calls: 0 });
    input.set_need_data(&mut ports);
    input.finish(&mut ports);
    assert_eq!(sourcer.event(&mut ports), Ok(Event::Finished));
    assert_eq!(sourcer.event(&mut ports), Ok(Event::Finished));
    assert_eq!(sourcer.inner().calls, 0);
}

#[test]
fn a_failing_source_keeps_nothing() {
    let mut ports = Ports::new();
    let (output, input) = ports.connect();
    let mut sourcer = Sourcer::create(output, Broken);
    input.set_need_data(&mut ports);
    assert_eq!(sourcer.event(&mut ports), Ok(Event::Sync));
    assert_eq!(
        sourcer.process(),
        Err(ErrorCode::ProcessorError("no data today".to_string()))
    );
    assert_eq!(sourcer.event(&mut ports), Ok(Event::Sync));
    assert!(!input.has_data(&ports));
}

#[test]
fn a_transform_passes_blocks_from_its_input_to_its_output() {
    let mut ports = Ports::new();
    let (feed, input) = ports.connect();
    let (output, drain) = ports.connect();
    let mut transformer = Transformer::create(input, output, Double { fail: false });
    assert_eq!(transformer.name(), "Double");
    assert_eq!(transformer.input().id(), 0);
    assert_eq!(transformer.output().id(), 1);

    feed.push_data(&mut ports, block(b"ab")).unwrap();
    assert_eq!(transformer.event(&mut ports), Ok(Event::NeedData));
    assert!(input.has_data(&ports));

    drain.set_need_data(&mut ports);
    assert_eq!(transformer.event(&mut ports), Ok(Event::Sync));
    assert!(!input.has_data(&ports));
    assert_eq!(transformer.process(), Ok(()));
    assert!(!drain.has_data(&ports));

    assert_eq!(transformer.event(&mut ports), Ok(Event::NeedData));
    assert_eq!(drain.pull_data(&mut ports), Some(block(b"abab")));

    assert_eq!(transformer.event(&mut ports), Ok(Event::NeedData));
    assert!(feed.can_push(&ports));

    feed.finish(&mut ports);
    assert!(!drain.is_finished(&ports));
    assert_eq!(transformer.event(&mut ports), Ok(Event::Finished));
    assert!(drain.is_finished(&ports));
    assert_eq!(transformer.event(&mut ports), Ok(Event::Finished));
    let _ = transformer.inner();
    let _ = transformer.into_inner();
}

#[test]
fn a_transform_closes_its_input_when_its_consumer_has_gone() {
    let mut ports = Ports::new();
    let (feed, input) = ports.connect();
    let (output, drain) = ports.connect();
    let mut transformer = Transformer::create(input, output, Double { fail: false });
    drain.finish(&mut ports);
    assert!(!feed.is_finished(&ports));
    assert_eq!(transformer.event(&mut ports), Ok(Event::Finished));
    assert!(feed.is_finished(&ports));
}

#[test]
fn a_failing_transform_keeps_no_result() {
    let mut ports = Ports::new();
    let (feed, input) = ports.connect();
    let (output, drain) = ports.connect();
    let mut transformer = Transformer::create(input, output, Double { fail: true });
    drain.set_need_data(&mut ports);
    feed.push_data(&mut ports, block(b"ab")).unwrap();
    assert_eq!(transformer.event(&mut ports), Ok(Event::Sync));
    assert_eq!(
        transformer.process(),
        Err(ErrorCode::ProcessorError("cannot double".to_string()))
    );
    assert_eq!(transformer.event(&mut ports), Ok(Event::NeedData));
    assert!(!drain.has_data(&ports));
}

#[test]
fn an_async_sinker_reports_async_and_hands_its_block_out() {
    let mut ports = Ports::new();
    let (output, input) = ports.connect();
    let mut sinker = AsyncSinker::create("Remote", input);
    assert_eq!(sinker.name(), "Remote");
    assert_eq!(sinker.input().id(), 0);
    assert_eq!(sinker.event(&mut ports), Ok(Event::NeedData));
    assert_eq!(sinker.take_block(), None);
    output.push_data(&mut ports, block(b"a")).unwrap();
    assert_eq!(sinker.event(&mut ports), Ok(Event::Async));
    assert_eq!(sinker.event(&mut ports), Ok(Event::Async));
    assert_eq!(sinker.take_block(), Some(block(b"a")));
    assert_eq!(sinker.take_block(), None);
    output.finish(&mut ports);
    assert_eq!(sinker.event(&mut ports), Ok(Event::Finished));
}

#[test]
fn only_sync_and_async_are_actionable() {
    assert!(Event::Sync.is_actionable());
    assert!(Event::Async.is_actionable());
    assert!(!Event::NeedData.is_actionable());
    assert!(!Event::Finished.is_actionable());
    assert!(Event::Finished.is_finished());
    assert!(!Event::Sync.is_finished());
}

#[test]
fn a_source_adapter_settles_each_answer_of_its_source() {
    let mut ports = Ports::new();
    let (output, input) = ports.connect();
    let mut sourcer = Sourcer::create(output, Counter { left: 0, calls: 0 });
    input.set_need_data(&mut ports);

    let cause = ErrorCode::ProcessorError("not now".to_string());
    assert_eq!(sourcer.settle(Err(cause.clone())), Err(cause));
    assert_eq!(sourcer.event(&mut ports), Ok(Event::Sync));
    assert!(!input.has_data(&ports));

    assert_eq!(sourcer.settle(Ok(Some(block(b"given")))), Ok(()));
    assert_eq!(sourcer.event(&mut ports), Ok(Event::NeedData));
    assert_eq!(input.pull_data(&mut ports), Some(block(b"given")));

    assert_eq!(sourcer.event(&mut ports), Ok(Event::Sync));
    assert_eq!(sourcer.settle(Ok(None)), Ok(()));
    assert_eq!(sourcer.event(&mut ports), Ok(Event::Finished));
    assert!(input.is_finished(&ports));
    assert_eq!(sourcer.inner().calls, 0);
}

#[test]
fn a_transform_adapter_settles_each_answer_of_its_transform() {
    let mut ports = Ports::new();
    let (_feed, input) = ports.connect();
    let (output, drain) = ports.connect();
    let mut transformer = Transformer::create(input, output, Double { fail: false });
    drain.set_need_data(&mut ports);

    let cause = ErrorCode::ProcessorError("not this one".to_string());
    assert_eq!(transformer.settle(Err(cause.clone())), Err(cause));
    assert_eq!(transformer.event(&mut ports), Ok(Event::NeedData));
    assert!(!drain.has_data(&ports));

    assert_eq!(transformer.settle(Ok(block(b"result"))), Ok(()));
    assert_eq!(transformer.event(&mut ports), Ok(Event::NeedData));
    assert_eq!(drain.pull_data(&mut ports), Some(block(b"result")));
}
