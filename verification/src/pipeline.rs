use vstd::prelude::*;
use crate::datablock::DataBlock;
use crate::exception::ErrorCode;
use crate::port::InputPort;
use crate::port::PortFlags;
use crate::port::PortState;
use crate::port::Ports;
use crate::processor::lemma_event_frame;
use crate::processor::lemma_event_keeps_links;
use crate::processor::lemma_processed_keeps_links;
use crate::processor::lemma_take_keeps_links;
use crate::processor::Event;
use crate::processor::Processor;
use crate::processor::ProcessorState;
use crate::sink::AsyncSinker;
use crate::sink::Sink;
use crate::sink::Sinker;
use crate::sink::SinkerState;
use crate::source::Source;
use crate::source::Sourcer;
use crate::source::SourcerState;
use crate::transform::Transform;
use crate::transform::Transformer;
use crate::transform::TransformerState;

verus! {

/// The kinds of stage a pipeline can be made of.
#[derive(Debug, Clone, Copy, PartialEq, Eq, Structural)]
pub enum PipeKind {
    Sources,
    Transforms,
    Sinks,
    AsyncSinks,
}

/// One stage of a pipeline: processors of one kind that run side by side,
/// one per lane.
pub enum Pipe<S, T, K> {
    /// One source per lane; the head of a pipeline.
    Sources(Vec<S>),
    /// One transform per lane.
    Transforms(Vec<T>),
    /// One sink per lane; the tail of a pipeline.
    Sinks(Vec<K>),
    /// One suspending sink per lane, each given by its name; the tail of a
    /// pipeline.
    AsyncSinks(Vec<&'static str>),
}

impl<S, T, K> Pipe<S, T, K> {
    pub open spec fn kind(&self) -> PipeKind {
        match *self {
            Pipe::Sources(_) => PipeKind::Sources,
            Pipe::Transforms(_) => PipeKind::Transforms,
            Pipe::Sinks(_) => PipeKind::Sinks,
            Pipe::AsyncSinks(_) => PipeKind::AsyncSinks,
        }
    }

    /// Number of lanes of the stage.
    pub open spec fn lanes(&self) -> int {
        match *self {
            Pipe::Sources(v) => v@.len() as int,
            Pipe::Transforms(v) => v@.len() as int,
            Pipe::Sinks(v) => v@.len() as int,
            Pipe::AsyncSinks(v) => v@.len() as int,
        }
    }

    pub fn len(&self) -> (n: usize)
        ensures
            n == self.lanes(),
    {
        match self {
            Pipe::Sources(v) => v.len(),
            Pipe::Transforms(v) => v.len(),
            Pipe::Sinks(v) => v.len(),
            Pipe::AsyncSinks(v) => v.len(),
        }
    }
}

impl<S: Source, T: Transform, K: Sink> Pipe<S, T, K> {
    /// `processor` is the adapter around what the stage holds for `lane`.
    pub open spec fn fills(&self, lane: int, processor: Processor<S, T, K>) -> bool {
        match *self {
            Pipe::Sources(v) => processor.holds_source(v@[lane]),
            Pipe::Transforms(v) => processor.holds_transform(v@[lane]),
            Pipe::Sinks(v) => processor.holds_sink(v@[lane]),
            Pipe::AsyncSinks(v) => processor.holds_async_sink(v@[lane]),
        }
    }
}

/// A pipeline as a mathematical value: its processors in the order of the
/// stages, its ports, and who stands at the two ends of each port.
pub struct PipelineState {
    pub processors: Seq<ProcessorState>,
    pub ports: Seq<PortState>,
    /// `producers[h]` is the processor that writes to port `h`.
    pub producers: Seq<int>,
    /// `consumers[h]` is the processor that reads port `h`. The ports of
    /// the last stage have no consumer until the next stage is added.
    pub consumers: Seq<int>,
    /// Number of processors of each stage, first stage first.
    pub pipes: Seq<int>,
}

impl PipelineState {
    pub open spec fn empty() -> PipelineState {
        PipelineState {
            processors: Seq::empty(),
            ports: Seq::empty(),
            producers: Seq::empty(),
            consumers: Seq::empty(),
            pipes: Seq::empty(),
        }
    }

    /// Number of ports that wait for a consumer: the lanes of the last stage.
    pub open spec fn width(self) -> int {
        self.ports.len() - self.consumers.len()
    }

    /// Processor `pid` stands at the ends of its ports, and only there; its
    /// buffers and histories agree with each other and with its ports.
    pub open spec fn processor_ok(self, pid: int) -> bool {
        let p = self.processors[pid];
        &&& p.valid(self.ports.len() as int)
        &&& p.wf()
        &&& p.linked(self.ports)
        &&& p.output() is Some ==> self.producers[p.output()->Some_0] == pid
        &&& p.input() is Some ==> p.input()->Some_0 < self.consumers.len()
            && self.consumers[p.input()->Some_0] == pid
    }

    /// Port `h` has exactly one producer, at most one consumer, and the
    /// consumer comes after the producer.
    pub open spec fn port_ok(self, h: int) -> bool {
        &&& self.ports[h].wf()
        &&& 0 <= self.producers[h] < self.processors.len()
        &&& self.processors[self.producers[h]].output() == Some(h)
        &&& h < self.consumers.len() ==> {
            &&& 0 <= self.consumers[h] < self.processors.len()
            &&& self.processors[self.consumers[h]].input() == Some(h)
            &&& self.producers[h] < self.consumers[h]
        }
        &&& h >= self.consumers.len() ==> self.ports[h].pulled.len() == 0
    }

    /// Every output port is paired with exactly one input port and the
    /// other way round, no port is shared by more than two processors, and
    /// data only flows forward.
    pub open spec fn wf(self) -> bool {
        &&& self.producers.len() == self.ports.len()
        &&& self.consumers.len() <= self.ports.len()
        &&& forall|pid: int| 0 <= pid < self.processors.len() ==> #[trigger] self.processor_ok(pid)
        &&& forall|h: int| 0 <= h < self.ports.len() ==> #[trigger] self.port_ok(h)
    }

    /// Every port has its consumer: the pipeline ends in sinks.
    pub open spec fn complete(self) -> bool {
        self.processors.len() > 0 && self.width() == 0
    }

    /// The processor that feeds `pid`, if `pid` reads from a port.
    pub open spec fn upstream(self, pid: int) -> Option<int> {
        match self.processors[pid].input() {
            Some(h) => Some(self.producers[h]),
            None => None,
        }
    }

    /// The processor that `pid` feeds, if `pid` writes to a port that has a
    /// consumer.
    pub open spec fn downstream(self, pid: int) -> Option<int> {
        match self.processors[pid].output() {
            Some(h) => if h < self.consumers.len() {
                Some(self.consumers[h])
            } else {
                None
            },
            None => None,
        }
    }

    /// A stage of `lanes` processors of `kind` fits at the end of the
    /// pipeline: sources only at the head, everything else only behind a
    /// stage with the same number of open ports, and never an empty stage.
    pub open spec fn accepts(self, kind: PipeKind, lanes: int) -> bool {
        &&& lanes > 0
        &&& match kind {
            PipeKind::Sources => self.processors.len() == 0,
            _ => lanes == self.width(),
        }
    }

    /// The processor that a new stage of `kind` puts into lane `lane`.
    pub open spec fn newcomer(self, kind: PipeKind, lane: int) -> ProcessorState {
        match kind {
            PipeKind::Sources => ProcessorState::Source(
                SourcerState {
                    output: self.ports.len() + lane,
                    pending: None,
                    exhausted: false,
                    generated: Seq::empty(),
                },
            ),
            PipeKind::Transforms => ProcessorState::Transform(
                TransformerState {
                    input: self.consumers.len() + lane,
                    output: self.ports.len() + lane,
                    input_data: None,
                    output_data: None,
                    taken: Seq::empty(),
                    produced: Seq::empty(),
                },
            ),
            PipeKind::Sinks => ProcessorState::Sink(
                SinkerState::fresh(self.consumers.len() + lane, false),
            ),
            PipeKind::AsyncSinks => ProcessorState::Sink(
                SinkerState::fresh(self.consumers.len() + lane, true),
            ),
        }
    }

    /// The pipeline with the first `lanes` processors of a new stage of
    /// `kind`: each reads the open port of its lane, if the kind reads,
    /// and writes to a fresh port, if the kind writes.
    pub open spec fn grown(self, kind: PipeKind, lanes: int) -> PipelineState {
        let reads = kind != PipeKind::Sources;
        let writes = kind == PipeKind::Sources || kind == PipeKind::Transforms;
        PipelineState {
            processors: self.processors + Seq::new(lanes as nat, |l: int| self.newcomer(kind, l)),
            ports: if writes {
                self.ports + Seq::new(lanes as nat, |l: int| PortState::fresh())
            } else {
                self.ports
            },
            producers: if writes {
                self.producers + Seq::new(lanes as nat, |l: int| self.processors.len() + l)
            } else {
                self.producers
            },
            consumers: if reads {
                self.consumers + Seq::new(lanes as nat, |l: int| self.processors.len() + l)
            } else {
                self.consumers
            },
            pipes: self.pipes,
        }
    }

    /// The pipeline with one more stage.
    pub open spec fn extended(self, kind: PipeKind, lanes: int) -> PipelineState {
        PipelineState { pipes: self.pipes.push(lanes), ..self.grown(kind, lanes) }
    }

    /// The pipeline after processor `pid` was asked for its event.
    pub open spec fn after_event(self, pid: int) -> PipelineState {
        PipelineState {
            processors: self.processors.update(pid, self.processors[pid].after_event(self.ports)),
            ports: self.processors[pid].ports_after_event(self.ports),
            ..self
        }
    }

    /// The event of processor `pid` changed a flag of its input port.
    pub open spec fn input_changed(self, pid: int) -> bool {
        match self.processors[pid].input() {
            Some(h) => self.after_event(pid).ports[h].flags() != self.ports[h].flags(),
            None => false,
        }
    }

    /// The event of processor `pid` changed a flag of its output port.
    pub open spec fn output_changed(self, pid: int) -> bool {
        match self.processors[pid].output() {
            Some(h) => self.after_event(pid).ports[h].flags() != self.ports[h].flags(),
            None => false,
        }
    }

    /// The pipeline with `processor` in the place of processor `pid`.
    pub open spec fn with_processor(self, pid: int, processor: ProcessorState) -> PipelineState {
        PipelineState { processors: self.processors.update(pid, processor), ..self }
    }

    /// The pipeline with every port finished.
    pub open spec fn cancelled(self) -> PipelineState {
        PipelineState {
            ports: Seq::new(self.ports.len(), |h: int| self.ports[h].finish()),
            ..self
        }
    }

    /// Every port is finished.
    pub open spec fn all_ports_finished(self) -> bool {
        forall|h: int| 0 <= h < self.ports.len() ==> (#[trigger] self.ports[h]).finished
    }
}

impl PipelineState {
    /// `later` can come after `self` in a run: the wiring is the same, no
    /// port was reopened, and every history has only grown.
    pub open spec fn evolves_to(self, later: PipelineState) -> bool {
        &&& later.processors.len() == self.processors.len()
        &&& later.ports.len() == self.ports.len()
        &&& later.producers == self.producers
        &&& later.consumers == self.consumers
        &&& later.pipes == self.pipes
        &&& forall|h: int|
            0 <= h < self.ports.len() ==> (#[trigger] self.ports[h]).grows_to(later.ports[h])
        &&& forall|pid: int|
            0 <= pid < self.processors.len() ==> (#[trigger] self.processors[pid]).grows_to(
                later.processors[pid],
            )
    }
}

/// A pipeline can come after itself.
pub proof fn lemma_evolves_refl(s: PipelineState)
    ensures
        s.evolves_to(s),
{
    assert forall|h: int| 0 <= h < s.ports.len() implies (#[trigger] s.ports[h]).grows_to(
        s.ports[h],
    ) by {
        crate::port::lemma_prefix_refl(s.ports[h].pushed);
        crate::port::lemma_prefix_refl(s.ports[h].pulled);
    }
    assert forall|pid: int| 0 <= pid < s.processors.len() implies (#[trigger] s.processors[pid]).grows_to(
        s.processors[pid],
    ) by {
        crate::port::lemma_prefix_refl(s.processors[pid].consumed());
        crate::port::lemma_prefix_refl(s.processors[pid].produced());
    }
}

/// What can come after what can come after a pipeline can come after the
/// pipeline.
pub proof fn lemma_evolves_trans(a: PipelineState, b: PipelineState, c: PipelineState)
    requires
        a.evolves_to(b),
        b.evolves_to(c),
    ensures
        a.evolves_to(c),
{
    assert forall|h: int| 0 <= h < a.ports.len() implies (#[trigger] a.ports[h]).grows_to(
        c.ports[h],
    ) by {
        assert(b.ports[h].grows_to(c.ports[h]));
        crate::port::lemma_grows_trans(a.ports[h], b.ports[h], c.ports[h]);
    }
    assert forall|pid: int| 0 <= pid < a.processors.len() implies (#[trigger] a.processors[pid]).grows_to(
        c.processors[pid],
    ) by {
        assert(b.processors[pid].grows_to(c.processors[pid]));
        crate::processor::lemma_processor_grows_trans(
            a.processors[pid],
            b.processors[pid],
            c.processors[pid],
        );
    }
}

/// Asking a processor for its event is a move of a run.
pub proof fn lemma_after_event_evolves(s: PipelineState, pid: int)
    requires
        s.wf(),
        0 <= pid < s.processors.len(),
    ensures
        s.evolves_to(s.after_event(pid)),
{
    let e = s.after_event(pid);
    assert(s.processor_ok(pid));
    lemma_event_frame(s.processors[pid], s.ports);
    crate::processor::lemma_event_grows(s.processors[pid], s.ports);
    lemma_evolves_refl(s);
    assert forall|q: int| 0 <= q < s.processors.len() implies (#[trigger] s.processors[q]).grows_to(
        e.processors[q],
    ) by {
        assert(s.processors[q].grows_to(s.processors[q]));
    }
}

/// A step of a processor is a move of a run.
pub proof fn lemma_with_processor_evolves(s: PipelineState, pid: int, after: ProcessorState)
    requires
        0 <= pid < s.processors.len(),
        s.processors[pid].grows_to(after),
    ensures
        s.evolves_to(s.with_processor(pid, after)),
{
    let e = s.with_processor(pid, after);
    lemma_evolves_refl(s);
    assert forall|q: int| 0 <= q < s.processors.len() implies (#[trigger] s.processors[q]).grows_to(
        e.processors[q],
    ) by {
        assert(s.processors[q].grows_to(s.processors[q]));
    }
}

/// Finishing every port is a move of a run.
pub proof fn lemma_cancelled_evolves(s: PipelineState)
    ensures
        s.evolves_to(s.cancelled()),
{
    let e = s.cancelled();
    lemma_evolves_refl(s);
    assert forall|h: int| 0 <= h < s.ports.len() implies (#[trigger] s.ports[h]).grows_to(
        e.ports[h],
    ) by {
        crate::port::lemma_apply_grows(s.ports[h], crate::port::PortOp::Finish);
    }
}

impl PipelineState {
    /// The processor at the head of the chain that leads to `pid`.
    pub open spec fn origin(self, pid: int) -> int
        decreases pid,
    {
        match self.upstream(pid) {
            Some(u) => if 0 <= u < pid {
                self.origin(u)
            } else {
                pid
            },
            None => pid,
        }
    }

    /// Processor `pid` hands on what it was given: each block that it
    /// produced so far is the block that it took at that place. This holds
    /// of every source and sink; of a transform it says that the transform
    /// left the blocks as they were.
    pub open spec fn relays(self, pid: int) -> bool {
        match self.processors[pid] {
            ProcessorState::Transform(t) => t.produced.is_prefix_of(t.taken),
            _ => true,
        }
    }

    /// Every processor on the chain that leads to `pid` hands on what it
    /// was given.
    pub open spec fn fed_faithfully(self, pid: int) -> bool
        decreases pid,
    {
        match self.upstream(pid) {
            Some(u) => if 0 <= u < pid {
                self.relays(u) && self.fed_faithfully(u)
            } else {
                true
            },
            None => true,
        }
    }
}

/// First in, first out on every edge: what the consumer of a port has
/// received so far is the beginning of what the producer has emitted, block
/// for block and in the same order.
pub proof fn lemma_fifo_per_edge(s: PipelineState, h: int)
    requires
        s.wf(),
        0 <= h < s.consumers.len(),
    ensures
        s.processors[s.consumers[h]].received().is_prefix_of(
            s.processors[s.producers[h]].emitted(),
        ),
{
    assert(s.port_ok(h));
    assert(s.processor_ok(s.consumers[h]));
    assert(s.processor_ok(s.producers[h]));
    let port = s.ports[h];
    crate::port::lemma_prefix_refl(port.pulled);
    if let Some(block) = port.slot {
        crate::port::lemma_prefix_push(port.pulled, block);
    }
}

/// First in, first out along a chain: if every processor between a source
/// and `pid` hands on the blocks as it got them, then what `pid` has
/// received, and what it has worked on, is the beginning of what the source
/// at the head of its chain has generated, in the same order.
pub proof fn lemma_fifo_along_chain(s: PipelineState, pid: int)
    requires
        s.wf(),
        0 <= pid < s.processors.len(),
        s.fed_faithfully(pid),
    ensures
        0 <= s.origin(pid) <= pid,
        s.processors[pid].input() is Some ==> s.processors[pid].received().is_prefix_of(
            s.processors[s.origin(pid)].produced(),
        ),
        s.processors[pid].input() is Some ==> s.processors[pid].consumed().is_prefix_of(
            s.processors[s.origin(pid)].produced(),
        ),
    decreases pid,
{
    let p = s.processors[pid];
    assert(s.processor_ok(pid));
    if let Some(h) = p.input() {
        assert(s.port_ok(h));
        let u = s.producers[h];
        let feeder = s.processors[u];
        let head = s.processors[s.origin(pid)];
        assert(s.processor_ok(u));
        lemma_fifo_per_edge(s, h);
        lemma_fifo_along_chain(s, u);
        crate::processor::lemma_work_in_order(feeder);
        crate::processor::lemma_work_in_order(p);
        crate::port::lemma_prefix_trans(p.received(), feeder.emitted(), feeder.produced());
        if feeder.input() is Some {
            assert(feeder is Transform);
            crate::port::lemma_prefix_trans(p.received(), feeder.produced(), feeder.consumed());
            crate::port::lemma_prefix_trans(p.received(), feeder.consumed(), head.produced());
        }
        crate::port::lemma_prefix_trans(p.consumed(), p.received(), head.produced());
    }
}

/// A well-formed pipeline stays well formed when a stage that fits is added,
/// and the new stage leaves as many ports open as it has writers.
pub proof fn lemma_extended_wf(s: PipelineState, kind: PipeKind, lanes: int)
    requires
        s.wf(),
        s.accepts(kind, lanes),
    ensures
        s.extended(kind, lanes).wf(),
        s.extended(kind, lanes).width() == if kind == PipeKind::Sources || kind
            == PipeKind::Transforms {
            lanes
        } else {
            0
        },
{
    let e = s.extended(kind, lanes);
    if kind == PipeKind::Sources {
        if s.ports.len() > 0 {
            assert(s.port_ok(0));
        }
    }
    assert forall|pid: int| 0 <= pid < e.processors.len() implies #[trigger] e.processor_ok(pid) by {
        if pid < s.processors.len() {
            assert(s.processor_ok(pid));
            assert(e.processors[pid] == s.processors[pid]);
            let p = s.processors[pid];
            if p.input() is Some {
                assert(e.ports[p.input()->Some_0] == s.ports[p.input()->Some_0]);
            }
            if p.output() is Some {
                assert(e.ports[p.output()->Some_0] == s.ports[p.output()->Some_0]);
            }
        } else {
            let l = pid - s.processors.len();
            let p = s.newcomer(kind, l);
            assert(e.processors[pid] == p);
            if kind != PipeKind::Sources {
                let h = s.consumers.len() + l;
                assert(s.port_ok(h));
                assert(e.ports[h] == s.ports[h]);
                assert(e.ports[h].pulled =~= p.received());
                assert(e.consumers[h] == pid);
            }
            if kind == PipeKind::Sources || kind == PipeKind::Transforms {
                let h = s.ports.len() + l;
                assert(e.ports[h] == PortState::fresh());
                assert(e.ports[h].pushed =~= p.emitted());
                assert(e.producers[h] == pid);
            }
        }
    }
    assert forall|h: int| 0 <= h < e.ports.len() implies #[trigger] e.port_ok(h) by {
        if h < s.ports.len() {
            assert(s.port_ok(h));
            assert(e.processors[s.producers[h]] == s.processors[s.producers[h]]);
            if h < s.consumers.len() {
                assert(e.processors[s.consumers[h]] == s.processors[s.consumers[h]]);
            } else if h < e.consumers.len() {
                let l = h - s.consumers.len();
                assert(e.processors[s.processors.len() + l] == s.newcomer(kind, l));
            }
        } else {
            let l = h - s.ports.len();
            assert(e.processors[s.processors.len() + l] == s.newcomer(kind, l));
        }
    }
}

/// Asking a processor for its event keeps the pipeline well formed: blocks
/// stay in order on every edge, the wiring is as it was, and no port is
/// reopened.
pub proof fn lemma_after_event_wf(s: PipelineState, pid: int)
    requires
        s.wf(),
        0 <= pid < s.processors.len(),
    ensures
        s.after_event(pid).wf(),
        s.after_event(pid).ports.len() == s.ports.len(),
        forall|h: int|
            0 <= h < s.ports.len() && s.ports[h].finished ==> (#[trigger] s.after_event(
                pid,
            ).ports[h]).finished,
{
    let e = s.after_event(pid);
    let p = s.processors[pid];
    assert(s.processor_ok(pid));
    lemma_event_frame(p, s.ports);
    lemma_event_keeps_links(p, s.ports);
    assert forall|q: int| 0 <= q < e.processors.len() implies #[trigger] e.processor_ok(q) by {
        assert(s.processor_ok(q));
        if q != pid {
            let other = s.processors[q];
            assert(e.processors[q] == other);
            if other.input() is Some {
                let h = other.input()->Some_0;
                assert(Some(h) != p.input());
                assert(e.ports[h].pulled == s.ports[h].pulled);
            }
            if other.output() is Some {
                let h = other.output()->Some_0;
                assert(Some(h) != p.output());
                assert(e.ports[h].pushed == s.ports[h].pushed);
            }
        }
    }
    assert forall|h: int| 0 <= h < e.ports.len() implies #[trigger] e.port_ok(h) by {
        assert(s.port_ok(h));
        assert(e.ports[h].wf());
    }
}

/// Replacing a processor by one with the same ports and the same record of
/// what went through them keeps the pipeline well formed.
pub proof fn lemma_with_processor_wf(s: PipelineState, pid: int, after: ProcessorState)
    requires
        s.wf(),
        0 <= pid < s.processors.len(),
        after.wf(),
        after.input() == s.processors[pid].input(),
        after.output() == s.processors[pid].output(),
        after.received() == s.processors[pid].received(),
        after.emitted() == s.processors[pid].emitted(),
    ensures
        s.with_processor(pid, after).wf(),
{
    let e = s.with_processor(pid, after);
    assert forall|q: int| 0 <= q < e.processors.len() implies #[trigger] e.processor_ok(q) by {
        assert(s.processor_ok(q));
    }
    assert forall|h: int| 0 <= h < e.ports.len() implies #[trigger] e.port_ok(h) by {
        assert(s.port_ok(h));
    }
}

/// Finishing every port keeps the pipeline well formed.
pub proof fn lemma_cancelled_wf(s: PipelineState)
    requires
        s.wf(),
    ensures
        s.cancelled().wf(),
        s.cancelled().all_ports_finished(),
{
    let e = s.cancelled();
    assert forall|q: int| 0 <= q < e.processors.len() implies #[trigger] e.processor_ok(q) by {
        assert(s.processor_ok(q));
    }
    assert forall|h: int| 0 <= h < e.ports.len() implies #[trigger] e.port_ok(h) by {
        assert(s.port_ok(h));
    }
}

/// What asking a processor for its event gave: the event, and whether the
/// call changed a flag of the processor's input or of its output port, so
/// that the processor at the other end has a reason to look again.
#[derive(Debug, Clone, Copy, PartialEq, Eq, Structural)]
pub struct Polled {
    pub event: Event,
    pub input_changed: bool,
    pub output_changed: bool,
}

/// The full graph of one query: stages of processors from sources to sinks,
/// and the ports between them.
pub struct Pipeline<S: Source, T: Transform, K: Sink> {
    processors: Vec<Processor<S, T, K>>,
    ports: Ports,
    producers: Vec<usize>,
    consumers: Vec<usize>,
    open_inputs: Vec<InputPort>,
    pipes: Vec<usize>,
}

impl<S: Source, T: Transform, K: Sink> View for Pipeline<S, T, K> {
    type V = PipelineState;

    closed spec fn view(&self) -> PipelineState {
        PipelineState {
            processors: Seq::new(self.processors@.len(), |i: int| self.processors@[i]@),
            ports: self.ports@,
            producers: Seq::new(self.producers@.len(), |i: int| self.producers@[i] as int),
            consumers: Seq::new(self.consumers@.len(), |i: int| self.consumers@[i] as int),
            pipes: Seq::new(self.pipes@.len(), |i: int| self.pipes@[i] as int),
        }
    }
}

impl<S: Source, T: Transform, K: Sink> Pipeline<S, T, K> {
    /// Processor `pid`, capability and all.
    pub closed spec fn processor_at(&self, pid: int) -> Processor<S, T, K> {
        self.processors@[pid]
    }

    /// The name of processor `pid`.
    pub open spec fn spec_name(&self, pid: int) -> &'static str {
        self.processor_at(pid).spec_name()
    }

    /// The model of the pipeline holds the model of each of its processors.
    pub proof fn lemma_processor_at(&self, pid: int)
        requires
            0 <= pid < self@.processors.len(),
        ensures
            self.processor_at(pid)@ == self@.processors[pid],
    {
    }

    /// Every processor but `pid` is the one it was in `before`.
    pub open spec fn same_but(&self, before: &Self, pid: int) -> bool {
        forall|q: int|
            0 <= q < before@.processors.len() && q != pid ==> #[trigger] self.processor_at(q)
                == before.processor_at(q)
    }

    /// The handles of the open ports are those of the ports without a
    /// consumer, lane by lane.
    pub closed spec fn open_inputs_ok(&self) -> bool {
        &&& self.open_inputs@.len() == self@.width()
        &&& forall|l: int|
            0 <= l < self.open_inputs@.len() ==> (#[trigger] self.open_inputs@[l]).index()
                == self@.consumers.len() + l
    }

    /// The pipeline is wired as a pipeline must be.
    pub open spec fn wf(&self) -> bool {
        self@.wf() && self.open_inputs_ok()
    }

    /// A pipeline without any stage.
    pub fn create() -> (pipeline: Pipeline<S, T, K>)
        ensures
            pipeline@ == PipelineState::empty(),
            pipeline@.pristine(),
            pipeline.wf(),
    {
        let pipeline = Pipeline {
            processors: Vec::new(),
            ports: Ports::new(),
            producers: Vec::new(),
            consumers: Vec::new(),
            open_inputs: Vec::new(),
            pipes: Vec::new(),
        };
        assert(pipeline@.processors =~= PipelineState::empty().processors);
        assert(pipeline@.ports =~= PipelineState::empty().ports);
        assert(pipeline@.producers =~= PipelineState::empty().producers);
        assert(pipeline@.consumers =~= PipelineState::empty().consumers);
        assert(pipeline@.pipes =~= PipelineState::empty().pipes);
        pipeline
    }

    fn add_sources(&mut self, sources: Vec<S>)
        requires
            old(self).wf(),
            old(self)@.accepts(PipeKind::Sources, sources@.len() as int),
        ensures
            final(self)@ == old(self)@.extended(PipeKind::Sources, sources@.len() as int),
            final(self).wf(),
            final(self).same_but(old(self), -1),
            forall|lane: int|
                0 <= lane < sources@.len() ==> (#[trigger] final(self).processor_at(
                    old(self)@.processors.len() + lane,
                )).holds_source(sources@[lane]),
    {
        let ghost base = self@;
        let ghost given = sources@;
        let ghost began = self.processors@;
        let lanes: usize = sources.len();
        proof {
            if base.ports.len() > 0 {
                assert(base.port_ok(0));
            }
            assert(self@ =~= base.grown(PipeKind::Sources, 0));
        }
        for source in it: sources
            invariant
                base.wf(),
                it.seq() == given,
                began.len() == base.processors.len(),
                self.processors@.len() == began.len() + it.index(),
                forall|q: int| 0 <= q < began.len() ==> #[trigger] self.processors@[q] == began[q],
                forall|lane: int|
                    0 <= lane < it.index() ==> (#[trigger] self.processors@[began.len() + lane]).holds_source(
                        given[lane],
                    ),
                base.ports.len() == 0,
                self@ == base.grown(PipeKind::Sources, it.index() as int),
                self.open_inputs@.len() == it.index(),
                forall|l: int|
                    0 <= l < self.open_inputs@.len() ==> (#[trigger] self.open_inputs@[l]).index()
                        == l,
        {
            let ghost lane = it.index() as int;
            let ghost before = self@;
            let pid: usize = self.processors.len();
            assert(pid == base.processors.len() + lane);
            let (output, input) = self.ports.connect();
            self.processors.push(Processor::Source(Sourcer::create(output, source)));
            self.producers.push(pid);
            self.open_inputs.push(input);
            proof {
                let now = self@;
                let want = base.grown(PipeKind::Sources, lane + 1);
                let newcomer = base.newcomer(PipeKind::Sources, lane);
                assert(now.processors =~= before.processors.push(newcomer));
                assert(before.processors.push(newcomer) =~= want.processors);
                assert(now.producers =~= before.producers.push(pid as int));
                assert(before.producers.push(pid as int) =~= want.producers);
                assert(now.ports =~= want.ports);
                assert(now.producers =~= want.producers);
                assert(now.consumers =~= want.consumers);
                assert(now.pipes =~= want.pipes);
            }
        }
        self.pipes.push(lanes);
        proof {
            assert(self@.pipes =~= base.pipes.push(lanes as int));
            assert(self@ =~= base.extended(PipeKind::Sources, lanes as int));
            lemma_extended_wf(base, PipeKind::Sources, lanes as int);
        }
    }

    fn add_transforms(&mut self, transforms: Vec<T>)
        requires
            old(self).wf(),
            old(self)@.accepts(PipeKind::Transforms, transforms@.len() as int),
        ensures
            final(self)@ == old(self)@.extended(PipeKind::Transforms, transforms@.len() as int),
            final(self).wf(),
            final(self).same_but(old(self), -1),
            forall|lane: int|
                0 <= lane < transforms@.len() ==> (#[trigger] final(self).processor_at(
                    old(self)@.processors.len() + lane,
                )).holds_transform(transforms@[lane]),
    {
        let ghost base = self@;
        let ghost given = transforms@;
        let ghost began = self.processors@;
        let lanes: usize = transforms.len();
        let mut inputs: Vec<InputPort> = Vec::new();
        std::mem::swap(&mut inputs, &mut self.open_inputs);
        proof {
            assert(self@ =~= base.grown(PipeKind::Transforms, 0));
        }
        for transform in it: transforms
            invariant
                base.wf(),
                it.seq() == given,
                began.len() == base.processors.len(),
                self.processors@.len() == began.len() + it.index(),
                forall|q: int| 0 <= q < began.len() ==> #[trigger] self.processors@[q] == began[q],
                forall|lane: int|
                    0 <= lane < it.index() ==> (#[trigger] self.processors@[began.len() + lane]).holds_transform(
                        given[lane],
                    ),
                lanes == base.width(),
                lanes == it.seq().len(),
                inputs@.len() == lanes,
                forall|l: int|
                    0 <= l < inputs@.len() ==> (#[trigger] inputs@[l]).index() == base.consumers.len()
                        + l,
                self@ == base.grown(PipeKind::Transforms, it.index() as int),
                self.open_inputs@.len() == it.index(),
                forall|l: int|
                    0 <= l < self.open_inputs@.len() ==> (#[trigger] self.open_inputs@[l]).index()
                        == base.ports.len() + l,
        {
            let ghost lane = it.index() as int;
            let ghost before = self@;
            let pid: usize = self.processors.len();
            assert(pid == base.processors.len() + lane);
            let lane_input = inputs[self.open_inputs.len()];
            let (output, input) = self.ports.connect();
            self.processors.push(
                Processor::Transform(Transformer::create(lane_input, output, transform)),
            );
            self.producers.push(pid);
            self.consumers.push(pid);
            self.open_inputs.push(input);
            proof {
                let now = self@;
                let want = base.grown(PipeKind::Transforms, lane + 1);
                let newcomer = base.newcomer(PipeKind::Transforms, lane);
                assert(now.processors =~= before.processors.push(newcomer));
                assert(before.processors.push(newcomer) =~= want.processors);
                assert(now.producers =~= before.producers.push(pid as int));
                assert(before.producers.push(pid as int) =~= want.producers);
                assert(now.consumers =~= before.consumers.push(pid as int));
                assert(before.consumers.push(pid as int) =~= want.consumers);
                assert(now.ports =~= want.ports);
                assert(now.producers =~= want.producers);
                assert(now.consumers =~= want.consumers);
                assert(now.pipes =~= want.pipes);
            }
        }
        self.pipes.push(lanes);
        proof {
            assert(self@.pipes =~= base.pipes.push(lanes as int));
            assert(self@ =~= base.extended(PipeKind::Transforms, lanes as int));
            lemma_extended_wf(base, PipeKind::Transforms, lanes as int);
        }
    }

    fn add_sinks(&mut self, sinks: Vec<K>)
        requires
            old(self).wf(),
            old(self)@.accepts(PipeKind::Sinks, sinks@.len() as int),
        ensures
            final(self)@ == old(self)@.extended(PipeKind::Sinks, sinks@.len() as int),
            final(self).wf(),
            final(self).same_but(old(self), -1),
            forall|lane: int|
                0 <= lane < sinks@.len() ==> (#[trigger] final(self).processor_at(
                    old(self)@.processors.len() + lane,
                )).holds_sink(sinks@[lane]),
    {
        let ghost base = self@;
        let ghost given = sinks@;
        let ghost began = self.processors@;
        let lanes: usize = sinks.len();
        let mut inputs: Vec<InputPort> = Vec::new();
        std::mem::swap(&mut inputs, &mut self.open_inputs);
        proof {
            assert(self@ =~= base.grown(PipeKind::Sinks, 0));
        }
        for sink in it: sinks
            invariant
                base.wf(),
                it.seq() == given,
                began.len() == base.processors.len(),
                self.processors@.len() == began.len() + it.index(),
                forall|q: int| 0 <= q < began.len() ==> #[trigger] self.processors@[q] == began[q],
                forall|lane: int|
                    0 <= lane < it.index() ==> (#[trigger] self.processors@[began.len() + lane]).holds_sink(
                        given[lane],
                    ),
                lanes == base.width(),
                lanes == it.seq().len(),
                inputs@.len() == lanes,
                forall|l: int|
                    0 <= l < inputs@.len() ==> (#[trigger] inputs@[l]).index() == base.consumers.len()
                        + l,
                self@ == base.grown(PipeKind::Sinks, it.index() as int),
                self.open_inputs@.len() == 0,
                self.consumers@.len() == base.consumers.len() + it.index(),
        {
            let ghost lane = it.index() as int;
            let ghost before = self@;
            let pid: usize = self.processors.len();
            assert(pid == base.processors.len() + lane);
            let taken: usize = self.consumers.len() - (self.ports.len() - lanes);
            let lane_input = inputs[taken];
            self.processors.push(Processor::Sink(Sinker::create(lane_input, sink)));
            self.consumers.push(pid);
            proof {
                let now = self@;
                let want = base.grown(PipeKind::Sinks, lane + 1);
                let newcomer = base.newcomer(PipeKind::Sinks, lane);
                assert(now.processors =~= before.processors.push(newcomer));
                assert(before.processors.push(newcomer) =~= want.processors);
                assert(now.consumers =~= before.consumers.push(pid as int));
                assert(before.consumers.push(pid as int) =~= want.consumers);
                assert(now.ports =~= want.ports);
                assert(now.producers =~= want.producers);
                assert(now.consumers =~= want.consumers);
                assert(now.pipes =~= want.pipes);
            }
        }
        self.pipes.push(lanes);
        proof {
            assert(self@.pipes =~= base.pipes.push(lanes as int));
            assert(self@ =~= base.extended(PipeKind::Sinks, lanes as int));
            lemma_extended_wf(base, PipeKind::Sinks, lanes as int);
        }
    }

    fn add_async_sinks(&mut self, names: Vec<&'static str>)
        requires
            old(self).wf(),
            old(self)@.accepts(PipeKind::AsyncSinks, names@.len() as int),
        ensures
            final(self)@ == old(self)@.extended(PipeKind::AsyncSinks, names@.len() as int),
            final(self).wf(),
            final(self).same_but(old(self), -1),
            forall|lane: int|
                0 <= lane < names@.len() ==> (#[trigger] final(self).processor_at(
                    old(self)@.processors.len() + lane,
                )).holds_async_sink(names@[lane]),
    {
        let ghost base = self@;
        let ghost given = names@;
        let ghost began = self.processors@;
        let lanes: usize = names.len();
        let mut inputs: Vec<InputPort> = Vec::new();
        std::mem::swap(&mut inputs, &mut self.open_inputs);
        proof {
            assert(self@ =~= base.grown(PipeKind::AsyncSinks, 0));
        }
        for name in it: names
            invariant
                base.wf(),
                it.seq() == given,
                began.len() == base.processors.len(),
                self.processors@.len() == began.len() + it.index(),
                forall|q: int| 0 <= q < began.len() ==> #[trigger] self.processors@[q] == began[q],
                forall|lane: int|
                    0 <= lane < it.index() ==> (#[trigger] self.processors@[began.len() + lane]).holds_async_sink(
                        given[lane],
                    ),
                lanes == base.width(),
                lanes == it.seq().len(),
                inputs@.len() == lanes,
                forall|l: int|
                    0 <= l < inputs@.len() ==> (#[trigger] inputs@[l]).index() == base.consumers.len()
                        + l,
                self@ == base.grown(PipeKind::AsyncSinks, it.index() as int),
                self.open_inputs@.len() == 0,
                self.consumers@.len() == base.consumers.len() + it.index(),
        {
            let ghost lane = it.index() as int;
            let ghost before = self@;
            let pid: usize = self.processors.len();
            assert(pid == base.processors.len() + lane);
            let taken: usize = self.consumers.len() - (self.ports.len() - lanes);
            let lane_input = inputs[taken];
            self.processors.push(Processor::AsyncSink(AsyncSinker::create(name, lane_input)));
            self.consumers.push(pid);
            proof {
                let now = self@;
                let want = base.grown(PipeKind::AsyncSinks, lane + 1);
                let newcomer = base.newcomer(PipeKind::AsyncSinks, lane);
                assert(now.processors =~= before.processors.push(newcomer));
                assert(before.processors.push(newcomer) =~= want.processors);
                assert(now.consumers =~= before.consumers.push(pid as int));
                assert(before.consumers.push(pid as int) =~= want.consumers);
                assert(now.ports =~= want.ports);
                assert(now.producers =~= want.producers);
                assert(now.consumers =~= want.consumers);
                assert(now.pipes =~= want.pipes);
            }
        }
        self.pipes.push(lanes);
        proof {
            assert(self@.pipes =~= base.pipes.push(lanes as int));
            assert(self@ =~= base.extended(PipeKind::AsyncSinks, lanes as int));
            lemma_extended_wf(base, PipeKind::AsyncSinks, lanes as int);
        }
    }

    /// Number of processors.
    pub fn len(&self) -> (n: usize)
        ensures
            n == self@.processors.len(),
    {
        self.processors.len()
    }

    /// Number of stages.
    pub fn num_pipes(&self) -> (n: usize)
        ensures
            n == self@.pipes.len(),
    {
        self.pipes.len()
    }

    /// Number of processors of stage `pipe`.
    pub fn pipe_len(&self, pipe: usize) -> (n: usize)
        requires
            pipe < self@.pipes.len(),
        ensures
            n == self@.pipes[pipe as int],
    {
        self.pipes[pipe]
    }

    /// Number of ports that wait for a consumer.
    pub fn width(&self) -> (n: usize)
        requires
            self.wf(),
        ensures
            n == self@.width(),
    {
        self.ports.len() - self.consumers.len()
    }

    /// True when the pipeline ends in sinks, so that it can be run.
    pub fn is_complete(&self) -> (b: bool)
        requires
            self.wf(),
        ensures
            b == self@.complete(),
    {
        self.processors.len() > 0 && self.ports.len() == self.consumers.len()
    }

    /// Processor `pid`, to look at.
    pub fn processor(&self, pid: usize) -> (processor: &Processor<S, T, K>)
        requires
            pid < self@.processors.len(),
        ensures
            *processor == self.processor_at(pid as int),
            processor@ == self@.processors[pid as int],
    {
        &self.processors[pid]
    }

    /// The name of processor `pid`.
    pub fn name(&self, pid: usize) -> (name: &'static str)
        requires
            pid < self@.processors.len(),
        ensures
            name == self.spec_name(pid as int),
    {
        self.processors[pid].name()
    }

    /// The processor that feeds `pid`.
    pub fn upstream(&self, pid: usize) -> (r: Option<usize>)
        requires
            self.wf(),
            pid < self@.processors.len(),
        ensures
            match r {
                Some(q) => self@.upstream(pid as int) == Some(q as int) && q < self@.processors.len(),
                None => self@.upstream(pid as int) is None,
            },
    {
        proof {
            assert(self@.processor_ok(pid as int));
        }
        match self.processors[pid].input_id() {
            Some(h) => {
                proof {
                    assert(self@.port_ok(h as int));
                }
                Some(self.producers[h])
            },
            None => None,
        }
    }

    /// The processor that `pid` feeds.
    pub fn downstream(&self, pid: usize) -> (r: Option<usize>)
        requires
            self.wf(),
            pid < self@.processors.len(),
        ensures
            match r {
                Some(q) => self@.downstream(pid as int) == Some(q as int) && q
                    < self@.processors.len(),
                None => self@.downstream(pid as int) is None,
            },
    {
        proof {
            assert(self@.processor_ok(pid as int));
        }
        match self.processors[pid].output_id() {
            Some(h) => {
                proof {
                    assert(self@.port_ok(h as int));
                }
                if h < self.consumers.len() {
                    Some(self.consumers[h])
                } else {
                    None
                }
            },
            None => None,
        }
    }

    /// The lane of processor `pid`: the number of the source at the head of
    /// the chain that leads to it. The sources are the first stage of a
    /// pipeline, so the source of lane `l` is processor `l`. `None` when
    /// the pipeline has no processor `pid`.
    pub fn lane_of(&self, pid: usize) -> (lane: Option<usize>)
        requires
            self.wf(),
        ensures
            match lane {
                Some(l) => pid < self@.processors.len() && l == self@.origin(pid as int),
                None => pid >= self@.processors.len(),
            },
    {
        if pid >= self.processors.len() {
            return None;
        }
        let mut at: usize = pid;
        loop
            invariant
                self.wf(),
                pid < self@.processors.len(),
                at < self@.processors.len(),
                self@.origin(at as int) == self@.origin(pid as int),
            decreases at,
        {
            proof {
                assert(self@.processor_ok(at as int));
                if self@.processors[at as int].input() is Some {
                    assert(self@.port_ok(self@.processors[at as int].input()->Some_0));
                }
            }
            match self.upstream(at) {
                Some(feeder) => {
                    at = feeder;
                },
                None => {
                    return Some(at);
                },
            }
        }
    }

    /// The flags of the port that processor `pid` reads from.
    pub fn input_flags(&self, pid: usize) -> (flags: Option<PortFlags>)
        requires
            self.wf(),
            pid < self@.processors.len(),
        ensures
            match flags {
                Some(f) => self@.processors[pid as int].input() is Some && f
                    == self@.ports[self@.processors[pid as int].input()->Some_0].flags(),
                None => self@.processors[pid as int].input() is None,
            },
    {
        proof {
            assert(self@.processor_ok(pid as int));
        }
        match self.processors[pid].input_id() {
            Some(h) => Some(self.ports.flags(h)),
            None => None,
        }
    }

    /// The flags of the port that processor `pid` writes to.
    pub fn output_flags(&self, pid: usize) -> (flags: Option<PortFlags>)
        requires
            self.wf(),
            pid < self@.processors.len(),
        ensures
            match flags {
                Some(f) => self@.processors[pid as int].output() is Some && f
                    == self@.ports[self@.processors[pid as int].output()->Some_0].flags(),
                None => self@.processors[pid as int].output() is None,
            },
    {
        proof {
            assert(self@.processor_ok(pid as int));
        }
        match self.processors[pid].output_id() {
            Some(h) => Some(self.ports.flags(h)),
            None => None,
        }
    }

    /// Asks processor `pid` for its event, and says which of its ports the
    /// call changed.
    pub fn event(&mut self, pid: usize) -> (r: Polled)
        requires
            old(self).wf(),
            pid < old(self)@.processors.len(),
        ensures
            final(self).wf(),
            final(self)@ == old(self)@.after_event(pid as int),
            r.event == old(self)@.processors[pid as int].event(old(self)@.ports),
            r.input_changed == old(self)@.input_changed(pid as int),
            r.output_changed == old(self)@.output_changed(pid as int),
            final(self).same_but(old(self), pid as int),
            final(self).processor_at(pid as int).keeps_capability_of(
                &old(self).processor_at(pid as int),
            ),
    {
        let ghost before = self@;
        proof {
            assert(before.processor_ok(pid as int));
            lemma_after_event_wf(before, pid as int);
            lemma_event_frame(before.processors[pid as int], before.ports);
        }
        let input_before = self.input_flags(pid);
        let output_before = self.output_flags(pid);
        let answer = self.processors[pid].event(&mut self.ports);
        proof {
            assert(self@.processors =~= before.after_event(pid as int).processors);
            assert(self@.producers =~= before.producers);
            assert(self@.consumers =~= before.consumers);
            assert(self@.pipes =~= before.pipes);
            assert(self@ == before.after_event(pid as int));
        }
        let input_after = self.input_flags(pid);
        let output_after = self.output_flags(pid);
        let input_changed = match (input_before, input_after) {
            (Some(a), Some(b)) => a != b,
            _ => false,
        };
        let output_changed = match (output_before, output_after) {
            (Some(a), Some(b)) => a != b,
            _ => false,
        };
        let event = match answer {
            Ok(event) => event,
            Err(_) => Event::Finished,
        };
        Polled { event, input_changed, output_changed }
    }

    /// Runs the step of processor `pid` on the calling thread and reports
    /// what the processor answered. The step is only run for a processor
    /// that holds work and whose step does not suspend: one whose `event`
    /// has answered `Sync`.
    pub fn process(&mut self, pid: usize) -> (r: Result<(), ErrorCode>)
        requires
            old(self).wf(),
            pid < old(self)@.processors.len(),
            old(self)@.processors[pid as int].has_work(),
            !old(self)@.processors[pid as int].suspending(),
        ensures
            final(self).wf(),
            old(self)@.processors[pid as int].processed(final(self)@.processors[pid as int], r is Ok),
            final(self)@ == old(self)@.with_processor(pid as int, final(self)@.processors[pid as int]),
            final(self).same_but(old(self), pid as int),
            final(self).spec_name(pid as int) == old(self).spec_name(pid as int),
    {
        let ghost before = self@;
        let r = self.processors[pid].process();
        proof {
            let after = self@.processors[pid as int];
            assert(before.processor_ok(pid as int));
            lemma_processed_keeps_links(before.processors[pid as int], after, r is Ok);
            lemma_with_processor_wf(before, pid as int, after);
            assert(self@.processors =~= before.with_processor(pid as int, after).processors);
            assert(self@.producers =~= before.producers);
            assert(self@.consumers =~= before.consumers);
            assert(self@.pipes =~= before.pipes);
        }
        r
    }

    /// Starts the suspending step of processor `pid` and hands out the
    /// block the step works on.
    pub fn take_block(&mut self, pid: usize) -> (block: Option<DataBlock>)
        requires
            old(self).wf(),
            pid < old(self)@.processors.len(),
        ensures
            final(self).wf(),
            final(self)@ == old(self)@.with_processor(
                pid as int,
                old(self)@.processors[pid as int].after_take(),
            ),
            match block {
                Some(b) => old(self)@.processors[pid as int].taken_block() == Some(b@),
                None => old(self)@.processors[pid as int].taken_block() is None,
            },
            final(self).same_but(old(self), pid as int),
            final(self).processor_at(pid as int).keeps_capability_of(
                &old(self).processor_at(pid as int),
            ),
    {
        let ghost before = self@;
        let block = self.processors[pid].take_block();
        proof {
            let after = before.processors[pid as int].after_take();
            assert(before.processor_ok(pid as int));
            lemma_take_keeps_links(before.processors[pid as int]);
            lemma_with_processor_wf(before, pid as int, after);
            assert(self@.processors =~= before.with_processor(pid as int, after).processors);
            assert(self@.producers =~= before.producers);
            assert(self@.consumers =~= before.consumers);
            assert(self@.pipes =~= before.pipes);
        }
        block
    }

    /// Cancels the pipeline: finishes every port, so that every processor
    /// finds its ports closed the next time it is asked for its event.
    pub fn finish(&mut self)
        requires
            old(self).wf(),
        ensures
            final(self).wf(),
            final(self)@ == old(self)@.cancelled(),
            final(self)@.all_ports_finished(),
            final(self).same_but(old(self), -1),
    {
        let ghost before = self@;
        self.ports.finish_all();
        proof {
            lemma_cancelled_wf(before);
            assert(self@.ports =~= before.cancelled().ports);
            assert(self@.processors =~= before.processors);
            assert(self@.producers =~= before.producers);
            assert(self@.consumers =~= before.consumers);
            assert(self@.pipes =~= before.pipes);
        }
    }

    /// Adds a stage at the end of the pipeline and wires each of its
    /// processors to the open port of its lane. A stage that does not fit
    /// (sources behind another stage, any other stage with a number of
    /// lanes that is not the number of open ports, an empty stage) is
    /// refused with a `LogicalError`, and the pipeline stays as it was.
    pub fn add_pipe(&mut self, pipe: Pipe<S, T, K>) -> (r: Result<(), ErrorCode>)
        requires
            old(self).wf(),
        ensures
            final(self).wf(),
            r is Ok <==> old(self)@.accepts(pipe.kind(), pipe.lanes()),
            r is Ok ==> final(self)@ == old(self)@.extended(pipe.kind(), pipe.lanes()),
            r is Ok ==> forall|lane: int|
                0 <= lane < pipe.lanes() ==> pipe.fills(
                    lane,
                    #[trigger] final(self).processor_at(old(self)@.processors.len() + lane),
                ),
            r is Err ==> final(self)@ == old(self)@ && r->Err_0 is LogicalError,
            final(self).same_but(old(self), -1),
            old(self)@.pristine() ==> final(self)@.pristine(),
    {
        proof {
            if self@.pristine() {
                crate::delivery::lemma_built_is_pristine(self@, pipe.kind(), pipe.lanes());
            }
        }
        let lanes: usize = pipe.len();
        let open: usize = self.ports.len() - self.consumers.len();
        let fits: bool = lanes > 0 && match &pipe {
            Pipe::Sources(_) => self.processors.len() == 0,
            _ => lanes == open,
        };
        if !fits {
            return Err(
                ErrorCode::LogicalError(
                    "the pipe does not fit the open ports of the pipeline".to_owned(),
                ),
            );
        }
        match pipe {
            Pipe::Sources(sources) => self.add_sources(sources),
            Pipe::Transforms(transforms) => self.add_transforms(transforms),
            Pipe::Sinks(sinks) => self.add_sinks(sinks),
            Pipe::AsyncSinks(names) => self.add_async_sinks(names),
        }
        Ok(())
    }
}

} // verus!
