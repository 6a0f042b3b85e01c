use vstd::prelude::*;
use crate::datablock::DataBlock;
use crate::exception::ErrorCode;
use crate::port::PortState;
use crate::port::Ports;
use crate::sink::AsyncSinker;
use crate::sink::Sink;
use crate::sink::Sinker;
use crate::sink::SinkerState;
use crate::source::Source;
use crate::source::Sourcer;
use crate::source::SourcerState;
use crate::transform::Transform;
use crate::transform::Transformer;
use crate::transform::TransformerState;

verus! {

/// What a processor asks the scheduler to do next.
#[derive(Debug, Clone, Copy, PartialEq, Eq, Structural)]
pub enum Event {
    /// Blocked: waiting for the other side of one of its ports.
    NeedData,
    /// Holds buffered work; run `process` on a worker.
    Sync,
    /// Holds buffered work; run its suspending step.
    Async,
    /// Terminal: there will never be more work.
    Finished,
}

impl Event {
    /// The scheduler has something to run for this event.
    pub open spec fn actionable(self) -> bool {
        self is Sync || self is Async
    }

    pub fn is_actionable(&self) -> (b: bool)
        ensures
            b == self.actionable(),
    {
        match self {
            Event::Sync => true,
            Event::Async => true,
            _ => false,
        }
    }

    pub fn is_finished(&self) -> (b: bool)
        ensures
            b == (*self is Finished),
    {
        match self {
            Event::Finished => true,
            _ => false,
        }
    }
}

/// A processor of any kind as a mathematical value.
pub enum ProcessorState {
    Source(SourcerState),
    Transform(TransformerState),
    Sink(SinkerState),
}

impl ProcessorState {
    /// Index of the port the processor reads from, if it reads.
    pub open spec fn input(self) -> Option<int> {
        match self {
            ProcessorState::Source(_) => None,
            ProcessorState::Transform(t) => Some(t.input),
            ProcessorState::Sink(k) => Some(k.input),
        }
    }

    /// Index of the port the processor writes to, if it writes.
    pub open spec fn output(self) -> Option<int> {
        match self {
            ProcessorState::Source(s) => Some(s.output),
            ProcessorState::Transform(t) => Some(t.output),
            ProcessorState::Sink(_) => None,
        }
    }

    /// The processor's ports are among the first `ports` connections, and
    /// its input is not its output.
    pub open spec fn valid(self, ports: int) -> bool {
        &&& self.input() is Some ==> 0 <= self.input()->Some_0 < ports
        &&& self.output() is Some ==> 0 <= self.output()->Some_0 < ports
        &&& self.input() is Some && self.output() is Some ==> self.input() != self.output()
    }

    /// The buffers agree with the histories.
    pub open spec fn wf(self) -> bool {
        match self {
            ProcessorState::Source(s) => s.wf(),
            ProcessorState::Transform(t) => t.wf(),
            ProcessorState::Sink(_) => true,
        }
    }

    /// What the processor's `event` reports when the ports are `ports`.
    pub open spec fn event(self, ports: Seq<PortState>) -> Event {
        match self {
            ProcessorState::Source(s) => s.event(ports[s.output]),
            ProcessorState::Transform(t) => t.event(ports[t.input], ports[t.output]),
            ProcessorState::Sink(k) => k.event(ports[k.input]),
        }
    }

    /// The processor after its `event`.
    pub open spec fn after_event(self, ports: Seq<PortState>) -> ProcessorState {
        match self {
            ProcessorState::Source(s) => ProcessorState::Source(s.after_event(ports[s.output])),
            ProcessorState::Transform(t) => ProcessorState::Transform(
                t.after_event(ports[t.input], ports[t.output]),
            ),
            ProcessorState::Sink(k) => ProcessorState::Sink(k.after_event(ports[k.input])),
        }
    }

    /// The ports after the processor's `event`.
    pub open spec fn ports_after_event(self, ports: Seq<PortState>) -> Seq<PortState> {
        match self {
            ProcessorState::Source(s) => ports.update(s.output, s.port_after_event(ports[s.output])),
            ProcessorState::Transform(t) => ports.update(
                t.input,
                t.input_after_event(ports[t.input], ports[t.output]),
            ).update(t.output, t.output_after_event(ports[t.input], ports[t.output])),
            ProcessorState::Sink(k) => ports.update(k.input, k.port_after_event(ports[k.input])),
        }
    }

    /// Every block the processor took from its input, oldest first.
    pub open spec fn received(self) -> Seq<Seq<u8>> {
        match self {
            ProcessorState::Source(_) => Seq::empty(),
            ProcessorState::Transform(t) => t.received(),
            ProcessorState::Sink(k) => k.received(),
        }
    }

    /// Every block the processor pushed into its output, oldest first.
    pub open spec fn emitted(self) -> Seq<Seq<u8>> {
        match self {
            ProcessorState::Source(s) => s.emitted(),
            ProcessorState::Transform(t) => t.emitted(),
            ProcessorState::Sink(_) => Seq::empty(),
        }
    }

    /// The processor holds work that its step would carry out.
    pub open spec fn has_work(self) -> bool {
        match self {
            ProcessorState::Source(s) => s.idle(),
            ProcessorState::Transform(t) => t.loaded(),
            ProcessorState::Sink(k) => k.pending is Some,
        }
    }

    /// The step of the processor suspends.
    pub open spec fn suspending(self) -> bool {
        self matches ProcessorState::Sink(k) && k.suspending
    }

    /// `after` is what a call of `process` that answered `ok` can leave of
    /// a processor that holds work. A failing source keeps no block, and a
    /// failing transform no result; a sink has handed its block over
    /// whatever it answers.
    pub open spec fn processed(self, after: ProcessorState, ok: bool) -> bool
        recommends
            self.has_work(),
            !self.suspending(),
    {
        match self {
            ProcessorState::Source(s) => {
                if !ok {
                    after == self
                } else {
                    after matches ProcessorState::Source(a) && a == s.after_generate(a.pending)
                }
            },
            ProcessorState::Transform(t) => {
                &&& after matches ProcessorState::Transform(a) && a == t.after_transform(
                    a.output_data,
                )
                &&& ok <==> after->Transform_0.output_data is Some
            },
            ProcessorState::Sink(k) => after == ProcessorState::Sink(k.after_process()),
        }
    }

    /// The processor after its suspending step was started: a suspending
    /// sink has handed its block over; every other processor is unchanged.
    pub open spec fn after_take(self) -> ProcessorState {
        match self {
            ProcessorState::Sink(k) => if k.suspending {
                ProcessorState::Sink(k.after_process())
            } else {
                self
            },
            _ => self,
        }
    }

    /// The block a suspending step starts with.
    pub open spec fn taken_block(self) -> Option<Seq<u8>> {
        match self {
            ProcessorState::Sink(k) => if k.suspending {
                k.pending
            } else {
                None
            },
            _ => None,
        }
    }

    /// Every block the processor handed to its capability, oldest first.
    pub open spec fn consumed(self) -> Seq<Seq<u8>> {
        match self {
            ProcessorState::Source(_) => Seq::empty(),
            ProcessorState::Transform(t) => t.taken,
            ProcessorState::Sink(k) => k.consumed,
        }
    }

    /// Every block the processor got from its capability, oldest first.
    pub open spec fn produced(self) -> Seq<Seq<u8>> {
        match self {
            ProcessorState::Source(s) => s.generated,
            ProcessorState::Transform(t) => t.produced,
            ProcessorState::Sink(_) => Seq::empty(),
        }
    }

    /// The block that waits to be pushed into the output, if there is one.
    pub open spec fn outgoing(self) -> Option<Seq<u8>> {
        match self {
            ProcessorState::Source(s) => s.pending,
            ProcessorState::Transform(t) => t.output_data,
            ProcessorState::Sink(_) => None,
        }
    }

    /// The processor will never push again: a source has run dry; a
    /// transform has seen the end of its input and holds nothing.
    pub open spec fn drained(self, ports: Seq<PortState>) -> bool {
        match self {
            ProcessorState::Source(s) => s.exhausted,
            ProcessorState::Transform(t) => t.input_data is None && t.output_data is None
                && ports[t.input].finished,
            ProcessorState::Sink(_) => true,
        }
    }

    /// The processor holds a block that it took from its input and has
    /// not worked on yet.
    pub open spec fn has_pending_input(self) -> bool {
        match self {
            ProcessorState::Source(_) => false,
            ProcessorState::Transform(t) => t.input_data is Some,
            ProcessorState::Sink(k) => k.pending is Some,
        }
    }

    /// The processor is a source that has run dry.
    pub open spec fn run_dry(self) -> bool {
        self matches ProcessorState::Source(s) && s.exhausted
    }

    /// Every block that a transform took has given a result.
    pub open spec fn balanced(self) -> bool {
        match self {
            ProcessorState::Transform(t) => t.produced.len() == t.taken.len(),
            _ => true,
        }
    }

    /// The processor is finished, and stays so whatever happens: a source
    /// has run dry or lost its consumer, a transform has a closed output,
    /// a sink holds nothing and has a closed input.
    pub open spec fn over(self, ports: Seq<PortState>) -> bool {
        match self {
            ProcessorState::Source(s) => s.exhausted || ports[s.output].finished,
            ProcessorState::Transform(t) => ports[t.output].finished,
            ProcessorState::Sink(k) => k.pending is None && ports[k.input].finished,
        }
    }

    /// `later` can come after `self`: the processor stands at the same
    /// ports, and its records of work have only grown.
    pub open spec fn grows_to(self, later: ProcessorState) -> bool {
        &&& later.input() == self.input()
        &&& later.output() == self.output()
        &&& later.suspending() == self.suspending()
        &&& self.consumed().is_prefix_of(later.consumed())
        &&& self.produced().is_prefix_of(later.produced())
    }

    /// The processor has taken from `ports` what its input handed out and
    /// given to `ports` what its output accepted, block for block.
    pub open spec fn linked(self, ports: Seq<PortState>) -> bool {
        &&& self.input() is Some ==> ports[self.input()->Some_0].pulled == self.received()
        &&& self.output() is Some ==> ports[self.output()->Some_0].pushed == self.emitted()
    }
}

/// `event` touches only the processor's own ports: of its input what the
/// consumer owns, of its output what the producer owns. It never reopens a
/// port, and it keeps every port well formed.
pub proof fn lemma_event_frame(p: ProcessorState, ports: Seq<PortState>)
    requires
        p.valid(ports.len() as int),
    ensures
        p.ports_after_event(ports).len() == ports.len(),
        p.after_event(ports).input() == p.input(),
        p.after_event(ports).output() == p.output(),
        forall|h: int|
            0 <= h < ports.len() && Some(h) != p.input() && Some(h) != p.output()
                ==> #[trigger] p.ports_after_event(ports)[h] == ports[h],
        forall|h: int|
            0 <= h < ports.len() && ports[h].finished ==> (#[trigger] p.ports_after_event(
                ports,
            )[h]).finished,
        forall|h: int|
            0 <= h < ports.len() && Some(h) != p.input() ==> (#[trigger] p.ports_after_event(
                ports,
            )[h]).pulled == ports[h].pulled,
        forall|h: int|
            0 <= h < ports.len() && Some(h) != p.output() ==> (#[trigger] p.ports_after_event(
                ports,
            )[h]).pushed == ports[h].pushed,
        forall|h: int|
            0 <= h < ports.len() && ports[h].wf() ==> (#[trigger] p.ports_after_event(ports)[h]).wf(),
{
}

/// `event` moves blocks in order: a processor that is linked to its ports
/// is linked to them after `event`, and its histories of work are the same.
pub proof fn lemma_event_keeps_links(p: ProcessorState, ports: Seq<PortState>)
    requires
        p.valid(ports.len() as int),
        p.wf(),
        p.linked(ports),
    ensures
        p.after_event(ports).wf(),
        p.after_event(ports).linked(p.ports_after_event(ports)),
{
    match p {
        ProcessorState::Source(s) => {
            crate::source::lemma_sourcer_event_keeps_order(s, ports[s.output]);
        },
        ProcessorState::Transform(t) => {
            crate::transform::lemma_transformer_event_keeps_order(t, ports[t.input], ports[t.output]);
        },
        ProcessorState::Sink(k) => {
            crate::sink::lemma_sinker_event_keeps_order(k, ports[k.input]);
        },
    }
}

/// A step never moves a block through a port: what the processor received
/// and emitted is the same before and after, and so are its ports.
pub proof fn lemma_processed_keeps_links(p: ProcessorState, after: ProcessorState, ok: bool)
    requires
        p.wf(),
        p.has_work(),
        p.processed(after, ok),
    ensures
        after.wf(),
        after.input() == p.input(),
        after.output() == p.output(),
        after.received() == p.received(),
        after.emitted() == p.emitted(),
        after.suspending() == p.suspending(),
{
    match p {
        ProcessorState::Source(s) => {
            if ok {
                crate::source::lemma_sourcer_generate_keeps_order(s, after->Source_0.pending);
            }
        },
        ProcessorState::Transform(t) => {
            crate::transform::lemma_transformer_process_keeps_order(
                t,
                after->Transform_0.output_data,
            );
        },
        ProcessorState::Sink(k) => {
            crate::sink::lemma_sinker_process_keeps_order(k);
        },
    }
}

/// Starting a suspending step moves no block through a port either.
pub proof fn lemma_take_keeps_links(p: ProcessorState)
    requires
        p.wf(),
    ensures
        p.after_take().wf(),
        p.after_take().input() == p.input(),
        p.after_take().output() == p.output(),
        p.after_take().received() == p.received(),
        p.after_take().emitted() == p.emitted(),
        p.after_take().suspending() == p.suspending(),
{
    if let ProcessorState::Sink(k) = p {
        crate::sink::lemma_sinker_process_keeps_order(k);
    }
}

/// `event` does no work: the processor's records of work are as they were,
/// and every port has only grown.
pub proof fn lemma_event_grows(p: ProcessorState, ports: Seq<PortState>)
    requires
        p.valid(ports.len() as int),
    ensures
        p.grows_to(p.after_event(ports)),
        p.after_event(ports).consumed() == p.consumed(),
        p.after_event(ports).produced() == p.produced(),
        forall|h: int|
            0 <= h < ports.len() ==> (#[trigger] ports[h]).grows_to(p.ports_after_event(ports)[h]),
{
    crate::port::lemma_prefix_refl(p.consumed());
    crate::port::lemma_prefix_refl(p.produced());
    let after = p.ports_after_event(ports);
    assert forall|h: int| 0 <= h < ports.len() implies (#[trigger] ports[h]).grows_to(after[h]) by {
        let port = ports[h];
        crate::port::lemma_apply_grows(port, crate::port::PortOp::Pull);
        crate::port::lemma_apply_grows(port, crate::port::PortOp::SetNeedData);
        crate::port::lemma_apply_grows(port, crate::port::PortOp::Finish);
        crate::port::lemma_prefix_refl(port.pushed);
        crate::port::lemma_prefix_refl(port.pulled);
        match p {
            ProcessorState::Source(s) => {
                if let Some(block) = s.pending {
                    crate::port::lemma_apply_grows(port, crate::port::PortOp::Push(block));
                }
            },
            ProcessorState::Transform(t) => {
                if let Some(block) = t.output_data {
                    crate::port::lemma_apply_grows(port, crate::port::PortOp::Push(block));
                }
            },
            ProcessorState::Sink(_) => {},
        }
    }
}

/// A step only adds to the processor's records of work.
pub proof fn lemma_processed_grows(p: ProcessorState, after: ProcessorState, ok: bool)
    requires
        p.has_work(),
        p.processed(after, ok),
    ensures
        p.grows_to(after),
{
    crate::port::lemma_prefix_refl(p.consumed());
    crate::port::lemma_prefix_refl(p.produced());
    match p {
        ProcessorState::Source(s) => {
            if ok {
                if let Some(block) = after->Source_0.pending {
                    crate::port::lemma_prefix_push(s.generated, block);
                }
            }
        },
        ProcessorState::Transform(t) => {
            crate::port::lemma_prefix_push(t.taken, t.input_data->Some_0);
            if let Some(block) = after->Transform_0.output_data {
                crate::port::lemma_prefix_push(t.produced, block);
            }
        },
        ProcessorState::Sink(k) => {
            if let Some(block) = k.pending {
                crate::port::lemma_prefix_push(k.consumed, block);
            }
        },
    }
}

/// Starting a suspending step only adds to the processor's records of work.
pub proof fn lemma_take_grows(p: ProcessorState)
    ensures
        p.grows_to(p.after_take()),
{
    crate::port::lemma_prefix_refl(p.consumed());
    crate::port::lemma_prefix_refl(p.produced());
    if let ProcessorState::Sink(k) = p {
        if let Some(block) = k.pending {
            crate::port::lemma_prefix_push(k.consumed, block);
        }
    }
}

/// What can come after what can come after a processor can come after the
/// processor.
pub proof fn lemma_processor_grows_trans(a: ProcessorState, b: ProcessorState, c: ProcessorState)
    requires
        a.grows_to(b),
        b.grows_to(c),
    ensures
        a.grows_to(c),
{
    crate::port::lemma_prefix_trans(a.consumed(), b.consumed(), c.consumed());
    crate::port::lemma_prefix_trans(a.produced(), b.produced(), c.produced());
}

/// A processor works on the blocks in the order in which it received them,
/// and emits its results in the order in which it produced them.
pub proof fn lemma_work_in_order(p: ProcessorState)
    requires
        p.wf(),
    ensures
        p.consumed().is_prefix_of(p.received()),
        p.emitted().is_prefix_of(p.produced()),
{
    crate::port::lemma_prefix_refl(p.consumed());
    crate::port::lemma_prefix_refl(p.produced());
    match p {
        ProcessorState::Source(s) => {
            if let Some(block) = s.pending {
                assert(s.generated =~= s.generated.drop_last().push(block));
                crate::port::lemma_prefix_push(s.generated.drop_last(), block);
            }
        },
        ProcessorState::Transform(t) => {
            if let Some(block) = t.input_data {
                crate::port::lemma_prefix_push(t.taken, block);
            }
            if let Some(block) = t.output_data {
                assert(t.produced =~= t.produced.drop_last().push(block));
                crate::port::lemma_prefix_push(t.produced.drop_last(), block);
            }
        },
        ProcessorState::Sink(k) => {
            if let Some(block) = k.pending {
                crate::port::lemma_prefix_push(k.consumed, block);
            }
        },
    }
}

/// A processor that reports `Sync` or `Async` holds the work that the
/// step will carry out, and the kind of step is the kind of the processor.
pub proof fn lemma_actionable_has_work(p: ProcessorState, ports: Seq<PortState>)
    requires
        p.valid(ports.len() as int),
        p.event(ports).actionable(),
    ensures
        p.after_event(ports).has_work(),
        p.event(ports) is Async <==> p.suspending(),
        p.after_event(ports).suspending() == p.suspending(),
{
}

/// Monotone finish: a processor that reported `Finished` reports `Finished`
/// on every later call, whatever the other processors did to the ports
/// meanwhile, since no operation reopens a port.
pub proof fn lemma_finished_stays(p: ProcessorState, ports: Seq<PortState>, later: Seq<PortState>)
    requires
        p.valid(ports.len() as int),
        p.event(ports) is Finished,
        later.len() == ports.len(),
        forall|h: int|
            0 <= h < ports.len() && (#[trigger] p.ports_after_event(ports)[h]).finished
                ==> later[h].finished,
    ensures
        p.after_event(ports) == p,
        p.after_event(ports).event(later) is Finished,
{
    let after = p.ports_after_event(ports);
    match p {
        ProcessorState::Source(s) => {
            assert(after[s.output].finished);
        },
        ProcessorState::Transform(t) => {
            assert(after[t.output].finished);
        },
        ProcessorState::Sink(k) => {
            assert(after[k.input].finished);
        },
    }
}

/// A processor of the pipeline: a source, a transform or a sink, each an
/// adapter around the narrow capability that does the work.
pub enum Processor<S: Source, T: Transform, K: Sink> {
    Source(Sourcer<S>),
    Transform(Transformer<T>),
    Sink(Sinker<K>),
    AsyncSink(AsyncSinker),
}

impl<S: Source, T: Transform, K: Sink> View for Processor<S, T, K> {
    type V = ProcessorState;

    open spec fn view(&self) -> ProcessorState {
        match *self {
            Processor::Source(s) => ProcessorState::Source(s@),
            Processor::Transform(t) => ProcessorState::Transform(t@),
            Processor::Sink(k) => ProcessorState::Sink(k@),
            Processor::AsyncSink(k) => ProcessorState::Sink(k@),
        }
    }
}

impl<S: Source, T: Transform, K: Sink> Processor<S, T, K> {
    /// The name of the processor.
    pub open spec fn spec_name(&self) -> &'static str {
        match *self {
            Processor::Source(_) => S::NAME,
            Processor::Transform(_) => T::NAME,
            Processor::Sink(_) => K::NAME,
            Processor::AsyncSink(k) => k.spec_name(),
        }
    }

    /// The processor is the adapter around `source`.
    pub open spec fn holds_source(&self, source: S) -> bool {
        *self matches Processor::Source(a) && a.source() == source
    }

    /// The processor is the adapter around `transform`.
    pub open spec fn holds_transform(&self, transform: T) -> bool {
        *self matches Processor::Transform(a) && a.transform() == transform
    }

    /// The processor is the adapter around `sink`.
    pub open spec fn holds_sink(&self, sink: K) -> bool {
        *self matches Processor::Sink(a) && a.sink() == sink
    }

    /// The processor is the suspending sink called `name`.
    pub open spec fn holds_async_sink(&self, name: &'static str) -> bool {
        *self matches Processor::AsyncSink(a) && a.spec_name() == name
    }

    /// The processor holds the capability that `before` held, untouched.
    pub open spec fn keeps_capability_of(&self, before: &Self) -> bool {
        match (*self, *before) {
            (Processor::Source(a), Processor::Source(b)) => a.source() == b.source(),
            (Processor::Transform(a), Processor::Transform(b)) => a.transform() == b.transform(),
            (Processor::Sink(a), Processor::Sink(b)) => a.sink() == b.sink(),
            (Processor::AsyncSink(a), Processor::AsyncSink(b)) => a.spec_name() == b.spec_name(),
            _ => false,
        }
    }

    /// A stable identifier for diagnostics.
    pub fn name(&self) -> (name: &'static str)
        ensures
            name == self.spec_name(),
    {
        match self {
            Processor::Source(s) => s.name(),
            Processor::Transform(t) => t.name(),
            Processor::Sink(k) => k.name(),
            Processor::AsyncSink(k) => k.name(),
        }
    }

    /// Index of the port the processor reads from, if it reads.
    pub fn input_id(&self) -> (id: Option<usize>)
        ensures
            match id {
                Some(h) => self@.input() == Some(h as int),
                None => self@.input() is None,
            },
    {
        match self {
            Processor::Source(_) => None,
            Processor::Transform(t) => Some(t.input().id()),
            Processor::Sink(k) => Some(k.input().id()),
            Processor::AsyncSink(k) => Some(k.input().id()),
        }
    }

    /// Index of the port the processor writes to, if it writes.
    pub fn output_id(&self) -> (id: Option<usize>)
        ensures
            match id {
                Some(h) => self@.output() == Some(h as int),
                None => self@.output() is None,
            },
    {
        match self {
            Processor::Source(s) => Some(s.output().id()),
            Processor::Transform(t) => Some(t.output().id()),
            Processor::Sink(_) => None,
            Processor::AsyncSink(_) => None,
        }
    }

    /// Reports what the scheduler should do next. Moves at most one block
    /// that is already there; never does the work itself.
    pub fn event(&mut self, ports: &mut Ports) -> (r: Result<Event, ErrorCode>)
        requires
            old(self)@.valid(old(ports)@.len() as int),
        ensures
            r == Ok::<Event, ErrorCode>(old(self)@.event(old(ports)@)),
            final(self)@ == old(self)@.after_event(old(ports)@),
            final(ports)@ == old(self)@.ports_after_event(old(ports)@),
            final(self).spec_name() == old(self).spec_name(),
            final(self).keeps_capability_of(old(self)),
            old(ports).wf() ==> final(ports).wf(),
    {
        match self {
            Processor::Source(s) => s.event(ports),
            Processor::Transform(t) => t.event(ports),
            Processor::Sink(k) => k.event(ports),
            Processor::AsyncSink(k) => k.event(ports),
        }
    }

    /// Carries out the buffered work on the calling thread and reports what
    /// the capability answered. The scheduler calls this only after
    /// `event` has answered `Sync`: the processor holds work, and its step
    /// does not suspend.
    pub fn process(&mut self) -> (r: Result<(), ErrorCode>)
        requires
            old(self)@.has_work(),
            !old(self)@.suspending(),
        ensures
            old(self)@.processed(final(self)@, r is Ok),
            final(self).spec_name() == old(self).spec_name(),
    {
        match self {
            Processor::Source(s) => s.process(),
            Processor::Transform(t) => t.process(),
            Processor::Sink(k) => k.process(),
            Processor::AsyncSink(k) => {
                proof {
                    k.lemma_suspends();
                }
                vstd::pervasive::unreached()
            },
        }
    }

    /// Starts the suspending step of the processor: hands out the block the
    /// step works on. `None` for a processor whose step does not suspend,
    /// and for one that holds no block.
    pub fn take_block(&mut self) -> (block: Option<DataBlock>)
        ensures
            final(self)@ == old(self)@.after_take(),
            final(self).spec_name() == old(self).spec_name(),
            final(self).keeps_capability_of(old(self)),
            match block {
                Some(b) => old(self)@.taken_block() == Some(b@),
                None => old(self)@.taken_block() is None,
            },
    {
        match self {
            Processor::AsyncSink(k) => {
                proof {
                    k.lemma_suspends();
                }
                k.take_block()
            },
            Processor::Sink(k) => {
                proof {
                    k.lemma_runs_on_worker();
                }
                None
            },
            _ => None,
        }
    }
}

} // verus!
