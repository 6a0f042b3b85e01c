use vstd::prelude::*;
use crate::datablock::DataBlock;
use crate::exception::ErrorCode;
use crate::port::InputPort;
use crate::port::PortState;
use crate::port::Ports;
use crate::processor::Event;

verus! {

/// The narrow capability a sink has to offer: take one block, and say
/// whether that worked.
pub trait Sink {
    const NAME: &'static str;

    fn consume(&mut self, data_block: DataBlock) -> Result<(), ErrorCode>;
}

/// A sink adapter as a mathematical value.
pub struct SinkerState {
    /// Index of the input port.
    pub input: int,
    /// The block pulled from the input and not yet consumed.
    pub pending: Option<Seq<u8>>,
    /// Every block handed to the consume operation, oldest first.
    pub consumed: Seq<Seq<u8>>,
    /// The consume operation suspends: it runs as an asynchronous step
    /// outside the worker threads.
    pub suspending: bool,
}

impl SinkerState {
    /// A sink adapter right after its creation.
    pub open spec fn fresh(input: int, suspending: bool) -> SinkerState {
        SinkerState { input, pending: None, consumed: Seq::empty(), suspending }
    }

    /// How buffered work is run: on a worker, or as a suspending step.
    pub open spec fn work(self) -> Event {
        if self.suspending {
            Event::Async
        } else {
            Event::Sync
        }
    }

    /// What `event` reports: buffered work first, then the end of the
    /// input, then data waiting in the port, else nothing to do.
    pub open spec fn event(self, port: PortState) -> Event {
        if self.pending is Some {
            self.work()
        } else if port.finished {
            Event::Finished
        } else if port.has_data() {
            self.work()
        } else {
            Event::NeedData
        }
    }

    /// The input port after `event`: a waiting block is pulled, and an
    /// empty port is told that the sink wants data.
    pub open spec fn port_after_event(self, port: PortState) -> PortState {
        if self.pending is Some || port.finished {
            port
        } else if port.has_data() {
            port.pull()
        } else {
            port.set_need_data()
        }
    }

    /// The adapter after `event`: it holds the block it pulled, if it pulled.
    pub open spec fn after_event(self, port: PortState) -> SinkerState {
        if self.pending is Some || port.finished {
            self
        } else {
            SinkerState { pending: port.slot, ..self }
        }
    }

    /// The adapter after `process`: the buffered block went to the consume
    /// operation, whatever that operation answered.
    pub open spec fn after_process(self) -> SinkerState {
        match self.pending {
            Some(block) => SinkerState { pending: None, consumed: self.consumed.push(block), ..self },
            None => self,
        }
    }

    /// Every block the adapter took from its input, oldest first.
    pub open spec fn received(self) -> Seq<Seq<u8>> {
        match self.pending {
            Some(block) => self.consumed.push(block),
            None => self.consumed,
        }
    }
}

/// Turns a `Sink` into a full processor with one input port.
pub struct Sinker<T: Sink> {
    inner: T,
    input: InputPort,
    input_data: Option<DataBlock>,
    consumed: Ghost<Seq<Seq<u8>>>,
}

impl<T: Sink> View for Sinker<T> {
    type V = SinkerState;

    closed spec fn view(&self) -> SinkerState {
        SinkerState {
            input: self.input.index(),
            pending: match self.input_data {
                Some(block) => Some(block@),
                None => None,
            },
            consumed: self.consumed@,
            suspending: false,
        }
    }
}

impl<T: Sink> Sinker<T> {
    /// The wrapped sink.
    pub closed spec fn sink(&self) -> T {
        self.inner
    }

    /// The consume operation of a `Sink` runs on a worker.
    pub proof fn lemma_runs_on_worker(&self)
        ensures
            !self@.suspending,
    {
    }

    /// The adapter's input belongs to `ports`.
    pub open spec fn valid(&self, ports: &Ports) -> bool {
        0 <= self@.input < ports@.len()
    }

    pub fn create(input: InputPort, inner: T) -> (sinker: Sinker<T>)
        ensures
            sinker@ == SinkerState::fresh(input.index(), false),
            sinker.sink() == inner,
    {
        Sinker { inner, input, input_data: None, consumed: Ghost(Seq::empty()) }
    }

    pub fn name(&self) -> (name: &'static str)
        ensures
            name == T::NAME,
    {
        T::NAME
    }

    /// The port the adapter reads from.
    pub fn input(&self) -> (input: InputPort)
        ensures
            input.index() == self@.input,
    {
        self.input
    }

    /// Reports what the scheduler should do next. Moves at most one block,
    /// from the input port into the adapter; never touches the sink.
    pub fn event(&mut self, ports: &mut Ports) -> (r: Result<Event, ErrorCode>)
        requires
            old(self).valid(old(ports)),
        ensures
            r == Ok::<Event, ErrorCode>(old(self)@.event(old(ports)@[old(self)@.input])),
            final(self)@ == old(self)@.after_event(old(ports)@[old(self)@.input]),
            final(self).sink() == old(self).sink(),
            final(ports)@ == old(ports)@.update(
                old(self)@.input,
                old(self)@.port_after_event(old(ports)@[old(self)@.input]),
            ),
            old(ports).wf() ==> final(ports).wf(),
    {
        if self.input_data.is_some() {
            assert(ports@ =~= old(ports)@.update(old(self)@.input, old(ports)@[old(self)@.input]));
            return Ok(Event::Sync);
        }
        if self.input.is_finished(ports) {
            assert(ports@ =~= old(ports)@.update(old(self)@.input, old(ports)@[old(self)@.input]));
            return Ok(Event::Finished);
        }
        if self.input.has_data(ports) {
            self.input_data = self.input.pull_data(ports);
            Ok(Event::Sync)
        } else {
            self.input.set_need_data(ports);
            Ok(Event::NeedData)
        }
    }

    /// Hands the buffered block to the sink and reports what the sink
    /// answered. The scheduler calls this only after `event` has answered
    /// `Sync`, which it does only for an adapter that holds a block.
    pub fn process(&mut self) -> (r: Result<(), ErrorCode>)
        requires
            old(self)@.pending is Some,
        ensures
            final(self)@ == old(self)@.after_process(),
    {
        match self.input_data.take() {
            Some(block) => {
                proof {
                    self.consumed@ = self.consumed@.push(block@);
                }
                self.inner.consume(block)
            },
            None => vstd::pervasive::unreached(),
        }
    }

    /// The wrapped sink.
    pub fn inner(&self) -> (inner: &T)
        ensures
            *inner == self.sink(),
    {
        &self.inner
    }

    /// Gives the wrapped sink back.
    pub fn into_inner(self) -> (inner: T)
        ensures
            inner == self.sink(),
    {
        self.inner
    }
}

/// The port-facing half of a sink whose consume operation suspends. The
/// adapter buffers one block and reports `Async`; whoever runs the
/// suspending step takes the block with `take_block` and reports back.
pub struct AsyncSinker {
    name: &'static str,
    input: InputPort,
    input_data: Option<DataBlock>,
    consumed: Ghost<Seq<Seq<u8>>>,
}

impl View for AsyncSinker {
    type V = SinkerState;

    closed spec fn view(&self) -> SinkerState {
        SinkerState {
            input: self.input.index(),
            pending: match self.input_data {
                Some(block) => Some(block@),
                None => None,
            },
            consumed: self.consumed@,
            suspending: true,
        }
    }
}

impl AsyncSinker {
    pub closed spec fn spec_name(&self) -> &'static str {
        self.name
    }

    /// The consume operation behind this adapter suspends.
    pub proof fn lemma_suspends(&self)
        ensures
            self@.suspending,
    {
    }

    /// The adapter's input belongs to `ports`.
    pub open spec fn valid(&self, ports: &Ports) -> bool {
        0 <= self@.input < ports@.len()
    }

    pub fn create(name: &'static str, input: InputPort) -> (sinker: AsyncSinker)
        ensures
            sinker@ == SinkerState::fresh(input.index(), true),
            sinker.spec_name() == name,
    {
        AsyncSinker { name, input, input_data: None, consumed: Ghost(Seq::empty()) }
    }

    pub fn name(&self) -> (name: &'static str)
        ensures
            name == self.spec_name(),
    {
        self.name
    }

    /// The port the adapter reads from.
    pub fn input(&self) -> (input: InputPort)
        ensures
            input.index() == self@.input,
    {
        self.input
    }

    /// Reports what the scheduler should do next. Moves at most one block,
    /// from the input port into the adapter.
    pub fn event(&mut self, ports: &mut Ports) -> (r: Result<Event, ErrorCode>)
        requires
            old(self).valid(old(ports)),
        ensures
            r == Ok::<Event, ErrorCode>(old(self)@.event(old(ports)@[old(self)@.input])),
            final(self)@ == old(self)@.after_event(old(ports)@[old(self)@.input]),
            final(self).spec_name() == old(self).spec_name(),
            final(ports)@ == old(ports)@.update(
                old(self)@.input,
                old(self)@.port_after_event(old(ports)@[old(self)@.input]),
            ),
            old(ports).wf() ==> final(ports).wf(),
    {
        if self.input_data.is_some() {
            assert(ports@ =~= old(ports)@.update(old(self)@.input, old(ports)@[old(self)@.input]));
            return Ok(Event::Async);
        }
        if self.input.is_finished(ports) {
            assert(ports@ =~= old(ports)@.update(old(self)@.input, old(ports)@[old(self)@.input]));
            return Ok(Event::Finished);
        }
        if self.input.has_data(ports) {
            self.input_data = self.input.pull_data(ports);
            Ok(Event::Async)
        } else {
            self.input.set_need_data(ports);
            Ok(Event::NeedData)
        }
    }

    /// Starts the suspending step: hands out the buffered block, which
    /// counts as consumed from here on. `None` when nothing is buffered.
    pub fn take_block(&mut self) -> (block: Option<DataBlock>)
        ensures
            final(self)@ == old(self)@.after_process(),
            final(self).spec_name() == old(self).spec_name(),
            match block {
                Some(b) => old(self)@.pending == Some(b@),
                None => old(self)@.pending is None,
            },
    {
        let block = self.input_data.take();
        proof {
            if block is Some {
                self.consumed@ = self.consumed@.push(block->Some_0@);
            }
        }
        block
    }
}

/// An adapter takes blocks from its port in the order in which the port
/// hands them out: if the adapter has received exactly what the port has
/// handed out, that still holds after `event`.
pub proof fn lemma_sinker_event_keeps_order(s: SinkerState, port: PortState)
    requires
        s.received() == port.pulled,
    ensures
        s.after_event(port).received() == s.port_after_event(port).pulled,
        s.after_event(port).consumed == s.consumed,
{
}

/// `process` hands over the blocks in the order in which they were received.
pub proof fn lemma_sinker_process_keeps_order(s: SinkerState)
    ensures
        s.after_process().received() == s.received(),
        s.consumed.is_prefix_of(s.after_process().consumed),
{
}

} // verus!
