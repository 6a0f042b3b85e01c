use vstd::prelude::*;
use crate::datablock::DataBlock;
use crate::exception::ErrorCode;
use crate::port::OutputPort;
use crate::port::PortState;
use crate::port::Ports;
use crate::processor::Event;

verus! {

/// The narrow capability a source has to offer: produce the next block, or
/// say that there is none left.
pub trait Source {
    const NAME: &'static str;

    fn generate(&mut self) -> Result<Option<DataBlock>, ErrorCode>;
}

/// A source adapter as a mathematical value.
pub struct SourcerState {
    /// Index of the output port.
    pub output: int,
    /// The block generated and not yet pushed.
    pub pending: Option<Seq<u8>>,
    /// The source said that it has no more blocks.
    pub exhausted: bool,
    /// Every block the source generated, oldest first.
    pub generated: Seq<Seq<u8>>,
}

impl SourcerState {
    /// The adapter may ask its source for a block: it holds none and the
    /// source has not run dry.
    pub open spec fn idle(self) -> bool {
        self.pending is None && !self.exhausted
    }

    /// What `event` reports. An exhausted source is finished; so is one
    /// whose consumer has gone. While the consumer has not asked for data,
    /// or has not taken the last block, the source waits. A generated block
    /// is pushed; without one the source has to generate.
    pub open spec fn event(self, port: PortState) -> Event {
        if self.exhausted || port.finished {
            Event::Finished
        } else if !port.can_push() {
            Event::NeedData
        } else if self.pending is Some {
            Event::NeedData
        } else {
            Event::Sync
        }
    }

    pub open spec fn port_after_event(self, port: PortState) -> PortState {
        if self.exhausted {
            port.finish()
        } else if port.finished || !port.can_push() {
            port
        } else {
            match self.pending {
                Some(block) => port.push(block),
                None => port,
            }
        }
    }

    pub open spec fn after_event(self, port: PortState) -> SourcerState {
        if self.exhausted || port.finished || !port.can_push() {
            self
        } else {
            SourcerState { pending: None, ..self }
        }
    }

    /// The adapter after its source answered `outcome` to a request for the
    /// next block.
    pub open spec fn after_generate(self, outcome: Option<Seq<u8>>) -> SourcerState {
        match outcome {
            Some(block) => SourcerState {
                pending: Some(block),
                generated: self.generated.push(block),
                ..self
            },
            None => SourcerState { exhausted: true, ..self },
        }
    }

    /// Every block the adapter pushed into its output, oldest first.
    pub open spec fn emitted(self) -> Seq<Seq<u8>> {
        if self.pending is Some {
            self.generated.drop_last()
        } else {
            self.generated
        }
    }

    /// A buffered block is the one generated last, and a source that has
    /// run dry has no block left to push.
    pub open spec fn wf(self) -> bool {
        match self.pending {
            Some(block) => self.generated.len() > 0 && self.generated.last() == block
                && !self.exhausted,
            None => true,
        }
    }
}

/// Turns a `Source` into a full processor with one output port.
pub struct Sourcer<S: Source> {
    inner: S,
    output: OutputPort,
    generated_data: Option<DataBlock>,
    exhausted: bool,
    generated: Ghost<Seq<Seq<u8>>>,
}

impl<S: Source> View for Sourcer<S> {
    type V = SourcerState;

    closed spec fn view(&self) -> SourcerState {
        SourcerState {
            output: self.output.index(),
            pending: match self.generated_data {
                Some(block) => Some(block@),
                None => None,
            },
            exhausted: self.exhausted,
            generated: self.generated@,
        }
    }
}

impl<S: Source> Sourcer<S> {
    /// The wrapped source.
    pub closed spec fn source(&self) -> S {
        self.inner
    }

    /// The adapter's output belongs to `ports`.
    pub open spec fn valid(&self, ports: &Ports) -> bool {
        0 <= self@.output < ports@.len()
    }

    pub fn create(output: OutputPort, inner: S) -> (sourcer: Sourcer<S>)
        ensures
            sourcer@ == (SourcerState {
                output: output.index(),
                pending: None,
                exhausted: false,
                generated: Seq::empty(),
            }),
            sourcer.source() == inner,
    {
        Sourcer {
            inner,
            output,
            generated_data: None,
            exhausted: false,
            generated: Ghost(Seq::empty()),
        }
    }

    pub fn name(&self) -> (name: &'static str)
        ensures
            name == S::NAME,
    {
        S::NAME
    }

    /// The port the adapter writes to.
    pub fn output(&self) -> (output: OutputPort)
        ensures
            output.index() == self@.output,
    {
        self.output
    }

    /// Reports what the scheduler should do next. Moves at most one block,
    /// from the adapter into the output port; never touches the source.
    pub fn event(&mut self, ports: &mut Ports) -> (r: Result<Event, ErrorCode>)
        requires
            old(self).valid(old(ports)),
        ensures
            r == Ok::<Event, ErrorCode>(old(self)@.event(old(ports)@[old(self)@.output])),
            final(self)@ == old(self)@.after_event(old(ports)@[old(self)@.output]),
            final(self).source() == old(self).source(),
            final(ports)@ == old(ports)@.update(
                old(self)@.output,
                old(self)@.port_after_event(old(ports)@[old(self)@.output]),
            ),
            old(ports).wf() ==> final(ports).wf(),
    {
        if self.exhausted {
            self.output.finish(ports);
            return Ok(Event::Finished);
        }
        if self.output.is_finished(ports) {
            assert(ports@ =~= old(ports)@.update(old(self)@.output, old(ports)@[old(self)@.output]));
            return Ok(Event::Finished);
        }
        if !self.output.can_push(ports) {
            assert(ports@ =~= old(ports)@.update(old(self)@.output, old(ports)@[old(self)@.output]));
            return Ok(Event::NeedData);
        }
        match self.generated_data.take() {
            Some(block) => {
                let _ = self.output.push_data(ports, block);
                Ok(Event::NeedData)
            },
            None => {
                assert(ports@ =~= old(ports)@.update(
                    old(self)@.output,
                    old(ports)@[old(self)@.output],
                ));
                Ok(Event::Sync)
            },
        }
    }

    /// Asks the source for its next block and keeps it for the next
    /// `event`. The scheduler calls this only after `event` has answered
    /// `Sync`, which it does only for an idle adapter. What becomes of the
    /// source's answer is what `settle` says.
    pub fn process(&mut self) -> (r: Result<(), ErrorCode>)
        requires
            old(self)@.idle(),
        ensures
            r is Err ==> final(self)@ == old(self)@,
            r is Ok ==> final(self)@ == old(self)@.after_generate(final(self)@.pending),
            old(self)@.wf() ==> final(self)@.wf(),
    {
        let answer = self.inner.generate();
        self.settle(answer)
    }

    /// Takes the answer of the source to a request for its next block. A
    /// block is kept for the next `event`; the end of the data marks the
    /// source as run dry; a failure is handed on as it is and leaves the
    /// adapter as it was.
    pub fn settle(&mut self, answer: Result<Option<DataBlock>, ErrorCode>) -> (r: Result<
        (),
        ErrorCode,
    >)
        requires
            old(self)@.idle(),
        ensures
            final(self).source() == old(self).source(),
            match answer {
                Ok(Some(block)) => r is Ok && final(self)@ == old(self)@.after_generate(
                    Some(block@),
                ),
                Ok(None) => r is Ok && final(self)@ == old(self)@.after_generate(None),
                Err(cause) => r == Err::<(), ErrorCode>(cause) && final(self)@ == old(self)@,
            },
            old(self)@.wf() ==> final(self)@.wf(),
    {
        match answer {
            Err(cause) => Err(cause),
            Ok(None) => {
                self.exhausted = true;
                Ok(())
            },
            Ok(Some(block)) => {
                proof {
                    self.generated@ = self.generated@.push(block@);
                }
                self.generated_data = Some(block);
                Ok(())
            },
        }
    }

    /// The wrapped source.
    pub fn inner(&self) -> (inner: &S)
        ensures
            *inner == self.source(),
    {
        &self.inner
    }

    /// Gives the wrapped source back.
    pub fn into_inner(self) -> (inner: S)
        ensures
            inner == self.source(),
    {
        self.inner
    }
}

/// Backpressure: while the consumer has not asked for data, or has not
/// taken the last block, a source adapter that could still produce keeps
/// reporting `NeedData` and changes nothing, however often it is asked.
pub proof fn lemma_sourcer_waits_for_consumer(s: SourcerState, port: PortState)
    requires
        !s.exhausted,
        !port.finished,
        !port.can_push(),
    ensures
        s.event(port) is NeedData,
        s.after_event(port) == s,
        s.port_after_event(port) == port,
{
}

/// An adapter pushes blocks in the order in which its source generated
/// them: if the port has accepted exactly what the adapter has emitted,
/// that still holds after `event`.
pub proof fn lemma_sourcer_event_keeps_order(s: SourcerState, port: PortState)
    requires
        s.wf(),
        s.emitted() == port.pushed,
    ensures
        s.after_event(port).wf(),
        s.after_event(port).emitted() == s.port_after_event(port).pushed,
        s.after_event(port).generated == s.generated,
{
    if !(s.exhausted || port.finished || !port.can_push()) {
        if let Some(block) = s.pending {
            assert(s.generated =~= s.generated.drop_last().push(block));
        }
    }
}

/// A newly generated block joins the end of what the source produced, and
/// nothing is emitted by generating.
pub proof fn lemma_sourcer_generate_keeps_order(s: SourcerState, outcome: Option<Seq<u8>>)
    requires
        s.wf(),
        s.idle(),
    ensures
        s.after_generate(outcome).wf(),
        s.after_generate(outcome).emitted() == s.emitted(),
        s.generated.is_prefix_of(s.after_generate(outcome).generated),
{
    if let Some(block) = outcome {
        assert(s.generated.push(block).drop_last() =~= s.generated);
    }
}

} // verus!
