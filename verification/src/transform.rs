use vstd::prelude::*;
use crate::datablock::DataBlock;
use crate::exception::ErrorCode;
use crate::port::InputPort;
use crate::port::OutputPort;
use crate::port::PortState;
use crate::port::Ports;
use crate::processor::Event;

verus! {

/// The narrow capability a transform has to offer: turn one block into
/// another, or fail.
pub trait Transform {
    const NAME: &'static str;

    fn transform(&mut self, data_block: DataBlock) -> Result<DataBlock, ErrorCode>;
}

/// A transform adapter as a mathematical value.
pub struct TransformerState {
    /// Index of the input port.
    pub input: int,
    /// Index of the output port.
    pub output: int,
    /// The block pulled from the input and not yet transformed.
    pub input_data: Option<Seq<u8>>,
    /// The transformed block not yet pushed.
    pub output_data: Option<Seq<u8>>,
    /// Every block handed to the transform operation, oldest first.
    pub taken: Seq<Seq<u8>>,
    /// Every block the transform operation returned, oldest first.
    pub produced: Seq<Seq<u8>>,
}

impl TransformerState {
    /// The adapter may run its transform: it holds an input block and has
    /// room for the result.
    pub open spec fn loaded(self) -> bool {
        self.input_data is Some && self.output_data is None
    }

    /// The output side decides first: a consumer that has gone ends the
    /// transform, one that is not ready makes it wait, and a finished
    /// result is pushed.
    pub open spec fn output_decides(self, output: PortState) -> bool {
        output.finished || !output.can_push() || self.output_data is Some
    }

    /// What `event` reports.
    pub open spec fn event(self, input: PortState, output: PortState) -> Event {
        if output.finished {
            Event::Finished
        } else if !output.can_push() || self.output_data is Some {
            Event::NeedData
        } else if self.input_data is Some {
            Event::Sync
        } else if input.finished {
            Event::Finished
        } else if input.has_data() {
            Event::Sync
        } else {
            Event::NeedData
        }
    }

    /// The input port after `event`: closed when the consumer has gone,
    /// else drained or asked for data when the adapter is empty.
    pub open spec fn input_after_event(self, input: PortState, output: PortState) -> PortState {
        if output.finished {
            input.finish()
        } else if self.output_decides(output) || self.input_data is Some || input.finished {
            input
        } else if input.has_data() {
            input.pull()
        } else {
            input.set_need_data()
        }
    }

    /// The output port after `event`: it receives the finished result, and
    /// it is closed when the input has ended and nothing is left to pass on.
    pub open spec fn output_after_event(self, input: PortState, output: PortState) -> PortState {
        if output.finished || !output.can_push() {
            output
        } else if self.output_data is Some {
            output.push(self.output_data->Some_0)
        } else if self.input_data is None && input.finished {
            output.finish()
        } else {
            output
        }
    }

    pub open spec fn after_event(self, input: PortState, output: PortState) -> TransformerState {
        if output.finished || !output.can_push() {
            self
        } else if self.output_data is Some {
            TransformerState { output_data: None, ..self }
        } else if self.input_data is Some || input.finished {
            self
        } else {
            TransformerState { input_data: input.slot, ..self }
        }
    }

    /// The adapter after its input block went to the transform operation.
    pub open spec fn handed_over(self) -> TransformerState {
        TransformerState {
            input_data: None,
            taken: self.taken.push(self.input_data->Some_0),
            ..self
        }
    }

    /// The adapter after the transform operation answered `outcome`
    /// (`None` for a failure): a result is kept to be pushed.
    pub open spec fn answered(self, outcome: Option<Seq<u8>>) -> TransformerState {
        TransformerState {
            output_data: outcome,
            produced: match outcome {
                Some(block) => self.produced.push(block),
                None => self.produced,
            },
            ..self
        }
    }

    /// The adapter after it handed its input block to the transform
    /// operation, which answered `outcome` (`None` for a failure).
    pub open spec fn after_transform(self, outcome: Option<Seq<u8>>) -> TransformerState {
        self.handed_over().answered(outcome)
    }

    /// Every block the adapter took from its input, oldest first.
    pub open spec fn received(self) -> Seq<Seq<u8>> {
        match self.input_data {
            Some(block) => self.taken.push(block),
            None => self.taken,
        }
    }

    /// Every block the adapter pushed into its output, oldest first.
    pub open spec fn emitted(self) -> Seq<Seq<u8>> {
        if self.output_data is Some {
            self.produced.drop_last()
        } else {
            self.produced
        }
    }

    /// A buffered result is the one produced last, and no more blocks were
    /// produced than taken.
    pub open spec fn wf(self) -> bool {
        &&& self.produced.len() <= self.taken.len()
        &&& match self.output_data {
            Some(block) => self.produced.len() > 0 && self.produced.last() == block,
            None => true,
        }
    }
}

/// Turns a `Transform` into a full processor with one input and one output.
pub struct Transformer<T: Transform> {
    inner: T,
    input: InputPort,
    output: OutputPort,
    input_data: Option<DataBlock>,
    output_data: Option<DataBlock>,
    taken: Ghost<Seq<Seq<u8>>>,
    produced: Ghost<Seq<Seq<u8>>>,
}

impl<T: Transform> View for Transformer<T> {
    type V = TransformerState;

    closed spec fn view(&self) -> TransformerState {
        TransformerState {
            input: self.input.index(),
            output: self.output.index(),
            input_data: match self.input_data {
                Some(block) => Some(block@),
                None => None,
            },
            output_data: match self.output_data {
                Some(block) => Some(block@),
                None => None,
            },
            taken: self.taken@,
            produced: self.produced@,
        }
    }
}

impl<T: Transform> Transformer<T> {
    /// The wrapped transform.
    pub closed spec fn transform(&self) -> T {
        self.inner
    }

    /// Both ends belong to `ports`, and they are two different connections.
    pub open spec fn valid(&self, ports: &Ports) -> bool {
        &&& 0 <= self@.input < ports@.len()
        &&& 0 <= self@.output < ports@.len()
        &&& self@.input != self@.output
    }

    pub fn create(input: InputPort, output: OutputPort, inner: T) -> (transformer: Transformer<T>)
        ensures
            transformer@ == (TransformerState {
                input: input.index(),
                output: output.index(),
                input_data: None,
                output_data: None,
                taken: Seq::empty(),
                produced: Seq::empty(),
            }),
            transformer.transform() == inner,
    {
        Transformer {
            inner,
            input,
            output,
            input_data: None,
            output_data: None,
            taken: Ghost(Seq::empty()),
            produced: Ghost(Seq::empty()),
        }
    }

    pub fn name(&self) -> (name: &'static str)
        ensures
            name == T::NAME,
    {
        T::NAME
    }

    /// The port the adapter reads from.
    pub fn input(&self) -> (input: InputPort)
        ensures
            input.index() == self@.input,
    {
        self.input
    }

    /// The port the adapter writes to.
    pub fn output(&self) -> (output: OutputPort)
        ensures
            output.index() == self@.output,
    {
        self.output
    }

    /// Reports what the scheduler should do next. Moves at most one block,
    /// into the output port or out of the input port; never touches the
    /// transform.
    pub fn event(&mut self, ports: &mut Ports) -> (r: Result<Event, ErrorCode>)
        requires
            old(self).valid(old(ports)),
        ensures
            r == Ok::<Event, ErrorCode>(
                old(self)@.event(old(ports)@[old(self)@.input], old(ports)@[old(self)@.output]),
            ),
            final(self)@ == old(self)@.after_event(
                old(ports)@[old(self)@.input],
                old(ports)@[old(self)@.output],
            ),
            final(self).transform() == old(self).transform(),
            final(ports)@ == old(ports)@.update(
                old(self)@.input,
                old(self)@.input_after_event(
                    old(ports)@[old(self)@.input],
                    old(ports)@[old(self)@.output],
                ),
            ).update(
                old(self)@.output,
                old(self)@.output_after_event(
                    old(ports)@[old(self)@.input],
                    old(ports)@[old(self)@.output],
                ),
            ),
            old(ports).wf() ==> final(ports).wf(),
    {
        let ghost before = ports@;
        let ghost i = self@.input;
        let ghost o = self@.output;
        if self.output.is_finished(ports) {
            self.input.finish(ports);
            assert(ports@ =~= before.update(i, before[i].finish()).update(o, before[o]));
            return Ok(Event::Finished);
        }
        if !self.output.can_push(ports) {
            assert(ports@ =~= before.update(i, before[i]).update(o, before[o]));
            return Ok(Event::NeedData);
        }
        match self.output_data.take() {
            Some(block) => {
                let _ = self.output.push_data(ports, block);
                assert(ports@ =~= before.update(i, before[i]).update(o, before[o].push(block@)));
                return Ok(Event::NeedData);
            },
            None => {},
        }
        if self.input_data.is_some() {
            assert(ports@ =~= before.update(i, before[i]).update(o, before[o]));
            return Ok(Event::Sync);
        }
        if self.input.is_finished(ports) {
            self.output.finish(ports);
            assert(ports@ =~= before.update(i, before[i]).update(o, before[o].finish()));
            return Ok(Event::Finished);
        }
        if self.input.has_data(ports) {
            self.input_data = self.input.pull_data(ports);
            assert(ports@ =~= before.update(i, before[i].pull()).update(o, before[o]));
            Ok(Event::Sync)
        } else {
            self.input.set_need_data(ports);
            assert(ports@ =~= before.update(i, before[i].set_need_data()).update(o, before[o]));
            Ok(Event::NeedData)
        }
    }

    /// Hands the buffered input block to the transform and keeps the result
    /// for the next `event`. The scheduler calls this only after `event`
    /// has answered `Sync`, which it does only for a loaded adapter. What
    /// becomes of the transform's answer is what `settle` says.
    pub fn process(&mut self) -> (r: Result<(), ErrorCode>)
        requires
            old(self)@.loaded(),
        ensures
            final(self)@ == old(self)@.after_transform(final(self)@.output_data),
            r is Ok <==> final(self)@.output_data is Some,
            old(self)@.wf() ==> final(self)@.wf(),
    {
        let block = self.hand_over();
        let answer = self.inner.transform(block);
        self.settle(answer)
    }

    /// Takes the input block out of the adapter, to hand it to the transform.
    fn hand_over(&mut self) -> (block: DataBlock)
        requires
            old(self)@.input_data is Some,
        ensures
            final(self)@ == old(self)@.handed_over(),
            final(self).transform() == old(self).transform(),
            old(self)@.input_data == Some(block@),
    {
        match self.input_data.take() {
            Some(block) => {
                proof {
                    self.taken@ = self.taken@.push(block@);
                }
                block
            },
            None => vstd::pervasive::unreached(),
        }
    }

    /// Takes the answer of the transform to the block it was handed. A
    /// result is kept for the next `event`; a failure is handed on as it is
    /// and leaves no result.
    pub fn settle(&mut self, answer: Result<DataBlock, ErrorCode>) -> (r: Result<(), ErrorCode>)
        requires
            old(self)@.output_data is None,
        ensures
            final(self).transform() == old(self).transform(),
            match answer {
                Ok(block) => r is Ok && final(self)@ == old(self)@.answered(Some(block@)),
                Err(cause) => r == Err::<(), ErrorCode>(cause) && final(self)@ == old(self)@.answered(
                    None,
                ),
            },
    {
        match answer {
            Err(cause) => Err(cause),
            Ok(result) => {
                proof {
                    self.produced@ = self.produced@.push(result@);
                }
                self.output_data = Some(result);
                Ok(())
            },
        }
    }

    /// The wrapped transform.
    pub fn inner(&self) -> (inner: &T)
        ensures
            *inner == self.transform(),
    {
        &self.inner
    }

    /// Gives the wrapped transform back.
    pub fn into_inner(self) -> (inner: T)
        ensures
            inner == self.transform(),
    {
        self.inner
    }
}

/// Backpressure: while the consumer has not asked for data, or has not
/// taken the last block, a transform adapter keeps reporting `NeedData`
/// and changes nothing.
pub proof fn lemma_transformer_waits_for_consumer(
    s: TransformerState,
    input: PortState,
    output: PortState,
)
    requires
        !output.finished,
        !output.can_push(),
    ensures
        s.event(input, output) is NeedData,
        s.after_event(input, output) == s,
        s.input_after_event(input, output) == input,
        s.output_after_event(input, output) == output,
{
}

/// An adapter takes and pushes blocks in order: if it has received exactly
/// what its input handed out and its output has accepted exactly what it
/// emitted, both still hold after `event`.
pub proof fn lemma_transformer_event_keeps_order(
    s: TransformerState,
    input: PortState,
    output: PortState,
)
    requires
        s.wf(),
        s.received() == input.pulled,
        s.emitted() == output.pushed,
    ensures
        s.after_event(input, output).wf(),
        s.after_event(input, output).received() == s.input_after_event(input, output).pulled,
        s.after_event(input, output).emitted() == s.output_after_event(input, output).pushed,
        s.after_event(input, output).taken == s.taken,
        s.after_event(input, output).produced == s.produced,
{
    if !output.finished && output.can_push() {
        if let Some(block) = s.output_data {
            assert(s.produced =~= s.produced.drop_last().push(block));
        }
    }
}

/// Transforming keeps the order: the block taken joins the end of what was
/// taken, the result joins the end of what was produced, and nothing is
/// received or emitted by transforming.
pub proof fn lemma_transformer_process_keeps_order(s: TransformerState, outcome: Option<Seq<u8>>)
    requires
        s.wf(),
        s.loaded(),
    ensures
        s.after_transform(outcome).wf(),
        s.after_transform(outcome).received() == s.received(),
        s.after_transform(outcome).emitted() == s.emitted(),
        s.taken.is_prefix_of(s.after_transform(outcome).taken),
        s.produced.is_prefix_of(s.after_transform(outcome).produced),
{
    if let Some(block) = outcome {
        assert(s.produced.push(block).drop_last() =~= s.produced);
    }
}

} // verus!
