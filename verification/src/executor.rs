use vstd::prelude::*;
use std::collections::VecDeque;
use crate::datablock::DataBlock;
use crate::exception::ErrorCode;
use crate::pipeline::lemma_after_event_wf;
use crate::pipeline::Pipeline;
use crate::pipeline::PipelineState;
use crate::processor::lemma_actionable_has_work;
use crate::processor::lemma_processed_keeps_links;
use crate::processor::lemma_take_keeps_links;
use crate::processor::Event;
use crate::processor::Processor;
use crate::processor::ProcessorState;
use crate::sink::Sink;
use crate::source::Source;
use crate::transform::Transform;

verus! {

/// Where a processor stands with the scheduler.
#[derive(Debug, Clone, Copy, PartialEq, Eq, Structural)]
pub enum Slot {
    /// Not queued: blocked or finished, until a port of its changes.
    Idle,
    /// Queued to be asked for its event.
    Examine,
    /// Queued to run the step that its last event asked for.
    Ready,
    /// Its suspending step is in flight.
    Running,
}

/// The scheduler as a mathematical value.
pub struct ExecutorState {
    pub pipeline: PipelineState,
    /// The most recent event of each processor.
    pub events: Seq<Event>,
    pub slots: Seq<Slot>,
    /// The queue of processors that wait for a worker, first come first served.
    pub queue: Seq<usize>,
    /// Each processor as its most recent `event` call left it.
    pub snapshots: Seq<ProcessorState>,
    /// The first error of the run.
    pub error: Option<ErrorCode>,
}

impl ExecutorState {
    pub open spec fn len(self) -> int {
        self.pipeline.processors.len() as int
    }

    /// The scheduler before its first step: every processor waits to be
    /// asked for its event, in the order of the pipeline.
    pub open spec fn initial(pipeline: PipelineState) -> ExecutorState {
        ExecutorState {
            pipeline,
            events: Seq::new(pipeline.processors.len(), |i: int| Event::NeedData),
            slots: Seq::new(pipeline.processors.len(), |i: int| Slot::Examine),
            queue: Seq::new(pipeline.processors.len(), |i: int| i as usize),
            snapshots: pipeline.processors,
            error: None,
        }
    }

    pub open spec fn queued(self, pid: int) -> bool {
        self.slots[pid] is Examine || self.slots[pid] is Ready
    }

    /// What holds of one processor at every moment. It is in the queue
    /// exactly when its slot says so, so there is never more than one
    /// ticket for it. While it waits for its step, its last event asked for
    /// that step, it holds the work, and nothing has touched it since that
    /// event. A step only runs for a processor whose last event asked for
    /// one. A finished processor is never queued again. After a failure
    /// nothing is queued, and whatever is not in flight is finished.
    pub open spec fn slot_ok(self, pid: int) -> bool {
        let p = self.pipeline.processors[pid];
        &&& self.queued(pid) <==> self.queue.contains(pid as usize)
        &&& self.slots[pid] is Ready ==> {
            &&& self.events[pid].actionable()
            &&& p.has_work()
            &&& self.events[pid] is Async <==> p.suspending()
            &&& p == self.snapshots[pid]
        }
        &&& self.slots[pid] is Running ==> self.events[pid].actionable()
        &&& self.events[pid] is Finished ==> self.slots[pid] is Idle
        &&& self.error is Some ==> {
            &&& self.slots[pid] is Idle || self.slots[pid] is Running
            &&& self.slots[pid] is Idle ==> self.events[pid] is Finished
        }
    }

    pub open spec fn wf(self) -> bool {
        &&& self.pipeline.wf()
        &&& self.pipeline.complete()
        &&& self.len() <= usize::MAX
        &&& self.events.len() == self.len()
        &&& self.slots.len() == self.len()
        &&& self.snapshots.len() == self.len()
        &&& self.queue.no_duplicates()
        &&& forall|i: int| 0 <= i < self.queue.len() ==> (#[trigger] self.queue[i]) < self.len()
        &&& forall|pid: int| 0 <= pid < self.len() ==> #[trigger] self.slot_ok(pid)
        &&& self.error is Some ==> self.pipeline.all_ports_finished()
    }

    /// Every processor is finished and no step is in flight.
    pub open spec fn finished(self) -> bool {
        forall|pid: int|
            0 <= pid < self.len() ==> (#[trigger] self.events[pid]) is Finished && !(
            self.slots[pid] is Running)
    }

    /// A suspending step is in flight.
    pub open spec fn in_flight(self) -> bool {
        exists|pid: int| 0 <= pid < self.len() && (#[trigger] self.slots[pid]) is Running
    }

    /// The scheduler with the head of its queue taken off.
    pub open spec fn popped(self) -> ExecutorState {
        ExecutorState { queue: self.queue.subrange(1, self.queue.len() as int), ..self }
    }

    /// The scheduler with `pid` at the end of its queue, in `slot`.
    pub open spec fn queued_as(self, pid: int, slot: Slot) -> ExecutorState {
        ExecutorState {
            slots: self.slots.update(pid, slot),
            queue: self.queue.push(pid as usize),
            ..self
        }
    }

    /// A neighbour whose port has changed is queued to be asked for its
    /// event, unless it is queued already, in flight or finished.
    pub open spec fn woken(self, target: Option<int>, changed: bool) -> ExecutorState {
        match target {
            Some(q) => if changed && self.slots[q] is Idle && !(self.events[q] is Finished) {
                self.queued_as(q, Slot::Examine)
            } else {
                self
            },
            None => self,
        }
    }

    /// The scheduler after it asked `pid`, taken from the queue, for its
    /// event and recorded the answer: `pid` is queued for its step if the
    /// answer asks for one, and is idle otherwise.
    pub open spec fn recorded(self, pid: int) -> ExecutorState {
        let p = self.pipeline.processors[pid];
        let e = p.event(self.pipeline.ports);
        ExecutorState {
            pipeline: self.pipeline.after_event(pid),
            events: self.events.update(pid, e),
            slots: self.slots.update(
                pid,
                if e.actionable() {
                    Slot::Ready
                } else {
                    Slot::Idle
                },
            ),
            queue: if e.actionable() {
                self.queue.push(pid as usize)
            } else {
                self.queue
            },
            snapshots: self.snapshots.update(pid, p.after_event(self.pipeline.ports)),
            ..self
        }
    }

    /// The scheduler after it asked `pid`, taken from the queue, for its
    /// event: the answer is recorded, and the neighbours whose ports the
    /// call changed are queued to be asked in turn, upstream first.
    pub open spec fn examined(self, pid: int) -> ExecutorState {
        self.recorded(pid).woken(self.pipeline.upstream(pid), self.pipeline.input_changed(pid)).woken(
            self.pipeline.downstream(pid),
            self.pipeline.output_changed(pid),
        )
    }

    /// The scheduler after the step of `pid`, taken from the queue, was
    /// started and left `after` of the processor: the step is in flight.
    pub open spec fn started(self, pid: int, after: ProcessorState) -> ExecutorState {
        ExecutorState {
            pipeline: self.pipeline.with_processor(pid, after),
            slots: self.slots.update(pid, Slot::Running),
            ..self
        }
    }

    /// The scheduler with `pid` set aside: it is left as `after`, and it is
    /// not queued.
    pub open spec fn parked(self, pid: int, after: ProcessorState) -> ExecutorState {
        ExecutorState {
            pipeline: self.pipeline.with_processor(pid, after),
            slots: self.slots.update(pid, Slot::Idle),
            ..self
        }
    }

    /// The scheduler after its first error: the error is kept, every port
    /// is finished, the queue is empty, and every processor whose step is
    /// not in flight is finished.
    pub open spec fn aborted(self, cause: ErrorCode) -> ExecutorState {
        ExecutorState {
            pipeline: self.pipeline.cancelled(),
            events: Seq::new(
                self.events.len(),
                |i: int|
                    if self.slots[i] is Running {
                        self.events[i]
                    } else {
                        Event::Finished
                    },
            ),
            slots: Seq::new(
                self.slots.len(),
                |i: int|
                    if self.slots[i] is Running {
                        Slot::Running
                    } else {
                        Slot::Idle
                    },
            ),
            queue: Seq::empty(),
            error: Some(cause),
            ..self
        }
    }

    /// The scheduler after the step of `pid` came back with the answer
    /// `failure` (`None` for success). After a failure of the run the
    /// answer is dropped: the first error wins. A step that went well
    /// queues the processor to be asked for its event; one that failed
    /// aborts the run.
    pub open spec fn completed(self, pid: int, failure: Option<ErrorCode>) -> ExecutorState {
        if self.error is Some {
            ExecutorState {
                slots: self.slots.update(pid, Slot::Idle),
                events: self.events.update(pid, Event::Finished),
                ..self
            }
        } else {
            match failure {
                None => self.queued_as(pid, Slot::Examine),
                Some(cause) => self.parked(pid, self.pipeline.processors[pid]).aborted(cause),
            }
        }
    }
}

/// The error of an answer, if the answer is one.
pub open spec fn failure_of(result: Result<(), ErrorCode>) -> Option<ErrorCode> {
    match result {
        Ok(_) => None,
        Err(cause) => Some(cause),
    }
}

/// A processor that may be missing, as a mathematical value.
pub open spec fn index_of(target: Option<usize>) -> Option<int> {
    match target {
        Some(q) => Some(q as int),
        None => None,
    }
}

/// What one step of the scheduler did, as a mathematical value.
pub enum Step {
    /// Asked a processor for its event.
    Polled(int),
    /// Ran the step of a processor on the calling thread, and it went well.
    Processed(int),
    /// Started the suspending step of a processor on the block given.
    Suspended(int, Seq<u8>),
    /// Nothing is queued; suspending steps are in flight.
    Waiting,
    /// Nothing is queued or in flight, and yet not everything is finished.
    Stalled,
    /// Every processor is finished.
    Completed,
    /// The run has failed.
    Failed,
}

impl ExecutorState {
    /// One step of the scheduler leads from `self` to `later` and did `step`.
    ///
    /// After a failure nothing is scheduled any more. With an empty queue
    /// the step only reports. Otherwise the head of the queue is served:
    /// asked for its event if it waits for that, else its step is started,
    /// as its last event asked for. A suspending step is left in flight. A
    /// step on the calling thread is run, and its answer is taken as
    /// `completed` says: a failure aborts the run with its error.
    pub open spec fn steps_to(self, step: Step, later: ExecutorState) -> bool {
        if self.error is Some {
            step is Failed && later == self
        } else if self.queue.len() == 0 {
            &&& later == self
            &&& step == if self.finished() {
                Step::Completed
            } else if self.in_flight() {
                Step::Waiting
            } else {
                Step::Stalled
            }
        } else {
            let pid = self.queue[0] as int;
            let p = self.pipeline.processors[pid];
            let after = later.pipeline.processors[pid];
            if self.slots[pid] is Examine {
                step == Step::Polled(pid) && later == self.popped().examined(pid)
            } else if self.events[pid] is Sync {
                let failure = if step is Failed {
                    later.error
                } else {
                    None
                };
                &&& step == Step::Processed(pid) || (step is Failed && later.error is Some)
                &&& p.processed(after, failure is None)
                &&& later == self.popped().started(pid, after).completed(pid, failure)
            } else {
                &&& p.taken_block() is Some
                &&& step == Step::Suspended(pid, p.taken_block()->Some_0)
                &&& later == self.popped().started(pid, p.after_take())
            }
        }
    }
}

impl ExecutorState {
    /// `n` steps that each asked a processor or ran one lead from `self`
    /// to `later`.
    pub open spec fn runs_to(self, n: nat, later: ExecutorState) -> bool
        decreases n,
    {
        if n == 0 {
            later == self
        } else {
            exists|step: Step, mid: ExecutorState|
                self.runs_to((n - 1) as nat, mid) && (step is Polled || step is Processed)
                    && #[trigger] mid.steps_to(step, later)
        }
    }

    /// A run from `self` comes to rest in `later` within `limit` steps:
    /// after fewer than `limit` steps that asked a processor or ran one,
    /// one more step reported `last` and left `later`.
    pub open spec fn rests_with(self, limit: nat, last: Step, later: ExecutorState) -> bool {
        exists|n: nat, mid: ExecutorState|
            n < limit && #[trigger] self.runs_to(n, mid) && mid.steps_to(last, later)
    }

    /// `later` can come after `self` in a run. The pipeline has only moved
    /// forward, a finished processor is still finished, and after a failure
    /// the error stays the one it was and the pipeline stands still: no
    /// block is delivered any more.
    pub open spec fn leads_to(self, later: ExecutorState) -> bool {
        &&& self.pipeline.evolves_to(later.pipeline)
        &&& later.events.len() == self.events.len()
        &&& forall|pid: int|
            0 <= pid < self.events.len() && (#[trigger] self.events[pid]) is Finished
                ==> later.events[pid] is Finished
        &&& self.error is Some ==> later.error == self.error && later.pipeline == self.pipeline
    }

    /// The scheduler after a cancellation reached the first `upto`
    /// processors: each one that is neither queued, in flight nor finished
    /// is queued to be asked for its event.
    pub open spec fn woken_all(self, upto: nat) -> ExecutorState
        decreases upto,
    {
        if upto == 0 {
            self
        } else {
            self.woken_all((upto - 1) as nat).woken(Some(upto - 1), true)
        }
    }

    /// The scheduler after a cancellation. Every port is finished, and
    /// every processor that is not on its way already will be asked for its
    /// event, where it finds its ports closed. A failed run is over and
    /// stays as it is.
    pub open spec fn cancelled(self) -> ExecutorState {
        if self.error is Some {
            self
        } else {
            ExecutorState { pipeline: self.pipeline.cancelled(), ..self }.woken_all(
                self.len() as nat,
            )
        }
    }
}

/// A queue without duplicates stays one when something that is not in it
/// joins its end.
pub proof fn lemma_queue_push(queue: Seq<usize>, pid: usize)
    requires
        queue.no_duplicates(),
        !queue.contains(pid),
    ensures
        queue.push(pid).no_duplicates(),
        forall|x: usize| #[trigger] queue.push(pid).contains(x) <==> queue.contains(x) || x == pid,
{
    let longer = queue.push(pid);
    assert forall|x: usize| #[trigger] longer.contains(x) <==> queue.contains(x) || x == pid by {
        if queue.contains(x) {
            let i = choose|i: int| 0 <= i < queue.len() && queue[i] == x;
            assert(longer[i] == x);
        }
        if x == pid {
            assert(longer[queue.len() as int] == x);
        }
    }
}

/// A queue without duplicates stays one when its head leaves, and the head
/// is then no longer in it.
pub proof fn lemma_queue_pop(queue: Seq<usize>)
    requires
        queue.no_duplicates(),
        queue.len() > 0,
    ensures
        queue.subrange(1, queue.len() as int).no_duplicates(),
        forall|x: usize| #[trigger]
            queue.subrange(1, queue.len() as int).contains(x) <==> queue.contains(x) && x
                != queue[0],
{
    let rest = queue.subrange(1, queue.len() as int);
    assert forall|x: usize| #[trigger] rest.contains(x) <==> queue.contains(x) && x != queue[0] by {
        if rest.contains(x) {
            let i = choose|i: int| 0 <= i < rest.len() && rest[i] == x;
            assert(queue[i + 1] == x);
        }
        if queue.contains(x) && x != queue[0] {
            let i = choose|i: int| 0 <= i < queue.len() && queue[i] == x;
            assert(rest[i - 1] == x);
        }
    }
}

/// The scheduler is well formed before its first step.
pub proof fn lemma_initial_wf(pipeline: PipelineState)
    requires
        pipeline.wf(),
        pipeline.complete(),
        pipeline.processors.len() <= usize::MAX,
    ensures
        ExecutorState::initial(pipeline).wf(),
{
    let s = ExecutorState::initial(pipeline);
    assert forall|pid: int| 0 <= pid < s.len() implies #[trigger] s.slot_ok(pid) by {
        assert(s.queue[pid] == pid as usize);
    }
}

/// Waking a neighbour keeps the scheduler well formed.
pub proof fn lemma_woken_wf(s: ExecutorState, target: Option<int>, changed: bool)
    requires
        s.wf(),
        target is Some ==> 0 <= target->Some_0 < s.len(),
    ensures
        s.woken(target, changed).wf(),
{
    let w = s.woken(target, changed);
    if w != s {
        let q = target->Some_0;
        assert(s.slot_ok(q));
        lemma_queue_push(s.queue, q as usize);
        assert forall|pid: int| 0 <= pid < w.len() implies #[trigger] w.slot_ok(pid) by {
            assert(s.slot_ok(pid));
        }
        assert forall|i: int| 0 <= i < w.queue.len() implies (#[trigger] w.queue[i]) < w.len() by {
            if i < s.queue.len() {
                assert(w.queue[i] == s.queue[i]);
            }
        }
    }
}

/// Recording the event of the head of the queue keeps the scheduler well
/// formed.
pub proof fn lemma_recorded_wf(s: ExecutorState)
    requires
        s.wf(),
        s.error is None,
        s.queue.len() > 0,
        s.slots[s.queue[0] as int] is Examine,
    ensures
        s.popped().recorded(s.queue[0] as int).wf(),
{
    let pid = s.queue[0] as int;
    let t = s.popped();
    let p = t.pipeline.processors[pid];
    let e = p.event(t.pipeline.ports);
    let recorded = t.recorded(pid);
    assert(s.queue[0] < s.len());
    lemma_queue_pop(s.queue);
    lemma_queue_push(t.queue, pid as usize);
    lemma_after_event_wf(s.pipeline, pid);
    assert(s.pipeline.processor_ok(pid));
    if e.actionable() {
        lemma_actionable_has_work(p, s.pipeline.ports);
    }
    assert forall|q: int| 0 <= q < recorded.len() implies #[trigger] recorded.slot_ok(q) by {
        assert(s.slot_ok(q));
    }
    assert forall|i: int| 0 <= i < recorded.queue.len() implies (#[trigger] recorded.queue[i])
        < recorded.len() by {
        if i < t.queue.len() {
            assert(recorded.queue[i] == s.queue[i + 1]);
        }
    }
}

/// Queueing a processor that is neither queued nor finished keeps the
/// scheduler well formed.
pub proof fn lemma_queued_as_examine_wf(s: ExecutorState, pid: int)
    requires
        s.wf(),
        s.error is None,
        0 <= pid < s.len(),
        s.slots[pid] is Idle || s.slots[pid] is Running,
        !(s.events[pid] is Finished),
    ensures
        s.queued_as(pid, Slot::Examine).wf(),
{
    let t = s.queued_as(pid, Slot::Examine);
    assert(s.slot_ok(pid));
    lemma_queue_push(s.queue, pid as usize);
    assert forall|q: int| 0 <= q < t.len() implies #[trigger] t.slot_ok(q) by {
        assert(s.slot_ok(q));
    }
    assert forall|i: int| 0 <= i < t.queue.len() implies (#[trigger] t.queue[i]) < t.len() by {
        if i < s.queue.len() {
            assert(t.queue[i] == s.queue[i]);
        }
    }
}

/// Starting the step of the head of the queue keeps the scheduler well
/// formed, whether the step ran on the calling thread and left `after`, or
/// suspends and has handed its block out.
pub proof fn lemma_started_wf(s: ExecutorState, after: ProcessorState)
    requires
        s.wf(),
        s.error is None,
        s.queue.len() > 0,
        s.slots[s.queue[0] as int] is Ready,
        s.pipeline.processors[s.queue[0] as int].processed(after, true)
            || s.pipeline.processors[s.queue[0] as int].processed(after, false) || after
            == s.pipeline.processors[s.queue[0] as int].after_take(),
    ensures
        s.popped().started(s.queue[0] as int, after).wf(),
        s.events[s.queue[0] as int] is Async ==> s.pipeline.processors[s.queue[0] as int].taken_block() is Some,
{
    let pid = s.queue[0] as int;
    let p = s.pipeline.processors[pid];
    let t = s.popped().started(pid, after);
    assert(s.queue[0] < s.len());
    assert(s.slot_ok(pid));
    assert(s.pipeline.processor_ok(pid));
    lemma_queue_pop(s.queue);
    if after == p.after_take() {
        lemma_take_keeps_links(p);
    } else if p.processed(after, true) {
        lemma_processed_keeps_links(p, after, true);
    } else {
        lemma_processed_keeps_links(p, after, false);
    }
    crate::pipeline::lemma_with_processor_wf(s.pipeline, pid, after);
    assert forall|q: int| 0 <= q < t.len() implies #[trigger] t.slot_ok(q) by {
        assert(s.slot_ok(q));
    }
    assert forall|i: int| 0 <= i < t.queue.len() implies (#[trigger] t.queue[i]) < t.len() by {
        assert(t.queue[i] == s.queue[i + 1]);
    }
}

/// Aborting keeps the scheduler well formed, and leaves every port
/// finished and nothing queued.
pub proof fn lemma_aborted_wf(s: ExecutorState, cause: ErrorCode)
    requires
        s.wf(),
    ensures
        s.aborted(cause).wf(),
        s.aborted(cause).pipeline.all_ports_finished(),
        s.aborted(cause).queue.len() == 0,
        s.aborted(cause).error == Some(cause),
{
    let t = s.aborted(cause);
    crate::pipeline::lemma_cancelled_wf(s.pipeline);
    assert forall|q: int| 0 <= q < t.len() implies #[trigger] t.slot_ok(q) by {
        assert(s.slot_ok(q));
        assert(!t.queue.contains(q as usize));
    }
}

/// Taking the answer of a step keeps the scheduler well formed.
pub proof fn lemma_completed_wf(s: ExecutorState, pid: int, failure: Option<ErrorCode>)
    requires
        s.wf(),
        0 <= pid < s.len(),
        s.slots[pid] is Running,
    ensures
        s.completed(pid, failure).wf(),
{
    let t = s.completed(pid, failure);
    assert(s.slot_ok(pid));
    if s.error is Some {
        assert forall|q: int| 0 <= q < t.len() implies #[trigger] t.slot_ok(q) by {
            assert(s.slot_ok(q));
        }
    } else {
        match failure {
            None => {
                lemma_queued_as_examine_wf(s, pid);
            },
            Some(cause) => {
                let parked = s.parked(pid, s.pipeline.processors[pid]);
                assert(parked.pipeline =~= s.pipeline) by {
                    assert(parked.pipeline.processors =~= s.pipeline.processors);
                }
                assert forall|q: int| 0 <= q < parked.len() implies #[trigger] parked.slot_ok(
                    q,
                ) by {
                    assert(s.slot_ok(q));
                }
                lemma_aborted_wf(parked, cause);
            },
        }
    }
}

/// The scheduler can come after itself.
pub proof fn lemma_leads_refl(s: ExecutorState)
    ensures
        s.leads_to(s),
{
    crate::pipeline::lemma_evolves_refl(s.pipeline);
}

/// What can come after what can come after a scheduler can come after the
/// scheduler.
pub proof fn lemma_leads_trans(a: ExecutorState, b: ExecutorState, c: ExecutorState)
    requires
        a.leads_to(b),
        b.leads_to(c),
    ensures
        a.leads_to(c),
{
    crate::pipeline::lemma_evolves_trans(a.pipeline, b.pipeline, c.pipeline);
    assert forall|pid: int|
        0 <= pid < a.events.len() && (#[trigger] a.events[pid]) is Finished implies c.events[pid] is Finished by {
        assert(b.events[pid] is Finished);
    }
}

/// Waking a neighbour is a move of a run.
pub proof fn lemma_woken_leads(s: ExecutorState, target: Option<int>, changed: bool)
    ensures
        s.leads_to(s.woken(target, changed)),
        s.woken(target, changed).pipeline == s.pipeline,
        s.woken(target, changed).events == s.events,
        s.woken(target, changed).error == s.error,
{
    lemma_leads_refl(s);
}

/// Every step of the scheduler is a move of a run: it never reopens a
/// port, never rewrites a history, never takes a processor back from
/// `Finished`, and after a failure it leaves the pipeline alone.
pub proof fn lemma_step_leads(s: ExecutorState, step: Step, later: ExecutorState)
    requires
        s.wf(),
        s.steps_to(step, later),
    ensures
        s.leads_to(later),
{
    lemma_leads_refl(s);
    if s.error is None && s.queue.len() > 0 {
        let pid = s.queue[0] as int;
        let p = s.pipeline.processors[pid];
        let after = later.pipeline.processors[pid];
        let t = s.popped();
        assert(s.queue[0] < s.len());
        assert(s.slot_ok(pid));
        assert(s.queue.contains(s.queue[0]));
        if s.slots[pid] is Examine {
            crate::pipeline::lemma_after_event_evolves(s.pipeline, pid);
            let recorded = t.recorded(pid);
            let up = t.pipeline.upstream(pid);
            let down = t.pipeline.downstream(pid);
            lemma_woken_leads(recorded, up, t.pipeline.input_changed(pid));
            lemma_woken_leads(
                recorded.woken(up, t.pipeline.input_changed(pid)),
                down,
                t.pipeline.output_changed(pid),
            );
        } else {
            let ran = if s.events[pid] is Sync {
                after
            } else {
                p.after_take()
            };
            let mid = t.started(pid, ran);
            if s.events[pid] is Sync {
                let failure = if step is Failed {
                    later.error
                } else {
                    None
                };
                crate::processor::lemma_processed_grows(p, after, failure is None);
                assert(p.processed(ran, failure is None));
                lemma_started_wf(s, ran);
                lemma_completed_leads(mid, pid, failure);
                crate::pipeline::lemma_with_processor_evolves(s.pipeline, pid, ran);
                lemma_leads_trans(s, mid, later);
            } else {
                crate::processor::lemma_take_grows(p);
                crate::pipeline::lemma_with_processor_evolves(s.pipeline, pid, ran);
            }
        }
    }
}

/// Taking the answer of a step is a move of a run.
pub proof fn lemma_completed_leads(s: ExecutorState, pid: int, failure: Option<ErrorCode>)
    requires
        s.wf(),
        0 <= pid < s.len(),
        s.slots[pid] is Running,
    ensures
        s.leads_to(s.completed(pid, failure)),
{
    lemma_leads_refl(s);
    if s.error is None && failure is Some {
        let parked = s.parked(pid, s.pipeline.processors[pid]);
        assert(parked.pipeline.processors =~= s.pipeline.processors);
        crate::pipeline::lemma_cancelled_evolves(s.pipeline);
    }
}

/// A cancellation that has reached some of the processors keeps the
/// scheduler well formed and is a move of a run.
pub proof fn lemma_woken_all(s: ExecutorState, upto: nat)
    requires
        s.wf(),
        upto <= s.len(),
    ensures
        s.woken_all(upto).wf(),
        s.leads_to(s.woken_all(upto)),
        s.woken_all(upto).pipeline == s.pipeline,
        s.woken_all(upto).error == s.error,
        s.woken_all(upto).len() == s.len(),
    decreases upto,
{
    if upto == 0 {
        lemma_leads_refl(s);
    } else {
        let before = s.woken_all((upto - 1) as nat);
        lemma_woken_all(s, (upto - 1) as nat);
        lemma_woken_wf(before, Some(upto - 1), true);
        lemma_woken_leads(before, Some(upto - 1), true);
        lemma_leads_trans(s, before, s.woken_all(upto));
    }
}

/// Finishing every port keeps the scheduler well formed and is a move of
/// a run, as long as the run has not failed.
pub proof fn lemma_ports_cancelled(s: ExecutorState)
    requires
        s.wf(),
        s.error is None,
    ensures
        (ExecutorState { pipeline: s.pipeline.cancelled(), ..s }).wf(),
        s.leads_to(ExecutorState { pipeline: s.pipeline.cancelled(), ..s }),
{
    let t = ExecutorState { pipeline: s.pipeline.cancelled(), ..s };
    crate::pipeline::lemma_cancelled_wf(s.pipeline);
    crate::pipeline::lemma_cancelled_evolves(s.pipeline);
    assert forall|q: int| 0 <= q < t.len() implies #[trigger] t.slot_ok(q) by {
        assert(s.slot_ok(q));
    }
}

/// Event and step agree: the scheduler runs the step of a processor only
/// when the most recent event of that processor asked for exactly that
/// step, on the calling thread for `Sync` and suspending for `Async`, and
/// only while the processor is as that `event` call left it, with its work
/// still in its buffer.
pub proof fn lemma_step_follows_event(s: ExecutorState, step: Step, later: ExecutorState)
    requires
        s.wf(),
        s.steps_to(step, later),
    ensures
        step is Processed || step is Suspended || (step is Failed && s.error is None) ==> {
            let pid = s.queue[0] as int;
            &&& 0 <= pid < s.len()
            &&& step is Processed ==> step->Processed_0 == pid
            &&& step is Suspended ==> step->Suspended_0 == pid
            &&& s.events[pid] == if step is Suspended {
                Event::Async
            } else {
                Event::Sync
            }
            &&& s.pipeline.processors[pid] == s.snapshots[pid]
            &&& s.pipeline.processors[pid].has_work()
        },
        step is Polled ==> later.snapshots[step->Polled_0] == later.pipeline.processors[step->Polled_0]
            && later.events[step->Polled_0] == s.pipeline.processors[step->Polled_0].event(
            s.pipeline.ports,
        ),
{
    if s.error is None && s.queue.len() > 0 {
        let pid = s.queue[0] as int;
        assert(s.queue[0] < s.len());
        assert(s.queue.contains(s.queue[0]));
        assert(s.slot_ok(pid));
        if s.slots[pid] is Examine {
            assert(s.pipeline.processor_ok(pid));
            if s.pipeline.upstream(pid) is Some {
                assert(s.pipeline.port_ok(s.pipeline.processors[pid].input()->Some_0));
            }
            if s.pipeline.downstream(pid) is Some {
                assert(s.pipeline.port_ok(s.pipeline.processors[pid].output()->Some_0));
            }
        }
    }
}

/// A failure is final. When a step fails, the run keeps exactly that
/// error, every port is finished and nothing is queued. Whatever is done
/// with the scheduler afterwards, the error stays the same and the pipeline
/// stands still: no processor is asked or run again, so no block that came
/// after the failing one is ever delivered.
pub proof fn lemma_failure_is_final(
    s: ExecutorState,
    pid: int,
    cause: ErrorCode,
    later: ExecutorState,
)
    requires
        s.wf(),
        s.error is None,
        0 <= pid < s.len(),
        s.slots[pid] is Running,
        s.completed(pid, Some(cause)).leads_to(later),
    ensures
        s.completed(pid, Some(cause)).error == Some(cause),
        s.completed(pid, Some(cause)).pipeline.all_ports_finished(),
        s.completed(pid, Some(cause)).queue.len() == 0,
        s.completed(pid, Some(cause)).pipeline.processors == s.pipeline.processors,
        later.error == Some(cause),
        later.pipeline == s.completed(pid, Some(cause)).pipeline,
{
    lemma_completed_wf(s, pid, Some(cause));
    let parked = s.parked(pid, s.pipeline.processors[pid]);
    assert(parked.pipeline.processors =~= s.pipeline.processors);
}

/// After a failure the scheduler only reports the failure.
pub proof fn lemma_failed_run_is_over(s: ExecutorState, step: Step, later: ExecutorState)
    requires
        s.error is Some,
        s.steps_to(step, later),
    ensures
        step is Failed,
        later == s,
{
}

/// A suspending step that was started: the processor it belongs to and the
/// block it works on.
pub struct Task {
    pid: usize,
    block: DataBlock,
}

impl Task {
    /// The processor whose step this is.
    pub closed spec fn processor(&self) -> int {
        self.pid as int
    }

    /// The block of the step.
    pub closed spec fn data(&self) -> Seq<u8> {
        self.block@
    }

    pub fn pid(&self) -> (pid: usize)
        ensures
            pid == self.processor(),
    {
        self.pid
    }

    pub fn block(&self) -> (block: &DataBlock)
        ensures
            block@ == self.data(),
    {
        &self.block
    }

    /// Takes the task apart.
    pub fn into_parts(self) -> (parts: (usize, DataBlock))
        ensures
            parts.0 == self.processor(),
            parts.1@ == self.data(),
    {
        (self.pid, self.block)
    }
}

/// What one step of the scheduler did.
pub enum Progress {
    /// Asked this processor for its event.
    Polled(usize),
    /// Ran the step of this processor on the calling thread.
    Processed(usize),
    /// Started a suspending step; the caller runs it and reports back with
    /// `complete`.
    Suspended(Task),
    /// Nothing is queued; suspending steps are in flight.
    Waiting,
    /// Nothing is queued or in flight, and yet not everything is finished.
    Stalled,
    /// Every processor is finished.
    Completed,
    /// The run has failed; `error` tells why.
    Failed,
}

impl View for Progress {
    type V = Step;

    open spec fn view(&self) -> Step {
        match *self {
            Progress::Polled(pid) => Step::Polled(pid as int),
            Progress::Processed(pid) => Step::Processed(pid as int),
            Progress::Suspended(task) => Step::Suspended(task.processor(), task.data()),
            Progress::Waiting => Step::Waiting,
            Progress::Stalled => Step::Stalled,
            Progress::Completed => Step::Completed,
            Progress::Failed => Step::Failed,
        }
    }
}

/// How a run came to rest.
pub enum Outcome {
    /// Every processor is finished.
    Completed,
    /// A suspending step was started; the caller runs it, reports back with
    /// `complete` and runs on.
    Suspended(Task),
    /// Nothing is queued; suspending steps are in flight.
    Waiting,
    /// Nothing is queued or in flight, and yet not everything is finished.
    Stalled,
    /// The allowed number of steps was used up.
    OutOfSteps,
}

/// The scheduler: drives every processor of a pipeline until all of them
/// are finished, or until the first error.
pub struct Executor<S: Source, T: Transform, K: Sink> {
    pipeline: Pipeline<S, T, K>,
    events: Vec<Event>,
    slots: Vec<Slot>,
    queue: VecDeque<usize>,
    error: Option<ErrorCode>,
    snapshots: Ghost<Seq<ProcessorState>>,
}

impl<S: Source, T: Transform, K: Sink> View for Executor<S, T, K> {
    type V = ExecutorState;

    closed spec fn view(&self) -> ExecutorState {
        ExecutorState {
            pipeline: self.pipeline@,
            events: self.events@,
            slots: self.slots@,
            queue: self.queue@,
            snapshots: self.snapshots@,
            error: self.error,
        }
    }
}

impl<S: Source, T: Transform, K: Sink> Executor<S, T, K> {
    /// The scheduler and its pipeline are well formed.
    pub closed spec fn wf(&self) -> bool {
        self@.wf() && self.pipeline.wf()
    }

    /// A well-formed scheduler has a well-formed model.
    pub proof fn lemma_wf(&self)
        requires
            self.wf(),
        ensures
            self@.wf(),
    {
    }

    /// Processor `pid`, capability and all.
    pub closed spec fn processor_at(&self, pid: int) -> Processor<S, T, K> {
        self.pipeline.processor_at(pid)
    }

    /// Every processor but `pid` is the one it was in `before`.
    pub open spec fn same_but(&self, before: &Self, pid: int) -> bool {
        forall|q: int|
            0 <= q < before@.len() && q != pid ==> #[trigger] self.processor_at(q)
                == before.processor_at(q)
    }

    /// The processors are those of `pipeline`.
    pub open spec fn holds(&self, pipeline: &Pipeline<S, T, K>) -> bool {
        forall|q: int|
            0 <= q < self@.len() ==> #[trigger] self.processor_at(q) == pipeline.processor_at(q)
    }

    /// The processor that the next step serves: the head of the queue, or
    /// none when the run has failed or nothing is queued.
    pub open spec fn served(&self) -> int {
        if self@.error is None && self@.queue.len() > 0 {
            self@.queue[0] as int
        } else {
            -1
        }
    }

    /// Takes over a pipeline. An incomplete pipeline, one with ports that
    /// nobody reads, is refused with a `LogicalError`.
    pub fn create(pipeline: Pipeline<S, T, K>) -> (r: Result<Executor<S, T, K>, ErrorCode>)
        requires
            pipeline.wf(),
        ensures
            r is Ok <==> pipeline@.complete(),
            r is Ok ==> r->Ok_0.wf() && r->Ok_0@ == ExecutorState::initial(pipeline@),
            r is Ok ==> r->Ok_0.holds(&pipeline),
            r is Ok && pipeline@.pristine() ==> r->Ok_0@.lossless(),
            r is Err ==> r->Err_0 is LogicalError,
    {
        if !pipeline.is_complete() {
            return Err(
                ErrorCode::LogicalError("the pipeline does not end in sinks".to_owned()),
            );
        }
        let n: usize = pipeline.len();
        let mut events: Vec<Event> = Vec::new();
        let mut slots: Vec<Slot> = Vec::new();
        let mut queue: VecDeque<usize> = VecDeque::new();
        let mut i: usize = 0;
        while i < n
            invariant
                i <= n,
                events@ =~= Seq::new(i as nat, |j: int| Event::NeedData),
                slots@ =~= Seq::new(i as nat, |j: int| Slot::Examine),
                queue@ =~= Seq::new(i as nat, |j: int| j as usize),
            decreases n - i,
        {
            events.push(Event::NeedData);
            slots.push(Slot::Examine);
            queue.push_back(i);
            i = i + 1;
        }
        let ghost snapshots = pipeline@.processors;
        proof {
            lemma_initial_wf(pipeline@);
            if pipeline@.pristine() {
                crate::delivery::lemma_initial_lossless(pipeline@);
            }
        }
        Ok(Executor { pipeline, events, slots, queue, error: None, snapshots: Ghost(snapshots) })
    }

    /// Number of processors.
    pub fn len(&self) -> (n: usize)
        ensures
            n == self@.len(),
    {
        self.pipeline.len()
    }

    /// The pipeline, to look at.
    pub fn pipeline(&self) -> (pipeline: &Pipeline<S, T, K>)
        ensures
            pipeline@ == self@.pipeline,
            self.holds(pipeline),
            self.wf() ==> pipeline.wf(),
    {
        &self.pipeline
    }

    /// Gives the pipeline back.
    pub fn into_pipeline(self) -> (pipeline: Pipeline<S, T, K>)
        ensures
            pipeline@ == self@.pipeline,
            self.holds(&pipeline),
            self.wf() ==> pipeline.wf(),
    {
        self.pipeline
    }

    /// The first error of the run, if it has failed.
    pub fn error(&self) -> (error: Option<&ErrorCode>)
        ensures
            match error {
                Some(e) => self@.error == Some(*e),
                None => self@.error is None,
            },
    {
        self.error.as_ref()
    }

    /// The most recent event of processor `pid`.
    pub fn event_of(&self, pid: usize) -> (event: Event)
        requires
            self.wf(),
            pid < self@.len(),
        ensures
            event == self@.events[pid as int],
    {
        self.events[pid]
    }

    /// True when every processor is finished and no step is in flight.
    pub fn is_finished(&self) -> (b: bool)
        requires
            self.wf(),
        ensures
            b == self@.finished(),
    {
        let n: usize = self.events.len();
        let mut i: usize = 0;
        while i < n
            invariant
                i <= n,
                n == self.events@.len(),
                n == self.slots@.len(),
                n == self@.len(),
                forall|pid: int|
                    0 <= pid < i ==> (#[trigger] self@.events[pid]) is Finished && !(
                    self@.slots[pid] is Running),
            decreases n - i,
        {
            if !self.events[i].is_finished() || self.slots[i] == Slot::Running {
                assert(!((self@.events[i as int]) is Finished && !(
                self@.slots[i as int] is Running)));
                return false;
            }
            i = i + 1;
        }
        true
    }

    /// True when a suspending step is in flight.
    pub fn has_in_flight(&self) -> (b: bool)
        requires
            self.wf(),
        ensures
            b == self@.in_flight(),
    {
        let n: usize = self.slots.len();
        let mut i: usize = 0;
        while i < n
            invariant
                i <= n,
                n == self.slots@.len(),
                n == self@.len(),
                forall|pid: int| 0 <= pid < i ==> !((#[trigger] self@.slots[pid]) is Running),
            decreases n - i,
        {
            if self.slots[i] == Slot::Running {
                assert(self@.slots[i as int] is Running);
                return true;
            }
            i = i + 1;
        }
        false
    }

    /// Queues a neighbour whose port has changed, unless it is queued
    /// already, in flight or finished.
    fn wake(&mut self, target: Option<usize>, changed: bool)
        requires
            old(self).wf(),
            target is Some ==> target->Some_0 < old(self)@.len(),
        ensures
            final(self).wf(),
            final(self)@ == old(self)@.woken(index_of(target), changed),
            final(self).pipeline == old(self).pipeline,
    {
        proof {
            lemma_woken_wf(self@, index_of(target), changed);
        }
        match target {
            Some(q) => {
                if changed && self.slots[q] == Slot::Idle && !self.events[q].is_finished() {
                    self.slots[q] = Slot::Examine;
                    self.queue.push_back(q);
                }
            },
            None => {},
        }
    }

    /// Aborts the run with `cause`.
    fn abort(&mut self, cause: ErrorCode)
        requires
            old(self).wf(),
        ensures
            final(self).wf(),
            final(self)@ == old(self)@.aborted(cause),
            final(self).same_but(old(self), -1),
    {
        let ghost before = self@;
        let ghost began = *self;
        proof {
            lemma_aborted_wf(before, cause);
        }
        self.pipeline.finish();
        self.queue.clear();
        let n: usize = self.slots.len();
        let mut i: usize = 0;
        while i < n
            invariant
                i <= n,
                n == before.slots.len(),
                n == before.events.len(),
                self.slots@.len() == n,
                self.events@.len() == n,
                self.queue@.len() == 0,
                self.pipeline.wf(),
                self.pipeline@ == before.pipeline.cancelled(),
                self.snapshots@ == before.snapshots,
                self.pipeline.same_but(&began.pipeline, -1),
                began@ == before,
                forall|j: int| 0 <= j < i ==> #[trigger] self.slots@[j] == before.aborted(cause).slots[j],
                forall|j: int|
                    0 <= j < i ==> #[trigger] self.events@[j] == before.aborted(cause).events[j],
                forall|j: int| i <= j < n ==> #[trigger] self.slots@[j] == before.slots[j],
                forall|j: int| i <= j < n ==> #[trigger] self.events@[j] == before.events[j],
            decreases n - i,
        {
            if self.slots[i] != Slot::Running {
                self.slots[i] = Slot::Idle;
                self.events[i] = Event::Finished;
            }
            i = i + 1;
        }
        self.error = Some(cause);
        proof {
            assert(self@.slots =~= before.aborted(cause).slots);
            assert(self@.events =~= before.aborted(cause).events);
            assert(self@.queue =~= before.aborted(cause).queue);
        }
    }

    /// Does one step of scheduling: serves the processor at the head of the
    /// queue, or reports why there is nothing to serve.
    pub fn step(&mut self) -> (progress: Progress)
        requires
            old(self).wf(),
        ensures
            final(self).wf(),
            old(self)@.steps_to(progress@, final(self)@),
            old(self)@.leads_to(final(self)@),
            final(self).same_but(old(self), old(self).served()),
            progress is Polled || progress is Suspended ==> final(self).processor_at(
                old(self).served(),
            ).keeps_capability_of(&old(self).processor_at(old(self).served())),
            old(self)@.lossless() && final(self)@.error is None ==> final(self)@.lossless(),
    {
        let ghost before = self@;
        let progress = self.serve();
        proof {
            lemma_step_leads(before, progress@, self@);
            if before.lossless() && self@.error is None {
                crate::delivery::lemma_step_lossless(before, progress@, self@);
            }
        }
        progress
    }

    fn serve(&mut self) -> (progress: Progress)
        requires
            old(self).wf(),
        ensures
            final(self).wf(),
            old(self)@.steps_to(progress@, final(self)@),
            final(self).same_but(old(self), old(self).served()),
            progress is Polled || progress is Suspended ==> final(self).processor_at(
                old(self).served(),
            ).keeps_capability_of(&old(self).processor_at(old(self).served())),
    {
        let ghost before = self@;
        if self.error.is_some() {
            return Progress::Failed;
        }
        let pid: usize = match self.queue.pop_front() {
            Some(pid) => pid,
            None => {
                return if self.is_finished() {
                    Progress::Completed
                } else if self.has_in_flight() {
                    Progress::Waiting
                } else {
                    Progress::Stalled
                };
            },
        };
        assert(self@ == before.popped());
        assert(pid < before.len());
        assert(before.slot_ok(pid as int));
        assert(before.queue.contains(pid));
        if self.slots[pid] == Slot::Examine {
            let upstream = self.pipeline.upstream(pid);
            let downstream = self.pipeline.downstream(pid);
            let ghost asked = self.pipeline@.processors[pid as int];
            let ghost ports = self.pipeline@.ports;
            let polled = self.pipeline.event(pid);
            self.events[pid] = polled.event;
            proof {
                self.snapshots@ = self.snapshots@.update(pid as int, asked.after_event(ports));
            }
            if polled.event.is_actionable() {
                self.slots[pid] = Slot::Ready;
                self.queue.push_back(pid);
            } else {
                self.slots[pid] = Slot::Idle;
            }
            proof {
                assert(self@ == before.popped().recorded(pid as int));
                lemma_recorded_wf(before);
            }
            self.wake(upstream, polled.input_changed);
            self.wake(downstream, polled.output_changed);
            return Progress::Polled(pid);
        }
        assert(before.slots[pid as int] is Ready);
        if self.events[pid] == Event::Sync {
            proof {
                self.pipeline.lemma_processor_at(pid as int);
            }
            let answer = self.pipeline.process(pid);
            let ghost after = self.pipeline@.processors[pid as int];
            self.slots[pid] = Slot::Running;
            proof {
                assert(before.pipeline.processors[pid as int].processed(after, answer is Ok));
                lemma_started_wf(before, after);
                assert(self@ == before.popped().started(pid as int, after));
            }
            let went_well = answer.is_ok();
            let _ = self.complete(pid, answer);
            proof {
                assert(self@.pipeline.processors[pid as int] == after);
            }
            if went_well {
                Progress::Processed(pid)
            } else {
                Progress::Failed
            }
        } else {
            let ghost asked = self.pipeline@.processors[pid as int];
            proof {
                lemma_started_wf(before, asked.after_take());
            }
            let taken = self.pipeline.take_block(pid);
            self.slots[pid] = Slot::Running;
            proof {
                assert(self@ == before.popped().started(pid as int, asked.after_take()));
            }
            let block = match taken {
                Some(block) => block,
                None => DataBlock::empty(),
            };
            Progress::Suspended(Task { pid, block })
        }
    }

    /// Runs the pipeline: makes step after step until one of them reports
    /// something other than a processor asked or run, or until `max_steps`
    /// steps were made. The outcome is what that last step reported: every
    /// processor finished, a suspending step started (with its processor
    /// and block), nothing to do, or the failure of the run, given as its
    /// first error. A run that has failed before gives that error again and
    /// changes nothing.
    pub fn run(&mut self, max_steps: usize) -> (r: Result<Outcome, ErrorCode>)
        requires
            old(self).wf(),
        ensures
            final(self).wf(),
            old(self)@.leads_to(final(self)@),
            old(self)@.lossless() && r is Ok ==> final(self)@.lossless(),
            match r {
                Err(cause) => {
                    &&& final(self)@.error == Some(cause)
                    &&& if old(self)@.error is Some {
                        final(self)@ == old(self)@
                    } else {
                        old(self)@.rests_with(max_steps as nat, Step::Failed, final(self)@)
                    }
                },
                Ok(outcome) => {
                    &&& final(self)@.error is None
                    &&& match outcome {
                        Outcome::Completed => {
                            &&& old(self)@.rests_with(
                                max_steps as nat,
                                Step::Completed,
                                final(self)@,
                            )
                            &&& final(self)@.finished()
                            &&& final(self)@.queue.len() == 0
                        },
                        Outcome::Suspended(task) => {
                            &&& old(self)@.rests_with(
                                max_steps as nat,
                                Step::Suspended(task.processor(), task.data()),
                                final(self)@,
                            )
                            &&& 0 <= task.processor() < final(self)@.len()
                            &&& final(self)@.slots[task.processor()] is Running
                        },
                        Outcome::Waiting => {
                            &&& old(self)@.rests_with(max_steps as nat, Step::Waiting, final(self)@)
                            &&& final(self)@.queue.len() == 0
                            &&& final(self)@.in_flight()
                        },
                        Outcome::Stalled => {
                            &&& old(self)@.rests_with(max_steps as nat, Step::Stalled, final(self)@)
                            &&& final(self)@.queue.len() == 0
                            &&& !final(self)@.finished()
                            &&& !final(self)@.in_flight()
                        },
                        Outcome::OutOfSteps => old(self)@.runs_to(max_steps as nat, final(self)@),
                    }
                },
            },
    {
        let ghost start = self@;
        proof {
            lemma_leads_refl(start);
        }
        let mut steps: usize = 0;
        while steps < max_steps
            invariant
                self.wf(),
                start == old(self)@,
                steps <= max_steps,
                start.leads_to(self@),
                start.runs_to(steps as nat, self@),
                self@.error is None || (steps == 0 && self@ == start),
                start.lossless() && self@.error is None ==> self@.lossless(),
            decreases max_steps - steps,
        {
            let ghost before = self@;
            let progress = self.step();
            proof {
                lemma_leads_trans(start, before, self@);
                if before.error is None && before.queue.len() > 0 {
                    assert(before.queue[0] < before.len());
                }
            }
            match progress {
                Progress::Polled(_) => {},
                Progress::Processed(_) => {},
                Progress::Suspended(task) => {
                    return Ok(Outcome::Suspended(task));
                },
                Progress::Waiting => {
                    return Ok(Outcome::Waiting);
                },
                Progress::Stalled => {
                    return Ok(Outcome::Stalled);
                },
                Progress::Completed => {
                    return Ok(Outcome::Completed);
                },
                Progress::Failed => {
                    return match &self.error {
                        Some(cause) => Err(cause.duplicate()),
                        None => Ok(Outcome::OutOfSteps),
                    };
                },
            }
            proof {
                assert(before.steps_to(progress@, self@));
                assert(start.runs_to((steps + 1) as nat, self@));
            }
            steps = steps + 1;
        }
        match &self.error {
            Some(cause) => Err(cause.duplicate()),
            None => Ok(Outcome::OutOfSteps),
        }
    }

    /// Cancels the run: finishes every port, so that every processor that
    /// is not on its way already finds its ports closed when it is asked
    /// next. This is no error. A failed run stays as it is.
    pub fn finish(&mut self)
        requires
            old(self).wf(),
        ensures
            final(self).wf(),
            final(self)@ == old(self)@.cancelled(),
            old(self)@.leads_to(final(self)@),
            final(self).same_but(old(self), -1),
    {
        let ghost before = self@;
        let ghost began = *self;
        if self.error.is_some() {
            proof {
                lemma_leads_refl(before);
            }
            return ;
        }
        self.pipeline.finish();
        let ghost closed = self@;
        proof {
            lemma_ports_cancelled(before);
            assert(closed == ExecutorState { pipeline: before.pipeline.cancelled(), ..before });
        }
        let n: usize = self.slots.len();
        let mut i: usize = 0;
        while i < n
            invariant
                i <= n,
                n == closed.len(),
                closed.wf(),
                self.wf(),
                self@ == closed.woken_all(i as nat),
                began@ == before,
                closed.len() == before.len(),
                self.pipeline.same_but(&began.pipeline, -1),
            decreases n - i,
        {
            proof {
                lemma_woken_all(closed, i as nat);
            }
            self.wake(Some(i), true);
            i = i + 1;
        }
        proof {
            lemma_woken_all(closed, n as nat);
            lemma_leads_trans(before, closed, self@);
        }
    }

    /// Takes the answer of a step that is in flight. After a failure of the
    /// run the answer is dropped: the first error wins. A step that went
    /// well queues its processor to be asked for its event. A step that
    /// failed aborts the run with exactly its error: every port is
    /// finished and nothing is scheduled any more. The answer of a step
    /// that is not in flight is refused with a `LogicalError`, and nothing
    /// changes.
    pub fn complete(&mut self, pid: usize, result: Result<(), ErrorCode>) -> (r: Result<
        (),
        ErrorCode,
    >)
        requires
            old(self).wf(),
        ensures
            final(self).wf(),
            r is Ok <==> pid < old(self)@.len() && old(self)@.slots[pid as int] is Running,
            r is Ok ==> final(self)@ == old(self)@.completed(pid as int, failure_of(result)),
            r is Err ==> final(self)@ == old(self)@ && r->Err_0 is LogicalError,
            old(self)@.leads_to(final(self)@),
            final(self).same_but(old(self), -1),
            old(self)@.lossless() && !(r is Ok && result is Err) ==> final(self)@.lossless(),
    {
        let ghost before = self@;
        proof {
            lemma_leads_refl(before);
            if before.lossless() && pid < before.len() && before.slots[pid as int] is Running {
                crate::delivery::lemma_completed_lossless(before, pid as int);
            }
        }
        if pid >= self.slots.len() || self.slots[pid] != Slot::Running {
            return Err(
                ErrorCode::LogicalError("no step of this processor is in flight".to_owned()),
            );
        }
        proof {
            lemma_completed_wf(before, pid as int, failure_of(result));
            lemma_completed_leads(before, pid as int, failure_of(result));
        }
        if self.error.is_some() {
            self.slots[pid] = Slot::Idle;
            self.events[pid] = Event::Finished;
            return Ok(());
        }
        match result {
            Ok(()) => {
                self.slots[pid] = Slot::Examine;
                self.queue.push_back(pid);
            },
            Err(cause) => {
                self.slots[pid] = Slot::Idle;
                proof {
                    let parked = before.parked(pid as int, before.pipeline.processors[pid as int]);
                    assert(parked.pipeline.processors =~= before.pipeline.processors);
                    assert(self@ == parked);
                    assert forall|q: int| 0 <= q < parked.len() implies #[trigger] parked.slot_ok(
                        q,
                    ) by {
                        assert(before.slot_ok(q));
                    }
                }
                self.abort(cause);
            },
        }
        Ok(())
    }
}

} // verus!
