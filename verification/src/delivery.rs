//! Nothing is lost on the way: in a run that nobody cancels and that does
//! not fail, a port is only ever closed by its producer, and only once
//! everything that the producer had to say has left the port.

use vstd::prelude::*;
use crate::executor::ExecutorState;
use crate::executor::Slot;
use crate::executor::Step;
use crate::pipeline::PipeKind;
use crate::pipeline::PipelineState;
use crate::port::PortState;
use crate::processor::lemma_event_frame;
use crate::processor::lemma_work_in_order;
use crate::processor::ProcessorState;

verus! {

impl PipelineState {
    /// Nothing has happened in the pipeline yet: every port is as it was
    /// made, and no processor holds or has seen a block.
    pub open spec fn pristine(self) -> bool {
        &&& forall|h: int| 0 <= h < self.ports.len() ==> #[trigger] self.ports[h] == PortState::fresh()
        &&& forall|pid: int|
            0 <= pid < self.processors.len() ==> {
                let p = #[trigger] self.processors[pid];
                &&& p.outgoing() is None
                &&& p.consumed().len() == 0
                &&& p.produced().len() == 0
                &&& !p.run_dry()
                &&& !p.has_pending_input()
            }
    }
}

impl ExecutorState {
    /// What holds of processor `pid` as long as the run is neither
    /// cancelled nor failed. Its output port is closed only when the port
    /// is empty and the processor will never push again. Whenever the
    /// processor is about to produce, holds a block to push, or is a
    /// source that has run dry, its output port is empty. Every block that it took has given a result. And
    /// once it has reported `Finished`, it is finished for good.
    pub open spec fn lossless_at(self, pid: int) -> bool {
        let p = self.pipeline.processors[pid];
        let ports = self.pipeline.ports;
        &&& p.balanced()
        &&& self.events[pid] is Finished ==> p.over(ports)
        &&& p.output() is Some ==> {
            let port = ports[p.output()->Some_0];
            &&& port.finished ==> port.slot is None && p.drained(ports)
            &&& self.slots[pid] is Ready || self.slots[pid] is Running || p.outgoing() is Some
                || p.run_dry() ==> port.slot is None
        }
    }

    /// The run has lost nothing so far, and is in no danger to.
    pub open spec fn lossless(self) -> bool {
        &&& self.error is None
        &&& forall|pid: int| 0 <= pid < self.len() ==> #[trigger] self.lossless_at(pid)
    }
}

/// A pipeline that was only built, and not touched otherwise, is pristine.
pub proof fn lemma_built_is_pristine(s: PipelineState, kind: PipeKind, lanes: int)
    requires
        s.pristine(),
        lanes >= 0,
    ensures
        PipelineState::empty().pristine(),
        s.extended(kind, lanes).pristine(),
{
    let e = s.extended(kind, lanes);
    assert forall|h: int| 0 <= h < e.ports.len() implies #[trigger] e.ports[h]
        == PortState::fresh() by {
        if h < s.ports.len() {
            assert(e.ports[h] == s.ports[h]);
        }
    }
    assert forall|pid: int| 0 <= pid < e.processors.len() implies ({
        let p = #[trigger] e.processors[pid];
        &&& p.outgoing() is None
        &&& p.consumed().len() == 0
        &&& p.produced().len() == 0
        &&& !p.run_dry()
        &&& !p.has_pending_input()
    }) by {
        if pid < s.processors.len() {
            assert(e.processors[pid] == s.processors[pid]);
        } else {
            assert(e.processors[pid] == s.newcomer(kind, pid - s.processors.len()));
        }
    }
}

/// A run that starts on a pristine pipeline starts lossless.
pub proof fn lemma_initial_lossless(pipeline: PipelineState)
    requires
        pipeline.wf(),
        pipeline.pristine(),
    ensures
        ExecutorState::initial(pipeline).lossless(),
{
    let s = ExecutorState::initial(pipeline);
    assert forall|pid: int| 0 <= pid < s.len() implies #[trigger] s.lossless_at(pid) by {
        let p = pipeline.processors[pid];
        assert(pipeline.processor_ok(pid));
        if p.output() is Some {
            assert(pipeline.ports[p.output()->Some_0] == PortState::fresh());
        }
        if let ProcessorState::Transform(t) = p {
            assert(pipeline.ports[t.input] == PortState::fresh());
        }
    }
}

/// Waking a neighbour loses nothing.
pub proof fn lemma_woken_lossless(s: ExecutorState, target: Option<int>, changed: bool)
    requires
        s.wf(),
        s.lossless(),
        target is Some ==> 0 <= target->Some_0 < s.len(),
    ensures
        s.woken(target, changed).lossless(),
{
    let w = s.woken(target, changed);
    assert forall|pid: int| 0 <= pid < w.len() implies #[trigger] w.lossless_at(pid) by {
        assert(s.lossless_at(pid));
    }
}

/// Asking a processor for its event loses nothing: it closes its output
/// only on an empty port and with nothing left to push, and it takes
/// nothing away from a neighbour that is about to push.
pub proof fn lemma_recorded_lossless(s: ExecutorState)
    requires
        s.wf(),
        s.lossless(),
        s.queue.len() > 0,
        s.slots[s.queue[0] as int] is Examine,
    ensures
        s.popped().recorded(s.queue[0] as int).lossless(),
{
    let pid = s.queue[0] as int;
    let t = s.popped();
    let r = t.recorded(pid);
    let p = s.pipeline.processors[pid];
    let ports = s.pipeline.ports;
    let after = r.pipeline.ports;
    assert(s.queue[0] < s.len());
    assert(s.pipeline.processor_ok(pid));
    assert(s.lossless_at(pid));
    assert(s.slot_ok(pid));
    lemma_event_frame(p, ports);
    crate::processor::lemma_event_grows(p, ports);
    assert forall|q: int| 0 <= q < r.len() implies #[trigger] r.lossless_at(q) by {
        assert(s.lossless_at(q));
        assert(s.pipeline.processor_ok(q));
        assert(s.slot_ok(q));
        let other = s.pipeline.processors[q];
        if q != pid {
            assert(r.pipeline.processors[q] == other);
            if other.output() is Some {
                let h = other.output()->Some_0;
                assert(Some(h) != p.output());
                assert(s.pipeline.port_ok(h));
            }
            if let ProcessorState::Transform(o) = other {
                assert(after[o.input].finished || !ports[o.input].finished);
            }
        } else {
            if p.input() is Some {
                assert(s.pipeline.port_ok(p.input()->Some_0));
                assert(s.lossless_at(s.pipeline.producers[p.input()->Some_0]));
            }
        }
    }
}

/// A step that went well loses nothing.
pub proof fn lemma_started_lossless(s: ExecutorState, after: ProcessorState)
    requires
        s.wf(),
        s.lossless(),
        s.queue.len() > 0,
        s.slots[s.queue[0] as int] is Ready,
        s.pipeline.processors[s.queue[0] as int].processed(after, true) || after
            == s.pipeline.processors[s.queue[0] as int].after_take(),
    ensures
        s.popped().started(s.queue[0] as int, after).lossless(),
        s.popped().started(s.queue[0] as int, after).completed(s.queue[0] as int, None).lossless(),
{
    let pid = s.queue[0] as int;
    let t = s.popped().started(pid, after);
    let c = t.completed(pid, None);
    assert(s.queue[0] < s.len());
    assert(s.slot_ok(pid));
    assert(s.pipeline.processor_ok(pid));
    assert forall|q: int| 0 <= q < t.len() implies #[trigger] t.lossless_at(q) by {
        assert(s.lossless_at(q));
    }
    assert forall|q: int| 0 <= q < c.len() implies #[trigger] c.lossless_at(q) by {
        assert(t.lossless_at(q));
    }
}

/// The good answer of a step in flight loses nothing.
pub proof fn lemma_completed_lossless(s: ExecutorState, pid: int)
    requires
        s.wf(),
        s.lossless(),
        0 <= pid < s.len(),
        s.slots[pid] is Running,
    ensures
        s.completed(pid, None).lossless(),
{
    let c = s.completed(pid, None);
    assert forall|q: int| 0 <= q < c.len() implies #[trigger] c.lossless_at(q) by {
        assert(s.lossless_at(q));
    }
}

/// Every step of a run that has lost nothing loses nothing, unless it
/// fails the run.
pub proof fn lemma_step_lossless(s: ExecutorState, step: Step, later: ExecutorState)
    requires
        s.wf(),
        s.lossless(),
        s.steps_to(step, later),
        later.error is None,
    ensures
        later.lossless(),
{
    if s.queue.len() > 0 {
        let pid = s.queue[0] as int;
        let p = s.pipeline.processors[pid];
        let t = s.popped();
        assert(s.queue[0] < s.len());
        assert(s.queue.contains(s.queue[0]));
        assert(s.slot_ok(pid));
        assert(s.pipeline.processor_ok(pid));
        if s.slots[pid] is Examine {
            lemma_recorded_lossless(s);
            let r = t.recorded(pid);
            let up = t.pipeline.upstream(pid);
            let down = t.pipeline.downstream(pid);
            if up is Some {
                assert(s.pipeline.port_ok(p.input()->Some_0));
            }
            if down is Some {
                assert(s.pipeline.port_ok(p.output()->Some_0));
            }
            crate::executor::lemma_recorded_wf(s);
            crate::executor::lemma_woken_wf(r, up, t.pipeline.input_changed(pid));
            lemma_woken_lossless(r, up, t.pipeline.input_changed(pid));
            lemma_woken_lossless(
                r.woken(up, t.pipeline.input_changed(pid)),
                down,
                t.pipeline.output_changed(pid),
            );
        } else if s.events[pid] is Sync {
            let after = later.pipeline.processors[pid];
            if step is Failed {
                let mid = t.started(pid, after);
                assert(mid.completed(pid, later.error).error is Some);
            } else {
                lemma_started_lossless(s, after);
            }
        } else {
            lemma_started_lossless(s, p.after_take());
        }
    }
}

/// Two sequences of the same length, one the beginning of the other, are
/// the same.
pub proof fn lemma_full_prefix<A>(a: Seq<A>, b: Seq<A>)
    requires
        a.is_prefix_of(b),
        a.len() == b.len(),
    ensures
        a == b,
{
    assert(a =~= b);
}

/// A processor that has closed its output has passed on everything: if
/// every processor on its chain hands on what it was given, it has emitted
/// exactly what the source at the head of the chain generated.
pub proof fn lemma_closed_output_got_everything(s: ExecutorState, pid: int)
    requires
        s.wf(),
        s.lossless(),
        0 <= pid < s.len(),
        s.pipeline.processors[pid].output() is Some,
        s.pipeline.ports[s.pipeline.processors[pid].output()->Some_0].finished,
        s.pipeline.relays(pid),
        s.pipeline.fed_faithfully(pid),
    ensures
        s.pipeline.processors[pid].emitted() == s.pipeline.processors[s.pipeline.origin(
            pid,
        )].produced(),
    decreases pid,
{
    let p = s.pipeline.processors[pid];
    assert(s.pipeline.processor_ok(pid));
    assert(s.lossless_at(pid));
    lemma_work_in_order(p);
    match p {
        ProcessorState::Source(src) => {},
        ProcessorState::Transform(t) => {
            let i = t.input;
            let w = s.pipeline.producers[i];
            assert(s.pipeline.port_ok(i));
            assert(s.pipeline.processor_ok(w));
            assert(s.lossless_at(w));
            lemma_closed_output_got_everything(s, w);
            lemma_full_prefix(t.produced, t.taken);
        },
        ProcessorState::Sink(_) => {},
    }
}

/// Nothing is lost. When a run that was neither cancelled nor failed has
/// finished, every sink has consumed every block that the source at the
/// head of its chain generated, in the order in which they were generated,
/// as long as every processor in between hands on what it was given.
pub proof fn lemma_finished_run_delivered_everything(s: ExecutorState, pid: int)
    requires
        s.wf(),
        s.lossless(),
        s.finished(),
        0 <= pid < s.len(),
        s.pipeline.processors[pid] is Sink,
        s.pipeline.fed_faithfully(pid),
    ensures
        s.pipeline.processors[pid].consumed() == s.pipeline.processors[s.pipeline.origin(
            pid,
        )].produced(),
{
    let p = s.pipeline.processors[pid];
    let i = p.input()->Some_0;
    let w = s.pipeline.producers[i];
    assert(s.events[pid] is Finished);
    assert(s.pipeline.processor_ok(pid));
    assert(s.lossless_at(pid));
    assert(s.pipeline.port_ok(i));
    assert(s.pipeline.processor_ok(w));
    assert(s.lossless_at(w));
    lemma_closed_output_got_everything(s, w);
}

} // verus!
