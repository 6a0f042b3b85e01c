use vstd::prelude::*;
use crate::datablock::DataBlock;
use crate::exception::ErrorCode;

verus! {

/// One handoff point as a mathematical value: the buffered block, the three
/// flags, and the history of what was pushed into and pulled out of it.
pub struct PortState {
    /// The block that waits for the consumer, if there is one.
    pub slot: Option<Seq<u8>>,
    /// The consumer has asked for more.
    pub need_data: bool,
    /// One side has closed the port.
    pub finished: bool,
    /// Every block the port accepted, oldest first.
    pub pushed: Seq<Seq<u8>>,
    /// Every block the port handed out, oldest first.
    pub pulled: Seq<Seq<u8>>,
}

/// The three flags of a port that its two sides can observe.
#[derive(Debug, Clone, Copy, PartialEq, Eq, Structural)]
pub struct PortFlags {
    pub has_data: bool,
    pub need_data: bool,
    pub finished: bool,
}

/// An operation on a port, as a value.
pub enum PortOp {
    Push(Seq<u8>),
    Pull,
    SetNeedData,
    Finish,
}

impl PortState {
    /// A port right after its two ends were connected.
    pub open spec fn fresh() -> PortState {
        PortState {
            slot: None,
            need_data: false,
            finished: false,
            pushed: Seq::empty(),
            pulled: Seq::empty(),
        }
    }

    pub open spec fn has_data(self) -> bool {
        self.slot is Some
    }

    pub open spec fn flags(self) -> PortFlags {
        PortFlags { has_data: self.has_data(), need_data: self.need_data, finished: self.finished }
    }

    /// The producer may push: the consumer asked for data and the slot is free.
    pub open spec fn can_push(self) -> bool {
        self.need_data && self.slot is None
    }

    /// A push is accepted only into a free slot; a rejected push changes nothing.
    pub open spec fn push(self, block: Seq<u8>) -> PortState {
        if self.slot is Some {
            self
        } else {
            PortState { slot: Some(block), pushed: self.pushed.push(block), ..self }
        }
    }

    pub open spec fn pull(self) -> PortState {
        match self.slot {
            Some(block) => PortState { slot: None, pulled: self.pulled.push(block), ..self },
            None => self,
        }
    }

    pub open spec fn set_need_data(self) -> PortState {
        PortState { need_data: true, ..self }
    }

    pub open spec fn finish(self) -> PortState {
        PortState { finished: true, ..self }
    }

    pub open spec fn apply(self, op: PortOp) -> PortState {
        match op {
            PortOp::Push(block) => self.push(block),
            PortOp::Pull => self.pull(),
            PortOp::SetNeedData => self.set_need_data(),
            PortOp::Finish => self.finish(),
        }
    }

    /// The port after a whole sequence of operations, first to last.
    pub open spec fn apply_all(self, ops: Seq<PortOp>) -> PortState
        decreases ops.len(),
    {
        if ops.len() == 0 {
            self
        } else {
            self.apply_all(ops.drop_last()).apply(ops.last())
        }
    }

    /// Number of blocks that were pushed and not yet pulled.
    pub open spec fn unconsumed(self) -> int {
        self.pushed.len() - self.pulled.len()
    }

    /// The histories agree with the slot: what was pushed is what was pulled,
    /// followed by the buffered block if there is one.
    pub open spec fn wf(self) -> bool {
        match self.slot {
            Some(block) => self.pushed == self.pulled.push(block),
            None => self.pushed == self.pulled,
        }
    }
}

impl PortState {
    /// `later` can come after `self`: a finished port is still finished,
    /// and the histories have only grown.
    pub open spec fn grows_to(self, later: PortState) -> bool {
        &&& self.finished ==> later.finished
        &&& self.pushed.is_prefix_of(later.pushed)
        &&& self.pulled.is_prefix_of(later.pulled)
    }
}

/// Every sequence begins with itself.
pub proof fn lemma_prefix_refl<A>(a: Seq<A>)
    ensures
        a.is_prefix_of(a),
{
    assert(a =~= a.subrange(0, a.len() as int));
}

/// A sequence is the beginning of itself with one more element.
pub proof fn lemma_prefix_push<A>(a: Seq<A>, x: A)
    ensures
        a.is_prefix_of(a.push(x)),
{
    assert(a =~= a.push(x).subrange(0, a.len() as int));
}

/// The beginning of a beginning is a beginning.
pub proof fn lemma_prefix_trans<A>(a: Seq<A>, b: Seq<A>, c: Seq<A>)
    requires
        a.is_prefix_of(b),
        b.is_prefix_of(c),
    ensures
        a.is_prefix_of(c),
{
    assert(a =~= c.subrange(0, a.len() as int)) by {
        assert forall|i: int| 0 <= i < a.len() implies a[i] == c[i] by {
            assert(a[i] == b.subrange(0, a.len() as int)[i]);
            assert(b[i] == c.subrange(0, b.len() as int)[i]);
        }
    }
}

/// No operation reopens a port or rewrites its histories.
pub proof fn lemma_apply_grows(s: PortState, op: PortOp)
    ensures
        s.grows_to(s.apply(op)),
{
    lemma_prefix_refl(s.pushed);
    lemma_prefix_refl(s.pulled);
    match op {
        PortOp::Push(block) => {
            lemma_prefix_push(s.pushed, block);
        },
        PortOp::Pull => {
            if let Some(block) = s.slot {
                lemma_prefix_push(s.pulled, block);
            }
        },
        _ => {},
    }
}

/// What can come after what can come after a port can come after the port.
pub proof fn lemma_grows_trans(a: PortState, b: PortState, c: PortState)
    requires
        a.grows_to(b),
        b.grows_to(c),
    ensures
        a.grows_to(c),
{
    lemma_prefix_trans(a.pushed, b.pushed, c.pushed);
    lemma_prefix_trans(a.pulled, b.pulled, c.pulled);
}

/// One operation keeps a port well formed.
pub proof fn lemma_apply_wf(s: PortState, op: PortOp)
    requires
        s.wf(),
    ensures
        s.apply(op).wf(),
{
}

/// Single slot: after any sequence of operations a port buffers at most one
/// unconsumed block, and it buffers one exactly when it reports data.
pub proof fn lemma_single_slot(s: PortState, ops: Seq<PortOp>)
    requires
        s.wf(),
    ensures
        s.apply_all(ops).wf(),
        0 <= s.apply_all(ops).unconsumed() <= 1,
        s.apply_all(ops).unconsumed() == 1 <==> s.apply_all(ops).has_data(),
    decreases ops.len(),
{
    if ops.len() > 0 {
        lemma_single_slot(s, ops.drop_last());
        lemma_apply_wf(s.apply_all(ops.drop_last()), ops.last());
    }
}

/// A push into a port that already holds a block is rejected: the port, its
/// block and its histories stay as they were.
pub proof fn lemma_push_on_full_rejected(s: PortState, block: Seq<u8>)
    requires
        s.has_data(),
    ensures
        s.push(block) == s,
{
}

/// Monotone finish: once a port is finished, it stays finished whatever is
/// done to it afterwards.
pub proof fn lemma_finish_monotone(s: PortState, ops: Seq<PortOp>)
    requires
        s.finished,
    ensures
        s.apply_all(ops).finished,
    decreases ops.len(),
{
    if ops.len() > 0 {
        lemma_finish_monotone(s, ops.drop_last());
    }
}

/// Finishing is idempotent.
pub proof fn lemma_finish_idempotent(s: PortState)
    ensures
        s.finish().finish() == s.finish(),
{
}

/// First in, first out: after any sequence of operations on a port that
/// started fresh, the blocks pulled so far are the first of the blocks
/// pushed, in the order in which they were pushed.
pub proof fn lemma_fifo(ops: Seq<PortOp>)
    ensures
        ({
            let s = PortState::fresh().apply_all(ops);
            s.pulled.is_prefix_of(s.pushed)
        }),
{
    lemma_single_slot(PortState::fresh(), ops);
}

/// The histories only grow: an operation never rewrites what was pushed or
/// pulled before it.
pub proof fn lemma_history_grows(s: PortState, ops: Seq<PortOp>)
    ensures
        s.pushed.is_prefix_of(s.apply_all(ops).pushed),
        s.pulled.is_prefix_of(s.apply_all(ops).pulled),
    decreases ops.len(),
{
    if ops.len() > 0 {
        lemma_history_grows(s, ops.drop_last());
    }
}

/// The state shared by the two ends of one connection.
struct Port {
    data: Option<DataBlock>,
    need_data: bool,
    finished: bool,
    pushed: Ghost<Seq<Seq<u8>>>,
    pulled: Ghost<Seq<Seq<u8>>>,
}

impl Port {
    spec fn state(&self) -> PortState {
        PortState {
            slot: match self.data {
                Some(block) => Some(block@),
                None => None,
            },
            need_data: self.need_data,
            finished: self.finished,
            pushed: self.pushed@,
            pulled: self.pulled@,
        }
    }

    fn fresh() -> (port: Port)
        ensures
            port.state() == PortState::fresh(),
    {
        Port {
            data: None,
            need_data: false,
            finished: false,
            pushed: Ghost(Seq::empty()),
            pulled: Ghost(Seq::empty()),
        }
    }

    fn pull(&mut self) -> (block: Option<DataBlock>)
        ensures
            final(self).state() == old(self).state().pull(),
            match block {
                Some(b) => old(self).state().slot == Some(b@),
                None => old(self).state().slot is None,
            },
    {
        let block = self.data.take();
        proof {
            if block is Some {
                self.pulled@ = self.pulled@.push(block->Some_0@);
            }
        }
        block
    }

    fn push(&mut self, block: DataBlock) -> (accepted: bool)
        ensures
            accepted == !old(self).state().has_data(),
            final(self).state() == old(self).state().push(block@),
    {
        if self.data.is_some() {
            false
        } else {
            proof {
                self.pushed@ = self.pushed@.push(block@);
            }
            self.data = Some(block);
            true
        }
    }

    fn set_need_data(&mut self)
        ensures
            final(self).state() == old(self).state().set_need_data(),
    {
        self.need_data = true;
    }

    fn finish(&mut self)
        ensures
            final(self).state() == old(self).state().finish(),
    {
        self.finished = true;
    }
}

/// The ports of one pipeline. Every connection lives here; processors hold
/// the handles of their ends and reach the shared state through them.
pub struct Ports {
    ports: Vec<Port>,
}

/// The consuming end of a connection.
#[derive(Clone, Copy, Debug)]
pub struct InputPort {
    id: usize,
}

/// The producing end of a connection.
#[derive(Clone, Copy, Debug)]
pub struct OutputPort {
    id: usize,
}

impl View for Ports {
    type V = Seq<PortState>;

    closed spec fn view(&self) -> Seq<PortState> {
        Seq::new(self.ports@.len(), |i: int| self.ports@[i].state())
    }
}

impl Ports {
    /// Every port's histories agree with its slot.
    pub open spec fn wf(&self) -> bool {
        forall|i: int| 0 <= i < self@.len() ==> (#[trigger] self@[i]).wf()
    }

    pub fn new() -> (ports: Ports)
        ensures
            ports@.len() == 0,
            ports.wf(),
    {
        Ports { ports: Vec::new() }
    }

    /// Number of connections.
    pub fn len(&self) -> (n: usize)
        ensures
            n == self@.len(),
    {
        self.ports.len()
    }

    /// The flags of the connection at `index`.
    pub fn flags(&self, index: usize) -> (flags: PortFlags)
        requires
            index < self@.len(),
        ensures
            flags == self@[index as int].flags(),
    {
        PortFlags {
            has_data: self.ports[index].data.is_some(),
            need_data: self.ports[index].need_data,
            finished: self.ports[index].finished,
        }
    }

    /// Creates a connection and returns its two ends.
    pub fn connect(&mut self) -> (ends: (OutputPort, InputPort))
        ensures
            final(self)@ == old(self)@.push(PortState::fresh()),
            ends.0.index() == old(self)@.len(),
            ends.1.index() == old(self)@.len(),
            old(self).wf() ==> final(self).wf(),
    {
        let id: usize = self.ports.len();
        self.ports.push(Port::fresh());
        assert(self@ =~= old(self)@.push(PortState::fresh()));
        (OutputPort { id }, InputPort { id })
    }

    /// Finishes every port.
    pub fn finish_all(&mut self)
        ensures
            final(self)@.len() == old(self)@.len(),
            forall|i: int| 0 <= i < old(self)@.len() ==> #[trigger] final(self)@[i] == old(self)@[i].finish(),
            old(self).wf() ==> final(self).wf(),
    {
        let n: usize = self.ports.len();
        let mut i: usize = 0;
        while i < n
            invariant
                i <= n,
                n == self.ports@.len(),
                self@.len() == old(self)@.len(),
                forall|j: int| 0 <= j < i ==> #[trigger] self@[j] == old(self)@[j].finish(),
                forall|j: int| i <= j < n ==> #[trigger] self@[j] == old(self)@[j],
            decreases n - i,
        {
            let ghost before = self@;
            self.ports[i].finish();
            assert(self@ =~= before.update(i as int, before[i as int].finish()));
            i = i + 1;
        }
    }

    /// True when every port is finished.
    pub fn all_finished(&self) -> (b: bool)
        ensures
            b == forall|i: int| 0 <= i < self@.len() ==> (#[trigger] self@[i]).finished,
    {
        let n: usize = self.ports.len();
        let mut i: usize = 0;
        while i < n
            invariant
                i <= n,
                n == self.ports@.len(),
                forall|j: int| 0 <= j < i ==> (#[trigger] self@[j]).finished,
            decreases n - i,
        {
            if !self.ports[i].finished {
                assert(!self@[i as int].finished);
                return false;
            }
            i = i + 1;
        }
        true
    }
}

impl InputPort {
    /// The position of the connection among the ports it was created in.
    pub closed spec fn index(&self) -> int {
        self.id as int
    }

    pub fn id(&self) -> (id: usize)
        ensures
            id == self.index(),
    {
        self.id
    }

    /// The handle belongs to a connection of `ports`.
    pub open spec fn valid(&self, ports: &Ports) -> bool {
        0 <= self.index() < ports@.len()
    }

    pub fn has_data(&self, ports: &Ports) -> (b: bool)
        requires
            self.valid(ports),
        ensures
            b == ports@[self.index()].has_data(),
    {
        ports.ports[self.id].data.is_some()
    }

    pub fn is_finished(&self, ports: &Ports) -> (b: bool)
        requires
            self.valid(ports),
        ensures
            b == ports@[self.index()].finished,
    {
        ports.ports[self.id].finished
    }

    /// Takes the buffered block out of the port; `None` when nothing is
    /// buffered, and then the port stays as it was.
    pub fn pull_data(&self, ports: &mut Ports) -> (block: Option<DataBlock>)
        requires
            self.valid(old(ports)),
        ensures
            final(ports)@ == old(ports)@.update(self.index(), old(ports)@[self.index()].pull()),
            match block {
                Some(b) => old(ports)@[self.index()].slot == Some(b@),
                None => old(ports)@[self.index()].slot is None,
            },
            old(ports).wf() ==> final(ports).wf(),
    {
        let block = ports.ports[self.id].pull();
        assert(ports@ =~= old(ports)@.update(self.index(), old(ports)@[self.index()].pull()));
        block
    }

    /// Tells the producer that the consumer is ready for more.
    pub fn set_need_data(&self, ports: &mut Ports)
        requires
            self.valid(old(ports)),
        ensures
            final(ports)@ == old(ports)@.update(
                self.index(),
                old(ports)@[self.index()].set_need_data(),
            ),
            old(ports).wf() ==> final(ports).wf(),
    {
        ports.ports[self.id].set_need_data();
        assert(ports@ =~= old(ports)@.update(
            self.index(),
            old(ports)@[self.index()].set_need_data(),
        ));
    }

    /// Closes the connection from the consumer's side: the producer will see
    /// that nobody reads any more.
    pub fn finish(&self, ports: &mut Ports)
        requires
            self.valid(old(ports)),
        ensures
            final(ports)@ == old(ports)@.update(self.index(), old(ports)@[self.index()].finish()),
            old(ports).wf() ==> final(ports).wf(),
    {
        ports.ports[self.id].finish();
        assert(ports@ =~= old(ports)@.update(self.index(), old(ports)@[self.index()].finish()));
    }
}

impl OutputPort {
    /// The position of the connection among the ports it was created in.
    pub closed spec fn index(&self) -> int {
        self.id as int
    }

    pub fn id(&self) -> (id: usize)
        ensures
            id == self.index(),
    {
        self.id
    }

    /// The handle belongs to a connection of `ports`.
    pub open spec fn valid(&self, ports: &Ports) -> bool {
        0 <= self.index() < ports@.len()
    }

    pub fn is_finished(&self, ports: &Ports) -> (b: bool)
        requires
            self.valid(ports),
        ensures
            b == ports@[self.index()].finished,
    {
        ports.ports[self.id].finished
    }

    pub fn can_push(&self, ports: &Ports) -> (b: bool)
        requires
            self.valid(ports),
        ensures
            b == ports@[self.index()].can_push(),
    {
        ports.ports[self.id].need_data && ports.ports[self.id].data.is_none()
    }

    /// Hands a block to the consumer. A port that still holds an unconsumed
    /// block rejects the push with a `LogicalError` and stays as it was.
    pub fn push_data(&self, ports: &mut Ports, block: DataBlock) -> (r: Result<(), ErrorCode>)
        requires
            self.valid(old(ports)),
        ensures
            r is Err <==> old(ports)@[self.index()].has_data(),
            r is Err ==> r->Err_0 is LogicalError,
            final(ports)@ == old(ports)@.update(
                self.index(),
                old(ports)@[self.index()].push(block@),
            ),
            old(ports).wf() ==> final(ports).wf(),
    {
        let accepted = ports.ports[self.id].push(block);
        assert(ports@ =~= old(ports)@.update(
            self.index(),
            old(ports)@[self.index()].push(block@),
        ));
        if accepted {
            Ok(())
        } else {
            Err(ErrorCode::LogicalError("push into a port that holds unconsumed data".to_owned()))
        }
    }

    /// Closes the connection from the producer's side: the consumer will see
    /// that no more data comes.
    pub fn finish(&self, ports: &mut Ports)
        requires
            self.valid(old(ports)),
        ensures
            final(ports)@ == old(ports)@.update(self.index(), old(ports)@[self.index()].finish()),
            old(ports).wf() ==> final(ports).wf(),
    {
        ports.ports[self.id].finish();
        assert(ports@ =~= old(ports)@.update(self.index(), old(ports)@[self.index()].finish()));
    }
}

} // verus!
