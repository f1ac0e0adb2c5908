//! Command protocol and execution loop: the ordered command queue from
//! controllers to the simulation loop, the loop's three-state machine
//! (awaiting a command, executing, terminated), and the controller handle
//! that sends commands, stops the simulation and polls transmitted bytes.

use crate::engine::{ExecutionEngine, ExecutionOutcome};
use crate::machine::Machine;
use vstd::prelude::*;

verus! {

/// A control message from a controller to the simulation loop. The image
/// payload is owned by the command, never borrowed from the sender's frame.
pub enum SimCommand {
    /// Copy the owned bytes to `addr` through the bus's load path.
    LoadImage { addr: u64, image: Vec<u8> },
    /// Run the execution engine for up to `budget` instructions.
    Continue { budget: u64 },
    /// Leave the command loop: the simulation terminates.
    Stop,
}

/// A command as specifications see it, with the payload as a sequence.
pub enum CmdView {
    LoadImage { addr: u64, image: Seq<u8> },
    Continue { budget: u64 },
    Stop,
}

impl View for SimCommand {
    type V = CmdView;

    open spec fn view(&self) -> CmdView {
        match self {
            SimCommand::LoadImage { addr, image } => CmdView::LoadImage {
                addr: *addr,
                image: image@,
            },
            SimCommand::Continue { budget } => CmdView::Continue { budget: *budget },
            SimCommand::Stop => CmdView::Stop,
        }
    }
}

/// States of the execution loop.
#[derive(Clone, Copy, PartialEq, Eq, Structural, Debug)]
pub enum SimState {
    /// Blocked until the next command arrives.
    AwaitingCommand,
    /// An engine run is in flight; no command is observed meanwhile.
    Executing,
    /// The loop has exited; queued commands are discarded.
    Terminated,
}

/// The prefix of `cmds` that the loop applies: everything up to and
/// including the first `Stop`, or all of `cmds` if none occurs.
pub open spec fn applied_prefix(cmds: Seq<CmdView>) -> Seq<CmdView>
    decreases cmds.len(),
{
    if cmds.len() == 0 {
        Seq::empty()
    } else if cmds[0] is Stop {
        seq![cmds[0]]
    } else {
        seq![cmds[0]] + applied_prefix(cmds.skip(1))
    }
}

/// `cmds` holds a `Stop` command.
pub open spec fn contains_stop(cmds: Seq<CmdView>) -> bool {
    exists|i: int| 0 <= i < cmds.len() && (#[trigger] cmds[i]) is Stop
}

/// Without a `Stop`, every command is applied: the applied prefix is the
/// whole sequence, and appending a command extends it by that command.
proof fn lemma_applied_prefix_no_stop(cmds: Seq<CmdView>, c: CmdView)
    requires
        !contains_stop(cmds),
    ensures
        applied_prefix(cmds) == cmds,
        applied_prefix(cmds.push(c)) == cmds.push(c),
    decreases cmds.len(),
{
    if cmds.len() == 0 {
        assert(applied_prefix(cmds) =~= cmds);
        assert(cmds.push(c).skip(1) =~= Seq::<CmdView>::empty());
        assert(applied_prefix(cmds.push(c)) =~= cmds.push(c));
    } else {
        assert(!(cmds[0] is Stop));
        assert(!contains_stop(cmds.skip(1))) by {
            if contains_stop(cmds.skip(1)) {
                let i = choose|i: int|
                    0 <= i < cmds.skip(1).len() && (#[trigger] cmds.skip(1)[i]) is Stop;
                assert(cmds[i + 1] is Stop);
            }
        }
        lemma_applied_prefix_no_stop(cmds.skip(1), c);
        assert(applied_prefix(cmds) =~= cmds);
        assert(cmds.push(c).skip(1) =~= cmds.skip(1).push(c));
        assert(applied_prefix(cmds.push(c)) =~= cmds.push(c));
    }
}

/// Once a `Stop` is queued, later commands are discarded: appending a
/// command after it does not change the applied prefix.
proof fn lemma_applied_prefix_after_stop(cmds: Seq<CmdView>, c: CmdView)
    requires
        contains_stop(cmds),
    ensures
        applied_prefix(cmds.push(c)) == applied_prefix(cmds),
    decreases cmds.len(),
{
    assert(cmds.len() > 0);
    if cmds[0] is Stop {
        assert(applied_prefix(cmds.push(c)) =~= applied_prefix(cmds));
    } else {
        assert(contains_stop(cmds.skip(1))) by {
            let i = choose|i: int| 0 <= i < cmds.len() && (#[trigger] cmds[i]) is Stop;
            assert(cmds.skip(1)[i - 1] is Stop);
        }
        lemma_applied_prefix_after_stop(cmds.skip(1), c);
        assert(cmds.push(c).skip(1) =~= cmds.skip(1).push(c));
        assert(applied_prefix(cmds.push(c)) =~= applied_prefix(cmds));
    }
}

/// One application of command `c` by a loop in `AwaitingCommand`, turning
/// thread state `pre` into `post`: exactly the per-command guarantee of
/// `SimThread::process`. `Stop` terminates the loop and leaves the machine
/// untouched; `LoadImage` dispatches the bus's load path, fixing the memory
/// effect either way; `Continue` hands the machine to the engine for one
/// run, which keeps the machine's shape and can only append to the relay.
pub open spec fn cmd_step(pre: SimThread, c: CmdView, post: SimThread) -> bool {
    &&& post.wf()
    &&& post.applied@ == pre.applied@.push(c)
    &&& pre.machine.same_shape(post.machine)
    &&& (c is Stop ==> post.state is Terminated && post.machine == pre.machine
        && post.last_outcome == pre.last_outcome)
    &&& (c matches CmdView::LoadImage { addr, image } ==> {
        &&& post.state is AwaitingCommand
        &&& post.machine.out == pre.machine.out
        &&& post.last_outcome == pre.last_outcome
        &&& !pre.machine.bus.ram_covering(addr, image.len()) ==> post.machine.bus
            == pre.machine.bus
        &&& pre.machine.bus.ram_covering(addr, image.len()) ==> {
            &&& forall|a: u64|
                addr <= a < addr + image.len() ==> post.machine.bus.mem_at(a) == Some(
                    image[a - addr],
                )
            &&& forall|a: u64|
                !(addr <= a < addr + image.len()) ==> post.machine.bus.mem_at(a)
                    == pre.machine.bus.mem_at(a)
        }
    })
    &&& (c is Continue ==> {
        &&& post.state is AwaitingCommand
        &&& post.last_outcome is Some
        &&& pre.machine.out.queue@.is_prefix_of(post.machine.out.queue@)
    })
}

/// `post` is reachable from `pre` by applying the commands of `cs`, in
/// order, one `cmd_step` each.
pub open spec fn cmd_steps(pre: SimThread, cs: Seq<CmdView>, post: SimThread) -> bool
    decreases cs.len(),
{
    if cs.len() == 0 {
        post == pre
    } else {
        exists|mid: SimThread|
            #[trigger] cmd_step(pre, cs[0], mid) && cmd_steps(mid, cs.skip(1), post)
    }
}

/// A chain of command steps extends by one more applied command.
proof fn lemma_cmd_steps_snoc(
    pre: SimThread,
    cs: Seq<CmdView>,
    mid: SimThread,
    c: CmdView,
    post: SimThread,
)
    requires
        cmd_steps(pre, cs, mid),
        cmd_step(mid, c, post),
    ensures
        cmd_steps(pre, cs.push(c), post),
    decreases cs.len(),
{
    if cs.len() == 0 {
        assert(mid == pre);
        assert(cs.push(c)[0] == c);
        assert(cs.push(c).skip(1) =~= Seq::<CmdView>::empty());
        assert(cmd_step(pre, cs.push(c)[0], post) && cmd_steps(post, cs.push(c).skip(1), post));
    } else {
        let m1 = choose|m1: SimThread|
            #[trigger] cmd_step(pre, cs[0], m1) && cmd_steps(m1, cs.skip(1), mid);
        lemma_cmd_steps_snoc(m1, cs.skip(1), mid, c, post);
        assert(cs.push(c).skip(1) =~= cs.skip(1).push(c));
        assert(cs.push(c)[0] == cs[0]);
        assert(cmd_step(pre, cs.push(c)[0], m1) && cmd_steps(m1, cs.push(c).skip(1), post));
    }
}

/// Along any chain of command steps the machine keeps its shape (address
/// map and relay bound) and the relay queue is only ever appended to.
proof fn lemma_cmd_steps_effects(pre: SimThread, cs: Seq<CmdView>, post: SimThread)
    requires
        cmd_steps(pre, cs, post),
    ensures
        pre.machine.same_shape(post.machine),
        pre.machine.out.queue@.is_prefix_of(post.machine.out.queue@),
    decreases cs.len(),
{
    if cs.len() == 0 {
        assert(post == pre);
        assert(pre.machine.out.queue@ =~= post.machine.out.queue@.subrange(
            0,
            pre.machine.out.queue@.len() as int,
        ));
    } else {
        let m1 = choose|m1: SimThread|
            #[trigger] cmd_step(pre, cs[0], m1) && cmd_steps(m1, cs.skip(1), post);
        lemma_cmd_steps_effects(m1, cs.skip(1), post);
        assert forall|i: int| 0 <= i < pre.machine.bus.rams@.len() implies (
        #[trigger] post.machine.bus.rams@[i]).base == pre.machine.bus.rams@[i].base
            && post.machine.bus.rams@[i].data@.len() == pre.machine.bus.rams@[i].data@.len() by {
            assert(m1.machine.bus.rams@[i].base == pre.machine.bus.rams@[i].base);
            assert(post.machine.bus.rams@[i].base == m1.machine.bus.rams@[i].base);
        }
        if !(cs[0] is Continue) {
            if cs[0] is Stop {
                assert(m1.machine == pre.machine);
            } else {
                assert(m1.machine.out == pre.machine.out);
            }
            assert(pre.machine.out.queue@ =~= m1.machine.out.queue@.subrange(
                0,
                pre.machine.out.queue@.len() as int,
            ));
        }
        assert(pre.machine.out.queue@.is_prefix_of(m1.machine.out.queue@));
        assert forall|i: int| 0 <= i < pre.machine.out.queue@.len() implies pre.machine.out.queue@[i]
            == post.machine.out.queue@[i] by {
            assert(pre.machine.out.queue@[i] == m1.machine.out.queue@[i]);
            assert(m1.machine.out.queue@[i] == post.machine.out.queue@[i]);
        }
        assert(pre.machine.out.queue@ =~= post.machine.out.queue@.subrange(
            0,
            pre.machine.out.queue@.len() as int,
        ));
    }
}

/// The simulation loop: the machine it exclusively owns, the loop state,
/// the outcome the engine reported for the latest `Continue`, and the ghost
/// log of the commands applied, in application order.
pub struct SimThread {
    pub machine: Machine,
    pub state: SimState,
    pub last_outcome: Option<ExecutionOutcome>,
    pub applied: Ghost<Seq<CmdView>>,
}

impl SimThread {
    /// The machine is well formed and no engine run is in flight.
    pub open spec fn wf(self) -> bool {
        self.machine.wf() && !(self.state is Executing)
    }

    /// A loop awaiting its first command, owning `machine`.
    pub fn new(machine: Machine) -> (t: SimThread)
        requires
            machine.wf(),
        ensures
            t.wf(),
            t.state is AwaitingCommand,
            t.machine == machine,
            t.applied@ =~= Seq::<CmdView>::empty(),
            t.last_outcome == None::<ExecutionOutcome>,
    {
        SimThread {
            machine,
            state: SimState::AwaitingCommand,
            last_outcome: None,
            applied: Ghost(Seq::empty()),
        }
    }

    /// Apply one command, as the loop's state machine says: `LoadImage`
    /// dispatches the bus's load path and stays in `AwaitingCommand` whether
    /// or not the load succeeds; `Continue` occupies the loop for one whole
    /// engine run and returns to `AwaitingCommand` whatever the outcome;
    /// `Stop` terminates the loop. A command arriving after termination is
    /// discarded without effect.
    pub fn process<E: ExecutionEngine>(&mut self, cmd: SimCommand, engine: &mut E)
        requires
            old(self).wf(),
        ensures
            final(self).wf(),
            old(self).state is Terminated ==> *final(self) == *old(self) && *final(engine) == *old(engine),
            old(self).state is AwaitingCommand ==> cmd_step(*old(self), cmd@, *final(self)),
            old(self).state is AwaitingCommand && !(cmd@ is Continue) ==> *final(engine)
                == *old(engine),
    {
        match self.state {
            SimState::Terminated => {
                // The loop has exited: the command is discarded.
            },
            _ => {
                self.applied = Ghost(self.applied@.push(cmd@));
                match cmd {
                    SimCommand::Stop => {
                        self.state = SimState::Terminated;
                    },
                    SimCommand::LoadImage { addr, image } => {
                        let _ = self.machine.load_image(addr, image.as_slice());
                    },
                    SimCommand::Continue { budget } => {
                        self.state = SimState::Executing;
                        let outcome = engine.execute(&mut self.machine, budget);
                        self.last_outcome = Some(outcome);
                        self.state = SimState::AwaitingCommand;
                    },
                }
            },
        }
    }

    /// Consume a whole queue of commands strictly in arrival order (FIFO):
    /// each command before the first `Stop` is applied, in exactly the order
    /// sent, and everything after the first `Stop` is discarded. The machine
    /// changes only as the applied commands dictate: a chain of per-command
    /// steps (`cmd_steps`) leads from the old thread state to the new one,
    /// so the address map is kept and the relay is only appended to.
    pub fn run<E: ExecutionEngine>(&mut self, cmds: Vec<SimCommand>, engine: &mut E)
        requires
            old(self).wf(),
        ensures
            final(self).wf(),
            old(self).state is Terminated ==> *final(self) == *old(self) && *final(engine) == *old(engine),
            old(self).state is AwaitingCommand ==> {
                &&& final(self).applied@ == old(self).applied@ + applied_prefix(
                    cmds@.map_values(|c: SimCommand| c@),
                )
                &&& final(self).state is Terminated <==> contains_stop(
                    cmds@.map_values(|c: SimCommand| c@),
                )
                &&& !(final(self).state is Executing)
                &&& cmd_steps(
                    *old(self),
                    applied_prefix(cmds@.map_values(|c: SimCommand| c@)),
                    *final(self),
                )
                &&& old(self).machine.same_shape(final(self).machine)
                &&& old(self).machine.out.queue@.is_prefix_of(final(self).machine.out.queue@)
            },
    {
        let ghost all = cmds@.map_values(|c: SimCommand| c@);
        let mut cmds = cmds;
        let ghost done: Seq<CmdView> = Seq::empty();
        proof {
            assert(all =~= done + cmds@.map_values(|c: SimCommand| c@));
            assert(applied_prefix(done) =~= Seq::<CmdView>::empty());
            assert(cmd_steps(*old(self), applied_prefix(done), *self));
        }
        while cmds.len() > 0
            invariant
                self.wf(),
                all =~= done + cmds@.map_values(|c: SimCommand| c@),
                old(self).state is Terminated ==> *self == *old(self) && *engine == *old(engine),
                old(self).state is AwaitingCommand ==> {
                    &&& self.applied@ == old(self).applied@ + applied_prefix(done)
                    &&& (self.state is Terminated <==> contains_stop(done))
                    &&& !(self.state is Executing)
                    &&& cmd_steps(*old(self), applied_prefix(done), *self)
                },
            decreases cmds@.len(),
        {
            let cmd = cmds.remove(0);
            let ghost cv = cmd@;
            let ghost done0 = done;
            proof {
                done = done.push(cv);
                assert(all =~= done + cmds@.map_values(|c: SimCommand| c@));
            }
            let ghost pre = *self;
            self.process(cmd, engine);
            proof {
                if old(self).state is AwaitingCommand {
                    if pre.state is Terminated {
                        lemma_applied_prefix_after_stop(done0, cv);
                        let i = choose|i: int|
                            0 <= i < done0.len() && (#[trigger] done0[i]) is Stop;
                        assert(done[i] is Stop);
                        assert(contains_stop(done));
                        assert(cmd_steps(*old(self), applied_prefix(done), *self));
                    } else {
                        lemma_applied_prefix_no_stop(done0, cv);
                        assert(applied_prefix(done) =~= applied_prefix(done0).push(cv));
                        assert(cmd_step(pre, cv, *self));
                        lemma_cmd_steps_snoc(*old(self), applied_prefix(done0), pre, cv, *self);
                        assert(cmd_steps(*old(self), applied_prefix(done), *self));
                        if cv is Stop {
                            assert(done[done.len() - 1] is Stop);
                            assert(contains_stop(done));
                        } else {
                            if contains_stop(done) {
                                let i = choose|i: int|
                                    0 <= i < done.len() && (#[trigger] done[i]) is Stop;
                                assert(done0[i] is Stop);
                                assert(false);
                            }
                        }
                    }
                }
            }
        }
        proof {
            assert(done =~= all);
            if old(self).state is AwaitingCommand {
                lemma_cmd_steps_effects(*old(self), applied_prefix(all), *self);
            }
        }
    }
}

/// The condition reported when a controller sends a command after the
/// simulation has stopped: the command channel is closed.
#[derive(Clone, Copy, PartialEq, Eq, Structural, Debug)]
pub struct ChannelClosed;

/// The controller handle: it owns the send side of the command queue, the
/// loop (with its machine) that consumes it, the engine that `Continue`
/// commands run, and the receive side of the output relay.
pub struct Simulator<E: ExecutionEngine> {
    pub thread: SimThread,
    pub engine: E,
    pub pending: Vec<SimCommand>,
    pub stopped: bool,
}

impl<E: ExecutionEngine> Simulator<E> {
    /// The loop is well formed and `stopped` mirrors its state.
    pub open spec fn wf(self) -> bool {
        &&& self.thread.wf()
        &&& (self.stopped <==> self.thread.state is Terminated)
        &&& (!self.stopped ==> self.thread.state is AwaitingCommand)
    }

    /// The commands sent but not yet consumed by the loop, oldest first.
    pub open spec fn pending_views(self) -> Seq<CmdView> {
        self.pending@.map_values(|c: SimCommand| c@)
    }

    /// Start a simulation: a loop over `machine`, driven by `engine`, with
    /// no command sent yet.
    pub fn new(machine: Machine, engine: E) -> (s: Simulator<E>)
        requires
            machine.wf(),
        ensures
            s.wf(),
            !s.stopped,
            s.pending@.len() == 0,
            s.thread.machine == machine,
            s.thread.applied@ =~= Seq::<CmdView>::empty(),
            s.thread.last_outcome == None::<ExecutionOutcome>,
            s.engine == engine,
    {
        Simulator { thread: SimThread::new(machine), engine, pending: Vec::new(), stopped: false }
    }

    /// Enqueue a `LoadImage` command carrying its own copy of the bytes.
    /// Returns without waiting for the loop; fails with `ChannelClosed`, and
    /// only then, if the simulation has already stopped.
    pub fn load_image(&mut self, addr: u64, image: Vec<u8>) -> (r: Result<(), ChannelClosed>)
        requires
            old(self).wf(),
        ensures
            final(self).wf(),
            final(self).thread == old(self).thread,
            final(self).stopped == old(self).stopped,
            final(self).engine == old(self).engine,
            old(self).stopped ==> r == Err::<(), ChannelClosed>(ChannelClosed) && final(self).pending@ == old(self).pending@,
            !old(self).stopped ==> r == Ok::<(), ChannelClosed>(()) && final(self).pending_views()
                == old(self).pending_views().push(
                CmdView::LoadImage { addr, image: image@ },
            ),
    {
        if self.stopped {
            return Err(ChannelClosed);
        }
        self.pending.push(SimCommand::LoadImage { addr, image });
        proof {
            assert(self.pending_views() =~= old(self).pending_views().push(
                CmdView::LoadImage { addr, image: image@ },
            ));
        }
        Ok(())
    }

    /// Enqueue a `Continue` command asking for up to `budget` instructions.
    /// Returns without waiting for the loop; fails with `ChannelClosed`, and
    /// only then, if the simulation has already stopped.
    pub fn carry_on(&mut self, budget: u64) -> (r: Result<(), ChannelClosed>)
        requires
            old(self).wf(),
        ensures
            final(self).wf(),
            final(self).thread == old(self).thread,
            final(self).stopped == old(self).stopped,
            final(self).engine == old(self).engine,
            old(self).stopped ==> r == Err::<(), ChannelClosed>(ChannelClosed) && final(self).pending@ == old(self).pending@,
            !old(self).stopped ==> r == Ok::<(), ChannelClosed>(()) && final(self).pending_views()
                == old(self).pending_views().push(CmdView::Continue { budget }),
    {
        if self.stopped {
            return Err(ChannelClosed);
        }
        self.pending.push(SimCommand::Continue { budget });
        proof {
            assert(self.pending_views() =~= old(self).pending_views().push(
                CmdView::Continue { budget },
            ));
        }
        Ok(())
    }

    /// Let the loop consume every queued command, strictly in the order
    /// sent (FIFO), stopping for good if one of them is `Stop`. The machine
    /// is changed only by the applied commands, one `cmd_step` each.
    pub fn process_pending(&mut self)
        requires
            old(self).wf(),
        ensures
            final(self).wf(),
            final(self).pending@.len() == 0,
            old(self).stopped ==> final(self).thread == old(self).thread && final(self).stopped,
            !old(self).stopped ==> {
                &&& final(self).thread.applied@ == old(self).thread.applied@ + applied_prefix(
                    old(self).pending_views(),
                )
                &&& final(self).stopped <==> contains_stop(old(self).pending_views())
                &&& cmd_steps(
                    old(self).thread,
                    applied_prefix(old(self).pending_views()),
                    final(self).thread,
                )
                &&& old(self).thread.machine.same_shape(final(self).thread.machine)
                &&& old(self).thread.machine.out.queue@.is_prefix_of(
                    final(self).thread.machine.out.queue@,
                )
            },
    {
        let mut cmds: Vec<SimCommand> = Vec::new();
        std::mem::swap(&mut cmds, &mut self.pending);
        self.thread.run(cmds, &mut self.engine);
        match self.thread.state {
            SimState::Terminated => {
                self.stopped = true;
            },
            _ => {},
        }
    }

    /// Stop the simulation: send `Stop` and wait until the loop has consumed
    /// the whole queue and terminated, the machine changed only by the
    /// commands applied on the way (one `cmd_step` each). Idempotent: on an
    /// already stopped simulation this returns at once, unchanged and
    /// without error.
    pub fn stop(&mut self)
        requires
            old(self).wf(),
        ensures
            final(self).wf(),
            final(self).stopped,
            final(self).thread.state is Terminated,
            old(self).stopped ==> *final(self) == *old(self),
            !old(self).stopped ==> {
                &&& final(self).pending@.len() == 0
                &&& final(self).thread.applied@ == old(self).thread.applied@ + applied_prefix(
                    old(self).pending_views().push(CmdView::Stop),
                )
                &&& cmd_steps(
                    old(self).thread,
                    applied_prefix(old(self).pending_views().push(CmdView::Stop)),
                    final(self).thread,
                )
                &&& old(self).thread.machine.same_shape(final(self).thread.machine)
                &&& old(self).thread.machine.out.queue@.is_prefix_of(
                    final(self).thread.machine.out.queue@,
                )
            },
    {
        if self.stopped {
            return ;
        }
        self.pending.push(SimCommand::Stop);
        proof {
            assert(self.pending_views() =~= old(self).pending_views().push(CmdView::Stop));
            assert(self.pending_views()[self.pending_views().len() - 1] is Stop);
            assert(contains_stop(self.pending_views()));
        }
        self.process_pending();
    }

    /// Poll the next device-transmitted byte; never blocks, returning `None`
    /// at once on an empty relay.
    pub fn console_recv(&mut self) -> (r: Option<u8>)
        requires
            old(self).wf(),
        ensures
            final(self).wf(),
            final(self).thread.machine.bus == old(self).thread.machine.bus,
            final(self).thread.state == old(self).thread.state,
            final(self).thread.applied == old(self).thread.applied,
            final(self).pending@ == old(self).pending@,
            final(self).stopped == old(self).stopped,
            old(self).thread.machine.out.queue@.len() == 0 ==> r == None::<u8> && final(self).thread.machine.out.queue@ == old(self).thread.machine.out.queue@,
            old(self).thread.machine.out.queue@.len() > 0 ==> r == Some(
                old(self).thread.machine.out.queue@[0],
            ) && final(self).thread.machine.out.queue@ == old(self).thread.machine.out.queue@.skip(
                1,
            ),
    {
        self.thread.machine.poll_output()
    }

    /// The outcome the engine reported for the latest `Continue` the loop
    /// applied, if any.
    pub fn last_outcome(&self) -> (o: Option<ExecutionOutcome>)
        ensures
            o == self.thread.last_outcome,
    {
        self.thread.last_outcome
    }
}

} // verus!


