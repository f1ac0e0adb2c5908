//! The execution-engine collaborator: it runs instructions against the
//! machine for a bounded budget and reports why it returned. Instruction
//! semantics belong to the engine, not to this crate; the trait contract
//! states what any engine may do to the machine, and the bundled no-op
//! engine additionally carries an exact contract of its own.

use crate::bus::BusError;
use crate::machine::Machine;
use vstd::prelude::*;
use vstd::seq_lib::*;

verus! {

/// Why one bounded engine run returned.
#[derive(Clone, Copy, PartialEq, Eq, Structural, Debug)]
pub enum ExecutionOutcome {
    /// The instruction budget was used up.
    BudgetExhausted,
    /// The engine reached a natural halt.
    Halted,
    /// The engine stopped on a fault (for example an unreadable fetch).
    Faulted,
}

/// An execution engine drives the machine through its public interface only,
/// so a run keeps the machine well formed, keeps its address map and relay
/// bound, and can only append transmitted bytes to the relay, never consume
/// or reorder them.
pub trait ExecutionEngine {
    /// Execute up to `budget` instructions against the machine's bus.
    fn execute(&mut self, m: &mut Machine, budget: u64) -> (outcome: ExecutionOutcome)
        requires
            old(m).wf(),
        ensures
            final(m).wf(),
            old(m).same_shape(*final(m)),
            old(m).out.queue@.is_prefix_of(final(m).out.queue@),
    ;
}

/// All four instruction bytes at `pc` resolve through the bus: the fetch
/// does not leave the address space and no byte read faults.
pub open spec fn fetch_ok(m: Machine, pc: u64) -> bool {
    &&& pc <= u64::MAX - 3
    &&& m.bus.read_result(pc) is Ok
    &&& m.bus.read_result((pc + 1) as u64) is Ok
    &&& m.bus.read_result((pc + 2) as u64) is Ok
    &&& m.bus.read_result((pc + 3) as u64) is Ok
}

/// The word fetched at `pc` is the canonical no-op encoding
/// `[0x13, 0, 0, 0]`.
pub open spec fn fetch_is_nop(m: Machine, pc: u64) -> bool {
    &&& fetch_ok(m, pc)
    &&& m.bus.read_result(pc) == Ok::<u8, BusError>(0x13u8)
    &&& m.bus.read_result((pc + 1) as u64) == Ok::<u8, BusError>(0u8)
    &&& m.bus.read_result((pc + 2) as u64) == Ok::<u8, BusError>(0u8)
    &&& m.bus.read_result((pc + 3) as u64) == Ok::<u8, BusError>(0u8)
}

/// Outcome and final fetch address of running the no-op engine for up to
/// `n` instructions from `pc` over machine `m`, which it never modifies.
/// Each step fetches one word: a fetch that leaves the address space or
/// faults ends the run as `Faulted` (so does a program counter that cannot
/// advance past the no-op), any word other than the no-op ends it as
/// `Halted`, and a run of `n` no-ops ends as `BudgetExhausted` with the
/// fetch address advanced by `4 * n`.
pub open spec fn nop_engine_result(m: Machine, pc: u64, n: u64) -> (ExecutionOutcome, u64)
    decreases n,
{
    if n == 0 {
        (ExecutionOutcome::BudgetExhausted, pc)
    } else if !fetch_ok(m, pc) {
        (ExecutionOutcome::Faulted, pc)
    } else if !fetch_is_nop(m, pc) {
        (ExecutionOutcome::Halted, pc)
    } else if pc > u64::MAX - 4 {
        (ExecutionOutcome::Faulted, pc)
    } else {
        nop_engine_result(m, (pc + 4) as u64, (n - 1) as u64)
    }
}

/// A minimal engine for the demonstrated bare-metal configuration: it
/// fetches 32-bit words and executes only the canonical no-op encoding
/// (bytes `[0x13, 0, 0, 0]`), advancing past it; any other word halts the
/// run, and an unreadable fetch faults it.
pub struct NopEngine {
    /// Address of the next instruction to fetch.
    pub pc: u64,
}

impl NopEngine {
    /// An engine whose entry point is `pc`.
    pub fn new(pc: u64) -> (e: NopEngine)
        ensures
            e.pc == pc,
    {
        NopEngine { pc }
    }
}

impl ExecutionEngine for NopEngine {
    /// A run of this engine never changes the machine, and its outcome and
    /// final fetch address are exactly [`nop_engine_result`]: in particular,
    /// a run over `budget` readable no-op words reports `BudgetExhausted`
    /// and no bus fault.
    fn execute(&mut self, m: &mut Machine, budget: u64) -> (outcome: ExecutionOutcome)
        ensures
            *final(m) == *old(m),
            outcome == nop_engine_result(*old(m), old(self).pc, budget).0,
            final(self).pc == nop_engine_result(*old(m), old(self).pc, budget).1,
    {
        let mut steps: u64 = 0;
        proof {
            assert(old(m).out.queue@.is_prefix_of(m.out.queue@));
        }
        while steps < budget
            invariant
                steps <= budget,
                *m == *old(m),
                old(m).wf(),
                nop_engine_result(*old(m), old(self).pc, budget) == nop_engine_result(
                    *old(m),
                    self.pc,
                    (budget - steps) as u64,
                ),
            decreases budget - steps,
        {
            proof {
                assert(old(m).out.queue@.is_prefix_of(m.out.queue@));
            }
            if self.pc > u64::MAX - 3 {
                proof {
                    assert(!fetch_ok(*old(m), self.pc));
                }
                return ExecutionOutcome::Faulted;
            }
            let b0 = match m.read(self.pc) {
                Ok(b) => b,
                Err(_) => {
                    proof {
                        assert(!fetch_ok(*old(m), self.pc));
                    }
                    return ExecutionOutcome::Faulted;
                },
            };
            let b1 = match m.read(self.pc + 1) {
                Ok(b) => b,
                Err(_) => {
                    proof {
                        assert(!fetch_ok(*old(m), self.pc));
                    }
                    return ExecutionOutcome::Faulted;
                },
            };
            let b2 = match m.read(self.pc + 2) {
                Ok(b) => b,
                Err(_) => {
                    proof {
                        assert(!fetch_ok(*old(m), self.pc));
                    }
                    return ExecutionOutcome::Faulted;
                },
            };
            let b3 = match m.read(self.pc + 3) {
                Ok(b) => b,
                Err(_) => {
                    proof {
                        assert(!fetch_ok(*old(m), self.pc));
                    }
                    return ExecutionOutcome::Faulted;
                },
            };
            if !(b0 == 0x13 && b1 == 0 && b2 == 0 && b3 == 0) {
                proof {
                    assert(fetch_ok(*old(m), self.pc));
                    assert(!fetch_is_nop(*old(m), self.pc));
                }
                return ExecutionOutcome::Halted;
            }
            proof {
                assert(fetch_is_nop(*old(m), self.pc));
            }
            if self.pc > u64::MAX - 4 {
                return ExecutionOutcome::Faulted;
            }
            self.pc = self.pc + 4;
            steps = steps + 1;
        }
        proof {
            assert(old(m).out.queue@.is_prefix_of(m.out.queue@));
            assert(nop_engine_result(*old(m), self.pc, 0) == (
                ExecutionOutcome::BudgetExhausted,
                self.pc,
            ));
        }
        ExecutionOutcome::BudgetExhausted
    }
}

} // verus!

