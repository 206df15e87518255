//! The execution driver: owns one execution state and applies the step
//! transition until the instruction pointer exhausts the program or a
//! step fails.

use vstd::prelude::*;

use crate::command::Command;
use crate::semantics::ExecError;
use crate::semantics::Machine;
use crate::semantics::fails;
use crate::semantics::iterate;
use crate::semantics::lemma_iterate_step;
use crate::semantics::machine_step;
use crate::semantics::reaches;
use crate::state::DEFAULT_MEMORY_SIZE;
use crate::state::ProgramState;

verus! {

/// How a bounded run ended.
#[derive(Debug, PartialEq, Eq)]
pub enum RunOutcome {
    /// Normal termination: the instruction pointer reached the end of the
    /// sequence.  Holds every byte emitted, in order.
    Done(Vec<u8>),
    /// A step failed with this fatal condition; the run aborted at once.
    Fault(ExecError),
    /// The step budget ran out before the run ended.  Holds every byte
    /// emitted so far, in order.
    Exhausted(Vec<u8>),
}

/// What `Program::run` guarantees of a `Done` outcome: the instruction
/// pointer has exhausted the sequence, and some number of step
/// transitions leads from the starting configuration to the final state,
/// with some prefix of the input consumed and exactly `out` emitted.
pub open spec fn run_done_post(
    code: Seq<Command>,
    init: Machine,
    s: ProgramState,
    out: Seq<u8>,
    input: Seq<u8>,
) -> bool {
    &&& s.instruct_ptr >= code.len()
    &&& exists|k: int|
        0 <= k <= input.len() && #[trigger] reaches(code, init, s.as_machine(input.skip(k), out))
}

/// What `Program::run` guarantees of a `Fault` outcome: some number of
/// step transitions leads from the starting configuration to the final
/// state — the last good configuration, kept in the runner — and the
/// very next step fails with the returned error.
pub open spec fn run_fault_post(
    code: Seq<Command>,
    init: Machine,
    s: ProgramState,
    input: Seq<u8>,
    e: ExecError,
) -> bool {
    exists|k: int, outp: Seq<u8>|
        {
            &&& 0 <= k <= input.len()
            &&& reaches(code, init, #[trigger] s.as_machine(input.skip(k), outp))
            &&& machine_step(code, s.as_machine(input.skip(k), outp)) == Err::<
                Machine,
                ExecError,
            >(e)
        }
}

/// What `Program::run` guarantees of an `Exhausted` outcome: the
/// instruction pointer is still inside the sequence, and exactly
/// `max_steps` step transitions lead from the starting configuration to
/// the final state, with some prefix of the input consumed and exactly
/// `out` emitted.
pub open spec fn run_exhausted_post(
    code: Seq<Command>,
    init: Machine,
    max_steps: nat,
    s: ProgramState,
    out: Seq<u8>,
    input: Seq<u8>,
) -> bool {
    &&& s.instruct_ptr < code.len()
    &&& exists|k: int|
        0 <= k <= input.len() && iterate(code, init, max_steps) == Ok::<Machine, ExecError>(
            s.as_machine(#[trigger] input.skip(k), out),
        )
}

/// The program runner.  It exclusively owns one execution state for the
/// lifetime of a run; the instruction sequence is read-only shared input.
#[derive(Debug, Clone)]
pub struct Program {
    /// The current state of the program.
    pub state: ProgramState,
}

impl Program {
    /// A runner with a fresh state and the default memory size.
    pub fn new() -> (p: Program)
        ensures
            p.state.wf(),
            p.state.data_ptr == 0,
            p.state.instruct_ptr == 0,
            p.state.memory@.len() == DEFAULT_MEMORY_SIZE,
            forall|i: int| 0 <= i < p.state.memory@.len() ==> p.state.memory@[i] == 0,
    {
        Program { state: ProgramState::new() }
    }

    /// A runner with a fresh state and `size` memory cells.
    pub fn with_memory_size(size: usize) -> (p: Program)
        requires
            size >= 1,
        ensures
            p.state.wf(),
            p.state.data_ptr == 0,
            p.state.instruct_ptr == 0,
            p.state.memory@.len() == size,
            forall|i: int| 0 <= i < p.state.memory@.len() ==> p.state.memory@[i] == 0,
    {
        Program { state: ProgramState::with_size(size) }
    }

    /// Reset the program state: both pointers back to zero and every
    /// memory cell zeroed, the memory size kept.
    pub fn reset(&mut self)
        requires
            old(self).state.wf(),
        ensures
            final(self).state.wf(),
            final(self).state.data_ptr == 0,
            final(self).state.instruct_ptr == 0,
            final(self).state.memory@.len() == old(self).state.memory@.len(),
            forall|i: int|
                0 <= i < final(self).state.memory@.len() ==> final(self).state.memory@[i] == 0,
    {
        let size = self.state.memory.len();
        self.state = ProgramState::with_size(size);
    }

    /// Run the instruction sequence: apply the step transition while the
    /// instruction pointer is inside the sequence, up to `max_steps`
    /// times; on the first failure abort at once and surface it; on
    /// normal termination return every byte emitted, in order.  `input`
    /// holds the bytes the input instructions consume, in order; once it
    /// is exhausted, input instructions store zero.
    ///
    /// The contract: step transitions of the abstract machine lead from
    /// the starting configuration to exactly this outcome — on `Done` a
    /// terminal configuration whose output is the returned vector, on
    /// `Fault` the returned error, and on `Exhausted` the configuration
    /// that exactly `max_steps` transitions yield, with the instruction
    /// pointer still inside the sequence.
    pub fn run(&mut self, code: &[Command], input: &[u8], max_steps: usize) -> (r: RunOutcome)
        requires
            old(self).state.wf(),
        ensures
            final(self).state.wf(),
            ({
                let init = old(self).state.as_machine(input@, Seq::<u8>::empty());
                match r {
                    RunOutcome::Done(out) => run_done_post(
                        code@,
                        init,
                        final(self).state,
                        out@,
                        input@,
                    ),
                    RunOutcome::Fault(e) => {
                        &&& fails(code@, init, e)
                        &&& run_fault_post(code@, init, final(self).state, input@, e)
                    },
                    RunOutcome::Exhausted(out) => run_exhausted_post(
                        code@,
                        init,
                        max_steps as nat,
                        final(self).state,
                        out@,
                        input@,
                    ),
                }
            }),
    {
        let ghost init = self.state.as_machine(input@, Seq::<u8>::empty());
        proof {
            assert(input@.skip(0) =~= input@);
        }
        let mut out: Vec<u8> = Vec::new();
        let mut pos: usize = 0;
        let mut steps: usize = 0;
        let in_len = input.len();
        let n_code = code.len();
        while self.state.instruct_ptr < n_code && steps < max_steps
            invariant
                init == old(self).state.as_machine(input@, Seq::<u8>::empty()),
                n_code == code@.len(),
                in_len == input@.len(),
                self.state.wf(),
                pos <= in_len,
                steps <= max_steps,
                iterate(code@, init, steps as nat) == Ok::<Machine, ExecError>(
                    self.state.as_machine(input@.skip(pos as int), out@),
                ),
            decreases max_steps - steps,
        {
            let ghost pre = self.state.as_machine(input@.skip(pos as int), out@);
            let ghost old_pos = pos as int;
            let ip = self.state.instruct_ptr;
            let c = code[ip];
            let wants_input = c == Command::InputValue;
            let ev: Option<u8> = if wants_input && pos < in_len {
                Some(input[pos])
            } else {
                None
            };
            let res = self.state.step(code, ev);
            match res {
                Ok(o) => {
                    if wants_input && pos < in_len {
                        pos = pos + 1;
                    }
                    match o {
                        Some(b) => out.push(b),
                        None => {},
                    }
                    proof {
                        if old_pos < in_len {
                            assert(input@.skip(old_pos)[0] == input@[old_pos]);
                            assert(input@.skip(old_pos).drop_first() =~= input@.skip(old_pos + 1));
                        }
                        let cur = self.state.as_machine(input@.skip(pos as int), out@);
                        assert(machine_step(code@, pre) == Ok::<Machine, ExecError>(cur));
                        lemma_iterate_step(code@, init, steps as nat, pre);
                    }
                    steps = steps + 1;
                },
                Err(e) => {
                    proof {
                        assert(machine_step(code@, pre) == Err::<Machine, ExecError>(e));
                        lemma_iterate_step(code@, init, steps as nat, pre);
                        assert(reaches(code@, init, pre));
                        assert(self.state.as_machine(input@.skip(pos as int), out@) == pre);
                        assert(run_fault_post(code@, init, self.state, input@, e));
                    }
                    return RunOutcome::Fault(e);
                },
            }
        }
        if self.state.instruct_ptr < n_code {
            proof {
                assert(steps == max_steps);
                assert(run_exhausted_post(
                    code@,
                    init,
                    max_steps as nat,
                    self.state,
                    out@,
                    input@,
                ));
            }
            RunOutcome::Exhausted(out)
        } else {
            proof {
                assert(reaches(
                    code@,
                    init,
                    self.state.as_machine(input@.skip(pos as int), out@),
                ));
                assert(run_done_post(code@, init, self.state, out@, input@));
            }
            RunOutcome::Done(out)
        }
    }
}

} // verus!
