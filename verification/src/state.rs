//! The execution state and the per-instruction step transition.

use vstd::prelude::*;

use crate::command::Command;
use crate::resolver::find_matching_close;
use crate::resolver::find_matching_open;
use crate::semantics::ExecError;
use crate::semantics::Machine;
use crate::semantics::byte_dec;
use crate::semantics::byte_inc;
use crate::semantics::has_matching_close;
use crate::semantics::has_matching_open;
use crate::semantics::input_byte;
use crate::semantics::lemma_matching_close_unique;
use crate::semantics::lemma_matching_open_unique;
use crate::semantics::matching_close;
use crate::semantics::matching_open;

verus! {

/// Number of memory cells of a state made by `ProgramState::new`.
pub const DEFAULT_MEMORY_SIZE: usize = 8;

/// The current state of a running program: the data pointer, the
/// instruction pointer, and the memory tape.
#[derive(Debug, Clone)]
pub struct ProgramState {
    /// Index of the memory cell currently addressed.
    pub data_ptr: usize,
    /// Index of the instruction about to execute.  Execution is terminal
    /// when it reaches the length of the instruction sequence.
    pub instruct_ptr: usize,
    /// The memory tape: a fixed number of byte cells, set at construction.
    pub memory: Vec<u8>,
}

impl ProgramState {
    /// Invariant: the data pointer addresses a cell of the memory tape.
    /// It holds before and after every step.
    pub open spec fn wf(self) -> bool {
        self.data_ptr < self.memory@.len()
    }

    /// The machine configuration that this state denotes, joined with the
    /// input bytes not yet consumed and the output bytes emitted so far.
    pub open spec fn as_machine(self, input: Seq<u8>, output: Seq<u8>) -> Machine {
        Machine {
            data_ptr: self.data_ptr as int,
            instruct_ptr: self.instruct_ptr as int,
            memory: self.memory@,
            input: input,
            output: output,
        }
    }

    /// A fresh state with both pointers at zero and `size` zeroed memory
    /// cells.
    pub fn with_size(size: usize) -> (s: ProgramState)
        requires
            size >= 1,
        ensures
            s.wf(),
            s.data_ptr == 0,
            s.instruct_ptr == 0,
            s.memory@.len() == size,
            forall|i: int| 0 <= i < s.memory@.len() ==> s.memory@[i] == 0,
    {
        let mut memory: Vec<u8> = Vec::new();
        while memory.len() < size
            invariant
                memory@.len() <= size,
                forall|i: int| 0 <= i < memory@.len() ==> memory@[i] == 0,
            decreases size - memory@.len(),
        {
            memory.push(0);
        }
        ProgramState { data_ptr: 0, instruct_ptr: 0, memory }
    }

    /// A fresh state with the default memory size.
    pub fn new() -> (s: ProgramState)
        ensures
            s.wf(),
            s.data_ptr == 0,
            s.instruct_ptr == 0,
            s.memory@.len() == DEFAULT_MEMORY_SIZE,
            forall|i: int| 0 <= i < s.memory@.len() ==> s.memory@[i] == 0,
    {
        ProgramState::with_size(DEFAULT_MEMORY_SIZE)
    }

    /// The value of the memory cell under the data pointer.
    pub fn get_value(&self) -> (v: u8)
        requires
            self.wf(),
        ensures
            v == self.memory@[self.data_ptr as int],
    {
        self.memory[self.data_ptr]
    }

    /// Apply the instruction under the instruction pointer.
    ///
    /// Input and output are handed over as plain values: when the
    /// instruction reads input, `input` is the byte read (`None` when the
    /// input source is exhausted, which stores zero and is no error); when
    /// the instruction emits a byte, it is returned as `Ok(Some(..))`.
    /// On a fatal condition the state is left unchanged and the error is
    /// returned.
    pub fn step(&mut self, code: &[Command], input: Option<u8>) -> (r: Result<
        Option<u8>,
        ExecError,
    >)
        requires
            old(self).wf(),
            old(self).instruct_ptr < code@.len(),
        ensures
            final(self).wf(),
            final(self).memory@.len() == old(self).memory@.len(),
            (r matches Err(_)) ==> *final(self) == *old(self),
            ({
                let c = code@[old(self).instruct_ptr as int];
                let dp = old(self).data_ptr as int;
                let ip = old(self).instruct_ptr as int;
                let v = old(self).memory@[dp];
                match c {
                    Command::IncrementPointer => if dp + 1 < old(self).memory@.len() {
                        &&& r == Ok::<Option<u8>, ExecError>(None)
                        &&& final(self).data_ptr == dp + 1
                        &&& final(self).instruct_ptr == ip + 1
                        &&& final(self).memory@ == old(self).memory@
                    } else {
                        r == Err::<Option<u8>, ExecError>(ExecError::PointerOutOfRange)
                    },
                    Command::DecrementPointer => if dp >= 1 {
                        &&& r == Ok::<Option<u8>, ExecError>(None)
                        &&& final(self).data_ptr == dp - 1
                        &&& final(self).instruct_ptr == ip + 1
                        &&& final(self).memory@ == old(self).memory@
                    } else {
                        r == Err::<Option<u8>, ExecError>(ExecError::PointerOutOfRange)
                    },
                    Command::IncrementValue => {
                        &&& r == Ok::<Option<u8>, ExecError>(None)
                        &&& final(self).data_ptr == dp
                        &&& final(self).instruct_ptr == ip + 1
                        &&& final(self).memory@ == old(self).memory@.update(dp, byte_inc(v))
                    },
                    Command::DecrementValue => {
                        &&& r == Ok::<Option<u8>, ExecError>(None)
                        &&& final(self).data_ptr == dp
                        &&& final(self).instruct_ptr == ip + 1
                        &&& final(self).memory@ == old(self).memory@.update(dp, byte_dec(v))
                    },
                    Command::OutputValue => {
                        &&& r == Ok::<Option<u8>, ExecError>(Some(v))
                        &&& final(self).data_ptr == dp
                        &&& final(self).instruct_ptr == ip + 1
                        &&& final(self).memory@ == old(self).memory@
                    },
                    Command::InputValue => {
                        &&& r == Ok::<Option<u8>, ExecError>(None)
                        &&& final(self).data_ptr == dp
                        &&& final(self).instruct_ptr == ip + 1
                        &&& final(self).memory@ == old(self).memory@.update(dp, input_byte(input))
                    },
                    Command::JumpForward => if v == 0 {
                        if has_matching_close(code@, ip) {
                            &&& r == Ok::<Option<u8>, ExecError>(None)
                            &&& final(self).data_ptr == dp
                            &&& final(self).instruct_ptr == matching_close(code@, ip) + 1
                            &&& final(self).memory@ == old(self).memory@
                        } else {
                            r == Err::<Option<u8>, ExecError>(ExecError::UnmatchedBracket)
                        }
                    } else {
                        &&& r == Ok::<Option<u8>, ExecError>(None)
                        &&& final(self).data_ptr == dp
                        &&& final(self).instruct_ptr == ip + 1
                        &&& final(self).memory@ == old(self).memory@
                    },
                    Command::JumpBackward => if v != 0 {
                        if has_matching_open(code@, ip) {
                            &&& r == Ok::<Option<u8>, ExecError>(None)
                            &&& final(self).data_ptr == dp
                            &&& final(self).instruct_ptr == matching_open(code@, ip) + 1
                            &&& final(self).memory@ == old(self).memory@
                        } else {
                            r == Err::<Option<u8>, ExecError>(ExecError::UnmatchedBracket)
                        }
                    } else {
                        &&& r == Ok::<Option<u8>, ExecError>(None)
                        &&& final(self).data_ptr == dp
                        &&& final(self).instruct_ptr == ip + 1
                        &&& final(self).memory@ == old(self).memory@
                    },
                    Command::Unknown => {
                        &&& r == Ok::<Option<u8>, ExecError>(None)
                        &&& final(self).data_ptr == dp
                        &&& final(self).instruct_ptr == ip + 1
                        &&& final(self).memory@ == old(self).memory@
                    },
                }
            }),
    {
        // The sequence length fits in usize, so advancing the instruction
        // pointer past any position inside it cannot overflow.
        let n = code.len();
        let ip = self.instruct_ptr;
        let c = code[ip];
        match c {
            Command::IncrementPointer => {
                let len = self.memory.len();
                if self.data_ptr + 1 < len {
                    self.data_ptr = self.data_ptr + 1;
                    self.instruct_ptr = ip + 1;
                    Ok(None)
                } else {
                    Err(ExecError::PointerOutOfRange)
                }
            },
            Command::DecrementPointer => {
                if self.data_ptr >= 1 {
                    self.data_ptr = self.data_ptr - 1;
                    self.instruct_ptr = ip + 1;
                    Ok(None)
                } else {
                    Err(ExecError::PointerOutOfRange)
                }
            },
            Command::IncrementValue => {
                let v = self.memory[self.data_ptr];
                let nv = if v == 255 {
                    0
                } else {
                    v + 1
                };
                self.memory[self.data_ptr] = nv;
                self.instruct_ptr = ip + 1;
                Ok(None)
            },
            Command::DecrementValue => {
                let v = self.memory[self.data_ptr];
                let nv = if v == 0 {
                    255
                } else {
                    v - 1
                };
                self.memory[self.data_ptr] = nv;
                self.instruct_ptr = ip + 1;
                Ok(None)
            },
            Command::OutputValue => {
                let v = self.memory[self.data_ptr];
                self.instruct_ptr = ip + 1;
                Ok(Some(v))
            },
            Command::InputValue => {
                let b = match input {
                    Some(x) => x,
                    None => 0,
                };
                self.memory[self.data_ptr] = b;
                self.instruct_ptr = ip + 1;
                Ok(None)
            },
            Command::JumpForward => {
                let v = self.memory[self.data_ptr];
                if v == 0 {
                    match find_matching_close(code, ip) {
                        Some(j) => {
                            proof {
                                assert(has_matching_close(code@, ip as int));
                                lemma_matching_close_unique(
                                    code@,
                                    ip as int,
                                    j as int,
                                    matching_close(code@, ip as int),
                                );
                            }
                            self.instruct_ptr = j + 1;
                            Ok(None)
                        },
                        None => Err(ExecError::UnmatchedBracket),
                    }
                } else {
                    self.instruct_ptr = ip + 1;
                    Ok(None)
                }
            },
            Command::JumpBackward => {
                let v = self.memory[self.data_ptr];
                if v != 0 {
                    match find_matching_open(code, ip) {
                        Some(i) => {
                            proof {
                                assert(has_matching_open(code@, ip as int));
                                lemma_matching_open_unique(
                                    code@,
                                    i as int,
                                    matching_open(code@, ip as int),
                                    ip as int,
                                );
                            }
                            self.instruct_ptr = i + 1;
                            Ok(None)
                        },
                        None => Err(ExecError::UnmatchedBracket),
                    }
                } else {
                    self.instruct_ptr = ip + 1;
                    Ok(None)
                }
            },
            Command::Unknown => {
                self.instruct_ptr = ip + 1;
                Ok(None)
            },
        }
    }
}

impl Default for ProgramState {
    /// The same state that `ProgramState::new` yields.
    fn default() -> (s: Self)
        ensures
            s.wf(),
            s.data_ptr == 0,
            s.instruct_ptr == 0,
            s.memory@.len() == DEFAULT_MEMORY_SIZE,
            forall|i: int| 0 <= i < s.memory@.len() ==> s.memory@[i] == 0,
    {
        ProgramState::new()
    }
}

} // verus!
