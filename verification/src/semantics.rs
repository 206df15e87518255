//! The mathematical model of execution: machine configurations, the
//! per-instruction step transition, bracket matching, and the laws that
//! the executable code is proved against.

use vstd::prelude::*;

use crate::command::Command;

verus! {

/// A fatal condition that aborts a run.
#[derive(Debug, Clone, Copy, PartialEq, Eq, Structural)]
pub enum ExecError {
    /// The data pointer would move outside the memory range.
    PointerOutOfRange,
    /// A bracket scan would run past the boundary of the instruction
    /// sequence without finding its match.
    UnmatchedBracket,
}

/// One configuration of the abstract machine: the execution state together
/// with the input bytes not yet consumed and the output bytes emitted so
/// far.
pub ghost struct Machine {
    /// Index of the memory cell currently addressed.
    pub data_ptr: int,
    /// Index of the instruction about to execute.
    pub instruct_ptr: int,
    /// The memory tape.
    pub memory: Seq<u8>,
    /// Input bytes not yet consumed by input instructions.
    pub input: Seq<u8>,
    /// Output bytes emitted so far by output instructions.
    pub output: Seq<u8>,
}

/// The contribution of one instruction to the bracket nesting depth:
/// one more level after an opening bracket, one less after a closing one.
pub open spec fn bracket_delta(c: Command) -> int {
    if c == Command::JumpForward {
        1
    } else if c == Command::JumpBackward {
        -1
    } else {
        0
    }
}

/// Opening minus closing brackets among the instructions `code[lo..hi]`.
pub open spec fn net_depth(code: Seq<Command>, lo: int, hi: int) -> int
    decreases hi - lo,
{
    if lo >= hi {
        0
    } else {
        net_depth(code, lo, hi - 1) + bracket_delta(code[hi - 1])
    }
}

/// Peel the lowest position off a `net_depth` range.
pub proof fn lemma_net_depth_unfold_lo(code: Seq<Command>, lo: int, hi: int)
    requires
        lo < hi,
    ensures
        net_depth(code, lo, hi) == bracket_delta(code[lo]) + net_depth(code, lo + 1, hi),
    decreases hi - lo,
{
    if lo + 1 < hi {
        lemma_net_depth_unfold_lo(code, lo, hi - 1);
    } else {
        assert(net_depth(code, lo, lo) == 0);
        assert(net_depth(code, lo + 1, hi) == 0);
    }
}

/// `j` is the closing bracket that matches the opening bracket at `i`: the
/// forward scan from `i`, with a depth counter seeded at one, first returns
/// to zero at `j`.
pub open spec fn is_matching_close(code: Seq<Command>, i: int, j: int) -> bool {
    &&& 0 <= i < j < code.len()
    &&& code[j] == Command::JumpBackward
    &&& 1 + net_depth(code, i + 1, j + 1) == 0
    &&& forall|t: int| i + 1 < t <= j ==> 1 + #[trigger] net_depth(code, i + 1, t) > 0
}

/// `i` is the opening bracket that matches the closing bracket at `j`: the
/// backward scan from `j`, with a depth counter seeded at one, first
/// returns to zero at `i`.
pub open spec fn is_matching_open(code: Seq<Command>, i: int, j: int) -> bool {
    &&& 0 <= i < j < code.len()
    &&& code[i] == Command::JumpForward
    &&& 1 - net_depth(code, i, j) == 0
    &&& forall|k: int| i < k < j ==> 1 - #[trigger] net_depth(code, k, j) > 0
}

/// The opening bracket at `i` has a matching closing bracket.
pub open spec fn has_matching_close(code: Seq<Command>, i: int) -> bool {
    exists|j: int| is_matching_close(code, i, j)
}

/// The position of the closing bracket that matches the opening bracket at
/// `i` (meaningful only when `has_matching_close` holds).
pub open spec fn matching_close(code: Seq<Command>, i: int) -> int {
    choose|j: int| is_matching_close(code, i, j)
}

/// The closing bracket at `j` has a matching opening bracket.
pub open spec fn has_matching_open(code: Seq<Command>, j: int) -> bool {
    exists|i: int| is_matching_open(code, i, j)
}

/// The position of the opening bracket that matches the closing bracket at
/// `j` (meaningful only when `has_matching_open` holds).
pub open spec fn matching_open(code: Seq<Command>, j: int) -> int {
    choose|i: int| is_matching_open(code, i, j)
}

/// At most one closing bracket matches a given opening bracket.
pub proof fn lemma_matching_close_unique(code: Seq<Command>, i: int, j1: int, j2: int)
    requires
        is_matching_close(code, i, j1),
        is_matching_close(code, i, j2),
    ensures
        j1 == j2,
{
    if j1 < j2 {
        assert(1 + net_depth(code, i + 1, j1 + 1) > 0);
    }
    if j2 < j1 {
        assert(1 + net_depth(code, i + 1, j2 + 1) > 0);
    }
}

/// At most one opening bracket matches a given closing bracket.
pub proof fn lemma_matching_open_unique(code: Seq<Command>, i1: int, i2: int, j: int)
    requires
        is_matching_open(code, i1, j),
        is_matching_open(code, i2, j),
    ensures
        i1 == i2,
{
    if i1 < i2 {
        assert(1 - net_depth(code, i2, j) > 0);
    }
    if i2 < i1 {
        assert(1 - net_depth(code, i1, j) > 0);
    }
}

/// A cell value incremented by one, wrapping at the byte boundary.
pub open spec fn byte_inc(v: u8) -> u8 {
    if v == 255 {
        0
    } else {
        (v + 1) as u8
    }
}

/// A cell value decremented by one, wrapping at the byte boundary.
pub open spec fn byte_dec(v: u8) -> u8 {
    if v == 0 {
        255
    } else {
        (v - 1) as u8
    }
}

/// The byte that an input instruction stores: the byte read, or zero when
/// the input source is exhausted.
pub open spec fn input_byte(input: Option<u8>) -> u8 {
    match input {
        Some(b) => b,
        None => 0,
    }
}

/// The step transition: the configuration that executing the instruction
/// under the instruction pointer yields, or the fatal condition that
/// aborts the run.  A configuration whose instruction pointer is outside
/// the sequence is terminal: it steps to itself, so a finished run stays
/// exactly where it ended.  After the instruction-specific effect the
/// instruction pointer advances by exactly one, so a jump lands on the
/// position after its matching bracket.
pub open spec fn machine_step(code: Seq<Command>, m: Machine) -> Result<Machine, ExecError> {
    if 0 <= m.instruct_ptr < code.len() {
        instruction_step(code, m)
    } else {
        Ok(m)
    }
}

/// The effect of the instruction under the instruction pointer, for a
/// configuration whose instruction pointer is inside the sequence.
pub open spec fn instruction_step(code: Seq<Command>, m: Machine) -> Result<Machine, ExecError> {
    let c = code[m.instruct_ptr];
    let v = m.memory[m.data_ptr];
    match c {
        Command::IncrementPointer => {
            if m.data_ptr + 1 < m.memory.len() {
                Ok(Machine { data_ptr: m.data_ptr + 1, instruct_ptr: m.instruct_ptr + 1, ..m })
            } else {
                Err(ExecError::PointerOutOfRange)
            }
        },
        Command::DecrementPointer => {
            if m.data_ptr >= 1 {
                Ok(Machine { data_ptr: m.data_ptr - 1, instruct_ptr: m.instruct_ptr + 1, ..m })
            } else {
                Err(ExecError::PointerOutOfRange)
            }
        },
        Command::IncrementValue => Ok(
            Machine {
                memory: m.memory.update(m.data_ptr, byte_inc(v)),
                instruct_ptr: m.instruct_ptr + 1,
                ..m
            },
        ),
        Command::DecrementValue => Ok(
            Machine {
                memory: m.memory.update(m.data_ptr, byte_dec(v)),
                instruct_ptr: m.instruct_ptr + 1,
                ..m
            },
        ),
        Command::OutputValue => Ok(
            Machine { output: m.output.push(v), instruct_ptr: m.instruct_ptr + 1, ..m },
        ),
        Command::InputValue => {
            if m.input.len() > 0 {
                Ok(
                    Machine {
                        memory: m.memory.update(m.data_ptr, m.input[0]),
                        input: m.input.drop_first(),
                        instruct_ptr: m.instruct_ptr + 1,
                        ..m
                    },
                )
            } else {
                Ok(
                    Machine {
                        memory: m.memory.update(m.data_ptr, 0),
                        instruct_ptr: m.instruct_ptr + 1,
                        ..m
                    },
                )
            }
        },
        Command::JumpForward => {
            if v == 0 {
                if has_matching_close(code, m.instruct_ptr) {
                    Ok(
                        Machine {
                            instruct_ptr: matching_close(code, m.instruct_ptr) + 1,
                            ..m
                        },
                    )
                } else {
                    Err(ExecError::UnmatchedBracket)
                }
            } else {
                Ok(Machine { instruct_ptr: m.instruct_ptr + 1, ..m })
            }
        },
        Command::JumpBackward => {
            if v != 0 {
                if has_matching_open(code, m.instruct_ptr) {
                    Ok(
                        Machine {
                            instruct_ptr: matching_open(code, m.instruct_ptr) + 1,
                            ..m
                        },
                    )
                } else {
                    Err(ExecError::UnmatchedBracket)
                }
            } else {
                Ok(Machine { instruct_ptr: m.instruct_ptr + 1, ..m })
            }
        },
        Command::Unknown => Ok(Machine { instruct_ptr: m.instruct_ptr + 1, ..m }),
    }
}

/// `n` applications of the step transition, stopping at the first failure.
pub open spec fn iterate(code: Seq<Command>, m: Machine, n: nat) -> Result<Machine, ExecError>
    decreases n,
{
    if n == 0 {
        Ok(m)
    } else {
        match machine_step(code, m) {
            Ok(m2) => iterate(code, m2, (n - 1) as nat),
            Err(e) => Err(e),
        }
    }
}

/// Appending one step transition to an iteration.
pub proof fn lemma_iterate_step(code: Seq<Command>, m: Machine, n: nat, m2: Machine)
    requires
        iterate(code, m, n) == Ok::<Machine, ExecError>(m2),
    ensures
        iterate(code, m, n + 1) == machine_step(code, m2),
    decreases n,
{
    reveal_with_fuel(iterate, 3);
    if n == 0 {
    } else {
        match machine_step(code, m) {
            Ok(m1) => {
                lemma_iterate_step(code, m1, (n - 1) as nat, m2);
            },
            Err(_) => {},
        }
    }
}

/// Some number of step transitions leads from `m` to `m2`.
pub open spec fn reaches(code: Seq<Command>, m: Machine, m2: Machine) -> bool {
    exists|n: nat| iterate(code, m, n) == Ok::<Machine, ExecError>(m2)
}

/// Some number of step transitions leads from `m` to the fatal condition
/// `e`.
pub open spec fn fails(code: Seq<Command>, m: Machine, e: ExecError) -> bool {
    exists|n: nat| iterate(code, m, n) == Err::<Machine, ExecError>(e)
}

/// Composing two iterations: `n1 + n2` transitions are `n1` transitions
/// followed, if no failure stopped them, by `n2` more.
pub proof fn lemma_iterate_compose(code: Seq<Command>, m: Machine, n1: nat, n2: nat)
    ensures
        iterate(code, m, n1 + n2) == (match iterate(code, m, n1) {
            Ok(m2) => iterate(code, m2, n2),
            Err(e) => Err(e),
        }),
    decreases n1,
{
    reveal_with_fuel(iterate, 2);
    if n1 == 0 {
    } else {
        match machine_step(code, m) {
            Ok(mm) => {
                lemma_iterate_compose(code, mm, (n1 - 1) as nat, n2);
            },
            Err(_) => {},
        }
    }
}

/// A terminal configuration — one whose instruction pointer has left the
/// sequence — is a fixpoint: any number of further transitions leaves it
/// unchanged.
pub proof fn lemma_terminal_fixpoint(code: Seq<Command>, t: Machine, n: nat)
    requires
        !(0 <= t.instruct_ptr < code.len()),
    ensures
        iterate(code, t, n) == Ok::<Machine, ExecError>(t),
    decreases n,
{
    if n > 0 {
        lemma_terminal_fixpoint(code, t, (n - 1) as nat);
    }
}

/// Law: the terminal configuration of a run is unique — step transitions
/// from one starting configuration reach at most one configuration whose
/// instruction pointer has left the sequence.  So a `Done` outcome of the
/// driver pins the final state and the emitted output exactly.
pub proof fn lemma_terminal_unique(code: Seq<Command>, m: Machine, t1: Machine, t2: Machine)
    requires
        reaches(code, m, t1),
        reaches(code, m, t2),
        !(0 <= t1.instruct_ptr < code.len()),
        !(0 <= t2.instruct_ptr < code.len()),
    ensures
        t1 == t2,
{
    let n1 = choose|n: nat| iterate(code, m, n) == Ok::<Machine, ExecError>(t1);
    let n2 = choose|n: nat| iterate(code, m, n) == Ok::<Machine, ExecError>(t2);
    if n1 <= n2 {
        lemma_iterate_compose(code, m, n1, (n2 - n1) as nat);
        lemma_terminal_fixpoint(code, t1, (n2 - n1) as nat);
    } else {
        lemma_iterate_compose(code, m, n2, (n1 - n2) as nat);
        lemma_terminal_fixpoint(code, t2, (n1 - n2) as nat);
    }
}

/// Law: a run that reaches a terminal configuration cannot also fail —
/// success is owed exactly when the step transitions reach the end of
/// the sequence without a fatal condition.
pub proof fn lemma_terminal_excludes_failure(code: Seq<Command>, m: Machine, t: Machine)
    requires
        reaches(code, m, t),
        !(0 <= t.instruct_ptr < code.len()),
    ensures
        forall|e: ExecError| !fails(code, m, e),
{
    let n1 = choose|n: nat| iterate(code, m, n) == Ok::<Machine, ExecError>(t);
    assert forall|e: ExecError| !fails(code, m, e) by {
        if fails(code, m, e) {
            let n2 = choose|n: nat| iterate(code, m, n) == Err::<Machine, ExecError>(e);
            if n2 <= n1 {
                lemma_iterate_compose(code, m, n2, (n1 - n2) as nat);
            } else {
                lemma_iterate_compose(code, m, n1, (n2 - n1) as nat);
                lemma_terminal_fixpoint(code, t, (n2 - n1) as nat);
            }
            assert(false);
        }
    }
}

/// Law: a jump whose bracket scan would run past the sequence boundary
/// fails with the unmatched-bracket error — it is detected and reported,
/// never an out-of-bounds read.
pub proof fn lemma_unmatched_bracket_fails(code: Seq<Command>, m: Machine)
    requires
        0 <= m.instruct_ptr < code.len(),
        ({
            let c = code[m.instruct_ptr];
            ||| c == Command::JumpForward && m.memory[m.data_ptr] == 0 && !has_matching_close(
                code,
                m.instruct_ptr,
            )
            ||| c == Command::JumpBackward && m.memory[m.data_ptr] != 0 && !has_matching_open(
                code,
                m.instruct_ptr,
            )
        }),
    ensures
        machine_step(code, m) == Err::<Machine, ExecError>(ExecError::UnmatchedBracket),
{
}

/// Law: pointer movement that would take the data pointer outside the
/// memory range fails with the pointer-out-of-range error — never a
/// silent wrap-around.
pub proof fn lemma_pointer_out_of_range_fails(code: Seq<Command>, m: Machine)
    requires
        0 <= m.instruct_ptr < code.len(),
        ({
            let c = code[m.instruct_ptr];
            ||| c == Command::IncrementPointer && m.data_ptr + 1 >= m.memory.len()
            ||| c == Command::DecrementPointer && m.data_ptr < 1
        }),
    ensures
        machine_step(code, m) == Err::<Machine, ExecError>(ExecError::PointerOutOfRange),
{
}

/// Law: moving the data pointer right and then left returns it to its
/// original value; indeed the whole configuration is restored, except that
/// the instruction pointer has advanced past the pair.
pub proof fn lemma_move_right_left_inverse(code: Seq<Command>, m: Machine)
    requires
        0 <= m.instruct_ptr,
        m.instruct_ptr + 1 < code.len(),
        code[m.instruct_ptr] == Command::IncrementPointer,
        code[m.instruct_ptr + 1] == Command::DecrementPointer,
        0 <= m.data_ptr,
        m.data_ptr + 1 < m.memory.len(),
    ensures
        iterate(code, m, 2) == Ok::<Machine, ExecError>(
            (Machine { instruct_ptr: m.instruct_ptr + 2, ..m }),
        ),
{
    reveal_with_fuel(iterate, 3);
    let m1 = Machine { data_ptr: m.data_ptr + 1, instruct_ptr: m.instruct_ptr + 1, ..m };
    assert(machine_step(code, m) == Ok::<Machine, ExecError>(m1));
    let m2 = Machine { instruct_ptr: m.instruct_ptr + 2, ..m };
    assert(machine_step(code, m1) == Ok::<Machine, ExecError>(m2));
}

/// Law: incrementing and then decrementing the cell under the data pointer
/// returns it to its original value; indeed the whole configuration is
/// restored, except that the instruction pointer has advanced past the
/// pair.
pub proof fn lemma_increment_decrement_inverse(code: Seq<Command>, m: Machine)
    requires
        0 <= m.instruct_ptr,
        m.instruct_ptr + 1 < code.len(),
        code[m.instruct_ptr] == Command::IncrementValue,
        code[m.instruct_ptr + 1] == Command::DecrementValue,
        0 <= m.data_ptr < m.memory.len(),
    ensures
        iterate(code, m, 2) == Ok::<Machine, ExecError>(
            (Machine { instruct_ptr: m.instruct_ptr + 2, ..m }),
        ),
{
    reveal_with_fuel(iterate, 3);
    let v = m.memory[m.data_ptr];
    let m1 = Machine {
        memory: m.memory.update(m.data_ptr, byte_inc(v)),
        instruct_ptr: m.instruct_ptr + 1,
        ..m
    };
    assert(machine_step(code, m) == Ok::<Machine, ExecError>(m1));
    assert(byte_dec(byte_inc(v)) == v);
    let m2 = Machine {
        memory: m1.memory.update(m.data_ptr, v),
        instruct_ptr: m.instruct_ptr + 2,
        ..m
    };
    assert(machine_step(code, m1) == Ok::<Machine, ExecError>(m2));
    assert(m2.memory =~= m.memory);
    assert(m2 == (Machine { instruct_ptr: m.instruct_ptr + 2, ..m }));
}

} // verus!
