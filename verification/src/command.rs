//! The instruction decoder: maps raw source bytes to typed instructions
//! and drops every byte that is not an instruction.

use vstd::prelude::*;

verus! {

/// One instruction of the language.  `Unknown` marks a byte that is not an
/// instruction; such bytes are dropped before execution and never occupy an
/// instruction-pointer slot.
#[derive(Debug, Clone, Copy, PartialEq, Eq, Structural)]
pub enum Command {
    /// A byte that is no instruction (comment text, whitespace, ...).
    Unknown,
    /// `>`: move the data pointer one cell to the right.
    IncrementPointer,
    /// `<`: move the data pointer one cell to the left.
    DecrementPointer,
    /// `+`: increment the byte under the data pointer.
    IncrementValue,
    /// `-`: decrement the byte under the data pointer.
    DecrementValue,
    /// `.`: emit the byte under the data pointer.
    OutputValue,
    /// `,`: read one byte and store it under the data pointer.
    InputValue,
    /// `[`: if the byte under the data pointer is zero, jump past the
    /// matching closing bracket.
    JumpForward,
    /// `]`: if the byte under the data pointer is nonzero, jump back past
    /// the matching opening bracket.
    JumpBackward,
}

/// The byte value of the source symbol `>`.
pub const SYM_MOVE_RIGHT: u8 = 62;

/// The byte value of the source symbol `<`.
pub const SYM_MOVE_LEFT: u8 = 60;

/// The byte value of the source symbol `+`.
pub const SYM_INCREMENT: u8 = 43;

/// The byte value of the source symbol `-`.
pub const SYM_DECREMENT: u8 = 45;

/// The byte value of the source symbol `.`.
pub const SYM_OUTPUT: u8 = 46;

/// The byte value of the source symbol `,`.
pub const SYM_INPUT: u8 = 44;

/// The byte value of the source symbol `[`.
pub const SYM_OPEN_BRACKET: u8 = 91;

/// The byte value of the source symbol `]`.
pub const SYM_CLOSE_BRACKET: u8 = 93;

/// The instruction that one raw byte denotes.
pub open spec fn spec_decode(b: u8) -> Command {
    if b == SYM_MOVE_RIGHT {
        Command::IncrementPointer
    } else if b == SYM_MOVE_LEFT {
        Command::DecrementPointer
    } else if b == SYM_INCREMENT {
        Command::IncrementValue
    } else if b == SYM_DECREMENT {
        Command::DecrementValue
    } else if b == SYM_OUTPUT {
        Command::OutputValue
    } else if b == SYM_INPUT {
        Command::InputValue
    } else if b == SYM_OPEN_BRACKET {
        Command::JumpForward
    } else if b == SYM_CLOSE_BRACKET {
        Command::JumpBackward
    } else {
        Command::Unknown
    }
}

/// The instruction sequence that a raw source buffer denotes: every byte
/// decoded, and every byte that is no instruction dropped (not kept as a
/// placeholder).
pub open spec fn spec_parse(src: Seq<u8>) -> Seq<Command>
    decreases src.len(),
{
    if src.len() == 0 {
        Seq::empty()
    } else {
        let rest = spec_parse(src.drop_last());
        let c = spec_decode(src.last());
        if c == Command::Unknown {
            rest
        } else {
            rest.push(c)
        }
    }
}

/// Decode one raw byte to its instruction, or `Unknown` for any byte that
/// is none of the eight recognized symbols.
pub fn decode(b: u8) -> (c: Command)
    ensures
        c == spec_decode(b),
{
    if b == SYM_MOVE_RIGHT {
        Command::IncrementPointer
    } else if b == SYM_MOVE_LEFT {
        Command::DecrementPointer
    } else if b == SYM_INCREMENT {
        Command::IncrementValue
    } else if b == SYM_DECREMENT {
        Command::DecrementValue
    } else if b == SYM_OUTPUT {
        Command::OutputValue
    } else if b == SYM_INPUT {
        Command::InputValue
    } else if b == SYM_OPEN_BRACKET {
        Command::JumpForward
    } else if b == SYM_CLOSE_BRACKET {
        Command::JumpBackward
    } else {
        Command::Unknown
    }
}

/// Decode a whole raw source buffer, discarding every byte that is not one
/// of the eight recognized instructions.  The result is the sequence that
/// instruction pointers and jump targets are computed over.
pub fn parse_program(src: &[u8]) -> (code: Vec<Command>)
    ensures
        code@ == spec_parse(src@),
        forall|i: int| 0 <= i < code@.len() ==> code@[i] != Command::Unknown,
{
    let mut code: Vec<Command> = Vec::new();
    let mut i: usize = 0;
    while i < src.len()
        invariant
            i <= src@.len(),
            code@ == spec_parse(src@.take(i as int)),
            forall|k: int| 0 <= k < code@.len() ==> code@[k] != Command::Unknown,
        decreases src@.len() - i,
    {
        let c = decode(src[i]);
        proof {
            assert(src@.take(i + 1).drop_last() =~= src@.take(i as int));
            assert(src@.take(i + 1).last() == src@[i as int]);
        }
        if c != Command::Unknown {
            code.push(c);
        }
        i += 1;
    }
    proof {
        assert(src@.take(src@.len() as int) =~= src@);
    }
    code
}

} // verus!
