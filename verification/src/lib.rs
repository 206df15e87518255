//! An interpreter for a minimal byte-instruction language operating on a
//! bounded memory tape.
//!
//! Raw source bytes are decoded into a sequence of instructions
//! ([`command`]), a machine state steps through that sequence
//! ([`state`]), loops are resolved by bracket matching ([`resolver`]),
//! and a driver steps the machine until the program ends, a step fails,
//! or a step budget runs out ([`program`]).  The mathematical model that
//! the contracts speak of lives in [`semantics`].

pub mod command;
pub mod program;
pub mod resolver;
pub mod semantics;
pub mod state;
