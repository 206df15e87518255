use brainfuck::command::Command;
use brainfuck::command::decode;
use brainfuck::command::parse_program;
use brainfuck::program::Program;
use brainfuck::program::RunOutcome;
use brainfuck::semantics::ExecError;
use brainfuck::state::DEFAULT_MEMORY_SIZE;
use brainfuck::state::ProgramState;

fn run_source(src: &str, input: &[u8]) -> RunOutcome {
    let code = parse_program(src.as_bytes());
    let mut program = Program::new();
    program.run(&code, input, 100_000)
}

#[test]
fn decode_recognizes_every_symbol() {
    assert_eq!(decode(b'>'), Command::IncrementPointer);
    assert_eq!(decode(b'<'), Command::DecrementPointer);
    assert_eq!(decode(b'+'), Command::IncrementValue);
    assert_eq!(decode(b'-'), Command::DecrementValue);
    assert_eq!(decode(b'.'), Command::OutputValue);
    assert_eq!(decode(b','), Command::InputValue);
    assert_eq!(decode(b'['), Command::JumpForward);
    assert_eq!(decode(b']'), Command::JumpBackward);
}

#[test]
fn decode_marks_other_bytes_unknown() {
    assert_eq!(decode(b'a'), Command::Unknown);
    assert_eq!(decode(b'\n'), Command::Unknown);
    assert_eq!(decode(b' '), Command::Unknown);
    assert_eq!(decode(0), Command::Unknown);
    assert_eq!(decode(255), Command::Unknown);
}

#[test]
fn parse_drops_bytes_that_are_no_instructions() {
    let code = parse_program(b"a+ comment\n.x");
    assert_eq!(code, vec![Command::IncrementValue, Command::OutputValue]);
    for c in &code {
        assert_ne!(*c, Command::Unknown);
    }
}

#[test]
fn parse_keeps_instruction_order() {
    let code = parse_program(b"[->+<]");
    assert_eq!(
        code,
        vec![
            Command::JumpForward,
            Command::DecrementValue,
            Command::IncrementPointer,
            Command::IncrementValue,
            Command::DecrementPointer,
            Command::JumpBackward,
        ]
    );
}

#[test]
fn three_increments_emit_three() {
    assert_eq!(run_source("+++.", &[]), RunOutcome::Done(vec![3]));
}

#[test]
fn clear_loop_runs_once_and_emits_zero() {
    assert_eq!(run_source("+[-].", &[]), RunOutcome::Done(vec![0]));
}

#[test]
fn empty_loop_on_zero_memory_terminates_immediately() {
    let code = parse_program(b"[]");
    let mut program = Program::new();
    let r = program.run(&code, &[], 100);
    assert_eq!(r, RunOutcome::Done(vec![]));
    assert_eq!(program.state.instruct_ptr, 2);
    assert_eq!(program.state.data_ptr, 0);
    assert_eq!(program.state.get_value(), 0);
}

#[test]
fn input_then_output_echoes_byte() {
    assert_eq!(run_source(",.", b"X"), RunOutcome::Done(vec![b'X']));
}

#[test]
fn unmatched_open_bracket_fails() {
    assert_eq!(
        run_source("[", &[]),
        RunOutcome::Fault(ExecError::UnmatchedBracket)
    );
}

#[test]
fn unmatched_close_bracket_fails() {
    assert_eq!(
        run_source("+]", &[]),
        RunOutcome::Fault(ExecError::UnmatchedBracket)
    );
}

#[test]
fn moving_below_zero_fails() {
    assert_eq!(
        run_source("<", &[]),
        RunOutcome::Fault(ExecError::PointerOutOfRange)
    );
}

#[test]
fn moving_past_memory_size_fails() {
    assert_eq!(
        run_source(">>>>>>>>", &[]),
        RunOutcome::Fault(ExecError::PointerOutOfRange)
    );
}

#[test]
fn move_right_then_left_restores_data_pointer() {
    let code = parse_program(b"><");
    let mut program = Program::new();
    assert_eq!(program.run(&code, &[], 10), RunOutcome::Done(vec![]));
    assert_eq!(program.state.data_ptr, 0);
}

#[test]
fn increment_then_decrement_restores_cell() {
    let code = parse_program(b"+-.");
    let mut program = Program::new();
    assert_eq!(program.run(&code, &[], 10), RunOutcome::Done(vec![0]));
    assert_eq!(program.state.get_value(), 0);
}

#[test]
fn input_exhaustion_stores_zero() {
    assert_eq!(run_source("+,.", &[]), RunOutcome::Done(vec![0]));
}

#[test]
fn decrement_wraps_to_255() {
    assert_eq!(run_source("-.", &[]), RunOutcome::Done(vec![255]));
}

#[test]
fn increment_wraps_to_zero() {
    let src = "+".repeat(256) + ".";
    assert_eq!(run_source(&src, &[]), RunOutcome::Done(vec![0]));
}

#[test]
fn loop_moves_value_one_cell_right() {
    assert_eq!(run_source("++[>+<-]>.", &[]), RunOutcome::Done(vec![2]));
}

#[test]
fn nested_brackets_skip_as_one() {
    assert_eq!(run_source("[[]]", &[]), RunOutcome::Done(vec![]));
}

#[test]
fn endless_loop_exhausts_the_budget() {
    assert_eq!(run_source("+[]", &[]), RunOutcome::Exhausted(vec![]));
}

#[test]
fn step_applies_one_instruction() {
    let code = parse_program(b".");
    let mut state = ProgramState::new();
    assert_eq!(state.step(&code, None), Ok(Some(0)));
    assert_eq!(state.instruct_ptr, 1);
}

#[test]
fn step_stores_the_input_event() {
    let code = parse_program(b",");
    let mut state = ProgramState::new();
    assert_eq!(state.step(&code, Some(7)), Ok(None));
    assert_eq!(state.get_value(), 7);
    assert_eq!(state.instruct_ptr, 1);
}

#[test]
fn step_leaves_state_unchanged_on_error() {
    let code = parse_program(b"<");
    let mut state = ProgramState::new();
    assert_eq!(state.step(&code, None), Err(ExecError::PointerOutOfRange));
    assert_eq!(state.data_ptr, 0);
    assert_eq!(state.instruct_ptr, 0);
}

#[test]
fn fault_keeps_the_last_good_state() {
    let code = parse_program(b"+<");
    let mut program = Program::new();
    assert_eq!(
        program.run(&code, &[], 10),
        RunOutcome::Fault(ExecError::PointerOutOfRange)
    );
    assert_eq!(program.state.instruct_ptr, 1);
    assert_eq!(program.state.data_ptr, 0);
    assert_eq!(program.state.get_value(), 1);
}

#[test]
fn memory_size_is_configurable() {
    let state = ProgramState::with_size(3);
    assert_eq!(state.memory.len(), 3);
    let code = parse_program(b">>>");
    let mut program = Program::with_memory_size(3);
    assert_eq!(
        program.run(&code, &[], 10),
        RunOutcome::Fault(ExecError::PointerOutOfRange)
    );
}

#[test]
fn reset_restores_a_fresh_state() {
    let code = parse_program(b"+>");
    let mut program = Program::new();
    assert_eq!(program.run(&code, &[], 10), RunOutcome::Done(vec![]));
    assert_eq!(program.state.data_ptr, 1);
    program.reset();
    assert_eq!(program.state.data_ptr, 0);
    assert_eq!(program.state.instruct_ptr, 0);
    assert_eq!(program.state.get_value(), 0);
    assert_eq!(program.state.memory.len(), DEFAULT_MEMORY_SIZE);
}

#[test]
fn new_state_is_zeroed() {
    let state = ProgramState::new();
    assert_eq!(state.memory, vec![0u8; DEFAULT_MEMORY_SIZE]);
    assert_eq!(state.data_ptr, 0);
    assert_eq!(state.instruct_ptr, 0);
}
