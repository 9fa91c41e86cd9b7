use brainfucked::engine::BrainfuckedState;
use brainfucked::instruction::{decode, Instruction};
use brainfucked::machine::MalformedProgram;

/// Runs a source to completion, feeding bytes from `input`; returns the bytes
/// written and the final engine.
fn run(source: &str, input: &[u8]) -> Result<(Vec<u8>, BrainfuckedState), MalformedProgram> {
    let mut state = BrainfuckedState::init(decode(source));
    let mut input = input.iter();
    let mut out = Vec::new();
    while !state.is_halted() {
        let byte = if state.wants_input() { input.next().copied() } else { None };
        if let Some(b) = state.step(byte)? {
            out.push(b);
        }
    }
    Ok((out, state))
}

#[test]
fn from_char_maps_every_instruction() {
    assert_eq!(Instruction::from_char('>'), Some(Instruction::IncrementDataPointer));
    assert_eq!(Instruction::from_char('<'), Some(Instruction::DecrementDataPointer));
    assert_eq!(Instruction::from_char('+'), Some(Instruction::IncrementData));
    assert_eq!(Instruction::from_char('-'), Some(Instruction::DecrementData));
    assert_eq!(Instruction::from_char('.'), Some(Instruction::OutputData));
    assert_eq!(Instruction::from_char(','), Some(Instruction::InputData));
    for c in ['[', '{', '('] {
        assert_eq!(Instruction::from_char(c), Some(Instruction::JumpForward));
    }
    for c in [']', '}', ')'] {
        assert_eq!(Instruction::from_char(c), Some(Instruction::JumpBackward));
    }
    for c in ['a', ' ', '\n', '#', 'é'] {
        assert_eq!(Instruction::from_char(c), None);
    }
}

#[test]
fn decode_drops_comments() {
    assert_eq!(
        decode("a+ b-\n>x<"),
        vec![
            Instruction::IncrementData,
            Instruction::DecrementData,
            Instruction::IncrementDataPointer,
            Instruction::DecrementDataPointer,
        ]
    );
    assert!(decode("").is_empty());
    assert!(decode("no instructions here").is_empty());
}

#[test]
fn bracket_families_decode_alike() {
    let canonical = decode("+[-[>]<]");
    assert_eq!(decode("+{-{>}<}"), canonical);
    assert_eq!(decode("+(-(>)<)"), canonical);
    assert_eq!(decode("+{-(>]<)"), canonical);
    assert_eq!(run("+++{>++<-}>.", &[]).unwrap().0, vec![6]);
    assert_eq!(run("+++(>++<-)>.", &[]).unwrap().0, vec![6]);
}

#[test]
fn init_is_one_zero_cell() {
    let state = BrainfuckedState::init(decode("+."));
    assert_eq!(state.tape(), &[0u8][..]);
    assert_eq!(state.data_ptr(), 0);
    assert_eq!(state.code_ptr(), 0);
    assert!(!state.is_halted());
    assert!(BrainfuckedState::init(Vec::new()).is_halted());
}

#[test]
fn increments_wrap_around_after_256() {
    let source = format!("{}.", "+".repeat(256));
    let (wrapped, _) = run(&source, &[]).unwrap();
    let (plain, _) = run(".", &[]).unwrap();
    assert_eq!(wrapped, plain);
    assert_eq!(wrapped, vec![0]);
}

#[test]
fn decrement_wraps_below_zero() {
    assert_eq!(run("-.", &[]).unwrap().0, vec![255]);
    assert_eq!(run("-+.", &[]).unwrap().0, vec![0]);
}

#[test]
fn input_then_output_echoes_one_byte() {
    assert_eq!(run(",.", b"A").unwrap().0, vec![b'A']);
    assert_eq!(run(",.", &[200, 7]).unwrap().0, vec![200]);
}

#[test]
fn input_at_end_leaves_cell_unchanged() {
    assert_eq!(run("+++,.", &[]).unwrap().0, vec![3]);
}

#[test]
fn move_right_grows_tape() {
    let (_, state) = run(">>+", &[]).unwrap();
    assert_eq!(state.tape(), &[0u8, 0, 1][..]);
    assert_eq!(state.data_ptr(), 2);
}

#[test]
fn move_left_at_origin_shifts_tape() {
    let (_, state) = run("+++<", &[]).unwrap();
    assert_eq!(state.tape(), &[0u8, 3][..]);
    assert_eq!(state.data_ptr(), 0);
    assert_eq!(state.current_cell(), 0);

    let (out, state) = run("+++<><>.", &[]).unwrap();
    assert_eq!(out, vec![3]);
    assert_eq!(state.data_ptr(), 1);

    let (_, state) = run("+>++<<<", &[]).unwrap();
    assert_eq!(state.tape(), &[0u8, 0, 1, 2][..]);
}

#[test]
fn empty_loop_with_zero_cell_is_skipped() {
    let mut state = BrainfuckedState::init(decode("[]"));
    assert_eq!(state.step(None), Ok(None));
    assert_eq!(state.code_ptr(), 2);
    assert!(state.is_halted());
    assert_eq!(state.tape(), &[0u8][..]);
}

#[test]
fn countdown_loop_runs_once() {
    let (out, state) = run("+[-]", &[]).unwrap();
    assert!(out.is_empty());
    assert_eq!(state.tape(), &[0u8][..]);
    assert!(state.is_halted());
}

#[test]
fn unmatched_loop_start_is_malformed() {
    assert_eq!(run("[", &[]).err(), Some(MalformedProgram::UnmatchedJumpForward(0)));
    assert_eq!(run("+-[[]", &[]).err(), Some(MalformedProgram::UnmatchedJumpForward(2)));
}

#[test]
fn unmatched_loop_end_is_malformed() {
    assert_eq!(run("+]", &[]).err(), Some(MalformedProgram::UnmatchedJumpBackward(1)));
    assert_eq!(run("]", &[]).unwrap().0, Vec::<u8>::new());
}

#[test]
fn failed_step_leaves_engine_unchanged() {
    let mut state = BrainfuckedState::init(decode("+]"));
    assert_eq!(state.step(None), Ok(None));
    assert_eq!(state.step(None), Err(MalformedProgram::UnmatchedJumpBackward(1)));
    assert_eq!(state.code_ptr(), 1);
    assert_eq!(state.tape(), &[1u8][..]);
}

#[test]
fn two_increments_output_two() {
    assert_eq!(run("++.", &[]).unwrap().0, vec![2]);
}

#[test]
fn multiplication_loop_outputs_65() {
    assert_eq!(run("++++++++[>++++++++<-]>+.", &[]).unwrap().0, vec![65]);
}

#[test]
fn nested_loops_multiply() {
    assert_eq!(run("++[>+++[>++<-]<-]>>.", &[]).unwrap().0, vec![12]);
}

#[test]
fn hello_world() {
    let source = "++++++++[>++++[>++>+++>+++>+<<<<-]>+>+>->>+[<]<-]>>.>---.+++++++..+++.>>.<-.<.+++.------.--------.>>+.>++.";
    assert_eq!(run(source, &[]).unwrap().0, b"Hello World!\n".to_vec());
}

#[test]
fn halted_engine_step_does_nothing() {
    let mut state = BrainfuckedState::init(decode("+"));
    assert_eq!(state.step(None), Ok(None));
    assert!(state.is_halted());
    assert_eq!(state.step(Some(9)), Ok(None));
    assert_eq!(state.code_ptr(), 1);
    assert_eq!(state.tape(), &[1u8][..]);
}
