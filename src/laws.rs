//! Laws of decoding and execution, stated over the models and proved.
use vstd::prelude::*;

use crate::instruction::{char_instruction, decode_spec, Instruction};
use crate::machine::{
    backward_match, balance, lemma_backward_match_unique, lemma_forward_match_unique, forward_match, move_right, run_spec, take_input, step_spec, Machine,
    MalformedProgram,
};

verus! {

/// The square bracket that a loop delimiter of any family stands for.
pub open spec fn canonical_bracket(c: char) -> char {
    if c == '{' || c == '(' {
        '['
    } else if c == '}' || c == ')' {
        ']'
    } else {
        c
    }
}

/// Curly braces and parentheses decode exactly as square brackets do: a source
/// decodes to the same program as the source with every brace and parenthesis
/// replaced by the square bracket of the same side.
pub proof fn lemma_bracket_families(s: Seq<char>)
    ensures
        decode_spec(s.map_values(|c: char| canonical_bracket(c))) == decode_spec(s),
    decreases s.len(),
{
    let t = s.map_values(|c: char| canonical_bracket(c));
    if s.len() > 0 {
        assert(t.drop_last() =~= s.drop_last().map_values(|c: char| canonical_bracket(c)));
        lemma_bracket_families(s.drop_last());
        assert(char_instruction(t.last()) == char_instruction(s.last()));
    }
}

/// `k` increments in a row add `k` to the current cell modulo 256, change
/// nothing else, read no input and write nothing.
pub proof fn lemma_increments(m: Machine, input: Seq<u8>, k: nat)
    requires
        m.wf(),
        m.code_ptr + k <= m.program.len(),
        forall|i: int|
            m.code_ptr <= i < m.code_ptr + k ==> m.program[i] == Instruction::IncrementData,
    ensures
        run_spec(m, input, k) == Ok::<(Machine, Seq<u8>, Seq<u8>), MalformedProgram>(
            (
                m.set_current(((m.current() + k) % 256) as u8).jump(m.code_ptr + k),
                input,
                Seq::empty(),
            ),
        ),
    decreases k,
{
    if k == 0 {
        assert(m.set_current(m.current()).tape =~= m.tape);
    } else {
        let m1 = m.set_current(((m.current() + 1) % 256) as u8).jump(m.code_ptr + 1);
        assert(m.program[m.code_ptr as int] == Instruction::IncrementData);
        assert(step_spec(m, None) == Ok::<(Machine, Option<u8>), MalformedProgram>((m1, None)));
        lemma_increments(m1, input, (k - 1) as nat);
        assert(((m1.current() + (k - 1)) % 256) as u8 == ((m.current() + k) % 256) as u8);
        assert(m1.set_current(((m1.current() + (k - 1)) % 256) as u8).tape =~= m.set_current(
            ((m.current() + k) % 256) as u8,
        ).tape);
    }
}

/// 256 increments in a row leave the tape exactly as it was: cell values wrap
/// around modulo 256.
pub proof fn lemma_increments_wrap_around(m: Machine, input: Seq<u8>)
    requires
        m.wf(),
        m.code_ptr + 256 <= m.program.len(),
        forall|i: int|
            m.code_ptr <= i < m.code_ptr + 256 ==> m.program[i] == Instruction::IncrementData,
    ensures
        run_spec(m, input, 256) == Ok::<(Machine, Seq<u8>, Seq<u8>), MalformedProgram>(
            (m.jump(m.code_ptr + 256), input, Seq::empty()),
        ),
{
    lemma_increments(m, input, 256);
    assert(m.set_current(((m.current() + 256) % 256) as u8).tape =~= m.tape);
}

/// An input instruction followed by an output instruction echoes the next
/// input byte unchanged.
pub proof fn lemma_echo(m: Machine, b: u8, rest: Seq<u8>)
    requires
        m.wf(),
        m.code_ptr + 2 <= m.program.len(),
        m.program[m.code_ptr as int] == Instruction::InputData,
        m.program[m.code_ptr + 1int] == Instruction::OutputData,
    ensures
        run_spec(m, seq![b] + rest, 2) == Ok::<(Machine, Seq<u8>, Seq<u8>), MalformedProgram>(
            (m.set_current(b).jump(m.code_ptr + 2), rest, seq![b]),
        ),
{
    let input = seq![b] + rest;
    let m1 = m.set_current(b).jump(m.code_ptr + 1);
    assert(input.drop_first() =~= rest);
    assert(step_spec(m, Some(b)) == Ok::<(Machine, Option<u8>), MalformedProgram>((m1, None)));
    let m2 = m1.jump(m.code_ptr + 2);
    assert(step_spec(m1, None) == Ok::<(Machine, Option<u8>), MalformedProgram>((m2, Some(b))));
    assert(take_input(m, input) == (Some(b), rest));
    assert(take_input(m1, rest) == (None::<u8>, rest));
    assert(run_spec(m2, rest, 0) == Ok::<(Machine, Seq<u8>, Seq<u8>), MalformedProgram>(
        (m2, rest, Seq::empty()),
    ));
    assert(seq![b] + Seq::<u8>::empty() =~= seq![b]);
    assert(run_spec(m1, rest, 1) == Ok::<(Machine, Seq<u8>, Seq<u8>), MalformedProgram>(
        (m2, rest, seq![b]),
    ));
}

/// Moving left from cell zero succeeds, keeps the data pointer at zero, puts a
/// new zero cell under it and shifts every value one cell up, so that a single
/// move right afterwards reads the value that was under the pointer before.
pub proof fn lemma_move_left_at_origin(m: Machine, input: Option<u8>)
    requires
        m.wf(),
        !m.halted(),
        m.data_ptr == 0,
        m.instruction() == Instruction::DecrementDataPointer,
    ensures
        step_spec(m, input) is Ok,
        ({
            let m2 = step_spec(m, input)->Ok_0.0;
            &&& m2.data_ptr == 0
            &&& m2.current() == 0
            &&& m2.tape.len() == m.tape.len() + 1
            &&& forall|i: int| 0 <= i < m.tape.len() ==> m2.tape[i + 1] == m.tape[i]
            &&& move_right(m2).current() == m.current()
        }),
{
}

/// A loop start directly followed by its loop end, met with the current cell
/// at zero, jumps past the pair and changes nothing else.
pub proof fn lemma_empty_loop_skipped(m: Machine, input: Option<u8>)
    requires
        m.wf(),
        m.code_ptr + 2 <= m.program.len(),
        m.program[m.code_ptr as int] == Instruction::JumpForward,
        m.program[m.code_ptr + 1int] == Instruction::JumpBackward,
        m.current() == 0,
    ensures
        step_spec(m, input) == Ok::<(Machine, Option<u8>), MalformedProgram>(
            (m.jump(m.code_ptr + 2), None),
        ),
{
    let p = m.code_ptr as int;
    let prog = m.program;
    assert(balance(prog, p, p + 1) == 1) by {
        assert(balance(prog, p, p) == 0);
    }
    assert(balance(prog, p, p + 2) == 0);
    assert(forward_match(prog, p, p + 1));
    let q = choose|q: int| forward_match(prog, p, q);
    if q > p + 1 {
        assert(balance(prog, p, p + 2) > 0);
    }
}

/// A loop start that no loop end closes, met with the current cell at zero,
/// stops execution with the malformed-program error at its position.
pub proof fn lemma_unclosed_loop_fails(m: Machine, input: Option<u8>)
    requires
        m.wf(),
        !m.halted(),
        m.instruction() == Instruction::JumpForward,
        m.current() == 0,
        forall|r: int|
            m.code_ptr < r <= m.program.len() ==> #[trigger] balance(m.program, m.code_ptr as int, r)
                > 0,
    ensures
        step_spec(m, input) == Err::<(Machine, Option<u8>), MalformedProgram>(
            MalformedProgram::UnmatchedJumpForward(m.code_ptr as usize),
        ),
{
    assert forall|q: int| !forward_match(m.program, m.code_ptr as int, q) by {
        if forward_match(m.program, m.code_ptr as int, q) {
            assert(balance(m.program, m.code_ptr as int, q + 1) > 0);
        }
    }
}

/// The program has the countdown loop `[-]` at position `p`.
pub open spec fn countdown_at(prog: Seq<Instruction>, p: int) -> bool {
    &&& 0 <= p
    &&& p + 3 <= prog.len()
    &&& prog[p] == Instruction::JumpForward
    &&& prog[p + 1] == Instruction::DecrementData
    &&& prog[p + 2] == Instruction::JumpBackward
}

/// The delimiters of a countdown loop match each other.
proof fn lemma_countdown_delimiters(prog: Seq<Instruction>, p: int)
    requires
        countdown_at(prog, p),
    ensures
        (choose|q: int| forward_match(prog, p, q)) == p + 2,
        (choose|q: int| #[trigger] backward_match(prog, p + 2, q)) == p,
        exists|q: int| forward_match(prog, p, q),
        exists|q: int| #[trigger] backward_match(prog, p + 2, q),
{
    assert(balance(prog, p, p) == 0);
    assert(balance(prog, p + 1, p + 1) == 0);
    assert(balance(prog, p + 2, p + 2) == 0);
    assert(balance(prog, p + 1, p + 2) == 0);
    assert(balance(prog, p + 1, p + 3) == -1);
    assert(balance(prog, p, p + 1) == 1);
    assert(balance(prog, p, p + 2) == 1);
    assert(balance(prog, p + 2, p + 3) == -1);
    assert(balance(prog, p, p + 3) == 0);
    assert(forward_match(prog, p, p + 2));
    assert(backward_match(prog, p + 2, p));
    let f = choose|q: int| forward_match(prog, p, q);
    lemma_forward_match_unique(prog, p, f, p + 2);
    let b = choose|q: int| #[trigger] backward_match(prog, p + 2, q);
    lemma_backward_match_unique(prog, p + 2, b, p);
}

/// From the body of a countdown loop at `p` with the current cell at `w`:
/// `2 * w` steps clear the cell and leave the loop.
proof fn lemma_countdown_body(m: Machine, input: Seq<u8>, p: int, w: nat)
    requires
        m.wf(),
        countdown_at(m.program, p),
        m.code_ptr == p + 1,
        1 <= w <= 255,
        m.current() == w,
    ensures
        run_spec(m, input, 2 * w) == Ok::<(Machine, Seq<u8>, Seq<u8>), MalformedProgram>(
            (m.set_current(0).jump((p + 3) as nat), input, Seq::empty()),
        ),
    decreases w,
{
    lemma_countdown_delimiters(m.program, p);
    let m1 = m.set_current((w - 1) as u8).jump((p + 2) as nat);
    assert(step_spec(m, None) == Ok::<(Machine, Option<u8>), MalformedProgram>((m1, None)));
    assert(take_input(m, input) == (None::<u8>, input));
    assert(take_input(m1, input) == (None::<u8>, input));
    if w == 1 {
        let m2 = m1.jump((p + 3) as nat);
        assert(step_spec(m1, None) == Ok::<(Machine, Option<u8>), MalformedProgram>((m2, None)));
        assert(run_spec(m2, input, 0) == Ok::<(Machine, Seq<u8>, Seq<u8>), MalformedProgram>(
            (m2, input, Seq::empty()),
        ));
        assert(run_spec(m1, input, 1) == Ok::<(Machine, Seq<u8>, Seq<u8>), MalformedProgram>(
            (m2, input, Seq::empty()),
        ));
    } else {
        let m2 = m1.jump((p + 1) as nat);
        assert(step_spec(m1, None) == Ok::<(Machine, Option<u8>), MalformedProgram>((m2, None)));
        lemma_countdown_body(m2, input, p, (w - 1) as nat);
        assert(m2.set_current(0).tape =~= m.set_current(0).tape);
        assert(run_spec(m1, input, (2 * w - 1) as nat) == run_spec(m2, input, (2 * (w - 1)) as nat));
    }
}

/// The countdown loop `[-]` always ends: from its loop start with the current
/// cell at `v`, `2 * v + 1` steps leave the loop with the cell cleared, reading
/// no input and writing nothing.
pub proof fn lemma_countdown_loop(m: Machine, input: Seq<u8>)
    requires
        m.wf(),
        countdown_at(m.program, m.code_ptr as int),
    ensures
        run_spec(m, input, (2 * m.current() + 1) as nat) == Ok::<
            (Machine, Seq<u8>, Seq<u8>),
            MalformedProgram,
        >((m.set_current(0).jump(m.code_ptr + 3), input, Seq::empty())),
{
    let p = m.code_ptr as int;
    let v = m.current();
    lemma_countdown_delimiters(m.program, p);
    assert(take_input(m, input) == (None::<u8>, input));
    if v == 0 {
        let m1 = m.jump(m.code_ptr + 3);
        assert(m.set_current(0).tape =~= m.tape);
        assert(step_spec(m, None) == Ok::<(Machine, Option<u8>), MalformedProgram>((m1, None)));
        assert(run_spec(m1, input, 0) == Ok::<(Machine, Seq<u8>, Seq<u8>), MalformedProgram>(
            (m1, input, Seq::empty()),
        ));
    } else {
        let m1 = m.jump(m.code_ptr + 1);
        assert(step_spec(m, None) == Ok::<(Machine, Option<u8>), MalformedProgram>((m1, None)));
        lemma_countdown_body(m1, input, p, v as nat);
    }
}

} // verus!
