use vstd::prelude::*;

use crate::instruction::Instruction;

verus! {

/// The abstract state of the engine: tape, data pointer, instruction pointer
/// and program.
pub struct Machine {
    pub tape: Seq<u8>,
    pub data_ptr: nat,
    pub code_ptr: nat,
    pub program: Seq<Instruction>,
}

/// Why execution had to stop: the program's loop delimiters are unbalanced.
#[derive(Clone, Copy, Debug, PartialEq, Eq, Structural)]
pub enum MalformedProgram {
    /// The loop start at this position has no matching loop end.
    UnmatchedJumpForward(usize),
    /// The loop end at this position has no matching loop start.
    UnmatchedJumpBackward(usize),
}

/// What an instruction adds to the loop nesting depth.
pub open spec fn weight(i: Instruction) -> int {
    match i {
        Instruction::JumpForward => 1,
        Instruction::JumpBackward => -1,
        _ => 0,
    }
}

/// Loop starts minus loop ends among `prog[lo..hi]`.
pub open spec fn balance(prog: Seq<Instruction>, lo: int, hi: int) -> int
    decreases hi - lo,
{
    if hi <= lo {
        0
    } else {
        balance(prog, lo, hi - 1) + weight(prog[hi - 1])
    }
}

/// `q` is the loop end that matches the loop start at `p`: the first position
/// after `p` at which the nesting depth, counted from `p`, falls back to zero.
pub open spec fn forward_match(prog: Seq<Instruction>, p: int, q: int) -> bool {
    &&& 0 <= p < q < prog.len()
    &&& balance(prog, p, q + 1) == 0
    &&& forall|r: int| p < r <= q ==> #[trigger] balance(prog, p, r) > 0
}

/// `q` is the loop start that matches the loop end at `p`: the last position
/// before `p` at which the nesting depth, counted back from `p`, falls to zero.
pub open spec fn backward_match(prog: Seq<Instruction>, p: int, q: int) -> bool {
    &&& 0 <= q < p < prog.len()
    &&& balance(prog, q, p + 1) == 0
    &&& forall|r: int| q < r <= p ==> #[trigger] balance(prog, r, p + 1) < 0
}

/// A loop start has at most one matching loop end.
pub proof fn lemma_forward_match_unique(prog: Seq<Instruction>, p: int, q1: int, q2: int)
    requires
        forward_match(prog, p, q1),
        forward_match(prog, p, q2),
    ensures
        q1 == q2,
{
    if q1 < q2 {
        assert(balance(prog, p, q1 + 1) > 0);
    } else if q2 < q1 {
        assert(balance(prog, p, q2 + 1) > 0);
    }
}

/// A loop end has at most one matching loop start.
pub proof fn lemma_backward_match_unique(prog: Seq<Instruction>, p: int, q1: int, q2: int)
    requires
        backward_match(prog, p, q1),
        backward_match(prog, p, q2),
    ensures
        q1 == q2,
{
    if q1 < q2 {
        assert(balance(prog, q2, p + 1) < 0);
    } else if q2 < q1 {
        assert(balance(prog, q1, p + 1) < 0);
    }
}

impl Machine {
    /// Tape never empty, data pointer on the tape, instruction pointer within
    /// the program or just past its end.
    pub open spec fn wf(self) -> bool {
        &&& self.tape.len() >= 1
        &&& self.data_ptr < self.tape.len()
        &&& self.code_ptr <= self.program.len()
    }

    /// Execution is over: the instruction pointer has run off the program.
    pub open spec fn halted(self) -> bool {
        self.code_ptr >= self.program.len()
    }

    /// The value of the cell under the data pointer.
    pub open spec fn current(self) -> u8 {
        self.tape[self.data_ptr as int]
    }

    /// The instruction under the instruction pointer.
    pub open spec fn instruction(self) -> Instruction {
        self.program[self.code_ptr as int]
    }

    /// The same machine with the instruction pointer moved to `code_ptr`.
    pub open spec fn jump(self, code_ptr: nat) -> Machine {
        Machine { code_ptr, ..self }
    }

    /// The same machine with the current cell set to `v`.
    pub open spec fn set_current(self, v: u8) -> Machine {
        Machine { tape: self.tape.update(self.data_ptr as int, v), ..self }
    }
}

/// The initial state for a program: one zero cell, both pointers at zero.
pub open spec fn initial(program: Seq<Instruction>) -> Machine {
    Machine { tape: seq![0u8], data_ptr: 0, code_ptr: 0, program }
}

/// The machine after the data pointer moves right, the tape growing by a zero
/// cell when the pointer passes its end.
pub open spec fn move_right(m: Machine) -> Machine {
    let dp = m.data_ptr + 1;
    Machine {
        tape: if dp == m.tape.len() { m.tape.push(0) } else { m.tape },
        data_ptr: dp,
        ..m
    }
}

/// The machine after the data pointer moves left; at cell zero the tape grows
/// by a zero cell at the front, every value moving one cell up, and the
/// pointer stays at zero.
pub open spec fn move_left(m: Machine) -> Machine {
    if m.data_ptr == 0 {
        Machine { tape: seq![0u8] + m.tape, ..m }
    } else {
        Machine { data_ptr: (m.data_ptr - 1) as nat, ..m }
    }
}

/// One step of execution from a well-formed, running machine: the machine
/// after it (the instruction pointer moved on) and the byte it writes, if any;
/// or the error of an unmatched loop delimiter. `input` is the byte read by
/// an input instruction, `None` at end of input; other instructions ignore it.
pub open spec fn step_spec(m: Machine, input: Option<u8>) -> Result<(Machine, Option<u8>), MalformedProgram> {
    let next = m.code_ptr + 1;
    match m.instruction() {
        Instruction::IncrementDataPointer => Ok((move_right(m).jump(next), None)),
        Instruction::DecrementDataPointer => Ok((move_left(m).jump(next), None)),
        Instruction::IncrementData => Ok(
            (m.set_current(((m.current() + 1) % 256) as u8).jump(next), None),
        ),
        Instruction::DecrementData => Ok(
            (m.set_current(((m.current() + 255) % 256) as u8).jump(next), None),
        ),
        Instruction::OutputData => Ok((m.jump(next), Some(m.current()))),
        Instruction::InputData => match input {
            Some(b) => Ok((m.set_current(b).jump(next), None)),
            None => Ok((m.jump(next), None)),
        },
        Instruction::JumpForward => if m.current() != 0 {
            Ok((m.jump(next), None))
        } else if exists|q: int| forward_match(m.program, m.code_ptr as int, q) {
            let q = choose|q: int| forward_match(m.program, m.code_ptr as int, q);
            Ok((m.jump((q + 1) as nat), None))
        } else {
            Err(MalformedProgram::UnmatchedJumpForward(m.code_ptr as usize))
        },
        Instruction::JumpBackward => if m.current() == 0 {
            Ok((m.jump(next), None))
        } else if exists|q: int| backward_match(m.program, m.code_ptr as int, q) {
            let q = choose|q: int| backward_match(m.program, m.code_ptr as int, q);
            Ok((m.jump((q + 1) as nat), None))
        } else {
            Err(MalformedProgram::UnmatchedJumpBackward(m.code_ptr as usize))
        },
    }
}

/// The byte an instruction at `m` reads from `input`, and the input left after it.
pub open spec fn take_input(m: Machine, input: Seq<u8>) -> (Option<u8>, Seq<u8>) {
    if m.instruction() == Instruction::InputData && input.len() > 0 {
        (Some(input[0]), input.drop_first())
    } else {
        (None, input)
    }
}

/// At most `fuel` steps of execution from `m`, reading bytes from `input`:
/// the machine reached, the input left unread and the bytes written; or the
/// error of an unmatched loop delimiter. Execution stops early when the
/// machine halts.
pub open spec fn run_spec(m: Machine, input: Seq<u8>, fuel: nat) -> Result<
    (Machine, Seq<u8>, Seq<u8>),
    MalformedProgram,
>
    decreases fuel,
{
    if fuel == 0 || !m.wf() || m.halted() {
        Ok((m, input, Seq::empty()))
    } else {
        let (byte, rest) = take_input(m, input);
        match step_spec(m, byte) {
            Err(e) => Err(e),
            Ok((m2, out)) => match run_spec(m2, rest, (fuel - 1) as nat) {
                Err(e) => Err(e),
                Ok((m3, rest2, outs)) => Ok(
                    (
                        m3,
                        rest2,
                        match out {
                            Some(b) => seq![b] + outs,
                            None => outs,
                        },
                    ),
                ),
            },
        }
    }
}

} // verus!
