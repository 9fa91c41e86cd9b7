use vstd::prelude::*;

use crate::instruction::Instruction;
use crate::machine::{
    backward_match, balance, forward_match, initial, lemma_backward_match_unique,
    lemma_forward_match_unique, step_spec, weight, Machine, MalformedProgram,
};

verus! {

/// `balance` peeled at its front.
proof fn lemma_balance_front(prog: Seq<Instruction>, lo: int, hi: int)
    requires
        lo < hi,
    ensures
        balance(prog, lo, hi) == weight(prog[lo]) + balance(prog, lo + 1, hi),
    decreases hi - lo,
{
    if lo + 1 < hi {
        lemma_balance_front(prog, lo, hi - 1);
    } else {
        assert(balance(prog, lo, lo) == 0);
        assert(balance(prog, lo + 1, hi) == 0);
    }
}

/// Scans forward from the loop start at `p` for its matching loop end.
fn find_forward_match(prog: &Vec<Instruction>, p: usize) -> (r: Option<usize>)
    requires
        p < prog@.len(),
        prog@[p as int] == Instruction::JumpForward,
    ensures
        match r {
            Some(q) => forward_match(prog@, p as int, q as int),
            None => forall|q: int| !forward_match(prog@, p as int, q),
        },
{
    let n = prog.len();
    let mut depth: usize = 1;
    let mut i: usize = p;
    assert(balance(prog@, p as int, p + 1) == 1) by {
        assert(balance(prog@, p as int, p as int) == 0);
    }
    while i < n - 1
        invariant
            n == prog@.len(),
            p <= i < n,
            prog@[p as int] == Instruction::JumpForward,
            1 <= depth <= i - p + 1,
            depth == balance(prog@, p as int, i + 1),
            forall|r: int| p < r <= i + 1 ==> #[trigger] balance(prog@, p as int, r) > 0,
        decreases prog@.len() - i,
    {
        i = i + 1;
        match prog[i] {
            Instruction::JumpForward => depth = depth + 1,
            Instruction::JumpBackward => depth = depth - 1,
            _ => {},
        }
        if depth == 0 {
            return Some(i);
        }
    }
    proof {
        assert forall|q: int| !forward_match(prog@, p as int, q) by {
            if forward_match(prog@, p as int, q) {
                assert(balance(prog@, p as int, q + 1) > 0);
            }
        }
    }
    None
}

/// Scans backward from the loop end at `p` for its matching loop start.
fn find_backward_match(prog: &Vec<Instruction>, p: usize) -> (r: Option<usize>)
    requires
        p < prog@.len(),
        prog@[p as int] == Instruction::JumpBackward,
    ensures
        match r {
            Some(q) => backward_match(prog@, p as int, q as int),
            None => forall|q: int| !backward_match(prog@, p as int, q),
        },
{
    let n = prog.len();
    let mut depth: usize = 1;
    let mut i: usize = p;
    proof {
        lemma_balance_front(prog@, p as int, p + 1);
    }
    while i > 0
        invariant
            n == prog@.len(),
            i <= p < n,
            1 <= depth <= p - i + 1,
            depth == -balance(prog@, i as int, p + 1),
            forall|r: int| i <= r <= p ==> #[trigger] balance(prog@, r, p + 1) < 0,
        decreases i,
    {
        i = i - 1;
        proof {
            lemma_balance_front(prog@, i as int, p + 1);
        }
        match prog[i] {
            Instruction::JumpForward => depth = depth - 1,
            Instruction::JumpBackward => depth = depth + 1,
            _ => {},
        }
        if depth == 0 {
            return Some(i);
        }
    }
    proof {
        assert forall|q: int| !backward_match(prog@, p as int, q) by {
            if backward_match(prog@, p as int, q) {
                assert(balance(prog@, 0, p + 1) < 0);
            }
        }
    }
    None
}

/// The interpreter: tape, data pointer, instruction pointer and the program it
/// runs, all owned by one value.
pub struct BrainfuckedState {
    data: Vec<u8>,
    data_ptr: usize,
    code_ptr: usize,
    instructions: Vec<Instruction>,
}

impl View for BrainfuckedState {
    type V = Machine;

    closed spec fn view(&self) -> Machine {
        Machine {
            tape: self.data@,
            data_ptr: self.data_ptr as nat,
            code_ptr: self.code_ptr as nat,
            program: self.instructions@,
        }
    }
}

impl BrainfuckedState {
    /// The engine is in a state that execution can go on from.
    pub open spec fn wf(&self) -> bool {
        self@.wf()
    }

    /// A fresh engine for a program: one zero cell, both pointers at zero.
    pub fn init(is: Vec<Instruction>) -> (r: BrainfuckedState)
        ensures
            r@ == initial(is@),
            r.wf(),
    {
        let data = vec![0u8];
        assert(data@ =~= seq![0u8]);
        BrainfuckedState { data, data_ptr: 0, code_ptr: 0, instructions: is }
    }

    /// The tape, cell zero first.
    pub fn tape(&self) -> (r: &[u8])
        ensures
            r@ == self@.tape,
    {
        self.data.as_slice()
    }

    /// The index of the cell under the data pointer.
    pub fn data_ptr(&self) -> (r: usize)
        ensures
            r == self@.data_ptr,
    {
        self.data_ptr
    }

    /// The index of the next instruction to execute.
    pub fn code_ptr(&self) -> (r: usize)
        ensures
            r == self@.code_ptr,
    {
        self.code_ptr
    }

    /// The value of the cell under the data pointer.
    pub fn current_cell(&self) -> (r: u8)
        requires
            self.wf(),
        ensures
            r == self@.current(),
    {
        self.data[self.data_ptr]
    }

    /// Whether the instruction pointer has run off the end of the program.
    pub fn is_halted(&self) -> (r: bool)
        ensures
            r == self@.halted(),
    {
        self.code_ptr >= self.instructions.len()
    }

    /// Whether the next step reads a byte of input.
    pub fn wants_input(&self) -> (r: bool)
        ensures
            r == (!self@.halted() && self@.instruction() == Instruction::InputData),
    {
        self.code_ptr < self.instructions.len() && self.instructions[self.code_ptr]
            == Instruction::InputData
    }

    /// Executes the instruction under the instruction pointer. `input` is the
    /// byte an input instruction reads (`None` at end of input). Returns the
    /// byte written by an output instruction, or the error of an unmatched
    /// loop delimiter, in which case the engine is left as it was. A halted
    /// engine stays as it is.
    pub fn step(&mut self, input: Option<u8>) -> (r: Result<Option<u8>, MalformedProgram>)
        requires
            old(self).wf(),
        ensures
            final(self).wf(),
            old(self)@.halted() ==> r == Ok::<Option<u8>, MalformedProgram>(None) && final(self)@
                == old(self)@,
            !old(self)@.halted() ==> match step_spec(old(self)@, input) {
                Ok((m, out)) => r == Ok::<Option<u8>, MalformedProgram>(out) && final(self)@ == m,
                Err(e) => r == Err::<Option<u8>, MalformedProgram>(e) && final(self)@ == old(self)@,
            },
    {
        let dp = self.data_ptr;
        let cp = self.code_ptr;
        if cp >= self.instructions.len() {
            return Ok(None);
        }
        let tape_len = self.data.len();
        let mut out: Option<u8> = None;
        match self.instructions[cp] {
            Instruction::IncrementDataPointer => {
                self.data_ptr = dp + 1;
                if self.data_ptr == tape_len {
                    self.data.push(0);
                }
            },
            Instruction::DecrementDataPointer => {
                if dp == 0 {
                    self.data.insert(0, 0);
                    assert(self.data@ =~= seq![0u8] + old(self).data@);
                } else {
                    self.data_ptr = dp - 1;
                }
            },
            Instruction::IncrementData => {
                let v = self.data[dp].wrapping_add(1);
                self.data.set(dp, v);
            },
            Instruction::DecrementData => {
                let v = self.data[dp].wrapping_sub(1);
                self.data.set(dp, v);
            },
            Instruction::OutputData => {
                out = Some(self.data[dp]);
            },
            Instruction::InputData => {
                match input {
                    Some(b) => self.data.set(dp, b),
                    None => {},
                }
            },
            Instruction::JumpForward => {
                if self.data[dp] == 0 {
                    match find_forward_match(&self.instructions, cp) {
                        Some(q) => {
                            proof {
                                let c = choose|q: int| forward_match(self@.program, cp as int, q);
                                lemma_forward_match_unique(self@.program, cp as int, q as int, c);
                            }
                            self.code_ptr = q;
                        },
                        None => return Err(MalformedProgram::UnmatchedJumpForward(cp)),
                    }
                }
            },
            Instruction::JumpBackward => {
                if self.data[dp] != 0 {
                    match find_backward_match(&self.instructions, cp) {
                        Some(q) => {
                            proof {
                                let c = choose|q: int| backward_match(self@.program, cp as int, q);
                                lemma_backward_match_unique(self@.program, cp as int, q as int, c);
                            }
                            self.code_ptr = q;
                        },
                        None => return Err(MalformedProgram::UnmatchedJumpBackward(cp)),
                    }
                }
            },
        }
        self.code_ptr = self.code_ptr + 1;
        Ok(out)
    }
}

} // verus!
