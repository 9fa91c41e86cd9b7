use vstd::prelude::*;

verus! {

/// One instruction of the language.
#[derive(Clone, Copy, Debug, PartialEq, Eq, Structural)]
pub enum Instruction {
    /// `>`: move the data pointer one cell to the right.
    IncrementDataPointer,
    /// `<`: move the data pointer one cell to the left.
    DecrementDataPointer,
    /// `+`: add one to the current cell, modulo 256.
    IncrementData,
    /// `-`: subtract one from the current cell, modulo 256.
    DecrementData,
    /// `.`: write the current cell.
    OutputData,
    /// `,`: read one byte into the current cell.
    InputData,
    /// `[`, `{` or `(`: skip past the matching loop end when the current cell is zero.
    JumpForward,
    /// `]`, `}` or `)`: go back to the matching loop start when the current cell is not zero.
    JumpBackward,
}

/// The instruction a source character stands for, if any.
pub open spec fn char_instruction(c: char) -> Option<Instruction> {
    if c == '>' {
        Some(Instruction::IncrementDataPointer)
    } else if c == '<' {
        Some(Instruction::DecrementDataPointer)
    } else if c == '+' {
        Some(Instruction::IncrementData)
    } else if c == '-' {
        Some(Instruction::DecrementData)
    } else if c == '.' {
        Some(Instruction::OutputData)
    } else if c == ',' {
        Some(Instruction::InputData)
    } else if c == '[' || c == '{' || c == '(' {
        Some(Instruction::JumpForward)
    } else if c == ']' || c == '}' || c == ')' {
        Some(Instruction::JumpBackward)
    } else {
        None
    }
}

/// The program a source text stands for: the instructions of its recognised
/// characters, in order; every other character is a comment.
pub open spec fn decode_spec(s: Seq<char>) -> Seq<Instruction>
    decreases s.len(),
{
    if s.len() == 0 {
        Seq::empty()
    } else {
        let rest = decode_spec(s.drop_last());
        match char_instruction(s.last()) {
            Some(i) => rest.push(i),
            None => rest,
        }
    }
}

impl Instruction {
    /// Maps one source character to its instruction; `None` for a comment character.
    pub fn from_char(c: char) -> (r: Option<Instruction>)
        ensures
            r == char_instruction(c),
    {
        match c {
            '>' => Some(Instruction::IncrementDataPointer),
            '<' => Some(Instruction::DecrementDataPointer),
            '+' => Some(Instruction::IncrementData),
            '-' => Some(Instruction::DecrementData),
            '.' => Some(Instruction::OutputData),
            ',' => Some(Instruction::InputData),
            '[' | '{' | '(' => Some(Instruction::JumpForward),
            ']' | '}' | ')' => Some(Instruction::JumpBackward),
            _ => None,
        }
    }
}

/// Decodes a source text into its program, dropping unrecognised characters.
pub fn decode(source: &str) -> (r: Vec<Instruction>)
    ensures
        r@ == decode_spec(source@),
{
    let mut out: Vec<Instruction> = Vec::new();
    for c in it: source.chars()
        invariant
            it.seq() == source@,
            out@ == decode_spec(source@.take(it.index() as int)),
    {
        proof {
            let pre = source@.take(it.index() as int);
            let next = source@.take(it.index() + 1);
            assert(next.drop_last() == pre);
            assert(next.last() == c);
        }
        match Instruction::from_char(c) {
            Some(i) => out.push(i),
            None => {},
        }
    }
    proof {
        assert(source@.take(source@.len() as int) == source@);
    }
    out
}

} // verus!
