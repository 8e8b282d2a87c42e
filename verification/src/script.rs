//! A small stack machine for onboard scripts.
//!
//! Only the stack is implemented so far: `Push` pushes its operand, and every
//! other opcode takes the top value off the stack, if there is one.

use vstd::prelude::*;

verus! {

/// One instruction of a script.
#[derive(Clone, Copy, Debug, PartialEq, Eq, Structural)]
pub enum Opcode {
    /// Push a value on the stack.
    Push(i32),
    /// Pop a value from the stack.
    Pop,
    /// Read a variable and push it on the stack.
    Get(u8),
    /// Pop the top value and store it in a variable.
    Store(u8),
    /// Keep the top value and store it in a variable.
    Copy(u8),
    /// Duplicate a value of the stack; the operand is the offset from the top.
    Dup(u8),
    /// Addition.
    Add,
    /// Subtraction.
    Sub,
    /// Multiplication.
    Mul,
    /// Integer division.
    Div,
    /// Modulus.
    Mod,
    /// Unary negation.
    Neg,
    /// Logical and.
    And,
    /// Logical or.
    Or,
    /// Logical exclusive or.
    Xor,
    /// Unary logical not.
    Not,
    /// Equality test.
    Eql,
    /// Inequality test.
    Neq,
    /// Greater than or equal test.
    Gte,
    /// Less than or equal test.
    Lte,
    /// Greater than test.
    Gt,
    /// Less than test.
    Lt,
    /// Relative jump.
    Jump(i32),
    /// Pop a value and jump relative if it is true.
    IJump(i32),
}

/// The stack after `op` has run on `stack`.
pub open spec fn stack_after(stack: Seq<i32>, op: Opcode) -> Seq<i32> {
    match op {
        Opcode::Push(value) => stack.push(value),
        _ => if stack.len() > 0 {
            stack.drop_last()
        } else {
            stack
        },
    }
}

/// The state of a running script.
#[derive(Clone, Debug, PartialEq, Eq)]
pub struct State {
    /// The value stack; the top is the last element.
    pub stack: Vec<i32>,
    /// The variables.
    pub vars: Vec<i32>,
    /// The script.
    pub bytecode: Vec<Opcode>,
    /// The position of the next instruction.
    pub index: usize,
}

impl State {
    /// The state before the first instruction of `bytecode`: the stack and
    /// the variables are empty.
    pub fn new(bytecode: Vec<Opcode>) -> (state: State)
        ensures
            state.stack@ == Seq::<i32>::empty(),
            state.vars@ == Seq::<i32>::empty(),
            state.bytecode == bytecode,
            state.index == 0,
    {
        State { stack: Vec::new(), vars: Vec::new(), bytecode, index: 0 }
    }

    /// Runs the instruction at `index` and moves on to the next. The result
    /// tells whether an instruction is left to run.
    pub fn step(&mut self) -> (more: bool)
        requires
            old(self).index < old(self).bytecode@.len(),
        ensures
            final(self).stack@ == stack_after(
                old(self).stack@,
                old(self).bytecode@[old(self).index as int],
            ),
            final(self).index == old(self).index + 1,
            final(self).bytecode == old(self).bytecode,
            final(self).vars == old(self).vars,
            more == (final(self).index < final(self).bytecode@.len()),
    {
        let len: usize = self.bytecode.len();
        let op = self.bytecode[self.index];
        self.index = self.index + 1;
        match op {
            Opcode::Push(value) => {
                self.stack.push(value);
            },
            _ => {
                let top = self.stack.pop();
                assert(top is None ==> self.stack@ == old(self).stack@);
            },
        }
        self.index < len
    }
}

} // verus!
