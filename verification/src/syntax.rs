//! The parsed program representation: instructions and execution results.

use vstd::prelude::*;

verus! {

/// One instruction of the tape language.  A program is an ordered sequence of
/// instructions; loops nest to arbitrary depth.  `SetCell` is introduced by the
/// optimizer and assigns a constant to the current cell directly.
#[derive(Debug, PartialEq, Eq)]
pub enum Instruction {
    /// Add the delta to the byte at the current pointer, wrapping modulo 256.
    IncrementCell(i8),
    /// Add the delta to the pointer index.
    MovePointer(i32),
    /// Repeat the body while the current cell is nonzero.
    Loop(Vec<Instruction>),
    /// Emit the current cell's byte to the output sink.
    Write,
    /// Store one input byte into the current cell.
    Read,
    /// Assign a constant to the current cell.
    SetCell(u8),
}

/// How a run of a program ended.  Both execution strategies classify
/// identically for the same program and environment.
#[derive(Debug, Clone, Copy, PartialEq, Eq, Structural)]
pub enum ExecutionResult {
    Success,
    /// The pointer moved outside the tape bounds.
    Overflow,
    /// A read or write operation reported failure.
    IoFailure,
}

impl ExecutionResult {
    pub fn is_error(&self) -> (r: bool)
        ensures
            r == (*self != ExecutionResult::Success),
    {
        match self {
            ExecutionResult::Success => false,
            _ => true,
        }
    }
}

/// The number of nodes in one instruction, counting a loop as one node more
/// than its body.
pub open spec fn inst_size(i: Instruction) -> nat
    decreases i,
{
    match i {
        Instruction::Loop(body) => 1 + seq_size(body@),
        _ => 1,
    }
}

/// The number of nodes in an instruction sequence, padded by one per element
/// so that each element is strictly smaller than the whole.
pub open spec fn seq_size(p: Seq<Instruction>) -> nat
    decreases p,
{
    if p.len() == 0 {
        0
    } else {
        1 + inst_size(p[0]) + seq_size(p.drop_first())
    }
}

/// Every element of a sequence is strictly smaller than the sequence.
pub proof fn lemma_inst_size_lt(p: Seq<Instruction>, i: int)
    requires
        0 <= i < p.len(),
    ensures
        inst_size(p[i]) < seq_size(p),
    decreases p.len(),
{
    if i == 0 {
    } else {
        lemma_inst_size_lt(p.drop_first(), i - 1);
        assert(p.drop_first()[i - 1] == p[i]);
    }
}

} // verus!
