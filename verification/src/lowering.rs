//! Lowering: from the instruction tree to a flat sequence of low-level
//! operations with explicit jump targets, and the small-step machine that
//! executes such a sequence.
//!
//! A loop lowers to a forward conditional branch testing "current cell is zero"
//! that skips over the body, the body itself, and a backward conditional branch
//! returning to the first body operation while the cell is nonzero — two tests
//! per iteration and no counter.  Falling past the last operation is the
//! success exit; a move out of bounds or a failed read or write halts the
//! machine at that operation with its classification.

use vstd::prelude::*;

use crate::state::StateModel;
use crate::syntax::{inst_size, lemma_inst_size_lt, seq_size, ExecutionResult, Instruction};

verus! {

/// One flat operation.  Jump targets are absolute operation indices.
#[derive(Debug, Clone, Copy, PartialEq, Eq, Structural)]
pub enum LowOp {
    /// Add to the byte at the pointer, wrapping modulo 256.
    AddCell(i8),
    /// Add to the pointer index.
    MovePtr(i32),
    /// Assign a constant to the byte at the pointer.
    SetConst(u8),
    /// Emit the byte at the pointer to the output sink.
    WriteByte,
    /// Store one input byte at the pointer.
    ReadByte,
    /// Jump to the target if the current cell is zero.
    JumpIfZero(usize),
    /// Jump to the target if the current cell is nonzero.
    JumpIfNonzero(usize),
}

/// How many flat operations one instruction lowers to.
pub open spec fn inst_flat_len(i: Instruction) -> nat
    decreases i,
{
    match i {
        Instruction::Loop(body) => 2 + seq_flat_len(body@),
        _ => 1,
    }
}

/// How many flat operations a sequence lowers to.
pub open spec fn seq_flat_len(p: Seq<Instruction>) -> nat
    decreases p,
{
    if p.len() == 0 {
        0
    } else {
        inst_flat_len(p[0]) + seq_flat_len(p.drop_first())
    }
}

/// The flat code of one instruction placed at the given absolute index.
pub open spec fn lower_inst(i: Instruction, base: int) -> Seq<LowOp>
    decreases i,
{
    match i {
        Instruction::IncrementCell(d) => seq![LowOp::AddCell(d)],
        Instruction::MovePointer(d) => seq![LowOp::MovePtr(d)],
        Instruction::SetCell(v) => seq![LowOp::SetConst(v)],
        Instruction::Write => seq![LowOp::WriteByte],
        Instruction::Read => seq![LowOp::ReadByte],
        Instruction::Loop(body) => seq![
            LowOp::JumpIfZero((base + 2 + seq_flat_len(body@)) as usize),
        ].add(lower_seq(body@, base + 1)).add(
            seq![LowOp::JumpIfNonzero((base + 1) as usize)],
        ),
    }
}

/// The flat code of an instruction sequence placed at the given absolute index.
pub open spec fn lower_seq(p: Seq<Instruction>, base: int) -> Seq<LowOp>
    decreases p,
{
    if p.len() == 0 {
        Seq::empty()
    } else {
        lower_inst(p[0], base).add(lower_seq(p.drop_first(), base + inst_flat_len(p[0])))
    }
}

/// Lowered code is as long as the flat-length accounting says.
pub proof fn lemma_lower_inst_len(i: Instruction, base: int)
    ensures
        lower_inst(i, base).len() == inst_flat_len(i),
    decreases i,
{
    match i {
        Instruction::Loop(body) => {
            lemma_lower_seq_len(body@, base + 1);
        },
        _ => {},
    }
}

/// Lowered code is as long as the flat-length accounting says.
pub proof fn lemma_lower_seq_len(p: Seq<Instruction>, base: int)
    ensures
        lower_seq(p, base).len() == seq_flat_len(p),
    decreases p,
{
    if p.len() > 0 {
        lemma_lower_inst_len(p[0], base);
        lemma_lower_seq_len(p.drop_first(), base + inst_flat_len(p[0]));
    }
}

/// Appending one instruction adds its flat length.
pub proof fn lemma_seq_flat_len_snoc(p: Seq<Instruction>, x: Instruction)
    ensures
        seq_flat_len(p.push(x)) == seq_flat_len(p) + inst_flat_len(x),
    decreases p,
{
    if p.len() == 0 {
        assert(p.push(x)[0] == x);
        assert(p.push(x).drop_first() =~= Seq::<Instruction>::empty());
        assert(seq_flat_len(Seq::<Instruction>::empty()) == 0);
    } else {
        assert(p.push(x)[0] == p[0]);
        assert(p.push(x).drop_first() =~= p.drop_first().push(x));
        lemma_seq_flat_len_snoc(p.drop_first(), x);
    }
}

/// A flat sequence never lowers to more than twice its node count.
pub proof fn lemma_seq_flat_len_bound(p: Seq<Instruction>)
    ensures
        seq_flat_len(p) <= 2 * seq_size(p),
    decreases p,
{
    if p.len() > 0 {
        lemma_inst_flat_len_bound(p[0]);
        lemma_seq_flat_len_bound(p.drop_first());
    }
}

/// An instruction never lowers to more than twice its node count.
pub proof fn lemma_inst_flat_len_bound(i: Instruction)
    ensures
        inst_flat_len(i) <= 2 * inst_size(i),
    decreases i,
{
    match i {
        Instruction::Loop(body) => {
            lemma_seq_flat_len_bound(body@);
        },
        _ => {},
    }
}

/// The machine's configuration after a number of steps: still running at an
/// operation index, or halted with a classification.
pub enum Flat {
    Running(int, StateModel),
    Halted(StateModel, ExecutionResult),
}

/// One step of the flat machine.  Falling outside the code is the shared
/// success exit.
pub open spec fn flat_step(code: Seq<LowOp>, pc: int, st: StateModel) -> Flat {
    if pc < 0 || pc >= code.len() {
        Flat::Halted(st, ExecutionResult::Success)
    } else {
        match code[pc] {
            LowOp::AddCell(d) => Flat::Running(
                pc + 1,
                st.with_cell(crate::state::wrap_add(st.cell(), d)),
            ),
            LowOp::MovePtr(d) => {
                let np = st.pointer + d as int;
                if 0 <= np < st.tape.len() {
                    Flat::Running(pc + 1, StateModel { pointer: np, ..st })
                } else {
                    Flat::Halted(st, ExecutionResult::Overflow)
                }
            },
            LowOp::SetConst(v) => Flat::Running(pc + 1, st.with_cell(v)),
            LowOp::WriteByte => {
                if st.output.len() < st.sink_capacity {
                    Flat::Running(pc + 1, StateModel { output: st.output.push(st.cell()), ..st })
                } else {
                    Flat::Halted(st, ExecutionResult::IoFailure)
                }
            },
            LowOp::ReadByte => {
                if st.input_pos < st.input.len() {
                    Flat::Running(
                        pc + 1,
                        StateModel {
                            tape: st.tape.update(st.pointer, st.input[st.input_pos]),
                            input_pos: st.input_pos + 1,
                            ..st
                        },
                    )
                } else {
                    Flat::Halted(st, ExecutionResult::IoFailure)
                }
            },
            LowOp::JumpIfZero(t) => Flat::Running(
                if st.cell() == 0 {
                    t as int
                } else {
                    pc + 1
                },
                st,
            ),
            LowOp::JumpIfNonzero(t) => Flat::Running(
                if st.cell() != 0 {
                    t as int
                } else {
                    pc + 1
                },
                st,
            ),
        }
    }
}

/// The machine after a number of steps; a halted configuration is absorbing.
pub open spec fn flat_run(code: Seq<LowOp>, pc: int, st: StateModel, n: nat) -> Flat
    decreases n,
{
    if n == 0 {
        Flat::Running(pc, st)
    } else {
        match flat_step(code, pc, st) {
            Flat::Halted(s, r) => Flat::Halted(s, r),
            Flat::Running(pc1, s1) => flat_run(code, pc1, s1, (n - 1) as nat),
        }
    }
}

/// One step of the machine is one application of `flat_step`.
pub proof fn lemma_flat_run_one(code: Seq<LowOp>, pc: int, st: StateModel)
    ensures
        flat_run(code, pc, st, 1nat) == flat_step(code, pc, st),
{
    match flat_step(code, pc, st) {
        Flat::Halted(s, r) => {},
        Flat::Running(pc1, s1) => {
            assert(flat_run(code, pc1, s1, 0nat) == Flat::Running(pc1, s1));
        },
    }
}

/// Running `a + b` steps is running `a` steps and then `b` more.
pub proof fn lemma_flat_run_add(code: Seq<LowOp>, pc: int, st: StateModel, a: nat, b: nat)
    requires
        flat_run(code, pc, st, a) is Running,
    ensures
        flat_run(code, pc, st, (a + b) as nat) == {
            let c = flat_run(code, pc, st, a);
            flat_run(code, c->Running_0, c->Running_1, b)
        },
    decreases a,
{
    if a > 0 {
        match flat_step(code, pc, st) {
            Flat::Halted(s, r) => {},
            Flat::Running(pc1, s1) => {
                lemma_flat_run_add(code, pc1, s1, (a - 1) as nat, b);
            },
        }
    }
}

/// A halted run is stable under more steps.
pub proof fn lemma_flat_run_halt_mono(code: Seq<LowOp>, pc: int, st: StateModel, a: nat, b: nat)
    requires
        a <= b,
        flat_run(code, pc, st, a) is Halted,
    ensures
        flat_run(code, pc, st, b) == flat_run(code, pc, st, a),
    decreases a,
{
    if a == 0 {
    } else {
        match flat_step(code, pc, st) {
            Flat::Halted(s, r) => {},
            Flat::Running(pc1, s1) => {
                lemma_flat_run_halt_mono(code, pc1, s1, (a - 1) as nat, (b - 1) as nat);
            },
        }
    }
}

/// The flat machine is deterministic: two halting runs agree.
pub proof fn lemma_flat_run_deterministic(
    code: Seq<LowOp>,
    pc: int,
    st: StateModel,
    a: nat,
    b: nat,
)
    requires
        flat_run(code, pc, st, a) is Halted,
        flat_run(code, pc, st, b) is Halted,
    ensures
        flat_run(code, pc, st, a) == flat_run(code, pc, st, b),
{
    if a <= b {
        lemma_flat_run_halt_mono(code, pc, st, a, b);
    } else {
        lemma_flat_run_halt_mono(code, pc, st, b, a);
    }
}

/// The number of flat operations a sequence lowers to, computed executably.
pub fn flat_len_exec(p: &Vec<Instruction>) -> (n: u64)
    requires
        seq_size(p@) <= 0x1000_0000,
    ensures
        n == seq_flat_len(p@),
    decreases seq_size(p@), 1int,
{
    let mut n: u64 = 0;
    let mut i: usize = 0;
    proof {
        assert(p@.skip(0) =~= p@);
        lemma_seq_flat_len_bound(p@);
    }
    while i < p.len()
        invariant
            0 <= i <= p.len(),
            seq_size(p@) <= 0x1000_0000,
            n + seq_flat_len(p@.skip(i as int)) == seq_flat_len(p@),
            seq_flat_len(p@) <= 2 * seq_size(p@),
        decreases p.len() - i,
    {
        proof {
            lemma_inst_size_lt(p@, i as int);
            assert(p@.skip(i as int)[0] == p@[i as int]);
            assert(p@.skip(i as int).drop_first() =~= p@.skip(i as int + 1));
            lemma_seq_size_skip(p@, i as int);
            lemma_inst_flat_len_bound(p@[i as int]);
        }
        let k = inst_flat_len_exec(&p[i]);
        n = n + k;
        i = i + 1;
    }
    n
}

/// The number of flat operations one instruction lowers to.
fn inst_flat_len_exec(i: &Instruction) -> (n: u64)
    requires
        inst_size(*i) <= 0x1000_0000,
    ensures
        n == inst_flat_len(*i),
    decreases inst_size(*i), 0int,
{
    match i {
        Instruction::Loop(body) => {
            proof {
                lemma_seq_flat_len_bound(body@);
            }
            2 + flat_len_exec(body)
        },
        _ => 1,
    }
}

/// A sequence is at least as large as any of its tails.
pub proof fn lemma_seq_size_skip(p: Seq<Instruction>, i: int)
    requires
        0 <= i <= p.len(),
    ensures
        seq_size(p.skip(i)) <= seq_size(p),
    decreases i,
{
    if i > 0 {
        lemma_seq_size_skip(p.drop_first(), i - 1);
        assert(p.drop_first().skip(i - 1) =~= p.skip(i));
    } else {
        assert(p.skip(0) =~= p);
    }
}

} // verus!
