//! The code generation driver: walks the instruction tree, producing both the
//! flat jump-target operations the verified machine executes and the x64
//! machine-code bytes for the same program, wrapped in an executable handle.

use vstd::prelude::*;

use crate::lowering::{
    flat_len_exec, flat_run, inst_flat_len, lemma_inst_flat_len_bound, lemma_lower_seq_len,
    lemma_seq_flat_len_bound, lower_inst, lower_seq, seq_flat_len, Flat, LowOp,
};
use crate::state::{wrap_add_exec, State};
use crate::syntax::{inst_size, lemma_inst_size_lt, seq_size, ExecutionResult, Instruction};
use crate::x64::{
    epilogue_bytes, lemma_x64_seq_len_bound, prologue_bytes, x64_seq_bytes, x64_seq_len,
    X64CodeGen,
};

verus! {

/// The largest program the driver accepts, counted in instruction-tree nodes.
/// It keeps every branch displacement of the generated code within a 32-bit
/// immediate and every buffer index within the machine word.
pub const MAX_PROGRAM_SIZE: u64 = 0x100_0000;

/// The bytes of a whole generated function: prologue, the program's body
/// assembled right after it, and the three-path epilogue, with the I/O-failure
/// exit at the third path.
pub open spec fn x64_program_bytes(p: Seq<Instruction>, waddr: u64, raddr: u64) -> Seq<u8> {
    prologue_bytes().add(
        x64_seq_bytes(p, 19, 19 + x64_seq_len(p) as int + 24, waddr, raddr),
    ).add(epilogue_bytes())
}

/// An executable program: the flat operations the verified machine runs, and
/// the x64 bytes of the same program for a native host to map and call.
pub struct Executable {
    pub ops: Vec<LowOp>,
    pub code: Vec<u8>,
}

impl Executable {
    /// Run the flat operations against a state, spending one unit of the step
    /// budget per operation.  The result is exactly the flat machine's: `Some`
    /// of the classification when it halts in the new state within the budget,
    /// `None` while it is still running after `steps` steps.
    pub fn run(&self, st: &mut State, steps: u64) -> (r: Option<ExecutionResult>)
        requires
            old(st)@.wf(),
        ensures
            final(st)@.wf(),
            match r {
                Some(res) => flat_run(self.ops@, 0, old(st)@, steps as nat) == Flat::Halted(
                    final(st)@,
                    res,
                ),
                None => exists|pc: int|
                    flat_run(self.ops@, 0, old(st)@, steps as nat) == Flat::Running(
                        pc,
                        final(st)@,
                    ),
            },
    {
        let ghost code = self.ops@;
        let ghost s0 = st@;
        let mut pc: usize = 0;
        let mut remaining: u64 = steps;
        loop
            invariant
                st@.wf(),
                old(st)@ == s0,
                code == self.ops@,
                remaining <= steps,
                flat_run(code, 0, s0, steps as nat) == flat_run(
                    code,
                    pc as int,
                    st@,
                    remaining as nat,
                ),
            decreases remaining,
        {
            if remaining == 0 {
                return None;
            }
            if pc >= self.ops.len() {
                return Some(ExecutionResult::Success);
            }
            let op = self.ops[pc];
            match op {
                LowOp::AddCell(d) => {
                    let c = st.tape[st.pointer];
                    let nc = wrap_add_exec(c, d);
                    st.tape.set(st.pointer, nc);
                    pc = pc + 1;
                },
                LowOp::SetConst(v) => {
                    st.tape.set(st.pointer, v);
                    pc = pc + 1;
                },
                LowOp::MovePtr(d) => {
                    let np: i128 = st.pointer as i128 + d as i128;
                    if 0 <= np && np < st.tape.len() as i128 {
                        st.pointer = np as usize;
                        pc = pc + 1;
                    } else {
                        return Some(ExecutionResult::Overflow);
                    }
                },
                LowOp::WriteByte => {
                    let b = st.tape[st.pointer];
                    let ok = st.write_byte(b);
                    if ok {
                        pc = pc + 1;
                    } else {
                        return Some(ExecutionResult::IoFailure);
                    }
                },
                LowOp::ReadByte => {
                    let rb = st.read_byte();
                    match rb {
                        Some(b) => {
                            st.tape.set(st.pointer, b);
                            pc = pc + 1;
                        },
                        None => {
                            return Some(ExecutionResult::IoFailure);
                        },
                    }
                },
                LowOp::JumpIfZero(t) => {
                    let c = st.tape[st.pointer];
                    if c == 0 {
                        pc = t;
                    } else {
                        pc = pc + 1;
                    }
                },
                LowOp::JumpIfNonzero(t) => {
                    let c = st.tape[st.pointer];
                    if c != 0 {
                        pc = t;
                    } else {
                        pc = pc + 1;
                    }
                },
            }
            remaining = remaining - 1;
        }
    }
}

/// The code generation driver, assembling for the x64 backend.
pub struct CodeGeneration {
    pub backend: X64CodeGen,
}

impl CodeGeneration {
    /// A driver over the x64 backend.
    pub fn x64() -> (r: CodeGeneration) {
        CodeGeneration { backend: X64CodeGen }
    }

    /// Generate an executable for the program.  `waddr` and `raddr` are the
    /// addresses of the host write and read routines baked into the native
    /// code.  The flat operations are exactly the program's lowering, and the
    /// bytes exactly its assembly.
    pub fn generate(&self, p: &Vec<Instruction>, waddr: u64, raddr: u64) -> (r: Executable)
        requires
            seq_size(p@) <= MAX_PROGRAM_SIZE,
        ensures
            r.ops@ == lower_seq(p@, 0),
            r.code@ == x64_program_bytes(p@, waddr, raddr),
    {
        proof {
            lemma_seq_flat_len_bound(p@);
            lemma_x64_seq_len_bound(p@);
        }
        let mut ops: Vec<LowOp> = Vec::new();
        emit_ops_seq(p, &mut ops);
        proof {
            assert(ops@ =~= lower_seq(p@, 0));
        }
        let mut code: Vec<u8> = Vec::new();
        let total = crate::x64::x64_len_exec(p);
        let io_exit: usize = 19 + (total as usize) + 24;
        self.backend.generate_prologue(&mut code);
        self.backend.generate_sequence(p, &mut code, io_exit, waddr, raddr);
        self.backend.generate_epilogue(&mut code);
        proof {
            assert(code@ =~= x64_program_bytes(p@, waddr, raddr));
        }
        Executable { ops, code }
    }
}

/// Append the lowering of a sequence to the flat operation buffer.
fn emit_ops_seq(p: &Vec<Instruction>, ops: &mut Vec<LowOp>)
    requires
        seq_size(p@) <= MAX_PROGRAM_SIZE,
        old(ops)@.len() + seq_flat_len(p@) <= 3 * MAX_PROGRAM_SIZE,
    ensures
        final(ops)@ == old(ops)@ + lower_seq(p@, old(ops)@.len() as int),
    decreases seq_size(p@), 1int,
{
    let ghost base = ops@.len() as int;
    let ghost pre = ops@;
    proof {
        assert(p@.take(0) =~= Seq::<Instruction>::empty());
        assert(p@.skip(0) =~= p@);
        assert(pre + lower_seq(p@.take(0), base) =~= pre);
        lemma_seq_flat_len_bound(p@);
    }
    let mut i: usize = 0;
    while i < p.len()
        invariant
            0 <= i <= p.len(),
            seq_size(p@) <= MAX_PROGRAM_SIZE,
            pre.len() + seq_flat_len(p@) <= 3 * MAX_PROGRAM_SIZE,
            pre == old(ops)@,
            base == pre.len() as int,
            ops@ == pre + lower_seq(p@.take(i as int), base),
            seq_flat_len(p@.take(i as int)) + seq_flat_len(p@.skip(i as int)) == seq_flat_len(p@),
        decreases p.len() - i,
    {
        proof {
            lemma_inst_size_lt(p@, i as int);
            lemma_lower_seq_len(p@.take(i as int), base);
            lemma_seq_flat_len_bound(p@);
            assert(p@.skip(i as int)[0] == p@[i as int]);
            assert(p@.skip(i as int).drop_first() =~= p@.skip(i as int + 1));
            assert(p@.take(i as int).push(p@[i as int]) =~= p@.take(i as int + 1));
            lemma_inst_flat_len_bound(p@[i as int]);
        }
        emit_ops_inst(&p[i], ops);
        proof {
            lemma_lower_seq_snoc(p@.take(i as int), p@[i as int], base);
            crate::lowering::lemma_seq_flat_len_snoc(p@.take(i as int), p@[i as int]);
            assert(ops@ =~= pre + lower_seq(p@.take(i as int + 1), base));
        }
        i = i + 1;
    }
    proof {
        assert(p@.take(i as int) =~= p@);
    }
}

/// Append the lowering of one instruction to the flat operation buffer.
fn emit_ops_inst(inst: &Instruction, ops: &mut Vec<LowOp>)
    requires
        inst_size(*inst) <= MAX_PROGRAM_SIZE,
        old(ops)@.len() + inst_flat_len(*inst) <= 3 * MAX_PROGRAM_SIZE,
    ensures
        final(ops)@ == old(ops)@ + lower_inst(*inst, old(ops)@.len() as int),
    decreases inst_size(*inst), 0int,
{
    let ghost base = ops@.len() as int;
    let ghost pre = ops@;
    match inst {
        Instruction::IncrementCell(d) => {
            ops.push(LowOp::AddCell(*d));
            proof {
                assert(ops@ =~= pre + lower_inst(*inst, base));
            }
        },
        Instruction::MovePointer(d) => {
            ops.push(LowOp::MovePtr(*d));
            proof {
                assert(ops@ =~= pre + lower_inst(*inst, base));
            }
        },
        Instruction::SetCell(v) => {
            ops.push(LowOp::SetConst(*v));
            proof {
                assert(ops@ =~= pre + lower_inst(*inst, base));
            }
        },
        Instruction::Write => {
            ops.push(LowOp::WriteByte);
            proof {
                assert(ops@ =~= pre + lower_inst(*inst, base));
            }
        },
        Instruction::Read => {
            ops.push(LowOp::ReadByte);
            proof {
                assert(ops@ =~= pre + lower_inst(*inst, base));
            }
        },
        Instruction::Loop(body) => {
            proof {
                lemma_seq_flat_len_bound(body@);
            }
            let bl = flat_len_exec(body);
            let target: usize = ops.len() + 2 + (bl as usize);
            let back: usize = ops.len() + 1;
            ops.push(LowOp::JumpIfZero(target));
            emit_ops_seq(body, ops);
            ops.push(LowOp::JumpIfNonzero(back));
            proof {
                lemma_lower_seq_len(body@, base + 1);
                assert(ops@ =~= pre + lower_inst(*inst, base));
            }
        },
    }
}

/// Appending one instruction to a sequence appends its lowering at the index
/// right after the sequence's lowering.
proof fn lemma_lower_seq_snoc(p: Seq<Instruction>, x: Instruction, base: int)
    ensures
        lower_seq(p.push(x), base) == lower_seq(p, base).add(
            lower_inst(x, base + seq_flat_len(p)),
        ),
    decreases p,
{
    if p.len() == 0 {
        assert(p.push(x)[0] == x);
        assert(p.push(x).drop_first() =~= Seq::<Instruction>::empty());
        assert(lower_seq(Seq::<Instruction>::empty(), base + inst_flat_len(x))
            =~= Seq::<LowOp>::empty());
        assert(lower_seq(p, base) =~= Seq::<LowOp>::empty());
        assert(lower_seq(p.push(x), base) =~= lower_seq(p, base).add(
            lower_inst(x, base + seq_flat_len(p)),
        ));
    } else {
        assert(p.push(x)[0] == p[0]);
        assert(p.push(x).drop_first() =~= p.drop_first().push(x));
        lemma_lower_seq_snoc(p.drop_first(), x, base + inst_flat_len(p[0]));
        assert(lower_seq(p.push(x), base) =~= lower_seq(p, base).add(
            lower_inst(x, base + seq_flat_len(p)),
        ));
    }
}

} // verus!
