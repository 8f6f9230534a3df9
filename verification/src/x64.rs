//! The x64 code generation backend: emits the machine-code bytes for each
//! instruction into a growing buffer.
//!
//! Calling convention of the generated function: the tape pointer arrives in
//! rdx and must survive calls into the host I/O routines, whose addresses are
//! baked into the code as 64-bit immediates.  The prologue reserves stack space
//! and persists the incoming argument registers to fixed stack slots; every
//! external call spills rdx beside them and restores all four registers
//! afterwards, because the host routine may clobber any argument register.  The
//! epilogue is three exit paths sharing one tear-down sequence, returning 0 for
//! success, 1 for overflow and 2 for an I/O failure in rax; an I/O call that
//! reports failure jumps to the third path.  Every contract states the exact
//! bytes appended, so the emitted code is pinned byte for byte.

use vstd::prelude::*;

use crate::syntax::{inst_size, lemma_inst_size_lt, seq_size, Instruction};

verus! {

/// The four bytes of a 32-bit immediate, least-significant first.
pub open spec fn le32(x: u32) -> Seq<u8> {
    seq![
        (x & 0xff) as u8,
        ((x >> 8) & 0xff) as u8,
        ((x >> 16) & 0xff) as u8,
        ((x >> 24) & 0xff) as u8,
    ]
}

/// The eight bytes of a 64-bit immediate, least-significant first.
pub open spec fn le64(x: u64) -> Seq<u8> {
    seq![
        (x & 0xff) as u8,
        ((x >> 8) & 0xff) as u8,
        ((x >> 16) & 0xff) as u8,
        ((x >> 24) & 0xff) as u8,
        ((x >> 32) & 0xff) as u8,
        ((x >> 40) & 0xff) as u8,
        ((x >> 48) & 0xff) as u8,
        ((x >> 56) & 0xff) as u8,
    ]
}

/// `sub rsp, 0x28`, then spills of rcx, r8 and r9 to the fixed stack slots.
pub open spec fn prologue_bytes() -> Seq<u8> {
    seq![
        0x48u8, 0x83, 0xec, 0x28,
        0x48, 0x89, 0x4c, 0x24, 0x30,
        0x4c, 0x89, 0x44, 0x24, 0x40,
        0x4c, 0x89, 0x4c, 0x24, 0x48,
    ]
}

/// `mov rax, code; add rsp, 0x28; ret`: one exit path of the epilogue.
pub open spec fn exit_block_bytes(code: u32) -> Seq<u8> {
    seq![0x48u8, 0xc7, 0xc0].add(le32(code)).add(seq![0x48u8, 0x83, 0xc4, 0x28, 0xc3])
}

/// The three exit paths: success (0), overflow (1), I/O failure (2).
pub open spec fn epilogue_bytes() -> Seq<u8> {
    exit_block_bytes(0).add(exit_block_bytes(1)).add(exit_block_bytes(2))
}

/// `add BYTE [rdx], delta`.
pub open spec fn cell_inc_bytes(d: i8) -> Seq<u8> {
    seq![0x80u8, 0x02, d as u8]
}

/// `add rdx, delta`.
pub open spec fn ptr_inc_bytes(d: i32) -> Seq<u8> {
    seq![0x48u8, 0x81, 0xc2].add(le32(d as u32))
}

/// `mov BYTE [rdx], value`.
pub open spec fn set_cell_bytes(v: u8) -> Seq<u8> {
    seq![0xc6u8, 0x02, v]
}

/// `cmp BYTE [rdx], 0`.
pub open spec fn cmp_cell_bytes() -> Seq<u8> {
    seq![0x80u8, 0x3a, 0x00]
}

/// Spill rdx, load the routine's address into rax, `call rax`, then restore
/// rcx, rdx, r8 and r9 from their stack slots.
pub open spec fn extern_call_bytes(addr: u64) -> Seq<u8> {
    seq![0x48u8, 0x89, 0x54, 0x24, 0x38, 0x48, 0xb8].add(le64(addr)).add(
        seq![
            0xffu8, 0xd0,
            0x48, 0x8b, 0x4c, 0x24, 0x30,
            0x48, 0x8b, 0x54, 0x24, 0x38,
            0x4c, 0x8b, 0x44, 0x24, 0x40,
            0x4c, 0x8b, 0x4c, 0x24, 0x48,
        ],
    )
}

/// How many bytes one instruction assembles to.
pub open spec fn x64_inst_len(i: Instruction) -> nat
    decreases i,
{
    match i {
        Instruction::IncrementCell(_) => 3,
        Instruction::MovePointer(_) => 7,
        Instruction::SetCell(_) => 3,
        Instruction::Write => 45,
        Instruction::Read => 45,
        Instruction::Loop(body) => 18 + x64_seq_len(body@),
    }
}

/// How many bytes an instruction sequence assembles to.
pub open spec fn x64_seq_len(p: Seq<Instruction>) -> nat
    decreases p,
{
    if p.len() == 0 {
        0
    } else {
        x64_inst_len(p[0]) + x64_seq_len(p.drop_first())
    }
}

/// An instruction assembles to at most 45 bytes per node.
pub proof fn lemma_x64_inst_len_bound(i: Instruction)
    ensures
        x64_inst_len(i) <= 45 * inst_size(i),
    decreases i,
{
    match i {
        Instruction::Loop(body) => {
            lemma_x64_seq_len_bound(body@);
        },
        _ => {},
    }
}

/// A sequence assembles to at most 45 bytes per node.
pub proof fn lemma_x64_seq_len_bound(p: Seq<Instruction>)
    ensures
        x64_seq_len(p) <= 45 * seq_size(p),
    decreases p,
{
    if p.len() > 0 {
        lemma_x64_inst_len_bound(p[0]);
        lemma_x64_seq_len_bound(p.drop_first());
    }
}

/// The bytes of one instruction assembled at absolute offset `pos`, where
/// `io_exit` is the absolute offset of the I/O-failure exit path and `waddr`
/// and `raddr` are the host write and read routines.  Branch displacements are
/// relative to the end of the branch instruction, as the hardware takes them.
pub open spec fn x64_inst_bytes(i: Instruction, pos: int, io_exit: int, waddr: u64, raddr: u64)
    -> Seq<u8>
    decreases i,
{
    match i {
        Instruction::IncrementCell(d) => cell_inc_bytes(d),
        Instruction::MovePointer(d) => ptr_inc_bytes(d),
        Instruction::SetCell(v) => set_cell_bytes(v),
        Instruction::Write => extern_call_bytes(waddr).add(seq![0x3cu8, 0x00, 0x0f, 0x85]).add(
            le32((io_exit - (pos + 45)) as u32),
        ),
        Instruction::Read => extern_call_bytes(raddr).add(seq![0x3cu8, 0x00, 0x0f, 0x85]).add(
            le32((io_exit - (pos + 45)) as u32),
        ),
        Instruction::Loop(body) => {
            let bl = x64_seq_len(body@);
            cmp_cell_bytes().add(seq![0x0fu8, 0x84]).add(le32((bl + 9) as u32)).add(
                x64_seq_bytes(body@, pos + 9, io_exit, waddr, raddr),
            ).add(cmp_cell_bytes()).add(seq![0x0fu8, 0x85]).add(le32((-9 - bl) as u32))
        },
    }
}

/// The bytes of an instruction sequence assembled at absolute offset `pos`.
pub open spec fn x64_seq_bytes(p: Seq<Instruction>, pos: int, io_exit: int, waddr: u64, raddr: u64)
    -> Seq<u8>
    decreases p,
{
    if p.len() == 0 {
        Seq::empty()
    } else {
        x64_inst_bytes(p[0], pos, io_exit, waddr, raddr).add(
            x64_seq_bytes(p.drop_first(), pos + x64_inst_len(p[0]), io_exit, waddr, raddr),
        )
    }
}

/// Assembled code is as long as the length accounting says.
pub proof fn lemma_x64_inst_bytes_len(i: Instruction, pos: int, io_exit: int, waddr: u64, raddr: u64)
    ensures
        x64_inst_bytes(i, pos, io_exit, waddr, raddr).len() == x64_inst_len(i),
    decreases i,
{
    match i {
        Instruction::Loop(body) => {
            lemma_x64_seq_bytes_len(body@, pos + 9, io_exit, waddr, raddr);
        },
        _ => {},
    }
}

/// Assembled code is as long as the length accounting says.
pub proof fn lemma_x64_seq_bytes_len(
    p: Seq<Instruction>,
    pos: int,
    io_exit: int,
    waddr: u64,
    raddr: u64,
)
    ensures
        x64_seq_bytes(p, pos, io_exit, waddr, raddr).len() == x64_seq_len(p),
    decreases p,
{
    if p.len() > 0 {
        lemma_x64_inst_bytes_len(p[0], pos, io_exit, waddr, raddr);
        lemma_x64_seq_bytes_len(
            p.drop_first(),
            pos + x64_inst_len(p[0]),
            io_exit,
            waddr,
            raddr,
        );
    }
}

/// Appending one instruction adds its assembled length.
pub proof fn lemma_x64_seq_len_snoc(p: Seq<Instruction>, x: Instruction)
    ensures
        x64_seq_len(p.push(x)) == x64_seq_len(p) + x64_inst_len(x),
    decreases p,
{
    if p.len() == 0 {
        assert(p.push(x)[0] == x);
        assert(p.push(x).drop_first() =~= Seq::<Instruction>::empty());
        assert(x64_seq_len(Seq::<Instruction>::empty()) == 0);
    } else {
        assert(p.push(x)[0] == p[0]);
        assert(p.push(x).drop_first() =~= p.drop_first().push(x));
        lemma_x64_seq_len_snoc(p.drop_first(), x);
    }
}

/// Appending one instruction to a sequence appends its bytes at the position
/// right after the sequence's bytes.
pub proof fn lemma_x64_seq_bytes_snoc(
    p: Seq<Instruction>,
    x: Instruction,
    pos: int,
    io_exit: int,
    waddr: u64,
    raddr: u64,
)
    ensures
        x64_seq_bytes(p.push(x), pos, io_exit, waddr, raddr) == x64_seq_bytes(
            p,
            pos,
            io_exit,
            waddr,
            raddr,
        ).add(x64_inst_bytes(x, pos + x64_seq_len(p), io_exit, waddr, raddr)),
    decreases p,
{
    if p.len() == 0 {
        assert(p.push(x)[0] == x);
        assert(p.push(x).drop_first() =~= Seq::<Instruction>::empty());
        assert(x64_seq_bytes(Seq::<Instruction>::empty(), pos + x64_inst_len(x), io_exit, waddr, raddr)
            =~= Seq::<u8>::empty());
        assert(x64_seq_bytes(p, pos, io_exit, waddr, raddr) =~= Seq::<u8>::empty());
        assert(x64_seq_bytes(p.push(x), pos, io_exit, waddr, raddr) =~= x64_seq_bytes(
            p,
            pos,
            io_exit,
            waddr,
            raddr,
        ).add(x64_inst_bytes(x, pos + x64_seq_len(p), io_exit, waddr, raddr)));
    } else {
        assert(p.push(x)[0] == p[0]);
        assert(p.push(x).drop_first() =~= p.drop_first().push(x));
        lemma_x64_seq_bytes_snoc(
            p.drop_first(),
            x,
            pos + x64_inst_len(p[0]),
            io_exit,
            waddr,
            raddr,
        );
        assert(x64_seq_bytes(p.push(x), pos, io_exit, waddr, raddr) =~= x64_seq_bytes(
            p,
            pos,
            io_exit,
            waddr,
            raddr,
        ).add(x64_inst_bytes(x, pos + x64_seq_len(p), io_exit, waddr, raddr)));
    }
}

/// The x64 backend.
pub struct X64CodeGen;

impl X64CodeGen {
    /// Emit the entry sequence: establish the stack frame and persist the
    /// incoming argument registers so they survive calls into host routines.
    /// Returns the entry offset.
    pub fn generate_prologue(&self, ops: &mut Vec<u8>) -> (start: usize)
        ensures
            final(ops)@ == old(ops)@ + prologue_bytes(),
            start == old(ops)@.len(),
    {
        let start = ops.len();
        ops.push(0x48);
        ops.push(0x83);
        ops.push(0xec);
        ops.push(0x28);
        ops.push(0x48);
        ops.push(0x89);
        ops.push(0x4c);
        ops.push(0x24);
        ops.push(0x30);
        ops.push(0x4c);
        ops.push(0x89);
        ops.push(0x44);
        ops.push(0x24);
        ops.push(0x40);
        ops.push(0x4c);
        ops.push(0x89);
        ops.push(0x4c);
        ops.push(0x24);
        ops.push(0x48);
        proof {
            assert(ops@ =~= old(ops)@ + prologue_bytes());
        }
        start
    }

    /// Emit the three exit paths sharing one tear-down sequence: success falls
    /// through with 0, overflow returns 1, an I/O failure returns 2.
    pub fn generate_epilogue(&self, ops: &mut Vec<u8>)
        ensures
            final(ops)@ == old(ops)@ + epilogue_bytes(),
    {
        let ghost pre = ops@;
        emit_exit_block(ops, 0);
        emit_exit_block(ops, 1);
        emit_exit_block(ops, 2);
        proof {
            assert(ops@ =~= pre + epilogue_bytes());
        }
    }

    /// Emit `add BYTE [rdx], delta`: add to the byte the tape pointer
    /// addresses, with 8-bit wraparound as the hardware's natural behaviour.
    pub fn generate_cell_value_increment(&self, ops: &mut Vec<u8>, value: i8)
        ensures
            final(ops)@ == old(ops)@ + cell_inc_bytes(value),
    {
        ops.push(0x80);
        ops.push(0x02);
        ops.push(#[verifier::truncate] (value as u8));
        proof {
            assert(ops@ =~= old(ops)@ + cell_inc_bytes(value));
        }
    }

    /// Emit `add rdx, delta`: move the tape pointer itself.
    pub fn generate_pointer_increment(&self, ops: &mut Vec<u8>, value: i32)
        ensures
            final(ops)@ == old(ops)@ + ptr_inc_bytes(value),
    {
        let ghost pre = ops@;
        ops.push(0x48);
        ops.push(0x81);
        ops.push(0xc2);
        push_le32(ops, #[verifier::truncate] (value as u32));
        proof {
            assert(ops@ =~= pre + ptr_inc_bytes(value));
        }
    }

    /// Emit `mov BYTE [rdx], value`: assign a constant to the current cell.
    pub fn generate_set_cell(&self, ops: &mut Vec<u8>, value: u8)
        ensures
            final(ops)@ == old(ops)@ + set_cell_bytes(value),
    {
        ops.push(0xc6);
        ops.push(0x02);
        ops.push(value);
        proof {
            assert(ops@ =~= old(ops)@ + set_cell_bytes(value));
        }
    }

    /// Emit the shared calling-convention bookkeeping around an external call:
    /// spill rdx, load the target address into rax, call it indirectly, and
    /// restore the spilled argument registers from their stack slots.
    pub fn generate_extern_call(ops: &mut Vec<u8>, addr: u64)
        ensures
            final(ops)@ == old(ops)@ + extern_call_bytes(addr),
    {
        let ghost pre = ops@;
        ops.push(0x48);
        ops.push(0x89);
        ops.push(0x54);
        ops.push(0x24);
        ops.push(0x38);
        ops.push(0x48);
        ops.push(0xb8);
        push_le64(ops, addr);
        ops.push(0xff);
        ops.push(0xd0);
        ops.push(0x48);
        ops.push(0x8b);
        ops.push(0x4c);
        ops.push(0x24);
        ops.push(0x30);
        ops.push(0x48);
        ops.push(0x8b);
        ops.push(0x54);
        ops.push(0x24);
        ops.push(0x38);
        ops.push(0x4c);
        ops.push(0x8b);
        ops.push(0x44);
        ops.push(0x24);
        ops.push(0x40);
        ops.push(0x4c);
        ops.push(0x8b);
        ops.push(0x4c);
        ops.push(0x24);
        ops.push(0x48);
        proof {
            assert(ops@ =~= pre + extern_call_bytes(addr));
        }
    }

    /// Emit a call to the host write routine, then test the returned status
    /// flag and jump to the I/O-failure exit if it is nonzero.
    pub fn generate_write(&self, ops: &mut Vec<u8>, io_exit: usize, waddr: u64)
        ensures
            final(ops)@ == old(ops)@ + x64_inst_bytes(
                Instruction::Write,
                old(ops)@.len() as int,
                io_exit as int,
                waddr,
                0,
            ),
    {
        let ghost pre = ops@;
        Self::generate_extern_call(ops, waddr);
        emit_io_check(ops, io_exit);
        proof {
            assert(ops@ =~= pre + x64_inst_bytes(
                Instruction::Write,
                pre.len() as int,
                io_exit as int,
                waddr,
                0,
            ));
        }
    }

    /// Emit a call to the host read routine, then test the returned status
    /// flag and jump to the I/O-failure exit if it is nonzero.
    pub fn generate_read(&self, ops: &mut Vec<u8>, io_exit: usize, raddr: u64)
        ensures
            final(ops)@ == old(ops)@ + x64_inst_bytes(
                Instruction::Read,
                old(ops)@.len() as int,
                io_exit as int,
                0,
                raddr,
            ),
    {
        let ghost pre = ops@;
        Self::generate_extern_call(ops, raddr);
        emit_io_check(ops, io_exit);
        proof {
            assert(ops@ =~= pre + x64_inst_bytes(
                Instruction::Read,
                pre.len() as int,
                io_exit as int,
                0,
                raddr,
            ));
        }
    }

    /// Walk an instruction sequence, emitting each instruction's code in order.
    pub fn generate_sequence(
        &self,
        p: &Vec<Instruction>,
        code: &mut Vec<u8>,
        io_exit: usize,
        waddr: u64,
        raddr: u64,
    )
        requires
            seq_size(p@) <= crate::codegen::MAX_PROGRAM_SIZE,
            old(code)@.len() + x64_seq_len(p@) <= 46 * crate::codegen::MAX_PROGRAM_SIZE,
        ensures
            final(code)@ == old(code)@ + x64_seq_bytes(
                p@,
                old(code)@.len() as int,
                io_exit as int,
                waddr,
                raddr,
            ),
        decreases seq_size(p@), 2int,
    {
        let ghost base = code@.len() as int;
        let ghost pre = code@;
        proof {
            assert(p@.take(0) =~= Seq::<Instruction>::empty());
            assert(p@.skip(0) =~= p@);
            assert(pre + x64_seq_bytes(p@.take(0), base, io_exit as int, waddr, raddr) =~= pre);
            lemma_x64_seq_len_bound(p@);
        }
        let mut i: usize = 0;
        while i < p.len()
            invariant
                0 <= i <= p.len(),
                seq_size(p@) <= crate::codegen::MAX_PROGRAM_SIZE,
                pre.len() + x64_seq_len(p@) <= 46 * crate::codegen::MAX_PROGRAM_SIZE,
                pre == old(code)@,
                base == pre.len() as int,
                code@ == pre + x64_seq_bytes(p@.take(i as int), base, io_exit as int, waddr, raddr),
                x64_seq_len(p@.take(i as int)) + x64_seq_len(p@.skip(i as int)) == x64_seq_len(p@),
            decreases p.len() - i,
        {
            proof {
                lemma_inst_size_lt(p@, i as int);
                lemma_x64_seq_bytes_len(p@.take(i as int), base, io_exit as int, waddr, raddr);
                assert(p@.skip(i as int)[0] == p@[i as int]);
                assert(p@.skip(i as int).drop_first() =~= p@.skip(i as int + 1));
                assert(p@.take(i as int).push(p@[i as int]) =~= p@.take(i as int + 1));
                lemma_x64_inst_len_bound(p@[i as int]);
            }
            self.generate_instruction(&p[i], code, io_exit, waddr, raddr);
            proof {
                lemma_x64_seq_bytes_snoc(
                    p@.take(i as int),
                    p@[i as int],
                    base,
                    io_exit as int,
                    waddr,
                    raddr,
                );
                lemma_x64_seq_len_snoc(p@.take(i as int), p@[i as int]);
                assert(code@ =~= pre + x64_seq_bytes(
                    p@.take(i as int + 1),
                    base,
                    io_exit as int,
                    waddr,
                    raddr,
                ));
            }
            i = i + 1;
        }
        proof {
            assert(p@.take(i as int) =~= p@);
        }
    }

    /// Dispatch one instruction to its emitter.
    pub fn generate_instruction(
        &self,
        inst: &Instruction,
        code: &mut Vec<u8>,
        io_exit: usize,
        waddr: u64,
        raddr: u64,
    )
        requires
            inst_size(*inst) <= crate::codegen::MAX_PROGRAM_SIZE,
            old(code)@.len() + x64_inst_len(*inst) <= 46 * crate::codegen::MAX_PROGRAM_SIZE,
        ensures
            final(code)@ == old(code)@ + x64_inst_bytes(
                *inst,
                old(code)@.len() as int,
                io_exit as int,
                waddr,
                raddr,
            ),
        decreases inst_size(*inst), 1int,
    {
        let ghost base = code@.len() as int;
        let ghost pre = code@;
        match inst {
            Instruction::IncrementCell(d) => {
                self.generate_cell_value_increment(code, *d);
            },
            Instruction::MovePointer(d) => {
                self.generate_pointer_increment(code, *d);
            },
            Instruction::SetCell(v) => {
                self.generate_set_cell(code, *v);
            },
            Instruction::Write => {
                self.generate_write(code, io_exit, waddr);
                proof {
                    assert(code@ =~= pre + x64_inst_bytes(
                        *inst,
                        base,
                        io_exit as int,
                        waddr,
                        raddr,
                    ));
                }
            },
            Instruction::Read => {
                self.generate_read(code, io_exit, raddr);
                proof {
                    assert(code@ =~= pre + x64_inst_bytes(
                        *inst,
                        base,
                        io_exit as int,
                        waddr,
                        raddr,
                    ));
                }
            },
            Instruction::Loop(body) => {
                self.generate_loop(body, code, io_exit, waddr, raddr);
                proof {
                    assert(code@ =~= pre + x64_inst_bytes(
                        *inst,
                        base,
                        io_exit as int,
                        waddr,
                        raddr,
                    ));
                }
            },
        }
    }

    /// Emit a loop: a forward conditional branch testing "current cell is zero"
    /// that skips over the body, the recursively generated body, and a second
    /// test with a backward branch to the first body byte while nonzero — two
    /// comparisons per iteration and no counter.
    pub fn generate_loop(
        &self,
        body: &Vec<Instruction>,
        code: &mut Vec<u8>,
        io_exit: usize,
        waddr: u64,
        raddr: u64,
    )
        requires
            inst_size(Instruction::Loop(*body)) <= crate::codegen::MAX_PROGRAM_SIZE,
            old(code)@.len() + x64_inst_len(Instruction::Loop(*body)) <= 46
                * crate::codegen::MAX_PROGRAM_SIZE,
        ensures
            final(code)@ == old(code)@ + x64_inst_bytes(
                Instruction::Loop(*body),
                old(code)@.len() as int,
                io_exit as int,
                waddr,
                raddr,
            ),
        decreases inst_size(Instruction::Loop(*body)), 0int,
    {
        let ghost base = code@.len() as int;
        let ghost pre = code@;
        let ghost lv = Instruction::Loop(*body);
        proof {
            lemma_x64_seq_len_bound(body@);
        }
        let bl = x64_len_exec(body);
        // Forward branch: skip the body and the trailing test on zero.
        code.push(0x80);
        code.push(0x3a);
        code.push(0x00);
        code.push(0x0f);
        code.push(0x84);
        push_le32(code, #[verifier::truncate] ((bl + 9) as u32));
        self.generate_sequence(body, code, io_exit, waddr, raddr);
        // Backward branch: return to the first body byte while nonzero.
        code.push(0x80);
        code.push(0x3a);
        code.push(0x00);
        code.push(0x0f);
        code.push(0x85);
        let rel: i128 = -9 - (bl as i128);
        push_le32(code, #[verifier::truncate] (rel as u32));
        proof {
            assert((rel as u32) == ((-9 - x64_seq_len(body@)) as u32));
            assert(((bl + 9) as u32) == ((x64_seq_len(body@) + 9) as u32));
            assert(code@ =~= pre + x64_inst_bytes(lv, base, io_exit as int, waddr, raddr));
        }
    }
}

/// Emit one exit path: `mov rax, code; add rsp, 0x28; ret`.
fn emit_exit_block(ops: &mut Vec<u8>, code: u32)
    ensures
        final(ops)@ == old(ops)@ + exit_block_bytes(code),
{
    let ghost pre = ops@;
    ops.push(0x48);
    ops.push(0xc7);
    ops.push(0xc0);
    push_le32(ops, code);
    ops.push(0x48);
    ops.push(0x83);
    ops.push(0xc4);
    ops.push(0x28);
    ops.push(0xc3);
    proof {
        assert(ops@ =~= pre + exit_block_bytes(code));
    }
}

/// Emit `cmp al, 0; jnz io_exit`: test the status flag a host routine
/// returned and branch to the I/O-failure exit path on failure.
fn emit_io_check(ops: &mut Vec<u8>, io_exit: usize)
    ensures
        final(ops)@ == old(ops)@ + seq![0x3cu8, 0x00, 0x0f, 0x85] + le32(
            (io_exit as int - (old(ops)@.len() + 8)) as u32,
        ),
{
    let ghost pre = ops@;
    ops.push(0x3c);
    ops.push(0x00);
    ops.push(0x0f);
    ops.push(0x85);
    let rel: i128 = io_exit as i128 - (ops.len() as i128 + 4);
    push_le32(ops, #[verifier::truncate] (rel as u32));
    proof {
        assert((rel as u32) == ((io_exit as int - (pre.len() + 8)) as u32));
        assert(ops@ =~= pre + seq![0x3cu8, 0x00, 0x0f, 0x85] + le32(
            (io_exit as int - (pre.len() + 8)) as u32,
        ));
    }
}

/// Append a 32-bit immediate, least-significant byte first.
pub(crate) fn push_le32(ops: &mut Vec<u8>, x: u32)
    ensures
        final(ops)@ == old(ops)@ + le32(x),
{
    ops.push(#[verifier::truncate] ((x & 0xff) as u8));
    ops.push(#[verifier::truncate] (((x >> 8) & 0xff) as u8));
    ops.push(#[verifier::truncate] (((x >> 16) & 0xff) as u8));
    ops.push(#[verifier::truncate] (((x >> 24) & 0xff) as u8));
    proof {
        assert(ops@ =~= old(ops)@ + le32(x));
    }
}

/// Append a 64-bit immediate, least-significant byte first.
fn push_le64(ops: &mut Vec<u8>, x: u64)
    ensures
        final(ops)@ == old(ops)@ + le64(x),
{
    ops.push(#[verifier::truncate] ((x & 0xff) as u8));
    ops.push(#[verifier::truncate] (((x >> 8) & 0xff) as u8));
    ops.push(#[verifier::truncate] (((x >> 16) & 0xff) as u8));
    ops.push(#[verifier::truncate] (((x >> 24) & 0xff) as u8));
    ops.push(#[verifier::truncate] (((x >> 32) & 0xff) as u8));
    ops.push(#[verifier::truncate] (((x >> 40) & 0xff) as u8));
    ops.push(#[verifier::truncate] (((x >> 48) & 0xff) as u8));
    ops.push(#[verifier::truncate] (((x >> 56) & 0xff) as u8));
    proof {
        assert(ops@ =~= old(ops)@ + le64(x));
    }
}

/// The number of bytes a sequence assembles to, computed executably.
pub fn x64_len_exec(p: &Vec<Instruction>) -> (n: u64)
    requires
        seq_size(p@) <= crate::codegen::MAX_PROGRAM_SIZE,
    ensures
        n == x64_seq_len(p@),
    decreases seq_size(p@), 1int,
{
    let mut n: u64 = 0;
    let mut i: usize = 0;
    proof {
        assert(p@.skip(0) =~= p@);
        lemma_x64_seq_len_bound(p@);
    }
    while i < p.len()
        invariant
            0 <= i <= p.len(),
            seq_size(p@) <= crate::codegen::MAX_PROGRAM_SIZE,
            n + x64_seq_len(p@.skip(i as int)) == x64_seq_len(p@),
            x64_seq_len(p@) <= 45 * seq_size(p@),
        decreases p.len() - i,
    {
        proof {
            lemma_inst_size_lt(p@, i as int);
            assert(p@.skip(i as int)[0] == p@[i as int]);
            assert(p@.skip(i as int).drop_first() =~= p@.skip(i as int + 1));
            crate::lowering::lemma_seq_size_skip(p@, i as int);
            lemma_x64_inst_len_bound(p@[i as int]);
        }
        let k = x64_inst_len_exec(&p[i]);
        n = n + k;
        i = i + 1;
    }
    n
}

/// The number of bytes one instruction assembles to.
fn x64_inst_len_exec(i: &Instruction) -> (n: u64)
    requires
        inst_size(*i) <= crate::codegen::MAX_PROGRAM_SIZE,
    ensures
        n == x64_inst_len(*i),
    decreases inst_size(*i), 0int,
{
    match i {
        Instruction::IncrementCell(_) => 3,
        Instruction::MovePointer(_) => 7,
        Instruction::SetCell(_) => 3,
        Instruction::Write => 45,
        Instruction::Read => 45,
        Instruction::Loop(body) => {
            proof {
                lemma_x64_seq_len_bound(body@);
            }
            18 + x64_len_exec(body)
        },
    }
}

} // verus!
