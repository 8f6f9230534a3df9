//! The tree-walking interpreter: the executable twin of the specification
//! evaluator.  It walks the instruction tree directly against the runtime
//! state; a read or write failure aborts the whole walk with `IoFailure`, and a
//! pointer move beyond the tape bounds aborts with `Overflow`.
//!
//! The walk carries a fuel budget, spent one unit per loop iteration exactly as
//! the specification evaluator spends it: the interpreter returns `Some`
//! precisely when the evaluator halts at that fuel, and `None` precisely when
//! it times out.

use vstd::prelude::*;

use crate::semantics::{run_inst, run_seq, Outcome};
use crate::state::{wrap_add_exec, State, StateModel};
use crate::syntax::{inst_size, lemma_inst_size_lt, seq_size, ExecutionResult, Instruction};

verus! {

/// The interpreter: executes programs against a tape of the configured size.
pub struct Interpreter {
    pub tape_size: usize,
}

impl Interpreter {
    pub fn new(tape_size: usize) -> (r: Interpreter)
        requires
            tape_size >= 1,
        ensures
            r.tape_size == tape_size,
    {
        Interpreter { tape_size }
    }

    /// Run a program against a fresh state built from the given input, with an
    /// unbounded output sink.  Returns the classification and the output bytes
    /// of the evaluation of the program at the given fuel, or `None` if the
    /// program did not halt within that budget.
    pub fn interpret(&self, prog: &Vec<Instruction>, input: Vec<u8>, fuel: u64) -> (r: (
        Option<ExecutionResult>,
        Vec<u8>,
    ))
        requires
            self.tape_size >= 1,
        ensures
            match r.0 {
                Some(res) => exists|s: StateModel|
                    run_seq(prog@, init_model(self.tape_size as nat, input@), fuel as nat)
                        == Outcome::Halt(s, res) && s.output == r.1@,
                None => run_seq(prog@, init_model(self.tape_size as nat, input@), fuel as nat)
                    == Outcome::Timeout,
            },
    {
        let ghost init = init_model(self.tape_size as nat, input@);
        let mut st = State::new(self.tape_size, input, usize::MAX);
        proof {
            assert(st@.tape =~= init.tape);
            assert(st@.output =~= init.output);
            assert(st@ == init);
        }
        let r = self.interpret_state(prog, &mut st, fuel);
        (r, st.output)
    }

    /// Run a program against an existing state with the given fuel budget.
    /// The result is exactly what the specification evaluator yields at that
    /// fuel: `Some` of the classification when it halts in the new state, and
    /// `None` when it times out.
    pub fn interpret_state(&self, prog: &Vec<Instruction>, st: &mut State, fuel: u64) -> (r:
        Option<ExecutionResult>)
        requires
            old(st)@.wf(),
        ensures
            final(st)@.wf(),
            match r {
                Some(res) => run_seq(prog@, old(st)@, fuel as nat) == Outcome::Halt(
                    final(st)@,
                    res,
                ),
                None => run_seq(prog@, old(st)@, fuel as nat) == Outcome::Timeout,
            },
    {
        interp_seq(prog, st, fuel)
    }
}

/// The model of a fresh state over a zeroed tape with an unbounded sink.
pub open spec fn init_model(tape_size: nat, input: Seq<u8>) -> StateModel {
    StateModel {
        tape: Seq::new(tape_size, |j: int| 0u8),
        pointer: 0,
        input: input,
        input_pos: 0,
        output: Seq::empty(),
        sink_capacity: usize::MAX as int,
    }
}

/// Execute an instruction sequence in order, stopping at the first error.
fn interp_seq(prog: &Vec<Instruction>, st: &mut State, fuel: u64) -> (r: Option<ExecutionResult>)
    requires
        old(st)@.wf(),
    ensures
        final(st)@.wf(),
        match r {
            Some(res) => run_seq(prog@, old(st)@, fuel as nat) == Outcome::Halt(final(st)@, res),
            None => run_seq(prog@, old(st)@, fuel as nat) == Outcome::Timeout,
        },
    decreases fuel, seq_size(prog@),
{
    let ghost s0 = st@;
    proof {
        assert(prog@.skip(0) =~= prog@);
    }
    let mut i: usize = 0;
    while i < prog.len()
        invariant
            0 <= i <= prog.len(),
            st@.wf(),
            old(st)@ == s0,
            run_seq(prog@, s0, fuel as nat) == run_seq(prog@.skip(i as int), st@, fuel as nat),
        decreases prog.len() - i,
    {
        let ghost pre = st@;
        proof {
            lemma_inst_size_lt(prog@, i as int);
            assert(prog@.skip(i as int)[0] == prog@[i as int]);
            assert(prog@.skip(i as int).drop_first() =~= prog@.skip(i as int + 1));
        }
        let r = interp_inst(&prog[i], st, fuel);
        match r {
            None => {
                return None;
            },
            Some(res) => {
                if res.is_error() {
                    return Some(res);
                }
            },
        }
        i = i + 1;
    }
    proof {
        assert(prog@.skip(i as int) =~= Seq::<Instruction>::empty());
    }
    Some(ExecutionResult::Success)
}

/// Execute one instruction.
fn interp_inst(inst: &Instruction, st: &mut State, fuel: u64) -> (r: Option<ExecutionResult>)
    requires
        old(st)@.wf(),
    ensures
        final(st)@.wf(),
        match r {
            Some(res) => run_inst(*inst, old(st)@, fuel as nat) == Outcome::Halt(final(st)@, res),
            None => run_inst(*inst, old(st)@, fuel as nat) == Outcome::Timeout,
        },
    decreases fuel, inst_size(*inst),
{
    match inst {
        Instruction::IncrementCell(d) => {
            let c = st.tape[st.pointer];
            let nc = wrap_add_exec(c, *d);
            st.tape.set(st.pointer, nc);
            proof {
                assert(st@ == old(st)@.with_cell(nc));
            }
            Some(ExecutionResult::Success)
        },
        Instruction::SetCell(v) => {
            st.tape.set(st.pointer, *v);
            proof {
                assert(st@ == old(st)@.with_cell(*v));
            }
            Some(ExecutionResult::Success)
        },
        Instruction::MovePointer(d) => {
            let np: i128 = st.pointer as i128 + *d as i128;
            if 0 <= np && np < st.tape.len() as i128 {
                st.pointer = np as usize;
                Some(ExecutionResult::Success)
            } else {
                Some(ExecutionResult::Overflow)
            }
        },
        Instruction::Write => {
            let b = st.tape[st.pointer];
            let ok = st.write_byte(b);
            if ok {
                Some(ExecutionResult::Success)
            } else {
                Some(ExecutionResult::IoFailure)
            }
        },
        Instruction::Read => {
            let rb = st.read_byte();
            match rb {
                Some(b) => {
                    st.tape.set(st.pointer, b);
                    Some(ExecutionResult::Success)
                },
                None => Some(ExecutionResult::IoFailure),
            }
        },
        Instruction::Loop(body) => {
            let ghost lv = *inst;
            let ghost s0 = st@;
            let mut remaining: u64 = fuel;
            loop
                invariant
                    st@.wf(),
                    remaining <= fuel,
                    old(st)@ == s0,
                    lv == *inst,
                    lv == Instruction::Loop(*body),
                    seq_size(body@) < inst_size(lv),
                    run_inst(lv, s0, fuel as nat) == run_inst(lv, st@, remaining as nat),
                decreases remaining,
            {
                let c = st.tape[st.pointer];
                if c == 0 {
                    proof {
                        assert(st@.cell() == 0);
                        assert(run_inst(lv, st@, remaining as nat) == Outcome::Halt(
                            st@,
                            ExecutionResult::Success,
                        ));
                        assert(old(st)@ == s0);
                    }
                    return Some(ExecutionResult::Success);
                }
                if remaining == 0 {
                    proof {
                        assert(st@.cell() != 0);
                        assert(run_inst(lv, st@, 0nat) == Outcome::Timeout);
                        assert(old(st)@ == s0);
                    }
                    return None;
                }
                let r = interp_seq(body, st, remaining - 1);
                match r {
                    None => {
                        return None;
                    },
                    Some(res) => {
                        if res.is_error() {
                            return Some(res);
                        }
                    },
                }
                remaining = remaining - 1;
            }
        },
    }
}

} // verus!
