//! The specification semantics: a fuel-bounded big-step evaluator over the
//! instruction tree.  It is the oracle both execution strategies are proved
//! against: an executor returns a result exactly when the evaluator halts with
//! that result at some fuel.

use vstd::prelude::*;

use crate::state::StateModel;
use crate::syntax::{inst_size, lemma_inst_size_lt, seq_size, ExecutionResult, Instruction};

verus! {

/// What a fuel-bounded evaluation yields: either the fuel ran out before the
/// program halted, or the program halted in a state with a classification.
pub enum Outcome {
    Timeout,
    Halt(StateModel, ExecutionResult),
}

/// Evaluate one instruction.  Fuel is consumed once per loop iteration, so a
/// halting run exists exactly when the program terminates.
pub open spec fn run_inst(i: Instruction, st: StateModel, fuel: nat) -> Outcome
    decreases fuel, inst_size(i),
{
    match i {
        Instruction::IncrementCell(d) => Outcome::Halt(
            st.with_cell(crate::state::wrap_add(st.cell(), d)),
            ExecutionResult::Success,
        ),
        Instruction::SetCell(v) => Outcome::Halt(st.with_cell(v), ExecutionResult::Success),
        Instruction::MovePointer(d) => {
            let np = st.pointer + d as int;
            if 0 <= np < st.tape.len() {
                Outcome::Halt(StateModel { pointer: np, ..st }, ExecutionResult::Success)
            } else {
                Outcome::Halt(st, ExecutionResult::Overflow)
            }
        },
        Instruction::Write => {
            if st.output.len() < st.sink_capacity {
                Outcome::Halt(
                    StateModel { output: st.output.push(st.cell()), ..st },
                    ExecutionResult::Success,
                )
            } else {
                Outcome::Halt(st, ExecutionResult::IoFailure)
            }
        },
        Instruction::Read => {
            if st.input_pos < st.input.len() {
                Outcome::Halt(
                    StateModel {
                        tape: st.tape.update(st.pointer, st.input[st.input_pos]),
                        input_pos: st.input_pos + 1,
                        ..st
                    },
                    ExecutionResult::Success,
                )
            } else {
                Outcome::Halt(st, ExecutionResult::IoFailure)
            }
        },
        Instruction::Loop(body) => {
            if st.cell() == 0 {
                Outcome::Halt(st, ExecutionResult::Success)
            } else if fuel == 0 {
                Outcome::Timeout
            } else {
                match run_seq(body@, st, (fuel - 1) as nat) {
                    Outcome::Timeout => Outcome::Timeout,
                    Outcome::Halt(s1, r) => {
                        if r == ExecutionResult::Success {
                            run_inst(i, s1, (fuel - 1) as nat)
                        } else {
                            Outcome::Halt(s1, r)
                        }
                    },
                }
            }
        },
    }
}

/// Evaluate an instruction sequence in order, propagating the first error
/// upward without evaluating further instructions.
pub open spec fn run_seq(p: Seq<Instruction>, st: StateModel, fuel: nat) -> Outcome
    decreases fuel, seq_size(p),
{
    if p.len() == 0 {
        Outcome::Halt(st, ExecutionResult::Success)
    } else {
        match run_inst(p[0], st, fuel) {
            Outcome::Timeout => Outcome::Timeout,
            Outcome::Halt(s1, r) => {
                if r == ExecutionResult::Success {
                    run_seq(p.drop_first(), s1, fuel)
                } else {
                    Outcome::Halt(s1, r)
                }
            },
        }
    }
}

/// A halting evaluation is stable under more fuel.
pub proof fn lemma_run_inst_mono(i: Instruction, st: StateModel, f1: nat, f2: nat)
    requires
        f1 <= f2,
        run_inst(i, st, f1) is Halt,
    ensures
        run_inst(i, st, f2) == run_inst(i, st, f1),
    decreases f2, inst_size(i),
{
    match i {
        Instruction::Loop(body) => {
            if st.cell() != 0 {
                match run_seq(body@, st, (f1 - 1) as nat) {
                    Outcome::Timeout => {},
                    Outcome::Halt(s1, r) => {
                        lemma_run_seq_mono(body@, st, (f1 - 1) as nat, (f2 - 1) as nat);
                        if r == ExecutionResult::Success {
                            lemma_run_inst_mono(i, s1, (f1 - 1) as nat, (f2 - 1) as nat);
                        }
                    },
                }
            }
        },
        _ => {},
    }
}

/// A halting evaluation is stable under more fuel.
pub proof fn lemma_run_seq_mono(p: Seq<Instruction>, st: StateModel, f1: nat, f2: nat)
    requires
        f1 <= f2,
        run_seq(p, st, f1) is Halt,
    ensures
        run_seq(p, st, f2) == run_seq(p, st, f1),
    decreases f2, seq_size(p),
{
    if p.len() > 0 {
        lemma_inst_size_lt(p, 0);
        match run_inst(p[0], st, f1) {
            Outcome::Timeout => {},
            Outcome::Halt(s1, r) => {
                lemma_run_inst_mono(p[0], st, f1, f2);
                if r == ExecutionResult::Success {
                    lemma_run_seq_mono(p.drop_first(), s1, f1, f2);
                }
            },
        }
    }
}

/// The evaluator is deterministic: two halting runs of the same program from
/// the same state agree, whatever their fuels.
pub proof fn lemma_run_seq_deterministic(p: Seq<Instruction>, st: StateModel, f1: nat, f2: nat)
    requires
        run_seq(p, st, f1) is Halt,
        run_seq(p, st, f2) is Halt,
    ensures
        run_seq(p, st, f1) == run_seq(p, st, f2),
{
    if f1 <= f2 {
        lemma_run_seq_mono(p, st, f1, f2);
    } else {
        lemma_run_seq_mono(p, st, f2, f1);
    }
}

/// Evaluation never changes the tape's length, the input, or the sink's
/// capacity.
pub proof fn lemma_run_inst_frame(i: Instruction, st: StateModel, fuel: nat, s1: StateModel, r: ExecutionResult)
    requires
        st.wf(),
        run_inst(i, st, fuel) == Outcome::Halt(s1, r),
    ensures
        s1.tape.len() == st.tape.len(),
        s1.input == st.input,
        s1.sink_capacity == st.sink_capacity,
    decreases fuel, inst_size(i),
{
    match i {
        Instruction::Loop(body) => {
            if st.cell() != 0 {
                match run_seq(body@, st, (fuel - 1) as nat) {
                    Outcome::Timeout => {},
                    Outcome::Halt(s2, r2) => {
                        lemma_run_seq_frame(body@, st, (fuel - 1) as nat, s2, r2);
                        if r2 == ExecutionResult::Success {
                            lemma_run_seq_wf(body@, st, (fuel - 1) as nat, s2, r2);
                            lemma_run_inst_frame(i, s2, (fuel - 1) as nat, s1, r);
                        }
                    },
                }
            }
        },
        _ => {},
    }
}

/// Evaluation never changes the tape's length, the input, or the sink's
/// capacity.
pub proof fn lemma_run_seq_frame(p: Seq<Instruction>, st: StateModel, fuel: nat, s1: StateModel, r: ExecutionResult)
    requires
        st.wf(),
        run_seq(p, st, fuel) == Outcome::Halt(s1, r),
    ensures
        s1.tape.len() == st.tape.len(),
        s1.input == st.input,
        s1.sink_capacity == st.sink_capacity,
    decreases fuel, seq_size(p),
{
    if p.len() > 0 {
        lemma_inst_size_lt(p, 0);
        match run_inst(p[0], st, fuel) {
            Outcome::Timeout => {},
            Outcome::Halt(s2, r2) => {
                lemma_run_inst_frame(p[0], st, fuel, s2, r2);
                if r2 == ExecutionResult::Success {
                    lemma_run_inst_wf(p[0], st, fuel, s2, r2);
                    lemma_run_seq_frame(p.drop_first(), s2, fuel, s1, r);
                }
            },
        }
    }
}

/// Evaluation preserves well-formedness of the state.
pub proof fn lemma_run_inst_wf(i: Instruction, st: StateModel, fuel: nat, s1: StateModel, r: ExecutionResult)
    requires
        st.wf(),
        run_inst(i, st, fuel) == Outcome::Halt(s1, r),
    ensures
        s1.wf(),
    decreases fuel, inst_size(i),
{
    match i {
        Instruction::Loop(body) => {
            if st.cell() != 0 {
                match run_seq(body@, st, (fuel - 1) as nat) {
                    Outcome::Timeout => {},
                    Outcome::Halt(s2, r2) => {
                        lemma_run_seq_wf(body@, st, (fuel - 1) as nat, s2, r2);
                        if r2 == ExecutionResult::Success {
                            lemma_run_inst_wf(i, s2, (fuel - 1) as nat, s1, r);
                        }
                    },
                }
            }
        },
        _ => {},
    }
}

/// Evaluation preserves well-formedness of the state.
pub proof fn lemma_run_seq_wf(p: Seq<Instruction>, st: StateModel, fuel: nat, s1: StateModel, r: ExecutionResult)
    requires
        st.wf(),
        run_seq(p, st, fuel) == Outcome::Halt(s1, r),
    ensures
        s1.wf(),
    decreases fuel, seq_size(p),
{
    if p.len() > 0 {
        lemma_inst_size_lt(p, 0);
        match run_inst(p[0], st, fuel) {
            Outcome::Timeout => {},
            Outcome::Halt(s2, r2) => {
                lemma_run_inst_wf(p[0], st, fuel, s2, r2);
                if r2 == ExecutionResult::Success {
                    lemma_run_seq_wf(p.drop_first(), s2, fuel, s1, r);
                }
            },
        }
    }
}

} // verus!
