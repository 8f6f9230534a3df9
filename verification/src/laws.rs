//! The laws relating the library's components: the lowering is a correct
//! compilation of the instruction tree, so the interpreter and the flat
//! machine agree on every program; and the optimizer passes preserve what a
//! program does.

use vstd::prelude::*;

use crate::lowering::{
    flat_run, flat_step, inst_flat_len, lemma_flat_run_add, lemma_flat_run_deterministic,
    lemma_flat_run_one, lemma_lower_inst_len, lemma_lower_seq_len, lower_inst, lower_seq,
    seq_flat_len, Flat, LowOp,
};
use crate::optimize::{combine_inc_rel, combine_move_rel, combine_rel, wrap_add_i32, wrap_add_i8};
use crate::semantics::{run_inst, run_seq, Outcome};
use crate::state::wrap_add;
use vstd::arithmetic::div_mod::{lemma_fundamental_div_mod, lemma_mod_multiples_vanish};
use crate::state::StateModel;
use crate::syntax::{inst_size, seq_size, ExecutionResult, Instruction};

verus! {

/// `piece` stands in `code` at index `base`.
pub open spec fn embedded(code: Seq<LowOp>, base: int, piece: Seq<LowOp>) -> bool {
    &&& 0 <= base
    &&& base + piece.len() <= code.len()
    &&& forall|j: int| 0 <= j < piece.len() ==> code[base + j] == #[trigger] piece[j]
}

/// Forward simulation for one instruction: wherever the evaluator halts, the
/// flat machine, started at the instruction's code, reaches the same state —
/// past that code on success, halted with the same classification on an error.
#[verifier::rlimit(100)]
#[verifier::spinoff_prover]
pub proof fn lemma_sim_inst(
    code: Seq<LowOp>,
    base: int,
    i: Instruction,
    st: StateModel,
    fuel: nat,
    s1: StateModel,
    r: ExecutionResult,
)
    requires
        code.len() <= usize::MAX,
        embedded(code, base, lower_inst(i, base)),
        run_inst(i, st, fuel) == Outcome::Halt(s1, r),
    ensures
        r == ExecutionResult::Success ==> exists|n: nat|
            flat_run(code, base, st, n) == Flat::Running(base + inst_flat_len(i), s1),
        r != ExecutionResult::Success ==> exists|n: nat|
            flat_run(code, base, st, n) == Flat::Halted(s1, r),
    decreases fuel, inst_size(i),
{
    lemma_lower_inst_len(i, base);
    lemma_flat_run_one(code, base, st);
    match i {
        Instruction::IncrementCell(d) => {
            assert(lower_inst(i, base)[0] == LowOp::AddCell(d));
            assert(code[base + 0] == LowOp::AddCell(d));
            assert(flat_run(code, base, st, 1nat) == Flat::Running(base + 1, s1));
        },
        Instruction::SetCell(v) => {
            assert(lower_inst(i, base)[0] == LowOp::SetConst(v));
            assert(code[base + 0] == LowOp::SetConst(v));
            assert(flat_run(code, base, st, 1nat) == Flat::Running(base + 1, s1));
        },
        Instruction::MovePointer(d) => {
            assert(lower_inst(i, base)[0] == LowOp::MovePtr(d));
            assert(code[base + 0] == LowOp::MovePtr(d));
            if r == ExecutionResult::Success {
                assert(flat_run(code, base, st, 1nat) == Flat::Running(base + 1, s1));
            } else {
                assert(flat_run(code, base, st, 1nat) == Flat::Halted(s1, r));
            }
        },
        Instruction::Write => {
            assert(lower_inst(i, base)[0] == LowOp::WriteByte);
            assert(code[base + 0] == LowOp::WriteByte);
            if r == ExecutionResult::Success {
                assert(flat_run(code, base, st, 1nat) == Flat::Running(base + 1, s1));
            } else {
                assert(flat_run(code, base, st, 1nat) == Flat::Halted(s1, r));
            }
        },
        Instruction::Read => {
            assert(lower_inst(i, base)[0] == LowOp::ReadByte);
            assert(code[base + 0] == LowOp::ReadByte);
            if r == ExecutionResult::Success {
                assert(flat_run(code, base, st, 1nat) == Flat::Running(base + 1, s1));
            } else {
                assert(flat_run(code, base, st, 1nat) == Flat::Halted(s1, r));
            }
        },
        Instruction::Loop(body) => {
            let piece = lower_inst(i, base);
            let bl = seq_flat_len(body@);
            let bcode = lower_seq(body@, base + 1);
            lemma_lower_seq_len(body@, base + 1);
            let e = base + 2 + bl;
            assert(piece[0] == LowOp::JumpIfZero(e as usize));
            assert(code[base + 0] == LowOp::JumpIfZero(e as usize));
            assert(piece[1 + bl as int] == LowOp::JumpIfNonzero((base + 1) as usize));
            assert(code[base + 1 + bl as int] == LowOp::JumpIfNonzero((base + 1) as usize));
            assert(e as usize as int == e);
            assert((base + 1) as usize as int == base + 1);
            assert(embedded(code, base + 1, bcode)) by {
                assert forall|j: int| 0 <= j < bcode.len() implies code[base + 1 + j]
                    == #[trigger] bcode[j] by {
                    assert(piece[1 + j] == bcode[j]);
                    assert(code[base + (1 + j)] == piece[1 + j]);
                }
            }
            if st.cell() == 0 {
                assert(flat_step(code, base, st) == Flat::Running(e, st));
                assert(flat_run(code, base, st, 1nat) == Flat::Running(
                    base + inst_flat_len(i),
                    st,
                ));
            } else {
                match run_seq(body@, st, (fuel - 1) as nat) {
                    Outcome::Timeout => {
                        assert(false);
                    },
                    Outcome::Halt(sm, rb) => {
                        assert(flat_run(code, base, st, 1nat) == Flat::Running(base + 1, st));
                        lemma_sim_seq(code, base + 1, body@, st, (fuel - 1) as nat, sm, rb);
                        if rb != ExecutionResult::Success {
                            assert(s1 == sm && r == rb);
                            let n2 = choose|n: nat|
                                #[trigger] flat_run(code, base + 1, st, n) == Flat::Halted(sm, rb);
                            lemma_flat_run_add(code, base, st, 1nat, n2);
                            assert(flat_run(code, base, st, (1 + n2) as nat) == Flat::Halted(
                                s1,
                                r,
                            ));
                        } else {
                            let n2 = choose|n: nat|
                                #[trigger] flat_run(code, base + 1, st, n) == Flat::Running(
                                    base + 1 + bl,
                                    sm,
                                );
                            lemma_flat_run_add(code, base, st, 1nat, n2);
                            assert(flat_run(code, base, st, (1 + n2) as nat) == Flat::Running(
                                base + 1 + bl,
                                sm,
                            ));
                            if sm.cell() == 0 {
                                // The backward test falls through: the loop is
                                // done with state sm.
                                assert(run_inst(i, sm, (fuel - 1) as nat) == Outcome::Halt(
                                    sm,
                                    ExecutionResult::Success,
                                ));
                                assert(s1 == sm && r == ExecutionResult::Success);
                                assert(flat_step(code, base + 1 + bl, sm) == Flat::Running(
                                    base + 2 + bl,
                                    sm,
                                ));
                                lemma_flat_run_add(code, base, st, (1 + n2) as nat, 1nat);
                                lemma_flat_run_one(code, base + 1 + bl as int, sm);
                                assert(flat_run(code, base, st, (1 + n2 + 1) as nat)
                                    == Flat::Running(base + inst_flat_len(i), s1));
                            } else {
                                // The backward branch is taken; the whole loop
                                // from sm simulates the remaining iterations.
                                assert(flat_step(code, base + 1 + bl, sm) == Flat::Running(
                                    base + 1,
                                    sm,
                                ));
                                lemma_flat_run_add(code, base, st, (1 + n2) as nat, 1nat);
                                lemma_flat_run_one(code, base + 1 + bl as int, sm);
                                assert(flat_run(code, base, st, (1 + n2 + 1) as nat)
                                    == Flat::Running(base + 1, sm));
                                lemma_sim_inst(code, base, i, sm, (fuel - 1) as nat, s1, r);
                                if r == ExecutionResult::Success {
                                    let n3 = choose|n: nat|
                                        #[trigger] flat_run(code, base, sm, n) == Flat::Running(
                                            base + inst_flat_len(i),
                                            s1,
                                        );
                                    assert(n3 >= 1) by {
                                        assert(flat_run(code, base, sm, 0nat) == Flat::Running(
                                            base,
                                            sm,
                                        ));
                                        assert(base + inst_flat_len(i) != base);
                                    }
                                    assert(flat_step(code, base, sm) == Flat::Running(
                                        base + 1,
                                        sm,
                                    ));
                                    assert(flat_run(code, base + 1, sm, (n3 - 1) as nat)
                                        == Flat::Running(base + inst_flat_len(i), s1));
                                    lemma_flat_run_add(
                                        code,
                                        base,
                                        st,
                                        (1 + n2 + 1) as nat,
                                        (n3 - 1) as nat,
                                    );
                                    assert(flat_run(code, base, st, (1 + n2 + 1 + (n3 - 1)) as nat)
                                        == Flat::Running(base + inst_flat_len(i), s1));
                                } else {
                                    let n3 = choose|n: nat|
                                        #[trigger] flat_run(code, base, sm, n) == Flat::Halted(s1, r);
                                    assert(n3 >= 1) by {
                                        assert(flat_run(code, base, sm, 0nat) == Flat::Running(
                                            base,
                                            sm,
                                        ));
                                    }
                                    assert(flat_step(code, base, sm) == Flat::Running(
                                        base + 1,
                                        sm,
                                    ));
                                    assert(flat_run(code, base + 1, sm, (n3 - 1) as nat)
                                        == Flat::Halted(s1, r));
                                    lemma_flat_run_add(
                                        code,
                                        base,
                                        st,
                                        (1 + n2 + 1) as nat,
                                        (n3 - 1) as nat,
                                    );
                                    assert(flat_run(code, base, st, (1 + n2 + 1 + (n3 - 1)) as nat)
                                        == Flat::Halted(s1, r));
                                }
                            }
                        }
                    },
                }
            }
        },
    }
}

/// Forward simulation for a sequence: wherever the evaluator halts, the flat
/// machine, started at the sequence's code, reaches the same state — past the
/// code on success, halted with the same classification on an error.
pub proof fn lemma_sim_seq(
    code: Seq<LowOp>,
    base: int,
    p: Seq<Instruction>,
    st: StateModel,
    fuel: nat,
    s1: StateModel,
    r: ExecutionResult,
)
    requires
        code.len() <= usize::MAX,
        embedded(code, base, lower_seq(p, base)),
        run_seq(p, st, fuel) == Outcome::Halt(s1, r),
    ensures
        r == ExecutionResult::Success ==> exists|n: nat|
            flat_run(code, base, st, n) == Flat::Running(base + seq_flat_len(p), s1),
        r != ExecutionResult::Success ==> exists|n: nat|
            flat_run(code, base, st, n) == Flat::Halted(s1, r),
    decreases fuel, seq_size(p),
{
    lemma_lower_seq_len(p, base);
    if p.len() == 0 {
        assert(flat_run(code, base, st, 0nat) == Flat::Running(base + seq_flat_len(p), s1));
    } else {
        crate::syntax::lemma_inst_size_lt(p, 0);
        let hd = p[0];
        let tl = p.drop_first();
        let hl = inst_flat_len(hd);
        lemma_lower_inst_len(hd, base);
        lemma_lower_seq_len(tl, base + hl);
        assert(embedded(code, base, lower_inst(hd, base))) by {
            assert forall|j: int| 0 <= j < lower_inst(hd, base).len() implies code[base + j]
                == #[trigger] lower_inst(hd, base)[j] by {
                assert(lower_seq(p, base)[j] == lower_inst(hd, base)[j]);
                assert(code[base + j] == lower_seq(p, base)[j]);
            }
        }
        assert(embedded(code, base + hl, lower_seq(tl, base + hl))) by {
            assert forall|j: int| 0 <= j < lower_seq(tl, base + hl).len() implies code[base + hl
                + j] == #[trigger] lower_seq(tl, base + hl)[j] by {
                assert(lower_seq(p, base)[hl + j] == lower_seq(tl, base + hl)[j]);
                assert(code[base + (hl + j)] == lower_seq(p, base)[hl + j]);
            }
        }
        match run_inst(hd, st, fuel) {
            Outcome::Timeout => {
                assert(false);
            },
            Outcome::Halt(sm, rh) => {
                lemma_sim_inst(code, base, hd, st, fuel, sm, rh);
                if rh != ExecutionResult::Success {
                    assert(s1 == sm && r == rh);
                } else {
                    let n1 = choose|n: nat|
                        #[trigger] flat_run(code, base, st, n) == Flat::Running(base + hl, sm);
                    lemma_sim_seq(code, base + hl, tl, sm, fuel, s1, r);
                    if r == ExecutionResult::Success {
                        let n2 = choose|n: nat|
                            #[trigger] flat_run(code, base + hl, sm, n) == Flat::Running(
                                base + hl + seq_flat_len(tl),
                                s1,
                            );
                        lemma_flat_run_add(code, base, st, n1, n2);
                        assert(flat_run(code, base, st, (n1 + n2) as nat) == Flat::Running(
                            base + seq_flat_len(p),
                            s1,
                        ));
                    } else {
                        let n2 = choose|n: nat|
                            #[trigger] flat_run(code, base + hl, sm, n) == Flat::Halted(s1, r);
                        lemma_flat_run_add(code, base, st, n1, n2);
                        assert(flat_run(code, base, st, (n1 + n2) as nat) == Flat::Halted(s1, r));
                    }
                }
            },
        }
    }
}

/// The two execution strategies agree: whenever the evaluator halts a program
/// and the flat machine halts that program's lowering, from one starting
/// state, they end in the same state with the same classification — so the
/// interpreter and `run` over `generate` produce identical output bytes and
/// identical execution results.
pub proof fn lemma_compiled_agrees_with_interpreted(
    p: Seq<Instruction>,
    st: StateModel,
    fuel: nat,
    steps: nat,
    s1: StateModel,
    r1: ExecutionResult,
    s2: StateModel,
    r2: ExecutionResult,
)
    requires
        lower_seq(p, 0).len() <= usize::MAX,
        run_seq(p, st, fuel) == Outcome::Halt(s1, r1),
        flat_run(lower_seq(p, 0), 0, st, steps) == Flat::Halted(s2, r2),
    ensures
        s2 == s1,
        r2 == r1,
{
    let code = lower_seq(p, 0);
    lemma_lower_seq_len(p, 0);
    assert(embedded(code, 0, code));
    lemma_sim_seq(code, 0, p, st, fuel, s1, r1);
    if r1 == ExecutionResult::Success {
        let n = choose|n: nat| #[trigger] flat_run(code, 0, st, n) == Flat::Running(seq_flat_len(p) as int, s1);
        assert(flat_step(code, seq_flat_len(p) as int, s1) == Flat::Halted(
            s1,
            ExecutionResult::Success,
        ));
        lemma_flat_run_add(code, 0, st, n, 1nat);
        lemma_flat_run_one(code, seq_flat_len(p) as int, s1);
        assert(flat_run(code, 0, st, (n + 1) as nat) == Flat::Halted(
            s1,
            ExecutionResult::Success,
        ));
        lemma_flat_run_deterministic(code, 0, st, (n + 1) as nat, steps);
    } else {
        let n = choose|n: nat| #[trigger] flat_run(code, 0, st, n) == Flat::Halted(s1, r1);
        lemma_flat_run_deterministic(code, 0, st, n, steps);
    }
}

/// A clearing loop — body exactly one cell decrement — halts from any state
/// with the cell at zero and everything else unchanged, whenever it halts at
/// all: so replacing it by `SetCell(0)` changes nothing observable.
pub proof fn lemma_clearing_loop(body: Vec<Instruction>, st: StateModel, fuel: nat)
    requires
        0 <= st.pointer < st.tape.len(),
        crate::optimize::is_clear_loop_body(body@),
        run_inst(Instruction::Loop(body), st, fuel) is Halt,
    ensures
        run_inst(Instruction::Loop(body), st, fuel) == Outcome::Halt(
            st.with_cell(0),
            ExecutionResult::Success,
        ),
    decreases fuel,
{
    let lv = Instruction::Loop(body);
    if st.cell() == 0 {
        assert(st.with_cell(0).tape =~= st.tape);
        assert(st.with_cell(0) == st);
    } else {
        let c = st.cell();
        let st1 = st.with_cell(wrap_add(c, -1i8));
        assert(body@.drop_first() =~= Seq::<Instruction>::empty());
        assert(run_inst(body@[0], st, (fuel - 1) as nat) == Outcome::Halt(
            st1,
            ExecutionResult::Success,
        ));
        assert(run_seq(Seq::<Instruction>::empty(), st1, (fuel - 1) as nat) == Outcome::Halt(
            st1,
            ExecutionResult::Success,
        ));
        assert(run_seq(body@, st, (fuel - 1) as nat) == Outcome::Halt(
            st1,
            ExecutionResult::Success,
        ));
        assert(run_inst(lv, st, fuel) == run_inst(lv, st1, (fuel - 1) as nat));
        assert(wrap_add(c, -1i8) == (c - 1) as u8);
        assert(st1.cell() == c - 1);
        lemma_clearing_loop(body, st1, (fuel - 1) as nat);
        assert(st1.with_cell(0).tape =~= st.with_cell(0).tape);
        assert(st1.with_cell(0) == st.with_cell(0));
    }
}

/// A clearing loop always terminates: from any starting cell value, one more
/// unit of fuel than that value suffices to halt with the cell at zero.
pub proof fn lemma_clearing_loop_terminates(body: Vec<Instruction>, st: StateModel)
    requires
        0 <= st.pointer < st.tape.len(),
        crate::optimize::is_clear_loop_body(body@),
    ensures
        run_inst(Instruction::Loop(body), st, (st.cell() + 1) as nat) == Outcome::Halt(
            st.with_cell(0),
            ExecutionResult::Success,
        ),
    decreases st.cell(),
{
    let lv = Instruction::Loop(body);
    let fuel = (st.cell() + 1) as nat;
    if st.cell() == 0 {
        assert(st.with_cell(0).tape =~= st.tape);
        assert(st.with_cell(0) == st);
    } else {
        let c = st.cell();
        let st1 = st.with_cell(wrap_add(c, -1i8));
        assert(body@.drop_first() =~= Seq::<Instruction>::empty());
        assert(run_inst(body@[0], st, (fuel - 1) as nat) == Outcome::Halt(
            st1,
            ExecutionResult::Success,
        ));
        assert(run_seq(Seq::<Instruction>::empty(), st1, (fuel - 1) as nat) == Outcome::Halt(
            st1,
            ExecutionResult::Success,
        ));
        assert(run_seq(body@, st, (fuel - 1) as nat) == Outcome::Halt(
            st1,
            ExecutionResult::Success,
        ));
        assert(run_inst(lv, st, fuel) == run_inst(lv, st1, (fuel - 1) as nat));
        assert(wrap_add(c, -1i8) == (c - 1) as u8);
        assert(st1.cell() == c - 1);
        lemma_clearing_loop_terminates(body, st1);
        assert((st1.cell() + 1) as nat == (fuel - 1) as nat);
        assert(st1.with_cell(0).tape =~= st.with_cell(0).tape);
        assert(st1.with_cell(0) == st.with_cell(0));
    }
}

/// The idiom-replacement pass preserves behaviour: wherever the evaluator
/// halts a program, it halts the rewritten program at the same fuel, in the
/// same state, with the same classification.
pub proof fn lemma_replace_preserves(
    p: Seq<Instruction>,
    q: Seq<Instruction>,
    st: StateModel,
    fuel: nat,
    s: StateModel,
    r: ExecutionResult,
)
    requires
        st.wf(),
        crate::optimize::replace_rel(p, q),
        run_seq(p, st, fuel) == Outcome::Halt(s, r),
    ensures
        run_seq(q, st, fuel) == Outcome::Halt(s, r),
    decreases fuel, seq_size(p), 1int,
{
    if p.len() > 0 {
        crate::syntax::lemma_inst_size_lt(p, 0);
        match run_inst(p[0], st, fuel) {
            Outcome::Timeout => {
                assert(false);
            },
            Outcome::Halt(sm, rh) => {
                match p[0] {
                    Instruction::Loop(b) => {
                        if crate::optimize::is_clear_loop_body(b@) {
                            lemma_clearing_loop(b, st, fuel);
                            assert(run_inst(q[0], st, fuel) == Outcome::Halt(sm, rh));
                        } else {
                            match q[0] {
                                Instruction::Loop(b2) => {
                                    lemma_replace_preserves_loop(b, b2, st, fuel, sm, rh);
                                },
                                _ => {
                                    assert(false);
                                },
                            }
                        }
                    },
                    _ => {
                        assert(q[0] == p[0]);
                    },
                }
                assert(run_inst(q[0], st, fuel) == Outcome::Halt(sm, rh));
                if rh == ExecutionResult::Success {
                    crate::semantics::lemma_run_inst_wf(p[0], st, fuel, sm, rh);
                    lemma_replace_preserves(p.drop_first(), q.drop_first(), sm, fuel, s, r);
                } else {
                    assert(s == sm && r == rh);
                }
            },
        }
    }
}

/// Preservation for one kept loop whose body was rewritten.
proof fn lemma_replace_preserves_loop(
    b: Vec<Instruction>,
    b2: Vec<Instruction>,
    st: StateModel,
    fuel: nat,
    s: StateModel,
    r: ExecutionResult,
)
    requires
        st.wf(),
        crate::optimize::replace_rel(b@, b2@),
        run_inst(Instruction::Loop(b), st, fuel) == Outcome::Halt(s, r),
    ensures
        run_inst(Instruction::Loop(b2), st, fuel) == Outcome::Halt(s, r),
    decreases fuel, seq_size(b@), 2int,
{
    if st.cell() != 0 {
        match run_seq(b@, st, (fuel - 1) as nat) {
            Outcome::Timeout => {
                assert(false);
            },
            Outcome::Halt(sb, rb) => {
                lemma_replace_preserves(b@, b2@, st, (fuel - 1) as nat, sb, rb);
                if rb == ExecutionResult::Success {
                    crate::semantics::lemma_run_seq_wf(b@, st, (fuel - 1) as nat, sb, rb);
                    lemma_replace_preserves_loop(b, b2, sb, (fuel - 1) as nat, s, r);
                }
            },
        }
    }
}

/// The idiom-replacement pass reflects behaviour: wherever the evaluator
/// halts the rewritten program, it halts the original program at some fuel,
/// in the same state, with the same classification.  With preservation this
/// makes the pass a full equivalence: neither program halts without the other.
pub proof fn lemma_replace_reflects(
    p: Seq<Instruction>,
    q: Seq<Instruction>,
    st: StateModel,
    fuel: nat,
    s: StateModel,
    r: ExecutionResult,
)
    requires
        st.wf(),
        crate::optimize::replace_rel(p, q),
        run_seq(q, st, fuel) == Outcome::Halt(s, r),
    ensures
        exists|f: nat| run_seq(p, st, f) == Outcome::Halt(s, r),
    decreases fuel, seq_size(p), 1int,
{
    if p.len() == 0 {
        assert(run_seq(p, st, fuel) == Outcome::Halt(s, r));
    } else {
        crate::syntax::lemma_inst_size_lt(p, 0);
        match run_inst(q[0], st, fuel) {
            Outcome::Timeout => {
                assert(false);
            },
            Outcome::Halt(sm, rh) => {
                let f0: nat = match p[0] {
                    Instruction::Loop(b) => {
                        if crate::optimize::is_clear_loop_body(b@) {
                            lemma_clearing_loop_terminates(b, st);
                            (st.cell() + 1) as nat
                        } else {
                            match q[0] {
                                Instruction::Loop(b2) => {
                                    lemma_replace_reflects_loop(b, b2, st, fuel, sm, rh);
                                    choose|f: nat|
                                        run_inst(p[0], st, f) == Outcome::Halt(sm, rh)
                                },
                                _ => {
                                    assert(false);
                                    0nat
                                },
                            }
                        }
                    },
                    _ => {
                        assert(q[0] == p[0]);
                        fuel
                    },
                };
                assert(run_inst(p[0], st, f0) == Outcome::Halt(sm, rh));
                if rh == ExecutionResult::Success {
                    crate::semantics::lemma_run_inst_wf(p[0], st, f0, sm, rh);
                    lemma_replace_reflects(p.drop_first(), q.drop_first(), sm, fuel, s, r);
                    let f1 = choose|f: nat|
                        #[trigger] run_seq(p.drop_first(), sm, f) == Outcome::Halt(s, r);
                    let fm: nat = if f0 >= f1 {
                        f0
                    } else {
                        f1
                    };
                    crate::semantics::lemma_run_inst_mono(p[0], st, f0, fm);
                    crate::semantics::lemma_run_seq_mono(p.drop_first(), sm, f1, fm);
                    assert(run_seq(p, st, fm) == Outcome::Halt(s, r));
                } else {
                    assert(s == sm && r == rh);
                    assert(run_seq(p, st, f0) == Outcome::Halt(s, r));
                }
            },
        }
    }
}

/// Reflection for one kept loop whose body was rewritten.
proof fn lemma_replace_reflects_loop(
    b: Vec<Instruction>,
    b2: Vec<Instruction>,
    st: StateModel,
    fuel: nat,
    s: StateModel,
    r: ExecutionResult,
)
    requires
        st.wf(),
        crate::optimize::replace_rel(b@, b2@),
        run_inst(Instruction::Loop(b2), st, fuel) == Outcome::Halt(s, r),
    ensures
        exists|f: nat|
            run_inst(Instruction::Loop(b), st, f) == Outcome::Halt(s, r),
    decreases fuel, seq_size(b@), 2int,
{
    let lv = Instruction::Loop(b);
    if st.cell() == 0 {
        assert(run_inst(lv, st, 0nat) == Outcome::Halt(st, ExecutionResult::Success));
    } else {
        match run_seq(b2@, st, (fuel - 1) as nat) {
            Outcome::Timeout => {
                assert(false);
            },
            Outcome::Halt(sb, rb) => {
                lemma_replace_reflects(b@, b2@, st, (fuel - 1) as nat, sb, rb);
                let fb = choose|f: nat|
                    #[trigger] run_seq(b@, st, f) == Outcome::Halt(sb, rb);
                if rb == ExecutionResult::Success {
                    crate::semantics::lemma_run_seq_wf(b@, st, fb, sb, rb);
                    lemma_replace_reflects_loop(b, b2, sb, (fuel - 1) as nat, s, r);
                    let fl = choose|f: nat|
                        #[trigger] run_inst(lv, sb, f) == Outcome::Halt(s, r);
                    let fm: nat = if fb >= fl {
                        fb
                    } else {
                        fl
                    };
                    crate::semantics::lemma_run_seq_mono(b@, st, fb, fm);
                    crate::semantics::lemma_run_inst_mono(lv, sb, fl, fm);
                    assert(run_inst(lv, st, (fm + 1) as nat) == Outcome::Halt(s, r));
                } else {
                    assert(s == sb && r == rb);
                    assert(run_inst(lv, st, (fb + 1) as nat) == Outcome::Halt(s, r));
                }
            },
        }
    }
}

/// The whole optimizer — merging, then idiom replacement — preserves
/// behaviour on every run that does not overflow: wherever the evaluator halts
/// the program, it halts the optimized program at the same fuel, in the same
/// state, with the same classification.
pub proof fn lemma_optimize_preserves(
    p: Seq<Instruction>,
    mid: Seq<Instruction>,
    q: Seq<Instruction>,
    st: StateModel,
    fuel: nat,
    s: StateModel,
    r: ExecutionResult,
)
    requires
        st.wf(),
        st.tape.len() <= 0x8000_0000,
        combine_rel(p, mid),
        crate::optimize::replace_rel(mid, q),
        run_seq(p, st, fuel) == Outcome::Halt(s, r),
        r != ExecutionResult::Overflow,
    ensures
        run_seq(q, st, fuel) == Outcome::Halt(s, r),
{
    lemma_combine_preserves(p, mid, st, fuel, s, r);
    lemma_replace_preserves(mid, q, st, fuel, s, r);
}

/// Compiling the optimized program changes nothing observable: whenever the
/// evaluator halts the original program without `Overflow` and the flat
/// machine halts the optimized program's lowering from the same state, the
/// machine ends in the evaluator's state with the evaluator's classification —
/// so `run` over `generate` of the optimized program produces identical output
/// and execution result to the original's.
pub proof fn lemma_optimized_compiled_agrees(
    p: Seq<Instruction>,
    mid: Seq<Instruction>,
    q: Seq<Instruction>,
    st: StateModel,
    fuel: nat,
    steps: nat,
    s1: StateModel,
    r1: ExecutionResult,
    s2: StateModel,
    r2: ExecutionResult,
)
    requires
        st.wf(),
        st.tape.len() <= 0x8000_0000,
        lower_seq(q, 0).len() <= usize::MAX,
        combine_rel(p, mid),
        crate::optimize::replace_rel(mid, q),
        run_seq(p, st, fuel) == Outcome::Halt(s1, r1),
        r1 != ExecutionResult::Overflow,
        flat_run(lower_seq(q, 0), 0, st, steps) == Flat::Halted(s2, r2),
    ensures
        s2 == s1,
        r2 == r1,
{
    lemma_optimize_preserves(p, mid, q, st, fuel, s1, r1);
    lemma_compiled_agrees_with_interpreted(q, st, fuel, steps, s1, r1, s2, r2);
}

/// Adding zero to a cell changes nothing.
proof fn lemma_wrap_add_zero(c: u8)
    ensures
        wrap_add(c, 0i8) == c,
{
}

/// Two wrapped cell increments compose to the increment by their wrapped sum.
proof fn lemma_wrap_chain(c: u8, a: i8, b: i8)
    ensures
        wrap_add(wrap_add(c, a), b) == wrap_add(c, wrap_add_i8(a, b)),
{
    let ci = c as int;
    let ai = a as int;
    let bi = b as int;
    lemma_fundamental_div_mod(ci + ai, 256);
    let k1 = (ci + ai) / 256;
    assert(wrap_add(c, a) as int == ci + ai - 256 * k1);
    lemma_mod_multiples_vanish(-k1, ci + ai + bi, 256);
    assert((wrap_add(c, a) as int + bi) % 256 == (ci + ai + bi) % 256) by {
        assert(wrap_add(c, a) as int + bi == 256 * (-k1) + (ci + ai + bi));
    }
    lemma_fundamental_div_mod(ai + bi, 256);
    let k2 = (ai + bi) / 256;
    let s = (ai + bi) % 256;
    if s >= 128 {
        assert(wrap_add_i8(a, b) as int == ai + bi - 256 * (k2 + 1));
        lemma_mod_multiples_vanish(-(k2 + 1), ci + ai + bi, 256);
        assert((ci + wrap_add_i8(a, b) as int) % 256 == (ci + ai + bi) % 256) by {
            assert(ci + wrap_add_i8(a, b) as int == 256 * (-(k2 + 1)) + (ci + ai + bi));
        }
    } else {
        assert(wrap_add_i8(a, b) as int == ai + bi - 256 * k2);
        lemma_mod_multiples_vanish(-k2, ci + ai + bi, 256);
        assert((ci + wrap_add_i8(a, b) as int) % 256 == (ci + ai + bi) % 256) by {
            assert(ci + wrap_add_i8(a, b) as int == 256 * (-k2) + (ci + ai + bi));
        }
    }
}

/// The wrapped sum of two pointer deltas is congruent to their exact sum.
proof fn lemma_wrap_i32_congruent(a: i32, b: i32)
    ensures
        (wrap_add_i32(a, b) - (a + b)) % 0x1_0000_0000 == 0,
{
    let m = 0x1_0000_0000int;
    lemma_fundamental_div_mod(a + b, m);
    let k = (a + b) / m;
    let s = (a + b) % m;
    if s >= 0x8000_0000 {
        assert(wrap_add_i32(a, b) as int == a + b - m * (k + 1));
        lemma_mod_multiples_vanish(-(k + 1), 0, m);
        assert((wrap_add_i32(a, b) - (a + b)) % m == 0) by {
            assert(wrap_add_i32(a, b) - (a + b) == m * (-(k + 1)) + 0);
        }
    } else {
        assert(wrap_add_i32(a, b) as int == a + b - m * k);
        lemma_mod_multiples_vanish(-k, 0, m);
        assert((wrap_add_i32(a, b) - (a + b)) % m == 0) by {
            assert(wrap_add_i32(a, b) - (a + b) == m * (-k) + 0);
        }
    }
}

/// A multiple of `m` strictly between `-m` and `m` is zero.
proof fn lemma_small_mod_zero(x: int, m: int)
    requires
        m > 0,
        -m < x < m,
        x % m == 0,
    ensures
        x == 0,
{
    lemma_fundamental_div_mod(x, m);
    let q = x / m;
    assert(x == m * q);
    assert(q == 0) by (nonlinear_arith)
        requires
            x == m * q,
            -m < x < m,
            m > 0,
    ;
}

/// The merging pass preserves behaviour on every run that does not overflow:
/// wherever the evaluator halts a program without `Overflow`, it halts the
/// rewritten program at the same fuel, in the same state, with the same
/// classification.  (A run that overflows inside a merged run of moves may be
/// rescued by the merge — moving off the tape and back is an overflow before
/// merging and none after — so such runs are left out.)
pub proof fn lemma_combine_preserves(
    p: Seq<Instruction>,
    q: Seq<Instruction>,
    st: StateModel,
    fuel: nat,
    s: StateModel,
    r: ExecutionResult,
)
    requires
        st.wf(),
        st.tape.len() <= 0x8000_0000,
        combine_rel(p, q),
        run_seq(p, st, fuel) == Outcome::Halt(s, r),
        r != ExecutionResult::Overflow,
    ensures
        run_seq(q, st, fuel) == Outcome::Halt(s, r),
    decreases fuel, seq_size(p), 0int,
{
    if p.len() > 0 {
        crate::syntax::lemma_inst_size_lt(p, 0);
        match p[0] {
            Instruction::IncrementCell(a) => {
                assert(run_inst(p[0], st, fuel) == Outcome::Halt(
                    st.with_cell(wrap_add(st.cell(), a)),
                    ExecutionResult::Success,
                ));
                assert(st.with_cell(wrap_add(st.cell(), a)).wf());
                lemma_combine_inc(a, p.drop_first(), q, st, fuel, s, r);
            },
            Instruction::MovePointer(a) => {
                let np = st.pointer + a as int;
                if !(0 <= np < st.tape.len()) {
                    assert(r == ExecutionResult::Overflow);
                    assert(false);
                }
                lemma_wrap_i32_congruent(0i32, a);
                assert(wrap_add_i32(0i32, a) == a) by {
                    lemma_small_mod_zero(wrap_add_i32(0i32, a) - a, 0x1_0000_0000);
                }
                lemma_combine_move(a, p.drop_first(), q, st, a as int, fuel, s, r);
            },
            Instruction::Loop(b) => {
                match run_inst(p[0], st, fuel) {
                    Outcome::Timeout => {
                        assert(false);
                    },
                    Outcome::Halt(sm, rh) => {
                        match q[0] {
                            Instruction::Loop(b2) => {
                                lemma_combine_loop(b, b2, st, fuel, sm, rh);
                            },
                            _ => {
                                assert(false);
                            },
                        }
                        if rh == ExecutionResult::Success {
                            crate::semantics::lemma_run_inst_wf(p[0], st, fuel, sm, rh);
                            crate::semantics::lemma_run_inst_frame(p[0], st, fuel, sm, rh);
                            lemma_combine_preserves(
                                p.drop_first(),
                                q.drop_first(),
                                sm,
                                fuel,
                                s,
                                r,
                            );
                        } else {
                            assert(s == sm && r == rh);
                        }
                    },
                }
            },
            _ => {
                assert(q[0] == p[0]);
                match run_inst(p[0], st, fuel) {
                    Outcome::Timeout => {
                        assert(false);
                    },
                    Outcome::Halt(sm, rh) => {
                        if rh == ExecutionResult::Success {
                            crate::semantics::lemma_run_inst_wf(p[0], st, fuel, sm, rh);
                            crate::semantics::lemma_run_inst_frame(p[0], st, fuel, sm, rh);
                            lemma_combine_preserves(
                                p.drop_first(),
                                q.drop_first(),
                                sm,
                                fuel,
                                s,
                                r,
                            );
                        } else {
                            assert(s == sm && r == rh);
                        }
                    },
                }
            },
        }
    }
}

/// Preservation through an open run of cell increments: `acc` is the merged
/// sum of the increments already passed, not yet applied in the rewritten
/// program.
proof fn lemma_combine_inc(
    acc: i8,
    p: Seq<Instruction>,
    q: Seq<Instruction>,
    st0: StateModel,
    fuel: nat,
    s: StateModel,
    r: ExecutionResult,
)
    requires
        st0.wf(),
        st0.tape.len() <= 0x8000_0000,
        combine_inc_rel(acc, p, q),
        run_seq(p, st0.with_cell(wrap_add(st0.cell(), acc)), fuel) == Outcome::Halt(s, r),
        r != ExecutionResult::Overflow,
    ensures
        run_seq(q, st0, fuel) == Outcome::Halt(s, r),
    decreases fuel, seq_size(p), 1int,
{
    let cur = st0.with_cell(wrap_add(st0.cell(), acc));
    assert(cur.wf());
    assert(cur.cell() == wrap_add(st0.cell(), acc));
    if p.len() > 0 && (p[0] is IncrementCell) {
        crate::syntax::lemma_inst_size_lt(p, 0);
        let b = p[0]->IncrementCell_0;
        let cur2 = cur.with_cell(wrap_add(cur.cell(), b));
        assert(run_inst(p[0], cur, fuel) == Outcome::Halt(cur2, ExecutionResult::Success));
        lemma_wrap_chain(st0.cell(), acc, b);
        assert(cur2.tape =~= st0.with_cell(wrap_add(st0.cell(), wrap_add_i8(acc, b))).tape);
        assert(cur2 == st0.with_cell(wrap_add(st0.cell(), wrap_add_i8(acc, b))));
        lemma_combine_inc(wrap_add_i8(acc, b), p.drop_first(), q, st0, fuel, s, r);
    } else if acc == 0 {
        lemma_wrap_add_zero(st0.cell());
        assert(cur.tape =~= st0.tape);
        assert(cur == st0);
        lemma_combine_preserves(p, q, st0, fuel, s, r);
    } else {
        assert(q[0] == Instruction::IncrementCell(acc));
        assert(run_inst(q[0], st0, fuel) == Outcome::Halt(cur, ExecutionResult::Success));
        lemma_combine_preserves(p, q.drop_first(), cur, fuel, s, r);
    }
}

/// Preservation through an open run of pointer moves: `delta` is the exact sum
/// of the moves already passed, `acc` their wrapped sum, each intermediate
/// position in bounds because the run did not overflow.
proof fn lemma_combine_move(
    acc: i32,
    p: Seq<Instruction>,
    q: Seq<Instruction>,
    st0: StateModel,
    delta: int,
    fuel: nat,
    s: StateModel,
    r: ExecutionResult,
)
    requires
        st0.wf(),
        st0.tape.len() <= 0x8000_0000,
        combine_move_rel(acc, p, q),
        0 <= st0.pointer + delta < st0.tape.len(),
        -(st0.tape.len() as int) < delta < st0.tape.len(),
        (acc as int - delta) % 0x1_0000_0000 == 0,
        run_seq(p, StateModel { pointer: st0.pointer + delta, ..st0 }, fuel) == Outcome::Halt(
            s,
            r,
        ),
        r != ExecutionResult::Overflow,
    ensures
        run_seq(q, st0, fuel) == Outcome::Halt(s, r),
    decreases fuel, seq_size(p), 1int,
{
    let m = 0x1_0000_0000int;
    let cur = StateModel { pointer: st0.pointer + delta, ..st0 };
    assert(cur.wf());
    if p.len() > 0 && (p[0] is MovePointer) {
        crate::syntax::lemma_inst_size_lt(p, 0);
        let b = p[0]->MovePointer_0;
        let np = cur.pointer + b as int;
        if !(0 <= np < cur.tape.len()) {
            assert(run_inst(p[0], cur, fuel) == Outcome::Halt(cur, ExecutionResult::Overflow));
            assert(r == ExecutionResult::Overflow);
            assert(false);
        }
        let cur2 = StateModel { pointer: np, ..cur };
        assert(run_inst(p[0], cur, fuel) == Outcome::Halt(cur2, ExecutionResult::Success));
        assert(cur2 == StateModel { pointer: st0.pointer + (delta + b as int), ..st0 });
        lemma_wrap_i32_congruent(acc, b);
        assert((wrap_add_i32(acc, b) as int - (delta + b as int)) % m == 0) by {
            lemma_fundamental_div_mod(wrap_add_i32(acc, b) - (acc + b), m);
            lemma_fundamental_div_mod(acc as int - delta, m);
            let j1 = (wrap_add_i32(acc, b) - (acc + b)) / m;
            let j2 = (acc as int - delta) / m;
            assert(wrap_add_i32(acc, b) as int - (delta + b as int) == m * (j1 + j2) + 0);
            lemma_mod_multiples_vanish(j1 + j2, 0, m);
        }
        lemma_combine_move(
            wrap_add_i32(acc, b),
            p.drop_first(),
            q,
            st0,
            delta + b as int,
            fuel,
            s,
            r,
        );
    } else if acc == 0 {
        assert(delta == 0) by {
            lemma_small_mod_zero(0 - delta, m);
        }
        assert(cur == st0);
        lemma_combine_preserves(p, q, st0, fuel, s, r);
    } else {
        assert(q[0] == Instruction::MovePointer(acc));
        assert(acc as int == delta) by {
            lemma_small_mod_zero(acc as int - delta, m);
        }
        assert(run_inst(q[0], st0, fuel) == Outcome::Halt(cur, ExecutionResult::Success));
        lemma_combine_preserves(p, q.drop_first(), cur, fuel, s, r);
    }
}

/// Preservation for one loop whose body was rewritten by the merging pass.
proof fn lemma_combine_loop(
    b: Vec<Instruction>,
    b2: Vec<Instruction>,
    st: StateModel,
    fuel: nat,
    s: StateModel,
    r: ExecutionResult,
)
    requires
        st.wf(),
        st.tape.len() <= 0x8000_0000,
        combine_rel(b@, b2@),
        run_inst(Instruction::Loop(b), st, fuel) == Outcome::Halt(s, r),
        r != ExecutionResult::Overflow,
    ensures
        run_inst(Instruction::Loop(b2), st, fuel) == Outcome::Halt(s, r),
    decreases fuel, seq_size(b@), 2int,
{
    if st.cell() != 0 {
        match run_seq(b@, st, (fuel - 1) as nat) {
            Outcome::Timeout => {
                assert(false);
            },
            Outcome::Halt(sb, rb) => {
                if rb == ExecutionResult::Success {
                    lemma_combine_preserves(b@, b2@, st, (fuel - 1) as nat, sb, rb);
                    crate::semantics::lemma_run_seq_wf(b@, st, (fuel - 1) as nat, sb, rb);
                    crate::semantics::lemma_run_seq_frame(b@, st, (fuel - 1) as nat, sb, rb);
                    lemma_combine_loop(b, b2, sb, (fuel - 1) as nat, s, r);
                } else {
                    assert(rb == r && sb == s);
                    lemma_combine_preserves(b@, b2@, st, (fuel - 1) as nat, sb, rb);
                }
            },
        }
    }
}

} // verus!
