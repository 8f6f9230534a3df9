//! The optimizer: rewrites an instruction sequence into a semantically
//! equivalent, faster one.  Two passes, each a total function over the
//! sequence, recursing into loop bodies and applied once (no fixpoint):
//!
//! - `CombineIncrements` merges every maximal run of adjacent cell increments,
//!   and every maximal run of adjacent pointer moves, into one instruction
//!   whose delta is the modular sum of the run; a net-zero run is dropped
//!   entirely.  Distinct kinds are never merged with each other.
//! - `ReplaceSet` recognizes a loop whose body is exactly one decrement of the
//!   current cell — which drives the cell to zero from any starting value — and
//!   replaces it with `SetCell(0)`.  Loops of any other shape are left
//!   untouched.
//!
//! Each pass's contract is a recursive relation that pins the output sequence
//! structurally, element by element, against the input.

use vstd::prelude::*;

use crate::syntax::{inst_size, seq_size, Instruction};

verus! {

/// The sum of two cell deltas, wrapping as an 8-bit value.
pub open spec fn wrap_add_i8(a: i8, b: i8) -> i8 {
    let s = (a + b) % 256;
    if s >= 128 {
        (s - 256) as i8
    } else {
        s as i8
    }
}

/// Add two cell deltas with 8-bit wraparound.
pub fn wrap_add_i8_exec(a: i8, b: i8) -> (r: i8)
    ensures
        r == wrap_add_i8(a, b),
{
    let s: i16 = a as i16 + b as i16;
    let m: i16 = if s < 0 {
        s + 256
    } else if s >= 256 {
        s - 256
    } else {
        s
    };
    if m >= 128 {
        (m - 256) as i8
    } else {
        m as i8
    }
}

/// The sum of two pointer deltas, wrapping as a 32-bit value.
pub open spec fn wrap_add_i32(a: i32, b: i32) -> i32 {
    let s = (a + b) % 0x1_0000_0000;
    if s >= 0x8000_0000 {
        (s - 0x1_0000_0000) as i32
    } else {
        s as i32
    }
}

/// Add two pointer deltas with 32-bit wraparound.
pub fn wrap_add_i32_exec(a: i32, b: i32) -> (r: i32)
    ensures
        r == wrap_add_i32(a, b),
{
    let s: i64 = a as i64 + b as i64;
    let m: i64 = if s < 0 {
        s + 0x1_0000_0000
    } else if s >= 0x1_0000_0000 {
        s - 0x1_0000_0000
    } else {
        s
    };
    if m >= 0x8000_0000 {
        (m - 0x1_0000_0000) as i32
    } else {
        m as i32
    }
}

/// `q` is `p` with every maximal run of adjacent increments of one kind merged
/// into a single instruction holding the run's modular sum, net-zero runs
/// dropped, and loop bodies rewritten the same way.
pub open spec fn combine_rel(p: Seq<Instruction>, q: Seq<Instruction>) -> bool
    decreases seq_size(p), 0int,
    via combine_rel_decreases
{
    if p.len() == 0 {
        q.len() == 0
    } else {
        match p[0] {
            Instruction::IncrementCell(a) => combine_inc_rel(a, p.drop_first(), q),
            Instruction::MovePointer(a) => combine_move_rel(a, p.drop_first(), q),
            Instruction::Loop(b) => q.len() >= 1 && combine_rel(p.drop_first(), q.drop_first())
                && match q[0] {
                Instruction::Loop(b2) => combine_rel(b@, b2@),
                _ => false,
            },
            _ => q.len() >= 1 && q[0] == p[0] && combine_rel(p.drop_first(), q.drop_first()),
        }
    }
}

#[via_fn]
proof fn combine_rel_decreases(p: Seq<Instruction>, q: Seq<Instruction>) {
    if p.len() > 0 {
        match p[0] {
            Instruction::Loop(b) => {
                assert(inst_size(p[0]) == 1 + seq_size(b@));
                assert(seq_size(p) == 1 + inst_size(p[0]) + seq_size(p.drop_first()));
            },
            _ => {},
        }
    }
}

/// An open run of cell increments summing to `acc` stands before `p`; `q` is
/// the rewrite of the whole remainder.
pub open spec fn combine_inc_rel(acc: i8, p: Seq<Instruction>, q: Seq<Instruction>) -> bool
    decreases seq_size(p), 1int,
{
    if p.len() > 0 && (p[0] is IncrementCell) {
        combine_inc_rel(wrap_add_i8(acc, p[0]->IncrementCell_0), p.drop_first(), q)
    } else if acc == 0 {
        combine_rel(p, q)
    } else {
        q.len() >= 1 && q[0] == Instruction::IncrementCell(acc) && combine_rel(p, q.drop_first())
    }
}

/// An open run of pointer moves summing to `acc` stands before `p`; `q` is the
/// rewrite of the whole remainder.
pub open spec fn combine_move_rel(acc: i32, p: Seq<Instruction>, q: Seq<Instruction>) -> bool
    decreases seq_size(p), 1int,
{
    if p.len() > 0 && (p[0] is MovePointer) {
        combine_move_rel(wrap_add_i32(acc, p[0]->MovePointer_0), p.drop_first(), q)
    } else if acc == 0 {
        combine_rel(p, q)
    } else {
        q.len() >= 1 && q[0] == Instruction::MovePointer(acc) && combine_rel(p, q.drop_first())
    }
}

/// The peephole pass that merges adjacent increments and moves.
pub struct CombineIncrements;

impl CombineIncrements {
    /// Rewrite a program: every maximal run of adjacent increments of one kind
    /// becomes one instruction with the run's modular sum; net-zero runs
    /// vanish; loop bodies are rewritten recursively.
    pub fn optimize(&self, nodes: Vec<Instruction>) -> (r: Vec<Instruction>)
        ensures
            combine_rel(nodes@, r@),
    {
        combine_seq(nodes)
    }
}

fn combine_seq(rest: Vec<Instruction>) -> (r: Vec<Instruction>)
    ensures
        combine_rel(rest@, r@),
    decreases seq_size(rest@), 0int,
{
    let mut work = rest;
    if work.len() == 0 {
        return Vec::new();
    }
    let h = work.remove(0);
    proof {
        assert(work@ =~= rest@.drop_first());
        assert(h == rest@[0]);
    }
    match h {
        Instruction::IncrementCell(a) => combine_inc(a, work),
        Instruction::MovePointer(a) => combine_move(a, work),
        Instruction::Loop(b) => {
            proof {
                assert(inst_size(rest@[0]) == 1 + seq_size(b@));
                assert(seq_size(rest@) == 1 + inst_size(rest@[0]) + seq_size(rest@.drop_first()));
            }
            let nb = combine_seq(b);
            let mut r = combine_seq(work);
            let ghost prev = r@;
            r.insert(0, Instruction::Loop(nb));
            proof {
                assert(r@[0] == Instruction::Loop(nb));
                assert(r@.drop_first() =~= prev);
            }
            r
        },
        other => {
            let mut r = combine_seq(work);
            let ghost prev = r@;
            let ghost ov = other;
            r.insert(0, other);
            proof {
                assert(r@[0] == ov);
                assert(r@.drop_first() =~= prev);
            }
            r
        },
    }
}

fn combine_inc(acc: i8, rest: Vec<Instruction>) -> (r: Vec<Instruction>)
    ensures
        combine_inc_rel(acc, rest@, r@),
    decreases seq_size(rest@), 1int,
{
    let mut work = rest;
    if work.len() > 0 {
        let h = work.remove(0);
        proof {
            assert(work@ =~= rest@.drop_first());
            assert(h == rest@[0]);
        }
        match h {
            Instruction::IncrementCell(b) => {
                return combine_inc(wrap_add_i8_exec(acc, b), work);
            },
            other => {
                work.insert(0, other);
                proof {
                    assert(work@ =~= rest@);
                }
            },
        }
    }
    if acc == 0 {
        combine_seq(work)
    } else {
        let mut r = combine_seq(work);
        let ghost prev = r@;
        r.insert(0, Instruction::IncrementCell(acc));
        proof {
            assert(r@[0] == Instruction::IncrementCell(acc));
            assert(r@.drop_first() =~= prev);
        }
        r
    }
}

fn combine_move(acc: i32, rest: Vec<Instruction>) -> (r: Vec<Instruction>)
    ensures
        combine_move_rel(acc, rest@, r@),
    decreases seq_size(rest@), 1int,
{
    let mut work = rest;
    if work.len() > 0 {
        let h = work.remove(0);
        proof {
            assert(work@ =~= rest@.drop_first());
            assert(h == rest@[0]);
        }
        match h {
            Instruction::MovePointer(b) => {
                return combine_move(wrap_add_i32_exec(acc, b), work);
            },
            other => {
                work.insert(0, other);
                proof {
                    assert(work@ =~= rest@);
                }
            },
        }
    }
    if acc == 0 {
        combine_seq(work)
    } else {
        let mut r = combine_seq(work);
        let ghost prev = r@;
        r.insert(0, Instruction::MovePointer(acc));
        proof {
            assert(r@[0] == Instruction::MovePointer(acc));
            assert(r@.drop_first() =~= prev);
        }
        r
    }
}

/// The loop body that the idiom-replacement pass recognizes: exactly one
/// decrement of the current cell, which drives the cell to zero from any
/// starting value.
pub open spec fn is_clear_loop_body(b: Seq<Instruction>) -> bool {
    b.len() == 1 && b[0] == Instruction::IncrementCell(-1i8)
}

/// `q` is `p` with every loop of the recognized clearing shape replaced by
/// `SetCell(0)`, other loop bodies rewritten recursively, and everything else
/// kept as it stands.
pub open spec fn replace_rel(p: Seq<Instruction>, q: Seq<Instruction>) -> bool
    decreases seq_size(p),
    via replace_rel_decreases
{
    if p.len() == 0 {
        q.len() == 0
    } else {
        q.len() >= 1 && replace_rel(p.drop_first(), q.drop_first()) && match p[0] {
            Instruction::Loop(b) => {
                if is_clear_loop_body(b@) {
                    q[0] == Instruction::SetCell(0u8)
                } else {
                    match q[0] {
                        Instruction::Loop(b2) => replace_rel(b@, b2@),
                        _ => false,
                    }
                }
            },
            _ => q[0] == p[0],
        }
    }
}

#[via_fn]
proof fn replace_rel_decreases(p: Seq<Instruction>, q: Seq<Instruction>) {
    if p.len() > 0 {
        match p[0] {
            Instruction::Loop(b) => {
                assert(inst_size(p[0]) == 1 + seq_size(b@));
                assert(seq_size(p) == 1 + inst_size(p[0]) + seq_size(p.drop_first()));
            },
            _ => {},
        }
    }
}

/// The idiom-replacement pass that turns clearing loops into `SetCell(0)`.
pub struct ReplaceSet;

impl ReplaceSet {
    /// Rewrite a program: every loop whose body is exactly one cell decrement
    /// becomes `SetCell(0)`; other loops keep their shape, their bodies
    /// rewritten recursively.
    pub fn optimize(&self, nodes: Vec<Instruction>) -> (r: Vec<Instruction>)
        ensures
            replace_rel(nodes@, r@),
    {
        replace_seq(nodes)
    }
}

fn replace_seq(rest: Vec<Instruction>) -> (r: Vec<Instruction>)
    ensures
        replace_rel(rest@, r@),
    decreases seq_size(rest@),
{
    let mut work = rest;
    if work.len() == 0 {
        return Vec::new();
    }
    let h = work.remove(0);
    proof {
        assert(work@ =~= rest@.drop_first());
        assert(h == rest@[0]);
    }
    match h {
        Instruction::Loop(b) => {
            proof {
                assert(inst_size(rest@[0]) == 1 + seq_size(b@));
                assert(seq_size(rest@) == 1 + inst_size(rest@[0]) + seq_size(rest@.drop_first()));
            }
            let clears = b.len() == 1 && matches!(&b[0], Instruction::IncrementCell(-1i8));
            proof {
                assert(clears == is_clear_loop_body(b@));
            }
            let mut r = replace_seq(work);
            let ghost prev = r@;
            if clears {
                r.insert(0, Instruction::SetCell(0));
                proof {
                    assert(r@[0] == Instruction::SetCell(0u8));
                    assert(r@.drop_first() =~= prev);
                }
            } else {
                let nb = replace_seq(b);
                r.insert(0, Instruction::Loop(nb));
                proof {
                    assert(r@[0] == Instruction::Loop(nb));
                    assert(r@.drop_first() =~= prev);
                }
            }
            r
        },
        other => {
            let mut r = replace_seq(work);
            let ghost prev = r@;
            let ghost ov = other;
            r.insert(0, other);
            proof {
                assert(r@[0] == ov);
                assert(r@.drop_first() =~= prev);
            }
            r
        },
    }
}

} // verus!
