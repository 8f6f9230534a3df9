use tapejit::codegen::CodeGeneration;
use tapejit::interpreter::Interpreter;
use tapejit::optimize::{CombineIncrements, ReplaceSet};
use tapejit::state::State;
use tapejit::syntax::{ExecutionResult, Instruction};

const FUEL: u64 = 1_000_000;

#[test]
fn combine_merges_increment_run() {
    // +3, +4, -2 on the same cell collapses to a single +5.
    let prog = vec![
        Instruction::IncrementCell(3),
        Instruction::IncrementCell(4),
        Instruction::IncrementCell(-2),
    ];
    let opt = CombineIncrements.optimize(prog);
    assert_eq!(opt, vec![Instruction::IncrementCell(5)]);
}

#[test]
fn combine_drops_net_zero_run() {
    let prog = vec![
        Instruction::IncrementCell(3),
        Instruction::IncrementCell(-3),
    ];
    let opt = CombineIncrements.optimize(prog);
    assert_eq!(opt, vec![]);
}

#[test]
fn combine_merges_pointer_moves_but_not_across_kinds() {
    let prog = vec![
        Instruction::MovePointer(2),
        Instruction::MovePointer(3),
        Instruction::IncrementCell(1),
        Instruction::IncrementCell(1),
        Instruction::MovePointer(-4),
    ];
    let opt = CombineIncrements.optimize(prog);
    assert_eq!(
        opt,
        vec![
            Instruction::MovePointer(5),
            Instruction::IncrementCell(2),
            Instruction::MovePointer(-4),
        ]
    );
}

#[test]
fn combine_recurses_into_loop_bodies() {
    let prog = vec![Instruction::Loop(vec![
        Instruction::IncrementCell(1),
        Instruction::IncrementCell(1),
    ])];
    let opt = CombineIncrements.optimize(prog);
    assert_eq!(opt, vec![Instruction::Loop(vec![Instruction::IncrementCell(2)])]);
}

#[test]
fn replace_turns_clearing_loop_into_set() {
    let prog = vec![Instruction::Loop(vec![Instruction::IncrementCell(-1)])];
    let opt = ReplaceSet.optimize(prog);
    assert_eq!(opt, vec![Instruction::SetCell(0)]);
}

#[test]
fn replace_leaves_other_loops_untouched() {
    let prog = vec![Instruction::Loop(vec![
        Instruction::IncrementCell(-1),
        Instruction::MovePointer(1),
        Instruction::MovePointer(-1),
    ])];
    let opt = ReplaceSet.optimize(prog);
    assert_eq!(
        opt,
        vec![Instruction::Loop(vec![
            Instruction::IncrementCell(-1),
            Instruction::MovePointer(1),
            Instruction::MovePointer(-1),
        ])]
    );
}

#[test]
fn clearing_loop_and_set_agree_from_cell_200() {
    // Drive the cell to 200, then clear it either way: no observable
    // difference besides performance.
    let mut with_loop = vec![
        Instruction::IncrementCell(100),
        Instruction::IncrementCell(100),
        Instruction::Loop(vec![Instruction::IncrementCell(-1)]),
        Instruction::Write,
    ];
    let (r1, out1) = Interpreter::new(64).interpret(&with_loop, vec![], FUEL);
    assert_eq!(r1, Some(ExecutionResult::Success));
    assert_eq!(out1, vec![0]);

    with_loop = ReplaceSet.optimize(with_loop);
    assert_eq!(
        with_loop,
        vec![
            Instruction::IncrementCell(100),
            Instruction::IncrementCell(100),
            Instruction::SetCell(0),
            Instruction::Write,
        ]
    );
    let (r2, out2) = Interpreter::new(64).interpret(&with_loop, vec![], FUEL);
    assert_eq!(r2, Some(ExecutionResult::Success));
    assert_eq!(out2, vec![0]);
}

#[test]
fn optimized_program_runs_identically_compiled() {
    // Optimization preserves output and classification on the compiled path.
    let prog = vec![
        Instruction::IncrementCell(3),
        Instruction::IncrementCell(4),
        Instruction::IncrementCell(-2),
        Instruction::Write,
        Instruction::MovePointer(1),
        Instruction::MovePointer(1),
        Instruction::Read,
        Instruction::Loop(vec![Instruction::IncrementCell(-1)]),
        Instruction::Write,
    ];
    let mirror = vec![
        Instruction::IncrementCell(3),
        Instruction::IncrementCell(4),
        Instruction::IncrementCell(-2),
        Instruction::Write,
        Instruction::MovePointer(1),
        Instruction::MovePointer(1),
        Instruction::Read,
        Instruction::Loop(vec![Instruction::IncrementCell(-1)]),
        Instruction::Write,
    ];
    let optimized = ReplaceSet.optimize(CombineIncrements.optimize(mirror));

    let run = |p: &Vec<Instruction>| {
        let exe = CodeGeneration::x64().generate(p, 0, 0);
        let mut st = State::new(256, vec![9], usize::MAX);
        let r = exe.run(&mut st, FUEL).expect("halts");
        (r, st.output)
    };
    let (r1, out1) = run(&prog);
    let (r2, out2) = run(&optimized);
    assert_eq!(r1, r2);
    assert_eq!(out1, out2);
    assert_eq!(out1, vec![5, 0]);
}

#[test]
fn combine_wraps_the_merged_delta() {
    // 100 + 100 + 100 = 300, which wraps to 44 modulo 256.
    let prog = vec![
        Instruction::IncrementCell(100),
        Instruction::IncrementCell(100),
        Instruction::IncrementCell(100),
    ];
    let opt = CombineIncrements.optimize(prog);
    assert_eq!(opt, vec![Instruction::IncrementCell(44)]);
}

#[test]
fn replace_rewrites_inside_nested_loops() {
    let prog = vec![Instruction::Loop(vec![
        Instruction::MovePointer(1),
        Instruction::Loop(vec![Instruction::IncrementCell(-1)]),
        Instruction::MovePointer(-1),
        Instruction::IncrementCell(-1),
    ])];
    let opt = ReplaceSet.optimize(prog);
    assert_eq!(
        opt,
        vec![Instruction::Loop(vec![
            Instruction::MovePointer(1),
            Instruction::SetCell(0),
            Instruction::MovePointer(-1),
            Instruction::IncrementCell(-1),
        ])]
    );
}

#[test]
fn both_paths_agree_after_full_optimization() {
    // A looping program with reads and writes, run four ways: interpreted and
    // compiled, original and optimized.  All four agree byte for byte.
    let build = || {
        vec![
            Instruction::Read,
            Instruction::Loop(vec![
                Instruction::Write,
                Instruction::IncrementCell(-1),
                Instruction::IncrementCell(0),
            ]),
            Instruction::MovePointer(2),
            Instruction::MovePointer(-1),
            Instruction::Read,
            Instruction::Loop(vec![Instruction::IncrementCell(-1)]),
            Instruction::Write,
        ]
    };
    let optimized = ReplaceSet.optimize(CombineIncrements.optimize(build()));

    let input = vec![3u8, 7u8];
    let (ri, oi) = {
        let (r, o) = Interpreter::new(64).interpret(&build(), input.clone(), FUEL);
        (r.expect("halts"), o)
    };
    let run_compiled = |p: &Vec<Instruction>| {
        let exe = CodeGeneration::x64().generate(p, 0, 0);
        let mut st = State::new(64, input.clone(), usize::MAX);
        let r = exe.run(&mut st, FUEL).expect("halts");
        (r, st.output)
    };
    let (rc, oc) = run_compiled(&build());
    let (ro, oo) = run_compiled(&optimized);
    assert_eq!(ri, rc);
    assert_eq!(oi, oc);
    assert_eq!(rc, ro);
    assert_eq!(oc, oo);
    assert_eq!(oi, vec![3, 2, 1, 0]);
    assert_eq!(ri, ExecutionResult::Success);
}
