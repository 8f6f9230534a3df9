use tapejit::codegen::CodeGeneration;
use tapejit::lowering::LowOp;
use tapejit::syntax::Instruction;

const PROLOGUE: [u8; 19] = [
    0x48, 0x83, 0xec, 0x28, // sub rsp, 0x28
    0x48, 0x89, 0x4c, 0x24, 0x30, // mov [rsp+0x30], rcx
    0x4c, 0x89, 0x44, 0x24, 0x40, // mov [rsp+0x40], r8
    0x4c, 0x89, 0x4c, 0x24, 0x48, // mov [rsp+0x48], r9
];

fn exit_block(code: u8) -> Vec<u8> {
    vec![
        0x48, 0xc7, 0xc0, code, 0x00, 0x00, 0x00, // mov rax, code
        0x48, 0x83, 0xc4, 0x28, // add rsp, 0x28
        0xc3, // ret
    ]
}

fn epilogue() -> Vec<u8> {
    let mut e = exit_block(0);
    e.extend(exit_block(1));
    e.extend(exit_block(2));
    e
}

#[test]
fn single_increment_assembles_exactly() {
    let exe = CodeGeneration::x64().generate(&vec![Instruction::IncrementCell(1)], 0, 0);
    let mut expected = PROLOGUE.to_vec();
    expected.extend([0x80, 0x02, 0x01]); // add BYTE [rdx], 1
    expected.extend(epilogue());
    assert_eq!(exe.code, expected);
}

#[test]
fn pointer_move_and_set_assemble_exactly() {
    let exe = CodeGeneration::x64().generate(
        &vec![Instruction::MovePointer(-2), Instruction::SetCell(7)],
        0,
        0,
    );
    let mut expected = PROLOGUE.to_vec();
    expected.extend([0x48, 0x81, 0xc2, 0xfe, 0xff, 0xff, 0xff]); // add rdx, -2
    expected.extend([0xc6, 0x02, 0x07]); // mov BYTE [rdx], 7
    expected.extend(epilogue());
    assert_eq!(exe.code, expected);
}

#[test]
fn write_call_tests_status_and_branches_to_io_exit() {
    let waddr: u64 = 0x1122_3344_5566_7788;
    let exe = CodeGeneration::x64().generate(&vec![Instruction::Write], waddr, 0);
    let mut expected = PROLOGUE.to_vec();
    expected.extend([0x48, 0x89, 0x54, 0x24, 0x38]); // mov [rsp+0x38], rdx
    expected.extend([0x48, 0xb8]); // mov rax, imm64
    expected.extend([0x88, 0x77, 0x66, 0x55, 0x44, 0x33, 0x22, 0x11]);
    expected.extend([0xff, 0xd0]); // call rax
    expected.extend([0x48, 0x8b, 0x4c, 0x24, 0x30]); // mov rcx, [rsp+0x30]
    expected.extend([0x48, 0x8b, 0x54, 0x24, 0x38]); // mov rdx, [rsp+0x38]
    expected.extend([0x4c, 0x8b, 0x44, 0x24, 0x40]); // mov r8, [rsp+0x40]
    expected.extend([0x4c, 0x8b, 0x4c, 0x24, 0x48]); // mov r9, [rsp+0x48]
    expected.extend([0x3c, 0x00]); // cmp al, 0
    // jnz to the I/O-failure exit: it sits at 19 + 45 + 24 = 88, and the
    // branch ends at 19 + 45 = 64, so the displacement is 24.
    expected.extend([0x0f, 0x85, 24, 0, 0, 0]);
    expected.extend(epilogue());
    assert_eq!(exe.code, expected);
}

#[test]
fn loop_assembles_with_matching_branch_displacements() {
    let exe = CodeGeneration::x64().generate(
        &vec![Instruction::Loop(vec![Instruction::IncrementCell(-1)])],
        0,
        0,
    );
    let mut expected = PROLOGUE.to_vec();
    expected.extend([0x80, 0x3a, 0x00]); // cmp BYTE [rdx], 0
    // Body is 3 bytes; skip it and the trailing test: 3 + 9 = 12.
    expected.extend([0x0f, 0x84, 12, 0, 0, 0]); // jz forward
    expected.extend([0x80, 0x02, 0xff]); // add BYTE [rdx], -1
    expected.extend([0x80, 0x3a, 0x00]); // cmp BYTE [rdx], 0
    // Back to the first body byte: -(3 + 9) = -12.
    expected.extend([0x0f, 0x85, 0xf4, 0xff, 0xff, 0xff]); // jnz backward
    expected.extend(epilogue());
    assert_eq!(exe.code, expected);
}

#[test]
fn loop_lowers_to_flat_jumps() {
    let exe = CodeGeneration::x64().generate(
        &vec![
            Instruction::Loop(vec![Instruction::IncrementCell(-1)]),
            Instruction::Write,
        ],
        0,
        0,
    );
    assert_eq!(
        exe.ops,
        vec![
            LowOp::JumpIfZero(3),
            LowOp::AddCell(-1),
            LowOp::JumpIfNonzero(1),
            LowOp::WriteByte,
        ]
    );
}

#[test]
fn nested_loop_lowers_with_absolute_targets() {
    let exe = CodeGeneration::x64().generate(
        &vec![Instruction::Loop(vec![
            Instruction::MovePointer(1),
            Instruction::Loop(vec![Instruction::IncrementCell(2)]),
        ])],
        0,
        0,
    );
    assert_eq!(
        exe.ops,
        vec![
            LowOp::JumpIfZero(6),
            LowOp::MovePtr(1),
            LowOp::JumpIfZero(5),
            LowOp::AddCell(2),
            LowOp::JumpIfNonzero(3),
            LowOp::JumpIfNonzero(1),
        ]
    );
}
