use decompiler::disasm::ir::Operand::{Imm, Mem, Other, Reg};
use decompiler::decompiler::ast::{BinaryOperator, Expression, Statement, UnaryOperator};
use decompiler::decompiler::lifter::{canonicalize_reg_name, lift_ir_to_statement};
use decompiler::disasm::control_flow::Instruction;
use decompiler::disasm::ir::{InstructionIR, MemoryOperand, Operand};
use decompiler::disasm::x86::X86Instruction;

fn ir_instr(address: u64, op: &str, operands: Vec<Operand>) -> Instruction {
    Instruction::X86(X86Instruction {
        address,
        bytes: vec![],
        mnemonic: op.to_string(),
        operands: format_operands(&operands),
        length: 1,
        ir: Some(InstructionIR {
            address,
            op: op.to_string(),
            operands,
        }),
        near_branch_target: None,
    })
}

fn format_operands(operands: &[Operand]) -> String {
    operands
        .iter()
        .map(|o| match o {
            Reg(r) => r.clone(),
            Imm(v) => format!("{v}"),
            Mem(m) => {
                let base = m.base.as_deref().unwrap_or("");
                let disp = if m.disp >= 0 {
                    format!("+0x{:X}", m.disp)
                } else {
                    format!("-0x{:X}", m.disp.unsigned_abs())
                };
                format!("[{base}{disp}]")
            }
            Other(s) => s.clone(),
        })
        .collect::<Vec<_>>()
        .join(", ")
}

#[test]
fn lift_add_reg_imm_produces_assignment() {
    let stmt = lift_ir_to_statement(&ir_instr(
        0x1000,
        "add",
        vec![Reg("rax".to_string()), Imm(5)],
    ));
    assert!(
        matches!(
            stmt,
            Statement::Expression(Expression::Assignment { ref target, ref value })
                if matches!(target.as_ref(), Expression::Variable(name) if name == "rax")
                    && matches!(
                        value.as_ref(),
                        Expression::BinaryOperation {
                            op: BinaryOperator::Add,
                            ref left,
                            ref right,
                        } if matches!(left.as_ref(), Expression::Variable(name) if name == "rax")
                            && matches!(right.as_ref(), Expression::IntegerLiteral(5))
                    )
        ),
        "got {:?}",
        stmt
    );
}

#[test]
fn lift_sub_reg_reg_produces_assignment() {
    let stmt = lift_ir_to_statement(&ir_instr(
        0x1010,
        "sub",
        vec![Reg("rax".to_string()), Reg("rbx".to_string())],
    ));
    assert!(
        matches!(
            stmt,
            Statement::Expression(Expression::Assignment { ref target, ref value })
                if matches!(target.as_ref(), Expression::Variable(name) if name == "rax")
                    && matches!(
                        value.as_ref(),
                        Expression::BinaryOperation {
                            op: BinaryOperator::Subtract,
                            ref left,
                            ref right,
                        } if matches!(left.as_ref(), Expression::Variable(name) if name == "rax")
                            && matches!(right.as_ref(), Expression::Variable(name) if name == "rbx")
                    )
        ),
        "got {:?}",
        stmt
    );
}

#[test]
fn lift_neg_reg_produces_unary_assignment() {
    let stmt = lift_ir_to_statement(&ir_instr(
        0x1020,
        "neg",
        vec![Reg("rcx".to_string())],
    ));
    assert!(
        matches!(
            stmt,
            Statement::Expression(Expression::Assignment { ref target, ref value })
                if matches!(target.as_ref(), Expression::Variable(name) if name == "rcx")
                    && matches!(
                        value.as_ref(),
                        Expression::UnaryOperation {
                            op: UnaryOperator::Negate,
                            ref operand,
                        } if matches!(operand.as_ref(), Expression::Variable(name) if name == "rcx")
                    )
        ),
        "got {:?}",
        stmt
    );
}

#[test]
fn lift_inc_reg_produces_add_one() {
    let stmt = lift_ir_to_statement(&ir_instr(
        0x1030,
        "inc",
        vec![Reg("rdx".to_string())],
    ));
    assert!(
        matches!(
            stmt,
            Statement::Expression(Expression::Assignment { ref target, ref value })
                if matches!(target.as_ref(), Expression::Variable(name) if name == "rdx")
                    && matches!(
                        value.as_ref(),
                        Expression::BinaryOperation {
                            op: BinaryOperator::Add,
                            ref right,
                            ..
                        } if matches!(right.as_ref(), Expression::IntegerLiteral(1))
                    )
        ),
        "got {:?}",
        stmt
    );
}

#[test]
fn lift_and_or_xor_shift_produces_binary_op() {
    for (mnemonic, expected_op) in [
        ("and", BinaryOperator::BitwiseAnd),
        ("or", BinaryOperator::BitwiseOr),
        ("xor", BinaryOperator::BitwiseXor),
        ("shl", BinaryOperator::LeftShift),
        ("shr", BinaryOperator::RightShift),
    ] {
        let stmt = lift_ir_to_statement(&ir_instr(
            0x1040,
            mnemonic,
            vec![Reg("rax".to_string()), Imm(3)],
        ));
        assert!(
            matches!(
                stmt,
                Statement::Expression(Expression::Assignment { ref value, .. })
                    if matches!(
                        value.as_ref(),
                        Expression::BinaryOperation { ref op, .. }
                        if *op == expected_op
                    )
            ),
            "{mnemonic} did not produce expected op {expected_op:?}, got {stmt:?}"
        );
    }
}

#[test]
fn lift_mov_reg_imm_becomes_assignment() {
    let stmt = lift_ir_to_statement(&ir_instr(
        0x1050,
        "mov",
        vec![Reg("rax".to_string()), Imm(42)],
    ));
    assert!(
        matches!(
            stmt,
            Statement::Expression(Expression::Assignment { ref target, ref value })
                if matches!(target.as_ref(), Expression::Variable(name) if name == "rax")
                    && matches!(value.as_ref(), Expression::IntegerLiteral(42))
        ),
        "got {:?}",
        stmt
    );
}

#[test]
fn lift_memory_mov_rbp_offset_becomes_stack_var_assignment() {
    let stmt = lift_ir_to_statement(&ir_instr(
        0x1060,
        "mov",
        vec![
            Reg("rax".to_string()),
            Mem(MemoryOperand {
                base: Some("rbp".to_string()),
                index: None,
                scale: 1,
                disp: -8,
                size_bytes: Some(8),
            }),
        ],
    ));
    // mov rax, [rbp-8] → rax = local_8 (x86 AT&T order: dest is first operand)
    assert!(
        matches!(
            stmt,
            Statement::Expression(Expression::Assignment { ref target, ref value })
                if matches!(target.as_ref(), Expression::Variable(name) if name == "rax")
                    && matches!(value.as_ref(), Expression::Variable(name) if name == "local_8")
        ),
        "got {:?}",
        stmt
    );
}

#[test]
fn no_ir_falls_back_to_inline_asm() {
    let instr = Instruction::X86(X86Instruction {
        address: 0x2000,
        bytes: vec![0x90],
        mnemonic: "nop".to_string(),
        operands: String::new(),
        length: 1,
        ir: None,
        near_branch_target: None,
    });
    let stmt = lift_ir_to_statement(&instr);
    assert!(
        matches!(stmt, Statement::InlineAsm { address: 0x2000, .. }),
        "expected InlineAsm for no-IR instruction, got {:?}",
        stmt
    );
}

#[test]
fn unsupported_mnemonic_falls_back_to_inline_asm() {
    // `push` / `pop` have IR but aren't in the arithmetic map yet —
    // they should stay as InlineAsm.
    let stmt = lift_ir_to_statement(&ir_instr(
        0x3000,
        "push",
        vec![Reg("rbp".to_string())],
    ));
    assert!(
        matches!(stmt, Statement::InlineAsm { address: 0x3000, .. }),
        "expected InlineAsm for unsupported mnemonic, got {:?}",
        stmt
    );
}

#[test]
fn canonicalize_register_name_normalizes_sizes() {
    assert_eq!(canonicalize_reg_name("eax"), "rax");
    assert_eq!(canonicalize_reg_name("ax"), "rax");
    assert_eq!(canonicalize_reg_name("al"), "rax");
    assert_eq!(canonicalize_reg_name("r8d"), "r8");
    assert_eq!(canonicalize_reg_name("r15b"), "r15");
    assert_eq!(canonicalize_reg_name("rip"), "rip"); // non-register stays as-is
}

#[test]
fn lift_indexed_rbp_memory_falls_back_to_inline_asm() {
    // mov rax, [rbp + rax*8 - 8] is array indexing, not a frame slot.
    let stmt = lift_ir_to_statement(&ir_instr(
        0x1070,
        "mov",
        vec![
            Reg("rax".to_string()),
            Mem(MemoryOperand {
                base: Some("rbp".to_string()),
                index: Some("rax".to_string()),
                scale: 8,
                disp: -8,
                size_bytes: None,
            }),
        ],
    ));
    assert!(
        matches!(stmt, Statement::InlineAsm { address: 0x1070, .. }),
        "expected InlineAsm for indexed memory, got {:?}",
        stmt
    );
}
