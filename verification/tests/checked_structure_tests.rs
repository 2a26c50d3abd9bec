use decompiler::analysis::types::TypeInfo;
use decompiler::decompiler::ast::{Function, Statement};
use decompiler::decompiler::branches::{arm_slices_fit_exec, structure_function_with_cfg_checked};
use decompiler::disasm::control_flow::ControlFlowGraph;
use decompiler::disasm::x86::X86Instruction;

fn function_with(body: Vec<Statement>) -> Function {
    Function {
        name: "sub_1000".to_string(),
        return_type: TypeInfo::Void,
        parameters: Vec::new(),
        body,
        is_variadic: false,
    }
}

fn inline(address: u64, disasm: &str) -> Statement {
    Statement::InlineAsm { address, disasm: disasm.to_string() }
}

fn x86(address: u64, mnemonic: &str, operands: &str, target: Option<u64>) -> X86Instruction {
    X86Instruction {
        address,
        bytes: vec![],
        mnemonic: mnemonic.to_string(),
        operands: operands.to_string(),
        length: 1,
        ir: None,
        near_branch_target: target,
    }
}

fn branch_cfg() -> ControlFlowGraph {
    ControlFlowGraph::from_x86(vec![
        x86(0x1000, "jne", "1010h", Some(0x1010)),
        x86(0x1001, "mov", "eax, 1", None),
        x86(0x1002, "ret", "", None),
        x86(0x1010, "xor", "eax, eax", None),
        x86(0x1011, "ret", "", None),
    ])
}

#[test]
fn checked_structuring_recovers_if_else_on_ordered_body() {
    let cfg = branch_cfg();
    let mut func = function_with(vec![
        inline(0x1000, "jne 1010h"),
        inline(0x1001, "mov eax, 1"),
        inline(0x1002, "ret"),
        inline(0x1010, "xor eax, eax"),
        inline(0x1011, "ret"),
    ]);
    assert!(arm_slices_fit_exec(&func, &cfg));
    assert!(structure_function_with_cfg_checked(&mut func, &cfg));
    assert_eq!(func.body.len(), 2);
    assert!(matches!(func.body[1], Statement::If { .. }));
}

#[test]
fn checked_structuring_refuses_an_arm_that_is_no_slice() {
    let cfg = branch_cfg();
    // The branch's true arm (0x1010..0x1011) starts after it ends in the body.
    let body = vec![
        inline(0x1000, "jne 1010h"),
        inline(0x1001, "mov eax, 1"),
        inline(0x1011, "ret"),
        inline(0x1002, "ret"),
        inline(0x1010, "xor eax, eax"),
    ];
    let mut func = function_with(body);
    assert!(!arm_slices_fit_exec(&func, &cfg));
    assert!(!structure_function_with_cfg_checked(&mut func, &cfg));
    assert_eq!(func.body.len(), 5);
    assert!(matches!(func.body[2], Statement::InlineAsm { address: 0x1011, .. }));
}
