use decompiler::analysis::functions::FunctionInfo;
use decompiler::analysis::types::TypeInfo;
use decompiler::decompiler::ast::{Expression, Function, Parameter, Statement};
use decompiler::decompiler::signatures::{argument_registers, canonical_register, infer_parameters, recover_function_signatures, recover_rax_return, register_in_operand};
use decompiler::disasm::control_flow::Instruction;
use decompiler::disasm::x86::X86Instruction;

fn x86(address: u64, mnemonic: &str, operands: &str) -> Instruction {
    Instruction::X86(X86Instruction {
        address,
        bytes: vec![],
        mnemonic: mnemonic.to_string(),
        operands: operands.to_string(),
        length: 0,
        ir: None,
        near_branch_target: None,
    })
}

fn info(name: &str, instructions: Vec<Instruction>) -> FunctionInfo {
    FunctionInfo {
        name: name.to_string(),
        address: 0x1000,
        size: 0,
        instructions,
        is_import: false,
        is_export: false,
    }
}

fn empty_function(name: &str) -> Function {
    Function {
        name: name.to_string(),
        return_type: TypeInfo::Void,
        parameters: vec![],
        body: vec![],
        is_variadic: false,
    }
}

// ---- argument_registers ABI selection ----

#[test]
fn pe_x64_uses_microsoft_fastcall_argument_registers() {
    let regs = argument_registers("PE/EXE", "x64").expect("PE/x64 has an ABI");
    assert_eq!(regs, &["rcx", "rdx", "r8", "r9"]);
}

#[test]
fn non_pe_x64_uses_sysv_argument_registers() {
    let regs = argument_registers("ELF", "x64").expect("ELF/x64 has an ABI");
    assert_eq!(regs, &["rdi", "rsi", "rdx", "rcx", "r8", "r9"]);
}

#[test]
fn unknown_architecture_has_no_argument_registers() {
    assert!(argument_registers("ELF", "arm64").is_none());
    assert!(argument_registers("Mach-O", "x86").is_none());
}

// ---- canonical_register normalization ----

#[test]
fn canonical_register_collapses_register_class_aliases() {
    // All width variants of RAX collapse to "rax".
    for alias in ["al", "ah", "ax", "eax", "rax", "RAX", "Eax"] {
        assert_eq!(canonical_register(alias).as_deref(), Some("rax"));
    }
    // R8 class.
    for alias in ["r8b", "r8w", "r8d", "r8", "R8D"] {
        assert_eq!(canonical_register(alias).as_deref(), Some("r8"));
    }
}

#[test]
fn canonical_register_rejects_non_register_tokens() {
    assert!(canonical_register("rbp").is_none(), "rbp is not an arg register and is intentionally unrecognized here");
    assert!(canonical_register("0x401000").is_none());
    assert!(canonical_register("").is_none());
    assert!(canonical_register("rax_typo").is_none());
}

// ---- register_in_operand stripping ----

#[test]
fn register_in_operand_strips_ptr_size_prefixes() {
    assert_eq!(
        register_in_operand("qword ptr [rcx+0x10]").as_deref(),
        Some("rcx")
    );
    assert_eq!(
        register_in_operand("dword ptr [r8d]").as_deref(),
        Some("r8")
    );
}

#[test]
fn register_in_operand_returns_none_for_pure_immediate() {
    assert!(register_in_operand("0x1234").is_none());
    assert!(register_in_operand("42").is_none());
}

// ---- infer_parameters end-to-end ----

#[test]
fn infers_no_parameters_when_no_argument_registers_are_read() {
    // xor reg,reg writes to rcx but does NOT read it (special-cased in
    // read_registers), so rcx should not be picked up as a parameter.
    let func = info(
        "f",
        vec![
            x86(0x1000, "xor", "rcx, rcx"),
            x86(0x1003, "ret", ""),
        ],
    );
    assert!(infer_parameters(&func, "PE/EXE", "x64").is_empty());
}

#[test]
fn infers_used_argument_registers_as_parameters_in_abi_order() {
    // Reads r8, then rcx, then rdx — but the output respects ABI order
    // (rcx, rdx, r8) regardless of first-read order.
    let func = info(
        "f",
        vec![
            x86(0x1000, "mov", "rax, r8"),
            x86(0x1003, "mov", "rbx, rcx"),
            x86(0x1006, "mov", "r10, rdx"),
            x86(0x1009, "ret", ""),
        ],
    );
    let params = infer_parameters(&func, "PE/EXE", "x64");
    let names: Vec<&str> = params.iter().map(|p| p.name.as_str()).collect();
    assert_eq!(names, vec!["rcx", "rdx", "r8"]);
    assert!(params.iter().all(|p| p.type_info == TypeInfo::U64));
}

#[test]
fn infer_parameters_ignores_register_after_it_has_been_written() {
    // First instruction writes rcx (mov rcx, ...); subsequent reads of rcx
    // come from a value produced inside the function, not from the caller.
    let func = info(
        "f",
        vec![
            x86(0x1000, "mov", "rcx, 0x5"),
            x86(0x1004, "mov", "rax, rcx"),
            x86(0x1007, "ret", ""),
        ],
    );
    assert!(infer_parameters(&func, "PE/EXE", "x64").is_empty());
}

#[test]
fn infer_parameters_stops_at_first_call_or_return() {
    // After the call, we read rdx — but inference must stop at the call
    // because past that point, register state is caller-defined again and
    // not necessarily a parameter to this function.
    let func = info(
        "f",
        vec![
            x86(0x1000, "call", "0x2000"),
            x86(0x1005, "mov", "rax, rdx"), // should be ignored
        ],
    );
    assert!(infer_parameters(&func, "PE/EXE", "x64").is_empty());
}

#[test]
fn infer_parameters_returns_empty_when_abi_is_unknown() {
    let func = info("f", vec![x86(0x1000, "mov", "rax, rcx")]);
    assert!(infer_parameters(&func, "Mach-O", "arm64").is_empty());
}

// ---- recover_rax_return ----

#[test]
fn recovers_rax_return_when_last_statement_is_assignment_then_void_return() {
    let mut func = empty_function("f");
    func.body = vec![
        Statement::Expression(Expression::Assignment {
            target: Box::new(Expression::Variable("rax".to_string())),
            value: Box::new(Expression::IntegerLiteral(0)),
        }),
        Statement::Return(None),
    ];
    recover_rax_return(&mut func);

    assert_eq!(func.return_type, TypeInfo::U64);
    assert!(matches!(
        &func.body[1],
        Statement::Return(Some(Expression::Variable(name))) if name == "rax"
    ));
}

#[test]
fn does_not_recover_rax_return_when_previous_assigns_a_different_register() {
    let mut func = empty_function("f");
    func.body = vec![
        Statement::Expression(Expression::Assignment {
            target: Box::new(Expression::Variable("rcx".to_string())),
            value: Box::new(Expression::IntegerLiteral(7)),
        }),
        Statement::Return(None),
    ];
    recover_rax_return(&mut func);

    assert_eq!(func.return_type, TypeInfo::Void);
    assert!(matches!(&func.body[1], Statement::Return(None)));
}

#[test]
fn recover_rax_return_is_safe_on_short_or_empty_bodies() {
    let mut empty = empty_function("f");
    recover_rax_return(&mut empty);
    assert_eq!(empty.return_type, TypeInfo::Void);

    let mut single = empty_function("g");
    single.body = vec![Statement::Return(None)];
    recover_rax_return(&mut single);
    assert!(matches!(&single.body[0], Statement::Return(None)));
    assert_eq!(single.return_type, TypeInfo::Void);
}

// ---- recover_function_signatures top-level integration ----

#[test]
fn recover_function_signatures_assigns_parameters_only_when_none_preexist() {
    let mut funcs = vec![empty_function("f")];
    let infos = vec![info(
        "f",
        vec![x86(0x1000, "mov", "rax, rcx"), x86(0x1003, "ret", "")],
    )];

    recover_function_signatures(&mut funcs, &infos, "PE/EXE", "x64");
    let names: Vec<&str> = funcs[0].parameters.iter().map(|p| p.name.as_str()).collect();
    assert_eq!(names, vec!["rcx"]);

    // Run again with a preset parameter: inference must NOT overwrite it.
    funcs[0].parameters = vec![Parameter {
        name: "preset_arg".to_string(),
        type_info: TypeInfo::I32,
    }];
    recover_function_signatures(&mut funcs, &infos, "PE/EXE", "x64");
    let names: Vec<&str> = funcs[0].parameters.iter().map(|p| p.name.as_str()).collect();
    assert_eq!(names, vec!["preset_arg"]);
}
