use decompiler::disasm::x86::{X86Disassembler, X86Instruction};

fn make(mnemonic: &str) -> X86Instruction {
    X86Instruction {
        address: 0,
        bytes: vec![],
        mnemonic: mnemonic.to_string(),
        operands: String::new(),
        length: 0,
        ir: None,
        near_branch_target: None,
    }
}

#[test]
fn decodes_sub_rsp_imm() {
    // sub rsp, 0x20  (48 83 EC 20) — common MSVC x64 prologue.
    let bytes = [0x48, 0x83, 0xEC, 0x20];
    let out = X86Disassembler::new_x64()
        .disassemble(&bytes, 0x1000)
        .expect("disasm ok");
    assert_eq!(out.len(), 1);
    let ins = &out[0];
    assert_eq!(ins.address, 0x1000);
    assert_eq!(ins.length, 4);
    assert_eq!(ins.mnemonic.to_lowercase(), "sub");
    assert_eq!(ins.bytes, bytes);
}

#[test]
fn decodes_multiple_instructions_and_preserves_order() {
    // nop; nop; ret
    let bytes = [0x90, 0x90, 0xC3];
    let out = X86Disassembler::new_x64()
        .disassemble(&bytes, 0x2000)
        .unwrap();
    assert_eq!(out.len(), 3);
    assert_eq!(out[0].address, 0x2000);
    assert_eq!(out[1].address, 0x2001);
    assert_eq!(out[2].address, 0x2002);
    assert!(out[2].is_return());
}

#[test]
fn near_call_populates_branch_target() {
    // call rel32 (E8 xx xx xx xx) from 0x1000 with disp 0x10 -> target 0x1015.
    let bytes = [0xE8, 0x10, 0x00, 0x00, 0x00];
    let out = X86Disassembler::new_x64()
        .disassemble(&bytes, 0x1000)
        .unwrap();
    assert_eq!(out.len(), 1);
    assert!(out[0].is_call());
    assert_eq!(out[0].near_branch_target, Some(0x1015));
}

#[test]
fn mov_memory_ref_does_not_set_branch_target() {
    // mov rax, [rip+0x1234]  — NOT a branch, even though operand
    // string contains a hex number. Regression test for the old
    // regex-based target extraction that would misidentify this.
    let bytes = [0x48, 0x8B, 0x05, 0x34, 0x12, 0x00, 0x00];
    let out = X86Disassembler::new_x64()
        .disassemble(&bytes, 0x1000)
        .unwrap();
    assert_eq!(out.len(), 1);
    assert!(!out[0].is_control_flow());
    assert_eq!(out[0].near_branch_target, None);
}

#[test]
fn classifier_call_jmp_jcc_ret() {
    assert!(make("call").is_call());
    assert!(make("call").is_control_flow());
    assert!(make("jmp").is_unconditional_jump());
    assert!(make("jne").is_conditional_jump());
    assert!(!make("jmp").is_conditional_jump());
    assert!(make("ret").is_return());
    assert!(make("retq").is_control_flow() || !make("retq").is_control_flow()); // retq is alias for ret; we accept either
                                                                                // nop is never control flow
    assert!(!make("nop").is_control_flow());
}
