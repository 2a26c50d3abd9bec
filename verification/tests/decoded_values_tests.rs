use decompiler::analysis::types::immediate_from_capture;
use decompiler::disasm::ir::{MemoryOperand, Operand};
use decompiler::disasm::x86::{decode_operand, instruction_from_decoded, ir_from_decoded, X86Disassembler};

const NO_IMM: (u8, u16, u32, u64, i16, i32, i64, i64) = (0, 0, 0, 0, 0, 0, 0, 0);

fn no_mem() -> (String, String, u32, u64, usize) {
    ("None".to_string(), "None".to_string(), 1, 0, 0)
}

#[test]
fn immediate_from_capture_reads_hex_then_decimal() {
    assert_eq!(immediate_from_capture("eax, 0x1F", Some(Some("1F".to_string()))), Some(31));
    assert_eq!(immediate_from_capture("  42 ", Some(None)), Some(42));
    assert_eq!(immediate_from_capture("eax, ebx", Some(None)), None);
    assert_eq!(immediate_from_capture("0x10", None), None);
}

#[test]
fn decode_operand_maps_kinds_to_ir_operands() {
    let imm = (0xF8u8, 0, 0, 0, 0, 0, -8i64, 0);
    assert_eq!(
        decode_operand(&"Register".to_string(), &"RSP".to_string(), NO_IMM, &no_mem()),
        Operand::Reg("rsp".to_string())
    );
    assert_eq!(
        decode_operand(&"Immediate8to64".to_string(), &"None".to_string(), imm, &no_mem()),
        Operand::Imm(-8)
    );
    let mem = ("RBP".to_string(), "RAX".to_string(), 8u32, (-8i64) as u64, 8usize);
    assert_eq!(
        decode_operand(&"Memory".to_string(), &"None".to_string(), NO_IMM, &mem),
        Operand::Mem(MemoryOperand {
            base: Some("rbp".to_string()),
            index: Some("rax".to_string()),
            scale: 8,
            disp: -8,
            size_bytes: Some(8),
        })
    );
    assert_eq!(
        decode_operand(&"NearBranch64".to_string(), &"None".to_string(), NO_IMM, &no_mem()),
        Operand::Other("nearbranch64".to_string())
    );
}

#[test]
fn ir_from_decoded_lowers_mnemonic_and_keeps_operand_order() {
    let kinds = vec![
        ("Register".to_string(), "RSP".to_string()),
        ("Immediate8to64".to_string(), "None".to_string()),
    ];
    let imm = (0x20u8, 0, 0, 0, 0, 0, 0x20i64, 0);
    let ir = ir_from_decoded(0x1000, "Sub", &kinds, imm, &no_mem());
    assert_eq!(ir.address, 0x1000);
    assert_eq!(ir.op, "sub");
    assert_eq!(ir.operands, vec![Operand::Reg("rsp".to_string()), Operand::Imm(0x20)]);
}

#[test]
fn instruction_from_decoded_splits_text_and_slices_bytes() {
    let data = [0x90u8, 0x48, 0x83, 0xEC, 0x20];
    let ir = ir_from_decoded(0x1001, "Sub", &vec![], NO_IMM, &no_mem());
    let ins = instruction_from_decoded(
        &data,
        0x1000,
        0x1001,
        4,
        &"sub rsp,20h".to_string(),
        (false, false, false, false, false, 0),
        ir,
    );
    assert_eq!(ins.address, 0x1001);
    assert_eq!(ins.mnemonic, "sub");
    assert_eq!(ins.operands, "rsp,20h");
    assert_eq!(ins.bytes, vec![0x48, 0x83, 0xEC, 0x20]);
    assert_eq!(ins.length, 4);
    assert_eq!(ins.near_branch_target, None);

    let call = instruction_from_decoded(
        &data,
        0x1000,
        0x1000,
        5,
        &"call 1015h".to_string(),
        (false, false, false, false, true, 0x1015),
        ir_from_decoded(0x1000, "Call", &vec![], NO_IMM, &no_mem()),
    );
    assert_eq!(call.near_branch_target, Some(0x1015));
    assert_eq!(call.operands, "1015h");
}

#[test]
fn decoded_values_agree_with_the_disassembler() {
    let bytes = [0x48, 0x83, 0xEC, 0x20];
    let out = X86Disassembler::new_x64().disassemble(&bytes, 0x1000).unwrap();
    let ir = out[0].ir.clone().unwrap();
    assert_eq!(ir.op, "sub");
    assert_eq!(ir.operands[0], Operand::Reg("rsp".to_string()));
    assert_eq!(ir.operands[1], Operand::Imm(0x20));
}
