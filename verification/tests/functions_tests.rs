use decompiler::analysis::functions::{FunctionDetectionInputs, FunctionDetector};
use decompiler::binary::parser::ExportInfo;
use decompiler::disasm::control_flow::Instruction;
use decompiler::disasm::x86::X86Instruction;

/// Build a plain x86 instruction with the given shape. Used as a synthetic
/// input to the detector so we can exercise seed logic without running a
/// real decoder.
fn x86(address: u64, mnemonic: &str, bytes: &[u8], target: Option<u64>) -> Instruction {
    Instruction::X86(X86Instruction {
        address,
        bytes: bytes.to_vec(),
        mnemonic: mnemonic.to_string(),
        operands: String::new(),
        length: bytes.len(),
        ir: None,
        near_branch_target: target,
    })
}

fn nop(address: u64) -> Instruction {
    x86(address, "nop", &[0x90], None)
}

#[test]
fn empty_instructions_produce_no_functions() {
    let fns = FunctionDetector::new().detect(FunctionDetectionInputs {
        instructions: &[],
        entry_point: 0,
        exports: &[],
        imports: &[],
        architecture: "x64",
    });
    assert!(fns.is_empty());
}

#[test]
fn entry_point_seeds_first_function() {
    // Single-function stream: entry at 0x1000.
    let instrs = vec![nop(0x1000), nop(0x1001), x86(0x1002, "ret", &[0xC3], None)];

    let fns = FunctionDetector::new().detect(FunctionDetectionInputs {
        instructions: &instrs,
        entry_point: 0x1000,
        exports: &[],
        imports: &[],
        architecture: "x64",
    });

    assert_eq!(fns.len(), 1);
    assert_eq!(fns[0].address, 0x1000);
    assert_eq!(fns[0].name, "sub_1000");
    assert_eq!(fns[0].instructions.len(), 3);
}

#[test]
fn call_targets_are_seeded_as_function_starts() {
    // Caller at 0x1000 calls 0x1010. Even without an export for 0x1010,
    // the detector must recognize it as a function start.
    let instrs = vec![
        nop(0x1000),
        x86(
            0x1001,
            "call",
            &[0xE8, 0x0A, 0x00, 0x00, 0x00],
            Some(0x1010),
        ),
        x86(0x1006, "ret", &[0xC3], None),
        nop(0x1010),
        x86(0x1011, "ret", &[0xC3], None),
    ];

    let fns = FunctionDetector::new().detect(FunctionDetectionInputs {
        instructions: &instrs,
        entry_point: 0x1000,
        exports: &[],
        imports: &[],
        architecture: "x64",
    });

    let addrs: Vec<u64> = fns.iter().map(|f| f.address).collect();
    assert!(addrs.contains(&0x1000), "entry point seeded");
    assert!(addrs.contains(&0x1010), "call target seeded");
    assert_eq!(fns.len(), 2);
}

#[test]
fn tail_jump_targets_are_seeded_as_function_starts() {
    let instrs = vec![
        nop(0x1000),
        x86(0x1001, "jmp", &[0xE9, 0x0A, 0x00, 0x00, 0x00], Some(0x1010)),
        nop(0x1010),
        x86(0x1011, "ret", &[0xC3], None),
    ];

    let fns = FunctionDetector::new().detect(FunctionDetectionInputs {
        instructions: &instrs,
        entry_point: 0x1000,
        exports: &[],
        imports: &[],
        architecture: "x64",
    });

    let addrs: Vec<u64> = fns.iter().map(|f| f.address).collect();
    assert!(addrs.contains(&0x1000));
    assert!(addrs.contains(&0x1010), "tail jmp target seeded");
}

#[test]
fn exports_name_the_function() {
    let instrs = vec![nop(0x2000), x86(0x2001, "ret", &[0xC3], None)];
    let exports = vec![ExportInfo {
        name: "MyExportedFunction".to_string(),
        address: 0x2000,
        ordinal: None,
    }];

    let fns = FunctionDetector::new().detect(FunctionDetectionInputs {
        instructions: &instrs,
        entry_point: 0,
        exports: &exports,
        imports: &[],
        architecture: "x64",
    });

    assert_eq!(fns.len(), 1);
    assert_eq!(fns[0].name, "MyExportedFunction");
    assert!(fns[0].is_export);
}

#[test]
fn unresolved_call_target_outside_instructions_is_ignored() {
    // Call target 0xDEAD0000 is outside the decoded stream — should not
    // create a spurious function record.
    let instrs = vec![
        nop(0x1000),
        x86(0x1001, "call", &[0xE8, 0, 0, 0, 0], Some(0xDEAD_0000)),
        x86(0x1006, "ret", &[0xC3], None),
    ];

    let fns = FunctionDetector::new().detect(FunctionDetectionInputs {
        instructions: &instrs,
        entry_point: 0x1000,
        exports: &[],
        imports: &[],
        architecture: "x64",
    });

    assert_eq!(fns.len(), 1);
    assert_eq!(fns[0].address, 0x1000);
}

#[test]
fn msvc_sub_rsp_prologue_seeds_function() {
    // MSVC x64 prologue: sub rsp, 0x20 (48 83 EC 20) followed by body.
    // Prologue pattern should flag 0x3000 as a function start even without
    // entry/export/call-target info.
    let instrs = vec![
        x86(0x3000, "sub", &[0x48, 0x83, 0xEC, 0x20], None),
        nop(0x3004),
        x86(0x3005, "ret", &[0xC3], None),
    ];

    let fns = FunctionDetector::new().detect(FunctionDetectionInputs {
        instructions: &instrs,
        entry_point: 0,
        exports: &[],
        imports: &[],
        architecture: "x64",
    });

    assert_eq!(fns.len(), 1);
    assert_eq!(fns[0].address, 0x3000);
}

#[test]
fn function_boundaries_slice_instruction_stream() {
    // Two functions back-to-back: 0x1000..0x1010 and 0x1010..end, with
    // 0x1010 seeded via an export so both boundaries are resolved.
    let instrs = vec![
        nop(0x1000),
        nop(0x1001),
        x86(0x1002, "ret", &[0xC3], None),
        nop(0x1010),
        x86(0x1011, "ret", &[0xC3], None),
    ];
    let exports = vec![ExportInfo {
        name: String::new(),
        address: 0x1010,
        ordinal: None,
    }];

    let fns = FunctionDetector::new().detect(FunctionDetectionInputs {
        instructions: &instrs,
        entry_point: 0x1000,
        exports: &exports,
        imports: &[],
        architecture: "x64",
    });

    assert_eq!(fns.len(), 2);
    assert_eq!(fns[0].address, 0x1000);
    assert_eq!(
        fns[0].instructions.len(),
        3,
        "first function owns 0x1000..0x1010"
    );
    assert_eq!(fns[1].address, 0x1010);
    assert_eq!(fns[1].instructions.len(), 2);
}
