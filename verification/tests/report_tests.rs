use decompiler::analysis::functions::FunctionInfo;
use decompiler::analysis::report::{AnalysisReportBuilder, AnalysisReportInputs};
use decompiler::analysis::strings::{StringEncoding, StringInfo};
use decompiler::binary::parser::{ExportInfo, ImportAddressInfo, ImportInfo, SectionCharacteristics, SectionInfo};
use decompiler::disasm::control_flow::Instruction;
use decompiler::disasm::x86::X86Instruction;

fn x86(address: u64, mnemonic: &str, operands: &str, target: Option<u64>) -> Instruction {
    x86_with_len(address, mnemonic, operands, 1, target)
}

fn x86_with_len(
    address: u64,
    mnemonic: &str,
    operands: &str,
    length: usize,
    target: Option<u64>,
) -> Instruction {
    Instruction::X86(X86Instruction {
        address,
        bytes: vec![0x90; length],
        mnemonic: mnemonic.to_string(),
        operands: operands.to_string(),
        length,
        ir: None,
        near_branch_target: target,
    })
}

fn function(name: &str, address: u64, instructions: Vec<Instruction>) -> FunctionInfo {
    FunctionInfo {
        name: name.to_string(),
        address,
        size: instructions.len(),
        instructions,
        is_import: false,
        is_export: false,
    }
}

fn string(address: u64, value: &str) -> StringInfo {
    StringInfo {
        address,
        value: value.to_string(),
        encoding: StringEncoding::Ascii,
        length: value.len(),
    }
}

fn import_address(library: &str, function: &str, address: u64) -> ImportAddressInfo {
    ImportAddressInfo {
        library: library.to_string(),
        function: function.to_string(),
        address,
        ordinal: None,
    }
}

#[test]
fn package_maps_direct_calls_to_known_function_names() {
    let functions = vec![
        function(
            "sub_1000",
            0x1000,
            vec![x86(0x1000, "call", "2000h", Some(0x2000))],
        ),
        function("sub_2000", 0x2000, vec![x86(0x2000, "ret", "", None)]),
    ];

    let package = AnalysisReportBuilder::new().build(AnalysisReportInputs {
        input_path: "sample.exe",
        format: "PE/EXE",
        architecture: "x64",
        entry_point: 0x1000,
        instruction_count: 2,
        basic_block_count: 2,
        sections: &[],
        functions: &functions,
        strings: &[],
        imports: &[],
        import_addresses: &[],
        exports: &[],
        runtime_matches: &[],
    });

    let caller = package
        .functions
        .iter()
        .find(|function| function.name == "sub_1000")
        .expect("caller exists");

    assert_eq!(caller.calls.len(), 1);
    assert_eq!(caller.calls[0].target_address, 0x2000);
    assert_eq!(caller.calls[0].target_name.as_deref(), Some("sub_2000"));
}

#[test]
fn package_resolves_indirect_iat_calls_to_import_names() {
    let functions = vec![function(
        "sub_1000",
        0x1000,
        vec![x86(0x1000, "call", "qword ptr [3000h]", None)],
    )];
    let imports = vec![ImportInfo {
        name: "kernel32.dll".to_string(),
        functions: vec!["CreateFileW".to_string()],
    }];
    let import_addresses = vec![import_address("kernel32.dll", "CreateFileW", 0x3000)];

    let package = AnalysisReportBuilder::new().build(AnalysisReportInputs {
        input_path: "sample.exe",
        format: "PE/EXE",
        architecture: "x64",
        entry_point: 0x1000,
        instruction_count: 1,
        basic_block_count: 1,
        sections: &[],
        functions: &functions,
        strings: &[],
        imports: &imports,
        import_addresses: &import_addresses,
        exports: &[],
        runtime_matches: &[],
    });

    let call = &package.functions[0].calls[0];
    assert_eq!(call.target_address, 0x3000);
    assert_eq!(
        call.target_name.as_deref(),
        Some("kernel32.dll!CreateFileW")
    );
    assert_eq!(call.target_kind, "import");
    assert_eq!(call.target_library.as_deref(), Some("kernel32.dll"));
    assert_eq!(call.target_symbol.as_deref(), Some("CreateFileW"));
    assert_eq!(package.import_addresses[0].address, 0x3000);
}

#[test]
fn package_tracks_import_xref_call_sites() {
    let functions = vec![
        function(
            "sub_1000",
            0x1000,
            vec![x86(0x1000, "call", "qword ptr [3000h]", None)],
        ),
        function(
            "sub_2000",
            0x2000,
            vec![x86(0x2000, "call", "qword ptr [3000h]", None)],
        ),
    ];
    let imports = vec![ImportInfo {
        name: "kernel32.dll".to_string(),
        functions: vec!["CreateFileW".to_string()],
    }];
    let import_addresses = vec![import_address("kernel32.dll", "CreateFileW", 0x3000)];

    let package = AnalysisReportBuilder::new().build(AnalysisReportInputs {
        input_path: "sample.exe",
        format: "PE/EXE",
        architecture: "x64",
        entry_point: 0x1000,
        instruction_count: 2,
        basic_block_count: 2,
        sections: &[],
        functions: &functions,
        strings: &[],
        imports: &imports,
        import_addresses: &import_addresses,
        exports: &[],
        runtime_matches: &[],
    });

    let import_xref = package
        .xrefs
        .imports
        .iter()
        .find(|xref| xref.function == "CreateFileW")
        .expect("import xref exists");

    assert_eq!(import_xref.address, Some(0x3000));
    assert_eq!(import_xref.referenced_by.len(), 2);
    assert_eq!(import_xref.referenced_by[0].function_name, "sub_1000");
    assert_eq!(import_xref.referenced_by[1].function_name, "sub_2000");
}

#[test]
fn package_resolves_rip_relative_iat_calls_to_import_names() {
    let functions = vec![function(
        "sub_1000",
        0x1000,
        vec![x86_with_len(
            0x1000,
            "call",
            "qword ptr [rip+1FFAh]",
            6,
            None,
        )],
    )];
    let imports = vec![ImportInfo {
        name: "kernel32.dll".to_string(),
        functions: vec!["GetProcAddress".to_string()],
    }];
    let import_addresses = vec![import_address("kernel32.dll", "GetProcAddress", 0x3000)];

    let package = AnalysisReportBuilder::new().build(AnalysisReportInputs {
        input_path: "sample.exe",
        format: "PE/EXE",
        architecture: "x64",
        entry_point: 0x1000,
        instruction_count: 1,
        basic_block_count: 1,
        sections: &[],
        functions: &functions,
        strings: &[],
        imports: &imports,
        import_addresses: &import_addresses,
        exports: &[],
        runtime_matches: &[],
    });

    assert_eq!(
        package.functions[0].calls[0].target_name.as_deref(),
        Some("kernel32.dll!GetProcAddress")
    );
    assert_eq!(package.functions[0].calls[0].target_address, 0x3000);
}

#[test]
fn package_maps_exact_string_references() {
    let functions = vec![function(
        "sub_1000",
        0x1000,
        vec![x86(0x1000, "lea", "rcx, [3000h]", None)],
    )];
    let strings = vec![string(0x3000, "hello")];

    let package = AnalysisReportBuilder::new().build(AnalysisReportInputs {
        input_path: "sample.exe",
        format: "PE/EXE",
        architecture: "x64",
        entry_point: 0x1000,
        instruction_count: 1,
        basic_block_count: 1,
        sections: &[],
        functions: &functions,
        strings: &strings,
        imports: &[],
        import_addresses: &[],
        exports: &[],
        runtime_matches: &[],
    });

    let refs = &package.functions[0].string_refs;
    assert_eq!(refs.len(), 1);
    assert_eq!(refs[0].address, 0x3000);
    assert_eq!(refs[0].symbol, "str_3000");
    assert_eq!(refs[0].value, "hello");
}

#[test]
fn package_summary_counts_analysis_outputs() {
    let functions = vec![function(
        "sub_1000",
        0x1000,
        vec![x86(0x1000, "ret", "", None)],
    )];
    let strings = vec![string(0x3000, "hello")];
    let imports = vec![ImportInfo {
        name: "kernel32.dll".to_string(),
        functions: vec!["CreateFileW".to_string()],
    }];
    let exports = vec![ExportInfo {
        name: "Exported".to_string(),
        address: 0x1000,
        ordinal: Some(1),
    }];

    let package = AnalysisReportBuilder::new().build(AnalysisReportInputs {
        input_path: "sample.exe",
        format: "PE/EXE",
        architecture: "x64",
        entry_point: 0x1000,
        instruction_count: 1,
        basic_block_count: 1,
        sections: &[],
        functions: &functions,
        strings: &strings,
        imports: &imports,
        import_addresses: &[],
        exports: &exports,
        runtime_matches: &[],
    });

    assert_eq!(package.summary.function_count, 1);
    assert_eq!(package.summary.string_count, 1);
    assert_eq!(package.summary.import_count, 1);
    assert_eq!(package.summary.export_count, 1);
    assert_eq!(package.imports[0].functions, vec!["CreateFileW"]);
    assert_eq!(package.exports[0].ordinal, Some(1));
}

fn section(
    name: &str,
    address: u64,
    size: u64,
    characteristics: SectionCharacteristics,
) -> SectionInfo {
    SectionInfo {
        name: name.to_string(),
        virtual_address: address,
        size,
        raw_data: vec![0; size as usize],
        characteristics,
    }
}

#[test]
fn package_includes_sections_cfg_summary_and_suspicious_strings() {
    let sections = vec![
        section(
            ".text",
            0x1000,
            0x200,
            SectionCharacteristics {
                is_code: true,
                is_readable: true,
                is_executable: true,
                ..SectionCharacteristics::default()
            },
        ),
        section(
            ".rdata",
            0x3000,
            0x80,
            SectionCharacteristics {
                is_data: true,
                is_readable: true,
                ..SectionCharacteristics::default()
            },
        ),
    ];
    let functions = vec![function(
        "sub_1000",
        0x1000,
        vec![
            x86(0x1000, "call", "2000h", Some(0x2000)),
            x86(0x1005, "jne", "1010h", Some(0x1010)),
        ],
    )];
    let strings = vec![string(0x3000, "http://evil.test/payload")];

    let package = AnalysisReportBuilder::new().build(AnalysisReportInputs {
        input_path: "sample.exe",
        format: "PE/EXE",
        architecture: "x64",
        entry_point: 0x1000,
        instruction_count: 2,
        basic_block_count: 3,
        sections: &sections,
        functions: &functions,
        strings: &strings,
        imports: &[],
        import_addresses: &[],
        exports: &[],
        runtime_matches: &[],
    });

    assert_eq!(package.sections.len(), 2);
    assert_eq!(package.sections[0].name, ".text");
    assert!(package.sections[0].is_executable);
    assert_eq!(package.cfg_summary.basic_block_count, 3);
    assert_eq!(package.cfg_summary.direct_call_count, 1);
    assert_eq!(package.cfg_summary.conditional_branch_count, 1);
    assert_eq!(package.functions[0].basic_block_estimate, 3);
    assert_eq!(package.suspicious_strings[0].address, 0x3000);
    assert_eq!(package.suspicious_strings[0].category, "url");
}

#[test]
fn package_builds_deduplicated_call_graph_edges_with_call_sites() {
    let functions = vec![
        function(
            "sub_1000",
            0x1000,
            vec![
                x86(0x1000, "call", "2000h", Some(0x2000)),
                x86(0x1005, "call", "2000h", Some(0x2000)),
            ],
        ),
        function("sub_2000", 0x2000, vec![x86(0x2000, "ret", "", None)]),
    ];

    let package = AnalysisReportBuilder::new().build(AnalysisReportInputs {
        input_path: "sample.exe",
        format: "PE/EXE",
        architecture: "x64",
        entry_point: 0x1000,
        instruction_count: 3,
        basic_block_count: 2,
        sections: &[],
        functions: &functions,
        strings: &[],
        imports: &[],
        import_addresses: &[],
        exports: &[],
        runtime_matches: &[],
    });

    assert_eq!(package.call_graph.len(), 1);
    assert_eq!(package.call_graph[0].caller_name, "sub_1000");
    assert_eq!(
        package.call_graph[0].callee_name.as_deref(),
        Some("sub_2000")
    );
    assert_eq!(package.call_graph[0].call_count, 2);
    assert_eq!(package.call_graph[0].call_sites, vec![0x1000, 0x1005]);
}

#[test]
fn package_marks_tailcall_thunks_and_jump_table_candidates() {
    let functions = vec![
        function(
            "sub_1000",
            0x1000,
            vec![x86(0x1000, "jmp", "2000h", Some(0x2000))],
        ),
        function("sub_2000", 0x2000, vec![x86(0x2000, "ret", "", None)]),
        function(
            "sub_3000",
            0x3000,
            vec![x86(0x3000, "jmp", "qword ptr [rax*8+4000h]", None)],
        ),
    ];

    let package = AnalysisReportBuilder::new().build(AnalysisReportInputs {
        input_path: "sample.exe",
        format: "PE/EXE",
        architecture: "x64",
        entry_point: 0x1000,
        instruction_count: 3,
        basic_block_count: 3,
        sections: &[],
        functions: &functions,
        strings: &[],
        imports: &[],
        import_addresses: &[],
        exports: &[],
        runtime_matches: &[],
    });

    let thunk = package
        .functions
        .iter()
        .find(|function| function.name == "sub_1000")
        .expect("thunk report exists");
    assert_eq!(thunk.function_kind, "tailcall_thunk");
    assert_eq!(thunk.tail_calls.len(), 1);
    assert_eq!(thunk.tail_calls[0].target_name.as_deref(), Some("sub_2000"));

    assert_eq!(package.jump_tables.len(), 1);
    assert_eq!(package.jump_tables[0].function_name, "sub_3000");
    assert_eq!(package.jump_tables[0].instruction_address, 0x3000);
}

#[test]
fn package_indexes_strings_by_function() {
    let functions = vec![
        function(
            "sub_1000",
            0x1000,
            vec![x86(0x1000, "lea", "rcx, [3000h]", None)],
        ),
        function("sub_2000", 0x2000, vec![x86(0x2000, "ret", "", None)]),
    ];
    let strings = vec![string(0x3000, "hello")];

    let package = AnalysisReportBuilder::new().build(AnalysisReportInputs {
        input_path: "sample.exe",
        format: "PE/EXE",
        architecture: "x64",
        entry_point: 0x1000,
        instruction_count: 2,
        basic_block_count: 2,
        sections: &[],
        functions: &functions,
        strings: &strings,
        imports: &[],
        import_addresses: &[],
        exports: &[],
        runtime_matches: &[],
    });

    assert_eq!(package.strings_by_function.len(), 1);
    assert_eq!(package.strings_by_function[0].function_name, "sub_1000");
    assert_eq!(package.strings_by_function[0].strings.len(), 1);
    assert_eq!(package.strings_by_function[0].strings[0].symbol, "str_3000");
}

#[test]
fn package_groups_function_xrefs_with_callers_and_strings() {
    let functions = vec![
        function(
            "sub_1000",
            0x1000,
            vec![
                x86(0x1000, "call", "2000h", Some(0x2000)),
                x86(0x1005, "lea", "rcx, [3000h]", None),
            ],
        ),
        function("sub_2000", 0x2000, vec![x86(0x2000, "ret", "", None)]),
        function(
            "sub_3000",
            0x3000,
            vec![x86(0x3000, "call", "2000h", Some(0x2000))],
        ),
    ];
    let strings = vec![string(0x3000, "C:\\temp\\payload.exe")];

    let package = AnalysisReportBuilder::new().build(AnalysisReportInputs {
        input_path: "sample.exe",
        format: "PE/EXE",
        architecture: "x64",
        entry_point: 0x1000,
        instruction_count: 4,
        basic_block_count: 3,
        sections: &[],
        functions: &functions,
        strings: &strings,
        imports: &[],
        import_addresses: &[],
        exports: &[],
        runtime_matches: &[],
    });

    let callee = package
        .xrefs
        .functions
        .iter()
        .find(|xref| xref.function_name == "sub_2000")
        .expect("callee xref exists");
    assert_eq!(callee.called_by.len(), 2);
    assert_eq!(callee.called_by[0].caller_name, "sub_1000");
    assert_eq!(callee.called_by[1].caller_name, "sub_3000");

    let caller = package
        .xrefs
        .functions
        .iter()
        .find(|xref| xref.function_name == "sub_1000")
        .expect("caller xref exists");
    assert_eq!(caller.calls_out.len(), 1);
    assert_eq!(caller.strings.len(), 1);
    assert_eq!(caller.strings[0].symbol, "str_3000");
}

#[test]
fn package_classifies_import_apis_into_behavior_report() {
    let imports = vec![
        ImportInfo {
            name: "kernel32.dll".to_string(),
            functions: vec![
                "CreateFileW".to_string(),
                "VirtualAlloc".to_string(),
                "WriteProcessMemory".to_string(),
                "CreateRemoteThread".to_string(),
            ],
        },
        ImportInfo {
            name: "wininet.dll".to_string(),
            functions: vec!["InternetOpenUrlW".to_string()],
        },
    ];
    let strings = vec![
        string(0x3000, "https://example.test/dropper"),
        string(0x3040, "powershell -nop"),
    ];

    let package = AnalysisReportBuilder::new().build(AnalysisReportInputs {
        input_path: "sample.exe",
        format: "PE/EXE",
        architecture: "x64",
        entry_point: 0x1000,
        instruction_count: 0,
        basic_block_count: 0,
        sections: &[],
        functions: &[],
        strings: &strings,
        imports: &imports,
        import_addresses: &[],
        exports: &[],
        runtime_matches: &[],
    });

    assert!(package
        .api_insights
        .iter()
        .any(|api| api.function == "CreateFileW" && api.category == "filesystem"));
    assert!(package
        .api_insights
        .iter()
        .any(|api| api.function == "InternetOpenUrlW" && api.category == "network"));
    assert!(package
        .behavior_report
        .categories
        .iter()
        .any(|category| category.name == "process_injection" && category.severity == "high"));
    assert_eq!(package.behavior_report.risk_level, "high");
    assert!(package.behavior_report.risk_score >= 60);
}

#[test]
fn api_classifier_avoids_common_prefix_false_positives() {
    let imports = vec![
        ImportInfo {
            name: "user32.dll".to_string(),
            functions: vec![
                "SendMessageW".to_string(),
                "SystemParametersInfoForDpi".to_string(),
            ],
        },
        ImportInfo {
            name: "advapi32.dll".to_string(),
            functions: vec!["OpenProcessToken".to_string()],
        },
    ];

    let package = AnalysisReportBuilder::new().build(AnalysisReportInputs {
        input_path: "sample.exe",
        format: "PE/EXE",
        architecture: "x64",
        entry_point: 0x1000,
        instruction_count: 0,
        basic_block_count: 0,
        sections: &[],
        functions: &[],
        strings: &[],
        imports: &imports,
        import_addresses: &[],
        exports: &[],
        runtime_matches: &[],
    });

    assert!(package.api_insights.is_empty());
    assert!(package.behavior_report.categories.is_empty());
    assert_eq!(package.behavior_report.risk_level, "none");
}
