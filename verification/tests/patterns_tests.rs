use decompiler::analysis::patterns::{PatternMatch, PatternMatcher};
use decompiler::disasm::control_flow::Instruction;
use decompiler::disasm::x86::X86Instruction;

fn x86(address: u64, mnemonic: &str, operands: &str) -> Instruction {
    Instruction::X86(X86Instruction {
        address,
        bytes: vec![],
        mnemonic: mnemonic.to_string(),
        operands: operands.to_string(),
        length: 0,
        ir: None,
        near_branch_target: None,
    })
}

fn matched_names(matches: &[PatternMatch]) -> Vec<&str> {
    matches.iter().map(|m| m.pattern_name.as_str()).collect()
}

#[test]
fn new_pattern_matcher_registers_built_in_pattern_set() {
    // Lock the set so accidentally dropping or duplicating a pattern is caught.
    let matcher = PatternMatcher::new();
    let names = matcher.pattern_names();
    assert_eq!(
        names,
        vec![
            "function_prologue_x86",
            "function_prologue_x64",
            "string_copy",
            "for_loop",
            "while_loop",
            "malloc_call",
            "free_call",
        ]
    );
    // Confidence values should stay within [0, 1] (in hundredths: at most 100).
    for (name, confidence) in names.iter().zip(matcher.pattern_confidences()) {
        assert!(
            confidence <= 100,
            "{} has out-of-range confidence {}",
            name,
            confidence
        );
    }
}

#[test]
fn matches_x64_function_prologue_pattern() {
    let matcher = PatternMatcher::new();
    let matches = matcher.match_patterns(&[
        x86(0x1000, "push", "rbp"),
        x86(0x1001, "mov", "rbp, rsp"),
    ]);
    let names = matched_names(&matches);
    assert!(
        names.contains(&"function_prologue_x64"),
        "expected x64 prologue match, got {:?}",
        names
    );
    // The 32-bit pattern also matches because "push (ebp|rbp); mov (ebp|rbp), (esp|rsp)"
    // is a superset — this is the current contract.
    assert!(names.contains(&"function_prologue_x86"));
}

#[test]
fn match_position_anchors_to_first_instruction_address() {
    let matcher = PatternMatcher::new();
    let matches = matcher.match_patterns(&[
        x86(0x401000, "push", "rbp"),
        x86(0x401001, "mov", "rbp, rsp"),
    ]);
    assert!(!matches.is_empty());
    assert!(
        matches.iter().all(|m| m.address == 0x401000),
        "all matches should report the first instruction's address"
    );
}

#[test]
fn matches_malloc_and_free_call_patterns() {
    let matcher = PatternMatcher::new();

    let malloc = matcher.match_patterns(&[x86(0x1000, "call", "0x402000 <malloc@plt>")]);
    assert!(matched_names(&malloc).contains(&"malloc_call"));

    let free = matcher.match_patterns(&[x86(0x1000, "call", "0x402008 <free@plt>")]);
    assert!(matched_names(&free).contains(&"free_call"));
}

#[test]
fn match_instruction_returns_empty_for_unrelated_single_instruction() {
    let matcher = PatternMatcher::new();
    let matches = matcher.match_instruction(&x86(0x1000, "nop", ""));
    assert!(matches.is_empty(), "got unexpected matches: {:?}", matches);
}

#[test]
fn match_patterns_empty_input_returns_empty_result_and_uses_zero_address() {
    let matcher = PatternMatcher::new();
    let matches = matcher.match_patterns(&[]);
    assert!(matches.is_empty());
    // Sanity: even if a fake pattern matched the empty string, the address
    // fallback would be 0. Documented behaviour, not exercised here.
}

#[test]
fn unrelated_instruction_sequence_produces_no_pattern_matches() {
    let matcher = PatternMatcher::new();
    let matches = matcher.match_patterns(&[
        x86(0x1000, "nop", ""),
        x86(0x1001, "xor", "rax, rax"),
        x86(0x1004, "ret", ""),
    ]);
    assert!(
        matches.is_empty(),
        "unrelated stream should not match any built-in pattern, got {:?}",
        matched_names(&matches)
    );
}
