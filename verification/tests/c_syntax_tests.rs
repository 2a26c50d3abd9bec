use decompiler::analysis::functions::FunctionInfo;
use decompiler::decompiler::c_syntax::{
    quote_c_string, sanitize_c_comment, sanitize_c_identifier, unique_c_identifier,
};
use decompiler::decompiler::lifter::lift_functions;

fn info(name: &str, address: u64) -> FunctionInfo {
    FunctionInfo {
        name: name.to_string(),
        address,
        size: 0,
        instructions: vec![],
        is_import: false,
        is_export: false,
    }
}

#[test]
fn sanitized_identifiers_are_valid_c_names() {
    assert_eq!(sanitize_c_identifier("my func", "sub"), "my_func");
    assert_eq!(sanitize_c_identifier("123abc", "sub"), "sub_123abc");
    assert_eq!(sanitize_c_identifier("int", "sub"), "int_");
    assert_eq!(sanitize_c_identifier("", "sub"), "sub");
    assert_eq!(sanitize_c_identifier("kernel32.dll!Sleep", "import"), "kernel32_dll_Sleep");
}

#[test]
fn unique_identifier_skips_taken_names() {
    let mut used: Vec<Vec<char>> = Vec::new();
    let a = unique_c_identifier("main", "sub", &mut used);
    let b = unique_c_identifier("main", "sub", &mut used);
    let c = unique_c_identifier("main", "sub", &mut used);
    assert_eq!(a, "main");
    assert_eq!(b, "main_2");
    assert_eq!(c, "main_3");
    assert_eq!(used.len(), 3);
}

#[test]
fn lifted_function_names_are_distinct() {
    let functions = lift_functions(&[info("f", 0x1000), info("f", 0x2000), info("f_2", 0x3000)]);
    let names: Vec<&str> = functions.iter().map(|f| f.name.as_str()).collect();
    assert_eq!(names, vec!["f", "f_2", "f_2_2"]);
}

#[test]
fn sanitized_comment_cannot_close_the_comment() {
    assert_eq!(sanitize_c_comment("a*/b"), "a* /b");
    assert_eq!(sanitize_c_comment("**/"), "** /");
    assert!(!sanitize_c_comment("x */ y */").contains("*/"));
}

#[test]
fn quoted_string_escapes_quotes_breaks_and_controls() {
    assert_eq!(quote_c_string("say \"hi\"\n"), "\"say \\\"hi\\\"\\n\"");
    assert_eq!(quote_c_string("a\\b\tc\r"), "\"a\\\\b\\tc\\r\"");
    assert_eq!(quote_c_string("\u{1}\u{7f}"), "\"\\001\\177\"");
}
