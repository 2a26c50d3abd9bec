use decompiler::analysis::behavior::risk_score;
use decompiler::analysis::report::{BehaviorFinding, CallReference, FunctionReport};
use decompiler::analysis::xrefs::call_graph_edges;
use decompiler::analysis::types::TypeInfo;
use decompiler::decompiler::ast::{BinaryOperator, Expression, Function, Statement};
use decompiler::decompiler::optimization::{OptimizationLevel, Optimizer};
use decompiler::disasm::control_flow::ControlFlowGraph;
use decompiler::disasm::x86::X86Disassembler;

fn finding(category: &str, severity: &str, source: &str) -> BehaviorFinding {
    BehaviorFinding {
        category: category.to_string(),
        severity: severity.to_string(),
        source: source.to_string(),
        detail: String::new(),
    }
}

fn call(site: u64, target: u64) -> CallReference {
    CallReference {
        instruction_address: site,
        target_address: target,
        target_name: None,
        target_kind: "function".to_string(),
        target_library: None,
        target_symbol: None,
    }
}

fn function(name: &str, address: u64, calls: Vec<CallReference>) -> FunctionReport {
    FunctionReport {
        name: name.to_string(),
        address,
        size: 0,
        instruction_count: 0,
        basic_block_estimate: 0,
        function_kind: "function".to_string(),
        is_import: false,
        is_export: false,
        calls,
        tail_calls: vec![],
        string_refs: vec![],
    }
}

#[test]
fn risk_score_takes_category_maximum_and_string_bonus() {
    let findings = vec![
        finding("injection", "high", "import_table"),
        finding("injection", "medium", "import_table"),
        finding("network", "low", "string"),
    ];
    // 35 (injection) + 2 (network) + 2 (one string finding).
    assert_eq!(risk_score(&findings), 39);
}

#[test]
fn risk_score_is_capped_at_one_hundred() {
    let findings = vec![
        finding("a", "high", "import_table"),
        finding("b", "high", "import_table"),
        finding("c", "high", "import_table"),
    ];
    assert_eq!(risk_score(&findings), 100);
}

#[test]
fn risk_score_without_high_finding_stays_below_high_level() {
    let names = ["a", "b", "c", "d", "e", "f", "g", "h", "i", "j"];
    let findings: Vec<BehaviorFinding> =
        names.iter().map(|n| finding(n, "medium", "import_table")).collect();
    assert_eq!(risk_score(&findings), 69);
}

#[test]
fn risk_score_string_bonus_counts_at_most_four_strings() {
    let findings: Vec<BehaviorFinding> =
        (0..6).map(|_| finding("network", "low", "string")).collect();
    // 2 (network) + 4 * 2.
    assert_eq!(risk_score(&findings), 10);
}

#[test]
fn call_graph_edges_are_grouped_and_ordered() {
    let functions = vec![
        function("b", 0x2000, vec![call(0x2001, 0x1000)]),
        function(
            "a",
            0x1000,
            vec![call(0x1003, 0x3000), call(0x1001, 0x2000), call(0x1005, 0x3000)],
        ),
    ];
    let edges = call_graph_edges(&functions);
    assert_eq!(edges.len(), 3);
    let keys: Vec<(u64, u64)> =
        edges.iter().map(|e| (e.caller_address, e.callee_address)).collect();
    assert_eq!(keys, vec![(0x1000, 0x2000), (0x1000, 0x3000), (0x2000, 0x1000)]);
    assert_eq!(edges[1].call_count, 2);
    assert_eq!(edges[1].call_sites, vec![0x1003, 0x1005]);
    assert_eq!(edges[0].caller_name, "a");
    assert_eq!(edges[2].call_count, 1);
}

#[test]
fn cfg_successors_mirror_predecessors() {
    // 0x1000: test eax, eax ; je 0x100a ; mov eax, 1 ; ret ; 0x100a: xor eax, eax ; ret
    let bytes = [0x85, 0xC0, 0x74, 0x06, 0xB8, 0x01, 0x00, 0x00, 0x00, 0xC3, 0x31, 0xC0, 0xC3];
    let instructions = X86Disassembler::new_x64().disassemble(&bytes, 0x1000).unwrap();
    let cfg = ControlFlowGraph::from_x86(instructions);
    let blocks = cfg.blocks();
    assert!(blocks.len() >= 3);
    for (i, block) in blocks.iter().enumerate() {
        for s in &block.successors {
            assert!(blocks[*s].predecessors.contains(&i));
        }
        for p in &block.predecessors {
            assert!(blocks[*p].successors.contains(&i));
        }
        if block.instructions.last().map_or(false, |last| last.is_return()) {
            assert!(block.successors.is_empty());
        }
    }
    assert_eq!(blocks.iter().filter(|b| b.successors.is_empty()).count(), 2);
}

#[test]
fn optimizing_twice_changes_nothing_more() {
    let sum = Expression::BinaryOperation {
        op: BinaryOperator::Add,
        left: Box::new(Expression::IntegerLiteral(2)),
        right: Box::new(Expression::BinaryOperation {
            op: BinaryOperator::Multiply,
            left: Box::new(Expression::IntegerLiteral(3)),
            right: Box::new(Expression::Variable("x".to_string())),
        }),
    };
    let mut func = Function {
        name: "f".to_string(),
        return_type: TypeInfo::Void,
        parameters: vec![],
        body: vec![
            Statement::Empty,
            Statement::Expression(sum),
            Statement::Return(Some(Expression::IntegerLiteral(1))),
            Statement::Expression(Expression::IntegerLiteral(7)),
        ],
        is_variadic: false,
    };
    let optimizer = Optimizer::new(OptimizationLevel::Aggressive);
    optimizer.optimize_function(&mut func);
    let once = format!("{:?}", func.body);
    optimizer.optimize_function(&mut func);
    assert_eq!(format!("{:?}", func.body), once);
    assert_eq!(func.body.len(), 2);
    assert!(matches!(func.body.last(), Some(Statement::Return(_))));
}
