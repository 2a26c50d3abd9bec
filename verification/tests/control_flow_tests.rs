use decompiler::disasm::control_flow::{ControlFlowGraph, EdgeType};
use petgraph::graph::NodeIndex;
use decompiler::disasm::x86::X86Instruction;

fn node_at(cfg: &ControlFlowGraph, address: u64) -> usize {
    cfg.blocks()
        .iter()
        .position(|block| block.address == address)
        .expect("block exists")
}

fn x86(address: u64, mnemonic: &str, target: Option<u64>) -> X86Instruction {
    X86Instruction {
        address,
        bytes: vec![],
        mnemonic: mnemonic.to_string(),
        operands: String::new(),
        length: 1,
        ir: None,
        near_branch_target: target,
    }
}

#[test]
fn empty_stream_produces_empty_graph() {
    let cfg = ControlFlowGraph::from_x86(vec![]);
    assert!(cfg.entry().is_none());
    assert_eq!(cfg.blocks().len(), 0);
}

#[test]
fn linear_block_has_single_ret_terminator() {
    // nop; nop; ret — a single basic block.
    let insns = vec![
        x86(0x1000, "nop", None),
        x86(0x1001, "nop", None),
        x86(0x1002, "ret", None),
    ];
    let cfg = ControlFlowGraph::from_x86(insns);

    assert_eq!(cfg.blocks().len(), 1);
    let entry = cfg.entry().expect("entry set");
    let block = cfg.graph().node_weight(NodeIndex::new(entry)).unwrap();
    assert_eq!(block.address, 0x1000);
    assert_eq!(block.instructions.len(), 3);
    // ret must terminate — no fall-through successor.
    assert_eq!(cfg.graph().edge_count(), 0);
}

#[test]
fn conditional_branch_creates_two_edges() {
    // 0x1000: jne 0x1010
    // 0x1001: nop
    // 0x1002: ret
    // 0x1010: ret   (branch target — separate block)
    let insns = vec![
        x86(0x1000, "jne", Some(0x1010)),
        x86(0x1001, "nop", None),
        x86(0x1002, "ret", None),
        x86(0x1010, "ret", None),
    ];
    let cfg = ControlFlowGraph::from_x86(insns);

    assert_eq!(
        cfg.blocks().len(),
        3,
        "jne, fall-through body, and branch target"
    );

    let head = cfg.block_by_address(0x1000).expect("head block exists");
    assert_eq!(
        head.successors.len(),
        2,
        "conditional branch = true + false edges"
    );

    // Edge-type distribution from the head block.
    let head_node = node_at(&cfg, 0x1000);
    let mut edge_types: Vec<EdgeType> =
        cfg.graph().edges(NodeIndex::new(head_node)).map(|e| *e.weight()).collect();
    edge_types.sort_by_key(|e| format!("{:?}", e));
    assert!(edge_types.contains(&EdgeType::BranchTrue));
    assert!(edge_types.contains(&EdgeType::BranchFalse));
}

#[test]
fn unconditional_jump_has_single_edge_and_no_fallthrough() {
    // 0x1000: jmp 0x1010
    // 0x1005: nop    (dead code — separate block with no predecessor)
    // 0x1010: ret
    let insns = vec![
        x86(0x1000, "jmp", Some(0x1010)),
        x86(0x1005, "nop", None),
        x86(0x1010, "ret", None),
    ];
    let cfg = ControlFlowGraph::from_x86(insns);

    let head = cfg.block_by_address(0x1000).expect("head block");
    assert_eq!(head.successors.len(), 1, "unconditional jmp = single edge");

    let head_node = node_at(&cfg, 0x1000);
    let edge_types: Vec<EdgeType> = cfg.graph().edges(NodeIndex::new(head_node)).map(|e| *e.weight()).collect();
    assert_eq!(edge_types, vec![EdgeType::Unconditional]);
}

#[test]
fn call_has_call_edge_and_fallthrough_when_target_in_stream() {
    // 0x1000: nop
    // 0x1001: call 0x1010
    // 0x1006: nop        (fall-through — new block after call)
    // 0x1007: ret
    // 0x1010: ret        (callee)
    let insns = vec![
        x86(0x1000, "nop", None),
        x86(0x1001, "call", Some(0x1010)),
        x86(0x1006, "nop", None),
        x86(0x1007, "ret", None),
        x86(0x1010, "ret", None),
    ];
    let cfg = ControlFlowGraph::from_x86(insns);

    let caller_node = node_at(&cfg, 0x1000);
    let edge_types: Vec<EdgeType> = cfg
        .graph()
        .edges(NodeIndex::new(caller_node))
        .map(|e| *e.weight())
        .collect();
    assert!(edge_types.contains(&EdgeType::Call));
    assert!(edge_types.contains(&EdgeType::FallThrough));
}

#[test]
fn unresolved_branch_target_does_not_create_edge() {
    // Branch target outside decoded stream: no edge should be added, but
    // the block must still exist.
    let insns = vec![
        x86(0x1000, "jmp", Some(0xDEAD_0000)),
        x86(0x1005, "ret", None),
    ];
    let cfg = ControlFlowGraph::from_x86(insns);

    let head = cfg.block_by_address(0x1000).expect("head block exists");
    assert_eq!(head.successors.len(), 0, "unresolved target = no edge");
}
