//! Instructions of the decoded stream and control flow graph construction.
//!
//! The graph is a `petgraph` directed graph whose nodes are basic blocks and
//! whose edges are labelled with the kind of control transfer.

use crate::disasm::x86::{
    is_call_mnemonic, is_conditional_jump_mnemonic, is_control_flow_mnemonic, is_return_mnemonic,
    is_unconditional_jump_mnemonic, X86Instruction, X86InstructionV,
};
use crate::text::{lower_seq, starts_with};
use petgraph::graph::{DiGraph, Graph, NodeIndex};
use petgraph::visit::EdgeRef;
use petgraph::{Directed, Direction};
use std::collections::{HashMap, HashSet};
use vstd::prelude::*;

verus! {

/// Control flow graph edge type
#[derive(Debug, Clone, Copy, PartialEq, Eq, Structural)]
pub enum EdgeType {
    /// Fall-through edge
    FallThrough,
    /// Conditional branch (true)
    BranchTrue,
    /// Conditional branch (false)
    BranchFalse,
    /// Unconditional jump
    Unconditional,
    /// Call edge
    Call,
    /// Return edge
    Return,
}

/// Generic instruction wrapper.
///
/// Only x86 / x86-64 instructions exist: this library has no ARM decoder,
/// so there is no ARM variant and no ARM control flow graph.
#[derive(Debug, Clone)]
pub enum Instruction {
    X86(X86Instruction),
}

impl View for Instruction {
    type V = X86InstructionV;

    open spec fn view(&self) -> X86InstructionV {
        match self {
            Instruction::X86(x) => x@,
        }
    }
}

impl Instruction {
    pub fn copy(&self) -> (r: Self)
        ensures
            r@ == self@,
    {
        match self {
            Instruction::X86(x) => Instruction::X86(x.copy()),
        }
    }

    pub fn address(&self) -> (r: u64)
        ensures
            r == self@.address,
    {
        match self {
            Instruction::X86(instr) => instr.address,
        }
    }

    pub fn is_control_flow(&self) -> (r: bool)
        ensures
            r == is_control_flow_mnemonic(self@.mnemonic),
    {
        match self {
            Instruction::X86(instr) => instr.is_control_flow(),
        }
    }

    pub fn is_conditional_jump(&self) -> (r: bool)
        ensures
            r == is_conditional_jump_mnemonic(self@.mnemonic),
    {
        match self {
            Instruction::X86(instr) => instr.is_conditional_jump(),
        }
    }

    pub fn is_unconditional_jump(&self) -> (r: bool)
        ensures
            r == is_unconditional_jump_mnemonic(self@.mnemonic),
    {
        match self {
            Instruction::X86(instr) => instr.is_unconditional_jump(),
        }
    }

    pub fn is_call(&self) -> (r: bool)
        ensures
            r == is_call_mnemonic(self@.mnemonic),
    {
        match self {
            Instruction::X86(instr) => instr.is_call(),
        }
    }

    pub fn is_return(&self) -> (r: bool)
        ensures
            r == is_return_mnemonic(self@.mnemonic),
    {
        match self {
            Instruction::X86(instr) => instr.is_return(),
        }
    }
}

// ---------------------------------------------------------------------------
// The graph store
// ---------------------------------------------------------------------------

/// Basic block in the control flow graph. Successors and predecessors are
/// node positions in the graph, in the order the graph lists its neighbors.
#[derive(Debug, Clone)]
pub struct BasicBlock {
    pub address: u64,
    pub instructions: Vec<Instruction>,
    pub successors: Vec<usize>,
    pub predecessors: Vec<usize>,
}

pub struct BasicBlockV {
    pub address: u64,
    pub instructions: Seq<X86InstructionV>,
    pub successors: Seq<usize>,
    pub predecessors: Seq<usize>,
}

impl View for BasicBlock {
    type V = BasicBlockV;

    open spec fn view(&self) -> BasicBlockV {
        BasicBlockV {
            address: self.address,
            instructions: self.instructions@.map_values(|i: Instruction| i@),
            successors: self.successors@,
            predecessors: self.predecessors@,
        }
    }
}

#[verifier::external_type_specification]
#[verifier::external_body]
#[verifier::reject_recursive_types(N)]
#[verifier::reject_recursive_types(E)]
#[verifier::reject_recursive_types(Ty)]
#[verifier::reject_recursive_types(Ix)]
pub struct ExGraph<N, E, Ty, Ix>(Graph<N, E, Ty, Ix>);

#[verifier::external_type_specification]
#[verifier::external_body]
pub struct ExDirected(Directed);

/// The blocks of a graph, by node position.
pub uninterp spec fn graph_blocks(g: DiGraph<BasicBlock, EdgeType>) -> Seq<BasicBlockV>;

/// The edges of a graph as (source, target, kind), in order of addition.
pub uninterp spec fn graph_edges(g: DiGraph<BasicBlock, EdgeType>) -> Seq<(usize, usize, EdgeType)>;

/// The targets of the edges leaving `a`, most recently added first (the
/// order in which the graph lists a directed node's neighbors).
pub open spec fn out_neighbors(es: Seq<(usize, usize, EdgeType)>, a: usize) -> Seq<usize>
    decreases es.len(),
{
    if es.len() == 0 {
        seq![]
    } else if es.last().0 == a {
        seq![es.last().1] + out_neighbors(es.drop_last(), a)
    } else {
        out_neighbors(es.drop_last(), a)
    }
}

/// The sources of the edges entering `b`, most recently added first.
pub open spec fn in_neighbors(es: Seq<(usize, usize, EdgeType)>, b: usize) -> Seq<usize>
    decreases es.len(),
{
    if es.len() == 0 {
        seq![]
    } else if es.last().1 == b {
        seq![es.last().0] + in_neighbors(es.drop_last(), b)
    } else {
        in_neighbors(es.drop_last(), b)
    }
}

/// The edges leaving `a` as (target, kind), most recently added first.
pub open spec fn out_edges(es: Seq<(usize, usize, EdgeType)>, a: usize) -> Seq<(usize, EdgeType)>
    decreases es.len(),
{
    if es.len() == 0 {
        seq![]
    } else if es.last().0 == a {
        seq![(es.last().1, es.last().2)] + out_edges(es.drop_last(), a)
    } else {
        out_edges(es.drop_last(), a)
    }
}

/// `DiGraph::new`: an empty graph.
#[verifier::external_body]
fn new_graph() -> (g: DiGraph<BasicBlock, EdgeType>)
    ensures
        graph_blocks(g) == Seq::<BasicBlockV>::empty(),
        graph_edges(g) == Seq::<(usize, usize, EdgeType)>::empty(),
{
    DiGraph::new()
}

/// `Graph::add_node`: appends the block; its position is the old node count.
/// The graph panics when the position would be `u32::MAX`.
#[verifier::external_body]
fn add_block(g: &mut DiGraph<BasicBlock, EdgeType>, block: BasicBlock) -> (r: usize)
    requires
        graph_blocks(*old(g)).len() < u32::MAX,
    ensures
        r == graph_blocks(*old(g)).len(),
        graph_blocks(*final(g)) == graph_blocks(*old(g)).push(block@),
        graph_edges(*final(g)) == graph_edges(*old(g)),
{
    g.add_node(block).index()
}

/// `Graph::add_edge`: appends the edge; the graph panics when a node does
/// not exist or the edge position would be `u32::MAX`.
#[verifier::external_body]
fn add_flow_edge(g: &mut DiGraph<BasicBlock, EdgeType>, a: usize, b: usize, kind: EdgeType)
    requires
        a < graph_blocks(*old(g)).len(),
        b < graph_blocks(*old(g)).len(),
        graph_edges(*old(g)).len() < u32::MAX,
    ensures
        graph_blocks(*final(g)) == graph_blocks(*old(g)),
        graph_edges(*final(g)) == graph_edges(*old(g)).push((a, b, kind)),
{
    g.add_edge(NodeIndex::new(a), NodeIndex::new(b), kind);
}

/// `Graph::neighbors`: the targets of the edges leaving `a`.
#[verifier::external_body]
fn block_successors(g: &DiGraph<BasicBlock, EdgeType>, a: usize) -> (r: Vec<usize>)
    requires
        a < graph_blocks(*g).len(),
    ensures
        r@ == out_neighbors(graph_edges(*g), a),
{
    g.neighbors(NodeIndex::new(a)).map(|n| n.index()).collect()
}

/// `Graph::neighbors_directed` with `Incoming`: the sources of the edges entering `a`.
#[verifier::external_body]
fn block_predecessors(g: &DiGraph<BasicBlock, EdgeType>, a: usize) -> (r: Vec<usize>)
    requires
        a < graph_blocks(*g).len(),
    ensures
        r@ == in_neighbors(graph_edges(*g), a),
{
    g.neighbors_directed(NodeIndex::new(a), Direction::Incoming).map(|n| n.index()).collect()
}

/// `Graph::edges`: the edges leaving `a` as (target, kind).
#[verifier::external_body]
fn block_out_edges(g: &DiGraph<BasicBlock, EdgeType>, a: usize) -> (r: Vec<(usize, EdgeType)>)
    requires
        a < graph_blocks(*g).len(),
    ensures
        r@ == out_edges(graph_edges(*g), a),
{
    g.edges(NodeIndex::new(a)).map(|e| (e.target().index(), *e.weight())).collect()
}

/// `Graph::node_weight`: the block at position `a`, if there is one.
#[verifier::external_body]
fn block_at(g: &DiGraph<BasicBlock, EdgeType>, a: usize) -> (r: Option<&BasicBlock>)
    requires
        a < u32::MAX,
    ensures
        match r {
            Some(b) => a < graph_blocks(*g).len() && b@ == graph_blocks(*g)[a as int],
            None => a >= graph_blocks(*g).len(),
        },
{
    g.node_weight(NodeIndex::new(a))
}

/// `IndexMut` of `Graph`: replaces the block at position `a`, which must exist.
#[verifier::external_body]
fn set_block(g: &mut DiGraph<BasicBlock, EdgeType>, a: usize, block: BasicBlock)
    requires
        a < graph_blocks(*old(g)).len(),
    ensures
        graph_blocks(*final(g)) == graph_blocks(*old(g)).update(a as int, block@),
        graph_edges(*final(g)) == graph_edges(*old(g)),
{
    g[NodeIndex::new(a)] = block;
}

/// `Graph::node_count`.
#[verifier::external_body]
fn block_count(g: &DiGraph<BasicBlock, EdgeType>) -> (r: usize)
    ensures
        r == graph_blocks(*g).len(),
{
    g.node_count()
}

// ---------------------------------------------------------------------------
// Basic blocks of an instruction stream
// ---------------------------------------------------------------------------

/// The addresses where basic blocks begin: the first instruction, every
/// instruction after a control transfer, and every near branch target.
pub open spec fn is_leader(s: Seq<X86InstructionV>, a: u64) -> bool {
    ||| (s.len() > 0 && a == s[0].address)
    ||| exists|i: int|
        0 <= i < s.len() && #[trigger] is_control_flow_mnemonic(s[i].mnemonic) && ((i + 1
            < s.len() && s[i + 1].address == a) || s[i].near_branch_target == Some(a))
}

/// Splitting state after a prefix of the stream: finished blocks, the
/// start address of the open block, and its instructions.
pub open spec fn split_blocks(s: Seq<X86InstructionV>, all: Seq<X86InstructionV>, start0: u64) -> (
    Seq<(u64, Seq<X86InstructionV>)>,
    u64,
    Seq<X86InstructionV>,
)
    decreases s.len(),
{
    if s.len() == 0 {
        (seq![], start0, seq![])
    } else {
        let prev = split_blocks(s.drop_last(), all, start0);
        let x = s.last();
        if x.address != prev.1 && is_leader(all, x.address) {
            (
                if prev.2.len() > 0 {
                    prev.0.push((prev.1, prev.2))
                } else {
                    prev.0
                },
                x.address,
                seq![x],
            )
        } else {
            (prev.0, prev.1, prev.2.push(x))
        }
    }
}

/// The basic blocks of the stream, as (start address, instructions): a block
/// ends before each leader other than its own start.
pub open spec fn blocks_of(s: Seq<X86InstructionV>) -> Seq<(u64, Seq<X86InstructionV>)> {
    if s.len() == 0 {
        seq![]
    } else {
        let st = split_blocks(s, s, s[0].address);
        if st.2.len() > 0 {
            st.0.push((st.1, st.2))
        } else {
            st.0
        }
    }
}

/// Node position by block start address (a later block wins).
pub open spec fn node_map(bs: Seq<(u64, Seq<X86InstructionV>)>) -> Map<u64, usize>
    decreases bs.len(),
{
    if bs.len() == 0 {
        Map::empty()
    } else {
        node_map(bs.drop_last()).insert(bs.last().0, (bs.len() - 1) as usize)
    }
}

pub open spec fn locations_in(m: Map<u64, (usize, usize)>, k: usize, is: Seq<X86InstructionV>) -> Map<
    u64,
    (usize, usize),
>
    decreases is.len(),
{
    if is.len() == 0 {
        m
    } else {
        locations_in(m, k, is.drop_last()).insert(is.last().address, (k, (is.len() - 1) as usize))
    }
}

/// (node position, index in block) by instruction address (a later one wins).
pub open spec fn location_map(bs: Seq<(u64, Seq<X86InstructionV>)>) -> Map<u64, (usize, usize)>
    decreases bs.len(),
{
    if bs.len() == 0 {
        Map::empty()
    } else {
        locations_in(location_map(bs.drop_last()), (bs.len() - 1) as usize, bs.last().1)
    }
}

pub open spec fn opt_edge(a: usize, b: Option<usize>, kind: EdgeType) -> Seq<(usize, usize, EdgeType)> {
    match b {
        Some(t) => seq![(a, t, kind)],
        None => seq![],
    }
}

pub open spec fn lookup(m: Map<u64, usize>, a: Option<u64>) -> Option<usize> {
    match a {
        Some(x) => if m.contains_key(x) {
            Some(m[x])
        } else {
            None
        },
        None => None,
    }
}

/// The edges out of block `i`, by the kind of its last instruction: a
/// conditional jump to its target (true) and the next block (false); an
/// unconditional jump to its target; a call to its target and on to the
/// next block; a return nowhere; anything else on to the next block. Only
/// targets that start a block get an edge.
pub open spec fn block_edges(bs: Seq<(u64, Seq<X86InstructionV>)>, i: int) -> Seq<(usize, usize, EdgeType)> {
    let m = node_map(bs);
    let is = bs[i].1;
    if !m.contains_key(bs[i].0) || is.len() == 0 {
        seq![]
    } else {
        let node = m[bs[i].0];
        let last = is.last();
        let next = if i + 1 < bs.len() {
            lookup(m, Some(bs[i + 1].0))
        } else {
            None
        };
        let target = lookup(m, last.near_branch_target);
        if is_conditional_jump_mnemonic(last.mnemonic) {
            opt_edge(node, target, EdgeType::BranchTrue) + opt_edge(node, next, EdgeType::BranchFalse)
        } else if is_unconditional_jump_mnemonic(last.mnemonic) {
            opt_edge(node, target, EdgeType::Unconditional)
        } else if is_call_mnemonic(last.mnemonic) {
            opt_edge(node, target, EdgeType::Call) + opt_edge(node, next, EdgeType::FallThrough)
        } else if !is_return_mnemonic(last.mnemonic) {
            opt_edge(node, next, EdgeType::FallThrough)
        } else {
            seq![]
        }
    }
}

/// The edges of the first `n` blocks, in order.
pub open spec fn edges_upto(bs: Seq<(u64, Seq<X86InstructionV>)>, n: int) -> Seq<(usize, usize, EdgeType)>
    decreases n,
{
    if n <= 0 {
        seq![]
    } else {
        edges_upto(bs, n - 1) + block_edges(bs, n - 1)
    }
}

pub open spec fn cfg_edges(s: Seq<X86InstructionV>) -> Seq<(usize, usize, EdgeType)> {
    edges_upto(blocks_of(s), blocks_of(s).len() as int)
}

/// The graph's block at position `k`, with its neighbors.
pub open spec fn node_block(s: Seq<X86InstructionV>, k: int) -> BasicBlockV {
    BasicBlockV {
        address: blocks_of(s)[k].0,
        instructions: blocks_of(s)[k].1,
        successors: out_neighbors(cfg_edges(s), k as usize),
        predecessors: in_neighbors(cfg_edges(s), k as usize),
    }
}

/// The stream's blocks and edges fit the graph's 32-bit indices.
pub open spec fn fits_graph(s: Seq<X86InstructionV>) -> bool {
    blocks_of(s).len() <= u32::MAX && cfg_edges(s).len() <= u32::MAX
}

// ---------------------------------------------------------------------------
// The control flow graph
// ---------------------------------------------------------------------------

/// Control flow graph
#[derive(Debug)]
pub struct ControlFlowGraph {
    graph: DiGraph<BasicBlock, EdgeType>,
    entry: Option<usize>,
    address_to_node: HashMap<u64, usize>,
    address_to_location: HashMap<u64, (usize, usize)>,
}

/// A control flow graph's contents: blocks by node position, edges in order
/// of addition, the entry node, and the lookup maps by address.
pub struct CfgV {
    pub blocks: Seq<BasicBlockV>,
    pub edges: Seq<(usize, usize, EdgeType)>,
    pub entry: Option<usize>,
    pub address_to_node: Map<u64, usize>,
    pub address_to_location: Map<u64, (usize, usize)>,
}

impl View for ControlFlowGraph {
    type V = CfgV;

    closed spec fn view(&self) -> CfgV {
        CfgV {
            blocks: graph_blocks(self.graph),
            edges: graph_edges(self.graph),
            entry: self.entry,
            address_to_node: self.address_to_node@,
            address_to_location: self.address_to_location@,
        }
    }
}

/// The graph that `ControlFlowGraph` builds from an instruction stream.
pub open spec fn cfg_spec(s: Seq<X86InstructionV>) -> CfgV {
    CfgV {
        blocks: Seq::new(blocks_of(s).len(), |k: int| node_block(s, k)),
        edges: cfg_edges(s),
        entry: if blocks_of(s).len() > 0 {
            Some(0usize)
        } else {
            None
        },
        address_to_node: node_map(blocks_of(s)),
        address_to_location: location_map(blocks_of(s)),
    }
}

/// Every position the lookup maps give names an existing block (and
/// instruction), and positions fit the graph's 32-bit indices.
pub open spec fn cfg_wf(c: CfgV) -> bool {
    &&& c.blocks.len() <= u32::MAX
    &&& forall|a: u64| #[trigger] c.address_to_node.contains_key(a) ==> c.address_to_node[a] < c.blocks.len()
    &&& forall|a: u64|
        #[trigger] c.address_to_location.contains_key(a) ==> c.address_to_location[a].0
            < c.blocks.len() && c.address_to_location[a].1 < c.blocks[c.address_to_location[a].0 as int].instructions.len()
    &&& match c.entry {
        Some(e) => e < c.blocks.len(),
        None => true,
    }
}

impl ControlFlowGraph {
    #[verifier::type_invariant]
    spec fn well_formed(self) -> bool {
        cfg_wf(self@)
    }
}

/// The views of a slice of instructions.
pub open spec fn stream_view(s: Seq<Instruction>) -> Seq<X86InstructionV> {
    s.map_values(|i: Instruction| i@)
}

fn extract_target(instr: &Instruction) -> (r: Option<u64>)
    ensures
        r == instr@.near_branch_target,
{
    match instr {
        Instruction::X86(x86_instr) => x86_instr.near_branch_target,
    }
}

/// Sets each block's successor and predecessor lists from the graph's edges.
fn update_adjacency(graph: &mut DiGraph<BasicBlock, EdgeType>)
    requires
        graph_blocks(*old(graph)).len() <= u32::MAX,
    ensures
        graph_edges(*final(graph)) == graph_edges(*old(graph)),
        graph_blocks(*final(graph)).len() == graph_blocks(*old(graph)).len(),
        forall|j: int|
            0 <= j < graph_blocks(*old(graph)).len() ==> #[trigger] graph_blocks(*final(graph))[j] == (
            BasicBlockV {
                address: graph_blocks(*old(graph))[j].address,
                instructions: graph_blocks(*old(graph))[j].instructions,
                successors: out_neighbors(graph_edges(*old(graph)), j as usize),
                predecessors: in_neighbors(graph_edges(*old(graph)), j as usize),
            }),
{
    let ghost g0 = graph_blocks(*graph);
    let ghost es = graph_edges(*graph);
    let n = block_count(graph);
    let mut k: usize = 0;
    while k < n
        invariant
            n == g0.len() <= u32::MAX,
            k <= n,
            graph_edges(*graph) == es,
            graph_blocks(*graph).len() == n,
            forall|j: int|
                0 <= j < k ==> #[trigger] graph_blocks(*graph)[j] == (BasicBlockV {
                    address: g0[j].address,
                    instructions: g0[j].instructions,
                    successors: out_neighbors(es, j as usize),
                    predecessors: in_neighbors(es, j as usize),
                }),
            forall|j: int| k <= j < n ==> #[trigger] graph_blocks(*graph)[j] == g0[j],
        decreases n - k,
    {
        let successors = block_successors(graph, k);
        let predecessors = block_predecessors(graph, k);
        let (address, instructions) = match block_at(graph, k) {
            Some(b) => (b.address, copy_instructions(&b.instructions)),
            None => {
                return;
            },
        };
        let ghost before = graph_blocks(*graph);
        set_block(graph, k, BasicBlock { address, instructions, successors, predecessors });
        proof {
            assert forall|j: int| k + 1 <= j < n implies #[trigger] graph_blocks(*graph)[j] == g0[j] by {
                assert(graph_blocks(*graph)[j] == before[j]);
            }
            assert forall|j: int| 0 <= j < k implies #[trigger] graph_blocks(*graph)[j] == (BasicBlockV {
                address: g0[j].address,
                instructions: g0[j].instructions,
                successors: out_neighbors(es, j as usize),
                predecessors: in_neighbors(es, j as usize),
            }) by {
                assert(graph_blocks(*graph)[j] == before[j]);
            }
        }
        k = k + 1;
    }
}

fn copy_instructions(v: &Vec<Instruction>) -> (r: Vec<Instruction>)
    ensures
        stream_view(r@) == stream_view(v@),
{
    let mut out: Vec<Instruction> = Vec::new();
    let mut i: usize = 0;
    while i < v.len()
        invariant
            i <= v@.len(),
            out@.len() == i,
            forall|j: int| 0 <= j < i ==> #[trigger] out@[j]@ == v@[j]@,
        decreases v@.len() - i,
    {
        out.push(v[i].copy());
        i = i + 1;
    }
    proof {
        assert(stream_view(out@) =~= stream_view(v@));
    }
    out
}

/// The block-leader addresses of the stream.
fn find_leaders(instructions: &[Instruction]) -> (r: HashSet<u64>)
    requires
        instructions@.len() > 0,
    ensures
        forall|a: u64| #[trigger] r@.contains(a) == is_leader(stream_view(instructions@), a),
{
    let ghost s = stream_view(instructions@);
    let mut leaders: HashSet<u64> = HashSet::new();
    leaders.insert(instructions[0].address());
    let mut i: usize = 0;
    while i < instructions.len()
        invariant
            0 < instructions@.len(),
            i <= instructions@.len(),
            s == stream_view(instructions@),
            forall|a: u64|
                #[trigger] leaders@.contains(a) == ((a == s[0].address) || exists|j: int|
                    0 <= j < i && #[trigger] is_control_flow_mnemonic(s[j].mnemonic) && ((j + 1
                        < s.len() && s[j + 1].address == a) || s[j].near_branch_target == Some(a))),
        decreases instructions@.len() - i,
    {
        let instr = &instructions[i];
        let ghost before = leaders@;
        if instr.is_control_flow() {
            if i + 1 < instructions.len() {
                leaders.insert(instructions[i + 1].address());
            }
            match extract_target(instr) {
                Some(target) => {
                    leaders.insert(target);
                },
                None => {},
            }
        }
        proof {
            assert(s[i as int] == instr@);
            assert forall|a: u64| #[trigger] leaders@.contains(a) == ((a == s[0].address) || exists|j: int|
                0 <= j < i + 1 && #[trigger] is_control_flow_mnemonic(s[j].mnemonic) && ((j + 1
                    < s.len() && s[j + 1].address == a) || s[j].near_branch_target == Some(a))) by {
                if i + 1 < s.len() {
                    assert(s[i + 1] == instructions@[i + 1]@);
                }
                if leaders@.contains(a) && !before.contains(a) {
                    assert(is_control_flow_mnemonic(s[i as int].mnemonic));
                }
            }
        }
        i = i + 1;
    }
    proof {
        assert forall|a: u64| #[trigger] leaders@.contains(a) == is_leader(s, a) by {
            if leaders@.contains(a) && a != s[0].address {
                let j = choose|j: int|
                    0 <= j < s.len() && #[trigger] is_control_flow_mnemonic(s[j].mnemonic) && ((j
                        + 1 < s.len() && s[j + 1].address == a) || s[j].near_branch_target == Some(a));
                assert(is_leader(s, a));
            }
        }
    }
    leaders
}

/// The basic blocks of a nonempty stream: start addresses and instructions.
fn split_into_blocks(instructions: &[Instruction], leaders: &HashSet<u64>) -> (r: (
    Vec<u64>,
    Vec<Vec<Instruction>>,
))
    requires
        instructions@.len() > 0,
        forall|a: u64| #[trigger] leaders@.contains(a) == is_leader(stream_view(instructions@), a),
    ensures
        r.0@.len() == blocks_of(stream_view(instructions@)).len(),
        r.1@.len() == blocks_of(stream_view(instructions@)).len(),
        forall|k: int|
            0 <= k < r.0@.len() ==> #[trigger] blocks_of(stream_view(instructions@))[k] == (
                r.0@[k],
                stream_view(r.1@[k]@),
            ),
{
    let ghost s = stream_view(instructions@);
    let mut starts: Vec<u64> = Vec::new();
    let mut bodies: Vec<Vec<Instruction>> = Vec::new();
    let mut current: Vec<Instruction> = Vec::new();
    let mut current_start = instructions[0].address();
    let mut i: usize = 0;
    proof {
        assert(s.take(0) =~= seq![]);
        assert(stream_view(current@) =~= seq![]);
    }
    while i < instructions.len()
        invariant
            0 < instructions@.len(),
            i <= instructions@.len(),
            s == stream_view(instructions@),
            forall|a: u64| #[trigger] leaders@.contains(a) == is_leader(s, a),
            starts@.len() == split_blocks(s.take(i as int), s, s[0].address).0.len(),
            bodies@.len() == starts@.len(),
            forall|k: int|
                0 <= k < starts@.len() ==> #[trigger] split_blocks(s.take(i as int), s, s[0].address).0[k]
                    == (starts@[k], stream_view(bodies@[k]@)),
            current_start == split_blocks(s.take(i as int), s, s[0].address).1,
            stream_view(current@) == split_blocks(s.take(i as int), s, s[0].address).2,
        decreases instructions@.len() - i,
    {
        let ghost prev = split_blocks(s.take(i as int), s, s[0].address);
        proof {
            assert(s.take(i + 1).drop_last() =~= s.take(i as int));
            assert(s.take(i + 1).last() == instructions@[i as int]@);
        }
        let instr = &instructions[i];
        let address = instr.address();
        if address != current_start && leaders.contains(&address) {
            if current.len() > 0 {
                let ghost cur = current@;
                starts.push(current_start);
                bodies.push(current);
                proof {
                    assert(stream_view(bodies@[bodies@.len() - 1]@) == stream_view(cur));
                }
                current = Vec::new();
            }
            current_start = address;
            current.push(instr.copy());
            proof {
                assert(stream_view(current@) =~= seq![instr@]);
            }
        } else {
            let ghost cur = current@;
            current.push(instr.copy());
            proof {
                assert(stream_view(current@) =~= stream_view(cur).push(instr@));
            }
        }
        i = i + 1;
    }
    proof {
        assert(s.take(i as int) =~= s);
    }
    if current.len() > 0 {
        starts.push(current_start);
        bodies.push(current);
    }
    (starts, bodies)
}

proof fn lemma_node_map_bounds(bs: Seq<(u64, Seq<X86InstructionV>)>)
    requires
        bs.len() <= usize::MAX,
    ensures
        forall|a: u64| #[trigger] node_map(bs).contains_key(a) ==> node_map(bs)[a] < bs.len(),
    decreases bs.len(),
{
    if bs.len() > 0 {
        lemma_node_map_bounds(bs.drop_last());
        assert forall|a: u64| #[trigger] node_map(bs).contains_key(a) implies node_map(bs)[a]
            < bs.len() by {
            if a != bs.last().0 {
                assert(node_map(bs.drop_last()).contains_key(a));
            }
        }
    }
}

proof fn lemma_locations_in_prefix(
    m: Map<u64, (usize, usize)>,
    k: usize,
    is: Seq<X86InstructionV>,
    bs: Seq<(u64, Seq<X86InstructionV>)>,
)
    requires
        k < bs.len(),
        is.len() <= bs[k as int].1.len(),
        forall|a: u64|
            #[trigger] m.contains_key(a) ==> m[a].0 < bs.len() && m[a].1 < bs[m[a].0 as int].1.len(),
    ensures
        forall|a: u64|
            #[trigger] locations_in(m, k, is).contains_key(a) ==> locations_in(m, k, is)[a].0
                < bs.len() && locations_in(m, k, is)[a].1 < bs[locations_in(m, k, is)[a].0 as int].1.len(),
    decreases is.len(),
{
    if is.len() > 0 {
        lemma_locations_in_prefix(m, k, is.drop_last(), bs);
        let r = locations_in(m, k, is);
        assert forall|a: u64| #[trigger] r.contains_key(a) implies r[a].0 < bs.len() && r[a].1
            < bs[r[a].0 as int].1.len() by {
            if a != is.last().address {
                assert(locations_in(m, k, is.drop_last()).contains_key(a));
            }
        }
    }
}

proof fn lemma_location_map_bounds(bs: Seq<(u64, Seq<X86InstructionV>)>)
    requires
        bs.len() <= usize::MAX,
    ensures
        forall|a: u64|
            #[trigger] location_map(bs).contains_key(a) ==> location_map(bs)[a].0 < bs.len()
                && location_map(bs)[a].1 < bs[location_map(bs)[a].0 as int].1.len(),
    decreases bs.len(),
{
    if bs.len() > 0 {
        let pre = bs.drop_last();
        lemma_location_map_bounds(pre);
        let m = location_map(pre);
        assert forall|a: u64| #[trigger] m.contains_key(a) implies m[a].0 < bs.len() && m[a].1
            < bs[m[a].0 as int].1.len() by {
            assert(bs[m[a].0 as int] == pre[m[a].0 as int]);
        }
        assert(bs.last() == bs[((bs.len() - 1) as usize) as int]);
        lemma_locations_in_prefix(m, (bs.len() - 1) as usize, bs.last().1, bs);
    }
}

proof fn lemma_edges_upto_mono(bs: Seq<(u64, Seq<X86InstructionV>)>, i: int, n: int)
    requires
        0 <= i <= n,
    ensures
        edges_upto(bs, i).len() <= edges_upto(bs, n).len(),
    decreases n - i,
{
    if i < n {
        lemma_edges_upto_mono(bs, i, n - 1);
    }
}

fn add_opt_edge(g: &mut DiGraph<BasicBlock, EdgeType>, a: usize, b: Option<usize>, kind: EdgeType)
    requires
        a < graph_blocks(*old(g)).len(),
        b is Some ==> b.unwrap() < graph_blocks(*old(g)).len(),
        graph_edges(*old(g)).len() + opt_edge(a, b, kind).len() <= u32::MAX,
    ensures
        graph_blocks(*final(g)) == graph_blocks(*old(g)),
        graph_edges(*final(g)) == graph_edges(*old(g)) + opt_edge(a, b, kind),
{
    match b {
        Some(t) => {
            add_flow_edge(g, a, t, kind);
            proof {
                assert(graph_edges(*g) =~= graph_edges(*old(g)) + opt_edge(a, b, kind));
            }
        },
        None => {
            proof {
                assert(graph_edges(*g) =~= graph_edges(*old(g)) + opt_edge(a, b, kind));
            }
        },
    }
}

fn node_lookup(m: &HashMap<u64, usize>, a: Option<u64>) -> (r: Option<usize>)
    ensures
        r == lookup(m@, a),
{
    match a {
        Some(x) => match m.get(&x) {
            Some(n) => Some(*n),
            None => None,
        },
        None => None,
    }
}

/// The edges out of block `i`, added to the graph.
fn add_block_edges(
    g: &mut DiGraph<BasicBlock, EdgeType>,
    starts: &Vec<u64>,
    bodies: &Vec<Vec<Instruction>>,
    node_of: &HashMap<u64, usize>,
    i: usize,
    Ghost(bs): Ghost<Seq<(u64, Seq<X86InstructionV>)>>,
)
    requires
        i < starts@.len(),
        starts@.len() == bs.len(),
        bs.len() <= usize::MAX,
        bodies@.len() == bs.len(),
        forall|k: int| 0 <= k < bs.len() ==> #[trigger] bs[k] == (starts@[k], stream_view(bodies@[k]@)),
        node_of@ == node_map(bs),
        graph_blocks(*old(g)).len() == bs.len(),
        graph_edges(*old(g)).len() + block_edges(bs, i as int).len() <= u32::MAX,
    ensures
        graph_blocks(*final(g)) == graph_blocks(*old(g)),
        graph_edges(*final(g)) == graph_edges(*old(g)) + block_edges(bs, i as int),
{
    proof {
        lemma_node_map_bounds(bs);
        assert(bs[i as int] == (starts@[i as int], stream_view(bodies@[i as int]@)));
    }
    let ghost e0 = graph_edges(*g);
    let node = match node_of.get(&starts[i]) {
        Some(n) => *n,
        None => {
            proof {
                assert(graph_edges(*g) =~= e0 + block_edges(bs, i as int));
            }
            return ;
        },
    };
    let body = &bodies[i];
    if body.len() == 0 {
        proof {
            assert(graph_edges(*g) =~= e0 + block_edges(bs, i as int));
        }
        return ;
    }
    let last = &body[body.len() - 1];
    proof {
        assert(stream_view(body@).last() == last@);
    }
    let next = if i < starts.len() - 1 {
        proof {
            assert(bs[i + 1] == (starts@[i + 1], stream_view(bodies@[i + 1]@)));
        }
        node_lookup(node_of, Some(starts[i + 1]))
    } else {
        None
    };
    let target = node_lookup(node_of, extract_target(last));
    if last.is_conditional_jump() {
        add_opt_edge(g, node, target, EdgeType::BranchTrue);
        add_opt_edge(g, node, next, EdgeType::BranchFalse);
    } else if last.is_unconditional_jump() {
        add_opt_edge(g, node, target, EdgeType::Unconditional);
    } else if last.is_call() {
        add_opt_edge(g, node, target, EdgeType::Call);
        add_opt_edge(g, node, next, EdgeType::FallThrough);
    } else if !last.is_return() {
        add_opt_edge(g, node, next, EdgeType::FallThrough);
    }
    proof {
        assert(graph_edges(*g) =~= e0 + block_edges(bs, i as int));
    }
}

impl ControlFlowGraph {
    /// Create a new empty control flow graph
    pub fn new() -> (r: Self)
        ensures
            r@ == cfg_spec(Seq::<X86InstructionV>::empty()),
    {
        let r = ControlFlowGraph {
            graph: new_graph(),
            entry: None,
            address_to_node: HashMap::new(),
            address_to_location: HashMap::new(),
        };
        proof {
            let e = Seq::<X86InstructionV>::empty();
            assert(cfg_spec(e).blocks =~= Seq::<BasicBlockV>::empty());
            assert(r@.address_to_node =~= cfg_spec(e).address_to_node);
            assert(r@.address_to_location =~= cfg_spec(e).address_to_location);
        }
        r
    }

    /// Build CFG from x86 instructions
    pub fn from_x86(instructions: Vec<X86Instruction>) -> (r: Self)
        requires
            fits_graph(instructions@.map_values(|i: X86Instruction| i@)),
        ensures
            r@ == cfg_spec(instructions@.map_values(|i: X86Instruction| i@)),
    {
        let ghost xs = instructions@.map_values(|i: X86Instruction| i@);
        let mut instrs: Vec<Instruction> = Vec::new();
        let mut k: usize = 0;
        while k < instructions.len()
            invariant
                xs == instructions@.map_values(|i: X86Instruction| i@),
                k <= instructions@.len(),
                instrs@.len() == k,
                forall|j: int| 0 <= j < k ==> (#[trigger] instrs@[j])@ == xs[j],
            decreases instructions@.len() - k,
        {
            instrs.push(Instruction::X86(instructions[k].copy()));
            k = k + 1;
        }
        proof {
            assert(stream_view(instrs@) =~= xs);
        }
        Self::build(&instrs)
    }

    /// Build CFG from a mixed/generic instruction stream.
    pub fn from_instructions(instructions: &[Instruction]) -> (r: Self)
        requires
            fits_graph(stream_view(instructions@)),
        ensures
            r@ == cfg_spec(stream_view(instructions@)),
    {
        Self::build(instructions)
    }

    /// Build the CFG of an instruction stream.
    fn build(instructions: &[Instruction]) -> (r: Self)
        requires
            fits_graph(stream_view(instructions@)),
        ensures
            r@ == cfg_spec(stream_view(instructions@)),
    {
        if instructions.len() == 0 {
            proof {
                assert(stream_view(instructions@) =~= Seq::<X86InstructionV>::empty());
            }
            return Self::new();
        }
        let ghost s = stream_view(instructions@);
        let ghost bs = blocks_of(s);
        // Find all basic block leaders, then cut the stream at them.
        let leaders = find_leaders(instructions);
        let (starts, bodies) = split_into_blocks(instructions, &leaders);
        let n = starts.len();
        proof {
            lemma_node_map_bounds(bs);
            lemma_location_map_bounds(bs);
        }
        // Add nodes to graph
        let mut graph = new_graph();
        let mut node_of: HashMap<u64, usize> = HashMap::new();
        let mut location: HashMap<u64, (usize, usize)> = HashMap::new();
        let mut k: usize = 0;
        proof {
            assert(bs.take(0) =~= seq![]);
            assert(node_of@ =~= node_map(bs.take(0)));
            assert(location@ =~= location_map(bs.take(0)));
        }
        while k < n
            invariant
                n == bs.len(),
                starts@.len() == n,
                bodies@.len() == n,
                bs == blocks_of(s),
                fits_graph(s),
                forall|j: int| 0 <= j < n ==> #[trigger] bs[j] == (starts@[j], stream_view(bodies@[j]@)),
                k <= n,
                graph_blocks(graph).len() == k,
                forall|j: int|
                    0 <= j < k ==> #[trigger] graph_blocks(graph)[j] == (BasicBlockV {
                        address: bs[j].0,
                        instructions: bs[j].1,
                        successors: seq![],
                        predecessors: seq![],
                    }),
                graph_edges(graph) == Seq::<(usize, usize, EdgeType)>::empty(),
                node_of@ == node_map(bs.take(k as int)),
                location@ == location_map(bs.take(k as int)),
            decreases n - k,
        {
            proof {
                assert(bs.take(k + 1).drop_last() =~= bs.take(k as int));
                assert(bs[k as int] == (starts@[k as int], stream_view(bodies@[k as int]@)));
            }
            let ghost g0 = graph_blocks(graph);
            let block = BasicBlock {
                address: starts[k],
                instructions: copy_instructions(&bodies[k]),
                successors: Vec::new(),
                predecessors: Vec::new(),
            };
            let pos = add_block(&mut graph, block);
            node_of.insert(starts[k], pos);
            let body = &bodies[k];
            let ghost base = location@;
            let mut j: usize = 0;
            proof {
                assert(stream_view(body@).take(0) =~= seq![]);
            }
            while j < body.len()
                invariant
                    j <= body@.len(),
                    pos == k,
                    location@ == locations_in(base, k, stream_view(body@).take(j as int)),
                decreases body@.len() - j,
            {
                proof {
                    assert(stream_view(body@).take(j + 1).drop_last() =~= stream_view(body@).take(j as int));
                    assert(stream_view(body@).take(j + 1).last() == body@[j as int]@);
                }
                location.insert(body[j].address(), (pos, j));
                j = j + 1;
            }
            proof {
                assert(stream_view(body@).take(j as int) =~= stream_view(body@));
                assert(bs.take(k + 1).last() == bs[k as int]);
                assert forall|i: int| 0 <= i < k + 1 implies #[trigger] graph_blocks(graph)[i] == (
                BasicBlockV {
                    address: bs[i].0,
                    instructions: bs[i].1,
                    successors: seq![],
                    predecessors: seq![],
                }) by {
                    if i < k {
                        assert(graph_blocks(graph)[i] == g0[i]);
                    } else {
                        assert(block@.successors =~= seq![]);
                        assert(block@.predecessors =~= seq![]);
                    }
                }
            }
            k = k + 1;
        }
        proof {
            assert(bs.take(n as int) =~= bs);
        }
        let entry = if n > 0 {
            Some(0usize)
        } else {
            None
        };
        // Add edges
        let mut i: usize = 0;
        proof {
            assert(graph_edges(graph) =~= edges_upto(bs, 0));
        }
        while i < n
            invariant
                n == bs.len(),
                starts@.len() == n,
                bodies@.len() == n,
                bs == blocks_of(s),
                fits_graph(s),
                forall|j: int| 0 <= j < n ==> #[trigger] bs[j] == (starts@[j], stream_view(bodies@[j]@)),
                node_of@ == node_map(bs),
                i <= n,
                graph_blocks(graph).len() == n,
                forall|j: int|
                    0 <= j < n ==> #[trigger] graph_blocks(graph)[j] == (BasicBlockV {
                        address: bs[j].0,
                        instructions: bs[j].1,
                        successors: seq![],
                        predecessors: seq![],
                    }),
                graph_edges(graph) == edges_upto(bs, i as int),
            decreases n - i,
        {
            proof {
                lemma_edges_upto_mono(bs, i + 1, n as int);
            }
            let ghost g0 = graph_blocks(graph);
            add_block_edges(&mut graph, &starts, &bodies, &node_of, i, Ghost(bs));
            i = i + 1;
        }
        // Update successors and predecessors
        proof {
            assert(graph_edges(graph) == cfg_edges(s));
        }
        let ghost g1 = graph_blocks(graph);
        update_adjacency(&mut graph);
        proof {
            assert forall|j: int| 0 <= j < n implies #[trigger] graph_blocks(graph)[j] == node_block(s, j) by {
                assert(g1[j] == (BasicBlockV {
                    address: bs[j].0,
                    instructions: bs[j].1,
                    successors: seq![],
                    predecessors: seq![],
                }));
            }
        }
        let r = ControlFlowGraph {
            graph,
            entry,
            address_to_node: node_of,
            address_to_location: location,
        };
        proof {
            assert(r@.blocks =~= cfg_spec(s).blocks);
            assert forall|a: u64| #[trigger] r@.address_to_location.contains_key(a) implies r@.address_to_location[a].0
                < r@.blocks.len() && r@.address_to_location[a].1 < r@.blocks[r@.address_to_location[a].0 as int].instructions.len() by {
                let p = r@.address_to_location[a];
                assert(r@.blocks[p.0 as int] == node_block(s, p.0 as int));
            }
        }
        r
    }

    /// Get the entry node
    pub fn entry(&self) -> (r: Option<usize>)
        ensures
            r == self@.entry,
    {
        self.entry
    }

    /// Get all basic blocks, by node position.
    pub fn blocks(&self) -> (r: Vec<&BasicBlock>)
        ensures
            r@.len() == self@.blocks.len(),
            forall|i: int| 0 <= i < r@.len() ==> (#[trigger] r@[i])@ == self@.blocks[i],
    {
        proof {
            use_type_invariant(self);
        }
        let n = block_count(&self.graph);
        let mut out: Vec<&BasicBlock> = Vec::new();
        let mut i: usize = 0;
        while i < n
            invariant
                n == self@.blocks.len(),
                n <= u32::MAX,
                i <= n,
                out@.len() == i,
                forall|j: int| 0 <= j < i ==> (#[trigger] out@[j])@ == self@.blocks[j],
            decreases n - i,
        {
            match block_at(&self.graph, i) {
                Some(b) => {
                    out.push(b);
                },
                None => {
                    proof {
                        assert(false);
                    }
                },
            }
            i = i + 1;
        }
        out
    }

    /// Get basic block by address
    pub fn block_by_address(&self, address: u64) -> (r: Option<&BasicBlock>)
        ensures
            match r {
                Some(b) => self@.address_to_node.contains_key(address) && b@
                    == self@.blocks[self@.address_to_node[address] as int],
                None => !self@.address_to_node.contains_key(address),
            },
    {
        proof {
            use_type_invariant(self);
        }
        match self.address_to_node.get(&address) {
            Some(node) => {
                proof {
                    assert(self@.address_to_node.contains_key(address));
                }
                block_at(&self.graph, *node)
            },
            None => None,
        }
    }

    /// Get the underlying graph
    pub fn graph(&self) -> (r: &DiGraph<BasicBlock, EdgeType>)
        ensures
            graph_blocks(*r) == self@.blocks,
            graph_edges(*r) == self@.edges,
    {
        &self.graph
    }

    /// The edges leaving the block at position `node`, as (target, kind),
    /// most recently added first.
    pub fn out_edges(&self, node: usize) -> (r: Vec<(usize, EdgeType)>)
        ensures
            node < self@.blocks.len() ==> r@ == out_edges(self@.edges, node),
            node >= self@.blocks.len() ==> r@.len() == 0,
    {
        if node < block_count(&self.graph) {
            block_out_edges(&self.graph, node)
        } else {
            Vec::new()
        }
    }

    /// Fetch instruction by its address (if present in the decoded stream).
    pub fn instruction_by_address(&self, address: u64) -> (r: Option<&Instruction>)
        ensures
            match r {
                Some(x) => self@.address_to_location.contains_key(address) && x@
                    == self@.blocks[self@.address_to_location[address].0 as int].instructions[self@.address_to_location[address].1 as int],
                None => !self@.address_to_location.contains_key(address),
            },
    {
        proof {
            use_type_invariant(self);
        }
        let (node, idx) = match self.address_to_location.get(&address) {
            Some(p) => *p,
            None => {
                return None;
            },
        };
        proof {
            assert(self@.address_to_location.contains_key(address));
        }
        match block_at(&self.graph, node) {
            Some(b) => {
                proof {
                    assert(b@.instructions[idx as int] == b.instructions@[idx as int]@);
                }
                Some(&b.instructions[idx])
            },
            None => None,
        }
    }

    /// Fetch the instruction immediately preceding `address` within the same basic block.
    pub fn previous_instruction_in_block(&self, address: u64) -> (r: Option<&Instruction>)
        ensures
            match r {
                Some(x) => self@.address_to_location.contains_key(address)
                    && self@.address_to_location[address].1 > 0 && x@
                    == self@.blocks[self@.address_to_location[address].0 as int].instructions[self@.address_to_location[address].1
                    - 1],
                None => !self@.address_to_location.contains_key(address)
                    || self@.address_to_location[address].1 == 0,
            },
    {
        proof {
            use_type_invariant(self);
        }
        let (node, idx) = match self.address_to_location.get(&address) {
            Some(p) => *p,
            None => {
                return None;
            },
        };
        proof {
            assert(self@.address_to_location.contains_key(address));
        }
        if idx == 0 {
            return None;
        }
        match block_at(&self.graph, node) {
            Some(b) => {
                proof {
                    assert(b@.instructions[idx - 1] == b.instructions@[idx - 1]@);
                }
                Some(&b.instructions[idx - 1])
            },
            None => None,
        }
    }
}

impl Default for ControlFlowGraph {
    fn default() -> (r: Self)
        ensures
            r@ == cfg_spec(Seq::<X86InstructionV>::empty()),
    {
        Self::new()
    }
}

proof fn lemma_neighbors_mirror(es: Seq<(usize, usize, EdgeType)>, a: usize, b: usize)
    ensures
        out_neighbors(es, a).contains(b) == in_neighbors(es, b).contains(a),
    decreases es.len(),
{
    if es.len() > 0 {
        let pre = es.drop_last();
        lemma_neighbors_mirror(pre, a, b);
        let e = es.last();
        let o = out_neighbors(pre, a);
        let i = in_neighbors(pre, b);
        if e.0 == a {
            assert(out_neighbors(es, a) == seq![e.1] + o);
            assert((seq![e.1] + o).contains(b) == (e.1 == b || o.contains(b))) by {
                if (seq![e.1] + o).contains(b) {
                    let k = choose|k: int| 0 <= k < (seq![e.1] + o).len() && (seq![e.1] + o)[k] == b;
                    if k > 0 {
                        assert(o[k - 1] == b);
                    }
                }
                if o.contains(b) {
                    let k = choose|k: int| 0 <= k < o.len() && o[k] == b;
                    assert((seq![e.1] + o)[k + 1] == b);
                }
                if e.1 == b {
                    assert((seq![e.1] + o)[0] == b);
                }
            }
        }
        if e.1 == b {
            assert(in_neighbors(es, b) == seq![e.0] + i);
            assert((seq![e.0] + i).contains(a) == (e.0 == a || i.contains(a))) by {
                if (seq![e.0] + i).contains(a) {
                    let k = choose|k: int| 0 <= k < (seq![e.0] + i).len() && (seq![e.0] + i)[k] == a;
                    if k > 0 {
                        assert(i[k - 1] == a);
                    }
                }
                if i.contains(a) {
                    let k = choose|k: int| 0 <= k < i.len() && i[k] == a;
                    assert((seq![e.0] + i)[k + 1] == a);
                }
                if e.0 == a {
                    assert((seq![e.0] + i)[0] == a);
                }
            }
        }
    }
}

/// Law: in the graph of any stream, block `b` is a successor of block `a`
/// exactly when `a` is a predecessor of `b`.
pub proof fn lemma_cfg_successors_mirror_predecessors(s: Seq<X86InstructionV>, a: int, b: int)
    requires
        0 <= a < cfg_spec(s).blocks.len(),
        0 <= b < cfg_spec(s).blocks.len(),
    ensures
        cfg_spec(s).blocks[a].successors.contains(b as usize) == cfg_spec(s).blocks[b].predecessors.contains(
            a as usize,
        ),
{
    lemma_neighbors_mirror(cfg_edges(s), a as usize, b as usize);
}

/// No two blocks start at the same address.
pub open spec fn distinct_starts(bs: Seq<(u64, Seq<X86InstructionV>)>) -> bool {
    forall|i: int, j: int| 0 <= i < j < bs.len() ==> #[trigger] bs[i].0 != #[trigger] bs[j].0
}

proof fn lemma_node_map_distinct(bs: Seq<(u64, Seq<X86InstructionV>)>, i: int)
    requires
        distinct_starts(bs),
        bs.len() <= usize::MAX,
        0 <= i < bs.len(),
    ensures
        node_map(bs).contains_key(bs[i].0),
        node_map(bs)[bs[i].0] == i,
    decreases bs.len(),
{
    if i < bs.len() - 1 {
        let pre = bs.drop_last();
        assert(distinct_starts(pre)) by {
            assert forall|a: int, b: int| 0 <= a < b < pre.len() implies #[trigger] pre[a].0 != #[trigger] pre[b].0 by {
                assert(pre[a] == bs[a] && pre[b] == bs[b]);
            }
        }
        lemma_node_map_distinct(pre, i);
        assert(pre[i] == bs[i]);
        assert(bs[i].0 != bs[bs.len() - 1].0);
    }
}

proof fn lemma_out_neighbors_concat(a: Seq<(usize, usize, EdgeType)>, b: Seq<(usize, usize, EdgeType)>, k: usize)
    ensures
        out_neighbors(a + b, k) == out_neighbors(b, k) + out_neighbors(a, k),
    decreases b.len(),
{
    if b.len() == 0 {
        assert(a + b =~= a);
        assert(out_neighbors(b, k) + out_neighbors(a, k) =~= out_neighbors(a, k));
    } else {
        lemma_out_neighbors_concat(a, b.drop_last(), k);
        assert((a + b).drop_last() =~= a + b.drop_last());
        assert((a + b).last() == b.last());
        if b.last().0 == k {
            assert(out_neighbors(a + b, k) =~= out_neighbors(b, k) + out_neighbors(a, k));
        }
    }
}

proof fn lemma_out_neighbors_none(es: Seq<(usize, usize, EdgeType)>, k: usize)
    requires
        forall|j: int| 0 <= j < es.len() ==> (#[trigger] es[j]).0 != k,
    ensures
        out_neighbors(es, k) == Seq::<usize>::empty(),
    decreases es.len(),
{
    if es.len() > 0 {
        lemma_out_neighbors_none(es.drop_last(), k);
        assert(es[es.len() - 1].0 != k);
    }
}

/// With distinct block starts, the edges of block `i` all leave node `i`.
proof fn lemma_block_edges_leave(bs: Seq<(u64, Seq<X86InstructionV>)>, i: int)
    requires
        distinct_starts(bs),
        bs.len() <= usize::MAX,
        0 <= i < bs.len(),
    ensures
        forall|j: int| 0 <= j < block_edges(bs, i).len() ==> (#[trigger] block_edges(bs, i)[j]).0 == i,
{
    lemma_node_map_distinct(bs, i);
}

proof fn lemma_edges_upto_out(bs: Seq<(u64, Seq<X86InstructionV>)>, n: int, k: int)
    requires
        distinct_starts(bs),
        bs.len() <= usize::MAX,
        0 <= k < bs.len(),
        0 <= n <= bs.len(),
        block_edges(bs, k) == Seq::<(usize, usize, EdgeType)>::empty(),
    ensures
        out_neighbors(edges_upto(bs, n), k as usize) == Seq::<usize>::empty(),
    decreases n,
{
    if n > 0 {
        lemma_edges_upto_out(bs, n - 1, k);
        lemma_out_neighbors_concat(edges_upto(bs, n - 1), block_edges(bs, n - 1), k as usize);
        lemma_block_edges_leave(bs, n - 1);
        if n - 1 != k {
            lemma_out_neighbors_none(block_edges(bs, n - 1), k as usize);
        } else {
            assert(out_neighbors(block_edges(bs, k), k as usize) == Seq::<usize>::empty());
        }
        assert(out_neighbors(edges_upto(bs, n), k as usize) =~= Seq::<usize>::empty());
    }
}

/// Law: in a graph that fits the graph's indices and whose blocks start at
/// distinct addresses, a block that ends in a return has no successor.
pub proof fn lemma_returning_block_has_no_successor(s: Seq<X86InstructionV>, k: int)
    requires
        fits_graph(s),
        distinct_starts(blocks_of(s)),
        0 <= k < cfg_spec(s).blocks.len(),
        cfg_spec(s).blocks[k].instructions.len() > 0,
        is_return_mnemonic(cfg_spec(s).blocks[k].instructions.last().mnemonic),
    ensures
        cfg_spec(s).blocks[k].successors == Seq::<usize>::empty(),
{
    let bs = blocks_of(s);
    let m = lower_seq(cfg_spec(s).blocks[k].instructions.last().mnemonic);
    reveal_strlit("ret");
    reveal_strlit("retn");
    reveal_strlit("retf");
    reveal_strlit("iret");
    reveal_strlit("iretd");
    reveal_strlit("iretq");
    reveal_strlit("j");
    reveal_strlit("jmp");
    reveal_strlit("call");
    assert(m[0] == 'r' || m[0] == 'i');
    assert(m.subrange(0, 1)[0] == m[0]);
    assert(!starts_with(m, "j"@));
    assert(m != "jmp"@);
    assert(m != "call"@);
    assert(block_edges(bs, k) =~= Seq::<(usize, usize, EdgeType)>::empty());
    lemma_edges_upto_out(bs, bs.len() as int, k);
}

proof fn lemma_out_edges_concat(a: Seq<(usize, usize, EdgeType)>, b: Seq<(usize, usize, EdgeType)>, k: usize)
    ensures
        out_edges(a + b, k) == out_edges(b, k) + out_edges(a, k),
    decreases b.len(),
{
    if b.len() == 0 {
        assert(a + b =~= a);
        assert(out_edges(b, k) + out_edges(a, k) =~= out_edges(a, k));
    } else {
        lemma_out_edges_concat(a, b.drop_last(), k);
        assert((a + b).drop_last() =~= a + b.drop_last());
        assert((a + b).last() == b.last());
        if b.last().0 == k {
            assert(out_edges(a + b, k) =~= out_edges(b, k) + out_edges(a, k));
        }
    }
}

proof fn lemma_out_edges_none(es: Seq<(usize, usize, EdgeType)>, k: usize)
    requires
        forall|j: int| 0 <= j < es.len() ==> (#[trigger] es[j]).0 != k,
    ensures
        out_edges(es, k) == Seq::<(usize, EdgeType)>::empty(),
        out_neighbors(es, k) == Seq::<usize>::empty(),
    decreases es.len(),
{
    if es.len() > 0 {
        lemma_out_edges_none(es.drop_last(), k);
        assert(es[es.len() - 1].0 != k);
    }
}

proof fn lemma_edges_upto_block(bs: Seq<(u64, Seq<X86InstructionV>)>, n: int, k: int)
    requires
        distinct_starts(bs),
        bs.len() <= usize::MAX,
        0 <= k < bs.len(),
        0 <= n <= bs.len(),
    ensures
        out_edges(edges_upto(bs, n), k as usize) == (if k < n {
            out_edges(block_edges(bs, k), k as usize)
        } else {
            Seq::<(usize, EdgeType)>::empty()
        }),
        out_neighbors(edges_upto(bs, n), k as usize) == (if k < n {
            out_neighbors(block_edges(bs, k), k as usize)
        } else {
            Seq::<usize>::empty()
        }),
    decreases n,
{
    if n > 0 {
        lemma_edges_upto_block(bs, n - 1, k);
        lemma_out_edges_concat(edges_upto(bs, n - 1), block_edges(bs, n - 1), k as usize);
        lemma_out_neighbors_concat(edges_upto(bs, n - 1), block_edges(bs, n - 1), k as usize);
        lemma_block_edges_leave(bs, n - 1);
        if n - 1 != k {
            lemma_out_edges_none(block_edges(bs, n - 1), k as usize);
            assert(out_edges(edges_upto(bs, n), k as usize) =~= out_edges(edges_upto(bs, n - 1), k as usize));
            assert(out_neighbors(edges_upto(bs, n), k as usize) =~= out_neighbors(
                edges_upto(bs, n - 1),
                k as usize,
            ));
        } else {
            assert(out_edges(edges_upto(bs, n), k as usize) =~= out_edges(block_edges(bs, k), k as usize));
            assert(out_neighbors(edges_upto(bs, n), k as usize) =~= out_neighbors(
                block_edges(bs, k),
                k as usize,
            ));
        }
    } else {
        assert(edges_upto(bs, 0) =~= Seq::<(usize, usize, EdgeType)>::empty());
    }
}

/// Law: in a graph that fits the graph's indices and whose blocks start at
/// distinct addresses, the edges leaving block `k`, and its successors, are
/// exactly those that `block_edges` gives for its last instruction: a
/// conditional jump's true and false edges, a jump's one edge, a call's call
/// and fall-through edges, none for a return, else a fall-through edge (each
/// only to a target that starts a block).
pub proof fn lemma_block_out_edges(s: Seq<X86InstructionV>, k: int)
    requires
        fits_graph(s),
        distinct_starts(blocks_of(s)),
        0 <= k < cfg_spec(s).blocks.len(),
    ensures
        out_edges(cfg_spec(s).edges, k as usize) == out_edges(block_edges(blocks_of(s), k), k as usize),
        cfg_spec(s).blocks[k].successors == out_neighbors(block_edges(blocks_of(s), k), k as usize),
{
    let bs = blocks_of(s);
    lemma_edges_upto_block(bs, bs.len() as int, k);
}

/// The instructions of the blocks, one block after another.
pub open spec fn flatten_blocks(bs: Seq<(u64, Seq<X86InstructionV>)>) -> Seq<X86InstructionV>
    decreases bs.len(),
{
    if bs.len() == 0 {
        seq![]
    } else {
        flatten_blocks(bs.drop_last()) + bs.last().1
    }
}

/// Each block is non-empty and starts at the address of its first instruction.
pub open spec fn blocks_well_started(bs: Seq<(u64, Seq<X86InstructionV>)>) -> bool {
    forall|k: int| 0 <= k < bs.len() ==> (#[trigger] bs[k]).1.len() > 0 && bs[k].0 == bs[k].1[0].address
}

proof fn lemma_split_blocks_partition(p: Seq<X86InstructionV>, all: Seq<X86InstructionV>, start0: u64)
    requires
        p.len() > 0 ==> p[0].address == start0,
    ensures
        flatten_blocks(split_blocks(p, all, start0).0) + split_blocks(p, all, start0).2 == p,
        blocks_well_started(split_blocks(p, all, start0).0),
        p.len() > 0 ==> split_blocks(p, all, start0).2.len() > 0 && split_blocks(p, all, start0).2[0].address
            == split_blocks(p, all, start0).1,
    decreases p.len(),
{
    if p.len() > 0 {
        let q = p.drop_last();
        lemma_split_blocks_partition(q, all, start0);
        let prev = split_blocks(q, all, start0);
        let x = p.last();
        let st = split_blocks(p, all, start0);
        assert(q + seq![x] =~= p);
        if x.address != prev.1 && is_leader(all, x.address) {
            if prev.2.len() > 0 {
                let nb = prev.0.push((prev.1, prev.2));
                assert(nb.drop_last() =~= prev.0);
                assert(flatten_blocks(nb) == flatten_blocks(prev.0) + prev.2);
                assert(flatten_blocks(nb) + seq![x] =~= p);
                assert forall|k: int| 0 <= k < nb.len() implies (#[trigger] nb[k]).1.len() > 0 && nb[k].0
                    == nb[k].1[0].address by {
                    if k < prev.0.len() {
                        assert(nb[k] == prev.0[k]);
                    }
                }
            } else {
                assert(flatten_blocks(prev.0) =~= q);
                assert(q.len() == 0);
                assert(flatten_blocks(prev.0) + seq![x] =~= p);
            }
        } else {
            assert(flatten_blocks(prev.0) + prev.2.push(x) =~= p);
            if q.len() == 0 {
                assert(prev.2.len() == 0);
                assert(flatten_blocks(prev.0) + prev.2 =~= q);
            }
        }
    }
}

proof fn lemma_flatten_first(bs: Seq<(u64, Seq<X86InstructionV>)>)
    requires
        bs.len() > 0,
        bs[0].1.len() > 0,
    ensures
        flatten_blocks(bs).len() > 0,
        flatten_blocks(bs)[0] == bs[0].1[0],
    decreases bs.len(),
{
    if bs.len() > 1 {
        lemma_flatten_first(bs.drop_last());
    } else {
        assert(bs.drop_last() =~= seq![]);
        assert(flatten_blocks(bs.drop_last()) =~= Seq::<X86InstructionV>::empty());
        assert(bs.last() == bs[0]);
        assert(flatten_blocks(bs) =~= bs[0].1);
    }
}

/// Law: the blocks of a stream partition it: their instructions, one block
/// after another, are the stream; each block is non-empty and starts at the
/// address of its first instruction; the graph has an entry, the first block,
/// which starts at the stream's first address, exactly when the stream is not
/// empty; and each graph block holds its block's address and instructions.
pub proof fn lemma_cfg_blocks_partition(s: Seq<X86InstructionV>)
    ensures
        flatten_blocks(blocks_of(s)) == s,
        blocks_well_started(blocks_of(s)),
        cfg_spec(s).blocks.len() == blocks_of(s).len(),
        forall|k: int|
            0 <= k < cfg_spec(s).blocks.len() ==> (#[trigger] cfg_spec(s).blocks[k]).address == blocks_of(s)[k].0
                && cfg_spec(s).blocks[k].instructions == blocks_of(s)[k].1,
        s.len() == 0 <==> (cfg_spec(s).entry is None && cfg_spec(s).blocks.len() == 0),
        s.len() > 0 ==> cfg_spec(s).entry == Some(0usize) && cfg_spec(s).blocks[0].address == s[0].address,
{
    if s.len() > 0 {
        let st = split_blocks(s, s, s[0].address);
        lemma_split_blocks_partition(s, s, s[0].address);
        let bs = blocks_of(s);
        assert(bs == st.0.push((st.1, st.2)));
        assert(bs.drop_last() =~= st.0);
        assert(flatten_blocks(bs) == flatten_blocks(st.0) + st.2);
        assert forall|k: int| 0 <= k < bs.len() implies (#[trigger] bs[k]).1.len() > 0 && bs[k].0
            == bs[k].1[0].address by {
            if k < st.0.len() {
                assert(bs[k] == st.0[k]);
            }
        }
        lemma_flatten_first(bs);
    } else {
        assert(flatten_blocks(blocks_of(s)) =~= s);
    }
}

/// No two instructions of the stream share an address.
pub open spec fn distinct_addresses(s: Seq<X86InstructionV>) -> bool {
    forall|i: int, j: int| 0 <= i < j < s.len() ==> #[trigger] s[i].address != #[trigger] s[j].address
}

/// Only the last instruction of a block may transfer control.
pub open spec fn transfers_last(is: Seq<X86InstructionV>) -> bool {
    forall|j: int| 0 <= j < is.len() - 1 ==> !is_control_flow_mnemonic(#[trigger] is[j].mnemonic)
}

proof fn lemma_split_blocks_transfers_last(p: Seq<X86InstructionV>, all: Seq<X86InstructionV>, start0: u64)
    requires
        p.len() <= all.len(),
        p == all.take(p.len() as int),
        distinct_addresses(all),
        p.len() > 0 ==> p[0].address == start0,
    ensures
        forall|k: int|
            0 <= k < split_blocks(p, all, start0).0.len() ==> transfers_last(
                (#[trigger] split_blocks(p, all, start0).0[k]).1,
            ),
        transfers_last(split_blocks(p, all, start0).2),
        split_blocks(p, all, start0).2.len() <= p.len(),
        split_blocks(p, all, start0).2 == p.skip(p.len() - split_blocks(p, all, start0).2.len()),
    decreases p.len(),
{
    lemma_split_blocks_partition(p, all, start0);
    if p.len() > 0 {
        let q = p.drop_last();
        assert(q == all.take(q.len() as int));
        lemma_split_blocks_transfers_last(q, all, start0);
        lemma_split_blocks_partition(q, all, start0);
        let prev = split_blocks(q, all, start0);
        let x = p.last();
        let st = split_blocks(p, all, start0);
        let n = q.len() as int;
        assert(x == all[n]);
        if x.address != prev.1 && is_leader(all, x.address) {
            assert(p.skip(p.len() - 1) =~= seq![x]);
            if prev.2.len() > 0 {
                let nb = prev.0.push((prev.1, prev.2));
                assert forall|k: int| 0 <= k < nb.len() implies transfers_last((#[trigger] nb[k]).1) by {
                    if k < prev.0.len() {
                        assert(nb[k] == prev.0[k]);
                    }
                }
            }
        } else {
            let o = prev.2.push(x);
            assert(p.skip(p.len() - o.len()) =~= o) by {
                assert(q.skip(q.len() - prev.2.len()) == prev.2);
            }
            if prev.2.len() > 0 {
                let y = prev.2.last();
                let iy = n - 1;
                assert(y == q[iy]);
                assert(q[iy] == all[iy]);
                if is_control_flow_mnemonic(y.mnemonic) {
                    // `x` follows a control transfer, so it leads a block...
                    assert(is_leader(all, x.address)) by {
                        assert(iy + 1 < all.len() && all[iy + 1].address == x.address);
                    }
                    // ...and it is not the open block's start, an earlier instruction.
                    let i0 = n - prev.2.len();
                    assert(prev.2[0] == q[i0]);
                    assert(prev.1 == all[i0].address);
                    assert(all[i0].address != all[n].address);
                    assert(false);
                }
                assert forall|j: int| 0 <= j < o.len() - 1 implies !is_control_flow_mnemonic(
                    #[trigger] o[j].mnemonic,
                ) by {
                    if j < prev.2.len() - 1 {
                        assert(o[j] == prev.2[j]);
                    } else {
                        assert(o[j] == y);
                    }
                }
            }
        }
    }
}

/// Law: in a stream whose instructions have distinct addresses, an
/// instruction that transfers control is the last of its block.
pub proof fn lemma_control_transfer_ends_block(s: Seq<X86InstructionV>)
    requires
        distinct_addresses(s),
    ensures
        forall|k: int| 0 <= k < blocks_of(s).len() ==> transfers_last((#[trigger] blocks_of(s)[k]).1),
{
    if s.len() > 0 {
        assert(s.take(s.len() as int) =~= s);
        lemma_split_blocks_transfers_last(s, s, s[0].address);
        let st = split_blocks(s, s, s[0].address);
        let bs = blocks_of(s);
        assert forall|k: int| 0 <= k < bs.len() implies transfers_last((#[trigger] bs[k]).1) by {
            if k < st.0.len() {
                assert(bs[k] == st.0[k]);
            }
        }
    }
}

} // verus!
