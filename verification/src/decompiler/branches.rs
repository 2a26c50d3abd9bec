//! If/else recovery from the control flow graph.
//!
//! A conditional jump whose two arms both return, or whose two arms meet at
//! the same join block, becomes an `if`/`else` statement in place of the
//! placeholders that the branch and its arms cover. Rewrites that would
//! overlap an earlier one are skipped.

use crate::analysis::report::{sort_stable, stable_sorted, views_of, SortKey};
use crate::decompiler::ast::{clone_stmt, opt_expr_view, stmt_v, stmts_v, ExprV, Expression, Function, FunctionV, StmtV, Statement};
use crate::decompiler::c_syntax::{sanitize_comment_chars, sanitize_comment_seq};
use crate::decompiler::structure::{
    block_pseudo, branch_condition, branch_condition_spec, declarations_for, existing_names,
    insert_pseudo_register_declarations, strictly_sorted,
    recover_cmp_condition_ir, recover_test_condition_ir, recovered_condition,
    recovered_condition_spec, structure_block, structure_function, cmp_condition_ir_spec,
    test_condition_ir_spec,
};
use crate::disasm::control_flow::{
    out_edges, BasicBlock, BasicBlockV, CfgV, ControlFlowGraph, EdgeType, Instruction,
};
use crate::disasm::ir::{InstructionIR, InstructionIRV};
use crate::disasm::x86::{display_text, is_conditional_jump_mnemonic, is_return_mnemonic, X86InstructionV};
use crate::text::{chars_of, eq_str, extend_chars, extend_slice, hex_text, push_hex, string_of};
use std::collections::HashMap;
use vstd::prelude::*;

verus! {

broadcast use vstd::std_specs::hash::group_hash_axioms;

// ---------------------------------------------------------------------------
// Statement indices and block ranges
// ---------------------------------------------------------------------------

/// The index of the placeholder of each instruction address (a later one wins).
pub open spec fn stmt_index_map(body: Seq<StmtV>) -> Map<u64, usize>
    decreases body.len(),
{
    if body.len() == 0 {
        Map::empty()
    } else {
        let m = stmt_index_map(body.drop_last());
        match body.last() {
            StmtV::InlineAsm { address, disasm } => m.insert(address, (body.len() - 1) as usize),
            _ => m,
        }
    }
}

/// The placeholder indices of a block's first and last instructions.
pub open spec fn block_range_spec(b: BasicBlockV, m: Map<u64, usize>) -> Option<(usize, usize)> {
    if b.instructions.len() == 0 {
        None
    } else if m.contains_key(b.instructions[0].address) && m.contains_key(
        b.instructions.last().address,
    ) {
        Some((m[b.instructions[0].address], m[b.instructions.last().address]))
    } else {
        None
    }
}

pub open spec fn ends_in_return(b: BasicBlockV) -> bool {
    b.instructions.len() > 0 && is_return_mnemonic(b.instructions.last().mnemonic)
}

/// The last edge of `kind` in the list, as the graph's edge walk leaves it.
pub open spec fn last_of_kind(es: Seq<(usize, EdgeType)>, kind: EdgeType) -> Option<usize>
    decreases es.len(),
{
    if es.len() == 0 {
        None
    } else if es.last().1 == kind {
        Some(es.last().0)
    } else {
        last_of_kind(es.drop_last(), kind)
    }
}

/// The first edge of `kind` in the list.
pub open spec fn first_of_kind(es: Seq<(usize, EdgeType)>, kind: EdgeType) -> Option<usize>
    decreases es.len(),
{
    if es.len() == 0 {
        None
    } else if es[0].1 == kind {
        Some(es[0].0)
    } else {
        first_of_kind(es.subrange(1, es.len() as int), kind)
    }
}

// ---------------------------------------------------------------------------
// Conditions
// ---------------------------------------------------------------------------

/// An instruction's IR and text, when it has IR.
pub open spec fn ir_and_text(x: X86InstructionV) -> Option<(InstructionIRV, Seq<char>)> {
    match x.ir {
        Some(ir) => Some((ir, display_text(x))),
        None => None,
    }
}

/// The instruction at `address` and the one before it in its block.
pub open spec fn branch_and_setup(c: CfgV, address: u64) -> Option<(X86InstructionV, X86InstructionV)> {
    let m = c.address_to_location;
    if !m.contains_key(address) || m[address].1 == 0 {
        None
    } else {
        let b = c.blocks[m[address].0 as int];
        Some((b.instructions[m[address].1 as int], b.instructions[m[address].1 - 1]))
    }
}

/// The condition recovered from the decoded instructions: the instruction
/// before the branch in its block is a `cmp` or `test` with IR.
pub open spec fn recovered_condition_ir_spec(c: CfgV, address: u64) -> Option<ExprV> {
    match branch_and_setup(c, address) {
        Some((branch, setup)) => match (ir_and_text(setup), ir_and_text(branch)) {
            (Some((sir, stext)), Some((bir, btext))) => if sir.op == "cmp"@ {
                cmp_condition_ir_spec(sir, stext, bir, btext)
            } else if sir.op == "test"@ {
                test_condition_ir_spec(sir, stext, bir, btext)
            } else {
                None
            },
            _ => None,
        },
        None => None,
    }
}

/// The condition of the branch placeholder at `i`: from the decoded
/// instructions, else from the placeholder texts, else a comment.
pub open spec fn branch_condition_cfg_spec(body: Seq<StmtV>, c: CfgV, i: usize) -> Option<ExprV> {
    if i < body.len() {
        match body[i as int] {
            StmtV::InlineAsm { address, disasm } => match recovered_condition_ir_spec(c, address) {
                Some(e) => Some(e),
                None => match recovered_condition_spec(body, i, disasm) {
                    Some(e) => Some(e),
                    None => Some(
                        ExprV::Unknown(
                            "/* condition: 0x"@ + hex_text(address as nat, true) + " "@
                                + sanitize_comment_seq(disasm) + " */ 1"@,
                        ),
                    ),
                },
            },
            _ => None,
        }
    } else {
        None
    }
}

pub open spec fn condition_spec(body: Seq<StmtV>, c: CfgV, i: usize) -> Option<ExprV> {
    match branch_condition_cfg_spec(body, c, i) {
        Some(e) => Some(e),
        None => branch_condition_spec(body, i),
    }
}

// ---------------------------------------------------------------------------
// Rewrites
// ---------------------------------------------------------------------------

/// A statement that replaces the placeholders `start..=end`.
pub struct IfRewrite {
    pub start: usize,
    pub end: usize,
    pub statement: Statement,
}

pub struct IfRewriteV {
    pub start: usize,
    pub end: usize,
    pub statement: StmtV,
}

impl View for IfRewrite {
    type V = IfRewriteV;

    open spec fn view(&self) -> IfRewriteV {
        IfRewriteV { start: self.start, end: self.end, statement: stmt_v(&self.statement) }
    }
}

impl SortKey for IfRewrite {
    open spec fn key_lt(a: IfRewriteV, b: IfRewriteV) -> bool {
        a.start < b.start
    }

    fn key_lt_exec(&self, other: &Self) -> (r: bool) {
        self.start < other.start
    }
}

pub open spec fn in_range(i: int, r: (usize, usize)) -> bool {
    r.0 <= i <= r.1
}

/// Covered by the head or one of the two arms.
pub open spec fn covered3(i: int, a: (usize, usize), b: (usize, usize), c: (usize, usize)) -> bool {
    in_range(i, a) || in_range(i, b) || in_range(i, c)
}

pub open spec fn min3(a: (usize, usize), b: (usize, usize), c: (usize, usize)) -> usize {
    let x = if a.0 <= a.1 { Some(a.0) } else { None };
    let y = if b.0 <= b.1 { match x { Some(v) => if b.0 < v { Some(b.0) } else { Some(v) }, None => Some(b.0) } } else { x };
    let z = if c.0 <= c.1 { match y { Some(v) => if c.0 < v { Some(c.0) } else { Some(v) }, None => Some(c.0) } } else { y };
    match z {
        Some(v) => v,
        None => 0,
    }
}

pub open spec fn max3(a: (usize, usize), b: (usize, usize), c: (usize, usize)) -> usize {
    let x = if a.0 <= a.1 { Some(a.1) } else { None };
    let y = if b.0 <= b.1 { match x { Some(v) => if b.1 > v { Some(b.1) } else { Some(v) }, None => Some(b.1) } } else { x };
    let z = if c.0 <= c.1 { match y { Some(v) => if c.1 > v { Some(c.1) } else { Some(v) }, None => Some(c.1) } } else { y };
    match z {
        Some(v) => v,
        None => 0,
    }
}

/// The covered placeholders, from the smallest to the largest, leave no gap.
pub open spec fn contiguous3(a: (usize, usize), b: (usize, usize), c: (usize, usize)) -> bool {
    forall|i: int| min3(a, b, c) <= i <= max3(a, b, c) ==> #[trigger] covered3(i, a, b, c)
}

pub open spec fn slice_of(body: Seq<StmtV>, r: (usize, usize)) -> Seq<StmtV> {
    body.subrange(r.0 as int, r.1 + 1)
}

/// The `if`/`else` of a branch whose arms both return.
pub open spec fn terminal_rewrite_spec(
    body: Seq<StmtV>,
    c: CfgV,
    head: (usize, usize),
    tr: (usize, usize),
    fr: (usize, usize),
) -> Option<IfRewriteV> {
    if !contiguous3(head, tr, fr) {
        None
    } else {
        match condition_spec(body, c, head.0) {
            Some(cond) => Some(
                IfRewriteV {
                    start: min3(head, tr, fr),
                    end: max3(head, tr, fr),
                    statement: StmtV::If {
                        condition: cond,
                        then_block: slice_of(body, tr),
                        else_block: Some(slice_of(body, fr)),
                    },
                },
            ),
            None => None,
        }
    }
}

/// How an arm leaves: the join it reaches, and the placeholders that are
/// its payload (without a final unconditional jump).
pub open spec fn arm_exit_spec(c: CfgV, node: usize, full: (usize, usize)) -> Option<
    (usize, Option<(usize, usize)>),
> {
    let oe = out_edges(c.edges, node);
    match first_of_kind(oe, EdgeType::Unconditional) {
        Some(join) => Some(
            (
                join,
                if full.0 < full.1 {
                    Some((full.0, (full.1 - 1) as usize))
                } else {
                    None
                },
            ),
        ),
        None => match first_of_kind(oe, EdgeType::FallThrough) {
            Some(join) => Some((join, Some(full))),
            None => None,
        },
    }
}

pub open spec fn payload_spec(body: Seq<StmtV>, p: Option<(usize, usize)>) -> Seq<StmtV> {
    match p {
        Some(r) => slice_of(body, r),
        None => seq![],
    }
}

/// The `if`/`else` of a branch whose arms meet at one join block.
pub open spec fn diamond_rewrite_spec(
    body: Seq<StmtV>,
    c: CfgV,
    head: (usize, usize),
    tn: usize,
    tr: (usize, usize),
    fnode: usize,
    fr: (usize, usize),
) -> Option<IfRewriteV> {
    match (arm_exit_spec(c, tn, tr), arm_exit_spec(c, fnode, fr)) {
        (Some(te), Some(fe)) => if te.0 != fe.0 || !contiguous3(head, tr, fr) {
            None
        } else {
            match condition_spec(body, c, head.0) {
                Some(cond) => Some(
                    IfRewriteV {
                        start: min3(head, tr, fr),
                        end: max3(head, tr, fr),
                        statement: StmtV::If {
                            condition: cond,
                            then_block: payload_spec(body, te.1),
                            else_block: Some(payload_spec(body, fe.1)),
                        },
                    },
                ),
                None => None,
            }
        },
        _ => None,
    }
}

/// The branch that the block at `k` ends in, when it has two arms in the
/// graph and placeholders for the branch and both arms: the branch's
/// placeholder index, then each arm's block and placeholder range.
pub open spec fn branch_arms(c: CfgV, m: Map<u64, usize>, k: int) -> Option<
    (usize, usize, (usize, usize), usize, (usize, usize)),
> {
    let b = c.blocks[k];
    let oe = out_edges(c.edges, k as usize);
    if b.instructions.len() == 0 || !is_conditional_jump_mnemonic(b.instructions.last().mnemonic) {
        None
    } else {
        match (last_of_kind(oe, EdgeType::BranchTrue), last_of_kind(oe, EdgeType::BranchFalse)) {
            (Some(tn), Some(fnode)) => if tn >= c.blocks.len() || fnode >= c.blocks.len()
                || !m.contains_key(b.instructions.last().address) {
                None
            } else {
                let bi = m[b.instructions.last().address];
                match (block_range_spec(c.blocks[tn as int], m), block_range_spec(c.blocks[fnode as int], m)) {
                    (Some(tr), Some(fr)) => Some((bi, tn, tr, fnode, fr)),
                    _ => None,
                }
            },
            _ => None,
        }
    }
}

/// Both arms of the branch at `k` end in a return.
pub open spec fn arms_return(c: CfgV, tn: usize, fnode: usize) -> bool {
    ends_in_return(c.blocks[tn as int]) && ends_in_return(c.blocks[fnode as int])
}

/// The rewrite, if any, that the block at `k` heads.
pub open spec fn rewrite_at(body: Seq<StmtV>, c: CfgV, m: Map<u64, usize>, k: int) -> Option<IfRewriteV> {
    match branch_arms(c, m, k) {
        Some((bi, tn, tr, fnode, fr)) => if arms_return(c, tn, fnode) {
            terminal_rewrite_spec(body, c, (bi, bi), tr, fr)
        } else {
            diamond_rewrite_spec(body, c, (bi, bi), tn, tr, fnode, fr)
        },
        None => None,
    }
}

/// `r.0..=r.1` is a slice that can be taken (it may be empty).
pub open spec fn slice_ok(r: (usize, usize)) -> bool {
    r.0 <= r.1 + 1
}

pub open spec fn payload_ok(p: Option<(usize, usize)>) -> bool {
    p is Some ==> slice_ok(p.unwrap())
}

/// The arms that a terminal rewrite copies, once it gets that far, are
/// slices that can be taken.
pub open spec fn terminal_slices_ok(
    body: Seq<StmtV>,
    c: CfgV,
    head: (usize, usize),
    tr: (usize, usize),
    fr: (usize, usize),
) -> bool {
    contiguous3(head, tr, fr) && condition_spec(body, c, head.0) is Some ==> slice_ok(tr) && slice_ok(fr)
}

/// The payloads that a diamond rewrite copies, once it gets that far, are
/// slices that can be taken.
pub open spec fn diamond_slices_ok(
    body: Seq<StmtV>,
    c: CfgV,
    head: (usize, usize),
    tn: usize,
    tr: (usize, usize),
    fnode: usize,
    fr: (usize, usize),
) -> bool {
    match (arm_exit_spec(c, tn, tr), arm_exit_spec(c, fnode, fr)) {
        (Some(te), Some(fe)) => te.0 == fe.0 && contiguous3(head, tr, fr) && condition_spec(body, c, head.0)
            is Some ==> payload_ok(te.1) && payload_ok(fe.1),
        _ => true,
    }
}

/// What the rewrite at block `k` copies out of the body can be copied.
pub open spec fn arm_slices_ok(body: Seq<StmtV>, c: CfgV, m: Map<u64, usize>, k: int) -> bool {
    match branch_arms(c, m, k) {
        Some((bi, tn, tr, fnode, fr)) => if arms_return(c, tn, fnode) {
            terminal_slices_ok(body, c, (bi, bi), tr, fr)
        } else {
            diamond_slices_ok(body, c, (bi, bi), tn, tr, fnode, fr)
        },
        None => true,
    }
}

/// Every block's rewrite copies only slices that can be taken from the
/// placeholder-upgraded body, indexed by the placeholders of `body`.
pub open spec fn arm_slices_fit(body: Seq<StmtV>, c: CfgV) -> bool {
    forall|k: int|
        0 <= k < c.blocks.len() ==> #[trigger] arm_slices_ok(
            structure_block(body),
            c,
            stmt_index_map(body),
            k,
        )
}

/// The rewrites of the first `n` blocks, in block order.
pub open spec fn rewrites_upto(body: Seq<StmtV>, c: CfgV, m: Map<u64, usize>, n: int) -> Seq<IfRewriteV>
    decreases n,
{
    if n <= 0 {
        seq![]
    } else {
        let r = rewrites_upto(body, c, m, n - 1);
        match rewrite_at(body, c, m, n - 1) {
            Some(x) => r.push(x),
            None => r,
        }
    }
}

/// Two rewrites share a placeholder.
pub open spec fn intersects(a: IfRewriteV, b: IfRewriteV) -> bool {
    a.start <= a.end && b.start <= b.end && a.start <= b.end && b.start <= a.end
}

pub open spec fn overlaps_any(sel: Seq<IfRewriteV>, r: IfRewriteV) -> bool {
    exists|j: int| 0 <= j < sel.len() && #[trigger] intersects(sel[j], r)
}

/// Greedy choice, in order, of the rewrites that share no placeholder with
/// one chosen before.
pub open spec fn select_from(rs: Seq<IfRewriteV>) -> Seq<IfRewriteV>
    decreases rs.len(),
{
    if rs.len() == 0 {
        seq![]
    } else {
        let prev = select_from(rs.drop_last());
        if overlaps_any(prev, rs.last()) {
            prev
        } else {
            prev.push(rs.last())
        }
    }
}

/// `start..=end` replaced by the statement.
pub open spec fn splice_one(body: Seq<StmtV>, r: IfRewriteV) -> Seq<StmtV> {
    if r.start <= r.end && r.end < body.len() {
        body.take(r.start as int) + seq![r.statement] + body.skip(r.end + 1)
    } else {
        body
    }
}

/// The body with the chosen rewrites applied, the last one first.
pub open spec fn apply_rewrites(body: Seq<StmtV>, sel: Seq<IfRewriteV>) -> Seq<StmtV>
    decreases sel.len(),
{
    if sel.len() == 0 {
        body
    } else {
        apply_rewrites(splice_one(body, sel.last()), sel.drop_last())
    }
}

/// The body after if/else recovery: the candidate rewrites of all blocks,
/// ordered by start, the non-overlapping ones applied.
pub open spec fn if_else_body(body: Seq<StmtV>, c: CfgV, m: Map<u64, usize>) -> Seq<StmtV> {
    apply_rewrites(
        body,
        select_from(stable_sorted::<IfRewrite>(rewrites_upto(body, c, m, c.blocks.len() as int))),
    )
}

// ---------------------------------------------------------------------------
// Executable pass
// ---------------------------------------------------------------------------

proof fn lemma_stmt_index_bounds(body: Seq<StmtV>)
    requires
        body.len() <= usize::MAX,
    ensures
        forall|a: u64| #[trigger] stmt_index_map(body).contains_key(a) ==> stmt_index_map(body)[a] < body.len(),
    decreases body.len(),
{
    if body.len() > 0 {
        lemma_stmt_index_bounds(body.drop_last());
        assert forall|a: u64| #[trigger] stmt_index_map(body).contains_key(a) implies stmt_index_map(
            body,
        )[a] < body.len() by {
            match body.last() {
                StmtV::InlineAsm { address, disasm } => {
                    if a != address {
                        assert(stmt_index_map(body.drop_last()).contains_key(a));
                    }
                },
                _ => {
                    assert(stmt_index_map(body.drop_last()).contains_key(a));
                },
            }
        }
    }
}

/// The placeholder index of each instruction address.
pub fn address_to_statement_index(function: &Function) -> (r: HashMap<u64, usize>)
    ensures
        r@ == stmt_index_map(function@.body),
{
    let ghost body = function@.body;
    let mut m: HashMap<u64, usize> = HashMap::new();
    let mut i: usize = 0;
    proof {
        assert(body.take(0) =~= seq![]);
        assert(m@ =~= stmt_index_map(body.take(0)));
    }
    while i < function.body.len()
        invariant
            i <= function.body@.len(),
            body == function@.body,
            m@ == stmt_index_map(body.take(i as int)),
        decreases function.body@.len() - i,
    {
        proof {
            assert(body.take(i + 1).drop_last() =~= body.take(i as int));
            assert(body.take(i + 1).last() == function.body@[i as int]@);
        }
        match &function.body[i] {
            Statement::InlineAsm { address, .. } => {
                m.insert(*address, i);
            },
            _ => {},
        }
        i = i + 1;
    }
    proof {
        assert(body.take(i as int) =~= body);
    }
    m
}

fn block_range(b: &BasicBlock, m: &HashMap<u64, usize>) -> (r: Option<(usize, usize)>)
    ensures
        r == block_range_spec(b@, m@),
{
    let n = b.instructions.len();
    if n == 0 {
        return None;
    }
    proof {
        assert(b@.instructions[0] == b.instructions@[0]@);
        assert(b@.instructions.last() == b.instructions@[n - 1]@);
    }
    let first = match m.get(&b.instructions[0].address()) {
        Some(x) => *x,
        None => {
            return None;
        },
    };
    let last = match m.get(&b.instructions[n - 1].address()) {
        Some(x) => *x,
        None => {
            return None;
        },
    };
    Some((first, last))
}

fn block_ends_in_return(b: &BasicBlock) -> (r: bool)
    ensures
        r == ends_in_return(b@),
{
    let n = b.instructions.len();
    if n == 0 {
        false
    } else {
        proof {
            assert(b@.instructions.last() == b.instructions@[n - 1]@);
        }
        b.instructions[n - 1].is_return()
    }
}

fn last_kind(es: &Vec<(usize, EdgeType)>, kind: EdgeType) -> (r: Option<usize>)
    ensures
        r == last_of_kind(es@, kind),
{
    let mut found: Option<usize> = None;
    let mut i: usize = 0;
    proof {
        assert(es@.take(0) =~= seq![]);
    }
    while i < es.len()
        invariant
            i <= es@.len(),
            found == last_of_kind(es@.take(i as int), kind),
        decreases es@.len() - i,
    {
        proof {
            assert(es@.take(i + 1).drop_last() =~= es@.take(i as int));
        }
        if es[i].1 == kind {
            found = Some(es[i].0);
        }
        i = i + 1;
    }
    proof {
        assert(es@.take(i as int) =~= es@);
    }
    found
}

fn first_kind(es: &Vec<(usize, EdgeType)>, kind: EdgeType) -> (r: Option<usize>)
    ensures
        r == first_of_kind(es@, kind),
{
    let mut i: usize = 0;
    proof {
        assert(es@.subrange(0, es@.len() as int) =~= es@);
    }
    while i < es.len()
        invariant
            i <= es@.len(),
            first_of_kind(es@, kind) == first_of_kind(es@.subrange(i as int, es@.len() as int), kind),
        decreases es@.len() - i,
    {
        proof {
            let t = es@.subrange(i as int, es@.len() as int);
            assert(t[0] == es@[i as int]);
            assert(t.subrange(1, t.len() as int) =~= es@.subrange(i + 1, es@.len() as int));
        }
        if es[i].1 == kind {
            return Some(es[i].0);
        }
        i = i + 1;
    }
    None
}

fn min_of(a: (usize, usize), b: (usize, usize), c: (usize, usize)) -> (r: usize)
    ensures
        r == min3(a, b, c),
{
    let x = if a.0 <= a.1 { Some(a.0) } else { None };
    let y = if b.0 <= b.1 { match x { Some(v) => if b.0 < v { Some(b.0) } else { Some(v) }, None => Some(b.0) } } else { x };
    let z = if c.0 <= c.1 { match y { Some(v) => if c.0 < v { Some(c.0) } else { Some(v) }, None => Some(c.0) } } else { y };
    match z {
        Some(v) => v,
        None => 0,
    }
}

fn max_of(a: (usize, usize), b: (usize, usize), c: (usize, usize)) -> (r: usize)
    ensures
        r == max3(a, b, c),
{
    let x = if a.0 <= a.1 { Some(a.1) } else { None };
    let y = if b.0 <= b.1 { match x { Some(v) => if b.1 > v { Some(b.1) } else { Some(v) }, None => Some(b.1) } } else { x };
    let z = if c.0 <= c.1 { match y { Some(v) => if c.1 > v { Some(c.1) } else { Some(v) }, None => Some(c.1) } } else { y };
    match z {
        Some(v) => v,
        None => 0,
    }
}

/// Every placeholder from the first covered to the last is covered.
fn range_is_contiguous(a: (usize, usize), b: (usize, usize), c: (usize, usize)) -> (r: bool)
    ensures
        r == contiguous3(a, b, c),
{
    let start = min_of(a, b, c);
    let end = max_of(a, b, c);
    let mut i: usize = start;
    while i <= end
        invariant
            start == min3(a, b, c),
            end == max3(a, b, c),
            start <= i,
            forall|j: int| start <= j < i ==> #[trigger] covered3(j, a, b, c),
        decreases end + 1 - i,
    {
        let inside = (a.0 <= i && i <= a.1) || (b.0 <= i && i <= b.1) || (c.0 <= i && i <= c.1);
        if !inside {
            proof {
                assert(!covered3(i as int, a, b, c));
            }
            return false;
        }
        if i == end {
            return true;
        }
        i = i + 1;
    }
    true
}

fn slice_statements(body: &Vec<Statement>, a: usize, b: usize) -> (r: Vec<Statement>)
    requires
        a <= b + 1,
        b < body@.len(),
    ensures
        stmts_v(r@) == stmts_v(body@).subrange(a as int, b + 1),
{
    let n = body.len();
    let mut out: Vec<Statement> = Vec::new();
    let mut i: usize = a;
    while i <= b
        invariant
            a <= i <= b + 1,
            b < n,
            n == body@.len(),
            out@.len() == i - a,
            forall|j: int| 0 <= j < out@.len() ==> #[trigger] stmt_v(&out@[j]) == stmt_v(&body@[a + j]),
        decreases b + 1 - i,
    {
        out.push(clone_stmt(&body[i]));
        i = i + 1;
    }
    proof {
        assert forall|j: int| 0 <= j < out@.len() implies stmts_v(out@)[j] == stmts_v(body@).subrange(
            a as int,
            b + 1,
        )[j] by {
            assert(stmt_v(&out@[j]) == stmt_v(&body@[a + j]));
        }
        assert(stmts_v(out@) =~= stmts_v(body@).subrange(a as int, b + 1));
    }
    out
}

/// The targets of the node's true and false branch edges (the last of each
/// that the graph lists).
fn branch_successors(cfg: &ControlFlowGraph, node: usize) -> (r: Option<(usize, usize)>)
    requires
        node < cfg@.blocks.len(),
    ensures
        r == (match (
            last_of_kind(out_edges(cfg@.edges, node), EdgeType::BranchTrue),
            last_of_kind(out_edges(cfg@.edges, node), EdgeType::BranchFalse),
        ) {
            (Some(t), Some(f)) => Some((t, f)),
            _ => None,
        }),
{
    let edges = cfg.out_edges(node);
    match (last_kind(&edges, EdgeType::BranchTrue), last_kind(&edges, EdgeType::BranchFalse)) {
        (Some(t), Some(f)) => Some((t, f)),
        _ => None,
    }
}

/// The target of the node's first edge of `kind` that the graph lists.
fn successor_by_edge(cfg: &ControlFlowGraph, node: usize, kind: EdgeType) -> (r: Option<usize>)
    requires
        node < cfg@.blocks.len(),
    ensures
        r == first_of_kind(out_edges(cfg@.edges, node), kind),
{
    let edges = cfg.out_edges(node);
    first_kind(&edges, kind)
}

fn instruction_ir_and_text(instr: &Instruction) -> (r: Option<(InstructionIR, String)>)
    ensures
        match r {
            Some((ir, t)) => ir_and_text(instr@) == Some((ir@, t@)),
            None => ir_and_text(instr@) is None,
        },
{
    match instr {
        Instruction::X86(x) => match &x.ir {
            Some(ir) => Some((ir.copy(), x.to_string())),
            None => None,
        },
    }
}

/// The condition recovered from the decoded `cmp`/`test` before the branch.
fn recovered_condition_ir(cfg: &ControlFlowGraph, branch_address: u64) -> (r: Option<Expression>)
    ensures
        opt_expr_view(r) == recovered_condition_ir_spec(cfg@, branch_address),
{
    let branch_instr = match cfg.instruction_by_address(branch_address) {
        Some(x) => x,
        None => {
            return None;
        },
    };
    let setup_instr = match cfg.previous_instruction_in_block(branch_address) {
        Some(x) => x,
        None => {
            return None;
        },
    };
    let (setup_ir, setup_text) = match instruction_ir_and_text(setup_instr) {
        Some(p) => p,
        None => {
            return None;
        },
    };
    let (branch_ir, branch_text) = match instruction_ir_and_text(branch_instr) {
        Some(p) => p,
        None => {
            return None;
        },
    };
    let op = chars_of(setup_ir.op.as_str());
    if eq_str(&op, "cmp") {
        recover_cmp_condition_ir(&setup_ir, setup_text.as_str(), &branch_ir, branch_text.as_str())
    } else if eq_str(&op, "test") {
        recover_test_condition_ir(&setup_ir, setup_text.as_str(), &branch_ir, branch_text.as_str())
    } else {
        None
    }
}

/// The condition of the branch placeholder at `branch_index`, preferring
/// the decoded instructions.
fn branch_condition_with_cfg(function: &Function, cfg: &ControlFlowGraph, branch_index: usize) -> (r:
    Option<Expression>)
    ensures
        opt_expr_view(r) == branch_condition_cfg_spec(function@.body, cfg@, branch_index),
{
    if branch_index >= function.body.len() {
        return None;
    }
    let stmt = &function.body[branch_index];
    assert(function@.body[branch_index as int] == stmt@);
    match stmt {
        Statement::InlineAsm { address, disasm } => {
            match recovered_condition_ir(cfg, *address) {
                Some(e) => {
                    return Some(e);
                },
                None => {},
            }
            match recovered_condition(function, branch_index, disasm.as_str()) {
                Some(e) => Some(e),
                None => {
                    let mut out: Vec<char> = Vec::new();
                    extend_chars(&mut out, "/* condition: 0x");
                    push_hex(&mut out, *address, true);
                    extend_chars(&mut out, " ");
                    extend_slice(&mut out, &sanitize_comment_chars(&chars_of(disasm.as_str())));
                    extend_chars(&mut out, " */ 1");
                    Some(Expression::Unknown(string_of(&out)))
                },
            }
        },
        _ => None,
    }
}

fn condition_of(function: &Function, cfg: &ControlFlowGraph, branch_index: usize) -> (r: Option<
    Expression,
>)
    ensures
        opt_expr_view(r) == condition_spec(function@.body, cfg@, branch_index),
{
    match branch_condition_with_cfg(function, cfg, branch_index) {
        Some(e) => Some(e),
        None => branch_condition(function, branch_index),
    }
}

fn terminal_if_else_rewrite(
    function: &Function,
    cfg: &ControlFlowGraph,
    head: (usize, usize),
    tr: (usize, usize),
    fr: (usize, usize),
) -> (r: Option<IfRewrite>)
    requires
        tr.1 < function@.body.len(),
        fr.1 < function@.body.len(),
        terminal_slices_ok(function@.body, cfg@, head, tr, fr),
    ensures
        match r {
            Some(x) => terminal_rewrite_spec(function@.body, cfg@, head, tr, fr) == Some(x@),
            None => terminal_rewrite_spec(function@.body, cfg@, head, tr, fr) is None,
        },
{
    if !range_is_contiguous(head, tr, fr) {
        return None;
    }
    let condition = match condition_of(function, cfg, head.0) {
        Some(c) => c,
        None => {
            return None;
        },
    };
    let then_block = slice_statements(&function.body, tr.0, tr.1);
    let else_block = slice_statements(&function.body, fr.0, fr.1);
    Some(
        IfRewrite {
            start: min_of(head, tr, fr),
            end: max_of(head, tr, fr),
            statement: Statement::If { condition, then_block, else_block: Some(else_block) },
        },
    )
}

fn arm_exit(cfg: &ControlFlowGraph, node: usize, full: (usize, usize)) -> (r: Option<
    (usize, Option<(usize, usize)>),
>)
    requires
        node < cfg@.blocks.len(),
    ensures
        r == arm_exit_spec(cfg@, node, full),
{
    match successor_by_edge(cfg, node, EdgeType::Unconditional) {
        Some(join) => {
            let payload = if full.0 < full.1 {
                Some((full.0, full.1 - 1))
            } else {
                None
            };
            Some((join, payload))
        },
        None => match successor_by_edge(cfg, node, EdgeType::FallThrough) {
            Some(join) => Some((join, Some(full))),
            None => None,
        },
    }
}

fn payload_statements(function: &Function, payload: Option<(usize, usize)>) -> (r: Vec<Statement>)
    requires
        payload is Some ==> payload.unwrap().0 <= payload.unwrap().1 + 1 && payload.unwrap().1
            < function@.body.len(),
    ensures
        stmts_v(r@) == payload_spec(function@.body, payload),
{
    match payload {
        Some((a, b)) => slice_statements(&function.body, a, b),
        None => {
            let v: Vec<Statement> = Vec::new();
            proof {
                assert(stmts_v(v@) =~= seq![]);
            }
            v
        },
    }
}

fn diamond_if_else_rewrite(
    function: &Function,
    cfg: &ControlFlowGraph,
    head: (usize, usize),
    true_node: usize,
    tr: (usize, usize),
    false_node: usize,
    fr: (usize, usize),
) -> (r: Option<IfRewrite>)
    requires
        true_node < cfg@.blocks.len(),
        false_node < cfg@.blocks.len(),
        tr.1 < function@.body.len(),
        fr.1 < function@.body.len(),
        diamond_slices_ok(function@.body, cfg@, head, true_node, tr, false_node, fr),
    ensures
        match r {
            Some(x) => diamond_rewrite_spec(function@.body, cfg@, head, true_node, tr, false_node, fr)
                == Some(x@),
            None => diamond_rewrite_spec(function@.body, cfg@, head, true_node, tr, false_node, fr) is None,
        },
{
    let true_exit = match arm_exit(cfg, true_node, tr) {
        Some(e) => e,
        None => {
            return None;
        },
    };
    let false_exit = match arm_exit(cfg, false_node, fr) {
        Some(e) => e,
        None => {
            return None;
        },
    };
    if true_exit.0 != false_exit.0 {
        return None;
    }
    if !range_is_contiguous(head, tr, fr) {
        return None;
    }
    let condition = match condition_of(function, cfg, head.0) {
        Some(c) => c,
        None => {
            return None;
        },
    };
    let then_block = payload_statements(function, true_exit.1);
    let else_block = payload_statements(function, false_exit.1);
    Some(
        IfRewrite {
            start: min_of(head, tr, fr),
            end: max_of(head, tr, fr),
            statement: Statement::If { condition, then_block, else_block: Some(else_block) },
        },
    )
}

/// The placeholder indices that the map gives lie in the body, and every
/// block's rewrite copies only slices that can be taken.
pub open spec fn index_map_fits(m: Map<u64, usize>, body: Seq<StmtV>, c: CfgV) -> bool {
    &&& forall|a: u64| #[trigger] m.contains_key(a) ==> m[a] < body.len()
    &&& forall|k: int| 0 <= k < c.blocks.len() ==> #[trigger] arm_slices_ok(body, c, m, k)
}

fn rewrite_for_block(
    function: &Function,
    cfg: &ControlFlowGraph,
    blocks: &Vec<&BasicBlock>,
    k: usize,
    m: &HashMap<u64, usize>,
) -> (r: Option<IfRewrite>)
    requires
        blocks@.len() == cfg@.blocks.len(),
        forall|j: int| 0 <= j < blocks@.len() ==> (#[trigger] blocks@[j])@ == cfg@.blocks[j],
        k < blocks@.len(),
        index_map_fits(m@, function@.body, cfg@),
    ensures
        match r {
            Some(x) => rewrite_at(function@.body, cfg@, m@, k as int) == Some(x@),
            None => rewrite_at(function@.body, cfg@, m@, k as int) is None,
        },
{
    let block = blocks[k];
    let n = block.instructions.len();
    if n == 0 {
        return None;
    }
    let last = &block.instructions[n - 1];
    proof {
        assert(block@.instructions.last() == last@);
    }
    if !last.is_conditional_jump() {
        return None;
    }
    let (true_node, false_node) = match branch_successors(cfg, k) {
        Some(p) => p,
        None => {
            return None;
        },
    };
    if true_node >= blocks.len() || false_node >= blocks.len() {
        return None;
    }
    let branch_index = match m.get(&last.address()) {
        Some(i) => *i,
        None => {
            return None;
        },
    };
    let head = (branch_index, branch_index);
    let true_block = blocks[true_node];
    let false_block = blocks[false_node];
    proof {
        assert(true_block@ == cfg@.blocks[true_node as int]);
        assert(false_block@ == cfg@.blocks[false_node as int]);
    }
    let true_range = match block_range(true_block, m) {
        Some(r) => r,
        None => {
            return None;
        },
    };
    let false_range = match block_range(false_block, m) {
        Some(r) => r,
        None => {
            return None;
        },
    };
    proof {
        assert(block_range_spec(cfg@.blocks[true_node as int], m@) == Some(true_range));
        assert(block_range_spec(cfg@.blocks[false_node as int], m@) == Some(false_range));
        assert(m@.contains_key(true_block@.instructions.last().address));
        assert(m@.contains_key(false_block@.instructions.last().address));
        assert(branch_arms(cfg@, m@, k as int) == Some(
            (branch_index, true_node, true_range, false_node, false_range),
        ));
        assert(arm_slices_ok(function@.body, cfg@, m@, k as int));
    }
    if block_ends_in_return(true_block) && block_ends_in_return(false_block) {
        return terminal_if_else_rewrite(function, cfg, head, true_range, false_range);
    }
    diamond_if_else_rewrite(function, cfg, head, true_node, true_range, false_node, false_range)
}

fn overlaps_selected(selected: &Vec<IfRewrite>, r: &IfRewrite) -> (b: bool)
    ensures
        b == overlaps_any(views_of(selected@), r@),
{
    let ghost sv = views_of(selected@);
    let mut j: usize = 0;
    while j < selected.len()
        invariant
            j <= selected@.len(),
            sv == views_of(selected@),
            forall|i: int| 0 <= i < j ==> !#[trigger] intersects(sv[i], r@),
        decreases selected@.len() - j,
    {
        let s = &selected[j];
        if s.start <= s.end && r.start <= r.end && s.start <= r.end && r.start <= s.end {
            proof {
                assert(intersects(sv[j as int], r@));
            }
            return true;
        }
        j = j + 1;
    }
    false
}

/// Recovers `if`/`else` statements at conditional branches whose arms both
/// return or meet again, using the placeholder indices of `address_to_index`.
pub fn structure_terminal_if_else(
    function: &mut Function,
    cfg: &ControlFlowGraph,
    address_to_index: &HashMap<u64, usize>,
)
    requires
        index_map_fits(address_to_index@, old(function)@.body, cfg@),
    ensures
        final(function)@.name == old(function)@.name,
        final(function)@.return_type == old(function)@.return_type,
        final(function)@.parameters == old(function)@.parameters,
        final(function)@.is_variadic == old(function)@.is_variadic,
        final(function)@.body == if_else_body(old(function)@.body, cfg@, address_to_index@),
{
    let ghost body0 = function@.body;
    let blocks = cfg.blocks();
    let n = blocks.len();
    let mut rewrites: Vec<IfRewrite> = Vec::new();
    let mut k: usize = 0;
    while k < n
        invariant
            n == blocks@.len(),
            blocks@.len() == cfg@.blocks.len(),
            forall|j: int| 0 <= j < blocks@.len() ==> (#[trigger] blocks@[j])@ == cfg@.blocks[j],
            index_map_fits(address_to_index@, function@.body, cfg@),
            function@.body == body0,
            k <= n,
            views_of(rewrites@) == rewrites_upto(body0, cfg@, address_to_index@, k as int),
        decreases n - k,
    {
        let ghost before = views_of(rewrites@);
        match rewrite_for_block(function, cfg, &blocks, k, address_to_index) {
            Some(r) => {
                rewrites.push(r);
                proof {
                    assert(views_of(rewrites@) =~= before.push(r@));
                }
            },
            None => {},
        }
        k = k + 1;
    }
    let sorted = sort_stable(rewrites);
    let ghost sv = views_of(sorted@);
    // Choose the rewrites that overlap none chosen before.
    let mut rest = sorted;
    let mut selected: Vec<IfRewrite> = Vec::new();
    let ghost mut t: int = 0;
    proof {
        assert(sv.take(0) =~= seq![]);
        assert(views_of(rest@) =~= sv.skip(0));
        assert(views_of(selected@) =~= seq![]);
    }
    while rest.len() > 0
        invariant
            0 <= t <= sv.len(),
            views_of(rest@) == sv.skip(t),
            views_of(selected@) == select_from(sv.take(t)),
        decreases rest@.len(),
    {
        let ghost rest0 = rest@;
        let r = rest.remove(0);
        proof {
            assert(views_of(rest0).len() == rest0.len());
            assert(t < sv.len());
            assert(views_of(rest0)[0] == r@);
            assert(sv.skip(t)[0] == sv[t]);
            assert(sv.take(t + 1).drop_last() =~= sv.take(t));
            assert(sv.take(t + 1).last() == r@);
        }
        let ghost sel0 = views_of(selected@);
        if !overlaps_selected(&selected, &r) {
            selected.push(r);
            proof {
                assert(views_of(selected@) =~= sel0.push(r@));
            }
        }
        proof {
            assert(views_of(rest@).len() == sv.skip(t + 1).len());
            assert forall|j: int| 0 <= j < views_of(rest@).len() implies views_of(rest@)[j]
                == sv.skip(t + 1)[j] by {
                assert(rest@[j] == rest0[j + 1]);
                assert(views_of(rest0)[j + 1] == sv.skip(t)[j + 1]);
            }
            assert(views_of(rest@) =~= sv.skip(t + 1));
            t = t + 1;
        }
    }
    proof {
        assert(sv.take(t) =~= sv);
    }
    // Apply the chosen rewrites, the last one first.
    let ghost target = apply_rewrites(body0, views_of(selected@));
    while selected.len() > 0
        invariant
            apply_rewrites(function@.body, views_of(selected@)) == target,
            function@.name == old(function)@.name,
            function@.return_type == old(function)@.return_type,
            function@.parameters == old(function)@.parameters,
            function@.is_variadic == old(function)@.is_variadic,
        decreases selected@.len(),
    {
        let ghost sel0 = views_of(selected@);
        let ghost b0 = function@.body;
        let r = selected.pop().unwrap();
        proof {
            assert(views_of(selected@) =~= sel0.drop_last());
            assert(sel0.last() == r@);
        }
        if r.start <= r.end && r.end < function.body.len() {
            let mut tail = function.body.split_off(r.end + 1);
            function.body.truncate(r.start);
            function.body.push(r.statement);
            function.body.append(&mut tail);
            proof {
                assert(function@.body =~= splice_one(b0, r@));
            }
        } else {
            proof {
                assert(function@.body == splice_one(b0, r@));
            }
        }
    }
}

/// The function after CFG-aware structuring: placeholders upgraded, if/else
/// recovered at branches, then registers and stack variables declared.
pub open spec fn cfg_structured(before: FunctionV, c: CfgV, after: FunctionV) -> bool {
    let b2 = if_else_body(structure_block(before.body), c, stmt_index_map(before.body));
    let f2 = FunctionV {
        name: before.name,
        return_type: before.return_type,
        parameters: before.parameters,
        body: b2,
        is_variadic: before.is_variadic,
    };
    &&& after.name == before.name
    &&& after.return_type == before.return_type
    &&& after.parameters == before.parameters
    &&& after.is_variadic == before.is_variadic
    &&& exists|names: Seq<Seq<char>>|
        {
            &&& strictly_sorted(names)
            &&& forall|n: Seq<char>|
                #![trigger names.contains(n)]
                names.contains(n) == (block_pseudo(b2).contains(n) && !existing_names(f2).contains(n))
            &&& after.body == declarations_for(names) + b2
        }
}

/// Structure a single function with CFG context.
pub fn structure_function_with_cfg(function: &mut Function, cfg: &ControlFlowGraph)
    requires
        arm_slices_fit(old(function)@.body, cfg@),
    ensures
        cfg_structured(old(function)@, cfg@, final(function)@),
{
    let ghost f0 = function@;
    let original_indices = address_to_statement_index(function);
    let n = function.body.len();
    proof {
        assert(f0.body.len() == n);
        lemma_stmt_index_bounds(f0.body);
    }
    structure_function(function);
    proof {
        assert(function@.body.len() == f0.body.len());
    }
    structure_terminal_if_else(function, cfg, &original_indices);
    let ghost f2 = function@;
    insert_pseudo_register_declarations(function);
    proof {
        let b2 = if_else_body(structure_block(f0.body), cfg@, stmt_index_map(f0.body));
        assert(f2.body == b2);
        assert(f2 == FunctionV {
            name: f0.name,
            return_type: f0.return_type,
            parameters: f0.parameters,
            body: b2,
            is_variadic: f0.is_variadic,
        });
    }
}

/// Structure all functions with CFG context.
pub fn structure_functions_with_cfg(functions: &mut Vec<Function>, cfg: &ControlFlowGraph)
    requires
        forall|i: int| 0 <= i < old(functions)@.len() ==> arm_slices_fit(#[trigger] old(functions)@[i]@.body, cfg@),
    ensures
        final(functions)@.len() == old(functions)@.len(),
        forall|i: int| 0 <= i < old(functions)@.len() ==> cfg_structured(#[trigger] old(functions)@[i]@, cfg@, final(functions)@[i]@),
{
    let ghost f0 = functions@;
    let mut i: usize = 0;
    while i < functions.len()
        invariant
            functions@.len() == f0.len(),
            i <= f0.len(),
            forall|j: int| i <= j < f0.len() ==> functions@[j] == f0[j],
            forall|j: int| 0 <= j < f0.len() ==> arm_slices_fit(#[trigger] f0[j]@.body, cfg@),
            forall|j: int| 0 <= j < i ==> cfg_structured(#[trigger] f0[j]@, cfg@, functions@[j]@),
        decreases f0.len() - i,
    {
        let mut f = functions.remove(i);
        proof {
            assert(f == f0[i as int]);
            assert(arm_slices_fit(f0[i as int]@.body, cfg@));
        }
        structure_function_with_cfg(&mut f, cfg);
        functions.insert(i, f);
        i = i + 1;
    }
}


/// Whether what the rewrite at block `k` copies out of the body can be copied.
fn arm_slices_ok_at(
    function: &Function,
    cfg: &ControlFlowGraph,
    blocks: &Vec<&BasicBlock>,
    k: usize,
    m: &HashMap<u64, usize>,
) -> (r: bool)
    requires
        blocks@.len() == cfg@.blocks.len(),
        forall|j: int| 0 <= j < blocks@.len() ==> (#[trigger] blocks@[j])@ == cfg@.blocks[j],
        k < blocks@.len(),
        forall|a: u64| #[trigger] m@.contains_key(a) ==> m@[a] < function@.body.len(),
    ensures
        r == arm_slices_ok(function@.body, cfg@, m@, k as int),
{
    let block = blocks[k];
    let n = block.instructions.len();
    if n == 0 {
        return true;
    }
    let last = &block.instructions[n - 1];
    proof {
        assert(block@.instructions.last() == last@);
    }
    if !last.is_conditional_jump() {
        return true;
    }
    let (true_node, false_node) = match branch_successors(cfg, k) {
        Some(p) => p,
        None => {
            return true;
        },
    };
    if true_node >= blocks.len() || false_node >= blocks.len() {
        return true;
    }
    let branch_index = match m.get(&last.address()) {
        Some(i) => *i,
        None => {
            return true;
        },
    };
    let head = (branch_index, branch_index);
    let true_block = blocks[true_node];
    let false_block = blocks[false_node];
    proof {
        assert(true_block@ == cfg@.blocks[true_node as int]);
        assert(false_block@ == cfg@.blocks[false_node as int]);
    }
    let tr = match block_range(true_block, m) {
        Some(r) => r,
        None => {
            return true;
        },
    };
    let fr = match block_range(false_block, m) {
        Some(r) => r,
        None => {
            return true;
        },
    };
    proof {
        assert(m@.contains_key(true_block@.instructions.last().address));
        assert(m@.contains_key(false_block@.instructions.last().address));
        assert(branch_arms(cfg@, m@, k as int) == Some((branch_index, true_node, tr, false_node, fr)));
    }
    if block_ends_in_return(true_block) && block_ends_in_return(false_block) {
        if !range_is_contiguous(head, tr, fr) {
            return true;
        }
        if condition_of(function, cfg, head.0).is_none() {
            return true;
        }
        return (tr.0 == 0 || tr.0 - 1 <= tr.1) && (fr.0 == 0 || fr.0 - 1 <= fr.1);
    }
    let te = match arm_exit(cfg, true_node, tr) {
        Some(e) => e,
        None => {
            return true;
        },
    };
    let fe = match arm_exit(cfg, false_node, fr) {
        Some(e) => e,
        None => {
            return true;
        },
    };
    if te.0 != fe.0 || !range_is_contiguous(head, tr, fr) {
        return true;
    }
    if condition_of(function, cfg, head.0).is_none() {
        return true;
    }
    let t_ok = match te.1 {
        Some(p) => p.0 == 0 || p.0 - 1 <= p.1,
        None => true,
    };
    let f_ok = match fe.1 {
        Some(p) => p.0 == 0 || p.0 - 1 <= p.1,
        None => true,
    };
    t_ok && f_ok
}

/// Whether the CFG-aware structuring of `function` can take every slice it
/// would copy: the test that `structure_function_with_cfg` needs.
pub fn arm_slices_fit_exec(function: &Function, cfg: &ControlFlowGraph) -> (r: bool)
    ensures
        r == arm_slices_fit(function@.body, cfg@),
{
    let m = address_to_statement_index(function);
    let len = function.body.len();
    proof {
        assert(function@.body.len() == len);
        lemma_stmt_index_bounds(function@.body);
    }
    let mut structured = function.clone();
    structure_function(&mut structured);
    proof {
        assert(structured@.body.len() == function@.body.len());
    }
    let blocks = cfg.blocks();
    let n = blocks.len();
    let mut k: usize = 0;
    while k < n
        invariant
            n == blocks@.len(),
            blocks@.len() == cfg@.blocks.len(),
            forall|j: int| 0 <= j < blocks@.len() ==> (#[trigger] blocks@[j])@ == cfg@.blocks[j],
            structured@.body == structure_block(function@.body),
            m@ == stmt_index_map(function@.body),
            forall|a: u64| #[trigger] m@.contains_key(a) ==> m@[a] < structured@.body.len(),
            k <= n,
            forall|j: int|
                0 <= j < k ==> #[trigger] arm_slices_ok(structure_block(function@.body), cfg@, m@, j),
        decreases n - k,
    {
        if !arm_slices_ok_at(&structured, cfg, &blocks, k, &m) {
            return false;
        }
        k = k + 1;
    }
    true
}

/// Structures `function` with CFG context when every slice the structuring
/// copies can be taken, and says so; otherwise leaves it unchanged.
pub fn structure_function_with_cfg_checked(function: &mut Function, cfg: &ControlFlowGraph) -> (r: bool)
    ensures
        r == arm_slices_fit(old(function)@.body, cfg@),
        r ==> cfg_structured(old(function)@, cfg@, final(function)@),
        !r ==> final(function)@ == old(function)@,
{
    if arm_slices_fit_exec(function, cfg) {
        structure_function_with_cfg(function, cfg);
        true
    } else {
        false
    }
}

} // verus!
