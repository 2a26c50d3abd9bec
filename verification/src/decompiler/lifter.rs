//! Lifting detected functions into AST functions.
//!
//! Each instruction becomes one statement: a call to a known function or
//! import, an assignment lifted from the instruction's IR (arithmetic, logic,
//! shifts and register/immediate moves), or an inline-assembly placeholder
//! that keeps the instruction's address and text.

use crate::analysis::functions::FunctionInfo;
use crate::analysis::types::{TypeInfo, TypeV};
use crate::binary::parser::ImportAddressInfo;
use crate::decompiler::ast::{
    clone_expr, expr_v, exprs_v, opt_expr_view, BinaryOperator, ExprV, Expression, Function, FunctionV, StmtV, Statement,
    UnaryOperator,
};
use crate::decompiler::c_syntax::{
    first_free_from, lemma_first_free_is_free, sanitize_c_identifier, sanitize_ident, unique_c_identifier, used_view,
};
use crate::decompiler::registers::{canonical_reg, canonical_register_name};
use crate::disasm::control_flow::Instruction;
use crate::disasm::ir::{
    opt_str_v, InstructionIR, InstructionIRV, MemoryOperand, MemoryOperandV, Operand, OperandV,
};
use crate::disasm::x86::{display_text, is_call_mnemonic, X86InstructionV};
use crate::text::{
    all_digits, chars_of, contains_exec, contains_seq, digits_value, eq_str, extend_chars,
    has_char_exec, hex_text, is_hex_digit, is_hex_digit_exec, lower_chars, lower_seq,
    parse_u64_radix, parse_u64_spec, push_hex, starts_with, string_of,
};
use std::collections::HashMap;
use vstd::prelude::*;

verus! {

broadcast use vstd::std_specs::hash::group_hash_axioms;

/// C declaration metadata for one imported function.
#[derive(Debug, Clone, PartialEq, Eq)]
pub struct ImportFunctionDeclaration {
    pub library: String,
    pub function: String,
    pub address: u64,
    pub ordinal: Option<u16>,
    pub c_name: String,
}

// ---------------------------------------------------------------------------
// Names
// ---------------------------------------------------------------------------

/// `sub_` and the address in upper-case hexadecimal.
pub open spec fn sub_name(a: u64) -> Seq<char> {
    "sub_"@ + hex_text(a as nat, true)
}

/// `import_` and the address in upper-case hexadecimal.
pub open spec fn import_fallback(a: u64) -> Seq<char> {
    "import_"@ + hex_text(a as nat, true)
}

/// The unique C names given, in order, to a list of (name, fallback) requests.
pub open spec fn unique_names(reqs: Seq<(Seq<char>, Seq<char>)>) -> Seq<Seq<char>>
    decreases reqs.len(),
{
    if reqs.len() == 0 {
        seq![]
    } else {
        let prev = unique_names(reqs.drop_last());
        prev.push(first_free_from(sanitize_ident(reqs.last().0, reqs.last().1), prev, 1))
    }
}

/// Law: the names given to a list of requests are pairwise distinct.
pub proof fn lemma_unique_names_distinct(reqs: Seq<(Seq<char>, Seq<char>)>)
    ensures
        unique_names(reqs).len() == reqs.len(),
        unique_names(reqs).no_duplicates(),
    decreases reqs.len(),
{
    if reqs.len() > 0 {
        let prev = unique_names(reqs.drop_last());
        let base = sanitize_ident(reqs.last().0, reqs.last().1);
        lemma_unique_names_distinct(reqs.drop_last());
        lemma_first_free_is_free(base, prev, 1);
        let all = unique_names(reqs);
        assert forall|i: int, j: int| 0 <= i < all.len() && 0 <= j < all.len() && i != j implies all[i]
            != all[j] by {
            if j == all.len() - 1 {
                assert(prev.contains(all[i]));
            } else if i == all.len() - 1 {
                assert(prev.contains(all[j]));
            } else {
                assert(all[i] == prev[i] && all[j] == prev[j]);
            }
        }
    }
}

pub open spec fn function_requests(infos: Seq<FunctionInfo>) -> Seq<(Seq<char>, Seq<char>)> {
    infos.map_values(|f: FunctionInfo| (f.name@, sub_name(f.address)))
}

pub open spec fn import_requests(imports: Seq<ImportAddressInfo>) -> Seq<(Seq<char>, Seq<char>)> {
    imports.map_values(|i: ImportAddressInfo| (i.function@, import_fallback(i.address)))
}

/// The map after inserting the pairs in order (a later pair wins).
pub open spec fn insert_pairs(m: Map<u64, Seq<char>>, ps: Seq<(u64, Seq<char>)>) -> Map<
    u64,
    Seq<char>,
>
    decreases ps.len(),
{
    if ps.len() == 0 {
        m
    } else {
        insert_pairs(m, ps.drop_last()).insert(ps.last().0, ps.last().1)
    }
}

pub open spec fn function_targets(infos: Seq<FunctionInfo>) -> Seq<(u64, Seq<char>)> {
    let names = unique_names(function_requests(infos));
    Seq::new(infos.len(), |k: int| (infos[k].address, names[k]))
}

pub open spec fn import_targets(imports: Seq<ImportAddressInfo>) -> Seq<(u64, Seq<char>)> {
    let names = unique_names(import_requests(imports));
    Seq::new(imports.len(), |k: int| (imports[k].address, names[k]))
}

/// Call targets: each function's unique name at its address, then each
/// import's C name at its address (an import wins over a function).
pub open spec fn call_target_map(
    infos: Seq<FunctionInfo>,
    imports: Seq<ImportAddressInfo>,
) -> Map<u64, Seq<char>> {
    insert_pairs(insert_pairs(Map::empty(), function_targets(infos)), import_targets(imports))
}

pub open spec fn names_view(m: Map<u64, String>) -> Map<u64, Seq<char>> {
    m.map_values(|s: String| s@)
}

// ---------------------------------------------------------------------------
// Addresses referenced by operand text
// ---------------------------------------------------------------------------

pub open spec fn is_hex_token_char(c: char) -> bool {
    is_hex_digit(c) || c == 'x' || c == 'X' || c == 'h' || c == 'H'
}

/// The pieces of `s` between characters that cannot be part of a hex token,
/// as `str::split` yields them (empty pieces included).
pub open spec fn hex_tokens(s: Seq<char>) -> Seq<Seq<char>>
    decreases s.len(),
{
    if s.len() == 0 {
        seq![seq![]]
    } else {
        let t = hex_tokens(s.drop_last());
        if is_hex_token_char(s.last()) {
            t.update(t.len() - 1, t.last().push(s.last()))
        } else {
            t.push(seq![])
        }
    }
}

/// A hex token: `0x`/`0X` followed by hex digits, or hex digits followed by
/// `h`/`H`; at least two characters, and a value that fits in `u64`.
pub open spec fn hex_token_value(t: Seq<char>) -> Option<u64> {
    if t.len() < 2 {
        None
    } else {
        match hex_stripped(t) {
            Some(d) => if d.len() > 0 && all_hex(d) {
                parse_u64_spec(d, 16)
            } else {
                None
            },
            None => None,
        }
    }
}

/// A token without its `0x`/`0X` prefix, else without its `h`/`H` suffix.
pub open spec fn hex_stripped(t: Seq<char>) -> Option<Seq<char>> {
    if starts_with(t, "0x"@) || starts_with(t, "0X"@) {
        Some(t.subrange(2, t.len() as int))
    } else if t.len() > 0 && (t.last() == 'h' || t.last() == 'H') {
        Some(t.drop_last())
    } else {
        None
    }
}

pub open spec fn all_hex(d: Seq<char>) -> bool {
    forall|k: int| 0 <= k < d.len() ==> is_hex_digit(#[trigger] d[k])
}

/// Law: an address token `0x`/`0X` followed by hex digits, or hex digits
/// followed by `h`/`H`, denotes the base-16 value of its digits; for example
/// `0x401000` and `401000h` are both 0x401000.
pub proof fn lemma_hex_token_value(d: Seq<char>, x: char, h: char)
    requires
        d.len() > 0,
        forall|i: int| 0 <= i < d.len() ==> is_hex_digit(#[trigger] d[i]),
        digits_value(d, 16) <= u64::MAX,
        x == 'x' || x == 'X',
        h == 'h' || h == 'H',
    ensures
        hex_token_value(seq!['0', x] + d) == Some(digits_value(d, 16) as u64),
        hex_token_value(d + seq![h]) == Some(digits_value(d, 16) as u64),
{
    reveal_strlit("0x");
    reveal_strlit("0X");
    assert(all_digits(d, 16)) by {
        assert forall|i: int| 0 <= i < d.len() implies crate::text::is_digit_in(#[trigger] d[i], 16) by {
            assert(is_hex_digit(d[i]));
        }
    }
    assert(is_hex_digit(d[0]));
    let u = seq!['0', x] + d;
    assert(u.subrange(0, 2) =~= seq!['0', x]);
    assert(u.subrange(2, u.len() as int) =~= d);
    assert("0x"@ =~= seq!['0', 'x']);
    assert("0X"@ =~= seq!['0', 'X']);
    assert(x == 'x' ==> starts_with(u, "0x"@));
    assert(x == 'X' ==> starts_with(u, "0X"@));
    let w = d + seq![h];
    assert(w[0] == d[0]);
    assert(w.last() == h);
    assert(w.drop_last() =~= d);
    if d.len() >= 2 {
        assert(w[1] == d[1]);
        assert(is_hex_digit(d[1]));
    }
    assert(!starts_with(w, "0x"@) && !starts_with(w, "0X"@)) by {
        if starts_with(w, "0x"@) || starts_with(w, "0X"@) {
            assert(w.subrange(0, 2)[1] == w[1]);
            if d.len() >= 2 {
                assert(is_hex_digit(w[1]));
            }
        }
    }
}

/// The values of the tokens that parse, in order.
pub open spec fn parsed_tokens(ts: Seq<Seq<char>>) -> Seq<u64>
    decreases ts.len(),
{
    if ts.len() == 0 {
        seq![]
    } else {
        let p = parsed_tokens(ts.drop_last());
        match hex_token_value(ts.last()) {
            Some(v) => p.push(v),
            None => p,
        }
    }
}

pub open spec fn hex_values(s: Seq<char>) -> Seq<u64> {
    parsed_tokens(hex_tokens(s))
}

/// The address a bracketed operand refers to: the first hex value, taken
/// relative to the next instruction when the operand is RIP-relative.
pub open spec fn referenced_address(address: u64, length: usize, operands: Seq<char>) -> Option<
    u64,
> {
    if !operands.contains('[') || !operands.contains(']') || hex_values(operands).len() == 0 {
        None
    } else {
        let l = lower_seq(operands);
        let first = hex_values(operands)[0];
        let next = address.wrapping_add(length as u64);
        if contains_seq(l, "rip+"@) || contains_seq(l, "rip +"@) {
            Some(next.wrapping_add(first))
        } else if contains_seq(l, "rip-"@) || contains_seq(l, "rip -"@) {
            Some(next.wrapping_sub(first))
        } else {
            Some(first)
        }
    }
}

// ---------------------------------------------------------------------------
// What an instruction lifts to
// ---------------------------------------------------------------------------

pub open spec fn abs_disp(d: i64) -> nat {
    if d < 0 {
        (-(d as int)) as nat
    } else {
        d as nat
    }
}

/// The variable a frame slot is named by: `local_`/`arg_` for `rbp`/`ebp`
/// bases and `stack_m_`/`stack_` for `rsp`/`esp` bases, by the sign of the
/// displacement, then the displacement's magnitude in lower-case hex. An
/// operand with an index register or a scale above 1 addresses an array,
/// not a slot, and names none.
pub open spec fn stack_slot_name(m: MemoryOperandV) -> Option<Seq<char>> {
    if m.index is Some || m.scale > 1 {
        None
    } else {
        plain_slot_name(m)
    }
}

/// The slot name by base register and displacement alone.
pub open spec fn plain_slot_name(m: MemoryOperandV) -> Option<Seq<char>> {
    match m.base {
        Some(b) => {
            let l = lower_seq(b);
            if l == "rbp"@ || l == "ebp"@ {
                Some(
                    (if m.disp < 0 {
                        "local_"@
                    } else {
                        "arg_"@
                    }) + hex_text(abs_disp(m.disp), false),
                )
            } else if l == "rsp"@ || l == "esp"@ {
                Some(
                    (if m.disp < 0 {
                        "stack_m_"@
                    } else {
                        "stack_"@
                    }) + hex_text(abs_disp(m.disp), false),
                )
            } else {
                None
            }
        },
        None => None,
    }
}

pub open spec fn operand_expr(o: OperandV) -> Option<ExprV> {
    match o {
        OperandV::Reg(r) => Some(ExprV::Variable(canonical_reg(lower_seq(r)))),
        OperandV::Imm(v) => Some(ExprV::IntegerLiteral(v)),
        OperandV::Mem(m) => match stack_slot_name(m) {
            Some(n) => Some(ExprV::Variable(n)),
            None => None,
        },
        OperandV::Other(_) => None,
    }
}

pub open spec fn binary_op_of(op: Seq<char>) -> Option<BinaryOperator> {
    if op == "add"@ || op == "lea"@ {
        Some(BinaryOperator::Add)
    } else if op == "sub"@ {
        Some(BinaryOperator::Subtract)
    } else if op == "and"@ {
        Some(BinaryOperator::BitwiseAnd)
    } else if op == "or"@ {
        Some(BinaryOperator::BitwiseOr)
    } else if op == "xor"@ {
        Some(BinaryOperator::BitwiseXor)
    } else if op == "shl"@ {
        Some(BinaryOperator::LeftShift)
    } else if op == "shr"@ {
        Some(BinaryOperator::RightShift)
    } else if op == "imul"@ {
        Some(BinaryOperator::Multiply)
    } else {
        None
    }
}

pub open spec fn is_binary_mnemonic(op: Seq<char>) -> bool {
    op == "add"@ || op == "sub"@ || op == "and"@ || op == "or"@ || op == "xor"@ || op == "shl"@
        || op == "shr"@ || op == "lea"@ || op == "imul"@
}

/// `x = x <op> y` for a two-operand instruction whose operands both lift.
pub open spec fn binary_expr(ir: InstructionIRV) -> Option<ExprV> {
    if ir.operands.len() >= 2 && binary_op_of(ir.op) is Some && operand_expr(ir.operands[0]) is Some
        && operand_expr(ir.operands[1]) is Some {
        let l = operand_expr(ir.operands[0]).unwrap();
        Some(
            ExprV::Assignment {
                target: Box::new(l),
                value: Box::new(
                    ExprV::BinaryOperation {
                        op: binary_op_of(ir.op).unwrap(),
                        left: Box::new(l),
                        right: Box::new(operand_expr(ir.operands[1]).unwrap()),
                    },
                ),
            },
        )
    } else {
        None
    }
}

/// `x = x + 1` for `inc`, `x = x - 1` for `dec`.
pub open spec fn inc_dec_expr(ir: InstructionIRV) -> Option<ExprV> {
    if ir.operands.len() >= 1 && operand_expr(ir.operands[0]) is Some {
        let e = operand_expr(ir.operands[0]).unwrap();
        Some(
            ExprV::Assignment {
                target: Box::new(e),
                value: Box::new(
                    ExprV::BinaryOperation {
                        op: if ir.op == "inc"@ {
                            BinaryOperator::Add
                        } else {
                            BinaryOperator::Subtract
                        },
                        left: Box::new(e),
                        right: Box::new(ExprV::IntegerLiteral(1)),
                    },
                ),
            },
        )
    } else {
        None
    }
}

/// `x = -x` for `neg`, `x = ~x` for `not`.
pub open spec fn unary_expr(ir: InstructionIRV) -> Option<ExprV> {
    if ir.operands.len() >= 1 && operand_expr(ir.operands[0]) is Some {
        let e = operand_expr(ir.operands[0]).unwrap();
        Some(
            ExprV::Assignment {
                target: Box::new(e),
                value: Box::new(
                    ExprV::UnaryOperation {
                        op: if ir.op == "neg"@ {
                            UnaryOperator::Negate
                        } else {
                            UnaryOperator::BitwiseNot
                        },
                        operand: Box::new(e),
                    },
                ),
            },
        )
    } else {
        None
    }
}

/// `x = y` for a move whose operands both lift.
pub open spec fn mov_expr(ir: InstructionIRV) -> Option<ExprV> {
    if ir.operands.len() >= 2 && operand_expr(ir.operands[0]) is Some && operand_expr(
        ir.operands[1],
    ) is Some {
        Some(
            ExprV::Assignment {
                target: Box::new(operand_expr(ir.operands[0]).unwrap()),
                value: Box::new(operand_expr(ir.operands[1]).unwrap()),
            },
        )
    } else {
        None
    }
}

/// The expression an instruction's IR lifts to, if its mnemonic is supported.
pub open spec fn ir_expression(ir: InstructionIRV) -> Option<ExprV> {
    if is_binary_mnemonic(ir.op) {
        binary_expr(ir)
    } else if ir.op == "inc"@ || ir.op == "dec"@ {
        inc_dec_expr(ir)
    } else if ir.op == "neg"@ || ir.op == "not"@ {
        unary_expr(ir)
    } else if ir.op == "mov"@ || ir.op == "movzx"@ || ir.op == "movsxd"@ {
        mov_expr(ir)
    } else {
        None
    }
}

/// The mnemonics the lifter knows are different texts.
proof fn lemma_mnemonics_distinct()
    ensures
        "add"@ != "lea"@,
        "add"@ != "sub"@,
        "add"@ != "and"@,
        "add"@ != "or"@,
        "add"@ != "xor"@,
        "add"@ != "shl"@,
        "add"@ != "shr"@,
        "add"@ != "imul"@,
        "add"@ != "inc"@,
        "add"@ != "dec"@,
        "add"@ != "neg"@,
        "add"@ != "not"@,
        "add"@ != "mov"@,
        "add"@ != "movzx"@,
        "add"@ != "movsxd"@,
        "lea"@ != "sub"@,
        "lea"@ != "and"@,
        "lea"@ != "or"@,
        "lea"@ != "xor"@,
        "lea"@ != "shl"@,
        "lea"@ != "shr"@,
        "lea"@ != "imul"@,
        "lea"@ != "inc"@,
        "lea"@ != "dec"@,
        "lea"@ != "neg"@,
        "lea"@ != "not"@,
        "lea"@ != "mov"@,
        "lea"@ != "movzx"@,
        "lea"@ != "movsxd"@,
        "sub"@ != "and"@,
        "sub"@ != "or"@,
        "sub"@ != "xor"@,
        "sub"@ != "shl"@,
        "sub"@ != "shr"@,
        "sub"@ != "imul"@,
        "sub"@ != "inc"@,
        "sub"@ != "dec"@,
        "sub"@ != "neg"@,
        "sub"@ != "not"@,
        "sub"@ != "mov"@,
        "sub"@ != "movzx"@,
        "sub"@ != "movsxd"@,
        "and"@ != "or"@,
        "and"@ != "xor"@,
        "and"@ != "shl"@,
        "and"@ != "shr"@,
        "and"@ != "imul"@,
        "and"@ != "inc"@,
        "and"@ != "dec"@,
        "and"@ != "neg"@,
        "and"@ != "not"@,
        "and"@ != "mov"@,
        "and"@ != "movzx"@,
        "and"@ != "movsxd"@,
        "or"@ != "xor"@,
        "or"@ != "shl"@,
        "or"@ != "shr"@,
        "or"@ != "imul"@,
        "or"@ != "inc"@,
        "or"@ != "dec"@,
        "or"@ != "neg"@,
        "or"@ != "not"@,
        "or"@ != "mov"@,
        "or"@ != "movzx"@,
        "or"@ != "movsxd"@,
        "xor"@ != "shl"@,
        "xor"@ != "shr"@,
        "xor"@ != "imul"@,
        "xor"@ != "inc"@,
        "xor"@ != "dec"@,
        "xor"@ != "neg"@,
        "xor"@ != "not"@,
        "xor"@ != "mov"@,
        "xor"@ != "movzx"@,
        "xor"@ != "movsxd"@,
        "shl"@ != "shr"@,
        "shl"@ != "imul"@,
        "shl"@ != "inc"@,
        "shl"@ != "dec"@,
        "shl"@ != "neg"@,
        "shl"@ != "not"@,
        "shl"@ != "mov"@,
        "shl"@ != "movzx"@,
        "shl"@ != "movsxd"@,
        "shr"@ != "imul"@,
        "shr"@ != "inc"@,
        "shr"@ != "dec"@,
        "shr"@ != "neg"@,
        "shr"@ != "not"@,
        "shr"@ != "mov"@,
        "shr"@ != "movzx"@,
        "shr"@ != "movsxd"@,
        "imul"@ != "inc"@,
        "imul"@ != "dec"@,
        "imul"@ != "neg"@,
        "imul"@ != "not"@,
        "imul"@ != "mov"@,
        "imul"@ != "movzx"@,
        "imul"@ != "movsxd"@,
        "inc"@ != "dec"@,
        "inc"@ != "neg"@,
        "inc"@ != "not"@,
        "inc"@ != "mov"@,
        "inc"@ != "movzx"@,
        "inc"@ != "movsxd"@,
        "dec"@ != "neg"@,
        "dec"@ != "not"@,
        "dec"@ != "mov"@,
        "dec"@ != "movzx"@,
        "dec"@ != "movsxd"@,
        "neg"@ != "not"@,
        "neg"@ != "mov"@,
        "neg"@ != "movzx"@,
        "neg"@ != "movsxd"@,
        "not"@ != "mov"@,
        "not"@ != "movzx"@,
        "not"@ != "movsxd"@,
        "mov"@ != "movzx"@,
        "mov"@ != "movsxd"@,
        "movzx"@ != "movsxd"@,
{
    reveal_strlit("add");
    reveal_strlit("lea");
    reveal_strlit("sub");
    reveal_strlit("and");
    reveal_strlit("or");
    reveal_strlit("xor");
    reveal_strlit("shl");
    reveal_strlit("shr");
    reveal_strlit("imul");
    reveal_strlit("inc");
    reveal_strlit("dec");
    reveal_strlit("neg");
    reveal_strlit("not");
    reveal_strlit("mov");
    reveal_strlit("movzx");
    reveal_strlit("movsxd");
    assert("add"@.len() != "or"@.len());
    assert("add"@.len() != "imul"@.len());
    assert("add"@.len() != "movzx"@.len());
    assert("add"@.len() != "movsxd"@.len());
    assert("lea"@.len() != "or"@.len());
    assert("lea"@.len() != "imul"@.len());
    assert("lea"@.len() != "movzx"@.len());
    assert("lea"@.len() != "movsxd"@.len());
    assert("sub"@.len() != "or"@.len());
    assert("sub"@.len() != "imul"@.len());
    assert("sub"@.len() != "movzx"@.len());
    assert("sub"@.len() != "movsxd"@.len());
    assert("and"@.len() != "or"@.len());
    assert("and"@.len() != "imul"@.len());
    assert("and"@.len() != "movzx"@.len());
    assert("and"@.len() != "movsxd"@.len());
    assert("or"@.len() != "xor"@.len());
    assert("or"@.len() != "shl"@.len());
    assert("or"@.len() != "shr"@.len());
    assert("or"@.len() != "imul"@.len());
    assert("or"@.len() != "inc"@.len());
    assert("or"@.len() != "dec"@.len());
    assert("or"@.len() != "neg"@.len());
    assert("or"@.len() != "not"@.len());
    assert("or"@.len() != "mov"@.len());
    assert("or"@.len() != "movzx"@.len());
    assert("or"@.len() != "movsxd"@.len());
    assert("xor"@.len() != "imul"@.len());
    assert("xor"@.len() != "movzx"@.len());
    assert("xor"@.len() != "movsxd"@.len());
    assert("shl"@.len() != "imul"@.len());
    assert("shl"@.len() != "movzx"@.len());
    assert("shl"@.len() != "movsxd"@.len());
    assert("shr"@.len() != "imul"@.len());
    assert("shr"@.len() != "movzx"@.len());
    assert("shr"@.len() != "movsxd"@.len());
    assert("imul"@.len() != "inc"@.len());
    assert("imul"@.len() != "dec"@.len());
    assert("imul"@.len() != "neg"@.len());
    assert("imul"@.len() != "not"@.len());
    assert("imul"@.len() != "mov"@.len());
    assert("imul"@.len() != "movzx"@.len());
    assert("imul"@.len() != "movsxd"@.len());
    assert("inc"@.len() != "movzx"@.len());
    assert("inc"@.len() != "movsxd"@.len());
    assert("dec"@.len() != "movzx"@.len());
    assert("dec"@.len() != "movsxd"@.len());
    assert("neg"@.len() != "movzx"@.len());
    assert("neg"@.len() != "movsxd"@.len());
    assert("not"@.len() != "movzx"@.len());
    assert("not"@.len() != "movsxd"@.len());
    assert("mov"@.len() != "movzx"@.len());
    assert("mov"@.len() != "movsxd"@.len());
    assert("movzx"@.len() != "movsxd"@.len());
    assert("add"@[0] != "lea"@[0]);
    assert("add"@[0] != "sub"@[0]);
    assert("add"@[1] != "and"@[1]);
    assert("add"@[0] != "xor"@[0]);
    assert("add"@[0] != "shl"@[0]);
    assert("add"@[0] != "shr"@[0]);
    assert("add"@[0] != "inc"@[0]);
    assert("add"@[0] != "dec"@[0]);
    assert("add"@[0] != "neg"@[0]);
    assert("add"@[0] != "not"@[0]);
    assert("add"@[0] != "mov"@[0]);
    assert("lea"@[0] != "sub"@[0]);
    assert("lea"@[0] != "and"@[0]);
    assert("lea"@[0] != "xor"@[0]);
    assert("lea"@[0] != "shl"@[0]);
    assert("lea"@[0] != "shr"@[0]);
    assert("lea"@[0] != "inc"@[0]);
    assert("lea"@[0] != "dec"@[0]);
    assert("lea"@[0] != "neg"@[0]);
    assert("lea"@[0] != "not"@[0]);
    assert("lea"@[0] != "mov"@[0]);
    assert("sub"@[0] != "and"@[0]);
    assert("sub"@[0] != "xor"@[0]);
    assert("sub"@[1] != "shl"@[1]);
    assert("sub"@[1] != "shr"@[1]);
    assert("sub"@[0] != "inc"@[0]);
    assert("sub"@[0] != "dec"@[0]);
    assert("sub"@[0] != "neg"@[0]);
    assert("sub"@[0] != "not"@[0]);
    assert("sub"@[0] != "mov"@[0]);
    assert("and"@[0] != "xor"@[0]);
    assert("and"@[0] != "shl"@[0]);
    assert("and"@[0] != "shr"@[0]);
    assert("and"@[0] != "inc"@[0]);
    assert("and"@[0] != "dec"@[0]);
    assert("and"@[0] != "neg"@[0]);
    assert("and"@[0] != "not"@[0]);
    assert("and"@[0] != "mov"@[0]);
    assert("xor"@[0] != "shl"@[0]);
    assert("xor"@[0] != "shr"@[0]);
    assert("xor"@[0] != "inc"@[0]);
    assert("xor"@[0] != "dec"@[0]);
    assert("xor"@[0] != "neg"@[0]);
    assert("xor"@[0] != "not"@[0]);
    assert("xor"@[0] != "mov"@[0]);
    assert("shl"@[2] != "shr"@[2]);
    assert("shl"@[0] != "inc"@[0]);
    assert("shl"@[0] != "dec"@[0]);
    assert("shl"@[0] != "neg"@[0]);
    assert("shl"@[0] != "not"@[0]);
    assert("shl"@[0] != "mov"@[0]);
    assert("shr"@[0] != "inc"@[0]);
    assert("shr"@[0] != "dec"@[0]);
    assert("shr"@[0] != "neg"@[0]);
    assert("shr"@[0] != "not"@[0]);
    assert("shr"@[0] != "mov"@[0]);
    assert("inc"@[0] != "dec"@[0]);
    assert("inc"@[0] != "neg"@[0]);
    assert("inc"@[0] != "not"@[0]);
    assert("inc"@[0] != "mov"@[0]);
    assert("dec"@[0] != "neg"@[0]);
    assert("dec"@[0] != "not"@[0]);
    assert("dec"@[0] != "mov"@[0]);
    assert("neg"@[1] != "not"@[1]);
    assert("neg"@[0] != "mov"@[0]);
    assert("not"@[0] != "mov"@[0]);
}

/// `dst = dst op src`.
pub open spec fn assign_binary(op: BinaryOperator, dst: ExprV, src: ExprV) -> ExprV {
    ExprV::Assignment {
        target: Box::new(dst),
        value: Box::new(ExprV::BinaryOperation { op, left: Box::new(dst), right: Box::new(src) }),
    }
}

/// Law: a two-operand arithmetic or logic instruction lifts to an assignment
/// of its destination combined with its source by the operator of the same
/// meaning: `add` and `lea` add, `sub` subtracts, `imul` multiplies, `and`,
/// `or` and `xor` are the bitwise operators, `shl` and `shr` shift; and
/// `mov`, `movzx` and `movsxd` copy the source into the destination.
pub proof fn lemma_lifted_two_operand_meaning(ir: InstructionIRV)
    requires
        ir.operands.len() >= 2,
        operand_expr(ir.operands[0]) is Some,
        operand_expr(ir.operands[1]) is Some,
    ensures
        ir.op == "add"@ ==> ir_expression(ir) == Some(assign_binary(BinaryOperator::Add, operand_expr(ir.operands[0]).unwrap(), operand_expr(ir.operands[1]).unwrap())),
        ir.op == "lea"@ ==> ir_expression(ir) == Some(assign_binary(BinaryOperator::Add, operand_expr(ir.operands[0]).unwrap(), operand_expr(ir.operands[1]).unwrap())),
        ir.op == "sub"@ ==> ir_expression(ir) == Some(assign_binary(BinaryOperator::Subtract, operand_expr(ir.operands[0]).unwrap(), operand_expr(ir.operands[1]).unwrap())),
        ir.op == "and"@ ==> ir_expression(ir) == Some(assign_binary(BinaryOperator::BitwiseAnd, operand_expr(ir.operands[0]).unwrap(), operand_expr(ir.operands[1]).unwrap())),
        ir.op == "or"@ ==> ir_expression(ir) == Some(assign_binary(BinaryOperator::BitwiseOr, operand_expr(ir.operands[0]).unwrap(), operand_expr(ir.operands[1]).unwrap())),
        ir.op == "xor"@ ==> ir_expression(ir) == Some(assign_binary(BinaryOperator::BitwiseXor, operand_expr(ir.operands[0]).unwrap(), operand_expr(ir.operands[1]).unwrap())),
        ir.op == "shl"@ ==> ir_expression(ir) == Some(assign_binary(BinaryOperator::LeftShift, operand_expr(ir.operands[0]).unwrap(), operand_expr(ir.operands[1]).unwrap())),
        ir.op == "shr"@ ==> ir_expression(ir) == Some(assign_binary(BinaryOperator::RightShift, operand_expr(ir.operands[0]).unwrap(), operand_expr(ir.operands[1]).unwrap())),
        ir.op == "imul"@ ==> ir_expression(ir) == Some(assign_binary(BinaryOperator::Multiply, operand_expr(ir.operands[0]).unwrap(), operand_expr(ir.operands[1]).unwrap())),
        (ir.op == "mov"@ || ir.op == "movzx"@ || ir.op == "movsxd"@) ==> ir_expression(ir) == Some(
            ExprV::Assignment {
                target: Box::new(operand_expr(ir.operands[0]).unwrap()),
                value: Box::new(operand_expr(ir.operands[1]).unwrap()),
            },
        ),
{
    lemma_mnemonics_distinct();
}

/// Law: an instruction whose mnemonic is none of the arithmetic, logic,
/// shift and move mnemonics above is not lifted (it stays inline assembly).
pub proof fn lemma_other_mnemonics_not_lifted(ir: InstructionIRV)
    requires
        ir.op != "add"@ && ir.op != "lea"@ && ir.op != "sub"@ && ir.op != "imul"@,
        ir.op != "and"@ && ir.op != "or"@ && ir.op != "xor"@,
        ir.op != "shl"@ && ir.op != "shr"@,
        ir.op != "inc"@ && ir.op != "dec"@ && ir.op != "neg"@ && ir.op != "not"@,
        ir.op != "mov"@ && ir.op != "movzx"@ && ir.op != "movsxd"@,
    ensures
        ir_expression(ir) is None,
{
}

/// Law: `inc` and `dec` add and subtract one, `neg` negates and `not`
/// complements their operand in place.
pub proof fn lemma_lifted_one_operand_meaning(ir: InstructionIRV)
    requires
        ir.operands.len() >= 1,
        operand_expr(ir.operands[0]) is Some,
    ensures
        ir.op == "inc"@ ==> ir_expression(ir) == Some(assign_binary(BinaryOperator::Add, operand_expr(ir.operands[0]).unwrap(), ExprV::IntegerLiteral(1))),
        ir.op == "dec"@ ==> ir_expression(ir) == Some(assign_binary(BinaryOperator::Subtract, operand_expr(ir.operands[0]).unwrap(), ExprV::IntegerLiteral(1))),
        ir.op == "neg"@ ==> ir_expression(ir) == Some(ExprV::Assignment {
            target: Box::new(operand_expr(ir.operands[0]).unwrap()),
            value: Box::new(ExprV::UnaryOperation {
                op: UnaryOperator::Negate,
                operand: Box::new(operand_expr(ir.operands[0]).unwrap()),
            }),
        }),
        ir.op == "not"@ ==> ir_expression(ir) == Some(ExprV::Assignment {
            target: Box::new(operand_expr(ir.operands[0]).unwrap()),
            value: Box::new(ExprV::UnaryOperation {
                op: UnaryOperator::BitwiseNot,
                operand: Box::new(operand_expr(ir.operands[0]).unwrap()),
            }),
        }),
{
    lemma_mnemonics_distinct();
}

pub open spec fn inline_asm(i: X86InstructionV) -> StmtV {
    StmtV::InlineAsm { address: i.address, disasm: display_text(i) }
}

/// The statement the IR lifts to, or an inline-assembly placeholder.
pub open spec fn lifted_ir_stmt(i: X86InstructionV) -> StmtV {
    match i.ir {
        Some(ir) => match ir_expression(ir) {
            Some(e) => StmtV::Expression(e),
            None => inline_asm(i),
        },
        None => inline_asm(i),
    }
}

/// The name a call resolves to: its direct target's, else that of the
/// memory slot its operand refers to.
pub open spec fn resolved_call_name(i: X86InstructionV, t: Map<u64, Seq<char>>) -> Option<
    Seq<char>,
> {
    if !is_call_mnemonic(i.mnemonic) {
        None
    } else if i.near_branch_target is Some && t.contains_key(i.near_branch_target.unwrap()) {
        Some(t[i.near_branch_target.unwrap()])
    } else {
        match referenced_address(i.address, i.length, i.operands) {
            Some(a) => if t.contains_key(a) {
                Some(t[a])
            } else {
                None
            },
            None => None,
        }
    }
}

pub open spec fn lifted_stmt(i: X86InstructionV, t: Map<u64, Seq<char>>) -> StmtV {
    match resolved_call_name(i, t) {
        Some(f) => StmtV::Expression(ExprV::FunctionCall { function: f, arguments: seq![] }),
        None => lifted_ir_stmt(i),
    }
}

/// A lifted function: the given name, `void` return, no parameters, and one
/// statement per instruction in order.
pub open spec fn lifted_function(
    name: Seq<char>,
    instrs: Seq<Instruction>,
    t: Map<u64, Seq<char>>,
) -> FunctionV {
    FunctionV {
        name,
        return_type: TypeV::Void,
        parameters: seq![],
        body: Seq::new(instrs.len(), |k: int| lifted_stmt(instrs[k]@, t)),
        is_variadic: false,
    }
}

// ---------------------------------------------------------------------------
// Lifting
// ---------------------------------------------------------------------------

fn hex_name(prefix: &str, a: u64) -> (r: String)
    ensures
        r@ == prefix@ + hex_text(a as nat, true),
{
    let mut v: Vec<char> = Vec::new();
    extend_chars(&mut v, prefix);
    push_hex(&mut v, a, true);
    string_of(&v)
}

/// Lift a single detected function into an AST function, under its
/// sanitized name and with no call targets resolved.
pub fn lift_function(info: &FunctionInfo) -> (r: Function)
    ensures
        r@ == lifted_function(
            sanitize_ident(info.name@, sub_name(info.address)),
            info.instructions@,
            Map::empty(),
        ),
{
    let fallback = hex_name("sub_", info.address);
    let name = sanitize_c_identifier(info.name.as_str(), fallback.as_str());
    let targets: HashMap<u64, String> = HashMap::new();
    proof {
        assert(names_view(targets@) =~= Map::empty());
    }
    lift_function_with_name(info, name, &targets)
}

/// Lift a slice of detected functions.
pub fn lift_functions(infos: &[FunctionInfo]) -> (r: Vec<Function>)
    requires
        infos@.len() < u64::MAX,
    ensures
        r@.len() == infos@.len(),
        forall|k: int|
            0 <= k < r@.len() ==> #[trigger] r@[k]@ == lifted_function(
                unique_names(function_requests(infos@))[k],
                infos@[k].instructions@,
                call_target_map(infos@, seq![]),
            ),
{
    let imports: Vec<ImportAddressInfo> = Vec::new();
    proof {
        assert(imports@ =~= seq![]);
    }
    lift_functions_with_imports(infos, imports.as_slice())
}

/// Lift detected functions and resolve known function and import-address
/// call targets.
pub fn lift_functions_with_imports(infos: &[FunctionInfo], imports: &[ImportAddressInfo]) -> (r:
    Vec<Function>)
    requires
        infos@.len() < u64::MAX,
        imports@.len() < u64::MAX,
    ensures
        r@.len() == infos@.len(),
        forall|k: int|
            0 <= k < r@.len() ==> #[trigger] r@[k]@ == lifted_function(
                unique_names(function_requests(infos@))[k],
                infos@[k].instructions@,
                call_target_map(infos@, imports@),
            ),
{
    let ghost reqs = function_requests(infos@);
    let ghost ftargets = function_targets(infos@);
    let mut used: Vec<Vec<char>> = Vec::new();
    let mut names: Vec<String> = Vec::new();
    let mut targets: HashMap<u64, String> = HashMap::new();
    let mut i: usize = 0;
    while i < infos.len()
        invariant
            i <= infos@.len() < u64::MAX,
            reqs == function_requests(infos@),
            ftargets == function_targets(infos@),
            used@.len() == i,
            used_view(used@) == unique_names(reqs.take(i as int)),
            names@.len() == i,
            forall|k: int| 0 <= k < i ==> #[trigger] names@[k]@ == used_view(used@)[k],
            names_view(targets@) == insert_pairs(Map::empty(), ftargets.take(i as int)),
        decreases infos@.len() - i,
    {
        let info = &infos[i];
        let fallback = hex_name("sub_", info.address);
        let ghost before = used_view(used@);
        let name = unique_c_identifier(info.name.as_str(), fallback.as_str(), &mut used);
        proof {
            assert(used@.len() == used_view(used@).len());
            assert(reqs.take(i + 1).drop_last() =~= reqs.take(i as int));
            assert(reqs[i as int] == (info.name@, sub_name(info.address)));
            assert(unique_names(reqs.take(i + 1)) == before.push(name@));
        }
        let ghost old_targets = targets@;
        let nm = name.clone();
        targets.insert(info.address, nm);
        assert(names_view(targets@) =~= names_view(old_targets).insert(info.address, name@));
        names.push(name);
        proof {
            let all = unique_names(reqs);
            lemma_unique_names_prefix(reqs, i + 1);
            assert(unique_names(reqs.take(i + 1)) == all.take(i + 1));
            assert(ftargets[i as int] == (infos@[i as int].address, all[i as int]));
            assert(ftargets.take(i + 1).drop_last() =~= ftargets.take(i as int));
            assert(all.take(i + 1)[i as int] == name@);
            assert(ftargets.take(i + 1).last() == (info.address, name@));
            assert(names_view(targets@) =~= insert_pairs(Map::empty(), ftargets.take(i + 1)));
        }
        i = i + 1;
    }
    proof {
        assert(reqs.take(infos@.len() as int) =~= reqs);
        assert(ftargets.take(infos@.len() as int) =~= ftargets);
    }
    let decls = import_function_declarations(imports);
    let ghost itargets = import_targets(imports@);
    let ghost base = insert_pairs(Map::empty(), ftargets);
    let mut j: usize = 0;
    while j < decls.len()
        invariant
            j <= decls@.len() == imports@.len(),
            itargets == import_targets(imports@),
            forall|k: int|
                #![trigger decls@[k]]
                0 <= k < decls@.len() ==> decls@[k].address == imports@[k].address
                    && decls@[k].c_name@ == unique_names(import_requests(imports@))[k],
            names_view(targets@) == insert_pairs(base, itargets.take(j as int)),
        decreases decls@.len() - j,
    {
        let ghost old_targets = targets@;
        let nm = decls[j].c_name.clone();
        targets.insert(decls[j].address, nm);
        proof {
            assert(names_view(targets@) =~= names_view(old_targets).insert(decls@[j as int].address, decls@[j as int].c_name@));
            assert(itargets.take(j + 1).drop_last() =~= itargets.take(j as int));
            assert(names_view(targets@) =~= insert_pairs(base, itargets.take(j + 1)));
        }
        j = j + 1;
    }
    proof {
        assert(itargets.take(decls@.len() as int) =~= itargets);
        lemma_unique_names_prefix(reqs, infos@.len() as int);
    }
    let mut r: Vec<Function> = Vec::new();
    let mut k: usize = 0;
    while k < infos.len()
        invariant
            k <= infos@.len(),
            names@.len() == infos@.len(),
            reqs == function_requests(infos@),
            reqs.take(infos@.len() as int) == reqs,
            forall|q: int|
                0 <= q < infos@.len() ==> #[trigger] names@[q]@ == unique_names(reqs)[q],
            names_view(targets@) == call_target_map(infos@, imports@),
            r@.len() == k,
            forall|q: int|
                0 <= q < k ==> #[trigger] r@[q]@ == lifted_function(
                    unique_names(reqs)[q],
                    infos@[q].instructions@,
                    call_target_map(infos@, imports@),
                ),
        decreases infos@.len() - k,
    {
        let f = lift_function_with_name(&infos[k], names[k].clone(), &targets);
        r.push(f);
        k = k + 1;
    }
    r
}

proof fn lemma_unique_names_prefix(reqs: Seq<(Seq<char>, Seq<char>)>, n: int)
    requires
        0 <= n <= reqs.len(),
    ensures
        unique_names(reqs.take(n)) == unique_names(reqs).take(n),
        unique_names(reqs).len() == reqs.len(),
    decreases reqs.len(),
{
    if reqs.len() > 0 {
        lemma_unique_names_prefix(reqs.drop_last(), if n < reqs.len() {
            n
        } else {
            reqs.len() - 1
        });
        if n < reqs.len() {
            assert(reqs.drop_last().take(n) =~= reqs.take(n));
            assert(unique_names(reqs).take(n) =~= unique_names(reqs.drop_last()).take(n));
        } else {
            assert(reqs.take(n) =~= reqs);
            assert(unique_names(reqs).take(n) =~= unique_names(reqs));
        }
    } else {
        assert(reqs.take(n) =~= reqs);
    }
}

/// Build C-safe import declarations in the same naming scheme used by the lifter.
pub fn import_function_declarations(imports: &[ImportAddressInfo]) -> (r: Vec<
    ImportFunctionDeclaration,
>)
    requires
        imports@.len() < u64::MAX,
    ensures
        r@.len() == imports@.len(),
        forall|k: int|
            #![trigger r@[k]]
            0 <= k < r@.len() ==> {
                &&& r@[k].library@ == imports@[k].library@
                &&& r@[k].function@ == imports@[k].function@
                &&& r@[k].address == imports@[k].address
                &&& r@[k].ordinal == imports@[k].ordinal
                &&& r@[k].c_name@ == unique_names(import_requests(imports@))[k]
            },
{
    let ghost reqs = import_requests(imports@);
    let mut used: Vec<Vec<char>> = Vec::new();
    let mut r: Vec<ImportFunctionDeclaration> = Vec::new();
    let mut i: usize = 0;
    while i < imports.len()
        invariant
            i <= imports@.len() < u64::MAX,
            reqs == import_requests(imports@),
            used@.len() == i,
            used_view(used@) == unique_names(reqs.take(i as int)),
            r@.len() == i,
            forall|k: int|
                #![trigger r@[k]]
                0 <= k < i ==> {
                    &&& r@[k].library@ == imports@[k].library@
                    &&& r@[k].function@ == imports@[k].function@
                    &&& r@[k].address == imports@[k].address
                    &&& r@[k].ordinal == imports@[k].ordinal
                    &&& r@[k].c_name@ == used_view(used@)[k]
                },
        decreases imports@.len() - i,
    {
        let import = &imports[i];
        let fallback = hex_name("import_", import.address);
        let ghost before = used_view(used@);
        let c_name = unique_c_identifier(import.function.as_str(), fallback.as_str(), &mut used);
        proof {
            assert(used@.len() == used_view(used@).len());
            assert(reqs.take(i + 1).drop_last() =~= reqs.take(i as int));
            assert(reqs[i as int] == (import.function@, import_fallback(import.address)));
        }
        r.push(
            ImportFunctionDeclaration {
                library: import.library.clone(),
                function: import.function.clone(),
                address: import.address,
                ordinal: import.ordinal,
                c_name,
            },
        );
        i = i + 1;
    }
    proof {
        assert(reqs.take(imports@.len() as int) =~= reqs);
    }
    r
}

fn lift_function_with_name(info: &FunctionInfo, name: String, call_targets: &HashMap<u64, String>) -> (r:
    Function)
    ensures
        r@ == lifted_function(name@, info.instructions@, names_view(call_targets@)),
{
    let ghost t = names_view(call_targets@);
    let mut body: Vec<Statement> = Vec::new();
    let mut i: usize = 0;
    while i < info.instructions.len()
        invariant
            i <= info.instructions@.len(),
            t == names_view(call_targets@),
            body@.len() == i,
            forall|k: int|
                0 <= k < i ==> #[trigger] body@[k]@ == lifted_stmt(info.instructions@[k]@, t),
        decreases info.instructions@.len() - i,
    {
        body.push(instruction_to_statement(&info.instructions[i], call_targets));
        i = i + 1;
    }
    let parameters = Vec::new();
    let r = Function {
        name,
        return_type: TypeInfo::Void,
        parameters,
        body,
        is_variadic: false,
    };
    proof {
        let expect = lifted_function(name@, info.instructions@, t);
        assert(r@.parameters =~= expect.parameters);
        assert forall|k: int| 0 <= k < body@.len() implies r@.body[k] == expect.body[k] by {
            assert(body@[k]@ == lifted_stmt(info.instructions@[k]@, t));
        }
        assert(r@.body =~= expect.body);
    }
    r
}

/// The statement one instruction lifts to.
pub fn instruction_to_statement(instr: &Instruction, call_targets: &HashMap<u64, String>) -> (r:
    Statement)
    ensures
        r@ == lifted_stmt(instr@, names_view(call_targets@)),
{
    match call_target_name(instr, call_targets) {
        Some(function) => {
            let arguments: Vec<Expression> = Vec::new();
            assert(arguments@ =~= seq![]);
            let r = Statement::Expression(Expression::FunctionCall { function, arguments });
            proof {
                assert(exprs_v(seq![]) =~= seq![]);
            }
            r
        },
        None => lift_ir_to_statement(instr),
    }
}

fn call_target_name(instr: &Instruction, call_targets: &HashMap<u64, String>) -> (r: Option<String>)
    ensures
        opt_str_v(r) == resolved_call_name(instr@, names_view(call_targets@)),
{
    match instr {
        Instruction::X86(x) => {
            if !x.is_call() {
                return None;
            }
            match x.near_branch_target {
                Some(target) => {
                    match call_targets.get(&target) {
                        Some(name) => {
                            return Some(name.clone());
                        },
                        None => {},
                    }
                },
                None => {},
            }
            let target = match referenced_memory_address(x.address, x.length, x.operands.as_str()) {
                Some(t) => t,
                None => {
                    return None;
                },
            };
            match call_targets.get(&target) {
                Some(name) => Some(name.clone()),
                None => None,
            }
        },
    }
}

/// The address a bracketed operand text refers to.
pub fn referenced_memory_address(address: u64, length: usize, operands: &str) -> (r: Option<u64>)
    ensures
        r == referenced_address(address, length, operands@),
{
    let text = chars_of(operands);
    if !has_char_exec(&text, '[') || !has_char_exec(&text, ']') {
        return None;
    }
    let lower = lower_chars(&text);
    let hexes = collect_hex_addresses(operands);
    if hexes.len() == 0 {
        return None;
    }
    let first_hex = hexes[0];
    let next = address.wrapping_add(length as u64);
    if contains_exec(&lower, "rip+") || contains_exec(&lower, "rip +") {
        Some(next.wrapping_add(first_hex))
    } else if contains_exec(&lower, "rip-") || contains_exec(&lower, "rip -") {
        Some(next.wrapping_sub(first_hex))
    } else {
        Some(first_hex)
    }
}

proof fn lemma_hex_tokens_nonempty(s: Seq<char>)
    ensures
        hex_tokens(s).len() >= 1,
    decreases s.len(),
{
    if s.len() > 0 {
        lemma_hex_tokens_nonempty(s.drop_last());
    }
}

/// The values of the hex tokens of a text, in order.
pub fn collect_hex_addresses(text: &str) -> (r: Vec<u64>)
    ensures
        r@ == hex_values(text@),
{
    let s = chars_of(text);
    let mut out: Vec<u64> = Vec::new();
    let mut cur: Vec<char> = Vec::new();
    let ghost mut done: Seq<Seq<char>> = seq![];
    let mut i: usize = 0;
    while i < s.len()
        invariant
            s@ == text@,
            i <= s@.len(),
            hex_tokens(s@.take(i as int)) == done.push(cur@),
            out@ == parsed_tokens(done),
        decreases s@.len() - i,
    {
        let c = s[i];
        proof {
            assert(s@.take(i + 1).drop_last() =~= s@.take(i as int));
            assert(s@.take(i + 1).last() == c);
        }
        if is_hex_digit_exec(c) || c == 'x' || c == 'X' || c == 'h' || c == 'H' {
            let ghost before = cur@;
            cur.push(c);
            proof {
                assert(hex_tokens(s@.take(i + 1)) =~= done.push(cur@));
            }
        } else {
            match parse_hex_token(&cur) {
                Some(v) => out.push(v),
                None => {},
            }
            proof {
                assert(done.push(cur@).drop_last() =~= done);
                done = done.push(cur@);
            }
            cur = Vec::new();
            proof {
                assert(hex_tokens(s@.take(i + 1)) =~= done.push(cur@));
            }
        }
        i = i + 1;
    }
    match parse_hex_token(&cur) {
        Some(v) => out.push(v),
        None => {},
    }
    proof {
        assert(s@.take(s@.len() as int) =~= s@);
        assert(done.push(cur@).drop_last() =~= done);
    }
    out
}

fn parse_hex_token(token: &[char]) -> (r: Option<u64>)
    ensures
        r == hex_token_value(token@),
{
    let n = token.len();
    if n < 2 {
        return None;
    }
    let stripped: Vec<char> = if (token[0] == '0' && (token[1] == 'x' || token[1] == 'X')) {
        proof {
            reveal_strlit("0x");
            reveal_strlit("0X");
            assert(starts_with(token@, "0x"@) || starts_with(token@, "0X"@)) by {
                if token[1] == 'x' {
                    assert(token@.subrange(0, 2) =~= "0x"@);
                } else {
                    assert(token@.subrange(0, 2) =~= "0X"@);
                }
            }
        }
        let mut v: Vec<char> = Vec::new();
        let mut k: usize = 2;
        while k < n
            invariant
                2 <= k <= n == token@.len(),
                v@ == token@.subrange(2, k as int),
            decreases n - k,
        {
            v.push(token[k]);
            k = k + 1;
            proof {
                assert(v@ =~= token@.subrange(2, k as int));
            }
        }
        v
    } else if token[n - 1] == 'h' || token[n - 1] == 'H' {
        proof {
            reveal_strlit("0x");
            reveal_strlit("0X");
            assert(!starts_with(token@, "0x"@) && !starts_with(token@, "0X"@)) by {
                if starts_with(token@, "0x"@) {
                    assert(token@.subrange(0, 2)[0] == token@[0]);
                    assert(token@.subrange(0, 2)[1] == token@[1]);
                }
                if starts_with(token@, "0X"@) {
                    assert(token@.subrange(0, 2)[0] == token@[0]);
                    assert(token@.subrange(0, 2)[1] == token@[1]);
                }
            }
        }
        let mut v: Vec<char> = Vec::new();
        let mut k: usize = 0;
        while k < n - 1
            invariant
                k <= n - 1,
                n == token@.len(),
                v@ == token@.subrange(0, k as int),
            decreases n - 1 - k,
        {
            v.push(token[k]);
            k = k + 1;
            proof {
                assert(v@ =~= token@.subrange(0, k as int));
            }
        }
        proof {
            assert(v@ =~= token@.drop_last());
        }
        v
    } else {
        proof {
            reveal_strlit("0x");
            reveal_strlit("0X");
            assert(!starts_with(token@, "0x"@) && !starts_with(token@, "0X"@)) by {
                if starts_with(token@, "0x"@) {
                    assert(token@.subrange(0, 2)[0] == token@[0]);
                    assert(token@.subrange(0, 2)[1] == token@[1]);
                }
                if starts_with(token@, "0X"@) {
                    assert(token@.subrange(0, 2)[0] == token@[0]);
                    assert(token@.subrange(0, 2)[1] == token@[1]);
                }
            }
        }
        return None;
    };
    assert(hex_stripped(token@) == Some(stripped@));
    if stripped.len() == 0 || !all_hex_exec(&stripped) {
        return None;
    }
    parse_u64_radix(&stripped, 16)
}

pub fn all_hex_exec(d: &[char]) -> (r: bool)
    ensures
        r == all_hex(d@),
{
    let mut k: usize = 0;
    while k < d.len()
        invariant
            k <= d@.len(),
            forall|q: int| 0 <= q < k ==> is_hex_digit(#[trigger] d@[q]),
        decreases d@.len() - k,
    {
        if !is_hex_digit_exec(d[k]) {
            return false;
        }
        k = k + 1;
    }
    true
}

/// The statement an instruction's IR lifts to, or an inline-assembly
/// placeholder when it has no IR or its mnemonic is not supported.
pub fn lift_ir_to_statement(instr: &Instruction) -> (r: Statement)
    ensures
        r@ == lifted_ir_stmt(instr@),
{
    match instr {
        Instruction::X86(x) => {
            match &x.ir {
                Some(ir) => match ir_to_expression(ir) {
                    Some(e) => Statement::Expression(e),
                    None => Statement::InlineAsm { address: x.address, disasm: x.to_string() },
                },
                None => Statement::InlineAsm { address: x.address, disasm: x.to_string() },
            }
        },
    }
}

/// The expression an instruction's IR lifts to, when its mnemonic is supported.
pub fn ir_to_expression(ir: &InstructionIR) -> (r: Option<Expression>)
    ensures
        opt_expr_view(r) == ir_expression(ir@),
{
    let op = chars_of(ir.op.as_str());
    if eq_str(&op, "add") || eq_str(&op, "sub") || eq_str(&op, "and") || eq_str(&op, "or")
        || eq_str(&op, "xor") || eq_str(&op, "shl") || eq_str(&op, "shr") || eq_str(&op, "lea")
        || eq_str(&op, "imul") {
        binary_arithmetic(ir)
    } else if eq_str(&op, "inc") || eq_str(&op, "dec") {
        inc_dec(ir)
    } else if eq_str(&op, "neg") || eq_str(&op, "not") {
        unary_arithmetic(ir)
    } else if eq_str(&op, "mov") || eq_str(&op, "movzx") || eq_str(&op, "movsxd") {
        simple_mov(ir)
    } else {
        None
    }
}

fn binary_arithmetic(ir: &InstructionIR) -> (r: Option<Expression>)
    ensures
        opt_expr_view(r) == binary_expr(ir@),
{
    if ir.operands.len() < 2 {
        return None;
    }
    assert(ir@.operands[0] == ir.operands@[0]@ && ir@.operands[1] == ir.operands@[1]@);
    let op = match mnemonic_to_binary_op(ir.op.as_str()) {
        Some(o) => o,
        None => {
            return None;
        },
    };
    let left_expr = match operand_to_expr(&ir.operands[0]) {
        Some(e) => e,
        None => {
            return None;
        },
    };
    let right_expr = match operand_to_expr(&ir.operands[1]) {
        Some(e) => e,
        None => {
            return None;
        },
    };
    let target = clone_expr(&left_expr);
    proof {
        reveal_with_fuel(expr_v, 2);
    }
    let r = Expression::Assignment {
        target: Box::new(target),
        value: Box::new(
            Expression::BinaryOperation {
                op,
                left: Box::new(left_expr),
                right: Box::new(right_expr),
            },
        ),
    };
    Some(r)
}

fn mnemonic_to_binary_op(mnemonic: &str) -> (r: Option<BinaryOperator>)
    ensures
        r == binary_op_of(mnemonic@),
{
    let m = chars_of(mnemonic);
    if eq_str(&m, "add") || eq_str(&m, "lea") {
        Some(BinaryOperator::Add)
    } else if eq_str(&m, "sub") {
        Some(BinaryOperator::Subtract)
    } else if eq_str(&m, "and") {
        Some(BinaryOperator::BitwiseAnd)
    } else if eq_str(&m, "or") {
        Some(BinaryOperator::BitwiseOr)
    } else if eq_str(&m, "xor") {
        Some(BinaryOperator::BitwiseXor)
    } else if eq_str(&m, "shl") {
        Some(BinaryOperator::LeftShift)
    } else if eq_str(&m, "shr") {
        Some(BinaryOperator::RightShift)
    } else if eq_str(&m, "imul") {
        Some(BinaryOperator::Multiply)
    } else {
        None
    }
}

fn inc_dec(ir: &InstructionIR) -> (r: Option<Expression>)
    ensures
        opt_expr_view(r) == inc_dec_expr(ir@),
{
    if ir.operands.len() < 1 {
        return None;
    }
    assert(ir@.operands[0] == ir.operands@[0]@);
    let expr = match operand_to_expr(&ir.operands[0]) {
        Some(e) => e,
        None => {
            return None;
        },
    };
    let op = if eq_str(&chars_of(ir.op.as_str()), "inc") {
        BinaryOperator::Add
    } else {
        BinaryOperator::Subtract
    };
    let target = clone_expr(&expr);
    proof {
        reveal_with_fuel(expr_v, 3);
    }
    Some(
        Expression::Assignment {
            target: Box::new(target),
            value: Box::new(
                Expression::BinaryOperation {
                    op,
                    left: Box::new(expr),
                    right: Box::new(Expression::IntegerLiteral(1)),
                },
            ),
        },
    )
}

fn unary_arithmetic(ir: &InstructionIR) -> (r: Option<Expression>)
    ensures
        opt_expr_view(r) == unary_expr(ir@),
{
    if ir.operands.len() < 1 {
        return None;
    }
    assert(ir@.operands[0] == ir.operands@[0]@);
    let expr = match operand_to_expr(&ir.operands[0]) {
        Some(e) => e,
        None => {
            return None;
        },
    };
    let op = if eq_str(&chars_of(ir.op.as_str()), "neg") {
        UnaryOperator::Negate
    } else {
        UnaryOperator::BitwiseNot
    };
    let target = clone_expr(&expr);
    proof {
        reveal_with_fuel(expr_v, 2);
    }
    Some(
        Expression::Assignment {
            target: Box::new(target),
            value: Box::new(Expression::UnaryOperation { op, operand: Box::new(expr) }),
        },
    )
}

fn simple_mov(ir: &InstructionIR) -> (r: Option<Expression>)
    ensures
        opt_expr_view(r) == mov_expr(ir@),
{
    if ir.operands.len() < 2 {
        return None;
    }
    assert(ir@.operands[0] == ir.operands@[0]@ && ir@.operands[1] == ir.operands@[1]@);
    let target_expr = match operand_to_expr(&ir.operands[0]) {
        Some(e) => e,
        None => {
            return None;
        },
    };
    let value_expr = match operand_to_expr(&ir.operands[1]) {
        Some(e) => e,
        None => {
            return None;
        },
    };
    Some(Expression::Assignment { target: Box::new(target_expr), value: Box::new(value_expr) })
}

fn operand_to_expr(operand: &Operand) -> (r: Option<Expression>)
    ensures
        opt_expr_view(r) == operand_expr(operand@),
{
    match operand {
        Operand::Reg(r) => Some(Expression::Variable(canonicalize_reg_name(r.as_str()))),
        Operand::Imm(v) => Some(Expression::IntegerLiteral(*v)),
        Operand::Mem(mem) => stack_var_or_lea(mem),
        Operand::Other(_) => None,
    }
}

/// A stack variable for a frame slot; `None` for any other memory operand,
/// among them any with an index register or a scale above 1, so that the
/// caller falls back to inline assembly.
fn stack_var_or_lea(mem: &MemoryOperand) -> (r: Option<Expression>)
    ensures
        opt_expr_view(r) == match stack_slot_name(mem@) {
            Some(n) => Some(ExprV::Variable(n)),
            None => None,
        },
{
    if mem.index.is_some() || mem.scale > 1 {
        return None;
    }
    match &mem.base {
        Some(base) => {
            let lower = lower_chars(&chars_of(base.as_str()));
            let frame = eq_str(&lower, "rbp") || eq_str(&lower, "ebp");
            let stack = eq_str(&lower, "rsp") || eq_str(&lower, "esp");
            if !frame && !stack {
                return None;
            }
            let prefix = if frame {
                if mem.disp < 0 {
                    "local_"
                } else {
                    "arg_"
                }
            } else if mem.disp < 0 {
                "stack_m_"
            } else {
                "stack_"
            };
            let offset: u64 = if mem.disp == i64::MIN {
                9223372036854775808u64
            } else if mem.disp < 0 {
                (-mem.disp) as u64
            } else {
                mem.disp as u64
            };
            let mut v: Vec<char> = Vec::new();
            extend_chars(&mut v, prefix);
            push_hex(&mut v, offset, false);
            Some(Expression::Variable(string_of(&v)))
        },
        None => None,
    }
}

/// A register name with its width alias collapsed to the 64-bit register;
/// any other text is returned lower-cased.
pub fn canonicalize_reg_name(value: &str) -> (r: String)
    ensures
        r@ == canonical_reg(lower_seq(value@)),
{
    canonical_register_name(value)
}

} // verus!
