//! Conservative AST structuring pass.
//!
//! The lifter starts with one statement per instruction. This pass upgrades
//! only instructions whose meaning is unambiguous (returns, register and stack
//! moves, self-xors) and recovers branch conditions from a `cmp`/`test`
//! followed by a conditional jump; everything else stays an address-anchored
//! placeholder.

use crate::analysis::types::{TypeInfo, TypeV};
use crate::decompiler::ast::{
    clone_stmt, expr_v, opt_expr_view, stmt_v, stmts_v, BinaryOperator, ExprV, Expression, Function,
    FunctionV, StmtV, Statement,
};
use crate::decompiler::c_syntax::{sanitize_comment_chars, sanitize_comment_seq};
use crate::decompiler::lifter::{abs_disp, all_hex, all_hex_exec, operand_expr, stack_slot_name};
use crate::decompiler::signatures::names_of;
use crate::decompiler::registers::{canonical_reg, canonical_register_name, register_class, register_class_exec};
use crate::disasm::ir::{
    InstructionIR, InstructionIRV, MemoryOperand, MemoryOperandV, Operand, OperandV, opt_str_v,
};
use crate::text::{
    all_digits, chars_of, eq_ignore_case, eq_ignore_case_exec, eq_str, extend_chars, extend_slice,
    hex_text, int_text, is_hex_digit, is_hex_digit_exec, is_ws, is_ws_exec, lower_chars, lower_seq,
    parse_i64_radix, parse_i64_spec, push_hex, push_int, slice_chars, starts_with,
    starts_with_exec, string_of, trim, trim_exec, trim_start, trim_start_exec, digits_value,
    digit_value, trim_end,
};
pub use crate::decompiler::branches::{
    arm_slices_fit_exec, structure_function_with_cfg, structure_function_with_cfg_checked,
    structure_functions_with_cfg,
};
use vstd::prelude::*;

verus! {

// ---------------------------------------------------------------------------
// Splitting instruction text
// ---------------------------------------------------------------------------

/// The first index from `i` on whose character is whitespace, or the length.
pub open spec fn first_ws_from(s: Seq<char>, i: int) -> int
    decreases s.len() - i,
{
    if i < 0 || i >= s.len() || is_ws(s[i]) {
        i
    } else {
        first_ws_from(s, i + 1)
    }
}

/// The first index from `i` on holding `c`, or the length.
pub open spec fn first_char_from(s: Seq<char>, c: char, i: int) -> int
    decreases s.len() - i,
{
    if i < 0 || i >= s.len() || s[i] == c {
        i
    } else {
        first_char_from(s, c, i + 1)
    }
}

/// The lower-cased first whitespace-separated word of a text.
pub open spec fn first_word_lower(d: Seq<char>) -> Seq<char> {
    let t = trim_start(d);
    lower_seq(t.subrange(0, first_ws_from(t, 0)))
}

/// Whether an instruction text is a return (its operands, such as a stack
/// adjustment, do not matter).
pub open spec fn is_void_return_spec(d: Seq<char>) -> bool {
    let m = first_word_lower(d);
    m == "ret"@ || m == "retn"@ || m == "retf"@ || m == "iret"@ || m == "iretd"@ || m == "iretq"@
        || m == "eret"@
}

/// The lower-cased mnemonic and the trimmed operand text of an instruction
/// text; `None` for blank text.
pub open spec fn split_instruction_spec(d: Seq<char>) -> Option<(Seq<char>, Seq<char>)> {
    let t = trim(d);
    if t.len() == 0 {
        None
    } else {
        let k = first_ws_from(t, 0);
        Some(
            (
                lower_seq(t.subrange(0, k)),
                if k < t.len() {
                    trim(t.subrange(k + 1, t.len() as int))
                } else {
                    seq![]
                },
            ),
        )
    }
}

/// The trimmed text before and after the first comma, when both are nonempty.
pub open spec fn split_operands_spec(s: Seq<char>) -> Option<(Seq<char>, Seq<char>)> {
    let c = first_char_from(s, ',', 0);
    if c >= s.len() {
        None
    } else {
        let l = trim(s.subrange(0, c));
        let r = trim(s.subrange(c + 1, s.len() as int));
        if l.len() == 0 || r.len() == 0 {
            None
        } else {
            Some((l, r))
        }
    }
}

fn first_ws_index(s: &[char], from: usize) -> (r: usize)
    requires
        from <= s@.len(),
    ensures
        r as int == first_ws_from(s@, from as int),
        from <= r <= s@.len(),
{
    let mut i = from;
    while i < s.len() && !is_ws_exec(s[i])
        invariant
            from <= i <= s@.len(),
            first_ws_from(s@, from as int) == first_ws_from(s@, i as int),
        decreases s@.len() - i,
    {
        i = i + 1;
    }
    i
}

fn first_char_index(s: &[char], c: char, from: usize) -> (r: usize)
    requires
        from <= s@.len(),
    ensures
        r as int == first_char_from(s@, c, from as int),
        from <= r <= s@.len(),
{
    let mut i = from;
    while i < s.len() && s[i] != c
        invariant
            from <= i <= s@.len(),
            first_char_from(s@, c, from as int) == first_char_from(s@, c, i as int),
        decreases s@.len() - i,
    {
        i = i + 1;
    }
    i
}

/// Whether an instruction text is a return.
pub fn is_void_return(disasm: &str) -> (r: bool)
    ensures
        r == is_void_return_spec(disasm@),
{
    let t = trim_start_exec(&chars_of(disasm));
    let k = first_ws_index(&t, 0);
    let m = lower_chars(&slice_chars(&t, 0, k));
    eq_str(&m, "ret") || eq_str(&m, "retn") || eq_str(&m, "retf") || eq_str(&m, "iret") || eq_str(
        &m,
        "iretd",
    ) || eq_str(&m, "iretq") || eq_str(&m, "eret")
}

/// The lower-cased mnemonic and trimmed operands of an instruction text.
pub fn split_instruction(disasm: &str) -> (r: Option<(String, String)>)
    ensures
        match r {
            Some((m, o)) => split_instruction_spec(disasm@) == Some((m@, o@)),
            None => split_instruction_spec(disasm@) is None,
        },
{
    let t = trim_exec(&chars_of(disasm));
    if t.len() == 0 {
        return None;
    }
    let k = first_ws_index(&t, 0);
    let mnemonic = lower_chars(&slice_chars(&t, 0, k));
    let operands: Vec<char> = if k < t.len() {
        trim_exec(&slice_chars(&t, k + 1, t.len()))
    } else {
        Vec::new()
    };
    proof {
        if k >= t@.len() {
            assert(operands@ =~= seq![]);
        }
    }
    Some((string_of(&mnemonic), string_of(&operands)))
}

/// The trimmed operands before and after the first comma.
pub fn split_operands(operands: &str) -> (r: Option<(String, String)>)
    ensures
        match r {
            Some((a, b)) => split_operands_spec(operands@) == Some((a@, b@)),
            None => split_operands_spec(operands@) is None,
        },
{
    let s = chars_of(operands);
    let c = first_char_index(&s, ',', 0);
    if c >= s.len() {
        return None;
    }
    let left = trim_exec(&slice_chars(&s, 0, c));
    let right = trim_exec(&slice_chars(&s, c + 1, s.len()));
    if left.len() == 0 || right.len() == 0 {
        return None;
    }
    Some((string_of(&left), string_of(&right)))
}

// ---------------------------------------------------------------------------
// Registers, stack slots and literals in operand text
// ---------------------------------------------------------------------------

/// Whether a text names a general-purpose register of any width.
pub open spec fn is_register_name_spec(v: Seq<char>) -> bool {
    register_class(lower_seq(v)) is Some
}

/// Whether a name is one this pass gives to stack slots.
pub open spec fn is_stack_variable_name_spec(v: Seq<char>) -> bool {
    let l = lower_seq(v);
    starts_with(l, "local_"@) || starts_with(l, "arg_"@) || starts_with(l, "stack_"@)
}

pub fn is_register_name(value: &str) -> (r: bool)
    ensures
        r == is_register_name_spec(value@),
{
    let lower = lower_chars(&chars_of(value));
    register_class_exec(&lower).is_some()
}

pub fn is_stack_variable_name(value: &str) -> (r: bool)
    ensures
        r == is_stack_variable_name_spec(value@),
{
    let lower = lower_chars(&chars_of(value));
    starts_with_exec(&lower, "local_") || starts_with_exec(&lower, "arg_") || starts_with_exec(
        &lower,
        "stack_",
    )
}

/// A register name with its width alias collapsed; other text lower-cased.
pub fn canonicalize_register_name(value: &str) -> (r: String)
    ensures
        r@ == canonical_reg(lower_seq(value@)),
{
    canonical_register_name(value)
}

pub open spec fn size_prefixes() -> Seq<Seq<char>> {
    seq![
        "byte ptr "@,
        "word ptr "@,
        "dword ptr "@,
        "qword ptr "@,
        "tword ptr "@,
        "oword ptr "@,
        "xmmword ptr "@,
        "ymmword ptr "@,
        "zmmword ptr "@,
    ]
}

/// The text without the first size prefix of the list (from `k` on) that it
/// starts with, trimmed; unchanged when none matches.
pub open spec fn strip_first_prefix(n: Seq<char>, ps: Seq<Seq<char>>, k: int) -> Seq<char>
    decreases ps.len() - k,
{
    if k < 0 || k >= ps.len() {
        n
    } else if starts_with(n, ps[k]) {
        trim(n.subrange(ps[k].len() as int, n.len() as int))
    } else {
        strip_first_prefix(n, ps, k + 1)
    }
}

/// The inside of a bracketed memory operand, lower-cased, after a size prefix.
pub open spec fn normalize_memory_operand_spec(op: Seq<char>) -> Option<Seq<char>> {
    let n = strip_first_prefix(lower_seq(trim(op)), size_prefixes(), 0);
    if n.len() >= 2 && n[0] == '[' && n.last() == ']' {
        Some(n.subrange(1, n.len() - 1))
    } else {
        None
    }
}

pub open spec fn remove_spaces(s: Seq<char>) -> Seq<char>
    decreases s.len(),
{
    if s.len() == 0 {
        s
    } else if s.last() == ' ' {
        remove_spaces(s.drop_last())
    } else {
        remove_spaces(s.drop_last()).push(s.last())
    }
}

/// The number of leading `0` characters from position `i` on.
pub open spec fn zeros_end(s: Seq<char>, i: int) -> int
    decreases s.len() - i,
{
    if 0 <= i < s.len() && s[i] == '0' {
        zeros_end(s, i + 1)
    } else {
        i
    }
}

/// An offset as a stack-variable suffix: hex digits without `0x`/`h` and
/// leading zeros, lower-cased (`0` for zero).
pub open spec fn normalized_offset_component_spec(o: Seq<char>) -> Option<Seq<char>> {
    let t = trim(o);
    if t.len() == 0 {
        None
    } else {
        let a = if starts_with(t, "0x"@) || starts_with(t, "0X"@) {
            t.subrange(2, t.len() as int)
        } else {
            t
        };
        let b = if a.len() > 0 && (a.last() == 'h' || a.last() == 'H') {
            a.drop_last()
        } else {
            a
        };
        let c = b.subrange(zeros_end(b, 0), b.len() as int);
        if c.len() == 0 {
            Some("0"@)
        } else if all_hex(c) {
            Some(lower_seq(c))
        } else {
            None
        }
    }
}

/// `neg_` or `pos_` prefix by the sign of the offset, then `_` and the offset.
pub open spec fn stack_name_from_offset_spec(rest: Seq<char>, neg: Seq<char>, pos: Seq<char>) -> Option<
    Seq<char>,
> {
    if rest.len() == 0 || (rest[0] != '-' && rest[0] != '+') {
        None
    } else {
        match normalized_offset_component_spec(rest.subrange(1, rest.len() as int)) {
            Some(c) => Some((if rest[0] == '-' {
                neg
            } else {
                pos
            }) + "_"@ + c),
            None => None,
        }
    }
}

/// The variable a frame-relative memory operand text names.
pub open spec fn stack_variable_name_spec(op: Seq<char>) -> Option<Seq<char>> {
    match normalize_memory_operand_spec(op) {
        Some(m) => {
            let c = remove_spaces(m);
            if starts_with(c, "rbp"@) || starts_with(c, "ebp"@) {
                stack_name_from_offset_spec(c.subrange(3, c.len() as int), "local"@, "arg"@)
            } else if starts_with(c, "rsp"@) || starts_with(c, "esp"@) {
                stack_name_from_offset_spec(c.subrange(3, c.len() as int), "stack_m"@, "stack"@)
            } else {
                None
            }
        },
        None => None,
    }
}

pub open spec fn neg_wrap(p: i64) -> i64 {
    if p == i64::MIN {
        i64::MIN
    } else {
        (-p) as i64
    }
}

/// A signed integer literal: decimal, `0x`-prefixed hex or `h`-suffixed hex,
/// with an optional leading minus (negation wraps, as in release builds).
pub open spec fn parse_integer_literal_spec(v: Seq<char>) -> Option<i64> {
    let t = trim(v);
    let neg = t.len() > 0 && t[0] == '-';
    let u = if neg {
        t.subrange(1, t.len() as int)
    } else {
        t
    };
    let parsed = if starts_with(u, "0x"@) || starts_with(u, "0X"@) {
        parse_i64_spec(u.subrange(2, u.len() as int), 16)
    } else if u.len() > 0 && (u.last() == 'h' || u.last() == 'H') {
        parse_i64_spec(u.drop_last(), 16)
    } else {
        parse_i64_spec(u, 10)
    };
    match parsed {
        Some(p) => Some(if neg {
            neg_wrap(p)
        } else {
            p
        }),
        None => None,
    }
}

/// A text that neither starts nor ends with whitespace is its own trim.
proof fn lemma_trim_unchanged(t: Seq<char>)
    requires
        t.len() > 0,
        !is_ws(t[0]),
        !is_ws(t.last()),
    ensures
        trim(t) == t,
{
    assert(trim_start(t) == t);
    assert(trim_end(t) == t);
}

/// Digits of radix 16 read as an `i64` when their value fits.
proof fn lemma_parse_hex_digits(d: Seq<char>)
    requires
        d.len() > 0,
        forall|i: int| 0 <= i < d.len() ==> is_hex_digit(#[trigger] d[i]),
        digits_value(d, 16) <= i64::MAX,
    ensures
        parse_i64_spec(d, 16) == Some(digits_value(d, 16) as i64),
        digits_value(d, 16) >= 0,
{
    assert(all_digits(d, 16)) by {
        assert forall|i: int| 0 <= i < d.len() implies crate::text::is_digit_in(#[trigger] d[i], 16) by {
            assert(is_hex_digit(d[i]));
        }
    }
    crate::text::lemma_digits_value_nonneg(d, 16);
    assert(is_hex_digit(d[0]));
}

/// Text without spaces loses nothing when spaces are removed.
proof fn lemma_remove_spaces_none(s: Seq<char>)
    requires
        forall|i: int| 0 <= i < s.len() ==> #[trigger] s[i] != ' ',
    ensures
        remove_spaces(s) == s,
    decreases s.len(),
{
    if s.len() > 0 {
        lemma_remove_spaces_none(s.drop_last());
        assert(s.drop_last().push(s.last()) =~= s);
    }
}

/// No size prefix matches a text that starts with `[`.
proof fn lemma_no_size_prefix(n: Seq<char>, k: int)
    requires
        n.len() > 0,
        n[0] == '[',
        0 <= k,
    ensures
        strip_first_prefix(n, size_prefixes(), k) == n,
    decreases size_prefixes().len() - k,
{
    reveal_strlit("byte ptr ");
    reveal_strlit("word ptr ");
    reveal_strlit("dword ptr ");
    reveal_strlit("qword ptr ");
    reveal_strlit("tword ptr ");
    reveal_strlit("oword ptr ");
    reveal_strlit("xmmword ptr ");
    reveal_strlit("ymmword ptr ");
    reveal_strlit("zmmword ptr ");
    let ps = size_prefixes();
    if k < ps.len() {
        assert(ps[k].len() > 0 && ps[k][0] != '[');
        if starts_with(n, ps[k]) {
            assert(n.subrange(0, ps[k].len() as int)[0] == n[0]);
        }
        lemma_no_size_prefix(n, k + 1);
    }
}

pub open spec fn lower_hex_digit(c: char) -> bool {
    ('0' <= c && c <= '9') || ('a' <= c && c <= 'f')
}

/// Lower-case hex digits without a leading zero.
pub open spec fn canonical_hex_digits(d: Seq<char>) -> bool {
    &&& d.len() > 0
    &&& d[0] != '0'
    &&& forall|i: int| 0 <= i < d.len() ==> lower_hex_digit(#[trigger] d[i])
}

/// The offset spelled as hex digits `d`, as `0x` then `d`, or as `d` then `h`,
/// reads back as `d`.
proof fn lemma_offset_component(d: Seq<char>, sp: Seq<char>)
    requires
        canonical_hex_digits(d),
        sp == d || sp == seq!['0', 'x'] + d || sp == d + seq!['h'],
    ensures
        normalized_offset_component_spec(sp) == Some(d),
{
    reveal_strlit("0x");
    reveal_strlit("0X");
    assert("0x"@ =~= seq!['0', 'x']);
    assert("0X"@ =~= seq!['0', 'X']);
    assert(lower_hex_digit(d[0]));
    assert(lower_hex_digit(d[d.len() - 1]));
    assert(sp[0] == '0' || sp[0] == d[0]);
    assert(sp.last() == 'h' || sp.last() == d.last());
    lemma_trim_unchanged(sp);
    let a = if starts_with(sp, "0x"@) || starts_with(sp, "0X"@) {
        sp.subrange(2, sp.len() as int)
    } else {
        sp
    };
    if sp == seq!['0', 'x'] + d {
        assert(sp.subrange(0, 2) =~= "0x"@);
        assert(a =~= d);
    } else {
        if starts_with(sp, "0x"@) || starts_with(sp, "0X"@) {
            assert(sp.subrange(0, 2)[0] == sp[0]);
            assert(sp[0] == d[0]);
        }
        assert(a == sp);
    }
    let b = if a.len() > 0 && (a.last() == 'h' || a.last() == 'H') {
        a.drop_last()
    } else {
        a
    };
    if sp == d + seq!['h'] {
        assert(a.last() == 'h');
        assert(b =~= d);
    } else {
        assert(a == d);
        assert(b == d);
    }
    assert(zeros_end(d, 0) == 0);
    assert(d.subrange(0, d.len() as int) =~= d);
    assert(all_hex(d)) by {
        assert forall|k: int| 0 <= k < d.len() implies is_hex_digit(#[trigger] d[k]) by {
            assert(lower_hex_digit(d[k]));
        }
    }
    assert(lower_seq(d) =~= d) by {
        assert forall|k: int| 0 <= k < d.len() implies #[trigger] lower_seq(d)[k] == d[k] by {
            assert(lower_hex_digit(d[k]));
        }
    }
}

/// The inside of `[inner]`, for a lower-case `inner` without spaces, is
/// `inner` itself.
proof fn lemma_bracketed_inside(inner: Seq<char>)
    requires
        forall|i: int| 0 <= i < inner.len() ==> #[trigger] inner[i] != ' ' && !('A' <= inner[i]
            && inner[i] <= 'Z'),
    ensures
        normalize_memory_operand_spec(seq!['['] + inner + seq![']']) == Some(inner),
        remove_spaces(inner) == inner,
{
    let op = seq!['['] + inner + seq![']'];
    lemma_trim_unchanged(op);
    assert(lower_seq(op) =~= op) by {
        assert forall|k: int| 0 <= k < op.len() implies #[trigger] lower_seq(op)[k] == op[k] by {
            if 1 <= k < op.len() - 1 {
                assert(op[k] == inner[k - 1]);
            }
        }
    }
    lemma_no_size_prefix(op, 0);
    assert(op.subrange(1, op.len() - 1) =~= inner);
    lemma_remove_spaces_none(inner);
}

/// Law: a frame-relative memory operand `[base sign offset]` names a stack
/// variable after its base, sign and offset: below `rbp`/`ebp` a `local_`,
/// above it an `arg_`; below `rsp`/`esp` a `stack_m_`, above it a `stack_`;
/// then the offset's hex digits, whether it is written plain, with `0x`
/// before or with `h` after (for example `[rbp-0x10]` and `[rbp-10h]` are
/// both `local_10`).
#[verifier::spinoff_prover]
pub proof fn lemma_stack_variable_names(base: Seq<char>, sg: char, d: Seq<char>, sp: Seq<char>)
    requires
        base == "rbp"@ || base == "ebp"@ || base == "rsp"@ || base == "esp"@,
        sg == '-' || sg == '+',
        canonical_hex_digits(d),
        sp == d || sp == seq!['0', 'x'] + d || sp == d + seq!['h'],
    ensures
        ({
            let name = stack_variable_name_spec(seq!['['] + base + seq![sg] + sp + seq![']']);
            &&& (base == "rbp"@ || base == "ebp"@) && sg == '-' ==> name == Some("local_"@ + d)
            &&& (base == "rbp"@ || base == "ebp"@) && sg == '+' ==> name == Some("arg_"@ + d)
            &&& (base == "rsp"@ || base == "esp"@) && sg == '-' ==> name == Some("stack_m_"@ + d)
            &&& (base == "rsp"@ || base == "esp"@) && sg == '+' ==> name == Some("stack_"@ + d)
        }),
{
    reveal_strlit("rbp");
    reveal_strlit("ebp");
    reveal_strlit("rsp");
    reveal_strlit("esp");
    reveal_strlit("local");
    reveal_strlit("arg");
    reveal_strlit("stack_m");
    reveal_strlit("stack");
    reveal_strlit("_");
    reveal_strlit("local_");
    reveal_strlit("arg_");
    reveal_strlit("stack_m_");
    reveal_strlit("stack_");
    let inner = base + seq![sg] + sp;
    assert(seq!['['] + base + seq![sg] + sp + seq![']'] =~= seq!['['] + inner + seq![']']);
    assert(base.len() == 3);
    assert(forall|i: int| 0 <= i < sp.len() ==> lower_hex_digit(#[trigger] sp[i]) || sp[i] == 'x'
        || sp[i] == 'h') by {
        assert forall|i: int| 0 <= i < sp.len() implies lower_hex_digit(#[trigger] sp[i])
            || sp[i] == 'x' || sp[i] == 'h' by {
            if sp == seq!['0', 'x'] + d {
                if i >= 2 {
                    assert(sp[i] == d[i - 2]);
                }
            } else if sp == d + seq!['h'] {
                if i < d.len() {
                    assert(sp[i] == d[i]);
                }
            } else {
                assert(sp[i] == d[i]);
            }
        }
    }
    assert(forall|i: int| 0 <= i < inner.len() ==> #[trigger] inner[i] != ' ' && !('A' <= inner[i]
        && inner[i] <= 'Z')) by {
        assert forall|i: int| 0 <= i < inner.len() implies #[trigger] inner[i] != ' ' && !('A'
            <= inner[i] && inner[i] <= 'Z') by {
            if i < 3 {
                assert(inner[i] == base[i]);
            } else if i == 3 {
                assert(inner[i] == sg);
            } else {
                assert(inner[i] == sp[i - 4]);
            }
        }
    }
    lemma_bracketed_inside(inner);
    let c = remove_spaces(inner);
    assert(c.subrange(0, 3) =~= base);
    assert(c.subrange(0, 3)[1] == c[1]);
    let rest = c.subrange(3, c.len() as int);
    assert(rest =~= seq![sg] + sp);
    assert(rest.subrange(1, rest.len() as int) =~= sp);
    lemma_offset_component(d, sp);
    assert("local"@ + "_"@ + d =~= "local_"@ + d);
    assert("arg"@ + "_"@ + d =~= "arg_"@ + d);
    assert("stack_m"@ + "_"@ + d =~= "stack_m_"@ + d);
    assert("stack"@ + "_"@ + d =~= "stack_"@ + d);
}

/// Canonical hex digits are the lower-case hex spelling of their value.
proof fn lemma_hex_text_of_digits(d: Seq<char>)
    requires
        canonical_hex_digits(d),
    ensures
        digits_value(d, 16) >= 1,
        hex_text(digits_value(d, 16) as nat, false) == d,
    decreases d.len(),
{
    let x = digit_value(d.last());
    assert(lower_hex_digit(d[d.len() - 1]));
    assert(0 <= x < 16);
    assert(crate::text::digit_char(x as nat, false) == d.last());
    if d.len() == 1 {
        assert(d.drop_last().len() == 0);
        assert(digits_value(d.drop_last(), 16) == 0);
        assert(digits_value(d, 16) == digits_value(d.drop_last(), 16) * 16 + x);
        assert(digits_value(d, 16) == x);
        assert(d.last() == d[0]);
        assert(x >= 1);
        assert(seq![d.last()] =~= d);
    } else {
        let dl = d.drop_last();
        assert(dl[0] == d[0]);
        assert(forall|i: int| 0 <= i < dl.len() ==> lower_hex_digit(#[trigger] dl[i])) by {
            assert forall|i: int| 0 <= i < dl.len() implies lower_hex_digit(#[trigger] dl[i]) by {
                assert(dl[i] == d[i]);
            }
        }
        lemma_hex_text_of_digits(dl);
        let a = digits_value(dl, 16);
        let v = digits_value(d, 16);
        assert(v == a * 16 + x);
        assert(v / 16 == a && v % 16 == x) by (nonlinear_arith)
            requires
                v == a * 16 + x,
                0 <= x < 16,
        ;
        assert(v >= 16);
        assert(hex_text(v as nat, false) == hex_text((v / 16) as nat, false).push(
            crate::text::digit_char((v % 16) as nat, false),
        ));
        assert(dl.push(d.last()) =~= d);
    }
}

/// Law: the lifter, which names a frame slot from the decoded operand, and
/// structure recovery, which names it from the operand's text, agree: a
/// memory operand on `rbp`, `ebp`, `rsp` or `esp` with no index and a
/// nonzero displacement gets the same variable name as the text
/// `[base-d]` or `[base+d]` that spells its displacement in hex.
pub proof fn lemma_frame_slot_names_agree(
    m: MemoryOperandV,
    base: Seq<char>,
    sg: char,
    d: Seq<char>,
    sp: Seq<char>,
)
    requires
        base == "rbp"@ || base == "ebp"@ || base == "rsp"@ || base == "esp"@,
        sg == '-' || sg == '+',
        canonical_hex_digits(d),
        sp == d || sp == seq!['0', 'x'] + d || sp == d + seq!['h'],
        digits_value(d, 16) <= i64::MAX,
        m.base == Some(base),
        m.index is None,
        m.scale <= 1,
        m.disp == (if sg == '-' { -digits_value(d, 16) } else { digits_value(d, 16) }),
    ensures
        stack_slot_name(m) == stack_variable_name_spec(seq!['['] + base + seq![sg] + sp + seq![']']),
        stack_slot_name(m) is Some,
{
    reveal_strlit("rbp");
    reveal_strlit("ebp");
    reveal_strlit("rsp");
    reveal_strlit("esp");
    lemma_hex_text_of_digits(d);
    lemma_stack_variable_names(base, sg, d, sp);
    assert(lower_seq(base) =~= base);
    assert(abs_disp(m.disp) == digits_value(d, 16));
}

/// Law: a `0x`- or `0X`-prefixed literal denotes the base-16 value of its
/// digits, and a leading `-` negates it; for example `0x10` is 16 and `0xff`
/// is 255.
pub proof fn lemma_hex_literal_value(d: Seq<char>, x: char)
    requires
        d.len() > 0,
        forall|i: int| 0 <= i < d.len() ==> is_hex_digit(#[trigger] d[i]),
        digits_value(d, 16) <= i64::MAX,
        x == 'x' || x == 'X',
    ensures
        parse_integer_literal_spec(seq!['0', x] + d) == Some(digits_value(d, 16) as i64),
        parse_integer_literal_spec(seq!['-', '0', x] + d) == Some((-digits_value(d, 16)) as i64),
{
    reveal_strlit("0x");
    reveal_strlit("0X");
    lemma_parse_hex_digits(d);
    let u = seq!['0', x] + d;
    assert(is_hex_digit(d[d.len() - 1]));
    assert(u.last() == d[d.len() - 1]);
    lemma_trim_unchanged(u);
    assert(u.subrange(0, 2) =~= seq!['0', x]);
    assert("0x"@ =~= seq!['0', 'x']);
    assert("0X"@ =~= seq!['0', 'X']);
    assert(x == 'x' ==> starts_with(u, "0x"@));
    assert(x == 'X' ==> starts_with(u, "0X"@));
    assert(u.subrange(2, u.len() as int) =~= d);
    let n = seq!['-'] + u;
    assert(seq!['-', '0', x] + d =~= n);
    assert(n.last() == u.last());
    lemma_trim_unchanged(n);
    assert(n.subrange(1, n.len() as int) =~= u);
}

/// Law: a literal of decimal digits denotes their base-10 value; a trailing
/// `h` or `H` after hex digits makes them base 16.
pub proof fn lemma_decimal_and_h_literal_value(d: Seq<char>, h: char)
    requires
        d.len() > 0,
        forall|i: int| 0 <= i < d.len() ==> is_hex_digit(#[trigger] d[i]),
        digits_value(d, 16) <= i64::MAX,
        h == 'h' || h == 'H',
    ensures
        parse_integer_literal_spec(d + seq![h]) == Some(digits_value(d, 16) as i64),
        (forall|i: int| 0 <= i < d.len() ==> '0' <= #[trigger] d[i] <= '9') && digits_value(d, 10)
            <= i64::MAX ==> parse_integer_literal_spec(d) == Some(digits_value(d, 10) as i64),
{
    reveal_strlit("0x");
    reveal_strlit("0X");
    lemma_parse_hex_digits(d);
    let u = d + seq![h];
    assert(is_hex_digit(d[0]));
    assert(u[0] == d[0]);
    lemma_trim_unchanged(u);
    assert(u.drop_last() =~= d);
    if d.len() >= 2 {
        assert(u.subrange(0, 2)[1] == d[1]);
        assert(is_hex_digit(d[1]));
    }
    assert(!starts_with(u, "0x"@) && !starts_with(u, "0X"@)) by {
        if u.len() >= 2 {
            assert(u.subrange(0, 2)[1] == u[1]);
            if d.len() >= 2 {
                assert(u[1] == d[1]);
            } else {
                assert(u[1] == h);
            }
        }
    }
    if (forall|i: int| 0 <= i < d.len() ==> '0' <= #[trigger] d[i] <= '9') && digits_value(d, 10)
        <= i64::MAX {
        assert(d[d.len() - 1] == d.last());
        assert('0' <= d[d.len() - 1] <= '9');
        lemma_trim_unchanged(d);
        assert(all_digits(d, 10)) by {
            assert forall|i: int| 0 <= i < d.len() implies crate::text::is_digit_in(#[trigger] d[i], 10) by {
                assert('0' <= d[i] <= '9');
            }
        }
        crate::text::lemma_digits_value_nonneg(d, 10);
        assert('0' <= d[0] <= '9');
        assert(!starts_with(d, "0x"@) && !starts_with(d, "0X"@)) by {
            if d.len() >= 2 {
                assert(d.subrange(0, 2)[1] == d[1]);
                assert('0' <= d[1] <= '9');
            }
        }
    }
}

/// The expression an operand text stands for: a register, a stack slot, or
/// an integer literal.
pub open spec fn operand_expression_spec(op: Seq<char>) -> Option<ExprV> {
    let n = trim(op);
    if is_register_name_spec(n) {
        Some(ExprV::Variable(canonical_reg(lower_seq(n))))
    } else if stack_variable_name_spec(n) is Some {
        Some(ExprV::Variable(stack_variable_name_spec(n).unwrap()))
    } else {
        match parse_integer_literal_spec(n) {
            Some(v) => Some(ExprV::IntegerLiteral(v)),
            None => None,
        }
    }
}

/// The expression an assignment destination text stands for: a register or
/// a stack slot.
pub open spec fn assignment_target_spec(op: Seq<char>) -> Option<ExprV> {
    let n = trim(op);
    if is_register_name_spec(n) {
        Some(ExprV::Variable(canonical_reg(lower_seq(n))))
    } else {
        match stack_variable_name_spec(n) {
            Some(s) => Some(ExprV::Variable(s)),
            None => None,
        }
    }
}

pub open spec fn opt_string_view(s: Option<String>) -> Option<Seq<char>> {
    match s {
        Some(x) => Some(x@),
        None => None,
    }
}

fn normalize_memory_operand(operand: &str) -> (r: Option<Vec<char>>)
    ensures
        match r {
            Some(v) => normalize_memory_operand_spec(operand@) == Some(v@),
            None => normalize_memory_operand_spec(operand@) is None,
        },
{
    let n0 = lower_chars(&trim_exec(&chars_of(operand)));
    let prefixes: Vec<&str> = vec![
        "byte ptr ",
        "word ptr ",
        "dword ptr ",
        "qword ptr ",
        "tword ptr ",
        "oword ptr ",
        "xmmword ptr ",
        "ymmword ptr ",
        "zmmword ptr ",
    ];
    let ghost ps = size_prefixes();
    proof {
        assert(prefixes@.map_values(|p: &str| p@) =~= ps);
    }
    let mut n: Vec<char> = n0;
    let mut k: usize = 0;
    while k < prefixes.len()
        invariant
            k <= prefixes@.len() == ps.len(),
            prefixes@.map_values(|p: &str| p@) == ps,
            ps == size_prefixes(),
            n0@ == lower_seq(trim(operand@)),
            n@ == n0@,
            strip_first_prefix(n0@, ps, 0) == strip_first_prefix(n0@, ps, k as int),
        decreases prefixes@.len() - k,
    {
        let p = prefixes[k];
        assert(p@ == ps[k as int]);
        if starts_with_exec(&n, p) {
            let plen = p.unicode_len();
            let rest = trim_exec(&slice_chars(&n, plen, n.len()));
            assert(strip_first_prefix(n0@, ps, k as int) == rest@);
            return normalize_brackets(rest);
        }
        k = k + 1;
    }
    normalize_brackets(n)
}

fn normalize_brackets(n: Vec<char>) -> (r: Option<Vec<char>>)
    ensures
        match r {
            Some(v) => n@.len() >= 2 && n@[0] == '[' && n@.last() == ']' && v@ == n@.subrange(
                1,
                n@.len() - 1,
            ),
            None => !(n@.len() >= 2 && n@[0] == '[' && n@.last() == ']'),
        },
{
    if n.len() >= 2 && n[0] == '[' && n[n.len() - 1] == ']' {
        Some(slice_chars(&n, 1, n.len() - 1))
    } else {
        None
    }
}

fn remove_spaces_exec(s: &[char]) -> (r: Vec<char>)
    ensures
        r@ == remove_spaces(s@),
{
    let mut out: Vec<char> = Vec::new();
    let mut i: usize = 0;
    while i < s.len()
        invariant
            i <= s@.len(),
            out@ == remove_spaces(s@.take(i as int)),
        decreases s@.len() - i,
    {
        proof {
            assert(s@.take(i + 1).drop_last() =~= s@.take(i as int));
        }
        if s[i] != ' ' {
            out.push(s[i]);
        }
        i = i + 1;
    }
    proof {
        assert(s@.take(s@.len() as int) =~= s@);
    }
    out
}

/// The variable a frame-relative memory operand text names.
pub fn stack_variable_name(operand: &str) -> (r: Option<String>)
    ensures
        opt_string_view(r) == stack_variable_name_spec(operand@),
{
    let memory = match normalize_memory_operand(operand) {
        Some(m) => m,
        None => {
            return None;
        },
    };
    let compact = remove_spaces_exec(&memory);
    proof {
        reveal_strlit("rbp");
        reveal_strlit("ebp");
        reveal_strlit("rsp");
        reveal_strlit("esp");
    }
    if starts_with_exec(&compact, "rbp") || starts_with_exec(&compact, "ebp") {
        let rest = slice_chars(&compact, 3, compact.len());
        return stack_name_from_offset(&rest, "local", "arg");
    }
    if starts_with_exec(&compact, "rsp") || starts_with_exec(&compact, "esp") {
        let rest = slice_chars(&compact, 3, compact.len());
        return stack_name_from_offset(&rest, "stack_m", "stack");
    }
    None
}

fn stack_name_from_offset(rest: &[char], negative_prefix: &str, positive_prefix: &str) -> (r:
    Option<String>)
    ensures
        opt_string_view(r) == stack_name_from_offset_spec(rest@, negative_prefix@, positive_prefix@),
{
    if rest.len() == 0 || (rest[0] != '-' && rest[0] != '+') {
        return None;
    }
    let offset = slice_chars(rest, 1, rest.len());
    let component = match normalized_offset_component(&offset) {
        Some(c) => c,
        None => {
            return None;
        },
    };
    let mut out: Vec<char> = Vec::new();
    if rest[0] == '-' {
        extend_chars(&mut out, negative_prefix);
    } else {
        extend_chars(&mut out, positive_prefix);
    }
    out.push('_');
    extend_slice(&mut out, &component);
    proof {
        reveal_strlit("_");
    }
    Some(string_of(&out))
}

fn normalized_offset_component(offset: &[char]) -> (r: Option<Vec<char>>)
    ensures
        match r {
            Some(v) => normalized_offset_component_spec(offset@) == Some(v@),
            None => normalized_offset_component_spec(offset@) is None,
        },
{
    let t = trim_exec(offset);
    if t.len() == 0 {
        return None;
    }
    proof {
        reveal_strlit("0x");
        reveal_strlit("0X");
    }
    let a = if starts_with_exec(&t, "0x") || starts_with_exec(&t, "0X") {
        slice_chars(&t, 2, t.len())
    } else {
        slice_chars(&t, 0, t.len())
    };
    proof {
        assert(t@.subrange(0, t@.len() as int) =~= t@);
    }
    let b = if a.len() > 0 && (a[a.len() - 1] == 'h' || a[a.len() - 1] == 'H') {
        slice_chars(&a, 0, a.len() - 1)
    } else {
        slice_chars(&a, 0, a.len())
    };
    proof {
        assert(a@.subrange(0, a@.len() as int) =~= a@);
        assert(a@.len() > 0 ==> a@.subrange(0, a@.len() - 1) =~= a@.drop_last());
    }
    let mut z: usize = 0;
    while z < b.len() && b[z] == '0'
        invariant
            z <= b@.len(),
            zeros_end(b@, 0) == zeros_end(b@, z as int),
        decreases b@.len() - z,
    {
        z = z + 1;
    }
    let c = slice_chars(&b, z, b.len());
    if c.len() == 0 {
        let mut zero: Vec<char> = Vec::new();
        zero.push('0');
        proof {
            reveal_strlit("0");
            assert(zero@ =~= "0"@);
        }
        return Some(zero);
    }
    if !all_hex_exec(&c) {
        return None;
    }
    Some(lower_chars(&c))
}

/// A signed integer literal in decimal, `0x` hex or `h`-suffixed hex.
pub fn parse_integer_literal(value: &str) -> (r: Option<i64>)
    ensures
        r == parse_integer_literal_spec(value@),
{
    let t = trim_exec(&chars_of(value));
    let neg = t.len() > 0 && t[0] == '-';
    let u = if neg {
        slice_chars(&t, 1, t.len())
    } else {
        slice_chars(&t, 0, t.len())
    };
    proof {
        assert(t@.subrange(0, t@.len() as int) =~= t@);
        reveal_strlit("0x");
        reveal_strlit("0X");
    }
    let parsed = if starts_with_exec(&u, "0x") || starts_with_exec(&u, "0X") {
        parse_i64_radix(&slice_chars(&u, 2, u.len()), 16)
    } else if u.len() > 0 && (u[u.len() - 1] == 'h' || u[u.len() - 1] == 'H') {
        let d = slice_chars(&u, 0, u.len() - 1);
        proof {
            assert(d@ =~= u@.drop_last());
        }
        parse_i64_radix(&d, 16)
    } else {
        parse_i64_radix(&u, 10)
    };
    match parsed {
        Some(p) => Some(
            if neg {
                if p == i64::MIN {
                    i64::MIN
                } else {
                    -p
                }
            } else {
                p
            },
        ),
        None => None,
    }
}

/// The expression an operand text stands for: a register, a stack slot, or
/// an integer literal.
pub fn operand_expression(operand: &str) -> (r: Option<Expression>)
    ensures
        opt_expr_view(r) == operand_expression_spec(operand@),
{
    let normalized = string_of(&trim_exec(&chars_of(operand)));
    if is_register_name(normalized.as_str()) {
        return Some(Expression::Variable(canonicalize_register_name(normalized.as_str())));
    }
    match stack_variable_name(normalized.as_str()) {
        Some(name) => {
            return Some(Expression::Variable(name));
        },
        None => {},
    }
    match parse_integer_literal(normalized.as_str()) {
        Some(v) => Some(Expression::IntegerLiteral(v)),
        None => None,
    }
}

/// The expression an assignment destination text stands for.
pub fn assignment_target_expression(operand: &str) -> (r: Option<Expression>)
    ensures
        opt_expr_view(r) == assignment_target_spec(operand@),
{
    let normalized = string_of(&trim_exec(&chars_of(operand)));
    if is_register_name(normalized.as_str()) {
        return Some(Expression::Variable(canonicalize_register_name(normalized.as_str())));
    }
    match stack_variable_name(normalized.as_str()) {
        Some(name) => Some(Expression::Variable(name)),
        None => None,
    }
}

// ---------------------------------------------------------------------------
// Upgrading single instructions
// ---------------------------------------------------------------------------

/// The assignment an instruction text is: a register/stack `mov` (or
/// `movzx`, `movsxd`) whose operands both have an expression, or a
/// self-`xor`, which zeroes its register.
pub open spec fn simple_assignment_spec(d: Seq<char>) -> Option<StmtV> {
    match split_instruction_spec(d) {
        Some((m, ops)) => match split_operands_spec(ops) {
            Some((t, v)) => match assignment_target_spec(t) {
                Some(te) => {
                    let ve = if m == "mov"@ || m == "movzx"@ || m == "movsxd"@ {
                        operand_expression_spec(v)
                    } else if m == "xor"@ && eq_ignore_case(t, v) {
                        Some(ExprV::IntegerLiteral(0))
                    } else {
                        None
                    };
                    match ve {
                        Some(x) => Some(
                            StmtV::Expression(
                                ExprV::Assignment { target: Box::new(te), value: Box::new(x) },
                            ),
                        ),
                        None => None,
                    }
                },
                None => None,
            },
            None => None,
        },
        None => None,
    }
}

pub open spec fn structure_block(b: Seq<StmtV>) -> Seq<StmtV>
    decreases b,
{
    Seq::new(b.len(), |i: int| if 0 <= i < b.len() { structure_stmt(b[i]) } else { arbitrary() })
}

/// A statement with its recognizable placeholders upgraded: returns become
/// `return;`, simple moves become assignments; nested blocks likewise.
pub open spec fn structure_stmt(s: StmtV) -> StmtV
    decreases s,
{
    match s {
        StmtV::InlineAsm { address, disasm } => if is_void_return_spec(disasm) {
            StmtV::Return(None)
        } else {
            match simple_assignment_spec(disasm) {
                Some(a) => a,
                None => s,
            }
        },
        StmtV::Block(b) => StmtV::Block(structure_block(b)),
        StmtV::If { condition, then_block, else_block } => StmtV::If {
            condition,
            then_block: structure_block(then_block),
            else_block: match else_block {
                Some(b) => Some(structure_block(b)),
                None => None,
            },
        },
        StmtV::While { condition, body } => StmtV::While { condition, body: structure_block(body) },
        StmtV::For { init, condition, update, body } => StmtV::For {
            init,
            condition,
            update,
            body: structure_block(body),
        },
        _ => s,
    }
}

/// The assignment an instruction text is, when it is a simple move.
pub fn simple_assignment(disasm: &str) -> (r: Option<Statement>)
    ensures
        match r {
            Some(st) => simple_assignment_spec(disasm@) == Some(st@),
            None => simple_assignment_spec(disasm@) is None,
        },
{
    let (mnemonic, operands) = match split_instruction(disasm) {
        Some(p) => p,
        None => {
            return None;
        },
    };
    let (target, value) = match split_operands(operands.as_str()) {
        Some(p) => p,
        None => {
            return None;
        },
    };
    let target_expr = match assignment_target_expression(target.as_str()) {
        Some(e) => e,
        None => {
            return None;
        },
    };
    let m = chars_of(mnemonic.as_str());
    let value_expr = if eq_str(&m, "mov") || eq_str(&m, "movzx") || eq_str(&m, "movsxd") {
        match operand_expression(value.as_str()) {
            Some(e) => e,
            None => {
                return None;
            },
        }
    } else if eq_str(&m, "xor") && eq_ignore_case_exec(
        &chars_of(target.as_str()),
        &chars_of(value.as_str()),
    ) {
        Expression::IntegerLiteral(0)
    } else {
        return None;
    };
    proof {
        reveal_with_fuel(expr_v, 2);
    }
    Some(
        Statement::Expression(
            Expression::Assignment { target: Box::new(target_expr), value: Box::new(value_expr) },
        ),
    )
}

/// A statement with its recognizable placeholders upgraded.
pub fn structure_statement(statement: &Statement) -> (r: Statement)
    ensures
        r@ == structure_stmt(statement@),
    decreases statement, 0nat,
{
    match statement {
        Statement::InlineAsm { disasm, .. } => {
            if is_void_return(disasm.as_str()) {
                Statement::Return(None)
            } else {
                match simple_assignment(disasm.as_str()) {
                    Some(a) => a,
                    None => clone_stmt(statement),
                }
            }
        },
        Statement::Block(statements) => Statement::Block(structure_block_exec(statements)),
        Statement::If { condition, then_block, else_block } => {
            let t = structure_block_exec(then_block);
            let e = match else_block {
                Some(b) => Some(structure_block_exec(b)),
                None => None,
            };
            Statement::If {
                condition: crate::decompiler::ast::clone_expr(condition),
                then_block: t,
                else_block: e,
            }
        },
        Statement::While { condition, body } => {
            let b = structure_block_exec(body);
            Statement::While { condition: crate::decompiler::ast::clone_expr(condition), body: b }
        },
        Statement::For { init, condition, update, body } => {
            let b = structure_block_exec(body);
            let i = match init {
                Some(x) => Some(Box::new(clone_stmt(x))),
                None => None,
            };
            Statement::For {
                init: i,
                condition: crate::decompiler::ast::clone_opt_expr(condition),
                update: crate::decompiler::ast::clone_opt_expr(update),
                body: b,
            }
        },
        _ => clone_stmt(statement),
    }
}

fn structure_block_exec(b: &Vec<Statement>) -> (r: Vec<Statement>)
    ensures
        stmts_v(r@) == structure_block(stmts_v(b@)),
    decreases b, 1nat,
{
    let mut out: Vec<Statement> = Vec::new();
    let mut i: usize = 0;
    while i < b.len()
        invariant
            i <= b@.len(),
            out@.len() == i,
            forall|j: int|
                0 <= j < i ==> stmt_v(&#[trigger] out@[j]) == structure_stmt(stmt_v(&b@[j])),
        decreases b@.len() - i,
    {
        proof {
            vstd::std_specs::vec::axiom_vec_index_decreases(*b, i as int);
        }
        out.push(structure_statement(&b[i]));
        i = i + 1;
    }
    proof {
        assert(stmts_v(out@) =~= structure_block(stmts_v(b@)));
    }
    out
}

/// Structure a single function in place.
pub fn structure_function(function: &mut Function)
    ensures
        final(function)@.name == old(function)@.name,
        final(function)@.return_type == old(function)@.return_type,
        final(function)@.parameters == old(function)@.parameters,
        final(function)@.is_variadic == old(function)@.is_variadic,
        final(function)@.body == structure_block(old(function)@.body),
{
    let b = structure_block_exec(&function.body);
    function.body = b;
}

/// Structure all functions in place.
pub fn structure_functions(functions: &mut Vec<Function>)
    ensures
        final(functions)@.len() == old(functions)@.len(),
        forall|k: int|
            #![trigger final(functions)@[k]]
            0 <= k < old(functions)@.len() ==> {
                &&& final(functions)@[k]@.name == old(functions)@[k]@.name
                &&& final(functions)@[k]@.return_type == old(functions)@[k]@.return_type
                &&& final(functions)@[k]@.parameters == old(functions)@[k]@.parameters
                &&& final(functions)@[k]@.is_variadic == old(functions)@[k]@.is_variadic
                &&& final(functions)@[k]@.body == structure_block(old(functions)@[k]@.body)
            },
{
    let mut k: usize = 0;
    while k < functions.len()
        invariant
            k <= functions@.len() == old(functions)@.len(),
            forall|q: int|
                #![trigger functions@[q]]
                0 <= q < old(functions)@.len() ==> if q < k {
                    &&& functions@[q]@.name == old(functions)@[q]@.name
                    &&& functions@[q]@.return_type == old(functions)@[q]@.return_type
                    &&& functions@[q]@.parameters == old(functions)@[q]@.parameters
                    &&& functions@[q]@.is_variadic == old(functions)@[q]@.is_variadic
                    &&& functions@[q]@.body == structure_block(old(functions)@[q]@.body)
                } else {
                    functions@[q]@ == old(functions)@[q]@
                },
        decreases functions@.len() - k,
    {
        let mut f = functions[k].clone();
        structure_function(&mut f);
        functions.set(k, f);
        k = k + 1;
    }
}

// ---------------------------------------------------------------------------
// Branch conditions
// ---------------------------------------------------------------------------

/// The comparison a conditional jump after a `cmp` tests (signed and
/// unsigned forms collapse; mnemonics are matched exactly, in lower case).
pub open spec fn cmp_op_spec(m: Seq<char>) -> Option<BinaryOperator> {
    if m == "je"@ || m == "jz"@ {
        Some(BinaryOperator::Equal)
    } else if m == "jne"@ || m == "jnz"@ {
        Some(BinaryOperator::NotEqual)
    } else if m == "jl"@ || m == "jnge"@ || m == "jb"@ || m == "jnae"@ || m == "jc"@ {
        Some(BinaryOperator::LessThan)
    } else if m == "jle"@ || m == "jng"@ || m == "jbe"@ || m == "jna"@ {
        Some(BinaryOperator::LessThanOrEqual)
    } else if m == "jg"@ || m == "jnle"@ || m == "ja"@ || m == "jnbe"@ {
        Some(BinaryOperator::GreaterThan)
    } else if m == "jge"@ || m == "jnl"@ || m == "jae"@ || m == "jnb"@ || m == "jnc"@ {
        Some(BinaryOperator::GreaterThanOrEqual)
    } else {
        None
    }
}

/// Whether a jump after a `test` is taken on zero (`Some(true)`) or on
/// nonzero (`Some(false)`); `None` for any other jump.
pub open spec fn branch_is_zero_spec(m: Seq<char>) -> Option<bool> {
    if m == "je"@ || m == "jz"@ {
        Some(true)
    } else if m == "jne"@ || m == "jnz"@ {
        Some(false)
    } else {
        None
    }
}

/// Law: after a `cmp a, b`, each conditional jump is taken on the
/// comparison of the same meaning: `je`/`jz` on `a == b`, `jne`/`jnz` on
/// `a != b`, `jl`/`jnge`/`jb`/`jnae`/`jc` on `a < b`, `jle`/`jng`/`jbe`/`jna`
/// on `a <= b`, `jg`/`jnle`/`ja`/`jnbe` on `a > b` and `jge`/`jnl`/`jae`/
/// `jnb`/`jnc` on `a >= b`; after a `test`, `je`/`jz` are taken on zero and
/// `jne`/`jnz` on nonzero.
pub proof fn lemma_jump_conditions()
    ensures
        cmp_op_spec("je"@) == Some(BinaryOperator::Equal),
        cmp_op_spec("jz"@) == Some(BinaryOperator::Equal),
        cmp_op_spec("jne"@) == Some(BinaryOperator::NotEqual),
        cmp_op_spec("jnz"@) == Some(BinaryOperator::NotEqual),
        cmp_op_spec("jl"@) == Some(BinaryOperator::LessThan),
        cmp_op_spec("jnge"@) == Some(BinaryOperator::LessThan),
        cmp_op_spec("jb"@) == Some(BinaryOperator::LessThan),
        cmp_op_spec("jnae"@) == Some(BinaryOperator::LessThan),
        cmp_op_spec("jc"@) == Some(BinaryOperator::LessThan),
        cmp_op_spec("jle"@) == Some(BinaryOperator::LessThanOrEqual),
        cmp_op_spec("jng"@) == Some(BinaryOperator::LessThanOrEqual),
        cmp_op_spec("jbe"@) == Some(BinaryOperator::LessThanOrEqual),
        cmp_op_spec("jna"@) == Some(BinaryOperator::LessThanOrEqual),
        cmp_op_spec("jg"@) == Some(BinaryOperator::GreaterThan),
        cmp_op_spec("jnle"@) == Some(BinaryOperator::GreaterThan),
        cmp_op_spec("ja"@) == Some(BinaryOperator::GreaterThan),
        cmp_op_spec("jnbe"@) == Some(BinaryOperator::GreaterThan),
        cmp_op_spec("jge"@) == Some(BinaryOperator::GreaterThanOrEqual),
        cmp_op_spec("jnl"@) == Some(BinaryOperator::GreaterThanOrEqual),
        cmp_op_spec("jae"@) == Some(BinaryOperator::GreaterThanOrEqual),
        cmp_op_spec("jnb"@) == Some(BinaryOperator::GreaterThanOrEqual),
        cmp_op_spec("jnc"@) == Some(BinaryOperator::GreaterThanOrEqual),
        branch_is_zero_spec("je"@) == Some(true),
        branch_is_zero_spec("jz"@) == Some(true),
        branch_is_zero_spec("jne"@) == Some(false),
        branch_is_zero_spec("jnz"@) == Some(false),
{
    reveal_strlit("je");
    reveal_strlit("jz");
    reveal_strlit("jne");
    reveal_strlit("jnz");
    reveal_strlit("jl");
    reveal_strlit("jnge");
    reveal_strlit("jb");
    reveal_strlit("jnae");
    reveal_strlit("jc");
    reveal_strlit("jle");
    reveal_strlit("jng");
    reveal_strlit("jbe");
    reveal_strlit("jna");
    reveal_strlit("jg");
    reveal_strlit("jnle");
    reveal_strlit("ja");
    reveal_strlit("jnbe");
    reveal_strlit("jge");
    reveal_strlit("jnl");
    reveal_strlit("jae");
    reveal_strlit("jnb");
    reveal_strlit("jnc");
    assert("je"@[1] != "jz"@[1]);
    assert("je"@.len() != "jne"@.len());
    assert("je"@.len() != "jnz"@.len());
    assert("je"@[1] != "jl"@[1]);
    assert("je"@.len() != "jnge"@.len());
    assert("je"@[1] != "jb"@[1]);
    assert("je"@.len() != "jnae"@.len());
    assert("je"@[1] != "jc"@[1]);
    assert("je"@.len() != "jle"@.len());
    assert("je"@.len() != "jng"@.len());
    assert("je"@.len() != "jbe"@.len());
    assert("je"@.len() != "jna"@.len());
    assert("je"@[1] != "jg"@[1]);
    assert("je"@.len() != "jnle"@.len());
    assert("je"@[1] != "ja"@[1]);
    assert("je"@.len() != "jnbe"@.len());
    assert("je"@.len() != "jge"@.len());
    assert("je"@.len() != "jnl"@.len());
    assert("je"@.len() != "jae"@.len());
    assert("je"@.len() != "jnb"@.len());
    assert("je"@.len() != "jnc"@.len());
    assert("jz"@.len() != "jne"@.len());
    assert("jz"@.len() != "jnz"@.len());
    assert("jz"@[1] != "jl"@[1]);
    assert("jz"@.len() != "jnge"@.len());
    assert("jz"@[1] != "jb"@[1]);
    assert("jz"@.len() != "jnae"@.len());
    assert("jz"@[1] != "jc"@[1]);
    assert("jz"@.len() != "jle"@.len());
    assert("jz"@.len() != "jng"@.len());
    assert("jz"@.len() != "jbe"@.len());
    assert("jz"@.len() != "jna"@.len());
    assert("jz"@[1] != "jg"@[1]);
    assert("jz"@.len() != "jnle"@.len());
    assert("jz"@[1] != "ja"@[1]);
    assert("jz"@.len() != "jnbe"@.len());
    assert("jz"@.len() != "jge"@.len());
    assert("jz"@.len() != "jnl"@.len());
    assert("jz"@.len() != "jae"@.len());
    assert("jz"@.len() != "jnb"@.len());
    assert("jz"@.len() != "jnc"@.len());
    assert("jne"@[2] != "jnz"@[2]);
    assert("jne"@.len() != "jl"@.len());
    assert("jne"@.len() != "jnge"@.len());
    assert("jne"@.len() != "jb"@.len());
    assert("jne"@.len() != "jnae"@.len());
    assert("jne"@.len() != "jc"@.len());
    assert("jne"@[1] != "jle"@[1]);
    assert("jne"@[2] != "jng"@[2]);
    assert("jne"@[1] != "jbe"@[1]);
    assert("jne"@[2] != "jna"@[2]);
    assert("jne"@.len() != "jg"@.len());
    assert("jne"@.len() != "jnle"@.len());
    assert("jne"@.len() != "ja"@.len());
    assert("jne"@.len() != "jnbe"@.len());
    assert("jne"@[1] != "jge"@[1]);
    assert("jne"@[2] != "jnl"@[2]);
    assert("jne"@[1] != "jae"@[1]);
    assert("jne"@[2] != "jnb"@[2]);
    assert("jne"@[2] != "jnc"@[2]);
    assert("jnz"@.len() != "jl"@.len());
    assert("jnz"@.len() != "jnge"@.len());
    assert("jnz"@.len() != "jb"@.len());
    assert("jnz"@.len() != "jnae"@.len());
    assert("jnz"@.len() != "jc"@.len());
    assert("jnz"@[1] != "jle"@[1]);
    assert("jnz"@[2] != "jng"@[2]);
    assert("jnz"@[1] != "jbe"@[1]);
    assert("jnz"@[2] != "jna"@[2]);
    assert("jnz"@.len() != "jg"@.len());
    assert("jnz"@.len() != "jnle"@.len());
    assert("jnz"@.len() != "ja"@.len());
    assert("jnz"@.len() != "jnbe"@.len());
    assert("jnz"@[1] != "jge"@[1]);
    assert("jnz"@[2] != "jnl"@[2]);
    assert("jnz"@[1] != "jae"@[1]);
    assert("jnz"@[2] != "jnb"@[2]);
    assert("jnz"@[2] != "jnc"@[2]);
    assert("jl"@.len() != "jnge"@.len());
    assert("jl"@[1] != "jb"@[1]);
    assert("jl"@.len() != "jnae"@.len());
    assert("jl"@[1] != "jc"@[1]);
    assert("jl"@.len() != "jle"@.len());
    assert("jl"@.len() != "jng"@.len());
    assert("jl"@.len() != "jbe"@.len());
    assert("jl"@.len() != "jna"@.len());
    assert("jl"@[1] != "jg"@[1]);
    assert("jl"@.len() != "jnle"@.len());
    assert("jl"@[1] != "ja"@[1]);
    assert("jl"@.len() != "jnbe"@.len());
    assert("jl"@.len() != "jge"@.len());
    assert("jl"@.len() != "jnl"@.len());
    assert("jl"@.len() != "jae"@.len());
    assert("jl"@.len() != "jnb"@.len());
    assert("jl"@.len() != "jnc"@.len());
    assert("jnge"@.len() != "jb"@.len());
    assert("jnge"@[2] != "jnae"@[2]);
    assert("jnge"@.len() != "jc"@.len());
    assert("jnge"@.len() != "jle"@.len());
    assert("jnge"@.len() != "jng"@.len());
    assert("jnge"@.len() != "jbe"@.len());
    assert("jnge"@.len() != "jna"@.len());
    assert("jnge"@.len() != "jg"@.len());
    assert("jnge"@[2] != "jnle"@[2]);
    assert("jnge"@.len() != "ja"@.len());
    assert("jnge"@[2] != "jnbe"@[2]);
    assert("jnge"@.len() != "jge"@.len());
    assert("jnge"@.len() != "jnl"@.len());
    assert("jnge"@.len() != "jae"@.len());
    assert("jnge"@.len() != "jnb"@.len());
    assert("jnge"@.len() != "jnc"@.len());
    assert("jb"@.len() != "jnae"@.len());
    assert("jb"@[1] != "jc"@[1]);
    assert("jb"@.len() != "jle"@.len());
    assert("jb"@.len() != "jng"@.len());
    assert("jb"@.len() != "jbe"@.len());
    assert("jb"@.len() != "jna"@.len());
    assert("jb"@[1] != "jg"@[1]);
    assert("jb"@.len() != "jnle"@.len());
    assert("jb"@[1] != "ja"@[1]);
    assert("jb"@.len() != "jnbe"@.len());
    assert("jb"@.len() != "jge"@.len());
    assert("jb"@.len() != "jnl"@.len());
    assert("jb"@.len() != "jae"@.len());
    assert("jb"@.len() != "jnb"@.len());
    assert("jb"@.len() != "jnc"@.len());
    assert("jnae"@.len() != "jc"@.len());
    assert("jnae"@.len() != "jle"@.len());
    assert("jnae"@.len() != "jng"@.len());
    assert("jnae"@.len() != "jbe"@.len());
    assert("jnae"@.len() != "jna"@.len());
    assert("jnae"@.len() != "jg"@.len());
    assert("jnae"@[2] != "jnle"@[2]);
    assert("jnae"@.len() != "ja"@.len());
    assert("jnae"@[2] != "jnbe"@[2]);
    assert("jnae"@.len() != "jge"@.len());
    assert("jnae"@.len() != "jnl"@.len());
    assert("jnae"@.len() != "jae"@.len());
    assert("jnae"@.len() != "jnb"@.len());
    assert("jnae"@.len() != "jnc"@.len());
    assert("jc"@.len() != "jle"@.len());
    assert("jc"@.len() != "jng"@.len());
    assert("jc"@.len() != "jbe"@.len());
    assert("jc"@.len() != "jna"@.len());
    assert("jc"@[1] != "jg"@[1]);
    assert("jc"@.len() != "jnle"@.len());
    assert("jc"@[1] != "ja"@[1]);
    assert("jc"@.len() != "jnbe"@.len());
    assert("jc"@.len() != "jge"@.len());
    assert("jc"@.len() != "jnl"@.len());
    assert("jc"@.len() != "jae"@.len());
    assert("jc"@.len() != "jnb"@.len());
    assert("jc"@.len() != "jnc"@.len());
    assert("jle"@[1] != "jng"@[1]);
    assert("jle"@[1] != "jbe"@[1]);
    assert("jle"@[1] != "jna"@[1]);
    assert("jle"@.len() != "jg"@.len());
    assert("jle"@.len() != "jnle"@.len());
    assert("jle"@.len() != "ja"@.len());
    assert("jle"@.len() != "jnbe"@.len());
    assert("jle"@[1] != "jge"@[1]);
    assert("jle"@[1] != "jnl"@[1]);
    assert("jle"@[1] != "jae"@[1]);
    assert("jle"@[1] != "jnb"@[1]);
    assert("jle"@[1] != "jnc"@[1]);
    assert("jng"@[1] != "jbe"@[1]);
    assert("jng"@[2] != "jna"@[2]);
    assert("jng"@.len() != "jg"@.len());
    assert("jng"@.len() != "jnle"@.len());
    assert("jng"@.len() != "ja"@.len());
    assert("jng"@.len() != "jnbe"@.len());
    assert("jng"@[1] != "jge"@[1]);
    assert("jng"@[2] != "jnl"@[2]);
    assert("jng"@[1] != "jae"@[1]);
    assert("jng"@[2] != "jnb"@[2]);
    assert("jng"@[2] != "jnc"@[2]);
    assert("jbe"@[1] != "jna"@[1]);
    assert("jbe"@.len() != "jg"@.len());
    assert("jbe"@.len() != "jnle"@.len());
    assert("jbe"@.len() != "ja"@.len());
    assert("jbe"@.len() != "jnbe"@.len());
    assert("jbe"@[1] != "jge"@[1]);
    assert("jbe"@[1] != "jnl"@[1]);
    assert("jbe"@[1] != "jae"@[1]);
    assert("jbe"@[1] != "jnb"@[1]);
    assert("jbe"@[1] != "jnc"@[1]);
    assert("jna"@.len() != "jg"@.len());
    assert("jna"@.len() != "jnle"@.len());
    assert("jna"@.len() != "ja"@.len());
    assert("jna"@.len() != "jnbe"@.len());
    assert("jna"@[1] != "jge"@[1]);
    assert("jna"@[2] != "jnl"@[2]);
    assert("jna"@[1] != "jae"@[1]);
    assert("jna"@[2] != "jnb"@[2]);
    assert("jna"@[2] != "jnc"@[2]);
    assert("jg"@.len() != "jnle"@.len());
    assert("jg"@[1] != "ja"@[1]);
    assert("jg"@.len() != "jnbe"@.len());
    assert("jg"@.len() != "jge"@.len());
    assert("jg"@.len() != "jnl"@.len());
    assert("jg"@.len() != "jae"@.len());
    assert("jg"@.len() != "jnb"@.len());
    assert("jg"@.len() != "jnc"@.len());
    assert("jnle"@.len() != "ja"@.len());
    assert("jnle"@[2] != "jnbe"@[2]);
    assert("jnle"@.len() != "jge"@.len());
    assert("jnle"@.len() != "jnl"@.len());
    assert("jnle"@.len() != "jae"@.len());
    assert("jnle"@.len() != "jnb"@.len());
    assert("jnle"@.len() != "jnc"@.len());
    assert("ja"@.len() != "jnbe"@.len());
    assert("ja"@.len() != "jge"@.len());
    assert("ja"@.len() != "jnl"@.len());
    assert("ja"@.len() != "jae"@.len());
    assert("ja"@.len() != "jnb"@.len());
    assert("ja"@.len() != "jnc"@.len());
    assert("jnbe"@.len() != "jge"@.len());
    assert("jnbe"@.len() != "jnl"@.len());
    assert("jnbe"@.len() != "jae"@.len());
    assert("jnbe"@.len() != "jnb"@.len());
    assert("jnbe"@.len() != "jnc"@.len());
    assert("jge"@[1] != "jnl"@[1]);
    assert("jge"@[1] != "jae"@[1]);
    assert("jge"@[1] != "jnb"@[1]);
    assert("jge"@[1] != "jnc"@[1]);
    assert("jnl"@[1] != "jae"@[1]);
    assert("jnl"@[2] != "jnb"@[2]);
    assert("jnl"@[2] != "jnc"@[2]);
    assert("jae"@[1] != "jnb"@[1]);
    assert("jae"@[1] != "jnc"@[1]);
    assert("jnb"@[2] != "jnc"@[2]);
}

pub open spec fn op_symbol(op: BinaryOperator) -> Seq<char> {
    match op {
        BinaryOperator::Equal => "=="@,
        BinaryOperator::NotEqual => "!="@,
        BinaryOperator::LessThan => "<"@,
        BinaryOperator::LessThanOrEqual => "<="@,
        BinaryOperator::GreaterThan => ">"@,
        BinaryOperator::GreaterThanOrEqual => ">="@,
        BinaryOperator::BitwiseAnd => "&"@,
        _ => "?"@,
    }
}

/// A condition kept as a C comment followed by `1`, every part sanitized.
pub open spec fn comment_condition_spec(e: Seq<char>, setup: Seq<char>, branch: Seq<char>) -> ExprV {
    ExprV::Unknown(
        "/* condition: "@ + sanitize_comment_seq(e) + " (from "@ + sanitize_comment_seq(setup)
            + "; "@ + sanitize_comment_seq(branch) + ") */ 1"@,
    )
}

/// An operand as text: registers and other text verbatim, immediates in
/// decimal, memory as `[base±0xHEX]`.
pub open spec fn operand_text(o: OperandV) -> Seq<char> {
    match o {
        OperandV::Reg(r) => r,
        OperandV::Imm(v) => int_text(v as int),
        OperandV::Mem(m) => "["@ + (match m.base {
            Some(b) => b,
            None => seq![],
        }) + (if m.disp != 0 {
            (if m.disp > 0 {
                "+0x"@
            } else {
                "-0x"@
            }) + hex_text(abs_disp(m.disp), true)
        } else {
            seq![]
        }) + "]"@,
        OperandV::Other(s) => s,
    }
}

pub open spec fn binop(op: BinaryOperator, l: ExprV, r: ExprV) -> ExprV {
    ExprV::BinaryOperation { op, left: Box::new(l), right: Box::new(r) }
}

/// The condition a `cmp a, b` and the jump after it test: `a op b`, or a
/// comment when an operand has no expression.
pub open spec fn cmp_condition_ir_spec(
    setup: InstructionIRV,
    setup_text: Seq<char>,
    branch: InstructionIRV,
    branch_text: Seq<char>,
) -> Option<ExprV> {
    if setup.operands.len() < 2 || cmp_op_spec(branch.op) is None {
        None
    } else {
        let op = cmp_op_spec(branch.op).unwrap();
        let l = setup.operands[0];
        let r = setup.operands[1];
        let text = operand_text(l) + " "@ + op_symbol(op) + " "@ + operand_text(r);
        if operand_expr(l) is None || operand_expr(r) is None {
            Some(comment_condition_spec(text, setup_text, branch_text))
        } else {
            Some(binop(op, operand_expr(l).unwrap(), operand_expr(r).unwrap()))
        }
    }
}

/// The condition a `test a, b` and the jump after it test: `a == 0` (or
/// `!=`) for a self-test, `(a & b) == 0` otherwise; a comment when an operand
/// has no expression.
pub open spec fn test_condition_ir_spec(
    setup: InstructionIRV,
    setup_text: Seq<char>,
    branch: InstructionIRV,
    branch_text: Seq<char>,
) -> Option<ExprV> {
    if setup.operands.len() < 2 || branch_is_zero_spec(branch.op) is None {
        None
    } else {
        let op = if branch_is_zero_spec(branch.op).unwrap() {
            BinaryOperator::Equal
        } else {
            BinaryOperator::NotEqual
        };
        let l = setup.operands[0];
        let r = setup.operands[1];
        let lt = operand_text(l);
        let rt = operand_text(r);
        if eq_ignore_case(lt, rt) {
            let text = lt + " "@ + op_symbol(op) + " 0"@;
            match operand_expr(l) {
                Some(le) => Some(binop(op, le, ExprV::IntegerLiteral(0))),
                None => Some(comment_condition_spec(text, setup_text, branch_text)),
            }
        } else {
            let text = "("@ + lt + " & "@ + rt + ") "@ + op_symbol(op) + " 0"@;
            if operand_expr(l) is None || operand_expr(r) is None {
                Some(comment_condition_spec(text, setup_text, branch_text))
            } else {
                Some(
                    binop(
                        op,
                        binop(
                            BinaryOperator::BitwiseAnd,
                            operand_expr(l).unwrap(),
                            operand_expr(r).unwrap(),
                        ),
                        ExprV::IntegerLiteral(0),
                    ),
                )
            }
        }
    }
}

/// The comparison a conditional jump after a `cmp` tests.
pub fn cmp_operator_for_branch(branch_mnemonic: &str) -> (r: Option<BinaryOperator>)
    ensures
        r == cmp_op_spec(branch_mnemonic@),
{
    let m = chars_of(branch_mnemonic);
    if eq_str(&m, "je") || eq_str(&m, "jz") {
        Some(BinaryOperator::Equal)
    } else if eq_str(&m, "jne") || eq_str(&m, "jnz") {
        Some(BinaryOperator::NotEqual)
    } else if eq_str(&m, "jl") || eq_str(&m, "jnge") || eq_str(&m, "jb") || eq_str(&m, "jnae")
        || eq_str(&m, "jc") {
        Some(BinaryOperator::LessThan)
    } else if eq_str(&m, "jle") || eq_str(&m, "jng") || eq_str(&m, "jbe") || eq_str(&m, "jna") {
        Some(BinaryOperator::LessThanOrEqual)
    } else if eq_str(&m, "jg") || eq_str(&m, "jnle") || eq_str(&m, "ja") || eq_str(&m, "jnbe") {
        Some(BinaryOperator::GreaterThan)
    } else if eq_str(&m, "jge") || eq_str(&m, "jnl") || eq_str(&m, "jae") || eq_str(&m, "jnb")
        || eq_str(&m, "jnc") {
        Some(BinaryOperator::GreaterThanOrEqual)
    } else {
        None
    }
}

/// Whether a jump after a `test` is taken on zero.
pub fn branch_is_zero(branch_mnemonic: &str) -> (r: Option<bool>)
    ensures
        r == branch_is_zero_spec(branch_mnemonic@),
{
    let m = chars_of(branch_mnemonic);
    if eq_str(&m, "je") || eq_str(&m, "jz") {
        Some(true)
    } else if eq_str(&m, "jne") || eq_str(&m, "jnz") {
        Some(false)
    } else {
        None
    }
}

impl BinaryOperator {
    /// The C symbol of a comparison or `&`; `?` for other operators.
    pub fn symbol(self) -> (r: &'static str)
        ensures
            r@ == op_symbol(self),
    {
        match self {
            BinaryOperator::Equal => "==",
            BinaryOperator::NotEqual => "!=",
            BinaryOperator::LessThan => "<",
            BinaryOperator::LessThanOrEqual => "<=",
            BinaryOperator::GreaterThan => ">",
            BinaryOperator::GreaterThanOrEqual => ">=",
            BinaryOperator::BitwiseAnd => "&",
            _ => "?",
        }
    }
}

/// A condition kept as a C comment, every part sanitized so that the comment
/// cannot end early.
pub fn comment_condition(expression: &str, setup_disasm: &str, branch_disasm: &str) -> (r: Expression)
    ensures
        r@ == comment_condition_spec(expression@, setup_disasm@, branch_disasm@),
{
    let mut out: Vec<char> = Vec::new();
    extend_chars(&mut out, "/* condition: ");
    extend_slice(&mut out, &sanitize_comment_chars(&chars_of(expression)));
    extend_chars(&mut out, " (from ");
    extend_slice(&mut out, &sanitize_comment_chars(&chars_of(setup_disasm)));
    extend_chars(&mut out, "; ");
    extend_slice(&mut out, &sanitize_comment_chars(&chars_of(branch_disasm)));
    extend_chars(&mut out, ") */ 1");
    Expression::Unknown(string_of(&out))
}

/// An operand as text.
pub fn operand_to_text(operand: &Operand) -> (r: String)
    ensures
        r@ == operand_text(operand@),
{
    match operand {
        Operand::Reg(r) => r.clone(),
        Operand::Imm(v) => {
            let mut out: Vec<char> = Vec::new();
            push_int(&mut out, *v);
            proof {
                assert(out@ =~= int_text(*v as int));
            }
            string_of(&out)
        },
        Operand::Mem(mem) => {
            let mut out: Vec<char> = Vec::new();
            extend_chars(&mut out, "[");
            match &mem.base {
                Some(b) => extend_chars(&mut out, b.as_str()),
                None => {},
            }
            if mem.disp != 0 {
                if mem.disp > 0 {
                    extend_chars(&mut out, "+0x");
                } else {
                    extend_chars(&mut out, "-0x");
                }
                let mag: u64 = if mem.disp == i64::MIN {
                    9223372036854775808u64
                } else if mem.disp < 0 {
                    (-mem.disp) as u64
                } else {
                    mem.disp as u64
                };
                push_hex(&mut out, mag, true);
            }
            extend_chars(&mut out, "]");
            proof {
                assert(out@ =~= operand_text(operand@));
            }
            string_of(&out)
        },
        Operand::Other(s) => s.clone(),
    }
}

/// The variable a frame-relative memory operand names.
pub fn stack_variable_name_from_mem(mem: &MemoryOperand) -> (r: Option<String>)
    ensures
        opt_string_view(r) == stack_slot_name(mem@),
{
    if mem.index.is_some() || mem.scale > 1 {
        return None;
    }
    let base = match &mem.base {
        Some(b) => lower_chars(&chars_of(b.as_str())),
        None => {
            return None;
        },
    };
    let frame = eq_str(&base, "rbp") || eq_str(&base, "ebp");
    let stack = eq_str(&base, "rsp") || eq_str(&base, "esp");
    if !frame && !stack {
        return None;
    }
    let prefix = if frame {
        if mem.disp < 0 {
            "local_"
        } else {
            "arg_"
        }
    } else if mem.disp < 0 {
        "stack_m_"
    } else {
        "stack_"
    };
    let mag: u64 = if mem.disp == i64::MIN {
        9223372036854775808u64
    } else if mem.disp < 0 {
        (-mem.disp) as u64
    } else {
        mem.disp as u64
    };
    let mut v: Vec<char> = Vec::new();
    extend_chars(&mut v, prefix);
    push_hex(&mut v, mag, false);
    Some(string_of(&v))
}

/// The expression an IR operand stands for: a register, an immediate, or a
/// frame slot.
pub fn operand_to_expression(operand: &Operand) -> (r: Option<Expression>)
    ensures
        opt_expr_view(r) == operand_expr(operand@),
{
    match operand {
        Operand::Reg(r) => Some(Expression::Variable(canonicalize_register_name(r.as_str()))),
        Operand::Imm(v) => Some(Expression::IntegerLiteral(*v)),
        Operand::Mem(mem) => match stack_variable_name_from_mem(mem) {
            Some(n) => Some(Expression::Variable(n)),
            None => None,
        },
        Operand::Other(_) => None,
    }
}

fn texts3(a: &str, mid: &str, b: &str) -> (r: String)
    ensures
        r@ == a@ + " "@ + mid@ + " "@ + b@,
{
    let mut out: Vec<char> = Vec::new();
    extend_chars(&mut out, a);
    extend_chars(&mut out, " ");
    extend_chars(&mut out, mid);
    extend_chars(&mut out, " ");
    extend_chars(&mut out, b);
    proof {
        assert(out@ =~= a@ + " "@ + mid@ + " "@ + b@);
    }
    string_of(&out)
}

/// The condition a `cmp` and the conditional jump after it test.
pub fn recover_cmp_condition_ir(
    setup: &InstructionIR,
    setup_text: &str,
    branch: &InstructionIR,
    branch_text: &str,
) -> (r: Option<Expression>)
    ensures
        opt_expr_view(r) == cmp_condition_ir_spec(setup@, setup_text@, branch@, branch_text@),
{
    if setup.operands.len() < 2 {
        return None;
    }
    let op = match cmp_operator_for_branch(branch.op.as_str()) {
        Some(o) => o,
        None => {
            return None;
        },
    };
    let left = &setup.operands[0];
    let right = &setup.operands[1];
    assert(setup@.operands[0] == left@ && setup@.operands[1] == right@);
    let expression_text = texts3(
        operand_to_text(left).as_str(),
        op.symbol(),
        operand_to_text(right).as_str(),
    );
    let left_expr = match operand_to_expression(left) {
        Some(e) => e,
        None => {
            return Some(comment_condition(expression_text.as_str(), setup_text, branch_text));
        },
    };
    let right_expr = match operand_to_expression(right) {
        Some(e) => e,
        None => {
            return Some(comment_condition(expression_text.as_str(), setup_text, branch_text));
        },
    };
    proof {
        reveal_with_fuel(expr_v, 2);
    }
    Some(Expression::BinaryOperation { op, left: Box::new(left_expr), right: Box::new(right_expr) })
}

/// The condition a `test` and the conditional jump after it test.
pub fn recover_test_condition_ir(
    setup: &InstructionIR,
    setup_text: &str,
    branch: &InstructionIR,
    branch_text: &str,
) -> (r: Option<Expression>)
    ensures
        opt_expr_view(r) == test_condition_ir_spec(setup@, setup_text@, branch@, branch_text@),
{
    if setup.operands.len() < 2 {
        return None;
    }
    let zero = match branch_is_zero(branch.op.as_str()) {
        Some(z) => z,
        None => {
            return None;
        },
    };
    let op = if zero {
        BinaryOperator::Equal
    } else {
        BinaryOperator::NotEqual
    };
    let left = &setup.operands[0];
    let right = &setup.operands[1];
    assert(setup@.operands[0] == left@ && setup@.operands[1] == right@);
    let lt = operand_to_text(left);
    let rt = operand_to_text(right);
    if eq_ignore_case_exec(&chars_of(lt.as_str()), &chars_of(rt.as_str())) {
        let mut t: Vec<char> = Vec::new();
        extend_chars(&mut t, lt.as_str());
        extend_chars(&mut t, " ");
        extend_chars(&mut t, op.symbol());
        extend_chars(&mut t, " 0");
        let text = string_of(&t);
        proof {
            assert(text@ =~= lt@ + " "@ + op_symbol(op) + " 0"@);
        }
        return match operand_to_expression(left) {
            Some(le) => {
                proof {
                    reveal_with_fuel(expr_v, 2);
                }
                Some(
                    Expression::BinaryOperation {
                        op,
                        left: Box::new(le),
                        right: Box::new(Expression::IntegerLiteral(0)),
                    },
                )
            },
            None => Some(comment_condition(text.as_str(), setup_text, branch_text)),
        };
    }
    let mut t: Vec<char> = Vec::new();
    extend_chars(&mut t, "(");
    extend_chars(&mut t, lt.as_str());
    extend_chars(&mut t, " & ");
    extend_chars(&mut t, rt.as_str());
    extend_chars(&mut t, ") ");
    extend_chars(&mut t, op.symbol());
    extend_chars(&mut t, " 0");
    let text = string_of(&t);
    proof {
        assert(text@ =~= "("@ + lt@ + " & "@ + rt@ + ") "@ + op_symbol(op) + " 0"@);
    }
    let left_expr = match operand_to_expression(left) {
        Some(e) => e,
        None => {
            return Some(comment_condition(text.as_str(), setup_text, branch_text));
        },
    };
    let right_expr = match operand_to_expression(right) {
        Some(e) => e,
        None => {
            return Some(comment_condition(text.as_str(), setup_text, branch_text));
        },
    };
    proof {
        reveal_with_fuel(expr_v, 3);
    }
    Some(
        Expression::BinaryOperation {
            op,
            left: Box::new(
                Expression::BinaryOperation {
                    op: BinaryOperator::BitwiseAnd,
                    left: Box::new(left_expr),
                    right: Box::new(right_expr),
                },
            ),
            right: Box::new(Expression::IntegerLiteral(0)),
        },
    )
}

// ---------------------------------------------------------------------------
// Conditions from instruction text
// ---------------------------------------------------------------------------

/// The condition a `cmp` text and the branch after it test.
pub open spec fn cmp_condition_spec(
    setup_disasm: Seq<char>,
    operands: Seq<char>,
    branch_disasm: Seq<char>,
    branch_mnemonic: Seq<char>,
) -> Option<ExprV> {
    match split_operands_spec(operands) {
        Some((l, r)) => match cmp_op_spec(branch_mnemonic) {
            Some(op) => {
                let text = l + " "@ + op_symbol(op) + " "@ + r;
                if operand_expression_spec(l) is None || operand_expression_spec(r) is None {
                    Some(comment_condition_spec(text, setup_disasm, branch_disasm))
                } else {
                    Some(
                        binop(
                            op,
                            operand_expression_spec(l).unwrap(),
                            operand_expression_spec(r).unwrap(),
                        ),
                    )
                }
            },
            None => None,
        },
        None => None,
    }
}

/// The condition a `test` text and the branch after it test.
pub open spec fn test_condition_spec(
    setup_disasm: Seq<char>,
    operands: Seq<char>,
    branch_disasm: Seq<char>,
    branch_mnemonic: Seq<char>,
) -> Option<ExprV> {
    match split_operands_spec(operands) {
        Some((l, r)) => match branch_is_zero_spec(branch_mnemonic) {
            Some(z) => {
                let op = if z {
                    BinaryOperator::Equal
                } else {
                    BinaryOperator::NotEqual
                };
                if eq_ignore_case(l, r) {
                    let text = l + " "@ + op_symbol(op) + " 0"@;
                    match operand_expression_spec(l) {
                        Some(le) => Some(binop(op, le, ExprV::IntegerLiteral(0))),
                        None => Some(comment_condition_spec(text, setup_disasm, branch_disasm)),
                    }
                } else {
                    let text = "("@ + l + " & "@ + r + ") "@ + op_symbol(op) + " 0"@;
                    if operand_expression_spec(l) is None || operand_expression_spec(r) is None {
                        Some(comment_condition_spec(text, setup_disasm, branch_disasm))
                    } else {
                        Some(
                            binop(
                                op,
                                binop(
                                    BinaryOperator::BitwiseAnd,
                                    operand_expression_spec(l).unwrap(),
                                    operand_expression_spec(r).unwrap(),
                                ),
                                ExprV::IntegerLiteral(0),
                            ),
                        )
                    }
                }
            },
            None => None,
        },
        None => None,
    }
}

/// The condition recovered from the placeholder before a branch: a
/// comparison or test whose text the branch's mnemonic completes.
pub open spec fn recovered_condition_spec(
    body: Seq<StmtV>,
    branch_index: usize,
    branch_disasm: Seq<char>,
) -> Option<ExprV> {
    if branch_index < 1 || branch_index - 1 >= body.len() {
        None
    } else {
        match body[branch_index - 1] {
            StmtV::InlineAsm { address, disasm } => match split_instruction_spec(disasm) {
                Some((sm, sops)) => match split_instruction_spec(branch_disasm) {
                    Some((bm, bops)) => if sm == "cmp"@ {
                        cmp_condition_spec(disasm, sops, branch_disasm, bm)
                    } else if sm == "test"@ {
                        test_condition_spec(disasm, sops, branch_disasm, bm)
                    } else {
                        None
                    },
                    None => None,
                },
                None => None,
            },
            _ => None,
        }
    }
}

/// The condition of the branch placeholder at `branch_index`: recovered, or
/// a comment naming its address and text.
pub open spec fn branch_condition_spec(body: Seq<StmtV>, branch_index: usize) -> Option<ExprV> {
    if 0 <= branch_index < body.len() {
        match body[branch_index as int] {
            StmtV::InlineAsm { address, disasm } => match recovered_condition_spec(
                body,
                branch_index,
                disasm,
            ) {
                Some(e) => Some(e),
                None => Some(
                    ExprV::Unknown(
                        "/* condition: 0x"@ + hex_text(address as nat, true) + " "@
                            + sanitize_comment_seq(disasm) + " */ 1"@,
                    ),
                ),
            },
            _ => None,
        }
    } else {
        None
    }
}

/// The condition a `cmp` text and the conditional jump after it test.
pub fn recover_cmp_condition(
    setup_disasm: &str,
    operands: &str,
    branch_disasm: &str,
    branch_mnemonic: &str,
) -> (r: Option<Expression>)
    ensures
        opt_expr_view(r) == cmp_condition_spec(
            setup_disasm@,
            operands@,
            branch_disasm@,
            branch_mnemonic@,
        ),
{
    let (left, right) = match split_operands(operands) {
        Some(p) => p,
        None => {
            return None;
        },
    };
    let op = match cmp_operator_for_branch(branch_mnemonic) {
        Some(o) => o,
        None => {
            return None;
        },
    };
    let expression_text = texts3(left.as_str(), op.symbol(), right.as_str());
    let left_expr = match operand_expression(left.as_str()) {
        Some(e) => e,
        None => {
            return Some(comment_condition(expression_text.as_str(), setup_disasm, branch_disasm));
        },
    };
    let right_expr = match operand_expression(right.as_str()) {
        Some(e) => e,
        None => {
            return Some(comment_condition(expression_text.as_str(), setup_disasm, branch_disasm));
        },
    };
    proof {
        reveal_with_fuel(expr_v, 2);
    }
    Some(Expression::BinaryOperation { op, left: Box::new(left_expr), right: Box::new(right_expr) })
}

/// The condition a `test` text and the conditional jump after it test.
pub fn recover_test_condition(
    setup_disasm: &str,
    operands: &str,
    branch_disasm: &str,
    branch_mnemonic: &str,
) -> (r: Option<Expression>)
    ensures
        opt_expr_view(r) == test_condition_spec(
            setup_disasm@,
            operands@,
            branch_disasm@,
            branch_mnemonic@,
        ),
{
    let (left, right) = match split_operands(operands) {
        Some(p) => p,
        None => {
            return None;
        },
    };
    let zero = match branch_is_zero(branch_mnemonic) {
        Some(z) => z,
        None => {
            return None;
        },
    };
    let op = if zero {
        BinaryOperator::Equal
    } else {
        BinaryOperator::NotEqual
    };
    if eq_ignore_case_exec(&chars_of(left.as_str()), &chars_of(right.as_str())) {
        let mut t: Vec<char> = Vec::new();
        extend_chars(&mut t, left.as_str());
        extend_chars(&mut t, " ");
        extend_chars(&mut t, op.symbol());
        extend_chars(&mut t, " 0");
        let text = string_of(&t);
        proof {
            assert(text@ =~= left@ + " "@ + op_symbol(op) + " 0"@);
        }
        return match operand_expression(left.as_str()) {
            Some(le) => {
                proof {
                    reveal_with_fuel(expr_v, 2);
                }
                Some(
                    Expression::BinaryOperation {
                        op,
                        left: Box::new(le),
                        right: Box::new(Expression::IntegerLiteral(0)),
                    },
                )
            },
            None => Some(comment_condition(text.as_str(), setup_disasm, branch_disasm)),
        };
    }
    let mut t: Vec<char> = Vec::new();
    extend_chars(&mut t, "(");
    extend_chars(&mut t, left.as_str());
    extend_chars(&mut t, " & ");
    extend_chars(&mut t, right.as_str());
    extend_chars(&mut t, ") ");
    extend_chars(&mut t, op.symbol());
    extend_chars(&mut t, " 0");
    let text = string_of(&t);
    proof {
        assert(text@ =~= "("@ + left@ + " & "@ + right@ + ") "@ + op_symbol(op) + " 0"@);
    }
    let left_expr = match operand_expression(left.as_str()) {
        Some(e) => e,
        None => {
            return Some(comment_condition(text.as_str(), setup_disasm, branch_disasm));
        },
    };
    let right_expr = match operand_expression(right.as_str()) {
        Some(e) => e,
        None => {
            return Some(comment_condition(text.as_str(), setup_disasm, branch_disasm));
        },
    };
    proof {
        reveal_with_fuel(expr_v, 3);
    }
    Some(
        Expression::BinaryOperation {
            op,
            left: Box::new(
                Expression::BinaryOperation {
                    op: BinaryOperator::BitwiseAnd,
                    left: Box::new(left_expr),
                    right: Box::new(right_expr),
                },
            ),
            right: Box::new(Expression::IntegerLiteral(0)),
        },
    )
}

/// The condition recovered from the comparison placeholder before a branch.
pub fn recovered_condition(function: &Function, branch_index: usize, branch_disasm: &str) -> (r:
    Option<Expression>)
    ensures
        opt_expr_view(r) == recovered_condition_spec(
            function@.body,
            branch_index,
            branch_disasm@,
        ),
{
    if branch_index < 1 || branch_index - 1 >= function.body.len() {
        return None;
    }
    let setup = &function.body[branch_index - 1];
    assert(function@.body[branch_index - 1] == setup@);
    match setup {
        Statement::InlineAsm { disasm: setup_disasm, .. } => {
            let (setup_mnemonic, setup_operands) = match split_instruction(setup_disasm.as_str()) {
                Some(p) => p,
                None => {
                    return None;
                },
            };
            let (branch_mnemonic, _) = match split_instruction(branch_disasm) {
                Some(p) => p,
                None => {
                    return None;
                },
            };
            let sm = chars_of(setup_mnemonic.as_str());
            if eq_str(&sm, "cmp") {
                recover_cmp_condition(
                    setup_disasm.as_str(),
                    setup_operands.as_str(),
                    branch_disasm,
                    branch_mnemonic.as_str(),
                )
            } else if eq_str(&sm, "test") {
                recover_test_condition(
                    setup_disasm.as_str(),
                    setup_operands.as_str(),
                    branch_disasm,
                    branch_mnemonic.as_str(),
                )
            } else {
                None
            }
        },
        _ => None,
    }
}

/// The condition of the branch placeholder at `branch_index`.
pub fn branch_condition(function: &Function, branch_index: usize) -> (r: Option<Expression>)
    ensures
        opt_expr_view(r) == branch_condition_spec(function@.body, branch_index),
{
    if branch_index >= function.body.len() {
        return None;
    }
    let stmt = &function.body[branch_index];
    assert(function@.body[branch_index as int] == stmt@);
    match stmt {
        Statement::InlineAsm { address, disasm } => {
            match recovered_condition(function, branch_index, disasm.as_str()) {
                Some(e) => Some(e),
                None => {
                    let mut out: Vec<char> = Vec::new();
                    extend_chars(&mut out, "/* condition: 0x");
                    push_hex(&mut out, *address, true);
                    extend_chars(&mut out, " ");
                    extend_slice(&mut out, &sanitize_comment_chars(&chars_of(disasm.as_str())));
                    extend_chars(&mut out, " */ 1");
                    Some(Expression::Unknown(string_of(&out)))
                },
            }
        },
        _ => None,
    }
}

// ---------------------------------------------------------------------------
// Declarations of pseudo-registers and stack variables
// ---------------------------------------------------------------------------

/// Lexicographic order of character sequences by code point, the order of
/// `String`s.
pub open spec fn lex_lt(a: Seq<char>, b: Seq<char>) -> bool
    decreases a.len(),
{
    if a.len() == 0 {
        b.len() > 0
    } else if b.len() == 0 {
        false
    } else if a[0] != b[0] {
        a[0] < b[0]
    } else {
        lex_lt(a.drop_first(), b.drop_first())
    }
}

pub open spec fn strictly_sorted(s: Seq<Seq<char>>) -> bool {
    forall|i: int, j: int| 0 <= i < j < s.len() ==> lex_lt(#[trigger] s[i], #[trigger] s[j])
}

/// Law: no name sorts before itself.
pub proof fn lemma_lex_irreflexive(a: Seq<char>)
    ensures
        !lex_lt(a, a),
    decreases a.len(),
{
    if a.len() > 0 {
        lemma_lex_irreflexive(a.drop_first());
    }
}

/// Law: the name order is transitive.
pub proof fn lemma_lex_transitive(a: Seq<char>, b: Seq<char>, c: Seq<char>)
    requires
        lex_lt(a, b),
        lex_lt(b, c),
    ensures
        lex_lt(a, c),
    decreases a.len(),
{
    if a.len() > 0 && b.len() > 0 && c.len() > 0 && a[0] == b[0] && b[0] == c[0] {
        lemma_lex_transitive(a.drop_first(), b.drop_first(), c.drop_first());
    }
}

/// Law: of two different names, one sorts before the other.
pub proof fn lemma_lex_total(a: Seq<char>, b: Seq<char>)
    requires
        a != b,
    ensures
        lex_lt(a, b) || lex_lt(b, a),
    decreases a.len(),
{
    if a.len() > 0 && b.len() > 0 && a[0] == b[0] {
        if a.drop_first() == b.drop_first() {
            assert(a =~= seq![a[0]] + a.drop_first());
            assert(b =~= seq![b[0]] + b.drop_first());
            assert(a == b);
        } else {
            lemma_lex_total(a.drop_first(), b.drop_first());
        }
    } else if a.len() == 0 && b.len() == 0 {
        assert(a =~= b);
    }
}

pub open spec fn pseudo_name(n: Seq<char>) -> Set<Seq<char>> {
    if is_register_name_spec(n) {
        set![canonical_reg(lower_seq(n))]
    } else if is_stack_variable_name_spec(n) {
        set![lower_seq(n)]
    } else {
        Set::empty()
    }
}

/// The registers and stack variables an expression uses, by canonical name.
pub open spec fn expr_pseudo(e: ExprV) -> Set<Seq<char>>
    decreases e,
{
    match e {
        ExprV::Variable(n) => pseudo_name(n),
        ExprV::BinaryOperation { op, left, right } => expr_pseudo(*left).union(expr_pseudo(*right)),
        ExprV::UnaryOperation { op, operand } => expr_pseudo(*operand),
        ExprV::FunctionCall { function, arguments } => exprs_pseudo(arguments),
        ExprV::Assignment { target, value } => expr_pseudo(*target).union(expr_pseudo(*value)),
        ExprV::Cast { type_info, value } => expr_pseudo(*value),
        ExprV::AddressOf(x) => expr_pseudo(*x),
        ExprV::Dereference(x) => expr_pseudo(*x),
        ExprV::ArrayAccess { array, index } => expr_pseudo(*array).union(expr_pseudo(*index)),
        ExprV::MemberAccess { object, member } => expr_pseudo(*object),
        _ => Set::empty(),
    }
}

pub open spec fn exprs_pseudo(s: Seq<ExprV>) -> Set<Seq<char>>
    decreases s,
{
    if s.len() == 0 {
        Set::empty()
    } else {
        exprs_pseudo(s.drop_last()).union(expr_pseudo(s.last()))
    }
}

pub open spec fn opt_expr_pseudo(e: Option<ExprV>) -> Set<Seq<char>> {
    match e {
        Some(x) => expr_pseudo(x),
        None => Set::empty(),
    }
}

/// The registers and stack variables a statement uses, nested blocks included.
pub open spec fn stmt_pseudo(s: StmtV) -> Set<Seq<char>>
    decreases s,
{
    match s {
        StmtV::Expression(e) => expr_pseudo(e),
        StmtV::Return(e) => opt_expr_pseudo(e),
        StmtV::If { condition, then_block, else_block } => expr_pseudo(condition).union(
            block_pseudo(then_block),
        ).union(
            match else_block {
                Some(b) => block_pseudo(b),
                None => Set::empty(),
            },
        ),
        StmtV::While { condition, body } => expr_pseudo(condition).union(block_pseudo(body)),
        StmtV::For { init, condition, update, body } => (match init {
            Some(i) => stmt_pseudo(*i),
            None => Set::empty(),
        }).union(opt_expr_pseudo(condition)).union(opt_expr_pseudo(update)).union(
            block_pseudo(body),
        ),
        StmtV::VariableDeclaration { name, type_info, init } => opt_expr_pseudo(init),
        StmtV::Block(b) => block_pseudo(b),
        _ => Set::empty(),
    }
}

pub open spec fn block_pseudo(b: Seq<StmtV>) -> Set<Seq<char>>
    decreases b,
{
    if b.len() == 0 {
        Set::empty()
    } else {
        block_pseudo(b.drop_last()).union(stmt_pseudo(b.last()))
    }
}

pub open spec fn declares(s: StmtV, n: Seq<char>) -> bool {
    match s {
        StmtV::VariableDeclaration { name, type_info, init } => name == n,
        _ => false,
    }
}

/// Names a function already declares: top-level variables and parameters.
pub open spec fn existing_names(f: FunctionV) -> Set<Seq<char>> {
    Set::new(
        |n: Seq<char>|
            (exists|i: int| 0 <= i < f.body.len() && #[trigger] declares(f.body[i], n)) || (exists|
                j: int,
            |
                0 <= j < f.parameters.len() && #[trigger] f.parameters[j].name == n),
    )
}

pub open spec fn register_declaration(n: Seq<char>) -> StmtV {
    StmtV::VariableDeclaration { name: n, type_info: TypeV::U64, init: None }
}

pub open spec fn declarations_for(names: Seq<Seq<char>>) -> Seq<StmtV> {
    names.map_values(|n: Seq<char>| register_declaration(n))
}

/// Whether `a` comes before `b` in code-point order.
pub fn lex_less(a: &[char], b: &[char]) -> (r: bool)
    ensures
        r == lex_lt(a@, b@),
{
    let mut i: usize = 0;
    proof {
        assert(a@.skip(0) =~= a@);
        assert(b@.skip(0) =~= b@);
    }
    while i < a.len() && i < b.len() && a[i] == b[i]
        invariant
            i <= a@.len(),
            i <= b@.len(),
            lex_lt(a@, b@) == lex_lt(a@.skip(i as int), b@.skip(i as int)),
        decreases a@.len() - i,
    {
        proof {
            assert(a@.skip(i as int).drop_first() =~= a@.skip(i + 1));
            assert(b@.skip(i as int).drop_first() =~= b@.skip(i + 1));
        }
        i = i + 1;
    }
    if i == a.len() {
        i < b.len()
    } else if i == b.len() {
        false
    } else {
        a[i] < b[i]
    }
}

/// Adds a name to a strictly sorted list, keeping it strictly sorted.
fn insert_sorted(v: &mut Vec<String>, x: String)
    requires
        strictly_sorted(names_of(old(v)@)),
    ensures
        strictly_sorted(names_of(final(v)@)),
        forall|n: Seq<char>|
            #![trigger names_of(final(v)@).contains(n)]
            names_of(final(v)@).contains(n) == (names_of(old(v)@).contains(n) || n == x@),
{
    let ghost old_names = names_of(v@);
    let xs = chars_of(x.as_str());
    let mut p: usize = 0;
    while p < v.len() && lex_less(&chars_of(v[p].as_str()), &xs)
        invariant
            p <= v@.len(),
            xs@ == x@,
            v@ == old(v)@,
            old_names == names_of(v@),
            strictly_sorted(old_names),
            forall|i: int| 0 <= i < p ==> lex_lt(#[trigger] old_names[i], x@),
        decreases v@.len() - p,
    {
        p = p + 1;
    }
    if p < v.len() && eq_str(&xs, v[p].as_str()) {
        proof {
            assert(old_names[p as int] == x@);
        }
        return;
    }
    proof {
        if p < v@.len() {
            assert(!lex_lt(old_names[p as int], x@));
            assert(old_names[p as int] != x@);
            lemma_lex_total(old_names[p as int], x@);
        }
    }
    v.insert(p, x);
    proof {
        let nn = names_of(v@);
        assert(nn =~= old_names.insert(p as int, xs@));
        assert forall|i: int, j: int| 0 <= i < j < nn.len() implies lex_lt(
            #[trigger] nn[i],
            #[trigger] nn[j],
        ) by {
            if j < p {
                assert(nn[i] == old_names[i] && nn[j] == old_names[j]);
            } else if j == p {
                assert(nn[i] == old_names[i]);
            } else if i == p {
                assert(nn[j] == old_names[j - 1]);
                if j - 1 > p {
                    assert(lex_lt(old_names[p as int], old_names[j - 1]));
                    lemma_lex_transitive(x@, old_names[p as int], old_names[j - 1]);
                }
            } else if i < p {
                assert(nn[i] == old_names[i] && nn[j] == old_names[j - 1]);
                if i < j - 1 {
                } else {
                }
            } else {
                assert(nn[i] == old_names[i - 1] && nn[j] == old_names[j - 1]);
            }
        }
        assert forall|n: Seq<char>| #![trigger nn.contains(n)] nn.contains(n) == (old_names.contains(n) || n == x@) by {
            if nn.contains(n) {
                let k = choose|k: int| 0 <= k < nn.len() && nn[k] == n;
                if k < p {
                    assert(old_names[k] == n);
                } else if k > p {
                    assert(old_names[k - 1] == n);
                }
            }
            if old_names.contains(n) {
                let k = choose|k: int| 0 <= k < old_names.len() && old_names[k] == n;
                if k < p {
                    assert(nn[k] == n);
                } else {
                    assert(nn[k + 1] == n);
                }
            }
            if n == x@ {
                assert(nn[p as int] == n);
            }
        }
    }
}

/// Records, sorted, the registers and stack variables an expression uses.
fn collect_pseudo_registers_from_expression(expr: &Expression, registers: &mut Vec<String>)
    requires
        strictly_sorted(names_of(old(registers)@)),
    ensures
        strictly_sorted(names_of(final(registers)@)),
        forall|n: Seq<char>|
            #![trigger names_of(final(registers)@).contains(n)]
            names_of(final(registers)@).contains(n) == (names_of(old(registers)@).contains(n)
                || expr_pseudo(expr@).contains(n)),
    decreases expr,
{
    match expr {
        Expression::Variable(name) => {
            if is_register_name(name.as_str()) {
                insert_sorted(registers, canonicalize_register_name(name.as_str()));
            } else if is_stack_variable_name(name.as_str()) {
                insert_sorted(registers, string_of(&lower_chars(&chars_of(name.as_str()))));
            }
        },
        Expression::BinaryOperation { left, right, .. } => {
            collect_pseudo_registers_from_expression(left, registers);
            collect_pseudo_registers_from_expression(right, registers);
        },
        Expression::UnaryOperation { operand, .. } => {
            collect_pseudo_registers_from_expression(operand, registers);
        },
        Expression::FunctionCall { arguments, .. } => {
            let ghost av = crate::decompiler::ast::exprs_v(arguments@);
            let ghost start = names_of(registers@);
            let mut i: usize = 0;
            proof {
                assert(decreases_to!(*expr => *arguments));
                assert(av.take(0) =~= seq![]);
            }
            while i < arguments.len()
                invariant
                    decreases_to!(*expr => *arguments),
                    i <= arguments@.len(),
                    av == crate::decompiler::ast::exprs_v(arguments@),
                    strictly_sorted(names_of(registers@)),
                    forall|n: Seq<char>|
                        #![trigger names_of(registers@).contains(n)]
                        names_of(registers@).contains(n) == (start.contains(n) || exprs_pseudo(
                            av.take(i as int),
                        ).contains(n)),
                decreases arguments@.len() - i,
            {
                proof {
                    vstd::std_specs::vec::axiom_vec_index_decreases(*arguments, i as int);
                    assert(decreases_to!(expr => arguments@[i as int]));
                    assert(av.take(i + 1).drop_last() =~= av.take(i as int));
                }
                collect_pseudo_registers_from_expression(&arguments[i], registers);
                i = i + 1;
            }
            proof {
                assert(av.take(av.len() as int) =~= av);
            }
        },
        Expression::Assignment { target, value } => {
            collect_pseudo_registers_from_expression(target, registers);
            collect_pseudo_registers_from_expression(value, registers);
        },
        Expression::Cast { value, .. } => {
            collect_pseudo_registers_from_expression(value, registers);
        },
        Expression::AddressOf(x) => {
            collect_pseudo_registers_from_expression(x, registers);
        },
        Expression::Dereference(x) => {
            collect_pseudo_registers_from_expression(x, registers);
        },
        Expression::ArrayAccess { array, index } => {
            collect_pseudo_registers_from_expression(array, registers);
            collect_pseudo_registers_from_expression(index, registers);
        },
        Expression::MemberAccess { object, .. } => {
            collect_pseudo_registers_from_expression(object, registers);
        },
        _ => {},
    }
}

fn collect_pseudo_registers_from_opt(expr: &Option<Expression>, registers: &mut Vec<String>)
    requires
        strictly_sorted(names_of(old(registers)@)),
    ensures
        strictly_sorted(names_of(final(registers)@)),
        forall|n: Seq<char>|
            #![trigger names_of(final(registers)@).contains(n)]
            names_of(final(registers)@).contains(n) == (names_of(old(registers)@).contains(n)
                || opt_expr_pseudo(crate::decompiler::ast::opt_expr_v(expr)).contains(n)),
{
    match expr {
        Some(e) => collect_pseudo_registers_from_expression(e, registers),
        None => {},
    }
}

/// Records, sorted, the registers and stack variables a statement uses.
fn collect_pseudo_registers_from_statement(statement: &Statement, registers: &mut Vec<String>)
    requires
        strictly_sorted(names_of(old(registers)@)),
    ensures
        strictly_sorted(names_of(final(registers)@)),
        forall|n: Seq<char>|
            #![trigger names_of(final(registers)@).contains(n)]
            names_of(final(registers)@).contains(n) == (names_of(old(registers)@).contains(n)
                || stmt_pseudo(statement@).contains(n)),
    decreases statement, 0nat,
{
    match statement {
        Statement::Expression(expr) => collect_pseudo_registers_from_expression(expr, registers),
        Statement::Return(e) => collect_pseudo_registers_from_opt(e, registers),
        Statement::If { condition, then_block, else_block } => {
            collect_pseudo_registers_from_expression(condition, registers);
            collect_pseudo_registers_from_block(then_block, registers);
            match else_block {
                Some(b) => collect_pseudo_registers_from_block(b, registers),
                None => {},
            }
        },
        Statement::While { condition, body } => {
            collect_pseudo_registers_from_expression(condition, registers);
            collect_pseudo_registers_from_block(body, registers);
        },
        Statement::For { init, condition, update, body } => {
            match init {
                Some(i) => collect_pseudo_registers_from_statement(i, registers),
                None => {},
            }
            collect_pseudo_registers_from_opt(condition, registers);
            collect_pseudo_registers_from_opt(update, registers);
            collect_pseudo_registers_from_block(body, registers);
        },
        Statement::VariableDeclaration { init, .. } => collect_pseudo_registers_from_opt(
            init,
            registers,
        ),
        Statement::Block(statements) => collect_pseudo_registers_from_block(statements, registers),
        _ => {},
    }
}

fn collect_pseudo_registers_from_block(b: &Vec<Statement>, registers: &mut Vec<String>)
    requires
        strictly_sorted(names_of(old(registers)@)),
    ensures
        strictly_sorted(names_of(final(registers)@)),
        forall|n: Seq<char>|
            #![trigger names_of(final(registers)@).contains(n)]
            names_of(final(registers)@).contains(n) == (names_of(old(registers)@).contains(n)
                || block_pseudo(stmts_v(b@)).contains(n)),
    decreases b, 1nat,
{
    let ghost sv = stmts_v(b@);
    let ghost start = names_of(registers@);
    let mut i: usize = 0;
    proof {
        assert(sv.take(0) =~= seq![]);
    }
    while i < b.len()
        invariant
            i <= b@.len(),
            sv == stmts_v(b@),
            strictly_sorted(names_of(registers@)),
            forall|n: Seq<char>|
                #![trigger names_of(registers@).contains(n)]
                names_of(registers@).contains(n) == (start.contains(n) || block_pseudo(
                    sv.take(i as int),
                ).contains(n)),
        decreases b@.len() - i,
    {
        proof {
            vstd::std_specs::vec::axiom_vec_index_decreases(*b, i as int);
            assert(sv.take(i + 1).drop_last() =~= sv.take(i as int));
        }
        collect_pseudo_registers_from_statement(&b[i], registers);
        i = i + 1;
    }
    proof {
        assert(sv.take(sv.len() as int) =~= sv);
    }
}

/// Declares, first and in name order, every register and stack variable the
/// body uses that is not already a top-level variable or a parameter.
pub fn insert_pseudo_register_declarations(function: &mut Function)
    ensures
        final(function)@.name == old(function)@.name,
        final(function)@.return_type == old(function)@.return_type,
        final(function)@.parameters == old(function)@.parameters,
        final(function)@.is_variadic == old(function)@.is_variadic,
        exists|names: Seq<Seq<char>>|
            {
                &&& strictly_sorted(names)
                &&& forall|n: Seq<char>|
                    #![trigger names.contains(n)]
                    names.contains(n) == (block_pseudo(old(function)@.body).contains(n)
                        && !existing_names(old(function)@).contains(n))
                &&& final(function)@.body == declarations_for(names) + old(function)@.body
            },
{
    let ghost f0 = function@;
    let mut existing: Vec<String> = Vec::new();
    let mut i: usize = 0;
    while i < function.body.len()
        invariant
            i <= function.body@.len(),
            function@ == f0,
            forall|n: Seq<char>|
                #![trigger names_of(existing@).contains(n)]
                names_of(existing@).contains(n) == (exists|k: int|
                    0 <= k < i && #[trigger] declares(f0.body[k], n)),
        decreases function.body@.len() - i,
    {
        let ghost before = names_of(existing@);
        proof {
            assert(f0.body[i as int] == stmt_v(&function.body@[i as int]));
        }
        match &function.body[i] {
            Statement::VariableDeclaration { name, .. } => {
                existing.push(name.clone());
                proof {
                    broadcast use vstd::seq_lib::lemma_seq_contains_after_push;
                    assert(names_of(existing@) =~= before.push(name@));
                    assert(declares(f0.body[i as int], name@));
                    assert forall|n: Seq<char>| #![trigger names_of(existing@).contains(n)]
                        names_of(existing@).contains(n) == (exists|k: int|
                            0 <= k < i + 1 && #[trigger] declares(f0.body[k], n)) by {
                        if exists|k: int| 0 <= k < i + 1 && #[trigger] declares(f0.body[k], n) {
                            let k = choose|k: int| 0 <= k < i + 1 && #[trigger] declares(f0.body[k], n);
                            if k < i {
                                assert(before.contains(n));
                            }
                        }
                        if before.contains(n) {
                            let k = choose|k: int| 0 <= k < i && #[trigger] declares(f0.body[k], n);
                            assert(0 <= k < i + 1 && declares(f0.body[k], n));
                        }
                    }
                }
            },
            _ => {
                proof {
                    assert forall|n: Seq<char>| #![trigger names_of(existing@).contains(n)]
                        names_of(existing@).contains(n) == (exists|k: int|
                            0 <= k < i + 1 && #[trigger] declares(f0.body[k], n)) by {
                        if exists|k: int| 0 <= k < i + 1 && #[trigger] declares(f0.body[k], n) {
                            let k = choose|k: int| 0 <= k < i + 1 && #[trigger] declares(f0.body[k], n);
                            assert(k < i);
                        }
                        if before.contains(n) {
                            let k = choose|k: int| 0 <= k < i && #[trigger] declares(f0.body[k], n);
                            assert(0 <= k < i + 1 && declares(f0.body[k], n));
                        }
                    }
                }
            },
        }
        i = i + 1;
    }
    let mut j: usize = 0;
    let ghost body_names = names_of(existing@);
    while j < function.parameters.len()
        invariant
            j <= function.parameters@.len(),
            function@ == f0,
            forall|n: Seq<char>|
                #![trigger names_of(existing@).contains(n)]
                names_of(existing@).contains(n) == (body_names.contains(n) || exists|k: int|
                    0 <= k < j && #[trigger] f0.parameters[k].name == n),
        decreases function.parameters@.len() - j,
    {
        let ghost before = names_of(existing@);
        existing.push(function.parameters[j].name.clone());
        proof {
            assert(names_of(existing@) =~= before.push(f0.parameters[j as int].name));
            assert forall|n: Seq<char>| #![trigger names_of(existing@).contains(n)]
                names_of(existing@).contains(n) == (body_names.contains(n) || exists|k: int|
                    0 <= k < j + 1 && #[trigger] f0.parameters[k].name == n) by {
                broadcast use vstd::seq_lib::lemma_seq_contains_after_push;
                if exists|k: int| 0 <= k < j + 1 && #[trigger] f0.parameters[k].name == n {
                    let k = choose|k: int| 0 <= k < j + 1 && #[trigger] f0.parameters[k].name == n;
                    if k == j {
                        assert(n == f0.parameters[j as int].name);
                    }
                }
            }
        }
        j = j + 1;
    }
    proof {
        assert forall|n: Seq<char>| #![trigger names_of(existing@).contains(n)]
            names_of(existing@).contains(n) == existing_names(f0).contains(n) by {}
    }
    let mut registers: Vec<String> = Vec::new();
    collect_pseudo_registers_from_block(&function.body, &mut registers);
    let ghost regs = names_of(registers@);
    let mut decls: Vec<Statement> = Vec::new();
    let ghost mut names: Seq<Seq<char>> = seq![];
    let mut k: usize = 0;
    while k < registers.len()
        invariant
            k <= registers@.len(),
            regs == names_of(registers@),
            strictly_sorted(regs),
            stmts_v(decls@) == declarations_for(names),
            forall|a: int, b: int|
                0 <= a < b < names.len() ==> lex_lt(#[trigger] names[a], #[trigger] names[b]),
            forall|a: int| #![trigger names[a]] 0 <= a < names.len() ==> exists|q: int| 0 <= q < k && regs[q] == names[a],
            forall|q: int|
                #![trigger regs[q]]
                0 <= q < k ==> (names.contains(regs[q]) || names_of(existing@).contains(regs[q])),
            forall|n: Seq<char>| #![trigger names.contains(n)] names.contains(n) ==> !names_of(existing@).contains(n),
        decreases registers@.len() - k,
    {
        let name = &registers[k];
        let ghost old_names = names;
        assert(regs[k as int] == name@);
        if !contains_name(&existing, name.as_str()) {
            let ghost before = decls@;
            let d = Statement::VariableDeclaration {
                name: name.clone(),
                type_info: TypeInfo::U64,
                init: None,
            };
            assert(stmt_v(&d) == register_declaration(name@));
            decls.push(d);
            proof {
                broadcast use vstd::seq_lib::lemma_seq_contains_after_push;
                assert forall|a: int| 0 <= a < old_names.len() implies lex_lt(
                    old_names[a],
                    regs[k as int],
                ) by {
                    let q = choose|q: int| 0 <= q < k && regs[q] == old_names[a];
                }
                names = old_names.push(name@);
                assert(stmts_v(decls@) =~= declarations_for(names)) by {
                    assert(stmts_v(before).len() == before.len());
                    assert(declarations_for(old_names).len() == old_names.len());
                    assert(decls@.len() == before.len() + 1);
                    assert(stmts_v(decls@).len() == names.len());
                    assert forall|t: int| 0 <= t < names.len() implies #[trigger] stmts_v(decls@)[t]
                        == declarations_for(names)[t] by {
                        assert(stmts_v(before).len() == before.len());
                        assert(declarations_for(old_names).len() == old_names.len());
                        if t < old_names.len() {
                            assert(stmts_v(before)[t] == declarations_for(old_names)[t]);
                            assert(decls@[t] == before[t]);
                        }
                    }
                }
                assert forall|a: int| #![trigger names[a]] 0 <= a < names.len() implies exists|q: int|
                    0 <= q < k + 1 && regs[q] == names[a] by {
                    if a < old_names.len() {
                        assert(names[a] == old_names[a]);
                        let q = choose|q: int| 0 <= q < k && regs[q] == old_names[a];
                        assert(0 <= q < k + 1 && regs[q] == names[a]);
                    } else {
                        assert(0 <= k < k + 1 && regs[k as int] == names[a]);
                    }
                }
            }
        } else {
            proof {
                assert forall|a: int| #![trigger names[a]] 0 <= a < names.len() implies exists|q: int|
                    0 <= q < k + 1 && regs[q] == names[a] by {
                    let q = choose|q: int| 0 <= q < k && regs[q] == names[a];
                    assert(0 <= q < k + 1 && regs[q] == names[a]);
                }
            }
        }
        proof {
            broadcast use vstd::seq_lib::lemma_seq_contains_after_push;
        }
        k = k + 1;
    }
    let ghost old_body = function@.body;
    decls.append(&mut function.body);
    function.body = decls;
    proof {
        assert forall|n: Seq<char>| #![trigger names.contains(n)]
            names.contains(n) == (block_pseudo(f0.body).contains(n) && !existing_names(f0).contains(n)) by {
            if regs.contains(n) && !existing_names(f0).contains(n) {
                let q = choose|q: int| 0 <= q < regs.len() && regs[q] == n;
                assert(names.contains(regs[q]) || names_of(existing@).contains(regs[q]));
            }
            if names.contains(n) {
                let a = choose|a: int| 0 <= a < names.len() && names[a] == n;
                let q = choose|q: int| 0 <= q < k && regs[q] == names[a];
                assert(regs.contains(n));
            }
        }
        assert(function@.body =~= declarations_for(names) + f0.body);
        assert(strictly_sorted(names));
    }
}

fn contains_name(v: &Vec<String>, s: &str) -> (r: bool)
    ensures
        r == names_of(v@).contains(s@),
{
    let target = chars_of(s);
    let mut i: usize = 0;
    while i < v.len()
        invariant
            i <= v@.len(),
            target@ == s@,
            forall|j: int| 0 <= j < i ==> v@[j]@ != s@,
        decreases v@.len() - i,
    {
        if eq_str(&target, v[i].as_str()) {
            assert(names_of(v@)[i as int] == s@);
            return true;
        }
        i = i + 1;
    }
    false
}

} // verus!
