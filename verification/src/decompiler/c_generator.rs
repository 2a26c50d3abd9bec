//! C code generator from the AST.

use crate::analysis::types::{c_type_name, type_v, TypeInfo, TypeV};
use crate::decompiler::ast::{
    expr_v, exprs_v, opt_expr_v, stmt_v, stmts_v, BinaryOperator, ExprV, Expression, Function,
    Parameter, ParameterV, Statement, StmtV, UnaryOperator,
};
use crate::decompiler::c_syntax::{
    closes_comment_at, lemma_sanitized_comment_never_closes, quote_c_string, quote_seq, sanitize_c_comment, sanitize_c_identifier, sanitize_comment_seq,
    sanitize_ident,
};
use crate::text::{chars_of, extend_chars, extend_slice, hex_text, int_text, push_hex, push_int, string_of};
use vstd::prelude::*;

verus! {

broadcast use vstd::std_specs::vec::group_vec_axioms;

/// C generator configuration
#[derive(Debug, Clone)]
pub struct CGeneratorConfig {
    /// Indentation size
    pub indent_size: usize,
    /// Whether to include comments
    pub include_comments: bool,
    /// Whether to use stdint.h types
    pub use_stdint: bool,
}

impl Default for CGeneratorConfig {
    /// The default configuration: four-space indentation, comments and stdint types.
    fn default() -> (r: Self)
        ensures
            r.indent_size == 4,
            r.include_comments,
            r.use_stdint,
    {
        CGeneratorConfig { indent_size: 4, include_comments: true, use_stdint: true }
    }
}

/// C code generator
pub struct CGenerator {
    config: CGeneratorConfig,
    indent_level: usize,
}

// ---------------------------------------------------------------------------
// What the generator prints, over the views of the AST
// ---------------------------------------------------------------------------

pub open spec fn spaces(n: nat) -> Seq<char> {
    Seq::new(n, |i: int| ' ')
}

pub open spec fn binary_op_text(op: BinaryOperator) -> Seq<char> {
    match op {
        BinaryOperator::Add => "+"@,
        BinaryOperator::Subtract => "-"@,
        BinaryOperator::Multiply => "*"@,
        BinaryOperator::Divide => "/"@,
        BinaryOperator::Modulo => "%"@,
        BinaryOperator::Equal => "=="@,
        BinaryOperator::NotEqual => "!="@,
        BinaryOperator::LessThan => "<"@,
        BinaryOperator::LessThanOrEqual => "<="@,
        BinaryOperator::GreaterThan => ">"@,
        BinaryOperator::GreaterThanOrEqual => ">="@,
        BinaryOperator::LogicalAnd => "&&"@,
        BinaryOperator::LogicalOr => "||"@,
        BinaryOperator::BitwiseAnd => "&"@,
        BinaryOperator::BitwiseOr => "|"@,
        BinaryOperator::BitwiseXor => "^"@,
        BinaryOperator::LeftShift => "<<"@,
        BinaryOperator::RightShift => ">>"@,
    }
}

pub open spec fn unary_op_text(op: UnaryOperator) -> Seq<char> {
    match op {
        UnaryOperator::Negate => "-"@,
        UnaryOperator::LogicalNot => "!"@,
        UnaryOperator::BitwiseNot => "~"@,
        UnaryOperator::Address => "&"@,
        UnaryOperator::Dereference => "*"@,
    }
}

/// Law: every operator prints as its C operator: a binary operation as
/// `(left op right)` with `+ - * / %`, the comparisons, `&& ||`, `& | ^`
/// and `<< >>`, a unary one as the prefix `- ! ~ & *` before its operand.
pub proof fn lemma_operator_text(l: ExprV, r: ExprV)
    ensures
        expr_text(ExprV::BinaryOperation { op: BinaryOperator::Add, left: Box::new(l), right: Box::new(r) }) == "("@ + expr_text(l) + " "@ + "+"@ + " "@ + expr_text(r) + ")"@,
        expr_text(ExprV::BinaryOperation { op: BinaryOperator::Subtract, left: Box::new(l), right: Box::new(r) }) == "("@ + expr_text(l) + " "@ + "-"@ + " "@ + expr_text(r) + ")"@,
        expr_text(ExprV::BinaryOperation { op: BinaryOperator::Multiply, left: Box::new(l), right: Box::new(r) }) == "("@ + expr_text(l) + " "@ + "*"@ + " "@ + expr_text(r) + ")"@,
        expr_text(ExprV::BinaryOperation { op: BinaryOperator::Divide, left: Box::new(l), right: Box::new(r) }) == "("@ + expr_text(l) + " "@ + "/"@ + " "@ + expr_text(r) + ")"@,
        expr_text(ExprV::BinaryOperation { op: BinaryOperator::Modulo, left: Box::new(l), right: Box::new(r) }) == "("@ + expr_text(l) + " "@ + "%"@ + " "@ + expr_text(r) + ")"@,
        expr_text(ExprV::BinaryOperation { op: BinaryOperator::Equal, left: Box::new(l), right: Box::new(r) }) == "("@ + expr_text(l) + " "@ + "=="@ + " "@ + expr_text(r) + ")"@,
        expr_text(ExprV::BinaryOperation { op: BinaryOperator::NotEqual, left: Box::new(l), right: Box::new(r) }) == "("@ + expr_text(l) + " "@ + "!="@ + " "@ + expr_text(r) + ")"@,
        expr_text(ExprV::BinaryOperation { op: BinaryOperator::LessThan, left: Box::new(l), right: Box::new(r) }) == "("@ + expr_text(l) + " "@ + "<"@ + " "@ + expr_text(r) + ")"@,
        expr_text(ExprV::BinaryOperation { op: BinaryOperator::LessThanOrEqual, left: Box::new(l), right: Box::new(r) }) == "("@ + expr_text(l) + " "@ + "<="@ + " "@ + expr_text(r) + ")"@,
        expr_text(ExprV::BinaryOperation { op: BinaryOperator::GreaterThan, left: Box::new(l), right: Box::new(r) }) == "("@ + expr_text(l) + " "@ + ">"@ + " "@ + expr_text(r) + ")"@,
        expr_text(ExprV::BinaryOperation { op: BinaryOperator::GreaterThanOrEqual, left: Box::new(l), right: Box::new(r) }) == "("@ + expr_text(l) + " "@ + ">="@ + " "@ + expr_text(r) + ")"@,
        expr_text(ExprV::BinaryOperation { op: BinaryOperator::LogicalAnd, left: Box::new(l), right: Box::new(r) }) == "("@ + expr_text(l) + " "@ + "&&"@ + " "@ + expr_text(r) + ")"@,
        expr_text(ExprV::BinaryOperation { op: BinaryOperator::LogicalOr, left: Box::new(l), right: Box::new(r) }) == "("@ + expr_text(l) + " "@ + "||"@ + " "@ + expr_text(r) + ")"@,
        expr_text(ExprV::BinaryOperation { op: BinaryOperator::BitwiseAnd, left: Box::new(l), right: Box::new(r) }) == "("@ + expr_text(l) + " "@ + "&"@ + " "@ + expr_text(r) + ")"@,
        expr_text(ExprV::BinaryOperation { op: BinaryOperator::BitwiseOr, left: Box::new(l), right: Box::new(r) }) == "("@ + expr_text(l) + " "@ + "|"@ + " "@ + expr_text(r) + ")"@,
        expr_text(ExprV::BinaryOperation { op: BinaryOperator::BitwiseXor, left: Box::new(l), right: Box::new(r) }) == "("@ + expr_text(l) + " "@ + "^"@ + " "@ + expr_text(r) + ")"@,
        expr_text(ExprV::BinaryOperation { op: BinaryOperator::LeftShift, left: Box::new(l), right: Box::new(r) }) == "("@ + expr_text(l) + " "@ + "<<"@ + " "@ + expr_text(r) + ")"@,
        expr_text(ExprV::BinaryOperation { op: BinaryOperator::RightShift, left: Box::new(l), right: Box::new(r) }) == "("@ + expr_text(l) + " "@ + ">>"@ + " "@ + expr_text(r) + ")"@,
        expr_text(ExprV::UnaryOperation { op: UnaryOperator::Negate, operand: Box::new(l) }) == "-"@ + expr_text(l),
        expr_text(ExprV::UnaryOperation { op: UnaryOperator::LogicalNot, operand: Box::new(l) }) == "!"@ + expr_text(l),
        expr_text(ExprV::UnaryOperation { op: UnaryOperator::BitwiseNot, operand: Box::new(l) }) == "~"@ + expr_text(l),
        expr_text(ExprV::UnaryOperation { op: UnaryOperator::Address, operand: Box::new(l) }) == "&"@ + expr_text(l),
        expr_text(ExprV::UnaryOperation { op: UnaryOperator::Dereference, operand: Box::new(l) }) == "*"@ + expr_text(l),
{
}

/// The C text of an expression.
pub open spec fn expr_text(e: ExprV) -> Seq<char>
    decreases e,
{
    match e {
        ExprV::IntegerLiteral(v) => int_text(v as int),
        ExprV::StringLiteral(s) => quote_seq(s),
        ExprV::Variable(n) => sanitize_ident(n, "var"@),
        ExprV::BinaryOperation { op, left, right } => "("@ + expr_text(*left) + " "@
            + binary_op_text(op) + " "@ + expr_text(*right) + ")"@,
        ExprV::UnaryOperation { op, operand } => unary_op_text(op) + expr_text(*operand),
        ExprV::FunctionCall { function, arguments } => sanitize_ident(function, "func"@) + "("@
            + args_text(arguments) + ")"@,
        ExprV::Assignment { target, value } => expr_text(*target) + " = "@ + expr_text(*value),
        ExprV::Cast { type_info, value } => "("@ + c_type_name(type_info) + ")"@ + expr_text(
            *value,
        ),
        ExprV::AddressOf(x) => "&"@ + expr_text(*x),
        ExprV::Dereference(x) => "*"@ + expr_text(*x),
        ExprV::ArrayAccess { array, index } => expr_text(*array) + "["@ + expr_text(*index)
            + "]"@,
        ExprV::MemberAccess { object, member } => expr_text(*object) + "."@ + sanitize_ident(
            member,
            "field"@,
        ),
        ExprV::Unknown(s) => s,
    }
}

/// Call arguments joined by `, `.
pub open spec fn args_text(args: Seq<ExprV>) -> Seq<char>
    decreases args,
{
    if args.len() == 0 {
        seq![]
    } else if args.len() == 1 {
        expr_text(args[0])
    } else {
        args_text(args.drop_last()) + ", "@ + expr_text(args.last())
    }
}

/// Text with every trailing `;` removed (`str::trim_end_matches(';')`).
pub open spec fn trim_semicolons(s: Seq<char>) -> Seq<char>
    decreases s.len(),
{
    if s.len() > 0 && s.last() == ';' {
        trim_semicolons(s.drop_last())
    } else {
        s
    }
}

pub open spec fn opt_text(e: Option<ExprV>, default: Seq<char>) -> Seq<char> {
    match e {
        Some(x) => expr_text(x),
        None => default,
    }
}

/// The C text of a statement at indentation `level` with `size` spaces per level.
pub open spec fn stmt_text(s: StmtV, level: nat, size: nat) -> Seq<char>
    decreases s,
{
    let ind = spaces(level * size);
    match s {
        StmtV::Expression(e) => ind + expr_text(e) + ";"@,
        StmtV::Return(None) => ind + "return;"@,
        StmtV::Return(Some(e)) => ind + "return "@ + expr_text(e) + ";"@,
        StmtV::If { condition, then_block, else_block } => ind + "if ("@ + expr_text(condition)
            + ") {\n"@ + block_text(then_block, level + 1, size) + ind + "}"@ + match else_block {
            Some(b) => " else {\n"@ + block_text(b, level + 1, size) + ind + "}"@,
            None => seq![],
        },
        StmtV::While { condition, body } => ind + "while ("@ + expr_text(condition) + ") {\n"@
            + block_text(body, level + 1, size) + ind + "}"@,
        StmtV::For { init, condition, update, body } => ind + "for ("@ + match init {
            Some(i) => trim_semicolons(stmt_text(*i, level, size)),
            None => seq![],
        } + "; "@ + opt_text(condition, "1"@) + "; "@ + opt_text(update, seq![]) + ") {\n"@
            + block_text(body, level + 1, size) + ind + "}"@,
        StmtV::VariableDeclaration { name, type_info, init } => ind + c_type_name(type_info)
            + " "@ + sanitize_ident(name, "var"@) + match init {
            Some(e) => " = "@ + expr_text(e),
            None => seq![],
        } + ";"@,
        StmtV::Block(b) => ind + "{\n"@ + block_text(b, level + 1, size) + ind + "}"@,
        StmtV::Break => ind + "break;"@,
        StmtV::Continue => ind + "continue;"@,
        StmtV::Empty => ind + ";"@,
        StmtV::InlineAsm { address, disasm } => ind + "/* 0x"@ + hex_text(address as nat, true)
            + ": "@ + sanitize_comment_seq(disasm) + " */"@,
    }
}

/// Each statement of a block on its own line.
pub open spec fn block_text(b: Seq<StmtV>, level: nat, size: nat) -> Seq<char>
    decreases b,
{
    if b.len() == 0 {
        seq![]
    } else {
        block_text(b.drop_last(), level, size) + stmt_text(b.last(), level, size) + "\n"@
    }
}

pub open spec fn param_text(p: ParameterV) -> Seq<char> {
    c_type_name(p.type_info) + " "@ + sanitize_ident(p.name, "arg"@)
}

pub open spec fn params_text(ps: Seq<ParameterV>) -> Seq<char>
    decreases ps.len(),
{
    if ps.len() == 0 {
        seq![]
    } else if ps.len() == 1 {
        param_text(ps[0])
    } else {
        params_text(ps.drop_last()) + ", "@ + param_text(ps.last())
    }
}

/// The signature line of a function.
pub open spec fn signature_text(ret: TypeV, name: Seq<char>, ps: Seq<ParameterV>) -> Seq<char> {
    c_type_name(ret) + " "@ + sanitize_ident(name, "sub"@) + "("@ + (if ps.len() == 0 {
        "void"@
    } else {
        params_text(ps)
    }) + ")"@
}

/// The C text of a whole function, its body one level deeper than `level`.
pub open spec fn function_text(
    ret: TypeV,
    name: Seq<char>,
    ps: Seq<ParameterV>,
    body: Seq<StmtV>,
    level: nat,
    size: nat,
) -> Seq<char> {
    signature_text(ret, name, ps) + " {\n"@ + block_text(body, level + 1, size) + "}\n"@
}

/// Law: a generated function opens with its signature, which ends in `)`,
/// followed by ` {` and a line break, and closes with `}` and a line break;
/// its body lies between, one level deeper.
pub proof fn lemma_function_text_shape(
    ret: TypeV,
    name: Seq<char>,
    ps: Seq<ParameterV>,
    body: Seq<StmtV>,
    level: nat,
    size: nat,
)
    ensures
        ({
            let t = function_text(ret, name, ps, body, level, size);
            let sig = signature_text(ret, name, ps);
            &&& sig.len() > 0 && sig.last() == ')'
            &&& t.subrange(0, sig.len() as int + 3) == sig + " {\n"@
            &&& t.subrange(t.len() - 2, t.len() as int) == "}\n"@
            &&& t.subrange(sig.len() as int + 3, t.len() - 2) == block_text(body, level + 1, size)
        }),
{
    reveal_strlit(")");
    reveal_strlit(" {\n");
    reveal_strlit("}\n");
    let t = function_text(ret, name, ps, body, level, size);
    let sig = signature_text(ret, name, ps);
    let b = block_text(body, level + 1, size);
    assert(t == sig + " {\n"@ + b + "}\n"@);
    assert(t.subrange(0, sig.len() as int + 3) =~= sig + " {\n"@);
    assert(t.subrange(t.len() - 2, t.len() as int) =~= "}\n"@);
    assert(t.subrange(sig.len() as int + 3, t.len() - 2) =~= b);
}

proof fn lemma_hex_text_no_star(n: nat, upper: bool)
    ensures
        forall|i: int| 0 <= i < hex_text(n, upper).len() ==> #[trigger] hex_text(n, upper)[i] != '*',
    decreases n,
{
    if n >= 16 {
        lemma_hex_text_no_star(n / 16, upper);
        let t = hex_text(n, upper);
        assert forall|i: int| 0 <= i < t.len() implies #[trigger] t[i] != '*' by {
            if i < t.len() - 1 {
                assert(t[i] == hex_text(n / 16, upper)[i]);
            }
        }
    }
}

/// Law: the comment that an inline-assembly placeholder becomes is closed
/// exactly once, at its end: the indentation, `/* 0x`, the address in hex,
/// `: `, the escaped instruction text, then ` */`, with no `*/` before.
pub proof fn lemma_inline_asm_comment_closes_once(address: u64, disasm: Seq<char>, level: nat, size: nat)
    ensures
        forall|i: int|
            #[trigger] closes_comment_at(stmt_text(StmtV::InlineAsm { address, disasm }, level, size), i)
                <==> i == stmt_text(StmtV::InlineAsm { address, disasm }, level, size).len() - 2,
{
    reveal_strlit("/* 0x");
    reveal_strlit(": ");
    reveal_strlit(" */");
    let ind = spaces(level * size);
    let h = hex_text(address as nat, true);
    let c = sanitize_comment_seq(disasm);
    let pre = ind + "/* 0x"@ + h + ": "@;
    let t = stmt_text(StmtV::InlineAsm { address, disasm }, level, size);
    assert(t == pre + c + " */"@);
    lemma_hex_text_no_star(address as nat, true);
    lemma_sanitized_comment_never_closes(disasm);
    let a = ind.len() as int;
    let p = pre.len() as int;
    assert(p == a + 5 + h.len() + 2);
    assert forall|i: int| #[trigger] closes_comment_at(t, i) <==> i == t.len() - 2 by {
        if 0 <= i && i + 1 < t.len() {
            if i < a {
                assert(t[i] == ' ');
            } else if i < a + 5 {
                assert(t[i] == "/* 0x"@[i - a]);
                assert(t[i + 1] == pre[i + 1]);
            } else if i < a + 5 + h.len() {
                assert(t[i] == h[i - a - 5]);
            } else if i < p {
                assert(t[i] == ": "@[i - a - 5 - h.len()]);
            } else if i < p + c.len() {
                assert(t[i] == c[i - p]);
                if i + 1 < p + c.len() {
                    assert(t[i + 1] == c[i + 1 - p]);
                    assert(!closes_comment_at(c, i - p));
                } else {
                    assert(t[i + 1] == ' ');
                }
            } else {
                assert(t[i] == " */"@[i - p - c.len()]);
                assert(t[i + 1] == " */"@[i + 1 - p - c.len()]);
            }
        }
    }
}

/// The nesting depth of statements: how many indentation levels they add.
pub open spec fn stmt_depth(s: StmtV) -> nat
    decreases s,
{
    match s {
        StmtV::If { then_block, else_block, .. } => {
            let t = block_depth(then_block);
            let e = match else_block {
                Some(b) => block_depth(b),
                None => 0,
            };
            1 + if t > e { t } else { e }
        },
        StmtV::While { body, .. } => 1 + block_depth(body),
        StmtV::For { init, body, .. } => {
            let i = match init {
                Some(x) => stmt_depth(*x),
                None => 0,
            };
            let b = 1 + block_depth(body);
            if i > b { i } else { b }
        },
        StmtV::Block(b) => 1 + block_depth(b),
        _ => 0,
    }
}

pub open spec fn block_depth(b: Seq<StmtV>) -> nat
    decreases b,
{
    if b.len() == 0 {
        0
    } else {
        let a = block_depth(b.drop_last());
        let c = stmt_depth(b.last());
        if a > c { a } else { c }
    }
}

proof fn lemma_block_depth(b: Seq<StmtV>, i: int)
    requires
        0 <= i < b.len(),
    ensures
        stmt_depth(b[i]) <= block_depth(b),
        block_depth(b.take(i)) <= block_depth(b),
    decreases b.len(),
{
    if i < b.len() - 1 {
        lemma_block_depth(b.drop_last(), i);
        assert(b.drop_last().take(i) =~= b.take(i));
        assert(b.drop_last()[i] == b[i]);
    } else {
        assert(b.drop_last() =~= b.take(i));
    }
}

/// Indentation up to `level + depth` levels of `size` spaces fits in a `usize`.
pub open spec fn depth_fits(level: nat, depth: nat, size: usize) -> bool {
    level + depth <= usize::MAX && (level + depth) * size <= usize::MAX
}

proof fn lemma_depth_fits_mono(level: nat, d1: nat, d2: nat, size: usize)
    requires
        depth_fits(level, d2, size),
        d1 <= d2,
    ensures
        depth_fits(level, d1, size),
{
    assert((level + d1) * size <= (level + d2) * size) by (nonlinear_arith)
        requires
            d1 <= d2,
    ;
}

impl CGenerator {
    pub closed spec fn indent_size(&self) -> usize {
        self.config.indent_size
    }

    pub closed spec fn level(&self) -> usize {
        self.indent_level
    }

    /// Create a new C generator
    pub fn new(config: CGeneratorConfig) -> (r: Self)
        ensures
            r.indent_size() == config.indent_size,
            r.level() == 0,
    {
        CGenerator { config, indent_level: 0 }
    }

    /// Generate C code from a function
    pub fn generate_function(&mut self, func: &Function) -> (r: String)
        requires
            depth_fits((old(self).level() + 1) as nat, block_depth(stmts_v(func.body@)), old(self).indent_size()),
        ensures
            r@ == function_text(
                type_v(&func.return_type),
                func.name@,
                func@.parameters,
                stmts_v(func.body@),
                old(self).level() as nat,
                old(self).indent_size() as nat,
            ),
            final(self).level() == old(self).level(),
            final(self).indent_size() == old(self).indent_size(),
    {
        let mut output: Vec<char> = Vec::new();
        let sig = self.generate_function_signature(func);
        extend_slice(&mut output, &sig);
        extend_chars(&mut output, " {\n");
        self.indent_level = self.indent_level + 1;
        let body = self.generate_block(&func.body);
        extend_slice(&mut output, &body);
        self.indent_level = self.indent_level - 1;
        extend_chars(&mut output, "}\n");
        proof {
            assert(output@ =~= function_text(
                type_v(&func.return_type),
                func.name@,
                func@.parameters,
                stmts_v(func.body@),
                old(self).level() as nat,
                old(self).indent_size() as nat,
            ));
        }
        string_of(&output)
    }

    /// Generate function signature
    fn generate_function_signature(&self, func: &Function) -> (r: Vec<char>)
        ensures
            r@ == signature_text(type_v(&func.return_type), func.name@, func@.parameters),
    {
        let mut out: Vec<char> = Vec::new();
        extend_chars(&mut out, func.return_type.to_c_type());
        extend_chars(&mut out, " ");
        let name = sanitize_c_identifier(func.name.as_str(), "sub");
        extend_chars(&mut out, name.as_str());
        extend_chars(&mut out, "(");
        let ghost ps = func@.parameters;
        if func.parameters.len() == 0 {
            extend_chars(&mut out, "void");
        } else {
            let mut i: usize = 0;
            let ghost start = out@;
            while i < func.parameters.len()
                invariant
                    i <= func.parameters@.len(),
                    ps == func.parameters@.map_values(|p: Parameter| p@),
                    func.parameters@.len() > 0,
                    out@ == start + params_text(ps.take(i as int)),
                decreases func.parameters.len() - i,
            {
                let p = &func.parameters[i];
                if i > 0 {
                    extend_chars(&mut out, ", ");
                }
                extend_chars(&mut out, p.type_info.to_c_type());
                extend_chars(&mut out, " ");
                let pname = sanitize_c_identifier(p.name.as_str(), "arg");
                extend_chars(&mut out, pname.as_str());
                proof {
                    assert(ps.take(i + 1).drop_last() =~= ps.take(i as int));
                    assert(ps.take(i + 1).last() == p@);
                    if i == 0 {
                        assert(params_text(ps.take(1)) == param_text(ps[0]));
                    }
                    assert(out@ =~= start + params_text(ps.take(i + 1)));
                }
                i = i + 1;
            }
            proof {
                assert(ps.take(ps.len() as int) =~= ps);
            }
        }
        extend_chars(&mut out, ")");
        proof {
            assert(out@ =~= signature_text(type_v(&func.return_type), func.name@, func@.parameters));
        }
        out
    }

    fn push_indent(&self, out: &mut Vec<char>)
        requires
            self.indent_level * self.config.indent_size <= usize::MAX,
        ensures
            final(out)@ == old(out)@ + spaces((self.level() * self.indent_size()) as nat),
    {
        let n = self.indent_level * self.config.indent_size;
        let mut i: usize = 0;
        while i < n
            invariant
                i <= n,
                out@ == old(out)@ + spaces(i as nat),
            decreases n - i,
        {
            out.push(' ');
            i = i + 1;
            proof {
                assert(out@ =~= old(out)@ + spaces(i as nat));
            }
        }
    }

    /// Each statement of a block followed by a newline.
    fn generate_block(&mut self, b: &Vec<Statement>) -> (r: Vec<char>)
        requires
            depth_fits(old(self).level() as nat, block_depth(stmts_v(b@)), old(self).indent_size()),
        ensures
            r@ == block_text(stmts_v(b@), old(self).level() as nat, old(self).indent_size() as nat),
            final(self).level() == old(self).level(),
            final(self).indent_size() == old(self).indent_size(),
        decreases b, 1nat,
    {
        let ghost sv = stmts_v(b@);
        let mut out: Vec<char> = Vec::new();
        let mut i: usize = 0;
        while i < b.len()
            invariant
                i <= b@.len(),
                sv == stmts_v(b@),
                self.level() == old(self).level(),
                self.indent_size() == old(self).indent_size(),
                depth_fits(self.level() as nat, block_depth(sv), self.indent_size()),
                out@ == block_text(sv.take(i as int), self.level() as nat, self.indent_size() as nat),
            decreases b@.len() - i,
        {
            proof {
                vstd::std_specs::vec::axiom_vec_index_decreases(*b, i as int);
                lemma_block_depth(sv, i as int);
                assert(sv[i as int] == stmt_v(&b@[i as int]));
                lemma_depth_fits_mono(self.level() as nat, stmt_depth(sv[i as int]), block_depth(sv), self.indent_size());
            }
            let s = self.generate_statement(&b[i]);
            extend_slice(&mut out, &s);
            out.push('\n');
            proof {
                reveal_strlit("\n");
                assert(sv.take(i + 1).drop_last() =~= sv.take(i as int));
                assert(out@ =~= block_text(sv.take(i + 1), self.level() as nat, self.indent_size() as nat));
            }
            i = i + 1;
        }
        proof {
            assert(sv.take(sv.len() as int) =~= sv);
        }
        out
    }

    /// Generate C code from a statement
    fn generate_statement(&mut self, stmt: &Statement) -> (r: Vec<char>)
        requires
            depth_fits(old(self).level() as nat, stmt_depth(stmt_v(stmt)), old(self).indent_size()),
        ensures
            r@ == stmt_text(stmt_v(stmt), old(self).level() as nat, old(self).indent_size() as nat),
            final(self).level() == old(self).level(),
            final(self).indent_size() == old(self).indent_size(),
        decreases stmt, 0nat,
    {
        proof {
            lemma_depth_fits_mono(old(self).level() as nat, 0, stmt_depth(stmt_v(stmt)), old(self).indent_size());
        }
        let mut out: Vec<char> = Vec::new();
        self.push_indent(&mut out);
        let ghost ind = out@;
        match stmt {
            Statement::Expression(expr) => {
                let e = self.generate_expression(expr);
                extend_slice(&mut out, &e);
                extend_chars(&mut out, ";");
            },
            Statement::Return(None) => {
                extend_chars(&mut out, "return;");
            },
            Statement::Return(Some(expr)) => {
                extend_chars(&mut out, "return ");
                let e = self.generate_expression(expr);
                extend_slice(&mut out, &e);
                extend_chars(&mut out, ";");
            },
            Statement::If { condition, then_block, else_block } => {
                extend_chars(&mut out, "if (");
                let c = self.generate_expression(condition);
                extend_slice(&mut out, &c);
                extend_chars(&mut out, ") {\n");
                proof {
                    self.lemma_nested_fits(stmt_depth(stmt_v(stmt)), block_depth(stmts_v(then_block@)));
                }
                self.indent_level = self.indent_level + 1;
                let t = self.generate_block(then_block);
                self.indent_level = self.indent_level - 1;
                extend_slice(&mut out, &t);
                self.push_indent(&mut out);
                extend_chars(&mut out, "}");
                if let Some(else_block) = else_block {
                    extend_chars(&mut out, " else {\n");
                    proof {
                        self.lemma_nested_fits(stmt_depth(stmt_v(stmt)), block_depth(stmts_v(else_block@)));
                    }
                    self.indent_level = self.indent_level + 1;
                    let e = self.generate_block(else_block);
                    self.indent_level = self.indent_level - 1;
                    extend_slice(&mut out, &e);
                    self.push_indent(&mut out);
                    extend_chars(&mut out, "}");
                }
            },
            Statement::While { condition, body } => {
                extend_chars(&mut out, "while (");
                let c = self.generate_expression(condition);
                extend_slice(&mut out, &c);
                extend_chars(&mut out, ") {\n");
                proof {
                    self.lemma_nested_fits(stmt_depth(stmt_v(stmt)), block_depth(stmts_v(body@)));
                }
                self.indent_level = self.indent_level + 1;
                let t = self.generate_block(body);
                self.indent_level = self.indent_level - 1;
                extend_slice(&mut out, &t);
                self.push_indent(&mut out);
                extend_chars(&mut out, "}");
            },
            Statement::For { init, condition, update, body } => {
                let init_str: Vec<char> = match init {
                    Some(s) => {
                        proof {
                            lemma_depth_fits_mono(self.level() as nat, stmt_depth(stmt_v(s)), stmt_depth(stmt_v(stmt)), self.indent_size());
                        }
                        let g = self.generate_statement(s);
                        trim_semicolons_exec(&g)
                    },
                    None => Vec::new(),
                };
                let cond_str: Vec<char> = match condition {
                    Some(c) => self.generate_expression(c),
                    None => chars_of("1"),
                };
                let update_str: Vec<char> = match update {
                    Some(c) => self.generate_expression(c),
                    None => Vec::new(),
                };
                extend_chars(&mut out, "for (");
                extend_slice(&mut out, &init_str);
                extend_chars(&mut out, "; ");
                extend_slice(&mut out, &cond_str);
                extend_chars(&mut out, "; ");
                extend_slice(&mut out, &update_str);
                extend_chars(&mut out, ") {\n");
                proof {
                    self.lemma_nested_fits(stmt_depth(stmt_v(stmt)), block_depth(stmts_v(body@)));
                }
                self.indent_level = self.indent_level + 1;
                let t = self.generate_block(body);
                self.indent_level = self.indent_level - 1;
                extend_slice(&mut out, &t);
                self.push_indent(&mut out);
                extend_chars(&mut out, "}");
            },
            Statement::VariableDeclaration { name, type_info, init } => {
                extend_chars(&mut out, type_info.to_c_type());
                extend_chars(&mut out, " ");
                let n = sanitize_c_identifier(name.as_str(), "var");
                extend_chars(&mut out, n.as_str());
                match init {
                    Some(expr) => {
                        extend_chars(&mut out, " = ");
                        let e = self.generate_expression(expr);
                        extend_slice(&mut out, &e);
                    },
                    None => {},
                }
                extend_chars(&mut out, ";");
            },
            Statement::Block(statements) => {
                extend_chars(&mut out, "{\n");
                proof {
                    self.lemma_nested_fits(stmt_depth(stmt_v(stmt)), block_depth(stmts_v(statements@)));
                }
                self.indent_level = self.indent_level + 1;
                let t = self.generate_block(statements);
                self.indent_level = self.indent_level - 1;
                extend_slice(&mut out, &t);
                self.push_indent(&mut out);
                extend_chars(&mut out, "}");
            },
            Statement::Break => {
                extend_chars(&mut out, "break;");
            },
            Statement::Continue => {
                extend_chars(&mut out, "continue;");
            },
            Statement::Empty => {
                extend_chars(&mut out, ";");
            },
            Statement::InlineAsm { address, disasm } => {
                // Emitted as a C comment so output stays compilable; the address
                // anchors each line back to the original binary.
                extend_chars(&mut out, "/* 0x");
                push_hex(&mut out, *address, true);
                extend_chars(&mut out, ": ");
                let d = sanitize_c_comment(disasm.as_str());
                extend_chars(&mut out, d.as_str());
                extend_chars(&mut out, " */");
            },
        }
        proof {
            assert(out@ =~= stmt_text(stmt_v(stmt), old(self).level() as nat, old(self).indent_size() as nat));
        }
        out
    }

    proof fn lemma_nested_fits(&self, d: nat, inner: nat)
        requires
            depth_fits(self.level() as nat, d, self.indent_size()),
            inner + 1 <= d,
        ensures
            depth_fits((self.level() + 1) as nat, inner, self.indent_size()),
            self.level() + 1 <= usize::MAX,
    {
        lemma_depth_fits_mono(self.level() as nat, inner + 1, d, self.indent_size());
    }

    /// Generate C code from an expression
    fn generate_expression(&self, expr: &Expression) -> (r: Vec<char>)
        ensures
            r@ == expr_text(expr_v(expr)),
        decreases expr,
    {
        let mut out: Vec<char> = Vec::new();
        match expr {
            Expression::IntegerLiteral(value) => {
                push_int(&mut out, *value);
            },
            Expression::StringLiteral(s) => {
                let q = quote_c_string(s.as_str());
                extend_chars(&mut out, q.as_str());
            },
            Expression::Variable(name) => {
                let n = sanitize_c_identifier(name.as_str(), "var");
                extend_chars(&mut out, n.as_str());
            },
            Expression::BinaryOperation { op, left, right } => {
                let left_str = self.generate_expression(left);
                let right_str = self.generate_expression(right);
                extend_chars(&mut out, "(");
                extend_slice(&mut out, &left_str);
                extend_chars(&mut out, " ");
                extend_chars(&mut out, self.binary_operator_to_string(*op));
                extend_chars(&mut out, " ");
                extend_slice(&mut out, &right_str);
                extend_chars(&mut out, ")");
            },
            Expression::UnaryOperation { op, operand } => {
                let operand_str = self.generate_expression(operand);
                extend_chars(&mut out, self.unary_operator_to_string(*op));
                extend_slice(&mut out, &operand_str);
            },
            Expression::FunctionCall { function, arguments } => {
                let f = sanitize_c_identifier(function.as_str(), "func");
                extend_chars(&mut out, f.as_str());
                extend_chars(&mut out, "(");
                let ghost av = exprs_v(arguments@);
                let ghost start = out@;
                let mut i: usize = 0;
                proof {
                    assert(decreases_to!(*expr => *arguments));
                }
                while i < arguments.len()
                    invariant
                        decreases_to!(*expr => *arguments),
                        i <= arguments@.len(),
                        av == exprs_v(arguments@),
                        out@ == start + args_text(av.take(i as int)),
                    decreases arguments@.len() - i,
                {
                    proof {
                        vstd::std_specs::vec::axiom_vec_index_decreases(*arguments, i as int);
                        assert(decreases_to!(expr => arguments@[i as int]));
                    }
                    let a = self.generate_expression(&arguments[i]);
                    if i > 0 {
                        extend_chars(&mut out, ", ");
                    }
                    extend_slice(&mut out, &a);
                    proof {
                        assert(av.take(i + 1).drop_last() =~= av.take(i as int));
                        assert(av.take(i + 1).last() == expr_v(&arguments@[i as int]));
                        assert(out@ =~= start + args_text(av.take(i + 1)));
                    }
                    i = i + 1;
                }
                proof {
                    assert(av.take(av.len() as int) =~= av);
                }
                extend_chars(&mut out, ")");
            },
            Expression::Assignment { target, value } => {
                let target_str = self.generate_expression(target);
                let value_str = self.generate_expression(value);
                extend_slice(&mut out, &target_str);
                extend_chars(&mut out, " = ");
                extend_slice(&mut out, &value_str);
            },
            Expression::Cast { type_info, value } => {
                let value_str = self.generate_expression(value);
                extend_chars(&mut out, "(");
                extend_chars(&mut out, type_info.to_c_type());
                extend_chars(&mut out, ")");
                extend_slice(&mut out, &value_str);
            },
            Expression::AddressOf(e) => {
                let s = self.generate_expression(e);
                extend_chars(&mut out, "&");
                extend_slice(&mut out, &s);
            },
            Expression::Dereference(e) => {
                let s = self.generate_expression(e);
                extend_chars(&mut out, "*");
                extend_slice(&mut out, &s);
            },
            Expression::ArrayAccess { array, index } => {
                let array_str = self.generate_expression(array);
                let index_str = self.generate_expression(index);
                extend_slice(&mut out, &array_str);
                extend_chars(&mut out, "[");
                extend_slice(&mut out, &index_str);
                extend_chars(&mut out, "]");
            },
            Expression::MemberAccess { object, member } => {
                let object_str = self.generate_expression(object);
                let m = sanitize_c_identifier(member.as_str(), "field");
                extend_slice(&mut out, &object_str);
                extend_chars(&mut out, ".");
                extend_chars(&mut out, m.as_str());
            },
            Expression::Unknown(s) => {
                extend_chars(&mut out, s.as_str());
            },
        }
        proof {
            assert(out@ =~= expr_text(expr_v(expr)));
        }
        out
    }

    /// Convert binary operator to C string
    fn binary_operator_to_string(&self, op: BinaryOperator) -> (r: &'static str)
        ensures
            r@ == binary_op_text(op),
    {
        match op {
            BinaryOperator::Add => "+",
            BinaryOperator::Subtract => "-",
            BinaryOperator::Multiply => "*",
            BinaryOperator::Divide => "/",
            BinaryOperator::Modulo => "%",
            BinaryOperator::Equal => "==",
            BinaryOperator::NotEqual => "!=",
            BinaryOperator::LessThan => "<",
            BinaryOperator::LessThanOrEqual => "<=",
            BinaryOperator::GreaterThan => ">",
            BinaryOperator::GreaterThanOrEqual => ">=",
            BinaryOperator::LogicalAnd => "&&",
            BinaryOperator::LogicalOr => "||",
            BinaryOperator::BitwiseAnd => "&",
            BinaryOperator::BitwiseOr => "|",
            BinaryOperator::BitwiseXor => "^",
            BinaryOperator::LeftShift => "<<",
            BinaryOperator::RightShift => ">>",
        }
    }

    /// Convert unary operator to C string
    fn unary_operator_to_string(&self, op: UnaryOperator) -> (r: &'static str)
        ensures
            r@ == unary_op_text(op),
    {
        match op {
            UnaryOperator::Negate => "-",
            UnaryOperator::LogicalNot => "!",
            UnaryOperator::BitwiseNot => "~",
            UnaryOperator::Address => "&",
            UnaryOperator::Dereference => "*",
        }
    }
}

/// Removes every trailing `;`.
fn trim_semicolons_exec(s: &[char]) -> (r: Vec<char>)
    ensures
        r@ == trim_semicolons(s@),
{
    let mut j: usize = s.len();
    proof {
        assert(s@.subrange(0, s@.len() as int) =~= s@);
    }
    while j > 0 && s[j - 1] == ';'
        invariant
            j <= s.len(),
            trim_semicolons(s@) == trim_semicolons(s@.subrange(0, j as int)),
        decreases j,
    {
        proof {
            assert(s@.subrange(0, j as int).drop_last() =~= s@.subrange(0, j - 1));
        }
        j = j - 1;
    }
    let mut out: Vec<char> = Vec::new();
    let mut i: usize = 0;
    while i < j
        invariant
            i <= j <= s.len(),
            out@ == s@.subrange(0, i as int),
        decreases j - i,
    {
        out.push(s[i]);
        i = i + 1;
    }
    out
}

impl Default for CGenerator {
    fn default() -> (r: Self)
        ensures
            r.indent_size() == 4,
            r.level() == 0,
    {
        CGenerator::new(CGeneratorConfig::default())
    }
}

} // verus!
