//! Code optimization: constant folding, removal of empty statements, and
//! pruning of statements that follow a `return` in the same block.

use crate::decompiler::ast::{
    clone_expr, clone_stmt, expr_v, exprs_v, stmt_v, stmts_v, BinaryOperator, ExprV, Expression,
    Function, StmtV, Statement,
};
use vstd::prelude::*;

verus! {

/// Optimization level
#[derive(Debug, Clone, Copy, PartialEq, Eq, Structural)]
pub enum OptimizationLevel {
    /// No optimization
    Disabled,
    /// Basic optimizations
    Basic,
    /// Aggressive optimizations
    Aggressive,
}

// ---------------------------------------------------------------------------
// Constant folding
// ---------------------------------------------------------------------------

/// The value of `l op r` when it is defined and representable: checked
/// arithmetic for `+ - * / %`, the bitwise operators, and shifts by an amount
/// below 64. Other operators (comparisons, logic) do not fold.
pub open spec fn fold_value(op: BinaryOperator, l: i64, r: i64) -> Option<i64> {
    match op {
        BinaryOperator::Add => l.checked_add(r),
        BinaryOperator::Subtract => l.checked_sub(r),
        BinaryOperator::Multiply => l.checked_mul(r),
        BinaryOperator::Divide => l.checked_div(r),
        BinaryOperator::Modulo => l.checked_rem(r),
        BinaryOperator::BitwiseAnd => Some(l & r),
        BinaryOperator::BitwiseOr => Some(l | r),
        BinaryOperator::BitwiseXor => Some(l ^ r),
        BinaryOperator::LeftShift => if 0 <= r < 64 {
            Some(l << (r as u32))
        } else {
            None
        },
        BinaryOperator::RightShift => if 0 <= r < 64 {
            Some(l >> (r as u32))
        } else {
            None
        },
        _ => None,
    }
}

/// The literal that `l op r` folds to, when both sides are integer literals.
pub open spec fn fold_exprs(op: BinaryOperator, l: ExprV, r: ExprV) -> Option<ExprV> {
    match l {
        ExprV::IntegerLiteral(a) => match r {
            ExprV::IntegerLiteral(b) => match fold_value(op, a, b) {
                Some(v) => Some(ExprV::IntegerLiteral(v)),
                None => None,
            },
            _ => None,
        },
        _ => None,
    }
}

pub open spec fn opt_exprs(s: Seq<ExprV>) -> Seq<ExprV>
    decreases s,
{
    Seq::new(s.len(), |i: int| if 0 <= i < s.len() { opt_expr(s[i]) } else { arbitrary() })
}

/// An expression with every foldable binary operation folded, bottom up.
pub open spec fn opt_expr(e: ExprV) -> ExprV
    decreases e,
{
    match e {
        ExprV::BinaryOperation { op, left, right } => {
            let l = opt_expr(*left);
            let r = opt_expr(*right);
            match fold_exprs(op, l, r) {
                Some(f) => f,
                None => ExprV::BinaryOperation { op, left: Box::new(l), right: Box::new(r) },
            }
        },
        ExprV::UnaryOperation { op, operand } => ExprV::UnaryOperation {
            op,
            operand: Box::new(opt_expr(*operand)),
        },
        ExprV::FunctionCall { function, arguments } => ExprV::FunctionCall {
            function,
            arguments: opt_exprs(arguments),
        },
        ExprV::Assignment { target, value } => ExprV::Assignment {
            target: Box::new(opt_expr(*target)),
            value: Box::new(opt_expr(*value)),
        },
        ExprV::Cast { type_info, value } => ExprV::Cast {
            type_info,
            value: Box::new(opt_expr(*value)),
        },
        ExprV::AddressOf(x) => ExprV::AddressOf(Box::new(opt_expr(*x))),
        ExprV::Dereference(x) => ExprV::Dereference(Box::new(opt_expr(*x))),
        ExprV::ArrayAccess { array, index } => ExprV::ArrayAccess {
            array: Box::new(opt_expr(*array)),
            index: Box::new(opt_expr(*index)),
        },
        ExprV::MemberAccess { object, member } => ExprV::MemberAccess {
            object: Box::new(opt_expr(*object)),
            member,
        },
        _ => e,
    }
}

pub open spec fn opt_opt_expr(e: Option<ExprV>) -> Option<ExprV> {
    match e {
        Some(x) => Some(opt_expr(x)),
        None => None,
    }
}

pub open spec fn opt_stmts(b: Seq<StmtV>) -> Seq<StmtV>
    decreases b,
{
    Seq::new(b.len(), |i: int| if 0 <= i < b.len() { opt_stmt(b[i]) } else { arbitrary() })
}

/// A statement with its expressions folded, nested blocks included.
/// Variable initializers are left as they are.
pub open spec fn opt_stmt(s: StmtV) -> StmtV
    decreases s,
{
    match s {
        StmtV::Expression(e) => StmtV::Expression(opt_expr(e)),
        StmtV::Return(e) => StmtV::Return(opt_opt_expr(e)),
        StmtV::If { condition, then_block, else_block } => StmtV::If {
            condition: opt_expr(condition),
            then_block: opt_stmts(then_block),
            else_block: match else_block {
                Some(b) => Some(opt_stmts(b)),
                None => None,
            },
        },
        StmtV::While { condition, body } => StmtV::While {
            condition: opt_expr(condition),
            body: opt_stmts(body),
        },
        StmtV::For { init, condition, update, body } => StmtV::For {
            init: match init {
                Some(b) => Some(Box::new(opt_stmt(*b))),
                None => None,
            },
            condition: opt_opt_expr(condition),
            update: opt_opt_expr(update),
            body: opt_stmts(body),
        },
        StmtV::Block(b) => StmtV::Block(opt_stmts(b)),
        _ => s,
    }
}

// ---------------------------------------------------------------------------
// Pruning after `return`
// ---------------------------------------------------------------------------

/// `k` is the first `return` of a block.
pub open spec fn is_first_return(b: Seq<StmtV>, k: int) -> bool {
    &&& 0 <= k < b.len()
    &&& b[k] is Return
    &&& forall|j: int| 0 <= j < k ==> !(b[j] is Return)
}

/// How many statements of a block are kept: through its first `return`, or all.
pub open spec fn kept_len(b: Seq<StmtV>) -> int {
    if exists|k: int| is_first_return(b, k) {
        (choose|k: int| is_first_return(b, k)) + 1
    } else {
        b.len() as int
    }
}

/// A block cut after its first `return`, with every kept statement pruned.
pub open spec fn prune_block(b: Seq<StmtV>) -> Seq<StmtV>
    decreases b,
{
    Seq::new(
        kept_len(b) as nat,
        |i: int|
            if 0 <= i < b.len() {
                prune_stmt(b[i])
            } else {
                arbitrary()
            },
    )
}

/// A statement whose nested blocks are pruned.
pub open spec fn prune_stmt(s: StmtV) -> StmtV
    decreases s,
{
    match s {
        StmtV::If { condition, then_block, else_block } => StmtV::If {
            condition,
            then_block: prune_block(then_block),
            else_block: match else_block {
                Some(b) => Some(prune_block(b)),
                None => None,
            },
        },
        StmtV::While { condition, body } => StmtV::While { condition, body: prune_block(body) },
        StmtV::For { init, condition, update, body } => StmtV::For {
            init: match init {
                Some(b) => Some(Box::new(prune_stmt(*b))),
                None => None,
            },
            condition,
            update,
            body: prune_block(body),
        },
        StmtV::Block(b) => StmtV::Block(prune_block(b)),
        _ => s,
    }
}

/// A function body after optimization at a level: nothing at `Disabled`; folded
/// statements without the empty ones at `Basic`; and, at `Aggressive`, also
/// cut after each block's first `return`.
pub open spec fn optimized_body(level: OptimizationLevel, body: Seq<StmtV>) -> Seq<StmtV> {
    if level == OptimizationLevel::Disabled {
        body
    } else {
        let b = opt_stmts(body).filter(|s: StmtV| !(s is Empty));
        if level == OptimizationLevel::Aggressive {
            prune_block(b)
        } else {
            b
        }
    }
}

proof fn lemma_first_return_unique(b: Seq<StmtV>, k: int)
    requires
        is_first_return(b, k),
    ensures
        kept_len(b) == k + 1,
{
    let c = choose|c: int| is_first_return(b, c);
    assert(is_first_return(b, c));
    if c < k {
        assert(!(b[c] is Return));
    } else if c > k {
        assert(!(b[k] is Return));
    }
}


// ---------------------------------------------------------------------------
// Laws
// ---------------------------------------------------------------------------

pub open spec fn abs_int(x: int) -> int {
    if x < 0 {
        -x
    } else {
        x
    }
}

/// `q` and `m` are the quotient and remainder of `l / r` rounded toward zero:
/// `l == r * q + m`, the remainder smaller than the divisor in size and of
/// the sign of `l` (or zero).
pub open spec fn truncated_division(l: int, r: int, q: int, m: int) -> bool {
    &&& r != 0
    &&& l == r * q + m
    &&& abs_int(m) < abs_int(r)
    &&& (m == 0 || (m > 0) == (l > 0))
}

/// The quotient and remainder rounded toward zero exist for a nonzero divisor.
proof fn lemma_truncated_division(x: int, d: int) -> (qm: (int, int))
    requires
        d != 0,
    ensures
        truncated_division(x, d, qm.0, qm.1),
        qm.0 == (if x == 0 {
            0
        } else if x > 0 && d > 0 {
            x / d
        } else if x < 0 && d < 0 {
            (x * -1) / (d * -1)
        } else if x < 0 {
            ((x * -1) / d) * -1
        } else {
            (x / (d * -1)) * -1
        }),
        qm.1 == (if x == 0 {
            0
        } else if x > 0 && d > 0 {
            x % d
        } else if x < 0 && d < 0 {
            ((x * -1) % (d * -1)) * -1
        } else if x < 0 {
            ((x * -1) % d) * -1
        } else {
            x % (d * -1)
        }),
{
    if x == 0 {
        assert(x == d * 0 + 0);
        (0, 0)
    } else if x > 0 && d > 0 {
        let q = x / d;
        let m = x % d;
        vstd::arithmetic::div_mod::lemma_fundamental_div_mod(x, d);
        vstd::arithmetic::div_mod::lemma_mod_pos_bound(x, d);
        (q, m)
    } else if x < 0 && d < 0 {
        let a = x * -1;
        let b = d * -1;
        let q = a / b;
        let rem = a % b;
        vstd::arithmetic::div_mod::lemma_fundamental_div_mod(a, b);
        vstd::arithmetic::div_mod::lemma_mod_pos_bound(a, b);
        assert(x == d * q + rem * -1) by (nonlinear_arith)
            requires
                a == b * q + rem,
                a == x * -1,
                b == d * -1,
        ;
        (q, rem * -1)
    } else if x < 0 {
        let a = x * -1;
        let q0 = a / d;
        let rem = a % d;
        vstd::arithmetic::div_mod::lemma_fundamental_div_mod(a, d);
        vstd::arithmetic::div_mod::lemma_mod_pos_bound(a, d);
        assert(x == d * (q0 * -1) + rem * -1) by (nonlinear_arith)
            requires
                a == d * q0 + rem,
                a == x * -1,
        ;
        (q0 * -1, rem * -1)
    } else {
        let b = d * -1;
        let q0 = x / b;
        let rem = x % b;
        vstd::arithmetic::div_mod::lemma_fundamental_div_mod(x, b);
        vstd::arithmetic::div_mod::lemma_mod_pos_bound(x, b);
        assert(x == d * (q0 * -1) + rem) by (nonlinear_arith)
            requires
                x == b * q0 + rem,
                b == d * -1,
        ;
        (q0 * -1, rem)
    }
}

/// Law: constant folding computes integer arithmetic. `+`, `-` and `*` fold
/// to the exact sum, difference and product when it fits in an `i64`, and
/// do not fold otherwise; `/` and `%` fold exactly when the divisor is not
/// zero and the quotient fits (not `i64::MIN / -1`), to the quotient and
/// the remainder of the division rounded toward zero; comparisons and
/// logical operators never fold.
pub proof fn lemma_fold_is_integer_arithmetic(l: i64, r: i64)
    ensures
        fold_value(BinaryOperator::Add, l, r) == (if i64::MIN <= l + r <= i64::MAX {
            Some((l + r) as i64)
        } else {
            None
        }),
        fold_value(BinaryOperator::Subtract, l, r) == (if i64::MIN <= l - r <= i64::MAX {
            Some((l - r) as i64)
        } else {
            None
        }),
        fold_value(BinaryOperator::Multiply, l, r) == (if i64::MIN <= l * r <= i64::MAX {
            Some((l * r) as i64)
        } else {
            None
        }),
        fold_value(BinaryOperator::Divide, l, r) is Some <==> (r != 0 && !(l == i64::MIN && r == -1)),
        fold_value(BinaryOperator::Modulo, l, r) is Some <==> (r != 0 && !(l == i64::MIN && r == -1)),
        fold_value(BinaryOperator::Divide, l, r) matches Some(q) ==> exists|m: int|
            #[trigger] truncated_division(l as int, r as int, q as int, m),
        fold_value(BinaryOperator::Modulo, l, r) matches Some(m) ==> exists|q: int|
            #[trigger] truncated_division(l as int, r as int, q, m as int),
        fold_value(BinaryOperator::Equal, l, r) is None,
        fold_value(BinaryOperator::NotEqual, l, r) is None,
        fold_value(BinaryOperator::LessThan, l, r) is None,
        fold_value(BinaryOperator::LessThanOrEqual, l, r) is None,
        fold_value(BinaryOperator::GreaterThan, l, r) is None,
        fold_value(BinaryOperator::GreaterThanOrEqual, l, r) is None,
        fold_value(BinaryOperator::LogicalAnd, l, r) is None,
        fold_value(BinaryOperator::LogicalOr, l, r) is None,
{
    if r != 0 {
        let qm = lemma_truncated_division(l as int, r as int);
        let x = l as int;
        let d = r as int;
        // The quotient fits unless it is `i64::MIN / -1`.
        if !(l == i64::MIN && r == -1) {
            assert(i64::MIN <= qm.0 <= i64::MAX) by (nonlinear_arith)
                requires
                    d != 0,
                    x == d * qm.0 + qm.1,
                    abs_int(qm.1) < abs_int(d),
                    qm.1 == 0 || (qm.1 > 0) == (x > 0),
                    i64::MIN <= x <= i64::MAX,
                    i64::MIN <= d <= i64::MAX,
                    !(x == i64::MIN && d == -1),
            ;
        } else {
            assert(qm.0 == 9223372036854775808) by (nonlinear_arith)
                requires
                    x == -9223372036854775808,
                    d == -1,
                    x == d * qm.0 + qm.1,
                    abs_int(qm.1) < abs_int(d),
            ;
        }
        assert(i64::MIN <= qm.1 <= i64::MAX);
        if fold_value(BinaryOperator::Divide, l, r) is Some {
            assert(truncated_division(x, d, fold_value(BinaryOperator::Divide, l, r).unwrap() as int, qm.1));
        }
        if fold_value(BinaryOperator::Modulo, l, r) is Some {
            assert(truncated_division(x, d, qm.0, fold_value(BinaryOperator::Modulo, l, r).unwrap() as int));
        }
    }
}

/// Folding the bitwise operators and the shifts follows their bit-level
/// meaning: AND with 0 clears and with all ones keeps, OR with 0 keeps and
/// with all ones sets, XOR of a value with itself is 0; AND and OR of two
/// values add up to the two values' sum, and XOR is OR less AND. A shift
/// folds only for an amount in `0..64`; shifting by 0 keeps the value, by 1
/// doubles it (left, when the double fits) or halves it rounding down
/// (right), and shifting by `k + 1` is shifting by `k` and then by 1.
pub proof fn lemma_fold_bitwise_and_shifts(l: i64, r: i64)
    ensures
        fold_value(BinaryOperator::BitwiseAnd, l, 0) == Some(0i64),
        fold_value(BinaryOperator::BitwiseAnd, l, -1i64) == Some(l),
        fold_value(BinaryOperator::BitwiseOr, l, 0) == Some(l),
        fold_value(BinaryOperator::BitwiseOr, l, -1i64) == Some(-1i64),
        fold_value(BinaryOperator::BitwiseXor, l, 0) == Some(l),
        fold_value(BinaryOperator::BitwiseXor, l, l) == Some(0i64),
        fold_value(BinaryOperator::BitwiseAnd, l, r) matches Some(a) && fold_value(
            BinaryOperator::BitwiseOr,
            l,
            r,
        ) matches Some(o) && fold_value(BinaryOperator::BitwiseXor, l, r) matches Some(x) && a
            + o == l + r && x == o - a,
        (r < 0 || r >= 64) ==> fold_value(BinaryOperator::LeftShift, l, r) is None
            && fold_value(BinaryOperator::RightShift, l, r) is None,
        fold_value(BinaryOperator::LeftShift, l, 0) == Some(l),
        fold_value(BinaryOperator::RightShift, l, 0) == Some(l),
        -0x4000_0000_0000_0000 <= l < 0x4000_0000_0000_0000 ==> fold_value(
            BinaryOperator::LeftShift,
            l,
            1,
        ) == Some((2 * l) as i64),
        fold_value(BinaryOperator::RightShift, l, 1) matches Some(h) && 2 * h <= l < 2 * h + 2,
        0 <= r < 63 ==> fold_value(BinaryOperator::LeftShift, l, (r + 1) as i64) == fold_value(
            BinaryOperator::LeftShift,
            fold_value(BinaryOperator::LeftShift, l, r).unwrap(),
            1,
        ),
        0 <= r < 63 ==> fold_value(BinaryOperator::RightShift, l, (r + 1) as i64) == fold_value(
            BinaryOperator::RightShift,
            fold_value(BinaryOperator::RightShift, l, r).unwrap(),
            1,
        ),
{
    assert(l & 0 == 0i64) by (bit_vector);
    assert(l & -1i64 == l) by (bit_vector);
    assert(l | 0 == l) by (bit_vector);
    assert(l | -1i64 == -1i64) by (bit_vector);
    assert(l ^ 0 == l) by (bit_vector);
    assert(l ^ l == 0i64) by (bit_vector);
    assert((l & r) + (l | r) == l + r) by (bit_vector);
    assert(l ^ r == (l | r) - (l & r)) by (bit_vector);
    assert(l << 0u32 == l) by (bit_vector);
    assert(l >> 0u32 == l) by (bit_vector);
    assert(-0x4000_0000_0000_0000 <= l < 0x4000_0000_0000_0000 ==> l << 1u32 == 2 * l)
        by (bit_vector);
    assert(2 * (l >> 1u32) <= l < 2 * (l >> 1u32) + 2) by (bit_vector);
    if 0 <= r < 63 {
        let s: u32 = r as u32;
        let t: u32 = (r + 1) as u32;
        assert(t == s + 1);
        assert(s < 63 && t == s + 1 ==> l << t == (l << s) << 1u32) by (bit_vector);
        assert(s < 63 && t == s + 1 ==> l >> t == (l >> s) >> 1u32) by (bit_vector);
    }
}

/// Constant folding is idempotent: folding an already folded expression
/// changes nothing.
pub proof fn lemma_fold_idempotent(e: ExprV)
    ensures
        opt_expr(opt_expr(e)) == opt_expr(e),
    decreases e,
{
    match e {
        ExprV::BinaryOperation { op, left, right } => {
            lemma_fold_idempotent(*left);
            lemma_fold_idempotent(*right);
        },
        ExprV::UnaryOperation { op, operand } => {
            lemma_fold_idempotent(*operand);
        },
        ExprV::FunctionCall { function, arguments } => {
            lemma_fold_idempotent_all(arguments);
        },
        ExprV::Assignment { target, value } => {
            lemma_fold_idempotent(*target);
            lemma_fold_idempotent(*value);
        },
        ExprV::Cast { type_info, value } => {
            lemma_fold_idempotent(*value);
        },
        ExprV::AddressOf(x) => {
            lemma_fold_idempotent(*x);
        },
        ExprV::Dereference(x) => {
            lemma_fold_idempotent(*x);
        },
        ExprV::ArrayAccess { array, index } => {
            lemma_fold_idempotent(*array);
            lemma_fold_idempotent(*index);
        },
        ExprV::MemberAccess { object, member } => {
            lemma_fold_idempotent(*object);
        },
        _ => {},
    }
}

/// Folding a list of expressions twice is folding it once.
pub proof fn lemma_fold_idempotent_all(s: Seq<ExprV>)
    ensures
        opt_exprs(opt_exprs(s)) == opt_exprs(s),
    decreases s,
{
    assert forall|i: int| 0 <= i < s.len() implies opt_expr(opt_expr(s[i])) == opt_expr(s[i]) by {
        lemma_fold_idempotent(s[i]);
    }
    assert(opt_exprs(opt_exprs(s)) =~= opt_exprs(s));
}

proof fn lemma_first_return_exists(b: Seq<StmtV>, j: int)
    requires
        0 <= j < b.len(),
        b[j] is Return,
    ensures
        exists|k: int| is_first_return(b, k),
    decreases j,
{
    if !is_first_return(b, j) {
        let i = choose|i: int| 0 <= i < j && b[i] is Return;
        lemma_first_return_exists(b, i);
    }
}

proof fn lemma_kept_len(b: Seq<StmtV>)
    ensures
        0 <= kept_len(b) <= b.len(),
        forall|j: int| 0 <= j < kept_len(b) - 1 ==> !(#[trigger] b[j] is Return),
{
    if exists|k: int| is_first_return(b, k) {
        let k = choose|k: int| is_first_return(b, k);
        lemma_first_return_unique(b, k);
    } else {
        assert forall|j: int| 0 <= j < kept_len(b) - 1 implies !(#[trigger] b[j] is Return) by {
            if b[j] is Return {
                lemma_first_return_exists(b, j);
            }
        }
    }
}

/// After pruning, a `return` can only be the last statement of a block.
pub proof fn lemma_pruned_return_is_last(b: Seq<StmtV>, j: int)
    requires
        0 <= j < prune_block(b).len() - 1,
    ensures
        !(prune_block(b)[j] is Return),
{
    lemma_kept_len(b);
    assert(!(b[j] is Return));
}

/// Optimizing at `Basic` or `Aggressive` leaves no empty statement at the
/// top level of a function body.
pub proof fn lemma_optimized_body_has_no_empty(
    level: OptimizationLevel,
    body: Seq<StmtV>,
    k: int,
)
    requires
        level != OptimizationLevel::Disabled,
        0 <= k < optimized_body(level, body).len(),
    ensures
        !(optimized_body(level, body)[k] is Empty),
{
    let keep = |s: StmtV| !(s is Empty);
    let b = opt_stmts(body).filter(keep);
    assert(optimized_body(level, body) == if level == OptimizationLevel::Aggressive {
        prune_block(b)
    } else {
        b
    });
    if level == OptimizationLevel::Aggressive {
        lemma_kept_len(b);
        opt_stmts(body).lemma_filter_pred(keep, k);
        assert(keep(b[k]));
    } else {
        opt_stmts(body).lemma_filter_pred(keep, k);
        assert(keep(b[k]));
    }
}

// ---------------------------------------------------------------------------
// The optimizer
// ---------------------------------------------------------------------------

/// Optimizer
pub struct Optimizer {
    level: OptimizationLevel,
}

impl Optimizer {
    /// The level the optimizer runs at.
    pub closed spec fn level_of(&self) -> OptimizationLevel {
        self.level
    }

    /// Create a new optimizer
    pub fn new(level: OptimizationLevel) -> (r: Self)
        ensures
            r.level_of() == level,
    {
        Optimizer { level }
    }

    /// Optimize a function
    pub fn optimize_function(&self, func: &mut Function)
        ensures
            final(func)@.name == old(func)@.name,
            final(func)@.return_type == old(func)@.return_type,
            final(func)@.parameters == old(func)@.parameters,
            final(func)@.is_variadic == old(func)@.is_variadic,
            final(func)@.body == optimized_body(self.level_of(), old(func)@.body),
    {
        if self.level == OptimizationLevel::Disabled {
            return;
        }
        let ghost folded = opt_stmts(old(func)@.body);
        let ghost keep = |s: StmtV| !(s is Empty);
        let mut body: Vec<Statement> = Vec::new();
        let mut i: usize = 0;
        while i < func.body.len()
            invariant
                i <= func.body@.len(),
                func@ == old(func)@,
                folded == opt_stmts(func@.body),
                keep == (|s: StmtV| !(s is Empty)),
                stmts_v(body@) == folded.take(i as int).filter(keep),
            decreases func.body@.len() - i,
        {
            let s = self.optimize_statement(&func.body[i]);
            let ghost before = body@;
            proof {
                assert(folded.take(i + 1).drop_last() =~= folded.take(i as int));
                assert(folded[i as int] == opt_stmt(stmt_v(&func.body@[i as int])));
            }
            proof {
                reveal(Seq::filter);
                assert(folded.take(i + 1).last() == stmt_v(&s));
                assert(keep(stmt_v(&s)) == !(stmt_v(&s) is Empty));
                assert(folded.take(i + 1).filter(keep) == if keep(stmt_v(&s)) {
                    folded.take(i as int).filter(keep).push(stmt_v(&s))
                } else {
                    folded.take(i as int).filter(keep)
                });
            }
            if !matches!(s, Statement::Empty) {
                body.push(s);
                proof {
                    assert(stmts_v(body@) =~= stmts_v(before).push(stmt_v(&s)));
                }
            }
            i = i + 1;
        }
        proof {
            assert(folded.take(func.body@.len() as int) =~= folded);
        }
        func.body = body;
        if self.level == OptimizationLevel::Aggressive {
            self.optimize_aggressive(func);
        }
    }

    /// Optimize a statement
    fn optimize_statement(&self, stmt: &Statement) -> (r: Statement)
        ensures
            r@ == opt_stmt(stmt@),
        decreases stmt, 0nat,
    {
        match stmt {
            Statement::Expression(expr) => Statement::Expression(self.optimize_expression(expr)),
            Statement::Return(e) => Statement::Return(
                match e {
                    Some(x) => Some(self.optimize_expression(x)),
                    None => None,
                },
            ),
            Statement::If { condition, then_block, else_block } => {
                let c = self.optimize_expression(condition);
                let t = self.optimize_block(then_block);
                let e = match else_block {
                    Some(b) => Some(self.optimize_block(b)),
                    None => None,
                };
                Statement::If { condition: c, then_block: t, else_block: e }
            },
            Statement::While { condition, body } => {
                let c = self.optimize_expression(condition);
                let b = self.optimize_block(body);
                Statement::While { condition: c, body: b }
            },
            Statement::For { init, condition, update, body } => {
                let i = match init {
                    Some(s) => Some(Box::new(self.optimize_statement(s))),
                    None => None,
                };
                let c = match condition {
                    Some(x) => Some(self.optimize_expression(x)),
                    None => None,
                };
                let u = match update {
                    Some(x) => Some(self.optimize_expression(x)),
                    None => None,
                };
                let b = self.optimize_block(body);
                Statement::For { init: i, condition: c, update: u, body: b }
            },
            Statement::Block(statements) => Statement::Block(self.optimize_block(statements)),
            _ => clone_stmt(stmt),
        }
    }

    /// Optimize every statement of a block, keeping them all.
    fn optimize_block(&self, b: &Vec<Statement>) -> (r: Vec<Statement>)
        ensures
            stmts_v(r@) == opt_stmts(stmts_v(b@)),
        decreases b, 1nat,
    {
        let mut out: Vec<Statement> = Vec::new();
        let mut i: usize = 0;
        while i < b.len()
            invariant
                i <= b@.len(),
                out@.len() == i,
                forall|j: int|
                    0 <= j < i ==> stmt_v(&#[trigger] out@[j]) == opt_stmt(stmt_v(&b@[j])),
            decreases b@.len() - i,
        {
            proof {
                vstd::std_specs::vec::axiom_vec_index_decreases(*b, i as int);
            }
            out.push(self.optimize_statement(&b[i]));
            i = i + 1;
        }
        proof {
            assert(stmts_v(out@) =~= opt_stmts(stmts_v(b@)));
        }
        out
    }

    /// Optimize an expression
    fn optimize_expression(&self, expr: &Expression) -> (r: Expression)
        ensures
            r@ == opt_expr(expr@),
        decreases expr,
    {
        match expr {
            Expression::BinaryOperation { op, left, right } => {
                let l = self.optimize_expression(left);
                let r = self.optimize_expression(right);
                match self.fold_constant(*op, &l, &r) {
                    Some(folded) => folded,
                    None => Expression::BinaryOperation {
                        op: *op,
                        left: Box::new(l),
                        right: Box::new(r),
                    },
                }
            },
            Expression::UnaryOperation { op, operand } => Expression::UnaryOperation {
                op: *op,
                operand: Box::new(self.optimize_expression(operand)),
            },
            Expression::FunctionCall { function, arguments } => {
                let mut args: Vec<Expression> = Vec::new();
                let mut i: usize = 0;
                proof {
                    assert(decreases_to!(*expr => *arguments));
                }
                while i < arguments.len()
                    invariant
                        decreases_to!(*expr => *arguments),
                        i <= arguments@.len(),
                        args@.len() == i,
                        forall|j: int|
                            0 <= j < i ==> expr_v(&#[trigger] args@[j]) == opt_expr(
                                expr_v(&arguments@[j]),
                            ),
                    decreases arguments@.len() - i,
                {
                    proof {
                        vstd::std_specs::vec::axiom_vec_index_decreases(*arguments, i as int);
                        assert(decreases_to!(expr => arguments@[i as int]));
                    }
                    args.push(self.optimize_expression(&arguments[i]));
                    i = i + 1;
                }
                proof {
                    assert(exprs_v(args@) =~= opt_exprs(exprs_v(arguments@)));
                }
                Expression::FunctionCall { function: function.clone(), arguments: args }
            },
            Expression::Assignment { target, value } => Expression::Assignment {
                target: Box::new(self.optimize_expression(target)),
                value: Box::new(self.optimize_expression(value)),
            },
            Expression::Cast { type_info, value } => Expression::Cast {
                type_info: crate::analysis::types::clone_type(type_info),
                value: Box::new(self.optimize_expression(value)),
            },
            Expression::AddressOf(x) => Expression::AddressOf(
                Box::new(self.optimize_expression(x)),
            ),
            Expression::Dereference(x) => Expression::Dereference(
                Box::new(self.optimize_expression(x)),
            ),
            Expression::ArrayAccess { array, index } => Expression::ArrayAccess {
                array: Box::new(self.optimize_expression(array)),
                index: Box::new(self.optimize_expression(index)),
            },
            Expression::MemberAccess { object, member } => Expression::MemberAccess {
                object: Box::new(self.optimize_expression(object)),
                member: member.clone(),
            },
            _ => clone_expr(expr),
        }
    }

    /// Fold constant expressions: `Some` literal when both sides are integer
    /// literals and the operation is defined on them.
    fn fold_constant(&self, op: BinaryOperator, left: &Expression, right: &Expression) -> (r:
        Option<Expression>)
        ensures
            match r {
                Some(e) => fold_exprs(op, left@, right@) == Some(e@),
                None => fold_exprs(op, left@, right@) is None,
            },
    {
        let l = match left {
            Expression::IntegerLiteral(v) => *v,
            _ => {
                return None;
            },
        };
        let r = match right {
            Expression::IntegerLiteral(v) => *v,
            _ => {
                return None;
            },
        };
        let folded: Option<i64> = match op {
            BinaryOperator::Add => l.checked_add(r),
            BinaryOperator::Subtract => l.checked_sub(r),
            BinaryOperator::Multiply => l.checked_mul(r),
            BinaryOperator::Divide => l.checked_div(r),
            BinaryOperator::Modulo => l.checked_rem(r),
            BinaryOperator::BitwiseAnd => Some(l & r),
            BinaryOperator::BitwiseOr => Some(l | r),
            BinaryOperator::BitwiseXor => Some(l ^ r),
            BinaryOperator::LeftShift => if 0 <= r && r < 64 {
                Some(l << (r as u32))
            } else {
                None
            },
            BinaryOperator::RightShift => if 0 <= r && r < 64 {
                Some(l >> (r as u32))
            } else {
                None
            },
            _ => None,
        };
        match folded {
            Some(v) => Some(Expression::IntegerLiteral(v)),
            None => None,
        }
    }

    /// Aggressive optimizations
    fn optimize_aggressive(&self, func: &mut Function)
        ensures
            final(func)@.name == old(func)@.name,
            final(func)@.return_type == old(func)@.return_type,
            final(func)@.parameters == old(func)@.parameters,
            final(func)@.is_variadic == old(func)@.is_variadic,
            final(func)@.body == prune_block(old(func)@.body),
    {
        self.prune_unreachable_after_terminators(func);
    }

    fn prune_unreachable_after_terminators(&self, func: &mut Function)
        ensures
            final(func)@.name == old(func)@.name,
            final(func)@.return_type == old(func)@.return_type,
            final(func)@.parameters == old(func)@.parameters,
            final(func)@.is_variadic == old(func)@.is_variadic,
            final(func)@.body == prune_block(old(func)@.body),
    {
        let b = prune_after_return_in_block(&func.body);
        func.body = b;
    }
}

/// A block cut after its first `return`, nested blocks pruned the same way.
fn prune_after_return_in_block(statements: &Vec<Statement>) -> (r: Vec<Statement>)
    ensures
        stmts_v(r@) == prune_block(stmts_v(statements@)),
    decreases statements, 1nat,
{
    let ghost sv = stmts_v(statements@);
    let mut out: Vec<Statement> = Vec::new();
    let mut idx: usize = 0;
    while idx < statements.len()
        invariant
            idx <= statements@.len(),
            sv == stmts_v(statements@),
            out@.len() == idx,
            forall|j: int| 0 <= j < idx ==> !(#[trigger] sv[j] is Return),
            forall|j: int|
                0 <= j < idx ==> stmt_v(&#[trigger] out@[j]) == prune_stmt(stmt_v(&statements@[j])),
        decreases statements@.len() - idx,
    {
        proof {
            vstd::std_specs::vec::axiom_vec_index_decreases(*statements, idx as int);
        }
        let s = prune_after_return_in_statement(&statements[idx]);
        out.push(s);
        if matches!(statements[idx], Statement::Return(_)) {
            proof {
                assert(is_first_return(sv, idx as int));
                lemma_first_return_unique(sv, idx as int);
                assert(stmts_v(out@) =~= prune_block(sv));
            }
            return out;
        }
        idx = idx + 1;
    }
    proof {
        assert(!exists|k: int| is_first_return(sv, k));
        assert(stmts_v(out@) =~= prune_block(sv));
    }
    out
}

/// A statement whose nested blocks are cut after their first `return`.
fn prune_after_return_in_statement(statement: &Statement) -> (r: Statement)
    ensures
        r@ == prune_stmt(statement@),
    decreases statement, 0nat,
{
    match statement {
        Statement::If { condition, then_block, else_block } => {
            let t = prune_after_return_in_block(then_block);
            let e = match else_block {
                Some(b) => Some(prune_after_return_in_block(b)),
                None => None,
            };
            Statement::If { condition: clone_expr(condition), then_block: t, else_block: e }
        },
        Statement::While { condition, body } => {
            let b = prune_after_return_in_block(body);
            Statement::While { condition: clone_expr(condition), body: b }
        },
        Statement::For { init, condition, update, body } => {
            let i = match init {
                Some(s) => Some(Box::new(prune_after_return_in_statement(s))),
                None => None,
            };
            let b = prune_after_return_in_block(body);
            Statement::For {
                init: i,
                condition: crate::decompiler::ast::clone_opt_expr(condition),
                update: crate::decompiler::ast::clone_opt_expr(update),
                body: b,
            }
        },
        Statement::Block(nested) => Statement::Block(prune_after_return_in_block(nested)),
        _ => clone_stmt(statement),
    }
}

impl Default for Optimizer {
    fn default() -> (r: Self)
        ensures
            r.level_of() == OptimizationLevel::Basic,
    {
        Self::new(OptimizationLevel::Basic)
    }
}

} // verus!
