//! Abstract syntax tree for decompiled code, with its mathematical view.

use crate::analysis::types::{clone_type, type_v, TypeInfo, TypeV};
use vstd::prelude::*;

verus! {

broadcast use vstd::std_specs::vec::group_vec_axioms;

/// AST node type
#[derive(Debug, Clone, PartialEq, Eq, Structural)]
pub enum AstNodeType {
    /// Function
    Function,
    /// Statement
    Statement,
    /// Expression
    Expression,
    /// Variable declaration
    VariableDeclaration,
    /// Type declaration
    TypeDeclaration,
}

/// Binary operator
#[derive(Debug, Clone, Copy, PartialEq, Eq, Structural)]
pub enum BinaryOperator {
    Add,
    Subtract,
    Multiply,
    Divide,
    Modulo,
    Equal,
    NotEqual,
    LessThan,
    LessThanOrEqual,
    GreaterThan,
    GreaterThanOrEqual,
    LogicalAnd,
    LogicalOr,
    BitwiseAnd,
    BitwiseOr,
    BitwiseXor,
    LeftShift,
    RightShift,
}

/// Unary operator
#[derive(Debug, Clone, Copy, PartialEq, Eq, Structural)]
pub enum UnaryOperator {
    Negate,
    LogicalNot,
    BitwiseNot,
    Address,
    Dereference,
}

/// Expression
#[derive(Debug)]
pub enum Expression {
    /// Integer literal
    IntegerLiteral(i64),
    /// String literal
    StringLiteral(String),
    /// Variable reference
    Variable(String),
    /// Binary operation
    BinaryOperation { op: BinaryOperator, left: Box<Expression>, right: Box<Expression> },
    /// Unary operation
    UnaryOperation { op: UnaryOperator, operand: Box<Expression> },
    /// Function call
    FunctionCall { function: String, arguments: Vec<Expression> },
    /// Assignment
    Assignment { target: Box<Expression>, value: Box<Expression> },
    /// Cast
    Cast { type_info: TypeInfo, value: Box<Expression> },
    /// Address of
    AddressOf(Box<Expression>),
    /// Dereference
    Dereference(Box<Expression>),
    /// Array access
    ArrayAccess { array: Box<Expression>, index: Box<Expression> },
    /// Member access
    MemberAccess { object: Box<Expression>, member: String },
    /// Unknown
    Unknown(String),
}

/// The mathematical value of an expression: strings are character sequences.
pub enum ExprV {
    IntegerLiteral(i64),
    StringLiteral(Seq<char>),
    Variable(Seq<char>),
    BinaryOperation { op: BinaryOperator, left: Box<ExprV>, right: Box<ExprV> },
    UnaryOperation { op: UnaryOperator, operand: Box<ExprV> },
    FunctionCall { function: Seq<char>, arguments: Seq<ExprV> },
    Assignment { target: Box<ExprV>, value: Box<ExprV> },
    Cast { type_info: TypeV, value: Box<ExprV> },
    AddressOf(Box<ExprV>),
    Dereference(Box<ExprV>),
    ArrayAccess { array: Box<ExprV>, index: Box<ExprV> },
    MemberAccess { object: Box<ExprV>, member: Seq<char> },
    Unknown(Seq<char>),
}

/// The views of a list of expressions.
pub open spec fn exprs_v(s: Seq<Expression>) -> Seq<ExprV>
    decreases s,
{
    Seq::new(s.len(), |i: int| if 0 <= i < s.len() { expr_v(&s[i]) } else { arbitrary() })
}

/// The view of an expression, defined by structural recursion.
pub open spec fn expr_v(e: &Expression) -> ExprV
    decreases e,
{
        match e {
            Expression::IntegerLiteral(v) => ExprV::IntegerLiteral(*v),
            Expression::StringLiteral(s) => ExprV::StringLiteral(s@),
            Expression::Variable(s) => ExprV::Variable(s@),
            Expression::BinaryOperation { op, left, right } => ExprV::BinaryOperation {
                op: *op,
                left: Box::new(expr_v(left)),
                right: Box::new(expr_v(right)),
            },
            Expression::UnaryOperation { op, operand } => ExprV::UnaryOperation {
                op: *op,
                operand: Box::new(expr_v(operand)),
            },
            Expression::FunctionCall { function, arguments } => ExprV::FunctionCall {
                function: function@,
                arguments: exprs_v(arguments@),
            },
            Expression::Assignment { target, value } => ExprV::Assignment {
                target: Box::new(expr_v(target)),
                value: Box::new(expr_v(value)),
            },
            Expression::Cast { type_info, value } => ExprV::Cast {
                type_info: type_v(type_info),
                value: Box::new(expr_v(value)),
            },
            Expression::AddressOf(e) => ExprV::AddressOf(Box::new(expr_v(e))),
            Expression::Dereference(e) => ExprV::Dereference(Box::new(expr_v(e))),
            Expression::ArrayAccess { array, index } => ExprV::ArrayAccess {
                array: Box::new(expr_v(array)),
                index: Box::new(expr_v(index)),
            },
            Expression::MemberAccess { object, member } => ExprV::MemberAccess {
                object: Box::new(expr_v(object)),
                member: member@,
            },
            Expression::Unknown(s) => ExprV::Unknown(s@),
        }
    }

impl View for Expression {
    type V = ExprV;

    open spec fn view(&self) -> ExprV {
        expr_v(self)
    }
}


/// A copy of an expression with the same view.
pub fn clone_expr(e: &Expression) -> (r: Expression)
    ensures
        r@ == e@,
    decreases e,
{
    match e {
        Expression::IntegerLiteral(v) => Expression::IntegerLiteral(*v),
        Expression::StringLiteral(s) => Expression::StringLiteral(s.clone()),
        Expression::Variable(s) => Expression::Variable(s.clone()),
        Expression::BinaryOperation { op, left, right } => Expression::BinaryOperation {
            op: *op,
            left: Box::new(clone_expr(left)),
            right: Box::new(clone_expr(right)),
        },
        Expression::UnaryOperation { op, operand } => Expression::UnaryOperation {
            op: *op,
            operand: Box::new(clone_expr(operand)),
        },
        Expression::FunctionCall { function, arguments } => {
            let args = clone_exprs(arguments);
            let r = Expression::FunctionCall { function: function.clone(), arguments: args };
            r
        },
        Expression::Assignment { target, value } => Expression::Assignment {
            target: Box::new(clone_expr(target)),
            value: Box::new(clone_expr(value)),
        },
        Expression::Cast { type_info, value } => Expression::Cast {
            type_info: clone_type(type_info),
            value: Box::new(clone_expr(value)),
        },
        Expression::AddressOf(x) => Expression::AddressOf(Box::new(clone_expr(x))),
        Expression::Dereference(x) => Expression::Dereference(Box::new(clone_expr(x))),
        Expression::ArrayAccess { array, index } => Expression::ArrayAccess {
            array: Box::new(clone_expr(array)),
            index: Box::new(clone_expr(index)),
        },
        Expression::MemberAccess { object, member } => Expression::MemberAccess {
            object: Box::new(clone_expr(object)),
            member: member.clone(),
        },
        Expression::Unknown(s) => Expression::Unknown(s.clone()),
    }
}

/// A copy of a list of expressions with the same views.
pub fn clone_exprs(v: &Vec<Expression>) -> (r: Vec<Expression>)
    ensures
        exprs_v(r@) == exprs_v(v@),
    decreases v,
{
    let mut out: Vec<Expression> = Vec::new();
    let mut i: usize = 0;
    while i < v.len()
        invariant
            i <= v@.len(),
            out@.len() == i,
            forall|j: int| 0 <= j < i ==> expr_v(&#[trigger] out@[j]) == expr_v(&v@[j]),
        decreases v@.len() - i,
    {
        proof {
            vstd::std_specs::vec::axiom_vec_index_decreases(*v, i as int);
        }
        out.push(clone_expr(&v[i]));
        i = i + 1;
    }
    proof {
        assert(exprs_v(out@) =~= exprs_v(v@));
    }
    out
}

impl Clone for Expression {
    fn clone(&self) -> (r: Self)
        ensures
            r@ == self@,
    {
        clone_expr(self)
    }
}

/// Statement
#[derive(Debug)]
pub enum Statement {
    /// Expression statement
    Expression(Expression),
    /// Return statement
    Return(Option<Expression>),
    /// If statement
    If { condition: Expression, then_block: Vec<Statement>, else_block: Option<Vec<Statement>> },
    /// While loop
    While { condition: Expression, body: Vec<Statement> },
    /// For loop
    For {
        init: Option<Box<Statement>>,
        condition: Option<Expression>,
        update: Option<Expression>,
        body: Vec<Statement>,
    },
    /// Variable declaration
    VariableDeclaration { name: String, type_info: TypeInfo, init: Option<Expression> },
    /// Block
    Block(Vec<Statement>),
    /// Break
    Break,
    /// Continue
    Continue,
    /// Empty
    Empty,
    /// Raw disassembly placeholder. Every AST node stays addressable so later
    /// structuring passes can correlate back to the original instruction.
    InlineAsm { address: u64, disasm: String },
}

/// The mathematical value of a statement.
pub enum StmtV {
    Expression(ExprV),
    Return(Option<ExprV>),
    If { condition: ExprV, then_block: Seq<StmtV>, else_block: Option<Seq<StmtV>> },
    While { condition: ExprV, body: Seq<StmtV> },
    For {
        init: Option<Box<StmtV>>,
        condition: Option<ExprV>,
        update: Option<ExprV>,
        body: Seq<StmtV>,
    },
    VariableDeclaration { name: Seq<char>, type_info: TypeV, init: Option<ExprV> },
    Block(Seq<StmtV>),
    Break,
    Continue,
    Empty,
    InlineAsm { address: u64, disasm: Seq<char> },
}

pub open spec fn opt_expr_v(e: &Option<Expression>) -> Option<ExprV> {
    match e {
        Some(x) => Some(expr_v(x)),
        None => None,
    }
}

/// The views of a list of statements.
pub open spec fn stmts_v(s: Seq<Statement>) -> Seq<StmtV>
    decreases s,
{
    Seq::new(s.len(), |i: int| if 0 <= i < s.len() { stmt_v(&s[i]) } else { arbitrary() })
}

/// The view of a statement, by structural recursion.
pub open spec fn stmt_v(s: &Statement) -> StmtV
    decreases s,
{
    match s {
        Statement::Expression(e) => StmtV::Expression(expr_v(e)),
        Statement::Return(e) => StmtV::Return(opt_expr_v(e)),
        Statement::If { condition, then_block, else_block } => StmtV::If {
            condition: expr_v(condition),
            then_block: stmts_v(then_block@),
            else_block: match else_block {
                Some(b) => Some(stmts_v(b@)),
                None => None,
            },
        },
        Statement::While { condition, body } => StmtV::While {
            condition: expr_v(condition),
            body: stmts_v(body@),
        },
        Statement::For { init, condition, update, body } => StmtV::For {
            init: match init {
                Some(b) => Some(Box::new(stmt_v(b))),
                None => None,
            },
            condition: opt_expr_v(condition),
            update: opt_expr_v(update),
            body: stmts_v(body@),
        },
        Statement::VariableDeclaration { name, type_info, init } => StmtV::VariableDeclaration {
            name: name@,
            type_info: type_v(type_info),
            init: opt_expr_v(init),
        },
        Statement::Block(b) => StmtV::Block(stmts_v(b@)),
        Statement::Break => StmtV::Break,
        Statement::Continue => StmtV::Continue,
        Statement::Empty => StmtV::Empty,
        Statement::InlineAsm { address, disasm } => StmtV::InlineAsm {
            address: *address,
            disasm: disasm@,
        },
    }
}



impl View for Statement {
    type V = StmtV;

    open spec fn view(&self) -> StmtV {
        stmt_v(self)
    }
}

/// The view of an optional expression.
pub open spec fn opt_expr_view(e: Option<Expression>) -> Option<ExprV> {
    match e {
        Some(x) => Some(x@),
        None => None,
    }
}

pub fn clone_opt_expr(e: &Option<Expression>) -> (r: Option<Expression>)
    ensures
        opt_expr_v(&r) == opt_expr_v(e),
{
    match e {
        Some(x) => Some(clone_expr(x)),
        None => None,
    }
}

/// A copy of a statement with the same view.
pub fn clone_stmt(s: &Statement) -> (r: Statement)
    ensures
        r@ == s@,
    decreases s,
{
    match s {
        Statement::Expression(e) => Statement::Expression(clone_expr(e)),
        Statement::Return(e) => Statement::Return(clone_opt_expr(e)),
        Statement::If { condition, then_block, else_block } => {
            let t = clone_stmts(then_block);
            let e = match else_block {
                Some(b) => Some(clone_stmts(b)),
                None => None,
            };
            let r = Statement::If { condition: clone_expr(condition), then_block: t, else_block: e };
            r
        },
        Statement::While { condition, body } => {
            let b = clone_stmts(body);
            let r = Statement::While { condition: clone_expr(condition), body: b };
            r
        },
        Statement::For { init, condition, update, body } => {
            let i = match init {
                Some(b) => Some(Box::new(clone_stmt(b))),
                None => None,
            };
            let b = clone_stmts(body);
            let r = Statement::For {
                init: i,
                condition: clone_opt_expr(condition),
                update: clone_opt_expr(update),
                body: b,
            };
            r
        },
        Statement::VariableDeclaration { name, type_info, init } => Statement::VariableDeclaration {
            name: name.clone(),
            type_info: clone_type(type_info),
            init: clone_opt_expr(init),
        },
        Statement::Block(b) => {
            let c = clone_stmts(b);
            let r = Statement::Block(c);
            r
        },
        Statement::Break => Statement::Break,
        Statement::Continue => Statement::Continue,
        Statement::Empty => Statement::Empty,
        Statement::InlineAsm { address, disasm } => Statement::InlineAsm {
            address: *address,
            disasm: disasm.clone(),
        },
    }
}

/// A copy of a list of statements with the same views.
pub fn clone_stmts(v: &Vec<Statement>) -> (r: Vec<Statement>)
    ensures
        stmts_v(r@) == stmts_v(v@),
    decreases v,
{
    let mut out: Vec<Statement> = Vec::new();
    let mut i: usize = 0;
    while i < v.len()
        invariant
            i <= v@.len(),
            out@.len() == i,
            forall|j: int| 0 <= j < i ==> stmt_v(&#[trigger] out@[j]) == stmt_v(&v@[j]),
        decreases v@.len() - i,
    {
        proof {
            vstd::std_specs::vec::axiom_vec_index_decreases(*v, i as int);
        }
        out.push(clone_stmt(&v[i]));
        i = i + 1;
    }
    proof {
        assert(stmts_v(out@) =~= stmts_v(v@));
    }
    out
}

impl Clone for Statement {
    fn clone(&self) -> (r: Self)
        ensures
            r@ == self@,
    {
        clone_stmt(self)
    }
}

/// Function parameter
#[derive(Debug)]
pub struct Parameter {
    pub name: String,
    pub type_info: TypeInfo,
}

pub struct ParameterV {
    pub name: Seq<char>,
    pub type_info: TypeV,
}

impl View for Parameter {
    type V = ParameterV;

    open spec fn view(&self) -> ParameterV {
        ParameterV { name: self.name@, type_info: type_v(&self.type_info) }
    }
}

impl Clone for Parameter {
    fn clone(&self) -> (r: Self)
        ensures
            r@ == self@,
    {
        Parameter { name: self.name.clone(), type_info: clone_type(&self.type_info) }
    }
}

/// Function
#[derive(Debug)]
pub struct Function {
    pub name: String,
    pub return_type: TypeInfo,
    pub parameters: Vec<Parameter>,
    pub body: Vec<Statement>,
    pub is_variadic: bool,
}

pub struct FunctionV {
    pub name: Seq<char>,
    pub return_type: TypeV,
    pub parameters: Seq<ParameterV>,
    pub body: Seq<StmtV>,
    pub is_variadic: bool,
}

impl View for Function {
    type V = FunctionV;

    open spec fn view(&self) -> FunctionV {
        FunctionV {
            name: self.name@,
            return_type: type_v(&self.return_type),
            parameters: self.parameters@.map_values(|p: Parameter| p@),
            body: stmts_v(self.body@),
            is_variadic: self.is_variadic,
        }
    }
}

pub fn clone_params(v: &Vec<Parameter>) -> (r: Vec<Parameter>)
    ensures
        r@.map_values(|p: Parameter| p@) == v@.map_values(|p: Parameter| p@),
{
    let mut out: Vec<Parameter> = Vec::new();
    let mut i: usize = 0;
    while i < v.len()
        invariant
            i <= v@.len(),
            out@.len() == i,
            forall|j: int| 0 <= j < i ==> (#[trigger] out@[j])@ == v@[j]@,
        decreases v@.len() - i,
    {
        out.push(v[i].clone());
        i = i + 1;
    }
    proof {
        assert(out@.map_values(|p: Parameter| p@) =~= v@.map_values(|p: Parameter| p@));
    }
    out
}

impl Clone for Function {
    fn clone(&self) -> (r: Self)
        ensures
            r@ == self@,
    {
        Function {
            name: self.name.clone(),
            return_type: clone_type(&self.return_type),
            parameters: clone_params(&self.parameters),
            body: clone_stmts(&self.body),
            is_variadic: self.is_variadic,
        }
    }
}

/// AST node
#[derive(Debug)]
pub struct AstNode {
    pub node_type: AstNodeType,
    pub expression: Option<Expression>,
    pub statement: Option<Statement>,
    pub function: Option<Function>,
}

impl AstNode {
    /// Create a new AST node from an expression
    pub fn from_expression(expr: Expression) -> (r: Self)
        ensures
            r.node_type == AstNodeType::Expression,
            r.expression == Some(expr),
            r.statement.is_none(),
            r.function.is_none(),
    {
        AstNode { node_type: AstNodeType::Expression, expression: Some(expr), statement: None, function: None }
    }

    /// Create a new AST node from a statement
    pub fn from_statement(stmt: Statement) -> (r: Self)
        ensures
            r.node_type == AstNodeType::Statement,
            r.statement == Some(stmt),
            r.expression.is_none(),
            r.function.is_none(),
    {
        AstNode { node_type: AstNodeType::Statement, expression: None, statement: Some(stmt), function: None }
    }

    /// Create a new AST node from a function
    pub fn from_function(func: Function) -> (r: Self)
        ensures
            r.node_type == AstNodeType::Function,
            r.function == Some(func),
            r.expression.is_none(),
            r.statement.is_none(),
    {
        AstNode { node_type: AstNodeType::Function, expression: None, statement: None, function: Some(func) }
    }
}

} // verus!
