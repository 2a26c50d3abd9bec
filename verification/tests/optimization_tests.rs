use decompiler::analysis::types::TypeInfo;
use decompiler::decompiler::ast::{BinaryOperator, Expression, Function, Statement, UnaryOperator};
use decompiler::decompiler::optimization::{OptimizationLevel, Optimizer};

fn lit(value: i64) -> Expression {
    Expression::IntegerLiteral(value)
}

fn bin(op: BinaryOperator, left: Expression, right: Expression) -> Expression {
    Expression::BinaryOperation {
        op,
        left: Box::new(left),
        right: Box::new(right),
    }
}

fn empty_function(body: Vec<Statement>) -> Function {
    Function {
        name: "f".to_string(),
        return_type: TypeInfo::Void,
        parameters: vec![],
        body,
        is_variadic: false,
    }
}

fn run(level: OptimizationLevel, body: Vec<Statement>) -> Function {
    let mut func = empty_function(body);
    Optimizer::new(level).optimize_function(&mut func);
    func
}

// ---- constant folding ----

#[test]
fn folds_addition_of_integer_literals() {
    let func = run(
        OptimizationLevel::Basic,
        vec![Statement::Expression(bin(
            BinaryOperator::Add,
            lit(2),
            lit(3),
        ))],
    );
    assert!(matches!(
        &func.body[..],
        [Statement::Expression(Expression::IntegerLiteral(5))]
    ));
}

#[test]
fn folds_bitwise_and_or_xor_shifts() {
    let cases = [
        (BinaryOperator::BitwiseAnd, 0xF0_F0, 0x0F_FF, 0x00_F0),
        (BinaryOperator::BitwiseOr, 0xF0, 0x0F, 0xFF),
        (BinaryOperator::BitwiseXor, 0xFF, 0x0F, 0xF0),
        (BinaryOperator::LeftShift, 1, 4, 16),
        (BinaryOperator::RightShift, 256, 4, 16),
    ];

    for (op, a, b, expected) in cases {
        let func = run(
            OptimizationLevel::Basic,
            vec![Statement::Expression(bin(op, lit(a), lit(b)))],
        );
        assert!(
            matches!(
                &func.body[..],
                [Statement::Expression(Expression::IntegerLiteral(v))]
                    if *v == expected
            ),
            "op {:?} produced unexpected body: {:?}",
            op,
            func.body
        );
    }
}

#[test]
fn folds_nested_binary_expressions_bottom_up() {
    // (1 + 2) * (3 + 4) → 21
    let inner_left = bin(BinaryOperator::Add, lit(1), lit(2));
    let inner_right = bin(BinaryOperator::Add, lit(3), lit(4));
    let outer = bin(BinaryOperator::Multiply, inner_left, inner_right);

    let func = run(OptimizationLevel::Basic, vec![Statement::Expression(outer)]);
    assert!(matches!(
        &func.body[..],
        [Statement::Expression(Expression::IntegerLiteral(21))]
    ));
}

#[test]
fn does_not_fold_when_either_operand_is_non_literal() {
    let expr = bin(
        BinaryOperator::Add,
        Expression::Variable("x".to_string()),
        lit(7),
    );
    let func = run(
        OptimizationLevel::Basic,
        vec![Statement::Expression(expr)],
    );
    assert!(matches!(
        &func.body[..],
        [Statement::Expression(Expression::BinaryOperation { .. })]
    ));
}

#[test]
fn does_not_fold_comparison_or_logical_operators() {
    // Folding these would silently produce 0/1 ints; current contract leaves them alone.
    let cases = [
        BinaryOperator::Equal,
        BinaryOperator::NotEqual,
        BinaryOperator::LessThan,
        BinaryOperator::GreaterThan,
        BinaryOperator::LogicalAnd,
        BinaryOperator::LogicalOr,
    ];

    for op in cases {
        let func = run(
            OptimizationLevel::Basic,
            vec![Statement::Expression(bin(op, lit(1), lit(2)))],
        );
        assert!(
            matches!(
                &func.body[..],
                [Statement::Expression(Expression::BinaryOperation { .. })]
            ),
            "op {:?} unexpectedly folded into {:?}",
            op,
            func.body
        );
    }
}

#[test]
fn level_none_skips_all_optimizations() {
    let body = vec![
        Statement::Expression(bin(BinaryOperator::Add, lit(2), lit(3))),
        Statement::Empty,
    ];
    let func = run(OptimizationLevel::Disabled, body);

    // Add survived unfolded, AND Empty survived (no retain happened).
    assert_eq!(func.body.len(), 2);
    assert!(matches!(
        &func.body[0],
        Statement::Expression(Expression::BinaryOperation { .. })
    ));
    assert!(matches!(&func.body[1], Statement::Empty));
}

#[test]
fn basic_level_drops_empty_statements() {
    let body = vec![
        Statement::Empty,
        Statement::Expression(lit(1)),
        Statement::Empty,
    ];
    let func = run(OptimizationLevel::Basic, body);
    assert_eq!(func.body.len(), 1);
    assert!(matches!(
        &func.body[0],
        Statement::Expression(Expression::IntegerLiteral(1))
    ));
}

#[test]
fn recurses_into_if_then_else_blocks() {
    let body = vec![Statement::If {
        condition: bin(BinaryOperator::Add, lit(0), lit(1)),
        then_block: vec![Statement::Expression(bin(
            BinaryOperator::Multiply,
            lit(4),
            lit(5),
        ))],
        else_block: Some(vec![Statement::Expression(bin(
            BinaryOperator::Subtract,
            lit(10),
            lit(3),
        ))]),
    }];
    let func = run(OptimizationLevel::Basic, body);

    let Statement::If {
        condition,
        then_block,
        else_block,
    } = &func.body[0]
    else {
        panic!("expected if, got {:?}", func.body);
    };
    assert!(matches!(condition, Expression::IntegerLiteral(1)));
    assert!(matches!(
        &then_block[..],
        [Statement::Expression(Expression::IntegerLiteral(20))]
    ));
    assert!(matches!(
        else_block.as_deref(),
        Some([Statement::Expression(Expression::IntegerLiteral(7))])
    ));
}

#[test]
fn recurses_into_while_and_for_bodies() {
    let body = vec![
        Statement::While {
            condition: bin(BinaryOperator::Add, lit(1), lit(0)),
            body: vec![Statement::Expression(bin(
                BinaryOperator::Add,
                lit(3),
                lit(4),
            ))],
        },
        Statement::For {
            init: Some(Box::new(Statement::Expression(bin(
                BinaryOperator::Add,
                lit(0),
                lit(0),
            )))),
            condition: Some(bin(BinaryOperator::LessThan, lit(1), lit(10))),
            update: Some(bin(BinaryOperator::Add, lit(1), lit(1))),
            body: vec![Statement::Expression(bin(
                BinaryOperator::Multiply,
                lit(2),
                lit(2),
            ))],
        },
    ];
    let func = run(OptimizationLevel::Basic, body);

    let Statement::While { condition, body } = &func.body[0] else {
        panic!("expected while");
    };
    assert!(matches!(condition, Expression::IntegerLiteral(1)));
    assert!(matches!(
        &body[..],
        [Statement::Expression(Expression::IntegerLiteral(7))]
    ));

    let Statement::For { update, body, .. } = &func.body[1] else {
        panic!("expected for");
    };
    assert!(matches!(update, Some(Expression::IntegerLiteral(2))));
    assert!(matches!(
        &body[..],
        [Statement::Expression(Expression::IntegerLiteral(4))]
    ));
}

#[test]
fn recurses_into_unary_assignment_and_function_call_arguments() {
    // -(2 + 3) → -5, var = (1+1), f((4+1))
    let neg = Expression::UnaryOperation {
        op: UnaryOperator::Negate,
        operand: Box::new(bin(BinaryOperator::Add, lit(2), lit(3))),
    };
    let assign = Expression::Assignment {
        target: Box::new(Expression::Variable("x".to_string())),
        value: Box::new(bin(BinaryOperator::Add, lit(1), lit(1))),
    };
    let call = Expression::FunctionCall {
        function: "f".to_string(),
        arguments: vec![bin(BinaryOperator::Add, lit(4), lit(1))],
    };

    let func = run(
        OptimizationLevel::Basic,
        vec![
            Statement::Expression(neg),
            Statement::Expression(assign),
            Statement::Expression(call),
        ],
    );

    // Negate doesn't get folded — only the inner BinaryOperation does.
    let Statement::Expression(Expression::UnaryOperation { operand, .. }) = &func.body[0]
    else {
        panic!("expected unary");
    };
    assert!(matches!(operand.as_ref(), Expression::IntegerLiteral(5)));

    let Statement::Expression(Expression::Assignment { value, .. }) = &func.body[1] else {
        panic!("expected assignment");
    };
    assert!(matches!(value.as_ref(), Expression::IntegerLiteral(2)));

    let Statement::Expression(Expression::FunctionCall { arguments, .. }) = &func.body[2]
    else {
        panic!("expected call");
    };
    assert!(matches!(&arguments[..], [Expression::IntegerLiteral(5)]));
}

// ---- aggressive: dead-code after return ----

#[test]
fn aggressive_prunes_statements_after_return_in_top_level() {
    let body = vec![
        Statement::Return(None),
        Statement::Expression(lit(42)),
        Statement::Expression(lit(43)),
    ];
    let func = run(OptimizationLevel::Aggressive, body);
    assert_eq!(func.body.len(), 1);
    assert!(matches!(func.body[0], Statement::Return(None)));
}

#[test]
fn aggressive_prunes_inside_if_branches_independently() {
    let body = vec![Statement::If {
        condition: Expression::Variable("c".to_string()),
        then_block: vec![
            Statement::Return(Some(lit(1))),
            Statement::Expression(lit(99)), // dead
        ],
        else_block: Some(vec![
            Statement::Return(Some(lit(2))),
            Statement::Expression(lit(88)), // dead
        ]),
    }];
    let func = run(OptimizationLevel::Aggressive, body);

    let Statement::If {
        then_block,
        else_block,
        ..
    } = &func.body[0]
    else {
        panic!("expected if");
    };
    assert_eq!(then_block.len(), 1);
    assert_eq!(else_block.as_ref().unwrap().len(), 1);
}

#[test]
fn basic_level_does_not_prune_dead_code() {
    let body = vec![
        Statement::Return(None),
        Statement::Expression(lit(42)),
    ];
    let func = run(OptimizationLevel::Basic, body);
    assert_eq!(func.body.len(), 2);
}

// ---- checked-arithmetic safety net for fold_constant ----

/// Run the optimizer and assert that the (single) folded body statement
/// is still a BinaryOperation with the same operator — i.e. folding was
/// skipped because the operation was unsafe at the given operand values.
fn assert_left_unfolded(op: BinaryOperator, left: i64, right: i64) {
    let func = run(
        OptimizationLevel::Basic,
        vec![Statement::Expression(bin(op, lit(left), lit(right)))],
    );
    assert!(
        matches!(
            &func.body[..],
            [Statement::Expression(Expression::BinaryOperation { op: actual, .. })]
                if *actual == op
        ),
        "expected {:?} {} {} to be left as a BinaryOperation, got {:?}",
        op,
        left,
        right,
        func.body
    );
}

#[test]
fn fold_constant_leaves_division_by_zero_unfolded_instead_of_panicking() {
    assert_left_unfolded(BinaryOperator::Divide, 1, 0);
    assert_left_unfolded(BinaryOperator::Divide, i64::MIN, 0);
}

#[test]
fn fold_constant_leaves_modulo_by_zero_unfolded_instead_of_panicking() {
    assert_left_unfolded(BinaryOperator::Modulo, 7, 0);
}

#[test]
fn fold_constant_leaves_signed_overflow_unfolded_instead_of_panicking() {
    // i64::MAX + 1, i64::MIN - 1, i64::MIN * -1 — all overflow.
    assert_left_unfolded(BinaryOperator::Add, i64::MAX, 1);
    assert_left_unfolded(BinaryOperator::Subtract, i64::MIN, 1);
    assert_left_unfolded(BinaryOperator::Multiply, i64::MIN, -1);
}

#[test]
fn fold_constant_leaves_division_overflow_unfolded() {
    // i64::MIN / -1 overflows because the absolute value would be i64::MAX+1.
    assert_left_unfolded(BinaryOperator::Divide, i64::MIN, -1);
}

#[test]
fn fold_constant_leaves_oversized_or_negative_shifts_unfolded() {
    // Out-of-range shift amounts that would invoke UB are rejected.
    for (op, amount) in [
        (BinaryOperator::LeftShift, 64i64),
        (BinaryOperator::LeftShift, 128),
        (BinaryOperator::LeftShift, -1),
        (BinaryOperator::RightShift, 64),
        (BinaryOperator::RightShift, -1),
    ] {
        assert_left_unfolded(op, 1, amount);
    }
}

#[test]
fn fold_constant_still_folds_when_arithmetic_is_safe() {
    // Regression guard: the safety net must not break the common case.
    let func = run(
        OptimizationLevel::Basic,
        vec![
            Statement::Expression(bin(BinaryOperator::Add, lit(2), lit(3))),
            Statement::Expression(bin(BinaryOperator::Divide, lit(20), lit(4))),
            Statement::Expression(bin(BinaryOperator::LeftShift, lit(1), lit(63))),
        ],
    );

    let values: Vec<i64> = func
        .body
        .iter()
        .filter_map(|s| match s {
            Statement::Expression(Expression::IntegerLiteral(v)) => Some(*v),
            _ => None,
        })
        .collect();
    assert_eq!(values, vec![5, 5, i64::MIN]);
}
