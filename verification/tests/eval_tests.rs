use dice_roller::dice::MinRoller;
use dice_roller::environments::hash_map_environment::HashMapEnvironment;
use dice_roller::error::RollerError;
use dice_roller::eval::EvalVisitor;
use dice_roller::repl::REPLContext;
use dice_roller::types::{Expression, Op};

fn visitor() -> EvalVisitor<MinRoller, HashMapEnvironment, REPLContext> {
    EvalVisitor::new(
        MinRoller,
        HashMapEnvironment::new(),
        REPLContext::new("test".to_string(), "test_user".to_string()),
    )
}

#[test]
fn test_eval() {
    let mut visitor = visitor();
    assert_eq!(
        visitor.visit_expression(&Expression::Integer(1)).unwrap(),
        Expression::Integer(1)
    );
    assert_eq!(
        visitor
            .visit_expression(&Expression::Term(
                Box::new(Expression::Integer(1)),
                Box::new(Expression::Integer(2)),
                Op::Add
            ))
            .unwrap(),
        Expression::Integer(3)
    );
    assert_eq!(
        visitor
            .visit_expression(&Expression::Term(
                Box::new(Expression::Integer(1)),
                Box::new(Expression::Integer(2)),
                Op::Subtract,
            ))
            .unwrap(),
        Expression::Integer(-1)
    );
    assert_eq!(
        visitor
            .visit_statement(&dice_roller::types::Statement::Roll(Box::new(
                Expression::Term(
                    Box::new(Expression::DiceRoll {
                        count: Box::new(Expression::Integer(1)),
                        sides: Box::new(Expression::Integer(6))
                    }),
                    Box::new(Expression::Integer(1)),
                    Op::Add
                )
            )))
            .unwrap(),
        "2"
    );
    assert_eq!(
        visitor
            .visit_statement(&dice_roller::types::Statement::Roll(Box::new(
                Expression::Term(
                    Box::new(Expression::Integer(1)),
                    Box::new(Expression::DiceRoll {
                        count: Box::new(Expression::Integer(1)),
                        sides: Box::new(Expression::Integer(6))
                    }),
                    Op::Add
                )
            )))
            .unwrap(),
        "2"
    );
    assert_eq!(
        visitor
            .visit_expression(&Expression::DiceRoll {
                count: Box::new(Expression::Integer(1231239)),
                sides: Box::new(Expression::Integer(410123123))
            })
            .unwrap(),
        Expression::Integer(1231239)
    );
    assert_eq!(
        visitor
            .visit_expression(&Expression::DiceRollTemplateCall {
                template_expression: Box::new(Expression::DiceRollTemplate {
                    args: vec![],
                    expressions: vec![Expression::DiceRoll {
                        count: Box::new(Expression::Integer(1)),
                        sides: Box::new(Expression::Integer(4)),
                    }]
                }),
                args: vec![],
            })
            .unwrap(),
        Expression::Integer(1),
    );
    assert_eq!(
        visitor
            .visit_expression(&Expression::DiceRollTemplateCall {
                template_expression: Box::new(Expression::DiceRollTemplate {
                    args: vec!["A".to_string(), "B".to_string()],
                    expressions: vec![Expression::Term(
                        Box::new(Expression::DiceRoll {
                            count: Box::new(Expression::Variable("A".to_string())),
                            sides: Box::new(Expression::Integer(4)),
                        }),
                        Box::new(Expression::Variable("B".to_string())),
                        Op::Add,
                    )]
                }),
                args: vec![Expression::Integer(2), Expression::Integer(6)],
            })
            .unwrap(),
        Expression::Integer(8),
    );
    assert_eq!(
        visitor
            .visit_expression(&Expression::DiceRollTemplateCall {
                template_expression: Box::new(Expression::DiceRollTemplate {
                    args: vec!["A".to_string(), "B".to_string()],
                    expressions: vec![Expression::Term(
                        Box::new(Expression::DiceRoll {
                            count: Box::new(Expression::Variable("A".to_string())),
                            sides: Box::new(Expression::Integer(4)),
                        }),
                        Box::new(Expression::Variable("B".to_string())),
                        Op::Subtract,
                    )]
                }),
                args: vec![Expression::Integer(2), Expression::Integer(6)],
            })
            .unwrap(),
        Expression::Integer(-4),
    );
}

#[test]
fn test_eval_empty_template_body() {
    let mut visitor = visitor();
    let r = visitor.visit_expression(&Expression::DiceRollTemplateCall {
        template_expression: Box::new(Expression::DiceRollTemplate {
            args: vec![],
            expressions: vec![],
        }),
        args: vec![],
    });
    assert_eq!(
        r.unwrap_err().message(),
        "missing body for dice roll template"
    );
}

#[test]
fn test_eval_not_callable() {
    let mut visitor = visitor();
    let r = visitor.visit_expression(&Expression::DiceRollTemplateCall {
        template_expression: Box::new(Expression::Integer(3)),
        args: vec![],
    });
    assert_eq!(r.unwrap_err().message(), "not callable");
}

#[test]
fn test_eval_arity_mismatch() {
    let mut visitor = visitor();
    let r = visitor.visit_expression(&Expression::DiceRollTemplateCall {
        template_expression: Box::new(Expression::DiceRollTemplate {
            args: vec!["a".to_string(), "b".to_string()],
            expressions: vec![Expression::Variable("a".to_string())],
        }),
        args: vec![Expression::Integer(1)],
    });
    assert_eq!(
        r.unwrap_err().message(),
        "wrong number of arguments for dice roll template"
    );
}

#[test]
fn test_eval_type_mismatch() {
    let mut visitor = visitor();
    let template = Expression::DiceRollTemplate {
        args: vec![],
        expressions: vec![Expression::Integer(1)],
    };
    let r = visitor.visit_expression(&Expression::Term(
        Box::new(template),
        Box::new(Expression::Integer(1)),
        Op::Add,
    ));
    assert_eq!(r.unwrap_err().message(), "type mismatch in operands");
}

#[test]
fn test_eval_invalid_dice() {
    let mut visitor = visitor();
    let r = visitor.visit_expression(&Expression::DiceRoll {
        count: Box::new(Expression::Integer(0)),
        sides: Box::new(Expression::Integer(0)),
    });
    assert_eq!(r.unwrap_err().message(), "invalid dice roll");
}

#[test]
fn test_eval_overflow() {
    let mut visitor = visitor();
    let r = visitor.visit_expression(&Expression::Term(
        Box::new(Expression::Integer(i64::MAX)),
        Box::new(Expression::Integer(1)),
        Op::Add,
    ));
    assert_eq!(r.unwrap_err().message(), "integer overflow");
}

#[test]
fn test_eval_unknown_error_text() {
    assert_eq!(RollerError::OtherError.message(), "an unknown error");
}
