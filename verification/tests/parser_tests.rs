use dice_roller::parser;
use dice_roller::parser::StatementParser;
use dice_roller::text::chars_of;
use dice_roller::types::{Expression, Op, Statement};

#[test]
fn test_variable_ref() {
    let s = chars_of("{test010}");
    assert_eq!(
        parser::variable_ref(&s, 0).unwrap().1,
        Expression::Variable("test010".to_string())
    );
    let s = chars_of("{another_one_again}");
    assert_eq!(
        parser::variable_ref(&s, 0).unwrap().1,
        Expression::Variable("another_one_again".to_string())
    );
    let s = chars_of("{!test_fails}");
    assert!(parser::variable_ref(&s, 0).is_none());
}

#[test]
fn test_term() {
    let s = chars_of("1 - 2");
    assert_eq!(
        parser::term(&s, 0).unwrap().1,
        Expression::Term(
            Box::new(Expression::Integer(1)),
            Box::new(Expression::Integer(2)),
            Op::Subtract
        )
    );
    let s = chars_of("1 + 2");
    assert_eq!(
        parser::term(&s, 0).unwrap().1,
        Expression::Term(
            Box::new(Expression::Integer(1)),
            Box::new(Expression::Integer(2)),
            Op::Add
        )
    );
    let s = chars_of("2d6 + 1");
    assert_eq!(
        parser::term(&s, 0).unwrap().1,
        Expression::Term(
            Box::new(Expression::DiceRoll {
                count: Box::new(Expression::Integer(2)),
                sides: Box::new(Expression::Integer(6))
            }),
            Box::new(Expression::Integer(1)),
            Op::Add
        )
    );
    let s = chars_of("2d6 + 1 + 1d6 - 10");
    assert_eq!(
        parser::term(&s, 0).unwrap().1,
        Expression::Term(
            Box::new(Expression::Term(
                Box::new(Expression::Term(
                    Box::new(Expression::DiceRoll {
                        count: Box::new(Expression::Integer(2)),
                        sides: Box::new(Expression::Integer(6))
                    }),
                    Box::new(Expression::Integer(1)),
                    Op::Add
                )),
                Box::new(Expression::DiceRoll {
                    count: Box::new(Expression::Integer(1)),
                    sides: Box::new(Expression::Integer(6))
                }),
                Op::Add
            )),
            Box::new(Expression::Integer(10)),
            Op::Subtract
        )
    );
}

#[test]
fn test_integer() {
    let s = chars_of("1");
    assert_eq!(parser::integer(&s, 0), Some((1, 1)));
    let s = chars_of("2");
    assert_eq!(parser::integer(&s, 0), Some((1, 2)));
    let s = chars_of("f");
    assert_eq!(parser::integer(&s, 0), None);
}

#[test]
fn test_dice_roll() {
    let s = chars_of("1d6");
    assert_eq!(
        parser::dice_roll(&s, 0),
        Some((
            3,
            Expression::DiceRoll {
                count: Box::new(Expression::Integer(1)),
                sides: Box::new(Expression::Integer(6))
            }
        ))
    );
    let s = chars_of("1231239d410123123");
    assert_eq!(
        parser::dice_roll(&s, 0),
        Some((
            17,
            Expression::DiceRoll {
                count: Box::new(Expression::Integer(1231239)),
                sides: Box::new(Expression::Integer(410123123))
            }
        ))
    );
    let s = chars_of("69d420");
    assert_eq!(
        parser::dice_roll(&s, 0),
        Some((
            6,
            Expression::DiceRoll {
                count: Box::new(Expression::Integer(69)),
                sides: Box::new(Expression::Integer(420))
            }
        ))
    );
    let s = chars_of("2d8");
    assert_eq!(
        parser::dice_roll(&s, 0),
        Some((
            3,
            Expression::DiceRoll {
                count: Box::new(Expression::Integer(2)),
                sides: Box::new(Expression::Integer(8))
            }
        ))
    );
    let s = chars_of("x9d420");
    assert_eq!(parser::dice_roll(&s, 0), None);
}

#[test]
fn test_dice_roll_template() {
    let expected = Expression::DiceRollTemplate {
        args: vec!["a".to_string(), "b".to_string()],
        expressions: vec![Expression::Term(
            Box::new(Expression::DiceRoll {
                count: Box::new(Expression::Variable("a".to_string())),
                sides: Box::new(Expression::Integer(6)),
            }),
            Box::new(Expression::Variable("b".to_string())),
            Op::Add,
        )],
    };
    let s = chars_of("(a,b) => ( {a}d6 + {b} )");
    assert_eq!(parser::dice_roll_template(&s, 0).unwrap().1, expected);
    let s = chars_of("(a,  b ) => ({a}d6 + {b} ) ");
    assert_eq!(parser::dice_roll_template(&s, 0).unwrap().1, expected);
}

#[test]
fn test_set() {
    let s = chars_of("set foo 1");
    assert_eq!(
        parser::statement(&s, 0).unwrap().1,
        Statement::SetValue("foo".to_string(), Box::new(Expression::Integer(1)))
    );
    let s = chars_of("set bar 1d6");
    assert_eq!(
        parser::statement(&s, 0).unwrap().1,
        Statement::SetValue(
            "bar".to_string(),
            Box::new(Expression::DiceRoll {
                count: Box::new(Expression::Integer(1)),
                sides: Box::new(Expression::Integer(6))
            })
        )
    );
    let s = chars_of("set foo-bar 1d6 + 1");
    assert_eq!(
        parser::statement(&s, 0).unwrap().1,
        Statement::SetValue(
            "foo-bar".to_string(),
            Box::new(Expression::Term(
                Box::new(Expression::DiceRoll {
                    count: Box::new(Expression::Integer(1)),
                    sides: Box::new(Expression::Integer(6))
                }),
                Box::new(Expression::Integer(1)),
                Op::Add
            ))
        )
    );
}

#[test]
fn test_roll() {
    let s = chars_of("roll 1");
    assert_eq!(
        parser::statement(&s, 0).unwrap().1,
        Statement::Roll(Box::new(Expression::Integer(1)))
    );
    let s = chars_of("roll 1d6");
    assert_eq!(
        parser::statement(&s, 0).unwrap().1,
        Statement::Roll(Box::new(Expression::DiceRoll {
            count: Box::new(Expression::Integer(1)),
            sides: Box::new(Expression::Integer(6))
        }))
    );
    let s = chars_of("roll 1d6 + 1");
    assert_eq!(
        parser::statement(&s, 0).unwrap().1,
        Statement::Roll(Box::new(Expression::Term(
            Box::new(Expression::DiceRoll {
                count: Box::new(Expression::Integer(1)),
                sides: Box::new(Expression::Integer(6))
            }),
            Box::new(Expression::Integer(1)),
            Op::Add
        )))
    );
}

#[test]
fn test_command() {
    let p = StatementParser;
    assert_eq!(p.parse("!print-env"), Ok(Statement::PrintEnv));
    assert_eq!(p.parse("!help"), Ok(Statement::Help));
    assert_eq!(
        p.parse("!roll 1"),
        Ok(Statement::Roll(Box::new(Expression::Integer(1))))
    );
    assert_eq!(
        p.parse("!roll (a, b) => ( {a}d6 + {b} )(1, 10)"),
        Ok(Statement::Roll(Box::new(Expression::DiceRollTemplateCall {
            template_expression: Box::new(Expression::DiceRollTemplate {
                args: vec!["a".to_string(), "b".to_string()],
                expressions: vec![Expression::Term(
                    Box::new(Expression::DiceRoll {
                        count: Box::new(Expression::Variable("a".to_string())),
                        sides: Box::new(Expression::Integer(6))
                    }),
                    Box::new(Expression::Variable("b".to_string())),
                    Op::Add,
                )]
            }),
            args: vec![Expression::Integer(1), Expression::Integer(10)]
        })))
    );
    assert_eq!(
        p.parse("!set bar 1d6"),
        Ok(Statement::SetValue(
            "bar".to_string(),
            Box::new(Expression::DiceRoll {
                count: Box::new(Expression::Integer(1)),
                sides: Box::new(Expression::Integer(6))
            })
        ))
    );
}
