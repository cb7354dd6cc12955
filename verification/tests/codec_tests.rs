use dice_roller::codec::{deserialize_expression, serialize_expression};
use dice_roller::decimal::format_i64;
use dice_roller::types::{Expression, Op};

fn round_trips(e: &Expression) {
    let text = serialize_expression(e);
    let back = deserialize_expression(text.as_str()).unwrap();
    assert_eq!(&back, e);
}

#[test]
fn integer_encoding_is_discriminated() {
    let text = serialize_expression(&Expression::Integer(5));
    assert_eq!(text, "{\"expression_type\":\"integer\",\"expression\":5}");
}

#[test]
fn operator_encoding_is_snake_case() {
    let text = serialize_expression(&Expression::Term(
        Box::new(Expression::Integer(1)),
        Box::new(Expression::Integer(2)),
        Op::Subtract,
    ));
    assert_eq!(
        text,
        "{\"expression_type\":\"term\",\"expression\":[{\"expression_type\":\"integer\",\"expression\":1},{\"expression_type\":\"integer\",\"expression\":2},{\"op_type\":\"subtract\"}]}"
    );
}

#[test]
fn variable_encoding_quotes_the_name() {
    let text = serialize_expression(&Expression::Variable("atk".to_string()));
    assert_eq!(
        text,
        "{\"expression_type\":\"variable\",\"expression\":\"atk\"}"
    );
}

#[test]
fn round_trip_integers() {
    round_trips(&Expression::Integer(0));
    round_trips(&Expression::Integer(5));
    round_trips(&Expression::Integer(-12));
    round_trips(&Expression::Integer(i64::MAX));
    round_trips(&Expression::Integer(i64::MIN));
}

#[test]
fn round_trip_variable_with_escapes() {
    round_trips(&Expression::Variable("plain".to_string()));
    round_trips(&Expression::Variable("qu\"ote".to_string()));
    round_trips(&Expression::Variable("back\\slash".to_string()));
}

#[test]
fn round_trip_term_and_dice() {
    round_trips(&Expression::Term(
        Box::new(Expression::Integer(1)),
        Box::new(Expression::DiceRoll {
            count: Box::new(Expression::Integer(2)),
            sides: Box::new(Expression::Integer(6)),
        }),
        Op::Add,
    ));
}

#[test]
fn round_trip_template_and_call() {
    let template = Expression::DiceRollTemplate {
        args: vec!["a".to_string(), "b".to_string()],
        expressions: vec![
            Expression::Variable("a".to_string()),
            Expression::Term(
                Box::new(Expression::DiceRoll {
                    count: Box::new(Expression::Variable("a".to_string())),
                    sides: Box::new(Expression::Integer(4)),
                }),
                Box::new(Expression::Variable("b".to_string())),
                Op::Subtract,
            ),
        ],
    };
    round_trips(&template);
    round_trips(&Expression::DiceRollTemplate {
        args: vec![],
        expressions: vec![Expression::Integer(1)],
    });
    round_trips(&Expression::DiceRollTemplateCall {
        template_expression: Box::new(template),
        args: vec![Expression::Integer(2), Expression::Integer(6)],
    });
}

#[test]
fn trailing_text_is_rejected() {
    let mut text = serialize_expression(&Expression::Integer(5)).to_string();
    text.push(' ');
    assert!(deserialize_expression(text.as_str()).is_none());
}

#[test]
fn padded_numbers_are_rejected() {
    assert!(deserialize_expression("{\"expression_type\":\"integer\",\"expression\":05}")
        .is_none());
    assert!(deserialize_expression("{\"expression_type\":\"integer\",\"expression\":-0}")
        .is_none());
}

#[test]
fn format_i64_renders_decimals() {
    assert_eq!(format_i64(0), "0");
    assert_eq!(format_i64(42), "42");
    assert_eq!(format_i64(-1), "-1");
    assert_eq!(format_i64(i64::MAX), "9223372036854775807");
    assert_eq!(format_i64(i64::MIN), "-9223372036854775808");
}
