use dice_roller::dice::MinRoller;
use dice_roller::environments::hash_map_environment::HashMapEnvironment;
use dice_roller::repl::{REPLContext, REPL};

fn min_repl() -> REPL<HashMapEnvironment, MinRoller> {
    REPL::with_parts(HashMapEnvironment::new(), MinRoller)
}

fn ctx() -> REPLContext {
    REPLContext::new("repl".to_string(), "user".to_string())
}

#[test]
fn left_associativity() {
    let mut repl = min_repl();
    assert_eq!(repl.exec(&ctx(), "!roll 10 - 3 - 2").unwrap(), "5");
}

#[test]
fn default_count_single_sided_die() {
    let mut repl = min_repl();
    assert_eq!(repl.exec(&ctx(), "!roll d1").unwrap(), "1");
}

#[test]
fn deterministic_dice_sum_to_count() {
    let mut repl = min_repl();
    assert_eq!(repl.exec(&ctx(), "!roll 2d6 + 1").unwrap(), "3");
    assert_eq!(repl.exec(&ctx(), "!roll 7d20").unwrap(), "7");
}

#[test]
fn roll_integer_upper_boundary() {
    let mut repl = min_repl();
    assert_eq!(
        repl.exec(&ctx(), "!roll 4611686018427387904").unwrap(),
        "4611686018427387904"
    );
}

#[test]
fn simple_addition() {
    let mut repl = min_repl();
    assert_eq!(repl.exec(&ctx(), "!roll 1 + 2").unwrap(), "3");
}

#[test]
fn set_then_roll_stored_value() {
    let mut repl = min_repl();
    assert_eq!(
        repl.exec(&ctx(), "!set atk 1d20 + 5").unwrap(),
        "\"atk\" => Integer(6)"
    );
    assert_eq!(repl.exec(&ctx(), "!roll {atk}").unwrap(), "6");
}

#[test]
fn read_your_writes() {
    let mut repl = min_repl();
    assert!(repl.exec(&ctx(), "!set foo 5").is_ok());
    assert_eq!(repl.exec(&ctx(), "!roll {foo}").unwrap(), "5");
}

#[test]
fn template_lexical_capture() {
    let mut repl = min_repl();
    assert!(repl.exec(&ctx(), "!set k 10").is_ok());
    assert_eq!(
        repl.exec(&ctx(), "!roll (a) => ( {a} + {k} )(3)").unwrap(),
        "13"
    );
}

#[test]
fn template_argument_binding_order() {
    let mut repl = min_repl();
    assert_eq!(
        repl.exec(&ctx(), "!roll (a,b)=>({a}d4 + {b})(2, 6)").unwrap(),
        "8"
    );
    assert_eq!(
        repl.exec(&ctx(), "!roll (a,b)=>({a}d4 - {b})(2, 6)").unwrap(),
        "-4"
    );
}

#[test]
fn missing_variable_reports_its_name() {
    let mut repl = min_repl();
    assert_eq!(
        repl.exec(&ctx(), "!roll {missing}").unwrap_err().message(),
        "failed to lookup variable missing"
    );
}

#[test]
fn help_is_not_empty() {
    let mut repl = min_repl();
    assert!(!repl.exec(&ctx(), "!help").unwrap().is_empty());
}

#[test]
fn print_env_is_not_empty() {
    let mut repl = min_repl();
    assert!(repl.exec(&ctx(), "!set atk 3").is_ok());
    let shown = repl.exec(&ctx(), "!print-env").unwrap();
    assert!(!shown.is_empty());
    assert!(shown.contains("atk"));
}

#[test]
fn grammar_rejection() {
    let mut repl = min_repl();
    for bad in ["!roll x9d420", "!roll 1 +", "!set 1foo 2", "!roll ()=>()"] {
        let err = repl.exec(&ctx(), bad).unwrap_err();
        assert_eq!(err.message(), "failed to parse", "input: {}", bad);
    }
}

#[test]
fn context_isolation() {
    let mut repl = min_repl();
    let ctx1 = REPLContext::new("chan1".to_string(), "alice".to_string());
    let ctx2 = REPLContext::new("chan2".to_string(), "alice".to_string());
    let ctx3 = REPLContext::new("chan1".to_string(), "bob".to_string());
    assert!(repl.exec(&ctx1, "!set foo 5").is_ok());
    assert_eq!(repl.exec(&ctx1, "!roll {foo}").unwrap(), "5");
    assert!(repl.exec(&ctx2, "!roll {foo}").is_err());
    assert!(repl.exec(&ctx3, "!roll {foo}").is_err());
}

#[test]
fn stored_template_is_callable() {
    let mut repl = min_repl();
    assert!(repl.exec(&ctx(), "!set smite (a)=>({a}d8 + 2)").is_ok());
    assert_eq!(repl.exec(&ctx(), "!roll {smite}(3)").unwrap(), "5");
}

#[test]
fn calling_an_integer_is_not_callable() {
    let mut repl = min_repl();
    assert!(repl.exec(&ctx(), "!set x 5").is_ok());
    assert_eq!(
        repl.exec(&ctx(), "!roll {x}(1)").unwrap_err().message(),
        "not callable"
    );
}

#[test]
fn wrong_argument_count_is_reported() {
    let mut repl = min_repl();
    assert_eq!(
        repl.exec(&ctx(), "!roll (a,b)=>({a})(1)").unwrap_err().message(),
        "wrong number of arguments for dice roll template"
    );
}

#[test]
fn addition_overflow_is_reported() {
    let mut repl = min_repl();
    assert_eq!(
        repl.exec(&ctx(), "!roll 9223372036854775807 + 1")
            .unwrap_err()
            .message(),
        "integer overflow"
    );
}

#[test]
fn invalid_dice_operands_are_reported() {
    let mut repl = min_repl();
    assert_eq!(
        repl.exec(&ctx(), "!roll 0d0").unwrap_err().message(),
        "invalid dice roll"
    );
}

#[test]
fn rolling_a_template_value_is_a_type_mismatch() {
    let mut repl = min_repl();
    assert_eq!(
        repl.exec(&ctx(), "!roll (a)=>({a})").unwrap_err().message(),
        "type mismatch in operands"
    );
}

#[test]
fn entropy_seeded_rolls_stay_in_range() {
    let mut repl = REPL::default();
    assert_eq!(repl.exec(&ctx(), "!roll d1").unwrap(), "1");
    for _ in 0..16 {
        let shown = repl.exec(&ctx(), "!roll 2d6").unwrap();
        let v: i64 = shown.parse().unwrap();
        assert!((2..=12).contains(&v));
    }
}
