use ::nepolish::parser::nepolish;
use ::nepolish::parser::nepolish::{
    eval, well_formed, EvalError, Expected, Node, NumeralError, Operator, ParseError, Sankhya,
    SyntaxError,
};
use ::nepolish::parser::polish;

#[test]
fn left_associative_subtraction() {
    let tree = polish::parse("- 23 10 1").unwrap();
    assert_eq!(eval(tree).unwrap(), Sankhya(12));
}

#[test]
fn left_associative_division() {
    let tree = polish::parse("/ 100 2 5").unwrap();
    assert_eq!(eval(tree).unwrap(), Sankhya(10));
}

#[test]
fn multi_operand_fold() {
    let tree = polish::parse("+ 14 (* 23 34 45) (/ 100 2 3) (- 23 1)").unwrap();
    assert_eq!(eval(tree).unwrap(), Sankhya(14 + 23 * 34 * 45 + 100 / 2 / 3 + (23 - 1)));
    assert_eq!(eval(polish::parse("+ 14 (* 23 34 45) (/ 100 2 3) (- 23 1)").unwrap()).unwrap(), Sankhya(35242));
}

#[test]
fn negative_numbers() {
    let tree = polish::parse("+ (- -14 34) (* 2 34 -5) (/ 100 -20)").unwrap();
    assert_eq!(eval(tree).unwrap(), Sankhya(-393));
}

#[test]
fn division_truncates_toward_zero() {
    assert_eq!(eval(polish::parse("/ -7 2").unwrap()).unwrap(), Sankhya(-3));
    assert_eq!(eval(polish::parse("/ 7 -2").unwrap()).unwrap(), Sankhya(-3));
}

#[test]
fn divide_by_zero() {
    let tree = polish::parse("/ 5 0").unwrap();
    assert_eq!(eval(tree), Err(EvalError::DivideByZero));
}

#[test]
fn overflow_on_addition() {
    let tree = polish::parse("+ 2147483647 1").unwrap();
    assert_eq!(eval(tree), Err(EvalError::Overflow));
}

#[test]
fn overflow_on_multiplication() {
    let tree = polish::parse("* 100000 100000").unwrap();
    assert_eq!(eval(tree), Err(EvalError::Overflow));
}

#[test]
fn overflow_on_division() {
    let tree = polish::parse("/ -2147483648 -1").unwrap();
    assert_eq!(eval(tree), Err(EvalError::Overflow));
}

#[test]
fn too_few_operands_is_a_syntax_error() {
    assert!(matches!(polish::parse("+ 1"), Err(ParseError::Syntax(_))));
    assert!(matches!(nepolish::parse("+ १"), Err(ParseError::Syntax(_))));
}

#[test]
fn trailing_garbage_is_a_syntax_error() {
    assert!(polish::parse("+ 1 2").is_ok());
    assert!(matches!(
        polish::parse("+ 1 2 trailing"),
        Err(ParseError::Syntax(SyntaxError { expected: Expected::EndOfInput, .. }))
    ));
}

#[test]
fn missing_operator_is_a_syntax_error() {
    assert!(matches!(
        polish::parse("5"),
        Err(ParseError::Syntax(SyntaxError { pos: 0, expected: Expected::Operator }))
    ));
}

#[test]
fn unmatched_parenthesis_is_a_syntax_error() {
    assert!(matches!(
        polish::parse("+ 1 (."),
        Err(ParseError::Syntax(_))
    ));
    assert!(matches!(
        polish::parse("+ 1 (- 2 3"),
        Err(ParseError::Syntax(SyntaxError { expected: Expected::CloseParen, .. }))
    ));
}

#[test]
fn oversized_literal_is_a_numeral_error() {
    match polish::parse("+ 1 99999999999") {
        Err(ParseError::Numeral(NumeralError::Invalid(text))) => {
            assert_eq!(text, "99999999999");
        },
        other => panic!("expected an invalid-literal error, got {:?}", other),
    }
}

#[test]
fn sankhya_decodes_devanagari_literals() {
    assert_eq!(Sankhya::from_str("१२३"), Ok(Sankhya(123)));
    assert_eq!(Sankhya::from_str("-१२३"), Ok(Sankhya(-123)));
    assert_eq!(Sankhya::from_str("०"), Ok(Sankhya(0)));
}

#[test]
fn sankhya_passes_unmapped_clusters_to_the_integer_parser() {
    assert_eq!(Sankhya::from_str("42"), Ok(Sankhya(42)));
    assert_eq!(Sankhya::from_str("+४२"), Ok(Sankhya(42)));
    match Sankhya::from_str("abc") {
        Err(NumeralError::Invalid(text)) => assert_eq!(text, "abc"),
        other => panic!("expected an invalid-literal error, got {:?}", other),
    }
}

#[test]
fn sankhya_rejects_out_of_range_literals() {
    assert!(matches!(Sankhya::from_str("९९९९९९९९९९९९"), Err(NumeralError::Invalid(_))));
    assert_eq!(Sankhya::from_str("२१४७४८३६४७"), Ok(Sankhya(2147483647)));
    assert!(matches!(Sankhya::from_str("२१४७४८३६४८"), Err(NumeralError::Invalid(_))));
    assert_eq!(Sankhya::from_str("-२१४७४८३६४८"), Ok(Sankhya(-2147483648)));
}

#[test]
fn sankhya_renders_devanagari_text() {
    assert_eq!(Sankhya(-393).to_text(), "-३९३");
    assert_eq!(Sankhya(0).to_text(), "०");
    assert_eq!(Sankhya(2147483647).to_text(), "२१४७४८३६४७");
}

#[test]
fn numeral_round_trip() {
    for v in [0, 1, -1, 9, 10, -393, 35242, 2147483647, -2147483648] {
        assert_eq!(Sankhya::from_str(&Sankhya(v).to_text()), Ok(Sankhya(v)));
    }
    for s in ["०", "१४", "-१००", "३९३९३"] {
        assert_eq!(Sankhya::from_str(s).unwrap().to_text(), s);
    }
}

#[test]
fn script_equivalence() {
    let ascii = polish::parse("+ 12 (* 3 -4) (/ 100 20)").unwrap();
    let devanagari = nepolish::parse("+ १२ (* ३ -४) (/ १०० २०)").unwrap();
    assert_eq!(ascii, devanagari);
    assert_eq!(eval(ascii), eval(devanagari));
}

#[test]
fn well_formed_guards_evaluation() {
    let orphan = Node::Expr { op: Operator::Add, children: vec![Node::Int(1)] };
    assert!(!well_formed(&orphan));
    let tree = nepolish::parse("- २३ १० १").unwrap();
    assert!(well_formed(&tree));
    assert_eq!(eval(tree).unwrap(), Sankhya(12));
}
