use parser::error::InterpreterErrorKind;
use parser::interpreter::Interpreter;
use parser::lexer::lex;
use parser::parser::{parse, Ast, BinOp, BinOpKind, UniOp};
use parser::utils::Loc;

fn eval_line(input: &str) -> i64 {
    let tokens = lex(input).unwrap();
    let ast = parse(tokens).unwrap();
    let mut interp = Interpreter::new();
    interp.eval(&ast).unwrap()
}

#[test]
fn test_interpreter() {
    // 1 + 2 * 3 - -10
    let ast = Ast::binop(
        BinOp::sub(Loc(10, 11)),
        Ast::binop(
            BinOp::add(Loc(2, 3)),
            Ast::num(1, Loc(0, 1)),
            Ast::binop(
                BinOp::new(BinOpKind::Mult, Loc(6, 7)),
                Ast::num(2, Loc(4, 5)),
                Ast::num(3, Loc(8, 9)),
                Loc(4, 9),
            ),
            Loc(0, 9),
        ),
        Ast::uniop(UniOp::minus(Loc(12, 13)), Ast::num(10, Loc(13, 15)), Loc(12, 15)),
        Loc(0, 15),
    );
    let mut interp = Interpreter::new();

    let ans = interp.eval(&ast).unwrap();

    assert_eq!(ans, 17)
}

#[test]
fn test_precedence_and_associativity() {
    assert_eq!(eval_line("1 + 2 * 3 - -10"), 17);
}

#[test]
fn test_left_associativity() {
    assert_eq!(eval_line("10 - 2 - 3"), 5);
}

#[test]
fn test_unary_chains() {
    assert_eq!(eval_line("- -10"), 10);
    assert_eq!(eval_line("+-10"), -10);
}

#[test]
fn test_parenthesization() {
    assert_eq!(eval_line("(1 + 2) * 3"), 9);
}

#[test]
fn test_division_truncates_toward_zero() {
    assert_eq!(eval_line("7 / 2"), 3);
    assert_eq!(eval_line("-7 / 2"), -3);
    assert_eq!(eval_line("7 / -2"), -3);
}

#[test]
fn test_signed_extremes_and_wrapping() {
    assert_eq!(eval_line("9223372036854775807"), i64::MAX);
    assert_eq!(eval_line("-9223372036854775808"), i64::MIN);
    // Overflow wraps, in addition as in negation and division.
    assert_eq!(eval_line("9223372036854775807 + 1"), i64::MIN);
    assert_eq!(eval_line("-9223372036854775808 / -1"), i64::MIN);
    assert_eq!(eval_line("--9223372036854775808"), i64::MIN);
}

#[test]
fn test_division_by_zero() {
    let tokens = lex("1 / 0").unwrap();
    let ast = parse(tokens).unwrap();
    let mut interp = Interpreter::new();
    let err = interp.eval(&ast).unwrap_err();
    assert_eq!(err.value, InterpreterErrorKind::DivisionByZero);
    // The error carries the span of the whole division expression.
    assert_eq!(err.loc, Loc(0, 5));
}

#[test]
fn test_division_by_zero_in_parens() {
    let tokens = lex("8 / (2 - 2)").unwrap();
    let ast = parse(tokens).unwrap();
    let mut interp = Interpreter::new();
    let err = interp.eval(&ast).unwrap_err();
    assert_eq!(err.value, InterpreterErrorKind::DivisionByZero);
}
