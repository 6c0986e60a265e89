use parser::error::{Error, ParseError};
use parser::lexer::{lex, Token};
use parser::parser::parse;
use parser::utils::Loc;

#[test]
fn test_unclosed_open_paren() {
    let tokens = lex("(1 + 2").unwrap();
    assert_eq!(
        parse(tokens),
        Err(ParseError::UnclosedOpenParen(Token::lparen(Loc(0, 1))))
    );
}

#[test]
fn test_redundant_expression() {
    let tokens = lex("1 + 2 3").unwrap();
    assert_eq!(
        parse(tokens),
        Err(ParseError::RedundantExpression(Token::number(3, Loc(6, 7))))
    );
}

#[test]
fn test_not_expression() {
    let tokens = lex("*3").unwrap();
    assert_eq!(
        parse(tokens),
        Err(ParseError::NotExpression(Token::asterisk(Loc(0, 1))))
    );
}

#[test]
fn test_unexpected_token_after_paren_expr() {
    let tokens = lex("(1 2)").unwrap();
    assert_eq!(
        parse(tokens),
        Err(ParseError::UnexpectedToken(Token::number(2, Loc(3, 4))))
    );
}

#[test]
fn test_eof_on_empty_input() {
    assert_eq!(parse(vec![]), Err(ParseError::Eof));
    let tokens = lex("1 +").unwrap();
    assert_eq!(parse(tokens), Err(ParseError::Eof));
}

#[test]
fn test_reparse_is_idempotent() {
    let tokens = lex("(1 + 2) * 3 - -10").unwrap();
    let first = parse(tokens.clone()).unwrap();
    let second = parse(tokens).unwrap();
    assert_eq!(first, second);
}

#[test]
fn test_binop_spans_merge_children() {
    let tokens = lex("1 + 2 * 3 - -10").unwrap();
    let ast = parse(tokens).unwrap();
    // The root covers the whole line; its operator is the last `-`.
    assert_eq!(ast.loc, Loc(0, 15));
}

#[test]
fn test_diagnostic_loc() {
    let input = "1 + 2 3";
    let e = Error::Parser(ParseError::RedundantExpression(Token::number(3, Loc(6, 7))));
    assert_eq!(e.diagnostic_loc(input.len()), Loc(6, 7));

    let input2 = "1 +";
    let e2 = Error::Parser(ParseError::Eof);
    assert_eq!(e2.diagnostic_loc(input2.len()), Loc(3, 4));

    let e3 = Error::from(parser::lexer::LexError::invalid_char('&', Loc(3, 4)));
    assert_eq!(e3.diagnostic_loc(5), Loc(3, 4));
}
