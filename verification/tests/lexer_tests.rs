use parser::lexer::{lex, LexError, Token, TokenKind};
use parser::utils::Loc;

#[test]
fn test_lexer() {
    assert_eq!(
        lex("1 + 2 * 3 - -10"),
        Ok(vec![
            Token::number(1, Loc(0, 1)),
            Token::plus(Loc(2, 3)),
            Token::number(2, Loc(4, 5)),
            Token::asterisk(Loc(6, 7)),
            Token::number(3, Loc(8, 9)),
            Token::minus(Loc(10, 11)),
            Token::minus(Loc(12, 13)),
            Token::number(10, Loc(13, 15)),
        ])
    )
}

#[test]
fn test_lexer_invalid_char() {
    // The offending byte `&` occupies the single-byte span 2-3.
    assert_eq!(lex("1 & 2"), Err(LexError::invalid_char('&', Loc(2, 3))));
}

#[test]
fn test_lexer_empty_input() {
    assert_eq!(lex(""), Ok(vec![]));
}

#[test]
fn test_lexer_whitespace_moves_spans_only() {
    let kinds = |input: &str| -> Vec<TokenKind> {
        lex(input).unwrap().into_iter().map(|t| t.value).collect()
    };
    assert_eq!(kinds("1+2*3--10"), kinds("1 + 2 * 3 - -10"));
    assert_eq!(kinds("\t1  +\n2 "), kinds("1+2"));
    // Splitting a digit run is the one way whitespace changes the tokens.
    assert_ne!(kinds("1 0"), kinds("10"));
}

#[test]
fn test_lexer_all_symbols() {
    assert_eq!(
        lex("(8/4)"),
        Ok(vec![
            Token::lparen(Loc(0, 1)),
            Token::number(8, Loc(1, 2)),
            Token::slash(Loc(2, 3)),
            Token::number(4, Loc(3, 4)),
            Token::rparen(Loc(4, 5)),
        ])
    );
}

#[test]
fn test_lexer_wide_number_saturates() {
    // Twenty nines exceed 64 bits; the lexer saturates instead of failing.
    assert_eq!(
        lex("99999999999999999999"),
        Ok(vec![Token::number(u64::MAX, Loc(0, 20))])
    );
    // The largest value that still fits is kept exactly.
    assert_eq!(
        lex("18446744073709551615"),
        Ok(vec![Token::number(u64::MAX, Loc(0, 20))])
    );
    assert_eq!(
        lex("18446744073709551614"),
        Ok(vec![Token::number(u64::MAX - 1, Loc(0, 20))])
    );
}

#[test]
fn test_lex_error_constructors() {
    let eof = LexError::eof(Loc(5, 5));
    assert_eq!(eof.value, parser::lexer::LexErrorKind::Eof);
    assert_eq!(eof.loc, Loc(5, 5));
}

#[test]
fn test_loc_merge() {
    assert_eq!(Loc(4, 6).merge(&Loc(2, 5)), Loc(2, 6));
    assert_eq!(Loc(0, 1).merge(&Loc(13, 15)), Loc(0, 15));
    assert_eq!(Loc(3, 3).merge(&Loc(3, 3)), Loc(3, 3));
}

#[test]
fn test_annot_new() {
    let a = parser::utils::Annot::new(7u64, Loc(1, 2));
    assert_eq!(a.value, 7);
    assert_eq!(a.loc, Loc(1, 2));
}
