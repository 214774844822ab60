use exprfront::number::Num;
use exprfront::scanner::tokenize;
use exprfront::span::Span;
use exprfront::token::Keyword;
use exprfront::token::Operator;
use exprfront::token::Token;

#[test]
fn insignificant() {
    let toks = tokenize("  -- comment\n  -- more comment");
    assert!(!toks.is_empty());
    assert!(toks
        .iter()
        .all(|t| matches!(t.note, Token::Whitespace | Token::Comment)));
}

#[test]
fn numeric_scan_stops_after_exponent() {
    assert_eq!(Num::lex_first("1e-10rest"), Some((5, Num)));
}

#[test]
fn numeric_scan_leading_dot() {
    assert_eq!(Num::lex_first(".5"), Some((2, Num)));
}

#[test]
fn numeric_scan_lone_dot() {
    assert_eq!(Num::lex_first("."), None);
}

#[test]
fn numeric_scan_keeps_hex_and_underscores() {
    assert_eq!(Num::lex_first("0xFF_FF"), Some((7, Num)));
}

#[test]
fn numeric_scan_never_splits_a_range() {
    assert_eq!(Num::lex_first("5..10"), Some((1, Num)));
}

#[test]
fn left_arrow_munches_longest() {
    assert_eq!(
        tokenize("<-"),
        vec![Span::new(Token::Operator(Operator::LeftArrow), 0, 2)],
    );
}

#[test]
fn range_operators_munch_longest() {
    assert_eq!(
        tokenize(">..="),
        vec![Span::new(
            Token::Operator(Operator::GreaterDoubleDotEqual),
            0,
            4
        )],
    );
    assert_eq!(
        tokenize("..= .. >.."),
        vec![
            Span::new(Token::Operator(Operator::DoubleDotEqual), 0, 3),
            Span::new(Token::Whitespace, 3, 4),
            Span::new(Token::Operator(Operator::DoubleDot), 4, 6),
            Span::new(Token::Whitespace, 6, 7),
            Span::new(Token::Operator(Operator::GreaterDoubleDot), 7, 10),
        ],
    );
}

#[test]
fn keywords_against_identifiers() {
    assert_eq!(
        tokenize("true clonex"),
        vec![
            Span::new(Token::Keyword(Keyword::True), 0, 4),
            Span::new(Token::Whitespace, 4, 5),
            Span::new(Token::Ident, 5, 11),
        ],
    );
}

#[test]
fn spans_tile_the_buffer() {
    let src = "foo <- (1.5 ?? bar[..])";
    let toks = tokenize(src);
    let mut at = 0;
    for t in &toks {
        assert_eq!(t.from, at);
        assert!(t.to > t.from);
        at = t.to;
    }
    assert_eq!(at, src.len());
}

#[test]
fn string_and_char_literals() {
    assert_eq!(
        tokenize("\"ab\" 'c'"),
        vec![
            Span::new(Token::Str, 0, 4),
            Span::new(Token::Whitespace, 4, 5),
            Span::new(Token::Char, 5, 8),
        ],
    );
}
