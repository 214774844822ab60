use exprfront::span::Span;
use exprfront::token::Bracket;
use exprfront::token::LexerError;
use exprfront::token::Token;
use exprfront::tree_lexer::BracketError;
use exprfront::tree_lexer::Tree;
use exprfront::tree_lexer::TreeError;
use exprfront::tree_lexer::TreeSpans;
use exprfront::tree_lexer::TreeSpansResult;

#[test]
fn tree_lex() {
    assert_eq!(
        Tree::lex("()[{}]"),
        Ok(vec![
            Tree::Tree(Bracket::Paren, vec![]),
            Tree::Tree(Bracket::Bracket, vec![Tree::Tree(Bracket::Brace, vec![])]),
        ]),
    );
}

#[test]
fn tree_lex_keeps_interior_tokens() {
    assert_eq!(
        Tree::lex("( foo )"),
        Ok(vec![Tree::Tree(
            Bracket::Paren,
            vec![
                Tree::Token(Token::Whitespace),
                Tree::Token(Token::Ident),
                Tree::Token(Token::Whitespace),
            ],
        )]),
    );
}

#[test]
fn one_unmatched_open() {
    assert_eq!(
        Tree::lex("("),
        Err(vec![TreeError::Tree(BracketError::Unmatched(Span::new(
            Bracket::Paren,
            0,
            1
        )))]),
    );
}

#[test]
fn unmatched_open_amid_balance() {
    assert_eq!(
        Tree::lex("()[{}"),
        Err(vec![TreeError::Tree(BracketError::Unmatched(Span::new(
            Bracket::Bracket,
            2,
            3
        )))]),
    );
}

#[test]
fn unmatched_drain_most_recent_first() {
    assert_eq!(
        Tree::lex("(["),
        Err(vec![
            TreeError::Tree(BracketError::Unmatched(Span::new(Bracket::Bracket, 1, 2))),
            TreeError::Tree(BracketError::Unmatched(Span::new(Bracket::Paren, 0, 1))),
        ]),
    );
}

#[test]
fn mismatch_stops_the_scan() {
    assert_eq!(
        Tree::lex("(] foo ("),
        Err(vec![TreeError::Tree(BracketError::Mismatch(
            Span::new(Bracket::Paren, 0, 1),
            Span::new(Bracket::Bracket, 1, 2),
        ))]),
    );
}

#[test]
fn mismatch_drains_outer_opens() {
    assert_eq!(
        Tree::lex("((]"),
        Err(vec![
            TreeError::Tree(BracketError::Mismatch(
                Span::new(Bracket::Paren, 1, 2),
                Span::new(Bracket::Bracket, 2, 3),
            )),
            TreeError::Tree(BracketError::Unmatched(Span::new(Bracket::Paren, 0, 1))),
        ]),
    );
}

#[test]
fn tree_spans_drains_after_mismatch() {
    let mut walk = TreeSpans::new("((]");
    assert_eq!(
        walk.next(),
        Some(TreeSpansResult::In(Span::new(Bracket::Paren, 0, 1)))
    );
    assert_eq!(
        walk.next(),
        Some(TreeSpansResult::In(Span::new(Bracket::Paren, 1, 2)))
    );
    assert_eq!(
        walk.next(),
        Some(TreeSpansResult::TreeError(BracketError::Mismatch(
            Span::new(Bracket::Paren, 1, 2),
            Span::new(Bracket::Bracket, 2, 3),
        )))
    );
    assert_eq!(
        walk.next(),
        Some(TreeSpansResult::TreeError(BracketError::Unmatched(
            Span::new(Bracket::Paren, 0, 1)
        )))
    );
    assert_eq!(walk.next(), None);
}

#[test]
fn unexpected_close() {
    assert_eq!(
        Tree::lex(")"),
        Err(vec![TreeError::Tree(BracketError::Unexpected(Span::new(
            Bracket::Paren,
            0,
            1
        )))]),
    );
}

#[test]
fn unterminated_quote_is_reported() {
    assert_eq!(
        Tree::lex("\"abc"),
        Err(vec![TreeError::Token(Span::new(
            LexerError::UnterminatedQuote,
            0,
            4
        ))]),
    );
}

#[test]
fn unknown_byte_is_reported() {
    assert_eq!(
        Tree::lex("@"),
        Err(vec![TreeError::Token(Span::new(LexerError::Unknown, 0, 1))]),
    );
}

#[test]
fn token_fault_then_unmatched_in_order() {
    assert_eq!(
        Tree::lex("@("),
        Err(vec![
            TreeError::Token(Span::new(LexerError::Unknown, 0, 1)),
            TreeError::Tree(BracketError::Unmatched(Span::new(Bracket::Paren, 1, 2))),
        ]),
    );
}

#[test]
fn tree_spans_events() {
    let mut walk = TreeSpans::new("(a)");
    assert_eq!(
        walk.next(),
        Some(TreeSpansResult::In(Span::new(Bracket::Paren, 0, 1)))
    );
    assert_eq!(
        walk.next(),
        Some(TreeSpansResult::Token(Span::new(Token::Ident, 1, 2)))
    );
    assert_eq!(
        walk.next(),
        Some(TreeSpansResult::Out(Span::new(Bracket::Paren, 2, 3)))
    );
    assert_eq!(walk.next(), None);
}

#[test]
fn tree_spans_drains_unmatched() {
    let mut walk = TreeSpans::new("{(");
    assert_eq!(
        walk.next(),
        Some(TreeSpansResult::In(Span::new(Bracket::Brace, 0, 1)))
    );
    assert_eq!(
        walk.next(),
        Some(TreeSpansResult::In(Span::new(Bracket::Paren, 1, 2)))
    );
    assert_eq!(
        walk.next(),
        Some(TreeSpansResult::TreeError(BracketError::Unmatched(
            Span::new(Bracket::Paren, 1, 2)
        )))
    );
    assert_eq!(
        walk.next(),
        Some(TreeSpansResult::TreeError(BracketError::Unmatched(
            Span::new(Bracket::Brace, 0, 1)
        )))
    );
    assert_eq!(walk.next(), None);
}
