//! The lexical vocabulary: what the character scanner hands to the tree
//! lexer and the parser. A token carries no owned text; its meaning comes
//! from its paired span.

use vstd::prelude::*;

verus! {

/// The three bracket shapes.
#[derive(Clone, Copy, Debug, PartialEq, Eq, Structural)]
pub enum Bracket {
    Paren,
    Bracket,
    Brace,
}

/// Whether a bracket character opens or closes its pair.
#[derive(Clone, Copy, Debug, PartialEq, Eq, Structural)]
pub enum Opening {
    Open,
    Close,
}

/// The keywords the expression grammar knows.
#[derive(Clone, Copy, Debug, PartialEq, Eq, Structural)]
pub enum Keyword {
    True,
    False,
    Null,
    Clone,
}

/// Operator and punctuation tokens, longest match first at the scanner.
#[derive(Clone, Copy, Debug, PartialEq, Eq, Structural)]
pub enum Operator {
    Dot,
    Comma,
    Semicolon,
    Equal,
    LeftArrow,
    Question,
    DoubleQuestion,
    Star,
    Slash,
    DoubleSlash,
    Percent,
    Plus,
    DoublePlus,
    Minus,
    Bang,
    Amp,
    DoubleAmp,
    Pipe,
    DoublePipe,
    DoubleEqual,
    NotEqual,
    Less,
    LessEqual,
    Greater,
    GreaterEqual,
    /// `..`: both bounds default (inclusive from, exclusive to).
    DoubleDot,
    /// `..=`: inclusive upper bound.
    DoubleDotEqual,
    /// `>..`: exclusive lower bound.
    GreaterDoubleDot,
    /// `>..=`: exclusive lower bound, inclusive upper bound.
    GreaterDoubleDotEqual,
}

/// One token of the flat stream.
#[derive(Clone, Copy, Debug, PartialEq, Eq, Structural)]
pub enum Token {
    Ident,
    Keyword(Keyword),
    Operator(Operator),
    Bracket(Opening, Bracket),
    Str,
    Char,
    Num,
    UnterminatedQuote,
    Unknown,
    Whitespace,
    Comment,
}

/// The token-level faults the scanner can emit.
#[derive(Clone, Copy, Debug, PartialEq, Eq, Structural)]
pub enum LexerError {
    UnterminatedQuote,
    Unknown,
}

/// The shape of a token, used to say which kinds were expected at a spot
/// where none of them stood.
#[derive(Clone, Copy, Debug, PartialEq, Eq, Structural)]
pub enum TokenKind {
    Ident,
    Keyword(Keyword),
    Operator(Operator),
    Bracket(Opening, Bracket),
    Str,
    Char,
    Num,
}

impl Token {
    /// Whitespace and comments carry no meaning for nesting or parsing.
    pub open spec fn spec_significant(self) -> bool {
        !(self is Whitespace || self is Comment)
    }

    #[verifier::when_used_as_spec(spec_significant)]
    pub fn significant(self) -> (r: bool)
        ensures
            r == self.spec_significant(),
    {
        !(matches!(self, Token::Whitespace | Token::Comment))
    }
}

} // verus!
