//! The character scanner: turns the byte-indexed source buffer into the
//! flat stream of spanned tokens that the tree lexer and the parser
//! consume. Longest match wins; every byte of the input lands in exactly
//! one token, so the spans of the stream tile the buffer.

use vstd::prelude::*;
use vstd::string::StringSliceAdditionalSpecFns;

use crate::ascii;
use crate::ascii::AMP;
use crate::ascii::APOSTROPHE;
use crate::ascii::BANG;
use crate::ascii::BRACE_CLOSE;
use crate::ascii::BRACE_OPEN;
use crate::ascii::BRACKET_CLOSE;
use crate::ascii::BRACKET_OPEN;
use crate::ascii::COMMA;
use crate::ascii::DOT;
use crate::ascii::EQUAL;
use crate::ascii::GREATER;
use crate::ascii::LESS;
use crate::ascii::LOWER_C;
use crate::ascii::LOWER_E;
use crate::ascii::LOWER_F;
use crate::ascii::LOWER_L;
use crate::ascii::LOWER_N;
use crate::ascii::LOWER_O;
use crate::ascii::LOWER_R;
use crate::ascii::LOWER_S;
use crate::ascii::LOWER_T;
use crate::ascii::LOWER_U;
use crate::ascii::MINUS;
use crate::ascii::NEWLINE;
use crate::ascii::PAREN_CLOSE;
use crate::ascii::PAREN_OPEN;
use crate::ascii::PERCENT;
use crate::ascii::PIPE;
use crate::ascii::PLUS;
use crate::ascii::QUESTION;
use crate::ascii::QUOTE;
use crate::ascii::SEMICOLON;
use crate::ascii::SLASH;
use crate::ascii::STAR;
use crate::number;
use crate::span::Span;
use crate::token::Bracket;
use crate::token::Keyword;
use crate::token::Opening;
use crate::token::Token;

verus! {

/// The first position at or after `i` whose byte fails `f`, or the end of
/// the buffer.
pub open spec fn scan_while(s: Seq<u8>, i: int, f: spec_fn(u8) -> bool) -> int
    decreases s.len() - i,
{
    if i < 0 || i >= s.len() {
        s.len() as int
    } else if f(s[i]) {
        scan_while(s, i + 1, f)
    } else {
        i
    }
}

/// What `scan_while` returns: a position in `i..=len` with every byte
/// before it passing `f` and, unless the buffer ended, a failing byte at it.
pub proof fn lemma_scan_while(s: Seq<u8>, i: int, f: spec_fn(u8) -> bool)
    requires
        0 <= i <= s.len(),
    ensures
        i <= scan_while(s, i, f) <= s.len(),
        scan_while(s, i, f) < s.len() ==> !f(s[scan_while(s, i, f)]),
        forall|j: int| i <= j < scan_while(s, i, f) ==> f(s[j]),
    decreases s.len() - i,
{
    if i < s.len() && f(s[i]) {
        lemma_scan_while(s, i + 1, f);
    }
}

/// Bytes a blank run is made of.
pub open spec fn blank_pred() -> spec_fn(u8) -> bool {
    |b: u8| ascii::spec_blank(b)
}

/// Bytes an identifier or keyword is made of.
pub open spec fn word_pred() -> spec_fn(u8) -> bool {
    |b: u8| ascii::spec_word_byte(b)
}

/// Bytes before the closing quote `q`.
pub open spec fn until_pred(q: u8) -> spec_fn(u8) -> bool {
    |b: u8| b != q
}

/// A byte that can start an identifier or keyword: a letter or underscore.
pub open spec fn spec_word_start(b: u8) -> bool {
    ascii::spec_word_byte(b) && !ascii::spec_digit(b)
}

/// The end of the blank run starting at `from`.
fn blank_end(bytes: &[u8], from: usize) -> (r: usize)
    requires
        from <= bytes@.len(),
    ensures
        r == scan_while(bytes@, from as int, blank_pred()),
        from <= r <= bytes@.len(),
{
    let n = bytes.len();
    let mut i = from;
    while i < n && ascii::blank(bytes[i])
        invariant
            from <= i <= n == bytes@.len(),
            scan_while(bytes@, from as int, blank_pred()) == scan_while(
                bytes@,
                i as int,
                blank_pred(),
            ),
        decreases n - i,
    {
        i = i + 1;
    }
    i
}

/// The end of the identifier or keyword starting at `from`.
fn word_end(bytes: &[u8], from: usize) -> (r: usize)
    requires
        from <= bytes@.len(),
    ensures
        r == scan_while(bytes@, from as int, word_pred()),
        from <= r <= bytes@.len(),
{
    let n = bytes.len();
    let mut i = from;
    while i < n && ascii::word_byte(bytes[i])
        invariant
            from <= i <= n == bytes@.len(),
            scan_while(bytes@, from as int, word_pred()) == scan_while(
                bytes@,
                i as int,
                word_pred(),
            ),
        decreases n - i,
    {
        i = i + 1;
    }
    i
}

/// The first position at or after `from` holding the byte `stop`, or the
/// end of the buffer.
fn scan_until(bytes: &[u8], from: usize, stop: u8) -> (r: usize)
    requires
        from <= bytes@.len(),
    ensures
        r == scan_while(bytes@, from as int, until_pred(stop)),
        from <= r <= bytes@.len(),
{
    let n = bytes.len();
    let mut i = from;
    while i < n && bytes[i] != stop
        invariant
            from <= i <= n == bytes@.len(),
            scan_while(bytes@, from as int, until_pred(stop)) == scan_while(
                bytes@,
                i as int,
                until_pred(stop),
            ),
        decreases n - i,
    {
        i = i + 1;
    }
    i
}

/// The keyword `true`, as bytes.
pub open spec fn kw_true() -> Seq<u8> {
    seq![LOWER_T, LOWER_R, LOWER_U, LOWER_E]
}

/// The keyword `false`, as bytes.
pub open spec fn kw_false() -> Seq<u8> {
    seq![LOWER_F, ascii::LOWER_A, LOWER_L, LOWER_S, LOWER_E]
}

/// The keyword `null`, as bytes.
pub open spec fn kw_null() -> Seq<u8> {
    seq![LOWER_N, LOWER_U, LOWER_L, LOWER_L]
}

/// The keyword `clone`, as bytes.
pub open spec fn kw_clone() -> Seq<u8> {
    seq![LOWER_C, LOWER_L, LOWER_O, LOWER_N, LOWER_E]
}

/// The token a word of the source stands for: one of the keywords, or an
/// identifier.
pub open spec fn word_token_of(w: Seq<u8>) -> Token {
    if w == kw_true() {
        Token::Keyword(Keyword::True)
    } else if w == kw_false() {
        Token::Keyword(Keyword::False)
    } else if w == kw_null() {
        Token::Keyword(Keyword::Null)
    } else if w == kw_clone() {
        Token::Keyword(Keyword::Clone)
    } else {
        Token::Ident
    }
}

/// Classify the word spanning `from..to` as a keyword or an identifier.
fn word_token(bytes: &[u8], from: usize, to: usize) -> (t: Token)
    requires
        from <= to <= bytes@.len(),
    ensures
        t == word_token_of(bytes@.subrange(from as int, to as int)),
{
    let ghost w = bytes@.subrange(from as int, to as int);
    let len = to - from;
    if len == 4 && bytes[from] == LOWER_T && bytes[from + 1] == LOWER_R && bytes[from + 2]
        == LOWER_U && bytes[from + 3] == LOWER_E {
        proof {
            assert(w =~= kw_true());
        }
        Token::Keyword(Keyword::True)
    } else if len == 5 && bytes[from] == LOWER_F && bytes[from + 1] == ascii::LOWER_A && bytes[from
        + 2] == LOWER_L && bytes[from + 3] == LOWER_S && bytes[from + 4] == LOWER_E {
        proof {
            assert(w =~= kw_false());
        }
        Token::Keyword(Keyword::False)
    } else if len == 4 && bytes[from] == LOWER_N && bytes[from + 1] == LOWER_U && bytes[from + 2]
        == LOWER_L && bytes[from + 3] == LOWER_L {
        proof {
            assert(w =~= kw_null());
        }
        Token::Keyword(Keyword::Null)
    } else if len == 5 && bytes[from] == LOWER_C && bytes[from + 1] == LOWER_L && bytes[from + 2]
        == LOWER_O && bytes[from + 3] == LOWER_N && bytes[from + 4] == LOWER_E {
        proof {
            assert(w =~= kw_clone());
        }
        Token::Keyword(Keyword::Clone)
    } else {
        proof {
            assert(w != kw_true() && w != kw_false() && w != kw_null() && w != kw_clone()) by {
                assert(w.len() == to - from);
                if w == kw_true() {
                    assert(w[0] == LOWER_T && w[1] == LOWER_R && w[2] == LOWER_U && w[3]
                        == LOWER_E);
                }
                if w == kw_false() {
                    assert(w[0] == LOWER_F && w[1] == ascii::LOWER_A && w[2] == LOWER_L && w[3]
                        == LOWER_S && w[4] == LOWER_E);
                }
                if w == kw_null() {
                    assert(w[0] == LOWER_N && w[1] == LOWER_U && w[2] == LOWER_L && w[3]
                        == LOWER_L);
                }
                if w == kw_clone() {
                    assert(w[0] == LOWER_C && w[1] == LOWER_L && w[2] == LOWER_O && w[3] == LOWER_N
                        && w[4] == LOWER_E);
                }
            }
        }
        Token::Ident
    }
}

/// A span over `from..to` noting `t`.
pub open spec fn sp(t: Token, from: int, to: int) -> Span<Token> {
    Span { note: t, from: from as usize, to: to as usize }
}

/// The token starting at byte `i` of the buffer: its kind and its span.
pub open spec fn spec_token_at(s: Seq<u8>, i: int) -> Span<Token> {
    let b = s[i];
    let n = s.len() as int;
    if ascii::spec_blank(b) {
        sp(Token::Whitespace, i, scan_while(s, i, blank_pred()))
    } else if b == MINUS && i + 1 < n && s[i + 1] == MINUS {
        sp(Token::Comment, i, scan_while(s, i, until_pred(NEWLINE)))
    } else if number::num_starts_at(s, i) {
        sp(Token::Num, i, number::num_scan_from(s, i + 1, false, false))
    } else if spec_word_start(b) {
        let end = scan_while(s, i, word_pred());
        sp(word_token_of(s.subrange(i, end)), i, end)
    } else if b == QUOTE {
        let stop = scan_while(s, i + 1, until_pred(QUOTE));
        if stop < n {
            sp(Token::Str, i, stop + 1)
        } else {
            sp(Token::UnterminatedQuote, i, n)
        }
    } else if b == APOSTROPHE {
        let stop = scan_while(s, i + 1, until_pred(APOSTROPHE));
        if stop < n {
            sp(Token::Char, i, stop + 1)
        } else {
            sp(Token::UnterminatedQuote, i, n)
        }
    } else {
        spec_punct_at(s, i)
    }
}

/// The token starting at byte `i` when it is punctuation: a bracket, an
/// operator, or an unknown byte.
pub open spec fn spec_punct_at(s: Seq<u8>, i: int) -> Span<Token> {
    let b = s[i];
    let n = s.len() as int;
    if b == PAREN_OPEN {
        sp(Token::Bracket(Opening::Open, Bracket::Paren), i, i + 1)
    } else if b == PAREN_CLOSE {
        sp(Token::Bracket(Opening::Close, Bracket::Paren), i, i + 1)
    } else if b == BRACKET_OPEN {
        sp(Token::Bracket(Opening::Open, Bracket::Bracket), i, i + 1)
    } else if b == BRACKET_CLOSE {
        sp(Token::Bracket(Opening::Close, Bracket::Bracket), i, i + 1)
    } else if b == BRACE_OPEN {
        sp(Token::Bracket(Opening::Open, Bracket::Brace), i, i + 1)
    } else if b == BRACE_CLOSE {
        sp(Token::Bracket(Opening::Close, Bracket::Brace), i, i + 1)
    } else if b == DOT {
        if i + 1 < n && s[i + 1] == DOT {
            if i + 2 < n && s[i + 2] == EQUAL {
                sp(Token::Operator(crate::token::Operator::DoubleDotEqual), i, i + 3)
            } else {
                sp(Token::Operator(crate::token::Operator::DoubleDot), i, i + 2)
            }
        } else {
            sp(Token::Operator(crate::token::Operator::Dot), i, i + 1)
        }
    } else if b == COMMA {
        sp(Token::Operator(crate::token::Operator::Comma), i, i + 1)
    } else if b == SEMICOLON {
        sp(Token::Operator(crate::token::Operator::Semicolon), i, i + 1)
    } else if b == EQUAL {
        if i + 1 < n && s[i + 1] == EQUAL {
            sp(Token::Operator(crate::token::Operator::DoubleEqual), i, i + 2)
        } else {
            sp(Token::Operator(crate::token::Operator::Equal), i, i + 1)
        }
    } else if b == LESS {
        if i + 1 < n && s[i + 1] == MINUS {
            sp(Token::Operator(crate::token::Operator::LeftArrow), i, i + 2)
        } else if i + 1 < n && s[i + 1] == EQUAL {
            sp(Token::Operator(crate::token::Operator::LessEqual), i, i + 2)
        } else {
            sp(Token::Operator(crate::token::Operator::Less), i, i + 1)
        }
    } else if b == GREATER {
        if i + 2 < n && s[i + 1] == DOT && s[i + 2] == DOT {
            if i + 3 < n && s[i + 3] == EQUAL {
                sp(Token::Operator(crate::token::Operator::GreaterDoubleDotEqual), i, i + 4)
            } else {
                sp(Token::Operator(crate::token::Operator::GreaterDoubleDot), i, i + 3)
            }
        } else if i + 1 < n && s[i + 1] == EQUAL {
            sp(Token::Operator(crate::token::Operator::GreaterEqual), i, i + 2)
        } else {
            sp(Token::Operator(crate::token::Operator::Greater), i, i + 1)
        }
    } else if b == QUESTION {
        if i + 1 < n && s[i + 1] == QUESTION {
            sp(Token::Operator(crate::token::Operator::DoubleQuestion), i, i + 2)
        } else {
            sp(Token::Operator(crate::token::Operator::Question), i, i + 1)
        }
    } else if b == STAR {
        sp(Token::Operator(crate::token::Operator::Star), i, i + 1)
    } else if b == SLASH {
        if i + 1 < n && s[i + 1] == SLASH {
            sp(Token::Operator(crate::token::Operator::DoubleSlash), i, i + 2)
        } else {
            sp(Token::Operator(crate::token::Operator::Slash), i, i + 1)
        }
    } else if b == PERCENT {
        sp(Token::Operator(crate::token::Operator::Percent), i, i + 1)
    } else if b == PLUS {
        if i + 1 < n && s[i + 1] == PLUS {
            sp(Token::Operator(crate::token::Operator::DoublePlus), i, i + 2)
        } else {
            sp(Token::Operator(crate::token::Operator::Plus), i, i + 1)
        }
    } else if b == MINUS {
        sp(Token::Operator(crate::token::Operator::Minus), i, i + 1)
    } else if b == BANG {
        if i + 1 < n && s[i + 1] == EQUAL {
            sp(Token::Operator(crate::token::Operator::NotEqual), i, i + 2)
        } else {
            sp(Token::Operator(crate::token::Operator::Bang), i, i + 1)
        }
    } else if b == AMP {
        if i + 1 < n && s[i + 1] == AMP {
            sp(Token::Operator(crate::token::Operator::DoubleAmp), i, i + 2)
        } else {
            sp(Token::Operator(crate::token::Operator::Amp), i, i + 1)
        }
    } else if b == PIPE {
        if i + 1 < n && s[i + 1] == PIPE {
            sp(Token::Operator(crate::token::Operator::DoublePipe), i, i + 2)
        } else {
            sp(Token::Operator(crate::token::Operator::Pipe), i, i + 1)
        }
    } else {
        sp(Token::Unknown, i, i + 1)
    }
}

/// Every token covers at least one byte and stays inside the buffer.
pub proof fn lemma_token_at_bounds(s: Seq<u8>, i: int)
    requires
        0 <= i < s.len(),
        s.len() <= usize::MAX,
    ensures
        i < spec_token_at(s, i).to <= s.len(),
        spec_token_at(s, i).from == i,
{
    let b = s[i];
    if ascii::spec_blank(b) {
        lemma_scan_while(s, i, blank_pred());
        lemma_scan_while(s, i + 1, blank_pred());
    } else if b == MINUS && i + 1 < s.len() && s[i + 1] == MINUS {
        lemma_scan_while(s, i, until_pred(NEWLINE));
        lemma_scan_while(s, i + 1, until_pred(NEWLINE));
    } else if number::num_starts_at(s, i) {
        number::lemma_num_scan_from_bounds(s, i + 1, false, false);
    } else if spec_word_start(b) {
        lemma_scan_while(s, i, word_pred());
        lemma_scan_while(s, i + 1, word_pred());
    } else if b == QUOTE {
        lemma_scan_while(s, i + 1, until_pred(QUOTE));
    } else if b == APOSTROPHE {
        lemma_scan_while(s, i + 1, until_pred(APOSTROPHE));
    }
}

/// Scan the token starting at byte `i`.
#[verifier::rlimit(60)]
fn next_token(bytes: &[u8], i: usize) -> (r: Span<Token>)
    requires
        i < bytes@.len(),
    ensures
        r == spec_token_at(bytes@, i as int),
        r.from == i && i < r.to <= bytes@.len(),
{
    let n = bytes.len();
    proof {
        lemma_token_at_bounds(bytes@, i as int);
    }
    let b = bytes[i];
    if ascii::blank(b) {
        Span { note: Token::Whitespace, from: i, to: blank_end(bytes, i) }
    } else if b == MINUS && i + 1 < n && bytes[i + 1] == MINUS {
        Span { note: Token::Comment, from: i, to: scan_until(bytes, i, NEWLINE) }
    } else if ascii::digit(b) || (b == DOT && i + 1 < n && ascii::digit(bytes[i + 1])) {
        Span { note: Token::Num, from: i, to: number::num_end(bytes, i) }
    } else if ascii::word_byte(b) {
        let end = word_end(bytes, i);
        Span { note: word_token(bytes, i, end), from: i, to: end }
    } else if b == QUOTE {
        let stop = scan_until(bytes, i + 1, QUOTE);
        if stop < n {
            Span { note: Token::Str, from: i, to: stop + 1 }
        } else {
            Span { note: Token::UnterminatedQuote, from: i, to: n }
        }
    } else if b == APOSTROPHE {
        let stop = scan_until(bytes, i + 1, APOSTROPHE);
        if stop < n {
            Span { note: Token::Char, from: i, to: stop + 1 }
        } else {
            Span { note: Token::UnterminatedQuote, from: i, to: n }
        }
    } else {
        punct_token(bytes, i)
    }
}

/// Scan the punctuation token starting at byte `i`: the byte there is not
/// blank and starts no comment, number, word, or quoted literal.
#[verifier::rlimit(60)]
fn punct_token(bytes: &[u8], i: usize) -> (r: Span<Token>)
    requires
        i < bytes@.len(),
        !ascii::spec_blank(bytes@[i as int]),
        !(bytes@[i as int] == MINUS && i + 1 < bytes@.len() && bytes@[i as int + 1] == MINUS),
        !number::num_starts_at(bytes@, i as int),
        !spec_word_start(bytes@[i as int]),
        bytes@[i as int] != QUOTE && bytes@[i as int] != APOSTROPHE,
    ensures
        r == spec_punct_at(bytes@, i as int),
        r.from == i && i < r.to <= bytes@.len(),
{
    let n = bytes.len();
    let b = bytes[i];
    if b == PAREN_OPEN {
        Span { note: Token::Bracket(Opening::Open, Bracket::Paren), from: i, to: i + 1 }
    } else if b == PAREN_CLOSE {
        Span { note: Token::Bracket(Opening::Close, Bracket::Paren), from: i, to: i + 1 }
    } else if b == BRACKET_OPEN {
        Span { note: Token::Bracket(Opening::Open, Bracket::Bracket), from: i, to: i + 1 }
    } else if b == BRACKET_CLOSE {
        Span { note: Token::Bracket(Opening::Close, Bracket::Bracket), from: i, to: i + 1 }
    } else if b == BRACE_OPEN {
        Span { note: Token::Bracket(Opening::Open, Bracket::Brace), from: i, to: i + 1 }
    } else if b == BRACE_CLOSE {
        Span { note: Token::Bracket(Opening::Close, Bracket::Brace), from: i, to: i + 1 }
    } else if b == DOT {
        if i + 1 < n && bytes[i + 1] == DOT {
            if i + 2 < n && bytes[i + 2] == EQUAL {
                Span {
                    note: Token::Operator(crate::token::Operator::DoubleDotEqual),
                    from: i,
                    to: i + 3,
                }
            } else {
                Span {
                    note: Token::Operator(crate::token::Operator::DoubleDot),
                    from: i,
                    to: i + 2,
                }
            }
        } else {
            Span { note: Token::Operator(crate::token::Operator::Dot), from: i, to: i + 1 }
        }
    } else if b == COMMA {
        Span { note: Token::Operator(crate::token::Operator::Comma), from: i, to: i + 1 }
    } else if b == SEMICOLON {
        Span { note: Token::Operator(crate::token::Operator::Semicolon), from: i, to: i + 1 }
    } else if b == EQUAL {
        if i + 1 < n && bytes[i + 1] == EQUAL {
            Span { note: Token::Operator(crate::token::Operator::DoubleEqual), from: i, to: i + 2 }
        } else {
            Span { note: Token::Operator(crate::token::Operator::Equal), from: i, to: i + 1 }
        }
    } else if b == LESS {
        if i + 1 < n && bytes[i + 1] == MINUS {
            Span { note: Token::Operator(crate::token::Operator::LeftArrow), from: i, to: i + 2 }
        } else if i + 1 < n && bytes[i + 1] == EQUAL {
            Span { note: Token::Operator(crate::token::Operator::LessEqual), from: i, to: i + 2 }
        } else {
            Span { note: Token::Operator(crate::token::Operator::Less), from: i, to: i + 1 }
        }
    } else if b == GREATER {
        if i + 1 < n && i + 2 < n && bytes[i + 1] == DOT && bytes[i + 2] == DOT {
            if i + 3 < n && bytes[i + 3] == EQUAL {
                Span {
                    note: Token::Operator(crate::token::Operator::GreaterDoubleDotEqual),
                    from: i,
                    to: i + 4,
                }
            } else {
                Span {
                    note: Token::Operator(crate::token::Operator::GreaterDoubleDot),
                    from: i,
                    to: i + 3,
                }
            }
        } else if i + 1 < n && bytes[i + 1] == EQUAL {
            Span {
                note: Token::Operator(crate::token::Operator::GreaterEqual),
                from: i,
                to: i + 2,
            }
        } else {
            Span { note: Token::Operator(crate::token::Operator::Greater), from: i, to: i + 1 }
        }
    } else if b == QUESTION {
        if i + 1 < n && bytes[i + 1] == QUESTION {
            Span {
                note: Token::Operator(crate::token::Operator::DoubleQuestion),
                from: i,
                to: i + 2,
            }
        } else {
            Span { note: Token::Operator(crate::token::Operator::Question), from: i, to: i + 1 }
        }
    } else if b == STAR {
        Span { note: Token::Operator(crate::token::Operator::Star), from: i, to: i + 1 }
    } else if b == SLASH {
        if i + 1 < n && bytes[i + 1] == SLASH {
            Span { note: Token::Operator(crate::token::Operator::DoubleSlash), from: i, to: i + 2 }
        } else {
            Span { note: Token::Operator(crate::token::Operator::Slash), from: i, to: i + 1 }
        }
    } else if b == PERCENT {
        Span { note: Token::Operator(crate::token::Operator::Percent), from: i, to: i + 1 }
    } else if b == PLUS {
        if i + 1 < n && bytes[i + 1] == PLUS {
            Span { note: Token::Operator(crate::token::Operator::DoublePlus), from: i, to: i + 2 }
        } else {
            Span { note: Token::Operator(crate::token::Operator::Plus), from: i, to: i + 1 }
        }
    } else if b == MINUS {
        Span { note: Token::Operator(crate::token::Operator::Minus), from: i, to: i + 1 }
    } else if b == BANG {
        if i + 1 < n && bytes[i + 1] == EQUAL {
            Span { note: Token::Operator(crate::token::Operator::NotEqual), from: i, to: i + 2 }
        } else {
            Span { note: Token::Operator(crate::token::Operator::Bang), from: i, to: i + 1 }
        }
    } else if b == AMP {
        if i + 1 < n && bytes[i + 1] == AMP {
            Span { note: Token::Operator(crate::token::Operator::DoubleAmp), from: i, to: i + 2 }
        } else {
            Span { note: Token::Operator(crate::token::Operator::Amp), from: i, to: i + 1 }
        }
    } else if b == PIPE {
        if i + 1 < n && bytes[i + 1] == PIPE {
            Span { note: Token::Operator(crate::token::Operator::DoublePipe), from: i, to: i + 2 }
        } else {
            Span { note: Token::Operator(crate::token::Operator::Pipe), from: i, to: i + 1 }
        }
    } else {
        Span { note: Token::Unknown, from: i, to: i + 1 }
    }
}

/// The token stream of the buffer from byte `i` on.
pub open spec fn spec_tokens_from(s: Seq<u8>, i: int) -> Seq<Span<Token>>
    decreases s.len() - i,
{
    if i < 0 || i >= s.len() {
        Seq::empty()
    } else {
        let t = spec_token_at(s, i);
        let raw = t.to as int;
        let next = if i < raw && raw <= s.len() {
            raw
        } else {
            i + 1
        };
        seq![t] + spec_tokens_from(s, next)
    }
}

/// The whole token stream of the buffer.
pub open spec fn spec_tokens(s: Seq<u8>) -> Seq<Span<Token>> {
    spec_tokens_from(s, 0)
}

/// Turn the source buffer into its token stream.
pub fn tokenize_bytes(bytes: &[u8]) -> (r: Vec<Span<Token>>)
    ensures
        r@ == spec_tokens(bytes@),
{
    let n = bytes.len();
    let mut toks: Vec<Span<Token>> = Vec::new();
    let mut i: usize = 0;
    while i < n
        invariant
            0 <= i <= n == bytes@.len(),
            spec_tokens(bytes@) == toks@ + spec_tokens_from(bytes@, i as int),
        decreases n - i,
    {
        let t = next_token(bytes, i);
        proof {
            assert(spec_tokens_from(bytes@, i as int) == seq![t] + spec_tokens_from(
                bytes@,
                t.to as int,
            ));
            assert(toks@ + spec_tokens_from(bytes@, i as int) =~= toks@.push(t)
                + spec_tokens_from(bytes@, t.to as int));
        }
        i = t.to;
        toks.push(t);
    }
    proof {
        assert(spec_tokens(bytes@) =~= toks@);
    }
    toks
}

/// Turn the source text into its token stream.
pub fn tokenize(src: &str) -> (r: Vec<Span<Token>>)
    ensures
        r@ == spec_tokens(src.spec_bytes()),
{
    tokenize_bytes(src.as_bytes())
}

/// Every token of a stream covers at least one byte and stays inside the
/// buffer that ends at `end`.
pub open spec fn tokens_wf(toks: Seq<Span<Token>>, end: int) -> bool {
    forall|j: int| 0 <= j < toks.len() ==> (#[trigger] toks[j]).from < toks[j].to <= end
}

/// The scanner's stream is well formed.
pub proof fn lemma_spec_tokens_wf(s: Seq<u8>, i: int)
    requires
        0 <= i,
        s.len() <= usize::MAX,
    ensures
        tokens_wf(spec_tokens_from(s, i), s.len() as int),
    decreases s.len() - i,
{
    if 0 <= i < s.len() {
        lemma_token_at_bounds(s, i);
        let t = spec_token_at(s, i);
        lemma_spec_tokens_wf(s, t.to as int);
        let whole = spec_tokens_from(s, i);
        let rest = spec_tokens_from(s, t.to as int);
        assert forall|j: int| 0 <= j < whole.len() implies (#[trigger] whole[j]).from < whole[j].to
            <= s.len() as int by {
            if j == 0 {
                assert(whole[0] == t);
            } else {
                assert(whole[j] == rest[j - 1]);
            }
        }
    }
}


/// The stream's spans tile the buffer: the first token starts at the scan
/// position, each token ends where the next begins, and the last ends at
/// the end of the buffer.
pub proof fn lemma_spec_tokens_tile(s: Seq<u8>, i: int)
    requires
        0 <= i,
        s.len() <= usize::MAX,
    ensures
        ({
            let toks = spec_tokens_from(s, i);
            &&& (toks.len() == 0 <==> i >= s.len())
            &&& toks.len() > 0 ==> toks[0].from == i
            &&& toks.len() > 0 ==> toks.last().to == s.len()
            &&& forall|j: int|
                0 <= j < toks.len() - 1 ==> (#[trigger] toks[j]).to == toks[j + 1].from
        }),
    decreases s.len() - i,
{
    if 0 <= i < s.len() {
        lemma_token_at_bounds(s, i);
        let t = spec_token_at(s, i);
        lemma_spec_tokens_tile(s, t.to as int);
        let whole = spec_tokens_from(s, i);
        let rest = spec_tokens_from(s, t.to as int);
        assert(whole[0] == t);
        assert(forall|j: int| 0 <= j < rest.len() ==> #[trigger] rest[j] == whole[j + 1]);
        if rest.len() == 0 {
            assert(t.to == s.len());
        }
        assert forall|j: int|
            0 <= j < whole.len() - 1 implies (#[trigger] whole[j]).to == whole[j + 1].from by {
            if j == 0 {
                assert(whole[1] == rest[0]);
            } else {
                assert(whole[j] == rest[j - 1] && whole[j + 1] == rest[j]);
            }
        }
    }
}

/// The tokens the tree lexer and the parser care about: everything except
/// whitespace and comments.
pub open spec fn sig_pred() -> spec_fn(Span<Token>) -> bool {
    |t: Span<Token>| t.note.spec_significant()
}

/// The significant tokens of a stream, in order.
pub open spec fn significant_tokens(toks: Seq<Span<Token>>) -> Seq<Span<Token>> {
    toks.filter(sig_pred())
}

/// Filtering keeps the stream well formed.
pub proof fn lemma_significant_wf(toks: Seq<Span<Token>>, end: int)
    requires
        tokens_wf(toks, end),
    ensures
        tokens_wf(significant_tokens(toks), end),
    decreases toks.len(),
{
    reveal(Seq::filter);
    if toks.len() > 0 {
        assert(tokens_wf(toks.drop_last(), end));
        lemma_significant_wf(toks.drop_last(), end);
        let f = significant_tokens(toks);
        let fd = significant_tokens(toks.drop_last());
        assert(toks.last().from < toks.last().to <= end);
        assert forall|j: int| 0 <= j < f.len() implies (#[trigger] f[j]).from < f[j].to <= end by {
            if sig_pred()(toks.last()) {
                assert(f == fd.push(toks.last()));
                if j < fd.len() {
                    assert(f[j] == fd[j]);
                } else {
                    assert(f[j] == toks.last());
                }
            } else {
                assert(f == fd);
            }
        }
    }
}


/// Tokens come in source order: each ends no later than a later one begins.
pub open spec fn tokens_ordered(toks: Seq<Span<Token>>) -> bool {
    forall|j: int, k: int|
        0 <= j < k < toks.len() ==> (#[trigger] toks[j]).to <= (#[trigger] toks[k]).from
}

/// The scanner's stream is ordered, and starts no earlier than the scan
/// position.
pub proof fn lemma_spec_tokens_ordered(s: Seq<u8>, i: int)
    requires
        0 <= i,
        s.len() <= usize::MAX,
    ensures
        tokens_ordered(spec_tokens_from(s, i)),
        forall|j: int|
            0 <= j < spec_tokens_from(s, i).len() ==> (#[trigger] spec_tokens_from(s, i)[j]).from
                >= i,
    decreases s.len() - i,
{
    if 0 <= i < s.len() {
        lemma_token_at_bounds(s, i);
        let t = spec_token_at(s, i);
        lemma_spec_tokens_ordered(s, t.to as int);
        let whole = spec_tokens_from(s, i);
        let rest = spec_tokens_from(s, t.to as int);
        assert(whole[0] == t);
        assert(forall|j: int| 0 <= j < rest.len() ==> #[trigger] rest[j] == whole[j + 1]);
        assert forall|j: int, k: int|
            0 <= j < k < whole.len() implies (#[trigger] whole[j]).to <= (
        #[trigger] whole[k]).from by {
            if j == 0 {
                assert(whole[k] == rest[k - 1]);
            } else {
                assert(whole[j] == rest[j - 1] && whole[k] == rest[k - 1]);
            }
        }
        assert forall|j: int| 0 <= j < whole.len() implies (#[trigger] whole[j]).from >= i by {
            if j > 0 {
                assert(whole[j] == rest[j - 1]);
            }
        }
    }
}

/// Every token's end stays within a bound.
pub open spec fn tokens_end_by(toks: Seq<Span<Token>>, m: int) -> bool {
    forall|j: int| 0 <= j < toks.len() ==> (#[trigger] toks[j]).to <= m
}

/// Filtering keeps the stream ordered and within its last token's end.
pub proof fn lemma_significant_ordered(toks: Seq<Span<Token>>, end: int)
    requires
        tokens_wf(toks, end),
        tokens_ordered(toks),
    ensures
        tokens_ordered(significant_tokens(toks)),
        toks.len() > 0 ==> tokens_end_by(significant_tokens(toks), toks.last().to as int),
    decreases toks.len(),
{
    reveal(Seq::filter);
    if toks.len() > 0 {
        let dl = toks.drop_last();
        let last = toks.last();
        assert(tokens_wf(dl, end));
        assert(tokens_ordered(dl)) by {
            assert(forall|j: int| 0 <= j < dl.len() ==> #[trigger] dl[j] == toks[j]);
        }
        lemma_significant_ordered(dl, end);
        let f = significant_tokens(toks);
        let fd = significant_tokens(dl);
        assert(dl.len() > 0 ==> dl.last().to <= last.from) by {
            if dl.len() > 0 {
                assert(toks[toks.len() - 2].to <= toks[toks.len() - 1].from);
                assert(dl.last() == toks[toks.len() - 2]);
            }
        }
        if sig_pred()(last) {
            assert(f == fd.push(last));
            assert forall|j: int, k: int|
                0 <= j < k < f.len() implies (#[trigger] f[j]).to <= (#[trigger] f[k]).from by {
                if k < f.len() - 1 {
                    assert(f[j] == fd[j] && f[k] == fd[k]);
                } else {
                    assert(f[k] == last);
                    if j < fd.len() {
                        assert(f[j] == fd[j]);
                        if dl.len() > 0 {
                            assert(fd[j].to <= dl.last().to);
                        }
                    }
                }
            }
            assert forall|j: int| 0 <= j < f.len() implies (#[trigger] f[j]).to <= last.to as int by {
                if j < fd.len() {
                    assert(f[j] == fd[j]);
                    if dl.len() > 0 {
                        assert(fd[j].to <= dl.last().to);
                        assert(last.from <= last.to);
                    }
                } else {
                    assert(f[j] == last);
                }
            }
        } else {
            assert(f == fd);
            assert forall|j: int| 0 <= j < f.len() implies (#[trigger] f[j]).to <= last.to as int by {
                if dl.len() > 0 {
                    assert(f[j].to <= dl.last().to);
                    assert(dl.last().to <= last.from);
                    assert(last.from < last.to);
                }
            }
        }
    }
}

/// Keep the significant tokens of the stream, in order.
pub fn filter_significant(toks: &Vec<Span<Token>>) -> (r: Vec<Span<Token>>)
    ensures
        r@ == significant_tokens(toks@),
{
    let n = toks.len();
    let mut out: Vec<Span<Token>> = Vec::new();
    let mut i: usize = 0;
    proof {
        reveal(Seq::filter);
        assert(toks@.take(0).filter(sig_pred()) =~= Seq::<Span<Token>>::empty());
    }
    while i < n
        invariant
            0 <= i <= n == toks@.len(),
            out@ == significant_tokens(toks@.take(i as int)),
        decreases n - i,
    {
        let t = toks[i];
        proof {
            reveal(Seq::filter);
            assert(toks@.take(i + 1).drop_last() =~= toks@.take(i as int));
            assert(toks@.take(i + 1).last() == t);
        }
        if t.note.significant() {
            out.push(t);
            proof {
                assert(significant_tokens(toks@.take(i + 1)) == significant_tokens(
                    toks@.take(i as int),
                ).push(t));
            }
        } else {
            proof {
                assert(significant_tokens(toks@.take(i + 1)) == significant_tokens(
                    toks@.take(i as int),
                ));
            }
        }
        i = i + 1;
    }
    proof {
        assert(toks@.take(n as int) =~= toks@);
    }
    out
}

/// The significant tokens of the source text.
pub fn tokenize_significant(src: &str) -> (r: Vec<Span<Token>>)
    ensures
        r@ == significant_tokens(spec_tokens(src.spec_bytes())),
{
    let toks = tokenize(src);
    filter_significant(&toks)
}

} // verus!
